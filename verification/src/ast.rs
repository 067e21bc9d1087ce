//! The comment-preserving syntax tree that the formatter renders.
//!
//! Every node owns its children. Comments and blank lines are first-class:
//! the `SpaceBefore` and `SpaceAfter` wrappers attach a non-empty run of
//! trivia to the node they enclose.

use vstd::prelude::*;

verus! {

/// One item of trivia. Comment text is stored without its marker.
#[derive(Debug, Clone)]
pub enum CommentOrNewline {
    Newline,
    LineComment(String),
    DocComment(String),
}

/// The radix of an integer literal.
#[derive(Debug, Clone, Copy)]
pub enum Base {
    Hex,
    Octal,
    Binary,
    Decimal,
}

#[derive(Debug, Clone, Copy)]
pub enum BinOp {
    Caret,
    Star,
    Slash,
    DoubleSlash,
    Percent,
    DoublePercent,
    Plus,
    Minus,
    Equals,
    NotEquals,
    LessThan,
    GreaterThan,
    LessThanOrEq,
    GreaterThanOrEq,
    And,
    Or,
    Pizza,
}

#[derive(Debug, Clone, Copy)]
pub enum UnaryOp {
    Negate,
    Not,
}

/// A character written as a backslash escape inside a string literal.
#[derive(Debug, Clone, Copy)]
pub enum EscapedChar {
    Newline,
    Tab,
    Quote,
    Backslash,
    CarriageReturn,
}

/// A span of source text.
#[derive(Debug, Clone, Copy)]
pub struct Region {
    pub start_line: u32,
    pub end_line: u32,
    pub start_col: u16,
    pub end_col: u16,
}

/// A value together with the source span it was read from.
#[derive(Debug, Clone)]
pub struct Located<T> {
    pub region: Region,
    pub value: T,
}

#[derive(Debug)]
pub enum Pattern {
    Identifier(String),
    GlobalTag(String),
    PrivateTag(String),
    Apply(Box<Pattern>, Vec<Pattern>),
    RecordDestructure(Vec<Pattern>),
    NumLiteral(String),
    StrLiteral(String),
    Underscore,
    SpaceBefore(Box<Pattern>, Vec<CommentOrNewline>),
    SpaceAfter(Box<Pattern>, Vec<CommentOrNewline>),
    Nested(Box<Pattern>),
    Malformed(String),
}

#[derive(Debug)]
pub enum StrSegment {
    Plaintext(String),
    /// The hexadecimal digits of a `\u(...)` escape.
    Unicode(String),
    EscapedChar(EscapedChar),
    Interpolated(Box<Expr>),
}

#[derive(Debug)]
pub enum StrLiteral {
    PlainLine(String),
    Line(Vec<StrSegment>),
    Block(Vec<Vec<StrSegment>>),
}

/// A field of a record literal.
#[derive(Debug)]
pub enum AssignedField {
    /// `name: value`, with the trivia found between the name and the colon.
    RequiredValue(String, Vec<CommentOrNewline>, Box<Expr>),
    /// `name ? value`, with the trivia found between the name and the mark.
    OptionalValue(String, Vec<CommentOrNewline>, Box<Expr>),
    LabelOnly(String),
    SpaceBefore(Box<AssignedField>, Vec<CommentOrNewline>),
    SpaceAfter(Box<AssignedField>, Vec<CommentOrNewline>),
    Malformed(String),
}

/// A definition inside a let-form.
#[derive(Debug)]
pub enum Def {
    Body(Pattern, Box<Expr>),
    SpaceBefore(Box<Def>, Vec<CommentOrNewline>),
    SpaceAfter(Box<Def>, Vec<CommentOrNewline>),
    Nested(Box<Def>),
}

/// One branch of a pattern match: alternatives, an optional guard, a body.
#[derive(Debug)]
pub struct WhenBranch {
    pub patterns: Vec<Located<Pattern>>,
    pub value: Expr,
    pub guard: Option<Expr>,
}

#[derive(Debug)]
pub enum Expr {
    Float(String),
    Num(String),
    NonBase10Int { string: String, base: Base, is_negative: bool },
    Str(StrLiteral),
    Access(Box<Expr>, String),
    AccessorFunction(String),
    List { items: Vec<Expr>, final_comments: Vec<CommentOrNewline> },
    Record { update: Option<Box<Expr>>, fields: Vec<AssignedField>, final_comments: Vec<CommentOrNewline> },
    /// An identifier; `module_name` is empty when it is unqualified.
    Var { module_name: String, ident: String },
    GlobalTag(String),
    PrivateTag(String),
    Closure(Vec<Pattern>, Box<Expr>),
    Defs(Vec<Def>, Box<Expr>),
    Apply(Box<Expr>, Vec<Expr>),
    BinOp(Box<Expr>, BinOp, Box<Expr>),
    UnaryOp(Box<Expr>, UnaryOp),
    If(Box<Expr>, Box<Expr>, Box<Expr>),
    When(Box<Expr>, Vec<WhenBranch>),
    SpaceBefore(Box<Expr>, Vec<CommentOrNewline>),
    SpaceAfter(Box<Expr>, Vec<CommentOrNewline>),
    ParensAround(Box<Expr>),
    Nested(Box<Expr>),
    MalformedIdent(String),
    MalformedClosure,
    /// Two operators whose precedence conflicts, and the expression they
    /// were found in.
    PrecedenceConflict(BinOp, BinOp, Box<Expr>),
}

pub open spec fn max(a: nat, b: nat) -> nat {
    if a >= b { a } else { b }
}

/// The height of a pattern.
pub open spec fn pattern_depth(p: Pattern) -> nat
    decreases p,
{
    match p {
        Pattern::Apply(head, args) => 1 + max(pattern_depth(*head), patterns_depth(args@)),
        Pattern::RecordDestructure(fields) => 1 + patterns_depth(fields@),
        Pattern::SpaceBefore(sub, _) => 1 + pattern_depth(*sub),
        Pattern::SpaceAfter(sub, _) => 1 + pattern_depth(*sub),
        Pattern::Nested(sub) => 1 + pattern_depth(*sub),
        _ => 1,
    }
}

/// The greatest height among a sequence of patterns.
pub open spec fn patterns_depth(ps: Seq<Pattern>) -> nat
    decreases ps,
{
    if ps.len() == 0 {
        0
    } else {
        max(patterns_depth(ps.drop_last()), pattern_depth(ps.last()))
    }
}

/// The height of an expression: one more than the greatest height among
/// the nodes it holds.
pub open spec fn expr_depth(e: Expr) -> nat
    decreases e,
{
    match e {
        Expr::Str(literal) => 1 + literal_depth(literal),
        Expr::Access(sub, _) => 1 + expr_depth(*sub),
        Expr::List { items, .. } => 1 + exprs_depth(items@),
        Expr::Record { update, fields, .. } => 1 + max(
            match update {
                Some(base) => expr_depth(*base),
                None => 0,
            },
            fields_depth(fields@),
        ),
        Expr::Closure(patterns, body) => 1 + expr_depth(*body),
        Expr::Defs(defs, ret) => 1 + max(defs_depth(defs@), expr_depth(*ret)),
        Expr::Apply(head, args) => 1 + max(expr_depth(*head), exprs_depth(args@)),
        Expr::BinOp(left, _, right) => 1 + max(expr_depth(*left), expr_depth(*right)),
        Expr::UnaryOp(sub, _) => 1 + expr_depth(*sub),
        Expr::If(cond, then_branch, else_branch) => 1 + max(
            expr_depth(*cond),
            max(expr_depth(*then_branch), expr_depth(*else_branch)),
        ),
        Expr::When(cond, branches) => 1 + max(expr_depth(*cond), branches_depth(branches@)),
        Expr::SpaceBefore(sub, _) => 1 + expr_depth(*sub),
        Expr::SpaceAfter(sub, _) => 1 + expr_depth(*sub),
        Expr::ParensAround(sub) => 1 + expr_depth(*sub),
        Expr::Nested(sub) => 1 + expr_depth(*sub),
        Expr::PrecedenceConflict(_, _, sub) => 1 + expr_depth(*sub),
        _ => 1,
    }
}

/// The greatest height among a sequence of expressions.
pub open spec fn exprs_depth(es: Seq<Expr>) -> nat
    decreases es,
{
    if es.len() == 0 {
        0
    } else {
        max(exprs_depth(es.drop_last()), expr_depth(es.last()))
    }
}

pub open spec fn segment_depth(segment: StrSegment) -> nat
    decreases segment,
{
    match segment {
        StrSegment::Interpolated(inner) => 1 + expr_depth(*inner),
        _ => 1,
    }
}

pub open spec fn segments_depth(segments: Seq<StrSegment>) -> nat
    decreases segments,
{
    if segments.len() == 0 {
        0
    } else {
        max(segments_depth(segments.drop_last()), segment_depth(segments.last()))
    }
}

pub open spec fn literal_depth(literal: StrLiteral) -> nat
    decreases literal,
{
    match literal {
        StrLiteral::PlainLine(_) => 0,
        StrLiteral::Line(segments) => segments_depth(segments@),
        StrLiteral::Block(lines) => lines_depth(lines@),
    }
}

pub open spec fn lines_depth(lines: Seq<Vec<StrSegment>>) -> nat
    decreases lines,
{
    if lines.len() == 0 {
        0
    } else {
        max(lines_depth(lines.drop_last()), segments_depth(lines.last()@))
    }
}

pub open spec fn field_depth(field: AssignedField) -> nat
    decreases field,
{
    match field {
        AssignedField::RequiredValue(_, _, value) => 1 + expr_depth(*value),
        AssignedField::OptionalValue(_, _, value) => 1 + expr_depth(*value),
        AssignedField::SpaceBefore(sub, _) => 1 + field_depth(*sub),
        AssignedField::SpaceAfter(sub, _) => 1 + field_depth(*sub),
        _ => 1,
    }
}

pub open spec fn fields_depth(fields: Seq<AssignedField>) -> nat
    decreases fields,
{
    if fields.len() == 0 {
        0
    } else {
        max(fields_depth(fields.drop_last()), field_depth(fields.last()))
    }
}

pub open spec fn def_depth(def: Def) -> nat
    decreases def,
{
    match def {
        Def::Body(_, body) => 1 + expr_depth(*body),
        Def::SpaceBefore(sub, _) => 1 + def_depth(*sub),
        Def::SpaceAfter(sub, _) => 1 + def_depth(*sub),
        Def::Nested(sub) => 1 + def_depth(*sub),
    }
}

pub open spec fn defs_depth(defs: Seq<Def>) -> nat
    decreases defs,
{
    if defs.len() == 0 {
        0
    } else {
        max(defs_depth(defs.drop_last()), def_depth(defs.last()))
    }
}

pub open spec fn branch_depth(branch: WhenBranch) -> nat
    decreases branch,
{
    1 + max(
        expr_depth(branch.value),
        match branch.guard {
            Some(guard) => expr_depth(guard),
            None => 0,
        },
    )
}

pub open spec fn branches_depth(branches: Seq<WhenBranch>) -> nat
    decreases branches,
{
    if branches.len() == 0 {
        0
    } else {
        max(branches_depth(branches.drop_last()), branch_depth(branches.last()))
    }
}

/// No element of a sequence is higher than the sequence.
pub proof fn lemma_exprs_depth(es: Seq<Expr>, i: int)
    requires
        0 <= i < es.len(),
    ensures
        expr_depth(es[i]) <= exprs_depth(es),
    decreases es.len(),
{
    if i < es.len() - 1 {
        lemma_exprs_depth(es.drop_last(), i);
    }
}

pub proof fn lemma_segments_depth(segments: Seq<StrSegment>, i: int)
    requires
        0 <= i < segments.len(),
    ensures
        segment_depth(segments[i]) <= segments_depth(segments),
    decreases segments.len(),
{
    if i < segments.len() - 1 {
        lemma_segments_depth(segments.drop_last(), i);
    }
}

pub proof fn lemma_lines_depth(lines: Seq<Vec<StrSegment>>, i: int)
    requires
        0 <= i < lines.len(),
    ensures
        segments_depth(lines[i]@) <= lines_depth(lines),
    decreases lines.len(),
{
    if i < lines.len() - 1 {
        lemma_lines_depth(lines.drop_last(), i);
    }
}

pub proof fn lemma_fields_depth(fields: Seq<AssignedField>, i: int)
    requires
        0 <= i < fields.len(),
    ensures
        field_depth(fields[i]) <= fields_depth(fields),
    decreases fields.len(),
{
    if i < fields.len() - 1 {
        lemma_fields_depth(fields.drop_last(), i);
    }
}

pub proof fn lemma_defs_depth(defs: Seq<Def>, i: int)
    requires
        0 <= i < defs.len(),
    ensures
        def_depth(defs[i]) <= defs_depth(defs),
    decreases defs.len(),
{
    if i < defs.len() - 1 {
        lemma_defs_depth(defs.drop_last(), i);
    }
}

pub proof fn lemma_branches_depth(branches: Seq<WhenBranch>, i: int)
    requires
        0 <= i < branches.len(),
    ensures
        branch_depth(branches[i]) <= branches_depth(branches),
    decreases branches.len(),
{
    if i < branches.len() - 1 {
        lemma_branches_depth(branches.drop_last(), i);
    }
}

} // verus!
