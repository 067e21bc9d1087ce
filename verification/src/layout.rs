//! The multi-line predicate: whether rendering a node must span more than
//! one physical line.

use vstd::prelude::*;
use crate::ast::{
    expr_depth, exprs_depth, field_depth, fields_depth, lemma_exprs_depth, lemma_fields_depth,
    AssignedField, BinOp, Expr, StrLiteral,
};
use crate::pattern::{any_multiline, any_pattern_multiline};

verus! {

/// Whether an expression forces a multi-line layout.
pub open spec fn expr_multiline(e: Expr) -> bool
    decreases e,
{
    match e {
        Expr::SpaceBefore(_, _) => true,
        Expr::SpaceAfter(_, _) => true,
        Expr::Defs(_, _) => true,
        Expr::When(_, _) => true,
        Expr::List { items, .. } => any_expr_multiline(items@),
        Expr::Str(StrLiteral::Block(lines)) => lines@.len() > 1,
        Expr::Apply(head, args) => expr_multiline(*head) || any_expr_multiline(args@),
        Expr::If(cond, then_branch, else_branch) => expr_multiline(*cond) || expr_multiline(
            *then_branch,
        ) || expr_multiline(*else_branch),
        Expr::BinOp(left, _, right) => expr_multiline(*left) || expr_multiline(*right),
        Expr::UnaryOp(sub, _) => expr_multiline(*sub),
        Expr::PrecedenceConflict(_, _, sub) => expr_multiline(*sub),
        Expr::ParensAround(sub) => expr_multiline(*sub),
        Expr::Nested(sub) => expr_multiline(*sub),
        Expr::Closure(patterns, body) => expr_multiline(*body) || any_pattern_multiline(patterns@),
        Expr::Record { fields, .. } => any_field_multiline(fields@),
        _ => false,
    }
}

/// Whether some expression of the sequence is multi-line.
pub open spec fn any_expr_multiline(es: Seq<Expr>) -> bool
    decreases es,
{
    if es.len() == 0 {
        false
    } else {
        any_expr_multiline(es.drop_last()) || expr_multiline(es.last())
    }
}

/// Whether a record field forces a multi-line layout.
pub open spec fn field_multiline(field: AssignedField) -> bool
    decreases field,
{
    match field {
        AssignedField::RequiredValue(_, trivia, value) => trivia@.len() > 0 || expr_multiline(
            *value,
        ),
        AssignedField::OptionalValue(_, trivia, value) => trivia@.len() > 0 || expr_multiline(
            *value,
        ),
        AssignedField::LabelOnly(_) => false,
        AssignedField::SpaceBefore(_, _) => true,
        AssignedField::SpaceAfter(_, _) => true,
        AssignedField::Malformed(raw) => raw@.contains('\n'),
    }
}

/// Whether some field of the sequence is multi-line.
pub open spec fn any_field_multiline(fields: Seq<AssignedField>) -> bool
    decreases fields,
{
    if fields.len() == 0 {
        false
    } else {
        any_field_multiline(fields.drop_last()) || field_multiline(fields.last())
    }
}

/// A chain of operators is multi-line as soon as one link of its right
/// spine is: the operand at the right end of the link that follows makes
/// the whole chain multi-line.
pub proof fn lemma_chain_spreads(left: Expr, op: BinOp, right: Expr)
    ensures
        expr_multiline(Expr::BinOp(Box::new(left), op, Box::new(right))) == (expr_multiline(left)
            || expr_multiline(right) || match right {
            Expr::BinOp(_, _, next_right) => expr_multiline(*next_right),
            _ => false,
        }),
{
}

/// A multi-line expression in a prefix is a multi-line expression in the
/// whole.
pub proof fn lemma_any_expr_multiline_prefix(es: Seq<Expr>, k: int)
    requires
        0 <= k <= es.len(),
        any_expr_multiline(es.take(k)),
    ensures
        any_expr_multiline(es),
    decreases es.len() - k,
{
    if k < es.len() {
        assert(es.take(k + 1).drop_last() =~= es.take(k));
        lemma_any_expr_multiline_prefix(es, k + 1);
    } else {
        assert(es.take(k) =~= es);
    }
}

pub proof fn lemma_any_field_multiline_prefix(fields: Seq<AssignedField>, k: int)
    requires
        0 <= k <= fields.len(),
        any_field_multiline(fields.take(k)),
    ensures
        any_field_multiline(fields),
    decreases fields.len() - k,
{
    if k < fields.len() {
        assert(fields.take(k + 1).drop_last() =~= fields.take(k));
        lemma_any_field_multiline_prefix(fields, k + 1);
    } else {
        assert(fields.take(k) =~= fields);
    }
}

/// Whether a string holds a line feed.
fn has_line_feed(s: &str) -> (r: bool)
    ensures
        r == s@.contains('\n'),
{
    let n = s.unicode_len();
    let mut i: usize = 0;
    while i < n
        invariant
            n == s@.len(),
            i <= n,
            forall|j: int| 0 <= j < i ==> s@[j] != '\n',
        decreases n - i,
    {
        if s.get_char(i) == '\n' {
            return true;
        }
        i = i + 1;
    }
    false
}

impl Expr {
    /// Whether rendering this expression must span more than one line.
    pub fn is_multiline(&self) -> (r: bool)
        ensures
            r == expr_multiline(*self),
        decreases expr_depth(*self), 0nat,
    {
        match self {
            Expr::SpaceBefore(_, _) => true,
            Expr::SpaceAfter(_, _) => true,
            Expr::Defs(_, _) => true,
            Expr::When(_, _) => true,
            Expr::List { items, .. } => any_expr_is_multiline(items),
            Expr::Str(literal) => match literal {
                StrLiteral::Block(lines) => lines.len() > 1,
                _ => false,
            },
            Expr::Apply(head, args) => head.is_multiline() || any_expr_is_multiline(args),
            Expr::If(cond, then_branch, else_branch) => cond.is_multiline()
                || then_branch.is_multiline() || else_branch.is_multiline(),
            Expr::BinOp(left, _, right) => left.is_multiline() || right.is_multiline(),
            Expr::UnaryOp(sub, _) => sub.is_multiline(),
            Expr::PrecedenceConflict(_, _, sub) => sub.is_multiline(),
            Expr::ParensAround(sub) => sub.is_multiline(),
            Expr::Nested(sub) => sub.is_multiline(),
            Expr::Closure(patterns, body) => body.is_multiline() || any_multiline(patterns),
            Expr::Record { fields, .. } => any_field_is_multiline(fields),
            _ => false,
        }
    }
}

impl AssignedField {
    /// Whether this field forces the record onto several lines.
    pub fn is_multiline(&self) -> (r: bool)
        ensures
            r == field_multiline(*self),
        decreases field_depth(*self), 0nat,
    {
        match self {
            AssignedField::RequiredValue(_, trivia, value) => trivia.len() > 0
                || value.is_multiline(),
            AssignedField::OptionalValue(_, trivia, value) => trivia.len() > 0
                || value.is_multiline(),
            AssignedField::LabelOnly(_) => false,
            AssignedField::SpaceBefore(_, _) => true,
            AssignedField::SpaceAfter(_, _) => true,
            AssignedField::Malformed(raw) => has_line_feed(raw.as_str()),
        }
    }
}

/// Whether some expression of the slice is multi-line.
pub fn any_expr_is_multiline(es: &Vec<Expr>) -> (r: bool)
    ensures
        r == any_expr_multiline(es@),
    decreases exprs_depth(es@), 1nat,
{
    let n = es.len();
    let mut i: usize = 0;
    assert(es@.take(0) =~= Seq::empty());
    while i < n
        invariant
            n == es@.len(),
            i <= n,
            !any_expr_multiline(es@.take(i as int)),
        decreases n - i,
    {
        assert(es@.take(i + 1).drop_last() =~= es@.take(i as int));
        proof {
            lemma_exprs_depth(es@, i as int);
        }
        if es[i].is_multiline() {
            proof {
                lemma_any_expr_multiline_prefix(es@, i + 1);
            }
            return true;
        }
        i = i + 1;
    }
    assert(es@.take(n as int) =~= es@);
    false
}

/// Whether some field of the slice is multi-line.
pub fn any_field_is_multiline(fields: &Vec<AssignedField>) -> (r: bool)
    ensures
        r == any_field_multiline(fields@),
    decreases fields_depth(fields@), 1nat,
{
    let n = fields.len();
    let mut i: usize = 0;
    assert(fields@.take(0) =~= Seq::empty());
    while i < n
        invariant
            n == fields@.len(),
            i <= n,
            !any_field_multiline(fields@.take(i as int)),
        decreases n - i,
    {
        assert(fields@.take(i + 1).drop_last() =~= fields@.take(i as int));
        proof {
            lemma_fields_depth(fields@, i as int);
        }
        if fields[i].is_multiline() {
            proof {
                lemma_any_field_multiline_prefix(fields@, i + 1);
            }
            return true;
        }
        i = i + 1;
    }
    assert(fields@.take(n as int) =~= fields@);
    false
}

} // verus!
