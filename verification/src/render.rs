//! What the formatter writes, as a function from syntax to text.
//!
//! Each function here gives the characters that rendering a node appends to
//! the output. The executable formatter is proved to append exactly these.

use vstd::prelude::*;
use crate::annotation::{Newlines, Parens};
use crate::ast::{
    branch_depth, branches_depth, def_depth, defs_depth, expr_depth, exprs_depth, field_depth,
    fields_depth, lines_depth, literal_depth, max, segment_depth, segments_depth, AssignedField, Base, BinOp,
    CommentOrNewline, Def, EscapedChar, Expr, Located, Pattern, StrLiteral, StrSegment, UnaryOp,
    WhenBranch,
};
use crate::layout::{any_expr_multiline, any_field_multiline, expr_multiline};
use crate::pattern::{any_pattern_multiline, located_values, pattern_text, patterns_joined};
use crate::spaces::{all_newlines, comments_text, line_break, spaces, spaces_text, NewlineAt};

verus! {

/// One indentation step, as a mathematical integer.
pub open spec fn step() -> int {
    4
}

/// A run of trivia under the given mode: with its blank lines, or reduced
/// to its comments, which keep their trailing line break.
pub open spec fn trivia_text(items: Seq<CommentOrNewline>, newlines: Newlines, indent: int) -> Seq<
    char,
> {
    match newlines {
        Newlines::Yes => spaces_text(items, indent),
        Newlines::No => comments_text(items, NewlineAt::Bottom, indent),
    }
}

pub open spec fn bin_op_token(op: BinOp) -> Seq<char> {
    match op {
        BinOp::Caret => "^"@,
        BinOp::Star => "*"@,
        BinOp::Slash => "/"@,
        BinOp::DoubleSlash => "//"@,
        BinOp::Percent => "%"@,
        BinOp::DoublePercent => "%%"@,
        BinOp::Plus => "+"@,
        BinOp::Minus => "-"@,
        BinOp::Equals => "=="@,
        BinOp::NotEquals => "!="@,
        BinOp::LessThan => "<"@,
        BinOp::GreaterThan => ">"@,
        BinOp::LessThanOrEq => "<="@,
        BinOp::GreaterThanOrEq => ">="@,
        BinOp::And => "&&"@,
        BinOp::Or => "||"@,
        BinOp::Pizza => "|>"@,
    }
}

pub open spec fn unary_op_token(op: UnaryOp) -> char {
    match op {
        UnaryOp::Negate => '-',
        UnaryOp::Not => '!',
    }
}

/// The prefix of an integer literal in the given radix.
pub open spec fn base_prefix(base: Base) -> Seq<char> {
    match base {
        Base::Hex => "0x"@,
        Base::Octal => "0o"@,
        Base::Binary => "0b"@,
        Base::Decimal => Seq::empty(),
    }
}

/// The letter that follows the backslash of a character escape.
pub open spec fn escape_letter(escaped: EscapedChar) -> char {
    match escaped {
        EscapedChar::Newline => 'n',
        EscapedChar::Tab => 't',
        EscapedChar::Quote => '"',
        EscapedChar::Backslash => '\\',
        EscapedChar::CarriageReturn => 'r',
    }
}

/// The number of blank-line items in a run of trivia.
pub open spec fn newline_count(items: Seq<CommentOrNewline>) -> nat
    decreases items.len(),
{
    if items.len() == 0 {
        0
    } else {
        newline_count(items.drop_last()) + (if items.last() is Newline {
            1nat
        } else {
            0nat
        })
    }
}

/// Whether an expression starts with trivia that holds an empty line: at
/// least two blank-line items.
pub open spec fn empty_line_before(e: Expr) -> bool
    decreases e,
{
    match e {
        Expr::SpaceBefore(_, trivia) => newline_count(trivia@) >= 2,
        Expr::Nested(sub) => empty_line_before(*sub),
        _ => false,
    }
}

pub open spec fn option_depth(e: Option<Expr>) -> nat {
    match e {
        Some(inner) => expr_depth(inner),
        None => 0,
    }
}

/// The text of an expression.
pub open spec fn expr_text(e: Expr, parens: Parens, newlines: Newlines, indent: int) -> Seq<char>
    decreases expr_depth(e), 0nat, 0nat,
{
    match e {
        Expr::SpaceBefore(sub, trivia) => trivia_text(trivia@, newlines, indent) + expr_text(
            *sub,
            parens,
            newlines,
            indent,
        ),
        Expr::SpaceAfter(sub, trivia) => expr_text(*sub, parens, newlines, indent) + trivia_text(
            trivia@,
            newlines,
            indent,
        ),
        Expr::ParensAround(sub) => seq!['('] + expr_text(
            *sub,
            Parens::NotNeeded,
            Newlines::Yes,
            indent,
        ) + seq![')'],
        Expr::Str(literal) => str_literal_text(literal, indent),
        Expr::Var { module_name, ident } => (if module_name@.len() > 0 {
            module_name@ + seq!['.']
        } else {
            Seq::empty()
        }) + ident@,
        Expr::Apply(head, args) => apply_text(*head, args@, parens, indent),
        Expr::Num(digits) => digits@,
        Expr::Float(digits) => digits@,
        Expr::GlobalTag(name) => name@,
        Expr::PrivateTag(name) => name@,
        Expr::NonBase10Int { string, base, is_negative } => (if is_negative {
            seq!['-']
        } else {
            Seq::empty()
        }) + base_prefix(base) + string@,
        Expr::Record { update, fields, final_comments } => record_text(
            match update {
                Some(base) => Some(*base),
                None => None,
            },
            fields@,
            final_comments@,
            indent,
        ),
        Expr::Closure(patterns, body) => closure_text(patterns@, *body, indent),
        Expr::Defs(defs, ret) => let_text(defs@, *ret, indent),
        Expr::If(cond, then_branch, else_branch) => if_text(
            *cond,
            *then_branch,
            *else_branch,
            indent,
        ),
        Expr::When(cond, branches) => when_text(*cond, branches@, indent),
        Expr::List { items, final_comments } => list_text(items@, final_comments@, indent),
        Expr::BinOp(left, op, right) => bin_op_text(*left, op, *right, false, parens, indent),
        Expr::UnaryOp(sub, op) => seq![unary_op_token(op)] + expr_text(
            *sub,
            parens,
            newlines,
            indent,
        ),
        Expr::Nested(sub) => expr_text(*sub, parens, newlines, indent),
        Expr::PrecedenceConflict(_, _, sub) => expr_text(*sub, parens, newlines, indent),
        Expr::AccessorFunction(key) => seq!['.'] + key@,
        Expr::Access(sub, key) => expr_text(*sub, parens, Newlines::Yes, indent) + seq!['.']
            + key@,
        Expr::MalformedIdent(_) => Seq::empty(),
        Expr::MalformedClosure => Seq::empty(),
    }
}

/// The text of a string literal. A block string of several lines puts its
/// delimiters on lines of their own.
pub open spec fn str_literal_text(literal: StrLiteral, indent: int) -> Seq<char>
    decreases literal_depth(literal), 3nat, 0nat,
{
    match literal {
        StrLiteral::PlainLine(text) => seq!['"'] + text@ + seq!['"'],
        StrLiteral::Line(segments) => seq!['"'] + segments_text(segments@, 0) + seq!['"'],
        StrLiteral::Block(lines) => seq!['"', '"', '"'] + (if lines@.len() > 1 {
            line_break(indent) + block_lines_text(lines@, true, indent)
        } else {
            block_lines_text(lines@, false, indent)
        }) + seq!['"', '"', '"'],
    }
}

/// The text of a function application.
pub open spec fn apply_text(head: Expr, args: Seq<Expr>, parens: Parens, indent: int) -> Seq<char>
    decreases max(expr_depth(head), exprs_depth(args)), 2nat, 0nat,
{
    (if parens is InApply {
        seq!['(']
    } else {
        Seq::empty()
    }) + expr_text(head, Parens::InApply, Newlines::Yes, indent) + args_text(
        args,
        any_expr_multiline(args),
        indent,
    ) + (if parens is InApply {
        seq![')']
    } else {
        Seq::empty()
    })
}

/// The text of a let-form: the definitions, then the return expression
/// after one empty line.
pub open spec fn let_text(defs: Seq<Def>, ret: Expr, indent: int) -> Seq<char>
    decreases max(defs_depth(defs), expr_depth(ret)), 2nat, 0nat,
{
    defs_text(defs, indent) + (if empty_line_before(ret) {
        Seq::empty()
    } else {
        seq!['\n']
    }) + expr_text(ret, Parens::NotNeeded, Newlines::Yes, indent)
}

/// One segment of a string literal.
pub open spec fn segment_text(segment: StrSegment, indent: int) -> Seq<char>
    decreases segment_depth(segment), 0nat, 0nat,
{
    match segment {
        StrSegment::Plaintext(text) => text@,
        StrSegment::Unicode(hex) => "\\u("@ + hex@ + seq![')'],
        StrSegment::EscapedChar(escaped) => seq!['\\', escape_letter(escaped)],
        StrSegment::Interpolated(inner) => "\\("@ + expr_text(
            *inner,
            Parens::NotNeeded,
            Newlines::No,
            indent,
        ) + seq![')'],
    }
}

/// The segments of one line of a string literal, one after another.
pub open spec fn segments_text(segments: Seq<StrSegment>, indent: int) -> Seq<char>
    decreases segments_depth(segments), 1nat, segments.len(),
{
    if segments.len() == 0 {
        Seq::empty()
    } else {
        segments_text(segments.drop_last(), indent) + segment_text(segments.last(), indent)
    }
}

/// The lines of a block string, one after another; with `breaks`, each is
/// followed by a line break.
pub open spec fn block_lines_text(lines: Seq<Vec<StrSegment>>, breaks: bool, indent: int) -> Seq<
    char,
>
    decreases lines_depth(lines), 2nat, lines.len(),
{
    if lines.len() == 0 {
        Seq::empty()
    } else {
        block_lines_text(lines.drop_last(), breaks, indent) + segments_text(
            lines.last()@,
            indent,
        ) + (if breaks {
            line_break(indent)
        } else {
            Seq::empty()
        })
    }
}

/// The arguments of an application: each on a line of its own one step in,
/// or each after a space.
pub open spec fn args_text(args: Seq<Expr>, multiline: bool, indent: int) -> Seq<char>
    decreases exprs_depth(args), 1nat, args.len(),
{
    if args.len() == 0 {
        Seq::empty()
    } else if multiline {
        args_text(args.drop_last(), multiline, indent) + line_break(indent + step()) + expr_text(
            args.last(),
            Parens::InApply,
            Newlines::No,
            indent + step(),
        )
    } else {
        args_text(args.drop_last(), multiline, indent) + seq![' '] + expr_text(
            args.last(),
            Parens::InApply,
            Newlines::Yes,
            indent,
        )
    }
}

/// A comma, or nothing.
pub open spec fn comma_text(comma: bool) -> Seq<char> {
    if comma {
        seq![',']
    } else {
        Seq::empty()
    }
}

/// An expression, a comma if asked for, and the comments that trail the
/// expression, each on a line of its own.
pub open spec fn trailing_text(e: Expr, comma: bool, indent: int) -> Seq<char>
    decreases expr_depth(e), 1nat, 0nat,
{
    match e {
        Expr::SpaceAfter(sub, after) => expr_text(*sub, Parens::NotNeeded, Newlines::Yes, indent)
            + comma_text(comma) + comments_text(after@, NewlineAt::Top, indent),
        _ => expr_text(e, Parens::NotNeeded, Newlines::Yes, indent) + comma_text(comma),
    }
}

/// An expression on a line of its own: a line break, the comments that lead
/// the expression, each on its line, then the expression, a comma if asked
/// for, and the trailing comments.
pub open spec fn isolated_text(e: Expr, comma: bool, indent: int) -> Seq<char>
    decreases expr_depth(e), 2nat, 0nat,
{
    match e {
        Expr::SpaceBefore(sub, before) => line_break(indent) + comments_text(
            before@,
            NewlineAt::Bottom,
            indent,
        ) + trailing_text(*sub, comma, indent),
        _ => line_break(indent) + trailing_text(e, comma, indent),
    }
}

/// The items of a list laid out on one line.
pub open spec fn list_items_inline_text(items: Seq<Expr>, indent: int) -> Seq<char>
    decreases exprs_depth(items), 1nat, items.len(),
{
    if items.len() == 0 {
        Seq::empty()
    } else {
        list_items_inline_text(items.drop_last(), indent) + (if items.len() > 1 {
            seq![',']
        } else {
            Seq::empty()
        }) + seq![' '] + expr_text(items.last(), Parens::NotNeeded, Newlines::Yes, indent)
    }
}

/// The items of a list, each on a line of its own and followed by a comma.
pub open spec fn list_items_lines_text(items: Seq<Expr>, indent: int) -> Seq<char>
    decreases exprs_depth(items), 3nat, items.len(),
{
    if items.len() == 0 {
        Seq::empty()
    } else {
        list_items_lines_text(items.drop_last(), indent) + isolated_text(items.last(), true, indent)
    }
}

/// The text of a list literal.
pub open spec fn list_text(items: Seq<Expr>, final_comments: Seq<CommentOrNewline>, indent: int)
    -> Seq<char>
    decreases exprs_depth(items), 4nat, 0nat,
{
    if items.len() == 0 && all_newlines(final_comments) {
        "[]"@
    } else if any_expr_multiline(items) {
        seq!['['] + list_items_lines_text(items, indent + step()) + comments_text(
            final_comments,
            NewlineAt::Top,
            indent + step(),
        ) + line_break(indent) + seq![']']
    } else {
        seq!['['] + list_items_inline_text(items, indent) + " ]"@
    }
}

/// A record field on a line of its own, followed by a comma. Comments
/// attached to the field stand on lines of their own around it.
pub open spec fn field_line_text(field: AssignedField, indent: int) -> Seq<char>
    decreases field_depth(field), 0nat, 0nat,
{
    match field {
        AssignedField::RequiredValue(name, trivia, value) => line_break(indent) + name@
            + spaces_text(trivia@, indent) + ": "@ + expr_text(
            *value,
            Parens::NotNeeded,
            Newlines::Yes,
            indent,
        ) + seq![','],
        AssignedField::OptionalValue(name, trivia, value) => line_break(indent) + name@
            + spaces_text(trivia@, indent) + "? "@ + expr_text(
            *value,
            Parens::NotNeeded,
            Newlines::Yes,
            indent,
        ) + seq![','],
        AssignedField::LabelOnly(name) => line_break(indent) + name@ + seq![','],
        AssignedField::SpaceBefore(sub, trivia) => comments_text(trivia@, NewlineAt::Top, indent)
            + field_line_text(*sub, indent),
        AssignedField::SpaceAfter(sub, trivia) => field_line_text(*sub, indent) + comments_text(
            trivia@,
            NewlineAt::Top,
            indent,
        ),
        AssignedField::Malformed(raw) => raw@,
    }
}

/// A record field as it stands inside a one-line record.
pub open spec fn field_inline_text(field: AssignedField, indent: int) -> Seq<char>
    decreases field_depth(field), 0nat, 0nat,
{
    match field {
        AssignedField::RequiredValue(name, trivia, value) => name@ + spaces_text(trivia@, indent)
            + ": "@ + expr_text(*value, Parens::NotNeeded, Newlines::Yes, indent),
        AssignedField::OptionalValue(name, trivia, value) => name@ + spaces_text(trivia@, indent)
            + "? "@ + expr_text(*value, Parens::NotNeeded, Newlines::Yes, indent),
        AssignedField::LabelOnly(name) => name@,
        AssignedField::SpaceBefore(sub, trivia) => comments_text(
            trivia@,
            NewlineAt::Bottom,
            indent,
        ) + field_inline_text(*sub, indent),
        AssignedField::SpaceAfter(sub, trivia) => field_inline_text(*sub, indent) + comments_text(
            trivia@,
            NewlineAt::Bottom,
            indent,
        ),
        AssignedField::Malformed(raw) => raw@,
    }
}

pub open spec fn fields_lines_text(fields: Seq<AssignedField>, indent: int) -> Seq<char>
    decreases fields_depth(fields), 1nat, fields.len(),
{
    if fields.len() == 0 {
        Seq::empty()
    } else {
        fields_lines_text(fields.drop_last(), indent) + field_line_text(fields.last(), indent)
    }
}

pub open spec fn fields_inline_text(fields: Seq<AssignedField>, indent: int) -> Seq<char>
    decreases fields_depth(fields), 1nat, fields.len(),
{
    if fields.len() == 0 {
        Seq::empty()
    } else {
        fields_inline_text(fields.drop_last(), indent) + (if fields.len() > 1 {
            ", "@
        } else {
            Seq::empty()
        }) + field_inline_text(fields.last(), indent)
    }
}

/// The text of a record literal.
pub open spec fn record_text(
    update: Option<Expr>,
    fields: Seq<AssignedField>,
    final_comments: Seq<CommentOrNewline>,
    indent: int,
) -> Seq<char>
    decreases max(option_depth(update), fields_depth(fields)), 2nat, 0nat,
{
    if fields.len() == 0 && all_newlines(final_comments) {
        "{}"@
    } else {
        seq!['{'] + (match update {
            Some(base) => seq![' '] + expr_text(base, Parens::NotNeeded, Newlines::Yes, indent)
                + " &"@,
            None => Seq::empty(),
        }) + (if any_field_multiline(fields) || final_comments.len() > 0 {
            fields_lines_text(fields, indent + step()) + comments_text(
                final_comments,
                NewlineAt::Top,
                indent + step(),
            ) + line_break(indent)
        } else {
            seq![' '] + fields_inline_text(fields, indent) + seq![' ']
        }) + seq!['}']
    }
}

/// The text of a closure.
pub open spec fn closure_text(patterns: Seq<Pattern>, body: Expr, indent: int) -> Seq<char>
    decreases expr_depth(body), 1nat, 0nat,
{
    let spread = any_pattern_multiline(patterns);
    let pattern_indent = if spread { indent + step() } else { indent };
    let body_indent = if expr_multiline(body) { pattern_indent + step() } else { pattern_indent };
    seq!['\\'] + patterns_joined(
        patterns,
        if spread { seq![','] + line_break(pattern_indent) } else { ", "@ },
        pattern_indent,
    ) + (if spread { line_break(pattern_indent) } else { seq![' '] }) + "->"@ + (if body
        is SpaceBefore {
        Seq::empty()
    } else {
        seq![' ']
    }) + expr_text(body, Parens::NotNeeded, Newlines::Yes, body_indent)
}

/// The text of one definition.
pub open spec fn def_text(def: Def, indent: int) -> Seq<char>
    decreases def_depth(def), 0nat, 0nat,
{
    match def {
        Def::Body(pattern, body) => pattern_text(pattern, Parens::InApply, indent) + " = "@
            + expr_text(*body, Parens::NotNeeded, Newlines::Yes, indent),
        Def::SpaceBefore(sub, trivia) => spaces_text(trivia@, indent) + def_text(*sub, indent),
        Def::SpaceAfter(sub, trivia) => def_text(*sub, indent) + spaces_text(trivia@, indent),
        Def::Nested(sub) => def_text(*sub, indent),
    }
}

pub open spec fn defs_text(defs: Seq<Def>, indent: int) -> Seq<char>
    decreases defs_depth(defs), 1nat, defs.len(),
{
    if defs.len() == 0 {
        Seq::empty()
    } else {
        defs_text(defs.drop_last(), indent) + def_text(defs.last(), indent)
    }
}

/// The text of a conditional.
pub open spec fn if_text(cond: Expr, then_branch: Expr, else_branch: Expr, indent: int) -> Seq<
    char,
>
    decreases max(expr_depth(cond), max(expr_depth(then_branch), expr_depth(else_branch))), 3nat,
        0nat,
{
    let spread = expr_multiline(cond) || expr_multiline(then_branch) || expr_multiline(
        else_branch,
    );
    let inner = if spread { indent + step() } else { indent };
    "if"@ + (if expr_multiline(cond) {
        isolated_text(cond, false, inner) + line_break(indent)
    } else {
        seq![' '] + expr_text(cond, Parens::NotNeeded, Newlines::Yes, indent) + seq![' ']
    }) + "then"@ + (if spread {
        isolated_text(then_branch, false, inner) + line_break(indent) + "else"@
            + line_break(inner)
    } else {
        seq![' '] + expr_text(then_branch, Parens::NotNeeded, Newlines::Yes, inner) + " else "@
    }) + expr_text(else_branch, Parens::NotNeeded, Newlines::Yes, inner)
}

/// Whether the alternatives of a branch were written on several lines.
pub open spec fn alternatives_spread(patterns: Seq<Located<Pattern>>) -> bool {
    patterns.len() > 1 && patterns.first().region.start_line != patterns.last().region.end_line
}

/// The text of one branch of a pattern match.
pub open spec fn branch_text(branch: WhenBranch, indent: int) -> Seq<char>
    decreases branch_depth(branch), 0nat, 0nat,
{
    let pattern_indent = indent + step();
    let body_indent = indent + 2 * step();
    spaces(pattern_indent) + patterns_joined(
        located_values(branch.patterns@),
        if alternatives_spread(branch.patterns@) {
            line_break(pattern_indent) + "| "@
        } else {
            " | "@
        },
        pattern_indent,
    ) + (match branch.guard {
        Some(guard) => " if "@ + expr_text(
            guard,
            Parens::NotNeeded,
            Newlines::Yes,
            pattern_indent,
        ),
        None => Seq::empty(),
    }) + " ->\n"@ + spaces(body_indent) + (match branch.value {
        Expr::SpaceBefore(sub, trivia) => comments_text(trivia@, NewlineAt::Bottom, body_indent)
            + expr_text(*sub, Parens::NotNeeded, Newlines::Yes, body_indent),
        _ => expr_text(branch.value, Parens::NotNeeded, Newlines::Yes, body_indent),
    })
}

/// The branches of a pattern match, with one empty line between neighbours.
pub open spec fn branches_text(branches: Seq<WhenBranch>, indent: int) -> Seq<char>
    decreases branches_depth(branches), 1nat, branches.len(),
{
    if branches.len() == 0 {
        Seq::empty()
    } else {
        branches_text(branches.drop_last(), indent) + (if branches.len() > 1 {
            seq!['\n', '\n']
        } else {
            Seq::empty()
        }) + branch_text(branches.last(), indent)
    }
}

/// The text of a pattern match.
pub open spec fn when_text(cond: Expr, branches: Seq<WhenBranch>, indent: int) -> Seq<char>
    decreases max(expr_depth(cond), branches_depth(branches)), 3nat, 0nat,
{
    "when"@ + (if expr_multiline(cond) {
        isolated_text(cond, false, indent + step()) + line_break(indent)
    } else {
        seq![' '] + expr_text(cond, Parens::NotNeeded, Newlines::Yes, indent) + seq![' ']
    }) + "is\n"@ + branches_text(branches, indent)
}

/// The text of a chain of binary operators. Once one link of the chain
/// breaks the line before its operator, every link to its right does.
pub open spec fn bin_op_text(
    left: Expr,
    op: BinOp,
    right: Expr,
    in_spread_chain: bool,
    parens: Parens,
    indent: int,
) -> Seq<char>
    decreases max(expr_depth(left), expr_depth(right)), 1nat, 0nat,
{
    let spread = expr_multiline(right) || expr_multiline(left) || in_spread_chain;
    expr_text(left, parens, Newlines::No, indent) + (if spread {
        line_break(indent + step())
    } else {
        seq![' ']
    }) + bin_op_token(op) + seq![' '] + (match right {
        Expr::BinOp(next_left, next_op, next_right) => bin_op_text(
            *next_left,
            next_op,
            *next_right,
            spread,
            parens,
            indent,
        ),
        _ => expr_text(right, parens, Newlines::Yes, indent),
    })
}

} // verus!
