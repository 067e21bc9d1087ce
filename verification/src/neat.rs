//! The trees that the formatter renders in well-shaped lines.
//!
//! A tree is trim if its text starts and ends with something written and
//! keeps the two rules of `margins` whatever stands before it on its first
//! line. Comments and blank lines may stand wherever the formatter gives them
//! lines of their own; where it glues them to a token or to a space, the tree
//! is not trim.

use vstd::prelude::*;
use crate::annotation::Newlines;
use crate::ast::{
    AssignedField, CommentOrNewline, Def, Expr, Pattern, StrLiteral, StrSegment, WhenBranch,
};
use crate::layout::{any_expr_multiline, expr_multiline};
use crate::lines::has_line_feed;
use crate::margins::blank;
use crate::spaces::{all_newlines, has_comment, leading_newlines};

verus! {

/// Whether a piece of source text can stand at the start of a line and at its
/// end: it is not empty, holds no line feed, does not start with a space and
/// does not end in a blank.
pub open spec fn word(t: Seq<char>) -> bool {
    t.len() > 0 && !has_line_feed(t) && t[0] != ' ' && !blank(t.last())
}

/// Whether the text of a comment stays on its line and does not end in a
/// blank.
pub open spec fn comment_trim(item: CommentOrNewline) -> bool {
    match item {
        CommentOrNewline::Newline => true,
        CommentOrNewline::LineComment(text) => !has_line_feed(text@) && (text@.len() == 0
            || !blank(text@.last())),
        CommentOrNewline::DocComment(text) => !has_line_feed(text@) && (text@.len() == 0
            || !blank(text@.last())),
    }
}

pub open spec fn comments_trim(items: Seq<CommentOrNewline>) -> bool {
    forall|i: int| 0 <= i < items.len() ==> comment_trim(#[trigger] items[i])
}

/// Whether a pattern is trim. A comment behind a pattern would be glued to
/// it.
pub open spec fn pattern_trim(p: Pattern) -> bool
    decreases p,
{
    match p {
        Pattern::Identifier(name) => word(name@),
        Pattern::GlobalTag(name) => word(name@),
        Pattern::PrivateTag(name) => word(name@),
        Pattern::NumLiteral(digits) => word(digits@),
        Pattern::Malformed(raw) => word(raw@),
        Pattern::StrLiteral(text) => !has_line_feed(text@),
        Pattern::Underscore => true,
        Pattern::Apply(head, args) => pattern_trim(*head) && forall|i: int|
            0 <= i < args@.len() ==> pattern_trim(#[trigger] args@[i]),
        Pattern::RecordDestructure(fields) => forall|i: int|
            0 <= i < fields@.len() ==> pattern_trim(#[trigger] fields@[i]),
        Pattern::SpaceBefore(sub, trivia) => comments_trim(trivia@) && pattern_trim(*sub),
        Pattern::SpaceAfter(sub, trivia) => !has_comment(trivia@) && pattern_trim(*sub),
        Pattern::Nested(sub) => pattern_trim(*sub),
    }
}

/// Whether an expression, rendered under the given mode, is trim.
pub open spec fn expr_trim(e: Expr, newlines: Newlines) -> bool
    decreases e, 0nat,
{
    match e {
        Expr::Float(digits) => word(digits@),
        Expr::Num(digits) => word(digits@),
        Expr::GlobalTag(name) => word(name@),
        Expr::PrivateTag(name) => word(name@),
        Expr::NonBase10Int { string, .. } => word(string@),
        Expr::Var { module_name, ident } => (module_name@.len() == 0 || word(module_name@))
            && word(ident@),
        Expr::AccessorFunction(key) => word(key@),
        Expr::Access(sub, key) => expr_trim(*sub, Newlines::Yes) && word(key@),
        Expr::Str(StrLiteral::PlainLine(text)) => !has_line_feed(text@),
        Expr::Str(StrLiteral::Line(segments)) => forall|i: int|
            0 <= i < segments@.len() ==> segment_trim(#[trigger] segments@[i]),
        Expr::Str(StrLiteral::Block(lines)) => forall|i: int|
            0 <= i < lines@.len() ==> line_trim(#[trigger] lines@[i], lines@.len() > 1),
        Expr::List { items, final_comments } => if any_expr_multiline(items@) {
            comments_trim(final_comments@) && forall|i: int|
                0 <= i < items@.len() ==> expr_isolated(#[trigger] items@[i])
        } else {
            forall|i: int| 0 <= i < items@.len() ==> expr_trim(#[trigger] items@[i], Newlines::Yes)
        },
        Expr::Record { update, fields, final_comments } => (fields@.len() == 0 && all_newlines(
            final_comments@,
        )) || ((match update {
            Some(base) => expr_trim(*base, Newlines::Yes),
            None => true,
        }) && comments_trim(final_comments@) && forall|i: int|
            0 <= i < fields@.len() ==> field_trim(#[trigger] fields@[i])),
        Expr::Closure(patterns, body) => expr_after_arrow(*body) && forall|i: int|
            0 <= i < patterns@.len() ==> pattern_trim(#[trigger] patterns@[i]),
        Expr::Defs(defs, ret) => defs@.len() > 0 && def_trim(defs@[0]) && expr_led(
            *ret,
            Newlines::Yes,
        ) && forall|i: int| 1 <= i < defs@.len() ==> def_led(#[trigger] defs@[i]),
        Expr::Apply(head, args) => expr_trim(*head, Newlines::Yes) && forall|i: int|
            0 <= i < args@.len() ==> expr_trim(
                #[trigger] args@[i],
                if any_expr_multiline(args@) {
                    Newlines::No
                } else {
                    Newlines::Yes
                },
            ),
        Expr::BinOp(left, _, right) => expr_trim(*left, Newlines::No) && expr_trim(
            *right,
            Newlines::Yes,
        ),
        Expr::UnaryOp(sub, _) => expr_led(*sub, newlines),
        Expr::If(cond, then_branch, else_branch) => (if expr_multiline(*cond) {
            expr_isolated(*cond)
        } else {
            expr_trim(*cond, Newlines::Yes)
        }) && (if expr_multiline(*cond) || expr_multiline(*then_branch) || expr_multiline(
            *else_branch,
        ) {
            expr_isolated(*then_branch)
        } else {
            expr_trim(*then_branch, Newlines::Yes)
        }) && expr_trim(*else_branch, Newlines::Yes),
        Expr::When(cond, branches) => branches@.len() > 0 && (if expr_multiline(*cond) {
            expr_isolated(*cond)
        } else {
            expr_trim(*cond, Newlines::Yes)
        }) && forall|i: int| 0 <= i < branches@.len() ==> branch_trim(#[trigger] branches@[i]),
        Expr::SpaceBefore(sub, trivia) => comments_trim(trivia@) && expr_trim(*sub, newlines) && (
        newlines is No || leading_newlines(trivia@) == 0),
        Expr::SpaceAfter(sub, trivia) => expr_trim(*sub, newlines) && (match newlines {
            Newlines::No => !has_comment(trivia@),
            Newlines::Yes => trivia@.len() == 0,
        }),
        Expr::ParensAround(sub) => expr_led(*sub, Newlines::Yes),
        Expr::Nested(sub) => expr_trim(*sub, newlines),
        Expr::PrecedenceConflict(_, _, sub) => expr_trim(*sub, newlines),
        Expr::MalformedIdent(_) => false,
        Expr::MalformedClosure => false,
    }
}

/// Whether an expression may stand behind something written that is no
/// blank: it is trim, or it starts with blank lines and comments that get
/// lines of their own.
pub open spec fn expr_led(e: Expr, newlines: Newlines) -> bool
    decreases e, 1nat,
{
    match e {
        Expr::SpaceBefore(sub, trivia) => comments_trim(trivia@) && expr_trim(*sub, newlines),
        Expr::Nested(sub) => expr_led(*sub, newlines),
        Expr::PrecedenceConflict(_, _, sub) => expr_led(*sub, newlines),
        _ => expr_trim(e, newlines),
    }
}

/// Whether an expression may be followed by a separator and its trailing
/// comments.
pub open spec fn expr_trailed(e: Expr) -> bool
    decreases e, 1nat,
{
    match e {
        Expr::SpaceAfter(sub, after) => comments_trim(after@) && expr_trim(*sub, Newlines::Yes),
        _ => expr_trim(e, Newlines::Yes),
    }
}

/// Whether an expression may be given lines of its own, its comments above
/// and below it.
pub open spec fn expr_isolated(e: Expr) -> bool
    decreases e, 2nat,
{
    match e {
        Expr::SpaceBefore(sub, before) => comments_trim(before@) && expr_trailed(*sub),
        _ => expr_trailed(e),
    }
}

/// Whether an expression may stand behind the arrow of a closure or of a
/// branch.
pub open spec fn expr_after_arrow(e: Expr) -> bool
    decreases e, 1nat,
{
    match e {
        Expr::SpaceBefore(sub, trivia) => comments_trim(trivia@) && expr_trim(
            *sub,
            Newlines::Yes,
        ),
        _ => expr_trim(e, Newlines::Yes),
    }
}

pub open spec fn segment_trim(segment: StrSegment) -> bool
    decreases segment, 0nat,
{
    match segment {
        StrSegment::Plaintext(text) => !has_line_feed(text@),
        StrSegment::Unicode(hex) => !has_line_feed(hex@),
        StrSegment::EscapedChar(_) => true,
        StrSegment::Interpolated(inner) => expr_led(*inner, Newlines::No),
    }
}

/// Whether a segment may stand at the start or at the end of a line of its
/// own.
pub open spec fn segment_edge(segment: StrSegment) -> bool {
    match segment {
        StrSegment::Plaintext(text) => word(text@),
        _ => true,
    }
}

/// Whether a line of a string literal is trim; a line that gets a line of
/// its own in the output must hold something and start and end with it.
pub open spec fn line_trim(line: Vec<StrSegment>, own_line: bool) -> bool
    decreases line, 0nat,
{
    &&& forall|j: int| 0 <= j < line@.len() ==> segment_trim(#[trigger] line@[j])
    &&& own_line ==> line@.len() > 0 && segment_edge(line@[0]) && segment_edge(line@.last())
}

pub open spec fn field_trim(field: AssignedField) -> bool
    decreases field, 0nat,
{
    match field {
        AssignedField::RequiredValue(name, trivia, value) => word(name@) && comments_trim(
            trivia@,
        ) && expr_trim(*value, Newlines::Yes),
        AssignedField::OptionalValue(name, trivia, value) => word(name@) && comments_trim(
            trivia@,
        ) && expr_trim(*value, Newlines::Yes),
        AssignedField::LabelOnly(name) => word(name@),
        AssignedField::SpaceBefore(sub, trivia) => comments_trim(trivia@) && field_trim(*sub),
        AssignedField::SpaceAfter(sub, trivia) => comments_trim(trivia@) && field_trim(*sub),
        AssignedField::Malformed(raw) => word(raw@),
    }
}

/// Whether a definition is trim. Trivia behind a definition would leave the
/// pen in the indentation.
pub open spec fn def_trim(def: Def) -> bool
    decreases def, 0nat,
{
    match def {
        Def::Body(pattern, body) => pattern_trim(pattern) && expr_trim(*body, Newlines::Yes),
        Def::SpaceBefore(sub, trivia) => comments_trim(trivia@) && leading_newlines(trivia@) == 0
            && def_trim(*sub),
        Def::SpaceAfter(sub, trivia) => trivia@.len() == 0 && def_trim(*sub),
        Def::Nested(sub) => def_trim(*sub),
    }
}

/// Whether a definition may stand behind another.
pub open spec fn def_led(def: Def) -> bool
    decreases def, 1nat,
{
    match def {
        Def::SpaceBefore(sub, trivia) => comments_trim(trivia@) && def_trim(*sub),
        Def::Nested(sub) => def_led(*sub),
        _ => def_trim(def),
    }
}

pub open spec fn branch_trim(branch: WhenBranch) -> bool
    decreases branch, 0nat,
{
    &&& branch.patterns@.len() > 0
    &&& forall|i: int|
        0 <= i < branch.patterns@.len() ==> pattern_trim((#[trigger] branch.patterns@[i]).value)
    &&& match branch.guard {
        Some(guard) => expr_trim(guard, Newlines::Yes),
        None => true,
    }
    &&& expr_after_arrow(branch.value)
}

} // verus!
