//! The comments of a tree and where they go: the formatter writes every
//! comment it renders in full, in the order the comments stand in the tree.

use vstd::prelude::*;
use crate::annotation::{Newlines, Parens};
use crate::ast::{
    branch_depth, branches_depth, def_depth, defs_depth, expr_depth, exprs_depth, field_depth,
    fields_depth, lines_depth, literal_depth, max, segment_depth, segments_depth, AssignedField,
    BinOp, CommentOrNewline, Def, Expr, Pattern, StrLiteral, StrSegment, WhenBranch,
};
use crate::layout::{any_expr_multiline, any_field_multiline, expr_multiline};
use crate::pattern::{located_values, pattern_args_text, pattern_text, patterns_joined};
use crate::render::{
    apply_text, args_text, bin_op_text, block_lines_text, branch_text, branches_text,
    closure_text, def_text, defs_text, expr_text, field_inline_text, field_line_text,
    fields_inline_text, fields_lines_text, if_text, isolated_text, let_text,
    list_items_inline_text, list_items_lines_text, list_text, option_depth, record_text,
    segment_text, segments_text, step, str_literal_text, trailing_text, when_text,
};
use crate::spaces::{
    all_newlines, comment_lines, comment_text, comments_joined, comments_text, has_comment,
    is_comment, line_break, spaces_text, NewlineAt,
};

verus! {

/// Whether the marks stand in the text at the given places, in order and
/// without overlap.
pub open spec fn placed(text: Seq<char>, marks: Seq<Seq<char>>, starts: Seq<int>) -> bool {
    &&& starts.len() == marks.len()
    &&& forall|i: int|
        0 <= i < marks.len() ==> 0 <= #[trigger] starts[i] && starts[i] + marks[i].len()
            <= text.len() && text.subrange(starts[i], starts[i] + marks[i].len()) == marks[i]
    &&& forall|i: int|
        0 <= i < marks.len() - 1 ==> starts[i] + marks[i].len() <= #[trigger] starts[i + 1]
}

/// Whether the text holds every one of the marks, in order and without
/// overlap.
pub open spec fn woven(text: Seq<char>, marks: Seq<Seq<char>>) -> bool {
    exists|starts: Seq<int>| placed(text, marks, starts)
}

pub broadcast proof fn lemma_woven_none(text: Seq<char>)
    ensures
        #[trigger] woven(text, Seq::<Seq<char>>::empty()),
{
    assert(placed(text, Seq::<Seq<char>>::empty(), Seq::<int>::empty()));
}

pub broadcast proof fn lemma_woven_one(mark: Seq<char>)
    ensures
        #[trigger] woven(mark, Seq::<Seq<char>>::empty().push(mark)),
{
    let marks = Seq::<Seq<char>>::empty().push(mark);
    let starts = Seq::<int>::empty().push(0);
    assert(mark.subrange(0, mark.len() as int) =~= mark);
    assert(placed(mark, marks, starts));
}

pub broadcast proof fn lemma_woven_concat(
    a: Seq<char>,
    ca: Seq<Seq<char>>,
    b: Seq<char>,
    cb: Seq<Seq<char>>,
)
    ensures
        woven(a, ca) && woven(b, cb) ==> #[trigger] woven(a + b, ca + cb),
{
    if woven(a, ca) && woven(b, cb) {
        let sa = choose|starts: Seq<int>| placed(a, ca, starts);
        let sb = choose|starts: Seq<int>| placed(b, cb, starts);
        let shifted = Seq::new(sb.len(), |i: int| sb[i] + a.len());
        let starts = sa + shifted;
        let text = a + b;
        let marks = ca + cb;
        assert forall|i: int| 0 <= i < marks.len() implies 0 <= #[trigger] starts[i] && starts[i]
            + marks[i].len() <= text.len() && text.subrange(
            starts[i],
            starts[i] + marks[i].len(),
        ) == marks[i] by {
            if i < ca.len() {
                assert(starts[i] == sa[i]);
                assert(marks[i] == ca[i]);
                assert(text.subrange(sa[i], sa[i] + ca[i].len()) =~= a.subrange(
                    sa[i],
                    sa[i] + ca[i].len(),
                ));
            } else {
                let j = i - ca.len();
                assert(starts[i] == sb[j] + a.len());
                assert(marks[i] == cb[j]);
                assert(text.subrange(starts[i], starts[i] + cb[j].len()) =~= b.subrange(
                    sb[j],
                    sb[j] + cb[j].len(),
                ));
            }
        }
        assert forall|i: int| 0 <= i < marks.len() - 1 implies starts[i] + marks[i].len()
            <= #[trigger] starts[i + 1] by {
            if i + 1 < ca.len() {
                assert(starts[i] == sa[i] && starts[i + 1] == sa[i + 1]);
                assert(marks[i] == ca[i]);
            } else if i < ca.len() {
                assert(starts[i] == sa[i]);
                assert(marks[i] == ca[i]);
                assert(starts[i + 1] == sb[i + 1 - ca.len()] + a.len());
            } else {
                let j = i - ca.len();
                assert(starts[i] == sb[j] + a.len());
                assert(starts[i + 1] == sb[j + 1] + a.len());
                assert(marks[i] == cb[j]);
            }
        }
        assert(placed(text, marks, starts));
    }
}

pub broadcast proof fn lemma_woven_before(a: Seq<char>, b: Seq<char>, marks: Seq<Seq<char>>)
    ensures
        woven(a, marks) ==> #[trigger] woven(a + b, marks),
{
    if woven(a, marks) {
        lemma_woven_none(b);
        lemma_woven_concat(a, marks, b, Seq::empty());
        assert(marks + Seq::<Seq<char>>::empty() =~= marks);
    }
}

pub broadcast proof fn lemma_woven_behind(a: Seq<char>, b: Seq<char>, marks: Seq<Seq<char>>)
    ensures
        woven(b, marks) ==> #[trigger] woven(a + b, marks),
{
    if woven(b, marks) {
        lemma_woven_none(a);
        lemma_woven_concat(a, Seq::empty(), b, marks);
        assert(Seq::<Seq<char>>::empty() + marks =~= marks);
    }
}

pub broadcast group group_woven {
    lemma_woven_none,
    lemma_woven_one,
    lemma_woven_concat,
    lemma_woven_before,
    lemma_woven_behind,
}

/// The comments of a run of trivia, each with its marker, in order.
pub open spec fn trivia_comments(items: Seq<CommentOrNewline>) -> Seq<Seq<char>>
    decreases items.len(),
{
    if items.len() == 0 {
        Seq::empty()
    } else if is_comment(items.last()) {
        trivia_comments(items.drop_last()) + Seq::empty().push(comment_text(items.last()))
    } else {
        trivia_comments(items.drop_last())
    }
}

/// The comments of a pattern, in the order they stand in it.
pub open spec fn pattern_comments(p: Pattern) -> Seq<Seq<char>>
    decreases p,
{
    match p {
        Pattern::Apply(head, args) => pattern_comments(*head) + patterns_comments(args@),
        Pattern::RecordDestructure(fields) => patterns_comments(fields@),
        Pattern::SpaceBefore(sub, trivia) => trivia_comments(trivia@) + pattern_comments(*sub),
        Pattern::SpaceAfter(sub, trivia) => pattern_comments(*sub) + trivia_comments(trivia@),
        Pattern::Nested(sub) => pattern_comments(*sub),
        _ => Seq::empty(),
    }
}

pub open spec fn patterns_comments(ps: Seq<Pattern>) -> Seq<Seq<char>>
    decreases ps,
{
    if ps.len() == 0 {
        Seq::empty()
    } else {
        patterns_comments(ps.drop_last()) + pattern_comments(ps.last())
    }
}

/// The comments of an expression, in the order they stand in it.
pub open spec fn expr_comments(e: Expr) -> Seq<Seq<char>>
    decreases e,
{
    match e {
        Expr::Str(StrLiteral::Line(segments)) => segments_comments(segments@),
        Expr::Str(StrLiteral::Block(lines)) => lines_comments(lines@),
        Expr::Access(sub, _) => expr_comments(*sub),
        Expr::List { items, final_comments } => exprs_comments(items@) + trivia_comments(
            final_comments@,
        ),
        Expr::Record { update, fields, final_comments } => (match update {
            Some(base) => expr_comments(*base),
            None => Seq::empty(),
        }) + fields_comments(fields@) + trivia_comments(final_comments@),
        Expr::Closure(patterns, body) => patterns_comments(patterns@) + expr_comments(*body),
        Expr::Defs(defs, ret) => defs_comments(defs@) + expr_comments(*ret),
        Expr::Apply(head, args) => expr_comments(*head) + exprs_comments(args@),
        Expr::BinOp(left, _, right) => expr_comments(*left) + expr_comments(*right),
        Expr::UnaryOp(sub, _) => expr_comments(*sub),
        Expr::If(cond, then_branch, else_branch) => expr_comments(*cond) + expr_comments(
            *then_branch,
        ) + expr_comments(*else_branch),
        Expr::When(cond, branches) => expr_comments(*cond) + branches_comments(branches@),
        Expr::SpaceBefore(sub, trivia) => trivia_comments(trivia@) + expr_comments(*sub),
        Expr::SpaceAfter(sub, trivia) => expr_comments(*sub) + trivia_comments(trivia@),
        Expr::ParensAround(sub) => expr_comments(*sub),
        Expr::Nested(sub) => expr_comments(*sub),
        Expr::PrecedenceConflict(_, _, sub) => expr_comments(*sub),
        _ => Seq::empty(),
    }
}

pub open spec fn exprs_comments(es: Seq<Expr>) -> Seq<Seq<char>>
    decreases es,
{
    if es.len() == 0 {
        Seq::empty()
    } else {
        exprs_comments(es.drop_last()) + expr_comments(es.last())
    }
}

pub open spec fn segment_comments(segment: StrSegment) -> Seq<Seq<char>>
    decreases segment,
{
    match segment {
        StrSegment::Interpolated(inner) => expr_comments(*inner),
        _ => Seq::empty(),
    }
}

pub open spec fn segments_comments(segments: Seq<StrSegment>) -> Seq<Seq<char>>
    decreases segments,
{
    if segments.len() == 0 {
        Seq::empty()
    } else {
        segments_comments(segments.drop_last()) + segment_comments(segments.last())
    }
}

pub open spec fn lines_comments(lines: Seq<Vec<StrSegment>>) -> Seq<Seq<char>>
    decreases lines,
{
    if lines.len() == 0 {
        Seq::empty()
    } else {
        lines_comments(lines.drop_last()) + segments_comments(lines.last()@)
    }
}

pub open spec fn field_comments(field: AssignedField) -> Seq<Seq<char>>
    decreases field,
{
    match field {
        AssignedField::RequiredValue(_, trivia, value) => trivia_comments(trivia@)
            + expr_comments(*value),
        AssignedField::OptionalValue(_, trivia, value) => trivia_comments(trivia@)
            + expr_comments(*value),
        AssignedField::SpaceBefore(sub, trivia) => trivia_comments(trivia@) + field_comments(
            *sub,
        ),
        AssignedField::SpaceAfter(sub, trivia) => field_comments(*sub) + trivia_comments(
            trivia@,
        ),
        _ => Seq::empty(),
    }
}

pub open spec fn fields_comments(fields: Seq<AssignedField>) -> Seq<Seq<char>>
    decreases fields,
{
    if fields.len() == 0 {
        Seq::empty()
    } else {
        fields_comments(fields.drop_last()) + field_comments(fields.last())
    }
}

pub open spec fn def_comments(def: Def) -> Seq<Seq<char>>
    decreases def,
{
    match def {
        Def::Body(pattern, body) => pattern_comments(pattern) + expr_comments(*body),
        Def::SpaceBefore(sub, trivia) => trivia_comments(trivia@) + def_comments(*sub),
        Def::SpaceAfter(sub, trivia) => def_comments(*sub) + trivia_comments(trivia@),
        Def::Nested(sub) => def_comments(*sub),
    }
}

pub open spec fn defs_comments(defs: Seq<Def>) -> Seq<Seq<char>>
    decreases defs,
{
    if defs.len() == 0 {
        Seq::empty()
    } else {
        defs_comments(defs.drop_last()) + def_comments(defs.last())
    }
}

pub open spec fn branch_comments(branch: WhenBranch) -> Seq<Seq<char>>
    decreases branch,
{
    patterns_comments(located_values(branch.patterns@)) + (match branch.guard {
        Some(guard) => expr_comments(guard),
        None => Seq::empty(),
    }) + expr_comments(branch.value)
}

pub open spec fn branches_comments(branches: Seq<WhenBranch>) -> Seq<Seq<char>>
    decreases branches,
{
    if branches.len() == 0 {
        Seq::empty()
    } else {
        branches_comments(branches.drop_last()) + branch_comments(branches.last())
    }
}

/// Whether the formatter renders every comment of the expression. It drops
/// the comments before the closing bracket of a list that it lays out on one
/// line, and the base of a record update that has neither fields nor
/// comments before its closing brace.
pub open spec fn expr_keeps(e: Expr) -> bool
    decreases e,
{
    match e {
        Expr::Str(StrLiteral::Line(segments)) => forall|i: int|
            0 <= i < segments@.len() ==> segment_keeps(#[trigger] segments@[i]),
        Expr::Str(StrLiteral::Block(lines)) => forall|i: int|
            0 <= i < lines@.len() ==> line_keeps(#[trigger] lines@[i]),
        Expr::Access(sub, _) => expr_keeps(*sub),
        Expr::List { items, final_comments } => (any_expr_multiline(items@) || !has_comment(
            final_comments@,
        )) && forall|i: int| 0 <= i < items@.len() ==> expr_keeps(#[trigger] items@[i]),
        Expr::Record { update, fields, final_comments } => (match update {
            Some(base) => expr_keeps(*base) && (fields@.len() == 0 && all_newlines(
                final_comments@,
            ) ==> expr_comments(*base).len() == 0),
            None => true,
        }) && forall|i: int| 0 <= i < fields@.len() ==> field_keeps(#[trigger] fields@[i]),
        Expr::Closure(_, body) => expr_keeps(*body),
        Expr::Defs(defs, ret) => expr_keeps(*ret) && forall|i: int|
            0 <= i < defs@.len() ==> def_keeps(#[trigger] defs@[i]),
        Expr::Apply(head, args) => expr_keeps(*head) && forall|i: int|
            0 <= i < args@.len() ==> expr_keeps(#[trigger] args@[i]),
        Expr::BinOp(left, _, right) => expr_keeps(*left) && expr_keeps(*right),
        Expr::UnaryOp(sub, _) => expr_keeps(*sub),
        Expr::If(cond, then_branch, else_branch) => expr_keeps(*cond) && expr_keeps(
            *then_branch,
        ) && expr_keeps(*else_branch),
        Expr::When(cond, branches) => expr_keeps(*cond) && forall|i: int|
            0 <= i < branches@.len() ==> branch_keeps(#[trigger] branches@[i]),
        Expr::SpaceBefore(sub, _) => expr_keeps(*sub),
        Expr::SpaceAfter(sub, _) => expr_keeps(*sub),
        Expr::ParensAround(sub) => expr_keeps(*sub),
        Expr::Nested(sub) => expr_keeps(*sub),
        Expr::PrecedenceConflict(_, _, sub) => expr_keeps(*sub),
        _ => true,
    }
}

pub open spec fn segment_keeps(segment: StrSegment) -> bool
    decreases segment,
{
    match segment {
        StrSegment::Interpolated(inner) => expr_keeps(*inner),
        _ => true,
    }
}

pub open spec fn line_keeps(line: Vec<StrSegment>) -> bool
    decreases line,
{
    forall|j: int| 0 <= j < line@.len() ==> segment_keeps(#[trigger] line@[j])
}

pub open spec fn field_keeps(field: AssignedField) -> bool
    decreases field,
{
    match field {
        AssignedField::RequiredValue(_, _, value) => expr_keeps(*value),
        AssignedField::OptionalValue(_, _, value) => expr_keeps(*value),
        AssignedField::SpaceBefore(sub, _) => field_keeps(*sub),
        AssignedField::SpaceAfter(sub, _) => field_keeps(*sub),
        _ => true,
    }
}

pub open spec fn def_keeps(def: Def) -> bool
    decreases def,
{
    match def {
        Def::Body(_, body) => expr_keeps(*body),
        Def::SpaceBefore(sub, _) => def_keeps(*sub),
        Def::SpaceAfter(sub, _) => def_keeps(*sub),
        Def::Nested(sub) => def_keeps(*sub),
    }
}

pub open spec fn branch_keeps(branch: WhenBranch) -> bool
    decreases branch,
{
    expr_keeps(branch.value) && match branch.guard {
        Some(guard) => expr_keeps(guard),
        None => true,
    }
}

/// A run of trivia without a comment has no comments.
pub proof fn lemma_trivia_no_comments(items: Seq<CommentOrNewline>)
    requires
        !has_comment(items),
    ensures
        trivia_comments(items) == Seq::<Seq<char>>::empty(),
    decreases items.len(),
{
    if items.len() > 0 {
        let rest = items.drop_last();
        assert(!is_comment(items[items.len() - 1]));
        assert forall|i: int| 0 <= i < rest.len() implies !is_comment(#[trigger] rest[i]) by {
            assert(rest[i] == items[i]);
        }
        lemma_trivia_no_comments(rest);
    }
}

proof fn lemma_woven_comment_lines(items: Seq<CommentOrNewline>, indent: int)
    ensures
        woven(comment_lines(items, indent), trivia_comments(items)),
    decreases items.len(),
{
    broadcast use group_woven;

    if items.len() > 0 {
        lemma_woven_comment_lines(items.drop_last(), indent);
    }
}

proof fn lemma_woven_joined(items: Seq<CommentOrNewline>, lead: bool, indent: int)
    ensures
        woven(comments_joined(items, lead, indent), trivia_comments(items)),
    decreases items.len(),
{
    broadcast use group_woven;

    if items.len() > 0 {
        lemma_woven_joined(items.drop_last(), lead, indent);
    }
}

/// A run of trivia, rendered either way, holds its comments.
pub proof fn lemma_woven_trivia(items: Seq<CommentOrNewline>, at: NewlineAt, indent: int)
    ensures
        woven(spaces_text(items, indent), trivia_comments(items)),
        woven(comments_text(items, at, indent), trivia_comments(items)),
{
    broadcast use group_woven;

    lemma_woven_comment_lines(items, indent);
    lemma_woven_joined(items, at is Top || at is Both, indent);
}

/// The text of a pattern holds the comments of the pattern.
pub proof fn lemma_woven_pattern(p: Pattern, parens: Parens, indent: int)
    ensures
        woven(pattern_text(p, parens, indent), pattern_comments(p)),
    decreases p,
{
    broadcast use group_woven;

    match p {
        Pattern::Apply(head, args) => {
            lemma_woven_pattern(*head, Parens::InApply, indent);
            lemma_woven_pattern_args(args@, indent);
        },
        Pattern::RecordDestructure(fields) => {
            lemma_woven_patterns_joined(fields@, ", "@, indent);
        },
        Pattern::SpaceBefore(sub, trivia) => {
            lemma_woven_trivia(trivia@, NewlineAt::Bottom, indent);
            lemma_woven_pattern(*sub, parens, indent);
        },
        Pattern::SpaceAfter(sub, trivia) => {
            lemma_woven_trivia(trivia@, NewlineAt::Bottom, indent);
            lemma_woven_pattern(*sub, parens, indent);
        },
        Pattern::Nested(sub) => {
            lemma_woven_pattern(*sub, parens, indent);
        },
        _ => {},
    }
}

proof fn lemma_woven_pattern_args(args: Seq<Pattern>, indent: int)
    ensures
        woven(pattern_args_text(args, indent), patterns_comments(args)),
    decreases args,
{
    broadcast use group_woven;

    if args.len() > 0 {
        lemma_woven_pattern_args(args.drop_last(), indent);
        lemma_woven_pattern(args.last(), Parens::InApply, indent);
    }
}

pub proof fn lemma_woven_patterns_joined(ps: Seq<Pattern>, sep: Seq<char>, indent: int)
    ensures
        woven(patterns_joined(ps, sep, indent), patterns_comments(ps)),
    decreases ps,
{
    broadcast use group_woven;

    if ps.len() > 0 {
        lemma_woven_patterns_joined(ps.drop_last(), sep, indent);
        lemma_woven_pattern(ps.last(), Parens::NotNeeded, indent);
    }
}

/// The text of an expression holds every comment of the expression, in the
/// order the comments stand in it and without overlap, whatever the modes.
pub proof fn lemma_woven_expr(e: Expr, parens: Parens, newlines: Newlines, indent: int)
    requires
        expr_keeps(e),
    ensures
        woven(expr_text(e, parens, newlines, indent), expr_comments(e)),
    decreases expr_depth(e), 0nat, 0nat,
{
    broadcast use group_woven;

    match e {
        Expr::Str(literal) => {
            lemma_woven_literal(literal, indent);
        },
        Expr::Access(sub, _) => {
            lemma_woven_expr(*sub, parens, Newlines::Yes, indent);
        },
        Expr::List { items, final_comments } => {
            lemma_woven_list(items@, final_comments@, indent);
        },
        Expr::Record { update, fields, final_comments } => {
            let base = match update {
                Some(base) => Some(*base),
                None => None,
            };
            lemma_woven_record(base, fields@, final_comments@, indent);
        },
        Expr::Closure(patterns, body) => {
            lemma_woven_closure(patterns@, *body, indent);
        },
        Expr::Defs(defs, ret) => {
            lemma_woven_let(defs@, *ret, indent);
        },
        Expr::Apply(head, args) => {
            lemma_woven_apply(*head, args@, parens, indent);
        },
        Expr::BinOp(left, op, right) => {
            lemma_woven_bin_op(*left, op, *right, false, parens, indent);
        },
        Expr::UnaryOp(sub, _) => {
            lemma_woven_expr(*sub, parens, newlines, indent);
        },
        Expr::If(cond, then_branch, else_branch) => {
            lemma_woven_if(*cond, *then_branch, *else_branch, indent);
        },
        Expr::When(cond, branches) => {
            lemma_woven_when(*cond, branches@, indent);
        },
        Expr::SpaceBefore(sub, trivia) => {
            lemma_woven_trivia(trivia@, NewlineAt::Bottom, indent);
            lemma_woven_expr(*sub, parens, newlines, indent);
        },
        Expr::SpaceAfter(sub, trivia) => {
            lemma_woven_trivia(trivia@, NewlineAt::Bottom, indent);
            lemma_woven_expr(*sub, parens, newlines, indent);
        },
        Expr::ParensAround(sub) => {
            lemma_woven_expr(*sub, Parens::NotNeeded, Newlines::Yes, indent);
        },
        Expr::Nested(sub) => {
            lemma_woven_expr(*sub, parens, newlines, indent);
        },
        Expr::PrecedenceConflict(_, _, sub) => {
            lemma_woven_expr(*sub, parens, newlines, indent);
        },
        _ => {},
    }
}

proof fn lemma_woven_segment(segment: StrSegment, indent: int)
    requires
        segment_keeps(segment),
    ensures
        woven(segment_text(segment, indent), segment_comments(segment)),
    decreases segment_depth(segment), 0nat, 0nat,
{
    broadcast use group_woven;

    match segment {
        StrSegment::Interpolated(inner) => {
            lemma_woven_expr(*inner, Parens::NotNeeded, Newlines::No, indent);
        },
        _ => {},
    }
}

proof fn lemma_woven_segments(segments: Seq<StrSegment>, indent: int)
    requires
        forall|i: int| 0 <= i < segments.len() ==> segment_keeps(#[trigger] segments[i]),
    ensures
        woven(segments_text(segments, indent), segments_comments(segments)),
    decreases segments_depth(segments), 1nat, segments.len(),
{
    broadcast use group_woven;

    if segments.len() > 0 {
        let rest = segments.drop_last();
        assert forall|i: int| 0 <= i < rest.len() implies segment_keeps(#[trigger] rest[i]) by {
            assert(rest[i] == segments[i]);
        }
        assert(segment_keeps(segments[segments.len() - 1]));
        lemma_woven_segments(rest, indent);
        lemma_woven_segment(segments.last(), indent);
    }
}

proof fn lemma_woven_block_lines(lines: Seq<Vec<StrSegment>>, breaks: bool, indent: int)
    requires
        forall|i: int| 0 <= i < lines.len() ==> line_keeps(#[trigger] lines[i]),
    ensures
        woven(block_lines_text(lines, breaks, indent), lines_comments(lines)),
    decreases lines_depth(lines), 2nat, lines.len(),
{
    broadcast use group_woven;

    if lines.len() > 0 {
        let rest = lines.drop_last();
        assert forall|i: int| 0 <= i < rest.len() implies line_keeps(#[trigger] rest[i]) by {
            assert(rest[i] == lines[i]);
        }
        assert(line_keeps(lines[lines.len() - 1]));
        lemma_woven_block_lines(rest, breaks, indent);
        lemma_woven_segments(lines.last()@, indent);
    }
}

proof fn lemma_woven_literal(literal: StrLiteral, indent: int)
    requires
        expr_keeps(Expr::Str(literal)),
    ensures
        woven(str_literal_text(literal, indent), expr_comments(Expr::Str(literal))),
    decreases literal_depth(literal), 3nat, 0nat,
{
    broadcast use group_woven;

    match literal {
        StrLiteral::PlainLine(_) => {},
        StrLiteral::Line(segments) => {
            lemma_woven_segments(segments@, 0);
        },
        StrLiteral::Block(lines) => {
            lemma_woven_block_lines(lines@, true, indent);
            lemma_woven_block_lines(lines@, false, indent);
        },
    }
}

proof fn lemma_woven_args(args: Seq<Expr>, spread: bool, indent: int)
    requires
        forall|i: int| 0 <= i < args.len() ==> expr_keeps(#[trigger] args[i]),
    ensures
        woven(args_text(args, spread, indent), exprs_comments(args)),
    decreases exprs_depth(args), 1nat, args.len(),
{
    broadcast use group_woven;

    if args.len() > 0 {
        let rest = args.drop_last();
        assert forall|i: int| 0 <= i < rest.len() implies expr_keeps(#[trigger] rest[i]) by {
            assert(rest[i] == args[i]);
        }
        assert(expr_keeps(args[args.len() - 1]));
        lemma_woven_args(rest, spread, indent);
        lemma_woven_expr(args.last(), Parens::InApply, Newlines::No, indent + step());
        lemma_woven_expr(args.last(), Parens::InApply, Newlines::Yes, indent);
    }
}

proof fn lemma_woven_apply(head: Expr, args: Seq<Expr>, parens: Parens, indent: int)
    requires
        expr_keeps(head),
        forall|i: int| 0 <= i < args.len() ==> expr_keeps(#[trigger] args[i]),
    ensures
        woven(apply_text(head, args, parens, indent), expr_comments(head) + exprs_comments(args)),
    decreases max(expr_depth(head), exprs_depth(args)), 2nat, 0nat,
{
    broadcast use group_woven;

    lemma_woven_expr(head, Parens::InApply, Newlines::Yes, indent);
    lemma_woven_args(args, any_expr_multiline(args), indent);
}

proof fn lemma_woven_trailing(e: Expr, comma: bool, indent: int)
    requires
        expr_keeps(e),
    ensures
        woven(trailing_text(e, comma, indent), expr_comments(e)),
    decreases expr_depth(e), 1nat, 0nat,
{
    broadcast use group_woven;

    match e {
        Expr::SpaceAfter(sub, after) => {
            lemma_woven_expr(*sub, Parens::NotNeeded, Newlines::Yes, indent);
            lemma_woven_trivia(after@, NewlineAt::Top, indent);
        },
        _ => {
            lemma_woven_expr(e, Parens::NotNeeded, Newlines::Yes, indent);
        },
    }
}

proof fn lemma_woven_isolated(e: Expr, comma: bool, indent: int)
    requires
        expr_keeps(e),
    ensures
        woven(isolated_text(e, comma, indent), expr_comments(e)),
    decreases expr_depth(e), 2nat, 0nat,
{
    broadcast use group_woven;

    match e {
        Expr::SpaceBefore(sub, before) => {
            lemma_woven_trivia(before@, NewlineAt::Bottom, indent);
            lemma_woven_trailing(*sub, comma, indent);
        },
        _ => {
            lemma_woven_trailing(e, comma, indent);
        },
    }
}

proof fn lemma_woven_list_items_inline(items: Seq<Expr>, indent: int)
    requires
        forall|i: int| 0 <= i < items.len() ==> expr_keeps(#[trigger] items[i]),
    ensures
        woven(list_items_inline_text(items, indent), exprs_comments(items)),
    decreases exprs_depth(items), 1nat, items.len(),
{
    broadcast use group_woven;

    if items.len() > 0 {
        let rest = items.drop_last();
        assert forall|i: int| 0 <= i < rest.len() implies expr_keeps(#[trigger] rest[i]) by {
            assert(rest[i] == items[i]);
        }
        assert(expr_keeps(items[items.len() - 1]));
        lemma_woven_list_items_inline(rest, indent);
        lemma_woven_expr(items.last(), Parens::NotNeeded, Newlines::Yes, indent);
    }
}

proof fn lemma_woven_list_items_lines(items: Seq<Expr>, indent: int)
    requires
        forall|i: int| 0 <= i < items.len() ==> expr_keeps(#[trigger] items[i]),
    ensures
        woven(list_items_lines_text(items, indent), exprs_comments(items)),
    decreases exprs_depth(items), 3nat, items.len(),
{
    broadcast use group_woven;

    if items.len() > 0 {
        let rest = items.drop_last();
        assert forall|i: int| 0 <= i < rest.len() implies expr_keeps(#[trigger] rest[i]) by {
            assert(rest[i] == items[i]);
        }
        assert(expr_keeps(items[items.len() - 1]));
        lemma_woven_list_items_lines(rest, indent);
        lemma_woven_isolated(items.last(), true, indent);
    }
}

proof fn lemma_woven_list(items: Seq<Expr>, final_comments: Seq<CommentOrNewline>, indent: int)
    requires
        any_expr_multiline(items) || !has_comment(final_comments),
        forall|i: int| 0 <= i < items.len() ==> expr_keeps(#[trigger] items[i]),
    ensures
        woven(
            list_text(items, final_comments, indent),
            exprs_comments(items) + trivia_comments(final_comments),
        ),
    decreases exprs_depth(items), 4nat, 0nat,
{
    broadcast use group_woven;

    if any_expr_multiline(items) {
        lemma_woven_list_items_lines(items, indent + step());
        lemma_woven_trivia(final_comments, NewlineAt::Top, indent + step());
    } else {
        lemma_trivia_no_comments(final_comments);
        lemma_woven_list_items_inline(items, indent);
    }
}

proof fn lemma_woven_field_line(field: AssignedField, indent: int)
    requires
        field_keeps(field),
    ensures
        woven(field_line_text(field, indent), field_comments(field)),
    decreases field_depth(field), 0nat, 0nat,
{
    broadcast use group_woven;

    match field {
        AssignedField::RequiredValue(_, trivia, value) => {
            lemma_woven_trivia(trivia@, NewlineAt::Top, indent);
            lemma_woven_expr(*value, Parens::NotNeeded, Newlines::Yes, indent);
        },
        AssignedField::OptionalValue(_, trivia, value) => {
            lemma_woven_trivia(trivia@, NewlineAt::Top, indent);
            lemma_woven_expr(*value, Parens::NotNeeded, Newlines::Yes, indent);
        },
        AssignedField::SpaceBefore(sub, trivia) => {
            lemma_woven_trivia(trivia@, NewlineAt::Top, indent);
            lemma_woven_field_line(*sub, indent);
        },
        AssignedField::SpaceAfter(sub, trivia) => {
            lemma_woven_trivia(trivia@, NewlineAt::Top, indent);
            lemma_woven_field_line(*sub, indent);
        },
        _ => {},
    }
}

proof fn lemma_woven_field_inline(field: AssignedField, indent: int)
    requires
        field_keeps(field),
    ensures
        woven(field_inline_text(field, indent), field_comments(field)),
    decreases field_depth(field), 0nat, 0nat,
{
    broadcast use group_woven;

    match field {
        AssignedField::RequiredValue(_, trivia, value) => {
            lemma_woven_trivia(trivia@, NewlineAt::Top, indent);
            lemma_woven_expr(*value, Parens::NotNeeded, Newlines::Yes, indent);
        },
        AssignedField::OptionalValue(_, trivia, value) => {
            lemma_woven_trivia(trivia@, NewlineAt::Top, indent);
            lemma_woven_expr(*value, Parens::NotNeeded, Newlines::Yes, indent);
        },
        AssignedField::SpaceBefore(sub, trivia) => {
            lemma_woven_trivia(trivia@, NewlineAt::Bottom, indent);
            lemma_woven_field_inline(*sub, indent);
        },
        AssignedField::SpaceAfter(sub, trivia) => {
            lemma_woven_trivia(trivia@, NewlineAt::Bottom, indent);
            lemma_woven_field_inline(*sub, indent);
        },
        _ => {},
    }
}

proof fn lemma_woven_fields_lines(fields: Seq<AssignedField>, indent: int)
    requires
        forall|i: int| 0 <= i < fields.len() ==> field_keeps(#[trigger] fields[i]),
    ensures
        woven(fields_lines_text(fields, indent), fields_comments(fields)),
    decreases fields_depth(fields), 1nat, fields.len(),
{
    broadcast use group_woven;

    if fields.len() > 0 {
        let rest = fields.drop_last();
        assert forall|i: int| 0 <= i < rest.len() implies field_keeps(#[trigger] rest[i]) by {
            assert(rest[i] == fields[i]);
        }
        assert(field_keeps(fields[fields.len() - 1]));
        lemma_woven_fields_lines(rest, indent);
        lemma_woven_field_line(fields.last(), indent);
    }
}

proof fn lemma_woven_fields_inline(fields: Seq<AssignedField>, indent: int)
    requires
        forall|i: int| 0 <= i < fields.len() ==> field_keeps(#[trigger] fields[i]),
    ensures
        woven(fields_inline_text(fields, indent), fields_comments(fields)),
    decreases fields_depth(fields), 1nat, fields.len(),
{
    broadcast use group_woven;

    if fields.len() > 0 {
        let rest = fields.drop_last();
        assert forall|i: int| 0 <= i < rest.len() implies field_keeps(#[trigger] rest[i]) by {
            assert(rest[i] == fields[i]);
        }
        assert(field_keeps(fields[fields.len() - 1]));
        lemma_woven_fields_inline(rest, indent);
        lemma_woven_field_inline(fields.last(), indent);
    }
}

/// The comments of an expression that may be missing.
pub open spec fn option_comments(e: Option<Expr>) -> Seq<Seq<char>> {
    match e {
        Some(inner) => expr_comments(inner),
        None => Seq::empty(),
    }
}

proof fn lemma_woven_record(
    update: Option<Expr>,
    fields: Seq<AssignedField>,
    final_comments: Seq<CommentOrNewline>,
    indent: int,
)
    requires
        match update {
            Some(base) => expr_keeps(base) && (fields.len() == 0 && all_newlines(final_comments)
                ==> expr_comments(base).len() == 0),
            None => true,
        },
        forall|i: int| 0 <= i < fields.len() ==> field_keeps(#[trigger] fields[i]),
    ensures
        woven(
            record_text(update, fields, final_comments, indent),
            option_comments(update) + fields_comments(fields) + trivia_comments(final_comments),
        ),
    decreases max(option_depth(update), fields_depth(fields)), 2nat, 0nat,
{
    broadcast use group_woven;

    let marks = option_comments(update) + fields_comments(fields) + trivia_comments(
        final_comments,
    );
    if fields.len() == 0 && all_newlines(final_comments) {
        lemma_trivia_no_comments(final_comments);
        assert(marks =~= Seq::<Seq<char>>::empty());
    } else {
        let base_part = match update {
            Some(base) => seq![' '] + expr_text(base, Parens::NotNeeded, Newlines::Yes, indent)
                + " &"@,
            None => Seq::<char>::empty(),
        };
        match update {
            Some(base) => {
                lemma_woven_expr(base, Parens::NotNeeded, Newlines::Yes, indent);
            },
            None => {},
        }
        assert(woven(base_part, option_comments(update)));
        lemma_woven_fields_lines(fields, indent + step());
        lemma_woven_fields_inline(fields, indent);
        lemma_woven_trivia(final_comments, NewlineAt::Top, indent + step());
        let rest_part = if any_field_multiline(fields) || final_comments.len() > 0 {
            fields_lines_text(fields, indent + step()) + comments_text(
                final_comments,
                NewlineAt::Top,
                indent + step(),
            ) + line_break(indent)
        } else {
            seq![' '] + fields_inline_text(fields, indent) + seq![' ']
        };
        if !(any_field_multiline(fields) || final_comments.len() > 0) {
            assert(final_comments =~= Seq::empty());
            assert(trivia_comments(final_comments) =~= Seq::<Seq<char>>::empty());
            assert(fields_comments(fields) + trivia_comments(final_comments) =~= fields_comments(
                fields,
            ));
        }
        assert(woven(rest_part, fields_comments(fields) + trivia_comments(final_comments)));
        assert(woven(
            base_part + rest_part,
            option_comments(update) + (fields_comments(fields) + trivia_comments(final_comments)),
        ));
        assert(marks =~= option_comments(update) + (fields_comments(fields) + trivia_comments(
            final_comments,
        )));
        assert(record_text(update, fields, final_comments, indent) =~= seq!['{'] + (base_part
            + rest_part) + seq!['}']);
    }
}

proof fn lemma_woven_closure(patterns: Seq<Pattern>, body: Expr, indent: int)
    requires
        expr_keeps(body),
    ensures
        woven(
            closure_text(patterns, body, indent),
            patterns_comments(patterns) + expr_comments(body),
        ),
    decreases expr_depth(body), 1nat, 0nat,
{
    broadcast use group_woven;

    lemma_woven_patterns_joined(patterns, ", "@, indent);
    lemma_woven_patterns_joined(
        patterns,
        seq![','] + line_break(indent + step()),
        indent + step(),
    );
    lemma_woven_expr(body, Parens::NotNeeded, Newlines::Yes, indent);
    lemma_woven_expr(body, Parens::NotNeeded, Newlines::Yes, indent + step());
    lemma_woven_expr(body, Parens::NotNeeded, Newlines::Yes, indent + 2 * step());
}

proof fn lemma_woven_def(def: Def, indent: int)
    requires
        def_keeps(def),
    ensures
        woven(def_text(def, indent), def_comments(def)),
    decreases def_depth(def), 0nat, 0nat,
{
    broadcast use group_woven;

    match def {
        Def::Body(pattern, body) => {
            lemma_woven_pattern(pattern, Parens::InApply, indent);
            lemma_woven_expr(*body, Parens::NotNeeded, Newlines::Yes, indent);
        },
        Def::SpaceBefore(sub, trivia) => {
            lemma_woven_trivia(trivia@, NewlineAt::Top, indent);
            lemma_woven_def(*sub, indent);
        },
        Def::SpaceAfter(sub, trivia) => {
            lemma_woven_trivia(trivia@, NewlineAt::Top, indent);
            lemma_woven_def(*sub, indent);
        },
        Def::Nested(sub) => {
            lemma_woven_def(*sub, indent);
        },
    }
}

proof fn lemma_woven_defs(defs: Seq<Def>, indent: int)
    requires
        forall|i: int| 0 <= i < defs.len() ==> def_keeps(#[trigger] defs[i]),
    ensures
        woven(defs_text(defs, indent), defs_comments(defs)),
    decreases defs_depth(defs), 1nat, defs.len(),
{
    broadcast use group_woven;

    if defs.len() > 0 {
        let rest = defs.drop_last();
        assert forall|i: int| 0 <= i < rest.len() implies def_keeps(#[trigger] rest[i]) by {
            assert(rest[i] == defs[i]);
        }
        assert(def_keeps(defs[defs.len() - 1]));
        lemma_woven_defs(rest, indent);
        lemma_woven_def(defs.last(), indent);
    }
}

proof fn lemma_woven_let(defs: Seq<Def>, ret: Expr, indent: int)
    requires
        forall|i: int| 0 <= i < defs.len() ==> def_keeps(#[trigger] defs[i]),
        expr_keeps(ret),
    ensures
        woven(let_text(defs, ret, indent), defs_comments(defs) + expr_comments(ret)),
    decreases max(defs_depth(defs), expr_depth(ret)), 2nat, 0nat,
{
    broadcast use group_woven;

    lemma_woven_defs(defs, indent);
    lemma_woven_expr(ret, Parens::NotNeeded, Newlines::Yes, indent);
}

proof fn lemma_woven_if(cond: Expr, then_branch: Expr, else_branch: Expr, indent: int)
    requires
        expr_keeps(cond),
        expr_keeps(then_branch),
        expr_keeps(else_branch),
    ensures
        woven(
            if_text(cond, then_branch, else_branch, indent),
            expr_comments(cond) + expr_comments(then_branch) + expr_comments(else_branch),
        ),
    decreases max(expr_depth(cond), max(expr_depth(then_branch), expr_depth(else_branch))), 3nat,
        0nat,
{
    broadcast use group_woven;

    lemma_woven_isolated(cond, false, indent + step());
    lemma_woven_expr(cond, Parens::NotNeeded, Newlines::Yes, indent);
    lemma_woven_isolated(then_branch, false, indent + step());
    lemma_woven_expr(then_branch, Parens::NotNeeded, Newlines::Yes, indent);
    lemma_woven_expr(else_branch, Parens::NotNeeded, Newlines::Yes, indent);
    lemma_woven_expr(else_branch, Parens::NotNeeded, Newlines::Yes, indent + step());
}

proof fn lemma_woven_branch(branch: WhenBranch, indent: int)
    requires
        branch_keeps(branch),
    ensures
        woven(branch_text(branch, indent), branch_comments(branch)),
    decreases branch_depth(branch), 0nat, 0nat,
{
    broadcast use group_woven;

    let patterns = located_values(branch.patterns@);
    lemma_woven_patterns_joined(patterns, " | "@, indent + step());
    lemma_woven_patterns_joined(
        patterns,
        line_break(indent + step()) + "| "@,
        indent + step(),
    );
    match branch.guard {
        Some(guard) => {
            lemma_woven_expr(guard, Parens::NotNeeded, Newlines::Yes, indent + step());
        },
        None => {},
    }
    match branch.value {
        Expr::SpaceBefore(sub, trivia) => {
            lemma_woven_trivia(trivia@, NewlineAt::Bottom, indent + 2 * step());
            lemma_woven_expr(*sub, Parens::NotNeeded, Newlines::Yes, indent + 2 * step());
        },
        _ => {
            lemma_woven_expr(branch.value, Parens::NotNeeded, Newlines::Yes, indent + 2 * step());
        },
    }
}

proof fn lemma_woven_branches(branches: Seq<WhenBranch>, indent: int)
    requires
        forall|i: int| 0 <= i < branches.len() ==> branch_keeps(#[trigger] branches[i]),
    ensures
        woven(branches_text(branches, indent), branches_comments(branches)),
    decreases branches_depth(branches), 1nat, branches.len(),
{
    broadcast use group_woven;

    if branches.len() > 0 {
        let rest = branches.drop_last();
        assert forall|i: int| 0 <= i < rest.len() implies branch_keeps(#[trigger] rest[i]) by {
            assert(rest[i] == branches[i]);
        }
        assert(branch_keeps(branches[branches.len() - 1]));
        lemma_woven_branches(rest, indent);
        lemma_woven_branch(branches.last(), indent);
    }
}

proof fn lemma_woven_when(cond: Expr, branches: Seq<WhenBranch>, indent: int)
    requires
        expr_keeps(cond),
        forall|i: int| 0 <= i < branches.len() ==> branch_keeps(#[trigger] branches[i]),
    ensures
        woven(
            when_text(cond, branches, indent),
            expr_comments(cond) + branches_comments(branches),
        ),
    decreases max(expr_depth(cond), branches_depth(branches)), 3nat, 0nat,
{
    broadcast use group_woven;

    lemma_woven_isolated(cond, false, indent + step());
    lemma_woven_expr(cond, Parens::NotNeeded, Newlines::Yes, indent);
    lemma_woven_branches(branches, indent);
}

proof fn lemma_woven_bin_op(
    left: Expr,
    op: BinOp,
    right: Expr,
    in_spread_chain: bool,
    parens: Parens,
    indent: int,
)
    requires
        expr_keeps(left),
        expr_keeps(right),
    ensures
        woven(
            bin_op_text(left, op, right, in_spread_chain, parens, indent),
            expr_comments(left) + expr_comments(right),
        ),
    decreases max(expr_depth(left), expr_depth(right)), 1nat, 0nat,
{
    broadcast use group_woven;

    lemma_woven_expr(left, parens, Newlines::No, indent);
    match right {
        Expr::BinOp(next_left, next_op, next_right) => {
            let spread = expr_multiline(right) || expr_multiline(
                left,
            ) || in_spread_chain;
            lemma_woven_bin_op(*next_left, next_op, *next_right, spread, parens, indent);
        },
        _ => {
            lemma_woven_expr(right, parens, Newlines::Yes, indent);
        },
    }
}

} // verus!
