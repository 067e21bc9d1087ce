//! Line feeds in rendered text: where the formatter breaks a line, and that
//! it breaks one exactly when the multi-line predicate says it must.

use vstd::prelude::*;
use crate::annotation::{Newlines, Parens};
use crate::ast::{
    expr_depth, exprs_depth, field_depth, fields_depth, lines_depth, literal_depth, max,
    segment_depth, segments_depth, AssignedField, BinOp, CommentOrNewline, Expr, Pattern,
    StrLiteral, StrSegment,
};
use crate::layout::{any_expr_multiline, any_field_multiline, expr_multiline, field_multiline};
use crate::pattern::{
    any_pattern_multiline, pattern_args_text, pattern_multiline, pattern_text, patterns_joined,
};
use crate::render::{
    apply_text, args_text, closure_text, empty_line_before, expr_text, if_text, isolated_text,
    let_text, list_text, newline_count, record_text, step, str_literal_text, trivia_text,
    when_text, bin_op_text, base_prefix, bin_op_token, block_lines_text, field_inline_text,
    fields_inline_text, list_items_inline_text, option_depth, segment_text, segments_text,
};
use crate::spaces::{
    all_newlines, blank_lines, comment_lines, has_comment, is_comment, leading_newlines,
    line_break, spaces, spaces_text,
};
use crate::validity::expr_well_formed;

verus! {

/// Whether a text holds a line feed.
pub open spec fn has_line_feed(s: Seq<char>) -> bool {
    s.contains('\n')
}

pub broadcast proof fn lemma_line_feed_concat(a: Seq<char>, b: Seq<char>)
    ensures
        #[trigger] has_line_feed(a + b) == (has_line_feed(a) || has_line_feed(b)),
{
    if has_line_feed(a) {
        let i = choose|i: int| 0 <= i < a.len() && a[i] == '\n';
        assert((a + b)[i] == '\n');
    }
    if has_line_feed(b) {
        let i = choose|i: int| 0 <= i < b.len() && b[i] == '\n';
        assert((a + b)[a.len() + i] == '\n');
    }
    if has_line_feed(a + b) {
        let i = choose|i: int| 0 <= i < (a + b).len() && (a + b)[i] == '\n';
        if i < a.len() {
            assert(a[i] == '\n');
        } else {
            assert(b[i - a.len()] == '\n');
        }
    }
}

pub broadcast proof fn lemma_line_feed_push(a: Seq<char>, c: char)
    ensures
        #[trigger] has_line_feed(a.push(c)) == (has_line_feed(a) || c == '\n'),
{
    if has_line_feed(a) {
        let i = choose|i: int| 0 <= i < a.len() && a[i] == '\n';
        assert(a.push(c)[i] == '\n');
    }
    if c == '\n' {
        assert(a.push(c)[a.len() as int] == '\n');
    }
    if has_line_feed(a.push(c)) {
        let i = choose|i: int| 0 <= i < a.push(c).len() && a.push(c)[i] == '\n';
        if i < a.len() {
            assert(a[i] == '\n');
        }
    }
}

pub broadcast proof fn lemma_spaces_stay_on_line(n: int)
    ensures
        !#[trigger] has_line_feed(spaces(n)),
{
}

pub broadcast proof fn lemma_line_break_breaks(n: int)
    ensures
        #[trigger] has_line_feed(line_break(n)),
{
    assert(line_break(n)[0] == '\n');
}

pub broadcast group group_line_feeds {
    lemma_line_feed_concat,
    lemma_line_feed_push,
    lemma_spaces_stay_on_line,
    lemma_line_break_breaks,
}

/// A comment in a run of trivia brings a line break with it.
proof fn lemma_comment_lines_break(items: Seq<CommentOrNewline>, indent: int)
    requires
        has_comment(items),
    ensures
        has_line_feed(comment_lines(items, indent)),
    decreases items.len(),
{
    broadcast use group_line_feeds;

    let k = choose|k: int| 0 <= k < items.len() && is_comment(#[trigger] items[k]);
    if !is_comment(items.last()) {
        assert(items.drop_last()[k] == items[k]);
        lemma_comment_lines_break(items.drop_last(), indent);
    }
}

/// A run of trivia that is not empty, rendered with its blank lines, breaks
/// the line.
pub proof fn lemma_trivia_breaks(items: Seq<CommentOrNewline>, indent: int)
    requires
        items.len() > 0,
    ensures
        has_line_feed(spaces_text(items, indent)),
{
    broadcast use group_line_feeds;

    if is_comment(items.first()) {
        assert(is_comment(items[0]));
        lemma_comment_lines_break(items, indent);
    } else {
        assert(leading_newlines(items) >= 1);
        assert(has_line_feed(blank_lines(leading_newlines(items), indent)));
    }
}

/// Two blank lines make a run of trivia that is not empty.
proof fn lemma_newline_count_bound(items: Seq<CommentOrNewline>)
    ensures
        newline_count(items) <= items.len(),
    decreases items.len(),
{
    if items.len() > 0 {
        lemma_newline_count_bound(items.drop_last());
    }
}

/// An expression that starts with an empty line breaks the line.
pub proof fn lemma_empty_line_breaks(e: Expr, parens: Parens, indent: int)
    requires
        empty_line_before(e),
    ensures
        has_line_feed(expr_text(e, parens, Newlines::Yes, indent)),
    decreases e,
{
    broadcast use group_line_feeds;

    match e {
        Expr::SpaceBefore(sub, trivia) => {
            lemma_newline_count_bound(trivia@);
            lemma_trivia_breaks(trivia@, indent);
            assert(trivia_text(trivia@, Newlines::Yes, indent) == spaces_text(trivia@, indent));
        },
        Expr::Nested(sub) => {
            lemma_empty_line_breaks(*sub, parens, indent);
        },
        _ => {},
    }
}

/// A multi-line expression, rendered with its blank lines, spans more than
/// one line.
pub proof fn lemma_multiline_breaks(e: Expr, parens: Parens, indent: int)
    requires
        expr_well_formed(e),
        expr_multiline(e),
    ensures
        has_line_feed(expr_text(e, parens, Newlines::Yes, indent)),
    decreases e,
{
    broadcast use group_line_feeds;

    match e {
        Expr::SpaceBefore(sub, trivia) => {
            lemma_trivia_breaks(trivia@, indent);
            assert(trivia_text(trivia@, Newlines::Yes, indent) == spaces_text(trivia@, indent));
        },
        Expr::SpaceAfter(sub, trivia) => {
            lemma_trivia_breaks(trivia@, indent);
            assert(trivia_text(trivia@, Newlines::Yes, indent) == spaces_text(trivia@, indent));
        },
        Expr::Defs(defs, ret) => {
            if empty_line_before(*ret) {
                lemma_empty_line_breaks(*ret, Parens::NotNeeded, indent);
            }
            assert(has_line_feed(let_text(defs@, *ret, indent)));
        },
        Expr::When(cond, branches) => {
            reveal_strlit("is\n");
            assert("is\n"@[2] == '\n');
            assert(has_line_feed("is\n"@));
            assert(has_line_feed(when_text(*cond, branches@, indent)));
        },
        Expr::List { items, final_comments } => {
            assert(any_expr_multiline(items@));
            assert(items@.len() > 0);
            assert(has_line_feed(list_text(items@, final_comments@, indent)));
        },
        Expr::Str(literal) => {
            assert(has_line_feed(str_literal_text(literal, indent)));
        },
        Expr::Apply(head, args) => {
            if expr_multiline(*head) {
                lemma_multiline_breaks(*head, Parens::InApply, indent);
            } else {
                assert(has_line_feed(args_text(args@, true, indent)));
            }
            assert(has_line_feed(apply_text(*head, args@, parens, indent)));
        },
        Expr::If(cond, then_branch, else_branch) => {
            let inner = indent + step();
            assert(has_line_feed(isolated_text(*cond, false, inner)));
            assert(has_line_feed(isolated_text(*then_branch, false, inner)));
            assert(has_line_feed(if_text(*cond, *then_branch, *else_branch, indent)));
        },
        Expr::BinOp(left, op, right) => {
            assert(has_line_feed(bin_op_text(*left, op, *right, false, parens, indent)));
        },
        Expr::UnaryOp(sub, _) => {
            lemma_multiline_breaks(*sub, parens, indent);
        },
        Expr::PrecedenceConflict(_, _, sub) => {
            lemma_multiline_breaks(*sub, parens, indent);
        },
        Expr::ParensAround(sub) => {
            lemma_multiline_breaks(*sub, Parens::NotNeeded, indent);
        },
        Expr::Nested(sub) => {
            lemma_multiline_breaks(*sub, parens, indent);
        },
        Expr::Closure(patterns, body) => {
            if expr_multiline(*body) {
                let spread = any_pattern_multiline(patterns@);
                let pattern_indent = if spread { indent + step() } else { indent };
                lemma_multiline_breaks(*body, Parens::NotNeeded, pattern_indent + step());
            }
            assert(has_line_feed(closure_text(patterns@, *body, indent)));
        },
        Expr::Record { update, fields, final_comments } => {
            let base = match update {
                Some(base) => Some(*base),
                None => None,
            };
            assert(any_field_multiline(fields@));
            assert(fields@.len() > 0);
            assert(has_line_feed(record_text(base, fields@, final_comments@, indent)));
        },
        _ => {},
    }
}

/// Whether the one-line layout of a pattern shows nothing that holds a line
/// feed. Nothing is asked of a multi-line pattern.
pub open spec fn pattern_flat(p: Pattern) -> bool
    decreases p,
{
    pattern_multiline(p) || match p {
        Pattern::Identifier(name) => !has_line_feed(name@),
        Pattern::GlobalTag(name) => !has_line_feed(name@),
        Pattern::PrivateTag(name) => !has_line_feed(name@),
        Pattern::NumLiteral(digits) => !has_line_feed(digits@),
        Pattern::StrLiteral(text) => !has_line_feed(text@),
        Pattern::Malformed(raw) => !has_line_feed(raw@),
        Pattern::Apply(head, args) => pattern_flat(*head) && forall|i: int|
            0 <= i < args@.len() ==> pattern_flat(#[trigger] args@[i]),
        Pattern::RecordDestructure(fields) => forall|i: int|
            0 <= i < fields@.len() ==> pattern_flat(#[trigger] fields@[i]),
        Pattern::Nested(sub) => pattern_flat(*sub),
        _ => true,
    }
}

/// Whether the one-line layout of an expression shows nothing that holds a
/// line feed: no name, number or piece of text with a line feed in it, no
/// multi-line expression where the multi-line predicate does not look (the
/// base of a field access or of a record update, an interpolation), and no
/// comment before the closing brace of a record. Nothing is asked of a
/// multi-line expression.
pub open spec fn expr_flat(e: Expr) -> bool
    decreases e,
{
    expr_multiline(e) || match e {
        Expr::Float(digits) => !has_line_feed(digits@),
        Expr::Num(digits) => !has_line_feed(digits@),
        Expr::GlobalTag(name) => !has_line_feed(name@),
        Expr::PrivateTag(name) => !has_line_feed(name@),
        Expr::NonBase10Int { string, .. } => !has_line_feed(string@),
        Expr::Str(StrLiteral::PlainLine(text)) => !has_line_feed(text@),
        Expr::Str(StrLiteral::Line(segments)) => forall|i: int|
            0 <= i < segments@.len() ==> segment_flat(#[trigger] segments@[i]),
        Expr::Str(StrLiteral::Block(lines)) => forall|i: int|
            0 <= i < lines@.len() ==> line_flat(#[trigger] lines@[i]),
        Expr::Access(sub, key) => !expr_multiline(*sub) && expr_flat(*sub) && !has_line_feed(
            key@,
        ),
        Expr::AccessorFunction(key) => !has_line_feed(key@),
        Expr::Var { module_name, ident } => !has_line_feed(module_name@) && !has_line_feed(
            ident@,
        ),
        Expr::List { items, .. } => forall|i: int|
            0 <= i < items@.len() ==> expr_flat(#[trigger] items@[i]),
        Expr::Record { update, fields, final_comments } => (fields@.len() == 0 && all_newlines(
            final_comments@,
        )) || (final_comments@.len() == 0 && (match update {
            Some(base) => !expr_multiline(*base) && expr_flat(*base),
            None => true,
        }) && forall|i: int| 0 <= i < fields@.len() ==> field_flat(#[trigger] fields@[i])),
        Expr::Apply(head, args) => expr_flat(*head) && forall|i: int|
            0 <= i < args@.len() ==> expr_flat(#[trigger] args@[i]),
        Expr::BinOp(left, _, right) => expr_flat(*left) && expr_flat(*right),
        Expr::UnaryOp(sub, _) => expr_flat(*sub),
        Expr::ParensAround(sub) => expr_flat(*sub),
        Expr::Nested(sub) => expr_flat(*sub),
        Expr::PrecedenceConflict(_, _, sub) => expr_flat(*sub),
        Expr::If(cond, then_branch, else_branch) => expr_flat(*cond) && expr_flat(*then_branch)
            && expr_flat(*else_branch),
        Expr::Closure(patterns, body) => expr_flat(*body) && forall|i: int|
            0 <= i < patterns@.len() ==> pattern_flat(#[trigger] patterns@[i]),
        _ => true,
    }
}

pub open spec fn segment_flat(segment: StrSegment) -> bool
    decreases segment,
{
    match segment {
        StrSegment::Plaintext(text) => !has_line_feed(text@),
        StrSegment::Unicode(hex) => !has_line_feed(hex@),
        StrSegment::EscapedChar(_) => true,
        StrSegment::Interpolated(inner) => !expr_multiline(*inner) && expr_flat(*inner),
    }
}

pub open spec fn line_flat(line: Vec<StrSegment>) -> bool
    decreases line,
{
    forall|j: int| 0 <= j < line@.len() ==> segment_flat(#[trigger] line@[j])
}

pub open spec fn field_flat(field: AssignedField) -> bool
    decreases field,
{
    field_multiline(field) || match field {
        AssignedField::RequiredValue(name, _, value) => !has_line_feed(name@) && expr_flat(
            *value,
        ),
        AssignedField::OptionalValue(name, _, value) => !has_line_feed(name@) && expr_flat(
            *value,
        ),
        AssignedField::LabelOnly(name) => !has_line_feed(name@),
        _ => true,
    }
}

/// No operator token holds a line feed.
pub proof fn lemma_token_flat(op: BinOp)
    ensures
        !has_line_feed(bin_op_token(op)),
{
    reveal_strlit("^");
    reveal_strlit("*");
    reveal_strlit("/");
    reveal_strlit("//");
    reveal_strlit("%");
    reveal_strlit("%%");
    reveal_strlit("+");
    reveal_strlit("-");
    reveal_strlit("==");
    reveal_strlit("!=");
    reveal_strlit("<");
    reveal_strlit(">");
    reveal_strlit("<=");
    reveal_strlit(">=");
    reveal_strlit("&&");
    reveal_strlit("||");
    reveal_strlit("|>");
}

/// A pattern that is not multi-line is rendered on one line.
pub proof fn lemma_flat_pattern(p: Pattern, parens: Parens, indent: int)
    requires
        !pattern_multiline(p),
        pattern_flat(p),
    ensures
        !has_line_feed(pattern_text(p, parens, indent)),
    decreases p,
{
    broadcast use group_line_feeds;

    match p {
        Pattern::Apply(head, args) => {
            lemma_flat_pattern(*head, Parens::InApply, indent);
            lemma_flat_pattern_args(args@, indent);
        },
        Pattern::RecordDestructure(fields) => {
            reveal_strlit("{ ");
            reveal_strlit(", ");
            reveal_strlit(" }");
            lemma_flat_patterns_joined(fields@, ", "@, indent);
        },
        Pattern::Nested(sub) => {
            lemma_flat_pattern(*sub, parens, indent);
        },
        _ => {},
    }
}

proof fn lemma_flat_pattern_args(args: Seq<Pattern>, indent: int)
    requires
        !any_pattern_multiline(args),
        forall|i: int| 0 <= i < args.len() ==> pattern_flat(#[trigger] args[i]),
    ensures
        !has_line_feed(pattern_args_text(args, indent)),
    decreases args,
{
    broadcast use group_line_feeds;

    if args.len() > 0 {
        let rest = args.drop_last();
        assert forall|i: int| 0 <= i < rest.len() implies pattern_flat(#[trigger] rest[i]) by {
            assert(rest[i] == args[i]);
        }
        assert(pattern_flat(args[args.len() - 1]));
        lemma_flat_pattern_args(rest, indent);
        lemma_flat_pattern(args.last(), Parens::InApply, indent);
    }
}

/// Patterns that are not multi-line, joined by a separator without a line
/// feed, are rendered on one line.
pub proof fn lemma_flat_patterns_joined(ps: Seq<Pattern>, sep: Seq<char>, indent: int)
    requires
        !any_pattern_multiline(ps),
        forall|i: int| 0 <= i < ps.len() ==> pattern_flat(#[trigger] ps[i]),
        !has_line_feed(sep),
    ensures
        !has_line_feed(patterns_joined(ps, sep, indent)),
    decreases ps,
{
    broadcast use group_line_feeds;

    if ps.len() > 0 {
        let rest = ps.drop_last();
        assert forall|i: int| 0 <= i < rest.len() implies pattern_flat(#[trigger] rest[i]) by {
            assert(rest[i] == ps[i]);
        }
        assert(pattern_flat(ps[ps.len() - 1]));
        lemma_flat_patterns_joined(rest, sep, indent);
        lemma_flat_pattern(ps.last(), Parens::NotNeeded, indent);
    }
}

/// An expression that is not multi-line is rendered on one line, whatever
/// the modes.
pub proof fn lemma_flat_expr(e: Expr, parens: Parens, newlines: Newlines, indent: int)
    requires
        !expr_multiline(e),
        expr_flat(e),
    ensures
        !has_line_feed(expr_text(e, parens, newlines, indent)),
    decreases expr_depth(e), 0nat, 0nat,
{
    broadcast use group_line_feeds;

    match e {
        Expr::Str(literal) => {
            lemma_flat_literal(literal, indent);
        },
        Expr::Access(sub, key) => {
            lemma_flat_expr(*sub, parens, Newlines::Yes, indent);
        },
        Expr::List { items, final_comments } => {
            lemma_flat_list(items@, final_comments@, indent);
        },
        Expr::Record { update, fields, final_comments } => {
            let base = match update {
                Some(base) => Some(*base),
                None => None,
            };
            lemma_flat_record(base, fields@, final_comments@, indent);
        },
        Expr::Apply(head, args) => {
            lemma_flat_apply(*head, args@, parens, indent);
        },
        Expr::BinOp(left, op, right) => {
            lemma_flat_bin_op(*left, op, *right, parens, indent);
        },
        Expr::UnaryOp(sub, _) => {
            lemma_flat_expr(*sub, parens, newlines, indent);
        },
        Expr::ParensAround(sub) => {
            lemma_flat_expr(*sub, Parens::NotNeeded, Newlines::Yes, indent);
        },
        Expr::Nested(sub) => {
            lemma_flat_expr(*sub, parens, newlines, indent);
        },
        Expr::PrecedenceConflict(_, _, sub) => {
            lemma_flat_expr(*sub, parens, newlines, indent);
        },
        Expr::If(cond, then_branch, else_branch) => {
            lemma_flat_if(*cond, *then_branch, *else_branch, indent);
        },
        Expr::Closure(patterns, body) => {
            lemma_flat_closure(patterns@, *body, indent);
        },
        Expr::NonBase10Int { string, base, is_negative } => {
            reveal_strlit("0x");
            reveal_strlit("0o");
            reveal_strlit("0b");
            assert(!has_line_feed(base_prefix(base)));
        },
        _ => {},
    }
}

proof fn lemma_flat_segment(segment: StrSegment, indent: int)
    requires
        segment_flat(segment),
    ensures
        !has_line_feed(segment_text(segment, indent)),
    decreases segment_depth(segment), 0nat, 0nat,
{
    broadcast use group_line_feeds;

    match segment {
        StrSegment::Unicode(hex) => {
            reveal_strlit("\\u(");
        },
        StrSegment::Interpolated(inner) => {
            reveal_strlit("\\(");
            lemma_flat_expr(*inner, Parens::NotNeeded, Newlines::No, indent);
        },
        _ => {},
    }
}

proof fn lemma_flat_segments(segments: Seq<StrSegment>, indent: int)
    requires
        forall|i: int| 0 <= i < segments.len() ==> segment_flat(#[trigger] segments[i]),
    ensures
        !has_line_feed(segments_text(segments, indent)),
    decreases segments_depth(segments), 1nat, segments.len(),
{
    broadcast use group_line_feeds;

    if segments.len() > 0 {
        let rest = segments.drop_last();
        assert forall|i: int| 0 <= i < rest.len() implies segment_flat(#[trigger] rest[i]) by {
            assert(rest[i] == segments[i]);
        }
        assert(segment_flat(segments[segments.len() - 1]));
        lemma_flat_segments(rest, indent);
        lemma_flat_segment(segments.last(), indent);
    }
}

proof fn lemma_flat_block_lines(lines: Seq<Vec<StrSegment>>, indent: int)
    requires
        forall|i: int| 0 <= i < lines.len() ==> line_flat(#[trigger] lines[i]),
    ensures
        !has_line_feed(block_lines_text(lines, false, indent)),
    decreases lines_depth(lines), 2nat, lines.len(),
{
    broadcast use group_line_feeds;

    if lines.len() > 0 {
        let rest = lines.drop_last();
        assert forall|i: int| 0 <= i < rest.len() implies line_flat(#[trigger] rest[i]) by {
            assert(rest[i] == lines[i]);
        }
        assert(line_flat(lines[lines.len() - 1]));
        lemma_flat_block_lines(rest, indent);
        lemma_flat_segments(lines.last()@, indent);
    }
}

proof fn lemma_flat_literal(literal: StrLiteral, indent: int)
    requires
        !expr_multiline(Expr::Str(literal)),
        expr_flat(Expr::Str(literal)),
    ensures
        !has_line_feed(str_literal_text(literal, indent)),
    decreases literal_depth(literal), 3nat, 0nat,
{
    broadcast use group_line_feeds;

    match literal {
        StrLiteral::PlainLine(text) => {},
        StrLiteral::Line(segments) => {
            lemma_flat_segments(segments@, 0);
        },
        StrLiteral::Block(lines) => {
            lemma_flat_block_lines(lines@, indent);
        },
    }
}

proof fn lemma_flat_args(args: Seq<Expr>, indent: int)
    requires
        !any_expr_multiline(args),
        forall|i: int| 0 <= i < args.len() ==> expr_flat(#[trigger] args[i]),
    ensures
        !has_line_feed(args_text(args, false, indent)),
    decreases exprs_depth(args), 1nat, args.len(),
{
    broadcast use group_line_feeds;

    if args.len() > 0 {
        let rest = args.drop_last();
        assert forall|i: int| 0 <= i < rest.len() implies expr_flat(#[trigger] rest[i]) by {
            assert(rest[i] == args[i]);
        }
        assert(expr_flat(args[args.len() - 1]));
        lemma_flat_args(rest, indent);
        lemma_flat_expr(args.last(), Parens::InApply, Newlines::Yes, indent);
    }
}

proof fn lemma_flat_apply(head: Expr, args: Seq<Expr>, parens: Parens, indent: int)
    requires
        !expr_multiline(head),
        !any_expr_multiline(args),
        expr_flat(head),
        forall|i: int| 0 <= i < args.len() ==> expr_flat(#[trigger] args[i]),
    ensures
        !has_line_feed(apply_text(head, args, parens, indent)),
    decreases max(expr_depth(head), exprs_depth(args)), 2nat, 0nat,
{
    broadcast use group_line_feeds;

    lemma_flat_expr(head, Parens::InApply, Newlines::Yes, indent);
    lemma_flat_args(args, indent);
}

proof fn lemma_flat_list_items(items: Seq<Expr>, indent: int)
    requires
        !any_expr_multiline(items),
        forall|i: int| 0 <= i < items.len() ==> expr_flat(#[trigger] items[i]),
    ensures
        !has_line_feed(list_items_inline_text(items, indent)),
    decreases exprs_depth(items), 1nat, items.len(),
{
    broadcast use group_line_feeds;

    if items.len() > 0 {
        let rest = items.drop_last();
        assert forall|i: int| 0 <= i < rest.len() implies expr_flat(#[trigger] rest[i]) by {
            assert(rest[i] == items[i]);
        }
        assert(expr_flat(items[items.len() - 1]));
        lemma_flat_list_items(rest, indent);
        lemma_flat_expr(items.last(), Parens::NotNeeded, Newlines::Yes, indent);
    }
}

proof fn lemma_flat_list(items: Seq<Expr>, final_comments: Seq<CommentOrNewline>, indent: int)
    requires
        !any_expr_multiline(items),
        forall|i: int| 0 <= i < items.len() ==> expr_flat(#[trigger] items[i]),
    ensures
        !has_line_feed(list_text(items, final_comments, indent)),
    decreases exprs_depth(items), 4nat, 0nat,
{
    broadcast use group_line_feeds;

    reveal_strlit("[]");
    reveal_strlit(" ]");
    lemma_flat_list_items(items, indent);
}

proof fn lemma_flat_field(field: AssignedField, indent: int)
    requires
        !field_multiline(field),
        field_flat(field),
    ensures
        !has_line_feed(field_inline_text(field, indent)),
    decreases field_depth(field), 0nat, 0nat,
{
    broadcast use group_line_feeds;

    reveal_strlit(": ");
    reveal_strlit("? ");
    match field {
        AssignedField::RequiredValue(name, trivia, value) => {
            assert(trivia@ =~= Seq::empty());
            assert(leading_newlines(trivia@) == 0);
            assert(comment_lines(trivia@, indent) =~= Seq::empty());
            lemma_flat_expr(*value, Parens::NotNeeded, Newlines::Yes, indent);
        },
        AssignedField::OptionalValue(name, trivia, value) => {
            assert(trivia@ =~= Seq::empty());
            assert(leading_newlines(trivia@) == 0);
            assert(comment_lines(trivia@, indent) =~= Seq::empty());
            lemma_flat_expr(*value, Parens::NotNeeded, Newlines::Yes, indent);
        },
        _ => {},
    }
}

proof fn lemma_flat_fields(fields: Seq<AssignedField>, indent: int)
    requires
        !any_field_multiline(fields),
        forall|i: int| 0 <= i < fields.len() ==> field_flat(#[trigger] fields[i]),
    ensures
        !has_line_feed(fields_inline_text(fields, indent)),
    decreases fields_depth(fields), 1nat, fields.len(),
{
    broadcast use group_line_feeds;

    reveal_strlit(", ");
    if fields.len() > 0 {
        let rest = fields.drop_last();
        assert forall|i: int| 0 <= i < rest.len() implies field_flat(#[trigger] rest[i]) by {
            assert(rest[i] == fields[i]);
        }
        assert(field_flat(fields[fields.len() - 1]));
        lemma_flat_fields(rest, indent);
        lemma_flat_field(fields.last(), indent);
    }
}

proof fn lemma_flat_record(
    update: Option<Expr>,
    fields: Seq<AssignedField>,
    final_comments: Seq<CommentOrNewline>,
    indent: int,
)
    requires
        !any_field_multiline(fields),
        (fields.len() == 0 && all_newlines(final_comments)) || (final_comments.len() == 0 && (
        match update {
            Some(base) => !expr_multiline(base) && expr_flat(base),
            None => true,
        }) && forall|i: int| 0 <= i < fields.len() ==> field_flat(#[trigger] fields[i])),
    ensures
        !has_line_feed(record_text(update, fields, final_comments, indent)),
    decreases max(option_depth(update), fields_depth(fields)), 2nat, 0nat,
{
    broadcast use group_line_feeds;

    reveal_strlit("{}");
    reveal_strlit(" &");
    if !(fields.len() == 0 && all_newlines(final_comments)) {
        match update {
            Some(base) => {
                lemma_flat_expr(base, Parens::NotNeeded, Newlines::Yes, indent);
            },
            None => {},
        }
        lemma_flat_fields(fields, indent);
    }
}

proof fn lemma_flat_closure(patterns: Seq<Pattern>, body: Expr, indent: int)
    requires
        !expr_multiline(body),
        !any_pattern_multiline(patterns),
        expr_flat(body),
        forall|i: int| 0 <= i < patterns.len() ==> pattern_flat(#[trigger] patterns[i]),
    ensures
        !has_line_feed(closure_text(patterns, body, indent)),
    decreases expr_depth(body), 1nat, 0nat,
{
    broadcast use group_line_feeds;

    reveal_strlit(", ");
    reveal_strlit("->");
    lemma_flat_patterns_joined(patterns, ", "@, indent);
    lemma_flat_expr(body, Parens::NotNeeded, Newlines::Yes, indent);
}

proof fn lemma_flat_if(cond: Expr, then_branch: Expr, else_branch: Expr, indent: int)
    requires
        !expr_multiline(cond),
        !expr_multiline(then_branch),
        !expr_multiline(else_branch),
        expr_flat(cond),
        expr_flat(then_branch),
        expr_flat(else_branch),
    ensures
        !has_line_feed(if_text(cond, then_branch, else_branch, indent)),
    decreases max(expr_depth(cond), max(expr_depth(then_branch), expr_depth(else_branch))), 3nat,
        0nat,
{
    broadcast use group_line_feeds;

    reveal_strlit("if");
    reveal_strlit("then");
    reveal_strlit(" else ");
    lemma_flat_expr(cond, Parens::NotNeeded, Newlines::Yes, indent);
    lemma_flat_expr(then_branch, Parens::NotNeeded, Newlines::Yes, indent);
    lemma_flat_expr(else_branch, Parens::NotNeeded, Newlines::Yes, indent);
}

proof fn lemma_flat_bin_op(left: Expr, op: BinOp, right: Expr, parens: Parens, indent: int)
    requires
        !expr_multiline(left),
        !expr_multiline(right),
        expr_flat(left),
        expr_flat(right),
    ensures
        !has_line_feed(bin_op_text(left, op, right, false, parens, indent)),
    decreases max(expr_depth(left), expr_depth(right)), 1nat, 0nat,
{
    broadcast use group_line_feeds;

    lemma_token_flat(op);
    lemma_flat_expr(left, parens, Newlines::No, indent);
    match right {
        Expr::BinOp(next_left, next_op, next_right) => {
            lemma_flat_bin_op(*next_left, next_op, *next_right, parens, indent);
        },
        _ => {
            lemma_flat_expr(right, parens, Newlines::Yes, indent);
        },
    }
}

/// The multi-line predicate and the rendered text agree: an expression is
/// multi-line exactly when its text, rendered with its blank lines, holds a
/// line feed.
pub proof fn lemma_multiline_agreement(e: Expr, parens: Parens, indent: int)
    requires
        expr_well_formed(e),
        expr_flat(e),
    ensures
        expr_multiline(e) <==> has_line_feed(expr_text(e, parens, Newlines::Yes, indent)),
{
    if expr_multiline(e) {
        lemma_multiline_breaks(e, parens, indent);
    } else {
        lemma_flat_expr(e, parens, Newlines::Yes, indent);
    }
}

} // verus!
