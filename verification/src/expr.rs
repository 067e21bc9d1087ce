//! The expression formatter: renders a syntax tree into the output buffer,
//! choosing for each node between a one-line and a multi-line layout.

use vstd::prelude::*;
use crate::annotation::{Newlines, Parens};
use crate::ast::{
    branch_depth, branches_depth, def_depth, defs_depth, expr_depth, exprs_depth, field_depth,
    fields_depth, lemma_branches_depth, lemma_defs_depth, lemma_exprs_depth, lemma_fields_depth,
    lemma_lines_depth, lemma_segments_depth, lines_depth, literal_depth, max, segment_depth, segments_depth,
    AssignedField, Base, BinOp, CommentOrNewline, Def, EscapedChar, Expr, Located, Pattern,
    StrLiteral, StrSegment, UnaryOp, WhenBranch,
};
use crate::buffer::{push_char, push_text, text_of};
use crate::layout::{any_expr_is_multiline, any_field_is_multiline};
use crate::pattern::{any_multiline, fmt_pattern, located_values, patterns_joined};
use crate::render::{
    alternatives_spread, apply_text, args_text, base_prefix, bin_op_text, bin_op_token,
    block_lines_text, branch_text, branches_text, closure_text, def_text, defs_text,
    empty_line_before, expr_text, field_inline_text, field_line_text, fields_inline_text,
    fields_lines_text, if_text, isolated_text, list_items_inline_text, list_items_lines_text,
    let_text, list_text, newline_count, option_depth, record_text, segment_text, segments_text,
    str_literal_text, step, trailing_text, trivia_text, unary_op_token, when_text,
};
use crate::room::{
    apply_fits, args_fit, bin_op_fits, branch_fits, branches_fit, closure_fits, def_fits,
    defs_fit, expr_fits, exprs_fit, field_fits, fields_fit, if_fits, lemma_branches_fit,
    lemma_defs_fit, lemma_exprs_fit, lemma_fields_fit, lemma_lines_fit, lemma_segments_fit,
    let_fits, lines_fit, list_fits, literal_fits, record_fits, segment_fits, segments_fit,
    when_fits,
};
use crate::spaces::{
    add_spaces, fmt_comments_only, fmt_spaces, has_comment, is_comment, line_break, newline,
    NewlineAt, INDENT,
};

verus! {

impl Expr {
    /// Renders this expression with the default modes: no parentheses
    /// needed, blank lines kept.
    pub fn format(&self, buf: &mut bumpalo::collections::String, indent: u16)
        requires
            expr_fits(*self, indent as int),
        ensures
            text_of(final(buf)) == text_of(old(buf)) + expr_text(
                *self,
                Parens::NotNeeded,
                Newlines::Yes,
                indent as int,
            ),
    {
        self.format_with_options(buf, Parens::NotNeeded, Newlines::Yes, indent)
    }

    /// Renders this expression after what the buffer already holds.
    #[verifier::rlimit(40)]
    pub fn format_with_options(
        &self,
        buf: &mut bumpalo::collections::String,
        parens: Parens,
        newlines: Newlines,
        indent: u16,
    )
        requires
            expr_fits(*self, indent as int),
        ensures
            text_of(final(buf)) == text_of(old(buf)) + expr_text(
                *self,
                parens,
                newlines,
                indent as int,
            ),
        decreases expr_depth(*self), 0nat, 0nat,
    {
        match self {
            Expr::SpaceBefore(sub, trivia) => {
                fmt_trivia(buf, trivia, newlines, indent);
                sub.format_with_options(buf, parens, newlines, indent);
                assert(text_of(buf) =~= text_of(old(buf)) + expr_text(
                    *self,
                    parens,
                    newlines,
                    indent as int,
                ));
            },
            Expr::SpaceAfter(sub, trivia) => {
                sub.format_with_options(buf, parens, newlines, indent);
                fmt_trivia(buf, trivia, newlines, indent);
                assert(text_of(buf) =~= text_of(old(buf)) + expr_text(
                    *self,
                    parens,
                    newlines,
                    indent as int,
                ));
            },
            Expr::ParensAround(sub) => {
                push_char(buf, '(');
                sub.format_with_options(buf, Parens::NotNeeded, Newlines::Yes, indent);
                push_char(buf, ')');
                assert(text_of(buf) =~= text_of(old(buf)) + expr_text(
                    *self,
                    parens,
                    newlines,
                    indent as int,
                ));
            },
            Expr::Str(literal) => {
                fmt_str_literal(buf, literal, indent);
            },
            Expr::Var { module_name, ident } => {
                if !module_name.as_str().is_empty() {
                    push_text(buf, module_name.as_str());
                    push_char(buf, '.');
                }
                push_text(buf, ident.as_str());
                assert(text_of(buf) =~= text_of(old(buf)) + expr_text(
                    *self,
                    parens,
                    newlines,
                    indent as int,
                ));
            },
            Expr::Apply(head, args) => {
                fmt_apply(buf, head, args, parens, indent);
            },
            Expr::Num(digits) => push_text(buf, digits.as_str()),
            Expr::Float(digits) => push_text(buf, digits.as_str()),
            Expr::GlobalTag(name) => push_text(buf, name.as_str()),
            Expr::PrivateTag(name) => push_text(buf, name.as_str()),
            Expr::NonBase10Int { string, base, is_negative } => {
                if *is_negative {
                    push_char(buf, '-');
                }
                let ghost signed = text_of(buf);
                match base {
                    Base::Hex => push_text(buf, "0x"),
                    Base::Octal => push_text(buf, "0o"),
                    Base::Binary => push_text(buf, "0b"),
                    Base::Decimal => {},
                }
                assert(text_of(buf) =~= signed + base_prefix(*base));
                push_text(buf, string.as_str());
                assert(text_of(buf) =~= text_of(old(buf)) + expr_text(
                    *self,
                    parens,
                    newlines,
                    indent as int,
                ));
            },
            Expr::Record { update, fields, final_comments } => {
                let base: Option<&Expr> = match update {
                    Some(boxed) => Some(&**boxed),
                    None => None,
                };
                fmt_record(buf, base, fields, final_comments, indent);
            },
            Expr::Closure(patterns, body) => {
                fmt_closure(buf, patterns, body, indent);
            },
            Expr::Defs(defs, ret) => {
                fmt_let(buf, defs, ret, indent);
            },
            Expr::If(cond, then_branch, else_branch) => {
                fmt_if(buf, cond, then_branch, else_branch, indent);
            },
            Expr::When(cond, branches) => {
                fmt_when(buf, cond, branches, indent);
            },
            Expr::List { items, final_comments } => {
                fmt_list(buf, items, final_comments, indent);
            },
            Expr::BinOp(left, op, right) => {
                fmt_bin_op(buf, left, *op, right, false, parens, indent);
            },
            Expr::UnaryOp(sub, op) => {
                match op {
                    UnaryOp::Negate => push_char(buf, '-'),
                    UnaryOp::Not => push_char(buf, '!'),
                }
                assert(text_of(buf) =~= text_of(old(buf)) + seq![unary_op_token(*op)]);
                sub.format_with_options(buf, parens, newlines, indent);
                assert(text_of(buf) =~= text_of(old(buf)) + expr_text(
                    *self,
                    parens,
                    newlines,
                    indent as int,
                ));
            },
            Expr::Nested(sub) => {
                sub.format_with_options(buf, parens, newlines, indent);
            },
            Expr::PrecedenceConflict(_, _, sub) => {
                sub.format_with_options(buf, parens, newlines, indent);
            },
            Expr::AccessorFunction(key) => {
                push_char(buf, '.');
                push_text(buf, key.as_str());
                assert(text_of(buf) =~= text_of(old(buf)) + expr_text(
                    *self,
                    parens,
                    newlines,
                    indent as int,
                ));
            },
            Expr::Access(sub, key) => {
                sub.format_with_options(buf, parens, Newlines::Yes, indent);
                push_char(buf, '.');
                push_text(buf, key.as_str());
                assert(text_of(buf) =~= text_of(old(buf)) + expr_text(
                    *self,
                    parens,
                    newlines,
                    indent as int,
                ));
            },
            Expr::MalformedIdent(_) => {
                assert(text_of(buf) =~= text_of(old(buf)) + expr_text(
                    *self,
                    parens,
                    newlines,
                    indent as int,
                ));
            },
            Expr::MalformedClosure => {
                assert(text_of(buf) =~= text_of(old(buf)) + expr_text(
                    *self,
                    parens,
                    newlines,
                    indent as int,
                ));
            },
        }
    }
}

/// Renders a run of trivia under the given mode.
fn fmt_trivia(
    buf: &mut bumpalo::collections::String,
    trivia: &Vec<CommentOrNewline>,
    newlines: Newlines,
    indent: u16,
)
    ensures
        text_of(final(buf)) == text_of(old(buf)) + trivia_text(trivia@, newlines, indent as int),
{
    match newlines {
        Newlines::Yes => fmt_spaces(buf, trivia, indent),
        Newlines::No => fmt_comments_only(buf, trivia, NewlineAt::Bottom, indent),
    }
}

/// Renders one segment of a string literal.
fn format_str_segment(buf: &mut bumpalo::collections::String, segment: &StrSegment, indent: u16)
    requires
        segment_fits(*segment, indent as int),
    ensures
        text_of(final(buf)) == text_of(old(buf)) + segment_text(*segment, indent as int),
    decreases segment_depth(*segment), 0nat, 0nat,
{
    match segment {
        StrSegment::Plaintext(text) => {
            push_text(buf, text.as_str());
        },
        StrSegment::Unicode(hex) => {
            push_text(buf, "\\u(");
            push_text(buf, hex.as_str());
            push_char(buf, ')');
        },
        StrSegment::EscapedChar(escaped) => {
            push_char(buf, '\\');
            push_char(
                buf,
                match escaped {
                    EscapedChar::Newline => 'n',
                    EscapedChar::Tab => 't',
                    EscapedChar::Quote => '"',
                    EscapedChar::Backslash => '\\',
                    EscapedChar::CarriageReturn => 'r',
                },
            );
        },
        StrSegment::Interpolated(inner) => {
            push_text(buf, "\\(");
            inner.format_with_options(buf, Parens::NotNeeded, Newlines::No, indent);
            push_char(buf, ')');
        },
    }
    assert(text_of(buf) =~= text_of(old(buf)) + segment_text(*segment, indent as int));
}

/// Renders the segments of one line of a string literal.
fn fmt_segments(buf: &mut bumpalo::collections::String, segments: &Vec<StrSegment>, indent: u16)
    requires
        segments_fit(segments@, indent as int),
    ensures
        text_of(final(buf)) == text_of(old(buf)) + segments_text(segments@, indent as int),
    decreases segments_depth(segments@), 1nat, 0nat,
{
    let n = segments.len();
    let mut i: usize = 0;
    assert(segments@.take(0) =~= Seq::empty());
    assert(text_of(buf) =~= text_of(old(buf)) + segments_text(segments@.take(0), indent as int));
    while i < n
        invariant
            n == segments@.len(),
            i <= n,
            segments_fit(segments@, indent as int),
            text_of(buf) == text_of(old(buf)) + segments_text(
                segments@.take(i as int),
                indent as int,
            ),
        decreases n - i,
    {
        assert(segments@.take(i + 1).drop_last() =~= segments@.take(i as int));
        proof {
            lemma_segments_depth(segments@, i as int);
            lemma_segments_fit(segments@, indent as int, i as int);
        }
        format_str_segment(buf, &segments[i], indent);
        i = i + 1;
        assert(text_of(buf) =~= text_of(old(buf)) + segments_text(
            segments@.take(i as int),
            indent as int,
        ));
    }
    assert(segments@.take(n as int) =~= segments@);
}

/// Renders the lines of a block string.
fn fmt_block_lines(
    buf: &mut bumpalo::collections::String,
    lines: &Vec<Vec<StrSegment>>,
    breaks: bool,
    indent: u16,
)
    requires
        lines_fit(lines@, indent as int),
    ensures
        text_of(final(buf)) == text_of(old(buf)) + block_lines_text(lines@, breaks, indent as int),
    decreases lines_depth(lines@), 2nat, 0nat,
{
    let n = lines.len();
    let mut i: usize = 0;
    assert(lines@.take(0) =~= Seq::empty());
    assert(text_of(buf) =~= text_of(old(buf)) + block_lines_text(
        lines@.take(0),
        breaks,
        indent as int,
    ));
    while i < n
        invariant
            n == lines@.len(),
            i <= n,
            lines_fit(lines@, indent as int),
            text_of(buf) == text_of(old(buf)) + block_lines_text(
                lines@.take(i as int),
                breaks,
                indent as int,
            ),
        decreases n - i,
    {
        assert(lines@.take(i + 1).drop_last() =~= lines@.take(i as int));
        proof {
            lemma_lines_depth(lines@, i as int);
            lemma_lines_fit(lines@, indent as int, i as int);
        }
        fmt_segments(buf, &lines[i], indent);
        if breaks {
            newline(buf, indent);
        }
        i = i + 1;
        assert(text_of(buf) =~= text_of(old(buf)) + block_lines_text(
            lines@.take(i as int),
            breaks,
            indent as int,
        ));
    }
    assert(lines@.take(n as int) =~= lines@);
}

/// Renders a string literal.
fn fmt_str_literal(buf: &mut bumpalo::collections::String, literal: &StrLiteral, indent: u16)
    requires
        literal_fits(*literal, indent as int),
    ensures
        text_of(final(buf)) == text_of(old(buf)) + str_literal_text(*literal, indent as int),
    decreases literal_depth(*literal), 3nat, 0nat,
{
    match literal {
        StrLiteral::PlainLine(text) => {
            push_char(buf, '"');
            push_text(buf, text.as_str());
            push_char(buf, '"');
            assert(text_of(buf) =~= text_of(old(buf)) + str_literal_text(
                *literal,
                indent as int,
            ));
        },
        StrLiteral::Line(segments) => {
            push_char(buf, '"');
            fmt_segments(buf, segments, 0);
            push_char(buf, '"');
            assert(text_of(buf) =~= text_of(old(buf)) + str_literal_text(
                *literal,
                indent as int,
            ));
        },
        StrLiteral::Block(lines) => {
            push_char(buf, '"');
            push_char(buf, '"');
            push_char(buf, '"');
            let ghost opened = text_of(buf);
            assert(opened =~= text_of(old(buf)) + seq!['"', '"', '"']);
            let ghost inside = if lines@.len() > 1 {
                line_break(indent as int) + block_lines_text(lines@, true, indent as int)
            } else {
                block_lines_text(lines@, false, indent as int)
            };
            if lines.len() > 1 {
                newline(buf, indent);
                fmt_block_lines(buf, lines, true, indent);
                assert(text_of(buf) =~= opened + inside);
            } else {
                fmt_block_lines(buf, lines, false, indent);
            }
            let ghost filled = text_of(buf);
            push_char(buf, '"');
            push_char(buf, '"');
            push_char(buf, '"');
            assert(text_of(buf) =~= filled + seq!['"', '"', '"']);
            assert(text_of(buf) =~= text_of(old(buf)) + (seq!['"', '"', '"'] + inside + seq![
                '"',
                '"',
                '"',
            ]));
        },
    }
}

/// Renders a function application, in parentheses where the context asks
/// for them.
fn fmt_apply(
    buf: &mut bumpalo::collections::String,
    head: &Expr,
    args: &Vec<Expr>,
    parens: Parens,
    indent: u16,
)
    requires
        apply_fits(*head, args@, indent as int),
    ensures
        text_of(final(buf)) == text_of(old(buf)) + apply_text(
            *head,
            args@,
            parens,
            indent as int,
        ),
    decreases max(expr_depth(*head), exprs_depth(args@)), 2nat, 0nat,
{
    let wrap = parens == Parens::InApply;
    if wrap {
        push_char(buf, '(');
    }
    let ghost opening = if wrap { seq!['('] } else { Seq::<char>::empty() };
    let ghost opened = text_of(buf);
    assert(opened =~= text_of(old(buf)) + opening);
    head.format_with_options(buf, Parens::InApply, Newlines::Yes, indent);
    let spread = any_expr_is_multiline(args);
    fmt_args(buf, args, spread, indent);
    let ghost inside = expr_text(*head, Parens::InApply, Newlines::Yes, indent as int) + args_text(
        args@,
        spread,
        indent as int,
    );
    let ghost filled = text_of(buf);
    assert(filled =~= opened + inside);
    if wrap {
        push_char(buf, ')');
    }
    let ghost closing = if wrap { seq![')'] } else { Seq::<char>::empty() };
    assert(text_of(buf) =~= filled + closing);
    assert(text_of(buf) =~= text_of(old(buf)) + (opening + expr_text(
        *head,
        Parens::InApply,
        Newlines::Yes,
        indent as int,
    ) + args_text(args@, spread, indent as int) + closing));
}

/// Renders a let-form.
fn fmt_let(buf: &mut bumpalo::collections::String, defs: &Vec<Def>, ret: &Expr, indent: u16)
    requires
        let_fits(defs@, *ret, indent as int),
    ensures
        text_of(final(buf)) == text_of(old(buf)) + let_text(defs@, *ret, indent as int),
    decreases max(defs_depth(defs@), expr_depth(*ret)), 2nat, 0nat,
{
    fmt_defs(buf, defs, indent);
    if !empty_line_before_expr(ret) {
        push_char(buf, '\n');
    }
    ret.format_with_options(buf, Parens::NotNeeded, Newlines::Yes, indent);
    assert(text_of(buf) =~= text_of(old(buf)) + let_text(defs@, *ret, indent as int));
}

/// Renders the arguments of an application.
fn fmt_args(buf: &mut bumpalo::collections::String, args: &Vec<Expr>, spread: bool, indent: u16)
    requires
        args_fit(args@, spread, indent as int),
    ensures
        text_of(final(buf)) == text_of(old(buf)) + args_text(args@, spread, indent as int),
    decreases exprs_depth(args@), 1nat, 0nat,
{
    let n = args.len();
    let mut i: usize = 0;
    assert(args@.take(0) =~= Seq::empty());
    assert(text_of(buf) =~= text_of(old(buf)) + args_text(args@.take(0), spread, indent as int));
    while i < n
        invariant
            n == args@.len(),
            i <= n,
            args_fit(args@, spread, indent as int),
            text_of(buf) == text_of(old(buf)) + args_text(
                args@.take(i as int),
                spread,
                indent as int,
            ),
        decreases n - i,
    {
        assert(args@.take(i + 1).drop_last() =~= args@.take(i as int));
        proof {
            lemma_exprs_depth(args@, i as int);
            if spread {
                lemma_exprs_fit(args@, indent + step(), i as int);
            } else {
                lemma_exprs_fit(args@, indent as int, i as int);
            }
        }
        if spread {
            let arg_indent = indent + INDENT;
            newline(buf, arg_indent);
            args[i].format_with_options(buf, Parens::InApply, Newlines::No, arg_indent);
        } else {
            push_char(buf, ' ');
            args[i].format_with_options(buf, Parens::InApply, Newlines::Yes, indent);
        }
        i = i + 1;
        assert(text_of(buf) =~= text_of(old(buf)) + args_text(
            args@.take(i as int),
            spread,
            indent as int,
        ));
    }
    assert(args@.take(n as int) =~= args@);
}

/// Renders an expression, a comma if asked for, and the comments that trail
/// the expression.
fn fmt_trailing(buf: &mut bumpalo::collections::String, e: &Expr, comma: bool, indent: u16)
    requires
        expr_fits(*e, indent as int),
    ensures
        text_of(final(buf)) == text_of(old(buf)) + trailing_text(*e, comma, indent as int),
    decreases expr_depth(*e), 1nat, 0nat,
{
    match e {
        Expr::SpaceAfter(sub, after) => {
            sub.format_with_options(buf, Parens::NotNeeded, Newlines::Yes, indent);
            if comma {
                push_char(buf, ',');
            }
            fmt_comments_only(buf, after, NewlineAt::Top, indent);
        },
        _ => {
            e.format_with_options(buf, Parens::NotNeeded, Newlines::Yes, indent);
            if comma {
                push_char(buf, ',');
            }
        },
    }
    assert(text_of(buf) =~= text_of(old(buf)) + trailing_text(*e, comma, indent as int));
}

/// Renders an expression on a line of its own, with the comments attached
/// to it on lines of their own.
fn fmt_isolated(buf: &mut bumpalo::collections::String, e: &Expr, comma: bool, indent: u16)
    requires
        expr_fits(*e, indent as int),
    ensures
        text_of(final(buf)) == text_of(old(buf)) + isolated_text(*e, comma, indent as int),
    decreases expr_depth(*e), 2nat, 0nat,
{
    newline(buf, indent);
    match e {
        Expr::SpaceBefore(sub, before) => {
            fmt_comments_only(buf, before, NewlineAt::Bottom, indent);
            fmt_trailing(buf, sub, comma, indent);
        },
        _ => {
            fmt_trailing(buf, e, comma, indent);
        },
    }
    assert(text_of(buf) =~= text_of(old(buf)) + isolated_text(*e, comma, indent as int));
}

/// Renders the items of a list on one line.
fn fmt_list_items_inline(buf: &mut bumpalo::collections::String, items: &Vec<Expr>, indent: u16)
    requires
        exprs_fit(items@, indent as int),
    ensures
        text_of(final(buf)) == text_of(old(buf)) + list_items_inline_text(items@, indent as int),
    decreases exprs_depth(items@), 1nat, 0nat,
{
    let n = items.len();
    let mut i: usize = 0;
    assert(items@.take(0) =~= Seq::empty());
    assert(text_of(buf) =~= text_of(old(buf)) + list_items_inline_text(
        items@.take(0),
        indent as int,
    ));
    while i < n
        invariant
            n == items@.len(),
            i <= n,
            exprs_fit(items@, indent as int),
            text_of(buf) == text_of(old(buf)) + list_items_inline_text(
                items@.take(i as int),
                indent as int,
            ),
        decreases n - i,
    {
        assert(items@.take(i + 1).drop_last() =~= items@.take(i as int));
        proof {
            lemma_exprs_depth(items@, i as int);
            lemma_exprs_fit(items@, indent as int, i as int);
        }
        if i > 0 {
            push_char(buf, ',');
        }
        push_char(buf, ' ');
        items[i].format_with_options(buf, Parens::NotNeeded, Newlines::Yes, indent);
        i = i + 1;
        assert(text_of(buf) =~= text_of(old(buf)) + list_items_inline_text(
            items@.take(i as int),
            indent as int,
        ));
    }
    assert(items@.take(n as int) =~= items@);
}

/// Renders the items of a list, each on a line of its own.
fn fmt_list_items_lines(buf: &mut bumpalo::collections::String, items: &Vec<Expr>, indent: u16)
    requires
        exprs_fit(items@, indent as int),
    ensures
        text_of(final(buf)) == text_of(old(buf)) + list_items_lines_text(items@, indent as int),
    decreases exprs_depth(items@), 3nat, 0nat,
{
    let n = items.len();
    let mut i: usize = 0;
    assert(items@.take(0) =~= Seq::empty());
    assert(text_of(buf) =~= text_of(old(buf)) + list_items_lines_text(
        items@.take(0),
        indent as int,
    ));
    while i < n
        invariant
            n == items@.len(),
            i <= n,
            exprs_fit(items@, indent as int),
            text_of(buf) == text_of(old(buf)) + list_items_lines_text(
                items@.take(i as int),
                indent as int,
            ),
        decreases n - i,
    {
        assert(items@.take(i + 1).drop_last() =~= items@.take(i as int));
        proof {
            lemma_exprs_depth(items@, i as int);
            lemma_exprs_fit(items@, indent as int, i as int);
        }
        fmt_isolated(buf, &items[i], true, indent);
        i = i + 1;
        assert(text_of(buf) =~= text_of(old(buf)) + list_items_lines_text(
            items@.take(i as int),
            indent as int,
        ));
    }
    assert(items@.take(n as int) =~= items@);
}

/// Whether a run of trivia consists of blank lines only.
fn only_newlines(items: &Vec<CommentOrNewline>) -> (r: bool)
    ensures
        r == !has_comment(items@),
{
    let n = items.len();
    let mut i: usize = 0;
    while i < n
        invariant
            n == items@.len(),
            i <= n,
            forall|j: int| 0 <= j < i ==> !is_comment(#[trigger] items@[j]),
        decreases n - i,
    {
        match &items[i] {
            CommentOrNewline::Newline => {},
            _ => {
                return false;
            },
        }
        i = i + 1;
    }
    true
}

/// Renders a list literal: `[]` when there is nothing to show, one line
/// when no item is multi-line, else one item to a line.
pub fn fmt_list(
    buf: &mut bumpalo::collections::String,
    items: &Vec<Expr>,
    final_comments: &Vec<CommentOrNewline>,
    indent: u16,
)
    requires
        list_fits(items@, final_comments@, indent as int),
    ensures
        text_of(final(buf)) == text_of(old(buf)) + list_text(
            items@,
            final_comments@,
            indent as int,
        ),
    decreases exprs_depth(items@), 4nat, 0nat,
{
    if items.len() == 0 && only_newlines(final_comments) {
        push_text(buf, "[]");
    } else {
        push_char(buf, '[');
        if any_expr_is_multiline(items) {
            let item_indent = indent + INDENT;
            fmt_list_items_lines(buf, items, item_indent);
            fmt_comments_only(buf, final_comments, NewlineAt::Top, item_indent);
            newline(buf, indent);
            push_char(buf, ']');
        } else {
            fmt_list_items_inline(buf, items, indent);
            push_text(buf, " ]");
        }
    }
    assert(text_of(buf) =~= text_of(old(buf)) + list_text(
        items@,
        final_comments@,
        indent as int,
    ));
}

/// Whether an expression starts with trivia that holds an empty line.
pub fn empty_line_before_expr(expr: &Expr) -> (r: bool)
    ensures
        r == empty_line_before(*expr),
    decreases *expr,
{
    match expr {
        Expr::SpaceBefore(_, trivia) => {
            let n = trivia.len();
            let mut seen: usize = 0;
            let mut i: usize = 0;
            assert(trivia@.take(0) =~= Seq::empty());
            while i < n
                invariant
                    n == trivia@.len(),
                    i <= n,
                    seen <= i,
                    seen == newline_count(trivia@.take(i as int)),
                decreases n - i,
            {
                assert(trivia@.take(i + 1).drop_last() =~= trivia@.take(i as int));
                match &trivia[i] {
                    CommentOrNewline::Newline => {
                        seen = seen + 1;
                    },
                    _ => {},
                }
                i = i + 1;
            }
            assert(trivia@.take(n as int) =~= trivia@);
            seen >= 2
        },
        Expr::Nested(sub) => empty_line_before_expr(sub),
        _ => false,
    }
}

/// Renders a record field on a line of its own.
fn format_field_multiline(
    buf: &mut bumpalo::collections::String,
    field: &AssignedField,
    indent: u16,
)
    requires
        field_fits(*field, indent as int),
    ensures
        text_of(final(buf)) == text_of(old(buf)) + field_line_text(*field, indent as int),
    decreases field_depth(*field), 0nat, 0nat,
{
    match field {
        AssignedField::RequiredValue(name, trivia, value) => {
            newline(buf, indent);
            push_text(buf, name.as_str());
            fmt_spaces(buf, trivia, indent);
            push_text(buf, ": ");
            value.format_with_options(buf, Parens::NotNeeded, Newlines::Yes, indent);
            push_char(buf, ',');
        },
        AssignedField::OptionalValue(name, trivia, value) => {
            newline(buf, indent);
            push_text(buf, name.as_str());
            fmt_spaces(buf, trivia, indent);
            push_text(buf, "? ");
            value.format_with_options(buf, Parens::NotNeeded, Newlines::Yes, indent);
            push_char(buf, ',');
        },
        AssignedField::LabelOnly(name) => {
            newline(buf, indent);
            push_text(buf, name.as_str());
            push_char(buf, ',');
        },
        AssignedField::SpaceBefore(sub, trivia) => {
            fmt_comments_only(buf, trivia, NewlineAt::Top, indent);
            format_field_multiline(buf, sub, indent);
        },
        AssignedField::SpaceAfter(sub, trivia) => {
            format_field_multiline(buf, sub, indent);
            fmt_comments_only(buf, trivia, NewlineAt::Top, indent);
        },
        AssignedField::Malformed(raw) => {
            push_text(buf, raw.as_str());
        },
    }
    assert(text_of(buf) =~= text_of(old(buf)) + field_line_text(*field, indent as int));
}

/// Renders a record field inside a one-line record.
fn format_field_inline(buf: &mut bumpalo::collections::String, field: &AssignedField, indent: u16)
    requires
        field_fits(*field, indent as int),
    ensures
        text_of(final(buf)) == text_of(old(buf)) + field_inline_text(*field, indent as int),
    decreases field_depth(*field), 0nat, 0nat,
{
    match field {
        AssignedField::RequiredValue(name, trivia, value) => {
            push_text(buf, name.as_str());
            fmt_spaces(buf, trivia, indent);
            push_text(buf, ": ");
            value.format_with_options(buf, Parens::NotNeeded, Newlines::Yes, indent);
        },
        AssignedField::OptionalValue(name, trivia, value) => {
            push_text(buf, name.as_str());
            fmt_spaces(buf, trivia, indent);
            push_text(buf, "? ");
            value.format_with_options(buf, Parens::NotNeeded, Newlines::Yes, indent);
        },
        AssignedField::LabelOnly(name) => {
            push_text(buf, name.as_str());
        },
        AssignedField::SpaceBefore(sub, trivia) => {
            fmt_comments_only(buf, trivia, NewlineAt::Bottom, indent);
            format_field_inline(buf, sub, indent);
        },
        AssignedField::SpaceAfter(sub, trivia) => {
            format_field_inline(buf, sub, indent);
            fmt_comments_only(buf, trivia, NewlineAt::Bottom, indent);
        },
        AssignedField::Malformed(raw) => {
            push_text(buf, raw.as_str());
        },
    }
    assert(text_of(buf) =~= text_of(old(buf)) + field_inline_text(*field, indent as int));
}

fn fmt_fields_lines(
    buf: &mut bumpalo::collections::String,
    fields: &Vec<AssignedField>,
    indent: u16,
)
    requires
        fields_fit(fields@, indent as int),
    ensures
        text_of(final(buf)) == text_of(old(buf)) + fields_lines_text(fields@, indent as int),
    decreases fields_depth(fields@), 1nat, 0nat,
{
    let n = fields.len();
    let mut i: usize = 0;
    assert(fields@.take(0) =~= Seq::empty());
    assert(text_of(buf) =~= text_of(old(buf)) + fields_lines_text(fields@.take(0), indent as int));
    while i < n
        invariant
            n == fields@.len(),
            i <= n,
            fields_fit(fields@, indent as int),
            text_of(buf) == text_of(old(buf)) + fields_lines_text(
                fields@.take(i as int),
                indent as int,
            ),
        decreases n - i,
    {
        assert(fields@.take(i + 1).drop_last() =~= fields@.take(i as int));
        proof {
            lemma_fields_depth(fields@, i as int);
            lemma_fields_fit(fields@, indent as int, i as int);
        }
        format_field_multiline(buf, &fields[i], indent);
        i = i + 1;
        assert(text_of(buf) =~= text_of(old(buf)) + fields_lines_text(
            fields@.take(i as int),
            indent as int,
        ));
    }
    assert(fields@.take(n as int) =~= fields@);
}

fn fmt_fields_inline(
    buf: &mut bumpalo::collections::String,
    fields: &Vec<AssignedField>,
    indent: u16,
)
    requires
        fields_fit(fields@, indent as int),
    ensures
        text_of(final(buf)) == text_of(old(buf)) + fields_inline_text(fields@, indent as int),
    decreases fields_depth(fields@), 1nat, 0nat,
{
    let n = fields.len();
    let mut i: usize = 0;
    assert(fields@.take(0) =~= Seq::empty());
    assert(text_of(buf) =~= text_of(old(buf)) + fields_inline_text(
        fields@.take(0),
        indent as int,
    ));
    while i < n
        invariant
            n == fields@.len(),
            i <= n,
            fields_fit(fields@, indent as int),
            text_of(buf) == text_of(old(buf)) + fields_inline_text(
                fields@.take(i as int),
                indent as int,
            ),
        decreases n - i,
    {
        assert(fields@.take(i + 1).drop_last() =~= fields@.take(i as int));
        proof {
            lemma_fields_depth(fields@, i as int);
            lemma_fields_fit(fields@, indent as int, i as int);
        }
        if i > 0 {
            push_text(buf, ", ");
        }
        format_field_inline(buf, &fields[i], indent);
        i = i + 1;
        assert(text_of(buf) =~= text_of(old(buf)) + fields_inline_text(
            fields@.take(i as int),
            indent as int,
        ));
    }
    assert(fields@.take(n as int) =~= fields@);
}

/// The expression behind an optional reference.
pub open spec fn deref_option(e: Option<&Expr>) -> Option<Expr> {
    match e {
        Some(inner) => Some(*inner),
        None => None,
    }
}

/// Renders a record literal: `{}` when there is nothing to show, one line
/// when no field is multi-line and no comment stands before the closing
/// brace, else one field to a line.
pub fn fmt_record(
    buf: &mut bumpalo::collections::String,
    update: Option<&Expr>,
    fields: &Vec<AssignedField>,
    final_comments: &Vec<CommentOrNewline>,
    indent: u16,
)
    requires
        record_fits(deref_option(update), fields@, final_comments@, indent as int),
    ensures
        text_of(final(buf)) == text_of(old(buf)) + record_text(
            deref_option(update),
            fields@,
            final_comments@,
            indent as int,
        ),
    decreases max(option_depth(deref_option(update)), fields_depth(fields@)), 2nat, 0nat,
{
    if fields.len() == 0 && only_newlines(final_comments) {
        push_text(buf, "{}");
    } else {
        push_char(buf, '{');
        match update {
            Some(base) => {
                push_char(buf, ' ');
                base.format_with_options(buf, Parens::NotNeeded, Newlines::Yes, indent);
                push_text(buf, " &");
            },
            None => {},
        }
        if any_field_is_multiline(fields) || final_comments.len() > 0 {
            let field_indent = indent + INDENT;
            fmt_fields_lines(buf, fields, field_indent);
            fmt_comments_only(buf, final_comments, NewlineAt::Top, field_indent);
            newline(buf, indent);
        } else {
            push_char(buf, ' ');
            fmt_fields_inline(buf, fields, indent);
            push_char(buf, ' ');
        }
        push_char(buf, '}');
    }
    assert(text_of(buf) =~= text_of(old(buf)) + record_text(
        deref_option(update),
        fields@,
        final_comments@,
        indent as int,
    ));
}

/// Renders a closure: the patterns, the arrow, the body.
pub fn fmt_closure(
    buf: &mut bumpalo::collections::String,
    patterns: &Vec<Pattern>,
    body: &Expr,
    indent: u16,
)
    requires
        closure_fits(patterns@, *body, indent as int),
    ensures
        text_of(final(buf)) == text_of(old(buf)) + closure_text(patterns@, *body, indent as int),
    decreases expr_depth(*body), 1nat, 0nat,
{
    push_char(buf, '\\');
    let spread = any_multiline(patterns);
    let pattern_indent = if spread { indent + INDENT } else { indent };
    let ghost sep = if spread { seq![','] + line_break(pattern_indent as int) } else { ", "@ };
    let ghost start = text_of(buf);
    let n = patterns.len();
    let mut i: usize = 0;
    assert(patterns@.take(0) =~= Seq::empty());
    assert(text_of(buf) =~= start + patterns_joined(patterns@.take(0), sep, pattern_indent as int));
    while i < n
        invariant
            n == patterns@.len(),
            i <= n,
            sep == (if spread { seq![','] + line_break(pattern_indent as int) } else { ", "@ }),
            text_of(buf) == start + patterns_joined(
                patterns@.take(i as int),
                sep,
                pattern_indent as int,
            ),
        decreases n - i,
    {
        assert(patterns@.take(i + 1).drop_last() =~= patterns@.take(i as int));
        if i > 0 {
            if spread {
                push_char(buf, ',');
                newline(buf, pattern_indent);
            } else {
                push_text(buf, ", ");
            }
        }
        fmt_pattern(buf, &patterns[i], pattern_indent, Parens::NotNeeded);
        i = i + 1;
        assert(text_of(buf) =~= start + patterns_joined(
            patterns@.take(i as int),
            sep,
            pattern_indent as int,
        ));
    }
    assert(patterns@.take(n as int) =~= patterns@);
    if spread {
        newline(buf, pattern_indent);
    } else {
        push_char(buf, ' ');
    }
    push_text(buf, "->");
    let body_indent = if body.is_multiline() { pattern_indent + INDENT } else { pattern_indent };
    match body {
        Expr::SpaceBefore(_, _) => {},
        _ => {
            push_char(buf, ' ');
        },
    }
    body.format_with_options(buf, Parens::NotNeeded, Newlines::Yes, body_indent);
    assert(text_of(buf) =~= text_of(old(buf)) + closure_text(patterns@, *body, indent as int));
}

/// Renders one definition.
fn fmt_def(buf: &mut bumpalo::collections::String, def: &Def, indent: u16)
    requires
        def_fits(*def, indent as int),
    ensures
        text_of(final(buf)) == text_of(old(buf)) + def_text(*def, indent as int),
    decreases def_depth(*def), 0nat, 0nat,
{
    match def {
        Def::Body(pattern, body) => {
            fmt_pattern(buf, pattern, indent, Parens::InApply);
            push_text(buf, " = ");
            body.format_with_options(buf, Parens::NotNeeded, Newlines::Yes, indent);
        },
        Def::SpaceBefore(sub, trivia) => {
            fmt_spaces(buf, trivia, indent);
            fmt_def(buf, sub, indent);
        },
        Def::SpaceAfter(sub, trivia) => {
            fmt_def(buf, sub, indent);
            fmt_spaces(buf, trivia, indent);
        },
        Def::Nested(sub) => {
            fmt_def(buf, sub, indent);
        },
    }
    assert(text_of(buf) =~= text_of(old(buf)) + def_text(*def, indent as int));
}

/// Renders the definitions of a let-form, one after another.
fn fmt_defs(buf: &mut bumpalo::collections::String, defs: &Vec<Def>, indent: u16)
    requires
        defs_fit(defs@, indent as int),
    ensures
        text_of(final(buf)) == text_of(old(buf)) + defs_text(defs@, indent as int),
    decreases defs_depth(defs@), 1nat, 0nat,
{
    let n = defs.len();
    let mut i: usize = 0;
    assert(defs@.take(0) =~= Seq::empty());
    assert(text_of(buf) =~= text_of(old(buf)) + defs_text(defs@.take(0), indent as int));
    while i < n
        invariant
            n == defs@.len(),
            i <= n,
            defs_fit(defs@, indent as int),
            text_of(buf) == text_of(old(buf)) + defs_text(defs@.take(i as int), indent as int),
        decreases n - i,
    {
        assert(defs@.take(i + 1).drop_last() =~= defs@.take(i as int));
        proof {
            lemma_defs_depth(defs@, i as int);
            lemma_defs_fit(defs@, indent as int, i as int);
        }
        fmt_def(buf, &defs[i], indent);
        i = i + 1;
        assert(text_of(buf) =~= text_of(old(buf)) + defs_text(defs@.take(i as int), indent as int));
    }
    assert(defs@.take(n as int) =~= defs@);
}

/// Renders a conditional. If any of its three parts is multi-line, every
/// part stands on lines of its own, one step in.
fn fmt_if(
    buf: &mut bumpalo::collections::String,
    cond: &Expr,
    then_branch: &Expr,
    else_branch: &Expr,
    indent: u16,
)
    requires
        if_fits(*cond, *then_branch, *else_branch, indent as int),
    ensures
        text_of(final(buf)) == text_of(old(buf)) + if_text(
            *cond,
            *then_branch,
            *else_branch,
            indent as int,
        ),
    decreases max(expr_depth(*cond), max(expr_depth(*then_branch), expr_depth(*else_branch))),
        3nat, 0nat,
{
    let spread_cond = cond.is_multiline();
    let spread = spread_cond || then_branch.is_multiline() || else_branch.is_multiline();
    let inner = if spread { indent + INDENT } else { indent };
    let ghost cond_part = if spread_cond {
        isolated_text(*cond, false, inner as int) + line_break(indent as int)
    } else {
        seq![' '] + expr_text(*cond, Parens::NotNeeded, Newlines::Yes, indent as int) + seq![' ']
    };
    let ghost then_part = if spread {
        isolated_text(*then_branch, false, inner as int) + line_break(indent as int) + "else"@
            + line_break(inner as int)
    } else {
        seq![' '] + expr_text(*then_branch, Parens::NotNeeded, Newlines::Yes, inner as int)
            + " else "@
    };
    push_text(buf, "if");
    let ghost t1 = text_of(buf);
    if spread_cond {
        fmt_isolated(buf, cond, false, inner);
        newline(buf, indent);
        assert(text_of(buf) =~= t1 + cond_part);
    } else {
        push_char(buf, ' ');
        cond.format_with_options(buf, Parens::NotNeeded, Newlines::Yes, indent);
        push_char(buf, ' ');
        assert(text_of(buf) =~= t1 + cond_part);
    }
    push_text(buf, "then");
    let ghost t2 = text_of(buf);
    if spread {
        fmt_isolated(buf, then_branch, false, inner);
        newline(buf, indent);
        push_text(buf, "else");
        newline(buf, inner);
        assert(text_of(buf) =~= t2 + then_part);
    } else {
        push_char(buf, ' ');
        then_branch.format_with_options(buf, Parens::NotNeeded, Newlines::Yes, inner);
        push_text(buf, " else ");
        assert(text_of(buf) =~= t2 + then_part);
    }
    let ghost t3 = text_of(buf);
    else_branch.format_with_options(buf, Parens::NotNeeded, Newlines::Yes, inner);
    let ghost else_part = expr_text(*else_branch, Parens::NotNeeded, Newlines::Yes, inner as int);
    assert(t3 == text_of(old(buf)) + "if"@ + cond_part + "then"@ + then_part);
    assert(text_of(buf) =~= text_of(old(buf)) + ("if"@ + cond_part + "then"@ + then_part
        + else_part));
}

/// Renders the alternatives of a branch, separated by a bar.
fn fmt_alternatives(
    buf: &mut bumpalo::collections::String,
    patterns: &Vec<Located<Pattern>>,
    indent: u16,
)
    ensures
        text_of(final(buf)) == text_of(old(buf)) + patterns_joined(
            located_values(patterns@),
            if alternatives_spread(patterns@) {
                line_break(indent as int) + "| "@
            } else {
                " | "@
            },
            indent as int,
        ),
{
    let n = patterns.len();
    let spread = n > 1 && patterns[0].region.start_line != patterns[n - 1].region.end_line;
    let ghost values = located_values(patterns@);
    let ghost sep = if spread { line_break(indent as int) + "| "@ } else { " | "@ };
    let mut i: usize = 0;
    assert(values.take(0) =~= Seq::empty());
    assert(text_of(buf) =~= text_of(old(buf)) + patterns_joined(values.take(0), sep, indent as int));
    while i < n
        invariant
            n == patterns@.len(),
            i <= n,
            values == located_values(patterns@),
            sep == (if spread { line_break(indent as int) + "| "@ } else { " | "@ }),
            text_of(buf) == text_of(old(buf)) + patterns_joined(
                values.take(i as int),
                sep,
                indent as int,
            ),
        decreases n - i,
    {
        assert(values.take(i + 1).drop_last() =~= values.take(i as int));
        assert(values[i as int] == patterns@[i as int].value);
        if i > 0 {
            if spread {
                newline(buf, indent);
                push_text(buf, "| ");
            } else {
                push_text(buf, " | ");
            }
        }
        fmt_pattern(buf, &patterns[i].value, indent, Parens::NotNeeded);
        i = i + 1;
        assert(text_of(buf) =~= text_of(old(buf)) + patterns_joined(
            values.take(i as int),
            sep,
            indent as int,
        ));
    }
    assert(values.take(n as int) =~= values);
}

/// Renders one branch of a pattern match: the alternatives one step in,
/// the body two steps in.
fn fmt_branch(buf: &mut bumpalo::collections::String, branch: &WhenBranch, indent: u16)
    requires
        branch_fits(*branch, indent as int),
    ensures
        text_of(final(buf)) == text_of(old(buf)) + branch_text(*branch, indent as int),
    decreases branch_depth(*branch), 0nat, 0nat,
{
    let pattern_indent = indent + INDENT;
    let body_indent = indent + 2 * INDENT;
    add_spaces(buf, pattern_indent);
    fmt_alternatives(buf, &branch.patterns, pattern_indent);
    match &branch.guard {
        Some(guard) => {
            push_text(buf, " if ");
            guard.format_with_options(buf, Parens::NotNeeded, Newlines::Yes, pattern_indent);
        },
        None => {},
    }
    push_text(buf, " ->\n");
    add_spaces(buf, body_indent);
    match &branch.value {
        Expr::SpaceBefore(sub, trivia) => {
            fmt_comments_only(buf, trivia, NewlineAt::Bottom, body_indent);
            sub.format_with_options(buf, Parens::NotNeeded, Newlines::Yes, body_indent);
        },
        _ => {
            branch.value.format_with_options(buf, Parens::NotNeeded, Newlines::Yes, body_indent);
        },
    }
    assert(text_of(buf) =~= text_of(old(buf)) + branch_text(*branch, indent as int));
}

/// Renders the branches of a pattern match, one empty line apart.
fn fmt_branches(buf: &mut bumpalo::collections::String, branches: &Vec<WhenBranch>, indent: u16)
    requires
        branches_fit(branches@, indent as int),
    ensures
        text_of(final(buf)) == text_of(old(buf)) + branches_text(branches@, indent as int),
    decreases branches_depth(branches@), 1nat, 0nat,
{
    let n = branches.len();
    let mut i: usize = 0;
    assert(branches@.take(0) =~= Seq::empty());
    assert(text_of(buf) =~= text_of(old(buf)) + branches_text(branches@.take(0), indent as int));
    while i < n
        invariant
            n == branches@.len(),
            i <= n,
            branches_fit(branches@, indent as int),
            text_of(buf) == text_of(old(buf)) + branches_text(
                branches@.take(i as int),
                indent as int,
            ),
        decreases n - i,
    {
        assert(branches@.take(i + 1).drop_last() =~= branches@.take(i as int));
        proof {
            lemma_branches_depth(branches@, i as int);
            lemma_branches_fit(branches@, indent as int, i as int);
        }
        if i > 0 {
            push_char(buf, '\n');
            push_char(buf, '\n');
        }
        fmt_branch(buf, &branches[i], indent);
        i = i + 1;
        assert(text_of(buf) =~= text_of(old(buf)) + branches_text(
            branches@.take(i as int),
            indent as int,
        ));
    }
    assert(branches@.take(n as int) =~= branches@);
}

/// Renders a pattern match.
fn fmt_when(
    buf: &mut bumpalo::collections::String,
    cond: &Expr,
    branches: &Vec<WhenBranch>,
    indent: u16,
)
    requires
        when_fits(*cond, branches@, indent as int),
    ensures
        text_of(final(buf)) == text_of(old(buf)) + when_text(*cond, branches@, indent as int),
    decreases max(expr_depth(*cond), branches_depth(branches@)), 3nat, 0nat,
{
    push_text(buf, "when");
    if cond.is_multiline() {
        fmt_isolated(buf, cond, false, indent + INDENT);
        newline(buf, indent);
    } else {
        push_char(buf, ' ');
        cond.format_with_options(buf, Parens::NotNeeded, Newlines::Yes, indent);
        push_char(buf, ' ');
    }
    push_text(buf, "is\n");
    fmt_branches(buf, branches, indent);
    assert(text_of(buf) =~= text_of(old(buf)) + when_text(*cond, branches@, indent as int));
}

/// The token of a binary operator.
fn bin_op_str(op: BinOp) -> (token: &'static str)
    ensures
        token@ == bin_op_token(op),
{
    match op {
        BinOp::Caret => "^",
        BinOp::Star => "*",
        BinOp::Slash => "/",
        BinOp::DoubleSlash => "//",
        BinOp::Percent => "%",
        BinOp::DoublePercent => "%%",
        BinOp::Plus => "+",
        BinOp::Minus => "-",
        BinOp::Equals => "==",
        BinOp::NotEquals => "!=",
        BinOp::LessThan => "<",
        BinOp::GreaterThan => ">",
        BinOp::LessThanOrEq => "<=",
        BinOp::GreaterThanOrEq => ">=",
        BinOp::And => "&&",
        BinOp::Or => "||",
        BinOp::Pizza => "|>",
    }
}

/// Renders a chain of binary operators.
fn fmt_bin_op(
    buf: &mut bumpalo::collections::String,
    left: &Expr,
    op: BinOp,
    right: &Expr,
    in_spread_chain: bool,
    parens: Parens,
    indent: u16,
)
    requires
        bin_op_fits(*left, *right, in_spread_chain, indent as int),
    ensures
        text_of(final(buf)) == text_of(old(buf)) + bin_op_text(
            *left,
            op,
            *right,
            in_spread_chain,
            parens,
            indent as int,
        ),
    decreases max(expr_depth(*left), expr_depth(*right)), 1nat, 0nat,
{
    left.format_with_options(buf, parens, Newlines::No, indent);
    let spread = right.is_multiline() || left.is_multiline() || in_spread_chain;
    if spread {
        newline(buf, indent + INDENT);
    } else {
        push_char(buf, ' ');
    }
    let ghost gap = if spread { line_break(indent + step()) } else { seq![' '] };
    let ghost left_part = expr_text(*left, parens, Newlines::No, indent as int);
    assert(text_of(buf) =~= text_of(old(buf)) + (left_part + gap));
    push_text(buf, bin_op_str(op));
    push_char(buf, ' ');
    let ghost t1 = text_of(buf);
    assert(t1 =~= text_of(old(buf)) + (left_part + gap + bin_op_token(op) + seq![' ']));
    let ghost rest = match right {
        Expr::BinOp(next_left, next_op, next_right) => bin_op_text(
            **next_left,
            *next_op,
            **next_right,
            spread,
            parens,
            indent as int,
        ),
        _ => expr_text(*right, parens, Newlines::Yes, indent as int),
    };
    match right {
        Expr::BinOp(next_left, next_op, next_right) => {
            fmt_bin_op(buf, next_left, *next_op, next_right, spread, parens, indent);
        },
        _ => {
            right.format_with_options(buf, parens, Newlines::Yes, indent);
        },
    }
    assert(text_of(buf) == t1 + rest);
    assert(text_of(buf) =~= text_of(old(buf)) + (left_part + gap + bin_op_token(op) + seq![' ']
        + rest));
}

} // verus!
