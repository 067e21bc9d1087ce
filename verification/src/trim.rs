//! The formatter keeps its lines in shape: the text of a trim tree starts
//! and ends with something written, none of its lines ends in a blank, and
//! each of its lines that holds anything is indented by whole steps.

use vstd::prelude::*;
use crate::annotation::{Newlines, Parens};
use crate::ast::{
    branch_depth, branches_depth, def_depth, defs_depth, expr_depth, exprs_depth, field_depth,
    fields_depth, lines_depth, literal_depth, max, segment_depth, segments_depth, AssignedField,
    BinOp, CommentOrNewline, Def, Expr, Pattern, StrLiteral, StrSegment, UnaryOp, WhenBranch,
};
use crate::layout::{
    any_expr_multiline, any_field_multiline, expr_multiline, field_multiline,
};
use crate::lines::{has_line_feed, lemma_token_flat};
use crate::margins::{
    blank, group_pen, lemma_pen_keeps_rules, lines_indented, no_line_ends_blank, pen_after, ready,
    rested, Pen,
};
use crate::neat::{
    branch_trim, comment_trim, comments_trim, def_led, def_trim, expr_after_arrow, expr_isolated,
    expr_led, expr_trailed, expr_trim, field_trim, line_trim, pattern_trim, segment_edge,
    segment_trim, word,
};
use crate::pattern::{
    any_pattern_multiline, located_values, pattern_args_text, pattern_text, patterns_joined,
};
use crate::render::{
    alternatives_spread, apply_text, args_text, base_prefix, bin_op_text, bin_op_token,
    block_lines_text, branch_text, branches_text, closure_text, def_text, defs_text,
    empty_line_before, escape_letter, expr_text, field_inline_text, field_line_text,
    fields_inline_text, fields_lines_text, if_text, isolated_text, let_text,
    list_items_inline_text, list_items_lines_text, list_text, option_depth, record_text,
    segment_text, segments_text, step, str_literal_text, trailing_text, when_text,
};
use crate::spaces::{
    all_newlines, blank_lines, comment_lines, comment_text, comments_joined, comments_text,
    has_comment, is_comment, leading_newlines, line_break, spaces, spaces_text, NewlineAt,
};

verus! {

/// A text without a line feed keeps the pen on its line.
pub proof fn lemma_write_inline(after_blank: bool, t: Seq<char>)
    requires
        !has_line_feed(t),
    ensures
        pen_after(Some(Pen::InLine(after_blank)), t) == Some(
            Pen::InLine(
                if t.len() == 0 {
                    after_blank
                } else {
                    blank(t.last())
                },
            ),
        ),
    decreases t.len(),
{
    if t.len() > 0 {
        let rest = t.drop_last();
        assert forall|i: int| 0 <= i < rest.len() implies rest[i] != '\n' by {
            assert(rest[i] == t[i]);
        }
        assert(t[t.len() - 1] != '\n');
        lemma_write_inline(after_blank, rest);
    }
}

/// A word leaves the pen behind something written, wherever it starts.
pub proof fn lemma_write_word(pen: Pen, t: Seq<char>)
    requires
        word(t),
        ready(pen),
    ensures
        pen_after(Some(pen), t) == Some(Pen::InLine(false)),
{
    broadcast use group_pen;

    let head = seq![t[0]];
    let rest = t.subrange(1, t.len() as int);
    assert(t =~= head + rest);
    assert(t[0] != '\n');
    assert forall|i: int| 0 <= i < rest.len() implies rest[i] != '\n' by {
        assert(rest[i] == t[i + 1]);
    }
    lemma_write_inline(blank(t[0]), rest);
    if rest.len() > 0 {
        assert(rest.last() == t.last());
    }
}

/// What the literal texts of the formatter are made of.
proof fn lemma_literals()
    ensures
        "0x"@ == Seq::<char>::empty().push('0').push('x'),
        "0o"@ == Seq::<char>::empty().push('0').push('o'),
        "0b"@ == Seq::<char>::empty().push('0').push('b'),
        "\\u("@ == Seq::<char>::empty().push('\\').push('u').push('('),
        "\\("@ == Seq::<char>::empty().push('\\').push('('),
        "[]"@ == Seq::<char>::empty().push('[').push(']'),
        " ]"@ == Seq::<char>::empty().push(' ').push(']'),
        ": "@ == Seq::<char>::empty().push(':').push(' '),
        "? "@ == Seq::<char>::empty().push('?').push(' '),
        ", "@ == Seq::<char>::empty().push(',').push(' '),
        "{}"@ == Seq::<char>::empty().push('{').push('}'),
        " &"@ == Seq::<char>::empty().push(' ').push('&'),
        "->"@ == Seq::<char>::empty().push('-').push('>'),
        " = "@ == Seq::<char>::empty().push(' ').push('=').push(' '),
        "if"@ == Seq::<char>::empty().push('i').push('f'),
        "then"@ == Seq::<char>::empty().push('t').push('h').push('e').push('n'),
        "else"@ == Seq::<char>::empty().push('e').push('l').push('s').push('e'),
        " else "@ == Seq::<char>::empty().push(' ').push('e').push('l').push('s').push('e').push(' '),
        "| "@ == Seq::<char>::empty().push('|').push(' '),
        " | "@ == Seq::<char>::empty().push(' ').push('|').push(' '),
        " if "@ == Seq::<char>::empty().push(' ').push('i').push('f').push(' '),
        " ->\n"@ == Seq::<char>::empty().push(' ').push('-').push('>').push('\n'),
        "is\n"@ == Seq::<char>::empty().push('i').push('s').push('\n'),
        "when"@ == Seq::<char>::empty().push('w').push('h').push('e').push('n'),
        "{ "@ == Seq::<char>::empty().push('{').push(' '),
        " }"@ == Seq::<char>::empty().push(' ').push('}'),
{
    reveal_strlit("0x");
    reveal_strlit("0o");
    reveal_strlit("0b");
    reveal_strlit("\\u(");
    reveal_strlit("\\(");
    reveal_strlit("[]");
    reveal_strlit(" ]");
    reveal_strlit(": ");
    reveal_strlit("? ");
    reveal_strlit(", ");
    reveal_strlit("{}");
    reveal_strlit(" &");
    reveal_strlit("->");
    reveal_strlit(" = ");
    reveal_strlit("if");
    reveal_strlit("then");
    reveal_strlit("else");
    reveal_strlit(" else ");
    reveal_strlit("| ");
    reveal_strlit(" | ");
    reveal_strlit(" if ");
    reveal_strlit(" ->\n");
    reveal_strlit("is\n");
    reveal_strlit("when");
    reveal_strlit("{ ");
    reveal_strlit(" }");
    assert("0x"@ =~= Seq::<char>::empty().push('0').push('x'));
    assert("0o"@ =~= Seq::<char>::empty().push('0').push('o'));
    assert("0b"@ =~= Seq::<char>::empty().push('0').push('b'));
    assert("\\u("@ =~= Seq::<char>::empty().push('\\').push('u').push('('));
    assert("\\("@ =~= Seq::<char>::empty().push('\\').push('('));
    assert("[]"@ =~= Seq::<char>::empty().push('[').push(']'));
    assert(" ]"@ =~= Seq::<char>::empty().push(' ').push(']'));
    assert(": "@ =~= Seq::<char>::empty().push(':').push(' '));
    assert("? "@ =~= Seq::<char>::empty().push('?').push(' '));
    assert(", "@ =~= Seq::<char>::empty().push(',').push(' '));
    assert("{}"@ =~= Seq::<char>::empty().push('{').push('}'));
    assert(" &"@ =~= Seq::<char>::empty().push(' ').push('&'));
    assert("->"@ =~= Seq::<char>::empty().push('-').push('>'));
    assert(" = "@ =~= Seq::<char>::empty().push(' ').push('=').push(' '));
    assert("if"@ =~= Seq::<char>::empty().push('i').push('f'));
    assert("then"@ =~= Seq::<char>::empty().push('t').push('h').push('e').push('n'));
    assert("else"@ =~= Seq::<char>::empty().push('e').push('l').push('s').push('e'));
    assert(" else "@ =~= Seq::<char>::empty().push(' ').push('e').push('l').push('s').push('e').push(' '));
    assert("| "@ =~= Seq::<char>::empty().push('|').push(' '));
    assert(" | "@ =~= Seq::<char>::empty().push(' ').push('|').push(' '));
    assert(" if "@ =~= Seq::<char>::empty().push(' ').push('i').push('f').push(' '));
    assert(" ->\n"@ =~= Seq::<char>::empty().push(' ').push('-').push('>').push('\n'));
    assert("is\n"@ =~= Seq::<char>::empty().push('i').push('s').push('\n'));
    assert("when"@ =~= Seq::<char>::empty().push('w').push('h').push('e').push('n'));
    assert("{ "@ =~= Seq::<char>::empty().push('{').push(' '));
    assert(" }"@ =~= Seq::<char>::empty().push(' ').push('}'));
}

/// The texts that the formatter writes character by character.
proof fn lemma_glyphs(a: char, b: char, c: char)
    ensures
        seq![a, b] == Seq::<char>::empty().push(a).push(b),
        seq![a, b, c] == Seq::<char>::empty().push(a).push(b).push(c),
{
    assert(seq![a, b] =~= Seq::<char>::empty().push(a).push(b));
    assert(seq![a, b, c] =~= Seq::<char>::empty().push(a).push(b).push(c));
}

/// Every operator token is a word.
proof fn lemma_token_word(op: BinOp)
    ensures
        word(bin_op_token(op)),
{
    lemma_token_flat(op);
    reveal_strlit("^");
    reveal_strlit("*");
    reveal_strlit("/");
    reveal_strlit("//");
    reveal_strlit("%");
    reveal_strlit("%%");
    reveal_strlit("+");
    reveal_strlit("-");
    reveal_strlit("==");
    reveal_strlit("!=");
    reveal_strlit("<");
    reveal_strlit(">");
    reveal_strlit("<=");
    reveal_strlit(">=");
    reveal_strlit("&&");
    reveal_strlit("||");
    reveal_strlit("|>");
}

/// A run of trivia without a comment, reduced to its comments, is empty.
proof fn lemma_no_comment_no_text(items: Seq<CommentOrNewline>, at: NewlineAt, indent: int)
    requires
        !has_comment(items),
    ensures
        comments_text(items, at, indent) == Seq::<char>::empty(),
        comments_joined(items, true, indent) == Seq::<char>::empty(),
        comments_joined(items, false, indent) == Seq::<char>::empty(),
        comment_lines(items, indent) == Seq::<char>::empty(),
    decreases items.len(),
{
    if items.len() > 0 {
        let rest = items.drop_last();
        assert(!is_comment(items[items.len() - 1]));
        assert forall|i: int| 0 <= i < rest.len() implies !is_comment(#[trigger] rest[i]) by {
            assert(rest[i] == items[i]);
        }
        lemma_no_comment_no_text(rest, at, indent);
    }
    assert(comments_text(items, at, indent) =~= Seq::<char>::empty());
}

/// Whether a comment stands before the last item or is the last item.
proof fn lemma_has_comment_last(items: Seq<CommentOrNewline>)
    requires
        items.len() > 0,
    ensures
        has_comment(items) == (has_comment(items.drop_last()) || is_comment(items.last())),
        comments_trim(items) ==> comments_trim(items.drop_last()) && comment_trim(items.last()),
{
    let rest = items.drop_last();
    if has_comment(rest) {
        let j = choose|j: int| 0 <= j < rest.len() && is_comment(#[trigger] rest[j]);
        assert(items[j] == rest[j]);
    }
    if is_comment(items.last()) {
        assert(is_comment(items[items.len() - 1]));
    }
    if has_comment(items) {
        let j = choose|j: int| 0 <= j < items.len() && is_comment(#[trigger] items[j]);
        if j < rest.len() {
            assert(rest[j] == items[j]);
        }
    }
    if comments_trim(items) {
        assert forall|i: int| 0 <= i < rest.len() implies comment_trim(#[trigger] rest[i]) by {
            assert(rest[i] == items[i]);
        }
        assert(comment_trim(items[items.len() - 1]));
    }
}

/// A comment leaves the pen behind something written.
proof fn lemma_write_comment(pen: Pen, item: CommentOrNewline)
    requires
        is_comment(item),
        comment_trim(item),
        ready(pen),
    ensures
        pen_after(Some(pen), comment_text(item)) == Some(Pen::InLine(false)),
{
    broadcast use group_pen;

    match item {
        CommentOrNewline::LineComment(text) => {
            lemma_write_inline(false, text@);
        },
        CommentOrNewline::DocComment(text) => {
            lemma_glyphs('#', '#', '#');
            lemma_write_inline(false, text@);
        },
        CommentOrNewline::Newline => {},
    }
}

/// Comments on lines of their own leave the pen in the indentation.
proof fn lemma_write_comment_lines(pen: Pen, items: Seq<CommentOrNewline>, indent: int)
    requires
        comments_trim(items),
        ready(pen),
        indent >= 0,
        indent % 4 == 0,
    ensures
        pen_after(Some(pen), comment_lines(items, indent)) == Some(
            if has_comment(items) {
                Pen::AtStart(indent as nat)
            } else {
                pen
            },
        ),
    decreases items.len(),
{
    broadcast use group_pen;

    if items.len() > 0 {
        lemma_has_comment_last(items);
        lemma_write_comment_lines(pen, items.drop_last(), indent);
        if is_comment(items.last()) {
            let before = if has_comment(items.drop_last()) {
                Pen::AtStart(indent as nat)
            } else {
                pen
            };
            lemma_write_comment(before, items.last());
        }
    }
}

/// A run of trivia that leads with a comment, or stands where a line may
/// end, leaves the pen in the indentation.
proof fn lemma_write_spaces_text(pen: Pen, items: Seq<CommentOrNewline>, indent: int)
    requires
        comments_trim(items),
        rested(pen) || (ready(pen) && leading_newlines(items) == 0),
        indent >= 0,
        indent % 4 == 0,
    ensures
        pen_after(Some(pen), spaces_text(items, indent)) == Some(
            if items.len() == 0 {
                pen
            } else {
                Pen::AtStart(indent as nat)
            },
        ),
{
    broadcast use group_pen;

    let lead = leading_newlines(items);
    let after = if lead == 0 {
        pen
    } else {
        Pen::AtStart(indent as nat)
    };
    assert(pen_after(Some(pen), blank_lines(lead, indent)) == Some(after));
    lemma_write_comment_lines(after, items, indent);
    if items.len() > 0 && lead == 0 {
        assert(is_comment(items[0]));
    }
}

/// Comments joined by line breaks leave the pen behind the last of them.
proof fn lemma_write_comments_joined(
    pen: Pen,
    items: Seq<CommentOrNewline>,
    lead: bool,
    indent: int,
)
    requires
        comments_trim(items),
        if lead {
            rested(pen)
        } else {
            ready(pen)
        },
        indent >= 0,
        indent % 4 == 0,
    ensures
        pen_after(Some(pen), comments_joined(items, lead, indent)) == Some(
            if has_comment(items) {
                Pen::InLine(false)
            } else {
                pen
            },
        ),
    decreases items.len(),
{
    broadcast use group_pen;

    if items.len() > 0 {
        lemma_has_comment_last(items);
        lemma_write_comments_joined(pen, items.drop_last(), lead, indent);
        if is_comment(items.last()) {
            let before = if has_comment(items.drop_last()) {
                Pen::InLine(false)
            } else {
                pen
            };
            let at = if lead || has_comment(items.drop_last()) {
                Pen::AtStart(indent as nat)
            } else {
                before
            };
            lemma_write_comment(at, items.last());
        }
    }
}

/// The comments of a run of trivia, with the line breaks asked for.
proof fn lemma_write_comments_text(
    pen: Pen,
    items: Seq<CommentOrNewline>,
    at: NewlineAt,
    indent: int,
)
    requires
        comments_trim(items),
        if at is Top || at is Both {
            rested(pen)
        } else {
            ready(pen)
        },
        indent >= 0,
        indent % 4 == 0,
    ensures
        pen_after(Some(pen), comments_text(items, at, indent)) == Some(
            if !has_comment(items) {
                pen
            } else if at is Bottom || at is Both {
                Pen::AtStart(indent as nat)
            } else {
                Pen::InLine(false)
            },
        ),
{
    broadcast use group_pen;

    lemma_write_comments_joined(pen, items, at is Top || at is Both, indent);
}

/// A trim pattern leaves the pen behind something written.
pub proof fn lemma_trim_pattern(p: Pattern, parens: Parens, indent: int, pen: Pen)
    requires
        pattern_trim(p),
        ready(pen),
        indent >= 0,
        indent % 4 == 0,
    ensures
        pen_after(Some(pen), pattern_text(p, parens, indent)) == Some(Pen::InLine(false)),
    decreases p,
{
    broadcast use group_pen;

    match p {
        Pattern::Identifier(name) => lemma_write_word(pen, name@),
        Pattern::GlobalTag(name) => lemma_write_word(pen, name@),
        Pattern::PrivateTag(name) => lemma_write_word(pen, name@),
        Pattern::NumLiteral(digits) => lemma_write_word(pen, digits@),
        Pattern::Malformed(raw) => lemma_write_word(pen, raw@),
        Pattern::StrLiteral(text) => {
            lemma_write_inline(false, text@);
        },
        Pattern::Underscore => {},
        Pattern::Apply(head, args) => {
            let wrap = args@.len() > 0 && parens is InApply;
            let opened = if wrap {
                Pen::InLine(false)
            } else {
                pen
            };
            lemma_trim_pattern(*head, Parens::InApply, indent, opened);
            lemma_trim_pattern_args(args@, indent);
        },
        Pattern::RecordDestructure(fields) => {
            lemma_literals();
            lemma_trim_patterns_joined(fields@, ", "@, indent, Pen::InLine(true));
        },
        Pattern::SpaceBefore(sub, trivia) => {
            lemma_write_comments_text(pen, trivia@, NewlineAt::Bottom, indent);
            let after = if has_comment(trivia@) {
                Pen::AtStart(indent as nat)
            } else {
                pen
            };
            lemma_trim_pattern(*sub, parens, indent, after);
        },
        Pattern::SpaceAfter(sub, trivia) => {
            lemma_no_comment_no_text(trivia@, NewlineAt::Bottom, indent);
            lemma_trim_pattern(*sub, parens, indent, pen);
        },
        Pattern::Nested(sub) => {
            lemma_trim_pattern(*sub, parens, indent, pen);
        },
    }
}

proof fn lemma_trim_pattern_args(args: Seq<Pattern>, indent: int)
    requires
        forall|i: int| 0 <= i < args.len() ==> pattern_trim(#[trigger] args[i]),
        indent >= 0,
        indent % 4 == 0,
    ensures
        pen_after(Some(Pen::InLine(false)), pattern_args_text(args, indent)) == Some(
            Pen::InLine(false),
        ),
    decreases args,
{
    broadcast use group_pen;

    if args.len() > 0 {
        let rest = args.drop_last();
        assert forall|i: int| 0 <= i < rest.len() implies pattern_trim(#[trigger] rest[i]) by {
            assert(rest[i] == args[i]);
        }
        assert(pattern_trim(args[args.len() - 1]));
        lemma_trim_pattern_args(rest, indent);
        lemma_trim_pattern(args.last(), Parens::InApply, indent, Pen::InLine(true));
    }
}

/// Trim patterns, joined by a separator that may stand behind a pattern and
/// before one, leave the pen behind the last of them.
pub proof fn lemma_trim_patterns_joined(ps: Seq<Pattern>, sep: Seq<char>, indent: int, pen: Pen)
    requires
        forall|i: int| 0 <= i < ps.len() ==> pattern_trim(#[trigger] ps[i]),
        ready(pen),
        pen_after(Some(Pen::InLine(false)), sep) matches Some(after) && ready(after),
        indent >= 0,
        indent % 4 == 0,
    ensures
        pen_after(Some(pen), patterns_joined(ps, sep, indent)) == Some(
            if ps.len() == 0 {
                pen
            } else {
                Pen::InLine(false)
            },
        ),
    decreases ps,
{
    broadcast use group_pen;

    if ps.len() > 0 {
        let rest = ps.drop_last();
        assert forall|i: int| 0 <= i < rest.len() implies pattern_trim(#[trigger] rest[i]) by {
            assert(rest[i] == ps[i]);
        }
        assert(pattern_trim(ps[ps.len() - 1]));
        lemma_trim_patterns_joined(rest, sep, indent, pen);
        let after = pen_after(Some(Pen::InLine(false)), sep)->0;
        let at = if ps.len() > 1 {
            after
        } else {
            pen
        };
        lemma_trim_pattern(ps.last(), Parens::NotNeeded, indent, at);
    }
}

/// Where a segment of a string literal leaves the pen.
pub open spec fn after_segment(segment: StrSegment, pen: Pen) -> Pen {
    match segment {
        StrSegment::Plaintext(text) => if text@.len() == 0 {
            pen
        } else {
            Pen::InLine(blank(text@.last()))
        },
        _ => Pen::InLine(false),
    }
}

/// Where the segments of a line leave the pen.
pub open spec fn after_segments(segments: Seq<StrSegment>, pen: Pen) -> Pen
    decreases segments.len(),
{
    if segments.len() == 0 {
        pen
    } else {
        after_segment(segments.last(), after_segments(segments.drop_last(), pen))
    }
}

/// An expression that may stand behind something written leaves the pen
/// behind something written.
pub proof fn lemma_led_expr(e: Expr, parens: Parens, newlines: Newlines, indent: int, pen: Pen)
    requires
        expr_led(e, newlines),
        rested(pen),
        indent >= 0,
        indent % 4 == 0,
    ensures
        pen_after(Some(pen), expr_text(e, parens, newlines, indent)) == Some(Pen::InLine(false)),
    decreases expr_depth(e), 0nat, 1nat,
{
    broadcast use group_pen;

    match e {
        Expr::SpaceBefore(sub, trivia) => {
            match newlines {
                Newlines::Yes => {
                    lemma_write_spaces_text(pen, trivia@, indent);
                    let after = if trivia@.len() == 0 {
                        pen
                    } else {
                        Pen::AtStart(indent as nat)
                    };
                    lemma_trim_expr(*sub, parens, newlines, indent, after);
                },
                Newlines::No => {
                    lemma_write_comments_text(pen, trivia@, NewlineAt::Bottom, indent);
                    let after = if has_comment(trivia@) {
                        Pen::AtStart(indent as nat)
                    } else {
                        pen
                    };
                    lemma_trim_expr(*sub, parens, newlines, indent, after);
                },
            }
        },
        Expr::Nested(sub) => {
            lemma_led_expr(*sub, parens, newlines, indent, pen);
        },
        Expr::PrecedenceConflict(_, _, sub) => {
            lemma_led_expr(*sub, parens, newlines, indent, pen);
        },
        _ => {
            lemma_trim_expr(e, parens, newlines, indent, pen);
        },
    }
}

/// A trim expression leaves the pen behind something written, wherever on
/// its line it starts.
pub proof fn lemma_trim_expr(e: Expr, parens: Parens, newlines: Newlines, indent: int, pen: Pen)
    requires
        expr_trim(e, newlines),
        ready(pen),
        indent >= 0,
        indent % 4 == 0,
    ensures
        pen_after(Some(pen), expr_text(e, parens, newlines, indent)) == Some(Pen::InLine(false)),
    decreases expr_depth(e), 0nat, 0nat,
{
    broadcast use group_pen;

    match e {
        Expr::Float(digits) => lemma_write_word(pen, digits@),
        Expr::Num(digits) => lemma_write_word(pen, digits@),
        Expr::GlobalTag(name) => lemma_write_word(pen, name@),
        Expr::PrivateTag(name) => lemma_write_word(pen, name@),
        Expr::NonBase10Int { string, base, is_negative } => {
            lemma_literals();
            let signed = if is_negative {
                Pen::InLine(false)
            } else {
                pen
            };
            let prefixed = if base is Decimal {
                signed
            } else {
                Pen::InLine(false)
            };
            assert(pen_after(Some(signed), base_prefix(base)) == Some(prefixed));
            lemma_write_word(prefixed, string@);
        },
        Expr::Var { module_name, ident } => {
            if module_name@.len() > 0 {
                lemma_write_word(pen, module_name@);
                lemma_write_word(Pen::InLine(false), ident@);
            } else {
                lemma_write_word(pen, ident@);
            }
        },
        Expr::AccessorFunction(key) => {
            lemma_write_word(Pen::InLine(false), key@);
        },
        Expr::Access(sub, key) => {
            lemma_trim_expr(*sub, parens, Newlines::Yes, indent, pen);
            lemma_write_word(Pen::InLine(false), key@);
        },
        Expr::Str(literal) => {
            lemma_trim_literal(literal, indent, pen);
        },
        Expr::List { items, final_comments } => {
            lemma_trim_list(items@, final_comments@, indent, pen);
        },
        Expr::Record { update, fields, final_comments } => {
            let base = match update {
                Some(base) => Some(*base),
                None => None,
            };
            lemma_trim_record(base, fields@, final_comments@, indent, pen);
        },
        Expr::Closure(patterns, body) => {
            lemma_trim_closure(patterns@, *body, indent, pen);
        },
        Expr::Defs(defs, ret) => {
            lemma_trim_let(defs@, *ret, indent, pen);
        },
        Expr::Apply(head, args) => {
            lemma_trim_apply(*head, args@, parens, indent, pen);
        },
        Expr::BinOp(left, op, right) => {
            lemma_trim_bin_op(*left, op, *right, false, parens, indent, pen);
        },
        Expr::UnaryOp(sub, op) => {
            lemma_led_expr(*sub, parens, newlines, indent, Pen::InLine(false));
        },
        Expr::If(cond, then_branch, else_branch) => {
            lemma_trim_if(*cond, *then_branch, *else_branch, indent, pen);
        },
        Expr::When(cond, branches) => {
            lemma_trim_when(*cond, branches@, indent, pen);
        },
        Expr::SpaceBefore(sub, trivia) => {
            match newlines {
                Newlines::Yes => {
                    lemma_write_spaces_text(pen, trivia@, indent);
                    let after = if trivia@.len() == 0 {
                        pen
                    } else {
                        Pen::AtStart(indent as nat)
                    };
                    lemma_trim_expr(*sub, parens, newlines, indent, after);
                },
                Newlines::No => {
                    lemma_write_comments_text(pen, trivia@, NewlineAt::Bottom, indent);
                    let after = if has_comment(trivia@) {
                        Pen::AtStart(indent as nat)
                    } else {
                        pen
                    };
                    lemma_trim_expr(*sub, parens, newlines, indent, after);
                },
            }
        },
        Expr::SpaceAfter(sub, trivia) => {
            lemma_trim_expr(*sub, parens, newlines, indent, pen);
            match newlines {
                Newlines::Yes => {
                    lemma_write_spaces_text(Pen::InLine(false), trivia@, indent);
                },
                Newlines::No => {
                    lemma_no_comment_no_text(trivia@, NewlineAt::Bottom, indent);
                },
            }
        },
        Expr::ParensAround(sub) => {
            lemma_led_expr(*sub, Parens::NotNeeded, Newlines::Yes, indent, Pen::InLine(false));
        },
        Expr::Nested(sub) => {
            lemma_trim_expr(*sub, parens, newlines, indent, pen);
        },
        Expr::PrecedenceConflict(_, _, sub) => {
            lemma_trim_expr(*sub, parens, newlines, indent, pen);
        },
        _ => {},
    }
}

proof fn lemma_trim_segment(segment: StrSegment, indent: int, pen: Pen)
    requires
        segment_trim(segment),
        pen is InLine || (ready(pen) && segment_edge(segment)),
        indent >= 0,
        indent % 4 == 0,
    ensures
        pen_after(Some(pen), segment_text(segment, indent)) == Some(after_segment(segment, pen)),
        after_segment(segment, pen) is InLine,
        segment_edge(segment) ==> after_segment(segment, pen) == Pen::InLine(false),
    decreases segment_depth(segment), 0nat, 0nat,
{
    broadcast use group_pen;

    lemma_literals();
    match segment {
        StrSegment::Plaintext(text) => {
            if segment_edge(segment) {
                lemma_write_word(pen, text@);
            } else {
                lemma_write_inline(pen->InLine_0, text@);
            }
        },
        StrSegment::Unicode(hex) => {
            lemma_write_inline(false, hex@);
        },
        StrSegment::EscapedChar(escaped) => {
            lemma_glyphs('\\', escape_letter(escaped), ' ');
        },
        StrSegment::Interpolated(inner) => {
            lemma_led_expr(*inner, Parens::NotNeeded, Newlines::No, indent, Pen::InLine(false));
        },
    }
}

proof fn lemma_trim_segments(segments: Seq<StrSegment>, indent: int, pen: Pen)
    requires
        forall|i: int| 0 <= i < segments.len() ==> segment_trim(#[trigger] segments[i]),
        pen is InLine || (ready(pen) && (segments.len() > 0 ==> segment_edge(segments[0]))),
        indent >= 0,
        indent % 4 == 0,
    ensures
        pen_after(Some(pen), segments_text(segments, indent)) == Some(
            after_segments(segments, pen),
        ),
        segments.len() > 0 || pen is InLine ==> after_segments(segments, pen) is InLine,
        segments.len() > 0 && segment_edge(segments.last()) ==> after_segments(segments, pen)
            == Pen::InLine(false),
    decreases segments_depth(segments), 1nat, segments.len(),
{
    broadcast use group_pen;

    if segments.len() > 0 {
        let rest = segments.drop_last();
        assert forall|i: int| 0 <= i < rest.len() implies segment_trim(#[trigger] rest[i]) by {
            assert(rest[i] == segments[i]);
        }
        assert(segment_trim(segments[segments.len() - 1]));
        if rest.len() > 0 {
            assert(rest[0] == segments[0]);
        }
        lemma_trim_segments(rest, indent, pen);
        lemma_trim_segment(segments.last(), indent, after_segments(rest, pen));
    }
}

/// The lines of a block string, each on a line of its own.
proof fn lemma_trim_block_lines(lines: Seq<Vec<StrSegment>>, indent: int)
    requires
        forall|i: int| 0 <= i < lines.len() ==> line_trim(#[trigger] lines[i], true),
        indent >= 0,
        indent % 4 == 0,
    ensures
        pen_after(Some(Pen::AtStart(indent as nat)), block_lines_text(lines, true, indent))
            == Some(Pen::AtStart(indent as nat)),
    decreases lines_depth(lines), 2nat, lines.len(),
{
    broadcast use group_pen;

    if lines.len() > 0 {
        let rest = lines.drop_last();
        assert forall|i: int| 0 <= i < rest.len() implies line_trim(#[trigger] rest[i], true) by {
            assert(rest[i] == lines[i]);
        }
        assert(line_trim(lines[lines.len() - 1], true));
        lemma_trim_block_lines(rest, indent);
        lemma_trim_segments(lines.last()@, indent, Pen::AtStart(indent as nat));
    }
}

/// The lines of a block string that stays on its line.
proof fn lemma_trim_block_inline(lines: Seq<Vec<StrSegment>>, indent: int)
    requires
        forall|i: int| 0 <= i < lines.len() ==> line_trim(#[trigger] lines[i], false),
        indent >= 0,
        indent % 4 == 0,
    ensures
        pen_after(Some(Pen::InLine(false)), block_lines_text(lines, false, indent)) matches Some(
            after,
        ) && after is InLine,
    decreases lines_depth(lines), 2nat, lines.len(),
{
    broadcast use group_pen;

    if lines.len() > 0 {
        let rest = lines.drop_last();
        assert forall|i: int| 0 <= i < rest.len() implies line_trim(#[trigger] rest[i], false) by {
            assert(rest[i] == lines[i]);
        }
        assert(line_trim(lines[lines.len() - 1], false));
        lemma_trim_block_inline(rest, indent);
        let before = pen_after(Some(Pen::InLine(false)), block_lines_text(rest, false, indent))->0;
        lemma_trim_segments(lines.last()@, indent, before);
    }
}

proof fn lemma_trim_literal(literal: StrLiteral, indent: int, pen: Pen)
    requires
        expr_trim(Expr::Str(literal), Newlines::Yes),
        ready(pen),
        indent >= 0,
        indent % 4 == 0,
    ensures
        pen_after(Some(pen), str_literal_text(literal, indent)) == Some(Pen::InLine(false)),
    decreases literal_depth(literal), 3nat, 0nat,
{
    broadcast use group_pen;

    match literal {
        StrLiteral::PlainLine(text) => {
            lemma_write_inline(false, text@);
        },
        StrLiteral::Line(segments) => {
            lemma_trim_segments(segments@, 0, Pen::InLine(false));
        },
        StrLiteral::Block(lines) => {
            lemma_glyphs('"', '"', '"');
            if lines@.len() > 1 {
                lemma_trim_block_lines(lines@, indent);
            } else {
                lemma_trim_block_inline(lines@, indent);
            }
        },
    }
}

proof fn lemma_trim_args(args: Seq<Expr>, spread: bool, indent: int)
    requires
        forall|i: int|
            0 <= i < args.len() ==> expr_trim(
                #[trigger] args[i],
                if spread {
                    Newlines::No
                } else {
                    Newlines::Yes
                },
            ),
        indent >= 0,
        indent % 4 == 0,
    ensures
        pen_after(Some(Pen::InLine(false)), args_text(args, spread, indent)) == Some(
            Pen::InLine(false),
        ),
    decreases exprs_depth(args), 1nat, args.len(),
{
    broadcast use group_pen;

    if args.len() > 0 {
        let rest = args.drop_last();
        assert forall|i: int| 0 <= i < rest.len() implies expr_trim(
            #[trigger] rest[i],
            if spread {
                Newlines::No
            } else {
                Newlines::Yes
            },
        ) by {
            assert(rest[i] == args[i]);
        }
        assert(expr_trim(
            args[args.len() - 1],
            if spread {
                Newlines::No
            } else {
                Newlines::Yes
            },
        ));
        lemma_trim_args(rest, spread, indent);
        if spread {
            lemma_trim_expr(
                args.last(),
                Parens::InApply,
                Newlines::No,
                indent + step(),
                Pen::AtStart((indent + step()) as nat),
            );
        } else {
            lemma_trim_expr(
                args.last(),
                Parens::InApply,
                Newlines::Yes,
                indent,
                Pen::InLine(true),
            );
        }
    }
}

proof fn lemma_trim_apply(head: Expr, args: Seq<Expr>, parens: Parens, indent: int, pen: Pen)
    requires
        expr_trim(head, Newlines::Yes),
        forall|i: int|
            0 <= i < args.len() ==> expr_trim(
                #[trigger] args[i],
                if any_expr_multiline(args) {
                    Newlines::No
                } else {
                    Newlines::Yes
                },
            ),
        ready(pen),
        indent >= 0,
        indent % 4 == 0,
    ensures
        pen_after(Some(pen), apply_text(head, args, parens, indent)) == Some(Pen::InLine(false)),
    decreases max(expr_depth(head), exprs_depth(args)), 2nat, 0nat,
{
    broadcast use group_pen;

    let opened = if parens is InApply {
        Pen::InLine(false)
    } else {
        pen
    };
    lemma_trim_expr(head, Parens::InApply, Newlines::Yes, indent, opened);
    lemma_trim_args(args, any_expr_multiline(args), indent);
}

proof fn lemma_trim_trailing(e: Expr, comma: bool, indent: int, pen: Pen)
    requires
        expr_trailed(e),
        ready(pen),
        indent >= 0,
        indent % 4 == 0,
    ensures
        pen_after(Some(pen), trailing_text(e, comma, indent)) == Some(Pen::InLine(false)),
    decreases expr_depth(e), 1nat, 0nat,
{
    broadcast use group_pen;

    match e {
        Expr::SpaceAfter(sub, after) => {
            lemma_trim_expr(*sub, Parens::NotNeeded, Newlines::Yes, indent, pen);
            lemma_write_comments_text(Pen::InLine(false), after@, NewlineAt::Top, indent);
        },
        _ => {
            lemma_trim_expr(e, Parens::NotNeeded, Newlines::Yes, indent, pen);
        },
    }
}

proof fn lemma_trim_isolated(e: Expr, comma: bool, indent: int, pen: Pen)
    requires
        expr_isolated(e),
        rested(pen),
        indent >= 0,
        indent % 4 == 0,
    ensures
        pen_after(Some(pen), isolated_text(e, comma, indent)) == Some(Pen::InLine(false)),
    decreases expr_depth(e), 2nat, 0nat,
{
    broadcast use group_pen;

    let at = Pen::AtStart(indent as nat);
    match e {
        Expr::SpaceBefore(sub, before) => {
            lemma_write_comments_text(at, before@, NewlineAt::Bottom, indent);
            lemma_trim_trailing(*sub, comma, indent, at);
        },
        _ => {
            lemma_trim_trailing(e, comma, indent, at);
        },
    }
}

proof fn lemma_trim_list_items_inline(items: Seq<Expr>, indent: int)
    requires
        forall|i: int| 0 <= i < items.len() ==> expr_trim(#[trigger] items[i], Newlines::Yes),
        indent >= 0,
        indent % 4 == 0,
    ensures
        pen_after(Some(Pen::InLine(false)), list_items_inline_text(items, indent)) == Some(
            Pen::InLine(false),
        ),
    decreases exprs_depth(items), 1nat, items.len(),
{
    broadcast use group_pen;

    if items.len() > 0 {
        let rest = items.drop_last();
        assert forall|i: int| 0 <= i < rest.len() implies expr_trim(
            #[trigger] rest[i],
            Newlines::Yes,
        ) by {
            assert(rest[i] == items[i]);
        }
        assert(expr_trim(items[items.len() - 1], Newlines::Yes));
        lemma_trim_list_items_inline(rest, indent);
        lemma_trim_expr(items.last(), Parens::NotNeeded, Newlines::Yes, indent, Pen::InLine(true));
    }
}

proof fn lemma_trim_list_items_lines(items: Seq<Expr>, indent: int)
    requires
        forall|i: int| 0 <= i < items.len() ==> expr_isolated(#[trigger] items[i]),
        indent >= 0,
        indent % 4 == 0,
    ensures
        pen_after(Some(Pen::InLine(false)), list_items_lines_text(items, indent)) == Some(
            Pen::InLine(false),
        ),
    decreases exprs_depth(items), 3nat, items.len(),
{
    broadcast use group_pen;

    if items.len() > 0 {
        let rest = items.drop_last();
        assert forall|i: int| 0 <= i < rest.len() implies expr_isolated(#[trigger] rest[i]) by {
            assert(rest[i] == items[i]);
        }
        assert(expr_isolated(items[items.len() - 1]));
        lemma_trim_list_items_lines(rest, indent);
        lemma_trim_isolated(items.last(), true, indent, Pen::InLine(false));
    }
}

proof fn lemma_trim_list(
    items: Seq<Expr>,
    final_comments: Seq<CommentOrNewline>,
    indent: int,
    pen: Pen,
)
    requires
        if any_expr_multiline(items) {
            comments_trim(final_comments) && forall|i: int|
                0 <= i < items.len() ==> expr_isolated(#[trigger] items[i])
        } else {
            forall|i: int| 0 <= i < items.len() ==> expr_trim(#[trigger] items[i], Newlines::Yes)
        },
        ready(pen),
        indent >= 0,
        indent % 4 == 0,
    ensures
        pen_after(Some(pen), list_text(items, final_comments, indent)) == Some(Pen::InLine(false)),
    decreases exprs_depth(items), 4nat, 0nat,
{
    broadcast use group_pen;

    lemma_literals();
    if items.len() == 0 && all_newlines(final_comments) {
    } else if any_expr_multiline(items) {
        lemma_trim_list_items_lines(items, indent + step());
        lemma_write_comments_text(
            Pen::InLine(false),
            final_comments,
            NewlineAt::Top,
            indent + step(),
        );
    } else {
        lemma_trim_list_items_inline(items, indent);
    }
}

proof fn lemma_trim_field_line(field: AssignedField, indent: int)
    requires
        field_trim(field),
        indent >= 0,
        indent % 4 == 0,
    ensures
        pen_after(Some(Pen::InLine(false)), field_line_text(field, indent)) == Some(
            Pen::InLine(false),
        ),
    decreases field_depth(field), 0nat, 0nat,
{
    broadcast use group_pen;

    lemma_literals();
    let at = Pen::AtStart(indent as nat);
    match field {
        AssignedField::RequiredValue(name, trivia, value) => {
            lemma_write_word(at, name@);
            lemma_write_spaces_text(Pen::InLine(false), trivia@, indent);
            lemma_trim_expr(*value, Parens::NotNeeded, Newlines::Yes, indent, Pen::InLine(true));
        },
        AssignedField::OptionalValue(name, trivia, value) => {
            lemma_write_word(at, name@);
            lemma_write_spaces_text(Pen::InLine(false), trivia@, indent);
            lemma_trim_expr(*value, Parens::NotNeeded, Newlines::Yes, indent, Pen::InLine(true));
        },
        AssignedField::LabelOnly(name) => {
            lemma_write_word(at, name@);
        },
        AssignedField::SpaceBefore(sub, trivia) => {
            lemma_write_comments_text(Pen::InLine(false), trivia@, NewlineAt::Top, indent);
            lemma_trim_field_line(*sub, indent);
        },
        AssignedField::SpaceAfter(sub, trivia) => {
            lemma_trim_field_line(*sub, indent);
            lemma_write_comments_text(Pen::InLine(false), trivia@, NewlineAt::Top, indent);
        },
        AssignedField::Malformed(raw) => {
            lemma_write_word(Pen::InLine(false), raw@);
        },
    }
}

proof fn lemma_trim_field_inline(field: AssignedField, indent: int, pen: Pen)
    requires
        field_trim(field),
        !field_multiline(field),
        ready(pen),
        indent >= 0,
        indent % 4 == 0,
    ensures
        pen_after(Some(pen), field_inline_text(field, indent)) == Some(Pen::InLine(false)),
    decreases field_depth(field), 0nat, 0nat,
{
    broadcast use group_pen;

    lemma_literals();
    match field {
        AssignedField::RequiredValue(name, trivia, value) => {
            lemma_write_word(pen, name@);
            lemma_write_spaces_text(Pen::InLine(false), trivia@, indent);
            lemma_trim_expr(*value, Parens::NotNeeded, Newlines::Yes, indent, Pen::InLine(true));
        },
        AssignedField::OptionalValue(name, trivia, value) => {
            lemma_write_word(pen, name@);
            lemma_write_spaces_text(Pen::InLine(false), trivia@, indent);
            lemma_trim_expr(*value, Parens::NotNeeded, Newlines::Yes, indent, Pen::InLine(true));
        },
        AssignedField::LabelOnly(name) => {
            lemma_write_word(pen, name@);
        },
        AssignedField::Malformed(raw) => {
            lemma_write_word(pen, raw@);
        },
        _ => {},
    }
}

proof fn lemma_trim_fields_lines(fields: Seq<AssignedField>, indent: int)
    requires
        forall|i: int| 0 <= i < fields.len() ==> field_trim(#[trigger] fields[i]),
        indent >= 0,
        indent % 4 == 0,
    ensures
        pen_after(Some(Pen::InLine(false)), fields_lines_text(fields, indent)) == Some(
            Pen::InLine(false),
        ),
    decreases fields_depth(fields), 1nat, fields.len(),
{
    broadcast use group_pen;

    if fields.len() > 0 {
        let rest = fields.drop_last();
        assert forall|i: int| 0 <= i < rest.len() implies field_trim(#[trigger] rest[i]) by {
            assert(rest[i] == fields[i]);
        }
        assert(field_trim(fields[fields.len() - 1]));
        lemma_trim_fields_lines(rest, indent);
        lemma_trim_field_line(fields.last(), indent);
    }
}

proof fn lemma_trim_fields_inline(fields: Seq<AssignedField>, indent: int, pen: Pen)
    requires
        forall|i: int| 0 <= i < fields.len() ==> field_trim(#[trigger] fields[i]),
        !any_field_multiline(fields),
        ready(pen),
        indent >= 0,
        indent % 4 == 0,
    ensures
        pen_after(Some(pen), fields_inline_text(fields, indent)) == Some(
            if fields.len() == 0 {
                pen
            } else {
                Pen::InLine(false)
            },
        ),
    decreases fields_depth(fields), 1nat, fields.len(),
{
    broadcast use group_pen;

    lemma_literals();
    if fields.len() > 0 {
        let rest = fields.drop_last();
        assert forall|i: int| 0 <= i < rest.len() implies field_trim(#[trigger] rest[i]) by {
            assert(rest[i] == fields[i]);
        }
        assert(field_trim(fields[fields.len() - 1]));
        lemma_trim_fields_inline(rest, indent, pen);
        let at = if fields.len() > 1 {
            Pen::InLine(true)
        } else {
            pen
        };
        lemma_trim_field_inline(fields.last(), indent, at);
    }
}

proof fn lemma_trim_record(
    update: Option<Expr>,
    fields: Seq<AssignedField>,
    final_comments: Seq<CommentOrNewline>,
    indent: int,
    pen: Pen,
)
    requires
        (fields.len() == 0 && all_newlines(final_comments)) || ((match update {
            Some(base) => expr_trim(base, Newlines::Yes),
            None => true,
        }) && comments_trim(final_comments) && forall|i: int|
            0 <= i < fields.len() ==> field_trim(#[trigger] fields[i])),
        ready(pen),
        indent >= 0,
        indent % 4 == 0,
    ensures
        pen_after(Some(pen), record_text(update, fields, final_comments, indent)) == Some(
            Pen::InLine(false),
        ),
    decreases max(option_depth(update), fields_depth(fields)), 2nat, 0nat,
{
    broadcast use group_pen;

    lemma_literals();
    if !(fields.len() == 0 && all_newlines(final_comments)) {
        match update {
            Some(base) => {
                lemma_trim_expr(
                    base,
                    Parens::NotNeeded,
                    Newlines::Yes,
                    indent,
                    Pen::InLine(true),
                );
            },
            None => {},
        }
        if any_field_multiline(fields) || final_comments.len() > 0 {
            lemma_trim_fields_lines(fields, indent + step());
            lemma_write_comments_text(
                Pen::InLine(false),
                final_comments,
                NewlineAt::Top,
                indent + step(),
            );
        } else {
            lemma_trim_fields_inline(fields, indent, Pen::InLine(true));
        }
    }
}

proof fn lemma_trim_closure(patterns: Seq<Pattern>, body: Expr, indent: int, pen: Pen)
    requires
        expr_after_arrow(body),
        forall|i: int| 0 <= i < patterns.len() ==> pattern_trim(#[trigger] patterns[i]),
        ready(pen),
        indent >= 0,
        indent % 4 == 0,
    ensures
        pen_after(Some(pen), closure_text(patterns, body, indent)) == Some(Pen::InLine(false)),
    decreases expr_depth(body), 1nat, 0nat,
{
    broadcast use group_pen;

    lemma_literals();
    let spread = any_pattern_multiline(patterns);
    let pattern_indent = if spread {
        indent + step()
    } else {
        indent
    };
    let body_indent = if expr_multiline(body) {
        pattern_indent + step()
    } else {
        pattern_indent
    };
    let sep = if spread {
        seq![','] + line_break(pattern_indent)
    } else {
        ", "@
    };
    assert(pen_after(Some(Pen::InLine(false)), sep) == Some(
        if spread {
            Pen::AtStart(pattern_indent as nat)
        } else {
            Pen::InLine(true)
        },
    ));
    lemma_trim_patterns_joined(patterns, sep, pattern_indent, Pen::InLine(false));
    let head = seq!['\\'] + patterns_joined(patterns, sep, pattern_indent);
    assert(pen_after(Some(pen), head) == Some(Pen::InLine(false)));
    let gap = if spread {
        line_break(pattern_indent)
    } else {
        seq![' ']
    };
    let arrow = head + gap + "->"@;
    assert(pen_after(Some(pen), head + gap) == Some(
        if spread {
            Pen::AtStart(pattern_indent as nat)
        } else {
            Pen::InLine(true)
        },
    ));
    assert(pen_after(Some(pen), arrow) == Some(Pen::InLine(false)));
    let space = if body is SpaceBefore {
        Seq::<char>::empty()
    } else {
        seq![' ']
    };
    let body_text = expr_text(body, Parens::NotNeeded, Newlines::Yes, body_indent);
    match body {
        Expr::SpaceBefore(sub, trivia) => {
            lemma_write_spaces_text(Pen::InLine(false), trivia@, body_indent);
            let after = if trivia@.len() == 0 {
                Pen::InLine(false)
            } else {
                Pen::AtStart(body_indent as nat)
            };
            lemma_trim_expr(*sub, Parens::NotNeeded, Newlines::Yes, body_indent, after);
            assert(pen_after(Some(Pen::InLine(false)), body_text) == Some(Pen::InLine(false)));
        },
        _ => {
            lemma_trim_expr(
                body,
                Parens::NotNeeded,
                Newlines::Yes,
                body_indent,
                Pen::InLine(true),
            );
        },
    }
    assert(pen_after(Some(Pen::InLine(false)), space + body_text) == Some(Pen::InLine(false)));
    assert(closure_text(patterns, body, indent) == arrow + space + body_text);
    assert(pen_after(Some(pen), arrow + space + body_text) == pen_after(
        pen_after(Some(pen), arrow),
        space + body_text,
    )) by {
        assert(arrow + space + body_text =~= arrow + (space + body_text));
    }
}

proof fn lemma_trim_def(def: Def, indent: int, pen: Pen)
    requires
        def_trim(def),
        ready(pen),
        indent >= 0,
        indent % 4 == 0,
    ensures
        pen_after(Some(pen), def_text(def, indent)) == Some(Pen::InLine(false)),
    decreases def_depth(def), 0nat, 0nat,
{
    broadcast use group_pen;

    lemma_literals();
    match def {
        Def::Body(pattern, body) => {
            lemma_trim_pattern(pattern, Parens::InApply, indent, pen);
            lemma_trim_expr(*body, Parens::NotNeeded, Newlines::Yes, indent, Pen::InLine(true));
        },
        Def::SpaceBefore(sub, trivia) => {
            lemma_write_spaces_text(pen, trivia@, indent);
            let after = if trivia@.len() == 0 {
                pen
            } else {
                Pen::AtStart(indent as nat)
            };
            lemma_trim_def(*sub, indent, after);
        },
        Def::SpaceAfter(sub, trivia) => {
            lemma_trim_def(*sub, indent, pen);
            lemma_write_spaces_text(Pen::InLine(false), trivia@, indent);
        },
        Def::Nested(sub) => {
            lemma_trim_def(*sub, indent, pen);
        },
    }
}

proof fn lemma_led_def(def: Def, indent: int, pen: Pen)
    requires
        def_led(def),
        rested(pen),
        indent >= 0,
        indent % 4 == 0,
    ensures
        pen_after(Some(pen), def_text(def, indent)) == Some(Pen::InLine(false)),
    decreases def_depth(def), 0nat, 1nat,
{
    broadcast use group_pen;

    match def {
        Def::SpaceBefore(sub, trivia) => {
            lemma_write_spaces_text(pen, trivia@, indent);
            let after = if trivia@.len() == 0 {
                pen
            } else {
                Pen::AtStart(indent as nat)
            };
            lemma_trim_def(*sub, indent, after);
        },
        Def::Nested(sub) => {
            lemma_led_def(*sub, indent, pen);
        },
        _ => {
            lemma_trim_def(def, indent, pen);
        },
    }
}

proof fn lemma_trim_defs(defs: Seq<Def>, indent: int, pen: Pen)
    requires
        defs.len() > 0,
        def_trim(defs[0]),
        forall|i: int| 1 <= i < defs.len() ==> def_led(#[trigger] defs[i]),
        ready(pen),
        indent >= 0,
        indent % 4 == 0,
    ensures
        pen_after(Some(pen), defs_text(defs, indent)) == Some(Pen::InLine(false)),
    decreases defs_depth(defs), 1nat, defs.len(),
{
    broadcast use group_pen;

    let rest = defs.drop_last();
    if rest.len() == 0 {
        assert(defs.last() == defs[0]);
        assert(defs_text(rest, indent) =~= Seq::<char>::empty());
        lemma_trim_def(defs.last(), indent, pen);
    } else {
        assert(rest[0] == defs[0]);
        assert forall|i: int| 1 <= i < rest.len() implies def_led(#[trigger] rest[i]) by {
            assert(rest[i] == defs[i]);
        }
        assert(def_led(defs[defs.len() - 1]));
        lemma_trim_defs(rest, indent, pen);
        lemma_led_def(defs.last(), indent, Pen::InLine(false));
    }
}

proof fn lemma_trim_let(defs: Seq<Def>, ret: Expr, indent: int, pen: Pen)
    requires
        defs.len() > 0,
        def_trim(defs[0]),
        forall|i: int| 1 <= i < defs.len() ==> def_led(#[trigger] defs[i]),
        expr_led(ret, Newlines::Yes),
        ready(pen),
        indent >= 0,
        indent % 4 == 0,
    ensures
        pen_after(Some(pen), let_text(defs, ret, indent)) == Some(Pen::InLine(false)),
    decreases max(defs_depth(defs), expr_depth(ret)), 2nat, 0nat,
{
    broadcast use group_pen;

    lemma_trim_defs(defs, indent, pen);
    let at = if empty_line_before(ret) {
        Pen::InLine(false)
    } else {
        Pen::AtStart(0)
    };
    lemma_led_expr(ret, Parens::NotNeeded, Newlines::Yes, indent, at);
}

proof fn lemma_trim_if(cond: Expr, then_branch: Expr, else_branch: Expr, indent: int, pen: Pen)
    requires
        if expr_multiline(cond) {
            expr_isolated(cond)
        } else {
            expr_trim(cond, Newlines::Yes)
        },
        if expr_multiline(cond) || expr_multiline(then_branch) || expr_multiline(else_branch) {
            expr_isolated(then_branch)
        } else {
            expr_trim(then_branch, Newlines::Yes)
        },
        expr_trim(else_branch, Newlines::Yes),
        ready(pen),
        indent >= 0,
        indent % 4 == 0,
    ensures
        pen_after(Some(pen), if_text(cond, then_branch, else_branch, indent)) == Some(
            Pen::InLine(false),
        ),
    decreases max(expr_depth(cond), max(expr_depth(then_branch), expr_depth(else_branch))), 3nat,
        0nat,
{
    broadcast use group_pen;

    lemma_literals();
    let spread = expr_multiline(cond) || expr_multiline(then_branch) || expr_multiline(
        else_branch,
    );
    let inner = if spread {
        indent + step()
    } else {
        indent
    };
    let cond_part = if expr_multiline(cond) {
        isolated_text(cond, false, inner) + line_break(indent)
    } else {
        seq![' '] + expr_text(cond, Parens::NotNeeded, Newlines::Yes, indent) + seq![' ']
    };
    let then_part = if spread {
        isolated_text(then_branch, false, inner) + line_break(indent) + "else"@ + line_break(
            inner,
        )
    } else {
        seq![' '] + expr_text(then_branch, Parens::NotNeeded, Newlines::Yes, inner) + " else "@
    };
    let after_cond = if expr_multiline(cond) {
        Pen::AtStart(indent as nat)
    } else {
        Pen::InLine(true)
    };
    let after_then = if spread {
        Pen::AtStart(inner as nat)
    } else {
        Pen::InLine(true)
    };
    if expr_multiline(cond) {
        lemma_trim_isolated(cond, false, inner, Pen::InLine(false));
    } else {
        lemma_trim_expr(cond, Parens::NotNeeded, Newlines::Yes, indent, Pen::InLine(true));
    }
    assert(pen_after(Some(Pen::InLine(false)), cond_part) == Some(after_cond));
    if spread {
        lemma_trim_isolated(then_branch, false, inner, Pen::InLine(false));
    } else {
        lemma_trim_expr(then_branch, Parens::NotNeeded, Newlines::Yes, inner, Pen::InLine(true));
    }
    assert(pen_after(Some(Pen::InLine(false)), then_part) == Some(after_then));
    lemma_trim_expr(else_branch, Parens::NotNeeded, Newlines::Yes, inner, after_then);
    assert(pen_after(Some(pen), "if"@ + cond_part + "then"@ + then_part) == Some(after_then));
}

proof fn lemma_trim_branch(branch: WhenBranch, indent: int)
    requires
        branch_trim(branch),
        indent >= 0,
        indent % 4 == 0,
    ensures
        pen_after(Some(Pen::AtStart(0)), branch_text(branch, indent)) == Some(Pen::InLine(false)),
    decreases branch_depth(branch), 0nat, 0nat,
{
    broadcast use group_pen;

    lemma_literals();
    let pattern_indent = indent + step();
    let body_indent = indent + 2 * step();
    let patterns = located_values(branch.patterns@);
    let sep = if alternatives_spread(branch.patterns@) {
        line_break(pattern_indent) + "| "@
    } else {
        " | "@
    };
    assert forall|i: int| 0 <= i < patterns.len() implies pattern_trim(#[trigger] patterns[i]) by {
        assert(patterns[i] == branch.patterns@[i].value);
    }
    lemma_trim_patterns_joined(patterns, sep, pattern_indent, Pen::AtStart(pattern_indent as nat));
    let heading = spaces(pattern_indent) + patterns_joined(patterns, sep, pattern_indent);
    assert(pen_after(Some(Pen::AtStart(0)), heading) == Some(Pen::InLine(false)));
    let guard_part = match branch.guard {
        Some(guard) => " if "@ + expr_text(
            guard,
            Parens::NotNeeded,
            Newlines::Yes,
            pattern_indent,
        ),
        None => Seq::empty(),
    };
    match branch.guard {
        Some(guard) => {
            lemma_trim_expr(
                guard,
                Parens::NotNeeded,
                Newlines::Yes,
                pattern_indent,
                Pen::InLine(true),
            );
        },
        None => {},
    }
    assert(pen_after(Some(Pen::InLine(false)), guard_part) == Some(Pen::InLine(false)));
    let at = Pen::AtStart(body_indent as nat);
    assert(pen_after(Some(Pen::InLine(false)), " ->\n"@ + spaces(body_indent)) == Some(at));
    let body_part = match branch.value {
        Expr::SpaceBefore(sub, trivia) => comments_text(trivia@, NewlineAt::Bottom, body_indent)
            + expr_text(*sub, Parens::NotNeeded, Newlines::Yes, body_indent),
        _ => expr_text(branch.value, Parens::NotNeeded, Newlines::Yes, body_indent),
    };
    match branch.value {
        Expr::SpaceBefore(sub, trivia) => {
            lemma_write_comments_text(at, trivia@, NewlineAt::Bottom, body_indent);
            lemma_trim_expr(*sub, Parens::NotNeeded, Newlines::Yes, body_indent, at);
        },
        _ => {
            lemma_trim_expr(branch.value, Parens::NotNeeded, Newlines::Yes, body_indent, at);
        },
    }
    assert(pen_after(Some(at), body_part) == Some(Pen::InLine(false)));
    assert(branch_text(branch, indent) == heading + guard_part + " ->\n"@ + spaces(body_indent)
        + body_part);
    assert(pen_after(Some(Pen::AtStart(0)), heading + guard_part) == Some(Pen::InLine(false)));
    assert(pen_after(Some(Pen::AtStart(0)), heading + guard_part + " ->\n"@) == Some(
        Pen::AtStart(0),
    ));
}

proof fn lemma_trim_branches(branches: Seq<WhenBranch>, indent: int)
    requires
        forall|i: int| 0 <= i < branches.len() ==> branch_trim(#[trigger] branches[i]),
        indent >= 0,
        indent % 4 == 0,
    ensures
        pen_after(Some(Pen::AtStart(0)), branches_text(branches, indent)) == Some(
            if branches.len() == 0 {
                Pen::AtStart(0)
            } else {
                Pen::InLine(false)
            },
        ),
    decreases branches_depth(branches), 1nat, branches.len(),
{
    broadcast use group_pen;

    if branches.len() > 0 {
        let rest = branches.drop_last();
        assert forall|i: int| 0 <= i < rest.len() implies branch_trim(#[trigger] rest[i]) by {
            assert(rest[i] == branches[i]);
        }
        assert(branch_trim(branches[branches.len() - 1]));
        lemma_trim_branches(rest, indent);
        lemma_trim_branch(branches.last(), indent);
        lemma_glyphs('\n', '\n', '\n');
    }
}

proof fn lemma_trim_when(cond: Expr, branches: Seq<WhenBranch>, indent: int, pen: Pen)
    requires
        branches.len() > 0,
        if expr_multiline(cond) {
            expr_isolated(cond)
        } else {
            expr_trim(cond, Newlines::Yes)
        },
        forall|i: int| 0 <= i < branches.len() ==> branch_trim(#[trigger] branches[i]),
        ready(pen),
        indent >= 0,
        indent % 4 == 0,
    ensures
        pen_after(Some(pen), when_text(cond, branches, indent)) == Some(Pen::InLine(false)),
    decreases max(expr_depth(cond), branches_depth(branches)), 3nat, 0nat,
{
    broadcast use group_pen;

    lemma_literals();
    let cond_part = if expr_multiline(cond) {
        isolated_text(cond, false, indent + step()) + line_break(indent)
    } else {
        seq![' '] + expr_text(cond, Parens::NotNeeded, Newlines::Yes, indent) + seq![' ']
    };
    if expr_multiline(cond) {
        lemma_trim_isolated(cond, false, indent + step(), Pen::InLine(false));
    } else {
        lemma_trim_expr(cond, Parens::NotNeeded, Newlines::Yes, indent, Pen::InLine(true));
    }
    assert(pen_after(Some(Pen::InLine(false)), cond_part) matches Some(after) && ready(after));
    lemma_trim_branches(branches, indent);
    assert(pen_after(Some(pen), "when"@ + cond_part + "is\n"@) == Some(Pen::AtStart(0)));
}

proof fn lemma_trim_bin_op(
    left: Expr,
    op: BinOp,
    right: Expr,
    in_spread_chain: bool,
    parens: Parens,
    indent: int,
    pen: Pen,
)
    requires
        expr_trim(left, Newlines::No),
        expr_trim(right, Newlines::Yes),
        ready(pen),
        indent >= 0,
        indent % 4 == 0,
    ensures
        pen_after(Some(pen), bin_op_text(left, op, right, in_spread_chain, parens, indent))
            == Some(Pen::InLine(false)),
    decreases max(expr_depth(left), expr_depth(right)), 1nat, 0nat,
{
    broadcast use group_pen;

    let spread = expr_multiline(right) || expr_multiline(left) || in_spread_chain;
    let gapped = if spread {
        Pen::AtStart((indent + step()) as nat)
    } else {
        Pen::InLine(true)
    };
    lemma_trim_expr(left, parens, Newlines::No, indent, pen);
    lemma_token_word(op);
    lemma_write_word(gapped, bin_op_token(op));
    match right {
        Expr::BinOp(next_left, next_op, next_right) => {
            lemma_trim_bin_op(
                *next_left,
                next_op,
                *next_right,
                spread,
                parens,
                indent,
                Pen::InLine(true),
            );
        },
        _ => {
            lemma_trim_expr(right, parens, Newlines::Yes, indent, Pen::InLine(true));
        },
    }
    let gap = if spread {
        line_break(indent + step())
    } else {
        seq![' ']
    };
    assert(pen_after(
        Some(pen),
        expr_text(left, parens, Newlines::No, indent) + gap + bin_op_token(op) + seq![' '],
    ) == Some(Pen::InLine(true)));
}

/// No line that the formatter writes for a tree that may start a text ends
/// in a space or a tab.
pub proof fn lemma_no_line_ends_blank(e: Expr, parens: Parens, indent: int)
    requires
        expr_led(e, Newlines::Yes),
        indent >= 0,
        indent % 4 == 0,
    ensures
        no_line_ends_blank(expr_text(e, parens, Newlines::Yes, indent)),
{
    lemma_led_expr(e, parens, Newlines::Yes, indent, Pen::AtStart(0));
    lemma_pen_keeps_rules(expr_text(e, parens, Newlines::Yes, indent), Pen::InLine(false));
}

/// Every line that the formatter writes for a tree that may start a text,
/// if it holds anything, begins with a multiple of four spaces.
pub proof fn lemma_lines_indented(e: Expr, parens: Parens, indent: int)
    requires
        expr_led(e, Newlines::Yes),
        indent >= 0,
        indent % 4 == 0,
    ensures
        lines_indented(expr_text(e, parens, Newlines::Yes, indent)),
{
    lemma_led_expr(e, parens, Newlines::Yes, indent, Pen::AtStart(0));
    lemma_pen_keeps_rules(expr_text(e, parens, Newlines::Yes, indent), Pen::InLine(false));
}

} // verus!
