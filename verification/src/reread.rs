//! The comments read back from the text of a tree are the comments of the
//! tree.

use vstd::prelude::*;
use crate::annotation::{Newlines, Parens};
use crate::ast::{
    branch_depth, branches_depth, def_depth, defs_depth, expr_depth, exprs_depth, field_depth,
    fields_depth, lines_depth, literal_depth, max, segment_depth, segments_depth, AssignedField,
    BinOp, CommentOrNewline, Def, Expr, Pattern, StrLiteral, StrSegment, WhenBranch,
};
use crate::comments::{
    branch_comments, branch_keeps, branches_comments, def_comments, def_keeps, defs_comments,
    expr_comments, expr_keeps, exprs_comments, field_comments, field_keeps, fields_comments,
    line_keeps, lines_comments, option_comments, pattern_comments, patterns_comments,
    lemma_trivia_no_comments, segment_comments, segment_keeps, segments_comments,
    trivia_comments,
};
use crate::layout::{any_expr_multiline, any_field_multiline, expr_multiline};
use crate::pattern::{
    any_pattern_multiline, located_values, pattern_args_text, pattern_text, patterns_joined,
};
use crate::reading::{
    all_read, closed, comments_in, comments_plain, group_reader,
    lemma_read_comments_text, lemma_read_line_break, lemma_read_spaces_text, quiet, read, Reader,
};
use crate::render::{
    alternatives_spread, apply_text, args_text, base_prefix, bin_op_text, bin_op_token,
    block_lines_text, branch_text, branches_text, closure_text, def_text, defs_text,
    empty_line_before, escape_letter, expr_text, field_inline_text, field_line_text,
    fields_inline_text, fields_lines_text, if_text, isolated_text, let_text,
    list_items_inline_text, list_items_lines_text, list_text, option_depth, record_text,
    segment_text, segments_text, step, str_literal_text, trailing_text, when_text,
};
use crate::spaces::{all_newlines, comments_text, has_comment, line_break, spaces, NewlineAt};

verus! {

/// Whether no `#` stands in a pattern but those that start its comments,
/// and each of its comments stays on its line.
pub open spec fn pattern_quiet(p: Pattern) -> bool
    decreases p,
{
    match p {
        Pattern::Identifier(name) => quiet(name@),
        Pattern::GlobalTag(name) => quiet(name@),
        Pattern::PrivateTag(name) => quiet(name@),
        Pattern::NumLiteral(digits) => quiet(digits@),
        Pattern::Malformed(raw) => quiet(raw@),
        Pattern::StrLiteral(text) => quiet(text@),
        Pattern::Underscore => true,
        Pattern::Apply(head, args) => pattern_quiet(*head) && forall|i: int|
            0 <= i < args@.len() ==> pattern_quiet(#[trigger] args@[i]),
        Pattern::RecordDestructure(fields) => forall|i: int|
            0 <= i < fields@.len() ==> pattern_quiet(#[trigger] fields@[i]),
        Pattern::SpaceBefore(sub, trivia) => comments_plain(trivia@) && pattern_quiet(*sub),
        Pattern::SpaceAfter(sub, trivia) => comments_plain(trivia@) && pattern_quiet(*sub),
        Pattern::Nested(sub) => pattern_quiet(*sub),
    }
}

/// Whether no `#` stands in an expression but those that start its
/// comments, and each of its comments stays on its line.
pub open spec fn expr_quiet(e: Expr) -> bool
    decreases e,
{
    match e {
        Expr::Float(digits) => quiet(digits@),
        Expr::Num(digits) => quiet(digits@),
        Expr::GlobalTag(name) => quiet(name@),
        Expr::PrivateTag(name) => quiet(name@),
        Expr::NonBase10Int { string, .. } => quiet(string@),
        Expr::Var { module_name, ident } => quiet(module_name@) && quiet(ident@),
        Expr::AccessorFunction(key) => quiet(key@),
        Expr::Access(sub, key) => expr_quiet(*sub) && quiet(key@),
        Expr::Str(StrLiteral::PlainLine(text)) => quiet(text@),
        Expr::Str(StrLiteral::Line(segments)) => forall|i: int|
            0 <= i < segments@.len() ==> segment_quiet(#[trigger] segments@[i]),
        Expr::Str(StrLiteral::Block(lines)) => forall|i: int|
            0 <= i < lines@.len() ==> line_quiet(#[trigger] lines@[i]),
        Expr::List { items, final_comments } => comments_plain(final_comments@) && forall|i: int|
            0 <= i < items@.len() ==> expr_quiet(#[trigger] items@[i]),
        Expr::Record { update, fields, final_comments } => comments_plain(final_comments@) && (
        match update {
            Some(base) => expr_quiet(*base),
            None => true,
        }) && forall|i: int| 0 <= i < fields@.len() ==> field_quiet(#[trigger] fields@[i]),
        Expr::Closure(patterns, body) => expr_quiet(*body) && forall|i: int|
            0 <= i < patterns@.len() ==> pattern_quiet(#[trigger] patterns@[i]),
        Expr::Defs(defs, ret) => expr_quiet(*ret) && forall|i: int|
            0 <= i < defs@.len() ==> def_quiet(#[trigger] defs@[i]),
        Expr::Apply(head, args) => expr_quiet(*head) && forall|i: int|
            0 <= i < args@.len() ==> expr_quiet(#[trigger] args@[i]),
        Expr::BinOp(left, _, right) => expr_quiet(*left) && expr_quiet(*right),
        Expr::UnaryOp(sub, _) => expr_quiet(*sub),
        Expr::If(cond, then_branch, else_branch) => expr_quiet(*cond) && expr_quiet(
            *then_branch,
        ) && expr_quiet(*else_branch),
        Expr::When(cond, branches) => expr_quiet(*cond) && forall|i: int|
            0 <= i < branches@.len() ==> branch_quiet(#[trigger] branches@[i]),
        Expr::SpaceBefore(sub, trivia) => comments_plain(trivia@) && expr_quiet(*sub),
        Expr::SpaceAfter(sub, trivia) => comments_plain(trivia@) && expr_quiet(*sub),
        Expr::ParensAround(sub) => expr_quiet(*sub),
        Expr::Nested(sub) => expr_quiet(*sub),
        Expr::PrecedenceConflict(_, _, sub) => expr_quiet(*sub),
        Expr::MalformedIdent(_) => true,
        Expr::MalformedClosure => true,
    }
}

pub open spec fn segment_quiet(segment: StrSegment) -> bool
    decreases segment,
{
    match segment {
        StrSegment::Plaintext(text) => quiet(text@),
        StrSegment::Unicode(hex) => quiet(hex@),
        StrSegment::EscapedChar(_) => true,
        StrSegment::Interpolated(inner) => expr_quiet(*inner),
    }
}

pub open spec fn line_quiet(line: Vec<StrSegment>) -> bool
    decreases line,
{
    forall|j: int| 0 <= j < line@.len() ==> segment_quiet(#[trigger] line@[j])
}

/// A field of raw text has no place among quiet fields: what it holds would
/// be read as part of a comment that stands before it.
pub open spec fn field_quiet(field: AssignedField) -> bool
    decreases field,
{
    match field {
        AssignedField::RequiredValue(name, trivia, value) => quiet(name@) && comments_plain(
            trivia@,
        ) && expr_quiet(*value),
        AssignedField::OptionalValue(name, trivia, value) => quiet(name@) && comments_plain(
            trivia@,
        ) && expr_quiet(*value),
        AssignedField::LabelOnly(name) => quiet(name@),
        AssignedField::SpaceBefore(sub, trivia) => comments_plain(trivia@) && field_quiet(*sub),
        AssignedField::SpaceAfter(sub, trivia) => comments_plain(trivia@) && field_quiet(*sub),
        AssignedField::Malformed(_) => false,
    }
}

pub open spec fn def_quiet(def: Def) -> bool
    decreases def,
{
    match def {
        Def::Body(pattern, body) => pattern_quiet(pattern) && expr_quiet(*body),
        Def::SpaceBefore(sub, trivia) => comments_plain(trivia@) && def_quiet(*sub),
        Def::SpaceAfter(sub, trivia) => comments_plain(trivia@) && def_quiet(*sub),
        Def::Nested(sub) => def_quiet(*sub),
    }
}

pub open spec fn branch_quiet(branch: WhenBranch) -> bool
    decreases branch,
{
    &&& forall|i: int|
        0 <= i < branch.patterns@.len() ==> pattern_quiet((#[trigger] branch.patterns@[i]).value)
    &&& match branch.guard {
        Some(guard) => expr_quiet(guard),
        None => true,
    }
    &&& expr_quiet(branch.value)
}

/// The literal texts of the formatter hold no `#`.
proof fn lemma_quiet_literals()
    ensures
        quiet("0x"@),
        quiet("0o"@),
        quiet("0b"@),
        quiet("\\u("@),
        quiet("\\("@),
        quiet("[]"@),
        quiet(" ]"@),
        quiet(": "@),
        quiet("? "@),
        quiet(", "@),
        quiet("{}"@),
        quiet(" &"@),
        quiet("->"@),
        quiet(" = "@),
        quiet("if"@),
        quiet("then"@),
        quiet("else"@),
        quiet(" else "@),
        quiet("| "@),
        quiet(" | "@),
        quiet(" if "@),
        quiet(" ->\n"@),
        quiet("is\n"@),
        quiet("when"@),
        quiet("{ "@),
        quiet(" }"@),
        forall|a: char, b: char| a != '#' && b != '#' ==> quiet(#[trigger] seq![a, b]),
        forall|a: char| a != '#' ==> quiet(#[trigger] seq![a, a, a]),
        forall|n: int| quiet(#[trigger] line_break(n)),
        forall|n: int| quiet(#[trigger] spaces(n)),
{
    reveal_strlit("0x");
    reveal_strlit("0o");
    reveal_strlit("0b");
    reveal_strlit("\\u(");
    reveal_strlit("\\(");
    reveal_strlit("[]");
    reveal_strlit(" ]");
    reveal_strlit(": ");
    reveal_strlit("? ");
    reveal_strlit(", ");
    reveal_strlit("{}");
    reveal_strlit(" &");
    reveal_strlit("->");
    reveal_strlit(" = ");
    reveal_strlit("if");
    reveal_strlit("then");
    reveal_strlit("else");
    reveal_strlit(" else ");
    reveal_strlit("| ");
    reveal_strlit(" | ");
    reveal_strlit(" if ");
    reveal_strlit(" ->\n");
    reveal_strlit("is\n");
    reveal_strlit("when");
    reveal_strlit("{ ");
    reveal_strlit(" }");
}

/// No operator token holds a `#`.
proof fn lemma_quiet_token(op: BinOp)
    ensures
        quiet(bin_op_token(op)),
{
    reveal_strlit("^");
    reveal_strlit("*");
    reveal_strlit("/");
    reveal_strlit("//");
    reveal_strlit("%");
    reveal_strlit("%%");
    reveal_strlit("+");
    reveal_strlit("-");
    reveal_strlit("==");
    reveal_strlit("!=");
    reveal_strlit("<");
    reveal_strlit(">");
    reveal_strlit("<=");
    reveal_strlit(">=");
    reveal_strlit("&&");
    reveal_strlit("||");
    reveal_strlit("|>");
}

/// Two quiet texts make a quiet text.
pub broadcast proof fn lemma_quiet_concat(a: Seq<char>, b: Seq<char>)
    ensures
        #[trigger] quiet(a + b) == (quiet(a) && quiet(b)),
{
    if !quiet(a) {
        let i = choose|i: int| 0 <= i < a.len() && a[i] == '#';
        assert((a + b)[i] == '#');
    }
    if !quiet(b) {
        let i = choose|i: int| 0 <= i < b.len() && b[i] == '#';
        assert((a + b)[a.len() + i] == '#');
    }
    if !quiet(a + b) {
        let i = choose|i: int| 0 <= i < (a + b).len() && (a + b)[i] == '#';
        if i < a.len() {
            assert(a[i] == '#');
        } else {
            assert(b[i - a.len()] == '#');
        }
    }
}

/// The text of a quiet pattern is read back as the comments of the pattern.
pub proof fn lemma_reread_pattern(p: Pattern, parens: Parens, indent: int, done: Seq<Seq<char>>)
    requires
        pattern_quiet(p),
    ensures
        read(closed(done), pattern_text(p, parens, indent)) == closed(done + pattern_comments(p)),
    decreases p,
{
    broadcast use group_reader;

    lemma_quiet_literals();
    match p {
        Pattern::Apply(head, args) => {
            lemma_reread_pattern(*head, Parens::InApply, indent, done);
            lemma_reread_pattern_args(args@, indent, done + pattern_comments(*head));
            assert(done + pattern_comments(*head) + patterns_comments(args@) =~= done
                + pattern_comments(p));
        },
        Pattern::RecordDestructure(fields) => {
            lemma_reread_patterns_joined(fields@, ", "@, indent, done);
        },
        Pattern::SpaceBefore(sub, trivia) => {
            lemma_read_comments_text(closed(done), trivia@, NewlineAt::Bottom, indent);
            lemma_reread_pattern(*sub, parens, indent, done + trivia_comments(trivia@));
            assert(done + trivia_comments(trivia@) + pattern_comments(*sub) =~= done
                + pattern_comments(p));
        },
        Pattern::SpaceAfter(sub, trivia) => {
            lemma_reread_pattern(*sub, parens, indent, done);
            lemma_read_comments_text(
                closed(done + pattern_comments(*sub)),
                trivia@,
                NewlineAt::Bottom,
                indent,
            );
            assert(done + pattern_comments(*sub) + trivia_comments(trivia@) =~= done
                + pattern_comments(p));
        },
        Pattern::Nested(sub) => {
            lemma_reread_pattern(*sub, parens, indent, done);
        },
        _ => {
            assert(done + pattern_comments(p) =~= done);
        },
    }
}

proof fn lemma_reread_pattern_args(args: Seq<Pattern>, indent: int, done: Seq<Seq<char>>)
    requires
        forall|i: int| 0 <= i < args.len() ==> pattern_quiet(#[trigger] args[i]),
    ensures
        read(closed(done), pattern_args_text(args, indent)) == closed(
            done + patterns_comments(args),
        ),
    decreases args,
{
    broadcast use group_reader;

    if args.len() > 0 {
        let rest = args.drop_last();
        assert forall|i: int| 0 <= i < rest.len() implies pattern_quiet(#[trigger] rest[i]) by {
            assert(rest[i] == args[i]);
        }
        assert(pattern_quiet(args[args.len() - 1]));
        lemma_reread_pattern_args(rest, indent, done);
        lemma_reread_pattern(
            args.last(),
            Parens::InApply,
            indent,
            done + patterns_comments(rest),
        );
        assert(done + patterns_comments(rest) + pattern_comments(args.last()) =~= done
            + patterns_comments(args));
    } else {
        assert(done + patterns_comments(args) =~= done);
    }
}

/// Quiet patterns, joined by a quiet separator, are read back as their
/// comments.
pub proof fn lemma_reread_patterns_joined(
    ps: Seq<Pattern>,
    sep: Seq<char>,
    indent: int,
    done: Seq<Seq<char>>,
)
    requires
        forall|i: int| 0 <= i < ps.len() ==> pattern_quiet(#[trigger] ps[i]),
        quiet(sep),
    ensures
        read(closed(done), patterns_joined(ps, sep, indent)) == closed(
            done + patterns_comments(ps),
        ),
    decreases ps,
{
    broadcast use group_reader;

    if ps.len() > 0 {
        let rest = ps.drop_last();
        assert forall|i: int| 0 <= i < rest.len() implies pattern_quiet(#[trigger] rest[i]) by {
            assert(rest[i] == ps[i]);
        }
        assert(pattern_quiet(ps[ps.len() - 1]));
        lemma_reread_patterns_joined(rest, sep, indent, done);
        lemma_reread_pattern(
            ps.last(),
            Parens::NotNeeded,
            indent,
            done + patterns_comments(rest),
        );
        assert(done + patterns_comments(rest) + pattern_comments(ps.last()) =~= done
            + patterns_comments(ps));
    } else {
        assert(done + patterns_comments(ps) =~= done);
    }
}

/// The text of a tree that the formatter renders in full, and that holds no
/// `#` but in its comments, is read back as the comments of the tree, in
/// the order they stand in it.
pub proof fn lemma_reread_expr(
    e: Expr,
    parens: Parens,
    newlines: Newlines,
    indent: int,
    done: Seq<Seq<char>>,
)
    requires
        expr_keeps(e),
        expr_quiet(e),
    ensures
        read(closed(done), expr_text(e, parens, newlines, indent)) == closed(
            done + expr_comments(e),
        ),
    decreases expr_depth(e), 0nat, 0nat,
{
    broadcast use group_reader;

    lemma_quiet_literals();
    match e {
        Expr::Str(literal) => {
            lemma_reread_literal(literal, indent, done);
        },
        Expr::Access(sub, _) => {
            lemma_reread_expr(*sub, parens, Newlines::Yes, indent, done);
        },
        Expr::List { items, final_comments } => {
            lemma_reread_list(items@, final_comments@, indent, done);
        },
        Expr::Record { update, fields, final_comments } => {
            let base = match update {
                Some(base) => Some(*base),
                None => None,
            };
            lemma_reread_record(base, fields@, final_comments@, indent, done);
            assert(option_comments(base) + fields_comments(fields@) + trivia_comments(
                final_comments@,
            ) == expr_comments(e));
        },
        Expr::Closure(patterns, body) => {
            lemma_reread_closure(patterns@, *body, indent, done);
        },
        Expr::Defs(defs, ret) => {
            lemma_reread_let(defs@, *ret, indent, done);
        },
        Expr::Apply(head, args) => {
            lemma_reread_apply(*head, args@, parens, indent, done);
        },
        Expr::BinOp(left, op, right) => {
            lemma_reread_bin_op(*left, op, *right, false, parens, indent, done);
        },
        Expr::UnaryOp(sub, _) => {
            lemma_reread_expr(*sub, parens, newlines, indent, done);
        },
        Expr::If(cond, then_branch, else_branch) => {
            lemma_reread_if(*cond, *then_branch, *else_branch, indent, done);
        },
        Expr::When(cond, branches) => {
            lemma_reread_when(*cond, branches@, indent, done);
        },
        Expr::SpaceBefore(sub, trivia) => {
            match newlines {
                Newlines::Yes => {
                    lemma_read_spaces_text(done, trivia@, indent);
                },
                Newlines::No => {
                    lemma_read_comments_text(closed(done), trivia@, NewlineAt::Bottom, indent);
                },
            }
            lemma_reread_expr(*sub, parens, newlines, indent, done + trivia_comments(trivia@));
            assert(done + trivia_comments(trivia@) + expr_comments(*sub) =~= done
                + expr_comments(e));
        },
        Expr::SpaceAfter(sub, trivia) => {
            lemma_reread_expr(*sub, parens, newlines, indent, done);
            let so_far = done + expr_comments(*sub);
            match newlines {
                Newlines::Yes => {
                    lemma_read_spaces_text(so_far, trivia@, indent);
                },
                Newlines::No => {
                    lemma_read_comments_text(closed(so_far), trivia@, NewlineAt::Bottom, indent);
                },
            }
            assert(so_far + trivia_comments(trivia@) =~= done + expr_comments(e));
        },
        Expr::ParensAround(sub) => {
            lemma_reread_expr(*sub, Parens::NotNeeded, Newlines::Yes, indent, done);
        },
        Expr::Nested(sub) => {
            lemma_reread_expr(*sub, parens, newlines, indent, done);
        },
        Expr::PrecedenceConflict(_, _, sub) => {
            lemma_reread_expr(*sub, parens, newlines, indent, done);
        },
        _ => {
            assert(done + expr_comments(e) =~= done);
        },
    }
}

proof fn lemma_reread_segment(segment: StrSegment, indent: int, done: Seq<Seq<char>>)
    requires
        segment_keeps(segment),
        segment_quiet(segment),
    ensures
        read(closed(done), segment_text(segment, indent)) == closed(
            done + segment_comments(segment),
        ),
    decreases segment_depth(segment), 0nat, 0nat,
{
    broadcast use group_reader;

    lemma_quiet_literals();
    match segment {
        StrSegment::Interpolated(inner) => {
            lemma_reread_expr(*inner, Parens::NotNeeded, Newlines::No, indent, done);
        },
        StrSegment::EscapedChar(escaped) => {
            assert(quiet(seq!['\\', escape_letter(escaped)]));
            assert(done + segment_comments(segment) =~= done);
        },
        _ => {
            assert(done + segment_comments(segment) =~= done);
        },
    }
}

proof fn lemma_reread_segments(segments: Seq<StrSegment>, indent: int, done: Seq<Seq<char>>)
    requires
        forall|i: int| 0 <= i < segments.len() ==> segment_keeps(#[trigger] segments[i]),
        forall|i: int| 0 <= i < segments.len() ==> segment_quiet(#[trigger] segments[i]),
    ensures
        read(closed(done), segments_text(segments, indent)) == closed(done + segments_comments(segments)),
    decreases segments_depth(segments), 1nat, segments.len(),
{
    broadcast use group_reader;

    lemma_quiet_literals();
    if segments.len() > 0 {
        let rest = segments.drop_last();
        assert forall|i: int| 0 <= i < rest.len() implies segment_keeps(#[trigger] rest[i]) by {
            assert(rest[i] == segments[i]);
        }
        assert forall|i: int| 0 <= i < rest.len() implies segment_quiet(#[trigger] rest[i]) by {
            assert(rest[i] == segments[i]);
        }
        assert(segment_keeps(segments[segments.len() - 1]));
        assert(segment_quiet(segments[segments.len() - 1]));
        lemma_reread_segments(rest, indent, done);
        let so_far = done + segments_comments(rest);
        lemma_reread_segment(segments.last(), indent, so_far);
        assert(so_far + segment_comments(segments.last()) =~= done + segments_comments(segments));
    } else {
        assert(done + segments_comments(segments) =~= done);
    }
}

proof fn lemma_reread_block_lines(
    lines: Seq<Vec<StrSegment>>,
    breaks: bool,
    indent: int,
    done: Seq<Seq<char>>,
)
    requires
        forall|i: int| 0 <= i < lines.len() ==> line_keeps(#[trigger] lines[i]),
        forall|i: int| 0 <= i < lines.len() ==> line_quiet(#[trigger] lines[i]),
    ensures
        read(closed(done), block_lines_text(lines, breaks, indent)) == closed(
            done + lines_comments(lines),
        ),
    decreases lines_depth(lines), 2nat, lines.len(),
{
    broadcast use group_reader;

    lemma_quiet_literals();
    if lines.len() > 0 {
        let rest = lines.drop_last();
        assert forall|i: int| 0 <= i < rest.len() implies line_keeps(#[trigger] rest[i]) by {
            assert(rest[i] == lines[i]);
        }
        assert forall|i: int| 0 <= i < rest.len() implies line_quiet(#[trigger] rest[i]) by {
            assert(rest[i] == lines[i]);
        }
        assert(line_keeps(lines[lines.len() - 1]));
        assert(line_quiet(lines[lines.len() - 1]));
        lemma_reread_block_lines(rest, breaks, indent, done);
        let so_far = done + lines_comments(rest);
        lemma_reread_segments(lines.last()@, indent, so_far);
        assert(so_far + segments_comments(lines.last()@) =~= done + lines_comments(lines));
    } else {
        assert(done + lines_comments(lines) =~= done);
    }
}

proof fn lemma_reread_literal(literal: StrLiteral, indent: int, done: Seq<Seq<char>>)
    requires
        expr_keeps(Expr::Str(literal)),
        expr_quiet(Expr::Str(literal)),
    ensures
        read(closed(done), str_literal_text(literal, indent)) == closed(
            done + expr_comments(Expr::Str(literal)),
        ),
    decreases literal_depth(literal), 3nat, 0nat,
{
    broadcast use group_reader;

    lemma_quiet_literals();
    match literal {
        StrLiteral::PlainLine(_) => {
            assert(done + expr_comments(Expr::Str(literal)) =~= done);
        },
        StrLiteral::Line(segments) => {
            lemma_reread_segments(segments@, 0, done);
        },
        StrLiteral::Block(lines) => {
            assert(quiet(seq!['"', '"', '"']));
            lemma_reread_block_lines(lines@, lines@.len() > 1, indent, done);
        },
    }
}

proof fn lemma_reread_args(args: Seq<Expr>, spread: bool, indent: int, done: Seq<Seq<char>>)
    requires
        forall|i: int| 0 <= i < args.len() ==> expr_keeps(#[trigger] args[i]),
        forall|i: int| 0 <= i < args.len() ==> expr_quiet(#[trigger] args[i]),
    ensures
        read(closed(done), args_text(args, spread, indent)) == closed(done + exprs_comments(args)),
    decreases exprs_depth(args), 1nat, args.len(),
{
    broadcast use group_reader;

    lemma_quiet_literals();
    if args.len() > 0 {
        let rest = args.drop_last();
        assert forall|i: int| 0 <= i < rest.len() implies expr_keeps(#[trigger] rest[i]) by {
            assert(rest[i] == args[i]);
        }
        assert forall|i: int| 0 <= i < rest.len() implies expr_quiet(#[trigger] rest[i]) by {
            assert(rest[i] == args[i]);
        }
        assert(expr_keeps(args[args.len() - 1]));
        assert(expr_quiet(args[args.len() - 1]));
        lemma_reread_args(rest, spread, indent, done);
        let so_far = done + exprs_comments(rest);
        if spread {
            lemma_reread_expr(args.last(), Parens::InApply, Newlines::No, indent + step(), so_far);
        } else {
            lemma_reread_expr(args.last(), Parens::InApply, Newlines::Yes, indent, so_far);
        }
        assert(so_far + expr_comments(args.last()) =~= done + exprs_comments(args));
    } else {
        assert(done + exprs_comments(args) =~= done);
    }
}

proof fn lemma_reread_apply(
    head: Expr,
    args: Seq<Expr>,
    parens: Parens,
    indent: int,
    done: Seq<Seq<char>>,
)
    requires
        expr_keeps(head),
        expr_quiet(head),
        forall|i: int| 0 <= i < args.len() ==> expr_keeps(#[trigger] args[i]),
        forall|i: int| 0 <= i < args.len() ==> expr_quiet(#[trigger] args[i]),
    ensures
        read(closed(done), apply_text(head, args, parens, indent)) == closed(
            done + (expr_comments(head) + exprs_comments(args)),
        ),
    decreases max(expr_depth(head), exprs_depth(args)), 2nat, 0nat,
{
    broadcast use group_reader;

    lemma_reread_expr(head, Parens::InApply, Newlines::Yes, indent, done);
    lemma_reread_args(args, any_expr_multiline(args), indent, done + expr_comments(head));
    assert(done + expr_comments(head) + exprs_comments(args) =~= done + (expr_comments(head)
        + exprs_comments(args)));
}

/// An expression with its trailing comments; the reader may be left in the
/// last of them.
proof fn lemma_reread_trailing(e: Expr, comma: bool, indent: int, done: Seq<Seq<char>>)
    requires
        expr_keeps(e),
        expr_quiet(e),
    ensures
        all_read(read(closed(done), trailing_text(e, comma, indent))) == done + expr_comments(e),
    decreases expr_depth(e), 1nat, 0nat,
{
    broadcast use group_reader;

    match e {
        Expr::SpaceAfter(sub, after) => {
            lemma_reread_expr(*sub, Parens::NotNeeded, Newlines::Yes, indent, done);
            let so_far = done + expr_comments(*sub);
            lemma_read_comments_text(closed(so_far), after@, NewlineAt::Top, indent);
            assert(so_far + trivia_comments(after@) =~= done + expr_comments(e));
        },
        _ => {
            lemma_reread_expr(e, Parens::NotNeeded, Newlines::Yes, indent, done);
        },
    }
}

/// An expression on lines of its own closes the comment that stands before
/// it; the reader may be left in the last of its own.
proof fn lemma_reread_isolated(e: Expr, comma: bool, indent: int, reader: Reader)
    requires
        expr_keeps(e),
        expr_quiet(e),
    ensures
        all_read(read(reader, isolated_text(e, comma, indent))) == all_read(reader)
            + expr_comments(e),
    decreases expr_depth(e), 2nat, 0nat,
{
    broadcast use group_reader;

    let start = all_read(reader);
    match e {
        Expr::SpaceBefore(sub, before) => {
            lemma_read_comments_text(closed(start), before@, NewlineAt::Bottom, indent);
            let so_far = start + trivia_comments(before@);
            lemma_reread_trailing(*sub, comma, indent, so_far);
            assert(so_far + expr_comments(*sub) =~= start + expr_comments(e));
        },
        _ => {
            lemma_reread_trailing(e, comma, indent, start);
        },
    }
}

proof fn lemma_reread_list_items_inline(items: Seq<Expr>, indent: int, done: Seq<Seq<char>>)
    requires
        forall|i: int| 0 <= i < items.len() ==> expr_keeps(#[trigger] items[i]),
        forall|i: int| 0 <= i < items.len() ==> expr_quiet(#[trigger] items[i]),
    ensures
        read(closed(done), list_items_inline_text(items, indent)) == closed(done + exprs_comments(items)),
    decreases exprs_depth(items), 1nat, items.len(),
{
    broadcast use group_reader;

    lemma_quiet_literals();
    if items.len() > 0 {
        let rest = items.drop_last();
        assert forall|i: int| 0 <= i < rest.len() implies expr_keeps(#[trigger] rest[i]) by {
            assert(rest[i] == items[i]);
        }
        assert forall|i: int| 0 <= i < rest.len() implies expr_quiet(#[trigger] rest[i]) by {
            assert(rest[i] == items[i]);
        }
        assert(expr_keeps(items[items.len() - 1]));
        assert(expr_quiet(items[items.len() - 1]));
        lemma_reread_list_items_inline(rest, indent, done);
        let so_far = done + exprs_comments(rest);
        lemma_reread_expr(items.last(), Parens::NotNeeded, Newlines::Yes, indent, so_far);
        assert(so_far + expr_comments(items.last()) =~= done + exprs_comments(items));
    } else {
        assert(done + exprs_comments(items) =~= done);
    }
}

proof fn lemma_reread_list_items_lines(items: Seq<Expr>, indent: int, reader: Reader)
    requires
        forall|i: int| 0 <= i < items.len() ==> expr_keeps(#[trigger] items[i]),
        forall|i: int| 0 <= i < items.len() ==> expr_quiet(#[trigger] items[i]),
    ensures
        all_read(read(reader, list_items_lines_text(items, indent))) == all_read(reader) + exprs_comments(items),
    decreases exprs_depth(items), 3nat, items.len(),
{
    broadcast use group_reader;

    if items.len() > 0 {
        let rest = items.drop_last();
        assert forall|i: int| 0 <= i < rest.len() implies expr_keeps(#[trigger] rest[i]) by {
            assert(rest[i] == items[i]);
        }
        assert forall|i: int| 0 <= i < rest.len() implies expr_quiet(#[trigger] rest[i]) by {
            assert(rest[i] == items[i]);
        }
        assert(expr_keeps(items[items.len() - 1]));
        assert(expr_quiet(items[items.len() - 1]));
        lemma_reread_list_items_lines(rest, indent, reader);
        let before = read(reader, list_items_lines_text(rest, indent));
        lemma_reread_isolated(items.last(), true, indent, before);
        assert(all_read(reader) + exprs_comments(rest) + expr_comments(items.last()) =~= all_read(reader) + exprs_comments(
            items,
        ));
    } else {
        assert(all_read(reader) + exprs_comments(items) =~= all_read(reader));
    }
}

proof fn lemma_reread_list(
    items: Seq<Expr>,
    final_comments: Seq<CommentOrNewline>,
    indent: int,
    done: Seq<Seq<char>>,
)
    requires
        any_expr_multiline(items) || !has_comment(final_comments),
        comments_plain(final_comments),
        forall|i: int| 0 <= i < items.len() ==> expr_keeps(#[trigger] items[i]),
        forall|i: int| 0 <= i < items.len() ==> expr_quiet(#[trigger] items[i]),
    ensures
        read(closed(done), list_text(items, final_comments, indent)) == closed(
            done + (exprs_comments(items) + trivia_comments(final_comments)),
        ),
    decreases exprs_depth(items), 4nat, 0nat,
{
    broadcast use group_reader;

    lemma_quiet_literals();
    let marks = exprs_comments(items) + trivia_comments(final_comments);
    if items.len() == 0 && all_newlines(final_comments) {
        lemma_trivia_no_comments(final_comments);
        assert(done + marks =~= done);
    } else if any_expr_multiline(items) {
        let inner = indent + step();
        lemma_reread_list_items_lines(items, inner, closed(done));
        let first = read(closed(done), list_items_lines_text(items, inner));
        lemma_read_comments_text(first, final_comments, NewlineAt::Top, inner);
        let second = read(first, comments_text(final_comments, NewlineAt::Top, inner));
        lemma_read_line_break(second, indent);
        assert(all_read(second) =~= done + marks);
    } else {
        lemma_trivia_no_comments(final_comments);
        lemma_reread_list_items_inline(items, indent, done);
        assert(done + exprs_comments(items) =~= done + marks);
    }
}

/// A field on a line of its own closes the comment that stands before it.
proof fn lemma_reread_field_line(field: AssignedField, indent: int, reader: Reader)
    requires
        field_keeps(field),
        field_quiet(field),
    ensures
        all_read(read(reader, field_line_text(field, indent))) == all_read(reader)
            + field_comments(field),
    decreases field_depth(field), 0nat, 0nat,
{
    broadcast use group_reader;

    lemma_quiet_literals();
    let start = all_read(reader);
    match field {
        AssignedField::RequiredValue(_, trivia, value) => {
            lemma_read_spaces_text(start, trivia@, indent);
            let so_far = start + trivia_comments(trivia@);
            lemma_reread_expr(*value, Parens::NotNeeded, Newlines::Yes, indent, so_far);
            assert(so_far + expr_comments(*value) =~= start + field_comments(field));
        },
        AssignedField::OptionalValue(_, trivia, value) => {
            lemma_read_spaces_text(start, trivia@, indent);
            let so_far = start + trivia_comments(trivia@);
            lemma_reread_expr(*value, Parens::NotNeeded, Newlines::Yes, indent, so_far);
            assert(so_far + expr_comments(*value) =~= start + field_comments(field));
        },
        AssignedField::LabelOnly(_) => {
            assert(start + field_comments(field) =~= start);
        },
        AssignedField::SpaceBefore(sub, trivia) => {
            lemma_read_comments_text(reader, trivia@, NewlineAt::Top, indent);
            let before = read(reader, comments_text(trivia@, NewlineAt::Top, indent));
            lemma_reread_field_line(*sub, indent, before);
            assert(start + trivia_comments(trivia@) + field_comments(*sub) =~= start
                + field_comments(field));
        },
        AssignedField::SpaceAfter(sub, trivia) => {
            lemma_reread_field_line(*sub, indent, reader);
            let before = read(reader, field_line_text(*sub, indent));
            lemma_read_comments_text(before, trivia@, NewlineAt::Top, indent);
            assert(start + field_comments(*sub) + trivia_comments(trivia@) =~= start
                + field_comments(field));
        },
        AssignedField::Malformed(_) => {},
    }
}

proof fn lemma_reread_field_inline(field: AssignedField, indent: int, done: Seq<Seq<char>>)
    requires
        field_keeps(field),
        field_quiet(field),
    ensures
        read(closed(done), field_inline_text(field, indent)) == closed(
            done + field_comments(field),
        ),
    decreases field_depth(field), 0nat, 0nat,
{
    broadcast use group_reader;

    lemma_quiet_literals();
    match field {
        AssignedField::RequiredValue(_, trivia, value) => {
            lemma_read_spaces_text(done, trivia@, indent);
            let so_far = done + trivia_comments(trivia@);
            lemma_reread_expr(*value, Parens::NotNeeded, Newlines::Yes, indent, so_far);
            assert(so_far + expr_comments(*value) =~= done + field_comments(field));
        },
        AssignedField::OptionalValue(_, trivia, value) => {
            lemma_read_spaces_text(done, trivia@, indent);
            let so_far = done + trivia_comments(trivia@);
            lemma_reread_expr(*value, Parens::NotNeeded, Newlines::Yes, indent, so_far);
            assert(so_far + expr_comments(*value) =~= done + field_comments(field));
        },
        AssignedField::LabelOnly(_) => {
            assert(done + field_comments(field) =~= done);
        },
        AssignedField::SpaceBefore(sub, trivia) => {
            lemma_read_comments_text(closed(done), trivia@, NewlineAt::Bottom, indent);
            let so_far = done + trivia_comments(trivia@);
            lemma_reread_field_inline(*sub, indent, so_far);
            assert(so_far + field_comments(*sub) =~= done + field_comments(field));
        },
        AssignedField::SpaceAfter(sub, trivia) => {
            lemma_reread_field_inline(*sub, indent, done);
            let so_far = done + field_comments(*sub);
            lemma_read_comments_text(closed(so_far), trivia@, NewlineAt::Bottom, indent);
            assert(so_far + trivia_comments(trivia@) =~= done + field_comments(field));
        },
        AssignedField::Malformed(_) => {},
    }
}

proof fn lemma_reread_fields_lines(fields: Seq<AssignedField>, indent: int, reader: Reader)
    requires
        forall|i: int| 0 <= i < fields.len() ==> field_keeps(#[trigger] fields[i]),
        forall|i: int| 0 <= i < fields.len() ==> field_quiet(#[trigger] fields[i]),
    ensures
        all_read(read(reader, fields_lines_text(fields, indent))) == all_read(reader) + fields_comments(fields),
    decreases fields_depth(fields), 1nat, fields.len(),
{
    broadcast use group_reader;

    if fields.len() > 0 {
        let rest = fields.drop_last();
        assert forall|i: int| 0 <= i < rest.len() implies field_keeps(#[trigger] rest[i]) by {
            assert(rest[i] == fields[i]);
        }
        assert forall|i: int| 0 <= i < rest.len() implies field_quiet(#[trigger] rest[i]) by {
            assert(rest[i] == fields[i]);
        }
        assert(field_keeps(fields[fields.len() - 1]));
        assert(field_quiet(fields[fields.len() - 1]));
        lemma_reread_fields_lines(rest, indent, reader);
        let before = read(reader, fields_lines_text(rest, indent));
        lemma_reread_field_line(fields.last(), indent, before);
        assert(all_read(reader) + fields_comments(rest) + field_comments(fields.last()) =~= all_read(reader) + fields_comments(
            fields,
        ));
    } else {
        assert(all_read(reader) + fields_comments(fields) =~= all_read(reader));
    }
}

proof fn lemma_reread_fields_inline(fields: Seq<AssignedField>, indent: int, done: Seq<Seq<char>>)
    requires
        forall|i: int| 0 <= i < fields.len() ==> field_keeps(#[trigger] fields[i]),
        forall|i: int| 0 <= i < fields.len() ==> field_quiet(#[trigger] fields[i]),
    ensures
        read(closed(done), fields_inline_text(fields, indent)) == closed(done + fields_comments(fields)),
    decreases fields_depth(fields), 1nat, fields.len(),
{
    broadcast use group_reader;

    lemma_quiet_literals();
    if fields.len() > 0 {
        let rest = fields.drop_last();
        assert forall|i: int| 0 <= i < rest.len() implies field_keeps(#[trigger] rest[i]) by {
            assert(rest[i] == fields[i]);
        }
        assert forall|i: int| 0 <= i < rest.len() implies field_quiet(#[trigger] rest[i]) by {
            assert(rest[i] == fields[i]);
        }
        assert(field_keeps(fields[fields.len() - 1]));
        assert(field_quiet(fields[fields.len() - 1]));
        lemma_reread_fields_inline(rest, indent, done);
        let so_far = done + fields_comments(rest);
        lemma_reread_field_inline(fields.last(), indent, so_far);
        assert(so_far + field_comments(fields.last()) =~= done + fields_comments(fields));
    } else {
        assert(done + fields_comments(fields) =~= done);
    }
}

proof fn lemma_reread_record(
    update: Option<Expr>,
    fields: Seq<AssignedField>,
    final_comments: Seq<CommentOrNewline>,
    indent: int,
    done: Seq<Seq<char>>,
)
    requires
        match update {
            Some(base) => expr_keeps(base) && expr_quiet(base) && (fields.len() == 0
                && all_newlines(final_comments) ==> expr_comments(base).len() == 0),
            None => true,
        },
        comments_plain(final_comments),
        forall|i: int| 0 <= i < fields.len() ==> field_keeps(#[trigger] fields[i]),
        forall|i: int| 0 <= i < fields.len() ==> field_quiet(#[trigger] fields[i]),
    ensures
        read(closed(done), record_text(update, fields, final_comments, indent)) == closed(
            done + (option_comments(update) + fields_comments(fields) + trivia_comments(
                final_comments,
            )),
        ),
    decreases max(option_depth(update), fields_depth(fields)), 2nat, 0nat,
{
    broadcast use group_reader;

    lemma_quiet_literals();
    let marks = option_comments(update) + fields_comments(fields) + trivia_comments(
        final_comments,
    );
    if fields.len() == 0 && all_newlines(final_comments) {
        lemma_trivia_no_comments(final_comments);
        assert(done + marks =~= done);
    } else {
        let based = done + option_comments(update);
        let base_part = match update {
            Some(base) => seq![' '] + expr_text(base, Parens::NotNeeded, Newlines::Yes, indent)
                + " &"@,
            None => Seq::<char>::empty(),
        };
        match update {
            Some(base) => {
                lemma_reread_expr(base, Parens::NotNeeded, Newlines::Yes, indent, done);
            },
            None => {
                assert(based =~= done);
            },
        }
        assert(read(closed(done), seq!['{'] + base_part) == closed(based));
        let rest_part = if any_field_multiline(fields) || final_comments.len() > 0 {
            fields_lines_text(fields, indent + step()) + comments_text(
                final_comments,
                NewlineAt::Top,
                indent + step(),
            ) + line_break(indent)
        } else {
            seq![' '] + fields_inline_text(fields, indent) + seq![' ']
        };
        if any_field_multiline(fields) || final_comments.len() > 0 {
            let inner = indent + step();
            lemma_reread_fields_lines(fields, inner, closed(based));
            let first = read(closed(based), fields_lines_text(fields, inner));
            lemma_read_comments_text(first, final_comments, NewlineAt::Top, inner);
            let second = read(first, comments_text(final_comments, NewlineAt::Top, inner));
            lemma_read_line_break(second, indent);
            assert(all_read(second) =~= done + marks);
        } else {
            lemma_reread_fields_inline(fields, indent, based);
            assert(final_comments =~= Seq::empty());
            assert(trivia_comments(final_comments) =~= Seq::<Seq<char>>::empty());
            assert(based + fields_comments(fields) =~= done + marks);
        }
        assert(read(closed(based), rest_part) == closed(done + marks));
        assert(record_text(update, fields, final_comments, indent) =~= (seq!['{'] + base_part)
            + rest_part + seq!['}']);
    }
}

proof fn lemma_reread_closure(
    patterns: Seq<Pattern>,
    body: Expr,
    indent: int,
    done: Seq<Seq<char>>,
)
    requires
        expr_keeps(body),
        expr_quiet(body),
        forall|i: int| 0 <= i < patterns.len() ==> pattern_quiet(#[trigger] patterns[i]),
    ensures
        read(closed(done), closure_text(patterns, body, indent)) == closed(
            done + (patterns_comments(patterns) + expr_comments(body)),
        ),
    decreases expr_depth(body), 1nat, 0nat,
{
    broadcast use group_reader;
    broadcast use lemma_quiet_concat;

    lemma_quiet_literals();
    let spread = any_pattern_multiline(patterns);
    let pattern_indent = if spread {
        indent + step()
    } else {
        indent
    };
    let body_indent = if expr_multiline(body) {
        pattern_indent + step()
    } else {
        pattern_indent
    };
    let sep = if spread {
        seq![','] + line_break(pattern_indent)
    } else {
        ", "@
    };
    assert(quiet(seq![',']));
    lemma_reread_patterns_joined(patterns, sep, pattern_indent, done);
    let so_far = done + patterns_comments(patterns);
    lemma_reread_expr(body, Parens::NotNeeded, Newlines::Yes, body_indent, so_far);
    assert(so_far + expr_comments(body) =~= done + (patterns_comments(patterns) + expr_comments(
        body,
    )));
}

proof fn lemma_reread_def(def: Def, indent: int, done: Seq<Seq<char>>)
    requires
        def_keeps(def),
        def_quiet(def),
    ensures
        read(closed(done), def_text(def, indent)) == closed(done + def_comments(def)),
    decreases def_depth(def), 0nat, 0nat,
{
    broadcast use group_reader;

    lemma_quiet_literals();
    match def {
        Def::Body(pattern, body) => {
            lemma_reread_pattern(pattern, Parens::InApply, indent, done);
            let so_far = done + pattern_comments(pattern);
            lemma_reread_expr(*body, Parens::NotNeeded, Newlines::Yes, indent, so_far);
            assert(so_far + expr_comments(*body) =~= done + def_comments(def));
        },
        Def::SpaceBefore(sub, trivia) => {
            lemma_read_spaces_text(done, trivia@, indent);
            let so_far = done + trivia_comments(trivia@);
            lemma_reread_def(*sub, indent, so_far);
            assert(so_far + def_comments(*sub) =~= done + def_comments(def));
        },
        Def::SpaceAfter(sub, trivia) => {
            lemma_reread_def(*sub, indent, done);
            let so_far = done + def_comments(*sub);
            lemma_read_spaces_text(so_far, trivia@, indent);
            assert(so_far + trivia_comments(trivia@) =~= done + def_comments(def));
        },
        Def::Nested(sub) => {
            lemma_reread_def(*sub, indent, done);
        },
    }
}

proof fn lemma_reread_defs(defs: Seq<Def>, indent: int, done: Seq<Seq<char>>)
    requires
        forall|i: int| 0 <= i < defs.len() ==> def_keeps(#[trigger] defs[i]),
        forall|i: int| 0 <= i < defs.len() ==> def_quiet(#[trigger] defs[i]),
    ensures
        read(closed(done), defs_text(defs, indent)) == closed(done + defs_comments(defs)),
    decreases defs_depth(defs), 1nat, defs.len(),
{
    broadcast use group_reader;

    lemma_quiet_literals();
    if defs.len() > 0 {
        let rest = defs.drop_last();
        assert forall|i: int| 0 <= i < rest.len() implies def_keeps(#[trigger] rest[i]) by {
            assert(rest[i] == defs[i]);
        }
        assert forall|i: int| 0 <= i < rest.len() implies def_quiet(#[trigger] rest[i]) by {
            assert(rest[i] == defs[i]);
        }
        assert(def_keeps(defs[defs.len() - 1]));
        assert(def_quiet(defs[defs.len() - 1]));
        lemma_reread_defs(rest, indent, done);
        let so_far = done + defs_comments(rest);
        lemma_reread_def(defs.last(), indent, so_far);
        assert(so_far + def_comments(defs.last()) =~= done + defs_comments(defs));
    } else {
        assert(done + defs_comments(defs) =~= done);
    }
}

proof fn lemma_reread_let(defs: Seq<Def>, ret: Expr, indent: int, done: Seq<Seq<char>>)
    requires
        forall|i: int| 0 <= i < defs.len() ==> def_keeps(#[trigger] defs[i]),
        forall|i: int| 0 <= i < defs.len() ==> def_quiet(#[trigger] defs[i]),
        expr_keeps(ret),
        expr_quiet(ret),
    ensures
        read(closed(done), let_text(defs, ret, indent)) == closed(
            done + (defs_comments(defs) + expr_comments(ret)),
        ),
    decreases max(defs_depth(defs), expr_depth(ret)), 2nat, 0nat,
{
    broadcast use group_reader;

    lemma_reread_defs(defs, indent, done);
    let so_far = done + defs_comments(defs);
    lemma_reread_expr(ret, Parens::NotNeeded, Newlines::Yes, indent, so_far);
    assert(so_far + expr_comments(ret) =~= done + (defs_comments(defs) + expr_comments(ret)));
}

proof fn lemma_reread_if(
    cond: Expr,
    then_branch: Expr,
    else_branch: Expr,
    indent: int,
    done: Seq<Seq<char>>,
)
    requires
        expr_keeps(cond),
        expr_quiet(cond),
        expr_keeps(then_branch),
        expr_quiet(then_branch),
        expr_keeps(else_branch),
        expr_quiet(else_branch),
    ensures
        read(closed(done), if_text(cond, then_branch, else_branch, indent)) == closed(
            done + (expr_comments(cond) + expr_comments(then_branch) + expr_comments(
                else_branch,
            )),
        ),
    decreases max(expr_depth(cond), max(expr_depth(then_branch), expr_depth(else_branch))), 3nat,
        0nat,
{
    broadcast use group_reader;

    lemma_quiet_literals();
    let spread = expr_multiline(cond) || expr_multiline(then_branch) || expr_multiline(
        else_branch,
    );
    let inner = if spread {
        indent + step()
    } else {
        indent
    };
    let cond_part = if expr_multiline(cond) {
        isolated_text(cond, false, inner) + line_break(indent)
    } else {
        seq![' '] + expr_text(cond, Parens::NotNeeded, Newlines::Yes, indent) + seq![' ']
    };
    let then_part = if spread {
        isolated_text(then_branch, false, inner) + line_break(indent) + "else"@ + line_break(
            inner,
        )
    } else {
        seq![' '] + expr_text(then_branch, Parens::NotNeeded, Newlines::Yes, inner) + " else "@
    };
    let first = done + expr_comments(cond);
    if expr_multiline(cond) {
        lemma_reread_isolated(cond, false, inner, closed(done));
        lemma_read_line_break(read(closed(done), isolated_text(cond, false, inner)), indent);
    } else {
        lemma_reread_expr(cond, Parens::NotNeeded, Newlines::Yes, indent, done);
    }
    assert(read(closed(done), cond_part) == closed(first));
    let second = first + expr_comments(then_branch);
    if spread {
        lemma_reread_isolated(then_branch, false, inner, closed(first));
        lemma_read_line_break(
            read(closed(first), isolated_text(then_branch, false, inner)),
            indent,
        );
    } else {
        lemma_reread_expr(then_branch, Parens::NotNeeded, Newlines::Yes, inner, first);
    }
    assert(read(closed(first), then_part) == closed(second));
    lemma_reread_expr(else_branch, Parens::NotNeeded, Newlines::Yes, inner, second);
    assert(second + expr_comments(else_branch) =~= done + (expr_comments(cond) + expr_comments(
        then_branch,
    ) + expr_comments(else_branch)));
    assert(read(closed(done), "if"@ + cond_part + "then"@ + then_part) == closed(second));
}

proof fn lemma_reread_branch(branch: WhenBranch, indent: int, done: Seq<Seq<char>>)
    requires
        branch_keeps(branch),
        branch_quiet(branch),
    ensures
        read(closed(done), branch_text(branch, indent)) == closed(done + branch_comments(branch)),
    decreases branch_depth(branch), 0nat, 0nat,
{
    broadcast use group_reader;
    broadcast use lemma_quiet_concat;

    lemma_quiet_literals();
    let pattern_indent = indent + step();
    let body_indent = indent + 2 * step();
    let patterns = located_values(branch.patterns@);
    let sep = if alternatives_spread(branch.patterns@) {
        line_break(pattern_indent) + "| "@
    } else {
        " | "@
    };
    assert forall|i: int| 0 <= i < patterns.len() implies pattern_quiet(#[trigger] patterns[i]) by {
        assert(patterns[i] == branch.patterns@[i].value);
    }
    lemma_reread_patterns_joined(patterns, sep, pattern_indent, done);
    let first = done + patterns_comments(patterns);
    let heading = spaces(pattern_indent) + patterns_joined(patterns, sep, pattern_indent);
    assert(read(closed(done), heading) == closed(first));
    let guard_marks = match branch.guard {
        Some(guard) => expr_comments(guard),
        None => Seq::empty(),
    };
    let guard_part = match branch.guard {
        Some(guard) => " if "@ + expr_text(
            guard,
            Parens::NotNeeded,
            Newlines::Yes,
            pattern_indent,
        ),
        None => Seq::empty(),
    };
    let second = first + guard_marks;
    match branch.guard {
        Some(guard) => {
            lemma_reread_expr(guard, Parens::NotNeeded, Newlines::Yes, pattern_indent, first);
        },
        None => {
            assert(second =~= first);
        },
    }
    assert(read(closed(first), guard_part) == closed(second));
    let body_part = match branch.value {
        Expr::SpaceBefore(sub, trivia) => comments_text(trivia@, NewlineAt::Bottom, body_indent)
            + expr_text(*sub, Parens::NotNeeded, Newlines::Yes, body_indent),
        _ => expr_text(branch.value, Parens::NotNeeded, Newlines::Yes, body_indent),
    };
    match branch.value {
        Expr::SpaceBefore(sub, trivia) => {
            lemma_read_comments_text(closed(second), trivia@, NewlineAt::Bottom, body_indent);
            let third = second + trivia_comments(trivia@);
            lemma_reread_expr(*sub, Parens::NotNeeded, Newlines::Yes, body_indent, third);
            assert(third + expr_comments(*sub) =~= second + expr_comments(branch.value));
        },
        _ => {
            lemma_reread_expr(
                branch.value,
                Parens::NotNeeded,
                Newlines::Yes,
                body_indent,
                second,
            );
        },
    }
    assert(read(closed(second), body_part) == closed(second + expr_comments(branch.value)));
    assert(second + expr_comments(branch.value) =~= done + branch_comments(branch));
    assert(branch_text(branch, indent) == heading + guard_part + " ->\n"@ + spaces(body_indent)
        + body_part);
    assert(read(closed(done), heading + guard_part + " ->\n"@ + spaces(body_indent)) == closed(
        second,
    ));
}

proof fn lemma_reread_branches(branches: Seq<WhenBranch>, indent: int, done: Seq<Seq<char>>)
    requires
        forall|i: int| 0 <= i < branches.len() ==> branch_keeps(#[trigger] branches[i]),
        forall|i: int| 0 <= i < branches.len() ==> branch_quiet(#[trigger] branches[i]),
    ensures
        read(closed(done), branches_text(branches, indent)) == closed(done + branches_comments(branches)),
    decreases branches_depth(branches), 1nat, branches.len(),
{
    broadcast use group_reader;

    lemma_quiet_literals();
    if branches.len() > 0 {
        let rest = branches.drop_last();
        assert forall|i: int| 0 <= i < rest.len() implies branch_keeps(#[trigger] rest[i]) by {
            assert(rest[i] == branches[i]);
        }
        assert forall|i: int| 0 <= i < rest.len() implies branch_quiet(#[trigger] rest[i]) by {
            assert(rest[i] == branches[i]);
        }
        assert(branch_keeps(branches[branches.len() - 1]));
        assert(branch_quiet(branches[branches.len() - 1]));
        lemma_reread_branches(rest, indent, done);
        let so_far = done + branches_comments(rest);
        assert(quiet(seq!['\n', '\n']));
        lemma_reread_branch(branches.last(), indent, so_far);
        assert(so_far + branch_comments(branches.last()) =~= done + branches_comments(branches));
    } else {
        assert(done + branches_comments(branches) =~= done);
    }
}

proof fn lemma_reread_when(
    cond: Expr,
    branches: Seq<WhenBranch>,
    indent: int,
    done: Seq<Seq<char>>,
)
    requires
        expr_keeps(cond),
        expr_quiet(cond),
        forall|i: int| 0 <= i < branches.len() ==> branch_keeps(#[trigger] branches[i]),
        forall|i: int| 0 <= i < branches.len() ==> branch_quiet(#[trigger] branches[i]),
    ensures
        read(closed(done), when_text(cond, branches, indent)) == closed(
            done + (expr_comments(cond) + branches_comments(branches)),
        ),
    decreases max(expr_depth(cond), branches_depth(branches)), 3nat, 0nat,
{
    broadcast use group_reader;

    lemma_quiet_literals();
    let cond_part = if expr_multiline(cond) {
        isolated_text(cond, false, indent + step()) + line_break(indent)
    } else {
        seq![' '] + expr_text(cond, Parens::NotNeeded, Newlines::Yes, indent) + seq![' ']
    };
    let first = done + expr_comments(cond);
    if expr_multiline(cond) {
        lemma_reread_isolated(cond, false, indent + step(), closed(done));
        lemma_read_line_break(
            read(closed(done), isolated_text(cond, false, indent + step())),
            indent,
        );
    } else {
        lemma_reread_expr(cond, Parens::NotNeeded, Newlines::Yes, indent, done);
    }
    assert(read(closed(done), cond_part) == closed(first));
    lemma_reread_branches(branches, indent, first);
    assert(first + branches_comments(branches) =~= done + (expr_comments(cond)
        + branches_comments(branches)));
    assert(read(closed(done), "when"@ + cond_part + "is\n"@) == closed(first));
}

proof fn lemma_reread_bin_op(
    left: Expr,
    op: BinOp,
    right: Expr,
    in_spread_chain: bool,
    parens: Parens,
    indent: int,
    done: Seq<Seq<char>>,
)
    requires
        expr_keeps(left),
        expr_quiet(left),
        expr_keeps(right),
        expr_quiet(right),
    ensures
        read(closed(done), bin_op_text(left, op, right, in_spread_chain, parens, indent))
            == closed(done + (expr_comments(left) + expr_comments(right))),
    decreases max(expr_depth(left), expr_depth(right)), 1nat, 0nat,
{
    broadcast use group_reader;

    lemma_quiet_literals();
    lemma_quiet_token(op);
    let spread = expr_multiline(right) || expr_multiline(left) || in_spread_chain;
    lemma_reread_expr(left, parens, Newlines::No, indent, done);
    let first = done + expr_comments(left);
    match right {
        Expr::BinOp(next_left, next_op, next_right) => {
            lemma_reread_bin_op(*next_left, next_op, *next_right, spread, parens, indent, first);
        },
        _ => {
            lemma_reread_expr(right, parens, Newlines::Yes, indent, first);
        },
    }
    let gap = if spread {
        line_break(indent + step())
    } else {
        seq![' ']
    };
    assert(read(
        closed(done),
        expr_text(left, parens, Newlines::No, indent) + gap + bin_op_token(op) + seq![' '],
    ) == closed(first));
    assert(first + expr_comments(right) =~= done + (expr_comments(left) + expr_comments(right)));
}

/// The comments of rendered text are the comments of the tree: what a reader
/// collects from the text — every stretch from a `#` to the end of its line
/// — is what the tree holds, comment for comment and in the same order,
/// provided that the formatter renders the tree in full and that no `#`
/// stands in the tree but at the start of its comments.
pub proof fn lemma_comments_read_back(e: Expr, parens: Parens, newlines: Newlines, indent: int)
    requires
        expr_keeps(e),
        expr_quiet(e),
    ensures
        comments_in(expr_text(e, parens, newlines, indent)) == expr_comments(e),
{
    lemma_reread_expr(e, parens, newlines, indent, Seq::empty());
    assert(Seq::<Seq<char>>::empty() + expr_comments(e) =~= expr_comments(e));
}

} // verus!
