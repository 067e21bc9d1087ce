//! Patterns: when one forces a multi-line layout, and how one is rendered.

use vstd::prelude::*;
use crate::annotation::Parens;
use crate::ast::{Located, Pattern};
use crate::buffer::{push_char, push_text, text_of};
use crate::spaces::{comments_text, fmt_comments_only, NewlineAt};

verus! {

/// Whether a pattern forces the node that holds it onto several lines.
pub open spec fn pattern_multiline(p: Pattern) -> bool
    decreases p,
{
    match p {
        Pattern::SpaceBefore(_, _) => true,
        Pattern::SpaceAfter(_, _) => true,
        Pattern::Nested(sub) => pattern_multiline(*sub),
        Pattern::Apply(head, args) => pattern_multiline(*head) || any_pattern_multiline(args@),
        Pattern::RecordDestructure(fields) => any_pattern_multiline(fields@),
        _ => false,
    }
}

/// Whether some pattern of the sequence is multi-line.
pub open spec fn any_pattern_multiline(ps: Seq<Pattern>) -> bool
    decreases ps,
{
    if ps.len() == 0 {
        false
    } else {
        any_pattern_multiline(ps.drop_last()) || pattern_multiline(ps.last())
    }
}

/// The text of a pattern.
pub open spec fn pattern_text(p: Pattern, parens: Parens, indent: int) -> Seq<char>
    decreases p,
{
    match p {
        Pattern::Identifier(name) => name@,
        Pattern::GlobalTag(name) => name@,
        Pattern::PrivateTag(name) => name@,
        Pattern::NumLiteral(digits) => digits@,
        Pattern::Malformed(raw) => raw@,
        Pattern::StrLiteral(text) => seq!['"'] + text@ + seq!['"'],
        Pattern::Underscore => seq!['_'],
        Pattern::Apply(head, args) => {
            let wrap = args@.len() > 0 && parens is InApply;
            (if wrap { seq!['('] } else { Seq::empty() })
                + pattern_text(*head, Parens::InApply, indent)
                + pattern_args_text(args@, indent)
                + (if wrap { seq![')'] } else { Seq::empty() })
        },
        Pattern::RecordDestructure(fields) => {
            "{ "@ + patterns_joined(fields@, ", "@, indent) + " }"@
        },
        Pattern::SpaceBefore(sub, trivia) => {
            comments_text(trivia@, NewlineAt::Bottom, indent) + pattern_text(*sub, parens, indent)
        },
        Pattern::SpaceAfter(sub, trivia) => {
            pattern_text(*sub, parens, indent) + comments_text(trivia@, NewlineAt::Bottom, indent)
        },
        Pattern::Nested(sub) => pattern_text(*sub, parens, indent),
    }
}

/// The arguments of an applied pattern, each after one space.
pub open spec fn pattern_args_text(args: Seq<Pattern>, indent: int) -> Seq<char>
    decreases args,
{
    if args.len() == 0 {
        Seq::empty()
    } else {
        pattern_args_text(args.drop_last(), indent) + seq![' '] + pattern_text(
            args.last(),
            Parens::InApply,
            indent,
        )
    }
}

/// The patterns of a sequence with `sep` between neighbours.
pub open spec fn patterns_joined(ps: Seq<Pattern>, sep: Seq<char>, indent: int) -> Seq<char>
    decreases ps,
{
    if ps.len() == 0 {
        Seq::empty()
    } else {
        patterns_joined(ps.drop_last(), sep, indent) + (if ps.len() > 1 {
            sep
        } else {
            Seq::empty()
        }) + pattern_text(ps.last(), Parens::NotNeeded, indent)
    }
}

/// The patterns that a sequence of located patterns holds.
pub open spec fn located_values(ps: Seq<Located<Pattern>>) -> Seq<Pattern> {
    ps.map_values(|l: Located<Pattern>| l.value)
}

impl Pattern {
    /// Whether this pattern forces a multi-line layout.
    pub fn is_multiline(&self) -> (r: bool)
        ensures
            r == pattern_multiline(*self),
        decreases *self,
    {
        match self {
            Pattern::SpaceBefore(_, _) => true,
            Pattern::SpaceAfter(_, _) => true,
            Pattern::Nested(sub) => sub.is_multiline(),
            Pattern::Apply(head, args) => {
                if head.is_multiline() {
                    true
                } else {
                    any_multiline(args)
                }
            },
            Pattern::RecordDestructure(fields) => any_multiline(fields),
            _ => false,
        }
    }
}

/// Whether some pattern of the slice is multi-line.
pub fn any_multiline(ps: &Vec<Pattern>) -> (r: bool)
    ensures
        r == any_pattern_multiline(ps@),
    decreases *ps,
{
    let n = ps.len();
    let mut i: usize = 0;
    assert(ps@.take(0) =~= Seq::empty());
    while i < n
        invariant
            n == ps@.len(),
            i <= n,
            !any_pattern_multiline(ps@.take(i as int)),
        decreases n - i,
    {
        assert(ps@.take(i + 1).drop_last() =~= ps@.take(i as int));
        if ps[i].is_multiline() {
            proof {
                lemma_any_pattern_multiline_prefix(ps@, i + 1);
            }
            return true;
        }
        i = i + 1;
    }
    assert(ps@.take(n as int) =~= ps@);
    false
}

/// A multi-line pattern in a prefix is a multi-line pattern in the whole.
pub proof fn lemma_any_pattern_multiline_prefix(ps: Seq<Pattern>, k: int)
    requires
        0 <= k <= ps.len(),
        any_pattern_multiline(ps.take(k)),
    ensures
        any_pattern_multiline(ps),
    decreases ps.len() - k,
{
    if k < ps.len() {
        assert(ps.take(k + 1).drop_last() =~= ps.take(k));
        lemma_any_pattern_multiline_prefix(ps, k + 1);
    } else {
        assert(ps.take(k) =~= ps);
    }
}

/// Renders a pattern.
pub fn fmt_pattern(
    buf: &mut bumpalo::collections::String,
    pattern: &Pattern,
    indent: u16,
    parens: Parens,
)
    ensures
        text_of(final(buf)) == text_of(old(buf)) + pattern_text(*pattern, parens, indent as int),
    decreases *pattern,
{
    match pattern {
        Pattern::Identifier(name) => push_text(buf, name.as_str()),
        Pattern::GlobalTag(name) => push_text(buf, name.as_str()),
        Pattern::PrivateTag(name) => push_text(buf, name.as_str()),
        Pattern::NumLiteral(digits) => push_text(buf, digits.as_str()),
        Pattern::Malformed(raw) => push_text(buf, raw.as_str()),
        Pattern::StrLiteral(text) => {
            push_char(buf, '"');
            push_text(buf, text.as_str());
            push_char(buf, '"');
        },
        Pattern::Underscore => push_char(buf, '_'),
        Pattern::Apply(head, args) => {
            let wrap = args.len() > 0 && parens == Parens::InApply;
            if wrap {
                push_char(buf, '(');
            }
            fmt_pattern(buf, head, indent, Parens::InApply);
            fmt_pattern_args(buf, args, indent);
            if wrap {
                push_char(buf, ')');
            }
        },
        Pattern::RecordDestructure(fields) => {
            push_text(buf, "{ ");
            fmt_patterns_joined(buf, fields, ", ", indent);
            push_text(buf, " }");
        },
        Pattern::SpaceBefore(sub, trivia) => {
            fmt_comments_only(buf, trivia, NewlineAt::Bottom, indent);
            fmt_pattern(buf, sub, indent, parens);
        },
        Pattern::SpaceAfter(sub, trivia) => {
            fmt_pattern(buf, sub, indent, parens);
            fmt_comments_only(buf, trivia, NewlineAt::Bottom, indent);
        },
        Pattern::Nested(sub) => fmt_pattern(buf, sub, indent, parens),
    }
    assert(text_of(buf) =~= text_of(old(buf)) + pattern_text(*pattern, parens, indent as int));
}

/// Renders the arguments of an applied pattern, each after one space.
fn fmt_pattern_args(buf: &mut bumpalo::collections::String, args: &Vec<Pattern>, indent: u16)
    ensures
        text_of(final(buf)) == text_of(old(buf)) + pattern_args_text(args@, indent as int),
    decreases *args,
{
    let n = args.len();
    let mut i: usize = 0;
    assert(args@.take(0) =~= Seq::empty());
    assert(text_of(buf) =~= text_of(old(buf)) + pattern_args_text(args@.take(0), indent as int));
    while i < n
        invariant
            n == args@.len(),
            i <= n,
            text_of(buf) == text_of(old(buf)) + pattern_args_text(
                args@.take(i as int),
                indent as int,
            ),
        decreases n - i,
    {
        assert(args@.take(i + 1).drop_last() =~= args@.take(i as int));
        push_char(buf, ' ');
        fmt_pattern(buf, &args[i], indent, Parens::InApply);
        i = i + 1;
        assert(text_of(buf) =~= text_of(old(buf)) + pattern_args_text(
            args@.take(i as int),
            indent as int,
        ));
    }
    assert(args@.take(n as int) =~= args@);
}

/// Renders the patterns of a slice with `sep` between neighbours.
pub fn fmt_patterns_joined(
    buf: &mut bumpalo::collections::String,
    ps: &Vec<Pattern>,
    sep: &str,
    indent: u16,
)
    ensures
        text_of(final(buf)) == text_of(old(buf)) + patterns_joined(ps@, sep@, indent as int),
    decreases *ps,
{
    let n = ps.len();
    let mut i: usize = 0;
    assert(ps@.take(0) =~= Seq::empty());
    assert(text_of(buf) =~= text_of(old(buf)) + patterns_joined(ps@.take(0), sep@, indent as int));
    while i < n
        invariant
            n == ps@.len(),
            i <= n,
            text_of(buf) == text_of(old(buf)) + patterns_joined(
                ps@.take(i as int),
                sep@,
                indent as int,
            ),
        decreases n - i,
    {
        assert(ps@.take(i + 1).drop_last() =~= ps@.take(i as int));
        if i > 0 {
            push_text(buf, sep);
        }
        fmt_pattern(buf, &ps[i], indent, Parens::NotNeeded);
        i = i + 1;
        assert(text_of(buf) =~= text_of(old(buf)) + patterns_joined(
            ps@.take(i as int),
            sep@,
            indent as int,
        ));
    }
    assert(ps@.take(n as int) =~= ps@);
}

} // verus!
