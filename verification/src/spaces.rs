//! Whitespace and trivia: indentation, line breaks, and the two ways of
//! rendering a run of comments and blank lines.

use vstd::prelude::*;
use crate::ast::CommentOrNewline;
use crate::buffer::{push_char, push_text, text_of};

verus! {

/// The number of spaces in one indentation step.
pub const INDENT: u16 = 4;

/// Where `fmt_comments_only` adds line breaks around the comments it finds.
#[derive(Debug, Clone, Copy, PartialEq, Eq, Structural)]
pub enum NewlineAt {
    Top,
    Bottom,
    Both,
    Neither,
}

/// A run of `n` spaces.
pub open spec fn spaces(n: int) -> Seq<char> {
    Seq::new(if n >= 0 { n as nat } else { 0 }, |i: int| ' ')
}

/// A line break followed by `indent` spaces.
pub open spec fn line_break(indent: int) -> Seq<char> {
    seq!['\n'] + spaces(indent)
}

pub open spec fn is_comment(item: CommentOrNewline) -> bool {
    !(item is Newline)
}

/// Whether a run of trivia holds at least one comment.
pub open spec fn has_comment(items: Seq<CommentOrNewline>) -> bool {
    exists|i: int| 0 <= i < items.len() && is_comment(#[trigger] items[i])
}

/// Whether a run of trivia consists of blank lines only.
pub open spec fn all_newlines(items: Seq<CommentOrNewline>) -> bool {
    !has_comment(items)
}

/// A comment with its marker: `#` for a line comment, `##` for a doc
/// comment. A blank line has no text.
pub open spec fn comment_text(item: CommentOrNewline) -> Seq<char> {
    match item {
        CommentOrNewline::Newline => Seq::empty(),
        CommentOrNewline::LineComment(text) => seq!['#'] + text@,
        CommentOrNewline::DocComment(text) => seq!['#', '#'] + text@,
    }
}

/// The number of blank-line items that stand before the first comment.
pub open spec fn leading_newlines(items: Seq<CommentOrNewline>) -> nat
    decreases items.len(),
{
    if items.len() == 0 || is_comment(items.first()) {
        0
    } else {
        1 + leading_newlines(items.drop_first())
    }
}

/// What a run of `count` blank-line items contributes: nothing, a line
/// break, or one empty line and a line break. Longer runs collapse.
pub open spec fn blank_lines(count: nat, indent: int) -> Seq<char> {
    if count == 0 {
        Seq::empty()
    } else if count == 1 {
        line_break(indent)
    } else {
        seq!['\n'] + line_break(indent)
    }
}

/// Every comment of the run, each followed by a line break.
pub open spec fn comment_lines(items: Seq<CommentOrNewline>, indent: int) -> Seq<char>
    decreases items.len(),
{
    if items.len() == 0 {
        Seq::empty()
    } else if is_comment(items.last()) {
        comment_lines(items.drop_last(), indent) + comment_text(items.last()) + line_break(indent)
    } else {
        comment_lines(items.drop_last(), indent)
    }
}

/// A run of trivia rendered with its blank lines: the blank lines that lead
/// the run, collapsed to at most one empty line, then every comment on a line
/// of its own. Blank lines after the first comment are dropped.
pub open spec fn spaces_text(items: Seq<CommentOrNewline>, indent: int) -> Seq<char> {
    blank_lines(leading_newlines(items), indent) + comment_lines(items, indent)
}

/// Every comment of the run, separated by line breaks; with `lead`, the
/// first comment is preceded by a line break as well.
pub open spec fn comments_joined(items: Seq<CommentOrNewline>, lead: bool, indent: int) -> Seq<
    char,
>
    decreases items.len(),
{
    if items.len() == 0 {
        Seq::empty()
    } else if is_comment(items.last()) {
        comments_joined(items.drop_last(), lead, indent) + (if lead || has_comment(
            items.drop_last(),
        ) {
            line_break(indent)
        } else {
            Seq::empty()
        }) + comment_text(items.last())
    } else {
        comments_joined(items.drop_last(), lead, indent)
    }
}

/// A run of trivia rendered without its blank lines. Nothing is produced
/// unless the run holds a comment.
pub open spec fn comments_text(items: Seq<CommentOrNewline>, at: NewlineAt, indent: int) -> Seq<
    char,
> {
    comments_joined(items, at is Top || at is Both, indent) + (if has_comment(items) && (at is Bottom
        || at is Both) {
        line_break(indent)
    } else {
        Seq::empty()
    })
}

/// Appends `count` spaces.
pub fn add_spaces(buf: &mut bumpalo::collections::String, count: u16)
    ensures
        text_of(final(buf)) == text_of(old(buf)) + spaces(count as int),
{
    let mut i: u16 = 0;
    assert(text_of(buf) =~= text_of(old(buf)) + spaces(0));
    while i < count
        invariant
            i <= count,
            text_of(buf) == text_of(old(buf)) + spaces(i as int),
        decreases count - i,
    {
        push_char(buf, ' ');
        i = i + 1;
        assert(text_of(buf) =~= text_of(old(buf)) + spaces(i as int));
    }
}

/// Starts a new line at the given indentation.
pub fn newline(buf: &mut bumpalo::collections::String, indent: u16)
    ensures
        text_of(final(buf)) == text_of(old(buf)) + line_break(indent as int),
{
    push_char(buf, '\n');
    add_spaces(buf, indent);
    assert(text_of(buf) =~= text_of(old(buf)) + line_break(indent as int));
}

fn is_newline(item: &CommentOrNewline) -> (r: bool)
    ensures
        r == !is_comment(*item),
{
    match item {
        CommentOrNewline::Newline => true,
        _ => false,
    }
}

/// Appends a comment with its marker; a blank line appends nothing.
fn fmt_comment(buf: &mut bumpalo::collections::String, item: &CommentOrNewline)
    ensures
        text_of(final(buf)) == text_of(old(buf)) + comment_text(*item),
{
    match item {
        CommentOrNewline::Newline => {
            assert(text_of(buf) =~= text_of(old(buf)) + comment_text(*item));
        },
        CommentOrNewline::LineComment(text) => {
            push_char(buf, '#');
            push_text(buf, text.as_str());
            assert(text_of(buf) =~= text_of(old(buf)) + comment_text(*item));
        },
        CommentOrNewline::DocComment(text) => {
            push_text(buf, "##");
            push_text(buf, text.as_str());
            proof {
                reveal_strlit("##");
            }
            assert("##"@ =~= seq!['#', '#']);
            assert(text_of(buf) =~= text_of(old(buf)) + comment_text(*item));
        },
    }
}

/// If the first `k` items are blank lines and the run ends there or goes on
/// with a comment, then `k` is the number of leading blank lines.
proof fn lemma_leading_newlines(items: Seq<CommentOrNewline>, k: int)
    requires
        0 <= k <= items.len(),
        forall|j: int| 0 <= j < k ==> !is_comment(#[trigger] items[j]),
        k == items.len() || is_comment(items[k]),
    ensures
        leading_newlines(items) == k,
    decreases k,
{
    if k > 0 {
        let rest = items.drop_first();
        assert forall|j: int| 0 <= j < k - 1 implies !is_comment(#[trigger] rest[j]) by {
            assert(rest[j] == items[j + 1]);
        }
        if k < items.len() {
            assert(rest[k - 1] == items[k]);
        }
        lemma_leading_newlines(rest, k - 1);
    }
}

/// A prefix that has a comment keeps it when one more item is taken.
pub proof fn lemma_has_comment_step(items: Seq<CommentOrNewline>, i: int)
    requires
        0 <= i < items.len(),
    ensures
        items.take(i + 1).drop_last() == items.take(i),
        items.take(i + 1).last() == items[i],
        has_comment(items.take(i + 1)) == (has_comment(items.take(i)) || is_comment(items[i])),
{
    let a = items.take(i);
    let b = items.take(i + 1);
    assert(b.drop_last() =~= a);
    if has_comment(a) {
        let j = choose|j: int| 0 <= j < a.len() && is_comment(#[trigger] a[j]);
        assert(b[j] == a[j]);
    }
    if is_comment(items[i]) {
        assert(b[i] == items[i]);
    }
    if has_comment(b) {
        let j = choose|j: int| 0 <= j < b.len() && is_comment(#[trigger] b[j]);
        if j < i {
            assert(a[j] == b[j]);
        }
    }
}

/// Renders a run of trivia, blank lines included.
pub fn fmt_spaces(buf: &mut bumpalo::collections::String, items: &Vec<CommentOrNewline>, indent: u16)
    ensures
        text_of(final(buf)) == text_of(old(buf)) + spaces_text(items@, indent as int),
{
    let n = items.len();
    let mut k: usize = 0;
    while k < n && is_newline(&items[k])
        invariant
            n == items@.len(),
            k <= n,
            forall|j: int| 0 <= j < k ==> !is_comment(#[trigger] items@[j]),
        decreases n - k,
    {
        k = k + 1;
    }
    proof {
        lemma_leading_newlines(items@, k as int);
    }
    if k == 1 {
        newline(buf, indent);
    } else if k >= 2 {
        push_char(buf, '\n');
        newline(buf, indent);
    }
    assert(text_of(buf) =~= text_of(old(buf)) + blank_lines(k as nat, indent as int));
    let ghost lead = text_of(buf);
    let mut i: usize = 0;
    assert(items@.take(0) =~= Seq::empty());
    assert(text_of(buf) =~= lead + comment_lines(items@.take(0), indent as int));
    while i < n
        invariant
            n == items@.len(),
            i <= n,
            text_of(buf) == lead + comment_lines(items@.take(i as int), indent as int),
        decreases n - i,
    {
        proof {
            lemma_has_comment_step(items@, i as int);
        }
        if !is_newline(&items[i]) {
            fmt_comment(buf, &items[i]);
            newline(buf, indent);
        }
        i = i + 1;
        assert(text_of(buf) =~= lead + comment_lines(items@.take(i as int), indent as int));
    }
    assert(items@.take(n as int) =~= items@);
    assert(text_of(buf) =~= text_of(old(buf)) + spaces_text(items@, indent as int));
}

/// Renders the comments of a run of trivia and drops its blank lines.
pub fn fmt_comments_only(
    buf: &mut bumpalo::collections::String,
    items: &Vec<CommentOrNewline>,
    new_line_at: NewlineAt,
    indent: u16,
)
    ensures
        text_of(final(buf)) == text_of(old(buf)) + comments_text(
            items@,
            new_line_at,
            indent as int,
        ),
{
    let lead = match new_line_at {
        NewlineAt::Top => true,
        NewlineAt::Both => true,
        _ => false,
    };
    let trail = match new_line_at {
        NewlineAt::Bottom => true,
        NewlineAt::Both => true,
        _ => false,
    };
    let n = items.len();
    let mut comment_seen = false;
    let mut i: usize = 0;
    assert(items@.take(0) =~= Seq::empty());
    assert(text_of(buf) =~= text_of(old(buf)) + comments_joined(items@.take(0), lead, indent as int));
    while i < n
        invariant
            n == items@.len(),
            i <= n,
            comment_seen == has_comment(items@.take(i as int)),
            text_of(buf) == text_of(old(buf)) + comments_joined(
                items@.take(i as int),
                lead,
                indent as int,
            ),
        decreases n - i,
    {
        proof {
            lemma_has_comment_step(items@, i as int);
        }
        if !is_newline(&items[i]) {
            if comment_seen || lead {
                newline(buf, indent);
            }
            fmt_comment(buf, &items[i]);
            comment_seen = true;
        }
        i = i + 1;
        assert(text_of(buf) =~= text_of(old(buf)) + comments_joined(
            items@.take(i as int),
            lead,
            indent as int,
        ));
    }
    assert(items@.take(n as int) =~= items@);
    if comment_seen && trail {
        newline(buf, indent);
    }
    assert(text_of(buf) =~= text_of(old(buf)) + comments_text(items@, new_line_at, indent as int));
}

} // verus!
