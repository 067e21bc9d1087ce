//! Reading the comments back out of rendered text.
//!
//! A comment runs from a `#` to the end of its line. A reader that goes over
//! a text collects the comments it meets; what it collects from the text of
//! a tree is what the tree holds, comment for comment, provided that no `#`
//! stands where it does not start a comment.

use vstd::prelude::*;
use crate::ast::CommentOrNewline;
use crate::comments::{lemma_trivia_no_comments, trivia_comments};
use crate::lines::has_line_feed;
use crate::spaces::{
    blank_lines, comment_lines, comment_text, comments_joined, comments_text, has_comment,
    is_comment, leading_newlines, line_break, spaces, spaces_text, NewlineAt,
};

verus! {

/// What a reader has met: the comments that have ended, and the comment it
/// stands in.
#[verifier::ext_equal]
pub struct Reader {
    pub done: Seq<Seq<char>>,
    pub open: Option<Seq<char>>,
}

/// A reader that stands in no comment.
pub open spec fn closed(done: Seq<Seq<char>>) -> Reader {
    Reader { done, open: None }
}

/// A reader that stands in a comment.
pub open spec fn opened(done: Seq<Seq<char>>, current: Seq<char>) -> Reader {
    Reader { done, open: Some(current) }
}

/// Every comment the reader has met, the one it stands in included.
pub open spec fn all_read(reader: Reader) -> Seq<Seq<char>> {
    match reader.open {
        Some(current) => reader.done.push(current),
        None => reader.done,
    }
}

/// The reader after one more character: a `#` outside a comment starts one,
/// a line feed ends the comment it stands in.
pub open spec fn read_char(reader: Reader, c: char) -> Reader {
    match reader.open {
        Some(current) => if c == '\n' {
            closed(reader.done.push(current))
        } else {
            opened(reader.done, current.push(c))
        },
        None => if c == '#' {
            opened(reader.done, Seq::empty().push('#'))
        } else {
            reader
        },
    }
}

/// The reader after a text.
pub open spec fn read(reader: Reader, s: Seq<char>) -> Reader
    decreases s.len(),
{
    if s.len() == 0 {
        reader
    } else {
        read_char(read(reader, s.drop_last()), s.last())
    }
}

/// The comments of a text, each from its `#` to the end of its line.
pub open spec fn comments_in(s: Seq<char>) -> Seq<Seq<char>> {
    all_read(read(closed(Seq::empty()), s))
}

/// Whether a text holds no `#`.
pub open spec fn quiet(t: Seq<char>) -> bool {
    !t.contains('#')
}

pub broadcast proof fn lemma_read_concat(reader: Reader, a: Seq<char>, b: Seq<char>)
    ensures
        #[trigger] read(reader, a + b) == read(read(reader, a), b),
    decreases b.len(),
{
    if b.len() == 0 {
        assert(a + b =~= a);
    } else {
        assert((a + b).drop_last() =~= a + b.drop_last());
        lemma_read_concat(reader, a, b.drop_last());
    }
}

pub broadcast proof fn lemma_read_push(reader: Reader, a: Seq<char>, c: char)
    ensures
        #[trigger] read(reader, a.push(c)) == read_char(read(reader, a), c),
{
    assert(a.push(c).drop_last() =~= a);
}

pub broadcast proof fn lemma_read_nothing(reader: Reader)
    ensures
        #[trigger] read(reader, Seq::<char>::empty()) == reader,
{
}

/// Outside a comment, a text without a `#` leaves the reader as it is.
pub broadcast proof fn lemma_read_quiet(done: Seq<Seq<char>>, t: Seq<char>)
    requires
        quiet(t),
    ensures
        #[trigger] read(closed(done), t) == closed(done),
    decreases t.len(),
{
    if t.len() > 0 {
        let rest = t.drop_last();
        assert forall|i: int| 0 <= i < rest.len() implies rest[i] != '#' by {
            assert(rest[i] == t[i]);
        }
        assert(t[t.len() - 1] != '#');
        lemma_read_quiet(done, rest);
    }
}

/// Inside a comment, a text without a line feed is part of the comment.
pub proof fn lemma_read_on(done: Seq<Seq<char>>, current: Seq<char>, t: Seq<char>)
    requires
        !has_line_feed(t),
    ensures
        read(opened(done, current), t) == opened(done, current + t),
    decreases t.len(),
{
    if t.len() > 0 {
        let rest = t.drop_last();
        assert forall|i: int| 0 <= i < rest.len() implies rest[i] != '\n' by {
            assert(rest[i] == t[i]);
        }
        assert(t[t.len() - 1] != '\n');
        lemma_read_on(done, current, rest);
        assert((current + rest).push(t.last()) =~= current + t);
    } else {
        assert(current + t =~= current);
    }
}

pub broadcast proof fn lemma_read_spaces(reader: Reader, n: int)
    ensures
        #[trigger] read(reader, spaces(n)) == match reader.open {
            Some(current) => opened(reader.done, current + spaces(n)),
            None => reader,
        },
{
    match reader.open {
        Some(current) => {
            lemma_read_on(reader.done, current, spaces(n));
        },
        None => {
            lemma_read_quiet(reader.done, spaces(n));
        },
    }
}

/// A line break ends the comment the reader stands in, if it stands in one.
pub broadcast proof fn lemma_read_line_break(reader: Reader, n: int)
    ensures
        #[trigger] read(reader, line_break(n)) == closed(all_read(reader)),
{
    lemma_read_concat(reader, seq!['\n'], spaces(n));
    lemma_read_push(reader, Seq::empty(), '\n');
    lemma_read_quiet(all_read(reader), spaces(n));
}

pub broadcast group group_reader {
    lemma_read_concat,
    lemma_read_push,
    lemma_read_nothing,
    lemma_read_quiet,
    lemma_read_spaces,
    lemma_read_line_break,
}

/// Whether a comment stays on its line.
pub open spec fn comment_plain(item: CommentOrNewline) -> bool {
    match item {
        CommentOrNewline::Newline => true,
        CommentOrNewline::LineComment(text) => !has_line_feed(text@),
        CommentOrNewline::DocComment(text) => !has_line_feed(text@),
    }
}

pub open spec fn comments_plain(items: Seq<CommentOrNewline>) -> bool {
    forall|i: int| 0 <= i < items.len() ==> comment_plain(#[trigger] items[i])
}

/// Outside a comment, the text of a comment puts the reader into that
/// comment.
pub proof fn lemma_read_comment(done: Seq<Seq<char>>, item: CommentOrNewline)
    requires
        is_comment(item),
        comment_plain(item),
    ensures
        read(closed(done), comment_text(item)) == opened(done, comment_text(item)),
{
    let mark = Seq::<char>::empty().push('#');
    match item {
        CommentOrNewline::LineComment(text) => {
            lemma_read_concat(closed(done), mark, text@);
            lemma_read_push(closed(done), Seq::empty(), '#');
            lemma_read_on(done, mark, text@);
        },
        CommentOrNewline::DocComment(text) => {
            let marks = mark.push('#');
            assert(seq!['#', '#'] =~= marks);
            lemma_read_concat(closed(done), marks, text@);
            lemma_read_push(closed(done), mark, '#');
            lemma_read_push(closed(done), Seq::empty(), '#');
            lemma_read_on(done, marks, text@);
        },
        CommentOrNewline::Newline => {},
    }
}

proof fn lemma_plain_last(items: Seq<CommentOrNewline>)
    requires
        items.len() > 0,
        comments_plain(items),
    ensures
        comments_plain(items.drop_last()),
        comment_plain(items.last()),
{
    let rest = items.drop_last();
    assert forall|i: int| 0 <= i < rest.len() implies comment_plain(#[trigger] rest[i]) by {
        assert(rest[i] == items[i]);
    }
    assert(comment_plain(items[items.len() - 1]));
}

/// Comments on lines of their own are read back one by one.
proof fn lemma_read_comment_lines(done: Seq<Seq<char>>, items: Seq<CommentOrNewline>, indent: int)
    requires
        comments_plain(items),
    ensures
        read(closed(done), comment_lines(items, indent)) == closed(done + trivia_comments(items)),
    decreases items.len(),
{
    if items.len() > 0 {
        let rest = items.drop_last();
        lemma_plain_last(items);
        lemma_read_comment_lines(done, rest, indent);
        let before = done + trivia_comments(rest);
        if is_comment(items.last()) {
            let mark = comment_text(items.last());
            lemma_read_comment(before, items.last());
            lemma_read_line_break(opened(before, mark), indent);
            lemma_read_concat(closed(done), comment_lines(rest, indent), mark);
            lemma_read_concat(
                closed(done),
                comment_lines(rest, indent) + mark,
                line_break(indent),
            );
            assert(before.push(mark) =~= done + trivia_comments(items));
        }
    } else {
        assert(done + trivia_comments(items) =~= done);
    }
}

/// A run of trivia rendered with its blank lines is read back comment by
/// comment.
pub proof fn lemma_read_spaces_text(
    done: Seq<Seq<char>>,
    items: Seq<CommentOrNewline>,
    indent: int,
)
    requires
        comments_plain(items),
    ensures
        read(closed(done), spaces_text(items, indent)) == closed(done + trivia_comments(items)),
{
    let lead = blank_lines(leading_newlines(items), indent);
    assert(read(closed(done), lead) == closed(done)) by {
        lemma_read_line_break(closed(done), indent);
        if leading_newlines(items) >= 2 {
            lemma_read_concat(closed(done), seq!['\n'], line_break(indent));
            lemma_read_push(closed(done), Seq::empty(), '\n');
        }
    }
    lemma_read_comment_lines(done, items, indent);
    lemma_read_concat(closed(done), lead, comment_lines(items, indent));
}

/// Comments joined by line breaks are read back one by one; the reader may
/// be left in the last of them.
proof fn lemma_read_joined(reader: Reader, items: Seq<CommentOrNewline>, lead: bool, indent: int)
    requires
        comments_plain(items),
        lead || reader.open is None,
    ensures
        all_read(read(reader, comments_joined(items, lead, indent))) == all_read(reader)
            + trivia_comments(items),
        !has_comment(items) ==> comments_joined(items, lead, indent) == Seq::<char>::empty(),
    decreases items.len(),
{
    if items.len() > 0 {
        let rest = items.drop_last();
        lemma_plain_last(items);
        lemma_read_joined(reader, rest, lead, indent);
        let text = comments_joined(rest, lead, indent);
        let before = read(reader, text);
        if has_comment(items) && !is_comment(items.last()) {
            let j = choose|j: int| 0 <= j < items.len() && is_comment(#[trigger] items[j]);
            assert(rest[j] == items[j]);
        }
        if has_comment(rest) {
            let j = choose|j: int| 0 <= j < rest.len() && is_comment(#[trigger] rest[j]);
            assert(items[j] == rest[j]);
        }
        if is_comment(items.last()) {
            assert(is_comment(items[items.len() - 1]));
            let mark = comment_text(items.last());
            let so_far = all_read(reader) + trivia_comments(rest);
            if lead || has_comment(rest) {
                lemma_read_line_break(before, indent);
                lemma_read_comment(so_far, items.last());
                lemma_read_concat(reader, text, line_break(indent));
                lemma_read_concat(reader, text + line_break(indent), mark);
            } else {
                lemma_read_nothing(reader);
                assert(text + Seq::<char>::empty() =~= text);
                assert(so_far =~= reader.done) by {
                    lemma_trivia_no_comments(rest);
                }
                lemma_read_comment(reader.done, items.last());
                lemma_read_concat(reader, text + Seq::<char>::empty(), mark);
            }
            assert(so_far.push(mark) =~= all_read(reader) + trivia_comments(items));
        }
    } else {
        assert(all_read(reader) + trivia_comments(items) =~= all_read(reader));
    }
}

/// The comments of a run of trivia are read back one by one. With a line
/// break at the bottom, the reader is left outside a comment.
pub proof fn lemma_read_comments_text(
    reader: Reader,
    items: Seq<CommentOrNewline>,
    at: NewlineAt,
    indent: int,
)
    requires
        comments_plain(items),
        at is Top || at is Both || reader.open is None,
    ensures
        all_read(read(reader, comments_text(items, at, indent))) == all_read(reader)
            + trivia_comments(items),
        (at is Bottom || at is Both) && reader.open is None ==> read(
            reader,
            comments_text(items, at, indent),
        ) == closed(reader.done + trivia_comments(items)),
{
    let lead = at is Top || at is Both;
    let joined = comments_joined(items, lead, indent);
    lemma_read_joined(reader, items, lead, indent);
    if has_comment(items) && (at is Bottom || at is Both) {
        lemma_read_concat(reader, joined, line_break(indent));
        lemma_read_line_break(read(reader, joined), indent);
    } else {
        assert(joined + Seq::<char>::empty() =~= joined);
        if !has_comment(items) {
            lemma_trivia_no_comments(items);
            lemma_read_nothing(reader);
            assert(reader.done + trivia_comments(items) =~= reader.done);
        }
    }
}

} // verus!
