//! The shape of rendered lines: that no line ends in a blank, and that every
//! line that holds anything is indented by whole steps.
//!
//! Both are read off a text by following a pen over it. The pen knows whether
//! it stands in the indentation of a line or behind something written on it,
//! and it stops where a text breaks one of the two rules.

use vstd::prelude::*;
use crate::spaces::{line_break, spaces};

verus! {

/// Where the pen stands after a text.
pub enum Pen {
    /// In the indentation of a line, behind so many spaces.
    AtStart(nat),
    /// Behind something written on the line; the flag tells whether the last
    /// character is a blank.
    InLine(bool),
}

/// A space or a tab.
pub open spec fn blank(c: char) -> bool {
    c == ' ' || c == '\t'
}

/// The pen after one more character, or nothing if the character ends a line
/// on a blank or starts the content of a line off a whole step.
pub open spec fn stroke(pen: Option<Pen>, c: char) -> Option<Pen> {
    match pen {
        None => None,
        Some(Pen::AtStart(k)) => if c == ' ' {
            Some(Pen::AtStart(k + 1))
        } else if c == '\n' {
            if k == 0 {
                Some(Pen::AtStart(0))
            } else {
                None
            }
        } else if k % 4 == 0 {
            Some(Pen::InLine(blank(c)))
        } else {
            None
        },
        Some(Pen::InLine(after_blank)) => if c == '\n' {
            if after_blank {
                None
            } else {
                Some(Pen::AtStart(0))
            }
        } else {
            Some(Pen::InLine(blank(c)))
        },
    }
}

/// The pen after a text.
pub open spec fn pen_after(pen: Option<Pen>, s: Seq<char>) -> Option<Pen>
    decreases s.len(),
{
    if s.len() == 0 {
        pen
    } else {
        stroke(pen_after(pen, s.drop_last()), s.last())
    }
}

/// Whether the pen can go on with anything but a line feed: it stands behind
/// something written, or in an indentation of whole steps.
pub open spec fn ready(pen: Pen) -> bool {
    match pen {
        Pen::AtStart(k) => k % 4 == 0,
        Pen::InLine(_) => true,
    }
}

/// Whether the pen can go on with a line feed as well: it stands behind
/// something written that is no blank, or at the very start of a line.
pub open spec fn rested(pen: Pen) -> bool {
    pen == Pen::InLine(false) || pen == Pen::AtStart(0)
}

/// No line ends in a space or a tab.
pub open spec fn no_line_ends_blank(s: Seq<char>) -> bool {
    forall|i: int| 0 <= i < s.len() && blank(#[trigger] s[i]) ==> i + 1 < s.len() && s[i + 1] != '\n'
}

/// Whether a line starts at position `i`.
pub open spec fn line_start(s: Seq<char>, i: int) -> bool {
    i == 0 || s[i - 1] == '\n'
}

pub open spec fn all_spaces(s: Seq<char>, from: int, to: int) -> bool {
    forall|j: int| from <= j < to ==> s[j] == ' '
}

/// Whether the line that starts at `i` holds something behind exactly `k`
/// leading spaces.
pub open spec fn indented_by(s: Seq<char>, i: int, k: int) -> bool {
    &&& 0 <= i
    &&& 0 <= k
    &&& i + k < s.len()
    &&& line_start(s, i)
    &&& all_spaces(s, i, i + k)
    &&& s[i + k] != ' '
    &&& s[i + k] != '\n'
}

/// Every line that holds anything begins with a multiple of four spaces.
pub open spec fn lines_indented(s: Seq<char>) -> bool {
    forall|i: int, k: int| #[trigger] indented_by(s, i, k) ==> k % 4 == 0
}

pub broadcast proof fn lemma_write_concat(pen: Option<Pen>, a: Seq<char>, b: Seq<char>)
    ensures
        #[trigger] pen_after(pen, a + b) == pen_after(pen_after(pen, a), b),
    decreases b.len(),
{
    if b.len() == 0 {
        assert(a + b =~= a);
    } else {
        assert((a + b).drop_last() =~= a + b.drop_last());
        lemma_write_concat(pen, a, b.drop_last());
    }
}

pub broadcast proof fn lemma_write_push(pen: Option<Pen>, a: Seq<char>, c: char)
    ensures
        #[trigger] pen_after(pen, a.push(c)) == stroke(pen_after(pen, a), c),
{
    assert(a.push(c).drop_last() =~= a);
}

pub broadcast proof fn lemma_write_nothing(pen: Option<Pen>)
    ensures
        #[trigger] pen_after(pen, Seq::<char>::empty()) == pen,
{
}

/// Spaces at the start of a line deepen its indentation; anywhere else they
/// leave the pen behind a blank.
pub broadcast proof fn lemma_write_spaces(pen: Pen, n: int)
    requires
        n >= 0,
    ensures
        #[trigger] pen_after(Some(pen), spaces(n)) == Some(
            match pen {
                Pen::AtStart(k) => Pen::AtStart(k + n as nat),
                Pen::InLine(after_blank) => Pen::InLine(after_blank || n > 0),
            },
        ),
    decreases n,
{
    if n > 0 {
        assert(spaces(n).drop_last() =~= spaces(n - 1));
        lemma_write_spaces(pen, n - 1);
    }
}

/// A line break behind something that is no blank, or on an empty line, puts
/// the pen into the indentation of the next line.
pub broadcast proof fn lemma_write_line_break(pen: Pen, n: int)
    requires
        n >= 0,
        rested(pen),
    ensures
        #[trigger] pen_after(Some(pen), line_break(n)) == Some(Pen::AtStart(n as nat)),
{
    lemma_write_concat(Some(pen), seq!['\n'], spaces(n));
    lemma_write_push(Some(pen), Seq::empty(), '\n');
    lemma_write_spaces(Pen::AtStart(0), n);
}

pub broadcast group group_pen {
    lemma_write_concat,
    lemma_write_push,
    lemma_write_nothing,
    lemma_write_spaces,
    lemma_write_line_break,
}

/// What the pen knows of the text it has gone over.
pub open spec fn tracks(s: Seq<char>, pen: Pen) -> bool {
    &&& match pen {
        Pen::AtStart(k) => k <= s.len() && all_spaces(s, s.len() - k, s.len() as int)
            && line_start(s, s.len() - k),
        Pen::InLine(after_blank) => s.len() > 0 && after_blank == blank(s.last()) && s.last()
            != '\n' && exists|j: int|
            0 <= j < s.len() && #[trigger] s[j] != ' ' && s[j] != '\n' && forall|m: int|
                j < m < s.len() ==> s[m] != '\n',
    }
    &&& forall|i: int| 0 <= i < s.len() - 1 && blank(#[trigger] s[i]) ==> s[i + 1] != '\n'
    &&& lines_indented(s)
}

/// A pen that has gone over a text from the start of a line knows the text.
pub proof fn lemma_pen_tracks(s: Seq<char>, pen: Pen)
    requires
        pen_after(Some(Pen::AtStart(0)), s) == Some(pen),
    ensures
        tracks(s, pen),
    decreases s.len(),
{
    if s.len() > 0 {
        let t = s.drop_last();
        let c = s.last();
        let n = t.len() as int;
        let before = pen_after(Some(Pen::AtStart(0)), t);
        assert(before is Some);
        let prev = before->0;
        lemma_pen_tracks(t, prev);
        assert forall|i: int| 0 <= i < n implies s[i] == t[i] by {}
        // No blank stands before a line feed.
        assert forall|i: int| 0 <= i < s.len() - 1 && blank(#[trigger] s[i]) implies s[i + 1]
            != '\n' by {
            if i < n - 1 {
                assert(blank(t[i]));
                assert(s[i + 1] == t[i + 1]);
            }
        }
        // Lines that held something before are as they were.
        assert forall|i: int, k: int| #[trigger] indented_by(s, i, k) implies k % 4 == 0 by {
            if i + k < n {
                assert(all_spaces(t, i, i + k));
                assert(indented_by(t, i, k));
            } else {
                // The new character is the first thing on its line.
                match prev {
                    Pen::AtStart(depth) => {
                        let from = n - depth;
                        if i < from {
                            assert(s[from - 1] == ' ');
                        } else if i > from {
                            assert(s[i - 1] == ' ');
                        }
                    },
                    Pen::InLine(_) => {
                        let j = choose|j: int|
                            0 <= j < t.len() && #[trigger] t[j] != ' ' && t[j] != '\n' && forall|
                                m: int,
                            |
                                j < m < t.len() ==> t[m] != '\n';
                        if i <= j {
                            assert(s[j] == ' ');
                        } else {
                            assert(t[i - 1] != '\n');
                        }
                    },
                }
            }
        }
        match pen {
            Pen::AtStart(k) => {
                if c == ' ' {
                    assert(all_spaces(s, s.len() - k, s.len() as int));
                }
            },
            Pen::InLine(_) => {
                match prev {
                    Pen::AtStart(_) => {
                        assert(s[n] != ' ' && s[n] != '\n');
                    },
                    Pen::InLine(_) => {
                        let j = choose|j: int|
                            0 <= j < t.len() && #[trigger] t[j] != ' ' && t[j] != '\n' && forall|
                                m: int,
                            |
                                j < m < t.len() ==> t[m] != '\n';
                        assert(s[j] != ' ' && s[j] != '\n');
                    },
                }
            },
        }
    }
}

/// A text that the pen goes over from the start of a line, to end behind
/// something that is no blank or on an empty line, keeps both rules: none of
/// its lines ends in a space or a tab, and each of its lines that holds
/// anything begins with a multiple of four spaces.
pub proof fn lemma_pen_keeps_rules(s: Seq<char>, pen: Pen)
    requires
        pen_after(Some(Pen::AtStart(0)), s) == Some(pen),
        rested(pen),
    ensures
        no_line_ends_blank(s),
        lines_indented(s),
{
    lemma_pen_tracks(s, pen);
}

/// The pen goes over every part of a text that keeps both rules.
proof fn lemma_pen_goes_on(s: Seq<char>, n: int)
    requires
        no_line_ends_blank(s),
        lines_indented(s),
        0 <= n <= s.len(),
    ensures
        pen_after(Some(Pen::AtStart(0)), s.take(n)) is Some,
    decreases n,
{
    if n > 0 {
        let m = n - 1;
        let t = s.take(m);
        let c = s[m];
        lemma_pen_goes_on(s, m);
        let pen = pen_after(Some(Pen::AtStart(0)), t)->0;
        lemma_pen_tracks(t, pen);
        assert(s.take(n).drop_last() =~= t);
        assert(s.take(n).last() == c);
        assert forall|j: int| 0 <= j < m implies t[j] == s[j] by {}
        match pen {
            Pen::AtStart(k) => {
                if c == '\n' {
                    if k > 0 {
                        assert(t[m - 1] == ' ');
                        assert(blank(s[m - 1]));
                    }
                } else if c != ' ' {
                    assert(all_spaces(s, m - k, m)) by {
                        assert forall|j: int| m - k <= j < m implies s[j] == ' ' by {
                            assert(t[j] == ' ');
                        }
                    }
                    assert(indented_by(s, m - k, k as int));
                }
            },
            Pen::InLine(after_blank) => {
                if c == '\n' && after_blank {
                    assert(blank(s[m - 1]));
                }
            },
        }
    }
}

/// The pen tells exactly the texts that keep both rules: it goes over a
/// text from the start of a line, to end behind something that is no blank
/// or on an empty line, if and only if no line of the text ends in a space
/// or a tab and each of its lines that holds anything begins with a
/// multiple of four spaces.
pub proof fn lemma_pen_decides(s: Seq<char>)
    ensures
        (no_line_ends_blank(s) && lines_indented(s)) <==> (pen_after(Some(Pen::AtStart(0)), s)
            matches Some(pen) && rested(pen)),
{
    let end = pen_after(Some(Pen::AtStart(0)), s);
    if end matches Some(pen) && rested(pen) {
        lemma_pen_keeps_rules(s, end->0);
    }
    if no_line_ends_blank(s) && lines_indented(s) {
        lemma_pen_goes_on(s, s.len() as int);
        assert(s.take(s.len() as int) =~= s);
        let pen = end->0;
        lemma_pen_tracks(s, pen);
        if s.len() > 0 {
            let last = s.len() - 1;
            match pen {
                Pen::AtStart(k) => {
                    if k > 0 {
                        assert(s[last] == ' ');
                        assert(blank(s[last]));
                    }
                },
                Pen::InLine(after_blank) => {
                    if after_blank {
                        assert(blank(s[last]));
                    }
                },
            }
        }
    }
}

} // verus!
