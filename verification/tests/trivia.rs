use bumpalo::collections::String as BumpString;
use bumpalo::Bump;
use roc_front::ast::CommentOrNewline;
use roc_front::spaces::{add_spaces, fmt_comments_only, fmt_spaces, newline, NewlineAt, INDENT};

fn line(text: &str) -> CommentOrNewline {
    CommentOrNewline::LineComment(text.to_string())
}

fn doc(text: &str) -> CommentOrNewline {
    CommentOrNewline::DocComment(text.to_string())
}

fn spaces_of(items: Vec<CommentOrNewline>, indent: u16) -> String {
    let arena = Bump::new();
    let mut buf = BumpString::new_in(&arena);
    fmt_spaces(&mut buf, &items, indent);
    buf.as_str().to_string()
}

fn comments_of(items: Vec<CommentOrNewline>, at: NewlineAt, indent: u16) -> String {
    let arena = Bump::new();
    let mut buf = BumpString::new_in(&arena);
    fmt_comments_only(&mut buf, &items, at, indent);
    buf.as_str().to_string()
}

#[test]
fn indentation_step_is_four() {
    assert_eq!(INDENT, 4);
}

#[test]
fn add_spaces_appends_to_what_is_there() {
    let arena = Bump::new();
    let mut buf = BumpString::from_str_in("ab", &arena);
    add_spaces(&mut buf, 3);
    assert_eq!(buf.as_str(), "ab   ");
}

#[test]
fn newline_breaks_and_indents() {
    let arena = Bump::new();
    let mut buf = BumpString::from_str_in("x", &arena);
    newline(&mut buf, 2);
    assert_eq!(buf.as_str(), "x\n  ");
}

#[test]
fn one_blank_line_item_is_a_line_break() {
    assert_eq!(spaces_of(vec![CommentOrNewline::Newline], 4), "\n    ");
}

#[test]
fn runs_of_blank_lines_collapse_to_one_empty_line() {
    let three = vec![
        CommentOrNewline::Newline,
        CommentOrNewline::Newline,
        CommentOrNewline::Newline,
    ];
    assert_eq!(spaces_of(three, 2), "\n\n  ");
    let two = vec![CommentOrNewline::Newline, CommentOrNewline::Newline];
    assert_eq!(spaces_of(two, 2), "\n\n  ");
}

#[test]
fn comments_stand_on_their_own_lines() {
    let items = vec![line(" a"), CommentOrNewline::Newline, doc(" b")];
    assert_eq!(spaces_of(items, 0), "# a\n## b\n");
}

#[test]
fn blank_line_before_comment_is_kept() {
    let items = vec![CommentOrNewline::Newline, line("x")];
    assert_eq!(spaces_of(items, 4), "\n    #x\n    ");
}

#[test]
fn empty_run_renders_nothing() {
    assert_eq!(spaces_of(Vec::new(), 4), "");
    assert_eq!(comments_of(Vec::new(), NewlineAt::Both, 4), "");
}

fn two_comments() -> Vec<CommentOrNewline> {
    vec![CommentOrNewline::Newline, line("a"), CommentOrNewline::Newline, line("b")]
}

#[test]
fn comments_only_with_break_at_top() {
    assert_eq!(comments_of(two_comments(), NewlineAt::Top, 2), "\n  #a\n  #b");
}

#[test]
fn comments_only_with_break_at_bottom() {
    assert_eq!(comments_of(two_comments(), NewlineAt::Bottom, 2), "#a\n  #b\n  ");
}

#[test]
fn comments_only_with_break_at_both_ends() {
    assert_eq!(comments_of(two_comments(), NewlineAt::Both, 2), "\n  #a\n  #b\n  ");
}

#[test]
fn comments_only_with_break_at_neither_end() {
    assert_eq!(comments_of(two_comments(), NewlineAt::Neither, 2), "#a\n  #b");
}

#[test]
fn comments_only_drops_blank_lines() {
    let items = vec![CommentOrNewline::Newline, CommentOrNewline::Newline];
    assert_eq!(comments_of(items, NewlineAt::Both, 4), "");
}

#[test]
fn doc_comment_has_two_marks() {
    assert_eq!(comments_of(vec![doc(" d")], NewlineAt::Neither, 0), "## d");
}
