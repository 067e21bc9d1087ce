use bumpalo::collections::String as BumpString;
use bumpalo::Bump;
use roc_front::annotation::{Newlines, Parens};
use roc_front::ast::{
    AssignedField, BinOp, CommentOrNewline, Expr, Located, Pattern, Region, WhenBranch,
};

fn render(expr: &Expr, indent: u16) -> String {
    let arena = Bump::new();
    let mut buf = BumpString::new_in(&arena);
    expr.format_with_options(&mut buf, Parens::NotNeeded, Newlines::Yes, indent);
    buf.as_str().to_string()
}

fn num(text: &str) -> Expr {
    Expr::Num(text.to_string())
}

fn var(name: &str) -> Expr {
    Expr::Var { module_name: String::new(), ident: name.to_string() }
}

fn tag(name: &str) -> Expr {
    Expr::GlobalTag(name.to_string())
}

fn list(items: Vec<Expr>) -> Expr {
    Expr::List { items, final_comments: Vec::new() }
}

fn at_line(line: u32, pattern: Pattern) -> Located<Pattern> {
    Located {
        region: Region { start_line: line, end_line: line, start_col: 0, end_col: 1 },
        value: pattern,
    }
}

#[test]
fn conditional_on_one_line_is_unchanged() {
    let expr = Expr::If(Box::new(tag("True")), Box::new(num("1")), Box::new(num("2")));
    assert_eq!(render(&expr, 0), "if True then 1 else 2");
}

#[test]
fn list_items_are_spaced_evenly() {
    let expr = list(vec![num("1"), num("2"), num("3")]);
    assert_eq!(render(&expr, 0), "[ 1, 2, 3 ]");
}

#[test]
fn list_with_multiline_item_puts_each_item_on_its_line() {
    let chain = Expr::BinOp(
        Box::new(Expr::SpaceAfter(Box::new(var("a")), vec![CommentOrNewline::Newline])),
        BinOp::Pizza,
        Box::new(var("b")),
    );
    let expr = list(vec![num("1"), list(vec![num("2"), num("3")]), chain]);
    assert_eq!(render(&expr, 0), "[\n    1,\n    [ 2, 3 ],\n    a\n        |> b,\n]");
}

#[test]
fn when_branches_are_indented_and_separated() {
    let expr = Expr::When(
        Box::new(var("x")),
        vec![
            WhenBranch {
                patterns: vec![at_line(1, Pattern::GlobalTag("A".to_string()))],
                value: num("1"),
                guard: None,
            },
            WhenBranch {
                patterns: vec![at_line(2, Pattern::GlobalTag("B".to_string()))],
                value: num("2"),
                guard: None,
            },
        ],
    );
    assert_eq!(render(&expr, 0), "when x is\n    A ->\n        1\n\n    B ->\n        2");
}

#[test]
fn record_on_one_line_is_normalised() {
    let expr = Expr::Record {
        update: None,
        fields: vec![
            AssignedField::RequiredValue("x".to_string(), Vec::new(), Box::new(num("1"))),
            AssignedField::RequiredValue("y".to_string(), Vec::new(), Box::new(num("2"))),
        ],
        final_comments: Vec::new(),
    };
    assert_eq!(render(&expr, 0), "{ x: 1, y: 2 }");
}

#[test]
fn record_comment_moves_to_its_own_line() {
    let expr = Expr::Record {
        update: None,
        fields: vec![
            AssignedField::SpaceAfter(
                Box::new(AssignedField::RequiredValue(
                    "x".to_string(),
                    Vec::new(),
                    Box::new(num("1")),
                )),
                vec![CommentOrNewline::LineComment(" hi".to_string()), CommentOrNewline::Newline],
            ),
            AssignedField::RequiredValue("y".to_string(), Vec::new(), Box::new(num("2"))),
        ],
        final_comments: Vec::new(),
    };
    assert_eq!(render(&expr, 0), "{\n    x: 1,\n    # hi\n    y: 2,\n}");
}
