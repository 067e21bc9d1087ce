use bumpalo::collections::String as BumpString;
use bumpalo::Bump;
use roc_front::annotation::{Newlines, Parens};
use roc_front::ast::{
    AssignedField, Base, BinOp, CommentOrNewline, Def, EscapedChar, Expr, Located, Pattern,
    Region, StrLiteral, StrSegment, UnaryOp, WhenBranch,
};
use roc_front::expr::{empty_line_before_expr, fmt_closure, fmt_list, fmt_record};
use roc_front::pattern::fmt_pattern;

fn render_with(expr: &Expr, parens: Parens, newlines: Newlines, indent: u16) -> String {
    let arena = Bump::new();
    let mut buf = BumpString::new_in(&arena);
    expr.format_with_options(&mut buf, parens, newlines, indent);
    buf.as_str().to_string()
}

fn render(expr: &Expr) -> String {
    let arena = Bump::new();
    let mut buf = BumpString::new_in(&arena);
    expr.format(&mut buf, 0);
    buf.as_str().to_string()
}

fn num(text: &str) -> Expr {
    Expr::Num(text.to_string())
}

fn var(name: &str) -> Expr {
    Expr::Var { module_name: String::new(), ident: name.to_string() }
}

fn ident(name: &str) -> Pattern {
    Pattern::Identifier(name.to_string())
}

fn tag_pattern(name: &str) -> Pattern {
    Pattern::GlobalTag(name.to_string())
}

fn line(text: &str) -> CommentOrNewline {
    CommentOrNewline::LineComment(text.to_string())
}

fn before(expr: Expr, trivia: Vec<CommentOrNewline>) -> Expr {
    Expr::SpaceBefore(Box::new(expr), trivia)
}

fn after(expr: Expr, trivia: Vec<CommentOrNewline>) -> Expr {
    Expr::SpaceAfter(Box::new(expr), trivia)
}

fn on_lines(start: u32, end: u32, pattern: Pattern) -> Located<Pattern> {
    Located {
        region: Region { start_line: start, end_line: end, start_col: 0, end_col: 1 },
        value: pattern,
    }
}

fn required(name: &str, value: Expr) -> AssignedField {
    AssignedField::RequiredValue(name.to_string(), Vec::new(), Box::new(value))
}

#[test]
fn plain_string_is_quoted() {
    let expr = Expr::Str(StrLiteral::PlainLine("hi".to_string()));
    assert_eq!(render(&expr), "\"hi\"");
    assert!(!expr.is_multiline());
}

#[test]
fn string_segments_are_rendered_in_order() {
    let expr = Expr::Str(StrLiteral::Line(vec![
        StrSegment::Plaintext("a ".to_string()),
        StrSegment::Unicode("00A0".to_string()),
        StrSegment::EscapedChar(EscapedChar::Newline),
        StrSegment::Interpolated(Box::new(var("name"))),
    ]));
    assert_eq!(render(&expr), "\"a \\u(00A0)\\n\\(name)\"");
}

#[test]
fn every_escape_has_its_letter() {
    let expr = Expr::Str(StrLiteral::Line(vec![
        StrSegment::EscapedChar(EscapedChar::Tab),
        StrSegment::EscapedChar(EscapedChar::Quote),
        StrSegment::EscapedChar(EscapedChar::Backslash),
        StrSegment::EscapedChar(EscapedChar::CarriageReturn),
    ]));
    assert_eq!(render(&expr), "\"\\t\\\"\\\\\\r\"");
}

#[test]
fn interpolation_drops_blank_lines() {
    let inner = before(var("name"), vec![CommentOrNewline::Newline]);
    let expr = Expr::Str(StrLiteral::Line(vec![StrSegment::Interpolated(Box::new(inner))]));
    assert_eq!(render(&expr), "\"\\(name)\"");
}

#[test]
fn block_string_of_one_line_stays_on_its_line() {
    let expr =
        Expr::Str(StrLiteral::Block(vec![vec![StrSegment::Plaintext("x".to_string())]]));
    assert_eq!(render(&expr), "\"\"\"x\"\"\"");
    assert!(!expr.is_multiline());
}

#[test]
fn block_string_of_no_line_is_empty() {
    let expr = Expr::Str(StrLiteral::Block(Vec::new()));
    assert_eq!(render(&expr), "\"\"\"\"\"\"");
}

#[test]
fn block_string_of_two_lines_puts_delimiters_on_their_own_lines() {
    let expr = Expr::Str(StrLiteral::Block(vec![
        vec![StrSegment::Plaintext("a".to_string())],
        vec![StrSegment::Plaintext("b".to_string())],
    ]));
    assert!(expr.is_multiline());
    assert_eq!(
        render_with(&expr, Parens::NotNeeded, Newlines::Yes, 4),
        "\"\"\"\n    a\n    b\n    \"\"\""
    );
}

#[test]
fn qualified_identifier_has_its_module() {
    let expr = Expr::Var { module_name: "Foo.Bar".to_string(), ident: "baz".to_string() };
    assert_eq!(render(&expr), "Foo.Bar.baz");
    assert_eq!(render(&var("baz")), "baz");
}

#[test]
fn literals_are_rendered_verbatim() {
    assert_eq!(render(&num("42")), "42");
    assert_eq!(render(&Expr::Float("4.2".to_string())), "4.2");
    assert_eq!(render(&Expr::GlobalTag("Ok".to_string())), "Ok");
    assert_eq!(render(&Expr::PrivateTag("@Ok".to_string())), "@Ok");
}

#[test]
fn integers_have_their_base_prefix() {
    let hex =
        Expr::NonBase10Int { string: "ff".to_string(), base: Base::Hex, is_negative: true };
    assert_eq!(render(&hex), "-0xff");
    let octal =
        Expr::NonBase10Int { string: "17".to_string(), base: Base::Octal, is_negative: false };
    assert_eq!(render(&octal), "0o17");
    let binary =
        Expr::NonBase10Int { string: "101".to_string(), base: Base::Binary, is_negative: false };
    assert_eq!(render(&binary), "0b101");
    let decimal =
        Expr::NonBase10Int { string: "12".to_string(), base: Base::Decimal, is_negative: false };
    assert_eq!(render(&decimal), "12");
}

#[test]
fn application_separates_arguments_by_spaces() {
    let expr = Expr::Apply(Box::new(var("f")), vec![var("a"), var("b")]);
    assert_eq!(render(&expr), "f a b");
    assert_eq!(render_with(&expr, Parens::InApply, Newlines::Yes, 0), "(f a b)");
}

#[test]
fn application_as_argument_is_wrapped() {
    let inner = Expr::Apply(Box::new(var("g")), vec![var("x")]);
    let expr = Expr::Apply(Box::new(var("f")), vec![inner]);
    assert_eq!(render(&expr), "f (g x)");
}

#[test]
fn multiline_argument_puts_every_argument_on_its_line() {
    let first = before(var("a"), vec![CommentOrNewline::Newline]);
    let expr = Expr::Apply(Box::new(var("f")), vec![first, var("b")]);
    assert!(expr.is_multiline());
    assert_eq!(render(&expr), "f\n    a\n    b");
}

#[test]
fn closure_on_one_line() {
    let expr = Expr::Closure(vec![ident("x"), ident("y")], Box::new(var("z")));
    assert_eq!(render(&expr), "\\x, y -> z");
    assert!(!expr.is_multiline());
}

#[test]
fn closure_body_after_blank_line_moves_one_step_in() {
    let body = before(var("z"), vec![CommentOrNewline::Newline]);
    let expr = Expr::Closure(vec![ident("x")], Box::new(body));
    assert!(expr.is_multiline());
    assert_eq!(render(&expr), "\\x ->\n    z");
}

#[test]
fn closure_with_multiline_patterns_breaks_after_each() {
    let first = Pattern::SpaceBefore(Box::new(ident("a")), vec![CommentOrNewline::Newline]);
    let arena = Bump::new();
    let mut buf = BumpString::new_in(&arena);
    let patterns = vec![first, ident("b")];
    let body = var("z");
    fmt_closure(&mut buf, &patterns, &body, 0);
    assert_eq!(buf.as_str(), "\\a,\n    b\n    -> z");
}

#[test]
fn let_form_separates_return_by_an_empty_line() {
    let def = Def::Body(ident("x"), Box::new(num("5")));
    let ret = before(var("x"), vec![CommentOrNewline::Newline, CommentOrNewline::Newline]);
    assert!(empty_line_before_expr(&ret));
    let expr = Expr::Defs(vec![def], Box::new(ret));
    assert!(expr.is_multiline());
    assert_eq!(render(&expr), "x = 5\n\nx");
}

#[test]
fn let_form_forces_a_line_break_before_return() {
    let def = Def::Body(ident("x"), Box::new(num("5")));
    let ret = var("x");
    assert!(!empty_line_before_expr(&ret));
    let expr = Expr::Defs(vec![def], Box::new(ret));
    assert_eq!(render(&expr), "x = 5\nx");
}

#[test]
fn let_form_renders_definitions_in_order() {
    let first = Def::Body(ident("x"), Box::new(num("5")));
    let second = Def::SpaceBefore(
        Box::new(Def::Nested(Box::new(Def::Body(ident("y"), Box::new(num("6")))))),
        vec![CommentOrNewline::Newline],
    );
    let third = Def::SpaceBefore(
        Box::new(Def::SpaceAfter(
            Box::new(Def::Body(
                Pattern::Apply(Box::new(tag_pattern("Pair")), vec![ident("a"), ident("b")]),
                Box::new(var("p")),
            )),
            vec![CommentOrNewline::Newline, line(" done")],
        )),
        vec![CommentOrNewline::Newline],
    );
    let expr = Expr::Defs(vec![first, second, third], Box::new(var("x")));
    assert_eq!(render(&expr), "x = 5\ny = 6\n(Pair a b) = p\n# done\n\nx");
}

#[test]
fn empty_line_is_seen_through_nesting() {
    let ret = Expr::Nested(Box::new(before(
        var("x"),
        vec![CommentOrNewline::Newline, line("c"), CommentOrNewline::Newline],
    )));
    assert!(empty_line_before_expr(&ret));
    let one = before(var("x"), vec![CommentOrNewline::Newline, line("c")]);
    assert!(!empty_line_before_expr(&one));
    let behind = after(var("x"), vec![CommentOrNewline::Newline, CommentOrNewline::Newline]);
    assert!(!empty_line_before_expr(&behind));
}

#[test]
fn conditional_with_multiline_branch_is_spread() {
    let then_branch = before(var("b"), vec![CommentOrNewline::Newline]);
    let expr = Expr::If(Box::new(var("a")), Box::new(then_branch), Box::new(var("c")));
    assert!(expr.is_multiline());
    assert_eq!(render(&expr), "if a then\n    b\nelse\n    c");
}

#[test]
fn conditional_keeps_comments_around_its_condition() {
    let cond = before(after(var("a"), vec![line(" after")]), vec![line(" before")]);
    let expr = Expr::If(Box::new(cond), Box::new(var("b")), Box::new(var("c")));
    assert_eq!(
        render(&expr),
        "if\n    # before\n    a\n    # after\nthen\n    b\nelse\n    c"
    );
}

#[test]
fn conditional_nested_in_indentation() {
    let then_branch = after(var("b"), vec![line(" t")]);
    let expr = Expr::If(Box::new(var("a")), Box::new(then_branch), Box::new(var("c")));
    assert_eq!(
        render_with(&expr, Parens::NotNeeded, Newlines::Yes, 4),
        "if a then\n        b\n        # t\n    else\n        c"
    );
}

#[test]
fn when_branch_with_alternatives_and_guard() {
    let branch = WhenBranch {
        patterns: vec![on_lines(1, 1, tag_pattern("A")), on_lines(1, 1, tag_pattern("B"))],
        value: num("1"),
        guard: Some(var("ok")),
    };
    let expr = Expr::When(Box::new(var("x")), vec![branch]);
    assert!(expr.is_multiline());
    assert_eq!(render(&expr), "when x is\n    A | B if ok ->\n        1");
}

#[test]
fn when_alternatives_written_on_several_lines_stay_so() {
    let branch = WhenBranch {
        patterns: vec![on_lines(1, 1, tag_pattern("A")), on_lines(2, 2, tag_pattern("B"))],
        value: num("1"),
        guard: None,
    };
    let expr = Expr::When(Box::new(var("x")), vec![branch]);
    assert_eq!(render(&expr), "when x is\n    A\n    | B ->\n        1");
}

#[test]
fn when_branch_body_keeps_its_comment() {
    let branch = WhenBranch {
        patterns: vec![on_lines(1, 1, Pattern::Underscore)],
        value: before(num("1"), vec![line(" c"), CommentOrNewline::Newline]),
        guard: None,
    };
    let expr = Expr::When(Box::new(var("x")), vec![branch]);
    assert_eq!(render(&expr), "when x is\n    _ ->\n        # c\n        1");
}

#[test]
fn when_with_multiline_condition() {
    let branch = WhenBranch {
        patterns: vec![on_lines(3, 3, Pattern::NumLiteral("0".to_string()))],
        value: num("1"),
        guard: None,
    };
    let cond = before(var("x"), vec![CommentOrNewline::Newline]);
    let expr = Expr::When(Box::new(cond), vec![branch]);
    assert_eq!(render(&expr), "when\n    x\nis\n    0 ->\n        1");
}

#[test]
fn empty_list_is_two_brackets() {
    let arena = Bump::new();
    let mut buf = BumpString::new_in(&arena);
    fmt_list(&mut buf, &Vec::new(), &vec![CommentOrNewline::Newline], 0);
    assert_eq!(buf.as_str(), "[]");
}

#[test]
fn list_comments_stand_on_their_own_lines() {
    let items = vec![before(num("1"), vec![line(" one")]), after(num("2"), vec![line(" two")])];
    let expr = Expr::List { items, final_comments: vec![line(" end")] };
    assert!(expr.is_multiline());
    assert_eq!(render(&expr), "[\n    # one\n    1,\n    2,\n    # two\n    # end\n]");
}

#[test]
fn list_item_with_comments_on_both_sides() {
    let item = before(after(num("1"), vec![line(" below")]), vec![line(" above")]);
    let expr = Expr::List { items: vec![item], final_comments: Vec::new() };
    assert_eq!(render(&expr), "[\n    # above\n    1,\n    # below\n]");
}

#[test]
fn operator_chain_on_one_line() {
    let right = Expr::BinOp(Box::new(var("b")), BinOp::Star, Box::new(var("c")));
    let expr = Expr::BinOp(Box::new(var("a")), BinOp::Plus, Box::new(right));
    assert!(!expr.is_multiline());
    assert_eq!(render(&expr), "a + b * c");
}

#[test]
fn operator_chain_breaks_before_every_operator_once_spread() {
    let right = Expr::BinOp(Box::new(var("b")), BinOp::Pizza, Box::new(var("c")));
    let left = after(var("a"), vec![CommentOrNewline::Newline]);
    let expr = Expr::BinOp(Box::new(left), BinOp::Pizza, Box::new(right));
    assert!(expr.is_multiline());
    assert_eq!(render(&expr), "a\n    |> b\n    |> c");
}

#[test]
fn multiline_operand_spreads_the_whole_chain() {
    let inner_right = after(var("c"), vec![CommentOrNewline::Newline]);
    let right = Expr::BinOp(Box::new(var("b")), BinOp::Plus, Box::new(inner_right));
    let expr = Expr::BinOp(Box::new(var("a")), BinOp::Minus, Box::new(right));
    assert!(expr.is_multiline());
    assert_eq!(render(&expr), "a\n    - b\n    + c\n");
}

#[test]
fn every_operator_has_its_token() {
    let ops = vec![
        (BinOp::Caret, "^"),
        (BinOp::Star, "*"),
        (BinOp::Slash, "/"),
        (BinOp::DoubleSlash, "//"),
        (BinOp::Percent, "%"),
        (BinOp::DoublePercent, "%%"),
        (BinOp::Plus, "+"),
        (BinOp::Minus, "-"),
        (BinOp::Equals, "=="),
        (BinOp::NotEquals, "!="),
        (BinOp::LessThan, "<"),
        (BinOp::GreaterThan, ">"),
        (BinOp::LessThanOrEq, "<="),
        (BinOp::GreaterThanOrEq, ">="),
        (BinOp::And, "&&"),
        (BinOp::Or, "||"),
        (BinOp::Pizza, "|>"),
    ];
    for (op, token) in ops {
        let expr = Expr::BinOp(Box::new(var("a")), op, Box::new(var("b")));
        assert_eq!(render(&expr), format!("a {} b", token));
    }
}

#[test]
fn unary_operators_stand_before_their_operand() {
    assert_eq!(render(&Expr::UnaryOp(Box::new(var("x")), UnaryOp::Negate)), "-x");
    assert_eq!(render(&Expr::UnaryOp(Box::new(var("x")), UnaryOp::Not)), "!x");
}

#[test]
fn field_access_and_accessor() {
    assert_eq!(render(&Expr::Access(Box::new(var("r")), "f".to_string())), "r.f");
    assert_eq!(render(&Expr::AccessorFunction("f".to_string())), ".f");
}

#[test]
fn wrappers_delegate_to_what_they_hold() {
    assert_eq!(render(&Expr::ParensAround(Box::new(var("x")))), "(x)");
    assert_eq!(render(&Expr::Nested(Box::new(var("x")))), "x");
    let conflict = Expr::PrecedenceConflict(BinOp::Plus, BinOp::Minus, Box::new(var("x")));
    assert_eq!(render(&conflict), "x");
    let spread =
        Expr::PrecedenceConflict(BinOp::Plus, BinOp::Minus, Box::new(Expr::Nested(Box::new(
            before(var("x"), vec![CommentOrNewline::Newline]),
        ))));
    assert!(spread.is_multiline());
    assert_eq!(render(&spread), "\nx");
}

#[test]
fn malformed_nodes_render_nothing() {
    assert_eq!(render(&Expr::MalformedIdent("a..b".to_string())), "");
    assert_eq!(render(&Expr::MalformedClosure), "");
    assert!(!Expr::MalformedClosure.is_multiline());
}

#[test]
fn trivia_wrappers_follow_the_newlines_mode() {
    let expr = before(var("x"), vec![CommentOrNewline::Newline, line(" c")]);
    assert!(expr.is_multiline());
    assert_eq!(render_with(&expr, Parens::NotNeeded, Newlines::Yes, 4), "\n    # c\n    x");
    assert_eq!(render_with(&expr, Parens::NotNeeded, Newlines::No, 4), "# c\n    x");
    let behind = after(var("x"), vec![CommentOrNewline::Newline]);
    assert_eq!(render_with(&behind, Parens::NotNeeded, Newlines::Yes, 4), "x\n    ");
    assert_eq!(render_with(&behind, Parens::NotNeeded, Newlines::No, 4), "x");
}

#[test]
fn empty_record_is_two_braces() {
    let arena = Bump::new();
    let mut buf = BumpString::new_in(&arena);
    fmt_record(&mut buf, None, &Vec::new(), &vec![CommentOrNewline::Newline], 0);
    assert_eq!(buf.as_str(), "{}");
}

#[test]
fn record_update_names_its_base() {
    let base = var("r");
    let fields = vec![required("x", num("1"))];
    let arena = Bump::new();
    let mut buf = BumpString::new_in(&arena);
    fmt_record(&mut buf, Some(&base), &fields, &Vec::new(), 0);
    assert_eq!(buf.as_str(), "{ r & x: 1 }");
}

#[test]
fn record_fields_of_every_kind_on_one_line() {
    let expr = Expr::Record {
        update: None,
        fields: vec![
            AssignedField::OptionalValue("x".to_string(), Vec::new(), Box::new(num("1"))),
            AssignedField::LabelOnly("y".to_string()),
            AssignedField::Malformed("z!".to_string()),
        ],
        final_comments: Vec::new(),
    };
    assert!(!expr.is_multiline());
    assert_eq!(render(&expr), "{ x? 1, y, z! }");
}

#[test]
fn record_with_final_comment_is_spread() {
    let expr = Expr::Record {
        update: None,
        fields: vec![AssignedField::LabelOnly("x".to_string())],
        final_comments: vec![line(" c")],
    };
    assert_eq!(render(&expr), "{\n    x,\n    # c\n}");
}

#[test]
fn record_field_comments_stand_above_and_below() {
    let above = AssignedField::SpaceBefore(
        Box::new(AssignedField::LabelOnly("x".to_string())),
        vec![line(" above")],
    );
    let optional = AssignedField::OptionalValue(
        "y".to_string(),
        vec![CommentOrNewline::Newline],
        Box::new(num("2")),
    );
    let expr =
        Expr::Record { update: None, fields: vec![above, optional], final_comments: Vec::new() };
    assert!(expr.is_multiline());
    assert_eq!(
        render_with(&expr, Parens::NotNeeded, Newlines::Yes, 4),
        "{\n        # above\n        x,\n        y\n        ? 2,\n    }"
    );
}

#[test]
fn malformed_field_with_line_feed_is_multiline() {
    assert!(AssignedField::Malformed("a\nb".to_string()).is_multiline());
    assert!(!AssignedField::Malformed("ab".to_string()).is_multiline());
    assert!(!AssignedField::LabelOnly("a".to_string()).is_multiline());
    assert!(required("a", before(num("1"), vec![CommentOrNewline::Newline])).is_multiline());
}

#[test]
fn patterns_render_by_kind() {
    let arena = Bump::new();
    let mut buf = BumpString::new_in(&arena);
    let record = Pattern::RecordDestructure(vec![ident("a"), ident("b")]);
    fmt_pattern(&mut buf, &record, 0, Parens::NotNeeded);
    buf.push(' ');
    let applied = Pattern::Apply(
        Box::new(tag_pattern("Ok")),
        vec![Pattern::StrLiteral("s".to_string()), Pattern::Underscore],
    );
    fmt_pattern(&mut buf, &applied, 0, Parens::InApply);
    buf.push(' ');
    fmt_pattern(&mut buf, &applied, 0, Parens::NotNeeded);
    buf.push(' ');
    let bare = Pattern::Apply(Box::new(Pattern::PrivateTag("@T".to_string())), Vec::new());
    fmt_pattern(&mut buf, &bare, 0, Parens::InApply);
    buf.push(' ');
    fmt_pattern(&mut buf, &Pattern::Malformed("?".to_string()), 0, Parens::NotNeeded);
    assert_eq!(buf.as_str(), "{ a, b } (Ok \"s\" _) Ok \"s\" _ @T ?");
}

#[test]
fn pattern_multiline_follows_its_trivia() {
    let plain = ident("a");
    assert!(!plain.is_multiline());
    let wrapped = Pattern::SpaceAfter(Box::new(ident("a")), vec![CommentOrNewline::Newline]);
    assert!(wrapped.is_multiline());
    let nested = Pattern::Nested(Box::new(Pattern::RecordDestructure(vec![
        ident("b"),
        Pattern::SpaceBefore(Box::new(ident("a")), vec![line("c")]),
    ])));
    assert!(nested.is_multiline());
    let applied = Pattern::Apply(Box::new(tag_pattern("A")), vec![ident("x")]);
    assert!(!applied.is_multiline());
}

#[test]
fn multiline_agrees_with_line_feeds_in_the_text() {
    let samples = vec![
        num("1"),
        Expr::List { items: vec![num("1"), num("2")], final_comments: Vec::new() },
        Expr::List {
            items: vec![before(num("1"), vec![CommentOrNewline::Newline])],
            final_comments: Vec::new(),
        },
        Expr::If(Box::new(var("a")), Box::new(var("b")), Box::new(var("c"))),
        Expr::If(
            Box::new(var("a")),
            Box::new(var("b")),
            Box::new(after(var("c"), vec![line("x")])),
        ),
        Expr::Closure(vec![ident("x")], Box::new(var("x"))),
        Expr::Defs(vec![Def::Body(ident("x"), Box::new(num("1")))], Box::new(var("x"))),
        Expr::UnaryOp(
            Box::new(Expr::ParensAround(Box::new(after(var("c"), vec![line("x")])))),
            UnaryOp::Not,
        ),
    ];
    for sample in samples {
        assert_eq!(sample.is_multiline(), render(&sample).contains('\n'));
    }
}

fn lines_are_well_shaped(text: &str) -> bool {
    text.split('\n').all(|line| {
        let leading = line.chars().take_while(|c| *c == ' ').count();
        let ends_blank = line.ends_with(' ') || line.ends_with('\t');
        !ends_blank && (line.len() == leading || leading % 4 == 0)
    })
}

#[test]
fn lines_are_indented_by_steps_and_end_without_blanks() {
    let branch = |tag: &str, body: Expr| WhenBranch {
        patterns: vec![on_lines(1, 1, tag_pattern(tag))],
        value: body,
        guard: None,
    };
    let inner = Expr::When(
        Box::new(var("y")),
        vec![branch("C", num("3")), branch("D", Expr::List {
            items: vec![before(num("1"), vec![line(" one")]), num("2")],
            final_comments: Vec::new(),
        })],
    );
    let samples = vec![
        Expr::When(Box::new(var("x")), vec![branch("A", inner), branch("B", num("2"))]),
        Expr::If(
            Box::new(var("a")),
            Box::new(before(after(var("b"), vec![line(" t")]), vec![CommentOrNewline::Newline])),
            Box::new(var("c")),
        ),
        Expr::Closure(
            vec![ident("x")],
            Box::new(before(
                Expr::Record {
                    update: None,
                    fields: vec![required("a", num("1"))],
                    final_comments: vec![line(" end")],
                },
                vec![CommentOrNewline::Newline, CommentOrNewline::Newline],
            )),
        ),
        Expr::Defs(
            vec![
                Def::Body(ident("x"), Box::new(num("1"))),
                Def::SpaceBefore(
                    Box::new(Def::Body(ident("y"), Box::new(num("2")))),
                    vec![CommentOrNewline::Newline, line(" second")],
                ),
            ],
            Box::new(before(var("x"), vec![CommentOrNewline::Newline])),
        ),
    ];
    for sample in samples {
        for indent in [0u16, 4, 8] {
            let text = render_with(&sample, Parens::NotNeeded, Newlines::Yes, indent);
            assert!(lines_are_well_shaped(&text), "{:?}", text);
        }
    }
}

#[test]
fn blank_line_before_else_branch_leaves_a_line_of_spaces() {
    let expr = Expr::If(
        Box::new(var("a")),
        Box::new(before(var("b"), vec![CommentOrNewline::Newline])),
        Box::new(before(var("c"), vec![CommentOrNewline::Newline])),
    );
    assert_eq!(render(&expr), "if a then\n    b\nelse\n    \n    c");
}

fn holds_in_order(text: &str, marks: &[&str]) -> bool {
    let mut from = 0;
    for mark in marks {
        match text[from..].find(mark) {
            Some(at) => from += at + mark.len(),
            None => return false,
        }
    }
    true
}

#[test]
fn comments_come_out_in_the_order_they_stand_in() {
    let branch = WhenBranch {
        patterns: vec![on_lines(
            1,
            1,
            Pattern::SpaceBefore(Box::new(tag_pattern("A")), vec![line(" pattern")]),
        )],
        value: before(num("1"), vec![line(" body")]),
        guard: Some(after(var("ok"), vec![line(" guard")])),
    };
    let expr = Expr::When(
        Box::new(before(after(var("x"), vec![line(" below")]), vec![line(" above")])),
        vec![branch],
    );
    let marks = ["# above", "# below", "# pattern", "# guard", "# body"];
    assert!(holds_in_order(&render(&expr), &marks));
    assert!(holds_in_order(&render_with(&expr, Parens::InApply, Newlines::No, 4), &marks));

    let record = Expr::Record {
        update: None,
        fields: vec![
            AssignedField::SpaceBefore(
                Box::new(AssignedField::RequiredValue(
                    "x".to_string(),
                    vec![CommentOrNewline::DocComment(" colon".to_string())],
                    Box::new(after(num("1"), vec![line(" value")])),
                )),
                vec![line(" field")],
            ),
        ],
        final_comments: vec![line(" end")],
    };
    assert!(holds_in_order(&render(&record), &["# field", "## colon", "# value", "# end"]));
}

#[test]
fn one_line_list_drops_the_comments_before_its_bracket() {
    let expr = Expr::List { items: vec![num("1")], final_comments: vec![line(" lost")] };
    assert_eq!(render(&expr), "[ 1 ]");
}

fn comments_of(text: &str) -> Vec<String> {
    text.split('\n')
        .filter_map(|line| line.find('#').map(|at| line[at..].to_string()))
        .collect()
}

#[test]
fn comments_read_back_are_those_of_the_tree() {
    let item = |n: &str, above: &str, below: &str| {
        before(after(num(n), vec![line(below), CommentOrNewline::Newline]), vec![
            CommentOrNewline::Newline,
            CommentOrNewline::DocComment(above.to_string()),
        ])
    };
    let list = Expr::List {
        items: vec![item("1", " a", " b"), item("2", " c", " d")],
        final_comments: vec![line(" e")],
    };
    let expr = Expr::Defs(
        vec![Def::SpaceAfter(
            Box::new(Def::Body(ident("xs"), Box::new(list))),
            vec![line(" f")],
        )],
        Box::new(before(
            Expr::Closure(
                vec![Pattern::SpaceAfter(Box::new(ident("y")), vec![line(" g")])],
                Box::new(before(var("xs"), vec![line(" h")])),
            ),
            vec![CommentOrNewline::Newline, line(" i")],
        )),
    );
    let expected = vec!["## a", "# b", "## c", "# d", "# e", "# f", "# i", "# g", "# h"];
    assert_eq!(comments_of(&render(&expr)), expected);
    assert_eq!(comments_of(&render_with(&expr, Parens::InApply, Newlines::No, 8)), expected);
}

#[test]
fn one_line_layouts_need_no_room_for_indentation() {
    let expr = Expr::List { items: vec![num("1"), var("x")], final_comments: Vec::new() };
    assert_eq!(render_with(&expr, Parens::NotNeeded, Newlines::Yes, u16::MAX), "[ 1, x ]");
    let spread = Expr::List {
        items: vec![before(num("1"), vec![CommentOrNewline::Newline])],
        final_comments: Vec::new(),
    };
    let text = render_with(&spread, Parens::NotNeeded, Newlines::Yes, u16::MAX - 4);
    assert_eq!(text.len(), 1 + 1 + 65535 + 2 + 1 + 65531 + 1);
}
