use iced_markup::compile;
use iced_markup::parser::ErrKind;
use iced_markup::token::{Delim, Tok, TokKind};

fn id(span: usize, s: &str) -> Tok {
    Tok { span, kind: TokKind::Ident(s.to_string()) }
}

fn lit(span: usize, s: &str) -> Tok {
    Tok { span, kind: TokKind::Lit(s.to_string()) }
}

fn pu(span: usize, c: char) -> Tok {
    Tok { span, kind: TokKind::Punct(c) }
}

fn op(span: usize, d: Delim) -> Tok {
    Tok { span, kind: TokKind::Open(d) }
}

fn cl(span: usize, d: Delim) -> Tok {
    Tok { span, kind: TokKind::Close(d) }
}

/// The `iced :: widget ::` qualification the generator emits.
fn widget_prefix() -> Vec<Tok> {
    vec![id(0, "iced"), pu(0, ':'), pu(0, ':'), id(0, "widget"), pu(0, ':'), pu(0, ':')]
}

fn cat(parts: Vec<Vec<Tok>>) -> Vec<Tok> {
    let mut out = Vec::new();
    for p in parts {
        out.extend(p);
    }
    out
}

#[test]
fn attr_order_a_then_b() {
    // widget![a: 1, b: 2] {}  must chain .a(1).b(2)
    let input = vec![
        id(1, "widget"),
        pu(2, '!'),
        op(3, Delim::Bracket),
        id(4, "a"),
        pu(5, ':'),
        lit(6, "1"),
        pu(7, ','),
        id(8, "b"),
        pu(9, ':'),
        lit(10, "2"),
        cl(11, Delim::Bracket),
        op(12, Delim::Brace),
        cl(13, Delim::Brace),
    ];
    let out = compile(&input).unwrap();
    let expected = cat(vec![
        widget_prefix(),
        vec![id(0, "widget"), op(0, Delim::Paren), cl(0, Delim::Paren)],
        vec![pu(0, '.'), id(0, "a"), op(0, Delim::Paren), lit(6, "1"), cl(0, Delim::Paren)],
        vec![pu(0, '.'), id(0, "b"), op(0, Delim::Paren), lit(10, "2"), cl(0, Delim::Paren)],
    ]);
    assert_eq!(out, expected);
}

#[test]
fn attr_order_b_then_a() {
    // widget![b: 2, a: 1] {}  must chain .b(2).a(1)
    let input = vec![
        id(1, "widget"),
        pu(2, '!'),
        op(3, Delim::Bracket),
        id(4, "b"),
        pu(5, ':'),
        lit(6, "2"),
        pu(7, ','),
        id(8, "a"),
        pu(9, ':'),
        lit(10, "1"),
        cl(11, Delim::Bracket),
        op(12, Delim::Brace),
        cl(13, Delim::Brace),
    ];
    let out = compile(&input).unwrap();
    let expected = cat(vec![
        widget_prefix(),
        vec![id(0, "widget"), op(0, Delim::Paren), cl(0, Delim::Paren)],
        vec![pu(0, '.'), id(0, "b"), op(0, Delim::Paren), lit(6, "2"), cl(0, Delim::Paren)],
        vec![pu(0, '.'), id(0, "a"), op(0, Delim::Paren), lit(10, "1"), cl(0, Delim::Paren)],
    ]);
    assert_eq!(out, expected);
}

#[test]
fn duplicate_attr_keys_kept() {
    // w![a: 1, a: 2] {} chains .a(1).a(2); duplicates are not merged
    let input = vec![
        id(1, "w"),
        pu(2, '!'),
        op(3, Delim::Bracket),
        id(4, "a"),
        pu(5, ':'),
        lit(6, "1"),
        pu(7, ','),
        id(8, "a"),
        pu(9, ':'),
        lit(10, "2"),
        cl(11, Delim::Bracket),
        op(12, Delim::Brace),
        cl(13, Delim::Brace),
    ];
    let out = compile(&input).unwrap();
    let expected = cat(vec![
        widget_prefix(),
        vec![id(0, "w"), op(0, Delim::Paren), cl(0, Delim::Paren)],
        vec![pu(0, '.'), id(0, "a"), op(0, Delim::Paren), lit(6, "1"), cl(0, Delim::Paren)],
        vec![pu(0, '.'), id(0, "a"), op(0, Delim::Paren), lit(10, "2"), cl(0, Delim::Paren)],
    ]);
    assert_eq!(out, expected);
}

#[test]
fn combo_no_sections_is_expression_child() {
    // a bare name has no call marker attached: it passes through verbatim
    let input = vec![id(7, "w")];
    let out = compile(&input).unwrap();
    assert_eq!(out, vec![id(7, "w")]);
}

#[test]
fn combo_args_only() {
    let input = vec![id(1, "w"), op(2, Delim::Paren), lit(3, "5"), cl(4, Delim::Paren)];
    let out = compile(&input).unwrap();
    let expected = cat(vec![
        widget_prefix(),
        vec![id(0, "w"), op(0, Delim::Paren), lit(3, "5"), cl(0, Delim::Paren)],
    ]);
    assert_eq!(out, expected);
}

#[test]
fn combo_attrs_only() {
    let input = vec![
        id(1, "w"),
        pu(2, '!'),
        op(3, Delim::Bracket),
        id(4, "a"),
        pu(5, ':'),
        lit(6, "1"),
        cl(7, Delim::Bracket),
    ];
    let out = compile(&input).unwrap();
    let expected = cat(vec![
        widget_prefix(),
        vec![id(0, "w"), op(0, Delim::Paren), cl(0, Delim::Paren)],
        vec![pu(0, '.'), id(0, "a"), op(0, Delim::Paren), lit(6, "1"), cl(0, Delim::Paren)],
    ]);
    assert_eq!(out, expected);
}

#[test]
fn combo_children_only() {
    let input = vec![id(1, "w"), op(2, Delim::Brace), lit(3, "9"), cl(4, Delim::Brace)];
    let out = compile(&input).unwrap();
    let expected = cat(vec![
        widget_prefix(),
        vec![id(0, "w"), pu(0, '!'), op(0, Delim::Bracket), lit(3, "9"), cl(0, Delim::Bracket)],
    ]);
    assert_eq!(out, expected);
}

#[test]
fn combo_args_and_attrs() {
    let input = vec![
        id(1, "w"),
        op(2, Delim::Paren),
        lit(3, "5"),
        cl(4, Delim::Paren),
        pu(5, '!'),
        op(6, Delim::Bracket),
        id(7, "a"),
        pu(8, ':'),
        lit(9, "1"),
        cl(10, Delim::Bracket),
    ];
    let out = compile(&input).unwrap();
    let expected = cat(vec![
        widget_prefix(),
        vec![id(0, "w"), op(0, Delim::Paren), lit(3, "5"), cl(0, Delim::Paren)],
        vec![pu(0, '.'), id(0, "a"), op(0, Delim::Paren), lit(9, "1"), cl(0, Delim::Paren)],
    ]);
    assert_eq!(out, expected);
}

#[test]
fn combo_args_and_children() {
    // the collection constructor supersedes positional arguments
    let input = vec![
        id(1, "w"),
        op(2, Delim::Paren),
        lit(3, "5"),
        cl(4, Delim::Paren),
        op(5, Delim::Brace),
        lit(6, "9"),
        cl(7, Delim::Brace),
    ];
    let out = compile(&input).unwrap();
    let expected = cat(vec![
        widget_prefix(),
        vec![id(0, "w"), pu(0, '!'), op(0, Delim::Bracket), lit(6, "9"), cl(0, Delim::Bracket)],
    ]);
    assert_eq!(out, expected);
}

#[test]
fn combo_attrs_and_children() {
    let input = vec![
        id(1, "w"),
        pu(2, '!'),
        op(3, Delim::Bracket),
        id(4, "a"),
        pu(5, ':'),
        lit(6, "1"),
        cl(7, Delim::Bracket),
        op(8, Delim::Brace),
        lit(9, "9"),
        cl(10, Delim::Brace),
    ];
    let out = compile(&input).unwrap();
    let expected = cat(vec![
        widget_prefix(),
        vec![id(0, "w"), pu(0, '!'), op(0, Delim::Bracket), lit(9, "9"), cl(0, Delim::Bracket)],
        vec![pu(0, '.'), id(0, "a"), op(0, Delim::Paren), lit(6, "1"), cl(0, Delim::Paren)],
    ]);
    assert_eq!(out, expected);
}

#[test]
fn combo_all_sections() {
    let input = vec![
        id(1, "w"),
        op(2, Delim::Paren),
        lit(3, "5"),
        cl(4, Delim::Paren),
        pu(5, '!'),
        op(6, Delim::Bracket),
        id(7, "a"),
        pu(8, ':'),
        lit(9, "1"),
        cl(10, Delim::Bracket),
        op(11, Delim::Brace),
        lit(12, "9"),
        cl(13, Delim::Brace),
    ];
    let out = compile(&input).unwrap();
    let expected = cat(vec![
        widget_prefix(),
        vec![id(0, "w"), pu(0, '!'), op(0, Delim::Bracket), lit(12, "9"), cl(0, Delim::Bracket)],
        vec![pu(0, '.'), id(0, "a"), op(0, Delim::Paren), lit(9, "1"), cl(0, Delim::Paren)],
    ]);
    assert_eq!(out, expected);
}

#[test]
fn trailing_comma_in_children_is_idempotent() {
    let without = vec![
        id(1, "w"),
        op(2, Delim::Brace),
        lit(3, "1"),
        pu(4, ','),
        lit(5, "2"),
        cl(6, Delim::Brace),
    ];
    let with = vec![
        id(1, "w"),
        op(2, Delim::Brace),
        lit(3, "1"),
        pu(4, ','),
        lit(5, "2"),
        pu(7, ','),
        cl(6, Delim::Brace),
    ];
    assert_eq!(compile(&without).unwrap(), compile(&with).unwrap());
}

#[test]
fn trailing_comma_in_attrs_is_idempotent() {
    let without = vec![
        id(1, "w"),
        pu(2, '!'),
        op(3, Delim::Bracket),
        id(4, "a"),
        pu(5, ':'),
        lit(6, "1"),
        cl(7, Delim::Bracket),
    ];
    let with = vec![
        id(1, "w"),
        pu(2, '!'),
        op(3, Delim::Bracket),
        id(4, "a"),
        pu(5, ':'),
        lit(6, "1"),
        pu(8, ','),
        cl(7, Delim::Bracket),
    ];
    assert_eq!(compile(&without).unwrap(), compile(&with).unwrap());
}

#[test]
fn expression_child_passes_through_verbatim() {
    // w { x + 1 } keeps the expression's tokens and spans untouched
    let input = vec![
        id(1, "w"),
        op(2, Delim::Brace),
        id(3, "x"),
        pu(4, '+'),
        lit(5, "1"),
        cl(6, Delim::Brace),
    ];
    let out = compile(&input).unwrap();
    let expected = cat(vec![
        widget_prefix(),
        vec![
            id(0, "w"),
            pu(0, '!'),
            op(0, Delim::Bracket),
            id(3, "x"),
            pu(4, '+'),
            lit(5, "1"),
            cl(0, Delim::Bracket),
        ],
    ]);
    assert_eq!(out, expected);
}

#[test]
fn three_level_nesting() {
    // a { b { c {} } }
    let input = vec![
        id(1, "a"),
        op(2, Delim::Brace),
        id(3, "b"),
        op(4, Delim::Brace),
        id(5, "c"),
        op(6, Delim::Brace),
        cl(7, Delim::Brace),
        cl(8, Delim::Brace),
        cl(9, Delim::Brace),
    ];
    let out = compile(&input).unwrap();
    let expected = cat(vec![
        widget_prefix(),
        vec![id(0, "a"), pu(0, '!'), op(0, Delim::Bracket)],
        widget_prefix(),
        vec![id(0, "b"), pu(0, '!'), op(0, Delim::Bracket)],
        widget_prefix(),
        vec![id(0, "c"), op(0, Delim::Paren), cl(0, Delim::Paren)],
        vec![cl(0, Delim::Bracket), cl(0, Delim::Bracket)],
    ]);
    assert_eq!(out, expected);
}

#[test]
fn unmatched_attribute_bracket_fails() {
    // widget![a: 1 {}  — the bracket is never closed; no output tokens
    let input = vec![
        id(1, "widget"),
        pu(2, '!'),
        op(3, Delim::Bracket),
        id(4, "a"),
        pu(5, ':'),
        lit(6, "1"),
        op(7, Delim::Brace),
        cl(8, Delim::Brace),
    ];
    let e = compile(&input).unwrap_err();
    assert_eq!(e.kind, ErrKind::UnclosedDelim);
    assert_eq!(e.span, 3);
}

#[test]
fn capitalized_name_is_a_component() {
    // Comp(1) is emitted as written, with no toolkit qualification
    let input = vec![id(1, "Comp"), op(2, Delim::Paren), lit(3, "1"), cl(4, Delim::Paren)];
    let out = compile(&input).unwrap();
    assert_eq!(out, vec![id(0, "Comp"), op(0, Delim::Paren), lit(3, "1"), cl(0, Delim::Paren)]);
}

#[test]
fn qualified_path_is_a_component() {
    // ui::card { 1 } builds from its children but keeps its own path
    let input = vec![
        id(1, "ui"),
        pu(2, ':'),
        pu(3, ':'),
        id(4, "card"),
        op(5, Delim::Brace),
        lit(6, "1"),
        cl(7, Delim::Brace),
    ];
    let out = compile(&input).unwrap();
    let expected = vec![
        id(0, "ui"),
        pu(0, ':'),
        pu(0, ':'),
        id(0, "card"),
        pu(0, '!'),
        op(0, Delim::Bracket),
        lit(6, "1"),
        cl(0, Delim::Bracket),
    ];
    assert_eq!(out, expected);
}

#[test]
fn empty_input_fails() {
    let input: Vec<Tok> = vec![];
    let e = compile(&input).unwrap_err();
    assert_eq!(e.kind, ErrKind::EmptyMarkup);
}

#[test]
fn stray_close_fails() {
    let input = vec![cl(5, Delim::Paren)];
    let e = compile(&input).unwrap_err();
    assert_eq!(e.kind, ErrKind::StrayClose);
    assert_eq!(e.span, 5);
}

#[test]
fn mismatched_close_fails() {
    let input = vec![id(1, "w"), op(2, Delim::Paren), cl(3, Delim::Bracket)];
    let e = compile(&input).unwrap_err();
    assert_eq!(e.kind, ErrKind::MismatchedClose);
    assert_eq!(e.span, 3);
}

#[test]
fn attr_without_colon_fails() {
    let input = vec![
        id(1, "w"),
        pu(2, '!'),
        op(3, Delim::Bracket),
        id(4, "a"),
        lit(5, "1"),
        cl(6, Delim::Bracket),
    ];
    let e = compile(&input).unwrap_err();
    assert_eq!(e.kind, ErrKind::ExpectedColon);
    assert_eq!(e.span, 5);
}

#[test]
fn attr_without_key_fails() {
    let input = vec![
        id(1, "w"),
        pu(2, '!'),
        op(3, Delim::Bracket),
        lit(4, "1"),
        pu(5, ':'),
        lit(6, "2"),
        cl(7, Delim::Bracket),
    ];
    let e = compile(&input).unwrap_err();
    assert_eq!(e.kind, ErrKind::ExpectedAttr);
    assert_eq!(e.span, 4);
}

#[test]
fn attr_without_value_fails() {
    let input = vec![
        id(1, "w"),
        pu(2, '!'),
        op(3, Delim::Bracket),
        id(4, "a"),
        pu(5, ':'),
        cl(6, Delim::Bracket),
    ];
    let e = compile(&input).unwrap_err();
    assert_eq!(e.kind, ErrKind::ExpectedExpr);
    assert_eq!(e.span, 5);
}

#[test]
fn trailing_comma_in_args_fails() {
    // f(1,) — argument lists take no trailing separator
    let input = vec![
        id(1, "f"),
        op(2, Delim::Paren),
        lit(3, "1"),
        pu(4, ','),
        cl(5, Delim::Paren),
    ];
    let e = compile(&input).unwrap_err();
    assert_eq!(e.kind, ErrKind::ExpectedExpr);
    assert_eq!(e.span, 5);
}

#[test]
fn lone_separator_in_children_fails() {
    // w {,} — a separator with nothing before it is not an element
    let input = vec![id(1, "w"), op(2, Delim::Brace), pu(3, ','), cl(4, Delim::Brace)];
    let e = compile(&input).unwrap_err();
    assert_eq!(e.kind, ErrKind::ExpectedNode);
    assert_eq!(e.span, 3);
}

#[test]
fn tokens_after_sections_fail() {
    let input = vec![id(1, "w"), op(2, Delim::Brace), cl(3, Delim::Brace), id(4, "x")];
    let e = compile(&input).unwrap_err();
    assert_eq!(e.kind, ErrKind::UnexpectedToken);
    assert_eq!(e.span, 4);
}

#[test]
fn top_level_comma_fails() {
    // a markup block holds exactly one root node
    let input = vec![id(1, "a"), pu(2, ','), id(3, "b")];
    let e = compile(&input).unwrap_err();
    assert_eq!(e.kind, ErrKind::UnexpectedToken);
    assert_eq!(e.span, 2);
}

#[test]
fn worked_example_counter_view() {
    // column ![spacing: 20, padding: 40] {
    //     text("Welcome") {},
    //     row ![spacing: 10] {
    //         button("Inc") ![on_press: Msg::Increment] {},
    //         button("Dec") ![on_press: Msg::Decrement] {},
    //     },
    // }
    let input = cat(vec![
        vec![id(1, "column"), pu(2, '!'), op(3, Delim::Bracket)],
        vec![id(4, "spacing"), pu(5, ':'), lit(6, "20"), pu(7, ',')],
        vec![id(8, "padding"), pu(9, ':'), lit(10, "40"), cl(11, Delim::Bracket)],
        vec![op(12, Delim::Brace)],
        vec![id(13, "text"), op(14, Delim::Paren), lit(15, "\"Welcome\""), cl(16, Delim::Paren)],
        vec![op(17, Delim::Brace), cl(18, Delim::Brace), pu(19, ',')],
        vec![id(20, "row"), pu(21, '!'), op(22, Delim::Bracket)],
        vec![id(23, "spacing"), pu(24, ':'), lit(25, "10"), cl(26, Delim::Bracket)],
        vec![op(27, Delim::Brace)],
        vec![id(28, "button"), op(29, Delim::Paren), lit(30, "\"Inc\""), cl(31, Delim::Paren)],
        vec![pu(32, '!'), op(33, Delim::Bracket), id(34, "on_press"), pu(35, ':')],
        vec![id(36, "Msg"), pu(37, ':'), pu(38, ':'), id(39, "Increment")],
        vec![cl(40, Delim::Bracket), op(41, Delim::Brace), cl(42, Delim::Brace), pu(43, ',')],
        vec![id(44, "button"), op(45, Delim::Paren), lit(46, "\"Dec\""), cl(47, Delim::Paren)],
        vec![pu(48, '!'), op(49, Delim::Bracket), id(50, "on_press"), pu(51, ':')],
        vec![id(52, "Msg"), pu(53, ':'), pu(54, ':'), id(55, "Decrement")],
        vec![cl(56, Delim::Bracket), op(57, Delim::Brace), cl(58, Delim::Brace), pu(59, ',')],
        vec![cl(60, Delim::Brace)],
        vec![cl(61, Delim::Brace)],
    ]);
    let out = compile(&input).unwrap();
    let expected = cat(vec![
        // iced::widget::column![
        widget_prefix(),
        vec![id(0, "column"), pu(0, '!'), op(0, Delim::Bracket)],
        //   iced::widget::text("Welcome"),
        widget_prefix(),
        vec![id(0, "text"), op(0, Delim::Paren), lit(15, "\"Welcome\""), cl(0, Delim::Paren)],
        vec![pu(0, ',')],
        //   iced::widget::row![
        widget_prefix(),
        vec![id(0, "row"), pu(0, '!'), op(0, Delim::Bracket)],
        //     iced::widget::button("Inc").on_press(Msg::Increment),
        widget_prefix(),
        vec![id(0, "button"), op(0, Delim::Paren), lit(30, "\"Inc\""), cl(0, Delim::Paren)],
        vec![pu(0, '.'), id(0, "on_press"), op(0, Delim::Paren)],
        vec![id(36, "Msg"), pu(37, ':'), pu(38, ':'), id(39, "Increment")],
        vec![cl(0, Delim::Paren), pu(0, ',')],
        //     iced::widget::button("Dec").on_press(Msg::Decrement)
        widget_prefix(),
        vec![id(0, "button"), op(0, Delim::Paren), lit(46, "\"Dec\""), cl(0, Delim::Paren)],
        vec![pu(0, '.'), id(0, "on_press"), op(0, Delim::Paren)],
        vec![id(52, "Msg"), pu(53, ':'), pu(54, ':'), id(55, "Decrement")],
        vec![cl(0, Delim::Paren)],
        //   ].spacing(10)
        vec![cl(0, Delim::Bracket)],
        vec![pu(0, '.'), id(0, "spacing"), op(0, Delim::Paren), lit(25, "10"), cl(0, Delim::Paren)],
        // ].spacing(20).padding(40)
        vec![cl(0, Delim::Bracket)],
        vec![pu(0, '.'), id(0, "spacing"), op(0, Delim::Paren), lit(6, "20"), cl(0, Delim::Paren)],
        vec![pu(0, '.'), id(0, "padding"), op(0, Delim::Paren), lit(10, "40"), cl(0, Delim::Paren)],
    ]);
    assert_eq!(out, expected);
}

#[test]
fn parse_then_emit_matches_compile() {
    let input = vec![id(1, "w"), op(2, Delim::Brace), lit(3, "1"), cl(4, Delim::Brace)];
    let m = iced_markup::parser::parse_markup(&input).unwrap();
    let emitted = iced_markup::codegen::emit_markup(&m);
    assert_eq!(emitted, compile(&input).unwrap());
}
