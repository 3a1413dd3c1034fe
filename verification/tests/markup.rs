use collage::{
    check_key_expr, is_markup, is_markup_part, is_void, needs_fallback_arm, parse_markup,
    AttrKeyError, Attribute, AttributeKey, AttributeVal, Attributes, DynKind, Dynamic, Element,
    Html, KeyExpr, Lit, MacroPath, Markup, MarkupError, Part, Parts, Render, Token,
};

fn container(tag: &str, attrs: Vec<Attribute>, children: Vec<Element>) -> Element {
    Element::Container { tag: tag.to_string(), attr: Attributes(attrs), m: Markup(children) }
}

fn void(tag: &str, attrs: Vec<Attribute>) -> Element {
    Element::Void { tag: tag.to_string(), attr: Attributes(attrs) }
}

fn lit_str(s: &str) -> Element {
    Element::Lit(Lit::Str(s.to_string()))
}

fn hole(expr: usize, kind: DynKind) -> Dynamic {
    Dynamic { expr, kind }
}

fn ident_attr(names: &[&str], val: Option<AttributeVal>) -> Attribute {
    Attribute { key: AttributeKey::Idents(names.iter().map(|s| s.to_string()).collect()), val }
}

fn str_val(s: &str) -> Option<AttributeVal> {
    Some(AttributeVal::Lit(Lit::Str(s.to_string())))
}

fn render(elements: Vec<Element>, values: Vec<Option<String>>) -> String {
    let parts = Markup(elements).to_parts();
    let mut buffer = String::new();
    parts.render_with(&values, &mut buffer);
    buffer
}


fn id(name: &str) -> Token {
    Token::Ident(name.to_string(), 0)
}

fn punct(c: char) -> Token {
    Token::Punct(c, 0)
}

fn s(text: &str) -> Token {
    Token::Lit(Lit::Str(text.to_string()), 0)
}

fn braced(tokens: Vec<Token>) -> Token {
    Token::Braced(tokens, 0)
}

/// A parenthesised expression numbered `n`; its key view is a string
/// literal `key` when given.
fn paren(n: usize, kind: DynKind, key: Option<&str>) -> Token {
    let key = match key {
        Some(k) => KeyExpr::Str { value: k.to_string(), at: 0 },
        None => KeyExpr::Unsupported { at: 0 },
    };
    Token::Paren(Dynamic { expr: n, kind }, key, 0)
}

fn render_tokens(tokens: Vec<Token>, values: Vec<Option<String>>) -> String {
    let markup = parse_markup(&tokens).ok().expect("markup parses");
    markup.to_parts().to_html(&values).render()
}

#[test]
fn div() {
    assert_eq!("<div></div>", render_tokens(vec![id("div"), braced(vec![])], vec![]));
}

#[test]
fn div_text() {
    let t = vec![id("div"), braced(vec![s("Hello, World!")])];
    assert_eq!("<div>Hello, World!</div>", render_tokens(t, vec![]));
}

#[test]
fn div_span() {
    let t = vec![id("div"), braced(vec![id("span"), braced(vec![s("Hello, World!")])])];
    assert_eq!("<div><span>Hello, World!</span></div>", render_tokens(t, vec![]));
}

#[test]
fn div_mul() {
    let t = vec![id("div"), braced(vec![s("One")]), id("div"), braced(vec![s("Two")])];
    assert_eq!("<div>One</div><div>Two</div>", render_tokens(t, vec![]));
}

#[test]
fn div_mul_str() {
    let t = vec![id("div"), braced(vec![s("One")]), s("Two")];
    assert_eq!("<div>One</div>Two", render_tokens(t, vec![]));
}

#[test]
fn div_attr() {
    let t = vec![id("div"), id("id"), braced(vec![])];
    assert_eq!(r#"<div id></div>"#, render_tokens(t, vec![]));
}

#[test]
fn div_attr_val() {
    let t = vec![id("div"), id("id"), punct('='), s("foo"), braced(vec![])];
    assert_eq!(r#"<div id="foo"></div>"#, render_tokens(t, vec![]));
}

#[test]
fn run_warnings() {
    // Each invocation of the compile-fail fixture is refused.
    let lit = vec![id("div"), s(r#"&<>""#), punct('='), s(""), braced(vec![])];
    assert!(matches!(parse_markup(&lit), Err(MarkupError::Key(AttrKeyError::Invalid { .. }))));
    let bang = KeyExpr::Str { value: "!id".to_string(), at: 1 };
    let t = vec![id("div"), Token::Paren(Dynamic { expr: 0, kind: DynKind::Other }, bang, 0), braced(vec![])];
    assert!(matches!(parse_markup(&t), Err(MarkupError::Key(AttrKeyError::Invalid { at: 1, .. }))));
    let if_else = KeyExpr::If(
        Some(Box::new(KeyExpr::Str { value: "id".to_string(), at: 2 })),
        Some(Box::new(KeyExpr::Block(Some(Box::new(KeyExpr::Str {
            value: "!id".to_string(),
            at: 3,
        }))))),
    );
    assert!(matches!(check_key_expr(&if_else), Err(AttrKeyError::Invalid { at: 3, .. })));
    let arms = KeyExpr::Match(vec![
        KeyExpr::Block(Some(Box::new(KeyExpr::Str { value: "id".to_string(), at: 4 }))),
        KeyExpr::Block(Some(Box::new(KeyExpr::Str { value: "!id".to_string(), at: 5 }))),
    ]);
    assert!(matches!(check_key_expr(&arms), Err(AttrKeyError::Invalid { at: 5, .. })));
    let t = vec![id("div"), paren(0, DynKind::Other, None), braced(vec![])];
    let err = parse_markup(&t);
    assert!(matches!(err, Err(MarkupError::Key(AttrKeyError::Unsupported { at: 0 }))));
    if let Err(e) = err {
        assert_eq!(e.message(), "unsupported attribute key expression");
    }
}

#[test]
fn text() {
    assert_eq!(r#"&amp;&lt;&gt;"'/"#, render_tokens(vec![s(r#"&<>"'/"#)], vec![]));
}

#[test]
fn escaping_attr_val() {
    let t = vec![id("div"), id("id"), punct('='), s(r#"&<>""#), braced(vec![])];
    assert_eq!(r#"<div id="&amp;&lt;&gt;&quot;"></div>"#, render_tokens(t, vec![]));
}

#[test]
fn expr() {
    let t = vec![paren(0, DynKind::Other, None)];
    let values = vec![Some(r#"&<>"'/"#.render())];
    assert_eq!("&amp;&lt;&gt;&quot;&#x27;&#x2F;", render_tokens(t, values));
}

#[test]
fn expr_attr_val() {
    let t = vec![id("div"), id("id"), punct('='), paren(0, DynKind::Other, None), braced(vec![])];
    let values = vec![Some(r#"&<>"'/"#.render())];
    assert_eq!(r#"<div id="&amp;&lt;&gt;&quot;&#x27;&#x2F;"></div>"#, render_tokens(t, values));

    let t = vec![id("div"), id("id"), punct('='), paren(0, DynKind::Other, None), braced(vec![])];
    assert_eq!(r#"<div id="123"></div>"#, render_tokens(t, vec![Some(123.render())]));
}

#[test]
fn num() {
    let t = vec![paren(0, DynKind::Other, None)];
    assert_eq!("1", render_tokens(t, vec![Some(1.render())]));
}

#[test]
fn for_loop() {
    let mut items = String::new();
    for item in ["One", "Two", "Three"] {
        let li = vec![id("li"), braced(vec![paren(0, DynKind::Other, None)])];
        items.push_str(&render_tokens(li, vec![Some(item.render())]));
    }
    let t = vec![id("ul"), braced(vec![paren(0, DynKind::ForLoop, None)])];
    assert_eq!("<ul><li>One</li><li>Two</li><li>Three</li></ul>", render_tokens(t, vec![Some(items)]));
}

#[test]
fn part() {
    let inner = render_tokens(vec![s("One")], vec![]);
    let t = vec![id("div"), braced(vec![paren(0, DynKind::MarkupMacro, None)])];
    assert_eq!("<div>One</div>", render_tokens(t, vec![Some(inner)]));
}

#[test]
fn elt_some() {
    let t = vec![id("div"), braced(vec![paren(0, DynKind::IfWithoutElse, None)])];
    assert_eq!("<div>true</div>", render_tokens(t, vec![Some("true".render())]));
}

#[test]
fn elt_none() {
    let t = vec![id("div"), braced(vec![paren(0, DynKind::IfWithoutElse, None)])];
    assert_eq!("<div></div>", render_tokens(t, vec![None]));
}

#[test]
fn attr_key() {
    let t = vec![
        id("div"),
        paren(0, DynKind::Other, Some("id")),
        punct('='),
        s("one"),
        s("foo"),
        punct('='),
        s("bar"),
        braced(vec![]),
    ];
    assert_eq!(r#"<div id="one" foo="bar"></div>"#, render_tokens(t, vec![Some("id".render())]));
}

#[test]
fn attr_some() {
    let key = KeyExpr::If(Some(Box::new(KeyExpr::Str { value: "id".to_string(), at: 0 })), None);
    let t = vec![id("div"), Token::Paren(Dynamic { expr: 0, kind: DynKind::IfWithoutElse }, key, 0), braced(vec![])];
    assert_eq!("<div id></div>", render_tokens(t, vec![Some("id".render())]));
}

#[test]
fn attr_none() {
    let key = KeyExpr::If(Some(Box::new(KeyExpr::Str { value: "id".to_string(), at: 0 })), None);
    let t = vec![id("div"), Token::Paren(Dynamic { expr: 0, kind: DynKind::IfWithoutElse }, key, 0), braced(vec![])];
    assert_eq!("<div></div>", render_tokens(t, vec![None]));
}

#[test]
fn match_arm() {
    assert!(needs_fallback_arm(&vec![false, false]));
    let bar = render_tokens(vec![id("p"), braced(vec![s("bar")])], vec![]);
    let t = vec![paren(0, DynKind::Match, None)];
    assert_eq!("<p>bar</p>", render_tokens(t, vec![Some(bar)]));
}

#[test]
fn negative_literals() {
    let t = vec![punct('-'), Token::Lit(Lit::Int("1".to_string()), 0), punct('-'), Token::Lit(Lit::Float("2.5".to_string()), 0)];
    assert_eq!("-1-2.5", render_tokens(t, vec![]));
    let t = vec![id("div"), id("x"), punct('='), punct('-'), Token::Lit(Lit::Int("1".to_string()), 0), braced(vec![])];
    assert_eq!(r#"<div x="-1"></div>"#, render_tokens(t, vec![]));
    let t = vec![punct('-'), s("x")];
    assert!(matches!(parse_markup(&t), Err(MarkupError::UnexpectedToken { .. })));
    assert!(!Lit::Int("-".to_string()).is_supported());
    assert!(!Lit::Int("1-".to_string()).is_supported());
}

#[test]
fn markup_values_compose() {
    let inner = parse_markup(&vec![id("b"), braced(vec![s("x<")])]).ok().unwrap().to_parts().to_html(&vec![]);
    assert_eq!(inner.render(), "<b>x&lt;</b>");
    let t = vec![id("p"), braced(vec![paren(0, DynKind::Other, None)])];
    assert_eq!("<p><b>x&lt;</b></p>", render_tokens(t, vec![Some(inner.render())]));
    let mut buffer = String::from("<!-- -->");
    Html("<i></i>".to_string()).render_to(&mut buffer);
    assert_eq!(buffer, "<!-- --><i></i>");
}

#[test]
fn grammar_edges() {
    // Void elements close with `;`; elements with content need braces.
    let t = vec![id("meta"), id("charset"), punct('='), s("utf-8"), punct(';'), id("br"), punct(';')];
    assert_eq!(r#"<meta charset="utf-8"><br>"#, render_tokens(t, vec![]));
    assert!(matches!(parse_markup(&vec![id("br")]), Err(MarkupError::ExpectedSemicolon { at: None })));
    assert!(matches!(parse_markup(&vec![id("div"), punct(';')]), Err(MarkupError::ExpectedBraces { at: Some(0) })));
    // A token that starts no element is refused instead of looping.
    assert!(matches!(parse_markup(&vec![punct(';')]), Err(MarkupError::UnexpectedToken { .. })));
    assert!(matches!(parse_markup(&vec![braced(vec![])]), Err(MarkupError::UnexpectedToken { .. })));
    // Identifier keys are joined by `-`; `=` without a value leaves none.
    let t = vec![id("div"), id("data"), punct('-'), id("var"), punct('='), braced(vec![])];
    assert_eq!("<div data-var></div>", render_tokens(t, vec![]));
    // `true` and `false` read as literals, as element and as value.
    let t = vec![id("true"), id("p"), id("hidden"), punct('='), id("false"), braced(vec![])];
    assert_eq!(r#"true<p hidden="false"></p>"#, render_tokens(t, vec![]));
    // Literals markup does not accept are refused.
    let t = vec![Token::Lit(Lit::Byte(1), 7)];
    assert!(matches!(parse_markup(&t), Err(MarkupError::UnsupportedLit { at: 7 })));
    let t = vec![Token::Lit(Lit::Int(r#""><"#.to_string()), 8)];
    assert!(matches!(parse_markup(&t), Err(MarkupError::UnsupportedLit { at: 8 })));
}

#[test]
fn void_elements() {
    assert!(is_void("meta"));
    assert!(is_void("link"));
    assert!(!is_void("div"));
    let m = vec![
        void("meta", vec![ident_attr(&["charset"], str_val("utf-8"))]),
        void("link", vec![ident_attr(&["rel"], str_val("stylesheet")), ident_attr(&["href"], str_val("/style.css"))]),
    ];
    assert_eq!(r#"<meta charset="utf-8"><link rel="stylesheet" href="/style.css">"#, render(m, vec![]));
}

#[test]
fn literals() {
    let m = vec![
        lit_str("text"),
        Element::Lit(Lit::Char(' ')),
        Element::Lit(Lit::ByteStr(b"bytes".to_vec())),
        Element::Lit(Lit::Char(' ')),
        Element::Lit(Lit::Char('c')),
        Element::Lit(Lit::Char(' ')),
        Element::Lit(Lit::Int("42".to_string())),
        Element::Lit(Lit::Char(' ')),
        Element::Lit(Lit::Float("3.14".to_string())),
        Element::Lit(Lit::Char(' ')),
        Element::Lit(Lit::Bool(true)),
        Element::Lit(Lit::Char('<')),
    ];
    assert_eq!("text bytes c 42 3.14 true&lt;", render(m, vec![]));
    let lossy = vec![Element::Lit(Lit::ByteStr(vec![b'a', 0xff, b'<']))];
    assert_eq!("a\u{FFFD}&lt;", render(lossy, vec![]));
    assert!(!Lit::Byte(1).is_supported());
    assert!(!Lit::CStr(vec![]).is_supported());
    assert!(Lit::Bool(false).is_supported());
    assert!(Markup(vec![container("p", vec![], vec![Element::Lit(Lit::Int("1".to_string()))])]).is_wf());
    assert!(!Markup(vec![container("p", vec![], vec![Element::Lit(Lit::Byte(b'x'))])]).is_wf());
    let bad_attr = ident_attr(&["x"], Some(AttributeVal::Lit(Lit::Verbatim("v".to_string()))));
    assert!(!Markup(vec![void("br", vec![bad_attr])]).is_wf());
}

#[test]
fn attribute_value_literals() {
    let attrs = vec![
        ident_attr(&["a"], Some(AttributeVal::Lit(Lit::Char('"')))),
        ident_attr(&["b"], Some(AttributeVal::Lit(Lit::Bool(false)))),
        ident_attr(&["c"], Some(AttributeVal::Lit(Lit::ByteStr(b"x'y".to_vec())))),
        ident_attr(&["data", "var"], Some(AttributeVal::Lit(Lit::Int("7".to_string())))),
    ];
    let m = vec![container("div", attrs, vec![])];
    assert_eq!(r#"<div a="&quot;" b="false" c="x'y" data-var="7"></div>"#, render(m, vec![]));
}

#[test]
fn parts_merge_statics() {
    let m = Markup(vec![container("div", vec![], vec![lit_str("a"), Element::Expr(hole(0, DynKind::Other)), lit_str("b")])]);
    let parts = m.to_parts();
    assert_eq!(parts.0.len(), 3);
    assert!(matches!(&parts.0[0], Part::Static(s) if s == "<div>a"));
    assert!(matches!(&parts.0[2], Part::Static(s) if s == "b</div>"));
    let mut p = Parts::new();
    p.push(Part::Static("x".to_string()));
    p.push(Part::Static("y".to_string()));
    assert_eq!(p.0.len(), 1);
    assert!(!p.0[0].writes_space());
}

#[test]
fn space_rules() {
    let attr = |kind| Attribute { key: AttributeKey::Expr(hole(0, kind)), val: None };
    let m = vec![container("div", vec![attr(DynKind::Other)], vec![])];
    assert_eq!("<div ></div>", render(m, vec![Some(String::new())]));
}

#[test]
fn macro_paths() {
    let path = |colon: bool, segs: &[&str]| MacroPath {
        leading_colon: colon,
        segments: segs.iter().map(|s| s.to_string()).collect(),
    };
    assert!(is_markup(&path(false, &["markup"])));
    assert!(!is_markup(&path(true, &["markup"])));
    assert!(is_markup(&path(true, &["collage", "markup"])));
    assert!(is_markup(&path(false, &["x", "collage", "markup"])));
    assert!(!is_markup(&path(false, &["other", "markup"])));
    assert!(is_markup_part(&path(false, &["markup_part"])));
    assert!(!is_markup_part(&path(false, &["markup"])));
    assert!(!needs_fallback_arm(&vec![false, true]));
    assert!(needs_fallback_arm(&vec![]));
}
