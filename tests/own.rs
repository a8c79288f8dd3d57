use origami::lexer::{tokenize, Tok};
use origami::{anon, comp, resolve_attributes, Attr, AttributeValue, Binding, ErrorKind, Templates, Value};

fn text(name: &str, v: &str) -> Binding {
    Binding { name: name.to_string(), value: Value::Text(v.to_string()) }
}

fn lib_of(defs: &[&str]) -> Templates {
    let mut lib = Templates::new();
    for d in defs {
        comp(&mut lib, d).unwrap();
    }
    lib
}

fn render(lib: &Templates, src: &str, ctx: Vec<Binding>) -> String {
    anon(lib, src).unwrap().render(&ctx, None).0
}

fn failure_kind(lib: &Templates, src: &str) -> ErrorKind {
    match anon(lib, src) {
        Ok(_) => panic!("expected an error"),
        Err(e) => e.kind,
    }
}

fn define_error(src: &str) -> ErrorKind {
    let mut lib = Templates::new();
    match comp(&mut lib, src) {
        Ok(_) => panic!("expected an error"),
        Err(e) => e.kind,
    }
}

fn attr(key: &str, value: AttributeValue) -> Attr {
    Attr { key: key.to_string(), value }
}

fn lit(v: &str) -> AttributeValue {
    AttributeValue::Lit(v.to_string())
}

#[test]
fn attributes_keep_first_position_and_last_value() {
    let lib = Templates::new();
    let html = render(&lib, r#"div a="1" b="2" a="3" {}"#, vec![]);
    assert_eq!(html, "<div a=\"3\" b=\"2\"></div>");
}

#[test]
fn bare_attribute_is_promoted_by_later_value() {
    let lib = Templates::new();
    let html = render(&lib, r#"div a a="3" {}"#, vec![]);
    assert_eq!(html, "<div a=\"3\"></div>");
}

#[test]
fn resolver_merges_pairs() {
    let pairs = vec![attr("a", lit("1")), attr("b", lit("2")), attr("a", lit("3")), attr("c", AttributeValue::Bare)];
    let out = resolve_attributes(&pairs);
    assert_eq!(out.len(), 3);
    assert_eq!(out[0].key, "a");
    assert!(matches!(&out[0].value, AttributeValue::Lit(v) if v == "3"));
    assert_eq!(out[1].key, "b");
    assert!(matches!(&out[1].value, AttributeValue::Lit(v) if v == "2"));
    assert_eq!(out[2].key, "c");
    assert!(matches!(&out[2].value, AttributeValue::Bare));
}

#[test]
fn resolver_on_empty_list() {
    let out = resolve_attributes(&vec![]);
    assert!(out.is_empty());
}

#[test]
fn quoted_attribute_key() {
    let lib = Templates::new();
    let html = render(&lib, r#"div "data-x"="1" {}"#, vec![]);
    assert_eq!(html, "<div data-x=\"1\"></div>");
}

#[test]
fn nested_block_inherits_noescape_and_sibling_keeps_outer() {
    let lib = Templates::new();
    let html = render(
        &lib,
        r#"div noescape { p { "<a>" } p escape { "<b>" } p { "<c>" } } "<d>""#,
        vec![],
    );
    assert_eq!(html, "<div><p><a></p><p>&lt;b&gt;</p><p><c></p></div>&lt;d&gt;");
}

#[test]
fn escape_marker_on_conditional_branch() {
    let lib = Templates::new();
    let html = render(
        &lib,
        r#"div noescape { if @t; == "bar"; noescape { "<x>" } else if @t; == "baz"; escape { "<y>" } else { "<z>" } }"#,
        vec![text("t", "baz")],
    );
    assert_eq!(html, "<div>&lt;y&gt;</div>");
}

#[test]
fn escape_marker_on_match() {
    let lib = Templates::new();
    let html = render(
        &lib,
        r#"div { match @t;; noescape { "foo" => { "<f>" }, _ => escape { "<g>" } } }"#,
        vec![text("t", "foo")],
    );
    assert_eq!(html, "<div><f></div>");
    let html2 = render(
        &lib,
        r#"div { match @t;; noescape { "foo" => { "<f>" }, _ => escape { "<g>" } } }"#,
        vec![text("t", "other")],
    );
    assert_eq!(html2, "<div>&lt;g&gt;</div>");
}

#[test]
fn self_closing_with_attributes() {
    let lib = Templates::new();
    let html = render(&lib, r#"input type="text" disabled;"#, vec![]);
    assert_eq!(html, "<input type=\"text\" disabled/>");
}

#[test]
fn coalesced_plan_has_no_adjacent_writes() {
    let lib = lib_of(&[r#"item(label) => li { @label; }"#]);
    let a = anon(&lib, r#"ul { call item { label { "one" } } call item { label { "two" } } } p { @x; }"#).unwrap();
    let ops = &a.plan.ops;
    for w in ops.windows(2) {
        assert!(!(matches!(w[0], origami::Op::Write(_)) && matches!(w[1], origami::Op::Write(_))));
    }
    assert_eq!(ops.len(), 3);
    assert_eq!(a.render(&vec![text("x", "y")], None).0, "<ul><li>one</li><li>two</li></ul><p>y</p>");
}

#[test]
fn two_calls_render_independently() {
    let lib = lib_of(&[r#"button(label) => button { @label; }"#]);
    let html = render(
        &lib,
        r#"call button { label { "A" } } call button { label { "B" } }"#,
        vec![],
    );
    assert_eq!(html, "<button>A</button><button>B</button>");
}

#[test]
fn hoisted_script_renders_at_its_use() {
    let lib = lib_of(&[
        r#"widget => div { span { script(tracker) { "track()" } } }"#,
        r#"page => main { call widget {} } footer { "end" } script_use tracker;"#,
    ]);
    let html = render(&lib, "call page {}", vec![]);
    assert_eq!(html, "<main><div><span></span></div></main><footer>end</footer><script>track()</script>");
}

#[test]
fn hoisted_script_without_use_is_dropped() {
    let lib = Templates::new();
    let html = render(&lib, r#"div { script(x) { "a()" } }"#, vec![]);
    assert_eq!(html, "<div></div>");
}

#[test]
fn last_hoisted_declaration_wins() {
    let lib = Templates::new();
    let html = render(&lib, r#"script(x) nominify { "a()" } script(x) nominify { "b()" } script_use x;"#, vec![]);
    assert_eq!(html, "<script>b()</script>");
}

#[test]
fn minification_toggle_on_same_content() {
    let lib = Templates::new();
    let on = render(&lib, "script { \"let  a =  1;\" }", vec![]);
    let off = render(&lib, "script nominify { \"let  a =  1;\" }", vec![]);
    assert_eq!(off, "<script>let  a =  1;</script>");
    assert_ne!(on, off);
}

#[test]
fn dynamic_script_body() {
    let lib = Templates::new();
    let html = render(&lib, "script nominify { @code; }", vec![text("code", "x  = 1")]);
    assert_eq!(html, "<script>x  = 1</script>");
}

#[test]
fn empty_script_and_style() {
    let lib = Templates::new();
    let html = render(&lib, r#"script src="a.js" {} style {}"#, vec![]);
    assert_eq!(html, "<script src=\"a.js\"></script><style></style>");
}

#[test]
fn end_to_end_example() {
    let lib = Templates::new();
    let html = render(&lib, r#"div { "hello" @name; }"#, vec![text("name", "<b>\"")]);
    assert_eq!(html, "<div>hello&lt;b&gt;\"</div>");
}

#[test]
fn escaping_of_ampersand() {
    let lib = Templates::new();
    let html = render(&lib, r#"p { "a & b > c" }"#, vec![]);
    assert_eq!(html, "<p>a &amp; b &gt; c</p>");
}

#[test]
fn layout_with_extending_template() {
    let lib = lib_of(&[
        r#"layout base => html { head { title { block title; } } body { block content; } }"#,
        r#"home @base => extend title { "Home" } extend content { h1 { "Welcome" } }"#,
    ]);
    let html = render(&lib, "call home {}", vec![]);
    assert_eq!(html, "<html><head><title>Home</title></head><body><h1>Welcome</h1></body></html>");
}

#[test]
fn layout_slot_left_empty() {
    let lib = lib_of(&[
        r#"layout base => header { block top; } main { block content; }"#,
        r#"page @base => extend content { "x" }"#,
    ]);
    assert_eq!(render(&lib, "call page {}", vec![]), "<header></header><main>x</main>");
    assert_eq!(render(&lib, "call base {}", vec![]), "<header></header><main></main>");
}

#[test]
fn layout_slot_uses_layout_escape_context() {
    let lib = lib_of(&[
        r#"layout base => div noescape { block content; }"#,
        r#"page @base => extend content { "<i>" }"#,
    ]);
    assert_eq!(render(&lib, "call page {}", vec![]), "<div><i></div>");
}

#[test]
fn props_layout_example() {
    let lib = lib_of(&[
        r#"layout_component(content) => nav { ul { li { a { "Home" } } } } main { @content; } footer { p { "(c)" } }"#,
        r#"home => call layout_component { content { h1 { "Welcome!" } p { "Main." } } }"#,
    ]);
    let html = anon(&lib, "call home {}").unwrap().render(&vec![], Some(250)).0;
    assert_eq!(
        html,
        "<nav><ul><li><a>Home</a></li></ul></nav><main><h1>Welcome!</h1><p>Main.</p></main><footer><p>(c)</p></footer>"
    );
}

#[test]
fn unknown_data_renders_empty() {
    let lib = Templates::new();
    assert_eq!(render(&lib, "p { @missing; }", vec![]), "<p></p>");
}

#[test]
fn inner_scope_shadows_outer() {
    let lib = Templates::new();
    let items = Binding {
        name: "items".to_string(),
        value: Value::List(vec![vec![text("n", "1")], vec![text("n", "2")]]),
    };
    let html = render(&lib, "for it in @items;; { @it.n; @title; }", vec![text("title", "-"), items]);
    assert_eq!(html, "1-2-");
}

#[test]
fn not_equal_condition() {
    let lib = Templates::new();
    assert_eq!(render(&lib, r#"if @a; != "x"; { "yes" } else { "no" }"#, vec![text("a", "y")]), "yes");
    assert_eq!(render(&lib, r#"if @a; != "x"; { "yes" }"#, vec![text("a", "x")]), "");
}

#[test]
fn match_guard() {
    let lib = Templates::new();
    let src = r#"match @a;; { "x" if @b; == "1" => { "one" }, "x" => { "other" } }"#;
    assert_eq!(render(&lib, src, vec![text("a", "x"), text("b", "1")]), "one");
    assert_eq!(render(&lib, src, vec![text("a", "x"), text("b", "2")]), "other");
    assert_eq!(render(&lib, src, vec![text("a", "z")]), "");
}

#[test]
fn error_unterminated_string() {
    let lib = Templates::new();
    assert_eq!(failure_kind(&lib, "div { \"abc }"), ErrorKind::UnterminatedString);
}

#[test]
fn error_unexpected_token() {
    let lib = Templates::new();
    assert_eq!(failure_kind(&lib, "div { = }"), ErrorKind::UnexpectedToken);
}

#[test]
fn error_unexpected_end() {
    let lib = Templates::new();
    assert_eq!(failure_kind(&lib, "div { p {} "), ErrorKind::UnexpectedEnd);
}

#[test]
fn error_duplicate_prop() {
    assert_eq!(define_error("c(a, b, a) => div {}"), ErrorKind::DuplicateProp);
}

#[test]
fn error_missing_and_unknown_prop() {
    let lib = lib_of(&["c(a) => div { @a; }"]);
    assert_eq!(failure_kind(&lib, "call c {}"), ErrorKind::MissingProp);
    assert_eq!(failure_kind(&lib, r#"call c { a { "1" } b { "2" } }"#), ErrorKind::UnknownProp);
    assert_eq!(failure_kind(&lib, r#"call c { a { "1" } a { "2" } }"#), ErrorKind::UnknownProp);
}

#[test]
fn error_unknown_component() {
    let lib = Templates::new();
    assert_eq!(failure_kind(&lib, "call nothing {}"), ErrorKind::UnknownComponent);
}

#[test]
fn error_duplicate_definition() {
    let mut lib = lib_of(&["c => div {}"]);
    let e = comp(&mut lib, "c => p {}").unwrap_err();
    assert_eq!(e.kind, ErrorKind::DuplicateDefinition);
    assert_eq!(lib.components.len(), 1);
}

#[test]
fn error_escape_on_script() {
    let lib = Templates::new();
    assert_eq!(failure_kind(&lib, r#"script noescape { "a" }"#), ErrorKind::EscapeOnRawText);
    assert_eq!(failure_kind(&lib, r#"style escape { "a" }"#), ErrorKind::EscapeOnRawText);
}

#[test]
fn error_nominify_on_element() {
    let lib = Templates::new();
    assert_eq!(failure_kind(&lib, "div nominify {}"), ErrorKind::NoMinifyOutsideRawText);
}

#[test]
fn error_block_outside_layout() {
    let lib = lib_of(&["c => div { block x; }"]);
    assert_eq!(failure_kind(&lib, "call c {}"), ErrorKind::BlockOutsideLayout);
}

#[test]
fn error_misplaced_extend() {
    let lib = lib_of(&[
        "layout base => div { block a; }",
        "page @base => extend a { extend a { } }",
    ]);
    assert_eq!(failure_kind(&lib, "call page {}"), ErrorKind::MisplacedExtend);
    assert_eq!(failure_kind(&lib, "extend a {}"), ErrorKind::MisplacedExtend);
}

#[test]
fn error_content_in_extending_template() {
    assert_eq!(define_error(r#"page @base => div {}"#), ErrorKind::ContentInExtendingTemplate);
}

#[test]
fn error_unknown_slot() {
    let lib = lib_of(&["layout base => div { block a; }", r#"page @base => extend b { "x" }"#]);
    assert_eq!(failure_kind(&lib, "call page {}"), ErrorKind::UnknownSlot);
}

#[test]
fn error_nesting_too_deep() {
    let lib = lib_of(&["c => call c {}"]);
    assert_eq!(failure_kind(&lib, "call c {}"), ErrorKind::NestingTooDeep);
}

#[test]
fn error_position_points_at_token() {
    let lib = Templates::new();
    let e = anon(&lib, "div { p { } ; }").err().unwrap();
    assert_eq!(e.kind, ErrorKind::UnexpectedToken);
    assert_eq!(e.at, 12);
}

#[test]
fn escaping_unavailable_ignores_markers() {
    let lib = Templates::with_capabilities(false, true);
    let html = render(&lib, r#"div escape { "<a>" @x; }"#, vec![text("x", "<b>")]);
    assert_eq!(html, "<div><a><b></div>");
}

#[test]
fn minification_unavailable_keeps_text() {
    let lib = Templates::with_capabilities(true, false);
    let html = render(&lib, "script { \"let  a =  1;\" } style { \"p {  }\" }", vec![]);
    assert_eq!(html, "<script>let  a =  1;</script><style>p {  }</style>");
}

#[test]
fn should_work() {
    let lib = Templates::new();
    let html = render(
        &lib,
        r#"input class="test" escape style="test" id=@id; noescape class="test2" bar;"#,
        vec![text("id", "x")],
    );
    assert_eq!(html, "<input class=\"test2\" style=\"test\" id=\"x\" bar/>");
}

#[test]
fn attributes_parse_keeps_markers_apart() {
    let ts = tokenize(r#"a="1" b escape a=@x.y; noescape nominify {"#).unwrap();
    let (attrs, end) = origami::Attributes::parse(&ts, 0).unwrap();
    assert_eq!(end, ts.len() - 1);
    assert_eq!(attrs.escape, Some(false));
    assert!(attrs.nominify);
    assert_eq!(attrs.list.len(), 2);
    assert_eq!(attrs.list[0].key, "a");
    assert!(matches!(&attrs.list[0].value, AttributeValue::Expr(p) if p == "x.y"));
    assert_eq!(attrs.list[1].key, "b");
    assert!(matches!(&attrs.list[1].value, AttributeValue::Bare));
}

#[test]
fn tokenize_positions_and_kinds() {
    let ts = tokenize("div  \"a b\" r#\"x\"y\"# @n;").unwrap();
    assert_eq!(ts.len(), 6);
    assert!(matches!(&ts[0].tok, Tok::Ident(s) if s == "div"));
    assert_eq!((ts[0].start, ts[0].end), (0, 3));
    assert!(matches!(&ts[1].tok, Tok::Str(s) if s == "a b"));
    assert_eq!((ts[1].start, ts[1].end), (5, 10));
    assert!(matches!(&ts[2].tok, Tok::Str(s) if s == "x\"y"));
    assert_eq!((ts[2].start, ts[2].end), (11, 19));
    assert!(matches!(&ts[3].tok, Tok::Punct('@')));
    assert!(matches!(&ts[5].tok, Tok::Punct(';')));
}

#[test]
fn tokenize_unclosed_raw_string() {
    let e = tokenize("p { r#\"abc\" }").err().unwrap();
    assert_eq!(e.kind, ErrorKind::UnterminatedString);
    assert_eq!(e.at, 4);
}

#[test]
fn hoisted_declaration_after_first_use_is_ignored() {
    let lib = Templates::new();
    let html = render(
        &lib,
        r#"script(x) nominify { "a()" } script_use x; script(x) nominify { "b()" } script_use x;"#,
        vec![],
    );
    assert_eq!(html, "<script>a()</script><script>a()</script>");
}

#[test]
fn script_literal_with_bang() {
    let lib = Templates::new();
    let html = render(&lib, r#"script nominify { "a < b"! }"#, vec![]);
    assert_eq!(html, "<script>a < b</script>");
}

#[test]
fn minify_skips_text_that_opens_a_tag() {
    let lib = Templates::new();
    let raw = render(&lib, r##"script { r#"x  =  "<b>";"# }"##, vec![]);
    assert_eq!(raw, "<script>x  =  \"<b>\";</script>");
}

#[test]
fn prop_errors_name_the_prop() {
    let lib = lib_of(&["c(a) => div { @a; }"]);
    let e = anon(&lib, "call c {}").err().unwrap();
    assert_eq!(e.kind, ErrorKind::MissingProp);
    assert_eq!(e.name.as_deref(), Some("a"));
    let e = anon(&lib, r#"call c { a { "1" } b { "2" } }"#).err().unwrap();
    assert_eq!(e.kind, ErrorKind::UnknownProp);
    assert_eq!(e.name.as_deref(), Some("b"));
}

#[test]
fn duplicate_prop_is_reported_where_it_stands() {
    let mut lib = Templates::new();
    let e = comp(&mut lib, "c(a, b, a) => div {}").unwrap_err();
    assert_eq!(e.kind, ErrorKind::DuplicateProp);
    assert_eq!(e.at, 8);
}

#[test]
fn include_uses_added_text() {
    let mut lib = Templates::new();
    lib.add_include("part.txt".to_string(), "<b>".to_string());
    assert_eq!(render(&lib, r#"p { i "part.txt" }"#, vec![]), "<p>&lt;b&gt;</p>");
    assert_eq!(render(&lib, r#"p { i "part.txt"! }"#, vec![]), "<p><b></p>");
    assert_eq!(failure_kind(&lib, r#"p { i "other.txt" }"#), ErrorKind::UnknownInclude);
    assert_eq!(render(&lib, r#"i { "x" }"#, vec![]), "<i>x</i>");
}
