use origami::{anon, comp, Binding, Templates, Value};

fn text(name: &str, v: &str) -> Binding {
    Binding { name: name.to_string(), value: Value::Text(v.to_string()) }
}

fn lib_of(defs: &[&str]) -> Templates {
    let mut lib = Templates::new();
    for d in defs {
        comp(&mut lib, d).unwrap();
    }
    lib
}

fn render(lib: &Templates, src: &str, ctx: Vec<Binding>) -> String {
    anon(lib, src).unwrap().render(&ctx, None).0
}

#[test]
fn should_work_with_expr() {
    let lib = lib_of(&["baz => div { @expr; }"]);
    let html = render(&lib, "call baz {}", vec![text("expr", "foo_bar")]);
    assert_eq!(html, "<div>foo_bar</div>");
}

#[test]
fn should_be_self_closing() {
    let lib = lib_of(&["component => input;"]);
    let html = render(&lib, "call component {}", vec![]);
    assert_eq!(html, "<input/>");
}

#[test]
fn should_order_attributes_correctly() {
    let lib = lib_of(&[r#"component => div hello="world" abc="def" hello abc="xyz" {}"#]);
    let html = render(&lib, "call component {}", vec![]);
    assert_eq!(html, "<div hello abc=\"xyz\"></div>");
}

#[test]
fn should_order_attributes_correctly_when_using_placeholder() {
    let lib = lib_of(&[r#"component(attr) => div hello="world" abc="def" @attr; {}"#]);
    let html = render(&lib, r#"call component { attr { hello abc="xyz" } }"#, vec![]);
    assert_eq!(html, "<div hello abc=\"xyz\"></div>");
}

#[test]
fn should_work_attribute_with_expression() {
    let lib = lib_of(&[r#"component(bar) => div hello="world" abc="def" foo=@bar; {}"#]);
    let html = render(&lib, "call component { bar { @bar; } }", vec![text("bar", "xyz")]);
    assert_eq!(html, "<div hello=\"world\" abc=\"def\" foo=\"xyz\"></div>");
}

#[test]
fn should_work_with_multiple_nested_components() {
    let lib = lib_of(&[
        r#"foo => div { "foo_component" }"#,
        r#"bar => div { "bar_component" call foo {} call foo {} }"#,
        r#"baz => div { "baz_component" call bar {} }"#,
    ]);
    let html = render(&lib, "call baz {}", vec![]);
    assert_eq!(
        html,
        "<div>baz_component<div>bar_component<div>foo_component</div><div>foo_component</div></div></div>"
    );
}

#[test]
fn should_work_with_conditionals() {
    let lib = lib_of(&[r#"foo(foo) => div {
            if @foo; == "bar"; {
                "bar_component"
            } else if @foo; == "baz"; {
                "baz_component"
            } else {
                "foo_component"
            }
        }"#]);
    let html = render(&lib, r#"call foo { foo { "bar" } }"#, vec![]);
    let html2 = render(&lib, r#"call foo { foo { "baz" } }"#, vec![]);
    let html3 = render(&lib, r#"call foo { foo { "foo" } }"#, vec![]);
    assert_eq!(html, "<div>bar_component</div>");
    assert_eq!(html2, "<div>baz_component</div>");
    assert_eq!(html3, "<div>foo_component</div>");
}

fn point(x: &str, y: &str) -> Vec<Binding> {
    vec![text("x", x), text("y", y)]
}

#[test]
fn should_work_with_loops() {
    let lib = lib_of(&[r#"foo(points) => div {
            for point in @points;; {
                div {
                    @point.x;
                    ","
                    @point.y;
                }
            }
        }"#]);
    let points = Binding {
        name: "points".to_string(),
        value: Value::List(vec![point("1", "2"), point("3", "4"), point("5", "6")]),
    };
    let html = render(&lib, "call foo { points { @points; } }", vec![points]);
    assert_eq!(html, "<div><div>1,2</div><div>3,4</div><div>5,6</div></div>");
}

#[test]
fn should_work_with_match_expression() {
    let lib = lib_of(&[r#"component(value) => div {
            match @value;; {
                "bar" => {
                     "bar_component"
                },
                "baz" => {
                     "baz_component"
                },
                _ => {
                     "foo_component"
                },
            }
        }"#]);
    let html = render(&lib, r#"call component { value { "bar" } }"#, vec![]);
    let html2 = render(&lib, r#"call component { value { "baz" } }"#, vec![]);
    let html3 = render(&lib, r#"call component { value { "" } }"#, vec![]);
    assert_eq!(html, "<div>bar_component</div>");
    assert_eq!(html2, "<div>baz_component</div>");
    assert_eq!(html3, "<div>foo_component</div>");
}

#[test]
fn should_escape() {
    let lib = lib_of(&[r#"component => div { "<div>foo_bar</div>" }"#]);
    let html = render(&lib, "call component {}", vec![]);
    assert_eq!(html, "<div>&lt;div&gt;foo_bar&lt;/div&gt;</div>");
}

#[test]
fn should_inherit_parent_escape_state() {
    let lib = lib_of(&[r#"component => div noescape {
            "<div>foo_bar</div>"
            div {
                "<div>foo_bar</div>"
            }
        }"#]);
    let html = render(&lib, "call component {}", vec![]);
    assert_eq!(html, "<div><div>foo_bar</div><div><div>foo_bar</div></div></div>");
}

#[test]
fn should_escape_inner() {
    let lib = lib_of(&[r#"component => div noescape {
            "<div>foo_bar</div>"
            div escape {
                "<div>foo_bar</div>"
            }
        }"#]);
    let html = render(&lib, "call component {}", vec![]);
    assert_eq!(
        html,
        "<div><div>foo_bar</div><div>&lt;div&gt;foo_bar&lt;/div&gt;</div></div>"
    );
}

#[test]
fn should_not_escape_expr() {
    let lib = lib_of(&["component => div { @expr;! }"]);
    let html = render(&lib, "call component {}", vec![text("expr", "<div>foo_bar</div>")]);
    assert_eq!(html, "<div><div>foo_bar</div></div>");
}

#[test]
fn should_not_escape_literal() {
    let lib = lib_of(&[r#"component => div { "<div>foo_bar</div>"! }"#]);
    let html = render(&lib, "call component {}", vec![]);
    assert_eq!(html, "<div><div>foo_bar</div></div>");
}

#[test]
fn should_not_escape_inner_comp() {
    let lib = lib_of(&[r#"bar => div { "<div>foo_bar</div>" }"#, "foo => div { call bar {}! }"]);
    let html = render(&lib, "call foo {}", vec![]);
    assert_eq!(html, "<div><div><div>foo_bar</div></div></div>");
}

#[test]
fn should_not_escape() {
    let mut lib = Templates::with_capabilities(false, true);
    comp(&mut lib, r#"component => div { "<div>foo_bar</div>" }"#).unwrap();
    let html = render(&lib, "call component {}", vec![]);
    assert_eq!(html, "<div><div>foo_bar</div></div>");
}

#[test]
fn should_minify_js() {
    let lib = lib_of(&[r##"component => script {
            r#"function foo() {
                return "hello world";
            }"#
        }"##]);
    let html = render(&lib, "call component {}", vec![]);
    assert_eq!(html, "<script>function foo() { return \"hello world\"; }</script>");
}

#[test]
fn should_not_minify_js() {
    let lib = lib_of(&[r##"component => script nominify {
            r#"function foo() {
                return "hello world";
            }"#
        }"##]);
    let html = render(&lib, "call component {}", vec![]);
    assert_eq!(
        html,
        r#"<script>function foo() {
                return "hello world";
            }</script>"#
    );
}

#[test]
fn should_minify_style() {
    let lib = lib_of(&[r##"component => style {
            r#"
                body {
                    background-color: red;
                }
            "#
        }"##]);
    let html = render(&lib, "call component {}", vec![]);
    assert_eq!(html, "<style>body { background-color: red; }</style>");
}

#[test]
fn should_not_minify_style() {
    let lib = lib_of(&[r##"component => style nominify {
            r#"
                body {
                    background-color: red;
                }
            "#
        }"##]);
    let html = render(&lib, "call component {}", vec![]);
    assert_eq!(
        html,
        r#"<style>
                body {
                    background-color: red;
                }
            </style>"#
    );
}
