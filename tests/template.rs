use std::collections::HashMap;

use maud_macros_impl::ast::{Attr, AttrType, Block, ElementBody, Fragment, Markup, Special};
use maud_macros_impl::escape::escape_format_to_string;
use maud_macros_impl::generate::{expand_from_parsed, render_static, Op};
use maud_macros_impl::recover::SourceChoice;
use maud_macros_impl::reload::{render_invocation, render_optional_attr, render_recovered, render_toggled_attr, Rendering};
use maud_macros_impl::runtime::{expand_fragment, FragmentExpansion, expand_special, flatten, RuntimeBuilder, RuntimeGenerator, SegmentExpansion, Stmt};
use maud_macros_impl::{escape_to_string, expand, expand_runtime, expand_runtime_main, format_str, generate};

fn lit(s: &str) -> Markup {
    Markup::Literal { content: s.to_string() }
}

fn splice(s: &str) -> Markup {
    Markup::Splice { expr: s.to_string() }
}

fn element(name: &str, attrs: Vec<Attr>, body: Vec<Markup>) -> Markup {
    Markup::Element {
        name: name.to_string(),
        attrs,
        body: ElementBody::Block { block: Block { markups: body, raw_body: None } },
    }
}

fn hello_template() -> Vec<Markup> {
    vec![element("div", vec![], vec![lit("hello "), splice("name")])]
}

fn escape(s: &str) -> String {
    let mut out = String::new();
    escape_to_string(s, &mut out);
    out
}

#[test]
fn escape_replaces_the_four_special_characters() {
    assert_eq!(escape("a&b<c>\"d'e"), "a&amp;b&lt;c&gt;&quot;d'e");
    assert_eq!(escape("plain text"), "plain text");
    assert_eq!(escape(""), "");
}

#[test]
fn escape_appends_to_existing_output() {
    let mut out = "x".to_string();
    escape_to_string("<", &mut out);
    assert_eq!(out, "x&lt;");
}

#[test]
fn escape_twice_differs_from_once() {
    let once = escape("a & b");
    let twice = escape(&once);
    assert_eq!(once, "a &amp; b");
    assert_eq!(twice, "a &amp;amp; b");
    assert_ne!(once, twice);
    assert_eq!(escape(&escape("abc")), escape("abc"));
}

#[test]
fn format_escape_guards_braces_and_backslashes() {
    assert_eq!(escape_format_to_string("{a}\\b"), "\\{a\\}\\\\b");
    assert_eq!(escape_format_to_string("none"), "none");
}

#[test]
fn format_str_of_literal_with_braces() {
    assert_eq!(format_str(vec![lit("{x} & \\")]), "\\{x\\} &amp; \\\\");
}

#[test]
fn format_str_places_numbered_placeholders() {
    let t = vec![element("p", vec![], vec![splice("a")]), lit("-"), splice("b")];
    assert_eq!(format_str(t), "<p>{0}</p>-{1}");
}

#[test]
fn format_str_counts_past_nine() {
    let mut t = Vec::new();
    for i in 0..11 {
        t.push(splice(&format!("e{}", i)));
    }
    assert_eq!(format_str(t), "{0}{1}{2}{3}{4}{5}{6}{7}{8}{9}{10}");
}

#[test]
fn generate_assigns_var_ids_in_order() {
    let t = vec![
        splice("a"),
        element("b", vec![], vec![splice("c")]),
        Markup::Let { tokens: "let x = 1;".to_string() },
        splice("d"),
    ];
    let stmts = generate(true, t);
    assert_eq!(stmts.len(), 4);
    assert!(matches!(&stmts[0], Stmt::Insert { var_id: 0, fragment: Fragment::Splice { expr } } if expr == "a"));
    assert!(matches!(&stmts[1], Stmt::Insert { var_id: 1, fragment: Fragment::Splice { expr } } if expr == "c"));
    assert!(matches!(&stmts[2], Stmt::Let { tokens } if tokens == "let x = 1;"));
    assert!(matches!(&stmts[3], Stmt::Insert { var_id: 2, fragment: Fragment::Splice { expr } } if expr == "d"));
}

#[test]
fn generate_without_recording_keeps_only_bindings() {
    let t = vec![splice("a"), Markup::Let { tokens: "let y = 2;".to_string() }];
    let stmts = generate(false, t);
    assert_eq!(stmts.len(), 1);
    assert!(matches!(&stmts[0], Stmt::Let { .. }));
}

#[test]
fn var_ids_ignore_inserted_literal_text() {
    let plain = vec![splice("a"), splice("b")];
    let edited = vec![lit("x"), splice("a"), lit("y {z}"), splice("b"), lit("w")];
    let ids = |stmts: Vec<Stmt>| -> Vec<usize> {
        stmts
            .iter()
            .filter_map(|s| match s {
                Stmt::Insert { var_id, .. } => Some(*var_id),
                _ => None,
            })
            .collect()
    };
    assert_eq!(ids(generate(true, plain)), vec![0, 1]);
    assert_eq!(ids(generate(true, edited)), vec![0, 1]);
}

#[test]
fn attributes_render_in_order() {
    let attrs = vec![
        Attr { name: "class".to_string(), attr_type: AttrType::Normal { value: Box::new(lit("a\"b")) } },
        Attr { name: "checked".to_string(), attr_type: AttrType::Empty { toggler: None } },
        Attr { name: "title".to_string(), attr_type: AttrType::Optional { cond: "t".to_string() } },
        Attr { name: "hidden".to_string(), attr_type: AttrType::Empty { toggler: Some("h".to_string()) } },
    ];
    let t = vec![Markup::Element { name: "input".to_string(), attrs, body: ElementBody::Void }];
    assert_eq!(format_str(t), "<input class=\"a&quot;b\" checked{0}{1}>");
}

#[test]
fn block_with_let_is_one_dynamic_piece() {
    let block = Block {
        markups: vec![Markup::Let { tokens: "let a = 1;".to_string() }, splice("a")],
        raw_body: None,
    };
    assert_eq!(format_str(vec![lit("<"), Markup::Block { block }]), "&lt;{0}");
}

#[test]
fn block_without_let_is_inlined() {
    let block = Block { markups: vec![lit("a"), splice("b")], raw_body: None };
    assert_eq!(format_str(vec![Markup::Block { block }]), "a{0}");
}

#[test]
fn special_and_parse_error() {
    let seg = Special { head: "if c".to_string(), body: Block { markups: vec![lit("y")], raw_body: None } };
    let t = vec![Markup::ParseError, Markup::Special { segments: vec![seg] }, Markup::Symbol { symbol: "a<b".to_string() }];
    assert_eq!(format_str(t), "{0}a&lt;b");
}

#[test]
fn builder_by_hand() {
    let mut b = RuntimeBuilder::new(true);
    b.push_str("<i>");
    b.push_escaped("{&}".to_string());
    b.push_format_arg(Fragment::Splice { expr: "v".to_string() });
    b.push_let("let q = 0;".to_string());
    assert_eq!(b.format_str(), "<i>\\{&amp;\\}{0}");
    let stmts = b.finish();
    assert_eq!(stmts.len(), 2);
    assert!(matches!(&stmts[0], Stmt::Insert { var_id: 0, .. }));
    assert!(matches!(&stmts[1], Stmt::Let { .. }));
}

#[test]
fn generator_walks_into_builder() {
    let mut b = RuntimeBuilder::new(false);
    RuntimeGenerator::new().markups(vec![lit("a"), splice("b")], &mut b);
    assert_eq!(b.format_str(), "a{0}");
    assert_eq!(b.into_pieces().len(), 2);
}

#[test]
fn static_ops_merge_adjacent_literals() {
    let e = expand_from_parsed(hello_template(), 7);
    assert_eq!(e.capacity, 7);
    assert_eq!(e.ops.len(), 3);
    assert!(matches!(&e.ops[0], Op::Literal { text } if text == "<div>hello "));
    assert!(matches!(&e.ops[1], Op::Eval { fragment: Fragment::Splice { expr } } if expr == "name"));
    assert!(matches!(&e.ops[2], Op::Literal { text } if text == "</div>"));
}

#[test]
fn expand_sizes_buffer_by_source() {
    let e = expand("div { \"hello \" (name) }", hello_template());
    assert_eq!(e.capacity, 23);
}

#[test]
fn end_to_end_static_and_runtime_agree() {
    let e = expand_from_parsed(hello_template(), 0);
    let rendered = render_static(&e.ops, &vec!["world".to_string()]);
    assert_eq!(rendered, "<div>hello world</div>");
    assert_eq!(format_str(hello_template()), "<div>hello {0}</div>");
    let mut vars = HashMap::new();
    vars.insert(0usize, "world".to_string());
    let runtime = expand_runtime_main(vars, hello_template());
    assert_eq!(runtime, Ok("<div>hello world</div>".to_string()));
}

#[test]
fn static_and_runtime_agree_without_dynamic_pieces() {
    let t = || vec![element("p", vec![], vec![lit("a < b"), Markup::Symbol { symbol: "x".to_string() }])];
    let e = expand_from_parsed(t(), 0);
    let s = render_static(&e.ops, &Vec::new());
    let r = expand_runtime_main(HashMap::new(), t());
    assert_eq!(s, "<p>a &lt; bx</p>");
    assert_eq!(r, Ok(s));
}

#[test]
fn runtime_reports_missing_var() {
    let r = expand_runtime_main(HashMap::new(), hello_template());
    assert_eq!(r, Err("no value for var-id 0".to_string()));
}

#[test]
fn runtime_ignores_unused_values() {
    let mut vars = HashMap::new();
    vars.insert(0usize, "x".to_string());
    vars.insert(5usize, "unused".to_string());
    assert_eq!(expand_runtime_main(vars, vec![splice("a")]), Ok("x".to_string()));
}

#[test]
fn flatten_counts_pieces() {
    assert_eq!(flatten(hello_template()).len(), 8);
}

#[test]
fn expand_runtime_carries_keyword_and_source() {
    let r = expand_runtime("div { (x) }", vec![element("div", vec![], vec![splice("x")])]);
    assert_eq!(r.skip_to_keyword, "html!{");
    assert_eq!(r.original_input, "div { (x) }");
    assert_eq!(r.compiled.capacity, 11);
    assert_eq!(r.compiled.ops.len(), 3);
    assert!(matches!(&r.compiled.ops[1], Op::Eval { fragment: Fragment::Splice { expr } } if expr == "x"));
}


#[test]
fn segments_choose_hot_reload_by_raw_body() {
    let hot = Special {
        head: "if a".to_string(),
        body: Block { markups: vec![splice("x")], raw_body: Some("(x)".to_string()) },
    };
    let cold = Special {
        head: "else".to_string(),
        body: Block { markups: vec![lit("n")], raw_body: None },
    };
    let r = expand_special(vec![hot, cold]);
    assert_eq!(r.len(), 2);
    match &r[0] {
        SegmentExpansion::HotReload { head, reload } => {
            assert_eq!(head, "if a");
            assert_eq!(reload.skip_to_keyword, "if a");
            assert_eq!(reload.original_input, "(x)");
            assert!(matches!(&reload.compiled.ops[0], Op::Eval { .. }));
        }
        _ => panic!("expected the hot-reload form"),
    }
    match &r[1] {
        SegmentExpansion::Static { head, compiled } => {
            assert_eq!(head, "else");
            assert_eq!(render_static(&compiled.ops, &Vec::new()), "n");
        }
        _ => panic!("expected the static form"),
    }
}

#[test]
fn invocation_falls_back_to_compiled_rendering() {
    let r = expand_runtime("div { \"hello \" (name) }", hello_template());
    let values = vec!["world".to_string()];
    match render_invocation(SourceChoice::Compiled, &r.compiled, &values, Vec::new()) {
        Rendering::Html { text } => assert_eq!(text, "<div>hello world</div>"),
        _ => panic!("expected html"),
    }
}

#[test]
fn invocation_renders_recovered_template() {
    let r = expand_runtime("div { \"hello \" (name) }", hello_template());
    let values = vec!["world".to_string()];
    let edited = vec![element("p", vec![], vec![lit("hi "), splice("name")])];
    let choice = SourceChoice::Recovered { text: "p { \"hi \" (name) }".to_string() };
    match render_invocation(choice, &r.compiled, &values, edited) {
        Rendering::Html { text } => assert_eq!(text, "<p>hi world</p>"),
        _ => panic!("expected html"),
    }
}

#[test]
fn invocation_aborts_in_strict_mode() {
    let r = expand_runtime("x", vec![lit("x")]);
    let choice = SourceChoice::Fatal { message: "boom".to_string() };
    assert!(matches!(render_invocation(choice, &r.compiled, &Vec::new(), Vec::new()), Rendering::Abort { message } if message == "boom"));
}

#[test]
fn recovered_template_with_extra_piece_gives_error_marker() {
    let edited = vec![splice("a"), splice("b")];
    assert_eq!(
        render_recovered(edited, &vec!["A".to_string()]),
        "<pre class=\"maud-error\">no value for var-id 1</pre>"
    );
}

#[test]
fn toggled_attribute_renders_name_when_on() {
    assert_eq!(render_toggled_attr("a<b", true), " a&lt;b");
    assert_eq!(render_toggled_attr("a<b", false), "");
}

#[test]
fn optional_attribute_renders_value_when_present() {
    assert_eq!(render_optional_attr("title", Some("x &amp; y")), " title=\"x &amp; y\"");
    assert_eq!(render_optional_attr("title", None), "");
}

#[test]
fn fragment_expansion_expands_segments_and_blocks() {
    let seg = Special { head: "if c".to_string(), body: Block { markups: vec![lit("y")], raw_body: None } };
    match expand_fragment(Fragment::Special { segments: vec![seg] }) {
        FragmentExpansion::Special { segments } => {
            assert_eq!(segments.len(), 1);
            assert!(matches!(&segments[0], SegmentExpansion::Static { .. }));
        }
        _ => panic!("expected segments"),
    }
    let block = Block { markups: vec![Markup::Let { tokens: "let a = 1;".to_string() }, lit("z")], raw_body: None };
    match expand_fragment(Fragment::Block { block }) {
        FragmentExpansion::Block { compiled } => assert_eq!(compiled.ops.len(), 2),
        _ => panic!("expected a block"),
    }
}
