//! Template parsing, rendering, and the sample-schema URL scenario.

use tailcall::context::{EvalContext, Headers};
use tailcall::template::{Mustache, Segment, TemplateError};
use tailcall::value::Value;

fn ctx_with_args(args: Vec<(String, Value)>) -> EvalContext {
    EvalContext {
        args: Value::Obj(args),
        vars: Vec::new(),
        env: Vec::new(),
        headers: Headers::new(),
    }
}

#[test]
fn renders_the_sample_url() {
    let tmpl = Mustache::parse(
        "http://localhost:3000/{{args.b}}?a={{args.a}}&b={{args.b}}&c={{args.c}}",
    )
    .unwrap();
    let ctx = ctx_with_args(vec![("b".to_string(), Value::Str("foo".to_string()))]);
    let rendered = tmpl.render(&ctx);
    assert_eq!(rendered, "http://localhost:3000/foo?a=&b=foo&c=".to_string());
}

#[test]
fn literal_template_renders_unchanged() {
    let text = "http://localhost:3000/foo?a=bar&b=foo&c=baz";
    let tmpl = Mustache::parse(text).unwrap();
    let ctx = ctx_with_args(Vec::new());
    assert_eq!(tmpl.render(&ctx), text.to_string());
    assert!(tmpl.is_const());
}

#[test]
fn missing_keys_render_empty() {
    let tmpl = Mustache::parse("x{{vars.nope}}y").unwrap();
    let ctx = ctx_with_args(Vec::new());
    assert_eq!(tmpl.render(&ctx), "xy".to_string());
}

#[test]
fn unknown_source_is_rejected() {
    assert_eq!(
        Mustache::parse("{{bogus.key}}").unwrap_err(),
        TemplateError::InvalidPath
    );
    assert_eq!(Mustache::parse("{{}}").unwrap_err(), TemplateError::InvalidPath);
}

#[test]
fn leading_dot_paths_parse() {
    let tmpl = Mustache::parse("/posts/{{.args.id}}").unwrap();
    assert_eq!(tmpl.segments.len(), 2);
    match &tmpl.segments[1] {
        Segment::Expression(path) => {
            assert_eq!(path, &vec!["args".to_string(), "id".to_string()]);
        }
        other => panic!("expected an expression, got {:?}", other),
    }
}

#[test]
fn unclosed_marker_stays_literal() {
    let tmpl = Mustache::parse("a{{args.b").unwrap();
    let ctx = ctx_with_args(vec![("b".to_string(), Value::Str("foo".to_string()))]);
    assert_eq!(tmpl.render(&ctx), "a{{args.b".to_string());
}

#[test]
fn lists_join_with_commas() {
    let tmpl = Mustache::parse("ids={{args.ids}}").unwrap();
    let ctx = ctx_with_args(vec![(
        "ids".to_string(),
        Value::List(vec![Value::Num(1), Value::Num(2), Value::Num(3)]),
    )]);
    assert_eq!(tmpl.render(&ctx), "ids=1,2,3".to_string());
}

#[test]
fn scalars_render_canonically() {
    let tmpl = Mustache::parse("{{args.n}}|{{args.b}}|{{args.z}}").unwrap();
    let ctx = ctx_with_args(vec![
        ("n".to_string(), Value::Num(-42)),
        ("b".to_string(), Value::Bool(true)),
        ("z".to_string(), Value::Null),
    ]);
    assert_eq!(tmpl.render(&ctx), "-42|true|null".to_string());
}

#[test]
fn headers_resolve_from_context() {
    let tmpl = Mustache::parse("{{headers.x-id}}").unwrap();
    let ctx = EvalContext {
        args: Value::Obj(Vec::new()),
        vars: Vec::new(),
        env: Vec::new(),
        headers: Headers {
            entries: vec![("x-id".to_string(), "h7".to_string())],
        },
    };
    assert_eq!(tmpl.render(&ctx), "h7".to_string());
}
