//! The whole pipeline: blueprint, plan, batched execution, synthesis.

use tailcall::blueprint::compile_blueprint;
use tailcall::config::{Config, ConfigModule, Extensions, Field, Http, Method, SchemaRoots, TypeConfig};
use tailcall::exec::{batch_calls, ConstValueExec, JITExecutor, Request, RequestContext, Store};
use tailcall::context::Headers;
use tailcall::jit::{
    ArgValue, BuildError, Builder, DocDirective, Document, Fragment, Operation, SelField,
    Selection, Variables,
};
use tailcall::synth::{PathSeg, Synth};
use tailcall::value::Value;

fn http_field(type_of: &str, list: bool, required: bool, path: &str) -> Field {
    let mut f = Field::new(type_of.to_string(), list, required);
    f.http = Some(Http {
        path: path.to_string(),
        base_url: None,
        method: Method::Get,
        query: Vec::new(),
    });
    f
}

fn sel_field(name: &str, children: Vec<Selection>) -> Selection {
    Selection::Field(SelField {
        name: name.to_string(),
        alias: None,
        args: Vec::new(),
        directives: Vec::new(),
        selection: children,
    })
}

fn config_with_posts() -> ConfigModule {
    let post_fields = vec![
        ("id".to_string(), Field::new("Int".to_string(), false, false)),
        (
            "title".to_string(),
            Field::new("String".to_string(), false, false),
        ),
    ];
    let query_fields = vec![
        (
            "posts".to_string(),
            http_field("Post", true, false, "http://localhost:3000/posts"),
        ),
        (
            "posts2".to_string(),
            http_field("Post", true, false, "http://localhost:3000/posts"),
        ),
        (
            "greeting".to_string(),
            {
                let mut f = Field::new("String".to_string(), false, false);
                f.const_value = Some(Value::Str("hello".to_string()));
                f
            },
        ),
    ];
    let config = Config {
        types: vec![
            (
                "Query".to_string(),
                TypeConfig { fields: query_fields, doc: None },
            ),
            (
                "Post".to_string(),
                TypeConfig { fields: post_fields, doc: None },
            ),
        ],
        schema: SchemaRoots {
            query: Some("Query".to_string()),
            mutation: None,
            subscription: None,
        },
    };
    ConfigModule { config, extensions: Extensions { rust_lib: None } }
}

fn request_context() -> RequestContext {
    RequestContext { vars: Vec::new(), env: Vec::new(), headers: Headers::new() }
}

#[test]
fn const_resolvers_need_no_calls() {
    let bp = compile_blueprint(&config_with_posts()).unwrap();
    let doc = Document {
        operations: vec![Operation {
            name: None,
            selection: vec![sel_field("greeting", Vec::new())],
        }],
        fragments: Vec::new(),
    };
    let request = Request { document: doc, operation_name: None, variables: Variables::default() };
    let rctx = request_context();
    let executor = JITExecutor::new(&bp, &rctx);
    let plan = executor.plan(&request).unwrap();
    let mut store = Store::new();
    let exec = ConstValueExec::new(executor.req_ctx);
    let pending = exec.execute(&bp, &plan, &mut store);
    assert!(pending.is_empty());
    let response = Synth::new(plan, store).synthesize();
    assert_eq!(
        response.data,
        Some(Value::Obj(vec![(
            "greeting".to_string(),
            Value::Str("hello".to_string())
        )]))
    );
    assert!(response.errors.is_empty());
}

#[test]
fn identical_sibling_calls_coalesce() {
    let bp = compile_blueprint(&config_with_posts()).unwrap();
    let doc = Document {
        operations: vec![Operation {
            name: None,
            selection: vec![
                sel_field("posts", vec![sel_field("id", Vec::new())]),
                sel_field("posts2", vec![sel_field("id", Vec::new())]),
            ],
        }],
        fragments: Vec::new(),
    };
    let builder = Builder::new(&bp, &doc);
    let plan = builder.build(&Variables::default(), None).unwrap();
    let mut store = Store::new();
    let rctx = request_context();
    let pending = tailcall::exec::prepare_calls(&bp, &plan, &rctx, &mut store);
    assert_eq!(pending.len(), 2);
    let batches = batch_calls(&pending);
    assert_eq!(batches.len(), 1);
    assert_eq!(batches[0].members.len(), 2);
    assert_eq!(batches[0].req.url, "http://localhost:3000/posts".to_string());

    let posts = Value::List(vec![Value::Obj(vec![
        ("id".to_string(), Value::Num(7)),
        ("title".to_string(), Value::Str("t".to_string())),
    ])]);
    let results = vec![Ok(posts)];
    tailcall::exec::apply_results(&mut store, &pending, &batches, &results);
    let response = Synth::new(plan, store).synthesize();
    let data = response.data.unwrap();
    match data {
        Value::Obj(entries) => {
            assert_eq!(entries.len(), 2);
            assert_eq!(entries[0].0, "posts".to_string());
            assert_eq!(entries[1].0, "posts2".to_string());
            assert_eq!(entries[0].1, entries[1].1);
        }
        other => panic!("expected an object, got {:?}", other),
    }
    assert!(response.errors.is_empty());
}

#[test]
fn non_null_child_failure_nulls_parent() {
    // A nullable parent object with one non-nullable child whose entry is an
    // error: the parent nulls, and exactly one error names the child's path.
    let mut parent_field = Field::new("Wrap".to_string(), false, false);
    parent_field.const_value = Some(Value::Obj(Vec::new()));
    let mut child_field = Field::new("String".to_string(), false, true);
    child_field.http = Some(Http {
        path: "http://localhost:3000/fail".to_string(),
        base_url: None,
        method: Method::Get,
        query: Vec::new(),
    });
    let config = Config {
        types: vec![
            (
                "Query".to_string(),
                TypeConfig { fields: vec![("wrap".to_string(), parent_field)], doc: None },
            ),
            (
                "Wrap".to_string(),
                TypeConfig { fields: vec![("value".to_string(), child_field)], doc: None },
            ),
        ],
        schema: SchemaRoots {
            query: Some("Query".to_string()),
            mutation: None,
            subscription: None,
        },
    };
    let cm = ConfigModule { config, extensions: Extensions { rust_lib: None } };
    let bp = compile_blueprint(&cm).unwrap();
    let doc = Document {
        operations: vec![Operation {
            name: None,
            selection: vec![sel_field("wrap", vec![sel_field("value", Vec::new())])],
        }],
        fragments: Vec::new(),
    };
    let plan = Builder::new(&bp, &doc).build(&Variables::default(), None).unwrap();
    let mut store = Store::new();
    let rctx = request_context();
    let pending = tailcall::exec::prepare_calls(&bp, &plan, &rctx, &mut store);
    assert_eq!(pending.len(), 1);
    let batches = batch_calls(&pending);
    let results = vec![Err("upstream timed out".to_string())];
    tailcall::exec::apply_results(&mut store, &pending, &batches, &results);
    let response = Synth::new(plan, store).synthesize();
    assert_eq!(
        response.data,
        Some(Value::Obj(vec![("wrap".to_string(), Value::Null)]))
    );
    assert_eq!(response.errors.len(), 1);
    assert_eq!(response.errors[0].message, "upstream timed out".to_string());
    assert_eq!(
        response.errors[0].path,
        vec![PathSeg::Key("wrap".to_string()), PathSeg::Key("value".to_string())]
    );
}

#[test]
fn nullable_child_failure_stops_at_child() {
    let mut parent_field = Field::new("Wrap".to_string(), false, false);
    parent_field.const_value = Some(Value::Obj(Vec::new()));
    let mut child_field = Field::new("String".to_string(), false, false);
    child_field.http = Some(Http {
        path: "http://localhost:3000/fail".to_string(),
        base_url: None,
        method: Method::Get,
        query: Vec::new(),
    });
    let config = Config {
        types: vec![
            (
                "Query".to_string(),
                TypeConfig { fields: vec![("wrap".to_string(), parent_field)], doc: None },
            ),
            (
                "Wrap".to_string(),
                TypeConfig { fields: vec![("value".to_string(), child_field)], doc: None },
            ),
        ],
        schema: SchemaRoots {
            query: Some("Query".to_string()),
            mutation: None,
            subscription: None,
        },
    };
    let cm = ConfigModule { config, extensions: Extensions { rust_lib: None } };
    let bp = compile_blueprint(&cm).unwrap();
    let doc = Document {
        operations: vec![Operation {
            name: None,
            selection: vec![sel_field("wrap", vec![sel_field("value", Vec::new())])],
        }],
        fragments: Vec::new(),
    };
    let plan = Builder::new(&bp, &doc).build(&Variables::default(), None).unwrap();
    let mut store = Store::new();
    let rctx = request_context();
    let pending = tailcall::exec::prepare_calls(&bp, &plan, &rctx, &mut store);
    let batches = batch_calls(&pending);
    let results = vec![Err("boom".to_string())];
    tailcall::exec::apply_results(&mut store, &pending, &batches, &results);
    let response = Synth::new(plan, store).synthesize();
    assert_eq!(
        response.data,
        Some(Value::Obj(vec![(
            "wrap".to_string(),
            Value::Obj(vec![("value".to_string(), Value::Null)])
        )]))
    );
    assert_eq!(response.errors.len(), 1);
}

#[test]
fn plan_building_is_deterministic() {
    let bp = compile_blueprint(&config_with_posts()).unwrap();
    let doc = Document {
        operations: vec![Operation {
            name: None,
            selection: vec![sel_field("posts", vec![sel_field("id", Vec::new())])],
        }],
        fragments: Vec::new(),
    };
    let vars = Variables::default();
    let p1 = Builder::new(&bp, &doc).build(&vars, None).unwrap();
    let p2 = Builder::new(&bp, &doc).build(&vars, None).unwrap();
    assert_eq!(p1, p2);
}

#[test]
fn unknown_field_aborts_the_plan() {
    let bp = compile_blueprint(&config_with_posts()).unwrap();
    let doc = Document {
        operations: vec![Operation {
            name: None,
            selection: vec![sel_field("nope", Vec::new())],
        }],
        fragments: Vec::new(),
    };
    let err = Builder::new(&bp, &doc).build(&Variables::default(), None).unwrap_err();
    assert_eq!(
        err,
        BuildError::FieldNotFound {
            owner_type: "Query".to_string(),
            field_name: "nope".to_string()
        }
    );
}

#[test]
fn undeclared_variable_aborts_the_plan() {
    let bp = compile_blueprint(&config_with_posts()).unwrap();
    let doc = Document {
        operations: vec![Operation {
            name: None,
            selection: vec![Selection::Field(SelField {
                name: "posts".to_string(),
                alias: None,
                args: vec![("limit".to_string(), ArgValue::Var("n".to_string()))],
                directives: Vec::new(),
                selection: vec![sel_field("id", Vec::new())],
            })],
        }],
        fragments: Vec::new(),
    };
    let err = Builder::new(&bp, &doc).build(&Variables::default(), None).unwrap_err();
    assert_eq!(err, BuildError::UndeclaredVariable("n".to_string()));
}

#[test]
fn skip_directive_omits_the_field() {
    let bp = compile_blueprint(&config_with_posts()).unwrap();
    let doc = Document {
        operations: vec![Operation {
            name: None,
            selection: vec![
                Selection::Field(SelField {
                    name: "greeting".to_string(),
                    alias: None,
                    args: Vec::new(),
                    directives: vec![DocDirective::Skip(ArgValue::Lit(Value::Bool(true)))],
                    selection: Vec::new(),
                }),
                sel_field("posts", vec![sel_field("id", Vec::new())]),
            ],
        }],
        fragments: Vec::new(),
    };
    let plan = Builder::new(&bp, &doc).build(&Variables::default(), None).unwrap();
    assert_eq!(plan.selection.len(), 1);
    assert_eq!(plan.selection[0].name, "posts".to_string());
}

#[test]
fn fragments_splice_in_place() {
    let bp = compile_blueprint(&config_with_posts()).unwrap();
    let doc = Document {
        operations: vec![Operation {
            name: None,
            selection: vec![sel_field(
                "posts",
                vec![Selection::FragmentSpread("postBits".to_string())],
            )],
        }],
        fragments: vec![(
            "postBits".to_string(),
            Fragment {
                type_condition: "Post".to_string(),
                selection: vec![sel_field("id", Vec::new()), sel_field("title", Vec::new())],
            },
        )],
    };
    let plan = Builder::new(&bp, &doc).build(&Variables::default(), None).unwrap();
    assert_eq!(plan.selection[0].children.len(), 2);
    assert_eq!(plan.selection[0].children[0].name, "id".to_string());
    assert_eq!(plan.selection[0].children[1].name, "title".to_string());
}

#[test]
fn fragment_cycles_are_rejected() {
    let bp = compile_blueprint(&config_with_posts()).unwrap();
    let doc = Document {
        operations: vec![Operation {
            name: None,
            selection: vec![Selection::FragmentSpread("a".to_string())],
        }],
        fragments: vec![
            (
                "a".to_string(),
                Fragment {
                    type_condition: "Query".to_string(),
                    selection: vec![Selection::FragmentSpread("b".to_string())],
                },
            ),
            (
                "b".to_string(),
                Fragment {
                    type_condition: "Query".to_string(),
                    selection: vec![Selection::FragmentSpread("a".to_string())],
                },
            ),
        ],
    };
    let err = Builder::new(&bp, &doc).build(&Variables::default(), None).unwrap_err();
    assert_eq!(err, BuildError::FragmentCycle);
}

#[test]
fn missing_dylib_fails_extension_compilation() {
    let mut config = config_with_posts();
    let mut ext_field = Field::new("String".to_string(), false, false);
    ext_field.extension = Some(tailcall::config::Extension { payload: Value::Null });
    config
        .config
        .types
        .get_mut(0)
        .unwrap()
        .1
        .fields
        .push(("augmented".to_string(), ext_field));
    let errs = compile_blueprint(&config).unwrap_err();
    assert_eq!(
        errs,
        vec!["Query.augmented: A @link with path to dylib is required".to_string()]
    );
}
