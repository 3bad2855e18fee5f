//! The query-complexity rule, run against plans built from a blueprint in
//! the shape of the post/user sample schema.

use tailcall::blueprint::{compile_blueprint, Blueprint};
use tailcall::config::{Config, ConfigModule, Extensions, Field, SchemaRoots, TypeConfig};
use tailcall::jit::{Builder, Document, Operation, OperationPlan, SelField, Selection, Variables};
use tailcall::rules::{QueryComplexity, Rule};

fn field(type_of: &str, list: bool) -> Field {
    Field::new(type_of.to_string(), list, false)
}

fn sample_config() -> ConfigModule {
    let post_fields = vec![
        ("id".to_string(), field("Int", false)),
        ("userId".to_string(), field("Int", false)),
        ("title".to_string(), field("String", false)),
        ("user".to_string(), field("User", false)),
    ];
    let user_fields = vec![
        ("id".to_string(), field("Int", false)),
        ("name".to_string(), field("String", false)),
    ];
    let query_fields = vec![("posts".to_string(), field("Post", true))];
    let config = Config {
        types: vec![
            (
                "Query".to_string(),
                TypeConfig { fields: query_fields, doc: None },
            ),
            (
                "Post".to_string(),
                TypeConfig { fields: post_fields, doc: None },
            ),
            (
                "User".to_string(),
                TypeConfig { fields: user_fields, doc: None },
            ),
        ],
        schema: SchemaRoots {
            query: Some("Query".to_string()),
            mutation: None,
            subscription: None,
        },
    };
    ConfigModule { config, extensions: Extensions { rust_lib: None } }
}

fn sel_field(name: &str, children: Vec<Selection>) -> Selection {
    Selection::Field(SelField {
        name: name.to_string(),
        alias: None,
        args: Vec::new(),
        directives: Vec::new(),
        selection: children,
    })
}

fn plan(blueprint: &Blueprint, selection: Vec<Selection>) -> OperationPlan {
    let document = Document {
        operations: vec![Operation { name: None, selection }],
        fragments: Vec::new(),
    };
    let variables = Variables::default();
    Builder::new(blueprint, &document)
        .build(&variables, None)
        .unwrap()
}

#[test]
fn test_query_complexity() {
    let blueprint = compile_blueprint(&sample_config()).unwrap();
    let selection = vec![sel_field(
        "posts",
        vec![
            sel_field("id", Vec::new()),
            sel_field("userId", Vec::new()),
            sel_field("title", Vec::new()),
        ],
    )];
    let plan = plan(&blueprint, selection);

    let query_complexity = QueryComplexity::new(4);
    let val_result = query_complexity.validate(&plan);
    assert!(val_result.is_ok());

    let query_complexity = QueryComplexity::new(2);
    let val_result = query_complexity.validate(&plan);
    assert!(!val_result.is_ok());
}

#[test]
fn test_nested_query_complexity() {
    let blueprint = compile_blueprint(&sample_config()).unwrap();
    let selection = vec![sel_field(
        "posts",
        vec![
            sel_field("id", Vec::new()),
            sel_field("title", Vec::new()),
            sel_field(
                "user",
                vec![sel_field("id", Vec::new()), sel_field("name", Vec::new())],
            ),
        ],
    )];
    let plan = plan(&blueprint, selection);

    let query_complexity = QueryComplexity::new(6);
    let val_result = query_complexity.validate(&plan);
    assert!(val_result.is_ok());

    let query_complexity = QueryComplexity::new(5);
    let val_result = query_complexity.validate(&plan);
    assert!(!val_result.is_ok());
}

#[test]
fn complexity_failure_names_the_rule() {
    let blueprint = compile_blueprint(&sample_config()).unwrap();
    let selection = vec![sel_field("posts", vec![sel_field("id", Vec::new())])];
    let plan = plan(&blueprint, selection);
    let rule = QueryComplexity::new(1);
    let err = rule.check(&plan).unwrap_err();
    assert_eq!(err, "Query Complexity validation failed.".to_string());
}
