//! Query generation over the reduced API-description model.

use tailcall::config::{Config, Method, SchemaRoots};
use tailcall::generator::{
    can_define_type, get_schema_type, name_from_ref_path, rewrite_path_params,
    schema_to_primitive_type, schema_type_to_string, unknown_type, MediaModel, OperationModel,
    ParamModel, ParamOrRef, PathItemModel, QueryGenerator, ResponseModel, ResponseOrRef,
    SchemaKind, SchemaModel, SchemaOrRef, SingleQueryGenerator, SpecModel, TypeName,
};

fn plain_schema(kind: Option<SchemaKind>) -> SchemaModel {
    SchemaModel {
        schema_type: kind,
        items: None,
        has_properties: false,
        has_all_of: false,
        has_any_of: false,
        has_one_of: false,
        has_enum_values: false,
    }
}

#[test]
fn type_name_reduction() {
    let name = TypeName::Name("Post".to_string());
    assert_eq!(name.name(), Some("Post".to_string()));
    assert_eq!(name.into_tuple(), (false, "Post".to_string()));

    let list = TypeName::ListOf(Box::new(TypeName::Name("Post".to_string())));
    assert_eq!(list.name(), None);
    assert_eq!(list.into_tuple(), (true, "Post".to_string()));
}

#[test]
fn primitive_kind_names() {
    assert_eq!(schema_type_to_string(&SchemaKind::Boolean), "Boolean".to_string());
    assert_eq!(schema_type_to_string(&SchemaKind::Str), "String".to_string());
    assert_eq!(schema_type_to_string(&SchemaKind::Integer), "Int".to_string());
    assert_eq!(schema_type_to_string(&SchemaKind::Number), "Int".to_string());
    assert_eq!(schema_to_primitive_type(&SchemaKind::Array), None);
    assert_eq!(schema_to_primitive_type(&SchemaKind::Object), None);
    assert_eq!(schema_to_primitive_type(&SchemaKind::Integer), Some("Int".to_string()));
}

#[test]
fn ref_paths_pascal_case() {
    let r = SchemaOrRef::Ref("#/components/schemas/post_item".to_string());
    assert_eq!(name_from_ref_path(&r), Some("PostItem".to_string()));
    let obj = SchemaOrRef::Object(Box::new(plain_schema(None)));
    assert_eq!(name_from_ref_path(&obj), None);
}

#[test]
fn unnameable_schemas() {
    let mut s = plain_schema(None);
    assert!(!can_define_type(&s));
    s.has_properties = true;
    assert!(can_define_type(&s));
    assert_eq!(unknown_type(), "Unknown".to_string());
}

#[test]
fn schema_types_flatten() {
    let spec = SpecModel::default();
    let t = get_schema_type(&spec, &plain_schema(Some(SchemaKind::Integer)), None, 4).unwrap();
    assert_eq!(t.into_tuple(), (false, "Int".to_string()));

    let t = get_schema_type(&spec, &plain_schema(None), Some(&"Post".to_string()), 4).unwrap();
    assert_eq!(t.into_tuple(), (false, "Post".to_string()));

    let t = get_schema_type(&spec, &plain_schema(None), None, 4).unwrap();
    assert_eq!(t.into_tuple(), (false, "JSON".to_string()));

    let mut array = plain_schema(Some(SchemaKind::Array));
    array.items = Some(Box::new(SchemaOrRef::Ref(
        "#/components/schemas/post".to_string(),
    )));
    let mut spec_with_post = SpecModel::default();
    spec_with_post
        .schemas
        .push(("post".to_string(), plain_schema(Some(SchemaKind::Object))));
    let t = get_schema_type(&spec_with_post, &array, None, 4).unwrap();
    assert_eq!(t.into_tuple(), (true, "Post".to_string()));
}

#[test]
fn path_params_rewrite() {
    let (rewritten, params) = rewrite_path_params(&"/posts/{id}/comments/{cid}".to_string());
    assert_eq!(
        rewritten,
        "/posts/{{.args.id}}/comments/{{.args.cid}}".to_string()
    );
    assert_eq!(params, vec!["id".to_string(), "cid".to_string()]);

    let (unchanged, none) = rewrite_path_params(&"/posts".to_string());
    assert_eq!(unchanged, "/posts".to_string());
    assert!(none.is_empty());
}

fn posts_spec() -> SpecModel {
    let mut spec = SpecModel::default();
    spec.servers.push("http://localhost:3000".to_string());
    let mut post = plain_schema(None);
    post.has_properties = true;
    spec.schemas.push(("post".to_string(), post));

    let array_of_posts = SchemaModel {
        schema_type: Some(SchemaKind::Array),
        items: Some(Box::new(SchemaOrRef::Ref(
            "#/components/schemas/post".to_string(),
        ))),
        has_properties: false,
        has_all_of: false,
        has_any_of: false,
        has_one_of: false,
        has_enum_values: false,
    };
    let op = OperationModel {
        operation_id: Some("get_posts".to_string()),
        description: Some("all posts".to_string()),
        parameters: vec![ParamOrRef::Object(Box::new(ParamModel {
            name: "userId".to_string(),
            required: Some(false),
            schema: Some(plain_schema(Some(SchemaKind::Integer))),
            param_type: None,
        }))],
        responses: vec![(
            "200".to_string(),
            ResponseOrRef::Object(Box::new(ResponseModel {
                content: vec![(
                    "application/json".to_string(),
                    MediaModel { schema: Some(SchemaOrRef::Object(Box::new(array_of_posts))) },
                )],
            })),
        )],
    };
    let item = PathItemModel { get: Some(op), ..PathItemModel::default() };
    spec.paths.push(("/posts".to_string(), item));
    spec
}

#[test]
fn whole_path_becomes_a_query_field() {
    let spec = posts_spec();
    let generator = QueryGenerator::new("Query".to_string(), &spec);
    assert_eq!(generator.base_url, Some("http://localhost:3000".to_string()));

    let config = Config {
        types: Vec::new(),
        schema: SchemaRoots { query: Some("Query".to_string()), mutation: None, subscription: None },
    };
    let out = generator.transform(&spec, config);
    let (qname, qtype) = &out.types[0];
    assert_eq!(qname, &"Query".to_string());
    assert_eq!(qtype.fields.len(), 1);
    let (fname, field) = &qtype.fields[0];
    assert_eq!(fname, &"getPosts".to_string());
    assert_eq!(field.type_of, "Post".to_string());
    assert!(field.list);
    assert_eq!(field.args.len(), 1);
    assert_eq!(field.args[0].0, "userId".to_string());
    assert_eq!(field.args[0].1.type_of, "Int".to_string());
    let http = field.http.as_ref().unwrap();
    assert_eq!(http.method, Method::Get);
    assert_eq!(http.path, "/posts".to_string());
    assert_eq!(http.base_url, Some("http://localhost:3000".to_string()));
    assert_eq!(http.query.len(), 1);
    assert_eq!(http.query[0].key, "userId".to_string());
    assert_eq!(http.query[0].value, "{{.args.userId}}".to_string());
    assert_eq!(field.doc, Some("all posts".to_string()));
}

#[test]
fn pathless_items_are_skipped() {
    let mut spec = posts_spec();
    spec.paths.push(("/empty".to_string(), PathItemModel::default()));
    let generator = QueryGenerator::new("Query".to_string(), &spec);
    let config = Config {
        types: Vec::new(),
        schema: SchemaRoots { query: Some("Query".to_string()), mutation: None, subscription: None },
    };
    let out = generator.transform(&spec, config);
    assert_eq!(out.types[0].1.fields.len(), 1);
}

#[test]
fn single_generator_reports_skip_reasons() {
    let spec = posts_spec();
    let query = "Query".to_string();
    let path = "/nothing".to_string();
    let item = PathItemModel::default();
    let base_url = None;
    let single = SingleQueryGenerator {
        query: &query,
        path: &path,
        path_item: &item,
        base_url: &base_url,
    };
    let config = Config {
        types: Vec::new(),
        schema: SchemaRoots { query: Some("Query".to_string()), mutation: None, subscription: None },
    };
    let err = single.transform(&spec, config).unwrap_err();
    assert_eq!(err, "skipping /nothing: no operation found".to_string());
}
