//! The naming assistant's decisions and the hashing utility.

use tailcall::config::{Config, SchemaRoots, TypeConfig};
use tailcall::hasher::{TailcallBuildHasher, TailcallHasher};
use tailcall::llm::{invert_mappings, next_delay, InferArgsName};

fn config_with_types(names: &[&str]) -> Config {
    Config {
        types: names
            .iter()
            .map(|n| (n.to_string(), TypeConfig::new()))
            .collect(),
        schema: SchemaRoots { query: None, mutation: None, subscription: None },
    }
}

#[test]
fn picks_the_first_free_suggestion() {
    let config = config_with_types(&["Post"]);
    let assistant = InferArgsName::new();
    let mappings = vec![("Story".to_string(), "arg0".to_string())];
    let suggestions = vec![
        "Post".to_string(),
        "Story".to_string(),
        "Article".to_string(),
        "Event".to_string(),
        "Brief".to_string(),
    ];
    let choice = assistant.choose_suggestion(&config, &mappings, &suggestions);
    assert_eq!(choice, Some("Article".to_string()));
}

#[test]
fn exhausted_suggestions_yield_nothing() {
    let config = config_with_types(&["Post", "Story"]);
    let assistant = InferArgsName::new();
    let suggestions = vec!["Post".to_string(), "Story".to_string()];
    let choice = assistant.choose_suggestion(&config, &Vec::new(), &suggestions);
    assert_eq!(choice, None);
}

#[test]
fn mappings_invert_pairwise() {
    let mappings = vec![
        ("Post".to_string(), "p1".to_string()),
        ("Story".to_string(), "p2".to_string()),
    ];
    let inverted = invert_mappings(&mappings);
    assert_eq!(
        inverted,
        vec![
            ("p1".to_string(), "Post".to_string()),
            ("p2".to_string(), "Story".to_string()),
        ]
    );
}

#[test]
fn retry_delay_grows() {
    assert_eq!(next_delay(3), 18);
    assert_eq!(next_delay(18), 18 * 36);
    assert_eq!(next_delay(60), 3600);
}

#[test]
fn hashing_is_deterministic_over_bytes() {
    let mut h1 = TailcallHasher::new();
    h1.write(b"request-key");
    let mut h2 = TailcallBuildHasher.build_hasher();
    h2.write(b"request-");
    h2.write(b"key");
    assert_eq!(h1.finish(), h2.finish());

    let mut h3 = TailcallHasher::new();
    h3.write(b"other-key");
    assert_ne!(h1.finish(), h3.finish());
}
