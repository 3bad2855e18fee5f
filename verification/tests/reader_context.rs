//! The configuration-reading context's path lookup.

use tailcall::context::{ConfigReaderContext, Headers};

fn path(parts: &[&str]) -> Vec<String> {
    parts.iter().map(|p| p.to_string()).collect()
}

#[test]
fn path_string() {
    let reader_context = ConfigReaderContext {
        vars: vec![("VAR_1".to_owned(), "VAR_VAL".to_owned())],
        env: vec![("ENV_1".to_owned(), "ENV_VAL".to_owned())],
        headers: Headers::new(),
    };

    assert_eq!(
        reader_context.path_string(&path(&["env", "ENV_1"])),
        Some("ENV_VAL".to_string())
    );
    assert_eq!(reader_context.path_string(&path(&["env", "ENV_5"])), None);
    assert_eq!(
        reader_context.path_string(&path(&["vars", "VAR_1"])),
        Some("VAR_VAL".to_string())
    );
    assert_eq!(reader_context.path_string(&path(&["vars", "VAR_6"])), None);
    assert_eq!(
        reader_context.path_string(&path(&["unknown", "unknown"])),
        None
    );
}

#[test]
fn path_string_needs_two_parts() {
    let reader_context = ConfigReaderContext {
        vars: vec![("VAR_1".to_owned(), "VAR_VAL".to_owned())],
        env: Vec::new(),
        headers: Headers::new(),
    };
    assert_eq!(reader_context.path_string(&path(&["vars"])), None);
    assert_eq!(reader_context.path_string(&path(&[])), None);
}
