use test_retry::codegen::expand;
use test_retry::codegen::generate;
use test_retry::codegen::u64_to_decimal;
use test_retry::codegen::ExpandError;
use test_retry::codegen::FnDescriptor;
use test_retry::config::ConfigError;
use test_retry::config::Configuration;

#[test]
fn decimal_rendering_is_exact() {
    assert_eq!(u64_to_decimal(0), "0");
    assert_eq!(u64_to_decimal(7), "7");
    assert_eq!(u64_to_decimal(10), "10");
    assert_eq!(u64_to_decimal(305), "305");
    assert_eq!(u64_to_decimal(u64::MAX), "18446744073709551615");
}

#[test]
fn generated_wrapper_text_is_exact() {
    let descriptor = FnDescriptor {
        attrs: vec!["#[test]".to_string()],
        signature: "fn default ()".to_string(),
        body: "{ assert ! (true) }".to_string(),
    };
    let out = generate(&descriptor, Configuration { count: 2 });
    let expected = "#[test]\nfn default () {\n    for i in 0..2u64 {\n        let result = std::panic::catch_unwind(|| { assert ! (true) });\n        if result.is_ok() {\n            return;\n        }\n\n        if i == 2 - 1 {\n            std::panic::resume_unwind(result.unwrap_err());\n        }\n    }\n}\n";
    assert_eq!(out, expected);
}

#[test]
fn generate_keeps_every_attribute_in_order() {
    let descriptor = FnDescriptor {
        attrs: vec!["#[test]".to_string(), "#[ignore]".to_string()],
        signature: "fn flaky ()".to_string(),
        body: "{ }".to_string(),
    };
    let out = generate(&descriptor, Configuration { count: 4 });
    assert!(out.starts_with("#[test]\n#[ignore]\nfn flaky () {\n"));
    assert!(out.contains("for i in 0..4u64"));
    assert!(out.contains("if i == 4 - 1"));
}

#[test]
fn generate_keeps_the_signature_verbatim() {
    let descriptor = FnDescriptor {
        attrs: Vec::new(),
        signature: "pub fn shared ()".to_string(),
        body: "{ }".to_string(),
    };
    let out = generate(&descriptor, Configuration { count: 1 });
    assert!(out.starts_with("pub fn shared () {\n"));
}

#[test]
fn expand_wraps_a_parsed_function() {
    let source = "#[test]\nfn default() { assert!(true) }";
    let out = expand(b"count = 2", source).unwrap();
    assert!(out.contains("fn default"));
    assert!(out.contains("for i in 0..2u64"));
    assert!(out.contains("std::panic::catch_unwind"));
    assert!(out.contains("std::panic::resume_unwind"));
    assert!(out.contains("assert ! (true)"));
    assert!(out.contains("[test]"));
    assert_ne!(out, source);
}

#[test]
fn expand_uses_the_default_count() {
    let source = "fn quiet() { }";
    let out = expand(b"", source).unwrap();
    assert!(out.contains("for i in 0..3u64"));
    assert!(out.contains("if i == 3 - 1"));
}

#[test]
fn expand_keeps_the_visibility() {
    let source = "pub fn shared() { }";
    let out = expand(b"count = 2", source).unwrap();
    assert!(out.starts_with("pub fn shared"));
}

#[test]
fn expand_rejects_bad_arguments_without_output() {
    let source = "fn quiet() { }";
    assert_eq!(
        expand(b"count = \"x\"", source),
        Err(ExpandError::Arguments(ConfigError::InvalidValue))
    );
    assert_eq!(
        expand(b"count = 0", source),
        Err(ExpandError::Arguments(ConfigError::ZeroCount))
    );
}

#[test]
fn expand_rejects_what_is_not_a_function() {
    let out = expand(b"count = 2", "struct NotAFunction;");
    match out {
        Err(ExpandError::Function(msg)) => assert!(!msg.is_empty()),
        other => panic!("expected a function parse error, got {:?}", other),
    }
}
