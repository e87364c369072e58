use lava_eval::import::{imports_in_source, Import, ImportParseError};

#[test]
fn imports_in_source_extracts_typed_imports() {
    let src = r#"
        (deflava-import aws-vpc-network
          :as network
          :bindings (:name "preview" :cidr "10.42.0.0/16"))

        (deflava-import cloudflare-dns-records
          :as dns
          :bindings (:zone-id "abcdef1234567890"))
    "#;
    let imports = imports_in_source(src).unwrap();
    assert_eq!(imports.len(), 2);
    assert_eq!(imports[0].target, "aws-vpc-network");
    assert_eq!(imports[0].alias.as_deref(), Some("network"));
    assert_eq!(imports[0].bindings["cidr"], "10.42.0.0/16");
    assert_eq!(imports[1].target, "cloudflare-dns-records");
    assert_eq!(imports[1].bindings["zone-id"], "abcdef1234567890");
}

#[test]
fn import_without_alias_or_bindings_parses_cleanly() {
    let src = "(deflava-import aws-vpc-network)";
    let imports = imports_in_source(src).unwrap();
    assert_eq!(imports.len(), 1);
    assert_eq!(imports[0].target, "aws-vpc-network");
    assert!(imports[0].alias.is_none());
    assert!(imports[0].bindings.is_empty());
}

#[test]
fn skips_non_import_forms_in_multi_form_source() {
    let src = r#"
        (deflava-interface demo :inputs ())
        (deflava-import aws-vpc-network :as net)
        (deflava-architecture demo :inputs () :resources ())
    "#;
    let imports = imports_in_source(src).unwrap();
    assert_eq!(imports.len(), 1);
    assert_eq!(imports[0].target, "aws-vpc-network");
}

#[test]
fn missing_target_surfaces_typed_error() {
    let src = "(deflava-import)";
    let err = imports_in_source(src).unwrap_err();
    assert!(matches!(err, ImportParseError::NotImportForm));
}

#[test]
fn bindings_keep_their_order_and_the_last_value() {
    let src = r#"(deflava-import "t" :as "n"
        :bindings (:a "1" :b "2" :a "3" :skipped 4 "x" "y")
        :bindings (:c "5"))"#;
    let imports = imports_in_source(src).unwrap();
    assert_eq!(imports[0].target, "t");
    assert_eq!(imports[0].alias.as_deref(), Some("n"));
    let pairs: Vec<(&str, &str)> =
        imports[0].bindings.iter().map(|(k, v)| (k.as_str(), v.as_str())).collect();
    assert_eq!(pairs, vec![("a", "3"), ("b", "2"), ("c", "5")]);
    assert_eq!(imports[0].clone(), imports[0]);
}

#[test]
fn a_new_import_has_a_target_only() {
    let i = Import::new("net");
    assert_eq!(i.target, "net");
    assert!(i.alias.is_none());
    assert!(i.bindings.is_empty());
}

#[test]
fn import_errors_read_as_sentences() {
    let parse = imports_in_source("(").unwrap_err();
    assert_eq!(parse.message(), "parse: unclosed list starting at offset 0");
    let target = imports_in_source("(deflava-import 5)").unwrap_err();
    assert_eq!(target.message(), "expected deflava-import form");
    assert_eq!(
        ImportParseError::Malformed("x".to_string()).message(),
        "malformed deflava-import: x"
    );
}
