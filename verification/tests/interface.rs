use lava_eval::interface::{interface_from_form, interfaces_in_source, InterfaceParseError};
use lava_eval::sexpr::parse;
use lava_eval::types::{MatchKind, Type};

#[test]
fn parses_simple_interface_with_string_and_cidr_inputs() {
    let src = r#"
        (deflava-interface aws-vpc-network
          :doc "Test VPC interface"
          :inputs ((:cidr :type :cidr-block :default "10.0.0.0/16")
                   (:env  :type :string :required #t))
          :outputs ((:vpc-id :type :string :required #t)))
    "#;
    let ifaces = interfaces_in_source(src).unwrap();
    assert_eq!(ifaces.len(), 1);
    let iface = &ifaces[0];
    assert_eq!(iface.name, "aws-vpc-network");
    assert_eq!(iface.doc.as_deref(), Some("Test VPC interface"));
    assert_eq!(iface.inputs.len(), 2);
    assert_eq!(iface.outputs.len(), 1);
    assert!(matches!(iface.inputs["cidr"].ty, Type::CidrBlock));
    assert_eq!(iface.inputs["cidr"].default.as_deref(), Some("10.0.0.0/16"));
    assert!(iface.inputs["env"].required);
}

#[test]
fn parses_list_of_with_min_items_and_typed_inner() {
    let src = r#"
        (deflava-interface stuff
          :inputs ((:azs :type (:list-of :availability-zone :min-items 1 :max-items 6))))
    "#;
    let ifaces = interfaces_in_source(src).unwrap();
    let f = &ifaces[0].inputs["azs"];
    match &f.ty {
        Type::ListOf {
            inner,
            min_items,
            max_items,
        } => {
            assert!(matches!(**inner, Type::AvailabilityZone));
            assert_eq!(*min_items, Some(1));
            assert_eq!(*max_items, Some(6));
        }
        other => panic!("expected ListOf, got {other:?}"),
    }
}

#[test]
fn parses_enum_and_collects_string_values() {
    let src = r#"
        (deflava-interface x
          :inputs ((:env :type (:enum "prod" "staging" "dev") :default "prod")))
    "#;
    let ifaces = interfaces_in_source(src).unwrap();
    let f = &ifaces[0].inputs["env"];
    match &f.ty {
        Type::Enum { values } => {
            assert_eq!(values, &vec!["prod".to_string(), "staging".into(), "dev".into()]);
        }
        other => panic!("expected Enum, got {other:?}"),
    }
    assert_eq!(f.default.as_deref(), Some("prod"));
}

#[test]
fn unknown_clauses_are_ignored_for_forward_compatibility() {
    let src = r#"
        (deflava-interface y
          :inputs ((:foo :type :string :brand-new-clause "ignored")))
    "#;
    let ifaces = interfaces_in_source(src).unwrap();
    assert_eq!(ifaces.len(), 1);
    assert_eq!(ifaces[0].inputs.len(), 1);
}

#[test]
fn skips_non_interface_forms() {
    let src = r#"
        (deflava-architecture demo
          :inputs ((:cidr "10.0.0.0/16"))
          :resources ((aws-vpc "x" :cidr-block "{cidr}")))
        (deflava-interface demo
          :inputs ((:cidr :type :cidr-block :required #t)))
    "#;
    let ifaces = interfaces_in_source(src).unwrap();
    assert_eq!(ifaces.len(), 1);
    assert_eq!(ifaces[0].name, "demo");
}

#[test]
fn unknown_primitive_type_surfaces_as_typed_error() {
    let src = r#"
        (deflava-interface z
          :inputs ((:x :type :not-a-real-type)))
    "#;
    let err = interfaces_in_source(src).unwrap_err();
    match err {
        InterfaceParseError::UnknownType(t) => assert_eq!(t, "not-a-real-type"),
        other => panic!("expected UnknownType, got {other:?}"),
    }
}

fn type_of(form: &str) -> Result<Type, InterfaceParseError> {
    let src = format!("(deflava-interface t :inputs ((:f :type {form})))");
    let mut ifaces = interfaces_in_source(&src)?;
    let mut iface = ifaces.remove(0);
    Ok(iface.inputs.swap_remove("f").unwrap().ty)
}

#[test]
fn every_primitive_keyword_names_its_type() {
    assert_eq!(type_of(":string").unwrap(), Type::String);
    assert_eq!(type_of(":integer").unwrap(), Type::Integer);
    assert_eq!(type_of(":boolean").unwrap(), Type::Boolean);
    assert_eq!(type_of(":any").unwrap(), Type::Any);
    assert_eq!(type_of(":dynamic").unwrap(), Type::Dynamic);
    assert_eq!(type_of(":cidr-block").unwrap(), Type::CidrBlock);
    assert_eq!(type_of(":ipv4").unwrap(), Type::Ipv4);
    assert_eq!(type_of(":ipv6").unwrap(), Type::Ipv6);
    assert_eq!(type_of(":hostname").unwrap(), Type::Hostname);
    assert_eq!(type_of(":port-range").unwrap(), Type::PortRange { lo: 1024, hi: 65535 });
    assert_eq!(type_of(":availability-zone").unwrap(), Type::AvailabilityZone);
    assert_eq!(type_of(":email").unwrap(), Type::Email);
    assert_eq!(type_of(":url").unwrap(), Type::Url);
}

#[test]
fn parametric_forms_read_their_parameters() {
    assert_eq!(type_of("(:int-range :min -1 :max 5)").unwrap(), Type::IntRange { lo: -1, hi: 5 });
    assert_eq!(type_of("(:int-range :lo 1 :hi 2 :min 3)").unwrap(), Type::IntRange { lo: 3, hi: 2 });
    assert_eq!(type_of("(:port-range :lo 1 :hi 9)").unwrap(), Type::PortRange { lo: 1, hi: 9 });
    assert_eq!(type_of("(:length :min 0 :max 8)").unwrap(), Type::Length { min: 0, max: 8 });
    assert_eq!(
        type_of("(:pattern :match-kind ends-with :value \"x\")").unwrap(),
        Type::Pattern { source: "x".to_string(), match_kind: MatchKind::EndsWith }
    );
    assert_eq!(
        type_of("(:pattern :source \"y\" :match-kind starts-with)").unwrap(),
        Type::Pattern { source: "y".to_string(), match_kind: MatchKind::StartsWith }
    );
    assert_eq!(
        type_of("(:pattern)").unwrap(),
        Type::Pattern { source: String::new(), match_kind: MatchKind::Contains }
    );
    assert_eq!(
        type_of("(:list-of (:list-of :url) :min-items -1)").unwrap(),
        Type::ListOf {
            inner: Box::new(Type::ListOf {
                inner: Box::new(Type::Url),
                min_items: None,
                max_items: None
            }),
            min_items: None,
            max_items: None
        }
    );
}

fn bad_type(form: &str) -> String {
    match type_of(form).unwrap_err() {
        InterfaceParseError::BadTypeForm(s) => s,
        other => panic!("expected BadTypeForm, got {other:?}"),
    }
}

#[test]
fn malformed_types_say_what_is_wrong() {
    assert_eq!(bad_type("string"), "Atom(Sym(\"string\"))");
    assert_eq!(bad_type("\"a\\\"b\""), "Atom(Str(\"a\\\"b\"))");
    assert_eq!(bad_type("5"), "Atom(Int(5))");
    assert_eq!(bad_type("#t"), "Atom(Bool(true))");
    assert_eq!(bad_type("()"), "parametric head must be :kw");
    assert_eq!(bad_type("(:list-of)"), ":list-of missing inner");
    assert_eq!(bad_type("(:int-range :hi 1)"), ":int-range needs :lo");
    assert_eq!(bad_type("(:int-range :lo 1)"), ":int-range needs :hi");
    assert_eq!(bad_type("(:port-range :lo 70000 :hi 1)"), ":port-range needs :lo");
    assert_eq!(bad_type("(:port-range :lo 1)"), ":port-range needs :hi");
    assert_eq!(bad_type("(:length :max 1)"), ":length needs :min");
    assert_eq!(bad_type("(:length :min 1 :max -1)"), ":length needs :max");
    assert!(matches!(
        type_of("(:nope)").unwrap_err(),
        InterfaceParseError::UnknownType(t) if t == "nope"
    ));
}

#[test]
fn field_clauses_fill_the_field() {
    let src = r#"(deflava-interface t
        :inputs ((:a :type (:list-of :string :max-items 9) :min-items 2 :doc "d"
                     :default ("x" 5 y))
                 (:b)
                 (:c :type :integer :default 7 :required yes)
                 (:d :type :boolean :default #f)
                 (:e :default :kw)
                 (:a :type :string)))"#;
    let iface = interfaces_in_source(src).unwrap().remove(0);
    let names: Vec<&str> = iface.inputs.keys().map(|k| k.as_str()).collect();
    assert_eq!(names, vec!["a", "b", "c", "d", "e"]);
    assert_eq!(iface.inputs["a"].ty, Type::String);
    assert_eq!(iface.inputs["b"].ty, Type::Any);
    assert!(iface.inputs["b"].loose);
    assert!(!iface.inputs["c"].loose);
    assert_eq!(iface.inputs["c"].default.as_deref(), Some("7"));
    assert!(!iface.inputs["c"].required);
    assert_eq!(iface.inputs["d"].default.as_deref(), Some("false"));
    assert_eq!(iface.inputs["e"].default, None);

    let first = r#"(deflava-interface t
        :inputs ((:a :type (:list-of :string :max-items 9) :min-items 2 :doc "d"
                     :default ("x" 5 y))))"#;
    let a = interfaces_in_source(first).unwrap().remove(0).inputs.swap_remove("a").unwrap();
    assert_eq!(
        a.ty,
        Type::ListOf { inner: Box::new(Type::String), min_items: Some(2), max_items: Some(9) }
    );
    assert_eq!(a.doc.as_deref(), Some("d"));
    assert_eq!(a.default.as_deref(), Some("x,y"));
}

fn message(src: &str) -> String {
    interfaces_in_source(src).unwrap_err().message()
}

#[test]
fn interface_errors_read_as_sentences() {
    assert_eq!(message("(deflava-interface)"), "expected deflava-interface form, got missing name");
    assert_eq!(
        message("(deflava-interface t :inputs 5)"),
        "malformed field declaration: :inputs not a list"
    );
    assert_eq!(
        message("(deflava-interface t :outputs x)"),
        "malformed field declaration: :outputs not a list"
    );
    assert_eq!(
        message("(deflava-interface t :inputs (:cidr))"),
        "malformed field declaration: field not a list: Atom(Kw(\"cidr\"))"
    );
    assert_eq!(
        message("(deflava-interface t :inputs ((cidr)))"),
        "malformed field declaration: field head must be :kw"
    );
    assert_eq!(
        message("(deflava-interface t :inputs ((:a :type :b)))"),
        "unknown type keyword `b`"
    );
    assert_eq!(
        message("(deflava-interface t :inputs ((:a :type ())))"),
        "malformed type form: parametric head must be :kw"
    );
    assert_eq!(message("("), "parse: unclosed list starting at offset 0");
    assert_eq!(InterfaceParseError::MissingClause("x").message(), "missing :x clause");
}

#[test]
fn one_form_reads_as_one_interface() {
    let form = parse("(deflava-interface t :doc 5 :outputs ((:o :type :email)))").unwrap();
    let iface = interface_from_form(form.as_list().unwrap()).unwrap();
    assert_eq!(iface.name, "t");
    assert_eq!(iface.doc, None);
    assert_eq!(iface.outputs["o"].ty, Type::Email);
}
