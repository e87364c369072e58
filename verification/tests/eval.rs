use lava_eval::arch::{Architecture, Multiplicity, ProviderRef, Resource};
use lava_eval::datum::{Datum, DatumMap};
use lava_eval::error::EvalError;
use lava_eval::eval::{
    eval_architecture, eval_for_each, eval_resource, eval_value, InputBindings,
};
use lava_eval::schema::{eval_architecture_with_schema, eval_checked, SchemaError};
use lava_eval::sexpr::{parse, Sx};
use lava_eval::template::Env;
use lava_eval::types::{Field, Interface, MatchKind, Type};

// -- Conversion into the document model that renders terraform JSON --

fn core_map(m: &DatumMap) -> indexmap::IndexMap<String, lava_core::Value> {
    (0..m.len()).filter_map(|i| m.at(i)).map(|(k, v)| (k.clone(), core_value(v))).collect()
}

fn core_value(v: &Datum) -> lava_core::Value {
    match v {
        Datum::Null => lava_core::Value::Null,
        Datum::Bool(b) => lava_core::Value::Bool(*b),
        Datum::Int(n) => lava_core::Value::Int(*n),
        Datum::Str(s) => lava_core::Value::Str(s.clone()),
        Datum::Ref(r) => lava_core::Value::Ref(lava_core::ResourceRef {
            type_id: r.type_id.clone(),
            name: r.name.clone(),
            attribute: r.attribute.clone(),
        }),
        Datum::List(items) => lava_core::Value::List(items.iter().map(core_value).collect()),
        Datum::Object(m) => lava_core::Value::Map(core_map(m)),
    }
}

fn core_provider(p: &ProviderRef) -> lava_core::ProviderRef {
    lava_core::ProviderRef {
        source: p.source.clone(),
        name: p.name.clone(),
        alias: p.alias.clone(),
        config: core_map(&p.config),
    }
}

fn core_resource(r: &Resource) -> lava_core::Resource {
    assert!(r.depends_on.is_empty());
    lava_core::Resource {
        type_id: r.type_id.clone(),
        name: r.name.clone(),
        attributes: core_map(&r.attributes),
        depends_on: vec![],
        provider: r.provider.as_ref().map(core_provider),
        multiplicity: r.multiplicity.as_ref().map(|m| match m {
            Multiplicity::Count(n) => lava_core::Multiplicity::Count(*n),
            Multiplicity::ForEach(m) => lava_core::Multiplicity::ForEach(core_map(m)),
        }),
    }
}

fn render(a: &Architecture) -> serde_json::Value {
    let mut b = lava_arch::Builder::new(a.name.as_str());
    for r in &a.resources {
        b.add_resource(core_resource(r));
    }
    let mut out = b.finish();
    out.data_sources = a.data_sources.iter().map(core_resource).collect();
    out.outputs = core_map(&a.outputs);
    out.providers = a.providers.iter().map(core_provider).collect();
    out.locals = core_map(&a.locals);
    out.render_terraform_json().unwrap()
}

// -- Architectures --

#[test]
fn schema_validation_rejects_bad_input_before_evaluation() {
    let mut iface = Interface::new("demo-vpc");
    iface
        .inputs
        .insert("cidr".to_string(), Field::strict(Type::CidrBlock));

    let src = r#"
        (deflava-architecture demo-vpc
          :inputs ((:cidr "10.0.0.0/16"))
          :resources ((aws-vpc "demo" :cidr-block "{cidr}")))
    "#;

    let mut bindings = InputBindings::new();
    bindings.set_str("cidr", "not-a-cidr-at-all");

    let err = eval_architecture_with_schema(src, &bindings, &iface).unwrap_err();
    match err {
        EvalError::Schema { interface, count, .. } => {
            assert_eq!(interface, "demo-vpc");
            assert_eq!(count, 1);
        }
        other => panic!("expected EvalError::Schema, got {other:?}"),
    }
}

#[test]
fn data_clause_renders_as_terraform_data_block() {
    let src = r#"
        (deflava-architecture x
          :inputs ()
          :resources ((aws-vpc "main" :cidr-block "10.0.0.0/16"))
          :data ((aws-ami "ubuntu" :most-recent #t :owners ("099720109477"))))
    "#;
    let arch = eval_architecture(src, &InputBindings::new()).unwrap();
    let json = render(&arch);
    assert_eq!(json["data"]["aws_ami"]["ubuntu"]["most_recent"], true);
    assert_eq!(json["data"]["aws_ami"]["ubuntu"]["owners"][0], "099720109477");
}

#[test]
fn outputs_clause_renders_as_terraform_output_block() {
    let src = r#"
        (deflava-architecture x
          :inputs ()
          :resources ((aws-vpc "main" :cidr-block "10.0.0.0/16"))
          :outputs (:vpc-id (ref aws-vpc "main" id)
                    :vpc-cidr "10.0.0.0/16"))
    "#;
    let arch = eval_architecture(src, &InputBindings::new()).unwrap();
    let json = render(&arch);
    assert_eq!(json["output"]["vpc-id"]["value"], "${aws_vpc.main.id}");
    assert_eq!(json["output"]["vpc-cidr"]["value"], "10.0.0.0/16");
}

#[test]
fn providers_clause_renders_with_typed_config() {
    let src = r#"
        (deflava-architecture x
          :inputs ()
          :resources ((aws-vpc "main" :cidr-block "10.0.0.0/16"))
          :providers ((aws :region "us-east-2" :profile "prod")
                      (aws :alias "west" :region "us-west-2")))
    "#;
    let arch = eval_architecture(src, &InputBindings::new()).unwrap();
    let json = render(&arch);
    // Two configs for "aws" → emitted as a JSON array.
    let arr = json["provider"]["aws"].as_array().unwrap();
    assert_eq!(arr.len(), 2);
    assert_eq!(arr[0]["region"], "us-east-2");
    assert_eq!(arr[1]["alias"], "west");
    assert_eq!(arr[1]["region"], "us-west-2");
}

#[test]
fn locals_clause_renders_under_top_level_locals() {
    let src = r#"
        (deflava-architecture x
          :inputs ()
          :resources ((aws-vpc "main" :cidr-block "10.0.0.0/16"))
          :locals (:env "prod" :retry-count 3))
    "#;
    let arch = eval_architecture(src, &InputBindings::new()).unwrap();
    let json = render(&arch);
    assert_eq!(json["locals"]["env"], "prod");
    assert_eq!(json["locals"]["retry_count"], 3);
}

#[test]
fn resource_count_meta_arg_renders_as_terraform_count() {
    let src = r#"
        (deflava-architecture x
          :inputs ()
          :resources ((aws-instance "node" :count 3 :ami "ami-12345" :instance-type "t3.micro")))
    "#;
    let arch = eval_architecture(src, &InputBindings::new()).unwrap();
    let json = render(&arch);
    assert_eq!(json["resource"]["aws_instance"]["node"]["count"], 3);
    assert_eq!(json["resource"]["aws_instance"]["node"]["ami"], "ami-12345");
}

#[test]
fn resource_for_each_meta_arg_renders_as_terraform_for_each() {
    let src = r#"
        (deflava-architecture x
          :inputs ()
          :resources ((aws-s3-bucket "data"
                        :for-each (:logs "tag-logs" :metrics "tag-metrics")
                        :bucket "demo")))
    "#;
    let arch = eval_architecture(src, &InputBindings::new()).unwrap();
    let json = render(&arch);
    assert_eq!(json["resource"]["aws_s3_bucket"]["data"]["for_each"]["logs"], "tag-logs");
    assert_eq!(json["resource"]["aws_s3_bucket"]["data"]["for_each"]["metrics"], "tag-metrics");
}

#[test]
fn when_false_skips_resource_entirely() {
    let src = r#"
        (deflava-architecture x
          :inputs ()
          :resources ((aws-vpc "main" :when #t :cidr-block "10.0.0.0/16")
                      (aws-subnet "skip" :when #f :cidr-block "10.0.1.0/24")))
    "#;
    let arch = eval_architecture(src, &InputBindings::new()).unwrap();
    let json = render(&arch);
    assert!(json["resource"]["aws_vpc"]["main"].is_object());
    assert!(json["resource"]["aws_subnet"].is_null(),
        "aws_subnet should be omitted entirely when :when #f");
}

#[test]
fn when_predicate_resolves_variable_bindings() {
    let src = r#"
        (deflava-architecture x
          :inputs ((:enable "true"))
          :resources ((aws-vpc "main" :when "{enable}" :cidr-block "10.0.0.0/16")))
    "#;
    let mut b = InputBindings::new();
    b.set_str("enable", "true");
    let arch = eval_architecture(src, &b).unwrap();
    assert!(render(&arch)["resource"]["aws_vpc"]["main"].is_object());

    let mut b = InputBindings::new();
    b.set_str("enable", "false");
    let arch = eval_architecture(src, &b).unwrap();
    let json = render(&arch);
    assert!(
        json["resource"].is_null()
            || json["resource"]["aws_vpc"].is_null(),
        "vpc should be omitted when :enable=false"
    );
}

#[test]
fn when_with_unparseable_value_surfaces_typed_error() {
    let src = r#"
        (deflava-architecture x
          :inputs ()
          :resources ((aws-vpc "main" :when "maybe" :cidr-block "10.0.0.0/16")))
    "#;
    let err = eval_architecture(src, &InputBindings::new()).unwrap_err();
    assert!(matches!(err, EvalError::Type(_)));
}

#[test]
fn schema_validation_passes_with_valid_input() {
    let mut iface = Interface::new("demo-vpc");
    iface
        .inputs
        .insert("cidr".to_string(), Field::strict(Type::CidrBlock));

    let src = r#"
        (deflava-architecture demo-vpc
          :inputs ((:cidr "10.0.0.0/16"))
          :resources ((aws-vpc "demo" :cidr-block "{cidr}")))
    "#;

    let mut bindings = InputBindings::new();
    bindings.set_str("cidr", "10.42.0.0/16");

    let arch = eval_architecture_with_schema(src, &bindings, &iface).unwrap();
    let json = render(&arch);
    assert_eq!(json["resource"]["aws_vpc"]["demo"]["cidr_block"], "10.42.0.0/16");
}

// -- Clauses and their faults --

fn eval(src: &str) -> Result<Architecture, EvalError> {
    eval_architecture(src, &InputBindings::new())
}

fn fault(clauses: &str) -> String {
    eval(&format!("(deflava-architecture x {clauses})")).unwrap_err().message()
}

#[test]
fn architecture_faults_read_as_sentences() {
    let got = "expected deflava-architecture form, got ";
    assert_eq!(eval("(").unwrap_err().message(), "parse: unclosed list starting at offset 0");
    assert_eq!(eval("(other)").unwrap_err().message(), format!("{got}no deflava-architecture form"));
    assert_eq!(fault(""), "missing :resources clause");
    assert_eq!(fault(":inputs 5 :resources ()"), format!("{got}:inputs not a list"));
    assert_eq!(fault(":inputs (5) :resources ()"), format!("{got}input not a list"));
    assert_eq!(fault(":inputs ((x)) :resources ()"), format!("{got}input head not :kw"));
    assert_eq!(fault(":inputs ((:x)) :resources ()"), "missing input binding for x");
    assert_eq!(fault(":inputs ((:x 5)) :resources ()"), "type mismatch: expected string | list");
    assert_eq!(fault(":inputs ((:x (5))) :resources ()"), "type mismatch: expected list of strings");
    assert_eq!(fault(":resources 5"), format!("{got}:resources not a list"));
    assert_eq!(fault(":resources (5)"), format!("{got}resource not a list"));
    assert_eq!(fault(":resources ((5))"), format!("{got}resource head not sym"));
    assert_eq!(fault(":resources ((a b))"), format!("{got}resource name not string"));
    assert_eq!(fault(":resources ((a \"b\" c d))"), format!("{got}attr key not :kw"));
    assert_eq!(fault(":resources ((a \"b\" :count x))"), "type mismatch: expected :count expects integer");
    assert_eq!(
        fault(":resources ((a \"b\" :for-each x))"),
        "type mismatch: expected :for-each expects key/value pair list"
    );
    assert_eq!(
        fault(":resources ((a \"b\" :for-each (x y)))"),
        "type mismatch: expected :for-each key not :kw|str"
    );
    assert_eq!(fault(":resources ((a \"{gone}\"))"), "interpolation: unknown var `gone`");
    assert_eq!(fault(":resources () :data 5"), format!("{got}:data not a list"));
    assert_eq!(fault(":resources () :outputs 5"), format!("{got}:outputs not a list"));
    assert_eq!(fault(":resources () :outputs (x 1)"), format!("{got}:outputs head not :kw"));
    assert_eq!(fault(":resources () :outputs (:x)"), format!("{got}:outputs missing value"));
    assert_eq!(fault(":resources () :locals 5"), format!("{got}:locals not a list"));
    assert_eq!(fault(":resources () :locals (x 1)"), format!("{got}:locals head not :kw"));
    assert_eq!(fault(":resources () :locals (:x)"), format!("{got}:locals missing value"));
    assert_eq!(fault(":resources () :providers 5"), format!("{got}:providers not a list"));
    assert_eq!(fault(":resources () :providers (5)"), format!("{got}provider not a list"));
    assert_eq!(fault(":resources () :providers ((5))"), format!("{got}provider head not sym"));
    assert_eq!(fault(":resources () :providers ((a b c))"), format!("{got}provider attr key not :kw"));
    assert_eq!(fault(":resources () :locals (:x (ref))"), "unknown reference form: type");
    assert_eq!(fault(":resources () :locals (:x (ref a))"), "unknown reference form: name");
    assert_eq!(fault(":resources () :locals (:x (ref a \"b\"))"), "unknown reference form: attr");
}

#[test]
fn caller_inputs_win_over_defaults() {
    let src = r#"(deflava-architecture x
        :inputs ((:a "default-a") (:b default-b) (:l ("p" q)) (:m "scalar") (:n ("list")))
        :resources ((t "n" :a a :b "{b}" :l "{l}" :m m :n n)))"#;
    let json = render(&eval(src).unwrap());
    let t = &json["resource"]["t"]["n"];
    assert_eq!(t["a"], "default-a");
    assert_eq!(t["b"], "default-b");
    assert_eq!(t["l"][0], "p");
    assert_eq!(t["l"][1], "q");

    let mut b = InputBindings::default();
    b.set_str("a", "given-a");
    b.set_list("l", vec!["z".to_string()]);
    b.set_list("m", vec!["m1".to_string(), "m2".to_string()]);
    b.set_str("n", "one");
    b.set_str("unused", "ignored");
    let json = render(&eval_architecture(src, &b.clone()).unwrap());
    let t = &json["resource"]["t"]["n"];
    assert_eq!(t["a"], "given-a");
    assert_eq!(t["b"], "default-b");
    assert_eq!(t["l"][0], "z");
    assert_eq!(t["m"][1], "m2");
    assert_eq!(t["n"], "one");
}

#[test]
fn the_last_binding_of_a_name_counts() {
    let src = "(deflava-architecture x :inputs ((:a)) :resources ((t \"n\" :v a)))";
    let mut b = InputBindings::new();
    b.set_str("a", "first");
    b.set_str("a", "second");
    assert_eq!(render(&eval_architecture(src, &b).unwrap())["resource"]["t"]["n"]["v"], "second");
}

#[test]
fn sibling_forms_are_left_alone() {
    let src = r#"
        (deflava-interface x :inputs ((:broken :type :nope)))
        atom
        (deflava-architecture one :resources ((t "a")))
        (deflava-architecture two :resources ((t "b")))"#;
    let arch = eval(src).unwrap();
    assert_eq!(arch.name, "one");
    assert_eq!(arch.resources.len(), 1);
    assert_eq!(arch.resources[0].name, "a");
    assert_eq!(eval("(deflava-architecture \"s\" :resources ())").unwrap().name, "anonymous");
}

#[test]
fn the_last_clause_of_a_kind_counts_and_unknown_ones_are_ignored() {
    let arch = eval("(deflava-architecture x :result 5 :resources 7 :resources ((t \"a\")) :left)").unwrap();
    assert_eq!(arch.resources.len(), 1);
}

#[test]
fn loops_run_over_a_list_and_number_its_items() {
    let src = r#"(deflava-architecture x
        :inputs ((:azs ("us-1" "us-2")))
        :resources ((vpc "v")
                    (for-each ((ix az) (enumerate azs))
                      (subnet "s-{ix}" :zone "{az}" :block "10.0.{ix+10}.0/24"))))"#;
    let arch = eval(src).unwrap();
    let names: Vec<&str> = arch.resources.iter().map(|r| r.name.as_str()).collect();
    assert_eq!(names, vec!["v", "s-0", "s-1"]);
    let json = render(&arch);
    assert_eq!(json["resource"]["subnet"]["s-0"]["zone"], "us-1");
    assert_eq!(json["resource"]["subnet"]["s-1"]["zone"], "us-2");
    assert_eq!(json["resource"]["subnet"]["s-1"]["block"], "10.0.11.0/24");
}

#[test]
fn loops_nest_and_name_their_variables_by_default() {
    let src = r#"(deflava-architecture x
        :inputs ((:a ("p" "q")) (:b ("r")) (:none ()))
        :resources ((for-each (() (enumerate a))
                      (for-each ((j inner) (enumerate b)) (t "{i}{item}{j}{inner}")))
                    (for-each (() (enumerate none)) (t "never"))
                    (for-each ((k) (enumerate b)) (t "{k}" :when #f))))"#;
    let arch = eval(src).unwrap();
    let names: Vec<&str> = arch.resources.iter().map(|r| r.name.as_str()).collect();
    assert_eq!(names, vec!["0p0r", "1q0r"]);
}

#[test]
fn loop_faults_are_typed() {
    let got = "expected deflava-architecture form, got ";
    let body = |s: &str| fault(&format!(":inputs ((:l (\"a\"))) :resources ((for-each {s}))"));
    assert_eq!(body(""), format!("{got}for-each binding"));
    assert_eq!(body("()"), format!("{got}for-each vars"));
    assert_eq!(body("(())"), format!("{got}for-each iter"));
    assert_eq!(body("(() (walk l))"), format!("{got}for-each iter != enumerate"));
    assert_eq!(body("(() (enumerate))"), format!("{got}enumerate source"));
    assert_eq!(body("(() (enumerate gone))"), "interpolation: unknown var `gone`");
    assert_eq!(body("(() (enumerate l))"), format!("{got}for-each body"));
}

#[test]
fn providers_take_their_source_and_alias() {
    let arch = eval(
        r#"(deflava-architecture x :resources ()
            :providers ((aws) (gcp :source "o/gcp" :alias "a" :alias 5 :my-key 1 :source 2)))"#,
    )
    .unwrap();
    assert_eq!(arch.providers[0].source, "hashicorp/aws");
    assert_eq!(arch.providers[0].name, "aws");
    assert_eq!(arch.providers[1].source, "o/gcp");
    assert_eq!(arch.providers[1].alias, None);
    assert!(matches!(arch.providers[1].config.get("my_key"), Some(Datum::Int(1))));
}

#[test]
fn attributes_keep_their_order_and_the_last_value() {
    let arch = eval(
        "(deflava-architecture x :resources ((t \"n\" :b-c 1 :a 2 :b-c 3 :count 4 :count 5)))",
    )
    .unwrap();
    let m = &arch.resources[0].attributes;
    assert_eq!(m.len(), 2);
    assert_eq!(m.at(0).unwrap().0, "b_c");
    assert!(matches!(m.at(0).unwrap().1, Datum::Int(3)));
    assert_eq!(m.at(1).unwrap().0, "a");
    assert!(m.at(2).is_none());
    assert!(m.get("c").is_none());
    assert!(matches!(arch.resources[0].multiplicity, Some(Multiplicity::Count(5))));
}

// -- Values --

fn value(src: &str, env: &Env) -> Result<serde_json::Value, EvalError> {
    eval_value(&parse(src).unwrap(), env).map(|v| core_value(&v).into_json())
}

fn json(text: &str) -> serde_json::Value {
    serde_json::from_str(text).unwrap()
}

#[test]
fn values_nest_to_any_depth() {
    let mut env = Env::new();
    env.scalars.insert("s".into(), "text".into());
    env.lists.insert("l".into(), vec!["a".to_string(), "b".to_string()]);
    assert_eq!(value("\"x-{s}\"", &env).unwrap(), json("\"x-text\""));
    assert_eq!(value("s", &env).unwrap(), json("\"text\""));
    assert_eq!(value("l", &env).unwrap(), json("[\"a\",\"b\"]"));
    assert_eq!(value("\"{l}\"", &env).unwrap(), json("[\"a\",\"b\"]"));
    assert_eq!(value("5", &env).unwrap(), json("5"));
    assert_eq!(value("#f", &env).unwrap(), json("false"));
    assert_eq!(value("()", &env).unwrap(), json("[]"));
    assert_eq!(value("(s \"{s}\")", &env).unwrap(), json("[\"text\",\"text\"]"));
    assert_eq!(value("(1 #t (2))", &env).unwrap(), json("[1,true,[2]]"));
    assert_eq!(
        value("(:a-b (:c ((:d 1) (:d (2 (:e #t))))))", &env).unwrap(),
        json("{\"a-b\":{\"c\":[{\"d\":1},{\"d\":[2,{\"e\":true}]}]}}")
    );
    assert_eq!(
        value("((Name \"{s}\") (Env \"p\" ignored) (Name \"q\"))", &env).unwrap(),
        json("{\"Name\":\"q\",\"Env\":\"p\"}")
    );
    assert_eq!(
        value("((ref aws-vpc \"{s}\" id) (:k (ref a \"b\" c)))", &env).unwrap(),
        json("[\"${aws_vpc.text.id}\",{\"k\":\"${a.b.c}\"}]")
    );
}

#[test]
fn a_tag_may_be_named_ref() {
    let mut env = Env::new();
    env.scalars.insert("s".into(), "text".into());
    assert_eq!(value("((ref \"x\"))", &env).unwrap(), json("{\"ref\":\"x\"}"));
    assert_eq!(
        value("((ref \"{s}\") (Name \"n\"))", &env).unwrap(),
        json("{\"ref\":\"text\",\"Name\":\"n\"}")
    );
    assert_eq!(
        value("((Name \"n\") (ref \"x\"))", &env).unwrap(),
        json("{\"Name\":\"n\",\"ref\":\"x\"}")
    );
    assert_eq!(value("((ref a \"b\" c))", &env).unwrap(), json("[\"${a.b.c}\"]"));
    assert!(matches!(value("((ref))", &env), Err(EvalError::Type("tag val str"))));
}

#[test]
fn value_faults_are_typed() {
    let env = Env::new();
    assert!(matches!(value(":kw", &env), Err(EvalError::Type("value (not kw)"))));
    assert!(matches!(value("gone", &env), Err(EvalError::UnknownVar(v)) if v == "gone"));
    assert!(matches!(value("(:a)", &env), Err(EvalError::Type("tag pair list"))));
    assert!(matches!(value("(:a 1 b 2)", &env), Err(EvalError::Type("tag pair list"))));
    assert!(matches!(value("((K \"v\") 5)", &env), Err(EvalError::Type("tag pair list"))));
    assert!(matches!(value("((K \"v\") (5))", &env), Err(EvalError::Type("tag key sym"))));
    assert!(matches!(value("((K 5))", &env), Err(EvalError::Type("tag val str"))));
    assert!(matches!(value("(1 :kw)", &env), Err(EvalError::Type("value (not kw)"))));
    assert!(matches!(value("((K \"{gone}\"))", &env), Err(EvalError::UnknownVar(_))));
}

// -- Schema gate --

const GATED: &str = "(deflava-architecture g :inputs ((:a \"x\")) :resources ((t \"n\" :v a)))";

#[test]
fn missing_and_unknown_inputs_are_refused_in_order() {
    let mut iface = Interface::new("gate");
    iface.inputs.insert("b".to_string(), Field::strict(Type::String));
    iface.inputs.insert("n".to_string(), Field::optional(Type::Integer));
    let mut bindings = InputBindings::new();
    bindings.set_list("zones", vec!["p".to_string(), "q".to_string()]);
    bindings.set_str("n", "five");
    bindings.set_str("extra", "1");
    match eval_architecture_with_schema(GATED, &bindings, &iface).unwrap_err() {
        EvalError::Schema { interface, count, first, errors } => {
            assert_eq!(interface, "gate");
            assert_eq!(count, 4);
            assert_eq!(first, "missing required input `b`");
            let all: Vec<String> = errors.iter().map(|e| e.message()).collect();
            assert_eq!(
                all,
                vec![
                    "missing required input `b`",
                    "unknown input `extra` (no loose-fields slot declared)",
                    "type error on input `n`: `five` is not a valid integer",
                    "unknown input `zones` (no loose-fields slot declared)",
                ]
            );
            assert!(matches!(&errors[0], SchemaError::MissingRequired { kind: "input", name } if name == "b"));
        }
        other => panic!("expected EvalError::Schema, got {other:?}"),
    }
}

#[test]
fn a_refused_evaluation_does_not_even_read_the_source() {
    let mut iface = Interface::new("gate \"quoted\" \\ \u{1} ·");
    iface.inputs.insert("b".to_string(), Field::strict(Type::String));
    let err = eval_architecture_with_schema("(((", &InputBindings::new(), &iface).unwrap_err();
    assert_eq!(
        err.message(),
        "interface `gate \"quoted\" \\ \u{1} ·` rejected 1 field(s): missing required input `b`"
    );
    iface.inputs.swap_remove("b");
    let err = eval_architecture_with_schema("(((", &InputBindings::new(), &iface).unwrap_err();
    assert!(matches!(err, EvalError::Parse(_)));
}

#[test]
fn a_loose_field_opens_the_interface() {
    let mut iface = Interface::new("gate");
    iface.inputs.insert("tags".to_string(), Field::optional(Type::Any));
    let mut bindings = InputBindings::new();
    bindings.set_str("a", "given");
    bindings.set_str("anything", "goes");
    let arch = eval_architecture_with_schema(GATED, &bindings, &iface).unwrap();
    assert_eq!(render(&arch)["resource"]["t"]["n"]["v"], "given");
}

fn fits(ty: Type, value: &str) -> bool {
    let mut iface = Interface::new("typed");
    iface.doc = Some("a \"doc\"\n".to_string());
    let mut field = Field::strict(ty);
    field.doc = Some("tab\there".to_string());
    iface.inputs.insert("a".to_string(), field);
    iface.outputs.insert("o".to_string(), Field::optional(Type::Dynamic));
    let mut bindings = InputBindings::new();
    bindings.set_str("a", value);
    eval_architecture_with_schema(GATED, &bindings, &iface).is_ok()
}

#[test]
fn every_type_is_handed_to_the_validation() {
    let list = |inner: Type, min: Option<usize>, max: Option<usize>| Type::ListOf {
        inner: Box::new(inner),
        min_items: min,
        max_items: max,
    };
    let pattern = |source: &str, match_kind: MatchKind| Type::Pattern {
        source: source.to_string(),
        match_kind,
    };
    for (ty, good, bad) in [
        (Type::Integer, "5", "x"),
        (Type::Boolean, "true", "yes"),
        (Type::CidrBlock, "10.0.0.0/16", "10.0.0.0"),
        (Type::Ipv4, "10.0.0.1", "::1"),
        (Type::Ipv6, "::1", "10.0.0.1"),
        (Type::Hostname, "a.example", "-bad-"),
        (Type::PortRange { lo: 10, hi: 20 }, "15", "21"),
        (Type::Enum { values: vec!["a\"b".to_string(), "c".to_string()] }, "a\"b", "d"),
        (Type::IntRange { lo: -5, hi: -1 }, "-3", "0"),
        (Type::Length { min: 1, max: 2 }, "ab", "abc"),
        (pattern("q", MatchKind::Contains), "aqa", "aa"),
        (pattern("q", MatchKind::StartsWith), "qa", "aq"),
        (pattern("q", MatchKind::EndsWith), "aq", "qa"),
        (list(Type::Integer, Some(1), Some(2)), "1,2", "1,2,3"),
        (list(Type::Integer, None, None), "1", "x"),
        (Type::AvailabilityZone, "us-east-1a", "nowhere"),
        (Type::Email, "a@b.c", "ab"),
        (Type::Url, "https://x", "x"),
    ] {
        let name = format!("{ty:?}");
        let again = match &ty {
            Type::ListOf { inner, min_items, max_items } => {
                assert_eq!(**inner, Type::Integer);
                list(Type::Integer, *min_items, *max_items)
            }
            Type::Enum { values } => Type::Enum { values: values.clone() },
            Type::Pattern { source, match_kind } => pattern(source, *match_kind),
            Type::PortRange { lo, hi } => Type::PortRange { lo: *lo, hi: *hi },
            Type::IntRange { lo, hi } => Type::IntRange { lo: *lo, hi: *hi },
            Type::Length { min, max } => Type::Length { min: *min, max: *max },
            Type::Integer => Type::Integer,
            Type::Boolean => Type::Boolean,
            Type::CidrBlock => Type::CidrBlock,
            Type::Ipv4 => Type::Ipv4,
            Type::Ipv6 => Type::Ipv6,
            Type::Hostname => Type::Hostname,
            Type::AvailabilityZone => Type::AvailabilityZone,
            Type::Email => Type::Email,
            _ => Type::Url,
        };
        assert!(fits(ty, good), "{name} takes {good}");
        assert!(!fits(again, bad), "{name} refuses {bad}");
    }
    assert!(fits(Type::Any, "anything"));
    assert!(fits(Type::Dynamic, "anything"));
    assert!(fits(Type::String, "anything"));
}

#[test]
fn types_nest_without_a_limit() {
    let mut ty = Type::String;
    for _ in 0..300 {
        ty = Type::ListOf { inner: Box::new(ty), min_items: None, max_items: None };
    }
    assert!(fits(ty, ""));
}

#[test]
fn violations_decide_what_comes_back() {
    let b = InputBindings::new();
    let errors = vec![SchemaError::UnknownField { kind: "input", name: "z".to_string() }];
    match eval_checked(GATED, &b, "i", errors).unwrap_err() {
        EvalError::Schema { interface, count, first, errors } => {
            assert_eq!(interface, "i");
            assert_eq!(count, 1);
            assert_eq!(first, "unknown input `z` (no loose-fields slot declared)");
            assert_eq!(errors.len(), 1);
        }
        other => panic!("expected EvalError::Schema, got {other:?}"),
    }
    assert!(eval_checked(GATED, &b, "i", vec![]).is_ok());
}

// -- What a failure leaves behind --

fn loop_items(src: &str) -> Vec<Sx> {
    parse(src).unwrap().as_list().unwrap().to_vec()
}

#[test]
fn a_loop_adds_its_rounds_in_order() {
    let xs = loop_items(
        r#"(for-each ((i az) (enumerate azs)) (aws-subnet "s-{i}" :availability-zone "{az}" :cidr-block "10.0.{i+10}.0/24"))"#,
    );
    let mut env = Env::new();
    env.lists.insert("azs".into(), vec!["a".to_string(), "b".to_string()]);
    let mut out = Vec::new();
    eval_for_each(&xs, &env, &mut out).unwrap();
    assert_eq!(out.len(), 2);
    for (k, (az, cidr)) in [("a", "10.0.10.0/24"), ("b", "10.0.11.0/24")].iter().enumerate() {
        assert_eq!(out[k].type_id, "aws_subnet");
        assert_eq!(out[k].name, format!("s-{k}"));
        assert!(matches!(out[k].attributes.get("availability_zone"), Some(Datum::Str(s)) if s == az));
        assert!(matches!(out[k].attributes.get("cidr_block"), Some(Datum::Str(s)) if s == cidr));
    }
    let failed = eval_for_each(&xs, &Env::new(), &mut out);
    assert!(matches!(failed, Err(EvalError::UnknownVar(v)) if v == "azs"));
    assert_eq!(out.len(), 2);
}

#[test]
fn a_failing_form_keeps_what_was_there() {
    let mut env = Env::new();
    env.lists.insert("l".into(), vec!["1".to_string(), "2".to_string(), "x".to_string()]);
    let mut out = Vec::new();
    eval_resource(&parse("(t \"first\")").unwrap(), &env, &mut out).unwrap();
    assert!(eval_resource(&parse("(t \"{gone}\")").unwrap(), &env, &mut out).is_err());
    assert!(eval_resource(&parse("atom").unwrap(), &env, &mut out).is_err());
    assert_eq!(out.len(), 1);
    let rounds = parse("(for-each ((i n) (enumerate l)) (t \"{n+1}\"))").unwrap();
    assert!(eval_resource(&rounds, &env, &mut out).is_err());
    let names: Vec<&str> = out.iter().map(|r| r.name.as_str()).collect();
    assert_eq!(names, ["first", "2", "3"]);
}

// -- Bindings and defaults --

#[test]
fn a_binding_does_what_a_default_does() {
    let src = |default: &str| {
        format!(
            "(deflava-architecture x :inputs ((:k {default}) (:o \"o\")) :resources ((t \"{{k}}\" :v k :o o)))"
        )
    };
    let none = InputBindings::new();
    let mut one = InputBindings::new();
    one.set_str("k", "given");
    assert_eq!(
        render(&eval_architecture(&src("\"d\""), &one).unwrap()),
        render(&eval_architecture(&src("\"given\""), &none).unwrap())
    );
    let mut many = InputBindings::new();
    many.set_list("k", vec!["p".to_string(), "q".to_string()]);
    assert_eq!(
        eval_architecture(&src("\"d\""), &many).unwrap_err().message(),
        eval_architecture(&src("(\"p\" \"q\")"), &none).unwrap_err().message()
    );
    let mut undeclared = InputBindings::new();
    undeclared.set_str("z", "never seen");
    undeclared.set_list("y", vec!["nor this".to_string()]);
    assert_eq!(
        render(&eval_architecture(&src("\"d\""), &undeclared).unwrap()),
        render(&eval_architecture(&src("\"d\""), &none).unwrap())
    );
}

// -- Values and the types they fit --

#[test]
fn lists_are_split_and_their_items_checked() {
    let list = |inner: Type, min: Option<usize>, max: Option<usize>| Type::ListOf {
        inner: Box::new(inner),
        min_items: min,
        max_items: max,
    };
    assert!(fits(list(Type::Integer, None, None), ""));
    assert!(!fits(list(Type::Integer, Some(1), None), ""));
    assert!(fits(list(Type::Integer, Some(2), Some(2)), "1,2"));
    assert!(!fits(list(Type::Integer, Some(2), Some(2)), "1"));
    assert!(!fits(list(Type::Integer, Some(2), Some(2)), "1,2,3"));
    assert!(!fits(list(Type::Integer, None, None), "1,,2"));
    assert!(fits(list(Type::String, None, Some(3)), "1,,2"));
    assert!(!fits(list(Type::Integer, None, None), "1,x"));
    assert!(!fits(list(list(Type::Integer, None, None), None, None), "1"));
    assert!(fits(list(Type::Ipv6, None, None), "::1,::2"));
    assert!(!fits(list(Type::Ipv6, None, None), "::1,x"));
}

#[test]
fn addresses_and_names_have_their_own_shapes() {
    for (good, bad) in [
        ("0.0.0.0/0", "10.0.0.0/33"),
        ("10.0.0.255/+32", "10.0.0.256/8"),
        ("1.2.3.4/032", "1.2.3.4/-0"),
        ("1.2.3.4/8", "01.2.3.4/8"),
        ("1.2.3.4/8", "1.2.3/8"),
    ] {
        assert!(fits(Type::CidrBlock, good), "{good}");
        assert!(!fits(Type::CidrBlock, bad), "{bad}");
    }
    assert!(fits(Type::Ipv4, "255.10.0.1"));
    assert!(!fits(Type::Ipv4, "1.2.3.4.5"));
    assert!(!fits(Type::Ipv4, "1.2.3."));
    assert!(!fits(Type::Ipv4, "1.2.3.0004"));
    let label = "a".repeat(63);
    assert!(fits(Type::Hostname, &format!("{label}.b-1.C")));
    assert!(!fits(Type::Hostname, &format!("{label}a.b")));
    assert!(fits(Type::Hostname, &"a.".repeat(126).trim_end_matches('.').to_string()));
    assert!(!fits(Type::Hostname, &format!("{}ab", "a.".repeat(126))));
    assert!(!fits(Type::Hostname, "a..b"));
    assert!(!fits(Type::Hostname, "a.-b"));
    assert!(!fits(Type::Hostname, "a_b"));
    assert!(!fits(Type::Hostname, "é"));
    assert!(fits(Type::AvailabilityZone, "é1a"));
    assert!(!fits(Type::AvailabilityZone, "e1a"));
    assert!(!fits(Type::AvailabilityZone, "abca"));
    assert!(!fits(Type::AvailabilityZone, "us-1"));
    assert!(fits(Type::Email, "x y@a.b"));
    assert!(!fits(Type::Email, "@a.b"));
    assert!(!fits(Type::Email, "a@b@c"));
    assert!(!fits(Type::Email, "a@"));
    assert!(fits(Type::Url, "git+ssh2://x://y"));
    assert!(!fits(Type::Url, "://x"));
    assert!(!fits(Type::Url, "http://"));
    assert!(!fits(Type::Url, "a b://x"));
}

#[test]
fn violations_come_fields_first_then_inputs() {
    let mut iface = Interface::new("i");
    iface.inputs.insert("late".to_string(), Field::strict(Type::String));
    iface.inputs.insert("n".to_string(), Field::strict(Type::Integer));
    iface.inputs.insert("early".to_string(), Field::strict(Type::String));
    iface.inputs.insert("b".to_string(), Field::strict(Type::Boolean));
    let mut bindings = InputBindings::new();
    bindings.set_str("z", "1");
    bindings.set_str("n", "x");
    bindings.set_str("b", "true");
    bindings.set_list("a", vec!["q".to_string()]);
    match eval_architecture_with_schema(GATED, &bindings, &iface).unwrap_err() {
        EvalError::Schema { count, errors, .. } => {
            assert_eq!(count, 5);
            assert!(matches!(&errors[0], SchemaError::MissingRequired { kind: "input", name } if name == "late"));
            assert!(matches!(&errors[1], SchemaError::MissingRequired { kind: "input", name } if name == "early"));
            assert!(matches!(&errors[2], SchemaError::TypeMismatch { kind: "input", name, .. } if name == "n"));
            assert!(matches!(&errors[3], SchemaError::UnknownField { kind: "input", name } if name == "z"));
            assert!(matches!(&errors[4], SchemaError::UnknownField { kind: "input", name } if name == "a"));
        }
        other => panic!("expected violations, got {other:?}"),
    }
}

#[test]
fn every_mismatch_names_its_cause() {
    let list = |inner: Type, min: Option<usize>, max: Option<usize>| Type::ListOf {
        inner: Box::new(inner),
        min_items: min,
        max_items: max,
    };
    for (ty, value, cause) in [
        (Type::Integer, "x", "`x` is not a valid integer"),
        (Type::Boolean, "x", "`x` is not a valid boolean (expected true|false|#t|#f)"),
        (Type::CidrBlock, "x", "`x` is not a valid IPv4 CIDR block (expected like 10.0.0.0/16)"),
        (Type::Ipv4, "x", "`x` is not a valid IPv4 address"),
        (Type::Ipv6, "x", "`x` is not a valid IPv6 address"),
        (Type::Ipv6, ":", "`:` is not a valid IPv6 address"),
        (Type::Hostname, "-", "`-` is not a valid RFC 1123 hostname"),
        (Type::AvailabilityZone, "x", "`x` is not a valid AWS availability zone (expected like us-east-1a)"),
        (Type::Email, "x", "`x` is not a valid email (expected localpart@domain)"),
        (Type::Url, "x", "`x` is not a valid URL (expected scheme://...)"),
        (Type::PortRange { lo: 2, hi: 9 }, "10", "value 10 out of range [2, 9]"),
        (Type::PortRange { lo: 2, hi: 9 }, "65536", "`65536` is not a valid integer"),
        (Type::PortRange { lo: 2, hi: 9 }, "-0", "`-0` is not a valid integer"),
        (Type::IntRange { lo: -2, hi: 9 }, "-3", "value -3 out of range [-2, 9]"),
        (Type::IntRange { lo: -2, hi: 9 }, "x", "`x` is not a valid integer"),
        (Type::Length { min: 2, max: 3 }, "é", "length 1 out of range [2, 3]"),
        (
            Type::Enum { values: vec!["a".to_string(), "b".to_string()] },
            "c",
            "`c` not in enum [a, b]",
        ),
        (
            Type::Pattern { source: "p".to_string(), match_kind: MatchKind::Contains },
            "x",
            "`x` doesn't match pattern `p`",
        ),
        (list(Type::Integer, Some(3), Some(1)), "1,2", "list has too few items: 2 < 3"),
        (list(Type::Integer, Some(1), Some(1)), "x,2", "list has too many items: 2 > 1"),
        (list(Type::Integer, None, None), "1,x,y", "`x` is not a valid integer"),
        (
            list(list(Type::Integer, None, None), None, None),
            "1",
            "wrong validator: list type — use validate_list",
        ),
    ] {
        let mut iface = Interface::new("typed");
        iface.inputs.insert("a".to_string(), Field::strict(ty));
        let mut bindings = InputBindings::new();
        bindings.set_str("a", value);
        match eval_architecture_with_schema(GATED, &bindings, &iface).unwrap_err() {
            EvalError::Schema { count, first, .. } => {
                assert_eq!(count, 1);
                assert_eq!(first, format!("type error on input `a`: {cause}"));
            }
            other => panic!("expected a violation, got {other:?}"),
        }
    }
}
