use lava_eval::error::EvalError;
use lava_eval::sexpr::parse;
use lava_eval::template::{extract_full_var, interp, resolve_predicate, sym_to_type_id, Env};

#[test]
fn interpolates_simple_var() {
    let mut env = Env::new();
    env.scalars.insert("name".into(), "main".into());
    assert_eq!(interp("{name}-vpc", &env).unwrap(), "main-vpc");
}

#[test]
fn interpolates_arithmetic_var() {
    let mut env = Env::new();
    env.loop_scalars.insert("i".into(), "3".into());
    assert_eq!(interp("10.0.{i+10}.0/24", &env).unwrap(), "10.0.13.0/24");
}

#[test]
fn sym_to_type_id_replaces_dashes() {
    assert_eq!(sym_to_type_id("aws-internet-gateway"), "aws_internet_gateway");
}

#[test]
fn type_names_are_their_own_type_names() {
    let once = sym_to_type_id("a-b_c--d");
    assert_eq!(once, "a_b_c__d");
    assert_eq!(sym_to_type_id(&once), once);
}

#[test]
fn kebab_case_names_are_no_subtraction() {
    let mut env = Env::new();
    env.scalars.insert("name-prefix".into(), "web".into());
    env.scalars.insert("n-1".into(), "bound".into());
    env.scalars.insert("n".into(), "5".into());
    assert_eq!(interp("{name-prefix}", &env).unwrap(), "web");
    assert_eq!(interp("{n-1}", &env).unwrap(), "bound");
    assert_eq!(interp("{n-2}", &env).unwrap(), "3");
    assert_eq!(interp("{ n - 2 }", &env).unwrap(), "3");
    assert_eq!(interp("{n + -2}", &env).unwrap(), "3");
}

#[test]
fn plain_text_and_open_braces_are_kept() {
    let env = Env::new();
    assert_eq!(interp("plain · text}", &env).unwrap(), "plain · text}");
    assert_eq!(interp("a{b", &env).unwrap(), "a{b");
    assert_eq!(interp("", &env).unwrap(), "");
}

#[test]
fn label_selectors_are_text() {
    let mut env = Env::new();
    env.scalars.insert("job".into(), "x".into());
    assert_eq!(interp("up{job=\"a\"}", &env).unwrap(), "up{job=\"a\"}");
    assert_eq!(interp("up{job=\"{job}\"}", &env).unwrap(), "up{job=\"x\"}");
    env.scalars.insert("\"q\"".into(), "bound".into());
    assert_eq!(interp("{\"q\"}", &env).unwrap(), "bound");
}

#[test]
fn loop_variables_win_over_inputs() {
    let mut env = Env::new();
    env.scalars.insert("i".into(), "outer".into());
    env.loop_scalars.insert("i".into(), "inner".into());
    assert_eq!(env.get("i").unwrap(), "inner");
    assert_eq!(interp("<{i}>", &env).unwrap(), "<inner>");
}

#[test]
fn template_faults_are_typed() {
    let mut env = Env::new();
    env.scalars.insert("word".into(), "w".into());
    assert!(matches!(interp("{missing}", &env), Err(EvalError::UnknownVar(v)) if v == "missing"));
    assert!(matches!(interp("{missing+1}", &env), Err(EvalError::UnknownVar(v)) if v == "missing"));
    assert!(matches!(interp("{word+x}", &env), Err(EvalError::Type("int"))));
    assert!(matches!(interp("{word+1}", &env), Err(EvalError::Type("int var"))));
    assert!(matches!(interp("{word-1}", &env), Err(EvalError::UnknownVar(v)) if v == "word-1"));
    assert!(matches!(interp("{-1}", &env), Err(EvalError::UnknownVar(v)) if v == "-1"));
    assert!(matches!(interp("{}", &env), Err(EvalError::UnknownVar(v)) if v.is_empty()));
}

#[test]
fn arithmetic_wraps_at_the_ends_of_the_range() {
    let mut env = Env::new();
    env.scalars.insert("max".into(), "9223372036854775807".into());
    assert_eq!(interp("{max+1}", &env).unwrap(), "-9223372036854775808");
    assert_eq!(interp("{max+0}", &env).unwrap(), "9223372036854775807");
}

#[test]
fn a_full_variable_is_braces_around_a_name() {
    assert_eq!(extract_full_var(" {azs} ").as_deref(), Some("azs"));
    assert_eq!(extract_full_var("{azs}-x"), None);
    assert_eq!(extract_full_var("{}"), None);
    assert_eq!(extract_full_var("{a-b}"), None);
    assert_eq!(extract_full_var("{a+1}"), None);
    assert_eq!(extract_full_var("{a}{b}"), None);
    assert_eq!(extract_full_var(""), None);
    assert_eq!(extract_full_var("{"), None);
}

#[test]
fn predicates_resolve_literals_symbols_and_templates() {
    let mut env = Env::new();
    env.scalars.insert("on".into(), "true".into());
    env.scalars.insert("off".into(), "".into());
    let check = |src: &str| resolve_predicate(&parse(src).unwrap(), &env);
    assert_eq!(check("#t").unwrap(), true);
    assert_eq!(check("#f").unwrap(), false);
    assert_eq!(check("2").unwrap(), true);
    assert_eq!(check("0").unwrap(), false);
    assert_eq!(check("on").unwrap(), true);
    assert_eq!(check("off").unwrap(), false);
    assert_eq!(check("true").unwrap(), true);
    assert_eq!(check("\"{on}\"").unwrap(), true);
    assert_eq!(check("\"#f\"").unwrap(), false);
    assert!(matches!(check("\"maybe\""), Err(EvalError::Type("boolean (true|false|#t|#f|1|0)"))));
    assert!(matches!(check("(on)"), Err(EvalError::Type("boolean"))));
    assert!(matches!(check("\"{gone}\""), Err(EvalError::UnknownVar(_))));
}
