use lava_eval::sexpr::{parse, parse_all, Atom, ParseError, Sx};

#[test]
fn parses_atoms() {
    assert_eq!(parse("hello").unwrap(), Sx::Atom(Atom::Sym("hello".into())));
    assert_eq!(parse(":name").unwrap(), Sx::Atom(Atom::Kw("name".into())));
    assert_eq!(parse("\"abc\"").unwrap(), Sx::Atom(Atom::Str("abc".into())));
    assert_eq!(parse("#t").unwrap(), Sx::Atom(Atom::Bool(true)));
    assert_eq!(parse("#f").unwrap(), Sx::Atom(Atom::Bool(false)));
}

#[test]
fn parses_nested_list_with_keywords_and_strings() {
    let r = parse("(deflava-architecture aws-vpc-network :inputs ((:cidr \"10.0.0.0/16\")))").unwrap();
    let xs = r.as_list().unwrap();
    assert_eq!(xs[0].as_sym(), Some("deflava-architecture"));
    assert_eq!(xs[1].as_sym(), Some("aws-vpc-network"));
    assert_eq!(xs[2].as_kw(), Some("inputs"));
}

#[test]
fn skips_line_comments_and_commas() {
    // Commas treated as whitespace per Clojure tradition; comments
    // are line-terminated with `;`.
    let r = parse("(a ;; comment\n b , c)").unwrap();
    let xs = r.as_list().unwrap();
    assert_eq!(xs.len(), 3);
    assert_eq!(xs[0].as_sym(), Some("a"));
}

#[test]
fn integers_are_their_own_atoms() {
    assert_eq!(parse("42").unwrap(), Sx::Atom(Atom::Int(42)));
    assert_eq!(parse("-7").unwrap(), Sx::Atom(Atom::Int(-7)));
    assert_eq!(parse("+7").unwrap(), Sx::Atom(Atom::Int(7)));
    assert_eq!(parse("9223372036854775807").unwrap(), Sx::Atom(Atom::Int(i64::MAX)));
    assert_eq!(parse("-9223372036854775808").unwrap(), Sx::Atom(Atom::Int(i64::MIN)));
    // One past the range is a symbol, and so is a bare sign.
    assert_eq!(
        parse("9223372036854775808").unwrap(),
        Sx::Atom(Atom::Sym("9223372036854775808".into()))
    );
    assert_eq!(parse("-").unwrap(), Sx::Atom(Atom::Sym("-".into())));
    assert_eq!(parse("10.0").unwrap(), Sx::Atom(Atom::Sym("10.0".into())));
    assert_eq!(parse("3").unwrap().as_int(), Some(3));
    assert_eq!(parse("x").unwrap().as_int(), None);
}

#[test]
fn accessors_give_nothing_for_other_shapes() {
    let list = parse("(a)").unwrap();
    let atom = parse("a").unwrap();
    assert!(list.as_sym().is_none());
    assert!(list.as_kw().is_none());
    assert!(list.as_str().is_none());
    assert!(list.as_bool().is_none());
    assert!(atom.as_list().is_none());
    assert_eq!(parse("#t").unwrap().as_bool(), Some(true));
    assert_eq!(parse("\"s\"").unwrap().as_str(), Some("s"));
}

#[test]
fn strings_keep_their_escapes_and_their_characters() {
    assert_eq!(
        parse(r#""a\n\r\t\\\"\q""#).unwrap(),
        Sx::Atom(Atom::Str("a\n\r\t\\\"q".into()))
    );
    assert_eq!(parse("\"FedRAMP · audit\"").unwrap(), Sx::Atom(Atom::Str("FedRAMP · audit".into())));
}

#[test]
fn errors_carry_byte_offsets() {
    assert_eq!(parse("  (a"), Err(ParseError::UnclosedList(2)));
    assert_eq!(parse("  \"a"), Err(ParseError::UnterminatedString(2)));
    assert_eq!(parse("\"a\\"), Err(ParseError::UnterminatedString(0)));
    assert_eq!(parse(" )"), Err(ParseError::UnexpectedClose(1)));
    assert_eq!(parse(""), Err(ParseError::UnexpectedClose(0)));
    assert_eq!(parse("(#x)"), Err(ParseError::UnexpectedChar('x', 1)));
    assert_eq!(parse("#"), Err(ParseError::UnexpectedClose(0)));
    assert_eq!(parse("a b"), Err(ParseError::MultipleForms(2)));
    // Two characters of two bytes each, and a blank.
    assert_eq!(parse("·· )"), Err(ParseError::MultipleForms(5)));
    assert_eq!(parse("(·· \"x"), Err(ParseError::UnterminatedString(6)));
}

#[test]
fn error_messages_say_where() {
    assert_eq!(
        parse("(#x)").unwrap_err().message(),
        "unexpected character 'x' at offset 1"
    );
    assert_eq!(parse("#'").unwrap_err().message(), "unexpected character '\\'' at offset 0");
    assert_eq!(parse("\"a").unwrap_err().message(), "unterminated string starting at offset 0");
    assert_eq!(parse("(").unwrap_err().message(), "unclosed list starting at offset 0");
    assert_eq!(parse(")").unwrap_err().message(), "unexpected close paren at offset 0");
    assert_eq!(parse("a b").unwrap_err().message(), "expected single top-level form, got 2");
}

#[test]
fn all_forms_of_a_source_are_read_in_order() {
    assert_eq!(parse_all(" ; nothing\n"), Ok(vec![]));
    let forms = parse_all("a (b) ; c\n \"d\"").unwrap();
    assert_eq!(forms.len(), 3);
    assert_eq!(forms[0].as_sym(), Some("a"));
    assert_eq!(forms[1].as_list().map(|xs| xs.len()), Some(1));
    assert_eq!(forms[2].as_str(), Some("d"));
    assert_eq!(parse_all("a )"), Err(ParseError::UnexpectedClose(2)));
}

#[test]
fn one_form_is_all_forms() {
    let src = " , (a :b \"c\") ; end";
    let one = parse(src).unwrap();
    assert_eq!(parse_all(src).unwrap(), vec![one.clone()]);
    assert_eq!(one.clone(), one);
}

fn shown(x: &Sx) -> String {
    match x {
        Sx::Atom(Atom::Sym(s)) => s.clone(),
        Sx::Atom(Atom::Kw(s)) => format!(":{s}"),
        Sx::Atom(Atom::Str(s)) => {
            format!("\"{}\"", s.replace('\\', "\\\\").replace('"', "\\\""))
        }
        Sx::Atom(Atom::Bool(true)) => "#t".to_string(),
        Sx::Atom(Atom::Bool(false)) => "#f".to_string(),
        Sx::Atom(Atom::Int(n)) => n.to_string(),
        Sx::List(xs) => {
            format!("({})", xs.iter().map(shown).collect::<Vec<String>>().join(" "))
        }
    }
}

#[test]
fn a_form_written_down_reads_back() {
    let x = Sx::List(vec![
        Sx::Atom(Atom::Sym("a-b#c:d".into())),
        Sx::Atom(Atom::Kw("".into())),
        Sx::Atom(Atom::Kw(":k\"".into())),
        Sx::Atom(Atom::Str("q\"uo\\te\n, (é) ; no comment".into())),
        Sx::Atom(Atom::Bool(true)),
        Sx::List(vec![]),
        Sx::List(vec![Sx::Atom(Atom::Int(-5)), Sx::Atom(Atom::Bool(false))]),
        Sx::Atom(Atom::Int(i64::MIN)),
    ]);
    assert_eq!(parse(&shown(&x)).unwrap(), x);
    for s in ["word", "Z9", "a\"b"] {
        assert_eq!(parse(s).unwrap(), Sx::Atom(Atom::Sym(s.into())));
    }
}

#[test]
fn gaps_around_a_source_change_nothing() {
    for src in ["a", "#t", "\"s\"", "(a b)", "5 ; open", ":k ;; open ; too"] {
        let x = parse(src).unwrap();
        for before in ["", " ,\t\r\n", "; c (\n", ",;\n;x\n "] {
            for after in ["", " ", ";) c\n", "\n,;x\n;\n"] {
                let big = format!("{before}{src}{after}");
                assert_eq!(parse(&big).unwrap(), x, "{big}");
                assert_eq!(parse_all(&big).unwrap(), vec![x.clone()], "{big}");
            }
        }
    }
}

#[test]
fn a_second_form_is_refused_where_it_starts() {
    for a in ["a", "(é)", "#f ; open", "\"·\" ,"] {
        for b in ["b", ")", "(x)", "\"y\""] {
            assert_eq!(
                parse(&format!("{a}\n{b}")),
                Err(ParseError::MultipleForms(a.len() + 1)),
                "{a} {b}"
            );
        }
    }
}

#[test]
fn the_refused_character_is_quoted() {
    assert_eq!(parse("#x").unwrap_err().message(), "unexpected character 'x' at offset 0");
    assert_eq!(parse(" #~").unwrap_err().message(), "unexpected character '~' at offset 1");
    assert_eq!(parse("#'").unwrap_err().message(), "unexpected character '\\'' at offset 0");
}
