//! Why an evaluation fails, and how each failure reads.
use crate::number::{decimal, usize_text};
use crate::schema::{schema_error_views, SchemaError, SchemaErrorView};
use crate::sexpr::ParseError;
use crate::text::{char_debug, glue, glue3, quoted_char};
use vstd::prelude::*;

verus! {

/// How a reading error reads.
pub open spec fn parse_message(e: ParseError) -> Seq<char> {
    match e {
        ParseError::UnexpectedChar(c, at) => "unexpected character "@ + quoted_char(c)
            + " at offset "@ + decimal(at as nat),
        ParseError::UnterminatedString(at) => "unterminated string starting at offset "@ + decimal(
            at as nat,
        ),
        ParseError::UnclosedList(at) => "unclosed list starting at offset "@ + decimal(at as nat),
        ParseError::UnexpectedClose(at) => "unexpected close paren at offset "@ + decimal(
            at as nat,
        ),
        ParseError::MultipleForms(at) => "expected single top-level form, got "@ + decimal(
            at as nat,
        ),
    }
}

impl ParseError {
    /// How the error reads.
    pub fn message(&self) -> (r: String)
        ensures
            r@ == parse_message(*self),
    {
        match self {
            ParseError::UnexpectedChar(c, at) => {
                let mut out = glue3(
                    "unexpected character ",
                    char_debug(*c).as_str(),
                    " at offset ",
                );
                out.append(usize_text(*at).as_str());
                out
            },
            ParseError::UnterminatedString(at) => glue(
                "unterminated string starting at offset ",
                usize_text(*at).as_str(),
            ),
            ParseError::UnclosedList(at) => glue(
                "unclosed list starting at offset ",
                usize_text(*at).as_str(),
            ),
            ParseError::UnexpectedClose(at) => glue(
                "unexpected close paren at offset ",
                usize_text(*at).as_str(),
            ),
            ParseError::MultipleForms(at) => glue(
                "expected single top-level form, got ",
                usize_text(*at).as_str(),
            ),
        }
    }
}

/// Why a form does not evaluate.
#[derive(Debug)]
pub enum EvalError {
    /// The source does not read.
    Parse(ParseError),
    /// A form or clause has the wrong shape.
    NotArchForm(String),
    /// A clause that must be there is not.
    MissingClause(&'static str),
    /// An input has neither a binding nor a default.
    MissingInput(String),
    /// A `(ref …)` form lacks a part.
    BadRef(String),
    /// A name is bound to nothing.
    UnknownVar(String),
    /// A value has the wrong type.
    Type(&'static str),
    /// The inputs violate the interface.
    Schema { interface: String, count: usize, first: String, errors: Vec<SchemaError> },
    /// A dashboard is refused.
    Dashboard(String),
}

impl From<ParseError> for EvalError {
    fn from(e: ParseError) -> (r: EvalError) {
        EvalError::Parse(e)
    }
}

impl vstd::std_specs::convert::FromSpecImpl<ParseError> for EvalError {
    open spec fn obeys_from_spec() -> bool {
        true
    }

    open spec fn from_spec(e: ParseError) -> EvalError {
        EvalError::Parse(e)
    }
}

/// What an [`EvalError`] stands for.
pub enum EvalErrorView {
    Parse(ParseError),
    NotArchForm(Seq<char>),
    MissingClause(Seq<char>),
    MissingInput(Seq<char>),
    BadRef(Seq<char>),
    UnknownVar(Seq<char>),
    Type(Seq<char>),
    Schema { interface: Seq<char>, count: usize, first: Seq<char>, errors: Seq<SchemaErrorView> },
    Dashboard(Seq<char>),
}

impl View for EvalError {
    type V = EvalErrorView;

    open spec fn view(&self) -> EvalErrorView {
        match self {
            EvalError::Parse(e) => EvalErrorView::Parse(*e),
            EvalError::NotArchForm(s) => EvalErrorView::NotArchForm(s@),
            EvalError::MissingClause(s) => EvalErrorView::MissingClause(s@),
            EvalError::MissingInput(s) => EvalErrorView::MissingInput(s@),
            EvalError::BadRef(s) => EvalErrorView::BadRef(s@),
            EvalError::UnknownVar(s) => EvalErrorView::UnknownVar(s@),
            EvalError::Type(s) => EvalErrorView::Type(s@),
            EvalError::Schema { interface, count, first, errors } => EvalErrorView::Schema {
                interface: interface@,
                count: *count,
                first: first@,
                errors: schema_error_views(errors@),
            },
            EvalError::Dashboard(s) => EvalErrorView::Dashboard(s@),
        }
    }
}

/// How an evaluation error reads.
pub open spec fn eval_message(e: EvalErrorView) -> Seq<char> {
    match e {
        EvalErrorView::Parse(p) => "parse: "@ + parse_message(p),
        EvalErrorView::NotArchForm(s) => "expected deflava-architecture form, got "@ + s,
        EvalErrorView::MissingClause(s) => "missing :"@ + s + " clause"@,
        EvalErrorView::MissingInput(s) => "missing input binding for "@ + s,
        EvalErrorView::BadRef(s) => "unknown reference form: "@ + s,
        EvalErrorView::UnknownVar(s) => "interpolation: unknown var `"@ + s + "`"@,
        EvalErrorView::Type(s) => "type mismatch: expected "@ + s,
        EvalErrorView::Schema { interface, count, first, errors } => "interface `"@ + interface
            + "` rejected "@ + decimal(count as nat) + " field(s): "@ + first,
        EvalErrorView::Dashboard(s) => "dashboard: "@ + s,
    }
}

impl EvalError {
    /// How the error reads.
    pub fn message(&self) -> (r: String)
        ensures
            r@ == eval_message(self@),
    {
        match self {
            EvalError::Parse(p) => glue("parse: ", p.message().as_str()),
            EvalError::NotArchForm(s) => glue(
                "expected deflava-architecture form, got ",
                s.as_str(),
            ),
            EvalError::MissingClause(s) => glue3("missing :", s, " clause"),
            EvalError::MissingInput(s) => glue("missing input binding for ", s.as_str()),
            EvalError::BadRef(s) => glue("unknown reference form: ", s.as_str()),
            EvalError::UnknownVar(s) => glue3("interpolation: unknown var `", s.as_str(), "`"),
            EvalError::Type(s) => glue("type mismatch: expected ", s),
            EvalError::Schema { interface, count, first, errors } => {
                let mut out = glue3("interface `", interface.as_str(), "` rejected ");
                out.append(usize_text(*count).as_str());
                out.append(" field(s): ");
                out.append(first.as_str());
                out
            },
            EvalError::Dashboard(s) => glue("dashboard: ", s.as_str()),
        }
    }
}

/// How evaluation errors read: each says what is wrong and holds what it is about.
pub proof fn law_evaluation_errors_read_as_sentences(
    p: ParseError,
    s: Seq<char>,
    interface: Seq<char>,
    count: usize,
    first: Seq<char>,
    errors: Seq<SchemaErrorView>,
)
    ensures
        eval_message(EvalErrorView::Parse(p)) == "parse: "@ + parse_message(p),
        eval_message(EvalErrorView::NotArchForm(s)) == "expected deflava-architecture form, got "@
            + s,
        eval_message(EvalErrorView::MissingClause(s)) == "missing :"@ + s + " clause"@,
        eval_message(EvalErrorView::MissingInput(s)) == "missing input binding for "@ + s,
        eval_message(EvalErrorView::BadRef(s)) == "unknown reference form: "@ + s,
        eval_message(EvalErrorView::UnknownVar(s)) == "interpolation: unknown var `"@ + s + "`"@,
        eval_message(EvalErrorView::Type(s)) == "type mismatch: expected "@ + s,
        eval_message(EvalErrorView::Schema { interface, count, first, errors }) == "interface `"@
            + interface + "` rejected "@ + decimal(count as nat) + " field(s): "@ + first,
        eval_message(EvalErrorView::Dashboard(s)) == "dashboard: "@ + s,
{
}

/// How reading errors read: each names its byte offset.
pub proof fn law_reading_errors_read_as_sentences(c: char, at: usize)
    ensures
        parse_message(ParseError::UnexpectedChar(c, at)) == "unexpected character "@ + quoted_char(
            c,
        ) + " at offset "@ + decimal(at as nat),
        parse_message(ParseError::UnterminatedString(at))
            == "unterminated string starting at offset "@ + decimal(at as nat),
        parse_message(ParseError::UnclosedList(at)) == "unclosed list starting at offset "@
            + decimal(at as nat),
        parse_message(ParseError::UnexpectedClose(at)) == "unexpected close paren at offset "@
            + decimal(at as nat),
        parse_message(ParseError::MultipleForms(at)) == "expected single top-level form, got "@
            + decimal(at as nat),
{
}

} // verus!
