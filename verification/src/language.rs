//! Which query language an expression shows itself to be in.
use crate::board::QueryLang;
use crate::text::has_char;
use vstd::prelude::*;

verus! {

/// How many double quotes stand before `i`.
pub open spec fn quotes_before(s: Seq<char>, i: int) -> nat
    decreases i,
{
    if i <= 0 || i > s.len() {
        0
    } else if s[i - 1] == '"' {
        quotes_before(s, i - 1) + 1
    } else {
        quotes_before(s, i - 1)
    }
}

/// A text with every character between double quotes blanked.
pub open spec fn blanked(s: Seq<char>) -> Seq<char> {
    Seq::new(
        s.len(),
        |i: int|
            if s[i] == '"' || quotes_before(s, i) % 2 == 0 {
                s[i]
            } else {
                ' '
            },
    )
}

/// A text with the capital letters of ASCII made small.
pub open spec fn lowered(s: Seq<char>) -> Seq<char> {
    s.map_values(
        |c: char|
            if 'A' <= c <= 'Z' {
                (c as u8 + 32) as char
            } else {
                c
            },
    )
}

/// Whether a text holds another.
pub open spec fn holds(s: Seq<char>, part: Seq<char>) -> bool {
    exists|i: int|
        0 <= i <= s.len() - part.len() && #[trigger] s.subrange(i, i + part.len()) == part
}

/// Whether a text calls one of the functions that only PromQL has.
pub open spec fn calls_prom(s: Seq<char>) -> bool {
    ||| holds(s, "rate("@)
    ||| holds(s, "irate("@)
    ||| holds(s, "increase("@)
    ||| holds(s, "histogram_quantile("@)
    ||| holds(s, "sum by"@)
    ||| holds(s, "avg by"@)
    ||| holds(s, "topk("@)
    ||| holds(s, "absent("@)
    ||| holds(s, "delta("@)
    ||| holds(s, "predict_linear("@)
}

/// The language that an expression shows outside its string literals, if it
/// shows one: a selection is SQL, a call of a PromQL function is PromQL, and a
/// pipe is LogsQL.
pub open spec fn shown_lang(expr: Seq<char>) -> Option<QueryLang> {
    let bare = blanked(expr);
    if holds(lowered(bare), "select "@) && holds(lowered(bare), " from "@) {
        Some(QueryLang::Sql)
    } else if calls_prom(lowered(bare)) {
        Some(QueryLang::PromQl)
    } else if has_char(bare, '|') {
        Some(QueryLang::LogsQl)
    } else {
        None
    }
}

} // verus!
