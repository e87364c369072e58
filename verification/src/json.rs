//! Writing JSON text.
//!
//! Each spec function here says what text stands after something has been
//! written behind a text `acc`.
use crate::number::{decimal, i64_text, int_text};
use crate::text::{chars_of, option_text, texts};
use vstd::prelude::*;

verus! {

/// A hexadecimal digit.
pub open spec fn hex_digit(d: int) -> char {
    if d < 10 {
        (d + 48) as char
    } else {
        (d + 87) as char
    }
}

/// A character inside a JSON string: quotes, backslashes and control
/// characters are escaped, every other character stands for itself.
pub open spec fn json_char(c: char) -> Seq<char> {
    if c == '"' {
        seq!['\\', '"']
    } else if c == '\\' {
        seq!['\\', '\\']
    } else if ' ' > c {
        seq!['\\', 'u', '0', '0', hex_digit((c as int) / 16), hex_digit((c as int) % 16)]
    } else {
        seq![c]
    }
}

/// The characters of a JSON string from `i` on.
pub open spec fn chars_onto(acc: Seq<char>, s: Seq<char>, i: int) -> Seq<char>
    decreases s.len() - i,
{
    if i < 0 || i >= s.len() {
        acc
    } else {
        chars_onto(acc + json_char(s[i]), s, i + 1)
    }
}

/// A JSON string.
pub open spec fn string_onto(acc: Seq<char>, s: Seq<char>) -> Seq<char> {
    chars_onto(acc.push('"'), s, 0).push('"')
}

/// A JSON string, or `null`.
pub open spec fn option_onto(acc: Seq<char>, s: Option<Seq<char>>) -> Seq<char> {
    match s {
        Some(t) => string_onto(acc, t),
        None => acc + "null"@,
    }
}

/// The items of an array of JSON strings from `i` on.
pub open spec fn strings_onto(acc: Seq<char>, items: Seq<Seq<char>>, i: int) -> Seq<char>
    decreases items.len() - i,
{
    if i < 0 || i >= items.len() {
        acc
    } else {
        strings_onto(string_onto(comma_onto(acc, i), items[i]), items, i + 1)
    }
}

/// The comma in front of every item but the first.
pub open spec fn comma_onto(acc: Seq<char>, i: int) -> Seq<char> {
    if i == 0 {
        acc
    } else {
        acc + ","@
    }
}

/// An array of JSON strings.
pub open spec fn array_onto(acc: Seq<char>, items: Seq<Seq<char>>) -> Seq<char> {
    strings_onto(acc + "["@, items, 0) + "]"@
}

/// A boolean.
pub open spec fn bool_onto(acc: Seq<char>, b: bool) -> Seq<char> {
    if b {
        acc + "true"@
    } else {
        acc + "false"@
    }
}

/// An integer, or `null`.
pub open spec fn int_onto(acc: Seq<char>, n: Option<i64>) -> Seq<char> {
    match n {
        Some(v) => acc + int_text(v as int),
        None => acc + "null"@,
    }
}

/// A size, or `null`.
pub open spec fn size_onto(acc: Seq<char>, n: Option<usize>) -> Seq<char> {
    match n {
        Some(v) => acc + decimal(v as nat),
        None => acc + "null"@,
    }
}

/// Writes one character of a JSON string.
fn push_json_char(out: &mut String, c: char)
    ensures
        final(out)@ == old(out)@ + json_char(c),
{
    if c == '"' {
        out.push('\\');
        out.push('"');
    } else if c == '\\' {
        out.push('\\');
        out.push('\\');
    } else if ' ' > c {
        let v: u8 = c as u8;
        out.push('\\');
        out.push('u');
        out.push('0');
        out.push('0');
        push_hex(out, v / 16);
        push_hex(out, v % 16);
    } else {
        out.push(c);
    }
}

/// Writes a hexadecimal digit.
fn push_hex(out: &mut String, d: u8)
    requires
        d < 16,
    ensures
        final(out)@ == old(out)@.push(hex_digit(d as int)),
{
    if d < 10 {
        out.push((d + 48) as char);
    } else {
        out.push((d + 87) as char);
    }
}

/// Writes a JSON string.
pub fn push_string(out: &mut String, s: &str)
    ensures
        final(out)@ == string_onto(old(out)@, s@),
{
    let cs = chars_of(s);
    let n: usize = cs.len();
    out.push('"');
    let ghost first = out@;
    let mut i: usize = 0;
    while i < n
        invariant
            n == cs@.len(),
            cs@ == s@,
            i <= n,
            chars_onto(out@, s@, i as int) == chars_onto(first, s@, 0),
        decreases n - i,
    {
        push_json_char(out, cs[i]);
        i += 1;
    }
    out.push('"');
}

/// Writes a JSON string, or `null`.
pub fn push_option(out: &mut String, s: &Option<String>)
    ensures
        final(out)@ == option_onto(old(out)@, option_text(*s)),
{
    match s {
        Some(t) => push_string(out, t.as_str()),
        None => out.append("null"),
    }
}

/// Writes the comma in front of every item but the first.
pub fn push_comma(out: &mut String, i: usize)
    ensures
        final(out)@ == comma_onto(old(out)@, i as int),
{
    if i > 0 {
        out.append(",");
    }
}

/// Writes an array of JSON strings.
pub fn push_array(out: &mut String, items: &Vec<String>)
    ensures
        final(out)@ == array_onto(old(out)@, texts(items@)),
{
    out.append("[");
    let ghost first = out@;
    let n: usize = items.len();
    let mut i: usize = 0;
    while i < n
        invariant
            n == items@.len(),
            i <= n,
            strings_onto(out@, texts(items@), i as int) == strings_onto(first, texts(items@), 0),
        decreases n - i,
    {
        push_comma(out, i);
        push_string(out, items[i].as_str());
        i += 1;
    }
    out.append("]");
}

/// Writes a boolean.
pub fn push_bool(out: &mut String, b: bool)
    ensures
        final(out)@ == bool_onto(old(out)@, b),
{
    if b {
        out.append("true");
    } else {
        out.append("false");
    }
}

/// Writes an integer, or `null`.
pub fn push_int(out: &mut String, n: Option<i64>)
    ensures
        final(out)@ == int_onto(old(out)@, n),
{
    match n {
        Some(v) => out.append(i64_text(v).as_str()),
        None => out.append("null"),
    }
}

/// Writes a size, or `null`.
pub fn push_size(out: &mut String, n: Option<usize>)
    ensures
        final(out)@ == size_onto(old(out)@, n),
{
    match n {
        Some(v) => out.append(crate::number::usize_text(v).as_str()),
        None => out.append("null"),
    }
}

} // verus!
