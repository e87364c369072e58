//! Which values fit which types.
use crate::number::{all_digits, decimal, digits_value, int_text, is_digit, parse_int};
use crate::text::{find_from, has_char, joined, lemma_find_from};
use crate::types::{MatchKind, TypeView};
use vstd::prelude::*;
use vstd::utf8::encode_utf8;

verus! {

/// What stands between the separators of a text.
pub open spec fn pieces(s: Seq<char>, sep: char) -> Seq<Seq<char>>
    decreases s.len(),
{
    match find_from(s, sep, 0) {
        Some(j) if 0 <= j < s.len() => seq![s.take(j)] + pieces(s.skip(j + 1), sep),
        _ => seq![s],
    }
}

/// The letters of ASCII.
pub open spec fn is_letter(c: char) -> bool {
    'a' <= c <= 'z' || 'A' <= c <= 'Z'
}

/// One of the four numbers of an address: up to 255, without leading zeros.
pub open spec fn is_octet(s: Seq<char>) -> bool {
    &&& all_digits(s)
    &&& s.len() <= 3
    &&& s.len() > 1 ==> s[0] != '0'
    &&& digits_value(s) <= 255
}

/// Four octets with dots between them.
pub open spec fn is_ipv4(s: Seq<char>) -> bool {
    &&& pieces(s, '.').len() == 4
    &&& forall|i: int| 0 <= i < 4 ==> is_octet(#[trigger] pieces(s, '.')[i])
}

/// A number up to 32 without a minus sign.
pub open spec fn is_prefix_length(s: Seq<char>) -> bool {
    parse_int(s) matches Some(n) && s[0] != '-' && n <= 32
}

/// An address, a slash and the length of a prefix.
pub open spec fn is_cidr(s: Seq<char>) -> bool {
    match find_from(s, '/', 0) {
        Some(i) => is_ipv4(s.take(i)) && is_prefix_length(s.skip(i + 1)),
        None => false,
    }
}

/// A label of a hostname: letters, digits and inner dashes.
pub open spec fn is_label(s: Seq<char>) -> bool {
    &&& 0 < s.len() <= 63
    &&& s[0] != '-'
    &&& s.last() != '-'
    &&& forall|i: int|
        0 <= i < s.len() ==> is_letter(#[trigger] s[i]) || is_digit(s[i]) || s[i] == '-'
}

/// Labels with dots between them.
pub open spec fn is_hostname(s: Seq<char>) -> bool {
    &&& 0 < s.len() <= 253
    &&& forall|i: int| 0 <= i < pieces(s, '.').len() ==> is_label(#[trigger] pieces(s, '.')[i])
}

/// A region, of three bytes or more and with a digit, and a letter.
pub open spec fn is_zone(s: Seq<char>) -> bool {
    &&& s.len() > 0
    &&& is_letter(s.last())
    &&& encode_utf8(s.drop_last()).len() >= 3
    &&& exists|i: int| 0 <= i < s.len() - 1 && is_digit(#[trigger] s[i])
}

/// A local part, an at sign and a hostname.
pub open spec fn is_email(s: Seq<char>) -> bool {
    find_from(s, '@', 0) matches Some(i) && i > 0 && is_hostname(s.skip(i + 1))
}

/// A scheme of letters, digits and plus signs, `://`, and more.
pub open spec fn is_url(s: Seq<char>) -> bool {
    exists|i: int|
        0 < i && i + 3 < s.len() && #[trigger] s.subrange(i, i + 3) == seq![':', '/', '/'] && (
        forall|k: int|
            0 <= k < i ==> is_letter(#[trigger] s[k]) || is_digit(s[k]) || s[k] == '+')
}

/// Whether a value fits a type that is no list, as far as it is told here: of
/// an IPv6 address only that it holds a colon. A value that is no list fits no
/// list type.
pub open spec fn scalar_fit(ty: TypeView, value: Seq<char>) -> Option<bool> {
    match ty {
        TypeView::Any | TypeView::Dynamic | TypeView::Text => Some(true),
        TypeView::Integer => Some(parse_int(value) is Some),
        TypeView::Boolean => Some(
            value == "true"@ || value == "false"@ || value == "#t"@ || value == "#f"@,
        ),
        TypeView::Enum { values } => Some(values.contains(value)),
        TypeView::IntRange { lo, hi } => Some(parse_int(value) matches Some(n) && lo <= n <= hi),
        TypeView::PortRange { lo, hi } => Some(
            parse_int(value) matches Some(n) && value[0] != '-' && lo <= n <= hi,
        ),
        TypeView::Length { min, max } => Some(min <= value.len() <= max),
        TypeView::Pattern { source, match_kind } => Some(
            match match_kind {
                MatchKind::Contains => exists|i: int|
                    0 <= i <= value.len() - source.len() && #[trigger] value.subrange(
                        i,
                        i + source.len(),
                    ) == source,
                MatchKind::StartsWith => source.is_prefix_of(value),
                MatchKind::EndsWith => source.is_suffix_of(value),
            },
        ),
        TypeView::CidrBlock => Some(is_cidr(value)),
        TypeView::Ipv4 => Some(is_ipv4(value)),
        TypeView::Hostname => Some(is_hostname(value)),
        TypeView::AvailabilityZone => Some(is_zone(value)),
        TypeView::Email => Some(is_email(value)),
        TypeView::Url => Some(is_url(value)),
        TypeView::Ipv6 => if has_char(value, ':') {
            None
        } else {
            Some(false)
        },
        TypeView::ListOf { .. } => Some(false),
    }
}

/// The items of a list that is written with commas between them.
pub open spec fn list_items(value: Seq<char>) -> Seq<Seq<char>> {
    if value.len() == 0 {
        Seq::empty()
    } else {
        pieces(value, ',')
    }
}

/// Whether a number of items is within limits.
pub open spec fn within(n: nat, min: Option<usize>, max: Option<usize>) -> bool {
    (min matches Some(lo) ==> lo <= n) && (max matches Some(hi) ==> n <= hi)
}

/// Whether all items fit a type: not where there is one that does not, and not
/// told where it is not told of one of them.
pub open spec fn items_fit(ty: TypeView, items: Seq<Seq<char>>) -> Option<bool> {
    if exists|i: int| 0 <= i < items.len() && scalar_fit(ty, #[trigger] items[i]) == Some(false) {
        Some(false)
    } else if forall|i: int|
        0 <= i < items.len() ==> scalar_fit(ty, #[trigger] items[i]) == Some(true) {
        Some(true)
    } else {
        None
    }
}

/// Whether a value fits a type. A list is written with commas between its
/// items; their number is within the limits of the type, and each of them fits
/// the inner type.
pub open spec fn fit_of(ty: TypeView, value: Seq<char>) -> Option<bool> {
    match ty {
        TypeView::ListOf { inner, min_items, max_items } => if within(
            list_items(value).len(),
            min_items,
            max_items,
        ) {
            items_fit(*inner, list_items(value))
        } else {
            Some(false)
        },
        _ => scalar_fit(ty, value),
    }
}

// ---------------------------------------------------------------------
// Why a value does not fit
// ---------------------------------------------------------------------

/// A value in backquotes, and what is wrong with it.
pub open spec fn value_is(value: Seq<char>, wrong: Seq<char>) -> Seq<char> {
    "`"@ + value + "` "@ + wrong
}

/// A number outside its range.
pub open spec fn out_of_range(what: Seq<char>, n: int, lo: int, hi: int) -> Seq<char> {
    what + int_text(n) + " out of range ["@ + int_text(lo) + ", "@ + int_text(hi) + "]"@
}

/// Why a value that is no list does not fit a type.
pub open spec fn scalar_cause(ty: TypeView, value: Seq<char>) -> Seq<char> {
    match ty {
        TypeView::Any | TypeView::Dynamic | TypeView::Text => Seq::empty(),
        TypeView::Integer => value_is(value, "is not a valid integer"@),
        TypeView::Boolean => value_is(
            value,
            "is not a valid boolean (expected true|false|#t|#f)"@,
        ),
        TypeView::CidrBlock => value_is(
            value,
            "is not a valid IPv4 CIDR block (expected like 10.0.0.0/16)"@,
        ),
        TypeView::Ipv4 => value_is(value, "is not a valid IPv4 address"@),
        TypeView::Ipv6 => value_is(value, "is not a valid IPv6 address"@),
        TypeView::Hostname => value_is(value, "is not a valid RFC 1123 hostname"@),
        TypeView::AvailabilityZone => value_is(
            value,
            "is not a valid AWS availability zone (expected like us-east-1a)"@,
        ),
        TypeView::Email => value_is(value, "is not a valid email (expected localpart@domain)"@),
        TypeView::Url => value_is(value, "is not a valid URL (expected scheme://...)"@),
        TypeView::PortRange { lo, hi } => match parse_int(value) {
            Some(n) if value[0] != '-' && n <= u16::MAX => out_of_range(
                "value "@,
                n as int,
                lo as int,
                hi as int,
            ),
            _ => value_is(value, "is not a valid integer"@),
        },
        TypeView::IntRange { lo, hi } => match parse_int(value) {
            Some(n) => out_of_range("value "@, n as int, lo as int, hi as int),
            None => value_is(value, "is not a valid integer"@),
        },
        TypeView::Enum { values } => value_is(
            value,
            "not in enum ["@ + joined(values, ", "@) + "]"@,
        ),
        TypeView::Length { min, max } => out_of_range(
            "length "@,
            value.len() as int,
            min as int,
            max as int,
        ),
        TypeView::Pattern { source, .. } => value_is(
            value,
            "doesn't match pattern `"@ + source + "`"@,
        ),
        TypeView::ListOf { .. } => "wrong validator: list type — use validate_list"@,
    }
}

/// Why the first item from `i` on that does not fit does not, as far as it is
/// told which that is.
pub open spec fn item_cause(ty: TypeView, items: Seq<Seq<char>>, i: int) -> Option<Seq<char>>
    decreases items.len() - i,
{
    if i < 0 || i >= items.len() {
        None
    } else {
        match scalar_fit(ty, items[i]) {
            Some(true) => item_cause(ty, items, i + 1),
            Some(false) => Some(scalar_cause(ty, items[i])),
            None => None,
        }
    }
}

/// Why a value does not fit a type: of a list first its number of items, then
/// its first item that does not fit.
pub open spec fn cause_of(ty: TypeView, value: Seq<char>) -> Option<Seq<char>> {
    match ty {
        TypeView::ListOf { inner, min_items, max_items } => {
            let n = list_items(value).len();
            match (min_items, max_items) {
                (Some(lo), _) if n < lo => Some(
                    "list has too few items: "@ + decimal(n) + " < "@ + decimal(lo as nat),
                ),
                (_, Some(hi)) if n > hi => Some(
                    "list has too many items: "@ + decimal(n) + " > "@ + decimal(hi as nat),
                ),
                _ => item_cause(*inner, list_items(value), 0),
            }
        },
        _ => Some(scalar_cause(ty, value)),
    }
}

// ---------------------------------------------------------------------
// Laws
// ---------------------------------------------------------------------

/// Of a type whose fit is told, a cause is told where an item does not fit.
proof fn lemma_item_cause(ty: TypeView, items: Seq<Seq<char>>, i: int)
    requires
        0 <= i <= items.len(),
        !(ty is Ipv6),
    ensures
        item_cause(ty, items, i) is Some <==> exists|k: int|
            i <= k < items.len() && scalar_fit(ty, #[trigger] items[k]) == Some(false),
    decreases items.len() - i,
{
    if i < items.len() {
        lemma_item_cause(ty, items, i + 1);
        assert(scalar_fit(ty, items[i]) is Some);
    }
}

/// Whether a value fits, and why it does not, is told of every value, but for
/// IPv6 addresses and lists of them.
pub proof fn law_fit_is_told(ty: TypeView, value: Seq<char>)
    requires
        !(ty is Ipv6),
        !(ty matches TypeView::ListOf { inner, .. } && *inner is Ipv6),
    ensures
        fit_of(ty, value) is Some,
        fit_of(ty, value) == Some(false) ==> cause_of(ty, value) is Some,
{
    if let TypeView::ListOf { inner, .. } = ty {
        let items = list_items(value);
        lemma_item_cause(*inner, items, 0);
        if !(exists|i: int|
            0 <= i < items.len() && scalar_fit(*inner, #[trigger] items[i]) == Some(false)) {
            assert forall|i: int| 0 <= i < items.len() implies scalar_fit(
                *inner,
                #[trigger] items[i],
            ) == Some(true) by {
                assert(scalar_fit(*inner, items[i]) is Some);
            }
        }
    }
}

/// The pieces of a text in front of a separator, and those behind it.
proof fn lemma_pieces_behind(s: Seq<char>, sep: char, last: Seq<char>)
    requires
        !has_char(last, sep),
    ensures
        pieces(s + seq![sep] + last, sep) == pieces(s, sep).push(last),
    decreases s.len(),
{
    let big = s + seq![sep] + last;
    lemma_find_from(s, sep, 0);
    lemma_find_from(big, sep, 0);
    lemma_find_from(last, sep, 0);
    match find_from(s, sep, 0) {
        Some(j) => {
            assert(big[j] == sep);
            let k = find_from(big, sep, 0)->0;
            assert(k == j) by {
                if k < j {
                    assert(big[k] == s[k]);
                }
            }
            assert(big.take(j) =~= s.take(j));
            assert(big.skip(j + 1) =~= s.skip(j + 1) + seq![sep] + last);
            lemma_pieces_behind(s.skip(j + 1), sep, last);
            assert(seq![s.take(j)] + pieces(s.skip(j + 1), sep).push(last) =~= (seq![s.take(j)]
                + pieces(s.skip(j + 1), sep)).push(last));
        },
        None => {
            let n = s.len() as int;
            assert(big[n] == sep);
            let k = find_from(big, sep, 0)->0;
            assert(k == n) by {
                if k < n {
                    assert(big[k] == s[k]);
                }
            }
            assert(big.take(n) =~= s);
            assert(big.skip(n + 1) =~= last);
            assert(pieces(last, sep) =~= seq![last]);
            assert(seq![s] + seq![last] =~= seq![s].push(last));
        },
    }
}

proof fn lemma_joined_pieces(ws: Seq<Seq<char>>)
    requires
        ws.len() > 0,
        forall|i: int| 0 <= i < ws.len() ==> !has_char(#[trigger] ws[i], ','),
    ensures
        pieces(joined(ws, seq![',']), ',') == ws,
    decreases ws.len(),
{
    if ws.len() == 1 {
        assert(!has_char(ws[0], ','));
        assert(seq![ws[0]] =~= ws);
    } else {
        let front = ws.drop_last();
        assert forall|i: int| 0 <= i < front.len() implies !has_char(#[trigger] front[i], ',') by {
            assert(front[i] == ws[i]);
        }
        lemma_joined_pieces(front);
        assert(!has_char(ws[ws.len() - 1], ','));
        lemma_pieces_behind(joined(front, seq![',']), ',', ws.last());
        assert(front.push(ws.last()) =~= ws);
    }
}

/// A list that is joined by commas has the items that it was joined from, where
/// none of them holds a comma and it is not a lone empty one.
pub proof fn law_joined_items_come_apart(ws: Seq<Seq<char>>)
    requires
        forall|i: int| 0 <= i < ws.len() ==> !has_char(#[trigger] ws[i], ','),
        !(ws.len() == 1 && ws[0].len() == 0),
    ensures
        list_items(joined(ws, ","@)) == ws,
{
    reveal_strlit(",");
    assert(","@ =~= seq![',']);
    if ws.len() == 0 {
        assert(ws =~= Seq::empty());
    } else {
        lemma_joined_pieces(ws);
        if ws.len() > 1 {
            assert(joined(ws, seq![',']).len() > 0);
        }
    }
}

} // verus!
