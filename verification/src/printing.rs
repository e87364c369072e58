//! Forms written down, and sources put together.
//!
//! A form that is written down reads back as itself. Separators and comments
//! around a source change nothing, and a second form behind the first is found.
use crate::number::{
    decimal, int_text, is_digit, law_integer_text_reads_back, lemma_decimal_value, parse_int,
    unsigned_part,
};
use crate::sexpr::{
    atom_end, ends_atom, is_gap, lemma_offset_step, lemma_read_form, lemma_skip_gaps, line_end,
    offset, parse_one, read_all, read_form, read_items, read_string, skip_gaps, unescape, word, AtomView,
    ParseError, SxView,
};
use crate::text::{find_from, lemma_find_from};
use vstd::prelude::*;
use vstd::utf8::encode_utf8;

verus! {

// ---------------------------------------------------------------------
// A source inside another
// ---------------------------------------------------------------------

/// Whether what follows a source ends its last word.
pub open spec fn closes(t: Seq<char>) -> bool {
    t.len() == 0 || ends_atom(t[0])
}

proof fn lemma_find_inside(a: Seq<char>, s: Seq<char>, t: Seq<char>, c: char, i: int)
    requires
        0 <= i <= s.len(),
    ensures
        find_from(s, c, i) matches Some(j) ==> find_from(a + s + t, c, a.len() + i) == Some(
            a.len() + j,
        ),
    decreases s.len() - i,
{
    if i < s.len() && s[i] != c {
        lemma_find_inside(a, s, t, c, i + 1);
    }
}

proof fn lemma_skip_inside(a: Seq<char>, s: Seq<char>, t: Seq<char>, i: int)
    requires
        0 <= i <= s.len(),
    ensures
        skip_gaps(s, i) < s.len() ==> skip_gaps(a + s + t, a.len() + i) == a.len() + skip_gaps(
            s,
            i,
        ),
    decreases s.len() - i,
{
    if i < s.len() {
        let big = a + s + t;
        assert(big[a.len() + i] == s[i]);
        lemma_find_from(s, '\n', i);
        lemma_find_from(big, '\n', a.len() + i);
        if is_gap(s[i]) {
            lemma_skip_inside(a, s, t, i + 1);
        } else if s[i] == ';' {
            lemma_find_inside(a, s, t, '\n', i);
            lemma_skip_gaps(s, line_end(s, i));
            lemma_skip_inside(a, s, t, line_end(s, i));
        }
    }
}

proof fn lemma_atom_inside(a: Seq<char>, s: Seq<char>, t: Seq<char>, i: int)
    requires
        0 <= i <= s.len(),
        closes(t),
    ensures
        i <= atom_end(s, i) <= s.len(),
        atom_end(a + s + t, a.len() + i) == a.len() + atom_end(s, i),
    decreases s.len() - i,
{
    let big = a + s + t;
    if i < s.len() {
        assert(big[a.len() + i] == s[i]);
        if !ends_atom(s[i]) {
            lemma_atom_inside(a, s, t, i + 1);
        }
    } else if t.len() > 0 {
        assert(big[a.len() + i] == t[0]);
    }
}

proof fn lemma_string_inside(
    a: Seq<char>,
    s: Seq<char>,
    t: Seq<char>,
    start: int,
    big_start: int,
    i: int,
)
    requires
        0 <= i <= s.len(),
    ensures
        read_string(s, start, i) matches Ok((body, q)) ==> read_string(
            a + s + t,
            big_start,
            a.len() + i,
        ) == Ok::<(Seq<char>, int), ParseError>((body, a.len() + q)),
    decreases s.len() - i,
{
    if i < s.len() {
        let big = a + s + t;
        assert(big[a.len() + i] == s[i]);
        if s[i] != '"' {
            if s[i] != '\\' {
                lemma_string_inside(a, s, t, start, big_start, i + 1);
            } else if i + 1 < s.len() {
                assert(big[a.len() + i + 1] == s[i + 1]);
                lemma_string_inside(a, s, t, start, big_start, i + 2);
            }
        }
    }
}

/// A form that reads in a source reads in every text that holds the source,
/// as long as what follows ends its last word.
proof fn lemma_form_inside(a: Seq<char>, s: Seq<char>, t: Seq<char>, i: int)
    requires
        0 <= i <= s.len(),
        closes(t),
    ensures
        read_form(s, i) matches Ok((x, q)) ==> read_form(a + s + t, a.len() + i) == Ok::<
            (SxView, int),
            ParseError,
        >((x, a.len() + q)),
    decreases s.len() - i, 0int,
{
    let big = a + s + t;
    let p = skip_gaps(s, i);
    lemma_skip_gaps(s, i);
    lemma_skip_inside(a, s, t, i);
    if p < s.len() {
        assert(big[a.len() + p] == s[p]);
        if s[p] == '(' {
            lemma_items_inside(a, s, t, p, a.len() + p, p + 1);
        } else if s[p] == '"' {
            lemma_string_inside(a, s, t, p, a.len() + p, p + 1);
        } else if s[p] == '#' {
            if p + 1 < s.len() {
                assert(big[a.len() + p + 1] == s[p + 1]);
            }
        } else if s[p] == ':' {
            lemma_atom_inside(a, s, t, p + 1);
            let q = atom_end(s, p + 1);
            assert(big.subrange(a.len() + p + 1, a.len() + q) =~= s.subrange(p + 1, q));
        } else {
            lemma_atom_inside(a, s, t, p);
            let q = atom_end(s, p);
            assert(big.subrange(a.len() + p, a.len() + q) =~= s.subrange(p, q));
        }
    }
}

proof fn lemma_items_inside(
    a: Seq<char>,
    s: Seq<char>,
    t: Seq<char>,
    start: int,
    big_start: int,
    i: int,
)
    requires
        0 <= i <= s.len(),
        closes(t),
    ensures
        read_items(s, start, i) matches Ok((xs, q)) ==> read_items(
            a + s + t,
            big_start,
            a.len() + i,
        ) == Ok::<(Seq<SxView>, int), ParseError>((xs, a.len() + q)),
    decreases s.len() - i, 1int,
{
    let big = a + s + t;
    let p = skip_gaps(s, i);
    lemma_skip_gaps(s, i);
    lemma_skip_inside(a, s, t, i);
    if p < s.len() {
        assert(big[a.len() + p] == s[p]);
        if s[p] != ')' {
            lemma_form_inside(a, s, t, p);
            lemma_read_form(s, p);
            if let Ok((_, q)) = read_form(s, p) {
                lemma_items_inside(a, s, t, start, big_start, q);
            }
        }
    }
}

// ---------------------------------------------------------------------
// Separators and comments around a source
// ---------------------------------------------------------------------

/// Whether a text from `i` on is made of separators and of comments that end
/// with their line.
pub open spec fn gap_text(w: Seq<char>, i: int) -> bool
    decreases w.len() - i,
{
    if i < 0 || i >= w.len() {
        true
    } else if is_gap(w[i]) {
        gap_text(w, i + 1)
    } else {
        w[i] == ';' && match find_from(w, '\n', i) {
            Some(j) => i <= j < w.len() && gap_text(w, j + 1),
            None => false,
        }
    }
}

/// What is left of a gap after a line of it is a gap.
proof fn lemma_gap_line(w: Seq<char>, i: int, j: int)
    requires
        0 <= i <= j < w.len(),
        gap_text(w, i),
        find_from(w, '\n', i) == Some(j),
    ensures
        gap_text(w, j + 1),
    decreases w.len() - i,
{
    lemma_find_from(w, '\n', i);
    if is_gap(w[i]) && i < j {
        lemma_gap_line(w, i + 1, j);
    }
}

proof fn lemma_find_behind(a: Seq<char>, s: Seq<char>, t: Seq<char>, c: char, i: int)
    requires
        0 <= i <= s.len(),
        find_from(s, c, i) is None,
    ensures
        find_from(a + s + t, c, a.len() + i) == match find_from(t, c, 0) {
            Some(j) => Some(a.len() + s.len() + j),
            None => None,
        },
    decreases s.len() - i,
{
    if i < s.len() {
        lemma_find_behind(a, s, t, c, i + 1);
    } else {
        let none = Seq::<char>::empty();
        assert(a + s + t =~= (a + s) + t + none);
        lemma_find_inside(a + s, t, none, c, 0);
        lemma_find_from(t, c, 0);
        lemma_find_from(a + s + t, c, a.len() + i);
        if find_from(t, c, 0) is None {
            if let Some(k) = find_from(a + s + t, c, a.len() + i) {
                assert(t[k - a.len() - s.len()] == c);
            }
        }
    }
}

/// A gap is skipped, wherever it stands.
proof fn lemma_gap_skipped(a: Seq<char>, w: Seq<char>, t: Seq<char>, i: int)
    requires
        0 <= i <= w.len(),
        gap_text(w, i),
    ensures
        skip_gaps(a + w + t, a.len() + i) == skip_gaps(a + w + t, (a.len() + w.len()) as int),
    decreases w.len() - i,
{
    if i < w.len() {
        let big = a + w + t;
        assert(big[a.len() + i] == w[i]);
        if is_gap(w[i]) {
            lemma_gap_skipped(a, w, t, i + 1);
        } else {
            lemma_find_from(w, '\n', i);
            lemma_find_inside(a, w, t, '\n', i);
            lemma_gap_skipped(a, w, t, find_from(w, '\n', i)->0 + 1);
        }
    }
}

/// Where nothing but a gap is left of a source, a gap behind it leaves nothing
/// but a gap, also where the last comment of the source runs into it.
proof fn lemma_gap_behind(a: Seq<char>, s: Seq<char>, w: Seq<char>, i: int)
    requires
        0 <= i <= s.len(),
        skip_gaps(s, i) >= s.len(),
        gap_text(w, 0),
    ensures
        skip_gaps(a + s + w, a.len() + i) == (a + s + w).len(),
    decreases s.len() - i,
{
    let big = a + s + w;
    let none = Seq::<char>::empty();
    assert(big =~= (a + s) + w + none);
    assert(skip_gaps(big, big.len() as int) == big.len());
    if i == s.len() {
        lemma_gap_skipped(a + s, w, none, 0);
    } else {
        assert(big[a.len() + i] == s[i]);
        lemma_find_from(s, '\n', i);
        if is_gap(s[i]) {
            lemma_gap_behind(a, s, w, i + 1);
        } else if find_from(s, '\n', i) is Some {
            lemma_find_inside(a, s, w, '\n', i);
            lemma_gap_behind(a, s, w, line_end(s, i));
        } else {
            lemma_find_behind(a, s, w, '\n', i);
            lemma_find_from(w, '\n', 0);
            assert(s[i] == ';');
            if let Some(j) = find_from(w, '\n', 0) {
                lemma_gap_line(w, 0, j);
                lemma_gap_skipped(a + s, w, none, j + 1);
                assert(line_end(big, a.len() + i) == (a + s).len() + j + 1);
            } else {
                assert(line_end(big, a.len() + i) == big.len());
            }
        }
    }
}

/// Reading goes by what follows the gap.
proof fn lemma_same_gap(s: Seq<char>, i: int, j: int)
    requires
        0 <= i <= s.len(),
        0 <= j <= s.len(),
        skip_gaps(s, i) == skip_gaps(s, j),
    ensures
        read_form(s, i) == read_form(s, j),
        read_all(s, i) == read_all(s, j),
{
    lemma_skip_gaps(s, i);
    lemma_skip_gaps(s, j);
}

proof fn lemma_all_inside(a: Seq<char>, s: Seq<char>, w: Seq<char>, i: int)
    requires
        0 <= i <= s.len(),
        gap_text(w, 0),
    ensures
        read_all(s, i) matches Ok(xs) ==> read_all(a + s + w, a.len() + i) == Ok::<
            Seq<SxView>,
            ParseError,
        >(xs),
    decreases s.len() - i,
{
    let p = skip_gaps(s, i);
    lemma_skip_gaps(s, i);
    if p < s.len() {
        lemma_skip_inside(a, s, w, i);
        lemma_form_inside(a, s, w, p);
        lemma_read_form(s, p);
        if let Ok((_, q)) = read_form(s, p) {
            lemma_all_inside(a, s, w, q);
        }
    } else {
        lemma_gap_behind(a, s, w, i);
    }
}

/// Separators and complete comments around a source change nothing in what it
/// reads as, as one form or as a run of forms.
pub proof fn law_gaps_around_a_source_change_nothing(
    before: Seq<char>,
    src: Seq<char>,
    after: Seq<char>,
)
    requires
        gap_text(before, 0),
        gap_text(after, 0),
    ensures
        parse_one(src) is Ok ==> parse_one(before + src + after) == parse_one(src),
        read_all(src, 0) is Ok ==> read_all(before + src + after, 0) == read_all(src, 0),
{
    let big = before + src + after;
    let none = Seq::<char>::empty();
    assert(big =~= none + before + (src + after));
    lemma_gap_skipped(none, before, src + after, 0);
    lemma_same_gap(big, 0, before.len() as int);
    lemma_form_inside(before, src, after, 0);
    lemma_all_inside(before, src, after, 0);
    lemma_read_form(src, 0);
    if let Ok((_, q)) = read_form(src, 0) {
        lemma_skip_gaps(src, q);
        if skip_gaps(src, q) >= src.len() {
            lemma_gap_behind(before, src, after, q);
        }
    }
}

/// A source that reads, followed on a new line by another form, is refused as
/// more than one form, at the byte offset where the second one starts.
pub proof fn law_a_second_form_is_refused(first: Seq<char>, second: Seq<char>)
    requires
        parse_one(first) is Ok,
        second.len() > 0,
        !is_gap(second[0]),
        second[0] != ';',
    ensures
        parse_one(first + seq!['\n'] + second) == Err::<SxView, ParseError>(
            ParseError::MultipleForms((encode_utf8(first).len() + 1) as usize),
        ),
{
    let line = seq!['\n'];
    let none = Seq::<char>::empty();
    let big = first + line + second;
    let n = first.len() as int;
    assert(big =~= none + first + (line + second));
    lemma_form_inside(none, first, line + second, 0);
    lemma_read_form(first, 0);
    let q = read_form(first, 0)->Ok_0.1;
    lemma_line_behind(first, second, q);
    assert(big[n + 1] == second[0]);
    assert(skip_gaps(big, n + 1) == n + 1);
    lemma_offset_step(big, n);
    assert(big[n] == '\n');
    assert(big.take(n) =~= first);
}

/// A line that only a gap is left of is skipped with its end.
proof fn lemma_line_behind(s: Seq<char>, t: Seq<char>, i: int)
    requires
        0 <= i <= s.len(),
        skip_gaps(s, i) >= s.len(),
    ensures
        skip_gaps(s + seq!['\n'] + t, i) == skip_gaps(s + seq!['\n'] + t, (s.len() + 1) as int),
    decreases s.len() - i,
{
    let big = s + seq!['\n'] + t;
    let none = Seq::<char>::empty();
    assert(big =~= none + s + (seq!['\n'] + t));
    if i == s.len() {
        assert(big[i] == '\n');
    } else {
        assert(big[i] == s[i]);
        lemma_find_from(s, '\n', i);
        if is_gap(s[i]) {
            lemma_line_behind(s, t, i + 1);
        } else if find_from(s, '\n', i) is Some {
            lemma_find_inside(none, s, seq!['\n'] + t, '\n', i);
            lemma_line_behind(s, t, line_end(s, i));
        } else {
            lemma_find_behind(none, s, seq!['\n'] + t, '\n', i);
            assert((seq!['\n'] + t)[0] == '\n');
        }
    }
}

// ---------------------------------------------------------------------
// Forms written down
// ---------------------------------------------------------------------

/// The contents of a string as they stand between its quotes.
pub open spec fn escaped(s: Seq<char>) -> Seq<char>
    decreases s.len(),
{
    if s.len() == 0 {
        Seq::empty()
    } else if s[0] == '"' || s[0] == '\\' {
        seq!['\\', s[0]] + escaped(s.skip(1))
    } else {
        seq![s[0]] + escaped(s.skip(1))
    }
}

/// A form written down.
pub open spec fn shown(x: SxView) -> Seq<char>
    decreases x, 0int,
{
    match x {
        SxView::Atom(AtomView::Sym(s)) => s,
        SxView::Atom(AtomView::Kw(s)) => seq![':'] + s,
        SxView::Atom(AtomView::Str(s)) => seq!['"'] + escaped(s) + seq!['"'],
        SxView::Atom(AtomView::Bool(b)) => seq![
            '#',
            if b {
                't'
            } else {
                'f'
            },
        ],
        SxView::Atom(AtomView::Int(n)) => int_text(n as int),
        SxView::List(xs) => seq!['('] + shown_from(xs, 0) + seq![')'],
    }
}

/// The items of a list from `i` on written down, with a space between
/// neighbours.
pub open spec fn shown_from(xs: Seq<SxView>, i: int) -> Seq<char>
    decreases xs, xs.len() - i,
{
    if i < 0 || i >= xs.len() {
        Seq::empty()
    } else if i == 0 {
        shown(xs[i]) + shown_from(xs, i + 1)
    } else {
        seq![' '] + shown(xs[i]) + shown_from(xs, i + 1)
    }
}

/// Whether a text is one word.
pub open spec fn is_word(s: Seq<char>) -> bool {
    forall|i: int| 0 <= i < s.len() ==> !ends_atom(#[trigger] s[i])
}

/// Whether a form can be written down: its symbols and keywords are words, and
/// its symbols look like no other atom.
pub open spec fn can_show(x: SxView) -> bool
    decreases x,
{
    match x {
        SxView::Atom(AtomView::Sym(s)) => s.len() > 0 && is_word(s) && s[0] != '"' && s[0] != '#'
            && s[0] != ':' && parse_int(s) is None,
        SxView::Atom(AtomView::Kw(s)) => is_word(s),
        SxView::Atom(_) => true,
        SxView::List(xs) => forall|i: int| 0 <= i < xs.len() ==> can_show(#[trigger] xs[i]),
    }
}

/// A word that starts with a letter can be written down as a symbol.
pub proof fn law_a_word_with_a_letter_first_is_a_symbol(s: Seq<char>)
    requires
        s.len() > 0,
        'a' <= s[0] <= 'z' || 'A' <= s[0] <= 'Z',
        is_word(s),
    ensures
        can_show(SxView::Atom(AtomView::Sym(s))),
        parse_one(s) == Ok::<SxView, ParseError>(SxView::Atom(AtomView::Sym(s))),
{
    assert(!is_digit(unsigned_part(s)[0]));
    law_a_form_written_down_reads_back(SxView::Atom(AtomView::Sym(s)));
}

proof fn lemma_whole_word(s: Seq<char>, i: int)
    requires
        0 <= i <= s.len(),
        is_word(s),
    ensures
        atom_end(s, i) == s.len(),
    decreases s.len() - i,
{
    if i < s.len() {
        lemma_whole_word(s, i + 1);
    }
}

proof fn lemma_escaped_reads(a: Seq<char>, s: Seq<char>, t: Seq<char>, start: int)
    ensures
        read_string(a + escaped(s) + seq!['"'] + t, start, a.len() as int) == Ok::<
            (Seq<char>, int),
            ParseError,
        >((s, (a.len() + escaped(s).len() + 1) as int)),
    decreases s.len(),
{
    let big = a + escaped(s) + seq!['"'] + t;
    let n = a.len() as int;
    if s.len() == 0 {
        assert(big[n] == '"');
        assert(s =~= Seq::empty());
    } else if s[0] == '"' || s[0] == '\\' {
        let front = a + seq!['\\', s[0]];
        lemma_escaped_reads(front, s.skip(1), t, start);
        assert(big =~= front + escaped(s.skip(1)) + seq!['"'] + t);
        assert(big[n] == '\\' && big[n + 1] == s[0]);
        assert(unescape(s[0]) == s[0]);
        assert(seq![s[0]] + s.skip(1) =~= s);
    } else {
        let front = a + seq![s[0]];
        lemma_escaped_reads(front, s.skip(1), t, start);
        assert(big =~= front + escaped(s.skip(1)) + seq!['"'] + t);
        assert(big[n] == s[0]);
        assert(seq![s[0]] + s.skip(1) =~= s);
    }
}

/// A word that is written down reads as what the word stands for.
proof fn lemma_word_reads(a: Seq<char>, s: Seq<char>, t: Seq<char>)
    requires
        s.len() > 0,
        is_word(s),
        s[0] != '"' && s[0] != '#' && s[0] != ':',
        closes(t),
    ensures
        read_form(a + s + t, a.len() as int) == Ok::<(SxView, int), ParseError>(
            (SxView::Atom(word(s)), (a.len() + s.len()) as int),
        ),
{
    let big = a + s + t;
    let n = a.len() as int;
    assert(big[n] == s[0]);
    assert(!ends_atom(s[0]));
    lemma_whole_word(s, 0);
    lemma_atom_inside(a, s, t, 0);
    assert(big.subrange(n, n + s.len()) =~= s);
}

proof fn lemma_shown_reads(a: Seq<char>, x: SxView, t: Seq<char>)
    requires
        can_show(x),
        closes(t),
    ensures
        shown(x).len() > 0,
        !is_gap(shown(x)[0]) && shown(x)[0] != ';' && shown(x)[0] != ')',
        read_form(a + shown(x) + t, a.len() as int) == Ok::<(SxView, int), ParseError>(
            (x, (a.len() + shown(x).len()) as int),
        ),
    decreases x, 0int,
{
    let big = a + shown(x) + t;
    let n = a.len() as int;
    match x {
        SxView::Atom(AtomView::Sym(s)) => {
            assert(!ends_atom(s[0]));
            lemma_word_reads(a, s, t);
        },
        SxView::Atom(AtomView::Kw(s)) => {
            let front = a + seq![':'];
            assert(big =~= front + s + t);
            assert(big[n] == ':');
            lemma_whole_word(s, 0);
            lemma_atom_inside(front, s, t, 0);
            assert(big.subrange(n + 1, n + 1 + s.len()) =~= s);
        },
        SxView::Atom(AtomView::Str(s)) => {
            let front = a + seq!['"'];
            assert(big =~= front + escaped(s) + seq!['"'] + t);
            assert(big[n] == '"');
            lemma_escaped_reads(front, s, t, n);
        },
        SxView::Atom(AtomView::Bool(b)) => {
            assert(big[n] == '#' && big[n + 1] == shown(x)[1]);
        },
        SxView::Atom(AtomView::Int(v)) => {
            let s = int_text(v as int);
            law_integer_text_reads_back(v);
            lemma_int_word(v);
            lemma_word_reads(a, s, t);
        },
        SxView::List(xs) => {
            let front = a + seq!['('];
            assert(big =~= front + shown_from(xs, 0) + seq![')'] + t);
            assert(big[n] == '(');
            lemma_shown_items_read(front, xs, 0, t, n);
            assert(xs.skip(0) =~= xs);
        },
    }
}

/// An integer that is written down is one word.
proof fn lemma_int_word(v: i64)
    ensures
        is_word(int_text(v as int)),
        int_text(v as int).len() > 0,
        int_text(v as int)[0] == '-' || is_digit(int_text(v as int)[0]),
{
    let s = int_text(v as int);
    if v < 0 {
        let d = decimal((-v) as nat);
        lemma_decimal_value((-v) as nat);
        assert forall|i: int| 0 <= i < s.len() implies !ends_atom(#[trigger] s[i]) by {
            if i > 0 {
                assert(s[i] == d[i - 1]);
                assert(is_digit(d[i - 1]));
            }
        }
    } else {
        lemma_decimal_value(v as nat);
        assert forall|i: int| 0 <= i < s.len() implies !ends_atom(#[trigger] s[i]) by {
            assert(is_digit(s[i]));
        }
        assert(is_digit(s[0]));
    }
}

proof fn lemma_shown_items_read(
    a: Seq<char>,
    xs: Seq<SxView>,
    i: int,
    t: Seq<char>,
    start: int,
)
    requires
        0 <= i <= xs.len(),
        forall|k: int| 0 <= k < xs.len() ==> can_show(#[trigger] xs[k]),
    ensures
        read_items(a + shown_from(xs, i) + seq![')'] + t, start, a.len() as int) == Ok::<
            (Seq<SxView>, int),
            ParseError,
        >((xs.skip(i), (a.len() + shown_from(xs, i).len() + 1) as int)),
    decreases xs, xs.len() - i,
{
    let big = a + shown_from(xs, i) + seq![')'] + t;
    let n = a.len() as int;
    if i == xs.len() {
        assert(big[n] == ')');
        assert(xs.skip(i) =~= Seq::empty());
    } else {
        let x = xs[i];
        let gap = if i == 0 {
            Seq::<char>::empty()
        } else {
            seq![' ']
        };
        let front = a + gap;
        let back = shown_from(xs, i + 1) + seq![')'] + t;
        assert(back[0] == ' ' || back[0] == ')') by {
            if i + 1 < xs.len() {
                assert(shown_from(xs, i + 1)[0] == ' ');
            }
        }
        assert(can_show(xs[i]));
        lemma_shown_reads(front, x, back);
        assert(big =~= front + shown(x) + back);
        let p = front.len() as int;
        assert(big[p] == shown(x)[0]);
        assert(skip_gaps(big, p) == p);
        assert(skip_gaps(big, n) == p) by {
            if i > 0 {
                assert(big[n] == ' ');
            }
        }
        let next = front + shown(x);
        lemma_shown_items_read(next, xs, i + 1, t, start);
        assert(big =~= next + shown_from(xs, i + 1) + seq![')'] + t);
        assert(seq![x] + xs.skip(i + 1) =~= xs.skip(i));
    }
}

/// Reading back a form that was written down gives the form again.
pub proof fn law_a_form_written_down_reads_back(x: SxView)
    requires
        can_show(x),
    ensures
        parse_one(shown(x)) == Ok::<SxView, ParseError>(x),
{
    let none = Seq::<char>::empty();
    lemma_shown_reads(none, x, none);
    assert(none + shown(x) + none =~= shown(x));
}

// ---------------------------------------------------------------------
// Sources one behind the other
// ---------------------------------------------------------------------

proof fn lemma_all_joined(a: Seq<char>, b: Seq<char>, i: int, ys: Seq<SxView>)
    requires
        0 <= i <= a.len(),
        read_all(b, 0) == Ok::<Seq<SxView>, ParseError>(ys),
    ensures
        read_all(a, i) matches Ok(xs) ==> read_all(a + seq!['\n'] + b, i) == Ok::<
            Seq<SxView>,
            ParseError,
        >(xs + ys),
    decreases a.len() - i,
{
    let line = seq!['\n'];
    let none = Seq::<char>::empty();
    let big = a + line + b;
    let p = skip_gaps(a, i);
    lemma_skip_gaps(a, i);
    assert(big =~= none + a + (line + b));
    if p < a.len() {
        lemma_skip_inside(none, a, line + b, i);
        lemma_form_inside(none, a, line + b, p);
        lemma_read_form(a, p);
        if let Ok((x, q)) = read_form(a, p) {
            lemma_all_joined(a, b, q, ys);
            if let Ok(xs) = read_all(a, q) {
                assert(seq![x] + (xs + ys) =~= (seq![x] + xs) + ys);
            }
        }
    } else {
        lemma_line_behind(a, b, i);
        lemma_same_gap(big, i, (a.len() + 1) as int);
        lemma_all_inside(a + line, b, none, 0);
        assert((a + line) + b + none =~= big);
        assert(Seq::<SxView>::empty() + ys =~= ys);
    }
}

/// The forms of two sources, one behind the other on a new line, are those of the
/// first and then those of the second.
pub proof fn law_forms_are_read_in_order(
    a: Seq<char>,
    b: Seq<char>,
    xs: Seq<SxView>,
    ys: Seq<SxView>,
)
    requires
        read_all(a, 0) == Ok::<Seq<SxView>, ParseError>(xs),
        read_all(b, 0) == Ok::<Seq<SxView>, ParseError>(ys),
    ensures
        read_all(a + seq!['\n'] + b, 0) == Ok::<Seq<SxView>, ParseError>(xs + ys),
        read_all(Seq::empty(), 0) == Ok::<Seq<SxView>, ParseError>(Seq::empty()),
{
    lemma_all_joined(a, b, 0, ys);
}

// ---------------------------------------------------------------------
// Strings and words
// ---------------------------------------------------------------------

/// The rest of a string reads as it does behind any other text.
proof fn lemma_string_behind(
    a: Seq<char>,
    u: Seq<char>,
    start: int,
    big_start: int,
    i: int,
)
    requires
        0 <= i <= u.len(),
    ensures
        match read_string(u, start, i) {
            Ok((x, q)) => read_string(a + u, big_start, a.len() + i) == Ok::<
                (Seq<char>, int),
                ParseError,
            >((x, a.len() + q)),
            Err(_) => read_string(a + u, big_start, a.len() + i) is Err,
        },
    decreases u.len() - i,
{
    if i < u.len() {
        let big = a + u;
        assert(big[a.len() + i] == u[i]);
        if u[i] != '"' {
            if u[i] != '\\' {
                lemma_string_behind(a, u, start, big_start, i + 1);
            } else if i + 1 < u.len() {
                assert(big[a.len() + i + 1] == u[i + 1]);
                lemma_string_behind(a, u, start, big_start, i + 2);
            }
        }
    }
}

/// A text between double quotes.
pub open spec fn in_quotes(t: Seq<char>) -> Seq<char> {
    seq!['"'] + t + seq!['"']
}

/// Whether a text between quotes is a literal with certain contents.
pub open spec fn is_literal(t: Seq<char>, x: Seq<char>) -> bool {
    &&& parse_one(in_quotes(t)) == Ok::<SxView, ParseError>(SxView::Atom(AtomView::Str(x)))
    &&& read_form(in_quotes(t), 0) == Ok::<(SxView, int), ParseError>(
        (SxView::Atom(AtomView::Str(x)), in_quotes(t).len() as int),
    )
}

/// A string literal reads character by character: one more in front of it comes
/// in front of its contents, as it is, and one more behind a backslash as a line
/// break or tab where it is an `n`, `r` or `t`, else as it is. Two quotes are the
/// empty string.
pub proof fn law_string_literals_read_character_by_character(
    t: Seq<char>,
    x: Seq<char>,
    c: char,
)
    requires
        is_literal(t, x),
    ensures
        c != '"' && c != '\\' ==> is_literal(seq![c] + t, seq![c] + x),
        c == 'n' ==> is_literal(seq!['\\', c] + t, seq!['\n'] + x),
        c == 'r' ==> is_literal(seq!['\\', c] + t, seq!['\r'] + x),
        c == 't' ==> is_literal(seq!['\\', c] + t, seq!['\t'] + x),
        c != 'n' && c != 'r' && c != 't' ==> is_literal(seq!['\\', c] + t, seq![c] + x),
        is_literal(Seq::empty(), Seq::empty()),
{
    let rest = t + seq!['"'];
    let quote = seq!['"'];
    let s = in_quotes(t);
    assert(s =~= quote + rest);
    assert(s[0] == '"');
    lemma_string_behind(quote, rest, 0, 0, 0);
    lemma_literal(s);
    let plain = in_quotes(seq![c] + t);
    let front = seq!['"', c];
    assert(plain =~= front + rest);
    assert(plain[0] == '"' && plain[1] == c);
    lemma_string_behind(front, rest, 0, 0, 0);
    lemma_literal(plain);
    let escaped = in_quotes(seq!['\\', c] + t);
    let back = seq!['"', '\\', c];
    assert(escaped =~= back + rest);
    assert(escaped[0] == '"' && escaped[1] == '\\' && escaped[2] == c);
    lemma_string_behind(back, rest, 0, 0, 0);
    lemma_literal(escaped);
    let none = in_quotes(Seq::empty());
    assert(none =~= seq!['"', '"']);
    assert(none[0] == '"' && none[1] == '"');
    lemma_literal(none);
    assert(read_string(none, 0, 1) == Ok::<(Seq<char>, int), ParseError>((Seq::empty(), 2)));
}

/// A source that starts with a quote is one string where its literal ends it.
proof fn lemma_literal(s: Seq<char>)
    requires
        s.len() > 0,
        s[0] == '"',
    ensures
        read_string(s, 0, 1) matches Ok((x, q)) ==> 1 < q <= s.len() && (q == s.len() ==> parse_one(
            s,
        ) == Ok::<SxView, ParseError>(SxView::Atom(AtomView::Str(x)))) && read_form(s, 0) == Ok::<
            (SxView, int),
            ParseError,
        >((SxView::Atom(AtomView::Str(x)), q)),
        read_string(s, 0, 1) matches Err(e) ==> parse_one(s) == Err::<SxView, ParseError>(e),
{
    lemma_read_form(s, 0);
    assert(skip_gaps(s, 0) == 0);
    if let Ok((x, q)) = read_string(s, 0, 1) {
        lemma_string_moves(s, 0, 1);
        if q == s.len() {
            assert(skip_gaps(s, q) == q);
        }
    }
}

proof fn lemma_string_moves(s: Seq<char>, start: int, i: int)
    requires
        0 <= i <= s.len(),
    ensures
        read_string(s, start, i) matches Ok((_, q)) ==> i < q <= s.len() && s[q - 1] == '"',
    decreases s.len() - i,
{
    if i < s.len() && s[i] != '"' {
        if s[i] != '\\' {
            lemma_string_moves(s, start, i + 1);
        } else if i + 1 < s.len() {
            lemma_string_moves(s, start, i + 2);
        }
    }
}

/// A word is an integer where it spells one, else a symbol; a word behind a colon
/// is a keyword; `#t` and `#f` are the booleans.
pub proof fn law_words_are_integers_symbols_or_keywords(s: Seq<char>)
    requires
        is_word(s),
    ensures
        s.len() > 0 && s[0] != '"' && s[0] != '#' && s[0] != ':' ==> parse_one(s) == Ok::<
            SxView,
            ParseError,
        >(
            match parse_int(s) {
                Some(n) => SxView::Atom(AtomView::Int(n)),
                None => SxView::Atom(AtomView::Sym(s)),
            },
        ),
        parse_one(seq![':'] + s) == Ok::<SxView, ParseError>(SxView::Atom(AtomView::Kw(s))),
        parse_one(seq!['#', 't']) == Ok::<SxView, ParseError>(SxView::Atom(AtomView::Bool(true))),
        parse_one(seq!['#', 'f']) == Ok::<SxView, ParseError>(SxView::Atom(AtomView::Bool(false))),
{
    let none = Seq::<char>::empty();
    if s.len() > 0 && s[0] != '"' && s[0] != '#' && s[0] != ':' {
        lemma_word_reads(none, s, none);
        assert(none + s + none =~= s);
    }
    law_a_form_written_down_reads_back(SxView::Atom(AtomView::Kw(s)));
    law_a_form_written_down_reads_back(SxView::Atom(AtomView::Bool(true)));
    law_a_form_written_down_reads_back(SxView::Atom(AtomView::Bool(false)));
    assert(shown(SxView::Atom(AtomView::Bool(true))) =~= seq!['#', 't']);
    assert(shown(SxView::Atom(AtomView::Bool(false))) =~= seq!['#', 'f']);
}

// ---------------------------------------------------------------------
// Faults
// ---------------------------------------------------------------------

proof fn lemma_offset_behind(w: Seq<char>, t: Seq<char>)
    ensures
        offset(w + t, w.len() as int) == encode_utf8(w).len() as usize,
{
    assert((w + t).take(w.len() as int) =~= w);
}

proof fn lemma_after_gap(w: Seq<char>, t: Seq<char>)
    requires
        gap_text(w, 0),
        t.len() > 0 ==> !is_gap(t[0]) && t[0] != ';',
    ensures
        skip_gaps(w + t, 0) == w.len(),
{
    let none = Seq::<char>::empty();
    assert(none + w + t =~= w + t);
    lemma_gap_skipped(none, w, t, 0);
    if t.len() > 0 {
        assert((w + t)[w.len() as int] == t[0]);
    }
}

/// What stands where a form is due and is none is a fault at its byte offset: the
/// end of the source, a closing parenthesis, a lone `#`, and a `#` with another
/// character than `t` and `f` behind it, which the fault names.
pub proof fn law_no_form_is_a_fault_where_it_is_due(w: Seq<char>, c: char, t: Seq<char>)
    requires
        gap_text(w, 0),
    ensures
        parse_one(w) == Err::<SxView, ParseError>(
            ParseError::UnexpectedClose(encode_utf8(w).len() as usize),
        ),
        parse_one(w + (seq![')'] + t)) == Err::<SxView, ParseError>(
            ParseError::UnexpectedClose(encode_utf8(w).len() as usize),
        ),
        read_all(w + (seq![')'] + t), 0) == Err::<Seq<SxView>, ParseError>(
            ParseError::UnexpectedClose(encode_utf8(w).len() as usize),
        ),
        parse_one(w + seq!['#']) == Err::<SxView, ParseError>(
            ParseError::UnexpectedClose(encode_utf8(w).len() as usize),
        ),
        c != 't' && c != 'f' ==> parse_one(w + (seq!['#', c] + t)) == Err::<SxView, ParseError>(
            ParseError::UnexpectedChar(c, encode_utf8(w).len() as usize),
        ),
        c != 't' && c != 'f' ==> read_all(w + (seq!['#', c] + t), 0) == Err::<
            Seq<SxView>,
            ParseError,
        >(ParseError::UnexpectedChar(c, encode_utf8(w).len() as usize)),
{
    let none = Seq::<char>::empty();
    let n = w.len() as int;
    lemma_after_gap(w, none);
    assert(w + none =~= w);
    lemma_offset_behind(w, none);
    let close = seq![')'] + t;
    lemma_after_gap(w, close);
    lemma_offset_behind(w, close);
    assert((w + close)[n] == ')');
    lemma_skip_gaps(w + close, 0);
    let lone = seq!['#'];
    lemma_after_gap(w, lone);
    lemma_offset_behind(w, lone);
    assert((w + lone)[n] == '#');
    let hash = seq!['#', c] + t;
    lemma_after_gap(w, hash);
    lemma_offset_behind(w, hash);
    assert((w + hash)[n] == '#' && (w + hash)[n + 1] == c);
    lemma_skip_gaps(w + hash, 0);
}

proof fn lemma_no_quote(s: Seq<char>, start: int, i: int)
    requires
        0 <= i <= s.len(),
        forall|k: int| i <= k < s.len() ==> #[trigger] s[k] != '"' && s[k] != '\\',
    ensures
        read_string(s, start, i) == Err::<(Seq<char>, int), ParseError>(
            ParseError::UnterminatedString(offset(s, start)),
        ),
    decreases s.len() - i,
{
    if i < s.len() {
        assert(s[i] != '"');
        lemma_no_quote(s, start, i + 1);
    }
}

/// A string that is not closed is a fault at the byte offset of its opening quote,
/// and a list that is not closed one at that of its parenthesis.
pub proof fn law_what_is_not_closed_is_a_fault_where_it_opens(
    w: Seq<char>,
    t: Seq<char>,
    xs: Seq<SxView>,
)
    requires
        gap_text(w, 0),
        !t.contains('"'),
        !t.contains('\\'),
        forall|k: int| 0 <= k < xs.len() ==> can_show(#[trigger] xs[k]),
    ensures
        parse_one(w + (seq!['"'] + t)) == Err::<SxView, ParseError>(
            ParseError::UnterminatedString(encode_utf8(w).len() as usize),
        ),
        parse_one(w + (seq!['('] + shown_from(xs, 0))) == Err::<SxView, ParseError>(
            ParseError::UnclosedList(encode_utf8(w).len() as usize),
        ),
{
    let n = w.len() as int;
    let text = seq!['"'] + t;
    let s = w + text;
    lemma_after_gap(w, text);
    lemma_offset_behind(w, text);
    assert(s[n] == '"');
    assert forall|k: int| n + 1 <= k < s.len() implies #[trigger] s[k] != '"' && s[k] != '\\' by {
        assert(s[k] == t[k - n - 1]);
    }
    lemma_no_quote(s, n, n + 1);
    let list = seq!['('] + shown_from(xs, 0);
    let l = w + list;
    lemma_after_gap(w, list);
    lemma_offset_behind(w, list);
    assert(l[n] == '(');
    let front = w + seq!['('];
    assert(front + shown_from(xs, 0) =~= l);
    lemma_unclosed(front, xs, 0, n);
}

proof fn lemma_unclosed(a: Seq<char>, xs: Seq<SxView>, i: int, start: int)
    requires
        0 <= i <= xs.len(),
        forall|k: int| 0 <= k < xs.len() ==> can_show(#[trigger] xs[k]),
    ensures
        read_items(a + shown_from(xs, i), start, a.len() as int) == Err::<
            (Seq<SxView>, int),
            ParseError,
        >(ParseError::UnclosedList(offset(a + shown_from(xs, i), start))),
    decreases xs.len() - i,
{
    let big = a + shown_from(xs, i);
    let n = a.len() as int;
    if i == xs.len() {
        assert(big =~= a);
        assert(skip_gaps(big, n) == n);
    } else {
        let x = xs[i];
        let gap = if i == 0 {
            Seq::<char>::empty()
        } else {
            seq![' ']
        };
        let front = a + gap;
        let back = shown_from(xs, i + 1);
        assert(closes(back)) by {
            if i + 1 < xs.len() {
                assert(back[0] == ' ');
            }
        }
        lemma_shown_reads(front, x, back);
        assert(big =~= front + shown(x) + back);
        let p = front.len() as int;
        assert(big[p] == shown(x)[0]);
        assert(skip_gaps(big, p) == p);
        assert(skip_gaps(big, n) == p) by {
            if i > 0 {
                assert(big[n] == ' ');
            }
        }
        let next = front + shown(x);
        lemma_unclosed(next, xs, i + 1, start);
        assert(big =~= next + back);
    }
}

/// What is wrong with the form behind the items of a list is what is wrong with the
/// list.
proof fn lemma_fault_behind_items(
    a: Seq<char>,
    xs: Seq<SxView>,
    i: int,
    bad: Seq<char>,
    start: int,
    e: ParseError,
)
    requires
        0 <= i <= xs.len(),
        forall|k: int| 0 <= k < xs.len() ==> can_show(#[trigger] xs[k]),
        bad.len() > 0,
        !is_gap(bad[0]) && bad[0] != ';' && bad[0] != ')',
        read_form(
            a + shown_from(xs, i) + seq![' '] + bad,
            (a.len() + shown_from(xs, i).len() + 1) as int,
        ) == Err::<(SxView, int), ParseError>(e),
    ensures
        read_items(a + shown_from(xs, i) + seq![' '] + bad, start, a.len() as int) == Err::<
            (Seq<SxView>, int),
            ParseError,
        >(e),
    decreases xs.len() - i,
{
    let big = a + shown_from(xs, i) + seq![' '] + bad;
    let n = a.len() as int;
    if i == xs.len() {
        assert(big[n] == ' ' && big[n + 1] == bad[0]);
        assert(skip_gaps(big, n + 1) == n + 1);
        assert(skip_gaps(big, n) == n + 1);
    } else {
        let x = xs[i];
        let gap = if i == 0 {
            Seq::<char>::empty()
        } else {
            seq![' ']
        };
        let front = a + gap;
        let back = shown_from(xs, i + 1) + seq![' '] + bad;
        assert(back[0] == ' ') by {
            if i + 1 < xs.len() {
                assert(shown_from(xs, i + 1)[0] == ' ');
            }
        }
        lemma_shown_reads(front, x, back);
        assert(big =~= front + shown(x) + back);
        let p = front.len() as int;
        assert(big[p] == shown(x)[0]);
        assert(skip_gaps(big, p) == p);
        assert(skip_gaps(big, n) == p) by {
            if i > 0 {
                assert(big[n] == ' ');
            }
        }
        let next = front + shown(x);
        assert(big =~= next + shown_from(xs, i + 1) + seq![' '] + bad);
        assert(next.len() + shown_from(xs, i + 1).len() == a.len() + shown_from(xs, i).len());
        lemma_fault_behind_items(next, xs, i + 1, bad, start, e);
    }
}

/// A fault inside a list is the fault of the list, at its own byte offset: a `#` with
/// another character behind it, a string that is not closed, and a list that is not.
pub proof fn law_a_fault_in_a_list_is_its_fault(
    w: Seq<char>,
    xs: Seq<SxView>,
    c: char,
    t: Seq<char>,
    ys: Seq<SxView>,
)
    requires
        gap_text(w, 0),
        forall|k: int| 0 <= k < xs.len() ==> can_show(#[trigger] xs[k]),
        forall|k: int| 0 <= k < ys.len() ==> can_show(#[trigger] ys[k]),
        c != 't' && c != 'f',
        !t.contains('"'),
        !t.contains('\\'),
    ensures
        ({
            let open = w + seq!['('] + shown_from(xs, 0) + seq![' '];
            let at = encode_utf8(open).len() as usize;
            &&& parse_one(open + (seq!['#', c] + t)) == Err::<SxView, ParseError>(
                ParseError::UnexpectedChar(c, at),
            )
            &&& parse_one(open + (seq!['"'] + t)) == Err::<SxView, ParseError>(
                ParseError::UnterminatedString(at),
            )
            &&& parse_one(open + (seq!['('] + shown_from(ys, 0))) == Err::<SxView, ParseError>(
                ParseError::UnclosedList(at),
            )
        }),
{
    let a = w + seq!['('];
    let open = a + shown_from(xs, 0) + seq![' '];
    let m = open.len() as int;
    let hash = seq!['#', c] + t;
    lemma_offset_behind(open, hash);
    assert((open + hash)[m] == '#' && (open + hash)[m + 1] == c);
    assert(skip_gaps(open + hash, m) == m);
    lemma_list_fault(w, xs, hash, ParseError::UnexpectedChar(c, encode_utf8(open).len() as usize));
    let text = seq!['"'] + t;
    let s = open + text;
    lemma_offset_behind(open, text);
    assert(s[m] == '"');
    assert(skip_gaps(s, m) == m);
    assert forall|k: int| m + 1 <= k < s.len() implies #[trigger] s[k] != '"' && s[k] != '\\' by {
        assert(s[k] == t[k - m - 1]);
    }
    lemma_no_quote(s, m, m + 1);
    lemma_list_fault(w, xs, text, ParseError::UnterminatedString(encode_utf8(open).len() as usize));
    let list = seq!['('] + shown_from(ys, 0);
    let l = open + list;
    lemma_offset_behind(open, list);
    assert(l[m] == '(');
    assert(skip_gaps(l, m) == m);
    assert((open + seq!['(']) + shown_from(ys, 0) =~= l);
    lemma_unclosed(open + seq!['('], ys, 0, m);
    lemma_list_fault(w, xs, list, ParseError::UnclosedList(encode_utf8(open).len() as usize));
}

proof fn lemma_list_fault(w: Seq<char>, xs: Seq<SxView>, bad: Seq<char>, e: ParseError)
    requires
        gap_text(w, 0),
        forall|k: int| 0 <= k < xs.len() ==> can_show(#[trigger] xs[k]),
        bad.len() > 0,
        !is_gap(bad[0]) && bad[0] != ';' && bad[0] != ')',
        read_form(
            w + seq!['('] + shown_from(xs, 0) + seq![' '] + bad,
            (w.len() + 2 + shown_from(xs, 0).len()) as int,
        ) == Err::<(SxView, int), ParseError>(e),
    ensures
        parse_one(w + seq!['('] + shown_from(xs, 0) + seq![' '] + bad) == Err::<SxView, ParseError>(
            e,
        ),
{
    let a = w + seq!['('];
    let rest = seq!['('] + shown_from(xs, 0) + seq![' '] + bad;
    let big = a + shown_from(xs, 0) + seq![' '] + bad;
    let n = w.len() as int;
    assert(big =~= w + rest);
    lemma_after_gap(w, rest);
    assert(big[n] == '(');
    lemma_fault_behind_items(a, xs, 0, bad, n, e);
}

} // verus!
