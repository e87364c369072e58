//! S-expression reader for `.tlisp` sources.
//!
//! The surface is symbols, keywords (`:foo`), strings (`{var}` interpolation
//! belongs to the evaluator), booleans (`#t`/`#f`), integers and lists.
//! Commas are white space, and `;` starts a comment that ends with its line.
use crate::number::{parse_i64, parse_int};
use crate::text::{chars_of, find, find_from, slice_text};
use vstd::prelude::*;
use vstd::utf8::{encode_scalar, encode_utf8};

verus! {

/// An indivisible form.
#[derive(Debug, PartialEq)]
pub enum Atom {
    Sym(String),
    Kw(String),
    Str(String),
    Bool(bool),
    Int(i64),
}

/// A form: an atom, or a list of forms.
#[derive(Debug, PartialEq)]
pub enum Sx {
    Atom(Atom),
    List(Vec<Sx>),
}

impl Clone for Atom {
    fn clone(&self) -> (r: Atom)
        ensures
            r@ == self@,
    {
        match self {
            Atom::Sym(s) => Atom::Sym(s.clone()),
            Atom::Kw(s) => Atom::Kw(s.clone()),
            Atom::Str(s) => Atom::Str(s.clone()),
            Atom::Bool(b) => Atom::Bool(*b),
            Atom::Int(n) => Atom::Int(*n),
        }
    }
}

impl Clone for Sx {
    fn clone(&self) -> (r: Sx)
        ensures
            r@ == self@,
        decreases self,
    {
        broadcast use lemma_list_view;

        match self {
            Sx::Atom(a) => Sx::Atom(a.clone()),
            Sx::List(xs) => {
                let mut out: Vec<Sx> = Vec::new();
                let mut i: usize = 0;
                while i < xs.len()
                    invariant
                        self matches Sx::List(v) && v == xs,
                        i <= xs.len(),
                        sx_views(out@) == sx_views(xs@).take(i as int),
                    decreases xs.len() - i,
                {
                    let ghost before = out@;
                    out.push(xs[i].clone());
                    i += 1;
                    assert(sx_views(out@) =~= sx_views(before).push(sx_views(xs@)[i - 1]));
                }
                assert(sx_views(out@) == sx_views(xs@));
                Sx::List(out)
            },
        }
    }
}

/// What an [`Atom`] stands for.
pub enum AtomView {
    Sym(Seq<char>),
    Kw(Seq<char>),
    Str(Seq<char>),
    Bool(bool),
    Int(i64),
}

/// What an [`Sx`] stands for.
pub enum SxView {
    Atom(AtomView),
    List(Seq<SxView>),
}

impl View for Atom {
    type V = AtomView;

    open spec fn view(&self) -> AtomView {
        match self {
            Atom::Sym(s) => AtomView::Sym(s@),
            Atom::Kw(s) => AtomView::Kw(s@),
            Atom::Str(s) => AtomView::Str(s@),
            Atom::Bool(b) => AtomView::Bool(*b),
            Atom::Int(n) => AtomView::Int(*n),
        }
    }
}

/// The meaning of a form, atom by atom.
pub open spec fn sx_view(x: Sx) -> SxView
    decreases x,
{
    match x {
        Sx::Atom(a) => SxView::Atom(a@),
        Sx::List(xs) => SxView::List(
            Seq::new(
                xs@.len(),
                |i: int|
                    if 0 <= i < xs@.len() {
                        sx_view(xs@[i])
                    } else {
                        arbitrary()
                    },
            ),
        ),
    }
}

impl View for Sx {
    type V = SxView;

    open spec fn view(&self) -> SxView {
        sx_view(*self)
    }
}

/// The meanings of a run of forms.
pub open spec fn sx_views(xs: Seq<Sx>) -> Seq<SxView> {
    xs.map_values(|x: Sx| x@)
}

/// A list stands for the list of what its items stand for.
pub broadcast proof fn lemma_list_view(xs: Vec<Sx>)
    ensures
        #[trigger] sx_view(Sx::List(xs)) == SxView::List(sx_views(xs@)),
{
    assert(sx_view(Sx::List(xs))->List_0 =~= sx_views(xs@));
}

impl SxView {
    /// The items of a list.
    pub open spec fn as_list(self) -> Option<Seq<SxView>> {
        match self {
            SxView::List(xs) => Some(xs),
            _ => None,
        }
    }

    /// The name of a symbol.
    pub open spec fn as_sym(self) -> Option<Seq<char>> {
        match self {
            SxView::Atom(AtomView::Sym(s)) => Some(s),
            _ => None,
        }
    }

    /// The name of a keyword, without its colon.
    pub open spec fn as_kw(self) -> Option<Seq<char>> {
        match self {
            SxView::Atom(AtomView::Kw(s)) => Some(s),
            _ => None,
        }
    }

    /// The contents of a string.
    pub open spec fn as_str(self) -> Option<Seq<char>> {
        match self {
            SxView::Atom(AtomView::Str(s)) => Some(s),
            _ => None,
        }
    }

    /// The value of a boolean.
    pub open spec fn as_bool(self) -> Option<bool> {
        match self {
            SxView::Atom(AtomView::Bool(b)) => Some(b),
            _ => None,
        }
    }

    /// The value of an integer.
    pub open spec fn as_int(self) -> Option<i64> {
        match self {
            SxView::Atom(AtomView::Int(n)) => Some(n),
            _ => None,
        }
    }
}

/// Whether an optional string reads as an optional text.
pub open spec fn same_text(r: Option<&str>, t: Option<Seq<char>>) -> bool {
    match r {
        Some(s) => t == Some(s@),
        None => t is None,
    }
}

impl Sx {
    /// The items of a list, or nothing for an atom.
    pub fn as_list(&self) -> (r: Option<&[Sx]>)
        ensures
            match r {
                Some(xs) => self@.as_list() == Some(sx_views(xs@)),
                None => self@.as_list() is None,
            },
            r matches Some(xs) ==> self matches Sx::List(v) && xs@ == v@,
    {
        broadcast use lemma_list_view;

        match self {
            Sx::List(xs) => Some(xs.as_slice()),
            Sx::Atom(_) => None,
        }
    }

    /// The name of a symbol.
    pub fn as_sym(&self) -> (r: Option<&str>)
        ensures
            same_text(r, self@.as_sym()),
    {
        match self {
            Sx::Atom(Atom::Sym(s)) => Some(s.as_str()),
            _ => None,
        }
    }

    /// The name of a keyword, without its colon.
    pub fn as_kw(&self) -> (r: Option<&str>)
        ensures
            same_text(r, self@.as_kw()),
    {
        match self {
            Sx::Atom(Atom::Kw(s)) => Some(s.as_str()),
            _ => None,
        }
    }

    /// The contents of a string.
    pub fn as_str(&self) -> (r: Option<&str>)
        ensures
            same_text(r, self@.as_str()),
    {
        match self {
            Sx::Atom(Atom::Str(s)) => Some(s.as_str()),
            _ => None,
        }
    }

    /// The value of a boolean.
    pub fn as_bool(&self) -> (r: Option<bool>)
        ensures
            r == self@.as_bool(),
    {
        match self {
            Sx::Atom(Atom::Bool(b)) => Some(*b),
            _ => None,
        }
    }

    /// The value of an integer.
    pub fn as_int(&self) -> (r: Option<i64>)
        ensures
            r == self@.as_int(),
    {
        match self {
            Sx::Atom(Atom::Int(n)) => Some(*n),
            _ => None,
        }
    }
}

/// Why a source does not read. Every position is a byte offset into it.
#[derive(Debug, Clone, Copy, PartialEq, Eq)]
pub enum ParseError {
    /// A `#` literal that is neither `#t` nor `#f`, with the offset of its `#`.
    UnexpectedChar(char, usize),
    /// A string without its closing quote.
    UnterminatedString(usize),
    /// A list without its closing parenthesis.
    UnclosedList(usize),
    /// A form was due, and a closing parenthesis or the end of the source came.
    UnexpectedClose(usize),
    /// More follows the one form that was due.
    MultipleForms(usize),
}

// ---------------------------------------------------------------------
// The grammar
// ---------------------------------------------------------------------

/// The byte offset of character `i`.
pub open spec fn offset(s: Seq<char>, i: int) -> usize {
    encode_utf8(s.take(i)).len() as usize
}

/// Characters that separate forms.
pub open spec fn is_gap(c: char) -> bool {
    c == ' ' || c == '\t' || c == '\n' || c == '\r' || c == ','
}

/// Characters that end a symbol or keyword.
pub open spec fn ends_atom(c: char) -> bool {
    is_gap(c) || c == '(' || c == ')' || c == ';'
}

/// The position after the line that holds `i`.
pub open spec fn line_end(s: Seq<char>, i: int) -> int {
    match find_from(s, '\n', i) {
        Some(j) => j + 1,
        None => s.len() as int,
    }
}

/// The first position at or after `i` outside white space and comments.
pub open spec fn skip_gaps(s: Seq<char>, i: int) -> int
    decreases s.len() - i,
{
    if i < 0 || i >= s.len() {
        i
    } else if is_gap(s[i]) {
        skip_gaps(s, i + 1)
    } else if s[i] == ';' && i < line_end(s, i) <= s.len() {
        skip_gaps(s, line_end(s, i))
    } else {
        i
    }
}

/// The first position at or after `i` where a symbol or keyword ends.
pub open spec fn atom_end(s: Seq<char>, i: int) -> int
    decreases s.len() - i,
{
    if i < 0 || i >= s.len() || ends_atom(s[i]) {
        i
    } else {
        atom_end(s, i + 1)
    }
}

/// What a bare word stands for: an integer where it spells one, else a symbol.
pub open spec fn word(body: Seq<char>) -> AtomView {
    match parse_int(body) {
        Some(n) => AtomView::Int(n),
        None => AtomView::Sym(body),
    }
}

/// The character that a backslash and `c` stand for.
pub open spec fn unescape(c: char) -> char {
    if c == 'n' {
        '\n'
    } else if c == 'r' {
        '\r'
    } else if c == 't' {
        '\t'
    } else {
        c
    }
}

/// Reads the rest of a string that opened at `start`: its contents from `i`
/// on, and the position after its closing quote.
pub open spec fn read_string(s: Seq<char>, start: int, i: int) -> Result<
    (Seq<char>, int),
    ParseError,
>
    decreases s.len() - i,
{
    if i < 0 || i >= s.len() {
        Err(ParseError::UnterminatedString(offset(s, start)))
    } else if s[i] == '"' {
        Ok((Seq::empty(), i + 1))
    } else if s[i] != '\\' {
        match read_string(s, start, i + 1) {
            Ok((rest, q)) => Ok((seq![s[i]] + rest, q)),
            Err(e) => Err(e),
        }
    } else if i + 1 >= s.len() {
        Err(ParseError::UnterminatedString(offset(s, start)))
    } else {
        match read_string(s, start, i + 2) {
            Ok((rest, q)) => Ok((seq![unescape(s[i + 1])] + rest, q)),
            Err(e) => Err(e),
        }
    }
}

/// Reads the form that starts at or after `i`, and the position after it.
pub open spec fn read_form(s: Seq<char>, i: int) -> Result<(SxView, int), ParseError>
    decreases s.len() - i, 0int,
{
    let p = skip_gaps(s, i);
    if i < 0 || p < i || p >= s.len() || s[p] == ')' {
        Err(ParseError::UnexpectedClose(offset(s, p)))
    } else if s[p] == '(' {
        match read_items(s, p, p + 1) {
            Ok((items, q)) => Ok((SxView::List(items), q)),
            Err(e) => Err(e),
        }
    } else if s[p] == '"' {
        match read_string(s, p, p + 1) {
            Ok((body, q)) => Ok((SxView::Atom(AtomView::Str(body)), q)),
            Err(e) => Err(e),
        }
    } else if s[p] == '#' {
        if p + 1 >= s.len() {
            Err(ParseError::UnexpectedClose(offset(s, p)))
        } else if s[p + 1] == 't' {
            Ok((SxView::Atom(AtomView::Bool(true)), p + 2))
        } else if s[p + 1] == 'f' {
            Ok((SxView::Atom(AtomView::Bool(false)), p + 2))
        } else {
            Err(ParseError::UnexpectedChar(s[p + 1], offset(s, p)))
        }
    } else if s[p] == ':' {
        let q = atom_end(s, p + 1);
        Ok((SxView::Atom(AtomView::Kw(s.subrange(p + 1, q))), q))
    } else {
        let q = atom_end(s, p);
        Ok((SxView::Atom(word(s.subrange(p, q))), q))
    }
}

/// Reads the forms from `i` up to the parenthesis that closes the list opened
/// at `start`, and the position after that parenthesis.
pub open spec fn read_items(s: Seq<char>, start: int, i: int) -> Result<
    (Seq<SxView>, int),
    ParseError,
>
    decreases s.len() - i, 1int,
{
    let p = skip_gaps(s, i);
    if i < 0 || p < i || p >= s.len() {
        Err(ParseError::UnclosedList(offset(s, start)))
    } else if s[p] == ')' {
        Ok((Seq::empty(), p + 1))
    } else {
        match read_form(s, p) {
            Err(e) => Err(e),
            Ok((x, q)) => if p < q <= s.len() {
                match read_items(s, start, q) {
                    Ok((rest, r)) => Ok((seq![x] + rest, r)),
                    Err(e) => Err(e),
                }
            } else {
                arbitrary()
            },
        }
    }
}

/// Reads every form from `i` to the end of the source.
pub open spec fn read_all(s: Seq<char>, i: int) -> Result<Seq<SxView>, ParseError>
    decreases s.len() - i,
{
    let p = skip_gaps(s, i);
    if i < 0 || p < i || p >= s.len() {
        Ok(Seq::empty())
    } else {
        match read_form(s, p) {
            Err(e) => Err(e),
            Ok((x, q)) => if p < q <= s.len() {
                match read_all(s, q) {
                    Ok(rest) => Ok(seq![x] + rest),
                    Err(e) => Err(e),
                }
            } else {
                arbitrary()
            },
        }
    }
}

/// The one form of a source.
pub open spec fn parse_one(s: Seq<char>) -> Result<SxView, ParseError> {
    match read_form(s, 0) {
        Err(e) => Err(e),
        Ok((x, q)) => {
            let p = skip_gaps(s, q);
            if p < s.len() {
                Err(ParseError::MultipleForms(offset(s, p)))
            } else {
                Ok(x)
            }
        },
    }
}

// ---------------------------------------------------------------------
// Positions
// ---------------------------------------------------------------------

/// A gap ends within the source, in front of a form or at the end, and what
/// was skipped once is not skipped again.
pub proof fn lemma_skip_gaps(s: Seq<char>, i: int)
    requires
        0 <= i <= s.len(),
    ensures
        i <= skip_gaps(s, i) <= s.len(),
        skip_gaps(s, i) < s.len() ==> !is_gap(s[skip_gaps(s, i)]) && s[skip_gaps(s, i)] != ';',
        skip_gaps(s, skip_gaps(s, i)) == skip_gaps(s, i),
    decreases s.len() - i,
{
    if i < s.len() {
        crate::text::lemma_find_from(s, '\n', i);
        if is_gap(s[i]) {
            lemma_skip_gaps(s, i + 1);
        } else if s[i] == ';' {
            lemma_skip_gaps(s, line_end(s, i));
        }
    }
}

proof fn lemma_atom_end(s: Seq<char>, i: int)
    requires
        0 <= i <= s.len(),
    ensures
        i <= atom_end(s, i) <= s.len(),
        i < s.len() && !ends_atom(s[i]) ==> i < atom_end(s, i),
    decreases s.len() - i,
{
    if i < s.len() && !ends_atom(s[i]) {
        lemma_atom_end(s, i + 1);
    }
}

proof fn lemma_read_string(s: Seq<char>, start: int, i: int)
    requires
        0 <= i <= s.len(),
    ensures
        read_string(s, start, i) matches Ok((_, q)) ==> i < q <= s.len(),
    decreases s.len() - i,
{
    if i < s.len() && s[i] != '"' {
        if s[i] != '\\' {
            lemma_read_string(s, start, i + 1);
        } else if i + 1 < s.len() {
            lemma_read_string(s, start, i + 2);
        }
    }
}

/// A form that reads is not empty, and ends within the source.
pub proof fn lemma_read_form(s: Seq<char>, i: int)
    requires
        0 <= i <= s.len(),
    ensures
        read_form(s, i) matches Ok((_, q)) ==> skip_gaps(s, i) < q <= s.len(),
    decreases s.len() - i, 0int,
{
    lemma_skip_gaps(s, i);
    let p = skip_gaps(s, i);
    if p < s.len() && s[p] != ')' {
        if s[p] == '(' {
            lemma_read_items(s, p, p + 1);
        } else if s[p] == '"' {
            lemma_read_string(s, p, p + 1);
        } else if s[p] == ':' {
            lemma_atom_end(s, p + 1);
        } else {
            lemma_atom_end(s, p);
        }
    }
}

proof fn lemma_read_items(s: Seq<char>, start: int, i: int)
    requires
        0 <= i <= s.len(),
    ensures
        read_items(s, start, i) matches Ok((_, q)) ==> i < q <= s.len(),
    decreases s.len() - i, 1int,
{
    lemma_skip_gaps(s, i);
    let p = skip_gaps(s, i);
    if p < s.len() && s[p] != ')' {
        lemma_read_form(s, p);
        if let Ok((_, q)) = read_form(s, p) {
            lemma_read_items(s, start, q);
        }
    }
}

/// Byte offsets are additive: one more character adds its own encoding.
pub proof fn lemma_offset_step(s: Seq<char>, i: int)
    requires
        0 <= i < s.len(),
    ensures
        encode_utf8(s.take(i + 1)).len() == encode_utf8(s.take(i)).len() + encode_scalar(
            s[i] as u32,
        ).len(),
    decreases i,
{
    let a = s.take(i + 1);
    let b = s.take(i);
    if i == 0 {
        assert(a.drop_first() =~= Seq::empty());
        assert(b =~= Seq::empty());
    } else {
        let t = s.drop_first();
        lemma_offset_step(t, i - 1);
        assert(a.drop_first() =~= t.take(i));
        assert(b.drop_first() =~= t.take(i - 1));
    }
}

/// The byte offset of a position never exceeds the length of the source.
pub proof fn lemma_offset_bound(s: Seq<char>, i: int)
    requires
        0 <= i <= s.len(),
    ensures
        encode_utf8(s.take(i)).len() <= encode_utf8(s).len(),
    decreases s.len() - i,
{
    if i < s.len() {
        lemma_offset_step(s, i);
        lemma_offset_bound(s, i + 1);
    } else {
        assert(s.take(i) =~= s);
    }
}

// ---------------------------------------------------------------------
// The reader
// ---------------------------------------------------------------------

/// A string read so far, and what the rest of it gives.
spec fn string_after(
    read: Seq<char>,
    rest: Result<(Seq<char>, int), ParseError>,
) -> Result<(Seq<char>, int), ParseError> {
    match rest {
        Ok((more, q)) => Ok((read + more, q)),
        Err(e) => Err(e),
    }
}

/// A list read so far, and what the rest of it gives.
spec fn items_after(
    read: Seq<SxView>,
    rest: Result<(Seq<SxView>, int), ParseError>,
) -> Result<(Seq<SxView>, int), ParseError> {
    match rest {
        Ok((more, q)) => Ok((read + more, q)),
        Err(e) => Err(e),
    }
}

/// The forms read so far, and what the rest of the source gives.
spec fn forms_after(
    read: Seq<SxView>,
    rest: Result<Seq<SxView>, ParseError>,
) -> Result<Seq<SxView>, ParseError> {
    match rest {
        Ok(more) => Ok(read + more),
        Err(e) => Err(e),
    }
}

/// Whether a reading step gave what the grammar gives from a position on.
spec fn reads(
    r: Result<Sx, ParseError>,
    end: int,
    want: Result<(SxView, int), ParseError>,
) -> bool {
    match r {
        Ok(x) => want == Ok::<(SxView, int), ParseError>((x@, end)),
        Err(e) => want == Err::<(SxView, int), ParseError>(e),
    }
}

/// How many bytes UTF-8 takes for a character.
fn utf8_width(c: char) -> (r: usize)
    ensures
        r == encode_scalar(c as u32).len(),
{
    if c <= '\u{7f}' {
        1
    } else if c <= '\u{7ff}' {
        2
    } else if c <= '\u{ffff}' {
        3
    } else {
        4
    }
}

/// A source, and how far it has been read.
struct Parser {
    src: Vec<char>,
    pos: usize,
}

impl Parser {
    /// The position lies in the source, and byte offsets into it fit a `usize`.
    spec fn wf(&self) -> bool {
        &&& self.pos <= self.src@.len()
        &&& encode_utf8(self.src@).len() <= usize::MAX
    }

    fn new(src: &str) -> (r: Parser)
        ensures
            r.wf(),
            r.src@ == src@,
            r.pos == 0,
    {
        // The bytes of a string fit in memory, so offsets into it fit a `usize`.
        let _bytes: usize = src.as_bytes().len();
        Parser { src: chars_of(src), pos: 0 }
    }

    /// The byte offset of a character.
    fn offset_of(&self, at: usize) -> (r: usize)
        requires
            self.wf(),
            at <= self.src@.len(),
        ensures
            r == offset(self.src@, at as int),
    {
        let mut n: usize = 0;
        let mut i: usize = 0;
        assert(self.src@.take(0) =~= Seq::empty());
        while i < at
            invariant
                self.wf(),
                i <= at <= self.src@.len(),
                n == encode_utf8(self.src@.take(i as int)).len(),
            decreases at - i,
        {
            proof {
                lemma_offset_step(self.src@, i as int);
                lemma_offset_bound(self.src@, i + 1);
            }
            n += utf8_width(self.src[i]);
            i += 1;
        }
        n
    }

    fn peek(&self) -> (r: Option<char>)
        requires
            self.wf(),
        ensures
            r == (if self.pos < self.src@.len() {
                Some(self.src@[self.pos as int])
            } else {
                None
            }),
    {
        if self.pos < self.src.len() {
            Some(self.src[self.pos])
        } else {
            None
        }
    }

    fn bump(&mut self) -> (r: Option<char>)
        requires
            old(self).wf(),
        ensures
            final(self).wf(),
            final(self).src == old(self).src,
            old(self).pos < old(self).src@.len() ==> r == Some(old(self).src@[old(self).pos as int])
                && final(self).pos == old(self).pos + 1,
            old(self).pos == old(self).src@.len() ==> r is None && final(self).pos == old(self).pos,
    {
        let c = self.peek();
        if self.pos < self.src.len() {
            self.pos += 1;
        }
        c
    }

    fn skip(&mut self)
        requires
            old(self).wf(),
        ensures
            final(self).wf(),
            final(self).src == old(self).src,
            final(self).pos == skip_gaps(old(self).src@, old(self).pos as int),
    {
        let ghost first = self.pos as int;
        while self.pos < self.src.len()
            invariant_except_break
                skip_gaps(self.src@, self.pos as int) == skip_gaps(self.src@, first),
            invariant
                self.wf(),
                self.src == old(self).src,
            ensures
                self.pos == skip_gaps(self.src@, first),
            decreases self.src@.len() - self.pos,
        {
            let c: char = self.src[self.pos];
            if c == ' ' || c == '\t' || c == '\n' || c == '\r' || c == ',' {
                self.pos += 1;
            } else if c == ';' {
                proof {
                    crate::text::lemma_find_from(self.src@, '\n', self.pos as int);
                }
                match find(self.src.as_slice(), '\n', self.pos) {
                    Some(j) => {
                        self.pos = j + 1;
                    },
                    None => {
                        self.pos = self.src.len();
                    },
                }
            } else {
                break;
            }
        }
    }

    fn read_one(&mut self) -> (r: Result<Sx, ParseError>)
        requires
            old(self).wf(),
        ensures
            final(self).wf(),
            final(self).src == old(self).src,
            reads(r, final(self).pos as int, read_form(old(self).src@, old(self).pos as int)),
        decreases old(self).src@.len() - old(self).pos, 0int,
    {
        let ghost s = self.src@;
        let ghost i = self.pos as int;
        self.skip();
        proof {
            lemma_skip_gaps(s, i);
        }
        let start: usize = self.pos;
        match self.peek() {
            None => Err(ParseError::UnexpectedClose(self.offset_of(start))),
            Some(c) => {
                if c == '(' {
                    self.read_list()
                } else if c == ')' {
                    Err(ParseError::UnexpectedClose(self.offset_of(start)))
                } else if c == '"' {
                    self.read_string()
                } else if c == '#' {
                    self.read_hash_lit()
                } else if c == ':' {
                    self.read_keyword()
                } else {
                    self.read_symbol()
                }
            },
        }
    }

    fn read_list(&mut self) -> (r: Result<Sx, ParseError>)
        requires
            old(self).wf(),
            old(self).pos < old(self).src@.len(),
        ensures
            final(self).wf(),
            final(self).src == old(self).src,
            match r {
                Ok(x) => x@ matches SxView::List(items) && read_items(
                    old(self).src@,
                    old(self).pos as int,
                    old(self).pos + 1,
                ) == Ok::<(Seq<SxView>, int), ParseError>((items, final(self).pos as int)),
                Err(e) => read_items(old(self).src@, old(self).pos as int, old(self).pos + 1)
                    == Err::<(Seq<SxView>, int), ParseError>(e),
            },
        decreases old(self).src@.len() - old(self).pos - 1, 1int,
    {
        broadcast use lemma_list_view;

        let start: usize = self.pos;
        let ghost s = self.src@;
        let ghost want = read_items(s, start as int, start + 1);
        self.bump();
        let mut out: Vec<Sx> = Vec::new();
        assert(items_after(sx_views(out@), want) == want) by {
            if let Ok((items, _)) = want {
                assert(sx_views(out@) + items =~= items);
            }
        }
        loop
            invariant
                self.wf(),
                self.src@ == s,
                self.src == old(self).src,
                start == old(self).pos,
                s == old(self).src@,
                start < self.pos,
                start < s.len(),
                want == read_items(s, start as int, start + 1),
                want == items_after(
                    sx_views(out@),
                    read_items(s, start as int, self.pos as int),
                ),
            decreases s.len() - self.pos,
        {
            let ghost i = self.pos as int;
            self.skip();
            proof {
                lemma_skip_gaps(s, i);
            }
            let ghost p = self.pos as int;
            match self.peek() {
                None => {
                    return Err(ParseError::UnclosedList(self.offset_of(start)));
                },
                Some(c) => {
                    if c == ')' {
                        self.bump();
                        proof {
                            lemma_list_view(out);
                            assert(sx_views(out@) + Seq::<SxView>::empty() =~= sx_views(out@));
                        }
                        return Ok(Sx::List(out));
                    }
                    proof {
                        lemma_read_form(s, p);
                    }
                    match self.read_one() {
                        Err(e) => {
                            return Err(e);
                        },
                        Ok(x) => {
                            let ghost before = sx_views(out@);
                            let ghost v = x@;
                            out.push(x);
                            proof {
                                assert(sx_views(out@) =~= before.push(v));
                                let rest = read_items(s, start as int, self.pos as int);
                                if let Ok((more, _)) = rest {
                                    assert(before + (seq![v] + more) =~= before.push(v) + more);
                                }
                            }
                        },
                    }
                },
            }
        }
    }

    fn read_string(&mut self) -> (r: Result<Sx, ParseError>)
        requires
            old(self).wf(),
            old(self).pos < old(self).src@.len(),
        ensures
            final(self).wf(),
            final(self).src == old(self).src,
            match r {
                Ok(x) => x@ matches SxView::Atom(AtomView::Str(body)) && read_string(
                    old(self).src@,
                    old(self).pos as int,
                    old(self).pos + 1,
                ) == Ok::<(Seq<char>, int), ParseError>((body, final(self).pos as int)),
                Err(e) => read_string(old(self).src@, old(self).pos as int, old(self).pos + 1)
                    == Err::<(Seq<char>, int), ParseError>(e),
            },
    {
        let start: usize = self.pos;
        let ghost s = self.src@;
        let ghost want = read_string(s, start as int, start + 1);
        self.bump();
        let mut out = String::new();
        assert(string_after(out@, want) == want) by {
            if let Ok((body, _)) = want {
                assert(out@ + body =~= body);
            }
        }
        while self.pos < self.src.len()
            invariant
                self.wf(),
                self.src@ == s,
                self.src == old(self).src,
                start == old(self).pos,
                s == old(self).src@,
                start < s.len(),
                want == read_string(s, start as int, start + 1),
                want == string_after(out@, read_string(s, start as int, self.pos as int)),
            decreases s.len() - self.pos,
        {
            let ghost before = out@;
            let c: char = self.src[self.pos];
            self.bump();
            if c == '"' {
                assert(before + Seq::<char>::empty() =~= before);
                return Ok(Sx::Atom(Atom::Str(out)));
            }
            let d: char = if c == '\\' {
                match self.bump() {
                    None => {
                        return Err(ParseError::UnterminatedString(self.offset_of(start)));
                    },
                    Some('n') => '\n',
                    Some('r') => '\r',
                    Some('t') => '\t',
                    Some(other) => other,
                }
            } else {
                c
            };
            out.push(d);
            proof {
                if let Ok((more, _)) = read_string(s, start as int, self.pos as int) {
                    assert(before + (seq![d] + more) =~= before.push(d) + more);
                }
            }
        }
        Err(ParseError::UnterminatedString(self.offset_of(start)))
    }

    fn read_hash_lit(&mut self) -> (r: Result<Sx, ParseError>)
        requires
            old(self).wf(),
            old(self).pos < old(self).src@.len(),
            old(self).src@[old(self).pos as int] == '#',
        ensures
            final(self).wf(),
            final(self).src == old(self).src,
            reads(r, final(self).pos as int, read_form(old(self).src@, old(self).pos as int)),
    {
        let start: usize = self.pos;
        self.bump();
        match self.bump() {
            Some('t') => Ok(Sx::Atom(Atom::Bool(true))),
            Some('f') => Ok(Sx::Atom(Atom::Bool(false))),
            Some(c) => Err(ParseError::UnexpectedChar(c, self.offset_of(start))),
            None => Err(ParseError::UnexpectedClose(self.offset_of(start))),
        }
    }

    fn read_keyword(&mut self) -> (r: Result<Sx, ParseError>)
        requires
            old(self).wf(),
            old(self).pos < old(self).src@.len(),
            old(self).src@[old(self).pos as int] == ':',
        ensures
            final(self).wf(),
            final(self).src == old(self).src,
            reads(r, final(self).pos as int, read_form(old(self).src@, old(self).pos as int)),
    {
        self.bump();
        let body = self.read_atom_body();
        Ok(Sx::Atom(Atom::Kw(body)))
    }

    fn read_symbol(&mut self) -> (r: Result<Sx, ParseError>)
        requires
            old(self).wf(),
            old(self).pos < old(self).src@.len(),
        ensures
            final(self).wf(),
            final(self).src == old(self).src,
            final(self).pos == atom_end(old(self).src@, old(self).pos as int),
            r matches Ok(x) && x@ == SxView::Atom(
                word(old(self).src@.subrange(old(self).pos as int, final(self).pos as int)),
            ),
    {
        let body = self.read_atom_body();
        match parse_i64(chars_of(body.as_str()).as_slice()) {
            Some(n) => Ok(Sx::Atom(Atom::Int(n))),
            None => Ok(Sx::Atom(Atom::Sym(body))),
        }
    }

    fn read_atom_body(&mut self) -> (r: String)
        requires
            old(self).wf(),
        ensures
            final(self).wf(),
            final(self).src == old(self).src,
            final(self).pos == atom_end(old(self).src@, old(self).pos as int),
            r@ == old(self).src@.subrange(old(self).pos as int, final(self).pos as int),
    {
        let start: usize = self.pos;
        while self.pos < self.src.len()
            invariant_except_break
                atom_end(self.src@, self.pos as int) == atom_end(self.src@, start as int),
            invariant
                self.wf(),
                self.src == old(self).src,
                start <= self.pos,
            ensures
                self.pos == atom_end(self.src@, start as int),
            decreases self.src@.len() - self.pos,
        {
            let c: char = self.src[self.pos];
            if c == ' ' || c == '\t' || c == '\n' || c == '\r' || c == '(' || c == ')' || c == ';'
                || c == ',' {
                break;
            }
            self.pos += 1;
        }
        slice_text(self.src.as_slice(), start, self.pos)
    }
}

/// Reads the one form of a source.
pub fn parse(src: &str) -> (r: Result<Sx, ParseError>)
    ensures
        match r {
            Ok(x) => parse_one(src@) == Ok::<SxView, ParseError>(x@),
            Err(e) => parse_one(src@) == Err::<SxView, ParseError>(e),
        },
{
    let mut p = Parser::new(src);
    proof {
        lemma_read_form(src@, 0);
    }
    let form = p.read_one()?;
    let ghost q = p.pos as int;
    p.skip();
    proof {
        lemma_skip_gaps(src@, q);
    }
    if p.pos < p.src.len() {
        return Err(ParseError::MultipleForms(p.offset_of(p.pos)));
    }
    Ok(form)
}

/// Reads every form of a source, in order.
pub fn parse_all(src: &str) -> (r: Result<Vec<Sx>, ParseError>)
    ensures
        match r {
            Ok(xs) => read_all(src@, 0) == Ok::<Seq<SxView>, ParseError>(sx_views(xs@)),
            Err(e) => read_all(src@, 0) == Err::<Seq<SxView>, ParseError>(e),
        },
{
    let mut p = Parser::new(src);
    let ghost want = read_all(src@, 0);
    let mut out: Vec<Sx> = Vec::new();
    assert(forms_after(sx_views(out@), want) == want) by {
        if let Ok(forms) = want {
            assert(sx_views(out@) + forms =~= forms);
        }
    }
    loop
        invariant
            p.wf(),
            p.src@ == src@,
            want == read_all(src@, 0),
            want == forms_after(sx_views(out@), read_all(src@, p.pos as int)),
        decreases src@.len() - p.pos,
    {
        let ghost i = p.pos as int;
        p.skip();
        proof {
            lemma_skip_gaps(src@, i);
            lemma_read_form(src@, p.pos as int);
        }
        if p.pos >= p.src.len() {
            assert(sx_views(out@) + Seq::<SxView>::empty() =~= sx_views(out@));
            return Ok(out);
        }
        match p.read_one() {
            Err(e) => {
                return Err(e);
            },
            Ok(x) => {
                let ghost before = sx_views(out@);
                let ghost v = x@;
                out.push(x);
                proof {
                    assert(sx_views(out@) =~= before.push(v));
                    if let Ok(more) = read_all(src@, p.pos as int) {
                        assert(before + (seq![v] + more) =~= before.push(v) + more);
                    }
                }
            },
        }
    }
}

// ---------------------------------------------------------------------
// Laws
// ---------------------------------------------------------------------

/// White space, commas and comments in front of a form, of the items of a
/// list or of the rest of a source change nothing in what is read.
pub proof fn law_gaps_are_skipped(s: Seq<char>, start: int, i: int)
    requires
        0 <= i < s.len(),
    ensures
        is_gap(s[i]) ==> read_form(s, i) == read_form(s, i + 1) && read_items(s, start, i)
            == read_items(s, start, i + 1) && read_all(s, i) == read_all(s, i + 1),
        s[i] == ';' ==> i < line_end(s, i) <= s.len() && read_form(s, i) == read_form(
            s,
            line_end(s, i),
        ) && read_items(s, start, i) == read_items(s, start, line_end(s, i)) && read_all(s, i)
            == read_all(s, line_end(s, i)),
{
    crate::text::lemma_find_from(s, '\n', i);
    lemma_skip_gaps(s, i);
    lemma_skip_gaps(s, i + 1);
    lemma_skip_gaps(s, line_end(s, i));
}

/// A form read after the gap in front of it is the form read with it.
proof fn lemma_read_form_skipped(s: Seq<char>, i: int)
    requires
        0 <= i <= s.len(),
    ensures
        read_form(s, skip_gaps(s, i)) == read_form(s, i),
{
    lemma_skip_gaps(s, i);
}

/// A source reads as one form exactly where reading all of its forms gives a
/// list with just that form.
pub proof fn law_one_form_is_all_forms(s: Seq<char>, x: SxView)
    ensures
        parse_one(s) == Ok::<SxView, ParseError>(x) <==> read_all(s, 0) == Ok::<
            Seq<SxView>,
            ParseError,
        >(seq![x]),
{
    lemma_skip_gaps(s, 0);
    lemma_read_form(s, 0);
    lemma_read_form_skipped(s, 0);
    if let Ok((y, q)) = read_form(s, 0) {
        lemma_skip_gaps(s, q);
        lemma_read_form(s, skip_gaps(s, q));
        assert(skip_gaps(s, 0) < s.len());
        if skip_gaps(s, q) < s.len() {
            if let Ok(rest) = read_all(s, q) {
                assert(rest.len() > 0);
                assert((seq![y] + rest).len() != seq![x].len());
            }
        } else {
            assert(read_all(s, q) == Ok::<Seq<SxView>, ParseError>(Seq::empty()));
            assert(seq![y] + Seq::<SxView>::empty() =~= seq![y]);
            assert(seq![y][0] == y && seq![x][0] == x);
        }
    } else if skip_gaps(s, 0) >= s.len() {
        assert(read_all(s, 0)->Ok_0.len() == 0);
    }
}

/// The offset that an error carries.
pub open spec fn error_offset(e: ParseError) -> usize {
    match e {
        ParseError::UnexpectedChar(_, at) => at,
        ParseError::UnterminatedString(at) => at,
        ParseError::UnclosedList(at) => at,
        ParseError::UnexpectedClose(at) => at,
        ParseError::MultipleForms(at) => at,
    }
}

/// Whether an error points into the source, or at its end.
pub open spec fn points_into(e: ParseError, s: Seq<char>) -> bool {
    exists|i: int| 0 <= i <= s.len() && error_offset(e) == #[trigger] offset(s, i)
}

proof fn lemma_string_error(s: Seq<char>, start: int, i: int)
    requires
        0 <= start <= i <= s.len(),
    ensures
        read_string(s, start, i) matches Err(e) ==> points_into(e, s),
    decreases s.len() - i,
{
    assert(offset(s, start) == offset(s, start));
    if i < s.len() && s[i] != '"' {
        if s[i] != '\\' {
            lemma_string_error(s, start, i + 1);
        } else if i + 1 < s.len() {
            lemma_string_error(s, start, i + 2);
        }
    }
}

proof fn lemma_form_error(s: Seq<char>, i: int)
    requires
        0 <= i <= s.len(),
    ensures
        read_form(s, i) matches Err(e) ==> points_into(e, s),
    decreases s.len() - i, 0int,
{
    lemma_skip_gaps(s, i);
    let p = skip_gaps(s, i);
    assert(offset(s, p) == offset(s, p));
    if p < s.len() && s[p] == '(' {
        lemma_items_error(s, p, p + 1);
    } else if p < s.len() && s[p] == '"' {
        lemma_string_error(s, p, p + 1);
    }
}

proof fn lemma_items_error(s: Seq<char>, start: int, i: int)
    requires
        0 <= start <= i <= s.len(),
    ensures
        read_items(s, start, i) matches Err(e) ==> points_into(e, s),
    decreases s.len() - i, 1int,
{
    lemma_skip_gaps(s, i);
    let p = skip_gaps(s, i);
    assert(offset(s, start) == offset(s, start));
    if p < s.len() && s[p] != ')' {
        lemma_form_error(s, p);
        lemma_read_form(s, p);
        if let Ok((_, q)) = read_form(s, p) {
            lemma_items_error(s, start, q);
        }
    }
}

proof fn lemma_all_error(s: Seq<char>, i: int)
    requires
        0 <= i <= s.len(),
    ensures
        read_all(s, i) matches Err(e) ==> points_into(e, s),
    decreases s.len() - i,
{
    lemma_skip_gaps(s, i);
    let p = skip_gaps(s, i);
    if p < s.len() {
        lemma_form_error(s, p);
        lemma_read_form(s, p);
        if let Ok((_, q)) = read_form(s, p) {
            lemma_all_error(s, q);
        }
    }
}

/// Every error of the reader carries the byte offset of a character of the
/// source, or of its end.
pub proof fn law_errors_point_into_the_source(s: Seq<char>)
    ensures
        parse_one(s) matches Err(e) ==> points_into(e, s),
        read_all(s, 0) matches Err(e) ==> points_into(e, s),
{
    lemma_form_error(s, 0);
    lemma_all_error(s, 0);
    lemma_read_form(s, 0);
    if let Ok((_, q)) = read_form(s, 0) {
        lemma_skip_gaps(s, q);
        assert(offset(s, skip_gaps(s, q)) == offset(s, skip_gaps(s, q)));
    }
}

/// Forms are separated by spaces, tabs, line breaks and commas and by nothing else;
/// those, parentheses and the semicolon end a word, and nothing else does.
pub proof fn law_separators_are_these(c: char)
    ensures
        is_gap(c) <==> (c == ' ' || c == '\t' || c == '\n' || c == '\r' || c == ','),
        ends_atom(c) <==> (c == ' ' || c == '\t' || c == '\n' || c == '\r' || c == ',' || c == '('
            || c == ')' || c == ';'),
{
}

/// A comment runs from its semicolon to the end of its line, or of the source.
pub proof fn law_a_comment_ends_with_its_line(a: Seq<char>, t: Seq<char>, b: Seq<char>)
    requires
        !t.contains('\n'),
    ensures
        skip_gaps(a + (seq![';'] + t), a.len() as int) == a.len() + 1 + t.len(),
        skip_gaps(a + (seq![';'] + t + seq!['\n'] + b), a.len() as int) == skip_gaps(
            a + (seq![';'] + t + seq!['\n'] + b),
            (a.len() + t.len() + 2) as int,
        ),
{
    let n = a.len() as int;
    let open = a + (seq![';'] + t);
    crate::text::lemma_find_from(open, '\n', n);
    assert(open[n] == ';');
    if let Some(j) = find_from(open, '\n', n) {
        assert(open[j] == t[j - n - 1]);
        assert(t.contains('\n'));
    }
    assert(line_end(open, n) == open.len());
    assert(skip_gaps(open, open.len() as int) == open.len());
    let line = a + (seq![';'] + t + seq!['\n'] + b);
    crate::text::lemma_find_from(line, '\n', n);
    assert(line[n] == ';');
    assert(line[n + 1 + t.len()] == '\n');
    if let Some(j) = find_from(line, '\n', n) {
        if j < n + 1 + t.len() {
            assert(line[j] == t[j - n - 1]);
            assert(t.contains('\n'));
        }
    }
}

} // verus!
