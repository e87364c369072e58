//! Variable bindings, and the template strings that read them.
use crate::error::{EvalError, EvalErrorView};
use crate::number::{
    decimal, i64_text, int_text, is_digit, law_integer_text_reads_back, lemma_decimal_value,
    parse_i64, parse_int,
};
use crate::sexpr::{Atom, AtomView, Sx, SxView};
use crate::sortedmap::SortedMap;
use crate::text::{
    chars_of, contains, find, find_before, find_from, has_char, is_white, lemma_find_before,
    lemma_find_from, replace, replaced, rfind, same, text_of, trim, trimmed,
};
use vstd::prelude::*;
use vstd::slice::slice_subrange;

verus! {

// ---------------------------------------------------------------------
// Bindings
// ---------------------------------------------------------------------

/// What the names in a form are bound to.
pub struct Env {
    /// Strings.
    pub scalars: SortedMap<String>,
    /// Lists of strings.
    pub lists: SortedMap<Vec<String>>,
    /// The loop variables of the `for-each` forms around.
    pub loop_scalars: SortedMap<String>,
}

/// What an [`Env`] stands for.
#[verifier::ext_equal]
pub struct EnvView {
    pub scalars: Map<Seq<char>, Seq<char>>,
    pub lists: Map<Seq<char>, Seq<Seq<char>>>,
    pub loop_scalars: Map<Seq<char>, Seq<char>>,
}

impl View for Env {
    type V = EnvView;

    open spec fn view(&self) -> EnvView {
        EnvView {
            scalars: self.scalars@,
            lists: self.lists@,
            loop_scalars: self.loop_scalars@,
        }
    }
}

impl EnvView {
    /// No bindings.
    pub open spec fn empty() -> EnvView {
        EnvView { scalars: Map::empty(), lists: Map::empty(), loop_scalars: Map::empty() }
    }

    /// The string that a name is bound to: a loop variable before an input.
    pub open spec fn get(self, key: Seq<char>) -> Option<Seq<char>> {
        if self.loop_scalars.dom().contains(key) {
            Some(self.loop_scalars[key])
        } else if self.scalars.dom().contains(key) {
            Some(self.scalars[key])
        } else {
            None
        }
    }

    /// The list that a name is bound to.
    pub open spec fn list(self, key: Seq<char>) -> Option<Seq<Seq<char>>> {
        if self.lists.dom().contains(key) {
            Some(self.lists[key])
        } else {
            None
        }
    }

    /// The bindings with one more loop variable.
    pub open spec fn with_loop(self, key: Seq<char>, value: Seq<char>) -> EnvView {
        EnvView { loop_scalars: self.loop_scalars.insert(key, value), ..self }
    }
}

impl Env {
    /// No bindings.
    pub fn new() -> (r: Env)
        ensures
            r@ == EnvView::empty(),
    {
        Env { scalars: SortedMap::new(), lists: SortedMap::new(), loop_scalars: SortedMap::new() }
    }

    /// The string that a name is bound to. A loop variable wins over an input.
    pub fn get(&self, key: &str) -> (r: Result<String, EvalError>)
        ensures
            match r {
                Ok(s) => self@.get(key@) == Some(s@),
                Err(e) => self@.get(key@) is None && e@ == EvalErrorView::UnknownVar(key@),
            },
    {
        if let Some(s) = self.loop_scalars.get(key) {
            return Ok(s.clone());
        }
        if let Some(s) = self.scalars.get(key) {
            return Ok(s.clone());
        }
        Err(EvalError::UnknownVar(key.to_owned()))
    }

    /// The bindings with the two variables of a loop set.
    pub fn scoped(
        &self,
        first: &str,
        first_value: String,
        second: &str,
        second_value: String,
    ) -> (r: Env)
        ensures
            r@ == self@.with_loop(first@, first_value@).with_loop(second@, second_value@),
    {
        let mut loop_scalars = self.loop_scalars.clone();
        loop_scalars.insert(first.to_owned(), first_value);
        loop_scalars.insert(second.to_owned(), second_value);
        Env { scalars: self.scalars.clone(), lists: self.lists.clone(), loop_scalars }
    }
}

// ---------------------------------------------------------------------
// Template expressions
// ---------------------------------------------------------------------

/// `var + N`: the integer that `var` is bound to, plus an integer literal.
pub open spec fn sum_text(var: Seq<char>, off: Seq<char>, env: EnvView) -> Result<
    Seq<char>,
    EvalErrorView,
> {
    match parse_int(off) {
        None => Err(EvalErrorView::Type("int"@)),
        Some(n) => match env.get(var) {
            None => Err(EvalErrorView::UnknownVar(var)),
            Some(s) => match parse_int(s) {
                None => Err(EvalErrorView::Type("int var"@)),
                Some(v) => Ok(int_text(v.wrapping_add(n) as int)),
            },
        },
    }
}

/// `var - N`, where `var` is bound to an integer and `N` is an integer literal.
pub open spec fn difference_text(var: Seq<char>, off: Seq<char>, env: EnvView) -> Option<
    Seq<char>,
> {
    match (parse_int(off), env.get(var)) {
        (Some(n), Some(s)) => match parse_int(s) {
            Some(v) => Some(int_text(v.wrapping_sub(n) as int)),
            None => None,
        },
        _ => None,
    }
}

/// What a template expression stands for. A name that is bound as it stands
/// comes first, so a dash in a name is no subtraction.
pub open spec fn expr_text(expr: Seq<char>, env: EnvView) -> Result<Seq<char>, EvalErrorView> {
    let t = trimmed(expr);
    match env.get(t) {
        Some(v) => Ok(v),
        None => match find_from(t, '+', 0) {
            Some(i) => sum_text(trimmed(t.take(i)), trimmed(t.skip(i + 1)), env),
            None => match find_before(t, '-', t.len() as int) {
                Some(i) => match difference_text(
                    trimmed(t.take(i)),
                    trimmed(t.skip(i + 1)),
                    env,
                ) {
                    Some(v) if i > 0 => Ok(v),
                    _ => Err(EvalErrorView::UnknownVar(t)),
                },
                None => Err(EvalErrorView::UnknownVar(t)),
            },
        },
    }
}

/// Evaluates a template expression: `var`, `var+N` or `var-N`.
pub fn eval_template_expr(expr: &[char], env: &Env) -> (r: Result<String, EvalError>)
    ensures
        match r {
            Ok(s) => expr_text(expr@, env@) == Ok::<Seq<char>, EvalErrorView>(s@),
            Err(e) => expr_text(expr@, env@) == Err::<Seq<char>, EvalErrorView>(e@),
        },
{
    let t = trim(expr);
    let name = text_of(t);
    if let Ok(v) = env.get(name.as_str()) {
        return Ok(v);
    }
    proof {
        lemma_find_from(t@, '+', 0);
        lemma_find_before(t@, '-', t@.len() as int);
    }
    let n: usize = t.len();
    if let Some(i) = find(t, '+', 0) {
        let lhs = slice_subrange(t, 0, i);
        let rhs = slice_subrange(t, i + 1, n);
        assert(lhs@ =~= t@.take(i as int));
        assert(rhs@ =~= t@.skip(i + 1));
        let var = text_of(trim(lhs));
        let off: i64 = match parse_i64(trim(rhs)) {
            Some(off) => off,
            None => {
                return Err(EvalError::Type("int"));
            },
        };
        let s = match env.get(var.as_str()) {
            Ok(s) => s,
            Err(e) => {
                return Err(e);
            },
        };
        return match parse_i64(chars_of(s.as_str()).as_slice()) {
            Some(v) => Ok(i64_text(v.wrapping_add(off))),
            None => Err(EvalError::Type("int var")),
        };
    }
    if let Some(i) = rfind(t, '-') {
        let lhs = slice_subrange(t, 0, i);
        let rhs = slice_subrange(t, i + 1, n);
        assert(lhs@ =~= t@.take(i as int));
        assert(rhs@ =~= t@.skip(i + 1));
        if i > 0 {
            if let Some(off) = parse_i64(trim(rhs)) {
                let var = text_of(trim(lhs));
                if let Ok(s) = env.get(var.as_str()) {
                    if let Some(v) = parse_i64(chars_of(s.as_str()).as_slice()) {
                        return Ok(i64_text(v.wrapping_sub(off)));
                    }
                }
            }
        }
    }
    Err(EvalError::UnknownVar(name))
}

// ---------------------------------------------------------------------
// Templates
// ---------------------------------------------------------------------

/// Whether a brace group is text rather than an expression: it holds a quote,
/// as a label selector does, and no name is bound under it.
pub open spec fn is_selector(group: Seq<char>, env: EnvView) -> bool {
    has_char(group, '"') && env.get(trimmed(group)) is None
}

/// A template with every `{expr}` from `i` on replaced by what it stands for,
/// behind the text `done`.
pub open spec fn interp_from(t: Seq<char>, i: int, done: Seq<char>, env: EnvView) -> Result<
    Seq<char>,
    EvalErrorView,
>
    decreases t.len() - i,
{
    if i < 0 || i >= t.len() {
        Ok(done)
    } else {
        match group_at(t, i, env) {
            Some(j) => if i < j < t.len() {
                match expr_text(t.subrange(i + 1, j), env) {
                    Ok(v) => interp_from(t, j + 1, done + v, env),
                    Err(e) => Err(e),
                }
            } else {
                Ok(done)
            },
            None => interp_from(t, i + 1, done.push(t[i]), env),
        }
    }
}

/// Where the expression that opens at `i` closes, if one opens there.
pub open spec fn group_at(t: Seq<char>, i: int, env: EnvView) -> Option<int> {
    if t[i] != '{' {
        None
    } else {
        match find_from(t, '}', i + 1) {
            Some(j) if !is_selector(t.subrange(i + 1, j), env) => Some(j),
            _ => None,
        }
    }
}

/// A template with every `{expr}` replaced by what it stands for.
pub open spec fn interpolated(t: Seq<char>, env: EnvView) -> Result<Seq<char>, EvalErrorView> {
    interp_from(t, 0, Seq::empty(), env)
}

/// Where the expression that opens at `i` closes, if one opens there.
fn find_group(cs: &[char], i: usize, env: &Env) -> (r: Option<usize>)
    requires
        i < cs@.len(),
    ensures
        match r {
            Some(j) => group_at(cs@, i as int, env@) == Some(j as int) && i < j < cs@.len(),
            None => group_at(cs@, i as int, env@) is None,
        },
{
    if cs[i] != '{' {
        return None;
    }
    proof {
        lemma_find_from(cs@, '}', i + 1);
    }
    match find(cs, '}', i + 1) {
        None => None,
        Some(j) => {
            let group = slice_subrange(cs, i + 1, j);
            if contains(group, '"') && env.get(text_of(trim(group)).as_str()).is_err() {
                None
            } else {
                Some(j)
            }
        },
    }
}

/// Replaces every `{var}`, `{var+N}` and `{var-N}` of a template.
pub fn interp(template: &str, env: &Env) -> (r: Result<String, EvalError>)
    ensures
        match r {
            Ok(s) => interpolated(template@, env@) == Ok::<Seq<char>, EvalErrorView>(s@),
            Err(e) => interpolated(template@, env@) == Err::<Seq<char>, EvalErrorView>(e@),
        },
{
    let cs = chars_of(template);
    let n: usize = cs.len();
    let mut out = String::new();
    let mut i: usize = 0;
    while i < n
        invariant
            n == cs@.len(),
            i <= n,
            cs@ == template@,
            interp_from(cs@, i as int, out@, env@) == interpolated(template@, env@),
        decreases n - i,
    {
        match find_group(cs.as_slice(), i, env) {
            Some(j) => {
                match eval_template_expr(slice_subrange(cs.as_slice(), i + 1, j), env) {
                    Ok(v) => {
                        out.append(v.as_str());
                    },
                    Err(e) => {
                        return Err(e);
                    },
                }
                i = j + 1;
            },
            None => {
                out.push(cs[i]);
                i += 1;
            },
        }
    }
    Ok(out)
}

/// The name in a template that is exactly `{name}`, with no arithmetic and no
/// dash in it.
pub open spec fn full_var(raw: Seq<char>) -> Option<Seq<char>> {
    let t = trimmed(raw);
    if t.len() == 0 || t[0] != '{' || t.last() != '}' {
        None
    } else {
        let inner = t.subrange(1, t.len() - 1);
        if inner.len() == 0 || has_char(inner, '{') || has_char(inner, '}') || has_char(inner, '+')
            || has_char(inner, '-') {
            None
        } else {
            Some(inner)
        }
    }
}

/// The name in a template that is exactly `{name}`.
pub fn extract_full_var(raw: &str) -> (r: Option<String>)
    ensures
        match r {
            Some(s) => full_var(raw@) == Some(s@),
            None => full_var(raw@) is None,
        },
{
    let cs = chars_of(raw);
    let t = trim(cs.as_slice());
    let n: usize = t.len();
    if n == 0 || t[0] != '{' || t[n - 1] != '}' {
        return None;
    }
    let inner = slice_subrange(t, 1, n - 1);
    if inner.len() == 0 || contains(inner, '{') || contains(inner, '}') || contains(inner, '+')
        || contains(inner, '-') {
        return None;
    }
    Some(text_of(inner))
}

// ---------------------------------------------------------------------
// Predicates and type names
// ---------------------------------------------------------------------

/// The boolean that a string spells.
pub open spec fn spelled_bool(s: Seq<char>) -> Result<bool, EvalErrorView> {
    if s == "true"@ || s == "#t"@ || s == "1"@ {
        Ok(true)
    } else if s == "false"@ || s == "#f"@ || s == "0"@ || s == ""@ {
        Ok(false)
    } else {
        Err(EvalErrorView::Type("boolean (true|false|#t|#f|1|0)"@))
    }
}

/// The boolean that a `:when` value stands for.
pub open spec fn predicate(v: SxView, env: EnvView) -> Result<bool, EvalErrorView> {
    match v {
        SxView::Atom(AtomView::Bool(b)) => Ok(b),
        SxView::Atom(AtomView::Int(n)) => Ok(n != 0),
        SxView::Atom(AtomView::Str(s)) => match interpolated(s, env) {
            Ok(t) => spelled_bool(t),
            Err(e) => Err(e),
        },
        SxView::Atom(AtomView::Sym(s)) => match env.get(s) {
            Some(t) => spelled_bool(t),
            None => match interpolated(s, env) {
                Ok(t) => spelled_bool(t),
                Err(e) => Err(e),
            },
        },
        _ => Err(EvalErrorView::Type("boolean"@)),
    }
}

/// The boolean that a string spells.
fn bool_of(s: &str) -> (r: Result<bool, EvalError>)
    ensures
        match r {
            Ok(b) => spelled_bool(s@) == Ok::<bool, EvalErrorView>(b),
            Err(e) => spelled_bool(s@) == Err::<bool, EvalErrorView>(e@),
        },
{
    if same(s, "true") || same(s, "#t") || same(s, "1") {
        Ok(true)
    } else if same(s, "false") || same(s, "#f") || same(s, "0") || same(s, "") {
        Ok(false)
    } else {
        Err(EvalError::Type("boolean (true|false|#t|#f|1|0)"))
    }
}

/// Resolves a `:when` value.
///
/// `#t`, `#f` and integers stand for themselves. A bare symbol that is bound
/// stands for its binding; any other symbol or string is a template. Truthy
/// are "true", "#t" and "1", falsy "false", "#f", "0" and "".
pub fn resolve_predicate(v: &Sx, env: &Env) -> (r: Result<bool, EvalError>)
    ensures
        match r {
            Ok(b) => predicate(v@, env@) == Ok::<bool, EvalErrorView>(b),
            Err(e) => predicate(v@, env@) == Err::<bool, EvalErrorView>(e@),
        },
{
    match v {
        Sx::Atom(Atom::Bool(b)) => Ok(*b),
        Sx::Atom(Atom::Int(n)) => Ok(*n != 0),
        Sx::Atom(Atom::Str(s)) => match interp(s.as_str(), env) {
            Ok(t) => bool_of(t.as_str()),
            Err(e) => Err(e),
        },
        Sx::Atom(Atom::Sym(s)) => {
            if let Ok(t) = env.get(s.as_str()) {
                return bool_of(t.as_str());
            }
            match interp(s.as_str(), env) {
                Ok(t) => bool_of(t.as_str()),
                Err(e) => Err(e),
            }
        },
        _ => Err(EvalError::Type("boolean")),
    }
}

/// The type name that a symbol writes with dashes.
pub open spec fn type_id(s: Seq<char>) -> Seq<char> {
    replaced(s, '-', '_')
}

/// Turns the symbol `aws-vpc` into the type name `aws_vpc`.
pub fn sym_to_type_id(s: &str) -> (r: String)
    ensures
        r@ == type_id(s@),
{
    replace(s, '-', '_')
}

// ---------------------------------------------------------------------
// Laws
// ---------------------------------------------------------------------

/// A loop variable wins over an input of the same name, and hides no other.
pub proof fn law_loop_variable_wins(
    env: EnvView,
    key: Seq<char>,
    value: Seq<char>,
    other: Seq<char>,
)
    ensures
        env.with_loop(key, value).get(key) == Some(value),
        other != key ==> env.with_loop(key, value).get(other) == env.get(other),
        env.with_loop(key, value).list(other) == env.list(other),
{
}

/// Characters before the next brace are copied.
proof fn lemma_copied(t: Seq<char>, i: int, k: int, done: Seq<char>, env: EnvView)
    requires
        0 <= i <= k <= t.len(),
        forall|j: int| i <= j < k ==> t[j] != '{',
    ensures
        interp_from(t, i, done, env) == interp_from(t, k, done + t.subrange(i, k), env),
    decreases k - i,
{
    if i < k {
        lemma_copied(t, i + 1, k, done.push(t[i]), env);
        assert(done.push(t[i]) + t.subrange(i + 1, k) =~= done + t.subrange(i, k));
    } else {
        assert(done + t.subrange(i, k) =~= done);
    }
}

/// Text without an opening brace is its own interpolation.
pub proof fn law_plain_text_is_kept(t: Seq<char>, env: EnvView)
    requires
        !has_char(t, '{'),
    ensures
        interpolated(t, env) == Ok::<Seq<char>, EvalErrorView>(t),
{
    lemma_find_from(t, '{', 0);
    lemma_copied(t, 0, t.len() as int, Seq::empty(), env);
    assert(Seq::<char>::empty() + t.subrange(0, t.len() as int) =~= t);
}

/// An expression in braces is replaced by what it stands for, its failure is
/// the failure of the whole, and the text around it is kept.
pub proof fn law_group_is_replaced(
    before: Seq<char>,
    expr: Seq<char>,
    after: Seq<char>,
    env: EnvView,
)
    requires
        !has_char(before, '{'),
        !has_char(expr, '}'),
        !is_selector(expr, env),
        !has_char(after, '{'),
    ensures
        interpolated(before + seq!['{'] + expr + seq!['}'] + after, env) == match expr_text(
            expr,
            env,
        ) {
            Ok(v) => Ok::<Seq<char>, EvalErrorView>(before + v + after),
            Err(e) => Err(e),
        },
{
    let t = before + seq!['{'] + expr + seq!['}'] + after;
    let i = before.len() as int;
    let j = i + 1 + expr.len();
    lemma_find_from(before, '{', 0);
    lemma_find_from(expr, '}', 0);
    lemma_find_from(after, '{', 0);
    assert forall|k: int| 0 <= k < i implies t[k] != '{' by {
        assert(t[k] == before[k]);
    }
    lemma_copied(t, 0, i, Seq::empty(), env);
    assert(Seq::<char>::empty() + t.subrange(0, i) =~= before);
    assert(t[i] == '{' && t[j] == '}');
    lemma_find_from(t, '}', i + 1);
    assert forall|k: int| i + 1 <= k < j implies t[k] != '}' by {
        assert(t[k] == expr[k - i - 1]);
    }
    assert(find_from(t, '}', i + 1) == Some(j));
    assert(t.subrange(i + 1, j) =~= expr);
    if let Ok(v) = expr_text(expr, env) {
        assert forall|k: int| j + 1 <= k < t.len() implies t[k] != '{' by {
            assert(t[k] == after[k - j - 1]);
        }
        lemma_copied(t, j + 1, t.len() as int, before + v, env);
        assert(t.subrange(j + 1, t.len() as int) =~= after);
    }
}

/// A name that is bound as it stands resolves to its binding, whatever dashes
/// or plus signs it holds.
pub proof fn law_bound_name_resolves_first(expr: Seq<char>, env: EnvView)
    requires
        env.get(trimmed(expr)) is Some,
    ensures
        expr_text(expr, env) == Ok::<Seq<char>, EvalErrorView>(env.get(trimmed(expr))->0),
{
}

/// A text that neither starts nor ends with white space is trimmed already.
proof fn lemma_trimmed(s: Seq<char>)
    requires
        s.len() > 0,
        !is_white(s[0]),
        !is_white(s.last()),
    ensures
        trimmed(s) == s,
{
}

/// The ends of a rendered integer are no white space.
proof fn lemma_rendered_ends(n: nat)
    ensures
        decimal(n).len() > 0,
        forall|i: int| 0 <= i < decimal(n).len() ==> is_digit(#[trigger] decimal(n)[i]),
        trimmed(decimal(n)) == decimal(n),
{
    lemma_decimal_value(n);
    let s = decimal(n);
    assert(is_digit(s[0]) && is_digit(s.last()));
    lemma_trimmed(s);
}

/// `var+N` and `var-N` add to and subtract from the integer that `var` is
/// bound to, unless the whole is itself a bound name or the result leaves the
/// range of integers.
pub proof fn law_template_arithmetic(var: Seq<char>, v: i64, n: i64, env: EnvView)
    requires
        var.len() > 0,
        !is_white(var[0]),
        !is_white(var.last()),
        !has_char(var, '+'),
        0 <= n,
        env.get(var) == Some(int_text(v as int)),
    ensures
        v + n <= i64::MAX && env.get(var + seq!['+'] + decimal(n as nat)) is None ==> expr_text(
            var + seq!['+'] + decimal(n as nat),
            env,
        ) == Ok::<Seq<char>, EvalErrorView>(int_text(v + n)),
        v - n >= i64::MIN && env.get(var + seq!['-'] + decimal(n as nat)) is None ==> expr_text(
            var + seq!['-'] + decimal(n as nat),
            env,
        ) == Ok::<Seq<char>, EvalErrorView>(int_text(v - n)),
{
    let d = decimal(n as nat);
    let i = var.len() as int;
    lemma_rendered_ends(n as nat);
    law_integer_text_reads_back(n);
    law_integer_text_reads_back(v);
    lemma_trimmed(var);
    lemma_find_from(var, '+', 0);
    let sum = var + seq!['+'] + d;
    lemma_trimmed(sum);
    lemma_find_from(sum, '+', 0);
    assert(sum[i] == '+');
    assert forall|k: int| 0 <= k < i implies sum[k] != '+' by {
        assert(sum[k] == var[k]);
    }
    assert(sum.take(i) =~= var);
    assert(sum.skip(i + 1) =~= d);
    let difference = var + seq!['-'] + d;
    lemma_trimmed(difference);
    lemma_find_from(difference, '+', 0);
    lemma_find_before(difference, '-', difference.len() as int);
    assert(difference[i] == '-');
    assert forall|k: int| 0 <= k < difference.len() implies difference[k] != '+' by {
        if k < i {
            assert(difference[k] == var[k]);
        } else if k > i {
            assert(difference[k] == d[k - i - 1]);
        }
    }
    assert forall|k: int| i < k < difference.len() implies difference[k] != '-' by {
        assert(difference[k] == d[k - i - 1]);
    }
    assert(difference.take(i) =~= var);
    assert(difference.skip(i + 1) =~= d);
}

/// A type name holds no dash, is as long as its symbol, and is its own type
/// name.
pub proof fn law_type_id_has_no_dash(s: Seq<char>)
    ensures
        !has_char(type_id(s), '-'),
        type_id(s).len() == s.len(),
        type_id(type_id(s)) == type_id(s),
{
    lemma_find_from(type_id(s), '-', 0);
    assert(type_id(type_id(s)) =~= type_id(s));
}

/// A name resolves to its loop variable, else to its input, else to nothing;
/// its list is a matter of its own.
pub proof fn law_names_resolve(env: EnvView, key: Seq<char>)
    ensures
        env.loop_scalars.dom().contains(key) ==> env.get(key) == Some(env.loop_scalars[key]),
        !env.loop_scalars.dom().contains(key) && env.scalars.dom().contains(key) ==> env.get(key)
            == Some(env.scalars[key]),
        !env.loop_scalars.dom().contains(key) && !env.scalars.dom().contains(key) ==> env.get(
            key,
        ) is None,
        env.lists.dom().contains(key) ==> env.list(key) == Some(env.lists[key]),
        !env.lists.dom().contains(key) ==> env.list(key) is None,
{
}

proof fn lemma_find_shifted(a: Seq<char>, s: Seq<char>, c: char, i: int)
    requires
        0 <= i <= s.len(),
    ensures
        find_from(a + s, c, a.len() + i) == match find_from(s, c, i) {
            Some(j) => Some(a.len() + j),
            None => None,
        },
    decreases s.len() - i,
{
    if i < s.len() {
        assert((a + s)[a.len() + i] == s[i]);
        lemma_find_shifted(a, s, c, i + 1);
    }
}

proof fn lemma_contains_found(s: Seq<char>, c: char)
    ensures
        has_char(s, c) <==> s.contains(c),
{
    lemma_find_from(s, c, 0);
    if let Some(j) = find_from(s, c, 0) {
        assert(s[j] == c);
    }
}

/// What is left of a template interpolates as it does on its own.
proof fn lemma_interp_shifted(
    a: Seq<char>,
    s: Seq<char>,
    i: int,
    done: Seq<char>,
    env: EnvView,
)
    requires
        0 <= i <= s.len(),
    ensures
        interp_from(a + s, a.len() + i, done, env) == match interp_from(s, i, Seq::empty(), env) {
            Ok(v) => Ok::<Seq<char>, EvalErrorView>(done + v),
            Err(e) => Err(e),
        },
    decreases s.len() - i,
{
    let none = Seq::<char>::empty();
    let n = a.len() as int;
    if i < s.len() {
        assert((a + s)[n + i] == s[i]);
        lemma_find_shifted(a, s, '}', i + 1);
        lemma_find_from(s, '}', i + 1);
        if let Some(j) = find_from(s, '}', i + 1) {
            assert((a + s).subrange(n + i + 1, n + j) =~= s.subrange(i + 1, j));
        }
        match group_at(s, i, env) {
            Some(j) => {
                assert(group_at(a + s, n + i, env) == Some(n + j));
                if let Ok(v) = expr_text(s.subrange(i + 1, j), env) {
                    lemma_interp_shifted(a, s, j + 1, done + v, env);
                    lemma_interp_shifted(none, s, j + 1, none + v, env);
                    assert(none + s =~= s);
                    if let Ok(r) = interp_from(s, j + 1, none, env) {
                        assert(done + v + r =~= done + (none + v + r));
                    }
                }
            },
            None => {
                assert(group_at(a + s, n + i, env) is None);
                lemma_interp_shifted(a, s, i + 1, done.push(s[i]), env);
                lemma_interp_shifted(none, s, i + 1, none.push(s[i]), env);
                assert(none + s =~= s);
                if let Ok(r) = interp_from(s, i + 1, none, env) {
                    assert(done.push(s[i]) + r =~= done + (none.push(s[i]) + r));
                }
            },
        }
    } else {
        assert(done + none =~= done);
    }
}

/// Interpolation splits at a group: the text in front of it is kept, the group
/// gives way to what it stands for, and the rest interpolates as it does on its
/// own, whatever groups it holds. The first failure is the failure of the whole.
pub proof fn law_interpolation_splits_at_a_group(
    before: Seq<char>,
    expr: Seq<char>,
    after: Seq<char>,
    env: EnvView,
)
    requires
        !before.contains('{'),
        !expr.contains('}'),
        !expr.contains('"') || env.get(trimmed(expr)) is Some,
    ensures
        interpolated(before + seq!['{'] + expr + seq!['}'] + after, env) == match expr_text(
            expr,
            env,
        ) {
            Err(e) => Err::<Seq<char>, EvalErrorView>(e),
            Ok(v) => match interpolated(after, env) {
                Ok(rest) => Ok(before + v + rest),
                Err(e) => Err(e),
            },
        },
{
    let t = before + seq!['{'] + expr + seq!['}'] + after;
    let front = before + seq!['{'] + expr + seq!['}'];
    let i = before.len() as int;
    let j = i + 1 + expr.len();
    lemma_contains_found(expr, '"');
    assert forall|k: int| 0 <= k < i implies t[k] != '{' by {
        assert(t[k] == before[k]);
    }
    lemma_copied(t, 0, i, Seq::empty(), env);
    assert(Seq::<char>::empty() + t.subrange(0, i) =~= before);
    assert(t[i] == '{' && t[j] == '}');
    lemma_find_from(t, '}', i + 1);
    assert forall|k: int| i + 1 <= k < j implies t[k] != '}' by {
        assert(t[k] == expr[k - i - 1]);
    }
    assert(find_from(t, '}', i + 1) == Some(j));
    assert(t.subrange(i + 1, j) =~= expr);
    if let Ok(v) = expr_text(expr, env) {
        lemma_interp_shifted(front, after, 0, before + v, env);
        assert(front + after =~= t);
    }
}

/// A brace that opens no group is text like any other: one that is never
/// closed, and one around a group that holds a quote and names nothing. The
/// rest interpolates as it does on its own.
pub proof fn law_other_braces_are_text(
    before: Seq<char>,
    expr: Seq<char>,
    after: Seq<char>,
    env: EnvView,
)
    requires
        !before.contains('{'),
        !expr.contains('}'),
    ensures
        interpolated(before + seq!['{'] + expr, env) == match interpolated(expr, env) {
            Ok(rest) => Ok::<Seq<char>, EvalErrorView>(before + seq!['{'] + rest),
            Err(e) => Err(e),
        },
        expr.contains('"') && env.get(trimmed(expr)) is None ==> interpolated(
            before + seq!['{'] + (expr + seq!['}'] + after),
            env,
        ) == match interpolated(expr + seq!['}'] + after, env) {
            Ok(rest) => Ok::<Seq<char>, EvalErrorView>(before + seq!['{'] + rest),
            Err(e) => Err(e),
        },
{
    let i = before.len() as int;
    let front = before + seq!['{'];
    let open = front + expr;
    lemma_contains_found(expr, '"');
    assert forall|k: int| 0 <= k < i implies open[k] != '{' by {
        assert(open[k] == before[k]);
    }
    lemma_copied(open, 0, i, Seq::empty(), env);
    assert(Seq::<char>::empty() + open.subrange(0, i) =~= before);
    assert(open[i] == '{');
    lemma_find_from(open, '}', i + 1);
    if let Some(j) = find_from(open, '}', i + 1) {
        assert(open[j] == expr[j - i - 1]);
    }
    assert(before.push('{') =~= front);
    lemma_interp_shifted(front, expr, 0, front, env);
    let rest = expr + seq!['}'] + after;
    let t = front + rest;
    let j = i + 1 + expr.len();
    assert forall|k: int| 0 <= k < i implies t[k] != '{' by {
        assert(t[k] == before[k]);
    }
    lemma_copied(t, 0, i, Seq::empty(), env);
    assert(Seq::<char>::empty() + t.subrange(0, i) =~= before);
    assert(t[i] == '{' && t[j] == '}');
    lemma_find_from(t, '}', i + 1);
    assert forall|k: int| i + 1 <= k < j implies t[k] != '}' by {
        assert(t[k] == expr[k - i - 1]);
    }
    assert(t.subrange(i + 1, j) =~= expr);
    lemma_interp_shifted(front, rest, 0, front, env);
}

/// An integer taken into the range of 64 signed bits.
pub open spec fn wrapped(n: int) -> int {
    if n > i64::MAX {
        n - 0x1_0000_0000_0000_0000
    } else if n < i64::MIN {
        n + 0x1_0000_0000_0000_0000
    } else {
        n
    }
}

/// An expression that is no bound name, with a plus sign in it, adds: what
/// stands in front of its first plus sign names an integer, what stands behind
/// is one. The faults come in that order: the literal, the name, its value.
pub proof fn law_plus_adds(expr: Seq<char>, l: Seq<char>, r: Seq<char>, env: EnvView)
    requires
        trimmed(expr) == l + seq!['+'] + r,
        !l.contains('+'),
        env.get(trimmed(expr)) is None,
    ensures
        expr_text(expr, env) == match parse_int(trimmed(r)) {
            None => Err::<Seq<char>, EvalErrorView>(EvalErrorView::Type("int"@)),
            Some(n) => match env.get(trimmed(l)) {
                None => Err(EvalErrorView::UnknownVar(trimmed(l))),
                Some(s) => match parse_int(s) {
                    None => Err(EvalErrorView::Type("int var"@)),
                    Some(v) => Ok(int_text(wrapped(v + n))),
                },
            },
        },
{
    let t = l + seq!['+'] + r;
    let i = l.len() as int;
    lemma_find_from(t, '+', 0);
    assert(t[i] == '+');
    assert forall|k: int| 0 <= k < i implies t[k] != '+' by {
        assert(t[k] == l[k]);
    }
    assert(t.take(i) =~= l);
    assert(t.skip(i + 1) =~= r);
}

/// An expression that is no bound name, with a dash in it and no plus sign,
/// subtracts where what stands in front of its last dash names an integer and
/// what stands behind is one; else it is an unknown name.
pub proof fn law_dash_subtracts(expr: Seq<char>, l: Seq<char>, r: Seq<char>, env: EnvView)
    requires
        trimmed(expr) == l + seq!['-'] + r,
        !l.contains('+'),
        !r.contains('+'),
        !r.contains('-'),
        env.get(trimmed(expr)) is None,
    ensures
        expr_text(expr, env) == match (parse_int(trimmed(r)), env.get(trimmed(l))) {
            (Some(n), Some(s)) if l.len() > 0 && parse_int(s) is Some => Ok::<
                Seq<char>,
                EvalErrorView,
            >(int_text(wrapped(parse_int(s)->0 - n))),
            _ => Err(EvalErrorView::UnknownVar(trimmed(expr))),
        },
{
    let t = l + seq!['-'] + r;
    let i = l.len() as int;
    lemma_find_from(t, '+', 0);
    lemma_find_before(t, '-', t.len() as int);
    assert(t[i] == '-');
    assert forall|k: int| 0 <= k < t.len() implies t[k] != '+' by {
        if k < i {
            assert(t[k] == l[k]);
        } else if k > i {
            assert(t[k] == r[k - i - 1]);
        }
    }
    assert forall|k: int| i < k < t.len() implies t[k] != '-' by {
        assert(t[k] == r[k - i - 1]);
    }
    assert(t.take(i) =~= l);
    assert(t.skip(i + 1) =~= r);
}

/// An expression without plus sign and dash is a name.
pub proof fn law_other_expressions_are_names(expr: Seq<char>, env: EnvView)
    requires
        !trimmed(expr).contains('+'),
        !trimmed(expr).contains('-'),
    ensures
        expr_text(expr, env) == match env.get(trimmed(expr)) {
            Some(v) => Ok::<Seq<char>, EvalErrorView>(v),
            None => Err(EvalErrorView::UnknownVar(trimmed(expr))),
        },
{
    let t = trimmed(expr);
    lemma_find_from(t, '+', 0);
    lemma_find_before(t, '-', t.len() as int);
    if let Some(k) = find_from(t, '+', 0) {
        assert(t[k] == '+');
    }
    if let Some(k) = find_before(t, '-', t.len() as int) {
        assert(t[k] == '-');
    }
}

/// A text between braces, with white space around them, names the list of that
/// name; one with a brace, a plus sign or a dash in it names none.
pub proof fn law_a_full_variable_is_a_name_in_braces(
    a: Seq<char>,
    name: Seq<char>,
    b: Seq<char>,
)
    requires
        forall|i: int| 0 <= i < a.len() ==> is_white(#[trigger] a[i]),
        forall|i: int| 0 <= i < b.len() ==> is_white(#[trigger] b[i]),
    ensures
        full_var(a + (seq!['{'] + name + seq!['}']) + b) == if name.len() == 0 || name.contains('{')
            || name.contains('}') || name.contains('+') || name.contains('-') {
            None
        } else {
            Some(name)
        },
{
    let t = seq!['{'] + name + seq!['}'];
    assert(t[0] == '{' && t.last() == '}');
    crate::text::law_trimming_takes_off_white_space(a, t, b);
    assert(t.subrange(1, t.len() - 1) =~= name);
    lemma_contains_found(name, '{');
    lemma_contains_found(name, '}');
    lemma_contains_found(name, '+');
    lemma_contains_found(name, '-');
}

/// A text that is not a name in braces names no list.
pub proof fn law_other_texts_are_no_full_variable(raw: Seq<char>)
    ensures
        full_var(raw) matches Some(name) ==> trimmed(raw) == seq!['{'] + name + seq!['}'],
        !raw.contains('{') ==> full_var(raw) is None,
{
    let t = trimmed(raw);
    if let Some(name) = full_var(raw) {
        if t.len() > 1 {
            assert(t =~= seq!['{'] + name + seq!['}']);
        }
        lemma_trimmed_within(raw);
        assert(t[0] == '{');
    }
}

/// Trimming adds no character.
proof fn lemma_trimmed_within(s: Seq<char>)
    ensures
        forall|i: int| 0 <= i < trimmed(s).len() ==> s.contains(#[trigger] trimmed(s)[i]),
{
    lemma_start_within(s);
    let u = crate::text::trim_start(s);
    lemma_end_within(u);
    assert forall|i: int| 0 <= i < trimmed(s).len() implies s.contains(
        #[trigger] trimmed(s)[i],
    ) by {
        assert(u.contains(trimmed(s)[i]));
        let k = choose|k: int| 0 <= k < u.len() && u[k] == trimmed(s)[i];
        assert(s.contains(u[k]));
    }
}

proof fn lemma_start_within(s: Seq<char>)
    ensures
        forall|i: int|
            0 <= i < crate::text::trim_start(s).len() ==> s.contains(
                #[trigger] crate::text::trim_start(s)[i],
            ),
    decreases s.len(),
{
    let u = crate::text::trim_start(s);
    if s.len() > 0 && is_white(s[0]) {
        lemma_start_within(s.skip(1));
        assert forall|i: int| 0 <= i < u.len() implies s.contains(#[trigger] u[i]) by {
            assert(crate::text::trim_start(s.skip(1))[i] == u[i]);
            assert(s.skip(1).contains(u[i]));
            let k = choose|k: int| 0 <= k < s.skip(1).len() && s.skip(1)[k] == u[i];
            assert(s[k + 1] == u[i]);
        }
    }
}

proof fn lemma_end_within(s: Seq<char>)
    ensures
        forall|i: int|
            0 <= i < crate::text::trim_end(s).len() ==> s.contains(
                #[trigger] crate::text::trim_end(s)[i],
            ),
    decreases s.len(),
{
    let u = crate::text::trim_end(s);
    if s.len() > 0 && is_white(s.last()) {
        lemma_end_within(s.drop_last());
        assert forall|i: int| 0 <= i < u.len() implies s.contains(#[trigger] u[i]) by {
            assert(crate::text::trim_end(s.drop_last())[i] == u[i]);
            assert(s.drop_last().contains(u[i]));
            let k = choose|k: int| 0 <= k < s.drop_last().len() && s.drop_last()[k] == u[i];
            assert(s[k] == u[i]);
        }
    }
}

/// Whether a text decided as it spells: `true`, `#t` and `1` for, `false`, `#f`,
/// `0` and nothing against, and any other text is a fault.
pub open spec fn decides(r: Result<bool, EvalErrorView>, t: Seq<char>) -> bool {
    &&& r == Ok::<bool, EvalErrorView>(true) <==> (t == "true"@ || t == "#t"@ || t == "1"@)
    &&& r == Ok::<bool, EvalErrorView>(false) <==> (t == "false"@ || t == "#f"@ || t == "0"@ || t
        == ""@)
    &&& r matches Err(e) ==> e == EvalErrorView::Type("boolean (true|false|#t|#f|1|0)"@)
}

/// What a `:when` value decides: a boolean itself, an integer that is not zero,
/// a string or symbol by what it spells once it is resolved, and nothing else.
pub proof fn law_predicates_decide(
    env: EnvView,
    b: bool,
    n: i64,
    s: Seq<char>,
    t: Seq<char>,
    items: Seq<SxView>,
)
    ensures
        predicate(SxView::Atom(AtomView::Bool(b)), env) == Ok::<bool, EvalErrorView>(b),
        predicate(SxView::Atom(AtomView::Int(n)), env) == Ok::<bool, EvalErrorView>(n != 0),
        predicate(SxView::Atom(AtomView::Kw(s)), env) == Err::<bool, EvalErrorView>(
            EvalErrorView::Type("boolean"@),
        ),
        predicate(SxView::List(items), env) == Err::<bool, EvalErrorView>(
            EvalErrorView::Type("boolean"@),
        ),
        interpolated(s, env) matches Err(e) ==> predicate(SxView::Atom(AtomView::Str(s)), env)
            == Err::<bool, EvalErrorView>(e),
        env.get(s) is None ==> predicate(SxView::Atom(AtomView::Sym(s)), env) == predicate(
            SxView::Atom(AtomView::Str(s)),
            env,
        ),
        interpolated(s, env) == Ok::<Seq<char>, EvalErrorView>(t) ==> decides(
            predicate(SxView::Atom(AtomView::Str(s)), env),
            t,
        ),
        env.get(s) == Some(t) ==> decides(predicate(SxView::Atom(AtomView::Sym(s)), env), t),
{
    reveal_strlit("true");
    reveal_strlit("#t");
    reveal_strlit("1");
    reveal_strlit("false");
    reveal_strlit("#f");
    reveal_strlit("0");
    reveal_strlit("");
    assert("true"@.len() == 4 && "#t"@.len() == 2 && "1"@.len() == 1 && "false"@.len() == 5);
    assert("#f"@.len() == 2 && "0"@.len() == 1 && ""@.len() == 0);
    assert("#t"@[1] == 't' && "#f"@[1] == 'f' && "1"@[0] == '1' && "0"@[0] == '0');
}

/// A type name is its symbol with every dash turned into an underscore.
pub proof fn law_a_type_name_writes_underscores(s: Seq<char>, i: int)
    requires
        0 <= i < s.len(),
    ensures
        type_id(s).len() == s.len(),
        s[i] == '-' ==> type_id(s)[i] == '_',
        s[i] != '-' ==> type_id(s)[i] == s[i],
{
}

/// White space around a text does not matter to whether it names a list.
pub proof fn law_full_variables_are_trimmed(raw: Seq<char>, t: Seq<char>)
    requires
        trimmed(raw) == t,
        t.len() > 0,
        !is_white(t[0]),
        !is_white(t.last()),
    ensures
        full_var(raw) == full_var(t),
{
    lemma_trimmed(t);
}

} // verus!
