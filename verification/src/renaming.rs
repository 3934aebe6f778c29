//! Fresh names for variable binders.
//!
//! A name that ends in a prime gets one more prime; otherwise a trailing
//! decimal number is incremented, or `0` is appended when there is none.
//! A binder is made unambiguous in a context of binders by renaming it until
//! its name is not bound there; this always ends, since the renamings of a
//! name are all different.

use vstd::prelude::*;
use vstd::string::{StrSliceExecFns, StringExecFns};
use codespan::Span;

verus! {

/// A binding occurrence of a variable: a name, or the wildcard `_`.
#[derive(Debug, Clone)]
pub enum VarBind {
    Var { span: Option<Span>, id: String },
    Wildcard { span: Option<Span> },
}

impl VarBind {
    /// A binder with the given name and no source span.
    pub fn from_string(id: &str) -> (r: VarBind)
        ensures
            r matches VarBind::Var { span, id: i } && span is None && i@ == id@,
    {
        VarBind::Var { span: None, id: String::from_str(id) }
    }
}

/// Whether `c` is one of the ASCII digits `0` to `9`.
pub open spec fn is_digit(c: char) -> bool {
    '0' <= c <= '9'
}

/// The value of an ASCII digit.
pub open spec fn digit_value(c: char) -> nat {
    (c as nat - '0' as nat) as nat
}

/// The number of ASCII digits at the end of `s`.
pub open spec fn trailing_digits(s: Seq<char>) -> nat
    decreases s.len(),
{
    if s.len() > 0 && is_digit(s.last()) {
        1 + trailing_digits(s.drop_last())
    } else {
        0
    }
}

/// The number that a sequence of decimal digits denotes.
pub open spec fn decimal_value(d: Seq<char>) -> nat
    decreases d.len(),
{
    if d.len() == 0 {
        0
    } else {
        decimal_value(d.drop_last()) * 10 + digit_value(d.last())
    }
}

/// The shortest decimal notation of `n`.
pub open spec fn decimal(n: nat) -> Seq<char>
    decreases n,
{
    if n < 10 {
        seq![digit_char(n)]
    } else {
        decimal(n / 10).push(digit_char(n % 10))
    }
}

/// The ASCII digit for `n < 10`.
pub open spec fn digit_char(n: nat) -> char {
    if n == 0 { '0' }
    else if n == 1 { '1' }
    else if n == 2 { '2' }
    else if n == 3 { '3' }
    else if n == 4 { '4' }
    else if n == 5 { '5' }
    else if n == 6 { '6' }
    else if n == 7 { '7' }
    else if n == 8 { '8' }
    else { '9' }
}

/// The result of splitting `s` into a prefix and its trailing decimal number:
/// `None` when there are no trailing digits or their number exceeds `usize::MAX`.
pub open spec fn split_spec(s: Seq<char>) -> (Seq<char>, Option<usize>) {
    let k = trailing_digits(s);
    let digits = s.subrange(s.len() - k, s.len() as int);
    (
        s.subrange(0, s.len() - k),
        if k > 0 && decimal_value(digits) <= usize::MAX {
            Some(decimal_value(digits) as usize)
        } else {
            None
        },
    )
}

proof fn lemma_trailing_digits_bound(s: Seq<char>)
    ensures
        trailing_digits(s) <= s.len(),
        forall|i: int| s.len() - trailing_digits(s) <= i < s.len() ==> is_digit(#[trigger] s[i]),
        trailing_digits(s) < s.len() ==> !is_digit(s[s.len() - 1 - trailing_digits(s)]),
    decreases s.len(),
{
    if s.len() > 0 && is_digit(s.last()) {
        lemma_trailing_digits_bound(s.drop_last());
        assert forall|i: int| s.len() - trailing_digits(s) <= i < s.len() implies is_digit(#[trigger] s[i]) by {
            if i < s.len() - 1 {
                assert(s[i] == s.drop_last()[i]);
            }
        }
        if trailing_digits(s) < s.len() {
            assert(s[s.len() - 1 - trailing_digits(s)] == s.drop_last()[s.len() - 1 - trailing_digits(s)]);
        }
    }
}

proof fn lemma_trailing_digits_count(s: Seq<char>, k: nat)
    requires
        k <= s.len(),
        forall|i: int| s.len() - k <= i < s.len() ==> is_digit(#[trigger] s[i]),
        k < s.len() ==> !is_digit(s[s.len() - 1 - k]),
    ensures
        trailing_digits(s) == k,
    decreases s.len(),
{
    if k > 0 {
        assert(is_digit(s[s.len() - 1]));
        let t = s.drop_last();
        assert forall|i: int| t.len() - (k - 1) <= i < t.len() implies is_digit(#[trigger] t[i]) by {
            assert(t[i] == s[i]);
        }
        if k - 1 < t.len() {
            assert(t[t.len() - 1 - (k - 1)] == s[s.len() - 1 - k]);
        }
        lemma_trailing_digits_count(t, (k - 1) as nat);
    }
}

proof fn lemma_decimal_value_monotone(d: Seq<char>, i: int, j: int)
    requires
        0 <= i <= j <= d.len(),
    ensures
        decimal_value(d.subrange(0, i)) <= decimal_value(d.subrange(0, j)),
    decreases j - i,
{
    if i < j {
        lemma_decimal_value_monotone(d, i, j - 1);
        assert(d.subrange(0, j).drop_last() =~= d.subrange(0, j - 1));
    }
}

/// Split `s` into the part before its trailing ASCII digits and the number those digits denote.
#[verifier::loop_isolation(false)]
pub fn split_trailing_digits(s: &str) -> (r: (&str, Option<usize>))
    ensures
        (r.0@, r.1) == split_spec(s@),
{
    let n = s.unicode_len();
    let mut k: usize = 0;
    while k < n && is_ascii_digit(s.get_char(n - 1 - k))
        invariant
            k <= n,
            n == s@.len(),
            forall|i: int| n - k <= i < n ==> is_digit(#[trigger] s@[i]),
        decreases n - k,
    {
        k += 1;
    }
    proof {
        lemma_trailing_digits_count(s@, k as nat);
    }
    let prefix = s.substring_char(0, n - k);
    let digits = s.substring_char(n - k, n);
    if k == 0 {
        return (prefix, None);
    }
    let mut value: usize = 0;
    let mut i: usize = 0;
    while i < k
        invariant
            i <= k,
            k == digits@.len(),
            digits@ == s@.subrange(n - k, n as int),
            value == decimal_value(digits@.subrange(0, i as int)),
        decreases k - i,
    {
        let c = digits.get_char(i);
        assert(is_digit(s@[n - k + i]));
        assert(digits@.subrange(0, i + 1).drop_last() =~= digits@.subrange(0, i as int));
        let d = char_digit(c);
        if value > (usize::MAX - d) / 10 {
            proof {
                lemma_decimal_value_monotone(digits@, i + 1, k as int);
                assert(digits@.subrange(0, k as int) =~= digits@);
            }
            return (prefix, None);
        }
        value = value * 10 + d;
        i += 1;
    }
    assert(digits@.subrange(0, k as int) =~= digits@);
    (prefix, Some(value))
}

/// Whether `c` is an ASCII digit.
fn is_ascii_digit(c: char) -> (b: bool)
    ensures
        b == is_digit(c),
{
    '0' <= c && c <= '9'
}

/// The value of the ASCII digit `c`.
fn char_digit(c: char) -> (d: usize)
    requires
        is_digit(c),
    ensures
        d == digit_value(c),
        d < 10,
{
    (c as u32 - '0' as u32) as usize
}

/// The name that [`increment_name`] makes of `id`.
pub open spec fn increment_spec(id: Seq<char>) -> Seq<char> {
    if id.len() > 0 && id.last() == '\'' {
        id.push('\'')
    } else {
        let (prefix, n) = split_spec(id);
        match n {
            None => prefix.push('0'),
            Some(n) => prefix + decimal((n + 1) as nat),
        }
    }
}

/// The string of the single digit `d`.
fn digit_str(d: usize) -> (s: &'static str)
    requires
        d < 10,
    ensures
        s@ == seq![digit_char(d as nat)],
{
    proof {
        reveal_strlit("0");
        reveal_strlit("1");
        reveal_strlit("2");
        reveal_strlit("3");
        reveal_strlit("4");
        reveal_strlit("5");
        reveal_strlit("6");
        reveal_strlit("7");
        reveal_strlit("8");
        reveal_strlit("9");
    }
    if d == 0 { "0" }
    else if d == 1 { "1" }
    else if d == 2 { "2" }
    else if d == 3 { "3" }
    else if d == 4 { "4" }
    else if d == 5 { "5" }
    else if d == 6 { "6" }
    else if d == 7 { "7" }
    else if d == 8 { "8" }
    else { "9" }
}

/// Append the decimal notation of `n`.
fn append_decimal(out: &mut String, n: usize)
    ensures
        final(out)@ == old(out)@ + decimal(n as nat),
    decreases n,
{
    if n >= 10 {
        append_decimal(out, n / 10);
    }
    out.append(digit_str(n % 10));
    proof {
        if n >= 10 {
            assert(old(out)@ + decimal((n / 10) as nat) + seq![digit_char((n % 10) as nat)] =~= old(out)@ + decimal(n as nat));
        } else {
            assert(old(out)@ + seq![digit_char((n % 10) as nat)] =~= old(out)@ + decimal(n as nat));
        }
    }
}

/// The binder renamed so that it differs from the original name: a name that
/// ends in a prime gets another prime (and keeps its span); otherwise its
/// trailing number is incremented, or `0` appended, and the span is dropped.
/// A wildcard stays as it is.
pub fn increment_name(name: VarBind) -> (r: VarBind)
    requires
        name matches VarBind::Var { id, .. } ==> !(id@.len() > 0 && id@.last() == '\'') ==> split_spec(id@).1 != Some(usize::MAX),
    ensures
        match name {
            VarBind::Var { span, id } => r matches VarBind::Var { span: sp, id: i } && i@ == increment_spec(id@) && (
                if id@.len() > 0 && id@.last() == '\'' { sp == span } else { sp is None }),
            VarBind::Wildcard { span } => r matches VarBind::Wildcard { span: sp } && sp == span,
        },
{
    match name {
        VarBind::Var { span, mut id } => {
            let n = id.as_str().unicode_len();
            if n > 0 && id.as_str().get_char(n - 1) == '\'' {
                proof {
                    reveal_strlit("'");
                }
                id.append("'");
                return VarBind::Var { id, span };
            }
            let (s, digits) = split_trailing_digits(id.as_str());
            let mut out = String::from_str(s);
            match digits {
                None => {
                    proof {
                        reveal_strlit("0");
                    }
                    out.append("0");
                },
                Some(k) => {
                    append_decimal(&mut out, k + 1);
                },
            }
            VarBind::Var { span: None, id: out }
        },
        VarBind::Wildcard { span } => VarBind::Wildcard { span },
    }
}

proof fn lemma_digit_char_value(n: nat)
    requires
        n < 10,
    ensures
        digit_value(digit_char(n)) == n,
        is_digit(digit_char(n)),
{
}

proof fn lemma_decimal_value_of_decimal(n: nat)
    ensures
        decimal_value(decimal(n)) == n,
        decimal(n).len() >= 1,
    decreases n,
{
    assert(decimal_value(Seq::<char>::empty()) == 0);
    if n < 10 {
        lemma_digit_char_value(n);
        assert(seq![digit_char(n)].drop_last() =~= Seq::<char>::empty());
        assert(decimal(n) == seq![digit_char(n)]);
        assert(decimal(n).last() == digit_char(n));
    } else {
        lemma_decimal_value_of_decimal(n / 10);
        lemma_digit_char_value(n % 10);
        assert(decimal(n).drop_last() =~= decimal(n / 10));
        assert(decimal(n).last() == digit_char(n % 10));
        assert(decimal_value(decimal(n)) == decimal_value(decimal(n / 10)) * 10 + digit_value(digit_char(n % 10)));
    }
}

proof fn lemma_decimal_value_small(d: Seq<char>)
    requires
        d.len() <= 1,
        forall|i: int| 0 <= i < d.len() ==> is_digit(#[trigger] d[i]),
    ensures
        decimal_value(d) <= 9,
{
    assert(decimal_value(Seq::<char>::empty()) == 0);
    if d.len() == 1 {
        assert(d.drop_last() =~= Seq::<char>::empty());
        assert(is_digit(d[0]));
        assert(d.last() == d[0]);
    }
}

/// Renaming gives a name different from the original one.
pub proof fn lemma_increment_differs(id: Seq<char>)
    requires
        !(id.len() > 0 && id.last() == '\'') ==> split_spec(id).1 != Some(usize::MAX),
    ensures
        increment_spec(id) != id,
{
    if id.len() > 0 && id.last() == '\'' {
        assert(increment_spec(id).len() == id.len() + 1);
    } else {
        lemma_trailing_digits_bound(id);
        let k = trailing_digits(id);
        let prefix = id.subrange(0, id.len() - k);
        let digits = id.subrange(id.len() - k, id.len() as int);
        match split_spec(id).1 {
            None => {
                if k > 0 {
                    assert forall|i: int| 0 <= i < digits.len() implies is_digit(#[trigger] digits[i]) by {
                        assert(digits[i] == id[id.len() - k + i]);
                    }
                    if k <= 1 {
                        lemma_decimal_value_small(digits);
                    }
                    assert(k >= 2);
                }
                assert(increment_spec(id).len() != id.len());
            },
            Some(n) => {
                lemma_decimal_value_of_decimal((n + 1) as nat);
                let inc = increment_spec(id);
                assert(inc == prefix + decimal((n + 1) as nat));
                if inc == id {
                    assert(id =~= prefix + digits);
                    assert(decimal((n + 1) as nat) =~= digits) by {
                        assert forall|i: int| 0 <= i < digits.len() implies decimal((n + 1) as nat)[i] == digits[i] by {
                            assert(inc[prefix.len() + i] == id[prefix.len() + i]);
                        }
                    }
                }
            },
        }
    }
}

// ---------------------------------------------------------------------------
// Repeated renaming
// ---------------------------------------------------------------------------

/// Whether the name ends in a prime.
pub open spec fn ends_in_prime(id: Seq<char>) -> bool {
    id.len() > 0 && id.last() == '\''
}

/// The name renamed `k` times.
pub open spec fn iterate_name(id: Seq<char>, k: nat) -> Seq<char>
    decreases k,
{
    if k == 0 {
        id
    } else {
        increment_spec(iterate_name(id, (k - 1) as nat))
    }
}

/// The trailing number of a name that does not end in a prime, or -1 when
/// it has none that fits in `usize`.
pub open spec fn name_number(id: Seq<char>) -> int {
    match split_spec(id).1 {
        Some(v) => v as int,
        None => -1,
    }
}

proof fn lemma_split_of_number(p: Seq<char>, n: nat)
    requires
        p.len() > 0 ==> !is_digit(p.last()),
        n <= usize::MAX,
    ensures
        split_spec(p + decimal(n)) == (p, Some(n as usize)),
{
    lemma_decimal_value_of_decimal(n);
    let d = decimal(n);
    let s = p + d;
    assert(forall|i: int| 0 <= i < d.len() ==> is_digit(#[trigger] d[i])) by {
        lemma_decimal_digits(n);
    }
    assert forall|i: int| s.len() - d.len() <= i < s.len() implies is_digit(#[trigger] s[i]) by {
        assert(s[i] == d[i - p.len()]);
    }
    if d.len() < s.len() {
        assert(s[s.len() - 1 - d.len()] == p.last());
    }
    lemma_trailing_digits_count(s, d.len());
    assert(s.subrange(0, s.len() - d.len()) =~= p);
    assert(s.subrange(s.len() - d.len(), s.len() as int) =~= d);
}

proof fn lemma_decimal_digits(n: nat)
    ensures
        forall|i: int| 0 <= i < decimal(n).len() ==> is_digit(#[trigger] decimal(n)[i]),
    decreases n,
{
    if n < 10 {
        lemma_digit_char_value(n);
    } else {
        lemma_decimal_digits(n / 10);
        lemma_digit_char_value(n % 10);
        assert forall|i: int| 0 <= i < decimal(n).len() implies is_digit(#[trigger] decimal(n)[i]) by {
            if i < decimal(n / 10).len() {
                assert(decimal(n)[i] == decimal(n / 10)[i]);
            }
        }
    }
}

/// Renaming a name that does not end in a prime gives such a name again,
/// with the next trailing number.
proof fn lemma_increment_number(id: Seq<char>)
    requires
        !ends_in_prime(id),
        split_spec(id).1 != Some(usize::MAX),
    ensures
        !ends_in_prime(increment_spec(id)),
        name_number(increment_spec(id)) == name_number(id) + 1,
{
    lemma_trailing_digits_bound(id);
    let k = trailing_digits(id);
    let p = id.subrange(0, id.len() - k);
    if p.len() > 0 {
        assert(p.last() == id[id.len() - 1 - k]);
    }
    match split_spec(id).1 {
        None => {
            assert(p.push('0') =~= p + decimal(0));
            lemma_split_of_number(p, 0);
        },
        Some(v) => {
            lemma_split_of_number(p, (v + 1) as nat);
        },
    }
    lemma_decimal_value_of_decimal(name_number(increment_spec(id)) as nat);
    let r = increment_spec(id);
    assert(r.len() > 0);
    lemma_decimal_digits(name_number(r) as nat);
    assert(is_digit(r.last()));
}

/// Along a chain of renamings without overflow, names keep their kind and
/// their measure grows by one with each step.
proof fn lemma_iterate_measure(id: Seq<char>, j: nat)
    requires
        !ends_in_prime(id) ==> name_number(id) + j <= usize::MAX,
    ensures
        ends_in_prime(iterate_name(id, j)) == ends_in_prime(id),
        ends_in_prime(id) ==> iterate_name(id, j).len() == id.len() + j,
        !ends_in_prime(id) ==> name_number(iterate_name(id, j)) == name_number(id) + j,
    decreases j,
{
    if j > 0 {
        lemma_iterate_measure(id, (j - 1) as nat);
        let prev = iterate_name(id, (j - 1) as nat);
        if ends_in_prime(id) {
            assert(increment_spec(prev) == prev.push('\''));
        } else {
            assert(split_spec(prev).1 != Some(usize::MAX));
            lemma_increment_number(prev);
        }
    }
}

/// Renaming repeatedly never gives a name twice: the number of primes or the
/// trailing number strictly grows, so a search for a name outside a finite
/// set of names ends.
pub proof fn lemma_iterate_distinct(id: Seq<char>, j: nat, k: nat)
    requires
        j < k,
        !ends_in_prime(id) ==> name_number(id) + k <= usize::MAX,
    ensures
        iterate_name(id, j) != iterate_name(id, k),
{
    lemma_iterate_measure(id, j);
    lemma_iterate_measure(id, k);
}

// ---------------------------------------------------------------------------
// Fresh names in a context of binders
// ---------------------------------------------------------------------------

/// The names bound so far, telescope by telescope.
#[derive(Debug)]
pub struct Ctx {
    pub binders: Vec<Vec<VarBind>>,
}

/// Whether some binder of the context is a variable called `n`.
pub open spec fn is_bound_name(b: Seq<Seq<Option<Seq<char>>>>, n: Seq<char>) -> bool {
    exists|i: int, j: int|
        0 <= i < b.len() && 0 <= j < b[i].len() && #[trigger] b[i][j] == Some(n)
}

/// The name that a binder binds, if it is a variable.
pub open spec fn bind_view(v: VarBind) -> Option<Seq<char>> {
    match v {
        VarBind::Var { id, .. } => Some(id@),
        VarBind::Wildcard { .. } => None,
    }
}

/// The name of a binder of the context; the wildcard has the empty name.
pub open spec fn binder_name(v: Option<Seq<char>>) -> Seq<char> {
    match v {
        Some(n) => n,
        None => Seq::empty(),
    }
}

/// The names of all binders, one per binder.
pub open spec fn flat_names(b: Seq<Seq<Option<Seq<char>>>>) -> Seq<Seq<char>>
    decreases b.len(),
{
    if b.len() == 0 {
        Seq::empty()
    } else {
        flat_names(b.drop_last()) + b.last().map_values(|v: Option<Seq<char>>| binder_name(v))
    }
}

proof fn lemma_bound_in_flat(b: Seq<Seq<Option<Seq<char>>>>, n: Seq<char>)
    requires
        is_bound_name(b, n),
    ensures
        flat_names(b).contains(n),
    decreases b.len(),
{
    let (i, j) = choose|i: int, j: int| 0 <= i < b.len() && 0 <= j < b[i].len() && #[trigger] b[i][j] == Some(n);
    let last = b.last().map_values(|v: Option<Seq<char>>| binder_name(v));
    if i == b.len() - 1 {
        assert(last[j] == n);
        assert((flat_names(b.drop_last()) + last)[flat_names(b.drop_last()).len() + j] == n);
    } else {
        assert(b.drop_last()[i] == b[i]);
        assert(is_bound_name(b.drop_last(), n));
        lemma_bound_in_flat(b.drop_last(), n);
        let k = choose|k: int| 0 <= k < flat_names(b.drop_last()).len() && flat_names(b.drop_last())[k] == n;
        assert((flat_names(b.drop_last()) + last)[k] == n);
    }
}

/// Among the first `n + 1` renamings of a name, where `n` is the number of
/// binders, one is not bound.
proof fn lemma_fresh_name_exists(b: Seq<Seq<Option<Seq<char>>>>, id: Seq<char>)
    requires
        !ends_in_prime(id) ==> name_number(id) + flat_names(b).len() <= usize::MAX,
    ensures
        exists|k: nat| k <= flat_names(b).len() && !is_bound_name(b, #[trigger] iterate_name(id, k)),
{
    let flat = flat_names(b);
    let n = flat.len();
    if forall|k: nat| k <= n ==> is_bound_name(b, #[trigger] iterate_name(id, k)) {
        let xs = vstd::set_lib::set_int_range(0, (n + 1) as int);
        vstd::set_lib::lemma_int_range(0, (n + 1) as int);
        let f = |k: int| iterate_name(id, k as nat);
        assert(vstd::relations::injective_on(f, xs)) by {
            assert forall|a: int, c: int| xs.contains(a) && xs.contains(c) && #[trigger] f(a) == #[trigger] f(c) implies a == c by {
                if a < c {
                    lemma_iterate_distinct(id, a as nat, c as nat);
                } else if c < a {
                    lemma_iterate_distinct(id, c as nat, a as nat);
                }
            }
        }
        let ys = xs.map(f);
        vstd::set_lib::lemma_map_size(xs, ys, f);
        assert(ys.subset_of(flat.to_set())) by {
            assert forall|y: Seq<char>| ys.contains(y) implies flat.to_set().contains(y) by {
                let k = choose|k: int| xs.contains(k) && y == f(k);
                assert(is_bound_name(b, iterate_name(id, k as nat)));
                lemma_bound_in_flat(b, y);
            }
        }
        flat.lemma_cardinality_of_set();
        vstd::seq_lib::seq_to_set_is_finite(flat);
        vstd::set_lib::lemma_len_subset(ys, flat.to_set());
        assert(false);
    }
}

impl View for Ctx {
    type V = Seq<Seq<Option<Seq<char>>>>;

    open spec fn view(&self) -> Seq<Seq<Option<Seq<char>>>> {
        Seq::new(self.binders@.len(), |i: int| self.binders@[i]@.map_values(|v: VarBind| bind_view(v)))
    }
}

impl Ctx {
    /// Whether some binder of the context is a variable called `name`.
    pub fn contains_name(&self, name: &str) -> (r: bool)
        ensures
            r == is_bound_name(self@, name@),
    {
        let mut i: usize = 0;
        while i < self.binders.len()
            invariant
                i <= self.binders@.len(),
                forall|a: int, c: int|
                    0 <= a < i && 0 <= c < self.binders@[a]@.len() ==> !(#[trigger] self.binders@[a]@[c] matches VarBind::Var {
                        id,
                        ..
                    } && id@ == name@),
            decreases self.binders@.len() - i,
        {
            let telescope = &self.binders[i];
            let mut j: usize = 0;
            while j < telescope.len()
                invariant
                    i < self.binders@.len(),
                    telescope == self.binders@[i as int],
                    j <= telescope@.len(),
                    forall|a: int, c: int|
                        0 <= a < i && 0 <= c < self.binders@[a]@.len() ==> !(#[trigger] self.binders@[a]@[c] matches VarBind::Var {
                            id,
                            ..
                        } && id@ == name@),
                    forall|c: int| 0 <= c < j ==> !(#[trigger] telescope@[c] matches VarBind::Var { id, .. } && id@ == name@),
                decreases telescope@.len() - j,
            {
                match &telescope[j] {
                    VarBind::Var { id, .. } => {
                        if crate::strings::str_eq(id.as_str(), name) {
                            assert(self@[i as int][j as int] == bind_view(self.binders@[i as int]@[j as int]));
                            assert(self@[i as int][j as int] == Some(name@));
                            return true;
                        }
                    },
                    VarBind::Wildcard { .. } => {},
                }
                j += 1;
            }
            i += 1;
        }
        assert forall|a: int, c: int| 0 <= a < self@.len() && 0 <= c < self@[a].len() implies #[trigger] self@[a][c] != Some(
            name@,
        ) by {
            assert(self@[a][c] == bind_view(self.binders@[a]@[c]));
        }
        false
    }

    /// A binder for the same variable whose name is not bound in the context:
    /// the name (`x` for a wildcard) is renamed until it is not bound.
    pub fn disambiguate_var_bind(&self, var: VarBind) -> (r: VarBind)
        requires
            !ends_in_prime(var_start_name(var)) ==> name_number(var_start_name(var)) + flat_names(self@).len()
                <= usize::MAX,
        ensures
            r matches VarBind::Var { span, id } && span == var_span(var) && exists|k: nat|
                id@ == iterate_name(var_start_name(var), k) && !is_bound_name(self@, id@) && forall|j: nat|
                    j < k ==> is_bound_name(self@, #[trigger] iterate_name(var_start_name(var), j)),
    {
        let ghost start = var_start_name(var);
        let (mut name, span) = match var {
            VarBind::Var { span, id } => (id, span),
            VarBind::Wildcard { span } => {
                proof {
                    reveal_strlit("x");
                }
                (String::from_str("x"), span)
            },
        };
        let ghost n = flat_names(self@).len();
        proof {
            lemma_fresh_name_exists(self@, start);
        }
        let ghost mut k: nat = 0;
        while self.contains_name(name.as_str())
            invariant
                name@ == iterate_name(start, k),
                k <= n,
                n == flat_names(self@).len(),
                !ends_in_prime(start) ==> name_number(start) + n <= usize::MAX,
                exists|m: nat| m <= n && !is_bound_name(self@, #[trigger] iterate_name(start, m)),
                forall|j: nat| j < k ==> is_bound_name(self@, #[trigger] iterate_name(start, j)),
            decreases n - k,
        {
            proof {
                let m = choose|m: nat| m <= n && !is_bound_name(self@, #[trigger] iterate_name(start, m));
                if m <= k {
                    assert(is_bound_name(self@, iterate_name(start, m)));
                }
                assert(k < n);
                lemma_iterate_measure(start, k);
            }
            let next = increment_name(VarBind::Var { span: None, id: name });
            name = match next {
                VarBind::Var { id, .. } => id,
                VarBind::Wildcard { .. } => {
                    assert(false);
                    String::new()
                },
            };
            proof {
                k = k + 1;
            }
        }
        VarBind::Var { span, id: name }
    }
}

/// The name that renaming starts from: the binder's name, or `x` for a wildcard.
pub open spec fn var_start_name(v: VarBind) -> Seq<char> {
    match v {
        VarBind::Var { id, .. } => id@,
        VarBind::Wildcard { .. } => "x"@,
    }
}

/// The source span of a binder.
pub open spec fn var_span(v: VarBind) -> Option<Span> {
    match v {
        VarBind::Var { span, .. } => span,
        VarBind::Wildcard { span } => span,
    }
}

} // verus!
