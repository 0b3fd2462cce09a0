//! Placeholder substitution in statement templates.
//!
//! A positional token is `$` followed by the longest run of decimal digits
//! after it; it names index `i` when the digits are the decimal text of `i`
//! (no leading zero). A bulk token is `$$`.
use vstd::prelude::*;

use crate::literal::{digit_char, nat_text, push_char};

verus! {

pub open spec fn is_digit(c: char) -> bool {
    '0' <= c && c <= '9'
}

/// Length of the run of digits that `t` starts with.
pub open spec fn digit_run(t: Seq<char>) -> nat
    decreases t.len(),
{
    if t.len() > 0 && is_digit(t[0]) {
        1 + digit_run(t.drop_first())
    } else {
        0
    }
}

/// The number that a run of digits denotes.
pub open spec fn digits_value(d: Seq<char>) -> nat
    decreases d.len(),
{
    if d.len() == 0 {
        0
    } else {
        (digits_value(d.drop_last()) * 10 + ((d.last() as u32) as int - 48)) as nat
    }
}

/// The digits `d` of a token name one of the indices `1..=n`.
pub open spec fn names_index(d: Seq<char>, n: nat) -> bool {
    d.len() > 0 && d[0] != '0' && 1 <= digits_value(d) <= n
}

/// Every positional token of `t` that names an index `i` in `1..=reps.len()`
/// becomes `reps[i - 1]`; everything else is copied. The result of a
/// replacement is never scanned again.
pub open spec fn subst_positional(t: Seq<char>, reps: Seq<Seq<char>>) -> Seq<char>
    decreases t.len(),
    via subst_positional_decreases
{
    if t.len() == 0 {
        seq![]
    } else {
        let k = digit_run(t.drop_first()) as int;
        let d = t.subrange(1, 1 + k);
        if t[0] == '$' && names_index(d, reps.len()) {
            reps[digits_value(d) - 1] + subst_positional(t.subrange(1 + k, t.len() as int), reps)
        } else {
            seq![t[0]] + subst_positional(t.drop_first(), reps)
        }
    }
}

#[via_fn]
proof fn subst_positional_decreases(t: Seq<char>, reps: Seq<Seq<char>>) {
    if t.len() > 0 {
        lemma_digit_run_bound(t.drop_first());
    }
}

/// Every `$$` of `t`, taken left to right without overlap, becomes `lit`.
pub open spec fn subst_bulk(t: Seq<char>, lit: Seq<char>) -> Seq<char>
    decreases t.len(),
{
    if t.len() == 0 {
        seq![]
    } else if t.len() >= 2 && t[0] == '$' && t[1] == '$' {
        lit + subst_bulk(t.subrange(2, t.len() as int), lit)
    } else {
        seq![t[0]] + subst_bulk(t.drop_first(), lit)
    }
}

/// The views of the strings.
pub open spec fn texts_of(v: Seq<String>) -> Seq<Seq<char>> {
    v.map_values(|s: String| s@)
}

pub proof fn lemma_digit_run_bound(t: Seq<char>)
    ensures
        digit_run(t) <= t.len(),
        forall|j: int| 0 <= j < digit_run(t) ==> is_digit(#[trigger] t[j]),
    decreases t.len(),
{
    if t.len() > 0 && is_digit(t[0]) {
        lemma_digit_run_bound(t.drop_first());
        assert forall|j: int| 0 <= j < digit_run(t) implies is_digit(#[trigger] t[j]) by {
            if j > 0 {
                assert(t[j] == t.drop_first()[j - 1]);
            }
        }
    }
}

proof fn lemma_digit_run_step(t: Seq<char>, j: int)
    requires
        0 <= j < t.len(),
        is_digit(t[j]),
    ensures
        digit_run(t.subrange(j, t.len() as int)) == 1 + digit_run(t.subrange(j + 1, t.len() as int)),
{
    assert(t.subrange(j, t.len() as int).drop_first() =~= t.subrange(j + 1, t.len() as int));
}

proof fn lemma_digits_value_step(t: Seq<char>, a: int, j: int)
    requires
        0 <= a <= j < t.len(),
        is_digit(t[j]),
    ensures
        digits_value(t.subrange(a, j + 1)) == digits_value(t.subrange(a, j)) * 10 + ((t[j] as u32) as int - 48),
{
    assert(t.subrange(a, j + 1).drop_last() =~= t.subrange(a, j));
}

/// The characters of `s`, in order.
fn chars_of(s: &str) -> (r: Vec<char>)
    ensures
        r@ == s@,
{
    let n = s.unicode_len();
    let mut r: Vec<char> = Vec::new();
    let mut i: usize = 0;
    while i < n
        invariant
            n == s@.len(),
            i <= n,
            r@ == s@.subrange(0, i as int),
        decreases n - i,
    {
        r.push(s.get_char(i));
        i = i + 1;
        assert(r@ =~= s@.subrange(0, i as int));
    }
    assert(r@ =~= s@);
    r
}

fn is_digit_char(c: char) -> (r: bool)
    ensures
        r == is_digit(c),
{
    '0' <= c && c <= '9'
}

/// Replaces each positional token of `t` that names an index `i` in
/// `1..=reps.len()` by `reps[i - 1]`, in one left-to-right pass.
pub fn substitute_positional(t: &str, reps: &Vec<String>) -> (r: String)
    ensures
        r@ == subst_positional(t@, texts_of(reps@)),
{
    let ghost rs = texts_of(reps@);
    let ghost ts = t@;
    let chars = chars_of(t);
    let n = chars.len();
    let nreps = reps.len();
    let mut out = String::new();
    let mut i: usize = 0;
    assert(ts.subrange(0, n as int) =~= ts);
    while i < n
        invariant
            chars@ == ts,
            n == ts.len(),
            nreps == reps@.len(),
            rs == texts_of(reps@),
            i <= n,
            out@ + subst_positional(ts.subrange(i as int, n as int), rs) == subst_positional(ts, rs),
        decreases n - i,
    {
        let ghost rest = ts.subrange(i as int, n as int);
        assert(rest.drop_first() =~= ts.subrange(i + 1, n as int));
        if chars[i] == '$' {
            let mut j: usize = i + 1;
            let mut val: u128 = 0;
            let mut big = false;
            while j < n && is_digit_char(chars[j])
                invariant
                    chars@ == ts,
                    n == ts.len(),
                    i < n,
                    i + 1 <= j <= n,
                    nreps == reps@.len(),
                    digit_run(ts.subrange(i + 1, n as int)) == (j - (i + 1)) + digit_run(ts.subrange(j as int, n as int)),
                    big ==> digits_value(ts.subrange(i + 1, j as int)) > nreps,
                    !big ==> val == digits_value(ts.subrange(i + 1, j as int)) && val <= nreps,
                decreases n - j,
            {
                proof {
                    lemma_digit_run_step(ts, j as int);
                    lemma_digits_value_step(ts, i + 1, j as int);
                }
                if !big {
                    val = val * 10 + (chars[j] as u32 - 48) as u128;
                    if val > nreps as u128 {
                        big = true;
                    }
                }
                j = j + 1;
            }
            let ghost k = digit_run(rest.drop_first()) as int;
            let ghost d = rest.subrange(1, 1 + k);
            assert(digit_run(ts.subrange(j as int, n as int)) == 0);
            assert(d =~= ts.subrange(i + 1, j as int));
            if j > i + 1 && chars[i + 1] != '0' && !big && val >= 1 {
                assert(rest.subrange(1 + k, rest.len() as int) =~= ts.subrange(j as int, n as int));
                let ghost before = out@;
                let idx = (val - 1) as usize;
                out.append(reps[idx].as_str());
                proof {
                    assert(rs[idx as int] == reps@[idx as int]@);
                    assert(out@ =~= before + rs[digits_value(d) - 1]);
                }
                i = j;
            } else {
                push_char(&mut out, '$');
                i = i + 1;
            }
        } else {
            push_char(&mut out, chars[i]);
            i = i + 1;
        }
    }
    assert(ts.subrange(n as int, n as int) =~= Seq::<char>::empty());
    out
}

/// Replaces each `$$` of `t`, left to right without overlap, by `lit`.
pub fn substitute_bulk(t: &str, lit: &str) -> (r: String)
    ensures
        r@ == subst_bulk(t@, lit@),
{
    let ghost ts = t@;
    let chars = chars_of(t);
    let n = chars.len();
    let mut out = String::new();
    let mut i: usize = 0;
    assert(ts.subrange(0, n as int) =~= ts);
    while i < n
        invariant
            chars@ == ts,
            n == ts.len(),
            i <= n,
            out@ + subst_bulk(ts.subrange(i as int, n as int), lit@) == subst_bulk(ts, lit@),
        decreases n - i,
    {
        let ghost rest = ts.subrange(i as int, n as int);
        let ghost before = out@;
        if i + 1 < n && chars[i] == '$' && chars[i + 1] == '$' {
            out.append(lit);
            assert(rest.subrange(2, rest.len() as int) =~= ts.subrange(i + 2, n as int));
            i = i + 2;
        } else {
            push_char(&mut out, chars[i]);
            assert(rest.drop_first() =~= ts.subrange(i + 1, n as int));
            assert(out@ =~= before + seq![rest[0]]);
            i = i + 1;
        }
    }
    assert(ts.subrange(n as int, n as int) =~= Seq::<char>::empty());
    out
}

proof fn lemma_digit_char(d: nat)
    requires
        d < 10,
    ensures
        is_digit(digit_char(d)),
        (digit_char(d) as u32) as int - 48 == d,
        digit_char(d) == '0' <==> d == 0,
{
}

proof fn lemma_nat_text(n: nat)
    ensures
        nat_text(n).len() > 0,
        forall|j: int| 0 <= j < nat_text(n).len() ==> is_digit(#[trigger] nat_text(n)[j]),
        digits_value(nat_text(n)) == n,
        n > 0 ==> nat_text(n)[0] != '0',
    decreases n,
{
    if n < 10 {
        lemma_digit_char(n);
        assert(nat_text(n).drop_last() =~= Seq::<char>::empty());
        assert(digits_value(nat_text(n)) == digits_value(Seq::<char>::empty()) * 10 + n);
    } else {
        lemma_nat_text(n / 10);
        lemma_digit_char(n % 10);
        assert(nat_text(n).drop_last() =~= nat_text(n / 10));
        assert(nat_text(n).last() == digit_char(n % 10));
        assert(digits_value(nat_text(n)) == digits_value(nat_text(n / 10)) * 10 + n % 10);
        assert((n / 10) * 10 + n % 10 == n);
        assert(nat_text(n)[0] == nat_text(n / 10)[0]);
    }
}

proof fn lemma_digit_run_of_digits(d: Seq<char>, rest: Seq<char>)
    requires
        forall|j: int| 0 <= j < d.len() ==> is_digit(#[trigger] d[j]),
        rest.len() == 0 || !is_digit(rest[0]),
    ensures
        digit_run(d + rest) == d.len(),
    decreases d.len(),
{
    if d.len() > 0 {
        assert((d + rest).drop_first() =~= d.drop_first() + rest);
        assert forall|j: int| 0 <= j < d.drop_first().len() implies is_digit(#[trigger] d.drop_first()[j]) by {
            assert(d.drop_first()[j] == d[j + 1]);
        }
        lemma_digit_run_of_digits(d.drop_first(), rest);
    } else {
        assert(d + rest =~= rest);
    }
}

/// A token is replaced as a whole: `$` followed by the decimal text of an
/// index `i` in range, and then by no further digit, becomes the `i`-th
/// replacement, whatever other tokens with longer or shorter indices the
/// template holds; the text after it is substituted on its own.
pub proof fn lemma_token_replaced_whole(i: nat, rest: Seq<char>, reps: Seq<Seq<char>>)
    requires
        1 <= i <= reps.len(),
        rest.len() == 0 || !is_digit(rest[0]),
    ensures
        subst_positional(seq!['$'] + nat_text(i) + rest, reps) == reps[i - 1] + subst_positional(rest, reps),
{
    let d = nat_text(i);
    let t = seq!['$'] + d + rest;
    lemma_nat_text(i);
    assert(t.drop_first() =~= d + rest);
    lemma_digit_run_of_digits(d, rest);
    assert(t.subrange(1, 1 + d.len() as int) =~= d);
    assert(t.subrange(1 + d.len() as int, t.len() as int) =~= rest);
}

} // verus!
