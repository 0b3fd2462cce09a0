//! Literal syntax of the target language: decimal integers, vectors
//! `[a,b,c]` and matrices `[a,b;c,d]`.
use vstd::prelude::*;

verus! {

/// The character of a decimal digit `d < 10`.
pub open spec fn digit_char(d: nat) -> char {
    ((d + 48) as u8) as char
}

/// Decimal text of a natural number, without leading zeros.
pub open spec fn nat_text(n: nat) -> Seq<char>
    decreases n,
{
    if n < 10 {
        seq![digit_char(n)]
    } else {
        nat_text(n / 10).push(digit_char(n % 10))
    }
}

/// Display text of an integer: a minus sign for negative values, then the digits.
pub open spec fn int_text(v: int) -> Seq<char> {
    if v < 0 {
        seq!['-'] + nat_text((-v) as nat)
    } else {
        nat_text(v as nat)
    }
}

/// The parts in order, with `sep` between each two neighbours.
pub open spec fn join_texts(parts: Seq<Seq<char>>, sep: char) -> Seq<char>
    decreases parts.len(),
{
    if parts.len() == 0 {
        seq![]
    } else if parts.len() == 1 {
        parts[0]
    } else {
        join_texts(parts.drop_last(), sep).push(sep) + parts.last()
    }
}

/// The values' display texts, comma-separated.
pub open spec fn joined_ints(v: Seq<i64>) -> Seq<char> {
    join_texts(v.map_values(|x: i64| int_text(x as int)), ',')
}

/// Vector literal: `[v0,v1,...]`.
pub open spec fn vector_text(v: Seq<i64>) -> Seq<char> {
    seq!['['] + joined_ints(v) + seq![']']
}

/// Matrix literal: rows separated by `;`, the elements of a row by `,`.
pub open spec fn matrix_text(rows: Seq<Seq<i64>>) -> Seq<char> {
    seq!['['] + join_texts(rows.map_values(|r: Seq<i64>| joined_ints(r)), ';') + seq![']']
}

/// Relies on String::push: the character is appended.
#[verifier::external_body]
pub(crate) fn push_char(s: &mut String, c: char)
    ensures
        final(s)@ == old(s)@.push(c),
{
    s.push(c)
}

fn push_nat(out: &mut String, n: u64)
    ensures
        final(out)@ == old(out)@ + nat_text(n as nat),
    decreases n,
{
    if n >= 10 {
        push_nat(out, n / 10);
    }
    let c = ((n % 10) as u8 + 48u8) as char;
    push_char(out, c);
    proof {
        assert(final(out)@ =~= old(out)@ + nat_text(n as nat));
    }
}

/// Appends the display text of `v`.
pub fn push_int(out: &mut String, v: i64)
    ensures
        final(out)@ == old(out)@ + int_text(v as int),
{
    if v < 0 {
        push_char(out, '-');
        let m: u64 = (-(v as i128)) as u64;
        push_nat(out, m);
        assert(final(out)@ =~= old(out)@ + int_text(v as int));
    } else {
        push_nat(out, v as u64);
    }
}

/// The join of one more part extends the join of the others.
pub proof fn lemma_join_push(parts: Seq<Seq<char>>, p: Seq<char>, sep: char)
    ensures
        join_texts(parts.push(p), sep) == if parts.len() == 0 {
            p
        } else {
            join_texts(parts, sep).push(sep) + p
        },
{
    assert(parts.push(p).drop_last() =~= parts);
}

/// Appends the comma-separated display texts of `v`.
pub fn push_joined(out: &mut String, v: &[i64])
    ensures
        final(out)@ == old(out)@ + joined_ints(v@),
{
    let ghost start = out@;
    let mut i: usize = 0;
    while i < v.len()
        invariant
            i <= v@.len(),
            out@ == start + joined_ints(v@.subrange(0, i as int)),
        decreases v@.len() - i,
    {
        let ghost before = out@;
        if i > 0 {
            push_char(out, ',');
        }
        push_int(out, v[i]);
        proof {
            let f = |x: i64| int_text(x as int);
            let prev = v@.subrange(0, i as int);
            let next = v@.subrange(0, i + 1);
            assert(next =~= prev.push(v@[i as int]));
            assert(next.map_values(f) =~= prev.map_values(f).push(int_text(v@[i as int] as int)));
            lemma_join_push(prev.map_values(f), int_text(v@[i as int] as int), ',');
            assert(out@ =~= start + joined_ints(next));
        }
        i = i + 1;
    }
    assert(v@.subrange(0, v@.len() as int) =~= v@);
}

} // verus!
