//! Decimal digit strings: their numeric value, and rendering integers
//! into them.
//!
//! The chain renders block fields into a canonical preimage string before
//! hashing, and the mempool compares transfer amounts written as decimal
//! tokens; both rest on the facts proved here.

use vstd::prelude::*;

use crate::strutil::push_char;

verus! {

pub open spec fn is_digit(c: char) -> bool {
    '0' <= c && c <= '9'
}

pub open spec fn all_digits(s: Seq<char>) -> bool {
    forall|i: int| 0 <= i < s.len() ==> is_digit(#[trigger] s[i])
}

pub open spec fn digit_val(c: char) -> nat {
    (c as int - '0' as int) as nat
}

/// Numeric value of a digit string, most significant digit first.
pub open spec fn digits_val(s: Seq<char>) -> nat
    decreases s.len(),
{
    if s.len() == 0 {
        0
    } else {
        digits_val(s.drop_last()) * 10 + digit_val(s.last())
    }
}

pub open spec fn pow10(n: nat) -> nat
    decreases n,
{
    if n == 0 {
        1nat
    } else {
        10 * pow10((n - 1) as nat)
    }
}

pub open spec fn digit_char(d: nat) -> char {
    if d == 0 {
        '0'
    } else if d == 1 {
        '1'
    } else if d == 2 {
        '2'
    } else if d == 3 {
        '3'
    } else if d == 4 {
        '4'
    } else if d == 5 {
        '5'
    } else if d == 6 {
        '6'
    } else if d == 7 {
        '7'
    } else if d == 8 {
        '8'
    } else {
        '9'
    }
}

/// Canonical decimal rendering of a natural number: no leading zero
/// except for `0` itself.
pub open spec fn dec_of(n: nat) -> Seq<char>
    decreases n,
{
    if n < 10 {
        seq![digit_char(n)]
    } else {
        dec_of(n / 10).push(digit_char(n % 10))
    }
}

pub proof fn lemma_digit_char_val(d: nat)
    requires
        d < 10,
    ensures
        is_digit(digit_char(d)),
        digit_val(digit_char(d)) == d,
{
}

pub proof fn lemma_pow10_pos(n: nat)
    ensures
        pow10(n) >= 1,
    decreases n,
{
    if n > 0 {
        lemma_pow10_pos((n - 1) as nat);
    }
}

pub proof fn lemma_pow10_mono(a: nat, b: nat)
    requires
        a <= b,
    ensures
        pow10(a) <= pow10(b),
    decreases b,
{
    if a < b {
        lemma_pow10_mono(a, (b - 1) as nat);
        lemma_pow10_pos((b - 1) as nat);
    }
}

pub proof fn lemma_pow10_add(a: nat, b: nat)
    ensures
        pow10(a + b) == pow10(a) * pow10(b),
    decreases a,
{
    if a == 0 {
        assert(pow10(0) == 1);
        assert(0 + b == b);
        assert(pow10(a + b) == 1 * pow10(b));
    } else {
        lemma_pow10_add((a - 1) as nat, b);
        assert((a + b - 1) as nat == (a - 1) as nat + b);
        assert(pow10(a + b) == 10 * pow10((a - 1) as nat + b));
        assert(pow10(a) == 10 * pow10((a - 1) as nat));
        assert(10 * (pow10((a - 1) as nat) * pow10(b)) == (10 * pow10((a - 1) as nat)) * pow10(b))
            by (nonlinear_arith);
        assert(pow10(a + b) == 10 * (pow10((a - 1) as nat) * pow10(b)));
        assert(pow10(a + b) == (10 * pow10((a - 1) as nat)) * pow10(b));
    }
}

pub proof fn lemma_digits_val_single(c: char)
    ensures
        digits_val(seq![c]) == digit_val(c),
{
    let s = seq![c];
    assert(s.drop_last() =~= Seq::<char>::empty());
    assert(digits_val(Seq::<char>::empty()) == 0);
    assert(s.last() == c);
}

/// The value of a digit string stays under `pow10` of its length.
pub proof fn lemma_digits_val_bound(s: Seq<char>)
    requires
        all_digits(s),
    ensures
        digits_val(s) < pow10(s.len()),
    decreases s.len(),
{
    if s.len() > 0 {
        assert(all_digits(s.drop_last()));
        lemma_digits_val_bound(s.drop_last());
        assert(digit_val(s.last()) <= 9);
        assert(digits_val(s.drop_last()) * 10 + 9 < pow10((s.len() - 1) as nat) * 10) by {
            assert(digits_val(s.drop_last()) <= pow10((s.len() - 1) as nat) - 1);
            assert(digits_val(s.drop_last()) * 10 <= (pow10((s.len() - 1) as nat) - 1) * 10)
                by (nonlinear_arith)
                requires
                    digits_val(s.drop_last()) <= pow10((s.len() - 1) as nat) - 1,
            ;
        }
        assert(pow10(s.len()) == 10 * pow10((s.len() - 1) as nat));
    }
}

/// Concatenation: the left part is shifted by the length of the right.
pub proof fn lemma_digits_val_concat(a: Seq<char>, b: Seq<char>)
    ensures
        digits_val(a + b) == digits_val(a) * pow10(b.len()) + digits_val(b),
    decreases b.len(),
{
    if b.len() == 0 {
        assert(a + b =~= a);
        assert(pow10(b.len()) == 1);
        assert(digits_val(a) * 1 == digits_val(a));
    } else {
        lemma_digits_val_concat(a, b.drop_last());
        assert((a + b).drop_last() =~= a + b.drop_last());
        assert((a + b).last() == b.last());
        assert(digits_val(a + b) == (digits_val(a) * pow10((b.len() - 1) as nat) + digits_val(
            b.drop_last(),
        )) * 10 + digit_val(b.last()));
        assert((digits_val(a) * pow10((b.len() - 1) as nat)) * 10 == digits_val(a) * (10 * pow10(
            (b.len() - 1) as nat,
        ))) by (nonlinear_arith);
        assert(pow10(b.len()) == 10 * pow10((b.len() - 1) as nat));
        assert((digits_val(a) * pow10((b.len() - 1) as nat) + digits_val(b.drop_last())) * 10
            == (digits_val(a) * pow10((b.len() - 1) as nat)) * 10 + digits_val(b.drop_last()) * 10)
            by (nonlinear_arith);
        assert(digits_val(b) == digits_val(b.drop_last()) * 10 + digit_val(b.last()));
        assert(digits_val(a + b) == digits_val(a) * pow10(b.len()) + digits_val(b.drop_last()) * 10
            + digit_val(b.last()));
    }
}

/// A run of `'0'` characters has value zero.
pub proof fn lemma_zeros_val(s: Seq<char>)
    requires
        forall|i: int| 0 <= i < s.len() ==> s[i] == '0',
    ensures
        digits_val(s) == 0,
    decreases s.len(),
{
    if s.len() > 0 {
        lemma_zeros_val(s.drop_last());
    }
}

/// A digit string with a nonzero leading digit reaches `pow10` of one
/// less than its length.
pub proof fn lemma_digits_val_lower(s: Seq<char>)
    requires
        all_digits(s),
        s.len() > 0,
        s[0] != '0',
    ensures
        digits_val(s) >= pow10((s.len() - 1) as nat),
{
    let head = s.subrange(0, 1);
    let rest = s.subrange(1, s.len() as int);
    assert(s =~= head + rest);
    lemma_digits_val_concat(head, rest);
    assert(head =~= seq![s[0]]);
    lemma_digits_val_single(s[0]);
    assert(digit_val(s[0]) >= 1);
    assert(digits_val(head) * pow10(rest.len()) >= 1 * pow10(rest.len())) by (nonlinear_arith)
        requires
            digits_val(head) >= 1,
    {
        lemma_pow10_pos(rest.len());
    }
}

/// For equal-length digit strings, lexicographic order is value order.
pub proof fn lemma_digits_lex(a: Seq<char>, b: Seq<char>, k: int)
    requires
        all_digits(a),
        all_digits(b),
        a.len() == b.len(),
        0 <= k < a.len(),
        forall|i: int| 0 <= i < k ==> a[i] == b[i],
        digit_val(a[k]) < digit_val(b[k]),
    ensures
        digits_val(a) < digits_val(b),
{
    let pre_a = a.subrange(0, k);
    let pre_b = b.subrange(0, k);
    let suf_a = a.subrange(k, a.len() as int);
    let suf_b = b.subrange(k, b.len() as int);
    assert(pre_a =~= pre_b);
    assert(a =~= pre_a + suf_a);
    assert(b =~= pre_b + suf_b);
    lemma_digits_val_concat(pre_a, suf_a);
    lemma_digits_val_concat(pre_b, suf_b);
    let ha = suf_a.subrange(0, 1);
    let ra = suf_a.subrange(1, suf_a.len() as int);
    let hb = suf_b.subrange(0, 1);
    let rb = suf_b.subrange(1, suf_b.len() as int);
    assert(suf_a =~= ha + ra);
    assert(suf_b =~= hb + rb);
    lemma_digits_val_concat(ha, ra);
    lemma_digits_val_concat(hb, rb);
    assert(all_digits(ra));
    assert(all_digits(rb));
    lemma_digits_val_bound(ra);
    assert(ra.len() == rb.len());
    // value of the suffixes: the digit at k decides
    assert(ha =~= seq![a[k]]);
    assert(hb =~= seq![b[k]]);
    lemma_digits_val_single(a[k]);
    lemma_digits_val_single(b[k]);
    assert(digits_val(suf_a) < digits_val(suf_b)) by {
        let p = pow10(ra.len());
        assert(digits_val(suf_a) == digit_val(a[k]) * p + digits_val(ra));
        assert(digits_val(suf_b) == digit_val(b[k]) * p + digits_val(rb));
        assert(digit_val(a[k]) * p + digits_val(ra) < digit_val(b[k]) * p) by (nonlinear_arith)
            requires
                digit_val(a[k]) < digit_val(b[k]),
                digits_val(ra) < p,
        ;
    }
    assert(digits_val(pre_a) * pow10(suf_a.len()) == digits_val(pre_b) * pow10(suf_b.len()));
}

/// Renders a decimal digit as its character.
pub fn digit_to_char(d: u64) -> (c: char)
    requires
        d < 10,
    ensures
        c == digit_char(d as nat),
{
    if d == 0 {
        '0'
    } else if d == 1 {
        '1'
    } else if d == 2 {
        '2'
    } else if d == 3 {
        '3'
    } else if d == 4 {
        '4'
    } else if d == 5 {
        '5'
    } else if d == 6 {
        '6'
    } else if d == 7 {
        '7'
    } else if d == 8 {
        '8'
    } else {
        '9'
    }
}

/// Appends the canonical decimal rendering of `n` to `out`.
pub fn push_u64_dec(out: &mut String, n: u64)
    ensures
        final(out)@ == old(out)@ + dec_of(n as nat),
    decreases n,
{
    if n < 10 {
        push_char(out, digit_to_char(n));
        assert(final(out)@ =~= old(out)@ + dec_of(n as nat));
    } else {
        push_u64_dec(out, n / 10);
        push_char(out, digit_to_char(n % 10));
        assert(final(out)@ =~= old(out)@ + dec_of(n as nat));
    }
}

/// Canonical decimal rendering of `n`.
pub fn u64_to_dec(n: u64) -> (r: String)
    ensures
        r@ == dec_of(n as nat),
{
    let mut out = String::new();
    push_u64_dec(&mut out, n);
    assert(out@ =~= dec_of(n as nat));
    out
}

/// The canonical rendering is made of digits and its value is the
/// number itself.
pub proof fn lemma_dec_of_val(n: nat)
    ensures
        dec_of(n).len() >= 1,
        all_digits(dec_of(n)),
        digits_val(dec_of(n)) == n,
        n >= 10 ==> dec_of(n).len() >= 2,
        dec_of(n)[0] != '0' || n == 0,
    decreases n,
{
    if n < 10 {
        lemma_digit_char_val(n);
        assert(dec_of(n) =~= seq![digit_char(n)]);
        lemma_digits_val_single(digit_char(n));
    } else {
        lemma_dec_of_val(n / 10);
        lemma_digit_char_val(n % 10);
        let s = dec_of(n);
        assert(s.drop_last() =~= dec_of(n / 10));
        assert(s.last() == digit_char(n % 10));
        assert(digits_val(s) == (n / 10) * 10 + (n % 10));
        assert((n / 10) * 10 + (n % 10) == n) by (nonlinear_arith);
        assert(s[0] == dec_of(n / 10)[0]);
    }
}

} // verus!
