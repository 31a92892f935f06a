//! Transfer amounts as decimal text tokens.
//!
//! A transfer amount travels on the wire as a JSON number. The library
//! keeps it as its text token — an optional `'-'`, an integer part, and
//! an optional fraction part — and compares two tokens by the numbers
//! they denote. The mempool's priority order rests on this comparison.

use vstd::prelude::*;

use crate::digits::{
    all_digits, digit_val, digits_val, is_digit, lemma_digits_lex, lemma_digits_val_bound,
    lemma_digits_val_concat, lemma_digits_val_lower, lemma_pow10_add, lemma_pow10_mono,
    lemma_pow10_pos, lemma_zeros_val, pow10,
};
use crate::strutil::chars_vec;

verus! {

/// Whether the token starts with a minus sign.
pub open spec fn amount_neg(s: Seq<char>) -> bool {
    s.len() > 0 && s[0] == '-'
}

/// The token without its sign.
pub open spec fn amount_body(s: Seq<char>) -> Seq<char> {
    if amount_neg(s) {
        s.subrange(1, s.len() as int)
    } else {
        s
    }
}

/// Index of the first `'.'` in `s`, or `s.len()` when there is none.
pub open spec fn first_dot(s: Seq<char>) -> int
    decreases s.len(),
{
    if s.len() == 0 {
        0
    } else if s[0] == '.' {
        0
    } else {
        1 + first_dot(s.drop_first())
    }
}

pub proof fn lemma_first_dot(s: Seq<char>)
    ensures
        0 <= first_dot(s) <= s.len(),
        first_dot(s) < s.len() ==> s[first_dot(s)] == '.',
        forall|j: int| 0 <= j < first_dot(s) ==> s[j] != '.',
    decreases s.len(),
{
    if s.len() > 0 && s[0] != '.' {
        lemma_first_dot(s.drop_first());
        let fd = first_dot(s);
        assert(fd == 1 + first_dot(s.drop_first()));
        if fd < s.len() {
            assert(s[fd] == s.drop_first()[fd - 1]);
        }
        assert forall|j: int| 0 <= j < fd implies s[j] != '.' by {
            if j >= 1 {
                assert(s[j] == s.drop_first()[j - 1]);
            }
        }
    }
}

/// The first dot is wherever a scan says it is.
pub proof fn lemma_first_dot_at(s: Seq<char>, k: int)
    requires
        0 <= k <= s.len(),
        k < s.len() ==> s[k] == '.',
        k == s.len() || s[k] == '.',
        forall|j: int| 0 <= j < k ==> s[j] != '.',
    ensures
        first_dot(s) == k,
    decreases s.len(),
{
    if s.len() > 0 && s[0] != '.' {
        assert(k >= 1);
        assert forall|j: int| 0 <= j < k - 1 implies s.drop_first()[j] != '.' by {
            assert(s.drop_first()[j] == s[j + 1]);
        }
        if k - 1 < s.drop_first().len() {
            assert(s.drop_first()[k - 1] == s[k]);
        }
        lemma_first_dot_at(s.drop_first(), k - 1);
    }
}

/// The integer digits of the token.
pub open spec fn int_part(s: Seq<char>) -> Seq<char> {
    let b = amount_body(s);
    b.subrange(0, first_dot(b))
}

/// The fraction digits of the token; empty when there is no dot.
pub open spec fn frac_part(s: Seq<char>) -> Seq<char> {
    let b = amount_body(s);
    if first_dot(b) == b.len() {
        Seq::empty()
    } else {
        b.subrange(first_dot(b) + 1, b.len() as int)
    }
}

/// A well-formed amount token: an optional minus sign, then one or more
/// digits, then optionally a dot and one or more digits.
pub open spec fn amount_wf(s: Seq<char>) -> bool {
    let b = amount_body(s);
    let fd = first_dot(b);
    &&& fd >= 1
    &&& all_digits(int_part(s))
    &&& (fd == b.len() || (fd + 1 < b.len() && all_digits(frac_part(s))))
}

/// The token's magnitude, read as an integer over all its digits.
pub open spec fn amount_num(s: Seq<char>) -> nat {
    digits_val(int_part(s) + frac_part(s))
}

/// How many fraction digits the token carries.
pub open spec fn amount_scale(s: Seq<char>) -> nat {
    frac_part(s).len()
}

/// The token's signed scaled value: the number it denotes times
/// `pow10(amount_scale(s))`.
pub open spec fn amount_sval(s: Seq<char>) -> int {
    if amount_neg(s) {
        -(amount_num(s) as int)
    } else {
        amount_num(s) as int
    }
}

/// Numeric order of two tokens, by cross-multiplied scaled values.
pub open spec fn amount_le(a: Seq<char>, b: Seq<char>) -> bool {
    amount_sval(a) * pow10(amount_scale(b)) <= amount_sval(b) * pow10(amount_scale(a))
}

pub open spec fn amount_eq(a: Seq<char>, b: Seq<char>) -> bool {
    amount_sval(a) * pow10(amount_scale(b)) == amount_sval(b) * pow10(amount_scale(a))
}

/// What the comparison of two tokens returns: `-1`, `0` or `1` for
/// numeric order when both are well formed, and `0` otherwise, so that
/// malformed tokens compare as ties.
pub open spec fn amount_cmp_spec(a: Seq<char>, b: Seq<char>) -> int {
    if !amount_wf(a) || !amount_wf(b) {
        0
    } else if amount_eq(a, b) {
        0
    } else if amount_le(a, b) {
        -1
    } else {
        1
    }
}

/// Numeric order is total on well-formed tokens.
pub proof fn lemma_amount_le_total(a: Seq<char>, b: Seq<char>)
    ensures
        amount_le(a, b) || amount_le(b, a),
{
}

/// Numeric order is transitive.
pub proof fn lemma_amount_le_trans(a: Seq<char>, b: Seq<char>, c: Seq<char>)
    requires
        amount_le(a, b),
        amount_le(b, c),
    ensures
        amount_le(a, c),
{
    let va = amount_sval(a);
    let vb = amount_sval(b);
    let vc = amount_sval(c);
    let pa = pow10(amount_scale(a)) as int;
    let pb = pow10(amount_scale(b)) as int;
    let pc = pow10(amount_scale(c)) as int;
    lemma_pow10_pos(amount_scale(a));
    lemma_pow10_pos(amount_scale(b));
    lemma_pow10_pos(amount_scale(c));
    assert(va * pc <= vc * pa) by (nonlinear_arith)
        requires
            va * pb <= vb * pa,
            vb * pc <= vc * pb,
            pa >= 1,
            pb >= 1,
            pc >= 1,
    ;
}

/// The digit value of a digit character, computed from its code point.
pub fn digit_of_char(c: char) -> (d: u32)
    requires
        is_digit(c),
    ensures
        d == digit_val(c),
{
    (c as u32) - ('0' as u32)
}

/// Index of the first `'.'` at or after `start`, or the length when
/// there is none.
fn find_dot(c: &Vec<char>, start: usize) -> (dot: usize)
    requires
        start <= c@.len(),
    ensures
        start <= dot <= c@.len(),
        dot < c@.len() ==> c@[dot as int] == '.',
        forall|j: int| start <= j < dot ==> c@[j] != '.',
{
    let n = c.len();
    let mut i = start;
    while i < n
        invariant
            start <= i <= n,
            n == c@.len(),
            forall|j: int| start <= j < i ==> c@[j] != '.',
        decreases n - i,
    {
        if c[i] == '.' {
            return i;
        }
        i = i + 1;
    }
    n
}

/// Where the sign and the first dot sit in a token, when it is well
/// formed: `(neg, start, dot)` with the integer digits at
/// `[start, dot)` and the fraction digits at `[dot + 1, len)`.
fn scan_amount(c: &Vec<char>) -> (r: Option<(bool, usize, usize)>)
    ensures
        match r {
            Some(shape) => {
                &&& amount_wf(c@)
                &&& shape.0 == amount_neg(c@)
                &&& shape.1 == if amount_neg(c@) {
                    1int
                } else {
                    0int
                }
                &&& shape.1 <= shape.2 <= c@.len()
                &&& int_part(c@) == c@.subrange(shape.1 as int, shape.2 as int)
                &&& frac_part(c@) == if shape.2 == c@.len() {
                    Seq::<char>::empty()
                } else {
                    c@.subrange(shape.2 + 1, c@.len() as int)
                }
            },
            None => !amount_wf(c@),
        },
{
    let ghost s = c@;
    let ghost b = amount_body(s);
    proof {
        lemma_first_dot(b);
    }
    let n = c.len();
    let neg = n > 0 && c[0] == '-';
    let start: usize = if neg {
        1
    } else {
        0
    };
    assert(b =~= s.subrange(start as int, n as int));
    let dot = find_dot(c, start);
    proof {
        lemma_first_dot_at(b, dot - start);
    }
    assert(first_dot(b) == dot - start);
    // the integer part must be nonempty and all digits
    if dot == start {
        return None;
    }
    assert(int_part(s) =~= s.subrange(start as int, dot as int));
    let mut j = start;
    while j < dot
        invariant
            start <= j <= dot <= n,
            n == c@.len(),
            forall|k: int| start <= k < j ==> is_digit(#[trigger] c@[k]),
        decreases dot - j,
    {
        let ch = c[j];
        if !('0' <= ch && ch <= '9') {
            assert(!is_digit(c@[j as int]));
            assert(!all_digits(int_part(s))) by {
                assert(int_part(s)[j - start] == c@[j as int]);
            }
            return None;
        }
        j = j + 1;
    }
    assert(all_digits(int_part(s))) by {
        assert(forall|k: int|
            0 <= k < int_part(s).len() ==> int_part(s)[k] == c@[k + start] && is_digit(
                #[trigger] int_part(s)[k],
            ));
    }
    // the fraction part, when the dot is there, must be nonempty digits
    if dot < n {
        if dot + 1 == n {
            return None;
        }
        assert(frac_part(s) =~= s.subrange(dot + 1, n as int));
        let mut k = dot + 1;
        while k < n
            invariant
                dot + 1 <= k <= n,
                n == c@.len(),
                forall|m: int| dot + 1 <= m < k ==> is_digit(#[trigger] c@[m]),
            decreases n - k,
        {
            let ch = c[k];
            if !('0' <= ch && ch <= '9') {
                assert(!is_digit(c@[k as int]));
                assert(!all_digits(frac_part(s))) by {
                    assert(frac_part(s)[k - dot - 1] == c@[k as int]);
                }
                return None;
            }
            k = k + 1;
        }
        assert(all_digits(frac_part(s))) by {
            assert(forall|m: int|
                0 <= m < frac_part(s).len() ==> frac_part(s)[m] == c@[m + dot + 1] && is_digit(
                    #[trigger] frac_part(s)[m],
                ));
        }
    }
    Some((neg, start, dot))
}

/// Whether `s` is a well-formed amount token.
pub fn amount_is_wf(s: &str) -> (r: bool)
    ensures
        r == amount_wf(s@),
{
    let c = chars_vec(s);
    scan_amount(&c).is_some()
}

/// A run of `n` `'0'` characters.
pub open spec fn zeros(n: nat) -> Seq<char> {
    Seq::new(n, |i: int| '0')
}

/// The fraction slice of a body: what follows the dot, or nothing.
pub open spec fn frac_of(c: Seq<char>, dot: int) -> Seq<char> {
    if dot == c.len() {
        Seq::empty()
    } else {
        c.subrange(dot + 1, c.len() as int)
    }
}

/// The magnitude written at `[start, dot)` and after `dot`, brought
/// onto the other token's denominator.
pub open spec fn cross_of(
    c: Seq<char>,
    start: int,
    dot: int,
    d: Seq<char>,
    dstart: int,
    ddot: int,
) -> nat {
    digits_val(c.subrange(start, dot) + frac_of(c, dot)) * pow10(frac_of(d, ddot).len())
}

/// A digit string of value zero is all `'0'`.
pub proof fn lemma_digits_val_zero(s: Seq<char>)
    requires
        all_digits(s),
        digits_val(s) == 0,
    ensures
        forall|i: int| 0 <= i < s.len() ==> s[i] == '0',
    decreases s.len(),
{
    if s.len() > 0 {
        assert(digits_val(s.drop_last()) * 10 + digit_val(s.last()) == 0);
        assert(digit_val(s.last()) == 0);
        assert(s.last() == '0');
        assert(all_digits(s.drop_last()));
        lemma_digits_val_zero(s.drop_last());
        assert forall|i: int| 0 <= i < s.len() implies s[i] == '0' by {
            if i < s.len() - 1 {
                assert(s[i] == s.drop_last()[i]);
            }
        }
    }
}

/// Cross multiplication distributes over the integer/fraction split.
proof fn lemma_cross(i: Seq<char>, f: Seq<char>, t: nat)
    requires
        all_digits(f),
    ensures
        digits_val(i + f) * pow10(t) == digits_val(i) * pow10(f.len() + t) + digits_val(f) * pow10(
            t,
        ),
        digits_val(f) * pow10(t) < pow10(f.len() + t),
{
    lemma_digits_val_concat(i, f);
    lemma_pow10_add(f.len(), t);
    lemma_pow10_pos(t);
    lemma_digits_val_bound(f);
    let iv = digits_val(i);
    let fv = digits_val(f);
    let pf = pow10(f.len());
    let pt = pow10(t);
    assert((iv * pf + fv) * pt == iv * (pf * pt) + fv * pt) by (nonlinear_arith);
    assert(fv * pt < pf * pt) by (nonlinear_arith)
        requires
            fv < pf,
            pt >= 1,
    ;
}

/// When the high blocks are bounded the block order decides.
proof fn lemma_block_cmp(x1: nat, r1: nat, x2: nat, r2: nat, p: nat)
    requires
        r1 < p,
        r2 < p,
    ensures
        x1 < x2 ==> x1 * p + r1 < x2 * p + r2,
        x1 == x2 ==> ((x1 * p + r1 < x2 * p + r2) <==> r1 < r2),
        (x1 * p + r1 == x2 * p + r2) <==> (x1 == x2 && r1 == r2),
{
    assert(x1 < x2 ==> x1 * p + r1 < x2 * p + r2) by (nonlinear_arith)
        requires
            r1 < p,
            r2 < p,
    ;
    assert((x1 * p + r1 == x2 * p + r2) <==> (x1 == x2 && r1 == r2)) by (nonlinear_arith)
        requires
            r1 < p,
            r2 < p,
    ;
}

/// Stripping leading zeros keeps the value.
proof fn lemma_strip_zeros(s: Seq<char>, z: int)
    requires
        0 <= z <= s.len(),
        forall|j: int| 0 <= j < z ==> s[j] == '0',
    ensures
        digits_val(s) == digits_val(s.subrange(z, s.len() as int)),
{
    let pre = s.subrange(0, z);
    let rest = s.subrange(z, s.len() as int);
    assert(s =~= pre + rest);
    lemma_digits_val_concat(pre, rest);
    lemma_zeros_val(pre);
}

/// First index at or after `from` whose character is not `'0'`, up to
/// `to`.
fn skip_zeros(c: &Vec<char>, from: usize, to: usize) -> (z: usize)
    requires
        from <= to <= c@.len(),
    ensures
        from <= z <= to,
        forall|j: int| from <= j < z ==> c@[j] == '0',
        z < to ==> c@[z as int] != '0',
{
    let mut i = from;
    while i < to
        invariant
            from <= i <= to,
            forall|j: int| from <= j < i ==> c@[j] == '0',
        decreases to - i,
    {
        if c[i] != '0' {
            return i;
        }
        i = i + 1;
    }
    to
}

/// Compares the magnitudes denoted by two token bodies, scaled onto a
/// common denominator: `-1`, `0` or `1` as
/// `num_a * pow10(scale_b)` is below, at or above
/// `num_b * pow10(scale_a)`.
#[verifier::rlimit(30)]
fn mag_cmp(
    ca: &Vec<char>,
    starta: usize,
    dota: usize,
    cb: &Vec<char>,
    startb: usize,
    dotb: usize,
) -> (m: i8)
    requires
        starta <= dota <= ca@.len(),
        startb <= dotb <= cb@.len(),
        dota < ca@.len() ==> dota + 1 <= ca@.len(),
        dotb < cb@.len() ==> dotb + 1 <= cb@.len(),
        all_digits(ca@.subrange(starta as int, dota as int)),
        all_digits(cb@.subrange(startb as int, dotb as int)),
        all_digits(frac_of(ca@, dota as int)),
        all_digits(frac_of(cb@, dotb as int)),
    ensures
        m == -1 || m == 0 || m == 1,
        m == -1 <==> cross_of(ca@, starta as int, dota as int, cb@, startb as int, dotb as int)
            < cross_of(cb@, startb as int, dotb as int, ca@, starta as int, dota as int),
        m == 0 <==> cross_of(ca@, starta as int, dota as int, cb@, startb as int, dotb as int)
            == cross_of(cb@, startb as int, dotb as int, ca@, starta as int, dota as int),
{
    let ghost ia = ca@.subrange(starta as int, dota as int);
    let ghost ib = cb@.subrange(startb as int, dotb as int);
    let ghost fa = frac_of(ca@, dota as int);
    let ghost fb = frac_of(cb@, dotb as int);
    let ghost x = digits_val(ia + fa) * pow10(fb.len());
    let ghost y = digits_val(ib + fb) * pow10(fa.len());
    let ghost p = pow10(fa.len() + fb.len());
    proof {
        lemma_cross(ia, fa, fb.len());
        lemma_cross(ib, fb, fa.len());
        assert(fb.len() + fa.len() == fa.len() + fb.len());
        assert(x == digits_val(ia) * p + digits_val(fa) * pow10(fb.len()));
        assert(y == digits_val(ib) * p + digits_val(fb) * pow10(fa.len()));
    }
    let za = skip_zeros(ca, starta, dota);
    let zb = skip_zeros(cb, startb, dotb);
    let ghost sa_str = ca@.subrange(za as int, dota as int);
    let ghost sb_str = cb@.subrange(zb as int, dotb as int);
    proof {
        lemma_strip_zeros(ia, za - starta);
        lemma_strip_zeros(ib, zb - startb);
        assert(ia.subrange(za - starta, ia.len() as int) =~= sa_str);
        assert(ib.subrange(zb - startb, ib.len() as int) =~= sb_str);
        assert(digits_val(ia) == digits_val(sa_str));
        assert(digits_val(ib) == digits_val(sb_str));
        assert(all_digits(sa_str));
        assert(all_digits(sb_str));
    }
    let la = dota - za;
    let lb = dotb - zb;
    if la != lb {
        proof {
            if la < lb {
                assert(sb_str[0] == cb@[zb as int]);
                assert(sb_str[0] != '0');
                lemma_digits_val_bound(sa_str);
                lemma_digits_val_lower(sb_str);
                lemma_pow10_mono(sa_str.len(), (sb_str.len() - 1) as nat);
                assert(digits_val(sa_str) < digits_val(sb_str));
            } else {
                assert(sa_str[0] == ca@[za as int]);
                assert(sa_str[0] != '0');
                lemma_digits_val_bound(sb_str);
                lemma_digits_val_lower(sa_str);
                lemma_pow10_mono(sb_str.len(), (sa_str.len() - 1) as nat);
                assert(digits_val(sb_str) < digits_val(sa_str));
            }
            lemma_block_cmp(
                digits_val(ia),
                digits_val(fa) * pow10(fb.len()),
                digits_val(ib),
                digits_val(fb) * pow10(fa.len()),
                p,
            );
            lemma_block_cmp(
                digits_val(ib),
                digits_val(fb) * pow10(fa.len()),
                digits_val(ia),
                digits_val(fa) * pow10(fb.len()),
                p,
            );
        }
        if la < lb {
            return -1;
        } else {
            return 1;
        }
    }
    // same effective length: compare the integer digits one by one
    let mut j: usize = 0;
    while j < la
        invariant
            j <= la,
            la == dota - za == dotb - zb,
            forall|k: int| 0 <= k < j ==> sa_str[k] == sb_str[k],
        decreases la - j,
    {
        proof {
            assert(ca@[za + j] == sa_str[j as int]);
            assert(cb@[zb + j] == sb_str[j as int]);
            assert(is_digit(sa_str[j as int]));
            assert(is_digit(sb_str[j as int]));
        }
        let da = digit_of_char(ca[za + j]);
        let db = digit_of_char(cb[zb + j]);
        if da != db {
            proof {
                if da < db {
                    lemma_digits_lex(sa_str, sb_str, j as int);
                } else {
                    lemma_digits_lex(sb_str, sa_str, j as int);
                }
                lemma_block_cmp(
                    digits_val(ia),
                    digits_val(fa) * pow10(fb.len()),
                    digits_val(ib),
                    digits_val(fb) * pow10(fa.len()),
                    p,
                );
                lemma_block_cmp(
                    digits_val(ib),
                    digits_val(fb) * pow10(fa.len()),
                    digits_val(ia),
                    digits_val(fa) * pow10(fb.len()),
                    p,
                );
            }
            if da < db {
                return -1;
            } else {
                return 1;
            }
        }
        j = j + 1;
    }
    proof {
        assert(sa_str =~= sb_str);
        assert(digits_val(ia) == digits_val(ib));
    }
    // equal integer parts: compare the fraction digits, padded with
    // zeros on the right
    let fa_len = if dota < ca.len() {
        ca.len() - dota - 1
    } else {
        0
    };
    let fb_len = if dotb < cb.len() {
        cb.len() - dotb - 1
    } else {
        0
    };
    assert(fa_len == fa.len());
    assert(fb_len == fb.len());
    let ghost pa = fa + zeros(fb.len());
    let ghost pb = fb + zeros(fa.len());
    proof {
        lemma_digits_val_concat(fa, zeros(fb.len()));
        lemma_digits_val_concat(fb, zeros(fa.len()));
        lemma_zeros_val(zeros(fb.len()));
        lemma_zeros_val(zeros(fa.len()));
        assert(digits_val(pa) == digits_val(fa) * pow10(fb.len()));
        assert(digits_val(pb) == digits_val(fb) * pow10(fa.len()));
        assert(all_digits(pa));
        assert(all_digits(pb));
    }
    let max = if fa_len < fb_len {
        fb_len
    } else {
        fa_len
    };
    let mut i: usize = 0;
    while i < max
        invariant
            i <= max,
            max == if fa.len() < fb.len() {
                fb.len()
            } else {
                fa.len()
            },
            forall|k: int| 0 <= k < i ==> pa[k] == pb[k],
        decreases max - i,
    {
        proof {
            if i < fa.len() {
                assert(ca@[dota + 1 + i] == fa[i as int]);
                assert(is_digit(fa[i as int]));
            }
            if i < fb.len() {
                assert(cb@[dotb + 1 + i] == fb[i as int]);
                assert(is_digit(fb[i as int]));
            }
        }
        let da = if i < fa_len {
            digit_of_char(ca[dota + 1 + i])
        } else {
            0
        };
        let db = if i < fb_len {
            digit_of_char(cb[dotb + 1 + i])
        } else {
            0
        };
        proof {
            assert(pa[i as int] == if i < fa.len() {
                fa[i as int]
            } else {
                '0'
            });
            assert(pb[i as int] == if i < fb.len() {
                fb[i as int]
            } else {
                '0'
            });
            assert(da == digit_val(pa[i as int]));
            assert(db == digit_val(pb[i as int]));
        }
        if da != db {
            proof {
                if da < db {
                    lemma_digits_lex(pa, pb, i as int);
                } else {
                    lemma_digits_lex(pb, pa, i as int);
                }
                lemma_block_cmp(
                    digits_val(ia),
                    digits_val(pa),
                    digits_val(ib),
                    digits_val(pb),
                    p,
                );
            }
            if da < db {
                return -1;
            } else {
                return 1;
            }
        }
        i = i + 1;
    }
    proof {
        assert forall|k: int| 0 <= k < pa.len() implies pa[k] == pb[k] by {
            if k >= max {
                assert(pa[k] == '0');
                assert(pb[k] == '0');
            }
        }
        assert(pa =~= pb);
        assert(x == y);
    }
    0
}

/// Whether the magnitude written at `[start, dot)` and after `dot`
/// is zero.
fn is_zero_body(c: &Vec<char>, start: usize, dot: usize) -> (r: bool)
    requires
        start <= dot <= c@.len(),
        all_digits(c@.subrange(start as int, dot as int)),
        all_digits(frac_of(c@, dot as int)),
    ensures
        r == (digits_val(c@.subrange(start as int, dot as int) + frac_of(c@, dot as int)) == 0),
{
    let ghost ip = c@.subrange(start as int, dot as int);
    let ghost fp = frac_of(c@, dot as int);
    proof {
        if digits_val(ip + fp) == 0 {
            assert(all_digits(ip + fp));
            lemma_digits_val_zero(ip + fp);
        }
    }
    let z = skip_zeros(c, start, dot);
    if z < dot {
        proof {
            assert((ip + fp)[z - start] == c@[z as int]);
        }
        return false;
    }
    let n = c.len();
    if dot < n {
        let z2 = skip_zeros(c, dot + 1, n);
        if z2 < n {
            proof {
                assert((ip + fp)[ip.len() + (z2 - dot - 1)] == c@[z2 as int]);
            }
            return false;
        }
    }
    proof {
        assert(forall|k: int| 0 <= k < (ip + fp).len() ==> (ip + fp)[k] == '0');
        lemma_zeros_val(ip + fp);
    }
    true
}

/// Compares two amount tokens: `-1`, `0` or `1` for numeric order when
/// both are well formed, `0` otherwise.
pub fn amount_cmp(a: &str, b: &str) -> (r: i8)
    ensures
        r as int == amount_cmp_spec(a@, b@),
{
    let ca = chars_vec(a);
    let cb = chars_vec(b);
    let shape_a = scan_amount(&ca);
    let shape_b = scan_amount(&cb);
    let (nega, starta, dota) = match shape_a {
        Some(t) => t,
        None => {
            return 0;
        },
    };
    let (negb, startb, dotb) = match shape_b {
        Some(t) => t,
        None => {
            return 0;
        },
    };
    let ghost na = amount_num(a@);
    let ghost nb = amount_num(b@);
    let ghost pa = pow10(amount_scale(a@));
    let ghost pb = pow10(amount_scale(b@));
    proof {
        assert(frac_part(a@) == frac_of(ca@, dota as int));
        assert(frac_part(b@) == frac_of(cb@, dotb as int));
        lemma_pow10_pos(amount_scale(a@));
        lemma_pow10_pos(amount_scale(b@));
    }
    if nega == negb {
        let m = mag_cmp(&ca, starta, dota, &cb, startb, dotb);
        proof {
            assert(cross_of(ca@, starta as int, dota as int, cb@, startb as int, dotb as int) == na
                * pb);
            assert(cross_of(cb@, startb as int, dotb as int, ca@, starta as int, dota as int) == nb
                * pa);
            if nega {
                assert(amount_sval(a@) * pb == -((na * pb) as int)) by (nonlinear_arith)
                    requires
                        amount_sval(a@) == -(na as int),
                ;
                assert(amount_sval(b@) * pa == -((nb * pa) as int)) by (nonlinear_arith)
                    requires
                        amount_sval(b@) == -(nb as int),
                ;
            }
        }
        let r: i8 = if nega {
            if m == -1 {
                1
            } else if m == 1 {
                -1
            } else {
                0
            }
        } else {
            m
        };
        assert(amount_eq(a@, b@) <==> na * pb == nb * pa);
        assert(r as int == amount_cmp_spec(a@, b@));
        r
    } else {
        let zeroa = is_zero_body(&ca, starta, dota);
        let zerob = is_zero_body(&cb, startb, dotb);
        proof {
            assert(zeroa == (na == 0));
            assert(zerob == (nb == 0));
            assert(na * pb >= 0);
            assert(nb * pa >= 0);
            if na > 0 {
                assert(na * pb > 0) by (nonlinear_arith)
                    requires
                        na > 0,
                        pb >= 1,
                ;
            }
            if nb > 0 {
                assert(nb * pa > 0) by (nonlinear_arith)
                    requires
                        nb > 0,
                        pa >= 1,
                ;
            }
            if nega {
                assert(amount_sval(a@) * pb == -((na * pb) as int)) by (nonlinear_arith)
                    requires
                        amount_sval(a@) == -(na as int),
                ;
            }
            if negb {
                assert(amount_sval(b@) * pa == -((nb * pa) as int)) by (nonlinear_arith)
                    requires
                        amount_sval(b@) == -(nb as int),
                ;
            }
            if !nega {
                assert(amount_sval(a@) * pb == (na * pb) as int) by (nonlinear_arith)
                    requires
                        amount_sval(a@) == na as int,
                ;
            }
            if !negb {
                assert(amount_sval(b@) * pa == (nb * pa) as int) by (nonlinear_arith)
                    requires
                        amount_sval(b@) == nb as int,
                ;
            }
        }
        let r: i8 = if zeroa && zerob {
            0
        } else if nega {
            -1
        } else {
            1
        };
        proof {
            if zeroa && zerob {
                assert(na * pb == 0) by (nonlinear_arith)
                    requires
                        na == 0,
                ;
                assert(nb * pa == 0) by (nonlinear_arith)
                    requires
                        nb == 0,
                ;
                assert(amount_eq(a@, b@));
            } else {
                assert(!(na == 0 && nb == 0));
                assert(!amount_eq(a@, b@));
                if nega {
                    assert(amount_le(a@, b@));
                } else {
                    assert(!amount_le(a@, b@));
                }
            }
        }
        assert(r as int == amount_cmp_spec(a@, b@));
        r
    }
}

} // verus!
