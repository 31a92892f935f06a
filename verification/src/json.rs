//! The JSON shape of transactions and blocks.
//!
//! A frame's payload renders a block as
//! `{"id":..,"time_create":..,"transactions":[..],"previous_hash":..,"nonce":..}`
//! and a transaction as its six fields in order, the transfer as a
//! bare number token. Strings escape the quote, the backslash and the
//! common control characters; the renderer is exact against this
//! shape, and a successful parse consumed precisely the rendering of
//! what it returned.

use vstd::prelude::*;

use crate::block::{Block, BlockView};
use crate::digits::{dec_of, digit_char, is_digit};
use crate::strutil::push_char;
use crate::transaction::SerializedTransaction;

verus! {

/// How one character is written inside a JSON string.
pub open spec fn esc_char(c: char) -> Seq<char> {
    if c == '"' {
        seq!['\\', '"']
    } else if c == '\\' {
        seq!['\\', '\\']
    } else if c == '\n' {
        seq!['\\', 'n']
    } else if c == '\r' {
        seq!['\\', 'r']
    } else if c == '\t' {
        seq!['\\', 't']
    } else {
        seq![c]
    }
}

pub open spec fn json_escape(s: Seq<char>) -> Seq<char>
    decreases s.len(),
{
    if s.len() == 0 {
        Seq::empty()
    } else {
        json_escape(s.drop_last()) + esc_char(s.last())
    }
}

/// A quoted, escaped string token.
pub open spec fn json_string(s: Seq<char>) -> Seq<char> {
    seq!['"'] + json_escape(s) + seq!['"']
}

/// A field key: quoted name and colon.
pub open spec fn json_key(name: Seq<char>) -> Seq<char> {
    seq!['"'] + name + seq!['"', ':']
}

/// The decimal rendering of a signed number.
pub open spec fn dec_of_int(i: int) -> Seq<char> {
    if i < 0 {
        seq!['-'] + dec_of((-i) as nat)
    } else {
        dec_of(i as nat)
    }
}

/// A transaction's JSON object.
pub open spec fn json_tx(t: SerializedTransaction) -> Seq<char> {
    seq!['{'] + json_key("sender"@) + json_string(t.sender@) + seq![','] + json_key("buyer"@)
        + json_string(t.buyer@) + seq![','] + json_key("seller"@) + json_string(t.seller@) + seq![
        ',',
    ] + json_key("message"@) + json_string(t.message@) + seq![','] + json_key("transfer"@)
        + t.transfer@ + seq![','] + json_key("signature"@) + json_string(t.signature@) + seq!['}']
}

/// A transaction list: the objects between brackets, comma-separated.
pub open spec fn json_txs_inner(ts: Seq<SerializedTransaction>) -> Seq<char>
    decreases ts.len(),
{
    if ts.len() == 0 {
        Seq::empty()
    } else if ts.len() == 1 {
        json_tx(ts[0])
    } else {
        json_txs_inner(ts.drop_last()) + seq![','] + json_tx(ts.last())
    }
}

pub open spec fn json_txs(ts: Seq<SerializedTransaction>) -> Seq<char> {
    seq!['['] + json_txs_inner(ts) + seq![']']
}

/// A block's JSON object.
pub open spec fn json_block(v: BlockView) -> Seq<char> {
    seq!['{'] + json_key("id"@) + dec_of(v.id) + seq![','] + json_key("time_create"@) + dec_of_int(
        v.time,
    ) + seq![','] + json_key("transactions"@) + json_txs(v.txs) + seq![','] + json_key(
        "previous_hash"@,
    ) + json_string(v.prev) + seq![','] + json_key("nonce"@) + dec_of(v.nonce) + seq!['}']
}

/// Appends the escaped form of `s` to `out`.
fn push_escaped(out: &mut String, s: &str)
    ensures
        final(out)@ == old(out)@ + json_escape(s@),
{
    let chars = crate::strutil::chars_vec(s);
    let n = chars.len();
    let mut i: usize = 0;
    while i < n
        invariant
            i <= n,
            n == chars@.len(),
            chars@ == s@,
            out@ == old(out)@ + json_escape(s@.subrange(0, i as int)),
        decreases n - i,
    {
        let c = chars[i];
        if c == '"' {
            push_char(out, '\\');
            push_char(out, '"');
        } else if c == '\\' {
            push_char(out, '\\');
            push_char(out, '\\');
        } else if c == '\n' {
            push_char(out, '\\');
            push_char(out, 'n');
        } else if c == '\r' {
            push_char(out, '\\');
            push_char(out, 'r');
        } else if c == '\t' {
            push_char(out, '\\');
            push_char(out, 't');
        } else {
            push_char(out, c);
        }
        proof {
            let pre = s@.subrange(0, i + 1);
            assert(pre.drop_last() =~= s@.subrange(0, i as int));
            assert(pre.last() == s@[i as int]);
            assert(out@ =~= old(out)@ + json_escape(pre));
        }
        i = i + 1;
    }
    proof {
        assert(s@.subrange(0, n as int) =~= s@);
    }
}

/// Appends a quoted, escaped string token.
fn push_json_string(out: &mut String, s: &str)
    ensures
        final(out)@ == old(out)@ + json_string(s@),
{
    push_char(out, '"');
    push_escaped(out, s);
    push_char(out, '"');
    proof {
        assert(final(out)@ =~= old(out)@ + json_string(s@));
    }
}

/// Appends `"name":` for a field.
fn push_json_key(out: &mut String, name: &str)
    ensures
        final(out)@ == old(out)@ + json_key(name@),
{
    push_char(out, '"');
    out.append(name);
    push_char(out, '"');
    push_char(out, ':');
    proof {
        assert(final(out)@ =~= old(out)@ + json_key(name@));
    }
}

/// Appends the decimal rendering of a signed number.
fn push_i64_dec(out: &mut String, n: i64)
    ensures
        final(out)@ == old(out)@ + dec_of_int(n as int),
{
    if n < 0 {
        push_char(out, '-');
        let magnitude: u64 = ((-(n + 1)) as u64) + 1;
        assert(magnitude == -(n as int));
        crate::digits::push_u64_dec(out, magnitude);
        proof {
            assert(final(out)@ =~= old(out)@ + dec_of_int(n as int));
        }
    } else {
        crate::digits::push_u64_dec(out, n as u64);
    }
}

/// Renders one transaction.
pub fn tx_to_json(t: &SerializedTransaction) -> (r: String)
    ensures
        r@ == json_tx(*t),
{
    let mut out = String::new();
    push_char(&mut out, '{');
    push_json_key(&mut out, "sender");
    push_json_string(&mut out, t.sender.as_str());
    push_char(&mut out, ',');
    push_json_key(&mut out, "buyer");
    push_json_string(&mut out, t.buyer.as_str());
    push_char(&mut out, ',');
    push_json_key(&mut out, "seller");
    push_json_string(&mut out, t.seller.as_str());
    push_char(&mut out, ',');
    push_json_key(&mut out, "message");
    push_json_string(&mut out, t.message.as_str());
    push_char(&mut out, ',');
    push_json_key(&mut out, "transfer");
    out.append(t.transfer.as_str());
    push_char(&mut out, ',');
    push_json_key(&mut out, "signature");
    push_json_string(&mut out, t.signature.as_str());
    push_char(&mut out, '}');
    proof {
        assert(out@ =~= json_tx(*t));
    }
    out
}

/// Renders a block.
#[verifier::rlimit(80)]
pub fn block_to_json(b: &Block) -> (r: String)
    ensures
        r@ == json_block(b@),
{
    let mut out = String::new();
    push_char(&mut out, '{');
    push_json_key(&mut out, "id");
    crate::digits::push_u64_dec(&mut out, b.get_id() as u64);
    push_char(&mut out, ',');
    push_json_key(&mut out, "time_create");
    push_i64_dec(&mut out, b.get_datetime());
    push_char(&mut out, ',');
    push_json_key(&mut out, "transactions");
    push_char(&mut out, '[');
    let txs = b.get_transactions();
    let n = txs.len();
    let mut i: usize = 0;
    while i < n
        invariant
            i <= n,
            n == txs@.len(),
            txs@ == b@.txs,
            out@ == seq!['{'] + json_key("id"@) + dec_of(b@.id) + seq![','] + json_key(
                "time_create"@,
            ) + dec_of_int(b@.time) + seq![','] + json_key("transactions"@) + seq!['[']
                + json_txs_inner(b@.txs.subrange(0, i as int)),
        decreases n - i,
    {
        if i > 0 {
            push_char(&mut out, ',');
        }
        let piece = tx_to_json(&txs[i]);
        out.append(piece.as_str());
        proof {
            let pre = b@.txs.subrange(0, i + 1);
            assert(pre.drop_last() =~= b@.txs.subrange(0, i as int));
            assert(pre.last() == b@.txs[i as int]);
            if i == 0 {
                assert(pre.len() == 1);
                assert(pre[0] == b@.txs[0]);
            }
            assert(out@ =~= seq!['{'] + json_key("id"@) + dec_of(b@.id) + seq![','] + json_key(
                "time_create"@,
            ) + dec_of_int(b@.time) + seq![','] + json_key("transactions"@) + seq!['[']
                + json_txs_inner(pre));
        }
        i = i + 1;
    }
    proof {
        assert(b@.txs.subrange(0, n as int) =~= b@.txs);
    }
    push_char(&mut out, ']');
    push_char(&mut out, ',');
    push_json_key(&mut out, "previous_hash");
    push_json_string(&mut out, b.get_previous_hash().as_str());
    push_char(&mut out, ',');
    push_json_key(&mut out, "nonce");
    crate::digits::push_u64_dec(&mut out, b.get_nonce());
    push_char(&mut out, '}');
    proof {
        assert(out@ =~= json_block(b@));
    }
    out
}

/// A digit character is recovered from its value.
proof fn lemma_digit_char_inverse(c: char)
    requires
        is_digit(c),
    ensures
        digit_char(crate::digits::digit_val(c)) == c,
{
    if c == '0' {
    } else if c == '1' {
    } else if c == '2' {
    } else if c == '3' {
    } else if c == '4' {
    } else if c == '5' {
    } else if c == '6' {
    } else if c == '7' {
    } else if c == '8' {
    } else {
        assert(c == '9');
    }
}

/// A digit string without a leading zero is the canonical rendering
/// of its value.
proof fn lemma_dec_canon(s: Seq<char>)
    requires
        crate::digits::all_digits(s),
        s.len() >= 1,
        s.len() > 1 ==> s[0] != '0',
    ensures
        s == dec_of(crate::digits::digits_val(s)),
    decreases s.len(),
{
    let v = crate::digits::digits_val(s);
    if s.len() == 1 {
        crate::digits::lemma_digits_val_single(s[0]);
        assert(s =~= seq![s[0]]);
        assert(v == crate::digits::digit_val(s[0]));
        lemma_digit_char_inverse(s[0]);
        assert(dec_of(v) =~= seq![digit_char(v)]);
    } else {
        let dl = s.drop_last();
        assert(crate::digits::all_digits(dl));
        assert(dl[0] == s[0]);
        crate::digits::lemma_digits_val_lower(dl);
        crate::digits::lemma_pow10_mono(0, (dl.len() - 1) as nat);
        assert(crate::digits::digits_val(dl) >= 1);
        let d = crate::digits::digit_val(s.last());
        assert(v == crate::digits::digits_val(dl) * 10 + d);
        assert(v >= 10) by (nonlinear_arith)
            requires
                crate::digits::digits_val(dl) >= 1,
                v == crate::digits::digits_val(dl) * 10 + d,
        ;
        assert(v / 10 == crate::digits::digits_val(dl) && v % 10 == d) by (nonlinear_arith)
            requires
                v == crate::digits::digits_val(dl) * 10 + d,
                d < 10,
        ;
        lemma_dec_canon(dl);
        lemma_digit_char_inverse(s.last());
        assert(dec_of(v) == dec_of(v / 10).push(digit_char(v % 10)));
        assert(s =~= dl.push(s.last()));
    }
}

/// Whether `t` occurs in `c` at position `pos`.
pub open spec fn text_at(c: Seq<char>, pos: int, t: Seq<char>) -> bool {
    0 <= pos && pos + t.len() <= c.len() && c.subrange(pos, pos + t.len()) == t
}

/// A concatenation at a position splits into its two parts.
proof fn lemma_text_at_split(c: Seq<char>, pos: int, a: Seq<char>, b: Seq<char>)
    requires
        text_at(c, pos, a + b),
    ensures
        text_at(c, pos, a),
        text_at(c, pos + a.len(), b),
{
    assert(c.subrange(pos, pos + a.len()) =~= a) by {
        assert forall|j: int| 0 <= j < a.len() implies c.subrange(pos, pos + a.len())[j] == a[j] by {
            assert((a + b)[j] == a[j]);
            assert(c.subrange(pos, pos + (a + b).len() as int)[j] == (a + b)[j]);
        }
    }
    assert(c.subrange(pos + a.len(), pos + a.len() + b.len()) =~= b) by {
        assert forall|j: int|
            0 <= j < b.len() implies c.subrange(pos + a.len(), pos + a.len() + b.len())[j]
            == b[j] by {
            assert((a + b)[a.len() + j] == b[j]);
            assert(c.subrange(pos, pos + (a + b).len() as int)[a.len() + j] == (a + b)[a.len() + j]);
        }
    }
}

/// Escaping distributes over concatenation.
proof fn lemma_escape_concat(a: Seq<char>, b: Seq<char>)
    ensures
        json_escape(a + b) == json_escape(a) + json_escape(b),
    decreases b.len(),
{
    if b.len() == 0 {
        assert(a + b =~= a);
        assert(json_escape(a) + json_escape(b) =~= json_escape(a));
    } else {
        lemma_escape_concat(a, b.drop_last());
        assert((a + b).drop_last() =~= a + b.drop_last());
        assert((a + b).last() == b.last());
        assert(json_escape(b) == json_escape(b.drop_last()) + esc_char(b.last()));
        assert(json_escape(a + b) =~= json_escape(a) + json_escape(b));
    }
}

/// The escaped prefix of length `k`, split off.
proof fn lemma_escape_take(x: Seq<char>, k: int)
    requires
        0 <= k <= x.len(),
    ensures
        json_escape(x) == json_escape(x.subrange(0, k)) + json_escape(x.subrange(k, x.len() as int)),
        json_escape(x.subrange(0, k)).len() <= json_escape(x).len(),
{
    assert(x =~= x.subrange(0, k) + x.subrange(k, x.len() as int));
    lemma_escape_concat(x.subrange(0, k), x.subrange(k, x.len() as int));
}

/// Escaping one character alone.
proof fn lemma_escape_single(ch: char)
    ensures
        json_escape(seq![ch]) == esc_char(ch),
{
    let s = seq![ch];
    assert(s.drop_last() =~= Seq::<char>::empty());
    assert(json_escape(Seq::<char>::empty()) =~= Seq::<char>::empty());
    assert(json_escape(s) =~= esc_char(ch));
}

/// Consumes the exact characters of `lit` at `pos`; it succeeds
/// whenever they are there.
fn eat_lit(c: &Vec<char>, pos: usize, lit: &str) -> (r: Option<usize>)
    ensures
        (r matches Some(p) ==> pos <= p <= c@.len() && p == pos + lit@.len() && c@.subrange(
            pos as int,
            p as int,
        ) == lit@),
        text_at(c@, pos as int, lit@) ==> r is Some,
{
    let want = crate::strutil::chars_vec(lit);
    let n = want.len();
    if n > c.len() || pos > c.len() - n {
        return None;
    }
    let mut i: usize = 0;
    while i < n
        invariant
            i <= n,
            n == want@.len(),
            want@ == lit@,
            pos + n <= c@.len(),
            forall|j: int| 0 <= j < i ==> c@[pos + j] == lit@[j],
        decreases n - i,
    {
        if c[pos + i] != want[i] {
            proof {
                if text_at(c@, pos as int, lit@) {
                    assert(c@.subrange(pos as int, pos + lit@.len())[i as int] == lit@[i as int]);
                }
            }
            return None;
        }
        i = i + 1;
    }
    proof {
        assert(c@.subrange(pos as int, (pos + n) as int) =~= lit@);
    }
    Some(pos + n)
}

/// What the string scanner sees when it has matched the first `k`
/// characters of a token `x` that stands at `pos`.
proof fn lemma_string_scan_step(c: Seq<char>, pos: int, x: Seq<char>, k: int, i: int)
    requires
        text_at(c, pos, json_string(x)),
        0 <= k <= x.len(),
        i == pos + 1 + json_escape(x.subrange(0, k)).len(),
    ensures
        i < c.len(),
        k == x.len() ==> c[i] == '"',
        k < x.len() ==> c[i] == esc_char(x[k])[0],
        k < x.len() && esc_char(x[k]).len() == 2 ==> i + 1 < c.len() && c[i + 1] == esc_char(
            x[k],
        )[1],
        k < x.len() ==> i + esc_char(x[k]).len() == pos + 1 + json_escape(
            x.subrange(0, k + 1),
        ).len(),
        k < x.len() ==> x.subrange(0, k).push(x[k]) == x.subrange(0, k + 1),
{
    let js = json_string(x);
    let esc = json_escape(x);
    lemma_escape_take(x, k);
    let m = json_escape(x.subrange(0, k)).len() as int;
    assert(forall|j: int| 0 <= j < js.len() ==> c[pos + j] == #[trigger] js[j]) by {
        assert(forall|j: int|
            0 <= j < js.len() ==> c.subrange(pos, pos + js.len() as int)[j] == #[trigger] js[j]);
    }
    if k == x.len() {
        assert(x.subrange(0, k) =~= x);
        assert(js[1 + m] == '"');
        assert(c[i] == js[1 + m]);
    } else {
        let rest = x.subrange(k, x.len() as int);
        assert(rest =~= seq![x[k]] + x.subrange(k + 1, x.len() as int));
        lemma_escape_concat(seq![x[k]], x.subrange(k + 1, x.len() as int));
        lemma_escape_single(x[k]);
        assert(json_escape(rest) == esc_char(x[k]) + json_escape(
            x.subrange(k + 1, x.len() as int),
        ));
        assert(esc == json_escape(x.subrange(0, k)) + json_escape(rest));
        assert(esc[m] == esc_char(x[k])[0]);
        assert(js[1 + m] == esc[m]);
        assert(c[i] == js[1 + m]);
        if esc_char(x[k]).len() == 2 {
            assert(esc[m + 1] == esc_char(x[k])[1]);
            assert(js[1 + m + 1] == esc[m + 1]);
            assert(c[i + 1] == js[1 + m + 1]);
        }
        assert(x.subrange(0, k) + seq![x[k]] =~= x.subrange(0, k + 1));
        lemma_escape_concat(x.subrange(0, k), seq![x[k]]);
        assert(x.subrange(0, k).push(x[k]) =~= x.subrange(0, k + 1));
    }
}

/// Reads a quoted string token. What it consumed is exactly the
/// canonical rendering of what it returns, and whenever a canonical
/// token stands at `pos` the scan succeeds and returns its contents.
#[verifier::rlimit(100)]
fn parse_string(c: &Vec<char>, pos: usize) -> (r: Option<(String, usize)>)
    ensures
        (r matches Some(sp) ==> pos < sp.1 <= c@.len() && c@.subrange(pos as int, sp.1 as int)
            == json_string(sp.0@)),
        forall|x: Seq<char>|
            #[trigger] text_at(c@, pos as int, json_string(x)) ==> (r matches Some(sp) && sp.0@
                == x && sp.1 == pos + json_string(x).len()),
{
    let n = c.len();
    if pos >= n || c[pos] != '"' {
        proof {
            assert forall|x: Seq<char>| !text_at(c@, pos as int, json_string(x)) by {
                if text_at(c@, pos as int, json_string(x)) {
                    assert(c@.subrange(pos as int, pos + json_string(x).len() as int)[0] == '"');
                }
            }
        }
        return None;
    }
    let mut acc = String::new();
    let mut i = pos + 1;
    proof {
        assert(c@.subrange(pos as int, i as int) =~= seq!['"'] + json_escape(acc@));
        assert forall|x: Seq<char>| #[trigger] text_at(c@, pos as int, json_string(x)) implies exists|
            k: int,
        |
            0 <= k <= x.len() && acc@ == #[trigger] x.subrange(0, k) && i == pos + 1 + json_escape(
                x.subrange(0, k),
            ).len() by {
            assert(acc@ =~= x.subrange(0, 0));
            assert(json_escape(x.subrange(0, 0)) =~= Seq::<char>::empty());
        }
    }
    while i < n
        invariant
            pos + 1 <= i <= n,
            n == c@.len(),
            c@.subrange(pos as int, i as int) == seq!['"'] + json_escape(acc@),
            forall|x: Seq<char>|
                #[trigger] text_at(c@, pos as int, json_string(x)) ==> exists|k: int|
                    0 <= k <= x.len() && acc@ == #[trigger] x.subrange(0, k) && i == pos + 1
                        + json_escape(x.subrange(0, k)).len(),
        decreases n - i,
    {
        let ch = c[i];
        if ch == '"' {
            proof {
                assert(c@.subrange(pos as int, (i + 1) as int) =~= json_string(acc@));
                assert forall|x: Seq<char>|
                    #[trigger] text_at(c@, pos as int, json_string(x)) implies acc@ == x && i + 1
                    == pos + json_string(x).len() by {
                    let k = choose|k: int|
                        0 <= k <= x.len() && acc@ == #[trigger] x.subrange(0, k) && i == pos + 1
                            + json_escape(x.subrange(0, k)).len();
                    lemma_string_scan_step(c@, pos as int, x, k, i as int);
                    if k < x.len() {
                        assert(c@[i as int] == esc_char(x[k])[0]);
                        assert(esc_char(x[k])[0] != '"');
                        assert(false);
                    }
                    assert(acc@ =~= x);
                    lemma_escape_take(x, k);
                }
            }
            return Some((acc, i + 1));
        }
        if ch == '\\' {
            proof {
                assert forall|x: Seq<char>|
                    #[trigger] text_at(c@, pos as int, json_string(x)) implies exists|k: int|
                    0 <= k < x.len() && acc@ == #[trigger] x.subrange(0, k) && i == pos + 1
                        + json_escape(x.subrange(0, k)).len() && esc_char(x[k]).len() == 2
                        && esc_char(x[k])[0] == '\\' by {
                    let k = choose|k: int|
                        0 <= k <= x.len() && acc@ == #[trigger] x.subrange(0, k) && i == pos + 1
                            + json_escape(x.subrange(0, k)).len();
                    lemma_string_scan_step(c@, pos as int, x, k, i as int);
                    if k == x.len() {
                        assert(c@[i as int] == '"');
                        assert(false);
                    }
                    assert(esc_char(x[k])[0] == '\\');
                    if !(x[k] == '"' || x[k] == '\\' || x[k] == '\n' || x[k] == '\r' || x[k]
                        == '\t') {
                        assert(esc_char(x[k]) == seq![x[k]]);
                        assert(x[k] == '\\');
                        assert(false);
                    }
                }
            }
            if i + 1 >= n {
                proof {
                    assert forall|x: Seq<char>| !text_at(c@, pos as int, json_string(x)) by {
                        if text_at(c@, pos as int, json_string(x)) {
                            let k = choose|k: int|
                                0 <= k < x.len() && acc@ == #[trigger] x.subrange(0, k) && i == pos
                                    + 1 + json_escape(x.subrange(0, k)).len() && esc_char(
                                    x[k],
                                ).len() == 2 && esc_char(x[k])[0] == '\\';
                            lemma_string_scan_step(c@, pos as int, x, k, i as int);
                        }
                    }
                }
                return None;
            }
            let code = c[i + 1];
            let m: char = if code == '"' {
                '"'
            } else if code == '\\' {
                '\\'
            } else if code == 'n' {
                '\n'
            } else if code == 'r' {
                '\r'
            } else if code == 't' {
                '\t'
            } else {
                proof {
                    assert forall|x: Seq<char>| !text_at(c@, pos as int, json_string(x)) by {
                        if text_at(c@, pos as int, json_string(x)) {
                            let k = choose|k: int|
                                0 <= k < x.len() && acc@ == #[trigger] x.subrange(0, k) && i == pos
                                    + 1 + json_escape(x.subrange(0, k)).len() && esc_char(
                                    x[k],
                                ).len() == 2 && esc_char(x[k])[0] == '\\';
                            lemma_string_scan_step(c@, pos as int, x, k, i as int);
                            assert(c@[i + 1] == esc_char(x[k])[1]);
                        }
                    }
                }
                return None;
            };
            let ghost acc_pre = acc@;
            push_char(&mut acc, m);
            proof {
                assert(acc@.drop_last() =~= acc_pre);
                assert(esc_char(m) =~= seq![c@[i as int], c@[i + 1]]);
                assert(c@.subrange(pos as int, (i + 2) as int) =~= seq!['"'] + json_escape(acc@));
                assert forall|x: Seq<char>|
                    #[trigger] text_at(c@, pos as int, json_string(x)) implies exists|k2: int|
                    0 <= k2 <= x.len() && acc@ == #[trigger] x.subrange(0, k2) && i + 2 == pos + 1
                        + json_escape(x.subrange(0, k2)).len() by {
                    let k = choose|k: int|
                        0 <= k < x.len() && acc_pre == #[trigger] x.subrange(0, k) && i == pos + 1
                            + json_escape(x.subrange(0, k)).len() && esc_char(x[k]).len() == 2
                            && esc_char(x[k])[0] == '\\';
                    lemma_string_scan_step(c@, pos as int, x, k, i as int);
                    assert(c@[i + 1] == esc_char(x[k])[1]);
                    assert(m == x[k]) by {
                        if x[k] == '"' {
                        } else if x[k] == '\\' {
                        } else if x[k] == '\n' {
                        } else if x[k] == '\r' {
                        } else if x[k] == '\t' {
                        } else {
                            assert(esc_char(x[k]).len() == 1);
                        }
                    }
                    assert(acc@ == x.subrange(0, k + 1));
                }
            }
            i = i + 2;
        } else if ch == '\n' || ch == '\r' || ch == '\t' {
            proof {
                assert forall|x: Seq<char>| !text_at(c@, pos as int, json_string(x)) by {
                    if text_at(c@, pos as int, json_string(x)) {
                        let k = choose|k: int|
                            0 <= k <= x.len() && acc@ == #[trigger] x.subrange(0, k) && i == pos + 1
                                + json_escape(x.subrange(0, k)).len();
                        lemma_string_scan_step(c@, pos as int, x, k, i as int);
                        if k == x.len() {
                            assert(c@[i as int] == '"');
                        } else {
                            assert(c@[i as int] == esc_char(x[k])[0]);
                            if x[k] == '"' || x[k] == '\\' || x[k] == '\n' || x[k] == '\r' || x[k]
                                == '\t' {
                                assert(esc_char(x[k])[0] == '\\');
                            } else {
                                assert(esc_char(x[k])[0] == x[k]);
                            }
                        }
                    }
                }
            }
            return None;
        } else {
            let ghost acc_pre = acc@;
            push_char(&mut acc, ch);
            proof {
                assert(acc@.drop_last() =~= acc_pre);
                assert(esc_char(ch) =~= seq![c@[i as int]]);
                assert(c@.subrange(pos as int, (i + 1) as int) =~= seq!['"'] + json_escape(acc@));
                assert forall|x: Seq<char>|
                    #[trigger] text_at(c@, pos as int, json_string(x)) implies exists|k2: int|
                    0 <= k2 <= x.len() && acc@ == #[trigger] x.subrange(0, k2) && i + 1 == pos + 1
                        + json_escape(x.subrange(0, k2)).len() by {
                    let k = choose|k: int|
                        0 <= k <= x.len() && acc_pre == #[trigger] x.subrange(0, k) && i == pos + 1
                            + json_escape(x.subrange(0, k)).len();
                    lemma_string_scan_step(c@, pos as int, x, k, i as int);
                    if k == x.len() {
                        assert(c@[i as int] == '"');
                        assert(false);
                    }
                    assert(c@[i as int] == esc_char(x[k])[0]);
                    assert(ch == x[k]) by {
                        if x[k] == '"' || x[k] == '\\' || x[k] == '\n' || x[k] == '\r' || x[k]
                            == '\t' {
                            assert(esc_char(x[k])[0] == '\\');
                            assert(false);
                        }
                    }
                    assert(acc@ == x.subrange(0, k + 1));
                }
            }
            i = i + 1;
        }
    }
    proof {
        assert forall|x: Seq<char>| !text_at(c@, pos as int, json_string(x)) by {
            if text_at(c@, pos as int, json_string(x)) {
                let k = choose|k: int|
                    0 <= k <= x.len() && acc@ == #[trigger] x.subrange(0, k) && i == pos + 1
                        + json_escape(x.subrange(0, k)).len();
                lemma_string_scan_step(c@, pos as int, x, k, i as int);
            }
        }
    }
    None
}

/// Where a position sits just past a number token: at the end, or
/// before something that is not a digit.
pub open spec fn nondigit_after(c: Seq<char>, q: int) -> bool {
    q == c.len() || !is_digit(c[q])
}

/// A prefix of a digit string is worth no more than the whole.
proof fn lemma_digits_val_prefix(s: Seq<char>, k: int)
    requires
        0 <= k <= s.len(),
    ensures
        crate::digits::digits_val(s.subrange(0, k)) <= crate::digits::digits_val(s),
{
    assert(s =~= s.subrange(0, k) + s.subrange(k, s.len() as int));
    crate::digits::lemma_digits_val_concat(s.subrange(0, k), s.subrange(k, s.len() as int));
    crate::digits::lemma_pow10_pos(s.subrange(k, s.len() as int).len());
    let a = crate::digits::digits_val(s.subrange(0, k));
    let q = crate::digits::pow10(s.subrange(k, s.len() as int).len());
    assert(a * q >= a) by (nonlinear_arith)
        requires
            q >= 1,
    ;
}

/// First index at or after `pos` whose character is not a digit.
fn scan_digits(c: &Vec<char>, pos: usize) -> (e: usize)
    requires
        pos <= c@.len(),
    ensures
        pos <= e <= c@.len(),
        forall|j: int| pos <= j < e ==> is_digit(#[trigger] c@[j]),
        e < c@.len() ==> !is_digit(c@[e as int]),
{
    let n = c.len();
    let mut i = pos;
    while i < n
        invariant
            pos <= i <= n,
            n == c@.len(),
            forall|j: int| pos <= j < i ==> is_digit(#[trigger] c@[j]),
        decreases n - i,
    {
        let ch = c[i];
        if !('0' <= ch && ch <= '9') {
            return i;
        }
        i = i + 1;
    }
    n
}

/// Reads an unsigned decimal. What it consumed is the canonical
/// rendering of the value, and a canonical rendering at `pos`, ended
/// by a non-digit, is always read back as its value.
#[verifier::rlimit(60)]
fn parse_u64_dec(c: &Vec<char>, pos: usize) -> (r: Option<(u64, usize)>)
    ensures
        (r matches Some(vp) ==> pos < vp.1 <= c@.len() && c@.subrange(pos as int, vp.1 as int)
            == dec_of(vp.0 as nat)),
        forall|m: nat|
            (#[trigger] text_at(c@, pos as int, dec_of(m)) && m <= u64::MAX && nondigit_after(
                c@,
                pos + dec_of(m).len(),
            )) ==> (r matches Some(vp) && vp.0 == m && vp.1 == pos + dec_of(m).len()),
{
    let n = c.len();
    proof {
        assert forall|m: nat| #[trigger] text_at(c@, pos as int, dec_of(m)) implies {
            &&& crate::digits::all_digits(c@.subrange(pos as int, pos + dec_of(m).len()))
            &&& dec_of(m).len() >= 1
            &&& pos + dec_of(m).len() <= n
        } by {
            crate::digits::lemma_dec_of_val(m);
            assert forall|j: int|
                pos <= j < pos + dec_of(m).len() implies is_digit(#[trigger] c@[j]) by {
                assert(c@.subrange(pos as int, pos + dec_of(m).len())[j - pos] == dec_of(m)[j
                    - pos]);
            }
        }
    }
    if pos >= n {
        return None;
    }
    let end = scan_digits(c, pos);
    let ghost ds = c@.subrange(pos as int, end as int);
    proof {
        assert forall|m: nat| (#[trigger] text_at(c@, pos as int, dec_of(m)) && m <= u64::MAX
            && nondigit_after(c@, pos + dec_of(m).len())) implies ds == dec_of(m) by {
            crate::digits::lemma_dec_of_val(m);
            let q = pos + dec_of(m).len();
            if end < q {
                assert(is_digit(c@[end as int])) by {
                    assert(c@.subrange(pos as int, q)[end - pos] == dec_of(m)[end - pos]);
                }
            }
            if end > q {
                assert(is_digit(c@[q]));
            }
            assert(end == q);
            assert(ds =~= dec_of(m));
        }
    }
    if end == pos {
        return None;
    }
    if c[pos] == '0' && end > pos + 1 {
        proof {
            assert forall|m: nat| !(text_at(c@, pos as int, dec_of(m)) && m <= u64::MAX
                && nondigit_after(c@, pos + dec_of(m).len())) by {
                if text_at(c@, pos as int, dec_of(m)) && m <= u64::MAX && nondigit_after(
                    c@,
                    pos + dec_of(m).len(),
                ) {
                    crate::digits::lemma_dec_of_val(m);
                    assert(dec_of(m)[0] == c@[pos as int]);
                }
            }
        }
        return None;
    }
    let mut v: u64 = 0;
    let mut i = pos;
    proof {
        assert(c@.subrange(pos as int, pos as int) =~= Seq::<char>::empty());
    }
    while i < end
        invariant
            pos <= i <= end <= n,
            n == c@.len(),
            ds == c@.subrange(pos as int, end as int),
            forall|j: int| pos <= j < end ==> is_digit(#[trigger] c@[j]),
            end > pos,
            end > pos + 1 ==> c@[pos as int] != '0',
            crate::digits::digits_val(c@.subrange(pos as int, i as int)) == v,
            forall|m: nat|
                (#[trigger] text_at(c@, pos as int, dec_of(m)) && m <= u64::MAX && nondigit_after(
                    c@,
                    pos + dec_of(m).len(),
                )) ==> ds == dec_of(m),
        decreases end - i,
    {
        let d = crate::amount::digit_of_char(c[i]) as u64;
        let ghost pre = c@.subrange(pos as int, i as int);
        proof {
            let nxt = c@.subrange(pos as int, (i + 1) as int);
            assert(nxt.drop_last() =~= pre);
            assert(nxt.last() == c@[i as int]);
            assert(crate::digits::all_digits(nxt));
            assert(crate::digits::digits_val(nxt) == v * 10 + d);
        }
        if v > (u64::MAX - d) / 10 {
            proof {
                assert(v * 10 + d > u64::MAX) by (nonlinear_arith)
                    requires
                        v > (u64::MAX - d) / 10,
                        d < 10,
                ;
                assert forall|m: nat| !(text_at(c@, pos as int, dec_of(m)) && m <= u64::MAX
                    && nondigit_after(c@, pos + dec_of(m).len())) by {
                    if text_at(c@, pos as int, dec_of(m)) && m <= u64::MAX && nondigit_after(
                        c@,
                        pos + dec_of(m).len(),
                    ) {
                        crate::digits::lemma_dec_of_val(m);
                        assert(ds == dec_of(m));
                        assert(crate::digits::digits_val(ds) == m);
                        assert(c@.subrange(pos as int, (i + 1) as int) =~= ds.subrange(
                            0,
                            i + 1 - pos,
                        ));
                        lemma_digits_val_prefix(ds, i + 1 - pos);
                    }
                }
            }
            return None;
        }
        proof {
            assert(v * 10 + d <= u64::MAX) by (nonlinear_arith)
                requires
                    v <= (u64::MAX - d) / 10,
                    d < 10,
            ;
        }
        v = v * 10 + d;
        i = i + 1;
    }
    proof {
        lemma_dec_canon(ds);
        assert forall|m: nat| (#[trigger] text_at(c@, pos as int, dec_of(m)) && m <= u64::MAX
            && nondigit_after(c@, pos + dec_of(m).len())) implies v == m && end == pos + dec_of(
            m,
        ).len() by {
            crate::digits::lemma_dec_of_val(m);
            assert(ds == dec_of(m));
            assert(crate::digits::digits_val(ds) == m);
        }
    }
    Some((v, end))
}

/// Reads a signed decimal, with the same guarantees both ways.
#[verifier::rlimit(60)]
fn parse_i64_dec(c: &Vec<char>, pos: usize) -> (r: Option<(i64, usize)>)
    ensures
        (r matches Some(vp) ==> pos < vp.1 <= c@.len() && c@.subrange(pos as int, vp.1 as int)
            == dec_of_int(vp.0 as int)),
        forall|m: int|
            (#[trigger] text_at(c@, pos as int, dec_of_int(m)) && i64::MIN <= m <= i64::MAX
                && nondigit_after(c@, pos + dec_of_int(m).len())) ==> (r matches Some(vp) && vp.0
                == m && vp.1 == pos + dec_of_int(m).len()),
{
    let n = c.len();
    proof {
        assert forall|m: int| (#[trigger] text_at(c@, pos as int, dec_of_int(m)) && m < 0
            && nondigit_after(c@, pos + dec_of_int(m).len())) implies (pos < n && c@[pos as int]
            == '-' && text_at(c@, pos + 1, dec_of((-m) as nat)) && nondigit_after(
            c@,
            pos + 1 + dec_of((-m) as nat).len(),
        )) by {
            crate::digits::lemma_dec_of_val((-m) as nat);
            assert(dec_of_int(m) == seq!['-'] + dec_of((-m) as nat));
            lemma_text_at_split(c@, pos as int, seq!['-'], dec_of((-m) as nat));
            assert(text_at(c@, pos as int, seq!['-']));
            assert(c@.subrange(pos as int, pos + 1) == seq!['-']);
            assert(c@.subrange(pos as int, pos + 1)[0] == '-');
            assert(c@[pos as int] == '-');
            assert(dec_of_int(m).len() == 1 + dec_of((-m) as nat).len());
            assert(pos < n);
        }
        assert forall|m: int| (#[trigger] text_at(c@, pos as int, dec_of_int(m)) && m >= 0) implies (
        pos < n && c@[pos as int] != '-' && text_at(c@, pos as int, dec_of(m as nat))) by {
            crate::digits::lemma_dec_of_val(m as nat);
            assert(c@.subrange(pos as int, pos + dec_of(m as nat).len())[0] == dec_of(m as nat)[0]);
            assert(is_digit(c@[pos as int]));
        }
    }
    if pos < n && c[pos] == '-' {
        match parse_u64_dec(c, pos + 1) {
            Some(vp) => {
                let (v, p) = vp;
                if v == 0 {
                    // the canonical rendering of zero carries no sign
                    return None;
                }
                if v > i64::MAX as u64 {
                    if v == i64::MAX as u64 + 1 {
                        proof {
                            assert(c@.subrange(pos as int, p as int) =~= seq!['-'] + c@.subrange(
                                pos + 1,
                                p as int,
                            ));
                        }
                        return Some((i64::MIN, p));
                    }
                    return None;
                }
                let out: i64 = -(v as i64);
                proof {
                    assert(c@.subrange(pos as int, p as int) =~= seq!['-'] + c@.subrange(
                        pos + 1,
                        p as int,
                    ));
                }
                Some((out, p))
            },
            None => None,
        }
    } else {
        match parse_u64_dec(c, pos) {
            Some(vp) => {
                let (v, p) = vp;
                if v > i64::MAX as u64 {
                    return None;
                }
                Some((v as i64, p))
            },
            None => None,
        }
    }
}

/// Whether a token holds no comma, so that a scan to the next comma
/// reads it whole.
pub open spec fn no_comma(x: Seq<char>) -> bool {
    forall|j: int| 0 <= j < x.len() ==> x[j] != ','
}

/// Reads a bare number token for a transfer amount: everything up to
/// the next comma. What it consumed is the token itself, and a
/// comma-free token standing right before a comma is read back whole.
fn parse_raw_token(c: &Vec<char>, pos: usize) -> (r: Option<(String, usize)>)
    ensures
        (r matches Some(sp) ==> pos <= sp.1 <= c@.len() && c@.subrange(pos as int, sp.1 as int)
            == sp.0@),
        forall|x: Seq<char>|
            (#[trigger] text_at(c@, pos as int, x) && no_comma(x) && pos + x.len() < c@.len()
                && c@[pos + x.len()] == ',') ==> (r matches Some(sp) && sp.0@ == x && sp.1 == pos
                + x.len()),
{
    let n = c.len();
    if pos > n {
        return None;
    }
    let mut i = pos;
    while i < n
        invariant
            pos <= i <= n,
            n == c@.len(),
            forall|j: int| pos <= j < i ==> c@[j] != ',',
        decreases n - i,
    {
        if c[i] == ',' {
            let token = crate::strutil::string_of_range(c, pos, i);
            proof {
                assert forall|x: Seq<char>| (#[trigger] text_at(c@, pos as int, x) && no_comma(x)
                    && pos + x.len() < c@.len() && c@[pos + x.len()] == ',') implies token@ == x
                    && i == pos + x.len() by {
                    if i < pos + x.len() {
                        assert(c@.subrange(pos as int, pos + x.len() as int)[i - pos] == x[i
                            - pos]);
                    }
                    assert(i == pos + x.len());
                    assert(token@ =~= x);
                }
            }
            return Some((token, i));
        }
        i = i + 1;
    }
    proof {
        assert forall|x: Seq<char>| !(text_at(c@, pos as int, x) && no_comma(x) && pos + x.len()
            < c@.len() && c@[pos + x.len()] == ',') by {
            if text_at(c@, pos as int, x) && no_comma(x) && pos + x.len() < c@.len() && c@[pos
                + x.len()] == ',' {
                assert(c@[pos + x.len()] != ',');
            }
        }
    }
    None
}

/// The two transactions carry the same six fields.
pub open spec fn tx_fields_eq(a: SerializedTransaction, b: SerializedTransaction) -> bool {
    &&& a.sender@ == b.sender@
    &&& a.buyer@ == b.buyer@
    &&& a.seller@ == b.seller@
    &&& a.message@ == b.message@
    &&& a.transfer@ == b.transfer@
    &&& a.signature@ == b.signature@
}

/// A well-formed amount token holds only digits, a sign and a dot —
/// never a comma.
proof fn lemma_amount_no_comma(s: Seq<char>)
    requires
        crate::amount::amount_wf(s),
    ensures
        no_comma(s),
{
    let b = crate::amount::amount_body(s);
    let fd = crate::amount::first_dot(b);
    crate::amount::lemma_first_dot(b);
    assert forall|j: int| 0 <= j < s.len() implies s[j] != ',' by {
        if crate::amount::amount_neg(s) && j == 0 {
            assert(s[j] == '-');
        } else {
            let off: int = if crate::amount::amount_neg(s) {
                1
            } else {
                0
            };
            let bj = j - off;
            assert(b[bj] == s[j]);
            if bj < fd {
                assert(crate::amount::int_part(s)[bj] == b[bj]);
                assert(is_digit(b[bj]));
            } else if bj == fd {
                assert(b[bj] == '.');
            } else {
                assert(crate::amount::frac_part(s)[bj - fd - 1] == b[bj]);
                assert(is_digit(b[bj]));
            }
        }
    }
}

/// Where each piece of a transaction object sits when the object
/// stands at `pos`.
#[verifier::rlimit(100)]
proof fn lemma_tx_layout(c: Seq<char>, pos: int, t: SerializedTransaction)
    requires
        text_at(c, pos, json_tx(t)),
    ensures
        "{\"sender\":"@.len() == 10,
        ",\"buyer\":"@.len() == 9,
        ",\"seller\":"@.len() == 10,
        ",\"message\":"@.len() == 11,
        ",\"transfer\":"@.len() == 12,
        ",\"signature\":"@.len() == 13,
        "}"@.len() == 1,
        text_at(c, pos, "{\"sender\":"@),
        text_at(c, pos + 10, json_string(t.sender@)),
        text_at(c, pos + 10 + json_string(t.sender@).len(), ",\"buyer\":"@),
        text_at(c, pos + 19 + json_string(t.sender@).len(), json_string(t.buyer@)),
        text_at(
            c,
            pos + 19 + json_string(t.sender@).len() + json_string(t.buyer@).len(),
            ",\"seller\":"@,
        ),
        text_at(
            c,
            pos + 29 + json_string(t.sender@).len() + json_string(t.buyer@).len(),
            json_string(t.seller@),
        ),
        text_at(
            c,
            pos + 29 + json_string(t.sender@).len() + json_string(t.buyer@).len() + json_string(
                t.seller@,
            ).len(),
            ",\"message\":"@,
        ),
        text_at(
            c,
            pos + 40 + json_string(t.sender@).len() + json_string(t.buyer@).len() + json_string(
                t.seller@,
            ).len(),
            json_string(t.message@),
        ),
        text_at(
            c,
            pos + 40 + json_string(t.sender@).len() + json_string(t.buyer@).len() + json_string(
                t.seller@,
            ).len() + json_string(t.message@).len(),
            ",\"transfer\":"@,
        ),
        text_at(
            c,
            pos + 52 + json_string(t.sender@).len() + json_string(t.buyer@).len() + json_string(
                t.seller@,
            ).len() + json_string(t.message@).len(),
            t.transfer@,
        ),
        pos + 52 + json_string(t.sender@).len() + json_string(t.buyer@).len() + json_string(
            t.seller@,
        ).len() + json_string(t.message@).len() + t.transfer@.len() < c.len(),
        c[pos + 52 + json_string(t.sender@).len() + json_string(t.buyer@).len() + json_string(
            t.seller@,
        ).len() + json_string(t.message@).len() + t.transfer@.len()] == ',',
        text_at(
            c,
            pos + 52 + json_string(t.sender@).len() + json_string(t.buyer@).len() + json_string(
                t.seller@,
            ).len() + json_string(t.message@).len() + t.transfer@.len(),
            ",\"signature\":"@,
        ),
        text_at(
            c,
            pos + 65 + json_string(t.sender@).len() + json_string(t.buyer@).len() + json_string(
                t.seller@,
            ).len() + json_string(t.message@).len() + t.transfer@.len(),
            json_string(t.signature@),
        ),
        text_at(
            c,
            pos + 65 + json_string(t.sender@).len() + json_string(t.buyer@).len() + json_string(
                t.seller@,
            ).len() + json_string(t.message@).len() + t.transfer@.len() + json_string(
                t.signature@,
            ).len(),
            "}"@,
        ),
        json_tx(t).len() == 66 + json_string(t.sender@).len() + json_string(t.buyer@).len()
            + json_string(t.seller@).len() + json_string(t.message@).len() + t.transfer@.len()
            + json_string(t.signature@).len(),
{
    reveal_strlit("{\"sender\":");
    reveal_strlit(",\"buyer\":");
    reveal_strlit(",\"seller\":");
    reveal_strlit(",\"message\":");
    reveal_strlit(",\"transfer\":");
    reveal_strlit(",\"signature\":");
    reveal_strlit("}");
    reveal_strlit("sender");
    reveal_strlit("buyer");
    reveal_strlit("seller");
    reveal_strlit("message");
    reveal_strlit("transfer");
    reveal_strlit("signature");
    let d1 = json_string(t.sender@);
    let d2 = json_string(t.buyer@);
    let d3 = json_string(t.seller@);
    let d4 = json_string(t.message@);
    let tr = t.transfer@;
    let d6 = json_string(t.signature@);
    let r12 = "}"@;
    let r11 = d6 + r12;
    let r10 = ",\"signature\":"@ + r11;
    let r9 = tr + r10;
    let r8 = ",\"transfer\":"@ + r9;
    let r7 = d4 + r8;
    let r6 = ",\"message\":"@ + r7;
    let r5 = d3 + r6;
    let r4 = ",\"seller\":"@ + r5;
    let r3 = d2 + r4;
    let r2 = ",\"buyer\":"@ + r3;
    let r1 = d1 + r2;
    assert(json_tx(t) =~= "{\"sender\":"@ + r1);
    lemma_text_at_split(c, pos, "{\"sender\":"@, r1);
    lemma_text_at_split(c, pos + 10, d1, r2);
    lemma_text_at_split(c, pos + 10 + d1.len(), ",\"buyer\":"@, r3);
    lemma_text_at_split(c, pos + 19 + d1.len(), d2, r4);
    lemma_text_at_split(c, pos + 19 + d1.len() + d2.len(), ",\"seller\":"@, r5);
    lemma_text_at_split(c, pos + 29 + d1.len() + d2.len(), d3, r6);
    lemma_text_at_split(c, pos + 29 + d1.len() + d2.len() + d3.len(), ",\"message\":"@, r7);
    lemma_text_at_split(c, pos + 40 + d1.len() + d2.len() + d3.len(), d4, r8);
    lemma_text_at_split(c, pos + 40 + d1.len() + d2.len() + d3.len() + d4.len(), ",\"transfer\":"@, r9);
    lemma_text_at_split(c, pos + 52 + d1.len() + d2.len() + d3.len() + d4.len(), tr, r10);
    let a10 = pos + 52 + d1.len() + d2.len() + d3.len() + d4.len() + tr.len();
    lemma_text_at_split(c, a10, ",\"signature\":"@, r11);
    lemma_text_at_split(c, a10 + 13, d6, r12);
    assert(c.subrange(a10, a10 + 13)[0] == ',');
}


/// The opening key and the sender string of an object at `pos`.
proof fn lemma_tx_at_sender(c: Seq<char>, pos: int, t: SerializedTransaction)
    requires
        text_at(c, pos, json_tx(t)),
    ensures
        "{\"sender\":"@.len() == 10,
        text_at(c, pos, "{\"sender\":"@),
        text_at(c, pos + 10, json_string(t.sender@)),
{
    lemma_tx_layout(c, pos, t);
}

/// The buyer key and string.
proof fn lemma_tx_at_buyer(c: Seq<char>, pos: int, t: SerializedTransaction)
    requires
        text_at(c, pos, json_tx(t)),
    ensures
        ",\"buyer\":"@.len() == 9,
        text_at(c, pos + 10 + json_string(t.sender@).len(), ",\"buyer\":"@),
        text_at(c, pos + 19 + json_string(t.sender@).len(), json_string(t.buyer@)),
{
    lemma_tx_layout(c, pos, t);
}

/// The seller key and string.
proof fn lemma_tx_at_seller(c: Seq<char>, pos: int, t: SerializedTransaction)
    requires
        text_at(c, pos, json_tx(t)),
    ensures
        ",\"seller\":"@.len() == 10,
        text_at(
            c,
            pos + 19 + json_string(t.sender@).len() + json_string(t.buyer@).len(),
            ",\"seller\":"@,
        ),
        text_at(
            c,
            pos + 29 + json_string(t.sender@).len() + json_string(t.buyer@).len(),
            json_string(t.seller@),
        ),
{
    lemma_tx_layout(c, pos, t);
}

/// The message key and string.
proof fn lemma_tx_at_message(c: Seq<char>, pos: int, t: SerializedTransaction)
    requires
        text_at(c, pos, json_tx(t)),
    ensures
        ",\"message\":"@.len() == 11,
        text_at(
            c,
            pos + 29 + json_string(t.sender@).len() + json_string(t.buyer@).len() + json_string(
                t.seller@,
            ).len(),
            ",\"message\":"@,
        ),
        text_at(
            c,
            pos + 40 + json_string(t.sender@).len() + json_string(t.buyer@).len() + json_string(
                t.seller@,
            ).len(),
            json_string(t.message@),
        ),
{
    lemma_tx_layout(c, pos, t);
}

/// The transfer key, its bare token, and the comma that ends it.
proof fn lemma_tx_at_transfer(c: Seq<char>, pos: int, t: SerializedTransaction)
    requires
        text_at(c, pos, json_tx(t)),
    ensures
        ",\"transfer\":"@.len() == 12,
        text_at(
            c,
            pos + 40 + json_string(t.sender@).len() + json_string(t.buyer@).len() + json_string(
                t.seller@,
            ).len() + json_string(t.message@).len(),
            ",\"transfer\":"@,
        ),
        text_at(
            c,
            pos + 52 + json_string(t.sender@).len() + json_string(t.buyer@).len() + json_string(
                t.seller@,
            ).len() + json_string(t.message@).len(),
            t.transfer@,
        ),
        pos + 52 + json_string(t.sender@).len() + json_string(t.buyer@).len() + json_string(
            t.seller@,
        ).len() + json_string(t.message@).len() + t.transfer@.len() < c.len(),
        c[pos + 52 + json_string(t.sender@).len() + json_string(t.buyer@).len() + json_string(
            t.seller@,
        ).len() + json_string(t.message@).len() + t.transfer@.len()] == ',',
{
    lemma_tx_layout(c, pos, t);
}

/// The signature key and string.
proof fn lemma_tx_at_signature(c: Seq<char>, pos: int, t: SerializedTransaction)
    requires
        text_at(c, pos, json_tx(t)),
    ensures
        ",\"signature\":"@.len() == 13,
        text_at(
            c,
            pos + 52 + json_string(t.sender@).len() + json_string(t.buyer@).len() + json_string(
                t.seller@,
            ).len() + json_string(t.message@).len() + t.transfer@.len(),
            ",\"signature\":"@,
        ),
        text_at(
            c,
            pos + 65 + json_string(t.sender@).len() + json_string(t.buyer@).len() + json_string(
                t.seller@,
            ).len() + json_string(t.message@).len() + t.transfer@.len(),
            json_string(t.signature@),
        ),
{
    lemma_tx_layout(c, pos, t);
}

/// The closing brace and the object's total length.
proof fn lemma_tx_at_end(c: Seq<char>, pos: int, t: SerializedTransaction)
    requires
        text_at(c, pos, json_tx(t)),
    ensures
        "}"@.len() == 1,
        text_at(
            c,
            pos + 65 + json_string(t.sender@).len() + json_string(t.buyer@).len() + json_string(
                t.seller@,
            ).len() + json_string(t.message@).len() + t.transfer@.len() + json_string(
                t.signature@,
            ).len(),
            "}"@,
        ),
        json_tx(t).len() == 66 + json_string(t.sender@).len() + json_string(t.buyer@).len()
            + json_string(t.seller@).len() + json_string(t.message@).len() + t.transfer@.len()
            + json_string(t.signature@).len(),
{
    lemma_tx_layout(c, pos, t);
}

/// The opening of a transaction object: brace, sender, buyer and
/// seller fields.
pub open spec fn json_tx_head(se: Seq<char>, bu: Seq<char>, sl: Seq<char>) -> Seq<char> {
    seq!['{'] + json_key("sender"@) + json_string(se) + seq![','] + json_key("buyer"@)
        + json_string(bu) + seq![','] + json_key("seller"@) + json_string(sl)
}

/// Reads the brace and the three key strings that open a transaction
/// object, with the same two-way guarantees as the whole object.
#[verifier::rlimit(100)]
fn parse_tx_head(c: &Vec<char>, pos: usize) -> (r: Option<(String, String, String, usize)>)
    ensures
        (r matches Some(hp) ==> pos < hp.3 <= c@.len() && c@.subrange(pos as int, hp.3 as int)
            == json_tx_head(hp.0@, hp.1@, hp.2@)),
        forall|t: SerializedTransaction|
            #[trigger] text_at(c@, pos as int, json_tx(t)) ==> (r matches Some(hp) && hp.0@
                == t.sender@ && hp.1@ == t.buyer@ && hp.2@ == t.seller@ && hp.3 == pos + 29
                + json_string(t.sender@).len() + json_string(t.buyer@).len() + json_string(
                t.seller@,
            ).len()),
{
    proof {
        assert forall|t: SerializedTransaction| #[trigger] text_at(
            c@,
            pos as int,
            json_tx(t),
        ) implies text_at(c@, pos as int, "{\"sender\":"@) by {
            lemma_tx_at_sender(c@, pos as int, t);
        }
    }
    let p0 = eat_lit(c, pos, "{\"sender\":")?;
    proof {
        assert forall|t: SerializedTransaction| #[trigger] text_at(
            c@,
            pos as int,
            json_tx(t),
        ) implies text_at(c@, p0 as int, json_string(t.sender@)) by {
            lemma_tx_at_sender(c@, pos as int, t);
        }
    }
    let (sender, p1) = parse_string(c, p0)?;
    proof {
        assert forall|t: SerializedTransaction| #[trigger] text_at(
            c@,
            pos as int,
            json_tx(t),
        ) implies sender@ == t.sender@ && p1 == pos + 10 + json_string(t.sender@).len() && text_at(
            c@,
            p1 as int,
            ",\"buyer\":"@,
        ) by {
            lemma_tx_at_sender(c@, pos as int, t);
            lemma_tx_at_buyer(c@, pos as int, t);
            assert(text_at(c@, p0 as int, json_string(t.sender@)));
        }
    }
    let p2 = eat_lit(c, p1, ",\"buyer\":")?;
    proof {
        assert forall|t: SerializedTransaction| #[trigger] text_at(
            c@,
            pos as int,
            json_tx(t),
        ) implies text_at(c@, p2 as int, json_string(t.buyer@)) by {
            lemma_tx_at_buyer(c@, pos as int, t);
        }
    }
    let (buyer, p3) = parse_string(c, p2)?;
    proof {
        assert forall|t: SerializedTransaction| #[trigger] text_at(
            c@,
            pos as int,
            json_tx(t),
        ) implies buyer@ == t.buyer@ && p3 == pos + 19 + json_string(t.sender@).len()
            + json_string(t.buyer@).len() && text_at(c@, p3 as int, ",\"seller\":"@) by {
            lemma_tx_at_buyer(c@, pos as int, t);
            lemma_tx_at_seller(c@, pos as int, t);
            assert(text_at(c@, p2 as int, json_string(t.buyer@)));
        }
    }
    let p4 = eat_lit(c, p3, ",\"seller\":")?;
    proof {
        assert forall|t: SerializedTransaction| #[trigger] text_at(
            c@,
            pos as int,
            json_tx(t),
        ) implies text_at(c@, p4 as int, json_string(t.seller@)) by {
            lemma_tx_at_seller(c@, pos as int, t);
        }
    }
    let (seller, p5) = parse_string(c, p4)?;
    proof {
        assert forall|t: SerializedTransaction| #[trigger] text_at(
            c@,
            pos as int,
            json_tx(t),
        ) implies seller@ == t.seller@ && p5 == pos + 29 + json_string(t.sender@).len()
            + json_string(t.buyer@).len() + json_string(t.seller@).len() by {
            lemma_tx_at_seller(c@, pos as int, t);
            assert(text_at(c@, p4 as int, json_string(t.seller@)));
        }
        reveal_strlit("{\"sender\":");
        reveal_strlit(",\"buyer\":");
        reveal_strlit(",\"seller\":");
        reveal_strlit("sender");
        reveal_strlit("buyer");
        reveal_strlit("seller");
        assert("{\"sender\":"@ =~= seq!['{'] + json_key("sender"@));
        assert(",\"buyer\":"@ =~= seq![','] + json_key("buyer"@));
        assert(",\"seller\":"@ =~= seq![','] + json_key("seller"@));
        assert(c@.subrange(pos as int, p1 as int) =~= c@.subrange(pos as int, p0 as int)
            + c@.subrange(p0 as int, p1 as int));
        assert(c@.subrange(pos as int, p2 as int) =~= c@.subrange(pos as int, p1 as int)
            + c@.subrange(p1 as int, p2 as int));
        assert(c@.subrange(pos as int, p3 as int) =~= c@.subrange(pos as int, p2 as int)
            + c@.subrange(p2 as int, p3 as int));
        assert(c@.subrange(pos as int, p4 as int) =~= c@.subrange(pos as int, p3 as int)
            + c@.subrange(p3 as int, p4 as int));
        assert(c@.subrange(pos as int, p5 as int) =~= c@.subrange(pos as int, p4 as int)
            + c@.subrange(p4 as int, p5 as int));
        assert(c@.subrange(pos as int, p5 as int) =~= json_tx_head(sender@, buyer@, seller@));
    }
    Some((sender, buyer, seller, p5))
}

/// The message and transfer fields alone.
pub open spec fn json_tx_mid(me: Seq<char>, tr: Seq<char>) -> Seq<char> {
    seq![','] + json_key("message"@) + json_string(me) + seq![','] + json_key("transfer"@) + tr
}

/// Reads the message and transfer fields, given where the whole
/// object began.
#[verifier::rlimit(100)]
fn parse_tx_mid(c: &Vec<char>, pos: usize) -> (r: Option<(String, String, usize)>)
    ensures
        (r matches Some(tp) ==> pos < tp.2 <= c@.len() && c@.subrange(pos as int, tp.2 as int)
            == json_tx_mid(tp.0@, tp.1@)),
        forall|t: SerializedTransaction, q: int|
            (#[trigger] text_at(c@, q, json_tx(t)) && crate::amount::amount_wf(t.transfer@) && pos
                == q + 29 + json_string(t.sender@).len() + json_string(t.buyer@).len()
                + json_string(t.seller@).len()) ==> (r matches Some(tp) && tp.0@ == t.message@
                && tp.1@ == t.transfer@ && tp.2 == q + 52 + json_string(t.sender@).len()
                + json_string(t.buyer@).len() + json_string(t.seller@).len() + json_string(
                t.message@,
            ).len() + t.transfer@.len()),
{
    proof {
        assert forall|t: SerializedTransaction, q: int| (#[trigger] text_at(c@, q, json_tx(t))
            && crate::amount::amount_wf(t.transfer@) && pos == q + 29 + json_string(
            t.sender@,
        ).len() + json_string(t.buyer@).len() + json_string(t.seller@).len()) implies text_at(
            c@,
            pos as int,
            ",\"message\":"@,
        ) by {
            lemma_tx_at_message(c@, q, t);
        }
    }
    let p6 = eat_lit(c, pos, ",\"message\":")?;
    proof {
        assert forall|t: SerializedTransaction, q: int| (#[trigger] text_at(c@, q, json_tx(t))
            && crate::amount::amount_wf(t.transfer@) && pos == q + 29 + json_string(
            t.sender@,
        ).len() + json_string(t.buyer@).len() + json_string(t.seller@).len()) implies text_at(
            c@,
            p6 as int,
            json_string(t.message@),
        ) by {
            lemma_tx_at_message(c@, q, t);
        }
    }
    let (message, p7) = parse_string(c, p6)?;
    proof {
        assert forall|t: SerializedTransaction, q: int| (#[trigger] text_at(c@, q, json_tx(t))
            && crate::amount::amount_wf(t.transfer@) && pos == q + 29 + json_string(
            t.sender@,
        ).len() + json_string(t.buyer@).len() + json_string(t.seller@).len()) implies message@
            == t.message@ && text_at(c@, p7 as int, ",\"transfer\":"@) by {
            lemma_tx_at_message(c@, q, t);
            lemma_tx_at_transfer(c@, q, t);
            assert(text_at(c@, p6 as int, json_string(t.message@)));
        }
    }
    let p8 = eat_lit(c, p7, ",\"transfer\":")?;
    proof {
        assert forall|t: SerializedTransaction, q: int| (#[trigger] text_at(c@, q, json_tx(t))
            && crate::amount::amount_wf(t.transfer@) && pos == q + 29 + json_string(
            t.sender@,
        ).len() + json_string(t.buyer@).len() + json_string(t.seller@).len()) implies text_at(
            c@,
            p8 as int,
            t.transfer@,
        ) && no_comma(t.transfer@) && p8 + t.transfer@.len() < c@.len() && c@[p8
            + t.transfer@.len()] == ',' by {
            lemma_tx_at_message(c@, q, t);
            lemma_tx_at_transfer(c@, q, t);
            lemma_amount_no_comma(t.transfer@);
        }
    }
    let (transfer, p9) = parse_raw_token(c, p8)?;
    proof {
        assert forall|t: SerializedTransaction, q: int| (#[trigger] text_at(c@, q, json_tx(t))
            && crate::amount::amount_wf(t.transfer@) && pos == q + 29 + json_string(
            t.sender@,
        ).len() + json_string(t.buyer@).len() + json_string(t.seller@).len()) implies transfer@
            == t.transfer@ && p9 == q + 52 + json_string(t.sender@).len() + json_string(
            t.buyer@,
        ).len() + json_string(t.seller@).len() + json_string(t.message@).len()
            + t.transfer@.len() by {
            lemma_tx_at_message(c@, q, t);
            lemma_tx_at_transfer(c@, q, t);
            lemma_amount_no_comma(t.transfer@);
            assert(text_at(c@, p8 as int, t.transfer@));
        }
        reveal_strlit(",\"message\":");
        reveal_strlit(",\"transfer\":");
        reveal_strlit("message");
        reveal_strlit("transfer");
        assert(",\"message\":"@ =~= seq![','] + json_key("message"@));
        assert(",\"transfer\":"@ =~= seq![','] + json_key("transfer"@));
        assert(c@.subrange(pos as int, p7 as int) =~= c@.subrange(pos as int, p6 as int)
            + c@.subrange(p6 as int, p7 as int));
        assert(c@.subrange(pos as int, p8 as int) =~= c@.subrange(pos as int, p7 as int)
            + c@.subrange(p7 as int, p8 as int));
        assert(c@.subrange(pos as int, p9 as int) =~= c@.subrange(pos as int, p8 as int)
            + c@.subrange(p8 as int, p9 as int));
        assert(c@.subrange(pos as int, p9 as int) =~= json_tx_mid(message@, transfer@));
    }
    Some((message, transfer, p9))
}

/// Reads the signature field and the closing brace, given where the
/// whole object began.
#[verifier::rlimit(100)]
fn parse_tx_tail(c: &Vec<char>, pos: usize) -> (r: Option<(String, usize)>)
    ensures
        (r matches Some(tp) ==> pos < tp.1 <= c@.len() && c@.subrange(pos as int, tp.1 as int)
            == seq![','] + json_key("signature"@) + json_string(tp.0@) + seq!['}']),
        forall|t: SerializedTransaction, q: int|
            (#[trigger] text_at(c@, q, json_tx(t)) && crate::amount::amount_wf(t.transfer@) && pos
                == q + 52 + json_string(t.sender@).len() + json_string(t.buyer@).len()
                + json_string(t.seller@).len() + json_string(t.message@).len()
                + t.transfer@.len()) ==> (r matches Some(tp) && tp.0@ == t.signature@ && tp.1 == q
                + json_tx(t).len()),
{
    proof {
        assert forall|t: SerializedTransaction, q: int| (#[trigger] text_at(c@, q, json_tx(t))
            && crate::amount::amount_wf(t.transfer@) && pos == q + 52 + json_string(
            t.sender@,
        ).len() + json_string(t.buyer@).len() + json_string(t.seller@).len() + json_string(
            t.message@,
        ).len() + t.transfer@.len()) implies text_at(c@, pos as int, ",\"signature\":"@) by {
            lemma_tx_at_signature(c@, q, t);
        }
    }
    let p10 = eat_lit(c, pos, ",\"signature\":")?;
    proof {
        assert forall|t: SerializedTransaction, q: int| (#[trigger] text_at(c@, q, json_tx(t))
            && crate::amount::amount_wf(t.transfer@) && pos == q + 52 + json_string(
            t.sender@,
        ).len() + json_string(t.buyer@).len() + json_string(t.seller@).len() + json_string(
            t.message@,
        ).len() + t.transfer@.len()) implies text_at(c@, p10 as int, json_string(t.signature@)) by {
            lemma_tx_at_signature(c@, q, t);
        }
    }
    let (signature, p11) = parse_string(c, p10)?;
    proof {
        assert forall|t: SerializedTransaction, q: int| (#[trigger] text_at(c@, q, json_tx(t))
            && crate::amount::amount_wf(t.transfer@) && pos == q + 52 + json_string(
            t.sender@,
        ).len() + json_string(t.buyer@).len() + json_string(t.seller@).len() + json_string(
            t.message@,
        ).len() + t.transfer@.len()) implies signature@ == t.signature@ && text_at(
            c@,
            p11 as int,
            "}"@,
        ) by {
            lemma_tx_at_signature(c@, q, t);
            lemma_tx_at_end(c@, q, t);
            assert(text_at(c@, p10 as int, json_string(t.signature@)));
        }
    }
    let p12 = eat_lit(c, p11, "}")?;
    proof {
        assert forall|t: SerializedTransaction, q: int| (#[trigger] text_at(c@, q, json_tx(t))
            && crate::amount::amount_wf(t.transfer@) && pos == q + 52 + json_string(
            t.sender@,
        ).len() + json_string(t.buyer@).len() + json_string(t.seller@).len() + json_string(
            t.message@,
        ).len() + t.transfer@.len()) implies p12 == q + json_tx(t).len() by {
            lemma_tx_at_signature(c@, q, t);
            lemma_tx_at_end(c@, q, t);
            assert(text_at(c@, p10 as int, json_string(t.signature@)));
        }
        reveal_strlit(",\"signature\":");
        reveal_strlit("}");
        reveal_strlit("signature");
        assert(",\"signature\":"@ =~= seq![','] + json_key("signature"@));
        assert("}"@ =~= seq!['}']);
        assert(c@.subrange(pos as int, p11 as int) =~= c@.subrange(pos as int, p10 as int)
            + c@.subrange(p10 as int, p11 as int));
        assert(c@.subrange(pos as int, p12 as int) =~= c@.subrange(pos as int, p11 as int)
            + c@.subrange(p11 as int, p12 as int));
        assert(c@.subrange(pos as int, p12 as int) =~= seq![','] + json_key("signature"@)
            + json_string(signature@) + seq!['}']);
    }
    Some((signature, p12))
}

/// Reads one transaction object. What it consumed is exactly the
/// rendering of the result, and an object with a well-formed amount
/// standing at `pos` is always read back, field for field.
#[verifier::rlimit(100)]
fn parse_tx(c: &Vec<char>, pos: usize) -> (r: Option<(SerializedTransaction, usize)>)
    ensures
        (r matches Some(tp) ==> pos < tp.1 <= c@.len() && c@.subrange(pos as int, tp.1 as int)
            == json_tx(tp.0)),
        forall|t: SerializedTransaction|
            (#[trigger] text_at(c@, pos as int, json_tx(t)) && crate::amount::amount_wf(
                t.transfer@,
            )) ==> (r matches Some(tp) && tx_fields_eq(tp.0, t) && tp.1 == pos + json_tx(t).len()),
{
    let head = parse_tx_head(c, pos)?;
    let (sender, buyer, seller, p5) = head;
    let mid = parse_tx_mid(c, p5)?;
    let (message, transfer, p9) = mid;
    let tail = parse_tx_tail(c, p9)?;
    let (signature, p12) = tail;
    let t = SerializedTransaction { sender, buyer, seller, message, transfer, signature };
    proof {
        assert(c@.subrange(pos as int, p12 as int) =~= c@.subrange(pos as int, p5 as int)
            + c@.subrange(p5 as int, p9 as int) + c@.subrange(p9 as int, p12 as int));
        assert(c@.subrange(pos as int, p12 as int) =~= json_tx(t));
        assert forall|t0: SerializedTransaction| (#[trigger] text_at(c@, pos as int, json_tx(t0))
            && crate::amount::amount_wf(t0.transfer@)) implies tx_fields_eq(t, t0) && p12 == pos
            + json_tx(t0).len() by {
            assert(p5 == pos + 29 + json_string(t0.sender@).len() + json_string(t0.buyer@).len()
                + json_string(t0.seller@).len());
            assert(p9 == pos + 52 + json_string(t0.sender@).len() + json_string(t0.buyer@).len()
                + json_string(t0.seller@).len() + json_string(t0.message@).len()
                + t0.transfer@.len());
        }
    }
    Some((t, p12))
}

/// Every transfer token in the list is a plain decimal.
pub open spec fn txs_amounts_wf(ts: Seq<SerializedTransaction>) -> bool {
    forall|i: int| 0 <= i < ts.len() ==> crate::amount::amount_wf((#[trigger] ts[i]).transfer@)
}

/// The rendering of the elements from `j` on, each led by its comma.
pub open spec fn json_txs_from(ts: Seq<SerializedTransaction>, j: int) -> Seq<char>
    decreases ts.len() - j,
{
    if j < 0 || j >= ts.len() {
        Seq::empty()
    } else {
        seq![','] + json_tx(ts[j]) + json_txs_from(ts, j + 1)
    }
}

/// The list body splits at any element boundary.
proof fn lemma_inner_split_at(ts: Seq<SerializedTransaction>, j: int)
    requires
        1 <= j <= ts.len(),
    ensures
        json_txs_inner(ts) == json_txs_inner(ts.subrange(0, j)) + json_txs_from(ts, j),
    decreases ts.len() - j,
{
    if j == ts.len() {
        assert(ts.subrange(0, j) =~= ts);
        assert(json_txs_inner(ts) =~= json_txs_inner(ts.subrange(0, j)) + json_txs_from(ts, j));
    } else {
        lemma_inner_split_at(ts, j + 1);
        let pre = ts.subrange(0, j + 1);
        assert(pre.drop_last() =~= ts.subrange(0, j));
        assert(pre.last() == ts[j]);
        assert(pre.len() == j + 1);
        if j + 1 == 1 {
            assert(json_txs_inner(pre) == json_tx(ts[0]));
            assert(json_txs_inner(ts.subrange(0, 1)) == json_tx(ts[0]));
        }
        assert(json_txs_inner(ts) =~= json_txs_inner(ts.subrange(0, j)) + json_txs_from(ts, j));
    }
}

/// What stands at the element boundary after `j` parsed elements of
/// a rendered list: the closing bracket, or a comma and the next
/// element.
proof fn lemma_txs_probe(c: Seq<char>, pos: int, p: int, ts: Seq<SerializedTransaction>, j: int)
    requires
        text_at(c, pos, json_txs(ts)),
        1 <= j <= ts.len(),
        p == pos + 1 + json_txs_inner(ts.subrange(0, j)).len(),
    ensures
        j == ts.len() ==> text_at(c, p, "]"@),
        j < ts.len() ==> text_at(c, p, ","@) && text_at(c, p + 1, json_tx(ts[j])) && c[p] == ',',
{
    reveal_strlit("[");
    reveal_strlit("]");
    reveal_strlit(",");
    lemma_inner_split_at(ts, j);
    assert(json_txs(ts) =~= seq!['['] + (json_txs_inner(ts) + seq![']']));
    lemma_text_at_split(c, pos, seq!['['], json_txs_inner(ts) + seq![']']);
    assert(json_txs_inner(ts) + seq![']'] =~= json_txs_inner(ts.subrange(0, j)) + (json_txs_from(
        ts,
        j,
    ) + seq![']']));
    lemma_text_at_split(
        c,
        pos + 1,
        json_txs_inner(ts.subrange(0, j)),
        json_txs_from(ts, j) + seq![']'],
    );
    if ts.len() == j {
        assert(json_txs_from(ts, j) + seq![']'] =~= seq![']']);
        assert(seq![']'] =~= "]"@);
    } else {
        assert(json_txs_from(ts, j) + seq![']'] =~= seq![','] + (json_tx(ts[j]) + (json_txs_from(
            ts,
            j + 1,
        ) + seq![']'])));
        lemma_text_at_split(
            c,
            p,
            seq![','],
            json_tx(ts[j]) + (json_txs_from(ts, j + 1) + seq![']']),
        );
        lemma_text_at_split(c, p + 1, json_tx(ts[j]), json_txs_from(ts, j + 1) + seq![']']);
        assert(seq![','] =~= ","@);
        assert(c.subrange(p, p + 1)[0] == ',');
    }
}

/// Reads a transaction list. What it consumed is exactly the
/// rendering of the result, and a rendered list with well-formed
/// amounts is always read back, element for element.
#[verifier::rlimit(100)]
fn parse_txs(c: &Vec<char>, pos: usize) -> (r: Option<(Vec<SerializedTransaction>, usize)>)
    ensures
        (r matches Some(tp) ==> pos < tp.1 <= c@.len() && c@.subrange(pos as int, tp.1 as int)
            == json_txs(tp.0@)),
        forall|ts: Seq<SerializedTransaction>|
            (#[trigger] text_at(c@, pos as int, json_txs(ts)) && txs_amounts_wf(ts)) ==> (r
                matches Some(tp) && tp.0@.len() == ts.len() && (forall|i: int|
                0 <= i < ts.len() ==> tx_fields_eq(#[trigger] tp.0@[i], ts[i])) && tp.1 == pos
                + json_txs(ts).len()),
{
    let n = c.len();
    proof {
        reveal_strlit("[");
        reveal_strlit("]");
        reveal_strlit(",");
        assert forall|ts: Seq<SerializedTransaction>| #[trigger] text_at(
            c@,
            pos as int,
            json_txs(ts),
        ) implies text_at(c@, pos as int, "["@) && text_at(
            c@,
            pos + 1,
            json_txs_inner(ts) + seq![']'],
        ) by {
            assert(json_txs(ts) =~= seq!['['] + (json_txs_inner(ts) + seq![']']));
            lemma_text_at_split(c@, pos as int, seq!['['], json_txs_inner(ts) + seq![']']);
            assert(seq!['['] =~= "["@);
        }
    }
    let p0 = eat_lit(c, pos, "[")?;
    proof {
        assert forall|ts: Seq<SerializedTransaction>| (#[trigger] text_at(
            c@,
            pos as int,
            json_txs(ts),
        ) && ts.len() == 0) implies text_at(c@, p0 as int, "]"@) by {
            assert(json_txs_inner(ts) + seq![']'] =~= seq![']']);
            assert(seq![']'] =~= "]"@);
        }
        assert forall|ts: Seq<SerializedTransaction>| (#[trigger] text_at(
            c@,
            pos as int,
            json_txs(ts),
        ) && ts.len() >= 1) implies text_at(c@, p0 as int, json_tx(ts[0])) && c@[p0 as int]
            == '{' by {
            lemma_inner_split_at(ts, 1);
            assert(json_txs_inner(ts.subrange(0, 1)) == json_tx(ts[0]));
            assert(json_txs_inner(ts) + seq![']'] =~= json_tx(ts[0]) + (json_txs_from(ts, 1)
                + seq![']']));
            lemma_text_at_split(
                c@,
                p0 as int,
                json_tx(ts[0]),
                json_txs_from(ts, 1) + seq![']'],
            );
            assert(json_tx(ts[0])[0] == '{');
            assert(c@.subrange(p0 as int, p0 + json_tx(ts[0]).len())[0] == json_tx(ts[0])[0]);
        }
    }
    let mut out: Vec<SerializedTransaction> = Vec::new();
    if let Some(p1) = eat_lit(c, p0, "]") {
        proof {
            reveal_strlit("[");
            reveal_strlit("]");
            assert(c@.subrange(pos as int, p1 as int) =~= c@.subrange(pos as int, p0 as int)
                + c@.subrange(p0 as int, p1 as int));
            assert(c@.subrange(pos as int, p1 as int) =~= json_txs(out@));
            assert forall|ts: Seq<SerializedTransaction>| (#[trigger] text_at(
                c@,
                pos as int,
                json_txs(ts),
            ) && txs_amounts_wf(ts)) implies ts.len() == 0 && p1 == pos + json_txs(ts).len() by {
                if ts.len() >= 1 {
                    assert(c@.subrange(p0 as int, p1 as int)[0] == ']');
                    assert(c@[p0 as int] == ']');
                }
                assert(json_txs(ts) =~= seq!['['] + (json_txs_inner(ts) + seq![']']));
            }
        }
        return Some((out, p1));
    }
    let first = parse_tx(c, p0)?;
    let (t0, q0) = first;
    out.push(t0);
    let mut p = q0;
    proof {
        reveal_strlit("[");
        assert(out@ =~= seq![t0]);
        assert(json_txs_inner(out@) == json_tx(t0));
        assert(c@.subrange(pos as int, p as int) =~= c@.subrange(pos as int, p0 as int)
            + c@.subrange(p0 as int, q0 as int));
        assert(c@.subrange(pos as int, p as int) =~= seq!['['] + json_txs_inner(out@));
        assert forall|ts: Seq<SerializedTransaction>| (#[trigger] text_at(
            c@,
            pos as int,
            json_txs(ts),
        ) && txs_amounts_wf(ts)) implies 1 <= ts.len() && tx_fields_eq(out@[0], ts[0]) && p == pos
            + 1 + json_txs_inner(ts.subrange(0, 1)).len() by {
            if ts.len() == 0 {
                assert(text_at(c@, p0 as int, "]"@));
            }
            assert(text_at(c@, p0 as int, json_tx(ts[0])));
            assert(crate::amount::amount_wf(ts[0].transfer@));
            assert(json_txs_inner(ts.subrange(0, 1)) == json_tx(ts[0])) by {
                assert(ts.subrange(0, 1).len() == 1);
                assert(ts.subrange(0, 1)[0] == ts[0]);
            }
        }
    }
    #[verifier::loop_isolation(true)]
    loop
        invariant
            pos < p <= c@.len(),
            n == c@.len(),
            out@.len() >= 1,
            c@.subrange(pos as int, p as int) == seq!['['] + json_txs_inner(out@),
            forall|ts: Seq<SerializedTransaction>|
                (#[trigger] text_at(c@, pos as int, json_txs(ts)) && txs_amounts_wf(ts)) ==> (
                out@.len() <= ts.len() && (forall|i: int|
                    0 <= i < out@.len() ==> tx_fields_eq(#[trigger] out@[i], ts[i])) && p == pos
                    + 1 + json_txs_inner(ts.subrange(0, out@.len() as int)).len()),
        decreases n - p,
    {
        proof {
            reveal_strlit("[");
            reveal_strlit("]");
            reveal_strlit(",");
            assert forall|ts: Seq<SerializedTransaction>| (#[trigger] text_at(
                c@,
                pos as int,
                json_txs(ts),
            ) && txs_amounts_wf(ts)) implies (ts.len() == out@.len() ==> text_at(
                c@,
                p as int,
                "]"@,
            )) && (ts.len() > out@.len() ==> text_at(c@, p as int, ","@) && text_at(
                c@,
                p + 1,
                json_tx(ts[out@.len() as int]),
            ) && c@[p as int] == ',') by {
                lemma_txs_probe(c@, pos as int, p as int, ts, out@.len() as int);
            }
        }
        if let Some(p2) = eat_lit(c, p, "]") {
            proof {
                reveal_strlit("]");
                assert(c@.subrange(pos as int, p2 as int) =~= c@.subrange(pos as int, p as int)
                    + c@.subrange(p as int, p2 as int));
                assert(c@.subrange(pos as int, p2 as int) =~= json_txs(out@));
                assert forall|ts: Seq<SerializedTransaction>| (#[trigger] text_at(
                    c@,
                    pos as int,
                    json_txs(ts),
                ) && txs_amounts_wf(ts)) implies ts.len() == out@.len() && p2 == pos + json_txs(
                    ts,
                ).len() by {
                    if ts.len() > out@.len() {
                        assert(c@.subrange(p as int, p2 as int)[0] == ']');
                        assert(c@[p as int] == ']');
                    }
                    let j = out@.len() as int;
                    lemma_inner_split_at(ts, j);
                    assert(ts.subrange(0, j) =~= ts);
                    assert(json_txs(ts) =~= seq!['['] + (json_txs_inner(ts) + seq![']']));
                }
            }
            return Some((out, p2));
        }
        let p3 = eat_lit(c, p, ",")?;
        let next = parse_tx(c, p3)?;
        let (t2, p4) = next;
        let ghost out_pre = out@;
        out.push(t2);
        proof {
            reveal_strlit(",");
            assert(out@.drop_last() =~= out_pre);
            assert(out@.last() == t2);
            assert(json_txs_inner(out@) == json_txs_inner(out_pre) + seq![','] + json_tx(t2));
            assert(c@.subrange(pos as int, p4 as int) =~= c@.subrange(pos as int, p as int)
                + c@.subrange(p as int, p3 as int) + c@.subrange(p3 as int, p4 as int));
            assert(c@.subrange(pos as int, p4 as int) =~= seq!['['] + json_txs_inner(out@));
            assert forall|ts: Seq<SerializedTransaction>| (#[trigger] text_at(
                c@,
                pos as int,
                json_txs(ts),
            ) && txs_amounts_wf(ts)) implies (out@.len() <= ts.len() && (forall|i: int|
                0 <= i < out@.len() ==> tx_fields_eq(#[trigger] out@[i], ts[i])) && p4 == pos + 1
                + json_txs_inner(ts.subrange(0, out@.len() as int)).len()) by {
                let j = out_pre.len() as int;
                if ts.len() == j {
                    assert(text_at(c@, p as int, "]"@));
                }
                assert(ts.len() > j);
                assert(text_at(c@, p + 1, json_tx(ts[j])));
                assert(crate::amount::amount_wf(ts[j].transfer@));
                assert(tx_fields_eq(t2, ts[j]));
                assert(p4 == p + 1 + json_tx(ts[j]).len());
                let pre2 = ts.subrange(0, j + 1);
                assert(pre2.drop_last() =~= ts.subrange(0, j));
                assert(pre2.last() == ts[j]);
                assert(json_txs_inner(pre2) == json_txs_inner(ts.subrange(0, j)) + seq![',']
                    + json_tx(ts[j])) by {
                    if j == 0 {
                        assert(pre2.len() == 1);
                    }
                }
                assert forall|i: int| 0 <= i < out@.len() implies tx_fields_eq(
                    #[trigger] out@[i],
                    ts[i],
                ) by {
                    if i < j {
                        assert(out@[i] == out_pre[i]);
                    } else {
                        assert(out@[i] == t2);
                    }
                }
            }
        }
        p = p4;
    }
}

/// The same block fields, view for view; the transactions match
/// field for field.
pub open spec fn block_like(a: BlockView, b: BlockView) -> bool {
    &&& a.id == b.id
    &&& a.time == b.time
    &&& a.prev == b.prev
    &&& a.nonce == b.nonce
    &&& a.txs.len() == b.txs.len()
    &&& forall|i: int| 0 <= i < a.txs.len() ==> tx_fields_eq(#[trigger] a.txs[i], b.txs[i])
}

/// Where each piece of a block object sits when the object stands at
/// `pos`.
#[verifier::rlimit(100)]
proof fn lemma_block_layout(c: Seq<char>, pos: int, v: BlockView)
    requires
        text_at(c, pos, json_block(v)),
    ensures
        "{\"id\":"@.len() == 6,
        ",\"time_create\":"@.len() == 15,
        ",\"transactions\":"@.len() == 16,
        ",\"previous_hash\":"@.len() == 17,
        ",\"nonce\":"@.len() == 9,
        "}"@.len() == 1,
        text_at(c, pos, "{\"id\":"@),
        text_at(c, pos + 6, dec_of(v.id)),
        nondigit_after(c, pos + 6 + dec_of(v.id).len()),
        text_at(c, pos + 6 + dec_of(v.id).len(), ",\"time_create\":"@),
        text_at(c, pos + 21 + dec_of(v.id).len(), dec_of_int(v.time)),
        nondigit_after(c, pos + 21 + dec_of(v.id).len() + dec_of_int(v.time).len()),
        text_at(
            c,
            pos + 21 + dec_of(v.id).len() + dec_of_int(v.time).len(),
            ",\"transactions\":"@,
        ),
        text_at(c, pos + 37 + dec_of(v.id).len() + dec_of_int(v.time).len(), json_txs(v.txs)),
        text_at(
            c,
            pos + 37 + dec_of(v.id).len() + dec_of_int(v.time).len() + json_txs(v.txs).len(),
            ",\"previous_hash\":"@,
        ),
        text_at(
            c,
            pos + 54 + dec_of(v.id).len() + dec_of_int(v.time).len() + json_txs(v.txs).len(),
            json_string(v.prev),
        ),
        text_at(
            c,
            pos + 54 + dec_of(v.id).len() + dec_of_int(v.time).len() + json_txs(v.txs).len()
                + json_string(v.prev).len(),
            ",\"nonce\":"@,
        ),
        text_at(
            c,
            pos + 63 + dec_of(v.id).len() + dec_of_int(v.time).len() + json_txs(v.txs).len()
                + json_string(v.prev).len(),
            dec_of(v.nonce),
        ),
        nondigit_after(
            c,
            pos + 63 + dec_of(v.id).len() + dec_of_int(v.time).len() + json_txs(v.txs).len()
                + json_string(v.prev).len() + dec_of(v.nonce).len(),
        ),
        text_at(
            c,
            pos + 63 + dec_of(v.id).len() + dec_of_int(v.time).len() + json_txs(v.txs).len()
                + json_string(v.prev).len() + dec_of(v.nonce).len(),
            "}"@,
        ),
        json_block(v).len() == 64 + dec_of(v.id).len() + dec_of_int(v.time).len() + json_txs(
            v.txs,
        ).len() + json_string(v.prev).len() + dec_of(v.nonce).len(),
{
    reveal_strlit("{\"id\":");
    reveal_strlit(",\"time_create\":");
    reveal_strlit(",\"transactions\":");
    reveal_strlit(",\"previous_hash\":");
    reveal_strlit(",\"nonce\":");
    reveal_strlit("}");
    reveal_strlit("id");
    reveal_strlit("time_create");
    reveal_strlit("transactions");
    reveal_strlit("previous_hash");
    reveal_strlit("nonce");
    let d1 = dec_of(v.id);
    let d2 = dec_of_int(v.time);
    let d3 = json_txs(v.txs);
    let d4 = json_string(v.prev);
    let d5 = dec_of(v.nonce);
    let r10 = "}"@;
    let r9 = d5 + r10;
    let r8 = ",\"nonce\":"@ + r9;
    let r7 = d4 + r8;
    let r6 = ",\"previous_hash\":"@ + r7;
    let r5 = d3 + r6;
    let r4 = ",\"transactions\":"@ + r5;
    let r3 = d2 + r4;
    let r2 = ",\"time_create\":"@ + r3;
    let r1 = d1 + r2;
    assert(json_block(v) =~= "{\"id\":"@ + r1);
    lemma_text_at_split(c, pos, "{\"id\":"@, r1);
    lemma_text_at_split(c, pos + 6, d1, r2);
    let a1 = pos + 6 + d1.len();
    lemma_text_at_split(c, a1, ",\"time_create\":"@, r3);
    lemma_text_at_split(c, a1 + 15, d2, r4);
    let a2 = a1 + 15 + d2.len();
    lemma_text_at_split(c, a2, ",\"transactions\":"@, r5);
    lemma_text_at_split(c, a2 + 16, d3, r6);
    let a3 = a2 + 16 + d3.len();
    lemma_text_at_split(c, a3, ",\"previous_hash\":"@, r7);
    lemma_text_at_split(c, a3 + 17, d4, r8);
    let a4 = a3 + 17 + d4.len();
    lemma_text_at_split(c, a4, ",\"nonce\":"@, r9);
    lemma_text_at_split(c, a4 + 9, d5, r10);
    let a5 = a4 + 9 + d5.len();
    assert(c.subrange(a1, a1 + 15)[0] == ',');
    assert(c.subrange(a2, a2 + 16)[0] == ',');
    assert(c.subrange(a5, a5 + 1)[0] == '}');
    assert(!is_digit(c[a1]));
    assert(!is_digit(c[a2]));
    assert(!is_digit(c[a5]));
}

/// The id and time fields of a block object at `pos`.
proof fn lemma_block_at_front(c: Seq<char>, pos: int, v: BlockView)
    requires
        text_at(c, pos, json_block(v)),
    ensures
        "{\"id\":"@.len() == 6,
        ",\"time_create\":"@.len() == 15,
        text_at(c, pos, "{\"id\":"@),
        text_at(c, pos + 6, dec_of(v.id)),
        nondigit_after(c, pos + 6 + dec_of(v.id).len()),
        text_at(c, pos + 6 + dec_of(v.id).len(), ",\"time_create\":"@),
        text_at(c, pos + 21 + dec_of(v.id).len(), dec_of_int(v.time)),
        nondigit_after(c, pos + 21 + dec_of(v.id).len() + dec_of_int(v.time).len()),
{
    lemma_block_layout(c, pos, v);
}

/// The transaction list and previous-hash fields.
proof fn lemma_block_at_mid(c: Seq<char>, pos: int, v: BlockView)
    requires
        text_at(c, pos, json_block(v)),
    ensures
        ",\"transactions\":"@.len() == 16,
        ",\"previous_hash\":"@.len() == 17,
        text_at(
            c,
            pos + 21 + dec_of(v.id).len() + dec_of_int(v.time).len(),
            ",\"transactions\":"@,
        ),
        text_at(c, pos + 37 + dec_of(v.id).len() + dec_of_int(v.time).len(), json_txs(v.txs)),
        text_at(
            c,
            pos + 37 + dec_of(v.id).len() + dec_of_int(v.time).len() + json_txs(v.txs).len(),
            ",\"previous_hash\":"@,
        ),
        text_at(
            c,
            pos + 54 + dec_of(v.id).len() + dec_of_int(v.time).len() + json_txs(v.txs).len(),
            json_string(v.prev),
        ),
{
    lemma_block_layout(c, pos, v);
}

/// The nonce field and the closing brace, and the total length.
proof fn lemma_block_at_back(c: Seq<char>, pos: int, v: BlockView)
    requires
        text_at(c, pos, json_block(v)),
    ensures
        ",\"nonce\":"@.len() == 9,
        "}"@.len() == 1,
        text_at(
            c,
            pos + 54 + dec_of(v.id).len() + dec_of_int(v.time).len() + json_txs(v.txs).len()
                + json_string(v.prev).len(),
            ",\"nonce\":"@,
        ),
        text_at(
            c,
            pos + 63 + dec_of(v.id).len() + dec_of_int(v.time).len() + json_txs(v.txs).len()
                + json_string(v.prev).len(),
            dec_of(v.nonce),
        ),
        nondigit_after(
            c,
            pos + 63 + dec_of(v.id).len() + dec_of_int(v.time).len() + json_txs(v.txs).len()
                + json_string(v.prev).len() + dec_of(v.nonce).len(),
        ),
        text_at(
            c,
            pos + 63 + dec_of(v.id).len() + dec_of_int(v.time).len() + json_txs(v.txs).len()
                + json_string(v.prev).len() + dec_of(v.nonce).len(),
            "}"@,
        ),
        json_block(v).len() == 64 + dec_of(v.id).len() + dec_of_int(v.time).len() + json_txs(
            v.txs,
        ).len() + json_string(v.prev).len() + dec_of(v.nonce).len(),
{
    lemma_block_layout(c, pos, v);
}

/// Stitches the consumed pieces of a block object back into its
/// whole rendering.
#[verifier::rlimit(100)]
proof fn lemma_block_assemble(
    c: Seq<char>,
    pos: int,
    p3: int,
    p4: int,
    p5: int,
    p6: int,
    p7: int,
    p8: int,
    p9: int,
    p10: int,
    v: BlockView,
)
    requires
        0 <= pos <= p3 <= p4 <= p5 <= p6 <= p7 <= p8 <= p9 <= p10 <= c.len(),
        c.subrange(pos, p3) == json_block_front(v.id, v.time),
        c.subrange(p3, p4) == ",\"transactions\":"@,
        c.subrange(p4, p5) == json_txs(v.txs),
        c.subrange(p5, p6) == ",\"previous_hash\":"@,
        c.subrange(p6, p7) == json_string(v.prev),
        c.subrange(p7, p8) == ",\"nonce\":"@,
        c.subrange(p8, p9) == dec_of(v.nonce),
        c.subrange(p9, p10) == "}"@,
    ensures
        c.subrange(pos, p10) == json_block(v),
{
    reveal_strlit(",\"transactions\":");
    reveal_strlit(",\"previous_hash\":");
    reveal_strlit(",\"nonce\":");
    reveal_strlit("}");
    reveal_strlit("transactions");
    reveal_strlit("previous_hash");
    reveal_strlit("nonce");
    assert(",\"transactions\":"@ =~= seq![','] + json_key("transactions"@));
    assert(",\"previous_hash\":"@ =~= seq![','] + json_key("previous_hash"@));
    assert(",\"nonce\":"@ =~= seq![','] + json_key("nonce"@));
    assert("}"@ =~= seq!['}']);
    assert(c.subrange(pos, p4) =~= c.subrange(pos, p3) + c.subrange(p3, p4));
    assert(c.subrange(pos, p5) =~= c.subrange(pos, p4) + c.subrange(p4, p5));
    assert(c.subrange(pos, p6) =~= c.subrange(pos, p5) + c.subrange(p5, p6));
    assert(c.subrange(pos, p7) =~= c.subrange(pos, p6) + c.subrange(p6, p7));
    assert(c.subrange(pos, p8) =~= c.subrange(pos, p7) + c.subrange(p7, p8));
    assert(c.subrange(pos, p9) =~= c.subrange(pos, p8) + c.subrange(p8, p9));
    assert(c.subrange(pos, p10) =~= c.subrange(pos, p9) + c.subrange(p9, p10));
    assert(c.subrange(pos, p10) =~= json_block(v));
}

/// The opening of a block object: brace, id and creation time.
pub open spec fn json_block_front(id: nat, time: int) -> Seq<char> {
    seq!['{'] + json_key("id"@) + dec_of(id) + seq![','] + json_key("time_create"@) + dec_of_int(
        time,
    )
}

/// Reads the brace, the id and the creation time that open a block
/// object.
#[verifier::rlimit(100)]
fn parse_block_front(c: &Vec<char>, pos: usize) -> (r: Option<(u64, i64, usize)>)
    ensures
        (r matches Some(fp) ==> pos < fp.2 <= c@.len() && fp.0 <= usize::MAX && c@.subrange(
            pos as int,
            fp.2 as int,
        ) == json_block_front(fp.0 as nat, fp.1 as int)),
        forall|v: BlockView|
            (#[trigger] text_at(c@, pos as int, json_block(v)) && v.id <= usize::MAX && i64::MIN
                <= v.time <= i64::MAX) ==> (r matches Some(fp) && fp.0 == v.id && fp.1 == v.time
                && fp.2 == pos + 21 + dec_of(v.id).len() + dec_of_int(v.time).len()),
{
    proof {
        assert forall|v: BlockView| #[trigger] text_at(c@, pos as int, json_block(v)) implies
            text_at(c@, pos as int, "{\"id\":"@) by {
            lemma_block_at_front(c@, pos as int, v);
        }
    }
    let p0 = eat_lit(c, pos, "{\"id\":")?;
    proof {
        assert forall|v: BlockView| (#[trigger] text_at(c@, pos as int, json_block(v)) && v.id
            <= usize::MAX) implies text_at(c@, p0 as int, dec_of(v.id)) && v.id <= u64::MAX
            && nondigit_after(c@, p0 + dec_of(v.id).len()) by {
            lemma_block_at_front(c@, pos as int, v);
        }
    }
    let (id_num, p1) = parse_u64_dec(c, p0)?;
    proof {
        assert forall|v: BlockView| (#[trigger] text_at(c@, pos as int, json_block(v)) && v.id
            <= usize::MAX) implies id_num == v.id && p1 == pos + 6 + dec_of(v.id).len()
            && text_at(c@, p1 as int, ",\"time_create\":"@) by {
            lemma_block_at_front(c@, pos as int, v);
            assert(text_at(c@, p0 as int, dec_of(v.id)));
        }
    }
    if id_num > usize::MAX as u64 {
        return None;
    }
    let p2 = eat_lit(c, p1, ",\"time_create\":")?;
    proof {
        assert forall|v: BlockView| (#[trigger] text_at(c@, pos as int, json_block(v)) && v.id
            <= usize::MAX && i64::MIN <= v.time <= i64::MAX) implies text_at(
            c@,
            p2 as int,
            dec_of_int(v.time),
        ) && nondigit_after(c@, p2 + dec_of_int(v.time).len()) by {
            lemma_block_at_front(c@, pos as int, v);
        }
    }
    let (time, p3) = parse_i64_dec(c, p2)?;
    proof {
        assert forall|v: BlockView| (#[trigger] text_at(c@, pos as int, json_block(v)) && v.id
            <= usize::MAX && i64::MIN <= v.time <= i64::MAX) implies time == v.time && p3 == pos
            + 21 + dec_of(v.id).len() + dec_of_int(v.time).len() by {
            lemma_block_at_front(c@, pos as int, v);
            assert(text_at(c@, p2 as int, dec_of_int(v.time)));
        }
        reveal_strlit("{\"id\":");
        reveal_strlit(",\"time_create\":");
        reveal_strlit("id");
        reveal_strlit("time_create");
        assert("{\"id\":"@ =~= seq!['{'] + json_key("id"@));
        assert(",\"time_create\":"@ =~= seq![','] + json_key("time_create"@));
        assert(c@.subrange(pos as int, p1 as int) =~= c@.subrange(pos as int, p0 as int)
            + c@.subrange(p0 as int, p1 as int));
        assert(c@.subrange(pos as int, p2 as int) =~= c@.subrange(pos as int, p1 as int)
            + c@.subrange(p1 as int, p2 as int));
        assert(c@.subrange(pos as int, p3 as int) =~= c@.subrange(pos as int, p2 as int)
            + c@.subrange(p2 as int, p3 as int));
        assert(c@.subrange(pos as int, p3 as int) =~= json_block_front(
            id_num as nat,
            time as int,
        ));
    }
    Some((id_num, time, p3))
}

/// Reads a block object. What it consumed is exactly the rendering
/// of the result, and a rendered block whose numbers fit the machine
/// and whose amounts are well formed is always read back.
#[verifier::rlimit(100)]
fn parse_block(c: &Vec<char>, pos: usize) -> (r: Option<(Block, usize)>)
    ensures
        (r matches Some(bp) ==> pos < bp.1 <= c@.len() && c@.subrange(pos as int, bp.1 as int)
            == json_block(bp.0@)),
        forall|v: BlockView|
            (#[trigger] text_at(c@, pos as int, json_block(v)) && txs_amounts_wf(v.txs) && v.id
                <= usize::MAX && v.nonce <= u64::MAX && i64::MIN <= v.time <= i64::MAX) ==> (r
                matches Some(bp) && block_like(bp.0@, v) && bp.1 == pos + json_block(v).len()),
{
    let front = parse_block_front(c, pos)?;
    let (id_num, time, p3) = front;
    proof {
        assert forall|v: BlockView| (#[trigger] text_at(c@, pos as int, json_block(v)) && v.id
            <= usize::MAX && v.nonce <= u64::MAX && i64::MIN <= v.time <= i64::MAX) implies {
            &&& text_at(c@, p3 as int, ",\"transactions\":"@)
            &&& ",\"transactions\":"@.len() == 16
            &&& text_at(c@, p3 + 16, json_txs(v.txs))
            &&& text_at(c@, p3 + 16 + json_txs(v.txs).len(), ",\"previous_hash\":"@)
            &&& ",\"previous_hash\":"@.len() == 17
            &&& text_at(c@, p3 + 33 + json_txs(v.txs).len(), json_string(v.prev))
            &&& text_at(
                c@,
                p3 + 33 + json_txs(v.txs).len() + json_string(v.prev).len(),
                ",\"nonce\":"@,
            )
            &&& ",\"nonce\":"@.len() == 9
            &&& text_at(
                c@,
                p3 + 42 + json_txs(v.txs).len() + json_string(v.prev).len(),
                dec_of(v.nonce),
            )
            &&& nondigit_after(
                c@,
                p3 + 42 + json_txs(v.txs).len() + json_string(v.prev).len() + dec_of(
                    v.nonce,
                ).len(),
            )
            &&& text_at(
                c@,
                p3 + 42 + json_txs(v.txs).len() + json_string(v.prev).len() + dec_of(
                    v.nonce,
                ).len(),
                "}"@,
            )
            &&& "}"@.len() == 1
            &&& pos + json_block(v).len() == p3 + 43 + json_txs(v.txs).len() + json_string(
                v.prev,
            ).len() + dec_of(v.nonce).len()
        } by {
            lemma_block_at_front(c@, pos as int, v);
            lemma_block_at_mid(c@, pos as int, v);
            lemma_block_at_back(c@, pos as int, v);
        }
    }
    let p4 = eat_lit(c, p3, ",\"transactions\":")?;
    let (txs, p5) = parse_txs(c, p4)?;
    proof {
        assert forall|v: BlockView| (#[trigger] text_at(c@, pos as int, json_block(v))
            && txs_amounts_wf(v.txs) && v.id <= usize::MAX && v.nonce <= u64::MAX && i64::MIN
            <= v.time <= i64::MAX) implies txs@.len() == v.txs.len() && (forall|i: int|
            0 <= i < v.txs.len() ==> tx_fields_eq(#[trigger] txs@[i], v.txs[i])) && p5 == p3 + 16
            + json_txs(v.txs).len() by {
            assert(text_at(c@, p4 as int, json_txs(v.txs)));
        }
    }
    let p6 = eat_lit(c, p5, ",\"previous_hash\":")?;
    let (prev, p7) = parse_string(c, p6)?;
    proof {
        assert forall|v: BlockView| (#[trigger] text_at(c@, pos as int, json_block(v))
            && txs_amounts_wf(v.txs) && v.id <= usize::MAX && v.nonce <= u64::MAX && i64::MIN
            <= v.time <= i64::MAX) implies prev@ == v.prev && p7 == p3 + 33 + json_txs(
            v.txs,
        ).len() + json_string(v.prev).len() by {
            assert(text_at(c@, p6 as int, json_string(v.prev)));
        }
    }
    let p8 = eat_lit(c, p7, ",\"nonce\":")?;
    let (nonce, p9) = parse_u64_dec(c, p8)?;
    proof {
        assert forall|v: BlockView| (#[trigger] text_at(c@, pos as int, json_block(v))
            && txs_amounts_wf(v.txs) && v.id <= usize::MAX && v.nonce <= u64::MAX && i64::MIN
            <= v.time <= i64::MAX) implies nonce == v.nonce && text_at(c@, p9 as int, "}"@) && p9
            + 1 == pos + json_block(v).len() by {
            assert(text_at(c@, p8 as int, dec_of(v.nonce)));
        }
    }
    let p10 = eat_lit(c, p9, "}")?;
    let ghost txs_view = txs@;
    let block = Block::force_new(id_num as usize, time, txs, prev, nonce);
    proof {
        assert(block@.txs == txs_view);
        lemma_block_assemble(
            c@,
            pos as int,
            p3 as int,
            p4 as int,
            p5 as int,
            p6 as int,
            p7 as int,
            p8 as int,
            p9 as int,
            p10 as int,
            block@,
        );
    }
    Some((block, p10))
}

/// Reads a whole frame as one block. A successful parse means the
/// input is exactly the canonical rendering of the result, and the
/// rendering of any block whose numbers fit the machine and whose
/// amounts are well formed always parses back to that block.
pub fn block_from_json(s: &str) -> (r: Option<Block>)
    ensures
        (r matches Some(b) ==> s@ == json_block(b@)),
        forall|v: BlockView|
            (#[trigger] json_block(v) == s@ && txs_amounts_wf(v.txs) && v.id <= usize::MAX
                && v.nonce <= u64::MAX && i64::MIN <= v.time <= i64::MAX) ==> (r matches Some(b)
                && block_like(b@, v)),
{
    let chars = crate::strutil::chars_vec(s);
    proof {
        assert forall|v: BlockView| #[trigger] json_block(v) == s@ implies text_at(
            chars@,
            0,
            json_block(v),
        ) by {
            assert(chars@.subrange(0, s@.len() as int) =~= s@);
        }
    }
    match parse_block(&chars, 0) {
        Some(bp) => {
            let (block, p) = bp;
            if p == chars.len() {
                proof {
                    assert(chars@.subrange(0, p as int) =~= s@);
                }
                Some(block)
            } else {
                proof {
                    assert forall|v: BlockView| !(json_block(v) == s@ && txs_amounts_wf(v.txs)
                        && v.id <= usize::MAX && v.nonce <= u64::MAX && i64::MIN <= v.time
                        <= i64::MAX) by {}
                }
                None
            }
        },
        None => None,
    }
}

/// Reads a whole frame as one transaction, with the same two-way
/// guarantees as the block reader.
pub fn tx_from_json(s: &str) -> (r: Option<SerializedTransaction>)
    ensures
        (r matches Some(t) ==> s@ == json_tx(t)),
        forall|t: SerializedTransaction|
            (#[trigger] json_tx(t) == s@ && crate::amount::amount_wf(t.transfer@)) ==> (r matches
                Some(t2) && tx_fields_eq(t2, t)),
{
    let chars = crate::strutil::chars_vec(s);
    proof {
        assert forall|t: SerializedTransaction| #[trigger] json_tx(t) == s@ implies text_at(
            chars@,
            0,
            json_tx(t),
        ) by {
            assert(chars@.subrange(0, s@.len() as int) =~= s@);
        }
    }
    match parse_tx(&chars, 0) {
        Some(tp) => {
            let (t, p) = tp;
            if p == chars.len() {
                proof {
                    assert(chars@.subrange(0, p as int) =~= s@);
                }
                Some(t)
            } else {
                proof {
                    assert forall|t0: SerializedTransaction| !(json_tx(t0) == s@
                        && crate::amount::amount_wf(t0.transfer@)) by {}
                }
                None
            }
        },
        None => None,
    }
}

impl Block {
    /// This block as a JSON object.
    pub fn to_json(&self) -> (r: String)
        ensures
            r@ == json_block(self@),
    {
        block_to_json(self)
    }

    /// A block read back from a JSON object; success means the text
    /// is exactly the rendering of the result, and every rendered
    /// block that fits the machine is read back.
    pub fn from_json(s: &str) -> (r: Option<Block>)
        ensures
            (r matches Some(b) ==> s@ == json_block(b@)),
            forall|v: BlockView|
                (#[trigger] json_block(v) == s@ && txs_amounts_wf(v.txs) && v.id <= usize::MAX
                    && v.nonce <= u64::MAX && i64::MIN <= v.time <= i64::MAX) ==> (r matches Some(
                    b,
                ) && block_like(b@, v)),
    {
        block_from_json(s)
    }
}

impl crate::transaction::Transaction {
    /// This transaction's wire form as a JSON object.
    pub fn to_json(&self) -> (r: String)
        ensures
            r@ == json_tx(self.serialize_spec()),
    {
        tx_to_json(&self.serialize())
    }

    /// A checked transaction read back from a JSON object: the
    /// rendering of any transaction that passes the key and amount
    /// checks is read back whole.
    pub fn from_json(s: &str) -> (r: Result<
        crate::transaction::Transaction,
        crate::errors::TransactionError,
    >)
        ensures
            (r matches Ok(t) ==> s@ == json_tx(t.serialize_spec())),
            (r matches Ok(t) ==> t.wf()),
            forall|t0: SerializedTransaction|
                (#[trigger] json_tx(t0) == s@ && crate::transaction::key_ok(t0.sender@)
                    && crate::transaction::key_ok(t0.buyer@) && crate::transaction::key_ok(
                    t0.seller@,
                ) && crate::amount::amount_wf(t0.transfer@)) ==> (r matches Ok(t) && tx_fields_eq(
                    t.serialize_spec(),
                    t0,
                )),
    {
        match tx_from_json(s) {
            Some(st) => {
                let ghost st_view = st;
                match crate::transaction::Transaction::deserialize(st) {
                    Ok(t) => {
                        proof {
                            assert(t.serialize_spec() =~= st_view);
                        }
                        Ok(t)
                    },
                    Err(e) => Err(e),
                }
            },
            None => Err(crate::errors::TransactionError::Malformed),
        }
    }
}

} // verus!
