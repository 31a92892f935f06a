//! Lowercase hexadecimal rendering of bytes.

use vstd::prelude::*;

use crate::strutil::push_char;

verus! {

/// The sixteen lowercase hex digits.
pub open spec fn hex_char(d: nat) -> char {
    if d == 0 {
        '0'
    } else if d == 1 {
        '1'
    } else if d == 2 {
        '2'
    } else if d == 3 {
        '3'
    } else if d == 4 {
        '4'
    } else if d == 5 {
        '5'
    } else if d == 6 {
        '6'
    } else if d == 7 {
        '7'
    } else if d == 8 {
        '8'
    } else if d == 9 {
        '9'
    } else if d == 10 {
        'a'
    } else if d == 11 {
        'b'
    } else if d == 12 {
        'c'
    } else if d == 13 {
        'd'
    } else if d == 14 {
        'e'
    } else {
        'f'
    }
}

/// Two lowercase hex characters for each byte, in order.
pub open spec fn hex_render(bytes: Seq<u8>) -> Seq<char>
    decreases bytes.len(),
{
    if bytes.len() == 0 {
        Seq::empty()
    } else {
        hex_render(bytes.drop_last()) + seq![
            hex_char((bytes.last() >> 4) as nat),
            hex_char((bytes.last() & 15) as nat),
        ]
    }
}

/// The rendering is twice as long as the bytes.
pub proof fn lemma_hex_render_len(bytes: Seq<u8>)
    ensures
        hex_render(bytes).len() == 2 * bytes.len(),
    decreases bytes.len(),
{
    if bytes.len() > 0 {
        lemma_hex_render_len(bytes.drop_last());
    }
}

/// One hex digit as its character.
fn hex_digit_char(d: u8) -> (c: char)
    requires
        d < 16,
    ensures
        c == hex_char(d as nat),
{
    if d == 0 {
        '0'
    } else if d == 1 {
        '1'
    } else if d == 2 {
        '2'
    } else if d == 3 {
        '3'
    } else if d == 4 {
        '4'
    } else if d == 5 {
        '5'
    } else if d == 6 {
        '6'
    } else if d == 7 {
        '7'
    } else if d == 8 {
        '8'
    } else if d == 9 {
        '9'
    } else if d == 10 {
        'a'
    } else if d == 11 {
        'b'
    } else if d == 12 {
        'c'
    } else if d == 13 {
        'd'
    } else if d == 14 {
        'e'
    } else {
        'f'
    }
}

/// Renders bytes as lowercase hex, two characters each.
pub fn to_hex(bytes: &Vec<u8>) -> (r: String)
    ensures
        r@ == hex_render(bytes@),
{
    let n = bytes.len();
    let mut out = String::new();
    let mut i: usize = 0;
    while i < n
        invariant
            i <= n,
            n == bytes@.len(),
            out@ == hex_render(bytes@.subrange(0, i as int)),
        decreases n - i,
    {
        let b = bytes[i];
        proof {
            assert(b >> 4 < 16) by (bit_vector);
            assert(b & 15 < 16) by (bit_vector);
        }
        push_char(&mut out, hex_digit_char(b >> 4));
        push_char(&mut out, hex_digit_char(b & 15));
        proof {
            let pre = bytes@.subrange(0, i + 1);
            assert(pre.drop_last() =~= bytes@.subrange(0, i as int));
            assert(pre.last() == bytes@[i as int]);
            assert(out@ =~= hex_render(pre));
        }
        i = i + 1;
    }
    proof {
        assert(bytes@.subrange(0, n as int) =~= bytes@);
    }
    out
}

} // verus!
