//! Line framing of the peer byte stream.
//!
//! Every wire frame is a line terminated by `'\n'`. Bytes arrive in
//! arbitrary chunks; a per-peer accumulator keeps what follows the last
//! newline until the next read completes it.

use vstd::prelude::*;

use crate::strutil::{chars_vec, string_of_range};

verus! {

/// Splits `data` at its first newline: the line before it and the rest
/// after it. `None` when `data` holds no newline yet.
pub fn extract_message(data: &str) -> (r: Option<(String, String)>)
    ensures
        match r {
            Some(pair) => exists|i: int|
                {
                    &&& 0 <= i < data@.len()
                    &&& data@[i] == '\n'
                    &&& (forall|j: int| 0 <= j < i ==> data@[j] != '\n')
                    &&& pair.0@ == data@.subrange(0, i)
                    &&& pair.1@ == data@.subrange(i + 1, data@.len() as int)
                },
            None => forall|j: int| 0 <= j < data@.len() ==> data@[j] != '\n',
        },
{
    let chars = chars_vec(data);
    let n = chars.len();
    let mut i: usize = 0;
    while i < n
        invariant
            n == chars@.len(),
            chars@ == data@,
            i <= n,
            forall|j: int| 0 <= j < i ==> data@[j] != '\n',
        decreases n - i,
    {
        if chars[i] == '\n' {
            let message = string_of_range(&chars, 0, i);
            let remaining = string_of_range(&chars, i + 1, n);
            return Some((message, remaining));
        }
        i = i + 1;
    }
    None
}

/// Index of the first newline in `s`, or its length when none.
pub open spec fn first_nl(s: Seq<char>) -> nat
    decreases s.len(),
{
    if s.len() == 0 {
        0
    } else if s[0] == '\n' {
        0
    } else {
        1 + first_nl(s.drop_first())
    }
}

pub proof fn lemma_first_nl(s: Seq<char>)
    ensures
        first_nl(s) <= s.len(),
        first_nl(s) < s.len() ==> s[first_nl(s) as int] == '\n',
        forall|j: int| 0 <= j < first_nl(s) ==> s[j] != '\n',
    decreases s.len(),
{
    if s.len() > 0 && s[0] != '\n' {
        lemma_first_nl(s.drop_first());
        let fd = first_nl(s);
        if fd < s.len() {
            assert(s[fd as int] == s.drop_first()[fd - 1]);
        }
        assert forall|j: int| 0 <= j < fd implies s[j] != '\n' by {
            if j >= 1 {
                assert(s[j] == s.drop_first()[j - 1]);
            }
        }
    }
}

/// The first newline is wherever a scan says it is.
pub proof fn lemma_first_nl_at(s: Seq<char>, k: int)
    requires
        0 <= k <= s.len(),
        k < s.len() ==> s[k] == '\n',
        forall|j: int| 0 <= j < k ==> s[j] != '\n',
    ensures
        first_nl(s) == k,
    decreases s.len(),
{
    if s.len() > 0 && s[0] != '\n' {
        assert(k >= 1);
        assert forall|j: int| 0 <= j < k - 1 implies s.drop_first()[j] != '\n' by {
            assert(s.drop_first()[j] == s[j + 1]);
        }
        if k - 1 < s.drop_first().len() {
            assert(s.drop_first()[k - 1] == s[k]);
        }
        lemma_first_nl_at(s.drop_first(), k - 1);
    }
}

/// The complete lines of a stream: everything ended by a newline, in
/// arrival order.
pub open spec fn lines_of(s: Seq<char>) -> Seq<Seq<char>>
    decreases s.len(),
{
    if first_nl(s) < s.len() {
        seq![s.subrange(0, first_nl(s) as int)] + lines_of(
            s.subrange(first_nl(s) as int + 1, s.len() as int),
        )
    } else {
        Seq::empty()
    }
}

/// What is left after the last complete line: bytes still waiting for
/// their newline.
pub open spec fn rest_of(s: Seq<char>) -> Seq<char>
    decreases s.len(),
{
    if first_nl(s) < s.len() {
        rest_of(s.subrange(first_nl(s) as int + 1, s.len() as int))
    } else {
        s
    }
}

/// The remainder never holds a newline.
pub proof fn lemma_rest_no_nl(s: Seq<char>)
    ensures
        forall|j: int| 0 <= j < rest_of(s).len() ==> rest_of(s)[j] != '\n',
    decreases s.len(),
{
    lemma_first_nl(s);
    if first_nl(s) < s.len() {
        let sub = s.subrange(first_nl(s) as int + 1, s.len() as int);
        lemma_rest_no_nl(sub);
        assert forall|j: int| 0 <= j < rest_of(s).len() implies rest_of(s)[j] != '\n' by {
            assert(rest_of(s) == rest_of(sub));
            assert(rest_of(s)[j] == rest_of(sub)[j]);
        }
    }
}

/// Splits a stream into its complete lines and the waiting remainder.
pub fn extract_lines(data: String) -> (r: (Vec<String>, String))
    ensures
        r.0.deep_view() == lines_of(data@),
        r.1@ == rest_of(data@),
{
    let mut lines: Vec<String> = Vec::new();
    let mut cur = data;
    let ghost orig = cur@;
    proof {
        assert(lines.deep_view() + lines_of(cur@) =~= lines_of(orig));
    }
    loop
        invariant
            lines.deep_view() + lines_of(cur@) =~= lines_of(orig),
            rest_of(cur@) == rest_of(orig),
        decreases cur@.len(),
    {
        match extract_message(cur.as_str()) {
            Some(pair) => {
                let (message, remaining) = pair;
                proof {
                    let i = choose|i: int|
                        {
                            &&& 0 <= i < cur@.len()
                            &&& cur@[i] == '\n'
                            &&& (forall|j: int| 0 <= j < i ==> cur@[j] != '\n')
                            &&& message@ == cur@.subrange(0, i)
                            &&& remaining@ == cur@.subrange(i + 1, cur@.len() as int)
                        };
                    lemma_first_nl_at(cur@, i);
                    assert(lines_of(cur@) == seq![message@] + lines_of(remaining@));
                    assert(rest_of(cur@) == rest_of(remaining@));
                    assert(lines.deep_view().push(message@) + lines_of(remaining@) =~= lines_of(
                        orig,
                    ));
                }
                let ghost lines_pre = lines.deep_view();
                lines.push(message);
                proof {
                    assert(lines.deep_view() =~= lines_pre.push(message@));
                }
                cur = remaining;
            },
            None => {
                proof {
                    lemma_first_nl_at(cur@, cur@.len() as int);
                    assert(lines_of(cur@) =~= Seq::<Seq<char>>::empty());
                    assert(lines.deep_view() + lines_of(cur@) =~= lines.deep_view());
                    assert(rest_of(cur@) == cur@);
                }
                return (lines, cur);
            },
        }
    }
}

} // verus!
