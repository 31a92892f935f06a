//! Small executable helpers over strings and character vectors.

use vstd::prelude::*;

verus! {

broadcast use vstd::string::group_string_axioms;

/// Relies on `String::push`: appends one character at the end.
#[verifier::external_body]
pub fn push_char(s: &mut String, c: char)
    ensures
        final(s)@ == old(s)@.push(c),
{
    s.push(c)
}

/// Collects the characters of `s` into a vector.
pub fn chars_vec(s: &str) -> (r: Vec<char>)
    ensures
        r@ == s@,
{
    let n = s.unicode_len();
    let mut r: Vec<char> = Vec::new();
    let mut i: usize = 0;
    while i < n
        invariant
            n == s@.len(),
            i <= n,
            r@ == s@.subrange(0, i as int),
        decreases n - i,
    {
        r.push(s.get_char(i));
        assert(r@ =~= s@.subrange(0, i + 1 as int));
        i = i + 1;
    }
    assert(r@ =~= s@);
    r
}

/// Builds a `String` out of `chars[from..to]`.
pub fn string_of_range(chars: &Vec<char>, from: usize, to: usize) -> (r: String)
    requires
        from <= to <= chars@.len(),
    ensures
        r@ == chars@.subrange(from as int, to as int),
{
    let mut out = String::new();
    let mut i: usize = from;
    while i < to
        invariant
            from <= i <= to <= chars@.len(),
            out@ == chars@.subrange(from as int, i as int),
        decreases to - i,
    {
        push_char(&mut out, chars[i]);
        assert(out@ =~= chars@.subrange(from as int, i + 1 as int));
        i = i + 1;
    }
    out
}

/// The whitespace characters that `trim` strips.
pub open spec fn is_space(c: char) -> bool {
    c == ' ' || c == '\t' || c == '\n' || c == '\r'
}

/// How many whitespace characters `s` starts with.
pub open spec fn lead_ws(s: Seq<char>) -> int
    decreases s.len(),
{
    if s.len() == 0 {
        0
    } else if !is_space(s[0]) {
        0
    } else {
        1 + lead_ws(s.drop_first())
    }
}

/// How many whitespace characters `s` ends with.
pub open spec fn trail_ws(s: Seq<char>) -> int
    decreases s.len(),
{
    if s.len() == 0 {
        0
    } else if !is_space(s.last()) {
        0
    } else {
        1 + trail_ws(s.drop_last())
    }
}

/// `s` without its leading and trailing whitespace.
pub open spec fn trim_spec(s: Seq<char>) -> Seq<char> {
    if lead_ws(s) == s.len() {
        Seq::empty()
    } else {
        s.subrange(lead_ws(s), s.len() - trail_ws(s))
    }
}

pub proof fn lemma_lead_ws_at(s: Seq<char>, k: int)
    requires
        0 <= k <= s.len(),
        forall|j: int| 0 <= j < k ==> is_space(#[trigger] s[j]),
        k < s.len() ==> !is_space(s[k]),
    ensures
        lead_ws(s) == k,
    decreases s.len(),
{
    if s.len() > 0 && is_space(s[0]) {
        assert(k >= 1);
        assert forall|j: int| 0 <= j < k - 1 implies is_space(#[trigger] s.drop_first()[j]) by {
            assert(s.drop_first()[j] == s[j + 1]);
        }
        if k - 1 < s.drop_first().len() {
            assert(s.drop_first()[k - 1] == s[k]);
        }
        lemma_lead_ws_at(s.drop_first(), k - 1);
    }
}

pub proof fn lemma_trail_ws_at(s: Seq<char>, k: int)
    requires
        0 <= k <= s.len(),
        forall|j: int| k <= j < s.len() ==> is_space(#[trigger] s[j]),
        k > 0 ==> !is_space(s[k - 1]),
    ensures
        trail_ws(s) == s.len() - k,
    decreases s.len(),
{
    if s.len() > 0 && is_space(s.last()) {
        assert(k < s.len());
        assert forall|j: int| k <= j < s.drop_last().len() implies is_space(
            #[trigger] s.drop_last()[j],
        ) by {
            assert(s.drop_last()[j] == s[j]);
        }
        if k > 0 {
            assert(s.drop_last()[k - 1] == s[k - 1]);
        }
        lemma_trail_ws_at(s.drop_last(), k);
    }
}

/// Whether `c` is one of the whitespace characters that `trim` strips.
pub fn is_space_char(c: char) -> (r: bool)
    ensures
        r == is_space(c),
{
    c == ' ' || c == '\t' || c == '\n' || c == '\r'
}

/// Index of the first character that is not whitespace, or the length.
fn first_non_ws(chars: &Vec<char>) -> (a: usize)
    ensures
        a <= chars@.len(),
        forall|j: int| 0 <= j < a ==> is_space(#[trigger] chars@[j]),
        a < chars@.len() ==> !is_space(chars@[a as int]),
{
    let n = chars.len();
    let mut i: usize = 0;
    while i < n
        invariant
            i <= n,
            n == chars@.len(),
            forall|j: int| 0 <= j < i ==> is_space(#[trigger] chars@[j]),
        decreases n - i,
    {
        if !is_space_char(chars[i]) {
            return i;
        }
        i = i + 1;
    }
    n
}

/// One past the last character at or after `from` that is not
/// whitespace, or `from` when all of them are.
fn last_non_ws_end(chars: &Vec<char>, from: usize) -> (b: usize)
    requires
        from <= chars@.len(),
    ensures
        from <= b <= chars@.len(),
        forall|j: int| b <= j < chars@.len() ==> is_space(#[trigger] chars@[j]),
        b > from ==> !is_space(chars@[b - 1]),
{
    let n = chars.len();
    let mut i: usize = n;
    while i > from
        invariant
            from <= i <= n,
            n == chars@.len(),
            forall|j: int| i <= j < n ==> is_space(#[trigger] chars@[j]),
        decreases i,
    {
        if !is_space_char(chars[i - 1]) {
            return i;
        }
        i = i - 1;
    }
    from
}

/// Strips leading and trailing whitespace.
pub fn trim(s: &str) -> (r: String)
    ensures
        r@ == trim_spec(s@),
{
    let chars = chars_vec(s);
    let n = chars.len();
    let a = first_non_ws(&chars);
    proof {
        lemma_lead_ws_at(s@, a as int);
    }
    if a == n {
        return String::new();
    }
    let b = last_non_ws_end(&chars, a);
    proof {
        if b == a {
            assert(is_space(s@[a as int]));
            assert(false);
        }
        lemma_trail_ws_at(s@, b as int);
    }
    string_of_range(&chars, a, b)
}

} // verus!
