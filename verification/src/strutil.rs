//! Small string helpers shared by the negotiation and header code.

use vstd::prelude::*;
use vstd::string::StringSliceAdditionalSpecFns;

verus! {

/// Relies on `String::push`: appends one character to the string.
/// vstd does not specify this std function.
#[verifier::external_body]
pub(crate) fn push_char(s: &mut String, c: char)
    ensures
        final(s)@ == old(s)@.push(c),
{
    s.push(c);
}

/// The characters of a string slice as a vector.
pub(crate) fn chars_vec(s: &str) -> (r: Vec<char>)
    ensures
        r@ == s@,
{
    broadcast use vstd::string::axiom_spec_iter;

    let mut r: Vec<char> = Vec::new();
    for c in it: s.chars()
        invariant
            it.seq() == s@,
            r@ == s@.take(it.index() as int),
    {
        r.push(c);
        proof {
            assert(s@.take(it.index() + 1 as int) =~= s@.take(it.index() as int).push(
                s@[it.index() as int],
            ));
        }
    }
    proof {
        assert(s@.take(s@.len() as int) =~= s@);
    }
    r
}

/// A string holding exactly the given characters.
pub(crate) fn chars_to_string(v: &Vec<char>) -> (s: String)
    ensures
        s@ == v@,
{
    let mut s = String::new();
    let n = v.len();
    let mut i: usize = 0;
    while i < n
        invariant
            i <= n,
            n == v@.len(),
            s@ == v@.take(i as int),
        decreases n - i,
    {
        push_char(&mut s, v[i]);
        proof {
            assert(v@.take(i + 1 as int) =~= v@.take(i as int).push(v@[i as int]));
        }
        i = i + 1;
    }
    proof {
        assert(v@.take(n as int) =~= v@);
    }
    s
}

/// The index of the first occurrence of `d` in `s`, or `-1` when `d` does
/// not occur.
pub open spec fn first_ix(s: Seq<char>, d: char) -> int
    decreases s.len(),
{
    if s.len() == 0 {
        -1
    } else if s.first() == d {
        0
    } else {
        let r = first_ix(s.drop_first(), d);
        if r < 0 {
            -1
        } else {
            r + 1
        }
    }
}

proof fn lemma_first_ix_determined(s: Seq<char>, d: char, m: int)
    requires
        0 <= m < s.len(),
        s[m] == d,
        forall|k: int| 0 <= k < m ==> s[k] != d,
    ensures
        first_ix(s, d) == m,
    decreases s.len(),
{
    if m > 0 {
        assert(forall|k: int| 0 <= k < s.drop_first().len() ==> s.drop_first()[k] == s[k + 1]);
        lemma_first_ix_determined(s.drop_first(), d, m - 1);
    }
}

proof fn lemma_first_ix_absent(s: Seq<char>, d: char)
    requires
        forall|k: int| 0 <= k < s.len() ==> s[k] != d,
    ensures
        first_ix(s, d) == -1,
    decreases s.len(),
{
    if s.len() > 0 {
        assert(forall|k: int| 0 <= k < s.drop_first().len() ==> s.drop_first()[k] == s[k + 1]);
        lemma_first_ix_absent(s.drop_first(), d);
    }
}

/// The position of the first occurrence of `d`, if there is one.
pub(crate) fn find_char(v: &Vec<char>, d: char) -> (r: Option<usize>)
    ensures
        match r {
            Some(k) => k == first_ix(v@, d) && k < v@.len() && v@[k as int] == d,
            None => first_ix(v@, d) == -1,
        },
{
    let n = v.len();
    let mut i: usize = 0;
    while i < n
        invariant
            i <= n,
            n == v@.len(),
            forall|k: int| 0 <= k < i ==> v@[k] != d,
        decreases n - i,
    {
        if v[i] == d {
            proof {
                lemma_first_ix_determined(v@, d, i as int);
            }
            return Some(i);
        }
        i = i + 1;
    }
    proof {
        lemma_first_ix_absent(v@, d);
    }
    None
}

/// The characters from position `a` up to `b`.
pub(crate) fn slice_chars(v: &Vec<char>, a: usize, b: usize) -> (r: Vec<char>)
    requires
        a <= b <= v@.len(),
    ensures
        r@ == v@.subrange(a as int, b as int),
{
    let mut r: Vec<char> = Vec::new();
    let mut i: usize = a;
    while i < b
        invariant
            a <= i <= b <= v@.len(),
            r@ == v@.subrange(a as int, i as int),
        decreases b - i,
    {
        r.push(v[i]);
        proof {
            assert(v@.subrange(a as int, i + 1 as int) =~= v@.subrange(a as int, i as int).push(
                v@[i as int],
            ));
        }
        i = i + 1;
    }
    r
}

/// `s` split at every occurrence of `d`, empty pieces kept: the splitting
/// `str::split` performs for a character delimiter.
pub open spec fn split_on(s: Seq<char>, d: char) -> Seq<Seq<char>>
    decreases s.len(),
{
    let ix = first_ix(s, d);
    if ix < 0 || ix >= s.len() {
        seq![s]
    } else {
        seq![s.take(ix)] + split_on(s.skip(ix + 1), d)
    }
}

/// Splitting yields at least one piece.
pub proof fn lemma_split_on_len(s: Seq<char>, d: char)
    ensures
        split_on(s, d).len() >= 1,
{
}

/// Splits the characters at every occurrence of `d`, keeping empty pieces.
pub(crate) fn split_chars(v: &Vec<char>, d: char) -> (r: Vec<Vec<char>>)
    ensures
        r.deep_view() == split_on(v@, d),
{
    let mut parts: Vec<Vec<char>> = Vec::new();
    let mut cur: Vec<char> = Vec::new();
    let mut start: usize = 0;
    let n = v.len();
    let mut i: usize = 0;
    proof {
        assert(v@.skip(0) =~= v@);
        assert(parts.deep_view() + split_on(v@, d) =~= split_on(v@, d));
        assert(cur@ =~= v@.subrange(0, 0));
    }
    while i < n
        invariant
            i <= n,
            n == v@.len(),
            start <= i,
            cur@ == v@.subrange(start as int, i as int),
            forall|k: int| start <= k < i ==> v@[k] != d,
            split_on(v@, d) == parts.deep_view() + split_on(v@.skip(start as int), d),
        decreases n - i,
    {
        if v[i] == d {
            proof {
                let ghost parts0 = parts.deep_view();
                let ghost cur0 = cur@;
                let rest = v@.skip(start as int);
                assert(forall|k: int| 0 <= k < rest.len() ==> rest[k] == v@[k + start]);
                lemma_first_ix_determined(rest, d, i - start as int);
                assert(split_on(rest, d) == seq![rest.take(i - start as int)] + split_on(
                    rest.skip(i - start + 1 as int),
                    d,
                ));
                assert(rest.take(i - start as int) =~= v@.subrange(start as int, i as int));
                assert(rest.skip(i - start + 1 as int) =~= v@.skip(i + 1 as int));
                assert(parts0.push(cur0) + split_on(v@.skip(i + 1 as int), d) =~= parts0 + (
                seq![cur0] + split_on(v@.skip(i + 1 as int), d)));
            }
            let ghost parts0 = parts.deep_view();
            let ghost cur0 = cur@;
            parts.push(cur);
            cur = Vec::new();
            start = i + 1;
            proof {
                assert(parts.deep_view() =~~= parts0.push(cur0));
                assert(cur@ =~= v@.subrange(start as int, start as int));
            }
        } else {
            cur.push(v[i]);
            proof {
                assert(cur@ =~= v@.subrange(start as int, i + 1 as int));
            }
        }
        i = i + 1;
    }
    proof {
        let rest = v@.skip(start as int);
        assert(forall|k: int| 0 <= k < rest.len() ==> rest[k] == v@[k + start]);
        lemma_first_ix_absent(rest, d);
        assert(split_on(rest, d) == seq![rest]);
        assert(cur@ =~= rest);
    }
    let ghost parts0 = parts.deep_view();
    let ghost cur0 = cur@;
    parts.push(cur);
    proof {
        assert(parts.deep_view() =~~= parts0.push(cur0));
        assert(parts0.push(cur0) =~= parts0 + seq![cur0]);
        assert(parts.deep_view() =~~= split_on(v@, d));
    }
    parts
}

/// A vector of characters views and deep-views to the same sequence.
pub broadcast proof fn lemma_char_vec_deep_view(v: Vec<char>)
    ensures
        #[trigger] v.deep_view() == v@,
{
    assert(v.deep_view() =~= v@);
}

/// Whether `c` is a space or horizontal tab, the whitespace a header value
/// can hold around its tokens.
pub open spec fn is_ws(c: char) -> bool {
    c == ' ' || c == '\t'
}

/// `s` without its leading whitespace.
pub open spec fn trim_front(s: Seq<char>) -> Seq<char>
    decreases s.len(),
{
    if s.len() > 0 && is_ws(s.first()) {
        trim_front(s.drop_first())
    } else {
        s
    }
}

/// `s` without its trailing whitespace.
pub open spec fn trim_back(s: Seq<char>) -> Seq<char>
    decreases s.len(),
{
    if s.len() > 0 && is_ws(s.last()) {
        trim_back(s.drop_last())
    } else {
        s
    }
}

/// `s` without leading and trailing whitespace.
pub open spec fn trimmed(s: Seq<char>) -> Seq<char> {
    trim_back(trim_front(s))
}

/// Strips leading and trailing spaces and tabs.
pub(crate) fn trim_chars(v: &Vec<char>) -> (r: Vec<char>)
    ensures
        r@ == trimmed(v@),
{
    let n = v.len();
    let mut a: usize = 0;
    proof {
        assert(v@.skip(0) =~= v@);
    }
    while a < n && (v[a] == ' ' || v[a] == '\t')
        invariant
            a <= n,
            n == v@.len(),
            trim_front(v@) == trim_front(v@.skip(a as int)),
        decreases n - a,
    {
        proof {
            assert(v@.skip(a as int).drop_first() =~= v@.skip(a + 1 as int));
        }
        a = a + 1;
    }
    proof {
        if a < n {
            assert(v@.skip(a as int).first() == v@[a as int]);
        }
        assert(trim_front(v@.skip(a as int)) == v@.skip(a as int));
        assert(trim_front(v@) == v@.skip(a as int));
        assert(v@.skip(a as int).take(n - a as int) =~= v@.skip(a as int));
    }
    let mut b: usize = n;
    while b > a && (v[b - 1] == ' ' || v[b - 1] == '\t')
        invariant
            a <= b <= n,
            n == v@.len(),
            trim_front(v@) == v@.skip(a as int),
            trim_back(v@.skip(a as int)) == trim_back(v@.skip(a as int).take(b - a as int)),
        decreases b,
    {
        proof {
            let piece = v@.skip(a as int).take(b - a as int);
            assert(piece.last() == v@[b - 1]);
            assert(piece.drop_last() =~= v@.skip(a as int).take(b - 1 - a as int));
        }
        b = b - 1;
    }
    proof {
        assert(trim_back(v@.skip(a as int).take(b - a as int)) == v@.skip(a as int).take(
            b - a as int,
        ));
    }
    let mut r: Vec<char> = Vec::new();
    let mut i: usize = a;
    while i < b
        invariant
            a <= i <= b <= n,
            n == v@.len(),
            r@ == v@.subrange(a as int, i as int),
        decreases b - i,
    {
        r.push(v[i]);
        proof {
            assert(v@.subrange(a as int, i + 1 as int) =~= v@.subrange(a as int, i as int).push(
                v@[i as int],
            ));
        }
        i = i + 1;
    }
    proof {
        assert(r@ =~= v@.skip(a as int).take(b - a as int));
    }
    r
}

/// Compares two string slices by their character sequences.
///
/// Works byte for byte; the UTF-8 round-trip lemmas of vstd carry the
/// result back to the character level.
pub fn str_eq(a: &str, b: &str) -> (r: bool)
    ensures
        r == (a@ == b@),
{
    proof {
        vstd::utf8::encode_utf8_decode_utf8(a@);
        vstd::utf8::encode_utf8_decode_utf8(b@);
    }
    let ab = a.as_bytes();
    let bb = b.as_bytes();
    if ab.len() != bb.len() {
        return false;
    }
    let n = ab.len();
    let mut i: usize = 0;
    while i < n
        invariant
            n == ab@.len() == bb@.len(),
            i <= n,
            ab@ == a.spec_bytes(),
            bb@ == b.spec_bytes(),
            forall|j: int| 0 <= j < i ==> ab@[j] == bb@[j],
        decreases n - i,
    {
        if ab[i] != bb[i] {
            assert(a.spec_bytes() != b.spec_bytes());
            return false;
        }
        i = i + 1;
    }
    assert(a.spec_bytes() =~= b.spec_bytes());
    assert(a@ == vstd::utf8::decode_utf8(vstd::utf8::encode_utf8(a@)));
    true
}

} // verus!
