//! Character-level helpers shared by the exporters and the probe parser.

use vstd::prelude::*;
use vstd::string::*;

verus! {

/// Appends one character to a string (`String::push`).
#[verifier::external_body]
pub(crate) fn push_char(s: &mut String, c: char)
    ensures
        final(s)@ == old(s)@.push(c),
{
    s.push(c);
}

/// The characters of a string, in order.
pub fn str_chars(s: &str) -> (v: Vec<char>)
    ensures
        v@ == s@,
{
    let n = s.unicode_len();
    let mut v: Vec<char> = Vec::new();
    let mut i: usize = 0;
    while i < n
        invariant
            n == s@.len(),
            i <= n,
            v@ == s@.subrange(0, i as int),
        decreases n - i,
    {
        let c = s.get_char(i);
        v.push(c);
        i = i + 1;
    }
    v
}

/// A string holding the characters `chars[from..to]`.
pub fn chars_to_string(chars: &[char], from: usize, to: usize) -> (s: String)
    requires
        from <= to <= chars@.len(),
    ensures
        s@ == chars@.subrange(from as int, to as int),
{
    let mut s = String::new();
    let mut i = from;
    while i < to
        invariant
            from <= i <= to,
            to <= chars@.len(),
            s@ == chars@.subrange(from as int, i as int),
        decreases to - i,
    {
        push_char(&mut s, chars[i]);
        proof {
            assert(chars@.subrange(from as int, i + 1) =~= chars@.subrange(from as int, i as int).push(
                chars@[i as int],
            ));
        }
        i = i + 1;
    }
    s
}

/// Whether `chars[from..to]` spells `word`.
pub fn slice_equals(chars: &[char], from: usize, to: usize, word: &[char]) -> (eq: bool)
    requires
        from <= to <= chars@.len(),
    ensures
        eq == (chars@.subrange(from as int, to as int) == word@),
{
    if to - from != word.len() {
        proof {
            assert(chars@.subrange(from as int, to as int).len() != word@.len());
        }
        return false;
    }
    let mut k: usize = 0;
    while k < word.len()
        invariant
            to - from == word@.len(),
            from <= to <= chars@.len(),
            k <= word@.len(),
            forall|j: int| 0 <= j < k ==> chars@[from + j] == word@[j],
        decreases word@.len() - k,
    {
        if chars[from + k] != word[k] {
            proof {
                assert(chars@.subrange(from as int, to as int)[k as int] != word@[k as int]);
            }
            return false;
        }
        k = k + 1;
    }
    proof {
        assert(chars@.subrange(from as int, to as int) =~= word@);
    }
    true
}

/// The position of the first `c` in `s`, if any.
pub open spec fn first_index(s: Seq<char>, c: char) -> Option<int>
    decreases s.len(),
{
    if s.len() == 0 {
        None
    } else {
        match first_index(s.drop_last(), c) {
            Some(i) => Some(i),
            None => if s.last() == c {
                Some(s.len() - 1)
            } else {
                None
            },
        }
    }
}

/// `s` cut around its first `c`: the part before and the part after.
pub open spec fn split_once(s: Seq<char>, c: char) -> Option<(Seq<char>, Seq<char>)> {
    match first_index(s, c) {
        Some(i) => Some((s.subrange(0, i), s.subrange(i + 1, s.len() as int))),
        None => None,
    }
}

proof fn lemma_first_index_prefix(s: Seq<char>, c: char, k: int)
    requires
        0 <= k <= s.len(),
        forall|j: int| 0 <= j < k ==> s[j] != c,
    ensures
        first_index(s.subrange(0, k), c) is None,
    decreases k,
{
    if k > 0 {
        assert(s.subrange(0, k).drop_last() =~= s.subrange(0, k - 1));
        lemma_first_index_prefix(s, c, k - 1);
    }
}

proof fn lemma_first_index_found(s: Seq<char>, c: char, k: int)
    requires
        0 <= k < s.len(),
        forall|j: int| 0 <= j < k ==> s[j] != c,
        s[k] == c,
    ensures
        first_index(s, c) == Some(k),
    decreases s.len(),
{
    if k < s.len() - 1 {
        assert(s.drop_last()[k] == c);
        lemma_first_index_found(s.drop_last(), c, k);
    } else {
        assert(s.drop_last() =~= s.subrange(0, k));
        lemma_first_index_prefix(s, c, k);
    }
}

proof fn lemma_first_index_absent(s: Seq<char>, c: char)
    requires
        forall|j: int| 0 <= j < s.len() ==> s[j] != c,
    ensures
        first_index(s, c) is None,
{
    lemma_first_index_prefix(s, c, s.len() as int);
    assert(s.subrange(0, s.len() as int) =~= s);
}

/// The position of the first `c` in `chars[from..to]`, counted from `from`.
pub fn find_char(chars: &[char], from: usize, to: usize, c: char) -> (pos: Option<usize>)
    requires
        from <= to <= chars@.len(),
    ensures
        match pos {
            Some(p) => first_index(chars@.subrange(from as int, to as int), c) == Some(p - from)
                && from <= p < to,
            None => first_index(chars@.subrange(from as int, to as int), c) is None,
        },
{
    let ghost s = chars@.subrange(from as int, to as int);
    let mut i = from;
    while i < to
        invariant
            from <= i <= to,
            to <= chars@.len(),
            s == chars@.subrange(from as int, to as int),
            forall|j: int| 0 <= j < i - from ==> s[j] != c,
        decreases to - i,
    {
        if chars[i] == c {
            proof {
                lemma_first_index_found(s, c, i - from);
            }
            return Some(i);
        }
        i = i + 1;
    }
    proof {
        lemma_first_index_absent(s, c);
    }
    None
}

} // verus!
