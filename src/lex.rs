//! Lexicographic order on sequences of integers.
use vstd::prelude::*;
use std::cmp::Ordering;

verus! {


/// Lexicographic comparison of `a` and `b` from index `i` on; a proper prefix
/// sorts first.
pub open spec fn lex_from(a: Seq<int>, b: Seq<int>, i: int) -> Ordering
    decreases a.len() - i,
{
    if i < 0 || i >= a.len() {
        if i >= 0 && i < b.len() {
            Ordering::Less
        } else {
            Ordering::Equal
        }
    } else if i >= b.len() {
        Ordering::Greater
    } else if a[i] < b[i] {
        Ordering::Less
    } else if a[i] > b[i] {
        Ordering::Greater
    } else {
        lex_from(a, b, i + 1)
    }
}

/// Lexicographic comparison of two sequences.
pub open spec fn lex_cmp(a: Seq<int>, b: Seq<int>) -> Ordering {
    lex_from(a, b, 0)
}

/// The reverse of an ordering.
pub open spec fn flip(o: Ordering) -> Ordering {
    match o {
        Ordering::Less => Ordering::Greater,
        Ordering::Equal => Ordering::Equal,
        Ordering::Greater => Ordering::Less,
    }
}

/// The code points of a character sequence.
pub open spec fn char_codes(s: Seq<char>) -> Seq<int> {
    s.map_values(|c: char| c as int)
}

/// The values of a sequence of 16-bit weights.
pub open spec fn weight_values(s: Seq<u16>) -> Seq<int> {
    s.map_values(|w: u16| w as int)
}

pub proof fn lemma_lex_from_equal(a: Seq<int>, b: Seq<int>, i: int)
    requires
        0 <= i <= a.len(),
        forall|k: int| 0 <= k < i ==> a[k] == b[k],
        i <= b.len(),
    ensures
        lex_from(a, b, i) == Ordering::Equal <==> a =~= b,
    decreases a.len() - i,
{
    if i < a.len() && i < b.len() && a[i] == b[i] {
        lemma_lex_from_equal(a, b, i + 1);
    }
}

/// Comparison is `Equal` exactly on equal sequences.
pub proof fn lemma_lex_equal(a: Seq<int>, b: Seq<int>)
    ensures
        lex_cmp(a, b) == Ordering::Equal <==> a == b,
{
    lemma_lex_from_equal(a, b, 0);
}

pub proof fn lemma_lex_from_flip(a: Seq<int>, b: Seq<int>, i: int)
    requires
        0 <= i,
    ensures
        lex_from(b, a, i) == flip(lex_from(a, b, i)),
    decreases a.len() - i,
{
    if i < a.len() && i < b.len() && a[i] == b[i] {
        lemma_lex_from_flip(a, b, i + 1);
    }
}

/// Swapping the arguments reverses the comparison.
pub proof fn lemma_lex_flip(a: Seq<int>, b: Seq<int>)
    ensures
        lex_cmp(b, a) == flip(lex_cmp(a, b)),
{
    lemma_lex_from_flip(a, b, 0);
}

pub proof fn lemma_lex_from_transitive(a: Seq<int>, b: Seq<int>, c: Seq<int>, i: int)
    requires
        0 <= i,
        lex_from(a, b, i) == Ordering::Less,
        lex_from(b, c, i) == Ordering::Less,
    ensures
        lex_from(a, c, i) == Ordering::Less,
    decreases a.len() - i,
{
    if i < a.len() && i < b.len() && i < c.len() && a[i] == b[i] && b[i] == c[i] {
        lemma_lex_from_transitive(a, b, c, i + 1);
    }
}

/// `Less` is transitive.
pub proof fn lemma_lex_transitive(a: Seq<int>, b: Seq<int>, c: Seq<int>)
    requires
        lex_cmp(a, b) == Ordering::Less,
        lex_cmp(b, c) == Ordering::Less,
    ensures
        lex_cmp(a, c) == Ordering::Less,
{
    lemma_lex_from_transitive(a, b, c, 0);
}

/// Different character sequences have different code points.
pub proof fn lemma_char_codes_injective(a: Seq<char>, b: Seq<char>)
    requires
        char_codes(a) == char_codes(b),
    ensures
        a == b,
{
    assert(char_codes(a).len() == a.len());
    assert(char_codes(b).len() == b.len());
    assert forall|k: int| 0 <= k < a.len() implies a[k] == b[k] by {
        assert(a.len() == b.len());
        assert(char_codes(a)[k] == char_codes(b)[k]);
        assert(char_codes(a)[k] == a[k] as int);
        assert(char_codes(b)[k] == b[k] as int);
        assert(a[k] as int == b[k] as int);
    }
    assert(a =~= b);
}

/// Compares two character sequences by code point.
pub fn compare_chars(a: &[char], b: &[char]) -> (r: Ordering)
    ensures
        r == lex_cmp(char_codes(a@), char_codes(b@)),
{
    let mut i: usize = 0;
    while i < a.len() && i < b.len() && a[i] == b[i]
        invariant
            i <= a@.len(),
            i <= b@.len(),
            lex_from(char_codes(a@), char_codes(b@), i as int) == lex_cmp(
                char_codes(a@),
                char_codes(b@),
            ),
        decreases a@.len() - i,
    {
        i = i + 1;
    }
    if i < a.len() && i < b.len() {
        if a[i] < b[i] {
            Ordering::Less
        } else {
            Ordering::Greater
        }
    } else if i < b.len() {
        Ordering::Less
    } else if i < a.len() {
        Ordering::Greater
    } else {
        Ordering::Equal
    }
}

/// Compares two weight sequences.
pub fn compare_weights(a: &[u16], b: &[u16]) -> (r: Ordering)
    ensures
        r == lex_cmp(weight_values(a@), weight_values(b@)),
{
    let mut i: usize = 0;
    while i < a.len() && i < b.len() && a[i] == b[i]
        invariant
            i <= a@.len(),
            i <= b@.len(),
            lex_from(weight_values(a@), weight_values(b@), i as int) == lex_cmp(
                weight_values(a@),
                weight_values(b@),
            ),
        decreases a@.len() - i,
    {
        i = i + 1;
    }
    if i < a.len() && i < b.len() {
        if a[i] < b[i] {
            Ordering::Less
        } else {
            Ordering::Greater
        }
    } else if i < b.len() {
        Ordering::Less
    } else if i < a.len() {
        Ordering::Greater
    } else {
        Ordering::Equal
    }
}

} // verus!
