//! Laws of the order of sort keys.
use vstd::prelude::*;
use std::cmp::Ordering;
use crate::lex::{
    flip, lemma_lex_equal, lemma_lex_flip, lemma_lex_transitive, lex_cmp, lex_from,
    weight_values,
};
use crate::{
    key_cmp, key_nonzero, key_weights, lemma_level_weights_nonzero, nonzero, string_key,
    SortKeyView, CollationElement,
};

verus! {

proof fn lemma_skip_equal(a: Seq<int>, b: Seq<int>, i: int, o: int)
    requires
        0 <= i <= o,
        o <= a.len(),
        o <= b.len(),
        forall|k: int| i <= k < o ==> a[k] == b[k],
    ensures
        lex_from(a, b, i) == lex_from(a, b, o),
    decreases o - i,
{
    if i < o {
        lemma_skip_equal(a, b, i + 1, o);
    }
}

/// Within a level followed by a zero, the first difference decides, and a
/// level that is a proper prefix of the other sorts first.
proof fn lemma_block_sentinel(a: Seq<int>, b: Seq<int>, o: int, x: Seq<int>, y: Seq<int>, j: int)
    requires
        0 <= o,
        0 <= j <= x.len(),
        j <= y.len(),
        o + x.len() < a.len(),
        o + y.len() < b.len(),
        forall|k: int| 0 <= k < x.len() ==> a[o + k] == x[k],
        forall|k: int| 0 <= k < y.len() ==> b[o + k] == y[k],
        a[o + x.len()] == 0,
        b[o + y.len()] == 0,
        forall|k: int| 0 <= k < x.len() ==> x[k] > 0,
        forall|k: int| 0 <= k < y.len() ==> y[k] > 0,
        forall|k: int| 0 <= k < j ==> x[k] == y[k],
        x != y,
    ensures
        lex_from(a, b, o + j) == lex_from(x, y, j),
    decreases x.len() - j,
{
    if j < x.len() && j < y.len() {
        assert(a[o + j] == x[j]);
        assert(b[o + j] == y[j]);
        if x[j] == y[j] {
            lemma_block_sentinel(a, b, o, x, y, j + 1);
        }
    } else if j == x.len() && j == y.len() {
        assert(x =~= y);
    } else if j == x.len() {
        assert(b[o + j] == y[j]);
    } else {
        assert(a[o + j] == x[j]);
    }
}

/// A last level compares as itself.
proof fn lemma_block_tail(a: Seq<int>, b: Seq<int>, o: int, x: Seq<int>, y: Seq<int>, j: int)
    requires
        0 <= o,
        0 <= j <= x.len(),
        j <= y.len(),
        a.len() == o + x.len(),
        b.len() == o + y.len(),
        forall|k: int| 0 <= k < x.len() ==> a[o + k] == x[k],
        forall|k: int| 0 <= k < y.len() ==> b[o + k] == y[k],
    ensures
        lex_from(a, b, o + j) == lex_from(x, y, j),
    decreases x.len() - j,
{
    if j < x.len() && j < y.len() {
        assert(a[o + j] == x[j]);
        assert(b[o + j] == y[j]);
        lemma_block_tail(a, b, o, x, y, j + 1);
    }
}

proof fn lemma_weight_values_injective(a: Seq<u16>, b: Seq<u16>)
    requires
        weight_values(a) == weight_values(b),
    ensures
        a == b,
{
    assert(weight_values(a).len() == a.len());
    assert(weight_values(b).len() == b.len());
    assert forall|k: int| 0 <= k < a.len() implies a[k] == b[k] by {
        assert(a.len() == b.len());
        assert(weight_values(a)[k] == weight_values(b)[k]);
        assert(weight_values(a)[k] == a[k] as int);
        assert(weight_values(b)[k] == b[k] as int);
    }
    assert(a =~= b);
}

proof fn lemma_positive(s: Seq<u16>)
    requires
        nonzero(s),
    ensures
        forall|k: int| 0 <= k < weight_values(s).len() ==> weight_values(s)[k] > 0,
        weight_values(s).len() == s.len(),
{
    assert forall|k: int| 0 <= k < weight_values(s).len() implies weight_values(s)[k] > 0 by {
        assert(s[k] != 0);
    }
}

/// Sort keys compare level by level: the first level on which two keys
/// differ decides, as the lexicographic order of that level's weights.
pub proof fn lemma_levels_decide(a: SortKeyView, b: SortKeyView)
    requires
        key_nonzero(a),
        key_nonzero(b),
    ensures
        key_cmp(a, b) == if a.primary != b.primary {
            lex_cmp(weight_values(a.primary), weight_values(b.primary))
        } else if a.secondary != b.secondary {
            lex_cmp(weight_values(a.secondary), weight_values(b.secondary))
        } else {
            lex_cmp(weight_values(a.tertiary), weight_values(b.tertiary))
        },
{
    let wa = weight_values(key_weights(a));
    let wb = weight_values(key_weights(b));
    let (pa, pb) = (weight_values(a.primary), weight_values(b.primary));
    let (sa, sb) = (weight_values(a.secondary), weight_values(b.secondary));
    let (ta, tb) = (weight_values(a.tertiary), weight_values(b.tertiary));
    lemma_positive(a.primary);
    lemma_positive(b.primary);
    lemma_positive(a.secondary);
    lemma_positive(b.secondary);
    let ka = key_weights(a);
    let kb = key_weights(b);
    assert(wa.len() == ka.len());
    assert(wb.len() == kb.len());
    assert forall|k: int| 0 <= k < pa.len() implies wa[k] == pa[k] by {
        assert(ka[k] == a.primary[k]);
    }
    assert forall|k: int| 0 <= k < pb.len() implies wb[k] == pb[k] by {
        assert(kb[k] == b.primary[k]);
    }
    assert(ka[a.primary.len() as int] == 0);
    assert(kb[b.primary.len() as int] == 0);
    if a.primary != b.primary {
        if pa == pb {
            lemma_weight_values_injective(a.primary, b.primary);
        }
        lemma_block_sentinel(wa, wb, 0, pa, pb, 0);
        return;
    }
    let o: int = a.primary.len() as int + 1;
    assert forall|k: int| 0 <= k < o implies wa[k] == wb[k] by {
        if k < a.primary.len() {
            assert(ka[k] == a.primary[k]);
            assert(kb[k] == b.primary[k]);
        }
    }
    lemma_skip_equal(wa, wb, 0, o);
    assert forall|k: int| 0 <= k < sa.len() implies wa[o + k] == sa[k] by {
        assert(ka[o + k] == a.secondary[k]);
    }
    assert forall|k: int| 0 <= k < sb.len() implies wb[o + k] == sb[k] by {
        assert(kb[o + k] == b.secondary[k]);
    }
    assert(ka[o + a.secondary.len()] == 0);
    assert(kb[o + b.secondary.len()] == 0);
    if a.secondary != b.secondary {
        if sa == sb {
            lemma_weight_values_injective(a.secondary, b.secondary);
        }
        lemma_block_sentinel(wa, wb, o, sa, sb, 0);
        return;
    }
    let o2: int = o + a.secondary.len() + 1;
    assert forall|k: int| o <= k < o2 implies wa[k] == wb[k] by {
        if k < o + a.secondary.len() {
            assert(ka[k] == a.secondary[k - o]);
            assert(kb[k] == b.secondary[k - o]);
        }
    }
    lemma_skip_equal(wa, wb, o, o2);
    assert forall|k: int| 0 <= k < ta.len() implies wa[o2 + k] == ta[k] by {
        assert(ka[o2 + k] == a.tertiary[k]);
    }
    assert forall|k: int| 0 <= k < tb.len() implies wb[o2 + k] == tb[k] by {
        assert(kb[o2 + k] == b.tertiary[k]);
    }
    lemma_block_tail(wa, wb, o2, ta, tb, 0);
}

proof fn lemma_string_key_nonzero(m: Map<Seq<char>, Seq<CollationElement>>, s: Seq<char>)
    ensures
        key_nonzero(string_key(m, s)),
{
    let es = crate::elements_of(m, crate::nfd_of(s));
    lemma_level_weights_nonzero(es, 1);
    lemma_level_weights_nonzero(es, 2);
    lemma_level_weights_nonzero(es, 3);
}

/// Strength dominance: when two strings differ in their primary weights, the
/// primary weights alone decide how they compare.
pub proof fn lemma_primary_dominates(
    m: Map<Seq<char>, Seq<CollationElement>>,
    a: Seq<char>,
    b: Seq<char>,
)
    requires
        string_key(m, a).primary != string_key(m, b).primary,
    ensures
        key_cmp(string_key(m, a), string_key(m, b)) == lex_cmp(
            weight_values(string_key(m, a).primary),
            weight_values(string_key(m, b).primary),
        ),
{
    lemma_string_key_nonzero(m, a);
    lemma_string_key_nonzero(m, b);
    lemma_levels_decide(string_key(m, a), string_key(m, b));
}

/// A difference below the first level never outweighs one on the first
/// level: when `x` and `x2` tie on primary weights (as a letter and its
/// capital do) and `x` differs from `y` there, `x` and `x2` compare alike
/// with `y`.
pub proof fn lemma_lower_levels_subordinate(
    m: Map<Seq<char>, Seq<CollationElement>>,
    x: Seq<char>,
    x2: Seq<char>,
    y: Seq<char>,
)
    requires
        string_key(m, x).primary == string_key(m, x2).primary,
        string_key(m, x).primary != string_key(m, y).primary,
    ensures
        key_cmp(string_key(m, x), string_key(m, y)) == key_cmp(
            string_key(m, x2),
            string_key(m, y),
        ),
        key_cmp(string_key(m, x), string_key(m, y)) != Ordering::Equal,
{
    lemma_primary_dominates(m, x, y);
    lemma_primary_dominates(m, x2, y);
    lemma_weight_values_eq_implies(string_key(m, x).primary, string_key(m, y).primary);
}

proof fn lemma_weight_values_eq_implies(a: Seq<u16>, b: Seq<u16>)
    requires
        a != b,
    ensures
        lex_cmp(weight_values(a), weight_values(b)) != Ordering::Equal,
{
    lemma_lex_equal(weight_values(a), weight_values(b));
    if weight_values(a) == weight_values(b) {
        lemma_weight_values_injective(a, b);
    }
}

/// Two strings compare `Equal` exactly when their sort keys are equal; in
/// particular every string compares `Equal` to itself.
pub proof fn lemma_compare_equal(m: Map<Seq<char>, Seq<CollationElement>>, a: Seq<char>, b: Seq<char>)
    ensures
        key_cmp(string_key(m, a), string_key(m, b)) == Ordering::Equal <==> string_key(m, a)
            == string_key(m, b),
        key_cmp(string_key(m, a), string_key(m, a)) == Ordering::Equal,
{
    let ka = string_key(m, a);
    let kb = string_key(m, b);
    lemma_string_key_nonzero(m, a);
    lemma_string_key_nonzero(m, b);
    lemma_levels_decide(ka, kb);
    lemma_lex_equal(weight_values(key_weights(ka)), weight_values(key_weights(ka)));
    if ka.primary != kb.primary {
        lemma_weight_values_eq_implies(ka.primary, kb.primary);
    } else if ka.secondary != kb.secondary {
        lemma_weight_values_eq_implies(ka.secondary, kb.secondary);
    } else if ka.tertiary != kb.tertiary {
        lemma_weight_values_eq_implies(ka.tertiary, kb.tertiary);
    } else {
        lemma_lex_equal(weight_values(ka.tertiary), weight_values(kb.tertiary));
    }
}

/// Swapping two strings reverses their comparison.
pub proof fn lemma_compare_antisymmetric(
    m: Map<Seq<char>, Seq<CollationElement>>,
    a: Seq<char>,
    b: Seq<char>,
)
    ensures
        key_cmp(string_key(m, b), string_key(m, a)) == flip(
            key_cmp(string_key(m, a), string_key(m, b)),
        ),
{
    lemma_lex_flip(
        weight_values(key_weights(string_key(m, a))),
        weight_values(key_weights(string_key(m, b))),
    );
}

/// `Less` between strings is transitive.
pub proof fn lemma_compare_transitive(
    m: Map<Seq<char>, Seq<CollationElement>>,
    a: Seq<char>,
    b: Seq<char>,
    c: Seq<char>,
)
    requires
        key_cmp(string_key(m, a), string_key(m, b)) == Ordering::Less,
        key_cmp(string_key(m, b), string_key(m, c)) == Ordering::Less,
    ensures
        key_cmp(string_key(m, a), string_key(m, c)) == Ordering::Less,
{
    lemma_lex_transitive(
        weight_values(key_weights(string_key(m, a))),
        weight_values(key_weights(string_key(m, b))),
        weight_values(key_weights(string_key(m, c))),
    );
}

} // verus!
