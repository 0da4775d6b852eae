//! Unicode collation: a parser for the Default Unicode Collation Element
//! Table, a parser for CLDR tailoring rules, and sort-key construction.
use vstd::prelude::*;
use std::cmp::Ordering;
use unic_normal::StrNormalForm;
use crate::collation_rules::ParseError;
use crate::parse::table_text;
use crate::lex::{
    char_codes, compare_chars, lemma_char_codes_injective, lemma_lex_equal, lemma_lex_flip,
    lemma_lex_transitive, lex_cmp, compare_weights, weight_values,
};

pub mod text;
pub mod lex;
pub mod collation_rules;
pub mod parse;
pub mod order;
pub mod ldml;
pub mod locale;

verus! {

/// One weighted element: a variable-weight flag and the weights of the three
/// levels.
#[derive(PartialEq, Eq, PartialOrd, Ord, Clone, Copy, Debug)]
pub struct CollationElement {
    pub variable: bool,
    pub primary: u16,
    pub secondary: u16,
    pub tertiary: u16,
}

/// Strict order of table keys: by code point, a proper prefix first.
pub open spec fn key_lt(a: Seq<char>, b: Seq<char>) -> bool {
    lex_cmp(char_codes(a), char_codes(b)) == Ordering::Less
}

/// Keys strictly ascending, one value per key, and `m` mapping exactly the
/// keys to their values.
pub open spec fn entries_wf(
    keys: Seq<Vec<char>>,
    values: Seq<Vec<CollationElement>>,
    m: Map<Seq<char>, Seq<CollationElement>>,
) -> bool {
    &&& keys.len() == values.len()
    &&& forall|i: int, j: int|
        0 <= i < j < keys.len() ==> #[trigger] key_lt(keys[i]@, keys[j]@)
    &&& forall|i: int|
        0 <= i < keys.len() ==> m.contains_key(#[trigger] keys[i]@) && m[keys[i]@]
            == values[i]@
    &&& forall|k: Seq<char>|
        #[trigger] m.contains_key(k) ==> exists|i: int| 0 <= i < keys.len() && keys[i]@ == k
}

/// The table: a map from code-point sequences to their collation elements.
pub struct CollationElementTable {
    keys: Vec<Vec<char>>,
    values: Vec<Vec<CollationElement>>,
    contents: Ghost<Map<Seq<char>, Seq<CollationElement>>>,
}

impl View for CollationElementTable {
    type V = Map<Seq<char>, Seq<CollationElement>>;

    closed spec fn view(&self) -> Self::V {
        self.contents@
    }
}

/// The map that inserting `rows` in order gives: a later row replaces an
/// earlier one with the same key.
pub open spec fn rows_map(rows: Seq<(Seq<char>, Seq<CollationElement>)>) -> Map<
    Seq<char>,
    Seq<CollationElement>,
>
    decreases rows.len(),
{
    if rows.len() == 0 {
        Map::empty()
    } else {
        rows_map(rows.drop_last()).insert(rows.last().0, rows.last().1)
    }
}

pub open spec fn rows_view(rows: Seq<(Vec<char>, Vec<CollationElement>)>) -> Seq<
    (Seq<char>, Seq<CollationElement>),
> {
    rows.map_values(|r: (Vec<char>, Vec<CollationElement>)| (r.0@, r.1@))
}

pub proof fn lemma_rows_view_push(
    v: Seq<(Vec<char>, Vec<CollationElement>)>,
    e: (Vec<char>, Vec<CollationElement>),
)
    ensures
        rows_view(v.push(e)) == rows_view(v).push((e.0@, e.1@)),
{
    let a = rows_view(v.push(e));
    let b = rows_view(v).push((e.0@, e.1@));
    assert forall|k: int| 0 <= k < a.len() implies a[k] == b[k] by {
        if k < v.len() {
            assert(v.push(e)[k] == v[k]);
        } else {
            assert(v.push(e)[k] == e);
        }
    }
    assert(a =~= b);
}

/// Finds `key` among sorted keys: `Ok` with its index, or `Err` with the index
/// where it would stand.
fn find(keys: &Vec<Vec<char>>, key: &[char]) -> (r: Result<usize, usize>)
    requires
        forall|i: int, j: int| 0 <= i < j < keys.len() ==> #[trigger] key_lt(keys[i]@, keys[j]@),
    ensures
        match r {
            Ok(i) => i < keys.len() && keys[i as int]@ == key@,
            Err(p) => {
                &&& p <= keys.len()
                &&& forall|i: int| 0 <= i < p ==> key_lt(#[trigger] keys[i]@, key@)
                &&& forall|i: int| p <= i < keys.len() ==> key_lt(key@, #[trigger] keys[i]@)
            },
        },
{
    let mut lo: usize = 0;
    let mut hi: usize = keys.len();
    while lo < hi
        invariant
            lo <= hi <= keys.len(),
            forall|i: int, j: int|
                0 <= i < j < keys.len() ==> #[trigger] key_lt(keys[i]@, keys[j]@),
            forall|i: int| 0 <= i < lo ==> key_lt(#[trigger] keys[i]@, key@),
            forall|i: int| hi <= i < keys.len() ==> key_lt(key@, #[trigger] keys[i]@),
        decreases hi - lo,
    {
        let mid = lo + (hi - lo) / 2;
        let c = compare_chars(keys[mid].as_slice(), key);
        match c {
            Ordering::Less => {
                assert forall|i: int| 0 <= i <= mid implies key_lt(#[trigger] keys[i]@, key@) by {
                    if i < mid {
                        assert(key_lt(keys[i]@, keys[mid as int]@));
                        lemma_lex_transitive(
                            char_codes(keys[i]@),
                            char_codes(keys[mid as int]@),
                            char_codes(key@),
                        );
                    }
                }
                lo = mid + 1;
            },
            Ordering::Equal => {
                proof {
                    lemma_lex_equal(char_codes(keys[mid as int]@), char_codes(key@));
                    lemma_char_codes_injective(keys[mid as int]@, key@);
                }
                return Ok(mid);
            },
            Ordering::Greater => {
                proof {
                    lemma_lex_flip(char_codes(keys[mid as int]@), char_codes(key@));
                }
                assert forall|i: int| mid <= i < keys.len() implies key_lt(
                    key@,
                    #[trigger] keys[i]@,
                ) by {
                    if i > mid {
                        assert(key_lt(keys[mid as int]@, keys[i]@));
                        lemma_lex_transitive(
                            char_codes(key@),
                            char_codes(keys[mid as int]@),
                            char_codes(keys[i]@),
                        );
                    }
                }
                hi = mid;
            },
        }
    }
    Err(lo)
}

/// A key is never below itself.
proof fn lemma_key_lt_irreflexive(a: Seq<char>)
    ensures
        !key_lt(a, a),
{
    lemma_lex_equal(char_codes(a), char_codes(a));
}

impl CollationElementTable {
    #[verifier::type_invariant]
    closed spec fn well_formed(self) -> bool {
        entries_wf(self.keys@, self.values@, self.contents@)
    }

    /// The collation elements of `key`, if the table has it.
    pub fn get(&self, key: &[char]) -> (r: Option<&Vec<CollationElement>>)
        ensures
            match r {
                Some(v) => self@.contains_key(key@) && v@ == self@[key@],
                None => !self@.contains_key(key@),
            },
    {
        proof {
            use_type_invariant(self);
        }
        match find(&self.keys, key) {
            Ok(i) => Some(&self.values[i]),
            Err(p) => {
                proof {
                    if self@.contains_key(key@) {
                        let i = choose|i: int| 0 <= i < self.keys.len() && self.keys[i]@ == key@;
                        lemma_key_lt_irreflexive(key@);
                        if i < p {
                            assert(key_lt(self.keys[i]@, key@));
                        } else {
                            assert(key_lt(key@, self.keys[i]@));
                        }
                    }
                }
                None
            },
        }
    }

    /// Parses a table text (see [`parse`]) into a table; when a key occurs more
    /// than once, its last row wins.
    pub fn from(i: &str) -> (r: Result<Self, ParseError>)
        ensures
            match r {
                Ok(t) => table_text(i@) is Ok && t@ == rows_map(table_text(i@)->Ok_0),
                Err(e) => table_text(i@) == Err::<Seq<(Seq<char>, Seq<CollationElement>)>, int>(
                    e.position as int,
                ),
            },
    {
        match parse::table(i) {
            Ok(rows) => Ok(Self::from_rows(rows)),
            Err(e) => Err(e),
        }
    }

    /// Builds a table from rows inserted in order; a later row replaces an
    /// earlier one with the same key.
    pub fn from_rows(rows: Vec<(Vec<char>, Vec<CollationElement>)>) -> (r: Self)
        ensures
            r@ == rows_map(rows_view(rows@)),
    {
        let mut keys: Vec<Vec<char>> = Vec::new();
        let mut values: Vec<Vec<CollationElement>> = Vec::new();
        let ghost mut m: Map<Seq<char>, Seq<CollationElement>> = Map::empty();
        let ghost all = rows@;
        let ghost mut done: Seq<(Vec<char>, Vec<CollationElement>)> = Seq::empty();
        for row in it: rows
            invariant
                entries_wf(keys@, values@, m),
                done == it.seq().take(it.index() as int),
                m == rows_map(rows_view(done)),
                it.seq() == all,
        {
            let ghost before = done;
            proof {
                done = done.push(row);
            }
            assert(rows_view(done).drop_last() =~= rows_view(before));
            assert(done.last() == row);
            let (key, value) = row;
            match find(&keys, key.as_slice()) {
                Ok(i) => {
                    proof {
                        lemma_replace(keys@, values@, m, i as int, value);
                        m = m.insert(key@, value@);
                    }
                    values.set(i, value);
                },
                Err(p) => {
                    proof {
                        lemma_insert_new(keys@, values@, m, p as int, key, value);
                        m = m.insert(key@, value@);
                    }
                    keys.insert(p, key);
                    values.insert(p, value);
                },
            }
        }
        assert(done =~= all);
        CollationElementTable { keys, values, contents: Ghost(m) }
    }
}

proof fn lemma_replace(
    keys: Seq<Vec<char>>,
    values: Seq<Vec<CollationElement>>,
    m: Map<Seq<char>, Seq<CollationElement>>,
    i: int,
    value: Vec<CollationElement>,
)
    requires
        entries_wf(keys, values, m),
        0 <= i < keys.len(),
    ensures
        entries_wf(keys, values.update(i, value), m.insert(keys[i]@, value@)),
{
    let v2 = values.update(i, value);
    let m2 = m.insert(keys[i]@, value@);
    assert forall|j: int| 0 <= j < keys.len() implies m2.contains_key(#[trigger] keys[j]@)
        && m2[keys[j]@] == v2[j]@ by {
        if j != i {
            lemma_key_lt_irreflexive(keys[i]@);
            if j < i {
                assert(key_lt(keys[j]@, keys[i]@));
            } else {
                assert(key_lt(keys[i]@, keys[j]@));
            }
            assert(keys[j]@ != keys[i]@);
        }
    }
    assert forall|k: Seq<char>| #[trigger] m2.contains_key(k) implies exists|j: int|
        0 <= j < keys.len() && keys[j]@ == k by {
        if k != keys[i]@ {
            assert(m.contains_key(k));
        }
    }
}

proof fn lemma_insert_new(
    keys: Seq<Vec<char>>,
    values: Seq<Vec<CollationElement>>,
    m: Map<Seq<char>, Seq<CollationElement>>,
    p: int,
    key: Vec<char>,
    value: Vec<CollationElement>,
)
    requires
        entries_wf(keys, values, m),
        0 <= p <= keys.len(),
        forall|i: int| 0 <= i < p ==> key_lt(#[trigger] keys[i]@, key@),
        forall|i: int| p <= i < keys.len() ==> key_lt(key@, #[trigger] keys[i]@),
    ensures
        entries_wf(keys.insert(p, key), values.insert(p, value), m.insert(key@, value@)),
{
    let k2 = keys.insert(p, key);
    let v2 = values.insert(p, value);
    let m2 = m.insert(key@, value@);
    assert forall|a: int, b: int| 0 <= a < b < k2.len() implies #[trigger] key_lt(
        k2[a]@,
        k2[b]@,
    ) by {
        if b < p {
            assert(key_lt(keys[a]@, keys[b]@));
        } else if b == p {
            assert(key_lt(keys[a]@, key@));
        } else if a < p {
            assert(key_lt(keys[a]@, keys[b - 1]@));
        } else if a == p {
            assert(key_lt(key@, keys[b - 1]@));
        } else {
            assert(key_lt(keys[a - 1]@, keys[b - 1]@));
        }
    }
    lemma_key_lt_irreflexive(key@);
    assert forall|j: int| 0 <= j < k2.len() implies m2.contains_key(#[trigger] k2[j]@)
        && m2[k2[j]@] == v2[j]@ by {
        if j < p {
            assert(key_lt(keys[j]@, key@));
            assert(m.contains_key(keys[j]@));
        } else if j > p {
            assert(key_lt(key@, keys[j - 1]@));
            assert(m.contains_key(keys[j - 1]@));
        }
    }
    assert forall|k: Seq<char>| #[trigger] m2.contains_key(k) implies exists|j: int|
        0 <= j < k2.len() && k2[j]@ == k by {
        if k == key@ {
            assert(k2[p]@ == k);
        } else {
            assert(m.contains_key(k));
            let j = choose|j: int| 0 <= j < keys.len() && keys[j]@ == k;
            if j < p {
                assert(k2[j]@ == k);
            } else {
                assert(k2[j + 1]@ == k);
            }
        }
    }
}

// ---------------------------------------------------------------------------
// Collation elements of a string
/// The canonical decomposition (NFD) of a character sequence.
pub uninterp spec fn nfd_of(s: Seq<char>) -> Seq<char>;

/// Relies on `unic_normal::StrNormalForm::nfd`: the characters of the
/// canonical decomposition of `s`, which depends on the characters alone.
#[verifier::external_body]
fn nfd(s: &str) -> (r: Vec<char>)
    ensures
        r@ == nfd_of(s@),
        s@.len() == 0 ==> r@.len() == 0,
{
    s.nfd().collect()
}

/// The end of the greedy match in `n` that has reached `n[..j]`: it takes one
/// more character as long as the longer prefix is a key of `m`.
pub open spec fn match_end(m: Map<Seq<char>, Seq<CollationElement>>, n: Seq<char>, j: int) -> int
    decreases n.len() - j,
{
    if 0 < j < n.len() && m.contains_key(n.subrange(0, j + 1)) {
        match_end(m, n, j + 1)
    } else {
        j
    }
}

/// The collation elements of `n`: the elements of the greedy match at the
/// front, then those of the rest. It ends, silently, at the first character
/// that is no key of the table by itself: no weights are derived for it.
///
/// Only contiguous prefixes are matched; discontiguous contractions (through
/// unblocked non-starters) are not formed, and the variable flag of an element
/// is carried along but not applied.
pub open spec fn elements_of(m: Map<Seq<char>, Seq<CollationElement>>, n: Seq<char>) -> Seq<
    CollationElement,
>
    decreases n.len(),
{
    if n.len() == 0 || !m.contains_key(n.subrange(0, 1)) {
        Seq::empty()
    } else {
        let k = match_end(m, n, 1);
        if 1 <= k <= n.len() {
            m[n.subrange(0, k)] + elements_of(m, n.subrange(k, n.len() as int))
        } else {
            Seq::empty()
        }
    }
}

pub proof fn lemma_match_end_bounds(m: Map<Seq<char>, Seq<CollationElement>>, n: Seq<char>, j: int)
    requires
        1 <= j <= n.len(),
        m.contains_key(n.subrange(0, j)),
    ensures
        j <= match_end(m, n, j) <= n.len(),
        m.contains_key(n.subrange(0, match_end(m, n, j))),
        match_end(m, n, j) < n.len() ==> !m.contains_key(
            n.subrange(0, match_end(m, n, j) + 1),
        ),
    decreases n.len() - j,
{
    if j < n.len() && m.contains_key(n.subrange(0, j + 1)) {
        lemma_match_end_bounds(m, n, j + 1);
    }
}

impl CollationElementTable {
    /// The next batch of elements at offset `i` of `n`: those of the longest
    /// greedy match there, and the offset after it. `None` at the end of `n`,
    /// and at a character that is no key by itself.
    fn next(&self, n: &Vec<char>, i: usize) -> (r: Option<(&Vec<CollationElement>, usize)>)
        requires
            i <= n.len(),
        ensures
            match r {
                Some((v, j)) => {
                    let rest = n@.subrange(i as int, n@.len() as int);
                    &&& i < n@.len() && self@.contains_key(rest.subrange(0, 1))
                    &&& j == i + match_end(self@, rest, 1)
                    &&& v@ == self@[rest.subrange(0, j - i)]
                },
                None => i == n@.len() || !self@.contains_key(
                    n@.subrange(i as int, n@.len() as int).subrange(0, 1),
                ),
            },
    {
        let ghost rest = n@.subrange(i as int, n@.len() as int);
        if i == n.len() {
            return None;
        }
        assert(rest.subrange(0, 1) =~= n@.subrange(i as int, i + 1));
        let mut elem = match self.get(vstd::slice::slice_subrange(n.as_slice(), i, i + 1)) {
            Some(e) => e,
            None => {
                return None;
            },
        };
        let mut j = i + 1;
        while j < n.len()
            invariant
                i < j <= n.len(),
                rest == n@.subrange(i as int, n@.len() as int),
                self@.contains_key(n@.subrange(i as int, j as int)),
                elem@ == self@[n@.subrange(i as int, j as int)],
                match_end(self@, rest, j - i) == match_end(self@, rest, 1),
            ensures
                i < j <= n.len(),
                self@.contains_key(n@.subrange(i as int, j as int)),
                elem@ == self@[n@.subrange(i as int, j as int)],
                match_end(self@, rest, 1) == j - i,
            decreases n.len() - j,
        {
            assert(rest.subrange(0, j - i + 1) =~= n@.subrange(i as int, j + 1));
            match self.get(vstd::slice::slice_subrange(n.as_slice(), i, j + 1)) {
                Some(e) => {
                    elem = e;
                    j = j + 1;
                },
                None => {
                    assert(match_end(self@, rest, j - i) == j - i);
                    break ;
                },
            }
        }
        assert(rest.subrange(0, j - i) =~= n@.subrange(i as int, j as int));
        Some((elem, j))
    }

    /// The collation elements of an already decomposed (NFD) character
    /// sequence, batch by batch.
    pub fn collation_elements(&self, n: &Vec<char>) -> (r: Vec<CollationElement>)
        ensures
            r@ == elements_of(self@, n@),
    {
        let mut out: Vec<CollationElement> = Vec::new();
        let mut i: usize = 0;
        assert(n@.subrange(0, n@.len() as int) =~= n@);
        loop
            invariant
                i <= n.len(),
                out@ + elements_of(self@, n@.subrange(i as int, n@.len() as int)) == elements_of(
                    self@,
                    n@,
                ),
            ensures
                out@ == elements_of(self@, n@),
            decreases n.len() - i,
        {
            let ghost rest = n@.subrange(i as int, n@.len() as int);
            match self.next(n, i) {
                Some((v, j)) => {
                    proof {
                        lemma_match_end_bounds(self@, rest, 1);
                        assert(rest.subrange(j - i, rest.len() as int) =~= n@.subrange(
                            j as int,
                            n@.len() as int,
                        ));
                    }
                    let ghost old_out = out@;
                    let mut batch = v.clone();
                    assert(batch@ =~= v@);
                    out.append(&mut batch);
                    assert(out@ + elements_of(self@, n@.subrange(j as int, n@.len() as int))
                        =~= old_out + elements_of(self@, rest));
                    i = j;
                },
                None => {
                    assert(out@ + elements_of(self@, rest) =~= out@);
                    break ;
                },
            }
        }
        out
    }
}

// ---------------------------------------------------------------------------
// Sort keys
/// The weight of `e` at `level` (1, 2 or 3).
pub open spec fn level_weight(e: CollationElement, level: int) -> u16 {
    if level == 1 {
        e.primary
    } else if level == 2 {
        e.secondary
    } else {
        e.tertiary
    }
}

/// The weights of `es` at `level`, in order, zeros left out.
pub open spec fn level_weights(es: Seq<CollationElement>, level: int) -> Seq<u16>
    decreases es.len(),
{
    if es.len() == 0 {
        Seq::empty()
    } else {
        let w = level_weight(es.last(), level);
        let front = level_weights(es.drop_last(), level);
        if w != 0 {
            front.push(w)
        } else {
            front
        }
    }
}

/// The model of a [`SortKey`]: the weights of each level.
pub struct SortKeyView {
    pub primary: Seq<u16>,
    pub secondary: Seq<u16>,
    pub tertiary: Seq<u16>,
}

/// The sort key of a sequence of collation elements.
pub open spec fn sort_key_of(es: Seq<CollationElement>) -> SortKeyView {
    SortKeyView {
        primary: level_weights(es, 1),
        secondary: level_weights(es, 2),
        tertiary: level_weights(es, 3),
    }
}

/// The sort key of a string under the table `m`.
pub open spec fn string_key(m: Map<Seq<char>, Seq<CollationElement>>, s: Seq<char>) -> SortKeyView {
    sort_key_of(elements_of(m, nfd_of(s)))
}

/// The levels of a key laid out in one sequence, a zero after the first and
/// after the second level.
pub open spec fn key_weights(k: SortKeyView) -> Seq<u16> {
    k.primary + seq![0u16] + k.secondary + seq![0u16] + k.tertiary
}

/// The order of sort keys: lexicographic on their laid-out weights.
pub open spec fn key_cmp(a: SortKeyView, b: SortKeyView) -> Ordering {
    lex_cmp(weight_values(key_weights(a)), weight_values(key_weights(b)))
}

/// No weight is zero.
pub open spec fn nonzero(s: Seq<u16>) -> bool {
    forall|i: int| 0 <= i < s.len() ==> #[trigger] s[i] != 0
}

pub open spec fn key_nonzero(k: SortKeyView) -> bool {
    nonzero(k.primary) && nonzero(k.secondary) && nonzero(k.tertiary)
}

pub proof fn lemma_level_weights_nonzero(es: Seq<CollationElement>, level: int)
    ensures
        nonzero(level_weights(es, level)),
    decreases es.len(),
{
    if es.len() > 0 {
        lemma_level_weights_nonzero(es.drop_last(), level);
    }
}

/// A sort key: the non-zero weights of each level of a string's collation
/// elements. Keys order as their levels laid out one after another with a
/// zero between levels.
#[derive(Debug, PartialEq, Eq, Ord)]
pub struct SortKey {
    primary: Vec<u16>,
    secondary: Vec<u16>,
    tertiary: Vec<u16>,
}

impl View for SortKey {
    type V = SortKeyView;

    closed spec fn view(&self) -> SortKeyView {
        SortKeyView {
            primary: self.primary@,
            secondary: self.secondary@,
            tertiary: self.tertiary@,
        }
    }
}

impl SortKey {
    #[verifier::type_invariant]
    closed spec fn weights_nonzero(self) -> bool {
        key_nonzero(self@)
    }

    /// The empty key.
    pub fn new() -> (r: Self)
        ensures
            r@.primary.len() == 0,
            r@.secondary.len() == 0,
            r@.tertiary.len() == 0,
    {
        SortKey { primary: Vec::new(), secondary: Vec::new(), tertiary: Vec::new() }
    }

    /// The key of a sequence of collation elements: each level takes the
    /// non-zero weights of that level, in order.
    pub fn from_elements(es: &Vec<CollationElement>) -> (r: Self)
        ensures
            r@ == sort_key_of(es@),
    {
        let mut primary: Vec<u16> = Vec::new();
        let mut secondary: Vec<u16> = Vec::new();
        let mut tertiary: Vec<u16> = Vec::new();
        let mut i: usize = 0;
        while i < es.len()
            invariant
                i <= es.len(),
                primary@ == level_weights(es@.take(i as int), 1),
                secondary@ == level_weights(es@.take(i as int), 2),
                tertiary@ == level_weights(es@.take(i as int), 3),
            decreases es.len() - i,
        {
            let e = es[i];
            assert(es@.take(i + 1).drop_last() =~= es@.take(i as int));
            if e.primary != 0 {
                primary.push(e.primary);
            }
            if e.secondary != 0 {
                secondary.push(e.secondary);
            }
            if e.tertiary != 0 {
                tertiary.push(e.tertiary);
            }
            i = i + 1;
        }
        assert(es@.take(i as int) =~= es@);
        proof {
            lemma_level_weights_nonzero(es@, 1);
            lemma_level_weights_nonzero(es@, 2);
            lemma_level_weights_nonzero(es@, 3);
        }
        SortKey { primary, secondary, tertiary }
    }

    /// The levels laid out in one sequence, a zero after the first and after
    /// the second level.
    pub fn iter(&self) -> (r: Vec<u16>)
        ensures
            r@ == key_weights(self@),
    {
        let mut r: Vec<u16> = Vec::new();
        let mut i: usize = 0;
        while i < self.primary.len()
            invariant
                i <= self.primary@.len(),
                r@ == self.primary@.take(i as int),
            decreases self.primary@.len() - i,
        {
            r.push(self.primary[i]);
            i = i + 1;
        }
        r.push(0);
        let ghost mid = r@;
        assert(self.primary@.take(self.primary@.len() as int) =~= self.primary@);
        i = 0;
        while i < self.secondary.len()
            invariant
                i <= self.secondary@.len(),
                r@ == mid + self.secondary@.take(i as int),
            decreases self.secondary@.len() - i,
        {
            r.push(self.secondary[i]);
            assert(mid + self.secondary@.take(i + 1) =~= (mid + self.secondary@.take(i as int)).push(
                self.secondary@[i as int],
            ));
            i = i + 1;
        }
        r.push(0);
        let ghost mid2 = r@;
        assert(self.secondary@.take(self.secondary@.len() as int) =~= self.secondary@);
        i = 0;
        while i < self.tertiary.len()
            invariant
                i <= self.tertiary@.len(),
                r@ == mid2 + self.tertiary@.take(i as int),
            decreases self.tertiary@.len() - i,
        {
            r.push(self.tertiary[i]);
            assert(mid2 + self.tertiary@.take(i + 1) =~= (mid2 + self.tertiary@.take(i as int)).push(
                self.tertiary@[i as int],
            ));
            i = i + 1;
        }
        assert(self.tertiary@.take(self.tertiary@.len() as int) =~= self.tertiary@);
        assert(r@ =~= key_weights(self@));
        r
    }

    /// The weights of the first level.
    pub fn primary(&self) -> (r: &Vec<u16>)
        ensures
            r@ == self@.primary,
    {
        &self.primary
    }

    /// The weights of the second level.
    pub fn secondary(&self) -> (r: &Vec<u16>)
        ensures
            r@ == self@.secondary,
    {
        &self.secondary
    }

    /// The weights of the third level.
    pub fn tertiary(&self) -> (r: &Vec<u16>)
        ensures
            r@ == self@.tertiary,
    {
        &self.tertiary
    }

    /// Compares two keys in the order of sort keys.
    pub fn compare(&self, other: &SortKey) -> (r: Ordering)
        ensures
            r == key_cmp(self@, other@),
    {
        let a = self.iter();
        let b = other.iter();
        compare_weights(a.as_slice(), b.as_slice())
    }
}

impl PartialOrd for SortKey {
    fn partial_cmp(&self, other: &SortKey) -> (r: Option<Ordering>) {
        Some(self.compare(other))
    }
}

impl vstd::std_specs::cmp::PartialOrdSpecImpl for SortKey {
    open spec fn obeys_partial_cmp_spec() -> bool {
        true
    }

    open spec fn partial_cmp_spec(&self, other: &SortKey) -> Option<Ordering> {
        Some(key_cmp(self@, other@))
    }
}

impl CollationElementTable {
    /// The sort key of an already decomposed (NFD) character sequence.
    pub fn sort_key_of_decomposed(&self, n: &Vec<char>) -> (r: SortKey)
        ensures
            r@ == sort_key_of(elements_of(self@, n@)),
    {
        let es = self.collation_elements(n);
        SortKey::from_elements(&es)
    }

    /// The sort key of `s`: the key of the collation elements of its
    /// canonical decomposition.
    pub fn generate_sort_key(&self, s: &str) -> (r: SortKey)
        ensures
            r@ == string_key(self@, s@),
    {
        let n = nfd(s);
        self.sort_key_of_decomposed(&n)
    }

    /// Compares two strings by their sort keys.
    pub fn compare(&self, a: &str, b: &str) -> (r: Ordering)
        ensures
            r == key_cmp(string_key(self@, a@), string_key(self@, b@)),
    {
        let ka = self.generate_sort_key(a);
        let kb = self.generate_sort_key(b);
        ka.compare(&kb)
    }
}

} // verus!
