//! Sorting: by descending score, then by name, then by source, then by position.

use vstd::prelude::*;
use vstd::multiset::*;
use vstd::seq_lib::*;

verus! {

/// `a` comes before `b` in the order of character codes, which is also that of the
/// bytes of their UTF-8 forms.
pub open spec fn lex(a: Seq<char>, b: Seq<char>) -> bool
    decreases a.len(),
{
    if b.len() == 0 {
        false
    } else if a.len() == 0 {
        true
    } else if a[0] != b[0] {
        a[0] < b[0]
    } else {
        lex(a.drop_first(), b.drop_first())
    }
}

/// What an item is sorted by.
pub struct SortKey {
    pub score: u32,
    pub name: Vec<char>,
    pub source: Vec<char>,
}

/// What a sort key holds.
pub struct SortKeyView {
    pub score: int,
    pub name: Seq<char>,
    pub source: Seq<char>,
}

impl View for SortKey {
    type V = SortKeyView;

    open spec fn view(&self) -> SortKeyView {
        SortKeyView { score: self.score as int, name: self.name@, source: self.source@ }
    }
}

/// What some sort keys hold.
pub open spec fn key_views(keys: Seq<SortKey>) -> Seq<SortKeyView> {
    Seq::new(keys.len(), |i: int| keys[i]@)
}

/// Item `i` stands before item `j`.
pub open spec fn precedes(keys: Seq<SortKeyView>, i: int, j: int) -> bool {
    let a = keys[i];
    let b = keys[j];
    a.score > b.score || (a.score == b.score && (lex(a.name, b.name) || (a.name == b.name && (lex(
        a.source,
        b.source,
    ) || (a.source == b.source && i < j)))))
}

/// Each item stands before all that follow it.
pub open spec fn in_order(keys: Seq<SortKeyView>, items: Seq<usize>) -> bool {
    forall|a: int, b: int|
        0 <= a < b < items.len() ==> precedes(
            keys,
            #[trigger] items[a] as int,
            #[trigger] items[b] as int,
        )
}

pub proof fn lemma_lex_irreflexive(a: Seq<char>)
    ensures
        !lex(a, a),
    decreases a.len(),
{
    if a.len() > 0 {
        lemma_lex_irreflexive(a.drop_first());
    }
}

pub proof fn lemma_lex_transitive(a: Seq<char>, b: Seq<char>, c: Seq<char>)
    requires
        lex(a, b),
        lex(b, c),
    ensures
        lex(a, c),
    decreases a.len(),
{
    if a.len() > 0 && b.len() > 0 && c.len() > 0 && a[0] == b[0] && b[0] == c[0] {
        lemma_lex_transitive(a.drop_first(), b.drop_first(), c.drop_first());
    }
}

pub proof fn lemma_lex_total(a: Seq<char>, b: Seq<char>)
    ensures
        lex(a, b) || lex(b, a) || a == b,
    decreases a.len(),
{
    if a.len() > 0 && b.len() > 0 {
        if a[0] == b[0] {
            lemma_lex_total(a.drop_first(), b.drop_first());
            if a.drop_first() == b.drop_first() {
                assert(a =~= seq![a[0]] + a.drop_first());
                assert(b =~= seq![b[0]] + b.drop_first());
            }
        }
    } else if a.len() == 0 && b.len() == 0 {
        assert(a =~= b);
    }
}

pub proof fn lemma_precedes_transitive(keys: Seq<SortKeyView>, i: int, j: int, k: int)
    requires
        precedes(keys, i, j),
        precedes(keys, j, k),
    ensures
        precedes(keys, i, k),
{
    let a = keys[i];
    let b = keys[j];
    let c = keys[k];
    if lex(a.name, b.name) && lex(b.name, c.name) {
        lemma_lex_transitive(a.name, b.name, c.name);
    }
    if lex(a.source, b.source) && lex(b.source, c.source) {
        lemma_lex_transitive(a.source, b.source, c.source);
    }
}

pub proof fn lemma_precedes_total(keys: Seq<SortKeyView>, i: int, j: int)
    requires
        i != j,
    ensures
        precedes(keys, i, j) || precedes(keys, j, i),
{
    lemma_lex_total(keys[i].name, keys[j].name);
    lemma_lex_total(keys[i].source, keys[j].source);
}

pub proof fn lemma_precedes_irreflexive(keys: Seq<SortKeyView>, i: int)
    ensures
        !precedes(keys, i, i),
{
    lemma_lex_irreflexive(keys[i].name);
    lemma_lex_irreflexive(keys[i].source);
}

/// Whether `a` comes before `b` in the order of character codes.
fn lex_before(a: &Vec<char>, b: &Vec<char>) -> (r: bool)
    ensures
        r == lex(a@, b@),
{
    let mut i: usize = 0;
    assert(a@.skip(0) =~= a@);
    assert(b@.skip(0) =~= b@);
    while i < a.len() && i < b.len() && a[i] == b[i]
        invariant
            i <= a@.len(),
            i <= b@.len(),
            lex(a@, b@) == lex(a@.skip(i as int), b@.skip(i as int)),
        decreases a@.len() - i,
    {
        assert(a@.skip(i as int).drop_first() =~= a@.skip(i + 1));
        assert(b@.skip(i as int).drop_first() =~= b@.skip(i + 1));
        i = i + 1;
    }
    if i >= b.len() {
        false
    } else if i >= a.len() {
        true
    } else {
        a[i] < b[i]
    }
}

/// Whether item `i` stands before item `j`.
fn stands_before(keys: &Vec<SortKey>, i: usize, j: usize) -> (r: bool)
    requires
        i < keys@.len(),
        j < keys@.len(),
    ensures
        r == precedes(key_views(keys@), i as int, j as int),
{
    let a: &SortKey = &keys[i];
    let b: &SortKey = &keys[j];
    proof {
        lemma_lex_total(a.name@, b.name@);
        lemma_lex_total(a.source@, b.source@);
        lemma_lex_irreflexive(a.name@);
        lemma_lex_irreflexive(a.source@);
    }
    if a.score != b.score {
        a.score > b.score
    } else if lex_before(&a.name, &b.name) {
        true
    } else if lex_before(&b.name, &a.name) {
        proof {
            if lex(b.name@, a.name@) && lex(a.name@, b.name@) {
                lemma_lex_transitive(a.name@, b.name@, a.name@);
            }
        }
        false
    } else if lex_before(&a.source, &b.source) {
        true
    } else if lex_before(&b.source, &a.source) {
        false
    } else {
        i < j
    }
}

/// Two sorted runs in one.
fn merge(keys: &Vec<SortKey>, a: &Vec<usize>, b: &Vec<usize>) -> (r: Vec<usize>)
    requires
        forall|i: int| 0 <= i < a@.len() ==> #[trigger] a@[i] < keys@.len(),
        forall|i: int| 0 <= i < b@.len() ==> #[trigger] b@[i] < keys@.len(),
        forall|i: int, j: int| 0 <= i < a@.len() && 0 <= j < b@.len() ==> a@[i] != b@[j],
        in_order(key_views(keys@), a@),
        in_order(key_views(keys@), b@),
    ensures
        in_order(key_views(keys@), r@),
        r@.to_multiset() == a@.to_multiset().add(b@.to_multiset()),
{
    let ghost views = key_views(keys@);
    let mut r: Vec<usize> = Vec::new();
    let mut i: usize = 0;
    let mut j: usize = 0;
    proof {
        broadcast use group_seq_properties;
        broadcast use group_to_multiset_ensures;
        assert(r@.to_multiset() =~= a@.take(0).to_multiset().add(b@.take(0).to_multiset()));
    }
    while i < a.len() || j < b.len()
        invariant
            views == key_views(keys@),
            i <= a@.len(),
            j <= b@.len(),
            forall|i: int| 0 <= i < a@.len() ==> #[trigger] a@[i] < keys@.len(),
            forall|i: int| 0 <= i < b@.len() ==> #[trigger] b@[i] < keys@.len(),
            forall|i: int, j: int| 0 <= i < a@.len() && 0 <= j < b@.len() ==> a@[i] != b@[j],
            in_order(views, a@),
            in_order(views, b@),
            in_order(views, r@),
            r@.to_multiset() == a@.take(i as int).to_multiset().add(
                b@.take(j as int).to_multiset(),
            ),
            forall|x: int, y: int|
                0 <= x < r@.len() && i <= y < a@.len() ==> precedes(
                    views,
                    #[trigger] r@[x] as int,
                    #[trigger] a@[y] as int,
                ),
            forall|x: int, y: int|
                0 <= x < r@.len() && j <= y < b@.len() ==> precedes(
                    views,
                    #[trigger] r@[x] as int,
                    #[trigger] b@[y] as int,
                ),
        decreases a@.len() - i + b@.len() - j,
    {
        let left: bool = if j >= b.len() {
            true
        } else if i >= a.len() {
            false
        } else {
            stands_before(keys, a[i], b[j])
        };
        proof {
            broadcast use group_to_multiset_ensures;
            if i < a@.len() {
                assert(a@.take(i + 1) =~= a@.take(i as int).push(a@[i as int]));
            }
            if j < b@.len() {
                assert(b@.take(j + 1) =~= b@.take(j as int).push(b@[j as int]));
            }
            if i < a@.len() && j < b@.len() {
                lemma_precedes_total(views, a@[i as int] as int, b@[j as int] as int);
            }
        }
        let ghost before = r@;
        if left {
            proof {
                assert forall|y: int| j <= y < b@.len() implies precedes(
                    views,
                    a@[i as int] as int,
                    #[trigger] b@[y] as int,
                ) by {
                    if y > j {
                        lemma_precedes_transitive(
                            views,
                            a@[i as int] as int,
                            b@[j as int] as int,
                            b@[y] as int,
                        );
                    }
                }
            }
            r.push(a[i]);
            i = i + 1;
            assert(r@.to_multiset() =~= a@.take(i as int).to_multiset().add(
                b@.take(j as int).to_multiset(),
            ));
        } else {
            proof {
                assert forall|y: int| i <= y < a@.len() implies precedes(
                    views,
                    b@[j as int] as int,
                    #[trigger] a@[y] as int,
                ) by {
                    if y > i {
                        lemma_precedes_transitive(
                            views,
                            b@[j as int] as int,
                            a@[i as int] as int,
                            a@[y] as int,
                        );
                    }
                }
            }
            r.push(b[j]);
            j = j + 1;
            assert(r@.to_multiset() =~= a@.take(i as int).to_multiset().add(
                b@.take(j as int).to_multiset(),
            ));
        }
    }
    assert(a@.take(i as int) =~= a@);
    assert(b@.take(j as int) =~= b@);
    r
}

/// Different items, put in order.
pub fn sorted(keys: &Vec<SortKey>, items: &Vec<usize>) -> (r: Vec<usize>)
    requires
        forall|i: int| 0 <= i < items@.len() ==> #[trigger] items@[i] < keys@.len(),
        items@.no_duplicates(),
    ensures
        in_order(key_views(keys@), r@),
        r@.to_multiset() == items@.to_multiset(),
    decreases items@.len(),
{
    if items.len() <= 1 {
        let mut r: Vec<usize> = Vec::new();
        if items.len() == 1 {
            r.push(items[0]);
        }
        assert(r@ =~= items@);
        return r;
    }
    let half: usize = items.len() / 2;
    let mut a: Vec<usize> = Vec::new();
    let mut b: Vec<usize> = Vec::new();
    for i in 0..half
        invariant
            half <= items@.len(),
            a@ =~= items@.take(i as int),
    {
        a.push(items[i]);
    }
    for i in half..items.len()
        invariant
            half <= items@.len(),
            b@ =~= items@.subrange(half as int, i as int),
    {
        b.push(items[i]);
    }
    let x: Vec<usize> = sorted(keys, &a);
    let y: Vec<usize> = sorted(keys, &b);
    proof {
        broadcast use group_to_multiset_ensures;
        assert(items@ =~= a@ + b@);
        lemma_multiset_commutative(a@, b@);
        assert forall|i: int| 0 <= i < x@.len() implies #[trigger] x@[i] < keys@.len() by {
            assert(x@.contains(x@[i]));
            assert(x@.to_multiset().count(x@[i]) > 0);
            assert(a@.contains(x@[i]));
        }
        assert forall|i: int| 0 <= i < y@.len() implies #[trigger] y@[i] < keys@.len() by {
            assert(y@.contains(y@[i]));
            assert(y@.to_multiset().count(y@[i]) > 0);
            assert(b@.contains(y@[i]));
        }
        assert forall|i: int, j: int| 0 <= i < x@.len() && 0 <= j < y@.len() implies x@[i] != y@[j] by {
            assert(x@.to_multiset().count(x@[i]) > 0);
            assert(a@.contains(x@[i]));
            assert(y@.to_multiset().count(y@[j]) > 0);
            assert(b@.contains(y@[j]));
            let p = choose|p: int| 0 <= p < a@.len() && a@[p] == x@[i];
            let q = choose|q: int| 0 <= q < b@.len() && b@[q] == y@[j];
            assert(items@[p] == x@[i]);
            assert(items@[half + q] == y@[j]);
        }
    }
    merge(keys, &x, &y)
}

} // verus!
