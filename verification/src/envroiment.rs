use self::include_file_stack::IncludeFileStack;
use crate::color::sp_to_hex;
use crate::color::Color;
use crate::fault::Fault;
use vstd::prelude::*;
use vstd::string::StrSliceExecFns;
use vstd::string::StringExecFns;

pub mod include_file_stack;

verus! {

/// Strict lexicographic order on character sequences, by scalar value.
pub open spec fn lex_lt(a: Seq<char>, b: Seq<char>) -> bool
    decreases a.len(),
{
    if b.len() == 0 {
        false
    } else if a.len() == 0 {
        true
    } else if a[0] != b[0] {
        (a[0] as int) < (b[0] as int)
    } else {
        lex_lt(a.skip(1), b.skip(1))
    }
}

pub proof fn lemma_lex_lt_irrefl(a: Seq<char>)
    ensures
        !lex_lt(a, a),
    decreases a.len(),
{
    if a.len() > 0 {
        lemma_lex_lt_irrefl(a.skip(1));
    }
}

pub proof fn lemma_lex_lt_asym(a: Seq<char>, b: Seq<char>)
    requires
        lex_lt(a, b),
    ensures
        !lex_lt(b, a),
    decreases a.len(),
{
    if b.len() > 0 && a.len() > 0 && a[0] == b[0] {
        lemma_lex_lt_asym(a.skip(1), b.skip(1));
    }
}

/// The order is total: of two sequences, one is below the other or they
/// are equal.
pub proof fn lemma_lex_lt_total(a: Seq<char>, b: Seq<char>)
    ensures
        lex_lt(a, b) || lex_lt(b, a) || a == b,
    decreases a.len(),
{
    if b.len() == 0 {
        if a.len() == 0 {
            assert(a =~= b);
        }
    } else if a.len() == 0 {
    } else if a[0] != b[0] {
        assert(a[0] as int != b[0] as int);
    } else {
        lemma_lex_lt_total(a.skip(1), b.skip(1));
        if !lex_lt(a, b) && !lex_lt(b, a) {
            assert(a.skip(1) =~= b.skip(1));
            assert(a.len() == b.len());
            assert forall|i: int| 0 <= i < a.len() implies a[i] == b[i] by {
                if i > 0 {
                    assert(a.skip(1)[i - 1] == a[i]);
                    assert(b.skip(1)[i - 1] == b[i]);
                }
            }
            assert(a =~= b);
        }
    }
}

/// The key-color pairs a list of owned bindings stands for.
pub open spec fn sp_viewed(vs: Seq<(String, Color)>) -> Seq<(Seq<char>, Color)> {
    vs.map_values(|p: (String, Color)| (p.0@, p.1))
}

pub open spec fn sp_has_key(es: Seq<(Seq<char>, Color)>, k: Seq<char>) -> bool {
    exists|i: int| 0 <= i < es.len() && es[i].0 == k
}

pub open spec fn sp_key_index(es: Seq<(Seq<char>, Color)>, k: Seq<char>) -> int {
    choose|i: int| 0 <= i < es.len() && es[i].0 == k
}

/// No key appears twice.
pub open spec fn sp_entries_unique(es: Seq<(Seq<char>, Color)>) -> bool {
    forall|m: int, n: int| 0 <= m < n < es.len() ==> es[m].0 != es[n].0
}

/// The name-to-color mapping a list of entries stands for.
pub open spec fn sp_entries_map(es: Seq<(Seq<char>, Color)>) -> Map<Seq<char>, Color> {
    Map::new(|k: Seq<char>| sp_has_key(es, k), |k: Seq<char>| es[sp_key_index(es, k)].1)
}

/// The entry at a unique key gives the map's value there.
pub proof fn lemma_entries_value(es: Seq<(Seq<char>, Color)>, i: int)
    requires
        sp_entries_unique(es),
        0 <= i < es.len(),
    ensures
        sp_entries_map(es).contains_key(es[i].0),
        sp_entries_map(es)[es[i].0] == es[i].1,
{
    assert(sp_has_key(es, es[i].0));
    let j = sp_key_index(es, es[i].0);
    assert(0 <= j < es.len() && es[j].0 == es[i].0);
    assert(j == i);
}

/// Replacing the value at an existing key is a map insert.
pub proof fn lemma_map_update(es: Seq<(Seq<char>, Color)>, i: int, k: Seq<char>, c: Color)
    requires
        sp_entries_unique(es),
        0 <= i < es.len(),
        es[i].0 == k,
    ensures
        sp_entries_unique(es.update(i, (k, c))),
        sp_entries_map(es.update(i, (k, c))) == sp_entries_map(es).insert(k, c),
{
    let es2 = es.update(i, (k, c));
    assert forall|m: int, n: int| 0 <= m < n < es2.len() implies es2[m].0 != es2[n].0 by {
        assert(es2[m].0 == es[m].0);
        assert(es2[n].0 == es[n].0);
    }
    assert forall|q: Seq<char>| sp_has_key(es2, q) implies sp_has_key(es, q) by {
        let j = choose|j: int| 0 <= j < es2.len() && es2[j].0 == q;
        assert(es[j].0 == q);
    }
    assert forall|q: Seq<char>| sp_has_key(es, q) implies sp_has_key(es2, q) by {
        let j = choose|j: int| 0 <= j < es.len() && es[j].0 == q;
        assert(es2[j].0 == q);
    }
    assert forall|q: Seq<char>| #[trigger] sp_has_key(es2, q) implies sp_entries_map(es2)[q]
        == sp_entries_map(es).insert(k, c)[q] by {
        let j2 = sp_key_index(es2, q);
        assert(0 <= j2 < es2.len() && es2[j2].0 == q);
        if q == k {
            assert(j2 == i);
            assert(es2[j2].1 == c);
        } else {
            assert(j2 != i);
            assert(es[j2].0 == q);
            let j1 = sp_key_index(es, q);
            assert(0 <= j1 < es.len() && es[j1].0 == q);
            assert(j1 == j2);
        }
    }
    assert(sp_has_key(es2, k));
    assert(sp_entries_map(es2) =~= sp_entries_map(es).insert(k, c));
}

/// Appending a fresh key is a map insert.
pub proof fn lemma_map_push(es: Seq<(Seq<char>, Color)>, k: Seq<char>, c: Color)
    requires
        sp_entries_unique(es),
        !sp_has_key(es, k),
    ensures
        sp_entries_unique(es.push((k, c))),
        sp_entries_map(es.push((k, c))) == sp_entries_map(es).insert(k, c),
{
    let es2 = es.push((k, c));
    assert forall|m: int, n: int| 0 <= m < n < es2.len() implies es2[m].0 != es2[n].0 by {
        if n < es.len() {
            assert(es2[m].0 == es[m].0);
            assert(es2[n].0 == es[n].0);
        } else {
            assert(es2[n].0 == k);
            assert(es2[m].0 == es[m].0);
            assert(!(es[m].0 == k));
        }
    }
    assert forall|q: Seq<char>| sp_has_key(es2, q) implies (sp_has_key(es, q) || q == k) by {
        let j = choose|j: int| 0 <= j < es2.len() && es2[j].0 == q;
        if j < es.len() {
            assert(es[j].0 == q);
        }
    }
    assert forall|q: Seq<char>| sp_has_key(es, q) implies sp_has_key(es2, q) by {
        let j = choose|j: int| 0 <= j < es.len() && es[j].0 == q;
        assert(es2[j].0 == q);
    }
    assert(es2[es.len() as int].0 == k);
    assert(sp_has_key(es2, k));
    assert forall|q: Seq<char>| #[trigger] sp_has_key(es2, q) implies sp_entries_map(es2)[q]
        == sp_entries_map(es).insert(k, c)[q] by {
        let j2 = sp_key_index(es2, q);
        assert(0 <= j2 < es2.len() && es2[j2].0 == q);
        if q == k {
            assert(j2 == es.len());
            assert(es2[j2].1 == c);
        } else {
            assert(j2 < es.len());
            assert(es[j2].0 == q);
            let j1 = sp_key_index(es, q);
            assert(0 <= j1 < es.len() && es[j1].0 == q);
            assert(j1 == j2);
        }
    }
    assert(sp_entries_map(es2) =~= sp_entries_map(es).insert(k, c));
}

/// Inserting one binding into a list sorted by key: an equal key is
/// replaced in place, otherwise the binding goes before the first larger
/// key.
pub open spec fn sp_entries_insert(
    es: Seq<(Seq<char>, Color)>,
    k: Seq<char>,
    c: Color,
) -> Seq<(Seq<char>, Color)>
    decreases es.len(),
{
    if es.len() == 0 {
        seq![(k, c)]
    } else if es[0].0 == k {
        seq![(k, c)] + es.skip(1)
    } else if lex_lt(k, es[0].0) {
        seq![(k, c)] + es
    } else {
        seq![es[0]] + sp_entries_insert(es.skip(1), k, c)
    }
}

/// The entries sorted by key, one insertion at a time.
pub open spec fn sp_sort(es: Seq<(Seq<char>, Color)>) -> Seq<(Seq<char>, Color)>
    decreases es.len(),
{
    if es.len() == 0 {
        Seq::<(Seq<char>, Color)>::empty()
    } else {
        sp_entries_insert(sp_sort(es.drop_last()), es.last().0, es.last().1)
    }
}

pub proof fn lemma_lex_lt_trans(a: Seq<char>, b: Seq<char>, c: Seq<char>)
    requires
        lex_lt(a, b),
        lex_lt(b, c),
    ensures
        lex_lt(a, c),
    decreases a.len(),
{
    if a.len() > 0 && b.len() > 0 && c.len() > 0 && a[0] == b[0] && b[0] == c[0] {
        lemma_lex_lt_trans(a.skip(1), b.skip(1), c.skip(1));
    }
}

/// The keys stand in strictly increasing order.
pub open spec fn sp_entries_sorted(es: Seq<(Seq<char>, Color)>) -> bool {
    forall|i: int, j: int| 0 <= i < j < es.len() ==> lex_lt(es[i].0, es[j].0)
}

pub proof fn lemma_sorted_unique(es: Seq<(Seq<char>, Color)>)
    requires
        sp_entries_sorted(es),
    ensures
        sp_entries_unique(es),
{
    assert forall|m: int, n: int| 0 <= m < n < es.len() implies es[m].0 != es[n].0 by {
        lemma_lex_lt_irrefl(es[m].0);
    }
}

/// Inserting into a sorted list keeps it sorted, and has exactly the effect
/// of a map insert.
pub proof fn lemma_insert_sorted(es: Seq<(Seq<char>, Color)>, k: Seq<char>, c: Color)
    requires
        sp_entries_sorted(es),
    ensures
        sp_entries_sorted(sp_entries_insert(es, k, c)),
        sp_entries_map(sp_entries_insert(es, k, c)) == sp_entries_map(es).insert(k, c),
    decreases es.len(),
{
    lemma_sorted_unique(es);
    let r = sp_entries_insert(es, k, c);
    if es.len() == 0 {
        assert(r[0] == (k, c));
        assert(sp_has_key(r, k));
        assert forall|q: Seq<char>|
            #[trigger] sp_entries_map(r).contains_key(q)
                == sp_entries_map(es).insert(k, c).contains_key(q) by {
            if sp_has_key(es, q) {
                let j = sp_key_index(es, q);
            }
            if sp_has_key(r, q) {
                let j = sp_key_index(r, q);
                assert(r[j] == (k, c));
            }
        }
        assert(sp_entries_map(r) =~= sp_entries_map(es).insert(k, c));
    } else if es[0].0 == k {
        // the key is replaced in place
        assert forall|i: int, j: int| 0 <= i < j < r.len() implies lex_lt(r[i].0, r[j].0) by {
            assert(r[j] == es[j]);
            if i > 0 {
                assert(r[i] == es[i]);
            } else {
                assert(r[0].0 == es[0].0);
            }
        }
        lemma_map_update(es, 0, k, c);
        assert(r =~= es.update(0, (k, c)));
    } else if lex_lt(k, es[0].0) {
        // the new binding stands in front
        assert forall|i: int, j: int| 0 <= i < j < r.len() implies lex_lt(r[i].0, r[j].0) by {
            assert(r[j] == es[j - 1]);
            if i > 0 {
                assert(r[i] == es[i - 1]);
            } else {
                if j > 1 {
                    lemma_lex_lt_trans(k, es[0].0, es[j - 1].0);
                }
            }
        }
        assert forall|m: int| 0 <= m < es.len() implies es[m].0 != k by {
            if m == 0 {
                lemma_lex_lt_irrefl(k);
            } else {
                lemma_lex_lt_trans(k, es[0].0, es[m].0);
                lemma_lex_lt_irrefl(k);
            }
        }
        assert(!sp_has_key(es, k));
        // a fresh least key: same argument as appending a fresh key, at the
        // front instead of the back
        assert forall|q: Seq<char>| sp_has_key(r, q) implies (sp_has_key(es, q) || q == k) by {
            let j = choose|j: int| 0 <= j < r.len() && r[j].0 == q;
            if j > 0 {
                assert(es[j - 1].0 == q);
            }
        }
        assert forall|q: Seq<char>| sp_has_key(es, q) implies sp_has_key(r, q) by {
            let j = choose|j: int| 0 <= j < es.len() && es[j].0 == q;
            assert(r[j + 1].0 == q);
        }
        assert(r[0].0 == k);
        assert(sp_has_key(r, k));
        lemma_sorted_unique(r);
        assert forall|q: Seq<char>| #[trigger] sp_has_key(r, q) implies sp_entries_map(r)[q]
            == sp_entries_map(es).insert(k, c)[q] by {
            let j2 = sp_key_index(r, q);
            assert(0 <= j2 < r.len() && r[j2].0 == q);
            if q == k {
                assert(j2 == 0);
            } else {
                assert(j2 > 0);
                assert(es[j2 - 1].0 == q);
                let j1 = sp_key_index(es, q);
                assert(0 <= j1 < es.len() && es[j1].0 == q);
                assert(j1 == j2 - 1);
            }
        }
        assert(sp_entries_map(r) =~= sp_entries_map(es).insert(k, c));
    } else {
        // the head stays, the binding goes into the tail
        let tail = es.skip(1);
        assert forall|i: int, j: int| 0 <= i < j < tail.len() implies lex_lt(
            tail[i].0,
            tail[j].0,
        ) by {
            assert(tail[i] == es[i + 1]);
            assert(tail[j] == es[j + 1]);
        }
        lemma_insert_sorted(tail, k, c);
        let inner = sp_entries_insert(tail, k, c);
        assert(r =~= seq![es[0]] + inner);
        lemma_lex_lt_total(es[0].0, k);
        assert(lex_lt(es[0].0, k));
        // the head's key is below every key in the tail's insertion
        assert forall|j: int| 0 <= j < inner.len() implies lex_lt(es[0].0, inner[j].0) by {
            assert(sp_has_key(inner, inner[j].0));
            assert(sp_entries_map(inner).contains_key(inner[j].0));
            assert(sp_entries_map(tail).insert(k, c).contains_key(inner[j].0));
            if inner[j].0 == k {
            } else {
                assert(sp_entries_map(tail).contains_key(inner[j].0));
                assert(sp_has_key(tail, inner[j].0));
                let m = sp_key_index(tail, inner[j].0);
                assert(0 <= m < tail.len() && tail[m].0 == inner[j].0);
                assert(tail[m] == es[m + 1]);
            }
        }
        assert forall|i: int, j: int| 0 <= i < j < r.len() implies lex_lt(r[i].0, r[j].0) by {
            if i == 0 {
                assert(r[j] == inner[j - 1]);
                assert(lex_lt(es[0].0, inner[j - 1].0));
            } else {
                assert(r[i] == inner[i - 1]);
                assert(r[j] == inner[j - 1]);
            }
        }
        // the head's key is not rebound, so putting it back in front undoes
        // the tail's split
        assert(sp_entries_map(r) =~= sp_entries_map(es).insert(k, c)) by {
            lemma_sorted_unique(r);
            assert forall|q: Seq<char>| sp_has_key(r, q) implies (sp_has_key(inner, q) || q
                == es[0].0) by {
                let j = choose|j: int| 0 <= j < r.len() && r[j].0 == q;
                if j > 0 {
                    assert(inner[j - 1].0 == q);
                }
            }
            assert forall|q: Seq<char>| sp_has_key(inner, q) implies sp_has_key(r, q) by {
                let j = choose|j: int| 0 <= j < inner.len() && inner[j].0 == q;
                assert(r[j + 1].0 == q);
            }
            assert(r[0].0 == es[0].0);
            assert forall|q: Seq<char>| sp_has_key(es, q) implies (q == es[0].0 || sp_has_key(
                tail,
                q,
            )) by {
                let j = choose|j: int| 0 <= j < es.len() && es[j].0 == q;
                if j > 0 {
                    assert(tail[j - 1].0 == q);
                }
            }
            assert forall|q: Seq<char>| sp_has_key(tail, q) implies sp_has_key(es, q) by {
                let j = choose|j: int| 0 <= j < tail.len() && tail[j].0 == q;
                assert(es[j + 1].0 == q);
            }
            lemma_lex_lt_irrefl(k);
            assert forall|q: Seq<char>|
                #[trigger] sp_has_key(r, q) == (sp_has_key(es, q) || q == k) by {
                if sp_has_key(r, q) {
                    if q != es[0].0 {
                        assert(sp_has_key(inner, q));
                        assert(sp_entries_map(inner).contains_key(q));
                        assert(sp_entries_map(tail).insert(k, c).contains_key(q));
                        if q != k {
                            assert(sp_entries_map(tail).contains_key(q));
                            assert(sp_has_key(tail, q));
                            assert(sp_has_key(es, q));
                        }
                    } else {
                        assert(es[0].0 == q);
                        assert(sp_has_key(es, q));
                    }
                }
                if q == k {
                    assert(sp_entries_map(tail).insert(k, c).contains_key(q));
                    assert(sp_entries_map(inner).contains_key(q));
                    assert(sp_has_key(inner, q));
                    assert(sp_has_key(r, q));
                }
                if sp_has_key(es, q) {
                    if q == es[0].0 {
                        assert(r[0].0 == q);
                        assert(sp_has_key(r, q));
                    } else {
                        assert(sp_has_key(tail, q));
                        assert(sp_entries_map(tail).contains_key(q));
                        assert(sp_entries_map(tail).insert(k, c).contains_key(q));
                        assert(sp_entries_map(inner).contains_key(q));
                        assert(sp_has_key(inner, q));
                        assert(sp_has_key(r, q));
                    }
                }
            }
            assert forall|q: Seq<char>| #[trigger] sp_has_key(r, q) implies sp_entries_map(r)[q]
                == sp_entries_map(es).insert(k, c)[q] by {
                let j2 = sp_key_index(r, q);
                assert(0 <= j2 < r.len() && r[j2].0 == q);
                if j2 == 0 {
                    // the head: its key is below k, hence not k, and its
                    // value is the head's value on both sides
                    assert(q == es[0].0);
                    assert(q != k);
                    lemma_entries_value(es, 0);
                } else {
                    assert(inner[j2 - 1].0 == q);
                    assert(sp_entries_map(inner)[q] == inner[j2 - 1].1) by {
                        lemma_sorted_unique(inner);
                        lemma_entries_value(inner, j2 - 1);
                    }
                    assert(r[j2].1 == inner[j2 - 1].1);
                    if q == k {
                        assert(sp_entries_map(inner)[q] == c);
                    } else {
                        assert(q != es[0].0);
                        assert(sp_entries_map(inner).contains_key(q));
                        assert(sp_entries_map(tail).insert(k, c).contains_key(q));
                        assert(sp_entries_map(tail).contains_key(q));
                        assert(sp_has_key(tail, q));
                        assert(sp_entries_map(inner)[q] == sp_entries_map(tail)[q]);
                        let m = sp_key_index(tail, q);
                        assert(0 <= m < tail.len() && tail[m].0 == q);
                        lemma_entries_value(tail, m);
                        let n = sp_key_index(es, q);
                        assert(0 <= n < es.len() && es[n].0 == q);
                        assert(n == m + 1);
                        lemma_entries_value(es, n);
                    }
                }
            }
        }
    }
}

/// Sorting keeps exactly the bindings: the sorted entries are sorted, and
/// they stand for the same name-to-color mapping.
pub proof fn lemma_sort_sorted(es: Seq<(Seq<char>, Color)>)
    requires
        sp_entries_unique(es),
    ensures
        sp_entries_sorted(sp_sort(es)),
        sp_entries_map(sp_sort(es)) == sp_entries_map(es),
    decreases es.len(),
{
    if es.len() > 0 {
        let front = es.drop_last();
        assert forall|m: int, n: int| 0 <= m < n < front.len() implies front[m].0 != front[n].0 by {
            assert(front[m] == es[m]);
            assert(front[n] == es[n]);
        }
        lemma_sort_sorted(front);
        lemma_insert_sorted(sp_sort(front), es.last().0, es.last().1);
        assert forall|m: int| 0 <= m < front.len() implies front[m].0 != es.last().0 by {
            assert(front[m] == es[m]);
        }
        assert(!sp_has_key(front, es.last().0));
        lemma_map_push(front, es.last().0, es.last().1);
        assert(front.push((es.last().0, es.last().1)) =~= es);
    }
}

/// Two sorted lists of bindings that stand for the same mapping are the
/// same list.
pub proof fn lemma_sorted_same_map(e1: Seq<(Seq<char>, Color)>, e2: Seq<(Seq<char>, Color)>)
    requires
        sp_entries_sorted(e1),
        sp_entries_sorted(e2),
        sp_entries_map(e1) == sp_entries_map(e2),
    ensures
        e1 == e2,
    decreases e1.len(),
{
    lemma_sorted_unique(e1);
    lemma_sorted_unique(e2);
    if e1.len() == 0 {
        if e2.len() > 0 {
            assert(sp_has_key(e2, e2[0].0));
            assert(sp_entries_map(e2).contains_key(e2[0].0));
            assert(sp_has_key(e1, e2[0].0));
        }
        assert(e1 =~= e2);
    } else if e2.len() == 0 {
        assert(sp_has_key(e1, e1[0].0));
        assert(sp_entries_map(e1).contains_key(e1[0].0));
        assert(sp_has_key(e2, e1[0].0));
        assert(false);
    } else {
        // the first keys are both the least key, so they agree
        assert(sp_has_key(e1, e1[0].0));
        assert(sp_entries_map(e2).contains_key(e1[0].0));
        assert(sp_has_key(e2, e1[0].0));
        let m = sp_key_index(e2, e1[0].0);
        assert(0 <= m < e2.len() && e2[m].0 == e1[0].0);
        assert(sp_has_key(e2, e2[0].0));
        assert(sp_entries_map(e1).contains_key(e2[0].0));
        assert(sp_has_key(e1, e2[0].0));
        let n = sp_key_index(e1, e2[0].0);
        assert(0 <= n < e1.len() && e1[n].0 == e2[0].0);
        if e1[0].0 != e2[0].0 {
            assert(m > 0);
            assert(n > 0);
            assert(lex_lt(e2[0].0, e2[m].0));
            assert(lex_lt(e1[0].0, e1[n].0));
            lemma_lex_lt_asym(e2[0].0, e2[m].0);
            assert(false);
        }
        lemma_entries_value(e1, 0);
        lemma_entries_value(e2, 0);
        assert(e1[0] == e2[0]);
        let t1 = e1.skip(1);
        let t2 = e2.skip(1);
        assert forall|i: int, j: int| 0 <= i < j < t1.len() implies lex_lt(t1[i].0, t1[j].0) by {
            assert(t1[i] == e1[i + 1]);
            assert(t1[j] == e1[j + 1]);
        }
        assert forall|i: int, j: int| 0 <= i < j < t2.len() implies lex_lt(t2[i].0, t2[j].0) by {
            assert(t2[i] == e2[i + 1]);
            assert(t2[j] == e2[j + 1]);
        }
        lemma_tail_map(e1);
        lemma_tail_map(e2);
        lemma_sorted_same_map(t1, t2);
        assert forall|i: int| 0 <= i < e1.len() implies e1[i] == e2[i] by {
            if i > 0 {
                assert(t1[i - 1] == e1[i]);
                assert(t2[i - 1] == e2[i]);
            }
        }
        assert(e1 =~= e2);
    }
}

/// Dropping the first binding removes exactly its key from the mapping.
proof fn lemma_tail_map(es: Seq<(Seq<char>, Color)>)
    requires
        sp_entries_unique(es),
        es.len() > 0,
    ensures
        sp_entries_map(es.skip(1)) == sp_entries_map(es).remove(es[0].0),
{
    let t = es.skip(1);
    assert forall|q: Seq<char>| sp_has_key(t, q) implies (sp_has_key(es, q) && q != es[0].0) by {
        let j = choose|j: int| 0 <= j < t.len() && t[j].0 == q;
        assert(es[j + 1].0 == q);
    }
    assert forall|q: Seq<char>| sp_has_key(es, q) && q != es[0].0 implies sp_has_key(t, q) by {
        let j = choose|j: int| 0 <= j < es.len() && es[j].0 == q;
        assert(j > 0);
        assert(t[j - 1].0 == q);
    }
    assert forall|m: int, n: int| 0 <= m < n < t.len() implies t[m].0 != t[n].0 by {
        assert(t[m] == es[m + 1]);
        assert(t[n] == es[n + 1]);
    }
    assert forall|q: Seq<char>| #[trigger] sp_has_key(t, q) implies sp_entries_map(t)[q]
        == sp_entries_map(es)[q] by {
        let j = sp_key_index(t, q);
        assert(0 <= j < t.len() && t[j].0 == q);
        lemma_entries_value(t, j);
        assert(t[j] == es[j + 1]);
        lemma_entries_value(es, j + 1);
    }
    assert(sp_entries_map(t) =~= sp_entries_map(es).remove(es[0].0));
}

/// Law: the rendered variable table is deterministic. Two well-formed
/// environments whose bindings stand for the same name-to-color mapping
/// render as the same JSON text, whatever order the names were bound in.
pub proof fn lemma_vars_json_deterministic(e1: Envroiment, e2: Envroiment)
    requires
        e1.wf(),
        e2.wf(),
        e1.vars_map() == e2.vars_map(),
    ensures
        sp_json(sp_sort(e1.entries())) == sp_json(sp_sort(e2.entries())),
{
    lemma_sort_sorted(e1.entries());
    lemma_sort_sorted(e2.entries());
    lemma_sorted_same_map(sp_sort(e1.entries()), sp_sort(e2.entries()));
}

/// One rendered binding: `"name":"#rrggbb"`.
pub open spec fn sp_json_entry(e: (Seq<char>, Color)) -> Seq<char> {
    seq!['"'] + e.0 + seq!['"', ':', '"'] + sp_to_hex(e.1) + seq!['"']
}

/// The rendered bindings, comma separated.
pub open spec fn sp_json_body(es: Seq<(Seq<char>, Color)>) -> Seq<char>
    decreases es.len(),
{
    if es.len() == 0 {
        Seq::<char>::empty()
    } else if es.len() == 1 {
        sp_json_entry(es[0])
    } else {
        sp_json_body(es.drop_last()) + seq![','] + sp_json_entry(es.last())
    }
}

/// The rendered variable table: the bindings inside braces.
pub open spec fn sp_json(es: Seq<(Seq<char>, Color)>) -> Seq<char> {
    seq!['{'] + sp_json_body(es) + seq!['}']
}

/// Compares two strings in the lexicographic order of their characters.
fn str_lt(a: &str, b: &str) -> (r: bool)
    ensures
        r == lex_lt(a@, b@),
{
    let a_len = a.unicode_len();
    let b_len = b.unicode_len();
    let mut i: usize = 0;
    proof {
        assert(a@.skip(0) =~= a@);
        assert(b@.skip(0) =~= b@);
    }
    loop
        invariant
            i <= a_len,
            i <= b_len,
            a_len == a@.len(),
            b_len == b@.len(),
            lex_lt(a@, b@) == lex_lt(a@.skip(i as int), b@.skip(i as int)),
        ensures
            lex_lt(a@, b@) == (if i >= b_len {
                false
            } else if i >= a_len {
                true
            } else {
                (a@[i as int] as int) < (b@[i as int] as int)
            }),
        decreases a_len - i,
    {
        if i >= b_len {
            break ;
        }
        if i >= a_len {
            break ;
        }
        let ca = a.get_char(i);
        let cb = b.get_char(i);
        proof {
            assert(a@.skip(i as int)[0] == ca);
            assert(b@.skip(i as int)[0] == cb);
        }
        if ca != cb {
            break ;
        }
        proof {
            assert(a@.skip(i as int).skip(1) =~= a@.skip(i + 1));
            assert(b@.skip(i as int).skip(1) =~= b@.skip(i + 1));
        }
        i = i + 1;
    }
    if i >= b_len {
        false
    } else if i >= a_len {
        true
    } else {
        let ca = a.get_char(i);
        let cb = b.get_char(i);
        proof {
            assert(((ca as u32) < (cb as u32)) == ((ca as int) < (cb as int)));
        }
        (ca as u32) < (cb as u32)
    }
}

/// The variable table, the accumulated faults, and the include stack of one
/// run. Bindings are a flat, case-sensitive namespace: the last write wins.
pub struct Envroiment {
    pub vars: Vec<(String, Color)>,
    pub faults: Vec<Fault>,
    pub include_file_stack: IncludeFileStack,
}

impl Envroiment {
    /// The bindings in insertion order.
    pub open spec fn entries(&self) -> Seq<(Seq<char>, Color)> {
        sp_viewed(self.vars@)
    }

    /// The name-to-color mapping of the bindings.
    pub open spec fn vars_map(&self) -> Map<Seq<char>, Color> {
        sp_entries_map(self.entries())
    }

    /// Every name is bound at most once, and the include stack holds no
    /// path twice.
    pub open spec fn wf(&self) -> bool {
        sp_entries_unique(self.entries()) && self.include_file_stack.wf()
    }

    pub fn new() -> (r: Self)
        ensures
            r.wf(),
            r.entries() == Seq::<(Seq<char>, Color)>::empty(),
            r.vars_map() == Map::<Seq<char>, Color>::empty(),
            r.faults@ == Seq::<Fault>::empty(),
            r.include_file_stack@ == Seq::<crate::app_path::PathV>::empty(),
    {
        let r = Envroiment {
            vars: Vec::new(),
            faults: Vec::new(),
            include_file_stack: IncludeFileStack::new(),
        };
        proof {
            assert(r.entries() =~= Seq::<(Seq<char>, Color)>::empty());
            assert forall|q: Seq<char>| !sp_has_key(r.entries(), q) by {}
            assert(r.vars_map() =~= Map::<Seq<char>, Color>::empty());
            assert(r.faults@ =~= Seq::<Fault>::empty());
        }
        r
    }

    /// Binds `name` to `color`, overwriting any earlier binding of the
    /// same name.
    #[verifier::loop_isolation(false)]
    pub fn set(&mut self, name: String, color: Color)
        requires
            old(self).wf(),
        ensures
            final(self).wf(),
            final(self).vars_map() == old(self).vars_map().insert(name@, color),
            final(self).faults == old(self).faults,
            final(self).include_file_stack == old(self).include_file_stack,
    {
        let ghost es = self.entries();
        let ghost k = name@;
        let mut i: usize = 0;
        while i < self.vars.len()
            invariant
                i <= self.vars.len(),
                *self == *old(self),
                es == self.entries(),
                k == name@,
                forall|m: int| 0 <= m < i ==> es[m].0 != k,
            decreases self.vars.len() - i,
        {
            proof {
                assert(es[i as int] == (self.vars@[i as int].0@, self.vars@[i as int].1));
            }
            let hit = self.vars[i].0 == name;
            if hit {
                proof {
                    assert(es[i as int].0 == name@);
                }
                self.vars.set(i, (name, color));
                proof {
                    assert(self.entries() =~= es.update(i as int, (name@, color)));
                    lemma_map_update(es, i as int, name@, color);
                }
                return ;
            }
            i = i + 1;
        }
        proof {
            assert forall|j: int| 0 <= j < es.len() implies es[j].0 != name@ by {}
            assert(!sp_has_key(es, name@));
        }
        self.vars.push((name, color));
        proof {
            assert(self.entries() =~= es.push((name@, color)));
            lemma_map_push(es, name@, color);
        }
    }

    /// The color bound to `name`, if any.
    pub fn get(&self, name: &String) -> (r: Option<Color>)
        requires
            self.wf(),
        ensures
            match r {
                Some(c) => self.vars_map().contains_key(name@) && c == self.vars_map()[name@],
                None => !self.vars_map().contains_key(name@),
            },
    {
        let ghost es = self.entries();
        let mut i: usize = 0;
        while i < self.vars.len()
            invariant
                i <= self.vars.len(),
                es == self.entries(),
                self.wf(),
                forall|m: int| 0 <= m < i ==> es[m].0 != name@,
            decreases self.vars.len() - i,
        {
            proof {
                assert(es[i as int] == (self.vars@[i as int].0@, self.vars@[i as int].1));
            }
            let hit = self.vars[i].0 == *name;
            if hit {
                proof {
                    assert(es[i as int].0 == name@);
                    lemma_entries_value(es, i as int);
                }
                return Some(self.vars[i].1);
            }
            i = i + 1;
        }
        proof {
            assert forall|j: int| 0 <= j < es.len() implies es[j].0 != name@ by {}
            assert(!sp_has_key(es, name@));
        }
        None
    }

    /// The number of bindings.
    pub fn vars_len(&self) -> (n: usize)
        ensures
            n == self.entries().len(),
    {
        self.vars.len()
    }

    /// Renders the variable table as one JSON object: the bindings sorted
    /// by name, each color as its hex string.
    #[verifier::loop_isolation(false)]
    pub fn vars_json(&self) -> (r: String)
        ensures
            r@ == sp_json(sp_sort(self.entries())),
    {
        let ghost es = self.entries();
        let mut sorted: Vec<(String, Color)> = Vec::new();
        let mut i: usize = 0;
        proof {
            assert(sp_viewed(sorted@) =~= Seq::<(Seq<char>, Color)>::empty());
            assert(es.take(0) =~= Seq::<(Seq<char>, Color)>::empty());
        }
        while i < self.vars.len()
            invariant
                i <= self.vars.len(),
                sp_viewed(sorted@) == sp_sort(es.take(i as int)),
            decreases self.vars.len() - i,
        {
            let name = self.vars[i].0.clone();
            let color = self.vars[i].1;
            proof {
                assert(name@ == es[i as int].0);
                assert(color == es[i as int].1);
            }
            insert_sorted(&mut sorted, name, color);
            proof {
                assert(es.take(i + 1).drop_last() =~= es.take(i as int));
                assert(es.take(i + 1).last() == es[i as int]);
            }
            i = i + 1;
        }
        proof {
            assert(es.take(es.len() as int) =~= es);
        }
        let ghost sv = sp_viewed(sorted@);
        let mut buf = String::new();
        buf.push('{');
        let mut j: usize = 0;
        proof {
            assert(buf@ =~= seq!['{']);
            assert(sv.take(0) =~= Seq::<(Seq<char>, Color)>::empty());
            assert(buf@ =~= seq!['{'] + sp_json_body(sv.take(0)));
        }
        while j < sorted.len()
            invariant
                j <= sorted.len(),
                sv == sp_viewed(sorted@),
                buf@ == seq!['{'] + sp_json_body(sv.take(j as int)),
            decreases sorted.len() - j,
        {
            if j > 0 {
                buf.push(',');
            }
            buf.push('"');
            buf.append(sorted[j].0.as_str());
            buf.push('"');
            buf.push(':');
            buf.push('"');
            let hex = sorted[j].1.to_hex_string();
            buf.append(hex.as_str());
            buf.push('"');
            proof {
                assert(sv.take(j + 1).drop_last() =~= sv.take(j as int));
                assert(sv.take(j + 1).last() == sv[j as int]);
                assert(sv[j as int].0 == sorted@[j as int].0@);
                assert(sv[j as int].1 == sorted@[j as int].1);
                assert(buf@ =~= seq!['{'] + sp_json_body(sv.take(j + 1)));
            }
            j = j + 1;
        }
        buf.push('}');
        proof {
            assert(sv.take(sorted@.len() as int) =~= sv);
            assert(buf@ =~= sp_json(sp_sort(es)));
        }
        buf
    }
}

/// Puts one binding into its place in a key-sorted list: replacing an equal
/// key, or standing before the first larger one.
#[verifier::loop_isolation(false)]
fn insert_sorted(sorted: &mut Vec<(String, Color)>, name: String, color: Color)
    ensures
        sp_viewed(final(sorted)@) == sp_entries_insert(sp_viewed(old(sorted)@), name@, color),
{
    let ghost es = sp_viewed(sorted@);
    let ghost k = name@;
    let mut j: usize = 0;
    proof {
        assert(es.take(0) =~= Seq::<(Seq<char>, Color)>::empty());
        assert(es.skip(0) =~= es);
    }
    loop
        invariant
            j <= sorted.len(),
            sorted.len() == es.len(),
            es == sp_viewed(sorted@),
            sp_entries_insert(es, k, color) == es.take(j as int) + sp_entries_insert(
                es.skip(j as int),
                k,
                color,
            ),
        decreases sorted.len() - j,
    {
        if j == sorted.len() {
            proof {
                assert(es.skip(j as int) =~= Seq::<(Seq<char>, Color)>::empty());
            }
            sorted.push((name, color));
            proof {
                assert(sp_viewed(sorted@) =~= es.take(es.len() as int) + seq![(k, color)]);
                assert(es.take(es.len() as int) =~= es);
            }
            return ;
        }
        let ghost rest = es.skip(j as int);
        proof {
            assert(rest[0] == es[j as int]);
            assert(es[j as int].0 == sorted@[j as int].0@);
        }
        let same = sorted[j].0 == name;
        if same {
            sorted.set(j, (name, color));
            proof {
                assert(sp_entries_insert(rest, k, color) =~= seq![(k, color)] + rest.skip(1));
                assert(rest.skip(1) =~= es.skip(j + 1));
                assert(sp_viewed(sorted@) =~= es.take(j as int) + (seq![(k, color)] + es.skip(
                    j + 1,
                )));
            }
            return ;
        }
        let below = str_lt(sorted[j].0.as_str(), name.as_str());
        if below {
            proof {
                assert(lex_lt(rest[0].0, k));
                lemma_lex_lt_irrefl(k);
                lemma_lex_lt_asym(rest[0].0, k);
                assert(sp_entries_insert(rest, k, color) == seq![rest[0]] + sp_entries_insert(
                    rest.skip(1),
                    k,
                    color,
                ));
                assert(rest.skip(1) =~= es.skip(j + 1));
                assert(es.take(j + 1) =~= es.take(j as int) + seq![rest[0]]);
                assert(es.take(j as int) + (seq![rest[0]] + sp_entries_insert(
                    es.skip(j + 1),
                    k,
                    color,
                )) =~= es.take(j + 1) + sp_entries_insert(es.skip(j + 1), k, color));
            }
            j = j + 1;
        } else {
            proof {
                lemma_lex_lt_total(rest[0].0, k);
                assert(lex_lt(k, rest[0].0));
                assert(sp_entries_insert(rest, k, color) =~= seq![(k, color)] + rest);
            }
            sorted.insert(j, (name, color));
            proof {
                assert(sp_viewed(sorted@) =~= es.take(j as int) + (seq![(k, color)] + es.skip(
                    j as int,
                )));
            }
            return ;
        }
    }
}

/// Law: re-defining the same identifier overwrites the prior binding, and a
/// later lookup of that identifier observes the newer color.
pub proof fn lemma_redefine_overwrites(
    vars: Map<Seq<char>, Color>,
    name: Seq<char>,
    c1: Color,
    c2: Color,
)
    ensures
        vars.insert(name, c1).insert(name, c2) == vars.insert(name, c2),
        vars.insert(name, c1).insert(name, c2)[name] == c2,
{
    assert(vars.insert(name, c1).insert(name, c2) =~= vars.insert(name, c2));
}

} // verus!
