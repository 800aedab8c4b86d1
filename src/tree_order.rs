//! The component-wise order is a total order, and the tree depends on the
//! walked entries as a collection, not on the order they were walked in.

use crate::tree::{
    all_components, cmp_components, cmp_components_from, cmp_text, cmp_text_from, insert_sorted,
    path_components, sort_components, tree_text, without_root,
};
use vstd::prelude::*;

verus! {

proof fn lemma_text_reflexive(a: Seq<char>, i: int)
    requires
        0 <= i,
    ensures
        cmp_text_from(a, a, i) == 0,
    decreases a.len() - i,
{
    if i < a.len() {
        lemma_text_reflexive(a, i + 1);
    }
}

proof fn lemma_text_antisymmetric(a: Seq<char>, b: Seq<char>, i: int)
    requires
        0 <= i,
    ensures
        cmp_text_from(a, b, i) == -cmp_text_from(b, a, i),
    decreases a.len() - i,
{
    if i < a.len() && i < b.len() && (a[i] as u32) == (b[i] as u32) {
        lemma_text_antisymmetric(a, b, i + 1);
    }
}

proof fn lemma_text_zero_equal(a: Seq<char>, b: Seq<char>, i: int)
    requires
        0 <= i <= a.len(),
        i <= b.len(),
        cmp_text_from(a, b, i) == 0,
    ensures
        a.len() == b.len(),
        forall|k: int| i <= k < a.len() ==> a[k] == b[k],
    decreases a.len() - i,
{
    if i < a.len() {
        vstd::utf8::char_u32_cast(a[i], a[i] as u32);
        vstd::utf8::char_u32_cast(b[i], b[i] as u32);
        lemma_text_zero_equal(a, b, i + 1);
    }
}

proof fn lemma_text_transitive(a: Seq<char>, b: Seq<char>, c: Seq<char>, i: int)
    requires
        0 <= i,
        cmp_text_from(a, b, i) <= 0,
        cmp_text_from(b, c, i) <= 0,
    ensures
        cmp_text_from(a, c, i) <= 0,
    decreases a.len() - i,
{
    if i < a.len() && i < b.len() && i < c.len() && (a[i] as u32) == (b[i] as u32) && (b[i] as u32)
        == (c[i] as u32) {
        lemma_text_transitive(a, b, c, i + 1);
    }
}

proof fn lemma_text_equal(a: Seq<char>, b: Seq<char>)
    requires
        cmp_text(a, b) == 0,
    ensures
        a == b,
{
    lemma_text_zero_equal(a, b, 0);
    assert(a =~= b);
}

proof fn lemma_components_reflexive(a: Seq<Seq<char>>, i: int)
    requires
        0 <= i,
    ensures
        cmp_components_from(a, a, i) == 0,
    decreases a.len() - i,
{
    if i < a.len() {
        lemma_text_reflexive(a[i], 0);
        lemma_components_reflexive(a, i + 1);
    }
}

proof fn lemma_components_antisymmetric(a: Seq<Seq<char>>, b: Seq<Seq<char>>, i: int)
    requires
        0 <= i,
    ensures
        cmp_components_from(a, b, i) == -cmp_components_from(b, a, i),
    decreases a.len() - i,
{
    if i < a.len() && i < b.len() {
        lemma_text_antisymmetric(a[i], b[i], 0);
        lemma_components_antisymmetric(a, b, i + 1);
    }
}

proof fn lemma_components_zero_equal(a: Seq<Seq<char>>, b: Seq<Seq<char>>, i: int)
    requires
        0 <= i <= a.len(),
        i <= b.len(),
        cmp_components_from(a, b, i) == 0,
    ensures
        a.len() == b.len(),
        forall|k: int| i <= k < a.len() ==> a[k] == b[k],
    decreases a.len() - i,
{
    if i < a.len() {
        lemma_components_zero_equal(a, b, i + 1);
        lemma_text_equal(a[i], b[i]);
    }
}

proof fn lemma_components_transitive(a: Seq<Seq<char>>, b: Seq<Seq<char>>, c: Seq<Seq<char>>, i: int)
    requires
        0 <= i,
        cmp_components_from(a, b, i) <= 0,
        cmp_components_from(b, c, i) <= 0,
    ensures
        cmp_components_from(a, c, i) <= 0,
    decreases a.len() - i,
{
    if i < a.len() && i < b.len() && i < c.len() {
        let (x, y, z) = (a[i], b[i], c[i]);
        lemma_text_antisymmetric(x, y, 0);
        lemma_text_antisymmetric(y, z, 0);
        if cmp_text(x, y) == 0 {
            lemma_text_equal(x, y);
        }
        if cmp_text(y, z) == 0 {
            lemma_text_equal(y, z);
        }
        if cmp_text(x, y) <= 0 && cmp_text(y, z) <= 0 {
            lemma_text_transitive(x, y, z, 0);
        }
        if cmp_text(x, y) == 0 && cmp_text(y, z) == 0 {
            lemma_components_transitive(a, b, c, i + 1);
        }
        if cmp_text(x, z) == 0 {
            lemma_text_equal(x, z);
            lemma_text_reflexive(x, 0);
        }
    }
}

/// Two component lists that sort at the same place are equal.
proof fn lemma_components_equal(a: Seq<Seq<char>>, b: Seq<Seq<char>>)
    requires
        cmp_components(a, b) <= 0,
        cmp_components(b, a) <= 0,
    ensures
        a == b,
{
    lemma_components_antisymmetric(a, b, 0);
    lemma_components_zero_equal(a, b, 0);
    assert(a =~= b);
}

/// Whether `s` is in component-wise order.
pub open spec fn is_sorted(s: Seq<Seq<Seq<char>>>) -> bool {
    forall|i: int, j: int| 0 <= i < j < s.len() ==> cmp_components(s[i], s[j]) <= 0
}

proof fn lemma_insert_multiset(s: Seq<Seq<Seq<char>>>, x: Seq<Seq<char>>)
    ensures
        insert_sorted(s, x).to_multiset() == s.to_multiset().insert(x),
    decreases s.len(),
{
    broadcast use vstd::multiset::group_multiset_axioms, vstd::seq_lib::group_to_multiset_ensures;

    if s.len() == 0 {
        assert(seq![x] =~= s.push(x));
    } else if cmp_components(s.last(), x) > 0 {
        let init = s.drop_last();
        lemma_insert_multiset(init, x);
        assert(init.push(s.last()) =~= s);
        assert(insert_sorted(s, x).to_multiset() =~= s.to_multiset().insert(x));
    }
}

proof fn lemma_sort_multiset(s: Seq<Seq<Seq<char>>>)
    ensures
        sort_components(s).to_multiset() == s.to_multiset(),
    decreases s.len(),
{
    broadcast use vstd::multiset::group_multiset_axioms, vstd::seq_lib::group_to_multiset_ensures;

    if s.len() > 0 {
        let init = s.drop_last();
        lemma_sort_multiset(init);
        lemma_insert_multiset(sort_components(init), s.last());
        assert(init.push(s.last()) =~= s);
    }
}

proof fn lemma_insert_keeps_order(s: Seq<Seq<Seq<char>>>, x: Seq<Seq<char>>)
    requires
        is_sorted(s),
    ensures
        is_sorted(insert_sorted(s, x)),
    decreases s.len(),
{
    broadcast use vstd::multiset::group_multiset_axioms, vstd::seq_lib::group_to_multiset_ensures;

    if s.len() == 0 {
    } else if cmp_components(s.last(), x) <= 0 {
        let t = s.push(x);
        let l = s.last();
        assert forall|i: int, j: int| 0 <= i < j < t.len() implies cmp_components(t[i], t[j]) <= 0 by {
            if j == s.len() && i < s.len() - 1 {
                assert(cmp_components(s[i], s[s.len() - 1]) <= 0);
                lemma_components_transitive(s[i], l, x, 0);
            }
        }
    } else {
        let init = s.drop_last();
        let l = s.last();
        assert(is_sorted(init));
        lemma_insert_keeps_order(init, x);
        lemma_insert_multiset(init, x);
        let u = insert_sorted(init, x);
        let t = u.push(l);
        assert forall|i: int, j: int| 0 <= i < j < t.len() implies cmp_components(t[i], t[j]) <= 0 by {
            if j == u.len() {
                let e = u[i];
                assert(u.contains(e));
                assert(u.to_multiset().count(e) > 0);
                if e == x {
                    lemma_components_antisymmetric(l, x, 0);
                } else {
                    assert(init.to_multiset().count(e) > 0);
                    assert(init.contains(e));
                    let k = choose|k: int| 0 <= k < init.len() && init[k] == e;
                    assert(s[k] == e);
                }
            }
        }
    }
}

proof fn lemma_sort_sorted(s: Seq<Seq<Seq<char>>>)
    ensures
        is_sorted(sort_components(s)),
    decreases s.len(),
{
    if s.len() > 0 {
        lemma_sort_sorted(s.drop_last());
        lemma_insert_keeps_order(sort_components(s.drop_last()), s.last());
    }
}

/// Two sorted sequences with the same elements are equal.
proof fn lemma_sorted_unique(x: Seq<Seq<Seq<char>>>, y: Seq<Seq<Seq<char>>>)
    requires
        is_sorted(x),
        is_sorted(y),
        x.to_multiset() == y.to_multiset(),
    ensures
        x == y,
    decreases x.len(),
{
    broadcast use vstd::multiset::group_multiset_axioms, vstd::seq_lib::group_to_multiset_ensures;

    assert(x.len() == x.to_multiset().len());
    assert(y.len() == y.to_multiset().len());
    if x.len() == 0 {
        assert(x =~= y);
    } else {
        let n = x.len() - 1;
        let (m1, m2) = (x[n], y[n]);
        assert(x.contains(m1));
        assert(x.to_multiset().count(m1) > 0);
        assert(y.contains(m1));
        let k1 = choose|k: int| 0 <= k < y.len() && y[k] == m1;
        lemma_components_reflexive(m1, 0);
        lemma_components_reflexive(m2, 0);
        assert(cmp_components(m1, m2) <= 0);
        assert(y.contains(m2));
        assert(y.to_multiset().count(m2) > 0);
        assert(x.contains(m2));
        let k2 = choose|k: int| 0 <= k < x.len() && x[k] == m2;
        assert(cmp_components(m2, m1) <= 0);
        lemma_components_equal(m1, m2);
        assert(x.remove(n) =~= x.drop_last());
        assert(y.remove(n) =~= y.drop_last());
        assert(x.drop_last().to_multiset() == x.to_multiset().remove(m1));
        assert(y.drop_last().to_multiset() == y.to_multiset().remove(m2));
        lemma_sorted_unique(x.drop_last(), y.drop_last());
        assert(x =~= x.drop_last().push(m1));
        assert(y =~= y.drop_last().push(m2));
    }
}

/// The component lists that get a line, in walk order.
pub open spec fn drawn_keys(root: Seq<Seq<char>>, entries: Seq<Seq<char>>) -> Seq<Seq<Seq<char>>> {
    without_root(root, all_components(entries))
}

proof fn lemma_drawn_keys_last(root: Seq<Seq<char>>, a: Seq<Seq<char>>)
    requires
        a.len() > 0,
    ensures
        drawn_keys(root, a) == (if path_components(a.last()) == root {
            drawn_keys(root, a.drop_last())
        } else {
            drawn_keys(root, a.drop_last()).push(path_components(a.last()))
        }),
{
    assert(all_components(a).drop_last() =~= all_components(a.drop_last()));
    assert(all_components(a).last() == path_components(a.last()));
}

proof fn lemma_drawn_keys_remove(root: Seq<Seq<char>>, a: Seq<Seq<char>>, i: int)
    requires
        0 <= i < a.len(),
    ensures
        drawn_keys(root, a).to_multiset() == (if path_components(a[i]) == root {
            drawn_keys(root, a.remove(i)).to_multiset()
        } else {
            drawn_keys(root, a.remove(i)).to_multiset().insert(path_components(a[i]))
        }),
    decreases a.len(),
{
    broadcast use vstd::multiset::group_multiset_axioms, vstd::seq_lib::group_to_multiset_ensures;

    let n = a.len() - 1;
    lemma_drawn_keys_last(root, a);
    if i == n {
        assert(a.remove(i) =~= a.drop_last());
    } else {
        let r = a.remove(i);
        assert(r.drop_last() =~= a.drop_last().remove(i));
        assert(r.last() == a.last());
        lemma_drawn_keys_last(root, r);
        lemma_drawn_keys_remove(root, a.drop_last(), i);
        assert(a.drop_last()[i] == a[i]);
        let ka = drawn_keys(root, a).to_multiset();
        let kr = drawn_keys(root, r).to_multiset();
        if path_components(a[i]) == root {
            assert(ka =~= kr);
        } else {
            assert(ka =~= kr.insert(path_components(a[i])));
        }
    }
}

proof fn lemma_drawn_keys_permutation(root: Seq<Seq<char>>, a: Seq<Seq<char>>, b: Seq<Seq<char>>)
    requires
        a.to_multiset() == b.to_multiset(),
    ensures
        drawn_keys(root, a).to_multiset() == drawn_keys(root, b).to_multiset(),
    decreases a.len(),
{
    broadcast use vstd::multiset::group_multiset_axioms, vstd::seq_lib::group_to_multiset_ensures;

    assert(a.len() == a.to_multiset().len());
    assert(b.len() == b.to_multiset().len());
    if a.len() == 0 {
        assert(b =~= a);
    } else {
        let x = a.last();
        assert(a.contains(x));
        assert(a.to_multiset().count(x) > 0);
        assert(b.contains(x));
        let i = choose|i: int| 0 <= i < b.len() && b[i] == x;
        assert(a.drop_last().push(x) =~= a);
        assert(b.remove(i).to_multiset() == b.to_multiset().remove(x));
        assert(a.drop_last().to_multiset() =~= a.to_multiset().remove(x));
        lemma_drawn_keys_permutation(root, a.drop_last(), b.remove(i));
        lemma_drawn_keys_last(root, a);
        lemma_drawn_keys_remove(root, b, i);
    }
}

/// The tree depends on the walked entries as a collection, not on the
/// order the walk produced them in: two walks that found the same entries,
/// in any order, give the same tree.
pub proof fn law_tree_independent_of_walk_order(
    root: Seq<char>,
    first: Seq<Seq<char>>,
    second: Seq<Seq<char>>,
)
    requires
        first.to_multiset() == second.to_multiset(),
    ensures
        tree_text(root, first) == tree_text(root, second),
{
    let rc = path_components(root);
    let ka = drawn_keys(rc, first);
    let kb = drawn_keys(rc, second);
    lemma_drawn_keys_permutation(rc, first, second);
    lemma_sort_multiset(ka);
    lemma_sort_multiset(kb);
    lemma_sort_sorted(ka);
    lemma_sort_sorted(kb);
    lemma_sorted_unique(sort_components(ka), sort_components(kb));
}

} // verus!
