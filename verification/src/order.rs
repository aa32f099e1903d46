//! The order of strings (code point by code point, which is also the byte
//! order of their UTF-8 encodings) and a stable sort of keyed entries.

use vstd::prelude::*;

verus! {

/// Whether `a` comes before `b` or equals it, comparing character by
/// character, a proper prefix first.
pub open spec fn lex_le(a: Seq<char>, b: Seq<char>) -> bool
    decreases a.len(),
{
    if a.len() == 0 {
        true
    } else if b.len() == 0 {
        false
    } else if a[0] != b[0] {
        a[0] < b[0]
    } else {
        lex_le(a.skip(1), b.skip(1))
    }
}

/// Of two strings, one comes first.
pub proof fn lemma_lex_total(a: Seq<char>, b: Seq<char>)
    ensures
        lex_le(a, b) || lex_le(b, a),
    decreases a.len(),
{
    if a.len() > 0 && b.len() > 0 && a[0] == b[0] {
        lemma_lex_total(a.skip(1), b.skip(1));
    }
}

/// The order is transitive.
pub proof fn lemma_lex_transitive(a: Seq<char>, b: Seq<char>, c: Seq<char>)
    requires
        lex_le(a, b),
        lex_le(b, c),
    ensures
        lex_le(a, c),
    decreases a.len(),
{
    if a.len() > 0 && b.len() > 0 && c.len() > 0 && a[0] == b[0] && b[0] == c[0] {
        lemma_lex_transitive(a.skip(1), b.skip(1), c.skip(1));
    }
}

/// Whether `a` comes before `b` or equals it.
pub fn chars_le(a: &[char], b: &[char]) -> (r: bool)
    ensures
        r == lex_le(a@, b@),
{
    let mut i: usize = 0;
    assert(a@.skip(0) =~= a@);
    assert(b@.skip(0) =~= b@);
    while i < a.len() && i < b.len() && a[i] == b[i]
        invariant
            i <= a@.len(),
            i <= b@.len(),
            lex_le(a@, b@) == lex_le(a@.skip(i as int), b@.skip(i as int)),
        decreases a.len() - i,
    {
        assert(a@.skip(i as int).skip(1) =~= a@.skip(i + 1));
        assert(b@.skip(i as int).skip(1) =~= b@.skip(i + 1));
        i = i + 1;
    }
    if i == a.len() {
        return true;
    }
    if i == b.len() {
        return false;
    }
    a[i] < b[i]
}

/// A key and the position of the entry it belongs to.
pub type Keyed = (Seq<char>, int);

/// `t` with `x` inserted after the last entry whose key does not come
/// after `x`'s (so entries with equal keys keep their order).
pub open spec fn insert_by_key(t: Seq<Keyed>, x: Keyed) -> Seq<Keyed>
    decreases t.len(),
{
    if t.len() == 0 {
        seq![x]
    } else if lex_le(t.last().0, x.0) {
        t.push(x)
    } else {
        insert_by_key(t.drop_last(), x).push(t.last())
    }
}

/// `s` sorted by key, stably.
pub open spec fn sort_by_key(s: Seq<Keyed>) -> Seq<Keyed>
    decreases s.len(),
{
    if s.len() == 0 {
        Seq::empty()
    } else {
        insert_by_key(sort_by_key(s.drop_last()), s.last())
    }
}

/// Whether the keys of `s` never decrease.
pub open spec fn sorted_by_key(s: Seq<Keyed>) -> bool {
    forall|i: int, j: int| 0 <= i < j < s.len() ==> lex_le(#[trigger] s[i].0, #[trigger] s[j].0)
}

proof fn lemma_insert_by_key_facts(t: Seq<Keyed>, x: Keyed)
    requires
        sorted_by_key(t),
    ensures
        sorted_by_key(insert_by_key(t, x)),
        insert_by_key(t, x).to_multiset() == t.to_multiset().insert(x),
        insert_by_key(t, x).len() == t.len() + 1,
    decreases t.len(),
{
    broadcast use vstd::seq_lib::group_to_multiset_ensures;
    if t.len() == 0 {
        assert(seq![x] =~= Seq::<Keyed>::empty().push(x));
        assert(t =~= Seq::<Keyed>::empty());
    } else if lex_le(t.last().0, x.0) {
        let r = t.push(x);
        assert forall|i: int, j: int| 0 <= i < j < r.len() implies lex_le(#[trigger] r[i].0, #[trigger] r[j].0) by {
            if j == r.len() - 1 {
                if i < t.len() - 1 {
                    lemma_lex_transitive(t[i].0, t.last().0, x.0);
                }
            }
        }
    } else {
        let d = t.drop_last();
        assert(sorted_by_key(d));
        lemma_insert_by_key_facts(d, x);
        let m = insert_by_key(d, x);
        let r = m.push(t.last());
        lemma_lex_total(t.last().0, x.0);
        assert forall|i: int, j: int| 0 <= i < j < r.len() implies lex_le(#[trigger] r[i].0, #[trigger] r[j].0) by {
            if j == r.len() - 1 {
                lemma_insert_by_key_members(d, x, i);
            }
        }
        assert(d.push(t.last()) =~= t);
    }
}

proof fn lemma_insert_by_key_members(t: Seq<Keyed>, x: Keyed, i: int)
    requires
        0 <= i < insert_by_key(t, x).len(),
    ensures
        insert_by_key(t, x)[i] == x || exists|k: int| 0 <= k < t.len() && insert_by_key(t, x)[i] == t[k],
    decreases t.len(),
{
    if t.len() == 0 {
    } else if lex_le(t.last().0, x.0) {
        if i < t.len() {
            assert(insert_by_key(t, x)[i] == t[i]);
        }
    } else {
        let d = t.drop_last();
        if i < insert_by_key(d, x).len() {
            lemma_insert_by_key_members(d, x, i);
            if insert_by_key(d, x)[i] != x {
                let k = choose|k: int| 0 <= k < d.len() && insert_by_key(d, x)[i] == d[k];
                assert(insert_by_key(t, x)[i] == t[k]);
            }
        } else {
            assert(insert_by_key(t, x)[i] == t[t.len() - 1]);
        }
    }
}

/// Sorting by key gives a sorted permutation: the same entries, as often,
/// with keys that never decrease.
pub proof fn lemma_sort_by_key(s: Seq<Keyed>)
    ensures
        sorted_by_key(sort_by_key(s)),
        sort_by_key(s).to_multiset() == s.to_multiset(),
        sort_by_key(s).len() == s.len(),
    decreases s.len(),
{
    broadcast use vstd::seq_lib::group_to_multiset_ensures;
    if s.len() == 0 {
        assert(s =~= Seq::<Keyed>::empty());
    } else {
        lemma_sort_by_key(s.drop_last());
        lemma_insert_by_key_facts(sort_by_key(s.drop_last()), s.last());
        assert(s.drop_last().push(s.last()) =~= s);
    }
}

/// Every entry of the sorted sequence is an entry of the original.
pub proof fn lemma_sort_by_key_member(s: Seq<Keyed>, k: int)
    requires
        0 <= k < sort_by_key(s).len(),
    ensures
        s.contains(sort_by_key(s)[k]),
{
    broadcast use vstd::seq_lib::group_to_multiset_ensures;
    lemma_sort_by_key(s);
    let x = sort_by_key(s)[k];
    assert(sort_by_key(s).contains(x));
    assert(sort_by_key(s).to_multiset().count(x) > 0);
}

proof fn lemma_insert_by_key_at(t: Seq<Keyed>, x: Keyed, j: int)
    requires
        0 <= j <= t.len(),
        j == 0 || lex_le(t[j - 1].0, x.0),
        forall|m: int| j <= m < t.len() ==> !lex_le(#[trigger] t[m].0, x.0),
    ensures
        insert_by_key(t, x) == t.insert(j, x),
    decreases t.len(),
{
    if t.len() == 0 {
        assert(t.insert(j, x) =~= seq![x]);
    } else if lex_le(t.last().0, x.0) {
        if j < t.len() {
            assert(!lex_le(t[t.len() - 1].0, x.0));
        }
        assert(t.insert(j, x) =~= t.push(x));
    } else {
        let d = t.drop_last();
        lemma_insert_by_key_at(d, x, j);
        assert(d.insert(j, x).push(t.last()) =~= t.insert(j, x));
    }
}

/// The keyed entries a vector holds.
pub open spec fn keyed_view(v: Seq<(Vec<char>, usize)>) -> Seq<Keyed> {
    v.map_values(|p: (Vec<char>, usize)| (p.0@, p.1 as int))
}

/// Sorts keyed entries by key, stably (an insertion sort).
pub fn sort_keyed(v: Vec<(Vec<char>, usize)>) -> (r: Vec<(Vec<char>, usize)>)
    ensures
        keyed_view(r@) == sort_by_key(keyed_view(v@)),
{
    let ghost input = keyed_view(v@);
    let mut out: Vec<(Vec<char>, usize)> = Vec::new();
    let mut rest = v;
    let mut taken: usize = 0;
    let n = rest.len();
    assert(keyed_view(out@) =~= sort_by_key(input.take(0)));
    while taken < n
        invariant
            n == input.len(),
            taken <= n,
            rest@.len() == n,
            keyed_view(rest@) == input,
            keyed_view(out@) == sort_by_key(input.take(taken as int)),
        decreases n - taken,
    {
        let key = rest[taken].0.clone();
        let idx = rest[taken].1;
        let ghost x: Keyed = (key@, idx as int);
        assert(input[taken as int] == x);
        let ghost t = keyed_view(out@);
        let mut j: usize = out.len();
        while j > 0 && !chars_le(out[j - 1].0.as_slice(), key.as_slice())
            invariant
                j <= out@.len(),
                t == keyed_view(out@),
                x.0 == key@,
                forall|m: int| j <= m < t.len() ==> !lex_le(#[trigger] t[m].0, x.0),
            decreases j,
        {
            assert(t[j - 1].0 == out@[j - 1].0@);
            j = j - 1;
        }
        proof {
            if j > 0 {
                assert(t[j - 1].0 == out@[j - 1].0@);
            }
            lemma_insert_by_key_at(t, x, j as int);
            assert(input.take(taken + 1).drop_last() =~= input.take(taken as int));
        }
        out.insert(j, (key, idx));
        assert(keyed_view(out@) =~= t.insert(j as int, x));
        taken = taken + 1;
    }
    assert(input.take(n as int) =~= input);
    out
}


/// Two strings that each come first are the same string.
pub proof fn lemma_lex_antisymmetric(a: Seq<char>, b: Seq<char>)
    requires
        lex_le(a, b),
        lex_le(b, a),
    ensures
        a == b,
    decreases a.len(),
{
    if a.len() > 0 && b.len() > 0 {
        lemma_lex_antisymmetric(a.skip(1), b.skip(1));
        assert(a =~= seq![a[0]] + a.skip(1));
        assert(b =~= seq![b[0]] + b.skip(1));
    }
}

/// The texts of a list of character vectors.
pub open spec fn char_views(v: Seq<Vec<char>>) -> Seq<Seq<char>> {
    v.map_values(|p: Vec<char>| p@)
}

/// Whether `s` is in strictly increasing order (so holds nothing twice).
pub open spec fn strictly_sorted(s: Seq<Seq<char>>) -> bool {
    forall|i: int, j: int| 0 <= i < j < s.len() ==> lex_le(#[trigger] s[i], #[trigger] s[j]) && s[i] != s[j]
}

/// Adds `x` to the strictly sorted `v`, unless it is there already.
pub fn insert_sorted(v: &mut Vec<Vec<char>>, x: Vec<char>)
    requires
        strictly_sorted(char_views(old(v)@)),
    ensures
        strictly_sorted(char_views(final(v)@)),
        forall|y: Seq<char>| char_views(final(v)@).contains(y) <==> (char_views(old(v)@).contains(y) || y == x@),
{
    let ghost old_v = char_views(v@);
    let mut i: usize = 0;
    while i < v.len() && chars_le(v[i].as_slice(), x.as_slice()) && !chars_eq_vec(&v[i], &x)
        invariant
            old_v == char_views(v@),
            i <= v@.len(),
            forall|k: int| 0 <= k < i ==> lex_le(#[trigger] old_v[k], x@) && old_v[k] != x@,
        decreases v.len() - i,
    {
        i = i + 1;
    }
    if i < v.len() && chars_eq_vec(&v[i], &x) {
        assert(old_v[i as int] == x@);
        return;
    }
    proof {
        if i < old_v.len() {
            lemma_lex_total(old_v[i as int], x@);
            assert(lex_le(x@, old_v[i as int]) && x@ != old_v[i as int]);
        }
    }
    let ghost xv = x@;
    v.insert(i, x);
    let ghost new_v = char_views(v@);
    assert(new_v =~= old_v.insert(i as int, xv));
    proof {
        assert forall|a: int, b: int| 0 <= a < b < new_v.len() implies lex_le(#[trigger] new_v[a], #[trigger] new_v[b])
            && new_v[a] != new_v[b] by {
            if b < i {
            } else if b == i {
                assert(new_v[b] == xv);
                assert(new_v[a] == old_v[a]);
            } else if a < i {
                assert(new_v[b] == old_v[b - 1]);
                assert(new_v[a] == old_v[a]);
                assert(lex_le(xv, old_v[i as int]));
                if b - 1 > i {
                    lemma_lex_transitive(xv, old_v[i as int], old_v[b - 1]);
                }
                lemma_lex_transitive(old_v[a], xv, old_v[b - 1]);
                if old_v[a] == old_v[b - 1] {
                    lemma_lex_antisymmetric(old_v[a], xv);
                }
            } else if a == i {
                assert(new_v[a] == xv);
                assert(new_v[b] == old_v[b - 1]);
                if b - 1 > i {
                    lemma_lex_transitive(xv, old_v[i as int], old_v[b - 1]);
                    if xv == old_v[b - 1] {
                        lemma_lex_antisymmetric(xv, old_v[i as int]);
                    }
                }
            } else {
                assert(new_v[a] == old_v[a - 1]);
                assert(new_v[b] == old_v[b - 1]);
            }
        }
        assert forall|y: Seq<char>| new_v.contains(y) <==> (old_v.contains(y) || y == xv) by {
            if new_v.contains(y) {
                let k = choose|k: int| 0 <= k < new_v.len() && new_v[k] == y;
                if k < i {
                    assert(old_v[k] == y);
                } else if k > i {
                    assert(old_v[k - 1] == y);
                }
            }
            if old_v.contains(y) {
                let k = choose|k: int| 0 <= k < old_v.len() && old_v[k] == y;
                if k < i {
                    assert(new_v[k] == y);
                } else {
                    assert(new_v[k + 1] == y);
                }
            }
            if y == xv {
                assert(new_v[i as int] == y);
            }
        }
    }
}

/// Removes `x` from the strictly sorted `v`, if it is there.
pub fn remove_sorted(v: &mut Vec<Vec<char>>, x: &Vec<char>)
    requires
        strictly_sorted(char_views(old(v)@)),
    ensures
        strictly_sorted(char_views(final(v)@)),
        forall|y: Seq<char>| char_views(final(v)@).contains(y) <==> (char_views(old(v)@).contains(y) && y != x@),
{
    let ghost old_v = char_views(v@);
    let mut i: usize = 0;
    while i < v.len()
        invariant
            old_v == char_views(v@),
            old_v == char_views(old(v)@),
            strictly_sorted(old_v),
            i <= v@.len(),
            forall|k: int| 0 <= k < i ==> old_v[k] != x@,
        decreases v.len() - i,
    {
        if chars_eq_vec(&v[i], x) {
            v.remove(i);
            let ghost new_v = char_views(v@);
            assert(new_v =~= old_v.remove(i as int));
            proof {
                assert forall|a: int, b: int| 0 <= a < b < new_v.len() implies lex_le(#[trigger] new_v[a], #[trigger] new_v[b])
                    && new_v[a] != new_v[b] by {
                    let a0 = if a < i { a } else { a + 1 };
                    let b0 = if b < i { b } else { b + 1 };
                    assert(new_v[a] == old_v[a0]);
                    assert(new_v[b] == old_v[b0]);
                    assert(lex_le(old_v[a0], old_v[b0]) && old_v[a0] != old_v[b0]);
                }
                assert forall|y: Seq<char>| new_v.contains(y) <==> (old_v.contains(y) && y != x@) by {
                    if new_v.contains(y) {
                        let k = choose|k: int| 0 <= k < new_v.len() && new_v[k] == y;
                        let k0 = if k < i { k } else { k + 1 };
                        assert(old_v[k0] == y);
                        assert(k0 != i);
                        if y == x@ {
                            assert(old_v[i as int] == x@);
                        }
                    }
                    if old_v.contains(y) && y != x@ {
                        let k = choose|k: int| 0 <= k < old_v.len() && old_v[k] == y;
                        if k < i {
                            assert(new_v[k] == y);
                        } else {
                            assert(k != i);
                            assert(new_v[k - 1] == y);
                        }
                    }
                }
            }
            return;
        }
        i = i + 1;
    }
    assert forall|y: Seq<char>| char_views(v@).contains(y) <==> (old_v.contains(y) && y != x@) by {
        if old_v.contains(y) && y == x@ {
            let k = choose|k: int| 0 <= k < old_v.len() && old_v[k] == y;
            assert(old_v[k] != x@);
        }
    }
}

/// Whether two character vectors hold the same text.
fn chars_eq_vec(a: &Vec<char>, b: &Vec<char>) -> (r: bool)
    ensures
        r == (a@ == b@),
{
    if a.len() != b.len() {
        return false;
    }
    let mut i: usize = 0;
    while i < a.len()
        invariant
            a@.len() == b@.len(),
            i <= a@.len(),
            forall|k: int| 0 <= k < i ==> a@[k] == b@[k],
        decreases a.len() - i,
    {
        if a[i] != b[i] {
            return false;
        }
        i = i + 1;
    }
    assert(a@ =~= b@);
    true
}

} // verus!
