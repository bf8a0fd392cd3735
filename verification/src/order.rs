//! Lexicographic order on character sequences and a stable sort by key.
//!
//! Strings compare as `String`'s `Ord` does: byte-wise on UTF-8, which is the
//! same as comparing code points one by one.

use vstd::prelude::*;
use crate::text::{chars_of, string_views};

verus! {

/// `a` sorts strictly before `b`, comparing code points left to right, a
/// proper prefix first.
pub open spec fn seq_less(a: Seq<char>, b: Seq<char>) -> bool
    decreases a.len(),
{
    if a.len() == 0 {
        b.len() > 0
    } else if b.len() == 0 {
        false
    } else if a[0] != b[0] {
        a[0] < b[0]
    } else {
        seq_less(a.drop_first(), b.drop_first())
    }
}

/// Nothing sorts before itself.
pub proof fn lemma_less_irreflexive(a: Seq<char>)
    ensures
        !seq_less(a, a),
    decreases a.len(),
{
    if a.len() > 0 {
        lemma_less_irreflexive(a.drop_first());
    }
}

/// Two different sequences are ordered one way or the other, and never both.
pub proof fn lemma_less_total(a: Seq<char>, b: Seq<char>)
    ensures
        a != b ==> (seq_less(a, b) || seq_less(b, a)),
        !(seq_less(a, b) && seq_less(b, a)),
    decreases a.len(),
{
    if a.len() > 0 && b.len() > 0 {
        lemma_less_total(a.drop_first(), b.drop_first());
        if a[0] == b[0] && a.drop_first() == b.drop_first() {
            assert(a =~= seq![a[0]] + a.drop_first());
            assert(b =~= seq![b[0]] + b.drop_first());
        }
    } else if a.len() == 0 && b.len() == 0 {
        assert(a =~= b);
    }
}

/// The order is transitive.
pub proof fn lemma_less_transitive(a: Seq<char>, b: Seq<char>, c: Seq<char>)
    requires
        seq_less(a, b),
        seq_less(b, c),
    ensures
        seq_less(a, c),
    decreases a.len(),
{
    if a.len() > 0 && b.len() > 0 && c.len() > 0 && a[0] == b[0] && b[0] == c[0] {
        lemma_less_transitive(a.drop_first(), b.drop_first(), c.drop_first());
    }
}

/// Whether `a` sorts strictly before `b`.
pub fn chars_less(a: &Vec<char>, b: &Vec<char>) -> (r: bool)
    ensures
        r == seq_less(a@, b@),
{
    let mut i: usize = 0;
    assert(a@.subrange(0, a@.len() as int) =~= a@);
    assert(b@.subrange(0, b@.len() as int) =~= b@);
    while i < a.len() && i < b.len() && a[i] == b[i]
        invariant
            0 <= i <= a@.len(),
            i <= b@.len(),
            seq_less(a@, b@) == seq_less(a@.subrange(i as int, a@.len() as int), b@.subrange(i as int, b@.len() as int)),
        decreases a@.len() - i,
    {
        assert(a@.subrange(i as int, a@.len() as int).drop_first() =~= a@.subrange(i + 1, a@.len() as int));
        assert(b@.subrange(i as int, b@.len() as int).drop_first() =~= b@.subrange(i + 1, b@.len() as int));
        i += 1;
    }
    if i == a.len() {
        i < b.len()
    } else if i == b.len() {
        false
    } else {
        a[i] < b[i]
    }
}

/// Whether the string `a` sorts strictly before `b`.
pub fn str_less(a: &str, b: &str) -> (r: bool)
    ensures
        r == seq_less(a@, b@),
{
    let av = chars_of(a);
    let bv = chars_of(b);
    chars_less(&av, &bv)
}

/// A value with a string key to sort by.
pub trait SortKey {
    /// The key, as a character sequence.
    spec fn sort_key(&self) -> Seq<char>;

    /// Whether this value's key sorts strictly before the other's.
    fn key_less(&self, other: &Self) -> (r: bool)
        ensures
            r == seq_less(self.sort_key(), other.sort_key());
}

impl SortKey for String {
    open spec fn sort_key(&self) -> Seq<char> {
        self@
    }

    fn key_less(&self, other: &Self) -> (r: bool) {
        str_less(self.as_str(), other.as_str())
    }
}

/// `x` inserted into `s` after every element whose key does not sort after
/// its own (stable insertion).
pub open spec fn sorted_insert<T: SortKey>(s: Seq<T>, x: T) -> Seq<T>
    decreases s.len(),
{
    if s.len() == 0 {
        seq![x]
    } else if seq_less(x.sort_key(), s.last().sort_key()) {
        sorted_insert(s.drop_last(), x).push(s.last())
    } else {
        s.push(x)
    }
}

/// The stable sort of `s` by key (insertion sort, element by element).
pub open spec fn stable_sort<T: SortKey>(s: Seq<T>) -> Seq<T>
    decreases s.len(),
{
    if s.len() == 0 {
        Seq::empty()
    } else {
        sorted_insert(stable_sort(s.drop_last()), s.last())
    }
}

/// No element sorts before an earlier one.
pub open spec fn is_sorted<T: SortKey>(s: Seq<T>) -> bool {
    forall|i: int, j: int| 0 <= i < j < s.len() ==> !seq_less(#[trigger] s[j].sort_key(), #[trigger] s[i].sort_key())
}

proof fn lemma_sorted_insert<T: SortKey>(s: Seq<T>, x: T)
    requires
        is_sorted(s),
    ensures
        is_sorted(sorted_insert(s, x)),
        sorted_insert(s, x).to_multiset() == s.to_multiset().insert(x),
        sorted_insert(s, x).len() == s.len() + 1,
        forall|k: int|
            0 <= k < sorted_insert(s, x).len() ==> (#[trigger] sorted_insert(s, x)[k] == x || s.contains(
                sorted_insert(s, x)[k],
            )),
    decreases s.len(),
{
    broadcast use vstd::seq_lib::group_to_multiset_ensures;
    if s.len() == 0 {
        assert(seq![x].to_multiset() =~= vstd::multiset::Multiset::<T>::empty().insert(x)) by {
            assert(seq![x] =~= Seq::<T>::empty().push(x));
        }
    } else {
        let last = s.last();
        let init = s.drop_last();
        assert(is_sorted(init)) by {
            assert forall|i: int, j: int| 0 <= i < j < init.len() implies !seq_less(
                #[trigger] init[j].sort_key(),
                #[trigger] init[i].sort_key(),
            ) by {
                assert(init[i] == s[i] && init[j] == s[j]);
            }
        }
        if seq_less(x.sort_key(), last.sort_key()) {
            lemma_sorted_insert(init, x);
            let mid = sorted_insert(init, x);
            let r = mid.push(last);
            assert(s =~= init.push(last));
            assert forall|i: int, j: int| 0 <= i < j < r.len() implies !seq_less(
                #[trigger] r[j].sort_key(),
                #[trigger] r[i].sort_key(),
            ) by {
                if j == r.len() - 1 {
                    assert(r[j] == last);
                    assert(r[i] == mid[i]);
                    if mid[i] == x {
                        lemma_less_total(x.sort_key(), last.sort_key());
                    } else {
                        let k = choose|k: int| 0 <= k < init.len() && init[k] == mid[i];
                        assert(s[k] == init[k]);
                        assert(s[s.len() - 1] == last);
                    }
                } else {
                    assert(r[i] == mid[i] && r[j] == mid[j]);
                }
            }
            assert(r.to_multiset() == mid.to_multiset().insert(last));
            assert(s.to_multiset() == init.to_multiset().insert(last));
            assert(r.to_multiset() =~= s.to_multiset().insert(x));
            assert forall|k: int| 0 <= k < r.len() implies (#[trigger] r[k] == x || s.contains(r[k])) by {
                if k == r.len() - 1 {
                    assert(s[s.len() - 1] == r[k]);
                } else {
                    assert(r[k] == mid[k]);
                    if mid[k] != x {
                        let m = choose|m: int| 0 <= m < init.len() && init[m] == mid[k];
                        assert(s[m] == init[m]);
                    }
                }
            }
        } else {
            let r = s.push(x);
            assert forall|i: int, j: int| 0 <= i < j < r.len() implies !seq_less(
                #[trigger] r[j].sort_key(),
                #[trigger] r[i].sort_key(),
            ) by {
                if j == r.len() - 1 {
                    assert(r[i] == s[i]);
                    if i < s.len() - 1 {
                        assert(!seq_less(s[s.len() - 1].sort_key(), s[i].sort_key()));
                        lemma_less_total(s[i].sort_key(), s[s.len() - 1].sort_key());
                        if seq_less(x.sort_key(), s[i].sort_key()) {
                            if s[i].sort_key() == s[s.len() - 1].sort_key() {
                            } else {
                                lemma_less_transitive(x.sort_key(), s[i].sort_key(), s[s.len() - 1].sort_key());
                            }
                        }
                    }
                } else {
                    assert(r[i] == s[i] && r[j] == s[j]);
                }
            }
            assert forall|k: int| 0 <= k < r.len() implies (#[trigger] r[k] == x || s.contains(r[k])) by {
                if k < s.len() {
                    assert(r[k] == s[k]);
                }
            }
        }
    }
}

/// The stable sort is sorted and holds exactly the elements it was given.
pub proof fn lemma_stable_sort_sorted_permutation<T: SortKey>(s: Seq<T>)
    ensures
        is_sorted(stable_sort(s)),
        stable_sort(s).to_multiset() == s.to_multiset(),
        stable_sort(s).len() == s.len(),
    decreases s.len(),
{
    broadcast use vstd::seq_lib::group_to_multiset_ensures;
    if s.len() > 0 {
        lemma_stable_sort_sorted_permutation(s.drop_last());
        lemma_sorted_insert(stable_sort(s.drop_last()), s.last());
        assert(s =~= s.drop_last().push(s.last()));
    }
}

/// Sorts by key, keeping the input order among equal keys.
pub fn sort_by_key<T: SortKey>(v: Vec<T>) -> (r: Vec<T>)
    ensures
        r@ == stable_sort(v@),
{
    let mut src = v;
    let ghost orig = src@;
    let n = src.len();
    let mut out: Vec<T> = Vec::new();
    let mut done: usize = 0;
    assert(orig.subrange(0, orig.len() as int) =~= orig);
    while src.len() > 0
        invariant
            n == orig.len(),
            done + src@.len() == orig.len(),
            src@ == orig.subrange(done as int, orig.len() as int),
            out@ == stable_sort(orig.take(done as int)),
        decreases src@.len(),
    {
        let x = src.remove(0);
        assert(orig.take(done + 1).drop_last() =~= orig.take(done as int));
        assert(orig.take(done + 1).last() == x);
        let ghost before = out@;
        let mut j = out.len();
        assert(before.take(j as int) =~= before);
        assert(before.skip(j as int) =~= Seq::<T>::empty());
        assert(sorted_insert(before, x) =~= sorted_insert(before.take(j as int), x) + before.skip(j as int));
        while j > 0 && x.key_less(&out[j - 1])
            invariant
                j <= out@.len(),
                out@ == before,
                sorted_insert(before, x) == sorted_insert(before.take(j as int), x) + before.skip(j as int),
            decreases j,
        {
            let ghost t = before.take(j as int);
            assert(t.drop_last() =~= before.take(j - 1));
            assert(t.last() == before[j - 1]);
            assert(sorted_insert(t, x) == sorted_insert(before.take(j - 1), x).push(before[j - 1]));
            assert(before.skip(j - 1) =~= seq![before[j - 1]] + before.skip(j as int));
            assert(sorted_insert(before.take(j - 1), x).push(before[j - 1]) + before.skip(j as int) =~= sorted_insert(
                before.take(j - 1),
                x,
            ) + before.skip(j - 1));
            j -= 1;
        }
        proof {
            let t = before.take(j as int);
            if j > 0 {
                assert(t.last() == before[j - 1]);
            }
            assert(sorted_insert(t, x) == t.push(x));
        }
        out.insert(j, x);
        assert(out@ =~= before.take(j as int).push(x) + before.skip(j as int));
        done += 1;
        assert(orig.subrange(done as int, orig.len() as int) =~= src@);
    }
    assert(orig.take(done as int) =~= orig);
    out
}

/// Sorts strings in ascending order.
pub fn sort_strings(v: Vec<String>) -> (r: Vec<String>)
    ensures
        r@ == stable_sort(v@),
        is_sorted(r@),
        r@.to_multiset() == v@.to_multiset(),
{
    proof {
        lemma_stable_sort_sorted_permutation(v@);
    }
    sort_by_key(v)
}


/// `x` inserted into sorted character sequences after every one that does
/// not sort after it.
pub open spec fn insert_view(s: Seq<Seq<char>>, x: Seq<char>) -> Seq<Seq<char>>
    decreases s.len(),
{
    if s.len() == 0 {
        seq![x]
    } else if seq_less(x, s.last()) {
        insert_view(s.drop_last(), x).push(s.last())
    } else {
        s.push(x)
    }
}

/// The stable sort of character sequences.
pub open spec fn sort_views(s: Seq<Seq<char>>) -> Seq<Seq<char>>
    decreases s.len(),
{
    if s.len() == 0 {
        Seq::empty()
    } else {
        insert_view(sort_views(s.drop_last()), s.last())
    }
}

proof fn lemma_insert_view(s: Seq<String>, x: String)
    ensures
        string_views(sorted_insert(s, x)) == insert_view(string_views(s), x@),
    decreases s.len(),
{
    let v = string_views(s);
    if s.len() == 0 {
        assert(string_views(seq![x]) =~= seq![x@]);
    } else {
        assert(v.drop_last() =~= string_views(s.drop_last()));
        assert(v.last() == s.last()@);
        if seq_less(x@, s.last()@) {
            lemma_insert_view(s.drop_last(), x);
            assert(string_views(sorted_insert(s.drop_last(), x).push(s.last())) =~= string_views(
                sorted_insert(s.drop_last(), x),
            ).push(s.last()@));
        } else {
            assert(string_views(s.push(x)) =~= v.push(x@));
        }
    }
}

/// Sorting strings and then taking their characters is sorting their
/// characters.
pub proof fn lemma_sort_views(s: Seq<String>)
    ensures
        string_views(stable_sort(s)) == sort_views(string_views(s)),
    decreases s.len(),
{
    if s.len() == 0 {
        assert(string_views(Seq::<String>::empty()) =~= Seq::<Seq<char>>::empty());
    } else {
        lemma_sort_views(s.drop_last());
        lemma_insert_view(stable_sort(s.drop_last()), s.last());
        assert(string_views(s).drop_last() =~= string_views(s.drop_last()));
    }
}

} // verus!
