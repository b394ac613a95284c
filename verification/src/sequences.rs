use crate::strings::{seq_lt, str_eq};
use vstd::prelude::*;

verus! {

/// Records ordered by a byte-string key.
pub trait Keyed: View + Sized {
    /// The key of a record, compared byte-wise.
    spec fn key(v: Self::V) -> Seq<u8>;

    fn key_lt(&self, other: &Self) -> (r: bool)
        ensures
            r == seq_lt(Self::key(self@), Self::key(other@)),
    ;

    fn key_eq(&self, other: &Self) -> (r: bool)
        ensures
            r == (Self::key(self@) == Self::key(other@)),
    ;
}

/// The views of a sequence of values.
pub open spec fn views<T: View>(s: Seq<T>) -> Seq<T::V> {
    s.map_values(|x: T| x@)
}

/// The views of a sequence of strings.
pub open spec fn strs(s: Seq<String>) -> Seq<Seq<char>> {
    s.map_values(|x: String| x@)
}

/// `x` inserted into `s` after every record whose key is not greater than its own.
pub open spec fn insert_by_key<T: Keyed>(s: Seq<T::V>, x: T::V) -> Seq<T::V>
    decreases s.len(),
{
    if s.len() == 0 {
        seq![x]
    } else if seq_lt(T::key(x), T::key(s.last())) {
        insert_by_key::<T>(s.drop_last(), x).push(s.last())
    } else {
        s.push(x)
    }
}

/// The records in ascending order of key; records with equal keys keep their
/// relative order (a stable sort).
pub open spec fn sort_by_key<T: Keyed>(s: Seq<T::V>) -> Seq<T::V>
    decreases s.len(),
{
    if s.len() == 0 {
        s
    } else {
        insert_by_key::<T>(sort_by_key::<T>(s.drop_last()), s.last())
    }
}

/// The records without those whose key equals the key of the record kept
/// just before them (the first of each run of equal keys stays).
pub open spec fn dedup_by_key<T: Keyed>(s: Seq<T::V>) -> Seq<T::V>
    decreases s.len(),
{
    if s.len() == 0 {
        s
    } else {
        let d = dedup_by_key::<T>(s.drop_last());
        if d.len() > 0 && T::key(d.last()) == T::key(s.last()) {
            d
        } else {
            d.push(s.last())
        }
    }
}

/// Inserting at position `i`, with all records from `i` on greater than `x` and
/// the one before not, is `insert_by_key`.
proof fn lemma_insert_by_key_at<T: Keyed>(s: Seq<T::V>, x: T::V, i: int)
    requires
        0 <= i <= s.len(),
        forall|k: int| i <= k < s.len() ==> seq_lt(T::key(x), T::key(#[trigger] s[k])),
        i > 0 ==> !seq_lt(T::key(x), T::key(s[i - 1])),
    ensures
        insert_by_key::<T>(s, x) == s.insert(i, x),
    decreases s.len(),
{
    if s.len() == 0 {
        assert(s.insert(i, x) =~= seq![x]);
    } else if i == s.len() {
        assert(s.insert(i, x) =~= s.push(x));
    } else {
        assert(seq_lt(T::key(x), T::key(s[s.len() - 1])));
        lemma_insert_by_key_at::<T>(s.drop_last(), x, i);
        assert(s.drop_last().insert(i, x).push(s.last()) =~= s.insert(i, x));
    }
}

/// Sorts records by key, keeping the relative order of records with equal keys.
pub fn sort_records<T: Keyed>(v: Vec<T>) -> (r: Vec<T>)
    ensures
        views(r@) == sort_by_key::<T>(views(v@)),
{
    let ghost orig = views(v@);
    let mut rest = v;
    let mut out: Vec<T> = Vec::new();
    let ghost mut k: int = 0;
    while rest.len() > 0
        invariant
            0 <= k <= orig.len(),
            views(rest@) == orig.subrange(k, orig.len() as int),
            views(out@) == sort_by_key::<T>(orig.subrange(0, k)),
        decreases rest.len(),
    {
        let ghost old_rest = rest@;
        let x = rest.remove(0);
        proof {
            assert(old_rest.len() > 0);
            assert(views(old_rest).len() == old_rest.len());
            assert(views(old_rest)[0] == x@);
            assert(k < orig.len());
            assert forall|m: int| 0 <= m < rest@.len() implies views(rest@)[m] == orig[k + 1 + m] by {
                assert(rest@[m] == old_rest[m + 1]);
                assert(views(old_rest)[m + 1] == orig.subrange(k, orig.len() as int)[m + 1]);
            }
            assert(views(rest@) =~= orig.subrange(k + 1, orig.len() as int));
        }
        let mut i = out.len();
        while i > 0 && x.key_lt(&out[i - 1])
            invariant
                i <= out@.len(),
                forall|m: int| i <= m < out@.len() ==> seq_lt(T::key(x@), T::key(#[trigger] out@[m]@)),
            decreases i,
        {
            i -= 1;
        }
        let ghost before = views(out@);
        proof {
            let s = views(out@);
            assert forall|m: int| i <= m < s.len() implies seq_lt(T::key(x@), T::key(#[trigger] s[m])) by {
                assert(s[m] == out@[m]@);
            }
            if i > 0 {
                assert(s[i - 1] == out@[i - 1]@);
            }
            lemma_insert_by_key_at::<T>(s, x@, i as int);
            let p = orig.subrange(0, k + 1);
            assert(p.drop_last() =~= orig.subrange(0, k));
            assert(p.last() == x@);
        }
        out.insert(i, x);
        proof {
            assert(views(out@) =~= before.insert(i as int, x@));
            k = k + 1;
        }
    }
    proof {
        assert(orig.subrange(0, k) =~= orig);
    }
    out
}

/// Removes each record whose key equals that of the record kept before it.
pub fn dedup_records<T: Keyed>(v: Vec<T>) -> (r: Vec<T>)
    ensures
        views(r@) == dedup_by_key::<T>(views(v@)),
{
    let ghost orig = views(v@);
    let mut rest = v;
    let mut out: Vec<T> = Vec::new();
    let ghost mut k: int = 0;
    while rest.len() > 0
        invariant
            0 <= k <= orig.len(),
            views(rest@) == orig.subrange(k, orig.len() as int),
            views(out@) == dedup_by_key::<T>(orig.subrange(0, k)),
        decreases rest.len(),
    {
        let ghost old_rest = rest@;
        let x = rest.remove(0);
        proof {
            assert(old_rest.len() > 0);
            assert(views(old_rest).len() == old_rest.len());
            assert(views(old_rest)[0] == x@);
            assert(k < orig.len());
            assert forall|m: int| 0 <= m < rest@.len() implies views(rest@)[m] == orig[k + 1 + m] by {
                assert(rest@[m] == old_rest[m + 1]);
                assert(views(old_rest)[m + 1] == orig.subrange(k, orig.len() as int)[m + 1]);
            }
            assert(views(rest@) =~= orig.subrange(k + 1, orig.len() as int));
        }
        let n = out.len();
        let keep = n == 0 || !x.key_eq(&out[n - 1]);
        proof {
            let p = orig.subrange(0, k + 1);
            assert(p.drop_last() =~= orig.subrange(0, k));
            assert(p.last() == x@);
            if n > 0 {
                assert(views(out@).last() == out@[n - 1]@);
            }
        }
        if keep {
            out.push(x);
            proof {
                assert(views(out@) =~= dedup_by_key::<T>(orig.subrange(0, k)).push(x@));
            }
        }
        proof {
            k = k + 1;
        }
    }
    proof {
        assert(orig.subrange(0, k) =~= orig);
    }
    out
}

/// Whether a string occurs among the given ones.
pub fn contains_str(v: &Vec<String>, s: &String) -> (r: bool)
    ensures
        r == strs(v@).contains(s@),
{
    let mut i: usize = 0;
    while i < v.len()
        invariant
            i <= v@.len(),
            forall|k: int| 0 <= k < i ==> v@[k]@ != s@,
        decreases v@.len() - i,
    {
        if str_eq(&v[i], s) {
            proof {
                assert(strs(v@)[i as int] == s@);
            }
            return true;
        }
        i += 1;
    }
    proof {
        assert forall|k: int| 0 <= k < strs(v@).len() implies strs(v@)[k] != s@ by {
            assert(strs(v@)[k] == v@[k]@);
        }
    }
    false
}

/// One more element of a prefix, filtered.
pub proof fn lemma_filter_step<A>(s: Seq<A>, k: int, p: spec_fn(A) -> bool)
    requires
        0 <= k < s.len(),
    ensures
        s.subrange(0, k + 1).filter(p) == (if p(s[k]) {
            s.subrange(0, k).filter(p).push(s[k])
        } else {
            s.subrange(0, k).filter(p)
        }),
{
    reveal(Seq::filter);
    let t = s.subrange(0, k + 1);
    assert(t.drop_last() =~= s.subrange(0, k));
}

/// Values that can be copied with the same view.
pub trait Duplicate: View + Sized {
    fn duplicate(&self) -> (r: Self)
        ensures
            r@ == self@,
    ;
}

/// A copy of each value, in order.
pub fn duplicate_all<T: Duplicate>(v: &Vec<T>) -> (r: Vec<T>)
    ensures
        views(r@) == views(v@),
{
    let mut out: Vec<T> = Vec::new();
    let mut k: usize = 0;
    while k < v.len()
        invariant
            k <= v@.len(),
            views(out@) == views(v@).subrange(0, k as int),
        decreases v@.len() - k,
    {
        let ghost prev = out@;
        out.push(v[k].duplicate());
        proof {
            assert(views(out@) =~= views(prev).push(v@[k as int]@));
            assert(views(v@).subrange(0, k + 1) =~= views(v@).subrange(0, k as int).push(v@[k as int]@));
        }
        k += 1;
    }
    proof {
        assert(views(v@).subrange(0, v@.len() as int) =~= views(v@));
    }
    out
}

/// Moving the first element out of a vector: the rest are its views from the next one on.
pub proof fn lemma_take_first<T: View>(orig: Seq<T::V>, before: Seq<T>, after: Seq<T>, x: T, k: int)
    requires
        0 <= k <= orig.len(),
        views(before) == orig.subrange(k, orig.len() as int),
        before.len() > 0,
        x == before[0],
        after == before.subrange(1, before.len() as int),
    ensures
        k < orig.len(),
        orig[k] == x@,
        views(after) == orig.subrange(k + 1, orig.len() as int),
{
    assert(views(before).len() == before.len());
    assert(views(before)[0] == x@);
    assert forall|m: int| 0 <= m < after.len() implies views(after)[m] == orig[k + 1 + m] by {
        assert(after[m] == before[m + 1]);
        assert(views(after)[m] == after[m]@);
        assert(views(before)[m + 1] == before[m + 1]@);
        assert(views(before)[m + 1] == orig.subrange(k, orig.len() as int)[m + 1]);
    }
    assert(views(after) =~= orig.subrange(k + 1, orig.len() as int));
}

/// Filtering keeps exactly a prefix when the predicate holds on it and nowhere after.
pub proof fn lemma_filter_prefix<A>(s: Seq<A>, p: spec_fn(A) -> bool, k: int)
    requires
        0 <= k <= s.len(),
        forall|i: int| 0 <= i < k ==> p(#[trigger] s[i]),
        forall|i: int| k <= i < s.len() ==> !p(#[trigger] s[i]),
    ensures
        s.filter(p) == s.subrange(0, k),
    decreases s.len(),
{
    reveal(Seq::filter);
    if s.len() > 0 {
        let d = s.drop_last();
        if k == s.len() {
            lemma_filter_prefix(d, p, k - 1);
            assert(s.subrange(0, k) =~= s.subrange(0, k - 1).push(s.last()));
            assert(d.subrange(0, k - 1) =~= s.subrange(0, k - 1));
        } else {
            lemma_filter_prefix(d, p, k);
            assert(d.subrange(0, k) =~= s.subrange(0, k));
        }
    }
}

/// Filtering keeps exactly a suffix when the predicate fails before it and holds on it.
pub proof fn lemma_filter_suffix<A>(s: Seq<A>, p: spec_fn(A) -> bool, k: int)
    requires
        0 <= k <= s.len(),
        forall|i: int| 0 <= i < k ==> !p(#[trigger] s[i]),
        forall|i: int| k <= i < s.len() ==> p(#[trigger] s[i]),
    ensures
        s.filter(p) == s.subrange(k, s.len() as int),
    decreases s.len(),
{
    reveal(Seq::filter);
    if s.len() > 0 {
        let d = s.drop_last();
        if k == s.len() {
            lemma_filter_suffix(d, p, k - 1);
            assert(d.subrange(k - 1, d.len() as int) =~= Seq::<A>::empty());
            assert(s.subrange(k, s.len() as int) =~= Seq::<A>::empty());
        } else {
            lemma_filter_suffix(d, p, k);
            assert(s.subrange(k, s.len() as int) =~= d.subrange(k, d.len() as int).push(s.last()));
        }
    } else {
        assert(s.subrange(k, s.len() as int) =~= s);
    }
}

/// The first string that repeats an earlier one.
pub open spec fn first_duplicate(s: Seq<Seq<char>>) -> Option<Seq<char>>
    decreases s.len(),
{
    if s.len() == 0 {
        None
    } else {
        match first_duplicate(s.drop_last()) {
            Some(d) => Some(d),
            None => if s.drop_last().contains(s.last()) {
                Some(s.last())
            } else {
                None
            },
        }
    }
}

/// The first string of `items` that repeats an earlier one; `None` when all differ.
pub fn find_duplicate(items: &[String]) -> (r: Option<&String>)
    ensures
        match first_duplicate(strs(items@)) {
            Some(d) => r matches Some(x) && x@ == d,
            None => r is None,
        },
{
    let n = items.len();
    let mut i: usize = 0;
    while i < n
        invariant
            i <= n,
            n == items@.len(),
            first_duplicate(strs(items@).subrange(0, i as int)) is None,
        decreases n - i,
    {
        let ghost pre = strs(items@).subrange(0, i as int);
        let ghost cur = strs(items@).subrange(0, i + 1);
        proof {
            assert(cur.drop_last() =~= pre);
            assert(cur.last() == items@[i as int]@);
        }
        let mut j: usize = 0;
        while j < i
            invariant
                j <= i < n,
                n == items@.len(),
                pre == strs(items@).subrange(0, i as int),
                cur.drop_last() == pre,
                cur.last() == items@[i as int]@,
                first_duplicate(pre) is None,
                cur == strs(items@).subrange(0, i + 1),
                forall|k: int| 0 <= k < j ==> pre[k] != items@[i as int]@,
            decreases i - j,
        {
            if str_eq(&items[j], &items[i]) {
                proof {
                    assert(pre[j as int] == items@[i as int]@);
                    assert(cur.drop_last()[j as int] == cur.last());
                    assert(cur.drop_last().contains(cur.last()));
                    assert(first_duplicate(cur) == Some(items@[i as int]@));
                    lemma_first_duplicate_prefix(strs(items@), i as int + 1);
                }
                return Some(&items[i]);
            }
            j += 1;
        }
        proof {
            assert(!cur.drop_last().contains(cur.last()));
        }
        i += 1;
    }
    proof {
        assert(strs(items@).subrange(0, n as int) =~= strs(items@));
    }
    None
}

/// Once a prefix holds a duplicate, the whole sequence reports that one.
proof fn lemma_first_duplicate_prefix(s: Seq<Seq<char>>, k: int)
    requires
        0 <= k <= s.len(),
        first_duplicate(s.subrange(0, k)) is Some,
    ensures
        first_duplicate(s) == first_duplicate(s.subrange(0, k)),
    decreases s.len() - k,
{
    if k < s.len() {
        let t = s.subrange(0, k + 1);
        assert(t.drop_last() =~= s.subrange(0, k));
        lemma_first_duplicate_prefix(s, k + 1);
    } else {
        assert(s.subrange(0, k) =~= s);
    }
}

} // verus!
