//! A stable insertion sort, specified by the stable sort it computes.
use vstd::prelude::*;

verus! {

/// A total preorder on the views of `T`, with an executable comparison.
pub trait SortOrder<T: View> {
    spec fn le(a: T::V, b: T::V) -> bool;

    fn le_exec(a: &T, b: &T) -> (r: bool)
        ensures
            r == Self::le(a@, b@),
    ;
}

/// `x` placed after every element of `s` that is `<=` it, scanning from the end
/// (so equal elements keep their order).
pub open spec fn insert_sorted<V>(s: Seq<V>, x: V, le: spec_fn(V, V) -> bool) -> Seq<V>
    decreases s.len(),
{
    if s.len() == 0 {
        seq![x]
    } else if le(s.last(), x) {
        s.push(x)
    } else {
        insert_sorted(s.drop_last(), x, le).push(s.last())
    }
}

/// The stable sort of `s` under `le`.
pub open spec fn sorted_stable<V>(s: Seq<V>, le: spec_fn(V, V) -> bool) -> Seq<V>
    decreases s.len(),
{
    if s.len() == 0 {
        s
    } else {
        insert_sorted(sorted_stable(s.drop_last(), le), s.last(), le)
    }
}

pub open spec fn views<T: View>(s: Seq<T>) -> Seq<T::V> {
    s.map_values(|t: T| t@)
}

pub open spec fn order_of<T: View, O: SortOrder<T>>() -> spec_fn(T::V, T::V) -> bool {
    |a: T::V, b: T::V| O::le(a, b)
}

proof fn lemma_insert_at<V>(s: Seq<V>, x: V, le: spec_fn(V, V) -> bool, j: int)
    requires
        0 <= j <= s.len(),
        j == 0 || le(s[j - 1], x),
        forall|k: int| j <= k < s.len() ==> !le(#[trigger] s[k], x),
    ensures
        insert_sorted(s, x, le) == s.insert(j, x),
    decreases s.len(),
{
    if s.len() == 0 {
        assert(s.insert(j, x) =~= seq![x]);
    } else if j == s.len() {
        assert(s.insert(j, x) =~= s.push(x));
    } else {
        assert(!le(s[s.len() - 1], x));
        let d = s.drop_last();
        assert forall|k: int| j <= k < d.len() implies !le(#[trigger] d[k], x) by {
            assert(d[k] == s[k]);
        }
        if j > 0 {
            assert(d[j - 1] == s[j - 1]);
        }
        lemma_insert_at(d, x, le, j);
        assert(d.insert(j, x).push(s.last()) =~= s.insert(j, x));
    }
}

proof fn lemma_insert_members<V>(s: Seq<V>, x: V, le: spec_fn(V, V) -> bool)
    ensures
        insert_sorted(s, x, le).len() == s.len() + 1,
        forall|i: int|
            0 <= i < insert_sorted(s, x, le).len() ==> #[trigger] insert_sorted(s, x, le)[i] == x || s.contains(
                insert_sorted(s, x, le)[i],
            ),
    decreases s.len(),
{
    if s.len() > 0 && !le(s.last(), x) {
        let d = s.drop_last();
        lemma_insert_members(d, x, le);
        let r = insert_sorted(s, x, le);
        assert forall|i: int| 0 <= i < r.len() implies #[trigger] r[i] == x || s.contains(r[i]) by {
            if i < r.len() - 1 {
                let y = insert_sorted(d, x, le)[i];
                if y != x {
                    let j = choose|j: int| 0 <= j < d.len() && d[j] == y;
                    assert(s[j] == y);
                }
            } else {
                assert(s[s.len() - 1] == r[i]);
            }
        }
    } else if s.len() > 0 {
        let r = insert_sorted(s, x, le);
        assert forall|i: int| 0 <= i < r.len() implies #[trigger] r[i] == x || s.contains(r[i]) by {
            if i < s.len() {
                assert(s[i] == r[i]);
            }
        }
    }
}

/// Sorting keeps the length and only holds elements of the input.
pub proof fn lemma_sorted_members<V>(s: Seq<V>, le: spec_fn(V, V) -> bool)
    ensures
        sorted_stable(s, le).len() == s.len(),
        forall|i: int| 0 <= i < s.len() ==> s.contains(#[trigger] sorted_stable(s, le)[i]),
    decreases s.len(),
{
    if s.len() > 0 {
        let d = s.drop_last();
        lemma_sorted_members(d, le);
        let p = sorted_stable(d, le);
        lemma_insert_members(p, s.last(), le);
        let r = sorted_stable(s, le);
        assert forall|i: int| 0 <= i < s.len() implies s.contains(#[trigger] r[i]) by {
            if r[i] == s.last() {
                assert(s[s.len() - 1] == r[i]);
            } else {
                let j = choose|j: int| 0 <= j < p.len() && p[j] == r[i];
                let k = choose|k: int| 0 <= k < d.len() && d[k] == p[j];
                assert(s[k] == r[i]);
            }
        }
    }
}

/// `le` compares any two values and chains.
pub open spec fn total_preorder<V>(le: spec_fn(V, V) -> bool) -> bool {
    &&& forall|a: V, b: V| #[trigger] le(a, b) || le(b, a)
    &&& forall|a: V, b: V, c: V| #[trigger] le(a, b) && #[trigger] le(b, c) ==> le(a, c)
}

/// Every element of `s` is `le` every later one.
pub open spec fn sorted_by<V>(s: Seq<V>, le: spec_fn(V, V) -> bool) -> bool {
    forall|i: int, j: int| 0 <= i < j < s.len() ==> le(#[trigger] s[i], #[trigger] s[j])
}

proof fn lemma_insert_keeps_order<V>(s: Seq<V>, x: V, le: spec_fn(V, V) -> bool)
    requires
        total_preorder(le),
        sorted_by(s, le),
    ensures
        sorted_by(insert_sorted(s, x, le), le),
    decreases s.len(),
{
    let r = insert_sorted(s, x, le);
    if s.len() == 0 {
    } else if le(s.last(), x) {
        assert forall|i: int, j: int| 0 <= i < j < r.len() implies le(#[trigger] r[i], #[trigger] r[j]) by {
            if j == s.len() {
                assert(le(s[i], s[s.len() - 1]) || i == s.len() - 1);
                assert(le(s[i], s.last()));
            }
        }
    } else {
        let d = s.drop_last();
        assert(sorted_by(d, le)) by {
            assert forall|i: int, j: int| 0 <= i < j < d.len() implies le(#[trigger] d[i], #[trigger] d[j]) by {
                assert(d[i] == s[i] && d[j] == s[j]);
            }
        }
        lemma_insert_keeps_order(d, x, le);
        lemma_insert_members(d, x, le);
        let p = insert_sorted(d, x, le);
        assert(le(x, s.last()));
        assert forall|i: int, j: int| 0 <= i < j < r.len() implies le(#[trigger] r[i], #[trigger] r[j]) by {
            if j == r.len() - 1 {
                assert(r[j] == s.last());
                assert(r[i] == p[i]);
                if p[i] != x {
                    let k = choose|k: int| 0 <= k < d.len() && d[k] == p[i];
                    assert(s[k] == p[i]);
                    assert(le(s[k], s[s.len() - 1]));
                }
            } else {
                assert(r[i] == p[i] && r[j] == p[j]);
            }
        }
    }
}

/// A stable sort under a total preorder leaves its values in order.
pub proof fn lemma_sorted_stable_is_sorted<V>(s: Seq<V>, le: spec_fn(V, V) -> bool)
    requires
        total_preorder(le),
    ensures
        sorted_by(sorted_stable(s, le), le),
    decreases s.len(),
{
    if s.len() > 0 {
        lemma_sorted_stable_is_sorted(s.drop_last(), le);
        lemma_insert_keeps_order(sorted_stable(s.drop_last(), le), s.last(), le);
    }
}

/// `v` sorted stably by `O`.
pub fn stable_sort<T: View, O: SortOrder<T>>(v: Vec<T>) -> (r: Vec<T>)
    ensures
        views(r@) == sorted_stable(views(v@), order_of::<T, O>()),
{
    let ghost orig = views(v@);
    let ghost le = order_of::<T, O>();
    let mut rest = v;
    let mut out: Vec<T> = Vec::new();
    let ghost mut done: int = 0;
    assert(views(out@) =~= sorted_stable(orig.subrange(0, 0), le));
    assert(views(rest@) =~= orig.subrange(0, orig.len() as int));
    while rest.len() > 0
        invariant
            0 <= done <= orig.len(),
            le == order_of::<T, O>(),
            views(rest@) == orig.subrange(done, orig.len() as int),
            views(out@) == sorted_stable(orig.subrange(0, done), le),
        decreases rest.len(),
    {
        let ghost before = rest@;
        assert(views(before).len() == before.len());
        assert(done < orig.len());
        assert(views(before)[0] == orig[done]);
        let x = rest.remove(0);
        assert(views(rest@) =~= orig.subrange(done + 1, orig.len() as int)) by {
            assert(rest@ =~= before.subrange(1, before.len() as int));
            assert forall|k: int| 0 <= k < rest@.len() implies views(rest@)[k] == orig.subrange(done + 1, orig.len() as int)[k] by {
                assert(views(before)[k + 1] == orig[done + 1 + k]);
            }
        }
        assert(x@ == orig[done]) by {
            assert(views(before)[0] == before[0]@);
        }
        let mut j = out.len();
        while j > 0 && !O::le_exec(&out[j - 1], &x)
            invariant
                j <= out.len(),
                le == order_of::<T, O>(),
                forall|k: int| j <= k < out.len() ==> !le(#[trigger] views(out@)[k], x@),
            decreases j,
        {
            j -= 1;
        }
        let ghost sorted_before = views(out@);
        proof {
            if j > 0 {
                assert(le(sorted_before[j - 1], x@));
            }
            lemma_insert_at(sorted_before, x@, le, j as int);
            let pre = orig.subrange(0, done + 1);
            assert(pre.drop_last() =~= orig.subrange(0, done));
            assert(pre.last() == x@);
        }
        let ghost out_before = out@;
        out.insert(j, x);
        assert(views(out@) =~= sorted_before.insert(j as int, x@)) by {
            assert(out@ =~= out_before.insert(j as int, x));
        }
        proof {
            done = done + 1;
        }
    }
    assert(orig.subrange(0, done) =~= orig);
    out
}

} // verus!
