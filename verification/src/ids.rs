//! Identifiers of records: how a registry finds one, and which one it hands
//! out next.

use vstd::prelude::*;

verus! {

/// Whether no identifier occurs twice.
pub open spec fn distinct(ids: Seq<u32>) -> bool {
    forall|i: int, j: int| 0 <= i < j < ids.len() ==> ids[i] != ids[j]
}

/// The first position of `id`, or the length where it does not occur.
pub open spec fn index_of(ids: Seq<u32>, id: u32) -> int
    decreases ids.len(),
{
    if ids.len() == 0 || ids[0] == id {
        0
    } else {
        1 + index_of(ids.drop_first(), id)
    }
}

/// Whether `id` is the smallest number that is no identifier in use.
pub open spec fn is_smallest_free(ids: Seq<u32>, id: u32) -> bool {
    &&& !ids.contains(id)
    &&& forall|k: u32| k < id ==> ids.contains(k)
}

/// The smallest number that is no identifier in use, where there is one.
pub open spec fn smallest_free(ids: Seq<u32>) -> u32 {
    choose|id: u32| is_smallest_free(ids, id)
}

/// The number that is the smallest free one is `smallest_free`.
pub proof fn lemma_smallest_free(ids: Seq<u32>, id: u32)
    requires
        is_smallest_free(ids, id),
    ensures
        smallest_free(ids) == id,
{
    let other = smallest_free(ids);
    assert(is_smallest_free(ids, other));
    if other < id {
        assert(ids.contains(other));
    } else if id < other {
        assert(ids.contains(id));
    }
}

/// What is left when the element at `i` is taken out and the last element
/// takes its place.
pub open spec fn swap_removed<T>(s: Seq<T>, i: int) -> Seq<T>
    recommends
        0 <= i < s.len(),
{
    s.update(i, s.last()).drop_last()
}

/// `index_of` is the least position that holds `id`, and is the length
/// exactly when `id` does not occur.
pub proof fn lemma_index_of(ids: Seq<u32>, id: u32)
    ensures
        0 <= index_of(ids, id) <= ids.len(),
        index_of(ids, id) < ids.len() ==> ids[index_of(ids, id)] == id,
        forall|k: int| 0 <= k < index_of(ids, id) ==> ids[k] != id,
        index_of(ids, id) < ids.len() <==> ids.contains(id),
    decreases ids.len(),
{
    if ids.len() == 0 || ids[0] == id {
        if ids.len() > 0 {
            assert(ids.contains(id));
        }
    } else {
        let rest = ids.drop_first();
        lemma_index_of(rest, id);
        assert forall|k: int| 0 <= k < index_of(ids, id) implies ids[k] != id by {
            if k > 0 {
                assert(ids[k] == rest[k - 1]);
            }
        }
        if index_of(rest, id) < rest.len() {
            assert(ids[index_of(ids, id)] == rest[index_of(rest, id)]);
            assert(ids.contains(id));
        }
        if ids.contains(id) {
            let j = choose|j: int| 0 <= j < ids.len() && ids[j] == id;
            assert(rest[j - 1] == id);
            assert(rest.contains(id));
        }
    }
}

/// A position is `index_of` when it is the least one that holds `id`.
pub proof fn lemma_index_of_is(ids: Seq<u32>, id: u32, n: int)
    requires
        0 <= n <= ids.len(),
        n < ids.len() ==> ids[n] == id,
        forall|k: int| 0 <= k < n ==> ids[k] != id,
    ensures
        index_of(ids, id) == n,
{
    lemma_index_of(ids, id);
    let m = index_of(ids, id);
    if m < n {
        assert(ids[m] != id);
    }
}

/// A sequence that holds every number below `n` has at least `n` elements.
pub proof fn lemma_holds_all_below(ids: Seq<u32>, n: nat)
    requires
        n <= u32::MAX + 1,
        forall|k: u32| k < n ==> ids.contains(k),
    ensures
        n <= ids.len(),
    decreases n,
{
    if n > 0 {
        let top = (n - 1) as u32;
        assert(ids.contains(top));
        let i = choose|i: int| 0 <= i < ids.len() && ids[i] == top;
        let rest = ids.remove(i);
        assert forall|k: u32| k < n - 1 implies rest.contains(k) by {
            assert(ids.contains(k));
            let j = choose|j: int| 0 <= j < ids.len() && ids[j] == k;
            if j < i {
                assert(rest[j] == k);
            } else {
                assert(rest[j - 1] == k);
            }
        }
        lemma_holds_all_below(rest, (n - 1) as nat);
    }
}

/// Taking an element out in any way that keeps the others keeps the
/// identifiers distinct.
pub proof fn lemma_swap_removed(ids: Seq<u32>, i: int)
    requires
        distinct(ids),
        0 <= i < ids.len(),
    ensures
        distinct(swap_removed(ids, i)),
        !swap_removed(ids, i).contains(ids[i]),
        forall|k: u32| k != ids[i] ==> (swap_removed(ids, i).contains(k) <==> ids.contains(k)),
        swap_removed(ids, i).len() == ids.len() - 1,
{
    let r = swap_removed(ids, i);
    let last = ids.len() - 1;
    assert forall|a: int, b: int| 0 <= a < b < r.len() implies r[a] != r[b] by {
        let a0 = if a == i { last } else { a };
        let b0 = if b == i { last } else { b };
        assert(r[a] == ids[a0]);
        assert(r[b] == ids[b0]);
    }
    if r.contains(ids[i]) {
        let a = choose|a: int| 0 <= a < r.len() && r[a] == ids[i];
        let a0 = if a == i { last } else { a };
        assert(r[a] == ids[a0]);
    }
    assert forall|k: u32| k != ids[i] implies (r.contains(k) <==> ids.contains(k)) by {
        if r.contains(k) {
            let a = choose|a: int| 0 <= a < r.len() && r[a] == k;
            let a0 = if a == i { last } else { a };
            assert(ids[a0] == k);
        }
        if ids.contains(k) {
            let a = choose|a: int| 0 <= a < ids.len() && ids[a] == k;
            if a == last {
                assert(r[i] == k);
            } else {
                assert(r[a] == k);
            }
        }
    }
}

/// An identifier that is taken out is the next one handed out, where every
/// smaller number is in use.
pub proof fn removed_id_is_next(ids: Seq<u32>, id: u32)
    requires
        distinct(ids),
        ids.contains(id),
        forall|k: u32| k < id ==> ids.contains(k),
    ensures
        is_smallest_free(swap_removed(ids, index_of(ids, id)), id),
{
    lemma_index_of(ids, id);
    let i = index_of(ids, id);
    let rest = swap_removed(ids, i);
    lemma_swap_removed(ids, i);
    assert forall|k: u32| k < id implies rest.contains(k) by {
        assert(ids.contains(k));
        assert(k != ids[i]);
    }
}

/// The position of `id` among `ids`.
pub fn find_id(ids: &Vec<u32>, id: u32) -> (r: Option<usize>)
    ensures
        r is Some <==> ids@.contains(id),
        r is Some ==> r->0 == index_of(ids@, id) && r->0 < ids.len(),
{
    let mut i: usize = 0;
    while i < ids.len()
        invariant
            i <= ids.len(),
            forall|k: int| 0 <= k < i ==> ids@[k] != id,
        decreases ids.len() - i,
    {
        if ids[i] == id {
            proof {
                lemma_index_of_is(ids@, id, i as int);
                lemma_index_of(ids@, id);
            }
            return Some(i);
        }
        i += 1;
    }
    proof {
        lemma_index_of_is(ids@, id, i as int);
        lemma_index_of(ids@, id);
    }
    None
}

/// The smallest number that is not among `ids`.
pub fn first_free(ids: &Vec<u32>) -> (r: u32)
    requires
        ids.len() <= u32::MAX,
    ensures
        is_smallest_free(ids@, r),
{
    let mut id: u32 = 0;
    loop
        invariant
            ids.len() <= u32::MAX,
            forall|k: u32| k < id ==> ids@.contains(k),
        decreases u32::MAX - id,
    {
        match find_id(ids, id) {
            None => {
                return id;
            },
            Some(_) => {
                proof {
                    assert forall|k: u32| k < id + 1 implies ids@.contains(k) by {
                        if k == id {
                        }
                    }
                    lemma_holds_all_below(ids@, (id + 1) as nat);
                }
                id += 1;
            },
        }
    }
}

/// What holds of every two elements of a sequence, the earlier one first,
/// holds of every two elements that a filter keeps.
pub proof fn lemma_filter_pairs<A>(
    s: Seq<A>,
    pred: spec_fn(A) -> bool,
    rel: spec_fn(A, A) -> bool,
)
    requires
        forall|i: int, j: int| 0 <= i < j < s.len() ==> rel(s[i], s[j]),
    ensures
        forall|i: int, j: int|
            0 <= i < j < s.filter(pred).len() ==> rel(s.filter(pred)[i], s.filter(pred)[j]),
        forall|i: int| 0 <= i < s.filter(pred).len() ==> s.contains(#[trigger] s.filter(pred)[i]),
        s.filter(pred).len() <= s.len(),
    decreases s.len(),
{
    reveal(Seq::filter);
    let f = s.filter(pred);
    if s.len() > 0 {
        let rest = s.drop_last();
        let fr = rest.filter(pred);
        assert forall|i: int, j: int| 0 <= i < j < rest.len() implies rel(rest[i], rest[j]) by {
            assert(rest[i] == s[i] && rest[j] == s[j]);
        }
        lemma_filter_pairs(rest, pred, rel);
        assert forall|i: int| 0 <= i < f.len() implies s.contains(#[trigger] f[i]) by {
            if i < fr.len() {
                assert(f[i] == fr[i]);
                assert(rest.contains(fr[i]));
                let k = choose|k: int| 0 <= k < rest.len() && rest[k] == fr[i];
                assert(s[k] == f[i]);
            } else {
                assert(s[s.len() - 1] == f[i]);
            }
        }
        assert forall|i: int, j: int| 0 <= i < j < f.len() implies rel(f[i], f[j]) by {
            if j < fr.len() {
                assert(f[i] == fr[i] && f[j] == fr[j]);
            } else {
                assert(f[i] == fr[i]);
                assert(rest.contains(fr[i]));
                let k = choose|k: int| 0 <= k < rest.len() && rest[k] == fr[i];
                assert(s[k] == f[i]);
                assert(f[j] == s[s.len() - 1]);
            }
        }
    }
}

/// Two filters that agree on every element of a sequence keep the same
/// elements of it.
pub proof fn lemma_filter_agree<A>(s: Seq<A>, p: spec_fn(A) -> bool, q: spec_fn(A) -> bool)
    requires
        forall|i: int| 0 <= i < s.len() ==> p(s[i]) == q(s[i]),
    ensures
        s.filter(p) == s.filter(q),
    decreases s.len(),
{
    reveal(Seq::filter);
    if s.len() > 0 {
        let rest = s.drop_last();
        assert forall|i: int| 0 <= i < rest.len() implies p(rest[i]) == q(rest[i]) by {
            assert(rest[i] == s[i]);
        }
        lemma_filter_agree(rest, p, q);
        assert(p(s[s.len() - 1]) == q(s[s.len() - 1]));
    }
}

/// One more element is looked at: a filter keeps it where it passes.
pub proof fn lemma_filter_step<A>(s: Seq<A>, i: int, pred: spec_fn(A) -> bool)
    requires
        0 <= i < s.len(),
    ensures
        s.take(i + 1).filter(pred) == (if pred(s[i]) {
            s.take(i).filter(pred).push(s[i])
        } else {
            s.take(i).filter(pred)
        }),
{
    reveal(Seq::filter);
    assert(s.take(i + 1).drop_last() =~= s.take(i));
}

} // verus!
