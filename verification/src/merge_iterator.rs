//! A k-way merge over same-typed sorted cursors.
//!
//! Each input cursor carries an integer priority: its position in the list it
//! was created from, lower meaning fresher and more authoritative. The merge
//! keeps one cursor out front — always the one on the smallest key, ties
//! broken toward the smallest priority — and the rest pending. Advancing
//! first drains every pending cursor standing on the surfaced key, so a key
//! is surfaced once, from the freshest source only, and then restores the
//! ordering. A failure while advancing any cursor is handed back at once.

use vstd::prelude::*;
use crate::iterators::{Error, StorageIterator};
use crate::keys::{bytes_eq, bytes_lt, lex_lt, lemma_lex_total, lemma_lex_trans};

verus! {

/// A cursor together with its priority in the list the merge was built
/// from; a lower index wins ties for a key.
pub struct IterWithIndex<I> {
    pub iter: Box<I>,
    pub index: usize,
}

/// The wrapped cursor is consistent and stands on an entry.
pub open spec fn entry_inv<I: StorageIterator>(p: IterWithIndex<I>) -> bool {
    (*p.iter).inv() && (*p.iter).spec_valid()
}

/// The key the wrapped cursor stands on.
pub open spec fn entry_key<I: StorageIterator>(p: IterWithIndex<I>) -> Seq<u8> {
    (*p.iter).spec_key()
}

/// The merge's order: the smaller key first, a tie going to the smaller
/// index.
pub open spec fn before<I: StorageIterator>(p: IterWithIndex<I>, q: IterWithIndex<I>) -> bool {
    lex_lt(entry_key(p), entry_key(q)) || (entry_key(p) == entry_key(q) && p.index < q.index)
}

proof fn lemma_before_trans<I: StorageIterator>(
    a: IterWithIndex<I>,
    b: IterWithIndex<I>,
    c: IterWithIndex<I>,
)
    requires
        before(a, b),
        before(b, c),
    ensures
        before(a, c),
{
    if entry_key(a) == entry_key(b) {
        if entry_key(b) == entry_key(c) {
        } else {
        }
    } else {
        if entry_key(b) == entry_key(c) {
        } else {
            lemma_lex_trans(entry_key(a), entry_key(b), entry_key(c));
        }
    }
}

proof fn lemma_before_total<I: StorageIterator>(a: IterWithIndex<I>, b: IterWithIndex<I>)
    requires
        a.index != b.index,
    ensures
        before(a, b) || before(b, a),
{
    lemma_lex_total(entry_key(a), entry_key(b));
}

/// Decides `before`.
fn before_exec<I: StorageIterator>(a: &IterWithIndex<I>, b: &IterWithIndex<I>) -> (r: bool)
    requires
        entry_inv(*a),
        entry_inv(*b),
    ensures
        r == before(*a, *b),
{
    let ka = a.iter.key();
    let kb = b.iter.key();
    if bytes_lt(&ka, &kb) {
        true
    } else if bytes_eq(&ka, &kb) {
        a.index < b.index
    } else {
        false
    }
}

/// Position of the front-most element in `before` order.
fn argmin<I: StorageIterator>(v: &Vec<IterWithIndex<I>>) -> (r: usize)
    requires
        v@.len() > 0,
        forall|i: int| 0 <= i < v@.len() ==> entry_inv(#[trigger] v@[i]),
        forall|i: int, j: int| 0 <= i < j < v@.len() ==> v@[i].index != v@[j].index,
    ensures
        r < v@.len(),
        forall|i: int| 0 <= i < v@.len() && i != r ==> before(v@[r as int], #[trigger] v@[i]),
{
    let mut best: usize = 0;
    let mut i: usize = 1;
    while i < v.len()
        invariant
            best < i,
            i <= v@.len(),
            v@.len() > 0,
            forall|j: int| 0 <= j < v@.len() ==> entry_inv(#[trigger] v@[j]),
            forall|j: int, l: int| 0 <= j < l < v@.len() ==> v@[j].index != v@[l].index,
            forall|j: int| 0 <= j < i && j != best ==> before(v@[best as int], #[trigger] v@[j]),
        decreases v@.len() - i,
    {
        if before_exec(&v[i], &v[best]) {
            proof {
                assert forall|j: int| 0 <= j < i + 1 && j != i implies before(
                    v@[i as int],
                    #[trigger] v@[j],
                ) by {
                    if j != best {
                        lemma_before_trans(v@[i as int], v@[best as int], v@[j]);
                    }
                }
            }
            best = i;
        } else {
            proof {
                lemma_before_total(v@[best as int], v@[i as int]);
            }
        }
        i = i + 1;
    }
    best
}

/// Removes and returns the front-most element in `before` order, or nothing
/// from an empty list.
fn pop_min<I: StorageIterator>(v: &mut Vec<IterWithIndex<I>>) -> (r: Option<IterWithIndex<I>>)
    requires
        forall|i: int| 0 <= i < old(v)@.len() ==> entry_inv(#[trigger] old(v)@[i]),
        forall|i: int, j: int| 0 <= i < j < old(v)@.len() ==> old(v)@[i].index != old(v)@[j].index,
    ensures
        old(v)@.len() == 0 ==> r is None && final(v)@ == old(v)@,
        old(v)@.len() > 0 ==> r is Some,
        r matches Some(c) ==> {
            &&& exists|k: int|
                0 <= k < old(v)@.len() && old(v)@[k] == c && final(v)@ == old(v)@.remove(k)
            &&& entry_inv(c)
            &&& forall|i: int| 0 <= i < final(v)@.len() ==> before(c, #[trigger] final(v)@[i])
            &&& forall|i: int| 0 <= i < old(v)@.len() ==> old(v)@[i] == c || before(c, #[trigger] old(v)@[i])
        },
{
    if v.len() == 0 {
        return None;
    }
    let m = argmin(v);
    let c = v.remove(m);
    proof {
        assert(final(v)@ == old(v)@.remove(m as int));
        assert forall|i: int| 0 <= i < final(v)@.len() implies before(c, #[trigger] final(v)@[i]) by {
            if i < m {
                assert(final(v)@[i] == old(v)@[i]);
            } else {
                assert(final(v)@[i] == old(v)@[i + 1]);
            }
        }
    }
    Some(c)
}

/// `post` is a state that one successful advance of `pre` can leave
/// behind, by `pre`'s own advance relation.
pub open spec fn stepped_ok<I: StorageIterator>(pre: I, post: I) -> bool {
    exists|u: Result<(), Error>| u is Ok && #[trigger] I::advance_rel(pre, post, u)
}

/// The cursor could legitimately leave the merge when the advance reported
/// `r`: one of its own advances ran it out, or failed while the whole
/// advance failed.
pub open spec fn consumed<I: StorageIterator>(x: IterWithIndex<I>, r: Result<(), Error>) -> bool {
    exists|y: I, u: Result<(), Error>|
        #[trigger] I::advance_rel(*x.iter, y, u) && ((u is Ok && !y.spec_valid()) || (u is Err
            && r is Err))
}

/// How one advance of the merge, reporting `r`, treats a cursor that stood
/// in it: left exactly where it was; or — having stood on the surfaced key
/// `k` — advanced by one successful step of its own and found again under
/// its priority, or consumed for a reason: run out, or failed while the
/// advance failed.
pub open spec fn cursor_fate<I: StorageIterator>(
    x: IterWithIndex<I>,
    after: Seq<IterWithIndex<I>>,
    k: Seq<u8>,
    r: Result<(), Error>,
) -> bool {
    ||| exists|j: int| 0 <= j < after.len() && (#[trigger] after[j]) == x
    ||| (entry_key(x) == k && ((exists|j: int|
        0 <= j < after.len() && (#[trigger] after[j]).index == x.index && stepped_ok(
            *x.iter,
            *after[j].iter,
        )) || ((forall|j: int| 0 <= j < after.len() ==> (#[trigger] after[j]).index != x.index)
        && consumed(x, r))))
}

/// A fate under a successful report carries to any report.
proof fn lemma_fate_weaken<I: StorageIterator>(
    x: IterWithIndex<I>,
    after: Seq<IterWithIndex<I>>,
    k: Seq<u8>,
    r1: Result<(), Error>,
    r2: Result<(), Error>,
)
    requires
        cursor_fate(x, after, k, r1),
        r1 is Ok,
    ensures
        cursor_fate(x, after, k, r2),
{
}

/// Where a cursor standing in the merge after one advance came from: it
/// stood there before, unchanged, or descends by one successful step from
/// a cursor of the same priority that stood on the surfaced key `k`.
pub open spec fn cursor_provenance<I: StorageIterator>(
    y: IterWithIndex<I>,
    prior: Seq<IterWithIndex<I>>,
    k: Seq<u8>,
) -> bool {
    ||| exists|i: int| 0 <= i < prior.len() && (#[trigger] prior[i]) == y
    ||| exists|i: int|
        0 <= i < prior.len() && (#[trigger] prior[i]).index == y.index && entry_key(prior[i]) == k
            && stepped_ok(*prior[i].iter, *y.iter)
}

/// A fate carries over when one more cursor of a different priority is
/// appended.
proof fn lemma_fate_push<I: StorageIterator>(
    x: IterWithIndex<I>,
    s: Seq<IterWithIndex<I>>,
    c: IterWithIndex<I>,
    k: Seq<u8>,
    r: Result<(), Error>,
)
    requires
        cursor_fate(x, s, k, r),
        c.index != x.index,
    ensures
        cursor_fate(x, s.push(c), k, r),
{
    if exists|j: int| 0 <= j < s.len() && (#[trigger] s[j]) == x {
        let j = choose|j: int| 0 <= j < s.len() && (#[trigger] s[j]) == x;
        assert((s.push(c)[j]) == x);
    } else if entry_key(x) == k && (exists|j: int|
        0 <= j < s.len() && (#[trigger] s[j]).index == x.index && stepped_ok(*x.iter, *s[j].iter)) {
        let j = choose|j: int|
            0 <= j < s.len() && (#[trigger] s[j]).index == x.index && stepped_ok(
                *x.iter,
                *s[j].iter,
            );
        assert((s.push(c)[j]).index == x.index && stepped_ok(*x.iter, *s.push(c)[j].iter));
    } else {
        assert forall|j: int| 0 <= j < s.push(c).len() implies (#[trigger] s.push(c)[j]).index
            != x.index by {
            if j < s.len() {
                assert(s.push(c)[j] == s[j]);
            } else {
                assert(s.push(c)[j] == c);
            }
        }
    }
}

/// A fate carries over when the cursor standing at one position — of a
/// priority other than the fated cursor's — is taken out.
proof fn lemma_fate_remove<I: StorageIterator>(
    x: IterWithIndex<I>,
    s: Seq<IterWithIndex<I>>,
    i: int,
    k: Seq<u8>,
    r: Result<(), Error>,
)
    requires
        cursor_fate(x, s, k, r),
        0 <= i < s.len(),
        s[i].index != x.index,
        forall|j: int| 0 <= j < s.len() && j != i ==> (#[trigger] s[j]).index != s[i].index,
    ensures
        cursor_fate(x, s.remove(i), k, r),
{
    let t = s.remove(i);
    if exists|j: int| 0 <= j < s.len() && (#[trigger] s[j]) == x {
        let j = choose|j: int| 0 <= j < s.len() && (#[trigger] s[j]) == x;
        if j < i {
            assert((t[j]) == x);
        } else {
            assert((t[j - 1]) == x);
        }
    } else if entry_key(x) == k && (exists|j: int|
        0 <= j < s.len() && (#[trigger] s[j]).index == x.index && stepped_ok(*x.iter, *s[j].iter)) {
        let j = choose|j: int|
            0 <= j < s.len() && (#[trigger] s[j]).index == x.index && stepped_ok(
                *x.iter,
                *s[j].iter,
            );
        if j < i {
            assert((t[j]).index == x.index && stepped_ok(*x.iter, *t[j].iter));
        } else {
            assert((t[j - 1]).index == x.index && stepped_ok(*x.iter, *t[j - 1].iter));
        }
    } else {
        assert forall|j: int| 0 <= j < t.len() implies (#[trigger] t[j]).index != x.index by {
            if j < i {
                assert(t[j] == s[j]);
            } else {
                assert(t[j] == s[j + 1]);
            }
        }
    }
}

/// A fate carries over when the cursor standing at one position — again of
/// another priority — is replaced by one of the same priority.
proof fn lemma_fate_update<I: StorageIterator>(
    x: IterWithIndex<I>,
    s: Seq<IterWithIndex<I>>,
    i: int,
    w: IterWithIndex<I>,
    k: Seq<u8>,
    r: Result<(), Error>,
)
    requires
        cursor_fate(x, s, k, r),
        0 <= i < s.len(),
        s[i].index != x.index,
        w.index == s[i].index,
        forall|j: int| 0 <= j < s.len() && j != i ==> (#[trigger] s[j]).index != s[i].index,
    ensures
        cursor_fate(x, s.update(i, w), k, r),
{
    let t = s.update(i, w);
    if exists|j: int| 0 <= j < s.len() && (#[trigger] s[j]) == x {
        let j = choose|j: int| 0 <= j < s.len() && (#[trigger] s[j]) == x;
        assert((t[j]) == x);
    } else if entry_key(x) == k && (exists|j: int|
        0 <= j < s.len() && (#[trigger] s[j]).index == x.index && stepped_ok(*x.iter, *s[j].iter)) {
        let j = choose|j: int|
            0 <= j < s.len() && (#[trigger] s[j]).index == x.index && stepped_ok(
                *x.iter,
                *s[j].iter,
            );
        assert((t[j]).index == x.index && stepped_ok(*x.iter, *t[j].iter));
    } else {
        assert forall|j: int| 0 <= j < t.len() implies (#[trigger] t[j]).index != x.index by {
            if j != i {
                assert(t[j] == s[j]);
            } else {
                assert(t[j] == w);
            }
        }
    }
}

/// A fate carries over to any rearrangement that keeps every cursor and
/// introduces none beyond the one excepted priority.
proof fn lemma_fate_perm<I: StorageIterator>(
    x: IterWithIndex<I>,
    s1: Seq<IterWithIndex<I>>,
    s2: Seq<IterWithIndex<I>>,
    k: Seq<u8>,
    extra: usize,
    r: Result<(), Error>,
)
    requires
        cursor_fate(x, s1, k, r),
        x.index != extra,
        forall|j: int|
            0 <= j < s1.len() ==> exists|j2: int| 0 <= j2 < s2.len() && (s2[j2]) == #[trigger] s1[j],
        forall|j2: int|
            0 <= j2 < s2.len() ==> (#[trigger] s2[j2]).index == extra || (exists|j: int|
                0 <= j < s1.len() && (#[trigger] s1[j]).index == s2[j2].index),
    ensures
        cursor_fate(x, s2, k, r),
{
    if exists|j: int| 0 <= j < s1.len() && (#[trigger] s1[j]) == x {
        let j = choose|j: int| 0 <= j < s1.len() && (#[trigger] s1[j]) == x;
        let j2 = choose|j2: int| 0 <= j2 < s2.len() && (s2[j2]) == s1[j];
        assert((s2[j2]) == x);
    } else if entry_key(x) == k && (exists|j: int|
        0 <= j < s1.len() && (#[trigger] s1[j]).index == x.index && stepped_ok(
            *x.iter,
            *s1[j].iter,
        )) {
        let j = choose|j: int|
            0 <= j < s1.len() && (#[trigger] s1[j]).index == x.index && stepped_ok(
                *x.iter,
                *s1[j].iter,
            );
        let j2 = choose|j2: int| 0 <= j2 < s2.len() && (s2[j2]) == s1[j];
        assert((s2[j2]).index == x.index && stepped_ok(*x.iter, *s2[j2].iter));
    } else {
        assert forall|j2: int| 0 <= j2 < s2.len() implies (#[trigger] s2[j2]).index != x.index by {
            if s2[j2].index != extra {
                let j = choose|j: int| 0 <= j < s1.len() && (#[trigger] s1[j]).index == s2[j2].index;
                assert((s1[j]).index != x.index);
            }
        }
    }
}

/// Where a queued cursor stands after one advance came from, carried to a
/// longer list that begins with the same cursors.
proof fn lemma_provenance_extend<I: StorageIterator>(
    y: IterWithIndex<I>,
    prior: Seq<IterWithIndex<I>>,
    longer: Seq<IterWithIndex<I>>,
    k: Seq<u8>,
)
    requires
        cursor_provenance(y, prior, k),
        longer.len() >= prior.len(),
        forall|i: int| 0 <= i < prior.len() ==> (#[trigger] longer[i]) == prior[i],
    ensures
        cursor_provenance(y, longer, k),
{
    if exists|i: int| 0 <= i < prior.len() && (#[trigger] prior[i]) == y {
        let i = choose|i: int| 0 <= i < prior.len() && (#[trigger] prior[i]) == y;
        assert((longer[i]) == y);
    } else {
        let i = choose|i: int|
            0 <= i < prior.len() && (#[trigger] prior[i]).index == y.index && entry_key(prior[i])
                == k && stepped_ok(*prior[i].iter, *y.iter);
        assert((longer[i]).index == y.index && entry_key(longer[i]) == k && stepped_ok(
            *longer[i].iter,
            *y.iter,
        ));
    }
}

/// Advances, by one step each, every queued cursor standing on the surfaced
/// key `k` — the key of the front cursor `cur`, which sorts before all of
/// them. A cursor that runs out leaves the queue; a failed advance removes
/// the failed cursor and is handed back at once, before anything else is
/// drained. On success every remaining cursor's key lies strictly past `k`;
/// either way each starting cursor is accounted for by `cursor_fate`, each
/// remaining one by `cursor_provenance`, and a failure names a cursor on
/// `k` whose advance reported it.
fn drain_equal<I: StorageIterator>(
    v: &mut Vec<IterWithIndex<I>>,
    k: &Vec<u8>,
    Ghost(cur): Ghost<IterWithIndex<I>>,
) -> (r: Result<(), Error>)
    requires
        entry_inv(cur),
        entry_key(cur) == k@,
        forall|j: int| 0 <= j < old(v)@.len() ==> entry_inv(#[trigger] old(v)@[j]),
        forall|j: int, l: int|
            0 <= j < l < old(v)@.len() ==> old(v)@[j].index != old(v)@[l].index,
        forall|j: int| 0 <= j < old(v)@.len() ==> (#[trigger] old(v)@[j]).index != cur.index,
        forall|j: int| 0 <= j < old(v)@.len() ==> before(cur, #[trigger] old(v)@[j]),
    ensures
        forall|j: int| 0 <= j < final(v)@.len() ==> entry_inv(#[trigger] final(v)@[j]),
        forall|j: int, l: int|
            0 <= j < l < final(v)@.len() ==> final(v)@[j].index != final(v)@[l].index,
        forall|j: int| 0 <= j < final(v)@.len() ==> (#[trigger] final(v)@[j]).index != cur.index,
        forall|j: int| 0 <= j < final(v)@.len() ==> before(cur, #[trigger] final(v)@[j]),
        r is Ok ==> forall|j: int|
            0 <= j < final(v)@.len() ==> lex_lt(k@, entry_key(#[trigger] final(v)@[j])),
        forall|x: int|
            0 <= x < old(v)@.len() ==> cursor_fate(#[trigger] old(v)@[x], final(v)@, k@, r),
        forall|j: int|
            0 <= j < final(v)@.len() ==> cursor_provenance(#[trigger] final(v)@[j], old(v)@, k@),
        r is Err ==> exists|x: int, y: I|
            0 <= x < old(v)@.len() && entry_key(old(v)@[x]) == k@ && #[trigger] I::advance_rel(
                *old(v)@[x].iter,
                y,
                r,
            ),
{
    let ghost pend0 = v@;
    let ghost rok: Result<(), Error> = Ok(());
    proof {
        assert(rok is Ok);
    }
    let mut i: usize = v.len();
    proof {
        assert forall|x: int| 0 <= x < pend0.len() implies cursor_fate(
            #[trigger] pend0[x],
            v@,
            k@,
            rok,
        ) by {
            assert((v@[x]) == pend0[x]);
        }
        assert forall|j: int| 0 <= j < v@.len() implies cursor_provenance(
            #[trigger] v@[j],
            pend0,
            k@,
        ) by {
            assert((pend0[j]) == v@[j]);
        }
    }
    while i > 0
        invariant
            entry_inv(cur),
            entry_key(cur) == k@,
            i <= v@.len(),
            v@.len() <= pend0.len(),
            rok is Ok,
            old(v)@ == pend0,
            forall|j: int, l: int| 0 <= j < l < pend0.len() ==> pend0[j].index != pend0[l].index,
            forall|j: int| 0 <= j < v@.len() ==> entry_inv(#[trigger] v@[j]),
            forall|j: int, l: int| 0 <= j < l < v@.len() ==> v@[j].index != v@[l].index,
            forall|j: int| 0 <= j < v@.len() ==> (#[trigger] v@[j]).index != cur.index,
            forall|j: int| 0 <= j < i ==> (#[trigger] v@[j]) == pend0[j],
            forall|j: int| i <= j < v@.len() ==> lex_lt(k@, entry_key(#[trigger] v@[j])),
            forall|j: int| 0 <= j < v@.len() ==> before(cur, #[trigger] v@[j]),
            forall|x: int| 0 <= x < pend0.len() ==> cursor_fate(#[trigger] pend0[x], v@, k@, rok),
            forall|j: int| 0 <= j < v@.len() ==> cursor_provenance(#[trigger] v@[j], pend0, k@),
        decreases i,
    {
        let idx = i - 1;
        let same = {
            let kj = v[idx].iter.key();
            bytes_eq(&kj, &k)
        };
        if same {
            let ghost iters1 = v@;
            let e = &mut v[idx];
            let res2 = e.iter.next();
            if res2.is_err() {
                let ghost iters2 = v@;
                let ghost yfail = *iters2[idx as int].iter;
                let _ = v.remove(idx);
                proof {
                    assert(v@ =~= iters1.remove(idx as int));
                    assert(iters1[idx as int] == pend0[idx as int]);
                    assert(entry_key(pend0[idx as int]) == k@);
                    assert forall|j: int| 0 <= j < v@.len() implies entry_inv(
                        #[trigger] v@[j],
                    ) && (v@[j].index != cur.index) && before(cur, v@[j]) && cursor_provenance(
                        v@[j],
                        pend0,
                        k@,
                    ) by {
                        if j < idx {
                            assert(v@[j] == iters1[j]);
                        } else {
                            assert(v@[j] == iters1[j + 1]);
                        }
                    }
                    assert forall|j: int, l: int| 0 <= j < l < v@.len() implies v@[j].index
                        != v@[l].index by {
                        assert(v@[j] == if j < idx {
                            iters1[j]
                        } else {
                            iters1[j + 1]
                        });
                        assert(v@[l] == if l < idx {
                            iters1[l]
                        } else {
                            iters1[l + 1]
                        });
                    }
                    assert(I::advance_rel(*pend0[idx as int].iter, yfail, res2));
                    assert forall|x: int| 0 <= x < pend0.len() implies cursor_fate(
                        #[trigger] pend0[x],
                        v@,
                        k@,
                        res2,
                    ) by {
                        if pend0[x].index == pend0[idx as int].index {
                            if x != idx {
                                if x < idx {
                                    assert(pend0[x].index != pend0[idx as int].index);
                                } else {
                                    assert(pend0[idx as int].index != pend0[x].index);
                                }
                            }
                            assert(entry_key(pend0[x]) == k@);
                            assert(consumed(pend0[x], res2));
                            assert forall|j: int| 0 <= j < v@.len() implies (
                            #[trigger] v@[j]).index != pend0[x].index by {
                                if j < idx {
                                    assert(v@[j] == iters1[j]);
                                } else {
                                    assert(v@[j] == iters1[j + 1]);
                                }
                            }
                        } else {
                            lemma_fate_remove(pend0[x], iters1, idx as int, k@, rok);
                            lemma_fate_weaken(pend0[x], v@, k@, rok, res2);
                        }
                    }
                }
                return res2;
            }
            proof {
                assert(res2 is Ok);
            }
            if !v[idx].iter.is_valid() {
                let ghost ygone = *v@[idx as int].iter;
                let _ = v.remove(idx);
                proof {
                    assert(I::advance_rel(*pend0[idx as int].iter, ygone, res2));
                    assert(v@ =~= iters1.remove(idx as int));
                    assert(iters1[idx as int] == pend0[idx as int]);
                    assert(entry_key(pend0[idx as int]) == k@);
                    assert forall|j: int| 0 <= j < v@.len() implies entry_inv(
                        #[trigger] v@[j],
                    ) && (v@[j].index != cur.index) && before(cur, v@[j]) && (j < idx ==> v@[j]
                        == pend0[j]) && (j >= idx ==> lex_lt(k@, entry_key(v@[j])))
                        && cursor_provenance(v@[j], pend0, k@) by {
                        if j < idx {
                            assert(v@[j] == iters1[j]);
                        } else {
                            assert(v@[j] == iters1[j + 1]);
                        }
                    }
                    assert forall|j: int, l: int| 0 <= j < l < v@.len() implies v@[j].index
                        != v@[l].index by {
                        assert(v@[j] == if j < idx {
                            iters1[j]
                        } else {
                            iters1[j + 1]
                        });
                        assert(v@[l] == if l < idx {
                            iters1[l]
                        } else {
                            iters1[l + 1]
                        });
                    }
                    assert forall|x: int| 0 <= x < pend0.len() implies cursor_fate(
                        #[trigger] pend0[x],
                        v@,
                        k@,
                        rok,
                    ) by {
                        if pend0[x].index == pend0[idx as int].index {
                            if x != idx {
                                if x < idx {
                                    assert(pend0[x].index != pend0[idx as int].index);
                                } else {
                                    assert(pend0[idx as int].index != pend0[x].index);
                                }
                            }
                            assert(entry_key(pend0[x]) == k@);
                            assert(consumed(pend0[x], rok));
                            assert forall|j: int| 0 <= j < v@.len() implies (
                            #[trigger] v@[j]).index != pend0[x].index by {
                                if j < idx {
                                    assert(v@[j] == iters1[j]);
                                } else {
                                    assert(v@[j] == iters1[j + 1]);
                                }
                            }
                        } else {
                            lemma_fate_remove(pend0[x], iters1, idx as int, k@, rok);
                        }
                    }
                }
            } else {
                proof {
                    let w = v@[idx as int];
                    assert(v@ == iters1.update(idx as int, w));
                    assert(iters1[idx as int] == pend0[idx as int]);
                    assert(entry_key(pend0[idx as int]) == k@);
                    assert(lex_lt(k@, entry_key(w)));
                    assert(stepped_ok(*pend0[idx as int].iter, *w.iter));
                    assert forall|x: int| 0 <= x < pend0.len() implies cursor_fate(
                        #[trigger] pend0[x],
                        v@,
                        k@,
                        rok,
                    ) by {
                        if pend0[x].index == pend0[idx as int].index {
                            if x != idx {
                                if x < idx {
                                    assert(pend0[x].index != pend0[idx as int].index);
                                } else {
                                    assert(pend0[idx as int].index != pend0[x].index);
                                }
                            }
                            assert((v@[idx as int]).index == pend0[x].index);
                            assert(stepped_ok(*pend0[x].iter, *v@[idx as int].iter));
                        } else {
                            lemma_fate_update(pend0[x], iters1, idx as int, w, k@, rok);
                        }
                    }
                    assert forall|j: int| 0 <= j < v@.len() implies cursor_provenance(
                        #[trigger] v@[j],
                        pend0,
                        k@,
                    ) && (j < idx ==> v@[j] == pend0[j]) && (j >= idx ==> lex_lt(
                        k@,
                        entry_key(v@[j]),
                    )) by {
                        if j != idx {
                            assert(v@[j] == iters1[j]);
                        } else {
                            assert((pend0[idx as int]).index == v@[j].index);
                            assert(stepped_ok(*pend0[idx as int].iter, *v@[j].iter));
                        }
                    }
                }
            }
        } else {
            proof {
                assert(v@[idx as int] == pend0[idx as int]);
                assert(lex_lt(k@, entry_key(v@[idx as int])));
            }
        }
        i = idx;
    }
    proof {
        assert forall|x: int| 0 <= x < pend0.len() implies cursor_fate(
            #[trigger] pend0[x],
            v@,
            k@,
            Ok(()),
        ) by {
            lemma_fate_weaken(pend0[x], v@, k@, rok, Ok(()));
        }
    }
    Ok(())
}

/// Merges any number of same-typed cursors into one cursor that surfaces
/// every live key once, in ascending order, each from its freshest source.
pub struct MergeIterator<I> {
    iters: Vec<IterWithIndex<I>>,
    current_iter: Option<IterWithIndex<I>>,
}

impl<I: StorageIterator> MergeIterator<I> {
    /// The front cursor, when present, is consistent; every pending cursor
    /// stands on an entry, priorities never repeat, and while the front is
    /// on an entry it sorts before every pending cursor — so it holds the
    /// smallest live key, from the smallest-indexed source holding it. A
    /// front cursor that has run out implies nothing is pending.
    pub closed spec fn wf(&self) -> bool {
        &&& forall|i: int| 0 <= i < self.iters@.len() ==> entry_inv(#[trigger] self.iters@[i])
        &&& forall|i: int, j: int|
            0 <= i < j < self.iters@.len() ==> self.iters@[i].index != self.iters@[j].index
        &&& match self.current_iter {
            None => self.iters@.len() == 0,
            Some(c) => {
                &&& (*c.iter).inv()
                &&& forall|i: int| 0 <= i < self.iters@.len() ==> (#[trigger] self.iters@[i]).index
                    != c.index
                &&& !(*c.iter).spec_valid() ==> self.iters@.len() == 0
                &&& (*c.iter).spec_valid() ==> forall|i: int|
                    0 <= i < self.iters@.len() ==> before(c, #[trigger] self.iters@[i])
            },
        }
    }

    /// The front cursor pulled out of the queue, `None` only when every
    /// input was already run out at creation.
    pub closed spec fn spec_current(&self) -> Option<IterWithIndex<I>> {
        self.current_iter
    }

    /// The queued cursors behind the front one.
    pub closed spec fn spec_pending(&self) -> Seq<IterWithIndex<I>> {
        self.iters@
    }

    /// Whether a front cursor is present at all; advancing never changes
    /// this.
    pub open spec fn spec_front(&self) -> bool {
        self.spec_current() is Some
    }

    /// All cursors the merge holds: the queued ones, then the front one
    /// when present.
    pub open spec fn spec_cursors(&self) -> Seq<IterWithIndex<I>> {
        match self.spec_current() {
            Some(c) => self.spec_pending().push(c),
            None => self.spec_pending(),
        }
    }

    /// Builds a merge from a list of cursors, index 0 the most
    /// authoritative. Cursors that are already run out are discarded
    /// unread. The result stands on the smallest key any live input holds —
    /// held by no fresher source — and is itself run out exactly when every
    /// input was.
    pub fn create(iters: Vec<Box<I>>) -> (r: MergeIterator<I>)
        requires
            forall|i: int| 0 <= i < iters@.len() ==> (*#[trigger] iters@[i]).inv(),
        ensures
            r.inv(),
            r.spec_front() == r.spec_valid(),
            r.spec_valid() == (exists|i: int|
                0 <= i < iters@.len() && (*#[trigger] iters@[i]).spec_valid()),
            r.spec_valid() ==> (exists|i: int|
                0 <= i < iters@.len() && (*#[trigger] iters@[i]).spec_valid()
                    && (*iters@[i]).spec_key() == r.spec_key() && (*iters@[i]).spec_value()
                    == r.spec_value() && (forall|j: int|
                    0 <= j < i && (*#[trigger] iters@[j]).spec_valid() ==> (*iters@[j]).spec_key()
                        != r.spec_key())),
            r.spec_valid() ==> (forall|i: int|
                0 <= i < iters@.len() && (*#[trigger] iters@[i]).spec_valid() ==> !lex_lt(
                    (*iters@[i]).spec_key(),
                    r.spec_key(),
                )),
    {
        let ghost inputs0 = iters@;
        let mut inputs = iters;
        let total: usize = inputs.len();
        let mut pending: Vec<IterWithIndex<I>> = Vec::new();
        let mut index: usize = 0;
        while inputs.len() > 0
            invariant
                index + inputs@.len() == total,
                total == inputs0.len(),
                inputs@ == inputs0.skip(index as int),
                forall|i: int| 0 <= i < inputs0.len() ==> (*#[trigger] inputs0[i]).inv(),
                forall|x: int|
                    0 <= x < pending@.len() ==> (#[trigger] pending@[x]).index < index
                        && pending@[x].iter == inputs0[pending@[x].index as int]
                        && entry_inv(pending@[x]),
                forall|j: int|
                    0 <= j < index && (*#[trigger] inputs0[j]).spec_valid() ==> exists|x: int|
                        0 <= x < pending@.len() && (#[trigger] pending@[x]).index == j,
                forall|x: int, y: int|
                    0 <= x < y < pending@.len() ==> pending@[x].index < pending@[y].index,
            decreases inputs@.len(),
        {
            proof {
                assert(inputs@[0] == inputs0[index as int]);
            }
            let ghost pending_prev = pending@;
            let it = inputs.remove(0);
            let valid_now = it.is_valid();
            if valid_now {
                pending.push(IterWithIndex { iter: it, index });
            }
            proof {
                assert(inputs@ =~= inputs0.skip(index as int + 1));
                assert forall|j: int|
                    0 <= j < index + 1 && (*#[trigger] inputs0[j]).spec_valid() implies exists|
                    x: int,
                |
                    0 <= x < pending@.len() && (#[trigger] pending@[x]).index == j by {
                    if j == index {
                        assert((#[trigger] pending@[pending@.len() - 1]).index == j);
                    } else {
                        let x = choose|x: int|
                            0 <= x < pending_prev.len() && (#[trigger] pending_prev[x]).index == j;
                        assert((#[trigger] pending@[x]).index == j);
                    }
                }
            }
            index = index + 1;
        }
        let ghost pending0 = pending@;
        let current = pop_min(&mut pending);
        let r = MergeIterator { iters: pending, current_iter: current };
        proof {
            if pending0.len() > 0 {
                let c = current.unwrap();
                let k = choose|k: int|
                    0 <= k < pending0.len() && pending0[k] == c && r.iters@ == pending0.remove(k);
                assert forall|i: int| 0 <= i < r.iters@.len() implies entry_inv(
                    #[trigger] r.iters@[i],
                ) by {
                    if i < k {
                        assert(r.iters@[i] == pending0[i]);
                    } else {
                        assert(r.iters@[i] == pending0[i + 1]);
                    }
                }
                assert forall|i: int, j: int| 0 <= i < j < r.iters@.len() implies r.iters@[i].index
                    != r.iters@[j].index by {
                    assert(r.iters@[i] == if i < k {
                        pending0[i]
                    } else {
                        pending0[i + 1]
                    });
                    assert(r.iters@[j] == if j < k {
                        pending0[j]
                    } else {
                        pending0[j + 1]
                    });
                }
                assert forall|i: int| 0 <= i < r.iters@.len() implies (#[trigger] r.iters@[i]).index
                    != c.index by {
                    assert(r.iters@[i] == if i < k {
                        pending0[i]
                    } else {
                        pending0[i + 1]
                    });
                }
                assert(r.spec_valid());
                assert((*inputs0[c.index as int]).spec_key() == r.spec_key());
                assert forall|j: int|
                    0 <= j < c.index && (*#[trigger] inputs0[j]).spec_valid() implies (*inputs0[j]).spec_key()
                    != r.spec_key() by {
                    let x = choose|x: int|
                        0 <= x < pending0.len() && (#[trigger] pending0[x]).index == j;
                    if pending0[x] == c {
                    } else {
                        assert(before(c, pending0[x]));
                        lemma_lex_total(entry_key(c), entry_key(pending0[x]));
                    }
                }
                assert forall|i: int|
                    0 <= i < inputs0.len() && (*#[trigger] inputs0[i]).spec_valid() implies !lex_lt(
                    (*inputs0[i]).spec_key(),
                    r.spec_key(),
                ) by {
                    let x = choose|x: int|
                        0 <= x < pending0.len() && (#[trigger] pending0[x]).index == i;
                    if pending0[x] == c {
                        lemma_lex_total(entry_key(c), entry_key(c));
                    } else {
                        assert(before(c, pending0[x]));
                        lemma_lex_total((*inputs0[i]).spec_key(), r.spec_key());
                    }
                }
            } else {
                assert(!r.spec_valid());
                assert forall|i: int|
                    0 <= i < inputs0.len() implies !(*#[trigger] inputs0[i]).spec_valid() by {
                    if (*inputs0[i]).spec_valid() {
                        assert(exists|x: int|
                            0 <= x < pending0.len() && (#[trigger] pending0[x]).index == i);
                    }
                }
            }
        }
        r
    }
}

impl<I: StorageIterator> StorageIterator for MergeIterator<I> {
    closed spec fn inv(&self) -> bool {
        self.wf()
    }

    /// What one advance of the merge does, stated over the live cursors it
    /// holds. With no front cursor it is a strict no-op. With a run-out
    /// front cursor, only that cursor's own advance happens, and its
    /// outcome is handed through. Otherwise, where `k` is the surfaced key:
    /// every queued cursor is left untouched, advanced by one successful
    /// step of its own away from `k`, or consumed after standing on `k`; a
    /// cursor never appears from nowhere; on success the old front either
    /// stands somewhere among the new cursors, advanced one step, or ran
    /// out, and the new front descends from an old cursor; on failure the
    /// front is as it was — or is itself the cursor whose advance failed —
    /// and some cursor standing on `k` has an advance that reported this
    /// very failure: a failure is never swallowed.
    open spec fn advance_rel(pre: Self, post: Self, r: Result<(), Error>) -> bool {
        match (pre.spec_current(), post.spec_current()) {
            (None, _) => r is Ok && post == pre,
            (Some(c), Some(c2)) => {
                if !(*c.iter).spec_valid() {
                    &&& post.spec_pending() == pre.spec_pending()
                    &&& c2.index == c.index
                    &&& I::advance_rel(*c.iter, *c2.iter, r)
                } else {
                    let k = entry_key(c);
                    &&& forall|i: int|
                        0 <= i < pre.spec_pending().len() ==> cursor_fate(
                            #[trigger] pre.spec_pending()[i],
                            post.spec_cursors(),
                            k,
                            r,
                        )
                    &&& forall|j: int|
                        0 <= j < post.spec_pending().len() ==> cursor_provenance(
                            #[trigger] post.spec_pending()[j],
                            pre.spec_cursors(),
                            k,
                        )
                    &&& r is Ok ==> cursor_fate(c, post.spec_cursors(), k, r) && cursor_provenance(
                        c2,
                        pre.spec_cursors(),
                        k,
                    )
                    &&& r is Err ==> c2 == c || (c2.index == c.index && I::advance_rel(
                        *c.iter,
                        *c2.iter,
                        r,
                    ))
                    &&& r is Err ==> exists|i: int, y: I|
                        0 <= i < pre.spec_cursors().len() && entry_key(pre.spec_cursors()[i]) == k
                            && #[trigger] I::advance_rel(*pre.spec_cursors()[i].iter, y, r)
                }
            },
            (Some(_), None) => false,
        }
    }

    closed spec fn spec_valid(&self) -> bool {
        self.current_iter matches Some(c) && (*c.iter).spec_valid()
    }

    closed spec fn spec_key(&self) -> Seq<u8> {
        match self.current_iter {
            Some(c) => entry_key(c),
            None => Seq::empty(),
        }
    }

    closed spec fn spec_value(&self) -> Seq<u8> {
        match self.current_iter {
            Some(c) => (*c.iter).spec_value(),
            None => Seq::empty(),
        }
    }

    fn key(&self) -> (r: Vec<u8>) {
        match &self.current_iter {
            Some(c) => c.iter.key(),
            None => {
                proof {
                    assert(false);
                }
                vstd::pervasive::unreached()
            },
        }
    }

    fn value(&self) -> (r: Vec<u8>) {
        match &self.current_iter {
            Some(c) => c.iter.value(),
            None => {
                proof {
                    assert(false);
                }
                vstd::pervasive::unreached()
            },
        }
    }

    fn is_valid(&self) -> (r: bool) {
        match &self.current_iter {
            Some(c) => c.iter.is_valid(),
            None => false,
        }
    }

    /// Advances past the surfaced key: every pending cursor still standing
    /// on that key is advanced one step - a failure there removes the failed
    /// cursor and is handed back at once, before anything else is drained -
    /// then the front cursor advances, is discarded for the next pending
    /// cursor if it ran out, and is swapped with the front-most pending
    /// cursor if that one now sorts before it. With no front cursor this is
    /// a tolerated no-op that succeeds and changes nothing.
    #[verifier::rlimit(100)]
    fn next(&mut self) -> (r: Result<(), Error>)
        ensures
            final(self).spec_front() == old(self).spec_front(),
            !old(self).spec_front() ==> r is Ok && *final(self) == *old(self),
    {
        let mut cur = match self.current_iter.take() {
            None => {
                return Ok(());
            },
            Some(c) => c,
        };
        let ghost cur0 = cur;
        let ghost pre_pending = self.iters@;
        let ghost oc = old(self).spec_cursors();
        let ghost k0 = (*cur.iter).spec_key();
        let ghost rok: Result<(), Error> = Ok(());
        if cur.iter.is_valid() {
            let k = cur.iter.key();
            let dr = drain_equal(&mut self.iters, &k, Ghost(cur));
            proof {
                assert forall|j: int| 0 <= j < self.iters@.len() implies cursor_provenance(
                    #[trigger] self.iters@[j],
                    oc,
                    k0,
                ) by {
                    assert(forall|x: int|
                        0 <= x < pre_pending.len() ==> (#[trigger] oc[x]) == pre_pending[x]);
                    lemma_provenance_extend(self.iters@[j], pre_pending, oc, k0);
                }
            }
            if dr.is_err() {
                self.current_iter = Some(cur);
                proof {
                    assert forall|x: int| 0 <= x < pre_pending.len() implies cursor_fate(
                        #[trigger] pre_pending[x],
                        self.iters@.push(cur),
                        k0,
                        dr,
                    ) by {
                        lemma_fate_push(pre_pending[x], self.iters@, cur, k0, dr);
                    }
                    let (xw, yw) = choose|xw: int, yw: I|
                        0 <= xw < pre_pending.len() && entry_key(pre_pending[xw]) == k0
                            && #[trigger] I::advance_rel(*pre_pending[xw].iter, yw, dr);
                    assert(oc[xw] == pre_pending[xw]);
                    assert(entry_key(oc[xw]) == k0);
                    assert(I::advance_rel(*oc[xw].iter, yw, dr));
                }
                return dr;
            }
            proof {
                assert forall|x: int| 0 <= x < pre_pending.len() implies cursor_fate(
                    #[trigger] pre_pending[x],
                    self.iters@,
                    k0,
                    rok,
                ) by {
                    lemma_fate_weaken(pre_pending[x], self.iters@, k0, dr, rok);
                }
            }
        }
        let ghost pend = self.iters@;
        let res = cur.iter.next();
        if res.is_err() {
            self.current_iter = Some(cur);
            proof {
                if (*cur.iter).spec_valid() {
                    assert forall|j: int| 0 <= j < self.iters@.len() implies before(
                        cur,
                        #[trigger] self.iters@[j],
                    ) by {
                        assert(lex_lt((*cur.iter).spec_key(), entry_key(self.iters@[j])));
                    }
                }
                if (*cur0.iter).spec_valid() {
                    assert forall|x: int| 0 <= x < pre_pending.len() implies cursor_fate(
                        #[trigger] pre_pending[x],
                        self.iters@.push(cur),
                        k0,
                        res,
                    ) by {
                        assert(pre_pending[x].index != cur.index);
                        lemma_fate_weaken(pre_pending[x], self.iters@, k0, rok, res);
                        lemma_fate_push(pre_pending[x], self.iters@, cur, k0, res);
                    }
                    assert(oc[pre_pending.len() as int] == cur0);
                    assert(entry_key(cur0) == k0);
                    assert(I::advance_rel(*cur0.iter, *cur.iter, res));
                }
            }
            return res;
        }
        proof {
            assert(res is Ok);
        }
        if !cur.iter.is_valid() {
            match pop_min(&mut self.iters) {
                Some(c2) => {
                    proof {
                        let k2 = choose|k2: int|
                            0 <= k2 < pend.len() && pend[k2] == c2 && self.iters@ == pend.remove(
                                k2,
                            );
                        assert forall|j: int, l: int|
                            0 <= j < l < self.iters@.len() implies self.iters@[j].index
                            != self.iters@[l].index by {
                            assert(self.iters@[j] == if j < k2 {
                                pend[j]
                            } else {
                                pend[j + 1]
                            });
                            assert(self.iters@[l] == if l < k2 {
                                pend[l]
                            } else {
                                pend[l + 1]
                            });
                        }
                        assert forall|j: int| 0 <= j < self.iters@.len() implies entry_inv(
                            #[trigger] self.iters@[j],
                        ) && self.iters@[j].index != c2.index && cursor_provenance(
                            self.iters@[j],
                            oc,
                            k0,
                        ) by {
                            assert(self.iters@[j] == if j < k2 {
                                pend[j]
                            } else {
                                pend[j + 1]
                            });
                        }
                        let target = self.iters@.push(c2);
                        assert forall|j: int|
                            0 <= j < pend.len() implies exists|j2: int|
                                0 <= j2 < target.len() && (target[j2]) == #[trigger] pend[j] by {
                            if j == k2 {
                                assert((target[target.len() - 1]) == pend[j]);
                            } else if j < k2 {
                                assert((target[j]) == pend[j]);
                            } else {
                                assert((target[j - 1]) == pend[j]);
                            }
                        }
                        assert forall|j2: int|
                            0 <= j2 < target.len() implies (#[trigger] target[j2]).index
                            == cur.index || (exists|j: int|
                            0 <= j < pend.len() && (#[trigger] pend[j]).index == target[
                                j2
                            ].index) by {
                            if j2 < target.len() - 1 {
                                if j2 < k2 {
                                    assert((pend[j2]).index == target[j2].index);
                                } else {
                                    assert((pend[j2 + 1]).index == target[j2].index);
                                }
                            } else {
                                assert((pend[k2]).index == target[j2].index);
                            }
                        }
                        assert forall|x: int| 0 <= x < pre_pending.len() implies cursor_fate(
                            #[trigger] pre_pending[x],
                            target,
                            k0,
                            res,
                        ) by {
                            assert(pre_pending[x].index != cur.index);
                            lemma_fate_weaken(pre_pending[x], pend, k0, rok, res);
                            lemma_fate_perm(pre_pending[x], pend, target, k0, cur.index, res);
                        }
                        assert forall|j2: int|
                            0 <= j2 < target.len() implies (#[trigger] target[j2]).index
                            != cur.index by {
                            if j2 < target.len() - 1 {
                                if j2 < k2 {
                                    assert(target[j2] == pend[j2]);
                                } else {
                                    assert(target[j2] == pend[j2 + 1]);
                                }
                            } else {
                                assert(target[j2] == pend[k2]);
                            }
                        }
                        assert(entry_key(cur0) == k0);
                        assert(I::advance_rel(*cur0.iter, *cur.iter, res));
                        assert(consumed(cur0, res));
                        assert(cursor_fate(cur0, target, k0, res));
                        assert(cursor_provenance(c2, oc, k0));
                    }
                    self.current_iter = Some(c2);
                },
                None => {
                    self.current_iter = Some(cur);
                    proof {
                        if (*cur0.iter).spec_valid() {
                            assert forall|x: int| 0 <= x < pre_pending.len() implies cursor_fate(
                                #[trigger] pre_pending[x],
                                self.iters@.push(cur),
                                k0,
                                res,
                            ) by {
                                assert(pre_pending[x].index != cur.index);
                                lemma_fate_weaken(pre_pending[x], self.iters@, k0, rok, res);
                                lemma_fate_push(pre_pending[x], self.iters@, cur, k0, res);
                            }
                            assert(entry_key(cur0) == k0);
                            assert(stepped_ok(*cur0.iter, *cur.iter));
                            assert(((self.iters@.push(cur))[self.iters@.len() as int]).index
                                == cur0.index);
                            assert(stepped_ok(
                                *cur0.iter,
                                *(self.iters@.push(cur))[self.iters@.len() as int].iter,
                            ));
                            assert(cursor_fate(cur0, self.iters@.push(cur), k0, res));
                            assert(oc[pre_pending.len() as int] == cur0);
                            assert(cursor_provenance(cur, oc, k0));
                        }
                    }
                },
            }
            return res;
        }
        if self.iters.len() > 0 {
            let m = argmin(&self.iters);
            let swap_needed = before_exec(&self.iters[m], &cur);
            if swap_needed {
                let ghost pend2 = self.iters@;
                let ghost cur_adv = cur;
                let e = self.iters.remove(m);
                let ghost pend3 = self.iters@;
                self.iters.push(cur);
                cur = e;
                proof {
                    assert forall|j: int| 0 <= j < self.iters@.len() implies entry_inv(
                        #[trigger] self.iters@[j],
                    ) && self.iters@[j].index != cur.index && before(cur, self.iters@[j]) by {
                        if j < pend3.len() {
                            assert(self.iters@[j] == pend3[j]);
                            assert(pend3[j] == if j < m {
                                pend2[j]
                            } else {
                                pend2[j + 1]
                            });
                        } else {
                            assert(self.iters@[j] == cur_adv);
                        }
                    }
                    assert forall|j: int, l: int|
                        0 <= j < l < self.iters@.len() implies self.iters@[j].index
                        != self.iters@[l].index by {
                        assert(j < pend3.len() ==> self.iters@[j] == (if j < m {
                            pend2[j]
                        } else {
                            pend2[j + 1]
                        }));
                        assert(l < pend3.len() ==> self.iters@[l] == (if l < m {
                            pend2[l]
                        } else {
                            pend2[l + 1]
                        }));
                        assert(l == pend3.len() ==> self.iters@[l] == cur_adv);
                    }
                    let target = self.iters@.push(cur);
                    assert forall|j: int|
                        0 <= j < pend2.len() implies exists|j2: int|
                            0 <= j2 < target.len() && (target[j2]) == #[trigger] pend2[j] by {
                        if j == m {
                            assert((target[target.len() - 1]) == pend2[j]);
                        } else if j < m {
                            assert((target[j]) == pend2[j]);
                        } else {
                            assert((target[j - 1]) == pend2[j]);
                        }
                    }
                    assert forall|j2: int|
                        0 <= j2 < target.len() implies (#[trigger] target[j2]).index
                        == cur_adv.index || (exists|j: int|
                        0 <= j < pend2.len() && (#[trigger] pend2[j]).index == target[
                            j2
                        ].index) by {
                        if j2 < pend3.len() {
                            if j2 < m {
                                assert((pend2[j2]).index == target[j2].index);
                            } else {
                                assert((pend2[j2 + 1]).index == target[j2].index);
                            }
                        } else if j2 == pend3.len() {
                            assert(target[j2] == cur_adv);
                        } else {
                            assert((pend2[m as int]).index == target[j2].index);
                        }
                    }
                    assert forall|x: int| 0 <= x < pre_pending.len() implies cursor_fate(
                        #[trigger] pre_pending[x],
                        target,
                        k0,
                        res,
                    ) by {
                        assert(pre_pending[x].index != cur_adv.index);
                        lemma_fate_weaken(pre_pending[x], pend2, k0, rok, res);
                        lemma_fate_perm(pre_pending[x], pend2, target, k0, cur_adv.index, res);
                    }
                    assert(entry_key(cur0) == k0);
                    assert((target[pend3.len() as int]).index == cur0.index);
                    assert(stepped_ok(*cur0.iter, *target[pend3.len() as int].iter));
                    assert(cursor_fate(cur0, target, k0, res));
                    assert(oc[pre_pending.len() as int] == cur0);
                    assert forall|j: int| 0 <= j < self.iters@.len() implies cursor_provenance(
                        #[trigger] self.iters@[j],
                        oc,
                        k0,
                    ) by {
                        if j < pend3.len() {
                            assert(self.iters@[j] == if j < m {
                                pend2[j]
                            } else {
                                pend2[j + 1]
                            });
                        } else {
                            assert(self.iters@[j] == cur_adv);
                            assert((oc[pre_pending.len() as int]).index == cur_adv.index);
                            assert(stepped_ok(*cur0.iter, *cur_adv.iter));
                        }
                    }
                    assert(cursor_provenance(cur, oc, k0));
                }
            } else {
                proof {
                    let mi = self.iters@[m as int];
                    lemma_before_total(cur, mi);
                    assert forall|j: int| 0 <= j < self.iters@.len() implies before(
                        cur,
                        #[trigger] self.iters@[j],
                    ) by {
                        if j != m {
                            lemma_before_trans(cur, mi, self.iters@[j]);
                        }
                    }
                    assert forall|x: int| 0 <= x < pre_pending.len() implies cursor_fate(
                        #[trigger] pre_pending[x],
                        self.iters@.push(cur),
                        k0,
                        res,
                    ) by {
                        assert(pre_pending[x].index != cur.index);
                        lemma_fate_weaken(pre_pending[x], self.iters@, k0, rok, res);
                        lemma_fate_push(pre_pending[x], self.iters@, cur, k0, res);
                    }
                    assert(entry_key(cur0) == k0);
                    assert(((self.iters@.push(cur))[self.iters@.len() as int]).index
                        == cur0.index);
                    assert(stepped_ok(
                        *cur0.iter,
                        *(self.iters@.push(cur))[self.iters@.len() as int].iter,
                    ));
                    assert(cursor_fate(cur0, self.iters@.push(cur), k0, res));
                    assert(oc[pre_pending.len() as int] == cur0);
                    assert(cursor_provenance(cur, oc, k0));
                }
            }
        } else {
            proof {
                assert forall|x: int| 0 <= x < pre_pending.len() implies cursor_fate(
                    #[trigger] pre_pending[x],
                    self.iters@.push(cur),
                    k0,
                    res,
                ) by {
                    assert(pre_pending[x].index != cur.index);
                    lemma_fate_weaken(pre_pending[x], self.iters@, k0, rok, res);
                    lemma_fate_push(pre_pending[x], self.iters@, cur, k0, res);
                }
                assert(entry_key(cur0) == k0);
                assert(((self.iters@.push(cur))[self.iters@.len() as int]).index == cur0.index);
                assert(stepped_ok(
                    *cur0.iter,
                    *(self.iters@.push(cur))[self.iters@.len() as int].iter,
                ));
                assert(cursor_fate(cur0, self.iters@.push(cur), k0, res));
                assert(oc[pre_pending.len() as int] == cur0);
                assert(cursor_provenance(cur, oc, k0));
            }
        }
        self.current_iter = Some(cur);
        Ok(())
    }
}

/// While a merge stands on an entry, the surfaced pair is its front
/// cursor's, and the front sorts before every queued cursor: no queued
/// cursor stands on a smaller key, and a queued cursor standing on the
/// surfaced key has a larger index. So at every reachable state — after
/// creation as after any number of advances — the merge surfaces the
/// smallest key its live cursors stand on, from the smallest-index source
/// standing on it.
pub proof fn lemma_front_minimal<I: StorageIterator>(m: &MergeIterator<I>)
    requires
        m.inv(),
        m.spec_valid(),
    ensures
        m.spec_current() matches Some(c) ==> {
            &&& entry_inv(c)
            &&& entry_key(c) == m.spec_key()
            &&& (*c.iter).spec_value() == m.spec_value()
            &&& forall|i: int|
                0 <= i < m.spec_pending().len() ==> before(c, #[trigger] m.spec_pending()[i])
        },
        forall|i: int|
            0 <= i < m.spec_pending().len() ==> entry_inv(#[trigger] m.spec_pending()[i]),
{
}

} // verus!
