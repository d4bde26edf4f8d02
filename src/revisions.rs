use vstd::prelude::*;
use crate::coordinator::addresses;
use crate::types::{Address, Details};

verus! {

/// Whether `v` holds an address with the bytes of `a`.
pub fn holds(v: &Vec<Address>, a: &Address) -> (r: bool)
    ensures
        r == addresses(v@).contains(a@),
{
    let n = v.len();
    let mut i: usize = 0;
    while i < n
        invariant
            n == v@.len(),
            0 <= i <= n,
            forall|j: int| 0 <= j < i ==> v@[j]@ != a@,
        decreases n - i,
    {
        if v[i].same(a) {
            assert(addresses(v@)[i as int] == a@);
            return true;
        }
        i = i + 1;
    }
    assert forall|j: int| 0 <= j < addresses(v@).len() implies addresses(v@)[j] != a@ by {}
    false
}

/// What a walk asks for after a step.
pub enum WalkStep {
    /// Fetch the details of this address and step again.
    Fetch(Address),
    /// The record just stepped on is the latest version.
    Found,
    /// The address just stepped on does not resolve.
    Missing,
    /// The details were not a record, or the updates lead back to a version
    /// already visited.
    Malformed,
}

/// A `WalkStep` with its address seen as bytes.
pub enum WalkView {
    Fetch(Seq<u8>),
    Found,
    Missing,
    Malformed,
}

pub open spec fn step_view(s: WalkStep) -> WalkView {
    match s {
        WalkStep::Fetch(a) => WalkView::Fetch(a@),
        WalkStep::Found => WalkView::Found,
        WalkStep::Missing => WalkView::Missing,
        WalkStep::Malformed => WalkView::Malformed,
    }
}

/// One step of the search for the latest version of a comment: `trail` is the
/// versions visited so far, the current one last, and `d` the current one's
/// details. The walk follows the last update recorded against it.
pub open spec fn latest_step<R, D>(trail: Seq<Seq<u8>>, d: Option<Details<R, D>>) -> (
    Seq<Seq<u8>>,
    WalkView,
) {
    match d {
        None => (trail, WalkView::Missing),
        Some(Details::Entry) => (trail, WalkView::Malformed),
        Some(Details::Record(rd)) => {
            if rd.updates@.len() == 0 {
                (trail, WalkView::Found)
            } else if trail.contains(rd.updates@.last()@) {
                (trail, WalkView::Malformed)
            } else {
                (trail.push(rd.updates@.last()@), WalkView::Fetch(rd.updates@.last()@))
            }
        },
    }
}

/// The search for the latest version of a comment, one fetched record at a
/// time. The versions already visited are kept so that a cycle in the updates
/// ends the walk instead of running on forever.
pub struct LatestCommentWalk {
    pub current: Address,
    pub visited: Vec<Address>,
}

impl View for LatestCommentWalk {
    type V = Seq<Seq<u8>>;

    /// The versions visited, the current one last.
    open spec fn view(&self) -> Seq<Seq<u8>> {
        addresses(self.visited@).push(self.current@)
    }
}

impl LatestCommentWalk {
    /// No version is visited twice.
    pub open spec fn wf(&self) -> bool {
        self@.no_duplicates()
    }

    pub fn new(original: &Address) -> (r: LatestCommentWalk)
        ensures
            r@ == seq![original@],
            r.wf(),
    {
        let r = LatestCommentWalk { current: original.duplicate(), visited: Vec::new() };
        assert(r@ =~= seq![original@]);
        r
    }

    /// Steps on the details of the current version.
    pub fn step<R, D>(&mut self, details: &Option<Details<R, D>>) -> (r: WalkStep)
        requires
            old(self).wf(),
        ensures
            (final(self)@, step_view(r)) == latest_step(old(self)@, *details),
            final(self).wf(),
    {
        match details {
            None => WalkStep::Missing,
            Some(Details::Entry) => WalkStep::Malformed,
            Some(Details::Record(rd)) => {
                let n = rd.updates.len();
                if n == 0 {
                    return WalkStep::Found;
                }
                let next = &rd.updates[n - 1];
                if next.same(&self.current) {
                    assert(self@[self@.len() - 1] == next@);
                    return WalkStep::Malformed;
                }
                if holds(&self.visited, next) {
                    assert(self@.contains(next@)) by {
                        let k = choose|k: int|
                            0 <= k < addresses(self.visited@).len() && addresses(self.visited@)[k]
                                == next@;
                        assert(self@[k] == next@);
                    }
                    return WalkStep::Malformed;
                }
                let ghost trail = self@;
                let previous = self.current.duplicate();
                self.visited.push(previous);
                self.current = next.duplicate();
                assert(addresses(self.visited@) =~= trail);
                assert(self@ =~= trail.push(next@));
                WalkStep::Fetch(next.duplicate())
            },
        }
    }
}

/// Steps the search on the details `ds`, one per fetch, until it stops or
/// runs out of details; then it is still on a version to fetch.
pub open spec fn run_latest<R, D>(trail: Seq<Seq<u8>>, ds: Seq<Option<Details<R, D>>>) -> (
    Seq<Seq<u8>>,
    WalkView,
)
    decreases ds.len(),
{
    if ds.len() == 0 {
        (trail, WalkView::Fetch(trail.last()))
    } else {
        let (next, s) = latest_step(trail, ds[0]);
        if s is Fetch {
            run_latest(next, ds.drop_first())
        } else {
            (next, s)
        }
    }
}

/// The details of a sequence of versions in which each was updated by the
/// next one, and the last by none.
pub open spec fn is_update_chain<R, D>(chain: Seq<Seq<u8>>, ds: Seq<Option<Details<R, D>>>) -> bool {
    &&& chain.len() > 0
    &&& ds.len() == chain.len()
    &&& chain.no_duplicates()
    &&& forall|i: int|
        0 <= i < chain.len() - 1 ==> (#[trigger] ds[i] matches Some(Details::Record(rd)) && rd.updates@.len()
            == 1 && rd.updates@[0]@ == chain[i + 1])
    &&& ds[chain.len() - 1] matches Some(Details::Record(rd)) && rd.updates@.len() == 0
}

proof fn lemma_latest_from<R, D>(chain: Seq<Seq<u8>>, ds: Seq<Option<Details<R, D>>>, k: int)
    requires
        is_update_chain(chain, ds),
        0 <= k < chain.len(),
    ensures
        run_latest(chain.take(k + 1), ds.skip(k)) == (chain, WalkView::Found),
    decreases chain.len() - k,
{
    let rest = ds.skip(k);
    assert(rest[0] == ds[k]);
    if k == chain.len() - 1 {
        assert(chain.take(k + 1) =~= chain);
    } else {
        let trail = chain.take(k + 1);
        let next = chain[k + 1];
        assert(!trail.contains(next)) by {
            if trail.contains(next) {
                let j = choose|j: int| 0 <= j < trail.len() && trail[j] == next;
                assert(chain[j] == chain[k + 1]);
            }
        }
        assert(trail.push(next) =~= chain.take(k + 2));
        assert(rest.drop_first() =~= ds.skip(k + 1));
        lemma_latest_from(chain, ds, k + 1);
    }
}

/// After a comment was updated `n` times in sequence, the search started on
/// the original ends on the `n`-th version, having visited each version once.
pub proof fn lemma_latest_of_update_chain<R, D>(chain: Seq<Seq<u8>>, ds: Seq<Option<Details<R, D>>>)
    requires
        is_update_chain(chain, ds),
    ensures
        run_latest(seq![chain[0]], ds) == (chain, WalkView::Found),
        run_latest(seq![chain[0]], ds).0.last() == chain[chain.len() - 1],
{
    lemma_latest_from(chain, ds, 0);
    assert(chain.take(1) =~= seq![chain[0]]);
    assert(ds.skip(0) =~= ds);
}

/// `s` from its last element to its first.
pub open spec fn backwards<A>(s: Seq<A>) -> Seq<A> {
    Seq::new(s.len(), |i: int| s[s.len() - 1 - i])
}

/// `pending` without the addresses on its top that were already visited.
pub open spec fn drop_visited(pending: Seq<Seq<u8>>, done: Seq<Seq<u8>>) -> Seq<Seq<u8>>
    decreases pending.len(),
{
    if pending.len() > 0 && done.contains(pending.last()) {
        drop_visited(pending.drop_last(), done)
    } else {
        pending
    }
}

/// One step of the collection of all revisions: the top of `pending` was
/// fetched with details `d`. It is marked visited; when it is a record it is
/// kept and its updates are stacked so that the first one comes next; then
/// the visited addresses are taken off the top. Gives the new pending stack,
/// the new visited list and whether the record is kept.
pub open spec fn revision_step<R, D>(
    pending: Seq<Seq<u8>>,
    done: Seq<Seq<u8>>,
    d: Option<Details<R, D>>,
) -> (Seq<Seq<u8>>, Seq<Seq<u8>>, bool) {
    let done1 = done.push(pending.last());
    match d {
        Some(Details::Record(rd)) => (
            drop_visited(pending.drop_last() + backwards(addresses(rd.updates@)), done1),
            done1,
            true,
        ),
        _ => (drop_visited(pending.drop_last(), done1), done1, false),
    }
}

/// The collection of every revision of a comment, depth first: the original,
/// then, for each of its updates in order, all revisions of that update.
/// Each address is visited once.
pub struct RevisionWalk {
    pub pending: Vec<Address>,
    pub done: Vec<Address>,
}

impl RevisionWalk {
    pub open spec fn pending_view(&self) -> Seq<Seq<u8>> {
        addresses(self.pending@)
    }

    pub open spec fn done_view(&self) -> Seq<Seq<u8>> {
        addresses(self.done@)
    }

    /// No address is visited twice, and the next one to fetch is new.
    pub open spec fn wf(&self) -> bool {
        &&& self.done_view().no_duplicates()
        &&& self.pending_view().len() > 0 ==> !self.done_view().contains(self.pending_view().last())
    }

    pub fn new(original: &Address) -> (r: RevisionWalk)
        ensures
            r.pending_view() == seq![original@],
            r.done_view() == Seq::<Seq<u8>>::empty(),
            r.wf(),
    {
        let mut pending: Vec<Address> = Vec::new();
        pending.push(original.duplicate());
        let r = RevisionWalk { pending, done: Vec::new() };
        assert(r.pending_view() =~= seq![original@]);
        assert(r.done_view() =~= Seq::<Seq<u8>>::empty());
        r
    }

    /// The address to fetch next, if any is left.
    pub fn next(&self) -> (r: Option<Address>)
        ensures
            r is None <==> self.pending_view().len() == 0,
            r matches Some(a) ==> a@ == self.pending_view().last(),
    {
        let n = self.pending.len();
        if n == 0 {
            None
        } else {
            Some(self.pending[n - 1].duplicate())
        }
    }

    /// Steps on the details of the address that `next` gave; tells whether
    /// its record belongs to the revisions.
    pub fn step<R, D>(&mut self, details: &Option<Details<R, D>>) -> (keep: bool)
        requires
            old(self).pending_view().len() > 0,
            old(self).wf(),
        ensures
            final(self).wf(),
            (final(self).pending_view(), final(self).done_view(), keep) == revision_step(
                old(self).pending_view(),
                old(self).done_view(),
                *details,
            ),
    {
        let ghost p0 = self.pending_view();
        let ghost d0 = self.done_view();
        let top = self.pending.pop().unwrap();
        assert(self.pending_view() =~= p0.drop_last());
        self.done.push(top);
        assert(self.done_view() =~= d0.push(p0.last()));
        assert(self.done_view().no_duplicates()) by {
            assert forall|i: int, j: int|
                0 <= i < j < self.done_view().len() implies self.done_view()[i]
                != self.done_view()[j] by {
                if j == self.done_view().len() - 1 {
                    assert(d0[i] == self.done_view()[i]);
                }
            }
        }
        let keep = match details {
            Some(Details::Record(rd)) => {
                let n = rd.updates.len();
                let mut k: usize = n;
                let ghost base = self.pending_view();
                let ghost ups = addresses(rd.updates@);
                while k > 0
                    invariant
                        n == rd.updates@.len(),
                        ups == addresses(rd.updates@),
                        0 <= k <= n,
                        self.pending_view() == base + backwards(ups).take(n - k),
                        self.done_view() == d0.push(p0.last()),
                    decreases k,
                {
                    k = k - 1;
                    let ghost before = self.pending_view();
                    self.pending.push(rd.updates[k].duplicate());
                    assert(self.pending_view() =~= before.push(ups[k as int]));
                    assert(backwards(ups).take(n - k) =~= backwards(ups).take(n - k - 1).push(
                        ups[k as int],
                    ));
                }
                assert(backwards(ups).take(n as int) =~= backwards(ups));
                true
            },
            _ => false,
        };
        let ghost stacked = self.pending_view();
        let mut settled = false;
        while !settled
            invariant
                self.done_view() == d0.push(p0.last()),
                self.done_view().no_duplicates(),
                settled ==> self.pending_view().len() > 0 ==> !self.done_view().contains(
                    self.pending_view().last(),
                ),
                drop_visited(stacked, self.done_view()) == (if settled {
                    self.pending_view()
                } else {
                    drop_visited(self.pending_view(), self.done_view())
                }),
            decreases self.pending@.len() + (if settled { 0int } else { 1int }),
        {
            let n = self.pending.len();
            if n == 0 {
                settled = true;
            } else if holds(&self.done, &self.pending[n - 1]) {
                assert(self.pending_view().last() == self.pending@[n - 1]@);
                let ghost before = self.pending_view();
                self.pending.pop();
                assert(self.pending_view() =~= before.drop_last());
            } else {
                assert(self.pending_view().last() == self.pending@[n - 1]@);
                settled = true;
            }
        }
        keep
    }
}

/// Steps the collection on the details `ds`, one per fetch, while addresses
/// are pending; gives the number of records kept and the final state.
pub open spec fn run_revisions<R, D>(
    pending: Seq<Seq<u8>>,
    done: Seq<Seq<u8>>,
    ds: Seq<Option<Details<R, D>>>,
) -> (nat, Seq<Seq<u8>>, Seq<Seq<u8>>)
    decreases ds.len(),
{
    if ds.len() == 0 || pending.len() == 0 {
        (0, pending, done)
    } else {
        let (p, v, keep) = revision_step(pending, done, ds[0]);
        let (n, p2, v2) = run_revisions(p, v, ds.drop_first());
        ((if keep { 1nat } else { 0nat }) + n, p2, v2)
    }
}

proof fn lemma_revisions_from<R, D>(chain: Seq<Seq<u8>>, ds: Seq<Option<Details<R, D>>>, k: int)
    requires
        is_update_chain(chain, ds),
        0 <= k < chain.len(),
    ensures
        run_revisions(seq![chain[k]], chain.take(k), ds.skip(k)) == (
            (chain.len() - k) as nat,
            Seq::<Seq<u8>>::empty(),
            chain,
        ),
    decreases chain.len() - k,
{
    let rest = ds.skip(k);
    assert(rest[0] == ds[k]);
    let p0 = seq![chain[k]];
    let done1 = chain.take(k).push(chain[k]);
    assert(done1 =~= chain.take(k + 1));
    assert(p0.drop_last() =~= Seq::<Seq<u8>>::empty());
    if k == chain.len() - 1 {
        let rd = ds[k]->Some_0->Record_0;
        assert(backwards(addresses(rd.updates@)) =~= Seq::<Seq<u8>>::empty());
        assert(Seq::<Seq<u8>>::empty() + Seq::<Seq<u8>>::empty() =~= Seq::<Seq<u8>>::empty());
        assert(chain.take(k + 1) =~= chain);
        let (p, v, keep) = revision_step(p0, chain.take(k), rest[0]);
        assert(p =~= Seq::<Seq<u8>>::empty());
        assert(v == chain);
        assert(keep);
        assert(run_revisions(p, v, rest.drop_first()) == (0nat, p, v));
    } else {
        let rd = ds[k]->Some_0->Record_0;
        let next = chain[k + 1];
        assert(Seq::<Seq<u8>>::empty() + backwards(addresses(rd.updates@)) =~= seq![next]);
        assert(!done1.contains(next)) by {
            if done1.contains(next) {
                let j = choose|j: int| 0 <= j < done1.len() && done1[j] == next;
                assert(chain[j] == chain[k + 1]);
            }
        }
        assert(seq![next].last() == next);
        let (p, v, keep) = revision_step(p0, chain.take(k), rest[0]);
        assert(p == seq![next]);
        assert(v == chain.take(k + 1));
        assert(keep);
        assert(rest.drop_first() =~= ds.skip(k + 1));
        lemma_revisions_from(chain, ds, k + 1);
        assert(run_revisions(p, v, rest.drop_first()) == (
            (chain.len() - k - 1) as nat,
            Seq::<Seq<u8>>::empty(),
            chain,
        ));
    }
}

/// After a comment was updated `n` times in sequence, the collection started
/// on the original keeps `n + 1` records, visits every version and ends with
/// nothing pending.
pub proof fn lemma_revisions_of_update_chain<R, D>(chain: Seq<Seq<u8>>, ds: Seq<Option<Details<R, D>>>)
    requires
        is_update_chain(chain, ds),
    ensures
        run_revisions(seq![chain[0]], Seq::<Seq<u8>>::empty(), ds) == (
            chain.len() as nat,
            Seq::<Seq<u8>>::empty(),
            chain,
        ),
{
    lemma_revisions_from(chain, ds, 0);
    assert(chain.take(0) =~= Seq::<Seq<u8>>::empty());
    assert(ds.skip(0) =~= ds);
}

} // verus!
