//! The broadcaster: a publish/subscribe hub that fans every inbound frame
//! out to every currently registered subscriber, in subscription order.
//!
//! Delivery is by mailbox: `publish` appends the frame to the pending queue
//! of every live subscription, and each consumer drains its own queue in
//! arrival order. A failure inside one consumer therefore cannot stop or
//! reorder delivery to any other, and a frame published while a consumer is
//! registered is never skipped or duplicated for it.

use vstd::prelude::*;

verus! {

/// One registered subscriber: its handle and the frames published to it
/// since it last drained, oldest first.
pub struct Subscription {
    pub id: u64,
    pub pending: Vec<String>,
}

/// The hub. Subscriptions stand in subscription order; `next_id` is above
/// every handle ever handed out.
pub struct Broadcaster {
    pub subs: Vec<Subscription>,
    pub next_id: u64,
}

/// The position of the subscription with handle `h`, or a negative value if
/// there is none.
pub open spec fn spec_find(subs: Seq<Subscription>, h: u64) -> int
    decreases subs.len(),
{
    if subs.len() == 0 {
        -1
    } else if subs[0].id == h {
        0
    } else {
        let r = spec_find(subs.skip(1), h);
        if r < 0 {
            -1
        } else {
            r + 1
        }
    }
}

pub proof fn lemma_find_at(subs: Seq<Subscription>, h: u64, i: int)
    requires
        0 <= i < subs.len(),
        subs[i].id == h,
        forall|j: int| 0 <= j < i ==> subs[j].id != h,
    ensures
        spec_find(subs, h) == i,
    decreases i,
{
    if i == 0 {
    } else {
        assert(subs.skip(1)[i - 1].id == h);
        assert forall|j: int| 0 <= j < i - 1 implies subs.skip(1)[j].id != h by {
            assert(subs.skip(1)[j] == subs[j + 1]);
        }
        lemma_find_at(subs.skip(1), h, i - 1);
    }
}

pub proof fn lemma_find_none(subs: Seq<Subscription>, h: u64)
    requires
        forall|j: int| 0 <= j < subs.len() ==> subs[j].id != h,
    ensures
        spec_find(subs, h) < 0,
    decreases subs.len(),
{
    if subs.len() > 0 {
        assert forall|j: int| 0 <= j < subs.skip(1).len() implies subs.skip(1)[j].id != h by {
            assert(subs.skip(1)[j] == subs[j + 1]);
        }
        lemma_find_none(subs.skip(1), h);
    }
}

impl Broadcaster {
    /// Every handle in use is below `next_id`, and no two are the same.
    pub open spec fn wf(self) -> bool {
        (forall|i: int| 0 <= i < self.subs@.len() ==> self.subs@[i].id < self.next_id) && (forall|
            i: int,
            j: int,
        |
            0 <= i < j < self.subs@.len() ==> self.subs@[i].id != self.subs@[j].id)
    }

    /// A hub with no subscribers.
    pub fn new() -> (b: Broadcaster)
        ensures
            b.wf(),
            b.subs@.len() == 0,
    {
        Broadcaster { subs: Vec::new(), next_id: 0 }
    }

    /// Registers a new subscriber and returns its handle. The handle is
    /// fresh, the new mailbox is empty, and every other subscription keeps
    /// its place and its pending frames.
    pub fn subscribe(&mut self) -> (h: u64)
        requires
            old(self).wf(),
            old(self).next_id < u64::MAX,
        ensures
            final(self).wf(),
            final(self).subs@.len() == old(self).subs@.len() + 1,
            final(self).subs@.last().id == h,
            final(self).subs@.last().pending@.len() == 0,
            forall|i: int|
                0 <= i < old(self).subs@.len() ==> final(self).subs@[i] == old(self).subs@[i],
            forall|i: int| 0 <= i < old(self).subs@.len() ==> old(self).subs@[i].id != h,
            final(self).next_id == old(self).next_id + 1,
    {
        let h = self.next_id;
        self.next_id = self.next_id + 1;
        self.subs.push(Subscription { id: h, pending: Vec::new() });
        h
    }

    /// Fans one frame out: appends it to the mailbox of every current
    /// subscription, in place, and touches nothing else.
    pub fn publish(&mut self, frame: &String)
        requires
            old(self).wf(),
        ensures
            final(self).wf(),
            final(self).next_id == old(self).next_id,
            final(self).subs@.len() == old(self).subs@.len(),
            forall|i: int|
                0 <= i < old(self).subs@.len() ==> final(self).subs@[i].id == old(self).subs@[i].id,
            forall|i: int|
                0 <= i < old(self).subs@.len() ==> final(self).subs@[i].pending.deep_view() == old(self).subs@[i].pending.deep_view().push(frame@),
    {
        let n = self.subs.len();
        let mut i: usize = 0;
        while i < n
            invariant
                0 <= i <= n,
                n == self.subs@.len(),
                self.subs@.len() == old(self).subs@.len(),
                self.next_id == old(self).next_id,
                forall|j: int| i <= j < n ==> self.subs@[j] == old(self).subs@[j],
                forall|j: int| 0 <= j < i ==> self.subs@[j].id == old(self).subs@[j].id,
                forall|j: int|
                    0 <= j < i ==> self.subs@[j].pending.deep_view() == old(self).subs@[j].pending.deep_view().push(frame@),
            decreases n - i,
        {
            let cloned = frame.clone();
            self.subs[i].pending.push(cloned);
            proof {
                assert(self.subs@[i as int].pending.deep_view() =~= old(self).subs@[i as int].pending.deep_view().push(frame@));
            }
            i = i + 1;
        }
        proof {
            assert forall|a: int, b: int|
                0 <= a < b < self.subs@.len() implies self.subs@[a].id != self.subs@[b].id by {
                assert(self.subs@[a].id == old(self).subs@[a].id);
                assert(self.subs@[b].id == old(self).subs@[b].id);
            }
        }
    }

    /// Takes the pending frames of the subscription with handle `h`, oldest
    /// first, leaving its mailbox empty; a handle not in use yields nothing
    /// and changes nothing.
    pub fn drain(&mut self, h: u64) -> (r: Vec<String>)
        requires
            old(self).wf(),
        ensures
            final(self).wf(),
            final(self).next_id == old(self).next_id,
            spec_find(old(self).subs@, h) < 0 ==> final(self).subs == old(self).subs
                && r@.len() == 0,
            spec_find(old(self).subs@, h) >= 0 ==> {
                let ix = spec_find(old(self).subs@, h);
                &&& final(self).subs@.len() == old(self).subs@.len()
                &&& final(self).subs@[ix].id == h
                &&& final(self).subs@[ix].pending@.len() == 0
                &&& r.deep_view() == old(self).subs@[ix].pending.deep_view()
                &&& forall|j: int|
                    0 <= j < old(self).subs@.len() && j != ix ==> final(self).subs@[j] == old(self).subs@[j]
            },
    {
        let n = self.subs.len();
        let mut i: usize = 0;
        while i < n
            invariant
                0 <= i <= n,
                n == self.subs@.len(),
                self == old(self),
                old(self).wf(),
                forall|j: int| 0 <= j < i ==> self.subs@[j].id != h,
            decreases n - i,
        {
            if self.subs[i].id == h {
                proof {
                    lemma_find_at(self.subs@, h, i as int);
                }
                let mut out: Vec<String> = Vec::new();
                core::mem::swap(&mut out, &mut self.subs[i].pending);
                proof {
                    assert(self.subs@[i as int].id == h);
                    assert forall|a: int, b: int|
                        0 <= a < b < self.subs@.len() implies self.subs@[a].id != self.subs@[b].id by {
                        assert(self.subs@[a].id == old(self).subs@[a].id);
                        assert(self.subs@[b].id == old(self).subs@[b].id);
                    }
                    assert forall|j: int|
                        0 <= j < self.subs@.len() implies self.subs@[j].id < self.next_id by {
                        assert(self.subs@[j].id == old(self).subs@[j].id);
                    }
                }
                return out;
            }
            i = i + 1;
        }
        proof {
            lemma_find_none(self.subs@, h);
        }
        Vec::new()
    }

    /// Removes the subscription with handle `h`; later publishes no longer
    /// reach it. Returns whether the handle was in use.
    pub fn unsubscribe(&mut self, h: u64) -> (r: bool)
        requires
            old(self).wf(),
        ensures
            final(self).wf(),
            final(self).next_id == old(self).next_id,
            r == (spec_find(old(self).subs@, h) >= 0),
            spec_find(old(self).subs@, h) < 0 ==> final(self).subs == old(self).subs,
            spec_find(old(self).subs@, h) >= 0 ==> final(self).subs@ == old(self).subs@.remove(
                spec_find(old(self).subs@, h),
            ),
    {
        let n = self.subs.len();
        let mut i: usize = 0;
        while i < n
            invariant
                0 <= i <= n,
                n == self.subs@.len(),
                self == old(self),
                old(self).wf(),
                forall|j: int| 0 <= j < i ==> self.subs@[j].id != h,
            decreases n - i,
        {
            if self.subs[i].id == h {
                proof {
                    lemma_find_at(self.subs@, h, i as int);
                }
                self.subs.remove(i);
                proof {
                    old(self).subs@.remove_ensures(i as int);
                    assert forall|j: int|
                        0 <= j < self.subs@.len() implies self.subs@[j].id < self.next_id by {
                        if j < i {
                            assert(self.subs@[j] == old(self).subs@[j]);
                        } else {
                            assert(self.subs@[j] == old(self).subs@[j + 1]);
                        }
                    }
                    assert forall|a: int, b: int|
                        0 <= a < b < self.subs@.len() implies self.subs@[a].id != self.subs@[b].id by {
                        if b < i {
                        } else if a < i {
                            assert(self.subs@[b] == old(self).subs@[b + 1]);
                        } else {
                            assert(self.subs@[a] == old(self).subs@[a + 1]);
                            assert(self.subs@[b] == old(self).subs@[b + 1]);
                        }
                    }
                }
                return true;
            }
            i = i + 1;
        }
        proof {
            lemma_find_none(self.subs@, h);
        }
        false
    }
}

} // verus!
