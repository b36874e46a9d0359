//! One stream of tagged values in, one channel per bound variant out.

use vstd::prelude::*;
use crate::binding::{route_index, tags_distinct, Bindings};
use crate::channel::{channel, send, Receiver, SendFailure, Sender};
use crate::tagged::{lemma_payloads_tagged_append, lemma_payloads_tagged_push, payloads_tagged, Tagged};

verus! {

/// The number of items of `items` whose tag is bound in `tags`: the sends
/// that a demultiplexer attempts for them.
pub open spec fn bound_count<P>(items: Seq<Tagged<P>>, tags: Seq<u64>) -> nat
    decreases items.len(),
{
    if items.len() == 0 {
        0
    } else {
        bound_count(items.drop_last(), tags) + if tags.contains(items.last().tag) {
            1nat
        } else {
            0nat
        }
    }
}

/// What became of one item handed to a demultiplexer.
#[derive(Debug)]
pub enum Routed<P> {
    /// The payload went into the channel at position `route`.
    Delivered { route: usize },
    /// No channel is bound to the item's tag: it was dropped.
    Discarded,
    /// The channel bound to the item's tag has lost its consumer; the error
    /// handler is owed one call with this failure.
    Failed(SendFailure<P>),
}

/// The routing table of a demultiplexer: one channel per bound variant, in
/// binding order, and a record of the items it has been handed.
#[verifier::reject_recursive_types(P)]
pub struct Demultiplexer<P> {
    bindings: Bindings,
    senders: Vec<Sender<P>>,
    seen: Ghost<Seq<Tagged<P>>>,
    kept: Ghost<Seq<Tagged<P>>>,
    failures: Ghost<nat>,
}

impl<P> Demultiplexer<P> {
    /// The bound tags, in binding order.
    pub closed spec fn tags(&self) -> Seq<u64> {
        self.bindings@
    }

    /// The producer ends of the channels, in binding order.
    pub closed spec fn senders(&self) -> Seq<Sender<P>> {
        self.senders@
    }

    /// The items handed in so far, in order.
    pub closed spec fn seen(&self) -> Seq<Tagged<P>> {
        self.seen@
    }

    /// The items handed in so far, less those whose send was refused.
    pub closed spec fn kept(&self) -> Seq<Tagged<P>> {
        self.kept@
    }

    /// The number of sends refused so far.
    pub closed spec fn failures(&self) -> nat {
        self.failures@
    }

    /// The table holds one channel per bound tag; each channel has accepted exactly the payloads of the kept
    /// items with its tag; every item seen was either kept or refused, and
    /// refused only when its tag is bound.
    pub open spec fn wf(&self) -> bool {
        &&& self.tags().len() > 0
        &&& tags_distinct(self.tags())
        &&& self.senders().len() == self.tags().len()
        &&& forall|j: int|
            0 <= j < self.tags().len() ==> #[trigger] self.senders()[j].accepted() == payloads_tagged(
                self.kept(),
                self.tags()[j],
            )
        &&& self.kept().len() + self.failures() == self.seen().len()
        &&& self.failures() == 0 ==> self.kept() == self.seen()
        &&& self.failures() <= bound_count(self.seen(), self.tags())
    }

    /// Opens one channel per binding and returns their consumer ends in
    /// binding order: the consumer end at position `j` reads the channel that
    /// the table feeds with the payloads tagged `bindings@[j]`.
    pub fn new(bindings: Bindings) -> (r: (Demultiplexer<P>, Vec<Receiver<P>>))
        ensures
            r.0.wf(),
            r.0.tags() == bindings@,
            r.0.seen() == Seq::<Tagged<P>>::empty(),
            r.0.failures() == 0,
            r.1@.len() == bindings@.len(),
            forall|j: int| 0 <= j < r.1@.len() ==> #[trigger] r.1@[j].chan() == r.0.senders()[j].chan(),
    {
        proof {
            use_type_invariant(&bindings);
        }
        let n = bindings.len();
        let mut senders: Vec<Sender<P>> = Vec::new();
        let mut receivers: Vec<Receiver<P>> = Vec::new();
        let mut i: usize = 0;
        while i < n
            invariant
                i <= n,
                senders@.len() == i,
                receivers@.len() == i,
                forall|j: int| 0 <= j < i ==> #[trigger] receivers@[j].chan() == senders@[j].chan(),
                forall|j: int| 0 <= j < i ==> #[trigger] senders@[j].accepted() == Seq::<P>::empty(),
            decreases n - i,
        {
            let (tx, rx) = channel();
            senders.push(tx);
            receivers.push(rx);
            i += 1;
        }
        let demux = Demultiplexer {
            bindings,
            senders,
            seen: Ghost(Seq::empty()),
            kept: Ghost(Seq::empty()),
            failures: Ghost(0),
        };
        (demux, receivers)
    }

    /// Routes one item: its payload goes to the channel bound to its tag, or
    /// the item is dropped when no channel is.
    pub fn route(&mut self, item: Tagged<P>) -> (r: Routed<P>)
        requires
            old(self).wf(),
        ensures
            final(self).wf(),
            final(self).tags() == old(self).tags(),
            final(self).seen() == old(self).seen().push(item),
            r is Discarded <==> route_index(old(self).tags(), item.tag) is None,
            r matches Routed::Delivered { route } ==> route_index(old(self).tags(), item.tag) == Some(
                route as int,
            ) && final(self).senders()[route as int].accepted() == old(self).senders()[route as int].accepted().push(
                item.payload,
            ),
            r matches Routed::Failed(f) ==> route_index(old(self).tags(), item.tag) == Some(
                f.route as int,
            ) && f.payload == item.payload,
            forall|j: int|
                0 <= j < old(self).tags().len() ==> #[trigger] final(self).senders()[j].chan() == old(
                    self,
                ).senders()[j].chan(),
            forall|j: int|
                0 <= j < old(self).tags().len() && !(r matches Routed::Delivered { route } && route == j)
                    ==> #[trigger] final(self).senders()[j].accepted() == old(self).senders()[j].accepted(),
            final(self).failures() == old(self).failures() + if r is Failed {
                1nat
            } else {
                0nat
            },
    {
        let ghost it = item;
        let ghost tags = self.tags();
        let found = self.bindings.route_of(item.tag);
        match found {
            None => {
                self.seen = Ghost(self.seen@.push(it));
                self.kept = Ghost(self.kept@.push(it));
                assert(self.seen@.drop_last() == old(self).seen());
                assert(!tags.contains(it.tag));
                assert forall|j: int| 0 <= j < tags.len() implies #[trigger] self.senders()[j].accepted()
                    == payloads_tagged(self.kept(), tags[j]) by {
                    lemma_payloads_tagged_push(old(self).kept(), it, tags[j]);
                    assert(tags[j] != it.tag);
                }
                assert(self.wf());
                Routed::Discarded
            },
            Some(j) => {
                let Tagged { tag, payload } = item;
                assert(tags[j as int] == tag);
                self.seen = Ghost(self.seen@.push(it));
                assert(self.seen@.drop_last() == old(self).seen());
                assert(tags.contains(it.tag));
                let sent = send(&mut self.senders[j], payload);
                match sent {
                    Ok(()) => {
                        self.kept = Ghost(self.kept@.push(it));
                        assert forall|k: int| 0 <= k < tags.len() implies #[trigger] self.senders()[k].accepted()
                            == payloads_tagged(self.kept(), tags[k]) by {
                            lemma_payloads_tagged_push(old(self).kept(), it, tags[k]);
                            if k != j as int {
                                assert(tags[k] != tags[j as int]);
                            }
                        }
                        assert(self.wf());
                        Routed::Delivered { route: j }
                    },
                    Err(back) => {
                        self.failures = Ghost(self.failures@ + 1);
                        assert(self.wf());
                        Routed::Failed(SendFailure { route: j, payload: back })
                    },
                }
            },
        }
    }
}

/// Without refused sends, each channel of a demultiplexer has accepted exactly
/// the payloads of the items seen with its tag, in their order.
pub proof fn lemma_demux_channels_hold_their_tag<P>(d: Demultiplexer<P>)
    requires
        d.wf(),
        d.failures() == 0,
    ensures
        forall|j: int|
            0 <= j < d.tags().len() ==> #[trigger] d.senders()[j].accepted() == payloads_tagged(
                d.seen(),
                d.tags()[j],
            ),
{
}

/// Demultiplexing sends each item to exactly the channel of its own tag: for
/// every bound tag, the channel's payloads are those of the items before
/// position `k`, then the payload at `k` if it bears that tag, then those of the
/// items after `k`. So a bound item reaches its channel unwrapped and in its
/// place in the input order, and an item of an unbound tag reaches no channel.
pub proof fn lemma_demux_routes_each_item<P>(items: Seq<Tagged<P>>, tags: Seq<u64>, k: int)
    requires
        0 <= k < items.len(),
    ensures
        forall|j: int|
            0 <= j < tags.len() && tags[j] == items[k].tag ==> #[trigger] payloads_tagged(items, tags[j])
                == payloads_tagged(items.take(k), tags[j]).push(items[k].payload) + payloads_tagged(
                items.skip(k + 1),
                tags[j],
            ),
        forall|j: int|
            0 <= j < tags.len() && tags[j] != items[k].tag ==> #[trigger] payloads_tagged(items, tags[j])
                == payloads_tagged(items.remove(k), tags[j]),
{
    let before = items.take(k);
    let after = items.skip(k + 1);
    assert(items == before.push(items[k]) + after);
    assert(items.remove(k) == before + after);
    assert forall|j: int| 0 <= j < tags.len() implies #[trigger] payloads_tagged(items, tags[j]) == (
    if tags[j] == items[k].tag {
        payloads_tagged(before, tags[j]).push(items[k].payload) + payloads_tagged(after, tags[j])
    } else {
        payloads_tagged(items.remove(k), tags[j])
    }) by {
        lemma_payloads_tagged_append(before.push(items[k]), after, tags[j]);
        lemma_payloads_tagged_push(before, items[k], tags[j]);
        lemma_payloads_tagged_append(before, after, tags[j]);
    }
}

} // verus!
