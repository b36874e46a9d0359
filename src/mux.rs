//! Several typed streams in, one channel of tagged values out.

use vstd::prelude::*;
use crate::binding::{tags_distinct, Bindings};
use crate::channel::{channel, clone_sender, send, Receiver, SendFailure, Sender};
use crate::tagged::{lemma_payloads_tagged_push, payloads_tagged, wrap_all, Tagged};

verus! {

/// The entry of one input stream into a multiplexer: it wraps each payload
/// under its binding's tag and sends it into the shared output channel.
#[verifier::reject_recursive_types(P)]
pub struct MuxRoute<P> {
    index: usize,
    tag: u64,
    sender: Sender<Tagged<P>>,
    pulled: Ghost<Seq<P>>,
    kept: Ghost<Seq<P>>,
    failures: Ghost<nat>,
}

impl<P> MuxRoute<P> {
    /// The position of this route's binding.
    pub closed spec fn spec_index(&self) -> usize {
        self.index
    }

    /// The tag under which this route wraps its payloads.
    pub closed spec fn spec_tag(&self) -> u64 {
        self.tag
    }

    /// The label of the output channel this route feeds.
    pub closed spec fn chan(&self) -> int {
        self.sender.chan()
    }

    /// The tagged items that the output channel accepted from this route, in
    /// order.
    pub closed spec fn accepted(&self) -> Seq<Tagged<P>> {
        self.sender.accepted()
    }

    /// The payloads taken from the input so far, in order.
    pub closed spec fn pulled(&self) -> Seq<P> {
        self.pulled@
    }

    /// The payloads taken from the input so far, less those whose send was
    /// refused.
    pub closed spec fn kept(&self) -> Seq<P> {
        self.kept@
    }

    /// The number of sends refused so far.
    pub closed spec fn failures(&self) -> nat {
        self.failures@
    }

    /// The channel has accepted each kept payload once, in order, wrapped
    /// under the tag, and every payload taken in was either kept or refused.
    pub open spec fn wf(&self) -> bool {
        &&& self.accepted() == wrap_all(self.kept(), self.spec_tag())
        &&& self.kept().len() + self.failures() == self.pulled().len()
        &&& self.failures() == 0 ==> self.kept() == self.pulled()
    }

    #[verifier::when_used_as_spec(spec_index)]
    pub fn index(&self) -> (r: usize)
        ensures
            r == self.spec_index(),
    {
        self.index
    }

    #[verifier::when_used_as_spec(spec_tag)]
    pub fn tag(&self) -> (r: u64)
        ensures
            r == self.spec_tag(),
    {
        self.tag
    }

    /// Wraps one payload of this route's input under its tag and sends it.
    pub fn forward(&mut self, payload: P) -> (r: Result<(), SendFailure<Tagged<P>>>)
        requires
            old(self).wf(),
        ensures
            final(self).wf(),
            final(self).index() == old(self).index(),
            final(self).tag() == old(self).tag(),
            final(self).chan() == old(self).chan(),
            final(self).pulled() == old(self).pulled().push(payload),
            r is Ok ==> final(self).accepted() == old(self).accepted().push(
                (Tagged { tag: old(self).tag(), payload }),
            ),
            r matches Err(f) ==> f.route == old(self).index() && f.payload == (Tagged {
                tag: old(self).tag(),
                payload,
            }) && final(self).accepted() == old(self).accepted(),
            final(self).failures() == old(self).failures() + if r is Err {
                1nat
            } else {
                0nat
            },
    {
        let ghost p = payload;
        let item = Tagged::new(self.tag, payload);
        self.pulled = Ghost(self.pulled@.push(p));
        match send(&mut self.sender, item) {
            Ok(()) => {
                self.kept = Ghost(self.kept@.push(p));
                assert(self.accepted() =~= wrap_all(self.kept@, self.tag));
                Ok(())
            },
            Err(back) => {
                self.failures = Ghost(self.failures@ + 1);
                Err(SendFailure { route: self.index, payload: back })
            },
        }
    }
}

/// Opens the output channel and one route into it per binding, in binding
/// order: every route feeds the channel that the returned consumer end reads,
/// and the handle the channel was opened with is released, so the channel
/// ends once every route is dropped.
pub fn multiplexer<P>(bindings: Bindings) -> (r: (Vec<MuxRoute<P>>, Receiver<Tagged<P>>))
    ensures
        r.0@.len() == bindings@.len(),
        forall|i: int|
            0 <= i < r.0@.len() ==> {
                let route = #[trigger] r.0@[i];
                &&& route.wf()
                &&& route.index() == i
                &&& route.tag() == bindings@[i]
                &&& route.chan() == r.1.chan()
                &&& route.accepted() == Seq::<Tagged<P>>::empty()
                &&& route.pulled() == Seq::<P>::empty()
                &&& route.failures() == 0
            },
{
    let n = bindings.len();
    let (tx, rx) = channel();
    let mut routes: Vec<MuxRoute<P>> = Vec::new();
    let mut i: usize = 0;
    while i < n
        invariant
            i <= n,
            n == bindings@.len(),
            routes@.len() == i,
            tx.chan() == rx.chan(),
            forall|k: int|
                0 <= k < i ==> {
                    let route = #[trigger] routes@[k];
                    &&& route.wf()
                    &&& route.index() == k
                    &&& route.tag() == bindings@[k]
                    &&& route.chan() == rx.chan()
                    &&& route.accepted() == Seq::<Tagged<P>>::empty()
                    &&& route.pulled() == Seq::<P>::empty()
                    &&& route.failures() == 0
                },
        decreases n - i,
    {
        let route = MuxRoute {
            index: i,
            tag: bindings.tag_at(i),
            sender: clone_sender(&tx),
            pulled: Ghost(Seq::empty()),
            kept: Ghost(Seq::empty()),
            failures: Ghost(0),
        };
        assert(route.accepted() =~= wrap_all(route.kept(), route.tag()));
        routes.push(route);
        i += 1;
    }
    (routes, rx)
}

/// `out` is an interleaving of the inputs, each input `i` wrapped under
/// `tags[i]`: its last item is the wrapped last payload of some input, and the
/// rest is an interleaving of what remains.
pub open spec fn is_interleaving<P>(out: Seq<Tagged<P>>, inputs: Seq<Seq<P>>, tags: Seq<u64>) -> bool
    decreases out.len(),
{
    if out.len() == 0 {
        forall|i: int| 0 <= i < inputs.len() ==> #[trigger] inputs[i].len() == 0
    } else {
        exists|i: int|
            0 <= i < inputs.len() && #[trigger] inputs[i].len() > 0 && out.last() == (Tagged {
                tag: tags[i],
                payload: inputs[i].last(),
            }) && is_interleaving(out.drop_last(), inputs.update(i, inputs[i].drop_last()), tags)
    }
}

/// Multiplexing loses, duplicates and reorders nothing within an input: in any
/// interleaving of the inputs wrapped under distinct tags (what the consumer
/// end reads when each route's channel has accepted its whole input), the payloads tagged
/// `tags[k]` are exactly input `k`, in order, and every item carries one of the
/// bound tags.
pub proof fn lemma_mux_keeps_each_input<P>(out: Seq<Tagged<P>>, inputs: Seq<Seq<P>>, tags: Seq<u64>)
    requires
        tags_distinct(tags),
        inputs.len() == tags.len(),
        is_interleaving(out, inputs, tags),
    ensures
        forall|k: int| 0 <= k < tags.len() ==> #[trigger] payloads_tagged(out, tags[k]) == inputs[k],
        forall|m: int| 0 <= m < out.len() ==> tags.contains(#[trigger] out[m].tag),
    decreases out.len(),
{
    if out.len() == 0 {
        assert forall|k: int| 0 <= k < tags.len() implies #[trigger] payloads_tagged(out, tags[k])
            == inputs[k] by {
            assert(inputs[k].len() == 0);
        }
    } else {
        let i = choose|i: int|
            0 <= i < inputs.len() && #[trigger] inputs[i].len() > 0 && out.last() == (Tagged {
                tag: tags[i],
                payload: inputs[i].last(),
            }) && is_interleaving(out.drop_last(), inputs.update(i, inputs[i].drop_last()), tags);
        let rest = inputs.update(i, inputs[i].drop_last());
        lemma_mux_keeps_each_input(out.drop_last(), rest, tags);
        assert(out == out.drop_last().push(out.last()));
        assert forall|k: int| 0 <= k < tags.len() implies #[trigger] payloads_tagged(out, tags[k])
            == inputs[k] by {
            lemma_payloads_tagged_push(out.drop_last(), out.last(), tags[k]);
            assert(payloads_tagged(out.drop_last(), tags[k]) == rest[k]);
            if k == i {
                assert(inputs[i].drop_last().push(inputs[i].last()) == inputs[i]);
            } else {
                assert(tags[k] != tags[i]);
            }
        }
        assert forall|m: int| 0 <= m < out.len() implies tags.contains(#[trigger] out[m].tag) by {
            if m < out.len() - 1 {
                assert(out[m] == out.drop_last()[m]);
            } else {
                assert(tags[i] == out[m].tag);
            }
        }
    }
}

} // verus!
