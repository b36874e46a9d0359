use vstd::prelude::*;

verus! {

/// A value of a tagged union: the tag of its variant and the payload that the
/// variant wraps.
#[derive(Debug, Clone, PartialEq, Eq, Hash)]
pub struct Tagged<P> {
    pub tag: u64,
    pub payload: P,
}

impl<P> Tagged<P> {
    pub fn new(tag: u64, payload: P) -> (r: Tagged<P>)
        ensures
            r.tag == tag,
            r.payload == payload,
    {
        Tagged { tag, payload }
    }
}

/// The payloads of the items of `items` whose tag is `tag`, in their order.
pub open spec fn payloads_tagged<P>(items: Seq<Tagged<P>>, tag: u64) -> Seq<P>
    decreases items.len(),
{
    if items.len() == 0 {
        Seq::empty()
    } else {
        let rest = payloads_tagged(items.drop_last(), tag);
        if items.last().tag == tag {
            rest.push(items.last().payload)
        } else {
            rest
        }
    }
}

/// Each of `payloads`, in order, wrapped under `tag`.
pub open spec fn wrap_all<P>(payloads: Seq<P>, tag: u64) -> Seq<Tagged<P>> {
    payloads.map_values(|p: P| Tagged { tag, payload: p })
}

/// Projecting a concatenation is concatenating the projections.
pub proof fn lemma_payloads_tagged_append<P>(a: Seq<Tagged<P>>, b: Seq<Tagged<P>>, tag: u64)
    ensures
        payloads_tagged(a + b, tag) == payloads_tagged(a, tag) + payloads_tagged(b, tag),
    decreases b.len(),
{
    if b.len() == 0 {
        assert(a + b == a);
        assert(payloads_tagged(b, tag) == Seq::<P>::empty());
        assert(payloads_tagged(a, tag) + Seq::<P>::empty() == payloads_tagged(a, tag));
    } else {
        assert((a + b).drop_last() == a + b.drop_last());
        assert((a + b).last() == b.last());
        lemma_payloads_tagged_append(a, b.drop_last(), tag);
        if b.last().tag == tag {
            assert(payloads_tagged(a, tag) + payloads_tagged(b.drop_last(), tag).push(b.last().payload)
                == (payloads_tagged(a, tag) + payloads_tagged(b.drop_last(), tag)).push(b.last().payload));
        }
    }
}

/// Appending one item adds its payload to the projection on its own tag only.
pub proof fn lemma_payloads_tagged_push<P>(items: Seq<Tagged<P>>, item: Tagged<P>, tag: u64)
    ensures
        payloads_tagged(items.push(item), tag) == if item.tag == tag {
            payloads_tagged(items, tag).push(item.payload)
        } else {
            payloads_tagged(items, tag)
        },
{
    assert(items.push(item).drop_last() == items);
}

} // verus!
