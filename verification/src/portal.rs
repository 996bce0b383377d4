//! Portals: content written at one place of a component tree and shown at
//! another, the two places sharing nothing but an identifier.
//!
//! A [`PortalCtx`] holds the portals of one provider. [`PortalInput`] writes
//! content into the slot of an identifier and [`PortalOutput`] takes it out
//! again. A slot comes into being the first time either of them names its
//! identifier, and stays where it is from then on.
//!
//! The registry is handed to the two explicitly. A place that found no provider
//! hands over `None`, and is told [`PortalError::MissingProvider`].

use vstd::prelude::*;
use vstd::laws_eq::obeys_concrete_eq;

verus! {

/// What the portals hold under `id`: the content that waits in the slot of
/// `id`, and nothing where the slot is empty or was never made.
pub open spec fn content<K, R>(portals: Map<K, Option<R>>, id: K) -> Option<R> {
    if portals.dom().contains(id) {
        portals[id]
    } else {
        None
    }
}

/// The portals after `children` were written under `id`: they take the place
/// of what the slot held, and every other slot is as it was.
pub open spec fn published<K, R>(portals: Map<K, Option<R>>, id: K, children: R) -> Map<
    K,
    Option<R>,
> {
    portals.insert(id, Some(children))
}

/// The portals after the content under `id` was taken out: the slot is there
/// and empty, and every other slot is as it was.
pub open spec fn consumed<K, R>(portals: Map<K, Option<R>>, id: K) -> Map<K, Option<R>> {
    portals.insert(id, None)
}

/// The portals of one provider: one slot for every identifier that a portal
/// input or a portal output has named so far, each slot holding the content
/// that waits to be shown, if any.
///
/// `K` is the type of the identifiers, on which `==` has to be equality of
/// values, and `R` is what a portal carries: most often a renderer.
///
/// The view of a registry is the map from each identifier that has a slot to
/// what the slot holds.
pub struct PortalCtx<K: PartialEq, R> {
    portals: Vec<(K, Option<R>)>,
}

impl<K: PartialEq, R> View for PortalCtx<K, R> {
    type V = Map<K, Option<R>>;

    closed spec fn view(&self) -> Map<K, Option<R>> {
        contents(self.portals@)
    }
}

impl<K: PartialEq, R> PortalCtx<K, R> {
    #[verifier::type_invariant]
    spec fn no_slot_twice(self) -> bool {
        &&& obeys_concrete_eq::<K>()
        &&& distinct_keys(self.portals@)
    }

    /// The identifiers of the slots, in the order in which the slots were made.
    pub closed spec fn keys(self) -> Seq<K> {
        keys_of(self.portals@)
    }

    /// The identifiers of the slots once `id` has been named: as they are
    /// where `id` has a slot, and with `id` behind them where it has none.
    pub open spec fn keys_with(self, id: K) -> Seq<K> {
        if self@.dom().contains(id) {
            self.keys()
        } else {
            self.keys().push(id)
        }
    }

    /// The identifiers that the view maps are those of the slots.
    pub proof fn lemma_view_maps_keys(self)
        ensures
            forall|id: K| self@.dom().contains(id) <==> self.keys().contains(id),
    {
        let slots = self.portals@;
        assert forall|id: K| self@.dom().contains(id) <==> self.keys().contains(id) by {
            if has_slot(slots, id) {
                let i = choose|i: int| 0 <= i < slots.len() && (#[trigger] slots[i]).0 == id;
                assert(keys_of(slots)[i] == id);
            }
            if keys_of(slots).contains(id) {
                let i = choose|i: int| 0 <= i < slots.len() && keys_of(slots)[i] == id;
                assert(slots[i].0 == id);
            }
        }
    }

    /// A registry without slots.
    pub fn new() -> (ctx: Self)
        requires
            obeys_concrete_eq::<K>(),
        ensures
            ctx@ == Map::<K, Option<R>>::empty(),
            ctx.keys() == Seq::<K>::empty(),
    {
        PortalCtx { portals: Vec::new() }
    }

    /// The number of slots.
    pub fn len(&self) -> (n: usize)
        ensures
            n == self.keys().len(),
    {
        self.portals.len()
    }

    /// The place of the slot of `id` among the slots, if it has one. No
    /// identifier has two slots, so there is one such place at most.
    pub fn position(&self, id: &K) -> (at: Option<usize>)
        ensures
            at is Some <==> self@.dom().contains(*id),
            at matches Some(i) ==> i < self.keys().len() && self.keys()[i as int] == *id,
            self.keys().no_duplicates(),
    {
        proof {
            use_type_invariant(self);
        }
        let mut i: usize = 0;
        while i < self.portals.len()
            invariant
                0 <= i <= self.portals.len(),
                obeys_concrete_eq::<K>(),
                distinct_keys(self.portals@),
                forall|j: int| 0 <= j < i ==> (#[trigger] self.portals@[j]).0 != *id,
            decreases self.portals.len() - i,
        {
            proof {
                reveal(obeys_concrete_eq);
            }
            if self.portals[i].0 == *id {
                return Some(i);
            }
            i += 1;
        }
        None
    }

    /// Writes `children` into the slot of `id`, in place of what it held. The
    /// slot is made, behind those that are there, if `id` had none; no slot
    /// moves and none is made twice.
    pub fn publish(&mut self, id: K, children: R)
        ensures
            final(self)@ == published(old(self)@, id, children),
            final(self).keys() == old(self).keys_with(id),
            final(self).keys().no_duplicates(),
    {
        proof {
            use_type_invariant(&*self);
        }
        let at = self.position(&id);
        // The slots leave the registry while they change, and come back in shape.
        let mut portals: Vec<(K, Option<R>)> = Vec::new();
        std::mem::swap(&mut portals, &mut self.portals);
        let ghost before = portals@;
        match at {
            Some(pos) => {
                proof {
                    lemma_contents_update(before, pos as int, Some(children));
                }
                portals[pos].1 = Some(children);
            },
            None => {
                proof {
                    lemma_contents_push(before, id, Some(children));
                }
                portals.push((id, Some(children)));
            },
        }
        proof {
            lemma_keys_after(before, portals@, id);
        }
        self.portals = portals;
    }

    /// Takes the content out of the slot of `id` and returns it; the slot is
    /// empty afterwards. Where `id` had no slot, an empty one is made behind
    /// those that are there, and nothing is returned.
    pub fn consume(&mut self, id: K) -> (children: Option<R>)
        ensures
            children == content(old(self)@, id),
            final(self)@ == consumed(old(self)@, id),
            final(self).keys() == old(self).keys_with(id),
            final(self).keys().no_duplicates(),
    {
        proof {
            use_type_invariant(&*self);
        }
        let at = self.position(&id);
        // The slots leave the registry while they change, and come back in shape.
        let mut portals: Vec<(K, Option<R>)> = Vec::new();
        std::mem::swap(&mut portals, &mut self.portals);
        let ghost before = portals@;
        let children = match at {
            Some(pos) => {
                proof {
                    lemma_contents_at(before, pos as int);
                    lemma_contents_update(before, pos as int, None);
                }
                portals[pos].1.take()
            },
            None => {
                proof {
                    lemma_contents_push(before, id, None);
                }
                portals.push((id, None));
                None
            },
        };
        proof {
            lemma_keys_after(before, portals@, id);
        }
        self.portals = portals;
        children
    }
}

/// What a place that uses a portal without a provider above it is told.
pub const CONTEXT_NOT_FOUND_ERROR_MESSAGE: &'static str =
    "failed to find `PortalCtx`, make sure you are using `<PortalProvider />` somewhere near the root of the app";

/// Why a portal could not be used.
#[derive(Clone, Copy, Debug, PartialEq, Eq, Structural)]
pub enum PortalError {
    /// No provider stands above the place that used the portal.
    MissingProvider,
}

impl PortalError {
    /// What went wrong, in words.
    pub fn message(&self) -> (text: &'static str)
        ensures
            text@ == CONTEXT_NOT_FOUND_ERROR_MESSAGE@,
    {
        match self {
            PortalError::MissingProvider => CONTEXT_NOT_FOUND_ERROR_MESSAGE,
        }
    }
}

/// Sets up the portals of a provider: a registry without slots, for the
/// provider to offer to everything below it.
#[allow(non_snake_case)]
pub fn PortalProvider<K: PartialEq, R>() -> (portal_ctx: PortalCtx<K, R>)
    requires
        obeys_concrete_eq::<K>(),
    ensures
        portal_ctx@ == Map::<K, Option<R>>::empty(),
        portal_ctx.keys() == Seq::<K>::empty(),
{
    PortalCtx::new()
}

/// The way into a portal: writes `children` under `id`, for the portal output
/// with the same `id` to show.
///
/// `portal_ctx` is what the search for a provider came back with. Without a
/// provider nothing can be written, and the call fails.
#[allow(non_snake_case)]
pub fn PortalInput<K: PartialEq, R>(
    portal_ctx: Option<&mut PortalCtx<K, R>>,
    id: K,
    children: R,
) -> (written: Result<(), PortalError>)
    ensures
        portal_ctx is None ==> written == Err::<(), PortalError>(PortalError::MissingProvider),
        portal_ctx matches Some(ctx) ==> {
            &&& written is Ok
            &&& final(ctx)@ == published(ctx@, id, children)
            &&& final(ctx).keys() == ctx.keys_with(id)
            &&& final(ctx).keys().no_duplicates()
        },
{
    match portal_ctx {
        Some(ctx) => {
            ctx.publish(id, children);
            Ok(())
        },
        None => Err(PortalError::MissingProvider),
    }
}

/// The way out of a portal: takes what was written under `id` and hands it
/// over to be shown, or nothing where nothing waits.
///
/// `portal_ctx` is what the search for a provider came back with. Without a
/// provider the call fails.
#[allow(non_snake_case)]
pub fn PortalOutput<K: PartialEq, R>(portal_ctx: Option<&mut PortalCtx<K, R>>, id: K) -> (taken:
    Result<Option<R>, PortalError>)
    ensures
        portal_ctx is None ==> taken == Err::<Option<R>, PortalError>(PortalError::MissingProvider),
        portal_ctx matches Some(ctx) ==> {
            &&& taken == Ok::<Option<R>, PortalError>(content(ctx@, id))
            &&& final(ctx)@ == consumed(ctx@, id)
            &&& final(ctx).keys() == ctx.keys_with(id)
            &&& final(ctx).keys().no_duplicates()
        },
{
    match portal_ctx {
        Some(ctx) => Ok(ctx.consume(id)),
        None => Err(PortalError::MissingProvider),
    }
}

/// What was written under an identifier is what comes out under it, and it
/// comes out once: taking again, with nothing written in between, yields
/// nothing.
pub proof fn lemma_publish_then_consume<K, R>(portals: Map<K, Option<R>>, id: K, children: R)
    ensures
        content(published(portals, id, children), id) == Some(children),
        content(consumed(published(portals, id, children), id), id) is None,
{
}

/// An output may come before its input: the empty slot that it leaves is the
/// one that the input fills, and what was written is there for the output that
/// follows.
pub proof fn lemma_consume_then_publish<K, R>(portals: Map<K, Option<R>>, id: K, children: R)
    ensures
        published(consumed(portals, id), id, children) == published(portals, id, children),
        content(published(consumed(portals, id), id, children), id) == Some(children),
{
    assert(published(consumed(portals, id), id, children) =~= published(portals, id, children));
}

/// Where nothing was ever written under an identifier, nothing comes out, and
/// the slot that the taking makes is empty.
pub proof fn lemma_consume_unpublished<K, R>(portals: Map<K, Option<R>>, id: K)
    requires
        !portals.dom().contains(id),
    ensures
        content(portals, id) is None,
        consumed(portals, id).dom().contains(id),
        content(consumed(portals, id), id) is None,
{
}

/// Portals under different identifiers do not touch: neither writing nor
/// taking under one changes what is held under the other, nor whether the
/// other has a slot.
pub proof fn lemma_distinct_ids_independent<K, R>(
    portals: Map<K, Option<R>>,
    id: K,
    other: K,
    children: R,
)
    requires
        id != other,
    ensures
        content(published(portals, id, children), other) == content(portals, other),
        content(consumed(portals, id), other) == content(portals, other),
        published(portals, id, children).dom().contains(other) == portals.dom().contains(other),
        consumed(portals, id).dom().contains(other) == portals.dom().contains(other),
{
}

/// No two of the slots have the same identifier.
spec fn distinct_keys<K, R>(slots: Seq<(K, Option<R>)>) -> bool {
    forall|i: int, j: int|
        0 <= i < j < slots.len() ==> (#[trigger] slots[i]).0 != (#[trigger] slots[j]).0
}

/// Some slot has the identifier `id`.
spec fn has_slot<K, R>(slots: Seq<(K, Option<R>)>, id: K) -> bool {
    exists|i: int| 0 <= i < slots.len() && (#[trigger] slots[i]).0 == id
}

/// The slots as a map from each identifier to what its slot holds.
spec fn contents<K, R>(slots: Seq<(K, Option<R>)>) -> Map<K, Option<R>> {
    Map::new(
        |id: K| has_slot(slots, id),
        |id: K| slots[choose|i: int| 0 <= i < slots.len() && (#[trigger] slots[i]).0 == id].1,
    )
}

/// The identifiers of the slots, in the order of the slots.
spec fn keys_of<K, R>(slots: Seq<(K, Option<R>)>) -> Seq<K> {
    slots.map_values(|slot: (K, Option<R>)| slot.0)
}

/// A slot is found under its identifier.
proof fn lemma_contents_at<K, R>(slots: Seq<(K, Option<R>)>, i: int)
    requires
        distinct_keys(slots),
        0 <= i < slots.len(),
    ensures
        contents(slots).dom().contains(slots[i].0),
        contents(slots)[slots[i].0] == slots[i].1,
{
    // No other slot has the identifier of slot `i`, so it is the one chosen.
    let chosen = choose|j: int| 0 <= j < slots.len() && (#[trigger] slots[j]).0 == slots[i].0;
    assert(chosen == i);
}

/// Writing into a slot changes what is held under its identifier, and nothing
/// else.
proof fn lemma_contents_update<K, R>(slots: Seq<(K, Option<R>)>, i: int, held: Option<R>)
    requires
        distinct_keys(slots),
        0 <= i < slots.len(),
    ensures
        distinct_keys(slots.update(i, (slots[i].0, held))),
        contents(slots.update(i, (slots[i].0, held))) == contents(slots).insert(slots[i].0, held),
{
    let after = slots.update(i, (slots[i].0, held));
    let wanted = contents(slots).insert(slots[i].0, held);
    // The identifiers are those of before, slot by slot.
    assert forall|j: int| 0 <= j < slots.len() implies (#[trigger] after[j]).0 == slots[j].0 by {}
    assert(distinct_keys(after));
    assert forall|id: K| contents(after).dom().contains(id) <==> wanted.dom().contains(id) by {
        if has_slot(after, id) {
            let j = choose|j: int| 0 <= j < after.len() && (#[trigger] after[j]).0 == id;
            assert(slots[j].0 == id);
        }
        if has_slot(slots, id) {
            let j = choose|j: int| 0 <= j < slots.len() && (#[trigger] slots[j]).0 == id;
            assert(after[j].0 == id);
        }
    }
    assert forall|id: K| contents(after).dom().contains(id) implies contents(after)[id]
        == wanted[id] by {
        let j = choose|j: int| 0 <= j < after.len() && (#[trigger] after[j]).0 == id;
        lemma_contents_at(after, j);
        if j != i {
            lemma_contents_at(slots, j);
        }
    }
    assert(contents(after) =~= wanted);
}

/// A new slot adds what it holds under its identifier, and changes nothing
/// else.
proof fn lemma_contents_push<K, R>(slots: Seq<(K, Option<R>)>, id: K, held: Option<R>)
    requires
        distinct_keys(slots),
        !has_slot(slots, id),
    ensures
        distinct_keys(slots.push((id, held))),
        contents(slots.push((id, held))) == contents(slots).insert(id, held),
{
    let after = slots.push((id, held));
    let wanted = contents(slots).insert(id, held);
    // The slots of before are where they were, and the new one is last.
    assert forall|j: int| 0 <= j < slots.len() implies #[trigger] after[j] == slots[j] by {}
    assert(after[slots.len() as int] == (id, held));
    assert(distinct_keys(after));
    assert forall|k: K| contents(after).dom().contains(k) <==> wanted.dom().contains(k) by {
        if has_slot(after, k) {
            let j = choose|j: int| 0 <= j < after.len() && (#[trigger] after[j]).0 == k;
            if j < slots.len() {
                assert(slots[j].0 == k);
            }
        }
        if has_slot(slots, k) {
            let j = choose|j: int| 0 <= j < slots.len() && (#[trigger] slots[j]).0 == k;
            assert(after[j].0 == k);
        }
    }
    assert forall|k: K| contents(after).dom().contains(k) implies contents(after)[k]
        == wanted[k] by {
        let j = choose|j: int| 0 <= j < after.len() && (#[trigger] after[j]).0 == k;
        lemma_contents_at(after, j);
        if j < slots.len() {
            lemma_contents_at(slots, j);
        }
    }
    assert(contents(after) =~= wanted);
}

/// What naming `id` does to the identifiers: they stay as they are where the
/// slot of `id` was only written to, and `id` comes behind them where its slot
/// was made.
proof fn lemma_keys_after<K, R>(before: Seq<(K, Option<R>)>, after: Seq<(K, Option<R>)>, id: K)
    requires
        distinct_keys(after),
        has_slot(before, id) ==> after.len() == before.len() && forall|i: int|
            0 <= i < before.len() ==> (#[trigger] after[i]).0 == before[i].0,
        !has_slot(before, id) ==> after.len() == before.len() + 1 && after.last().0 == id
            && forall|i: int| 0 <= i < before.len() ==> (#[trigger] after[i]).0 == before[i].0,
    ensures
        keys_of(after).no_duplicates(),
        has_slot(before, id) ==> keys_of(after) == keys_of(before),
        !has_slot(before, id) ==> keys_of(after) == keys_of(before).push(id),
{
    if has_slot(before, id) {
        assert(keys_of(after) =~= keys_of(before));
    } else {
        assert(keys_of(after) =~= keys_of(before).push(id));
    }
}

} // verus!
