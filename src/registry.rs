//! The listener registry: an append-only, ordered list of entries, each
//! tagged with the shape of the events its handler accepts.
use std::any::TypeId;
use vstd::prelude::*;

use crate::shape::same_shape;

verus! {

/// The positions in `shapes` that hold `shape`, in increasing order.
pub open spec fn matching_indices(shapes: Seq<TypeId>, shape: TypeId) -> Seq<int>
    decreases shapes.len(),
{
    if shapes.len() == 0 {
        Seq::empty()
    } else {
        let earlier = matching_indices(shapes.drop_last(), shape);
        if shapes.last() == shape {
            earlier.push(shapes.len() - 1)
        } else {
            earlier
        }
    }
}

/// One registered listener: the shape it was registered for and its handler.
pub struct Entry<H> {
    pub shape: TypeId,
    pub handler: H,
}

/// Listeners of many shapes in one collection, kept in registration order.
pub struct Registry<H> {
    entries: Vec<Entry<H>>,
}

impl<H> Registry<H> {
    /// The shape of each entry, in registration order.
    pub closed spec fn shapes(&self) -> Seq<TypeId> {
        self.entries@.map_values(|e: Entry<H>| e.shape)
    }

    /// The handler of each entry, in registration order.
    pub closed spec fn handlers(&self) -> Seq<H> {
        self.entries@.map_values(|e: Entry<H>| e.handler)
    }

    /// An empty registry.
    pub fn new() -> (r: Self)
        ensures
            r.shapes() == Seq::<TypeId>::empty(),
            r.handlers() == Seq::<H>::empty(),
    {
        let r = Registry { entries: Vec::new() };
        assert(r.shapes() =~= Seq::<TypeId>::empty());
        assert(r.handlers() =~= Seq::<H>::empty());
        r
    }

    /// The number of entries.
    pub fn len(&self) -> (r: usize)
        ensures
            r == self.shapes().len(),
    {
        self.entries.len()
    }

    /// Appends a handler for events of `shape`.
    pub fn register(&mut self, shape: TypeId, handler: H)
        ensures
            final(self).shapes() == old(self).shapes().push(shape),
            final(self).handlers() == old(self).handlers().push(handler),
    {
        self.entries.push(Entry { shape, handler });
        assert(self.shapes() =~= old(self).shapes().push(shape));
        assert(self.handlers() =~= old(self).handlers().push(handler));
    }

    /// Whether some entry was registered for `shape`.
    pub fn has_shape(&self, shape: &TypeId) -> (r: bool)
        ensures
            r == self.shapes().contains(*shape),
    {
        let mut i: usize = 0;
        while i < self.entries.len()
            invariant
                i <= self.entries@.len(),
                forall|j: int| 0 <= j < i ==> self.shapes()[j] != *shape,
            decreases self.entries@.len() - i,
        {
            if same_shape(&self.entries[i].shape, shape) {
                assert(self.shapes()[i as int] == *shape);
                return true;
            }
            i += 1;
        }
        false
    }

    /// The positions of the entries registered for `shape`, in registration order.
    pub fn matching(&self, shape: &TypeId) -> (r: Vec<usize>)
        ensures
            r@.map_values(|i: usize| i as int) == matching_indices(self.shapes(), *shape),
    {
        let mut r: Vec<usize> = Vec::new();
        let mut i: usize = 0;
        while i < self.entries.len()
            invariant
                i <= self.entries@.len(),
                r@.map_values(|j: usize| j as int) == matching_indices(
                    self.shapes().take(i as int),
                    *shape,
                ),
            decreases self.entries@.len() - i,
        {
            let ghost before = r@;
            assert(self.shapes().take(i + 1).drop_last() =~= self.shapes().take(i as int));
            if same_shape(&self.entries[i].shape, shape) {
                r.push(i);
                assert(r@.map_values(|j: usize| j as int) =~= before.map_values(
                    |j: usize| j as int,
                ).push(i as int));
            }
            i += 1;
        }
        assert(self.shapes().take(self.entries@.len() as int) =~= self.shapes());
        r
    }

    /// The handler of the entry at `i`, to be called in place.
    pub fn handler_mut(&mut self, i: usize) -> (r: &mut H)
        requires
            i < old(self).shapes().len(),
        ensures
            *r == old(self).handlers()[i as int],
            final(self).shapes() == old(self).shapes(),
            final(self).handlers() == old(self).handlers().update(i as int, *final(r)),
    {
        let entry = &mut self.entries[i];
        &mut entry.handler
    }
}

/// Every position that a dispatch for `shape` reaches holds an entry of that
/// shape: listeners of other shapes are never reached.
pub proof fn lemma_matching_only_shape(shapes: Seq<TypeId>, shape: TypeId)
    ensures
        forall|j: int|
            0 <= j < matching_indices(shapes, shape).len() ==> {
                let p = #[trigger] matching_indices(shapes, shape)[j];
                0 <= p < shapes.len() && shapes[p] == shape
            },
    decreases shapes.len(),
{
    if shapes.len() > 0 {
        let prefix = shapes.drop_last();
        lemma_matching_only_shape(prefix, shape);
        let m = matching_indices(shapes, shape);
        let e = matching_indices(prefix, shape);
        assert forall|j: int| 0 <= j < m.len() implies {
            let p = #[trigger] m[j];
            0 <= p < shapes.len() && shapes[p] == shape
        } by {
            if j < e.len() {
                assert(m[j] == e[j]);
                assert(shapes[e[j]] == prefix[e[j]]);
            }
        }
    }
}

/// A dispatch for `shape` reaches every entry of that shape.
pub proof fn lemma_matching_every_entry(shapes: Seq<TypeId>, shape: TypeId)
    ensures
        forall|p: int|
            0 <= p < shapes.len() && shapes[p] == shape ==> matching_indices(
                shapes,
                shape,
            ).contains(p),
    decreases shapes.len(),
{
    if shapes.len() > 0 {
        lemma_matching_every_entry(shapes.drop_last(), shape);
        let m = matching_indices(shapes, shape);
        let e = matching_indices(shapes.drop_last(), shape);
        assert forall|p: int| 0 <= p < shapes.len() && shapes[p] == shape implies m.contains(p) by {
            if p < shapes.len() - 1 {
                assert(shapes.drop_last()[p] == shape);
                let w = choose|w: int| 0 <= w < e.len() && e[w] == p;
                if shapes.last() == shape {
                    assert(m[w] == p);
                }
            } else {
                assert(m[m.len() - 1] == p);
            }
        }
    }
}

/// The entries of a shape are reached in registration order: positions
/// strictly increase, so no entry is reached twice.
pub proof fn lemma_matching_in_order(shapes: Seq<TypeId>, shape: TypeId)
    ensures
        forall|a: int, b: int|
            0 <= a < b < matching_indices(shapes, shape).len() ==> #[trigger] matching_indices(
                shapes,
                shape,
            )[a] < #[trigger] matching_indices(shapes, shape)[b],
    decreases shapes.len(),
{
    if shapes.len() > 0 {
        let prefix = shapes.drop_last();
        lemma_matching_in_order(prefix, shape);
        lemma_matching_only_shape(prefix, shape);
        let m = matching_indices(shapes, shape);
        let e = matching_indices(prefix, shape);
        assert forall|a: int, b: int| 0 <= a < b < m.len() implies #[trigger] m[a] < #[trigger] m[b] by {
            assert(m[a] == e[a]);
            if b < e.len() {
                assert(m[b] == e[b]);
            } else {
                assert(m[b] == shapes.len() - 1);
                assert(0 <= e[a] < prefix.len());
            }
        }
    }
}

/// Where no entry has `shape`, a dispatch for it reaches nothing.
pub proof fn lemma_no_listener_no_match(shapes: Seq<TypeId>, shape: TypeId)
    requires
        !shapes.contains(shape),
    ensures
        matching_indices(shapes, shape) == Seq::<int>::empty(),
{
    lemma_matching_only_shape(shapes, shape);
    let m = matching_indices(shapes, shape);
    if m.len() > 0 {
        assert(shapes[m[0]] == shape);
    }
    assert(m =~= Seq::<int>::empty());
}

} // verus!
