//! Generational reference counting: strong handles keep a value alive, weak handles can
//! be upgraded only while it is.
//!
//! A registry holds, for each slot, a generation and a strong count; a slot whose count
//! drops to zero is freed, its generation bumped, and it is reused by a later
//! registration. A handle names a slot and the generation it was created in.

use vstd::prelude::*;

verus! {

/// The generation and strong count of a slot.
#[derive(Debug, Clone, Copy, PartialEq, Eq, Structural)]
pub struct Count {
    pub generation: usize,
    pub strong_count: usize,
}

/// No slot is lost and no slot's generation goes down from `a` to `b`.
pub open spec fn generations_grow(a: Seq<Count>, b: Seq<Count>) -> bool {
    &&& a.len() <= b.len()
    &&& forall|i: int| 0 <= i < a.len() ==> (#[trigger] a[i]).generation <= b[i].generation
}

/// The slots of the values handed out, their counts, and the free slots.
#[derive(Debug)]
pub struct Registry<T> {
    alive: Vec<Count>,
    dead: Vec<usize>,
    slots: Vec<Option<T>>,
}

/// A strong handle to a value held by a [`Registry`].
#[derive(Debug)]
pub struct Grc<T> {
    index: usize,
    generation: usize,
    phantom: std::marker::PhantomData<T>,
}

/// A weak handle to a value held by a [`Registry`].
#[derive(Debug)]
pub struct Weak<T> {
    index: usize,
    generation: usize,
    phantom: std::marker::PhantomData<T>,
}

impl<T> Registry<T> {
    /// The counts of the slots.
    pub closed spec fn counts(&self) -> Seq<Count> {
        self.alive@
    }

    /// The free slots, the one to be reused next last.
    pub closed spec fn free(&self) -> Seq<usize> {
        self.dead@
    }

    /// The values held, slot by slot.
    pub closed spec fn values(&self) -> Seq<Option<T>> {
        self.slots@
    }

    /// A slot holds a value exactly when its count is positive; the free slots are the
    /// slots with count zero, each listed once.
    pub open spec fn wf(&self) -> bool {
        &&& self.values().len() == self.counts().len()
        &&& forall|i: int| 0 <= i < self.counts().len() ==> ((#[trigger] self.counts()[i]).strong_count > 0 <==> self.values()[i] is Some)
        &&& forall|i: int| 0 <= i < self.counts().len() ==> (#[trigger] self.counts()[i].strong_count == 0 <==> self.free().contains(i as usize))
        &&& forall|k: int| 0 <= k < self.free().len() ==> (#[trigger] self.free()[k]) < self.counts().len()
        &&& forall|a: int, b: int| 0 <= a < b < self.free().len() ==> self.free()[a] != self.free()[b]
    }

    /// Whether a handle with this slot and generation names a live value.
    pub open spec fn is_live(&self, index: usize, generation: usize) -> bool {
        &&& index < self.counts().len()
        &&& self.counts()[index as int].generation == generation
        &&& self.counts()[index as int].strong_count > 0
    }

    /// Creates an empty registry.
    pub fn new() -> (r: Self)
        ensures
            r.wf(),
            r.counts() == Seq::<Count>::empty(),
            r.free() == Seq::<usize>::empty(),
    {
        Registry { alive: Vec::new(), dead: Vec::new(), slots: Vec::new() }
    }

    /// Takes a slot for a new value: the last freed slot if there is one, in its current
    /// generation, else a new slot in generation 0. The slot's count becomes 1. Returns the
    /// slot and its generation.
    pub fn register(&mut self, value: T) -> (r: (usize, usize))
        requires
            old(self).wf(),
        ensures
            final(self).wf(),
            old(self).free().len() > 0 ==> {
                let i = old(self).free().last();
                &&& r == (i, old(self).counts()[i as int].generation)
                &&& final(self).free() == old(self).free().drop_last()
                &&& final(self).counts() == old(self).counts().update(i as int, Count { generation: r.1, strong_count: 1 })
                &&& final(self).values() == old(self).values().update(i as int, Some(value))
            },
            old(self).free().len() == 0 ==> {
                &&& r == (old(self).counts().len() as usize, 0usize)
                &&& final(self).free() == old(self).free()
                &&& final(self).counts() == old(self).counts().push(Count { generation: 0, strong_count: 1 })
                &&& final(self).values() == old(self).values().push(Some(value))
            },
    {
        proof {
            assert(self.alive@.len() == self.alive.len());
        }
        match self.dead.pop() {
            Some(index) => {
                proof {
                    assert(old(self).free()[old(self).free().len() - 1] == index);
                }
                let generation = self.alive[index].generation;
                self.alive.set(index, Count { generation, strong_count: 1 });
                self.slots.set(index, Some(value));
                proof {
                    assert forall|k: int| 0 <= k < self.free().len() implies (#[trigger] self.free()[k]) != index by {
                        assert(old(self).free()[k] != old(self).free()[old(self).free().len() - 1]);
                    }
                    assert forall|i: int| 0 <= i < self.counts().len() implies (#[trigger] self.counts()[i].strong_count == 0
                        <==> self.free().contains(i as usize)) by {
                        if self.free().contains(i as usize) {
                            let k = choose|k: int| 0 <= k < self.free().len() && self.free()[k] == i as usize;
                            assert(old(self).free()[k] == i as usize);
                            assert(old(self).free().contains(i as usize));
                        }
                        if i != index as int && old(self).free().contains(i as usize) {
                            let k = choose|k: int| 0 <= k < old(self).free().len() && old(self).free()[k] == i as usize;
                            assert(k != old(self).free().len() - 1);
                            assert(self.free()[k] == i as usize);
                        }
                    }
                }
                (index, generation)
            },
            None => {
                let index = self.alive.len();
                self.alive.push(Count { generation: 0, strong_count: 1 });
                self.slots.push(Some(value));
                proof {
                    assert forall|i: int| 0 <= i < self.counts().len() implies (#[trigger] self.counts()[i].strong_count == 0
                        <==> self.free().contains(i as usize)) by {
                        if i < index {
                            assert(self.counts()[i] == old(self).counts()[i]);
                        } else {
                            assert(!self.free().contains(i as usize));
                        }
                    }
                }
                (index, 0)
            },
        }
    }

    /// Adds a strong reference to a live slot.
    pub fn retain(&mut self, index: usize)
        requires
            old(self).wf(),
            index < old(self).counts().len(),
            old(self).counts()[index as int].strong_count > 0,
            old(self).counts()[index as int].strong_count < usize::MAX,
        ensures
            final(self).wf(),
            final(self).free() == old(self).free(),
            final(self).values() == old(self).values(),
            final(self).counts() == old(self).counts().update(
                index as int,
                Count {
                    generation: old(self).counts()[index as int].generation,
                    strong_count: (old(self).counts()[index as int].strong_count + 1) as usize,
                },
            ),
    {
        let c = self.alive[index];
        self.alive.set(index, Count { generation: c.generation, strong_count: c.strong_count + 1 });
    }

    /// Drops a strong reference to a live slot. When it was the last one, the value is
    /// dropped, the slot's generation is bumped and the slot is freed.
    pub fn release(&mut self, index: usize)
        requires
            old(self).wf(),
            index < old(self).counts().len(),
            old(self).counts()[index as int].strong_count > 0,
            old(self).counts()[index as int].strong_count == 1 ==> old(self).counts()[index as int].generation < usize::MAX,
        ensures
            final(self).wf(),
            ({
                let c = old(self).counts()[index as int];
                if c.strong_count == 1 {
                    &&& final(self).counts() == old(self).counts().update(
                        index as int,
                        Count { generation: (c.generation + 1) as usize, strong_count: 0 },
                    )
                    &&& final(self).free() == old(self).free().push(index)
                    &&& final(self).values() == old(self).values().update(index as int, Option::None)
                } else {
                    &&& final(self).counts() == old(self).counts().update(
                        index as int,
                        Count { generation: c.generation, strong_count: (c.strong_count - 1) as usize },
                    )
                    &&& final(self).free() == old(self).free()
                    &&& final(self).values() == old(self).values()
                }
            }),
    {
        let c = self.alive[index];
        proof {
            assert(self.alive@.len() == self.alive.len());
        }
        if c.strong_count == 1 {
            self.alive.set(index, Count { generation: c.generation + 1, strong_count: 0 });
            self.dead.push(index);
            self.slots.set(index, None);
            proof {
                assert(!old(self).free().contains(index));
                assert forall|a: int, b: int| 0 <= a < b < self.free().len() implies self.free()[a] != self.free()[b] by {
                    if b == self.free().len() - 1 {
                        assert(self.free()[b] == index);
                        assert(self.free()[a] == old(self).free()[a]);
                    }
                }
                assert forall|i: int| 0 <= i < self.counts().len() implies (#[trigger] self.counts()[i].strong_count == 0
                    <==> self.free().contains(i as usize)) by {
                    if i == index as int {
                        assert(self.free()[self.free().len() - 1] == index);
                    } else {
                        if self.free().contains(i as usize) {
                            let k = choose|k: int| 0 <= k < self.free().len() && self.free()[k] == i as usize;
                            if k == self.free().len() - 1 {
                                assert(self.free()[k] == index);
                            }
                            assert(k < old(self).free().len());
                            assert(old(self).free()[k] == i as usize);
                        }
                        if old(self).free().contains(i as usize) {
                            let k = choose|k: int| 0 <= k < old(self).free().len() && old(self).free()[k] == i as usize;
                            assert(self.free()[k] == i as usize);
                        }
                    }
                }
            }
        } else {
            self.alive.set(index, Count { generation: c.generation, strong_count: c.strong_count - 1 });
        }
    }

    /// The value in a live slot.
    pub fn value(&self, index: usize) -> (r: &T)
        requires
            self.wf(),
            index < self.counts().len(),
            self.counts()[index as int].strong_count > 0,
        ensures
            self.values()[index as int] == Some(*r),
    {
        let slot = &self.slots[index];
        proof {
            let _ = self.counts()[index as int];
        }
        slot.as_ref().unwrap()
    }
}

impl<T> Grc<T> {
    /// The slot the handle names.
    pub closed spec fn index_of(&self) -> usize {
        self.index
    }

    /// The generation the handle was created in.
    pub closed spec fn generation_of(&self) -> usize {
        self.generation
    }

    /// Puts `init` in the registry and returns a strong handle to it.
    pub fn new(init: T, registry: &mut Registry<T>) -> (r: Self)
        requires
            old(registry).wf(),
        ensures
            final(registry).wf(),
            final(registry).is_live(r.index_of(), r.generation_of()),
            final(registry).counts()[r.index_of() as int].strong_count == 1,
            final(registry).values()[r.index_of() as int] == Some(init),
            old(registry).free().len() > 0 ==> r.index_of() == old(registry).free().last() && final(registry).free()
                == old(registry).free().drop_last(),
            old(registry).free().len() == 0 ==> r.index_of() == old(registry).counts().len() && r.generation_of() == 0,
            forall|i: int| 0 <= i < old(registry).counts().len() && i != r.index_of() ==> #[trigger] final(registry).counts()[i]
                == old(registry).counts()[i],
            generations_grow(old(registry).counts(), final(registry).counts()),
    {
        proof {
            if old(registry).free().len() > 0 {
                let _ = old(registry).free()[old(registry).free().len() - 1];
            }
        }
        proof {
            assert(old(registry).alive.len() == old(registry).alive@.len());
        }
        let (index, generation) = registry.register(init);
        proof {
            if old(registry).free().len() > 0 {
                let i = old(registry).free().last();
                assert(index == i);
                assert(registry.counts() == old(registry).counts().update(i as int, Count { generation, strong_count: 1 }));
                assert(i < old(registry).counts().len());
                assert(registry.counts()[index as int] == Count { generation, strong_count: 1 });
                assert(generation == old(registry).counts()[i as int].generation);
            } else {
                assert(registry.counts() == old(registry).counts().push(Count { generation: 0, strong_count: 1 }));
                assert(registry.counts()[index as int] == Count { generation, strong_count: 1 });
            }
            assert forall|i: int| 0 <= i < old(registry).counts().len() implies (#[trigger] old(registry).counts()[i]).generation
                <= registry.counts()[i].generation by {}
        }
        Grc { index, generation, phantom: std::marker::PhantomData }
    }

    /// A weak handle to the same value.
    pub fn downgrade(this: &Self) -> (r: Weak<T>)
        ensures
            r.index_of() == this.index_of(),
            r.generation_of() == this.generation_of(),
    {
        Weak { index: this.index, generation: this.generation, phantom: std::marker::PhantomData }
    }

    /// Another strong handle to the same value.
    pub fn clone_in(&self, registry: &mut Registry<T>) -> (r: Self)
        requires
            old(registry).wf(),
            old(registry).is_live(self.index_of(), self.generation_of()),
            old(registry).counts()[self.index_of() as int].strong_count < usize::MAX,
        ensures
            final(registry).wf(),
            r.index_of() == self.index_of(),
            r.generation_of() == self.generation_of(),
            final(registry).free() == old(registry).free(),
            final(registry).values() == old(registry).values(),
            final(registry).counts() == old(registry).counts().update(
                self.index_of() as int,
                Count {
                    generation: self.generation_of(),
                    strong_count: (old(registry).counts()[self.index_of() as int].strong_count + 1) as usize,
                },
            ),
            generations_grow(old(registry).counts(), final(registry).counts()),
    {
        registry.retain(self.index);
        Grc { index: self.index, generation: self.generation, phantom: std::marker::PhantomData }
    }

    /// Gives up this strong handle; the value is dropped with the last one.
    pub fn release(self, registry: &mut Registry<T>)
        requires
            old(registry).wf(),
            old(registry).is_live(self.index_of(), self.generation_of()),
            self.generation_of() < usize::MAX,
        ensures
            final(registry).wf(),
            ({
                let c = old(registry).counts()[self.index_of() as int];
                if c.strong_count == 1 {
                    &&& final(registry).counts() == old(registry).counts().update(
                        self.index_of() as int,
                        Count { generation: (c.generation + 1) as usize, strong_count: 0 },
                    )
                    &&& final(registry).free() == old(registry).free().push(self.index_of())
                    &&& final(registry).values() == old(registry).values().update(self.index_of() as int, Option::None)
                } else {
                    &&& final(registry).counts() == old(registry).counts().update(
                        self.index_of() as int,
                        Count { generation: c.generation, strong_count: (c.strong_count - 1) as usize },
                    )
                    &&& final(registry).free() == old(registry).free()
                    &&& final(registry).values() == old(registry).values()
                }
            }),
            generations_grow(old(registry).counts(), final(registry).counts()),
    {
        registry.release(self.index);
    }

    /// The value the handle names.
    pub fn get<'a>(&self, registry: &'a Registry<T>) -> (r: &'a T)
        requires
            registry.wf(),
            registry.is_live(self.index_of(), self.generation_of()),
        ensures
            registry.values()[self.index_of() as int] == Some(*r),
    {
        registry.value(self.index)
    }
}

impl<T> Weak<T> {
    /// The slot the handle names.
    pub closed spec fn index_of(&self) -> usize {
        self.index
    }

    /// The generation the handle was created in.
    pub closed spec fn generation_of(&self) -> usize {
        self.generation
    }

    /// A strong handle to the value, if it is still alive: its slot is in the handle's
    /// generation and holds a value.
    pub fn upgrade(&self, registry: &mut Registry<T>) -> (r: Option<Grc<T>>)
        requires
            old(registry).wf(),
            self.index_of() < old(registry).counts().len(),
            old(registry).counts()[self.index_of() as int].strong_count < usize::MAX,
        ensures
            final(registry).wf(),
            r is Some <==> old(registry).is_live(self.index_of(), self.generation_of()),
            match r {
                Some(g) => {
                    &&& g.index_of() == self.index_of()
                    &&& g.generation_of() == self.generation_of()
                    &&& final(registry).free() == old(registry).free()
                    &&& final(registry).values() == old(registry).values()
                    &&& final(registry).counts() == old(registry).counts().update(
                        self.index_of() as int,
                        Count {
                            generation: self.generation_of(),
                            strong_count: (old(registry).counts()[self.index_of() as int].strong_count + 1) as usize,
                        },
                    )
                },
                Option::None => *final(registry) == *old(registry),
            },
            generations_grow(old(registry).counts(), final(registry).counts()),
    {
        let c = registry.alive[self.index];
        if c.generation == self.generation && c.strong_count > 0 {
            registry.retain(self.index);
            Some(Grc { index: self.index, generation: self.generation, phantom: std::marker::PhantomData })
        } else {
            None
        }
    }
}

/// Once the last strong handle of a value is released, no weak handle of its generation
/// can be upgraded, not even after the slot has been reused.
pub proof fn law_released_value_stays_dead<T>(before: Registry<T>, after: Registry<T>, reused: Registry<T>, index: usize, generation: usize, value: T)
    requires
        before.wf(),
        before.is_live(index, generation),
        before.counts()[index as int].strong_count == 1,
        after.counts() == before.counts().update(index as int, Count { generation: (generation + 1) as usize, strong_count: 0 }),
        generation < usize::MAX,
        reused.counts() == after.counts().update(index as int, Count { generation: after.counts()[index as int].generation, strong_count: 1 }),
    ensures
        !after.is_live(index, generation),
        !reused.is_live(index, generation),
{
}

/// Generations only grow along a run of calls: what holds from `a` to `b` and from `b`
/// to `c` holds from `a` to `c`.
pub proof fn law_generations_grow_along_calls(a: Seq<Count>, b: Seq<Count>, c: Seq<Count>)
    requires
        generations_grow(a, b),
        generations_grow(b, c),
    ensures
        generations_grow(a, c),
{
    assert forall|i: int| 0 <= i < a.len() implies (#[trigger] a[i]).generation <= c[i].generation by {
        assert(a[i].generation <= b[i].generation);
        assert(b[i].generation <= c[i].generation);
    }
}

/// A handle whose slot has moved past its generation (its value's last strong handle was
/// released) never names a live value again, through any calls that keep generations
/// growing: every call on the registry does, and so a weak handle of it never upgrades
/// again, even after its slot is reused.
pub proof fn law_stale_handle_stays_dead<T>(before: Registry<T>, after: Registry<T>, index: usize, generation: usize)
    requires
        index < before.counts().len(),
        before.counts()[index as int].generation > generation,
        generations_grow(before.counts(), after.counts()),
    ensures
        !after.is_live(index, generation),
{
    assert(before.counts()[index as int].generation <= after.counts()[index as int].generation);
}

} // verus!
