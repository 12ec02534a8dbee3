//! Tracking which reactive variables a computation read, and whether they changed since.
//!
//! A variable lives in a slot of a registry. A slot is reused after its variable is
//! dropped, with a new generation; each write to a variable raises its slot's version.
//! A [`VarKey`] names a variable by its slot and generation, and a [`SlotState`] is what
//! a slot holds at the moment it is looked at.

use vstd::prelude::*;

verus! {

/// The identity of a reactive variable: the slot it lives in and the generation of that
/// slot when it was created.
#[derive(Debug, Clone, Copy, PartialEq, Eq, Structural)]
pub struct VarKey {
    pub slot: usize,
    pub generation: u64,
}

/// What a slot of the registry holds now: its generation and the version of its value.
#[derive(Debug, Clone, Copy, PartialEq, Eq, Structural)]
pub struct SlotState {
    pub generation: u64,
    pub version: u64,
}

/// Whether the variable `key` has been dropped: its slot is gone or was reused.
pub open spec fn var_dropped(slots: Seq<SlotState>, key: VarKey) -> bool {
    key.slot >= slots.len() || slots[key.slot as int].generation != key.generation
}

/// Whether the variable `key`, last seen at version `last_seen`, was dropped or written since.
pub open spec fn var_changed(slots: Seq<SlotState>, key: VarKey, last_seen: u64) -> bool {
    var_dropped(slots, key) || slots[key.slot as int].version != last_seen
}

/// Whether some variable of `deps` was dropped or written since the version recorded for it.
pub open spec fn some_var_changed(deps: Map<VarKey, u64>, slots: Seq<SlotState>) -> bool {
    exists|k: VarKey| #[trigger] deps.contains_key(k) && var_changed(slots, k, deps[k])
}

/// `deps` without its dropped variables, each remaining one at its current version.
pub open spec fn settled(deps: Map<VarKey, u64>, slots: Seq<SlotState>) -> Map<VarKey, u64> {
    Map::new(|k: VarKey| deps.contains_key(k) && !var_dropped(slots, k), |k: VarKey| slots[k.slot as int].version)
}

/// `deps` after reading version `version` of `key`: the highest version seen is kept.
pub open spec fn recorded(deps: Map<VarKey, u64>, key: VarKey, version: u64) -> Map<VarKey, u64> {
    deps.insert(key, if deps.contains_key(key) && deps[key] > version { deps[key] } else { version })
}

/// The variables read so far, each with the highest version seen of it.
///
/// Most apps will not need to use this.
#[derive(Debug, Clone)]
pub struct DependencyMap {
    deps: Vec<(VarKey, u64)>,
}

/// Whether `key` is recorded in `deps`.
pub open spec fn has_key(deps: Seq<(VarKey, u64)>, key: VarKey) -> bool {
    exists|i: int| 0 <= i < deps.len() && #[trigger] deps[i].0 == key
}

/// The version recorded for `key` in `deps`.
pub open spec fn version_of(deps: Seq<(VarKey, u64)>, key: VarKey) -> u64 {
    deps[choose|i: int| 0 <= i < deps.len() && #[trigger] deps[i].0 == key].1
}

/// No key is recorded twice.
pub open spec fn keys_distinct(deps: Seq<(VarKey, u64)>) -> bool {
    forall|i: int, j: int| 0 <= i < deps.len() && 0 <= j < deps.len() && i != j ==> deps[i].0 != deps[j].0
}

/// The recorded dependencies as a map from variable to last seen version.
pub open spec fn deps_map(deps: Seq<(VarKey, u64)>) -> Map<VarKey, u64> {
    Map::new(|k: VarKey| has_key(deps, k), |k: VarKey| version_of(deps, k))
}

proof fn lemma_version_at(deps: Seq<(VarKey, u64)>, i: int)
    requires
        keys_distinct(deps),
        0 <= i < deps.len(),
    ensures
        has_key(deps, deps[i].0),
        version_of(deps, deps[i].0) == deps[i].1,
{
    let k = deps[i].0;
    assert(has_key(deps, k));
    let j = choose|j: int| 0 <= j < deps.len() && #[trigger] deps[j].0 == k;
    assert(j == i);
}

impl View for DependencyMap {
    type V = Map<VarKey, u64>;

    closed spec fn view(&self) -> Map<VarKey, u64> {
        deps_map(self.deps@)
    }
}

impl Default for DependencyMap {
    fn default() -> (r: Self)
        ensures
            r.wf(),
            r@ == Map::<VarKey, u64>::empty(),
    {
        DependencyMap::new()
    }
}

impl DependencyMap {
    /// The map is well formed: no variable is recorded twice.
    pub closed spec fn wf(&self) -> bool {
        keys_distinct(self.deps@)
    }

    /// An empty map.
    pub fn new() -> (r: Self)
        ensures
            r.wf(),
            r@ == Map::<VarKey, u64>::empty(),
    {
        let r = DependencyMap { deps: Vec::new() };
        assert(r@ =~= Map::<VarKey, u64>::empty());
        r
    }

    /// Records that version `version` of the variable `key` was read; the map keeps the
    /// highest version seen of each variable.
    pub fn record(&mut self, key: VarKey, version: u64)
        requires
            old(self).wf(),
        ensures
            final(self).wf(),
            final(self)@ == recorded(old(self)@, key, version),
    {
        let ghost before = self.deps@;
        let n = self.deps.len();
        let mut i: usize = 0;
        while i < n
            invariant
                n == self.deps@.len(),
                self.deps@ == before,
                old(self).deps@ == before,
                keys_distinct(before),
                i <= n,
                forall|j: int| 0 <= j < i ==> before[j].0 != key,
            decreases n - i,
        {
            if self.deps[i].0 == key {
                let old_version = self.deps[i].1;
                let new_version = if old_version > version {
                    old_version
                } else {
                    version
                };
                self.deps.set(i, (key, new_version));
                proof {
                    lemma_version_at(before, i as int);
                    let after = self.deps@;
                    assert(after =~= before.update(i as int, (key, new_version)));
                    assert(keys_distinct(after));
                    assert forall|k: VarKey| #[trigger] has_key(after, k) == has_key(before, k) by {
                        if has_key(before, k) {
                            let j = choose|j: int| 0 <= j < before.len() && #[trigger] before[j].0 == k;
                            assert(after[j].0 == k);
                        }
                        if has_key(after, k) {
                            let j = choose|j: int| 0 <= j < after.len() && #[trigger] after[j].0 == k;
                            assert(before[j].0 == k);
                        }
                    }
                    assert forall|k: VarKey| has_key(after, k) implies version_of(after, k) == (if k == key {
                        new_version
                    } else {
                        version_of(before, k)
                    }) by {
                        let j = choose|j: int| 0 <= j < after.len() && #[trigger] after[j].0 == k;
                        lemma_version_at(after, j);
                        lemma_version_at(before, j);
                    }
                    assert(deps_map(after) =~= deps_map(before).insert(key, new_version));
                    assert(deps_map(before).contains_key(key));
                    assert(deps_map(before)[key] == old_version);
                    assert(recorded(deps_map(before), key, version) == deps_map(before).insert(key, new_version));
                }
                return;
            }
            i += 1;
        }
        self.deps.push((key, version));
        proof {
            let after = self.deps@;
            assert(after =~= before.push((key, version)));
            assert(!has_key(before, key));
            assert(keys_distinct(after));
            assert forall|k: VarKey| #[trigger] has_key(after, k) == (has_key(before, k) || k == key) by {
                if has_key(before, k) {
                    let j = choose|j: int| 0 <= j < before.len() && #[trigger] before[j].0 == k;
                    assert(after[j].0 == k);
                }
                if k == key {
                    assert(after[n as int].0 == k);
                }
            }
            assert forall|k: VarKey| has_key(after, k) implies version_of(after, k) == (if k == key {
                version
            } else {
                version_of(before, k)
            }) by {
                let j = choose|j: int| 0 <= j < after.len() && #[trigger] after[j].0 == k;
                lemma_version_at(after, j);
                if j < n {
                    lemma_version_at(before, j);
                }
            }
            assert(deps_map(after) =~= deps_map(before).insert(key, version));
        }
    }

    /// Removes all dependencies from the map.
    pub fn clear(&mut self)
        ensures
            final(self).wf(),
            final(self)@ == Map::<VarKey, u64>::empty(),
    {
        self.deps.clear();
        assert(self@ =~= Map::<VarKey, u64>::empty());
    }

    /// Returns the map with all dependencies removed.
    pub fn cleared(self) -> (r: Self)
        ensures
            r.wf(),
            r@ == Map::<VarKey, u64>::empty(),
    {
        let mut m = self;
        m.clear();
        m
    }

    /// Whether any variable in the map was dropped, or written since the version recorded
    /// for it, with the registry's slots as `slots` shows them. Records nothing.
    pub fn any_changed(&self, slots: &[SlotState]) -> (r: bool)
        requires
            self.wf(),
        ensures
            r == some_var_changed(self@, slots@),
    {
        let n = self.deps.len();
        let mut i: usize = 0;
        while i < n
            invariant
                n == self.deps@.len(),
                keys_distinct(self.deps@),
                i <= n,
                forall|j: int| 0 <= j < i ==> !var_changed(slots@, #[trigger] self.deps@[j].0, self.deps@[j].1),
            decreases n - i,
        {
            let (key, last_seen) = self.deps[i];
            if key.slot >= slots.len() || slots[key.slot].generation != key.generation || slots[key.slot].version != last_seen {
                proof {
                    lemma_version_at(self.deps@, i as int);
                    assert(self@.contains_key(key));
                }
                return true;
            }
            i += 1;
        }
        proof {
            assert forall|k: VarKey| #[trigger] self@.contains_key(k) implies !var_changed(slots@, k, self@[k]) by {
                let j = choose|j: int| 0 <= j < self.deps@.len() && #[trigger] self.deps@[j].0 == k;
                lemma_version_at(self.deps@, j);
            }
        }
        false
    }

    /// Whether any variable in the map was dropped, or written since the version recorded
    /// for it (as [`DependencyMap::any_changed`]); then forgets the dropped variables and
    /// records the current version of the others.
    pub fn any_changed_update(&mut self, slots: &[SlotState]) -> (r: bool)
        requires
            old(self).wf(),
        ensures
            final(self).wf(),
            r == some_var_changed(old(self)@, slots@),
            final(self)@ == settled(old(self)@, slots@),
    {
        let ghost before = self.deps@;
        let changed = self.any_changed(slots);
        let n = self.deps.len();
        let mut kept: Vec<(VarKey, u64)> = Vec::new();
        let mut i: usize = 0;
        while i < n
            invariant
                n == self.deps@.len(),
                self.deps@ == before,
                keys_distinct(before),
                i <= n,
                keys_distinct(kept@),
                forall|j: int| 0 <= j < kept@.len() ==> !var_dropped(slots@, #[trigger] kept@[j].0)
                    && kept@[j].1 == slots@[kept@[j].0.slot as int].version,
                forall|k: VarKey| #[trigger] has_key(kept@, k) == (exists|j: int| 0 <= j < i && #[trigger] before[j].0 == k && !var_dropped(slots@, k)),
            decreases n - i,
        {
            let (key, _last_seen) = self.deps[i];
            let ghost kept_before = kept@;
            if key.slot < slots.len() && slots[key.slot].generation == key.generation {
                proof {
                    assert(!has_key(kept_before, key)) by {
                        if has_key(kept_before, key) {
                            let j = choose|j: int| 0 <= j < i && #[trigger] before[j].0 == key && !var_dropped(slots@, key);
                            assert(before[j].0 == before[i as int].0);
                        }
                    }
                }
                kept.push((key, slots[key.slot].version));
                proof {
                    assert forall|k: VarKey| #[trigger] has_key(kept@, k) == (exists|j: int| 0 <= j < i + 1 && #[trigger] before[j].0 == k && !var_dropped(slots@, k)) by {
                        if has_key(kept@, k) {
                            let j = choose|j: int| 0 <= j < kept@.len() && #[trigger] kept@[j].0 == k;
                            if j < kept_before.len() {
                                assert(kept_before[j].0 == k);
                                assert(has_key(kept_before, k));
                            } else {
                                assert(before[i as int].0 == k);
                            }
                        }
                        if exists|j: int| 0 <= j < i + 1 && #[trigger] before[j].0 == k && !var_dropped(slots@, k) {
                            let j = choose|j: int| 0 <= j < i + 1 && #[trigger] before[j].0 == k && !var_dropped(slots@, k);
                            if j < i {
                                assert(has_key(kept_before, k));
                                let m = choose|m: int| 0 <= m < kept_before.len() && #[trigger] kept_before[m].0 == k;
                                assert(kept@[m].0 == k);
                            } else {
                                assert(kept@[kept_before.len() as int].0 == k);
                            }
                        }
                    }
                }
            } else {
                proof {
                    assert forall|k: VarKey| #[trigger] has_key(kept@, k) == (exists|j: int| 0 <= j < i + 1 && #[trigger] before[j].0 == k && !var_dropped(slots@, k)) by {
                        if exists|j: int| 0 <= j < i + 1 && #[trigger] before[j].0 == k && !var_dropped(slots@, k) {
                            let j = choose|j: int| 0 <= j < i + 1 && #[trigger] before[j].0 == k && !var_dropped(slots@, k);
                            assert(j < i);
                        }
                    }
                }
            }
            i += 1;
        }
        self.deps = kept;
        proof {
            let after = self.deps@;
            let target = Map::new(
                |k: VarKey| deps_map(before).contains_key(k) && !var_dropped(slots@, k),
                |k: VarKey| slots@[k.slot as int].version,
            );
            assert forall|k: VarKey| #[trigger] has_key(after, k) == (has_key(before, k) && !var_dropped(slots@, k)) by {
                if has_key(before, k) && !var_dropped(slots@, k) {
                    let j = choose|j: int| 0 <= j < before.len() && #[trigger] before[j].0 == k;
                    assert(exists|j: int| 0 <= j < n && #[trigger] before[j].0 == k && !var_dropped(slots@, k));
                }
            }
            assert forall|k: VarKey| has_key(after, k) implies version_of(after, k) == slots@[k.slot as int].version by {
                let j = choose|j: int| 0 <= j < after.len() && #[trigger] after[j].0 == k;
                lemma_version_at(after, j);
            }
            assert(deps_map(after) =~= target);
        }
        changed
    }
}

/// After [`DependencyMap::any_changed_update`], nothing in the map counts as changed as
/// long as the slots stay as they were.
pub proof fn law_update_settles_changes(deps: Map<VarKey, u64>, slots: Seq<SlotState>)
    ensures
        !some_var_changed(settled(deps, slots), slots),
{
}

/// Recording a version never lowers what the map holds for a variable, and records
/// no other variable.
pub proof fn law_record_keeps_highest(deps: Map<VarKey, u64>, key: VarKey, version: u64)
    ensures
        recorded(deps, key, version)[key] >= version,
        deps.contains_key(key) ==> recorded(deps, key, version)[key] >= deps[key],
        recorded(deps, key, version).dom() == deps.dom().insert(key),
{
    assert(recorded(deps, key, version).dom() =~= deps.dom().insert(key));
}

} // verus!
