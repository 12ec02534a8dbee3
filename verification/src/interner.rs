//! String interner used by the CSS system.

use vstd::prelude::*;

verus! {

/// An identifier for an interned string.
#[derive(Copy, Clone, Debug, PartialEq, Eq, Structural, PartialOrd, Ord, Hash)]
pub struct StrId(pub u32);

/// Interns strings into small integer ids.
///
/// Id `k` names the `k`-th distinct string that was interned.
#[derive(Debug)]
pub struct StringInterner {
    rev: Vec<String>,
}

/// The strings of `v`, as sequences of characters.
pub open spec fn strings_view(v: Seq<String>) -> Seq<Seq<char>> {
    v.map_values(|s: String| s@)
}

/// No string occurs twice in `names`.
pub open spec fn no_duplicates(names: Seq<Seq<char>>) -> bool {
    forall|i: int, j: int| 0 <= i < names.len() && 0 <= j < names.len() && i != j ==> names[i] != names[j]
}

/// The index of `name` in `names`, when it occurs there.
pub open spec fn name_index(names: Seq<Seq<char>>, name: Seq<char>) -> int {
    choose|k: int| 0 <= k < names.len() && names[k] == name
}

/// The interner contents and the id after interning `name`: an interned string keeps
/// its id, a new one gets the next id.
pub open spec fn spec_intern(names: Seq<Seq<char>>, name: Seq<char>) -> (Seq<Seq<char>>, int) {
    if names.contains(name) {
        (names, name_index(names, name))
    } else {
        (names.push(name), names.len() as int)
    }
}

/// The string an id names, if any.
pub open spec fn spec_lookup(names: Seq<Seq<char>>, id: int) -> Option<Seq<char>> {
    if 0 <= id < names.len() {
        Some(names[id])
    } else {
        Option::None
    }
}

pub(crate) proof fn lemma_intern_matches(old_names: Seq<Seq<char>>, new_names: Seq<Seq<char>>, name: Seq<char>, id: int)
    requires
        no_duplicates(old_names),
        if old_names.contains(name) {
            &&& new_names == old_names
            &&& 0 <= id < old_names.len()
            &&& old_names[id] == name
        } else {
            &&& new_names == old_names.push(name)
            &&& id == old_names.len()
        },
    ensures
        spec_intern(old_names, name) == (new_names, id),
{
    if old_names.contains(name) {
        let k = name_index(old_names, name);
        assert(old_names[k] == name);
    }
}

impl View for StringInterner {
    type V = Seq<Seq<char>>;

    closed spec fn view(&self) -> Seq<Seq<char>> {
        strings_view(self.rev@)
    }
}

impl StringInterner {
    /// Every interned string appears once.
    pub open spec fn wf(&self) -> bool {
        no_duplicates(self@)
    }

    /// Creates a new string interner.
    pub fn new() -> (r: Self)
        ensures
            r.wf(),
            r@ == Seq::<Seq<char>>::empty(),
    {
        let r = Self { rev: Vec::with_capacity(128) };
        assert(r@ =~= Seq::<Seq<char>>::empty());
        r
    }

    /// The number of interned strings.
    pub fn len(&self) -> (r: usize)
        ensures
            r == self@.len(),
    {
        self.rev.len()
    }

    /// Returns an existing id or assigns a new one.
    pub fn intern(&mut self, name: &str) -> (r: StrId)
        requires
            old(self).wf(),
            old(self)@.len() < u32::MAX,
        ensures
            final(self).wf(),
            if old(self)@.contains(name@) {
                &&& final(self)@ == old(self)@
                &&& (r.0 as int) < old(self)@.len()
                &&& old(self)@[r.0 as int] == name@
            } else {
                &&& final(self)@ == old(self)@.push(name@)
                &&& r.0 as int == old(self)@.len()
            },
            final(self)@[r.0 as int] == name@,
            spec_intern(old(self)@, name@) == (final(self)@, r.0 as int),
    {
        let owned: String = name.to_owned();
        let n = self.rev.len();
        assert(self@.len() == self.rev@.len());
        let mut i: usize = 0;
        while i < n
            invariant
                n == self.rev@.len(),
                n < u32::MAX,
                self == old(self),
                self.wf(),
                owned@ == name@,
                0 <= i <= n,
                forall|j: int| 0 <= j < i ==> self@[j] != name@,
            decreases n - i,
        {
            assert(self@[i as int] == self.rev@[i as int]@);
            if self.rev[i] == owned {
                assert(self@[i as int] == self.rev@[i as int]@);
                proof {
                    lemma_intern_matches(self@, self@, name@, i as int);
                }
                return StrId(i as u32);
            }
            i += 1;
        }
        proof {
            if self@.contains(name@) {
                let k = choose|k: int| 0 <= k < self@.len() && self@[k] == name@;
                assert(self@[k] != name@);
            }
        }
        self.rev.push(owned);
        assert(self@ =~= old(self)@.push(name@));
        proof {
            lemma_intern_matches(old(self)@, self@, name@, n as int);
        }
        StrId(n as u32)
    }

    /// Get the interned string for an id, if it exists.
    pub fn get(&self, id: StrId) -> (r: Option<String>)
        ensures
            match r {
                Some(s) => spec_lookup(self@, id.0 as int) == Some(s@),
                Option::None => spec_lookup(self@, id.0 as int) is None,
            },
    {
        let idx = id.0 as usize;
        if idx < self.rev.len() {
            Some(self.rev[idx].clone())
        } else {
            Option::None
        }
    }
}

/// Interning a string that was just interned gives the same id and leaves the
/// interner unchanged.
pub proof fn law_intern_idempotent(names: Seq<Seq<char>>, name: Seq<char>)
    requires
        no_duplicates(names),
    ensures
        spec_intern(spec_intern(names, name).0, name) == spec_intern(names, name),
{
    let (n1, id1) = spec_intern(names, name);
    if names.contains(name) {
        let k = name_index(names, name);
        assert(names[k] == name);
    } else {
        assert(n1[names.len() as int] == name);
        assert(n1.contains(name));
        let k = name_index(n1, name);
        assert(n1[k] == name);
        if k < names.len() {
            assert(names[k] == name);
        }
    }
}

/// The id that interning gives back names the interned string.
pub proof fn law_intern_then_get(names: Seq<Seq<char>>, name: Seq<char>)
    ensures
        spec_lookup(spec_intern(names, name).0, spec_intern(names, name).1) == Some(name),
{
    if names.contains(name) {
        let k = name_index(names, name);
        assert(names[k] == name);
    }
}

/// Interning keeps every earlier id naming the same string, and two different strings
/// get different ids.
pub proof fn law_intern_ids_stable(names: Seq<Seq<char>>, a: Seq<char>, b: Seq<char>)
    requires
        no_duplicates(names),
        a != b,
    ensures
        forall|i: int| 0 <= i < names.len() ==> #[trigger] spec_intern(names, a).0[i] == names[i],
        spec_intern(spec_intern(names, a).0, b).1 != spec_intern(names, a).1,
{
    law_intern_then_get(names, a);
    let n1 = spec_intern(names, a).0;
    law_intern_then_get(n1, b);
    let n2 = spec_intern(n1, b).0;
    assert forall|i: int| 0 <= i < n1.len() implies #[trigger] n2[i] == n1[i] by {}
}

/// Interning `a` and then `b` gives `b` the same id as `a` exactly when they are the
/// same string.
pub proof fn law_same_id_iff_same_string(names: Seq<Seq<char>>, a: Seq<char>, b: Seq<char>)
    requires
        no_duplicates(names),
    ensures
        (spec_intern(spec_intern(names, a).0, b).1 == spec_intern(names, a).1) <==> (a == b),
{
    if a == b {
        law_intern_idempotent(names, a);
    } else {
        law_intern_ids_stable(names, a, b);
    }
}

/// Interning keeps every string once, so the interner stays well formed; looking up an
/// id at or past the number of interned strings gives nothing.
pub proof fn law_intern_keeps_strings_distinct(names: Seq<Seq<char>>, name: Seq<char>, k: int)
    requires
        no_duplicates(names),
        k >= spec_intern(names, name).0.len(),
    ensures
        no_duplicates(spec_intern(names, name).0),
        spec_lookup(spec_intern(names, name).0, k) is None,
{
    if !names.contains(name) {
        let n1 = names.push(name);
        assert forall|i: int, j: int| 0 <= i < n1.len() && 0 <= j < n1.len() && i != j implies n1[i] != n1[j] by {
            if i == names.len() as int {
                assert(n1[j] == names[j]);
            } else if j == names.len() as int {
                assert(n1[i] == names[i]);
            }
        }
    }
}

} // verus!
