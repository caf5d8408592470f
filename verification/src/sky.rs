//! The collection registry: a directory from user-supplied names to point
//! stores, partitioned by dimensionality. A vector's length decides, against
//! the closed catalog, which partition it belongs to; within one partition a
//! name maps to at most one store.

use crate::builder::ConstellationBuilder;
use crate::store::{selected, VecConstellation};
use crate::{spec_supported, SupportedSize};
use vstd::prelude::*;

verus! {

/// Failures at the registry boundary.
#[derive(Debug)]
pub enum SkyError {
    /// The input vector's length is not in the supported catalog; carries
    /// that length.
    InvalidSize(usize),
    /// A query named a collection with no store at the inferred
    /// dimensionality; carries the name and that length.
    NotFound(String, usize),
}

/// One named collection: a name bound to the store that holds its points.
struct SkyEntry {
    name: String,
    store: VecConstellation,
}

/// The key a collection is filed under: its name and its dimensionality.
spec fn entry_key(e: SkyEntry) -> (Seq<char>, nat) {
    (e.name@, e.store.spec_dim())
}

/// The store contents filed under `(name, dim)`, scanning entries from the
/// most recently added backwards.
spec fn lookup_in(entries: Seq<SkyEntry>, name: Seq<char>, dim: nat) -> Option<Seq<Seq<u32>>>
    decreases entries.len(),
{
    if entries.len() == 0 {
        None
    } else if entry_key(entries.last()) == (name, dim) {
        Some(entries.last().store.spec_points())
    } else {
        lookup_in(entries.drop_last(), name, dim)
    }
}

/// What one successful `add` does to the points filed under the resolved
/// key: the new point is appended to the collection, which springs into
/// existence, empty, if the key was absent.
pub open spec fn add_transition(before: Option<Seq<Seq<u32>>>, v: Seq<u32>) -> Seq<Seq<u32>> {
    match before {
        Some(pts) => pts.push(v),
        None => seq![v],
    }
}

/// A sky contains lots of constellations, each filed under a name and a
/// dimensionality from the supported catalog.
pub struct Sky {
    entries: Vec<SkyEntry>,
}

impl Sky {
    /// The points of the collection filed under `(name, dim)`, if one exists.
    pub closed spec fn spec_lookup(self, name: Seq<char>, dim: nat) -> Option<Seq<Seq<u32>>> {
        lookup_in(self.entries@, name, dim)
    }

    /// Every store is well formed, every dimensionality comes from the
    /// catalog, and no two collections share a key.
    pub closed spec fn wf(self) -> bool {
        &&& forall|i: int|
            0 <= i < self.entries@.len() ==> (#[trigger] self.entries@[i]).store.wf()
        &&& forall|i: int|
            0 <= i < self.entries@.len() ==> spec_supported(
                (#[trigger] self.entries@[i]).store.spec_dim(),
            )
        &&& forall|i: int, j: int|
            #![trigger self.entries@[i], self.entries@[j]]
            0 <= i < j < self.entries@.len() ==> entry_key(self.entries@[i]) != entry_key(
                self.entries@[j],
            )
    }

    /// Adds one point under `name`. The point's dimensionality is inferred
    /// from its length against the catalog: an unsupported length is rejected
    /// with `InvalidSize` and the sky is left untouched; otherwise the store
    /// for `(name, len)` — created empty on first use — grows by that one
    /// point, and no other collection changes.
    pub fn add(&mut self, name: String, values: Vec<u32>) -> (r: Result<(), SkyError>)
        requires
            old(self).wf(),
        ensures
            final(self).wf(),
            !spec_supported(values@.len() as nat) ==> (r matches Err(SkyError::InvalidSize(l))
                && l == values@.len() && *final(self) == *old(self)),
            spec_supported(values@.len() as nat) ==> (r is Ok && final(self).spec_lookup(
                name@,
                values@.len() as nat,
            ) == Some(
                add_transition(old(self).spec_lookup(name@, values@.len() as nat), values@),
            ) && (forall|n: Seq<char>, d: nat|
                !(n == name@ && d == values@.len() as nat) ==> #[trigger] final(self).spec_lookup(
                    n,
                    d,
                ) == old(self).spec_lookup(n, d))),
    {
        let len = values.len();
        let size = match SupportedSize::try_from_len(len) {
            Some(size) => size,
            None => {
                return Err(SkyError::InvalidSize(len));
            },
        };
        let idx = self.position_of(&name, len);
        let ghost old_entries = self.entries@;
        let ghost v = values@;
        match idx {
            Some(k) => {
                let entry = &mut self.entries[k];
                entry.store.add_point(values);
                proof {
                    let new_entry = self.entries@[k as int];
                    assert(self.entries@ =~= old_entries.update(k as int, new_entry));
                    assert(entry_key(new_entry) == (name@, len as nat));
                    assert forall|i: int, j: int|
                        #![trigger self.entries@[i], self.entries@[j]]
                        0 <= i < j < self.entries@.len() implies entry_key(self.entries@[i])
                        != entry_key(self.entries@[j]) by {
                        assert(entry_key(self.entries@[i]) == entry_key(old_entries[i]));
                        assert(entry_key(self.entries@[j]) == entry_key(old_entries[j]));
                        assert(entry_key(old_entries[i]) != entry_key(old_entries[j]));
                    }
                    assert forall|i: int| 0 <= i < self.entries@.len() implies (
                    #[trigger] self.entries@[i]).store.wf() && spec_supported(
                        self.entries@[i].store.spec_dim(),
                    ) by {
                        if i != k {
                            assert(self.entries@[i] == old_entries[i]);
                        }
                        assert(old_entries[i].store.wf());
                        assert(spec_supported(old_entries[i].store.spec_dim()));
                    }
                    lemma_update_preserves(old_entries, k as int, new_entry, name@, len as nat);
                    lemma_lookup_found(old_entries, name@, len as nat, k as int);
                    lemma_lookup_found(self.entries@, name@, len as nat, k as int);
                }
            },
            None => {
                let builder = ConstellationBuilder::new(size);
                let mut store = builder.build();
                store.add_point(values);
                self.entries.push(SkyEntry { name, store });
                proof {
                    let new_entry = self.entries@.last();
                    assert(self.entries@ =~= old_entries.push(new_entry));
                    assert(entry_key(new_entry) == (new_entry.name@, len as nat));
                    assert(new_entry.store.spec_points() =~= seq![v]);
                    assert forall|i: int, j: int|
                        #![trigger self.entries@[i], self.entries@[j]]
                        0 <= i < j < self.entries@.len() implies entry_key(self.entries@[i])
                        != entry_key(self.entries@[j]) by {
                        assert(self.entries@[i] == old_entries[i]);
                        if j < old_entries.len() {
                            assert(self.entries@[j] == old_entries[j]);
                            assert(entry_key(old_entries[i]) != entry_key(old_entries[j]));
                        } else {
                            assert(self.entries@[j] == new_entry);
                            assert(entry_key(old_entries[i]) != (new_entry.name@, len as nat));
                        }
                    }
                    assert forall|i: int| 0 <= i < self.entries@.len() implies (
                    #[trigger] self.entries@[i]).store.wf() && spec_supported(
                        self.entries@[i].store.spec_dim(),
                    ) by {
                        if i < old_entries.len() {
                            assert(self.entries@[i] == old_entries[i]);
                            assert(old_entries[i].store.wf());
                            assert(spec_supported(old_entries[i].store.spec_dim()));
                        }
                    }
                    lemma_lookup_absent(old_entries, new_entry.name@, len as nat);
                    lemma_push_fresh(old_entries, new_entry, len as nat);
                }
            },
        }
        Ok(())
    }

    /// Resolves a query against the registry: an unsupported vector length
    /// fails with `InvalidSize`; a supported length with no collection filed
    /// under `(name, len)` fails with `NotFound` — a query never creates a
    /// store; otherwise the resolved store is handed back for the query
    /// engine to scan.
    pub fn query(&self, name: String, values: &Vec<u32>) -> (r: Result<
        &VecConstellation,
        SkyError,
    >)
        requires
            self.wf(),
        ensures
            !spec_supported(values@.len() as nat) ==> (r matches Err(SkyError::InvalidSize(l))
                && l == values@.len()),
            spec_supported(values@.len() as nat) && self.spec_lookup(name@, values@.len() as nat)
                is None ==> (r matches Err(SkyError::NotFound(n, l)) && n@ == name@ && l
                == values@.len()),
            spec_supported(values@.len() as nat) && self.spec_lookup(name@, values@.len() as nat)
                is Some ==> (r matches Ok(c) && c.wf() && c.spec_dim() == values@.len() as nat
                && c.spec_points() == self.spec_lookup(name@, values@.len() as nat)->Some_0),
    {
        let len = values.len();
        if SupportedSize::try_from_len(len).is_none() {
            return Err(SkyError::InvalidSize(len));
        }
        match self.position_of(&name, len) {
            Some(k) => {
                proof {
                    lemma_lookup_found(self.entries@, name@, len as nat, k as int);
                }
                Ok(&self.entries[k].store)
            },
            None => {
                proof {
                    lemma_lookup_absent(self.entries@, name@, len as nat);
                }
                Err(SkyError::NotFound(name, len))
            },
        }
    }

    /// The index of the entry filed under `(name, len)`, if one exists.
    fn position_of(&self, name: &String, len: usize) -> (r: Option<usize>)
        requires
            self.wf(),
        ensures
            r matches Some(k) ==> k < self.entries@.len() && entry_key(self.entries@[k as int])
                == (name@, len as nat),
            r is None ==> forall|j: int|
                0 <= j < self.entries@.len() ==> entry_key(#[trigger] self.entries@[j]) != (
                name@,
                len as nat,
            ),
    {
        let n_entries = self.entries.len();
        let mut i: usize = 0;
        while i < n_entries
            invariant
                i <= n_entries,
                n_entries == self.entries@.len(),
                forall|j: int|
                    0 <= j < i ==> entry_key(#[trigger] self.entries@[j]) != (name@, len as nat),
            decreases n_entries - i,
        {
            let e = &self.entries[i];
            if e.name == *name && e.store.dimensions() == len {
                return Some(i);
            }
            i = i + 1;
        }
        None
    }
}

impl Default for Sky {
    /// A fresh sky holds no collection under any key.
    fn default() -> (s: Sky)
        ensures
            s.wf(),
            forall|n: Seq<char>, d: nat| #[trigger] s.spec_lookup(n, d) is None,
    {
        let s = Sky { entries: Vec::new() };
        proof {
            assert forall|n: Seq<char>, d: nat| #[trigger] s.spec_lookup(n, d) is None by {
                assert(s.entries@.len() == 0);
            }
        }
        s
    }
}

/// A key that no entry carries resolves to `None`.
proof fn lemma_lookup_absent(entries: Seq<SkyEntry>, name: Seq<char>, dim: nat)
    requires
        forall|j: int| 0 <= j < entries.len() ==> entry_key(#[trigger] entries[j]) != (name, dim),
    ensures
        lookup_in(entries, name, dim) is None,
    decreases entries.len(),
{
    if entries.len() > 0 {
        assert(entries.last() == entries[entries.len() - 1]);
        assert(forall|j: int|
            0 <= j < entries.drop_last().len() ==> entries.drop_last()[j] == (
            #[trigger] entries[j]));
        lemma_lookup_absent(entries.drop_last(), name, dim);
    }
}

/// A lookup resolves to the one entry that carries its key: if position `k`
/// is filed under `(name, dim)` and no two entries share a key, the lookup
/// returns exactly that entry's points.
proof fn lemma_lookup_found(entries: Seq<SkyEntry>, name: Seq<char>, dim: nat, k: int)
    requires
        0 <= k < entries.len(),
        entry_key(entries[k]) == (name, dim),
        forall|i: int, j: int|
            #![trigger entries[i], entries[j]]
            0 <= i < j < entries.len() ==> entry_key(entries[i]) != entry_key(entries[j]),
    ensures
        lookup_in(entries, name, dim) == Some(entries[k].store.spec_points()),
    decreases entries.len(),
{
    if k == entries.len() - 1 {
        assert(entries.last() == entries[k]);
    } else {
        assert(entry_key(entries[k]) != entry_key(entries[entries.len() - 1]));
        assert(entries.last() == entries[entries.len() - 1]);
        assert(entries.drop_last()[k] == entries[k]);
        lemma_lookup_found(entries.drop_last(), name, dim, k);
    }
}

/// Replacing the entry at position `k` by one filed under the same key
/// `(name, dim)` leaves the lookup of every other key as it was.
proof fn lemma_update_preserves(
    entries: Seq<SkyEntry>,
    k: int,
    x: SkyEntry,
    name: Seq<char>,
    dim: nat,
)
    requires
        0 <= k < entries.len(),
        entry_key(entries[k]) == (name, dim),
        entry_key(x) == (name, dim),
    ensures
        forall|n: Seq<char>, d: nat|
            !(n == name && d == dim) ==> #[trigger] lookup_in(entries.update(k, x), n, d)
                == lookup_in(entries, n, d),
    decreases entries.len(),
{
    let updated = entries.update(k, x);
    assert forall|n: Seq<char>, d: nat| !(n == name && d == dim) implies #[trigger] lookup_in(
        updated,
        n,
        d,
    ) == lookup_in(entries, n, d) by {
        if k == entries.len() - 1 {
            assert(updated.last() == x);
            assert(entries.last() == entries[k]);
            assert(entry_key(updated.last()) != (n, d));
            assert(entry_key(entries.last()) != (n, d));
            assert(updated.drop_last() =~= entries.drop_last());
            assert(lookup_in(updated, n, d) == lookup_in(updated.drop_last(), n, d));
            assert(lookup_in(entries, n, d) == lookup_in(entries.drop_last(), n, d));
        } else {
            assert(updated.last() == entries.last());
            if entry_key(entries.last()) == (n, d) {
                assert(lookup_in(updated, n, d) == Some(updated.last().store.spec_points()));
                assert(lookup_in(entries, n, d) == Some(entries.last().store.spec_points()));
            } else {
                assert(entries.drop_last()[k] == entries[k]);
                lemma_update_preserves(entries.drop_last(), k, x, name, dim);
                assert(updated.drop_last() =~= entries.drop_last().update(k, x));
                assert(lookup_in(entries.drop_last().update(k, x), n, d) == lookup_in(
                    entries.drop_last(),
                    n,
                    d,
                ));
                assert(lookup_in(updated, n, d) == lookup_in(updated.drop_last(), n, d));
                assert(lookup_in(entries, n, d) == lookup_in(entries.drop_last(), n, d));
            }
        }
    }
}

/// Appending an entry whose key no existing entry carries files its points
/// under its key and leaves every other key's lookup as it was.
proof fn lemma_push_fresh(entries: Seq<SkyEntry>, x: SkyEntry, dim: nat)
    requires
        entry_key(x).1 == dim,
    ensures
        lookup_in(entries.push(x), entry_key(x).0, dim) == Some(x.store.spec_points()),
        forall|n: Seq<char>, d: nat|
            !(n == entry_key(x).0 && d == dim) ==> #[trigger] lookup_in(entries.push(x), n, d)
                == lookup_in(entries, n, d),
{
    let pushed = entries.push(x);
    assert(pushed.last() == x);
    assert(pushed.drop_last() =~= entries);
    assert(entry_key(x) == (entry_key(x).0, dim));
}

/// Round trip: a sky that an `add` of point `v` under a previously unused
/// name has just left resolves that name, at `v`'s length, to a collection
/// of exactly the one point `v`; a scan of that collection for which the
/// arithmetic collaborator reports `v` within the threshold at distance `d`
/// therefore emits exactly the one pair `(d, v)`.
pub proof fn lemma_registry_round_trip(before: Sky, after: Sky, name: Seq<char>, v: Seq<u32>)
    requires
        spec_supported(v.len()),
        before.spec_lookup(name, v.len()) is None,
        after.spec_lookup(name, v.len()) == Some(
            add_transition(before.spec_lookup(name, v.len()), v),
        ),
    ensures
        after.spec_lookup(name, v.len()) == Some(seq![v]),
        forall|d: u32| #[trigger] selected(seq![v], seq![Some(d)]) == seq![(d, v)],
{
    assert forall|d: u32| #[trigger] selected(seq![v], seq![Some(d)]) == seq![(d, v)] by {
        let pts = seq![v];
        let verdicts = seq![Some(d)];
        assert(selected(pts.drop_last(), verdicts.drop_last()) =~= Seq::<(u32, Seq<u32>)>::empty());
        assert(selected(pts, verdicts) =~= seq![(d, v)]);
    }
}

} // verus!
