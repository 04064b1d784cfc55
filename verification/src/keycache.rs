//! Commitment keys and their load-or-generate cache.
//!
//! A commitment key is opaque cryptographic material sized to a table and
//! identified by a curve name and a size. The cache stores one entry per
//! (curve, size) pair; every hit is validated — the entry's stored curve
//! tag and declared size must match the request — before its material is
//! handed out, and a failed validation is an error, never a silent
//! regeneration.

use vstd::prelude::*;
use crate::FieldElem;

verus! {

/// The named curve a key belongs to.
#[derive(Clone, Copy, PartialEq, Eq, Structural, Debug)]
pub enum CurveKind {
    Bn256,
    Grumpkin,
}

/// Opaque commitment-key material sized to a table.
#[derive(Clone, Debug)]
pub struct CommitmentKey {
    /// The curve the key was generated for.
    pub curve: CurveKind,
    /// The size (table capacity bound) the key can back.
    pub size: usize,
    /// The key material itself: one drawn word per size unit.
    pub material: Vec<FieldElem>,
}

impl CommitmentKey {
    /// The material's extent agrees with the declared size.
    pub open spec fn wf(self) -> bool {
        self.material@.len() == self.size
    }
}

/// One stored cache entry: the (curve, size) pair it is filed under, the
/// tag and size recorded inside it, and the key material.
#[derive(Clone, Debug)]
pub struct CachedKeyEntry {
    /// The curve the entry is filed under.
    pub name_curve: CurveKind,
    /// The size the entry is filed under.
    pub name_size: usize,
    /// The curve tag stored inside the entry.
    pub tag: CurveKind,
    /// The size stored inside the entry.
    pub declared_size: usize,
    /// The stored key material.
    pub material: Vec<FieldElem>,
}

impl CachedKeyEntry {
    /// An entry passes validation for the pair it is filed under when its
    /// stored tag and size match it and the material fills the size.
    pub open spec fn valid(self) -> bool {
        &&& self.tag == self.name_curve
        &&& self.declared_size == self.name_size
        &&& self.material@.len() == self.name_size
    }
}

/// A load-or-generate failure.
#[derive(Clone, Copy, PartialEq, Eq, Structural, Debug)]
pub enum KeyCacheError {
    /// No entry is filed under the requested (curve, size).
    Missing,
    /// A hit's stored tag or size does not match the request.
    Mismatch,
}

/// The persistent key cache, one entry per (curve, size) pair.
pub struct KeyCache {
    pub entries: Vec<CachedKeyEntry>,
}

/// The index of the first entry filed under the pair, if any.
pub open spec fn lookup(entries: Seq<CachedKeyEntry>, curve: CurveKind, size: usize) -> Option<
    int,
>
    decreases entries.len(),
{
    if entries.len() == 0 {
        Option::None
    } else if entries[0].name_curve == curve && entries[0].name_size == size {
        Option::Some(0)
    } else {
        match lookup(entries.drop_first(), curve, size) {
            Option::Some(i) => Option::Some(i + 1),
            Option::None => Option::None,
        }
    }
}

/// Whether a validated load of the pair succeeds: a hit exists and passes
/// validation.
pub open spec fn load_ok(entries: Seq<CachedKeyEntry>, curve: CurveKind, size: usize) -> bool {
    match lookup(entries, curve, size) {
        Option::Some(i) => entries[i].valid(),
        Option::None => false,
    }
}

/// The index a lookup returns is in range and filed under the pair, and no
/// earlier entry is; a missing lookup means no entry is filed under it.
pub proof fn lemma_lookup_props(entries: Seq<CachedKeyEntry>, curve: CurveKind, size: usize)
    ensures
        match lookup(entries, curve, size) {
            Option::Some(i) => {
                &&& 0 <= i < entries.len()
                &&& entries[i].name_curve == curve
                &&& entries[i].name_size == size
                &&& forall|j: int|
                    0 <= j < i ==> !((#[trigger] entries[j]).name_curve == curve
                        && entries[j].name_size == size)
            },
            Option::None => forall|j: int|
                0 <= j < entries.len() ==> !((#[trigger] entries[j]).name_curve == curve
                    && entries[j].name_size == size),
        },
    decreases entries.len(),
{
    if entries.len() > 0 {
        if entries[0].name_curve == curve && entries[0].name_size == size {
        } else {
            lemma_lookup_props(entries.drop_first(), curve, size);
            match lookup(entries.drop_first(), curve, size) {
                Option::Some(i) => {
                    assert(entries.drop_first()[i] == entries[i + 1]);
                    assert forall|j: int|
                        0 <= j < i + 1 implies !((#[trigger] entries[j]).name_curve == curve
                        && entries[j].name_size == size) by {
                        if j > 0 {
                            assert(entries.drop_first()[j - 1] == entries[j]);
                        }
                    }
                },
                Option::None => {
                    assert forall|j: int|
                        0 <= j < entries.len() implies !((#[trigger] entries[j]).name_curve == curve
                        && entries[j].name_size == size) by {
                        if j > 0 {
                            assert(entries.drop_first()[j - 1] == entries[j]);
                        }
                    }
                },
            }
        }
    }
}

/// Appending an entry filed under another pair leaves a lookup unchanged.
pub proof fn lemma_lookup_push_other(
    entries: Seq<CachedKeyEntry>,
    e: CachedKeyEntry,
    curve: CurveKind,
    size: usize,
)
    requires
        !(e.name_curve == curve && e.name_size == size),
    ensures
        lookup(entries.push(e), curve, size) == lookup(entries, curve, size),
    decreases entries.len(),
{
    if entries.len() == 0 {
        assert(entries.push(e).len() == 1);
        assert(entries.push(e)[0] == e);
        assert(entries.push(e).drop_first() =~= Seq::<CachedKeyEntry>::empty());
        assert(lookup(entries.push(e), curve, size) is None);
    } else if entries[0].name_curve == curve && entries[0].name_size == size {
        assert(entries.push(e)[0] == entries[0]);
        assert(lookup(entries.push(e), curve, size) == Option::Some(0int));
    } else {
        assert(entries.push(e)[0] == entries[0]);
        assert(entries.push(e).drop_first() =~= entries.drop_first().push(e));
        lemma_lookup_push_other(entries.drop_first(), e, curve, size);
        assert(lookup(entries.push(e).drop_first(), curve, size) == lookup(
            entries.drop_first(),
            curve,
            size,
        ));
    }
}

/// Key-cache round trip: once a freshly generated key's entry stands in
/// the cache filed under its own (curve, size), a validated load of that
/// pair finds exactly that entry and accepts it.
pub proof fn lemma_key_cache_round_trip(entries: Seq<CachedKeyEntry>, e: CachedKeyEntry)
    requires
        e.valid(),
        lookup(entries, e.name_curve, e.name_size) is None,
    ensures
        lookup(entries.push(e), e.name_curve, e.name_size) == Option::Some(entries.len() as int),
        load_ok(entries.push(e), e.name_curve, e.name_size),
    decreases entries.len(),
{
    if entries.len() == 0 {
        assert(entries.push(e)[0] == e);
    } else {
        assert(entries.push(e)[0] == entries[0]);
        assert(!(entries[0].name_curve == e.name_curve && entries[0].name_size == e.name_size));
        assert(entries.push(e).drop_first() =~= entries.drop_first().push(e));
        assert(lookup(entries.drop_first(), e.name_curve, e.name_size) is None);
        lemma_key_cache_round_trip(entries.drop_first(), e);
        assert(entries.push(e)[entries.len() as int] == e);
    }
}

/// A hit whose stored tag or size disagrees with the pair it is filed
/// under is rejected by validation rather than silently accepted.
pub proof fn lemma_mismatched_entry_fails(
    entries: Seq<CachedKeyEntry>,
    curve: CurveKind,
    size: usize,
)
    requires
        lookup(entries, curve, size) is Some,
        !entries[lookup(entries, curve, size)->Some_0].valid(),
    ensures
        !load_ok(entries, curve, size),
{
}

/// Relies on `rand::random`: a value drawn from the standard-uniform
/// distribution of the type; nothing is promised of which value comes.
pub assume_specification<T>[ rand::random::<T> ]() -> (r: T)
    where
        rand::distr::StandardUniform: rand::distr::Distribution<T>,
;

/// Generate fresh key material for a curve and size: one randomly drawn
/// word per size unit.
pub fn generate_key(curve: CurveKind, size: usize) -> (r: CommitmentKey)
    ensures
        r.curve == curve,
        r.size == size,
        r.wf(),
{
    let mut material: Vec<FieldElem> = Vec::new();
    let mut i: usize = 0;
    while i < size
        invariant
            material@.len() == i,
            i <= size,
        decreases size - i,
    {
        let w: u64 = rand::random::<u64>();
        material.push(w);
        i = i + 1;
    }
    CommitmentKey { curve, size, material }
}

impl KeyCache {
    /// An empty cache directory.
    pub fn new() -> (r: KeyCache)
        ensures
            r.entries@ =~= Seq::<CachedKeyEntry>::empty(),
    {
        KeyCache { entries: Vec::new() }
    }

    /// File a key under its own (curve, size) pair, tag and size recorded
    /// inside the entry as they are.
    pub fn save(&mut self, key: &CommitmentKey)
        ensures
            final(self).entries@.len() == old(self).entries@.len() + 1,
            final(self).entries@.subrange(0, old(self).entries@.len() as int) == old(
                self,
            ).entries@,
            final(self).entries@.last().name_curve == key.curve,
            final(self).entries@.last().name_size == key.size,
            final(self).entries@.last().tag == key.curve,
            final(self).entries@.last().declared_size == key.size,
            final(self).entries@.last().material@ == key.material@,
    {
        let entry = CachedKeyEntry {
            name_curve: key.curve,
            name_size: key.size,
            tag: key.curve,
            declared_size: key.size,
            material: clone_material(&key.material),
        };
        self.entries.push(entry);
        proof {
            assert(self.entries@.subrange(0, self.entries@.len() - 1) =~= old(self).entries@);
        }
    }

    /// Whether some entry is filed under the pair.
    pub fn contains_pair(&self, curve: CurveKind, size: usize) -> (r: bool)
        ensures
            r == (lookup(self.entries@, curve, size) is Some),
    {
        proof {
            lemma_lookup_props(self.entries@, curve, size);
        }
        let mut i: usize = 0;
        while i < self.entries.len()
            invariant
                i <= self.entries@.len(),
                forall|j: int|
                    0 <= j < i ==> !((#[trigger] self.entries@[j]).name_curve == curve
                        && self.entries@[j].name_size == size),
            decreases self.entries@.len() - i,
        {
            let e = &self.entries[i];
            if curve_eq(e.name_curve, curve) && e.name_size == size {
                proof {
                    lemma_lookup_props(self.entries@, curve, size);
                    if lookup(self.entries@, curve, size) is None {
                        assert(!(self.entries@[i as int].name_curve == curve
                            && self.entries@[i as int].name_size == size));
                    }
                }
                return true;
            }
            i = i + 1;
        }
        proof {
            lemma_lookup_props(self.entries@, curve, size);
            match lookup(self.entries@, curve, size) {
                Option::Some(k) => {
                    assert(!(self.entries@[k].name_curve == curve && self.entries@[k].name_size
                        == size));
                    assert(false);
                },
                Option::None => {},
            }
        }
        false
    }

    /// Load the entry filed under the pair, validating its stored tag and
    /// size against the request before the material is handed out.
    pub fn load(&self, curve: CurveKind, size: usize) -> (r: Result<CommitmentKey, KeyCacheError>)
        ensures
            match r {
                Ok(key) => {
                    &&& load_ok(self.entries@, curve, size)
                    &&& key.curve == curve
                    &&& key.size == size
                    &&& key.wf()
                    &&& key.material@ == self.entries@[lookup(
                        self.entries@,
                        curve,
                        size,
                    )->Some_0].material@
                },
                Err(KeyCacheError::Missing) => lookup(self.entries@, curve, size) is None,
                Err(KeyCacheError::Mismatch) => {
                    &&& lookup(self.entries@, curve, size) is Some
                    &&& !load_ok(self.entries@, curve, size)
                },
            },
    {
        proof {
            lemma_lookup_props(self.entries@, curve, size);
        }
        let mut i: usize = 0;
        while i < self.entries.len()
            invariant
                i <= self.entries@.len(),
                forall|j: int|
                    0 <= j < i ==> !((#[trigger] self.entries@[j]).name_curve == curve
                        && self.entries@[j].name_size == size),
            decreases self.entries@.len() - i,
        {
            let e = &self.entries[i];
            if curve_eq(e.name_curve, curve) && e.name_size == size {
                proof {
                    lemma_lookup_props(self.entries@, curve, size);
                    match lookup(self.entries@, curve, size) {
                        Option::Some(k) => {
                            if k < i {
                                assert(!(self.entries@[k].name_curve == curve
                                    && self.entries@[k].name_size == size));
                            }
                            if i < k {
                                assert(!(self.entries@[i as int].name_curve == curve
                                    && self.entries@[i as int].name_size == size));
                            }
                            assert(k == i);
                        },
                        Option::None => {
                            assert(!(self.entries@[i as int].name_curve == curve
                                && self.entries@[i as int].name_size == size));
                        },
                    }
                }
                if curve_eq(e.tag, curve) && e.declared_size == size && e.material.len() == size {
                    let key = CommitmentKey { curve, size, material: clone_material(&e.material) };
                    return Ok(key);
                } else {
                    return Err(KeyCacheError::Mismatch);
                }
            }
            i = i + 1;
        }
        proof {
            lemma_lookup_props(self.entries@, curve, size);
            match lookup(self.entries@, curve, size) {
                Option::Some(k) => {
                    assert(!(self.entries@[k].name_curve == curve && self.entries@[k].name_size
                        == size));
                    assert(false);
                },
                Option::None => {},
            }
        }
        Err(KeyCacheError::Missing)
    }

    /// Load the key filed under the pair, or generate, file and return a
    /// fresh one when none is filed; a hit that fails validation is an
    /// error, never silently regenerated.
    pub fn load_or_generate(&mut self, curve: CurveKind, size: usize) -> (r: Result<
        CommitmentKey,
        KeyCacheError,
    >)
        ensures
            match lookup(old(self).entries@, curve, size) {
                Option::Some(hit) => {
                    &&& *final(self) == *old(self)
                    &&& match r {
                        Ok(key) => {
                            &&& load_ok(old(self).entries@, curve, size)
                            &&& key.curve == curve
                            &&& key.size == size
                            &&& key.wf()
                            &&& key.material@ == old(self).entries@[hit].material@
                        },
                        Err(KeyCacheError::Missing) => false,
                        Err(KeyCacheError::Mismatch) => !load_ok(old(self).entries@, curve, size),
                    }
                },
                Option::None => {
                    &&& r matches Ok(key) && key.curve == curve && key.size == size && key.wf()
                        && final(self).entries@.last().material@ == key.material@
                    &&& final(self).entries@.len() == old(self).entries@.len() + 1
                    &&& final(self).entries@.subrange(0, old(self).entries@.len() as int) == old(
                        self,
                    ).entries@
                    &&& final(self).entries@.last().valid()
                    &&& final(self).entries@.last().name_curve == curve
                    &&& final(self).entries@.last().name_size == size
                },
            },
    {
        if self.contains_pair(curve, size) {
            self.load(curve, size)
        } else {
            let key = generate_key(curve, size);
            self.save(&key);
            Ok(key)
        }
    }
}

/// Whether two curve names are the same.
pub fn curve_eq(a: CurveKind, b: CurveKind) -> (r: bool)
    ensures
        r == (a == b),
{
    match (a, b) {
        (CurveKind::Bn256, CurveKind::Bn256) => true,
        (CurveKind::Grumpkin, CurveKind::Grumpkin) => true,
        _ => false,
    }
}

/// A plain copy of key material.
fn clone_material(v: &Vec<FieldElem>) -> (r: Vec<FieldElem>)
    ensures
        r@ == v@,
{
    let mut r: Vec<FieldElem> = Vec::new();
    let mut i: usize = 0;
    while i < v.len()
        invariant
            r@ == v@.subrange(0, i as int),
            i <= v@.len(),
        decreases v@.len() - i,
    {
        r.push(v[i]);
        i = i + 1;
    }
    proof {
        assert(r@ =~= v@);
    }
    r
}

} // verus!
