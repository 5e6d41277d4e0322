//! The persisted override store: one path-to-boolean map per asset kind.
use vstd::prelude::*;
use crate::model::AssetKind;
use crate::text::text_eq;

verus! {

/// A map from asset path to an explicit on/off value, kept as a vector of
/// entries whose paths are pairwise distinct.
#[derive(Debug, Clone)]
pub struct OverrideMap {
    pub entries: Vec<(String, bool)>,
}

impl OverrideMap {
    /// The entries as (path, value) pairs, in storage order.
    pub open spec fn pairs(&self) -> Seq<(Seq<char>, bool)> {
        self.entries@.map_values(|e: (String, bool)| (e.0@, e.1))
    }

    /// Paths are pairwise distinct.
    pub open spec fn wf(&self) -> bool {
        forall|i: int, j: int|
            0 <= i < j < self.pairs().len() ==> #[trigger] self.pairs()[i].0 != #[trigger] self.pairs()[j].0
    }

    pub open spec fn has_index(&self, k: Seq<char>, i: int) -> bool {
        0 <= i < self.pairs().len() && self.pairs()[i].0 == k
    }

    pub open spec fn view(&self) -> Map<Seq<char>, bool> {
        Map::new(
            |k: Seq<char>| exists|i: int| self.has_index(k, i),
            |k: Seq<char>| self.pairs()[choose|i: int| self.has_index(k, i)].1,
        )
    }

    pub proof fn lemma_view(&self)
        requires
            self.wf(),
        ensures
            forall|i: int|
                0 <= i < self.pairs().len() ==> #[trigger] self.view().contains_key(self.pairs()[i].0)
                    && self.view()[self.pairs()[i].0] == self.pairs()[i].1,
            forall|k: Seq<char>|
                #[trigger] self.view().contains_key(k) ==> exists|i: int| self.has_index(k, i),
    {
        assert forall|i: int| 0 <= i < self.pairs().len() implies #[trigger] self.view().contains_key(
            self.pairs()[i].0,
        ) && self.view()[self.pairs()[i].0] == self.pairs()[i].1 by {
            let k = self.pairs()[i].0;
            assert(self.has_index(k, i));
            let j = choose|j: int| self.has_index(k, j);
            if i < j {
                assert(self.pairs()[i].0 != self.pairs()[j].0);
            } else if j < i {
                assert(self.pairs()[j].0 != self.pairs()[i].0);
            }
        }
    }

    /// An empty map.
    pub fn new() -> (r: Self)
        ensures
            r.wf(),
            r@ == Map::<Seq<char>, bool>::empty(),
            r.pairs().len() == 0,
    {
        let r = OverrideMap { entries: Vec::new() };
        assert(r@ =~= Map::<Seq<char>, bool>::empty());
        r
    }

    /// Number of entries.
    pub fn len(&self) -> (r: usize)
        requires
            self.wf(),
        ensures
            r == self.pairs().len(),
    {
        self.entries.len()
    }

    pub fn is_empty(&self) -> (r: bool)
        requires
            self.wf(),
        ensures
            r == (self@ == Map::<Seq<char>, bool>::empty()),
    {
        proof {
            self.lemma_view();
            if self.pairs().len() > 0 {
                assert(self@.contains_key(self.pairs()[0].0));
            } else {
                assert(self@ =~= Map::<Seq<char>, bool>::empty());
            }
        }
        self.entries.len() == 0
    }

    /// Path and value of the entry at `i`.
    pub fn entry(&self, i: usize) -> (r: (&String, bool))
        requires
            i < self.pairs().len(),
        ensures
            r.0@ == self.pairs()[i as int].0,
            r.1 == self.pairs()[i as int].1,
    {
        (&self.entries[i].0, self.entries[i].1)
    }

    fn find(&self, path: &str) -> (r: Option<usize>)
        requires
            self.wf(),
        ensures
            match r {
                Some(i) => self.has_index(path@, i as int),
                None => !self@.contains_key(path@),
            },
    {
        proof {
            self.lemma_view();
        }
        let mut i: usize = 0;
        while i < self.entries.len()
            invariant
                i <= self.entries.len(),
                forall|j: int| 0 <= j < i ==> self.pairs()[j].0 != path@,
            decreases self.entries.len() - i,
        {
            if text_eq(self.entries[i].0.as_str(), path) {
                return Some(i);
            }
            i = i + 1;
        }
        None
    }

    /// The value stored for `path`, if any.
    pub fn get(&self, path: &str) -> (r: Option<bool>)
        requires
            self.wf(),
        ensures
            r == (if self@.contains_key(path@) {
                Some(self@[path@])
            } else {
                None
            }),
    {
        proof {
            self.lemma_view();
        }
        match self.find(path) {
            Some(i) => Some(self.entries[i].1),
            None => None,
        }
    }

    pub fn contains_key(&self, path: &str) -> (r: bool)
        requires
            self.wf(),
        ensures
            r == self@.contains_key(path@),
    {
        proof {
            self.lemma_view();
        }
        self.find(path).is_some()
    }

    /// Sets the value for `path`, replacing any earlier one.
    pub fn insert(&mut self, path: String, value: bool)
        requires
            old(self).wf(),
        ensures
            final(self).wf(),
            final(self)@ == old(self)@.insert(path@, value),
    {
        proof {
            self.lemma_view();
        }
        let ghost old_map = *self;
        match self.find(path.as_str()) {
            Some(i) => {
                let ghost key = path@;
                self.entries.set(i, (path, value));
                proof {
                    assert(self.pairs() =~= old_map.pairs().update(i as int, (key, value)));
                    self.lemma_view();
                    assert forall|k: Seq<char>| #[trigger] self@.contains_key(k) <==> old_map@.insert(key, value).contains_key(k) by {
                        if k != key && old_map@.contains_key(k) {
                            let j = choose|j: int| old_map.has_index(k, j);
                            assert(self.has_index(k, j));
                        }
                        if k == key {
                            assert(self.has_index(k, i as int));
                        }
                        if self@.contains_key(k) {
                            let j = choose|j: int| self.has_index(k, j);
                            if j != i as int {
                                assert(old_map.has_index(k, j));
                            }
                        }
                    }
                    assert forall|k: Seq<char>| #[trigger] self@.contains_key(k) implies self@[k] == old_map@.insert(key, value)[k] by {
                        let j = choose|j: int| self.has_index(k, j);
                        if j != i {
                            assert(old_map.has_index(k, j));
                        }
                    }
                    assert(self@ =~= old_map@.insert(key, value));
                }
            },
            None => {
                let ghost key = path@;
                self.entries.push((path, value));
                proof {
                    assert(self.pairs() =~= old_map.pairs().push((key, value)));
                    self.lemma_view();
                    assert forall|k: Seq<char>| #[trigger] self@.contains_key(k) <==> old_map@.insert(key, value).contains_key(k) by {
                        if k != key && old_map@.contains_key(k) {
                            let j = choose|j: int| old_map.has_index(k, j);
                            assert(self.has_index(k, j));
                        }
                        if k == key {
                            assert(self.has_index(k, old_map.pairs().len() as int));
                        }
                        if self@.contains_key(k) {
                            let j = choose|j: int| self.has_index(k, j);
                            if j != old_map.pairs().len() as int {
                                assert(old_map.has_index(k, j));
                            }
                        }
                    }
                    assert forall|k: Seq<char>| #[trigger] self@.contains_key(k) implies self@[k] == old_map@.insert(key, value)[k] by {
                        let j = choose|j: int| self.has_index(k, j);
                        if j != old_map.pairs().len() {
                            assert(old_map.has_index(k, j));
                        }
                    }
                    assert(self@ =~= old_map@.insert(key, value));
                }
            },
        }
    }

    /// Drops the entry for `path`, if any.
    pub fn remove(&mut self, path: &str)
        requires
            old(self).wf(),
        ensures
            final(self).wf(),
            final(self)@ == old(self)@.remove(path@),
    {
        proof {
            self.lemma_view();
        }
        let ghost old_map = *self;
        match self.find(path) {
            Some(i) => {
                self.entries.remove(i);
                proof {
                    assert(self.pairs() =~= old_map.pairs().remove(i as int));
                    assert forall|a: int, b: int|
                        0 <= a < b < self.pairs().len() implies #[trigger] self.pairs()[a].0
                        != #[trigger] self.pairs()[b].0 by {
                        let a0 = if a < i { a } else { a + 1 };
                        let b0 = if b < i { b } else { b + 1 };
                        assert(old_map.pairs()[a0].0 != old_map.pairs()[b0].0);
                    }
                    self.lemma_view();
                    assert forall|k: Seq<char>| #[trigger] self@.contains_key(k) <==> old_map@.remove(path@).contains_key(k) by {
                        if k != path@ && old_map@.contains_key(k) {
                            let j = choose|j: int| old_map.has_index(k, j);
                            assert(j != i);
                            if j < i {
                                assert(self.has_index(k, j));
                            } else {
                                assert(self.has_index(k, j - 1));
                            }
                        }
                        if self@.contains_key(k) {
                            let j = choose|j: int| self.has_index(k, j);
                            let j0 = if j < i { j } else { j + 1 };
                            assert(old_map.has_index(k, j0));
                            assert(j0 != i);
                        }
                    }
                    assert forall|k: Seq<char>| #[trigger] self@.contains_key(k) implies self@[k] == old_map@.remove(path@)[k] by {
                        let j = choose|j: int| self.has_index(k, j);
                        let j0 = if j < i { j } else { j + 1 };
                        assert(old_map.has_index(k, j0));
                    }
                    assert(self@ =~= old_map@.remove(path@));
                }
            },
            None => {
                proof {
                    assert(old_map@ =~= old_map@.remove(path@));
                }
            },
        }
    }

    /// Drops every entry.
    pub fn clear(&mut self)
        ensures
            final(self).wf(),
            final(self)@ == Map::<Seq<char>, bool>::empty(),
    {
        self.entries.clear();
        assert(self.pairs() =~= Seq::<(Seq<char>, bool)>::empty());
        assert(self@ =~= Map::<Seq<char>, bool>::empty());
    }
}

/// The override store: one map per asset kind, a format version, and the
/// time of the last save (RFC 3339 text), if any.
#[derive(Debug, Clone)]
pub struct EnablementFile {
    pub version: u32,
    pub updated_at: Option<String>,
    pub prompts: OverrideMap,
    pub instructions: OverrideMap,
    pub chat_modes: OverrideMap,
    pub collections: OverrideMap,
}

impl Default for EnablementFile {
    fn default() -> (r: Self)
        ensures
            r.version == 1,
            r.updated_at is None,
            r.wf(),
            r.is_empty_spec(),
    {
        EnablementFile {
            version: 1,
            updated_at: None,
            prompts: OverrideMap::new(),
            instructions: OverrideMap::new(),
            chat_modes: OverrideMap::new(),
            collections: OverrideMap::new(),
        }
    }
}

impl EnablementFile {
    /// The map that holds overrides of `kind`.
    pub open spec fn spec_map(&self, kind: AssetKind) -> OverrideMap {
        match kind {
            AssetKind::Prompt => self.prompts,
            AssetKind::Instruction => self.instructions,
            AssetKind::ChatMode => self.chat_modes,
            AssetKind::Collection => self.collections,
        }
    }

    pub open spec fn wf(&self) -> bool {
        &&& self.prompts.wf()
        &&& self.instructions.wf()
        &&& self.chat_modes.wf()
        &&& self.collections.wf()
    }

    /// No override of any kind.
    pub open spec fn is_empty_spec(&self) -> bool {
        forall|k: AssetKind| #[trigger] self.spec_map(k)@ == Map::<Seq<char>, bool>::empty()
    }

    /// `self` is `other` with the map of `kind` replaced by `m`.
    pub open spec fn with_map(&self, kind: AssetKind, m: OverrideMap) -> EnablementFile {
        match kind {
            AssetKind::Prompt => EnablementFile { prompts: m, ..*self },
            AssetKind::Instruction => EnablementFile { instructions: m, ..*self },
            AssetKind::ChatMode => EnablementFile { chat_modes: m, ..*self },
            AssetKind::Collection => EnablementFile { collections: m, ..*self },
        }
    }

    /// The map that holds overrides of `kind`.
    pub fn map_for(&self, kind: AssetKind) -> (r: &OverrideMap)
        ensures
            *r == self.spec_map(kind),
    {
        match kind {
            AssetKind::Prompt => &self.prompts,
            AssetKind::Instruction => &self.instructions,
            AssetKind::ChatMode => &self.chat_modes,
            AssetKind::Collection => &self.collections,
        }
    }

    /// The map that holds overrides of `kind`, for changing it in place.
    pub fn map_for_mut(&mut self, kind: AssetKind) -> (r: &mut OverrideMap)
        ensures
            *r == old(self).spec_map(kind),
            *final(self) == old(self).with_map(kind, *final(r)),
    {
        match kind {
            AssetKind::Prompt => &mut self.prompts,
            AssetKind::Instruction => &mut self.instructions,
            AssetKind::ChatMode => &mut self.chat_modes,
            AssetKind::Collection => &mut self.collections,
        }
    }

    /// Drops the override of `kind` at `path`; the other kinds keep theirs.
    pub fn remove(&mut self, kind: AssetKind, path: &str)
        requires
            old(self).wf(),
        ensures
            final(self).wf(),
            final(self).spec_map(kind)@ == old(self).spec_map(kind)@.remove(path@),
            forall|k: AssetKind| k != kind ==> #[trigger] final(self).spec_map(k) == old(self).spec_map(k),
            final(self).version == old(self).version,
            final(self).updated_at == old(self).updated_at,
    {
        self.map_for_mut(kind).remove(path);
    }

    /// Sets the override of `kind` at `path` to `value`; the other kinds
    /// keep theirs.
    pub fn set(&mut self, kind: AssetKind, path: &str, value: bool)
        requires
            old(self).wf(),
        ensures
            final(self).wf(),
            final(self).spec_map(kind)@ == old(self).spec_map(kind)@.insert(path@, value),
            forall|k: AssetKind| k != kind ==> #[trigger] final(self).spec_map(k) == old(self).spec_map(k),
            final(self).version == old(self).version,
            final(self).updated_at == old(self).updated_at,
    {
        let owned = copy_str(path);
        self.map_for_mut(kind).insert(owned, value);
    }

    /// A stored version of 0 stands for the first format version.
    pub fn normalize_version(&mut self)
        ensures
            final(self).version == if old(self).version == 0 {
                1
            } else {
                old(self).version
            },
            final(self).updated_at == old(self).updated_at,
            forall|k: AssetKind| #[trigger] final(self).spec_map(k) == old(self).spec_map(k),
    {
        if self.version == 0 {
            self.version = 1;
        }
    }

    /// Drops every override and the save time; the version stays.
    pub fn clear_all(&mut self)
        ensures
            final(self).wf(),
            final(self).is_empty_spec(),
            final(self).version == old(self).version,
            final(self).updated_at is None,
    {
        self.prompts.clear();
        self.instructions.clear();
        self.chat_modes.clear();
        self.collections.clear();
        self.updated_at = None;
        assert forall|k: AssetKind| #[trigger] self.spec_map(k)@ == Map::<Seq<char>, bool>::empty() by {
            match k {
                AssetKind::Prompt => {},
                AssetKind::Instruction => {},
                AssetKind::ChatMode => {},
                AssetKind::Collection => {},
            }
        }
    }
}

/// An owned copy of `s`.
pub fn copy_str(s: &str) -> (r: String)
    ensures
        r@ == s@,
{
    String::from_str(s)
}

} // verus!
