use vstd::prelude::*;

use crate::error::RenderError;

verus! {

/// Names one image held by the drawing surface on the cache's behalf.
#[derive(Debug, Clone, Copy, PartialEq, Eq, Structural)]
pub struct TextureHandle {
    pub slot: u64,
}

/// A cached image: its handle and the size it was rasterized at.
#[derive(Debug, Clone, Copy, PartialEq, Eq, Structural)]
pub struct CachedTexture {
    pub handle: TextureHandle,
    pub width: u32,
    pub height: u32,
}

/// What a lookup of `key` in the cache contents `m` yields.
pub open spec fn lookup(m: Map<Seq<char>, CachedTexture>, key: Seq<char>) -> Option<TextureHandle> {
    if m.contains_key(key) {
        Some(m[key].handle)
    } else {
        None
    }
}

/// A lookup does not change the cache, so two lookups of one key with no
/// `create_texture` or `drop_texture` between them name the same image.
pub proof fn law_lookup_is_stable(
    cache: &TextureManager,
    key: Seq<char>,
    first: Option<TextureHandle>,
    second: Option<TextureHandle>,
)
    requires
        first == lookup(cache@, key),
        second == lookup(cache@, key),
    ensures
        first == second,
        first is Some ==> cache@.contains_key(key) && cache@[key].handle == first->Some_0,
{
}

/// Creating an image for `key` and then dropping it leaves a miss for `key`.
pub proof fn law_create_then_drop_misses(
    m: Map<Seq<char>, CachedTexture>,
    key: Seq<char>,
    texture: CachedTexture,
)
    ensures
        lookup(m.insert(key, texture), key) == Some(texture.handle),
        lookup(m.insert(key, texture).remove(key), key) == None::<TextureHandle>,
{
}

struct CacheEntry {
    key: String,
    texture: CachedTexture,
}

/// Maps a component identity to the image last rasterized for it. Handles are
/// issued in increasing order and never reused, so each one names a single
/// image for the life of the cache.
pub struct TextureManager {
    entries: Vec<CacheEntry>,
    next_slot: u64,
    model: Ghost<Map<Seq<char>, CachedTexture>>,
}

impl TextureManager {
    /// The cache's contents: identity to cached image.
    pub closed spec fn view(&self) -> Map<Seq<char>, CachedTexture> {
        self.model@
    }

    /// The slot that the next created image will get.
    pub closed spec fn spec_next_slot(&self) -> nat {
        self.next_slot as nat
    }

    pub closed spec fn wf(&self) -> bool {
        &&& forall|i: int, j: int|
            0 <= i < j < self.entries@.len() ==> self.entries@[i].key@ != self.entries@[j].key@
        &&& forall|k: Seq<char>|
            #![trigger self.model@.dom().contains(k)]
            self.model@.dom().contains(k) <==> exists|i: int|
                0 <= i < self.entries@.len() && self.entries@[i].key@ == k
        &&& forall|i: int|
            #![trigger self.entries@[i]]
            0 <= i < self.entries@.len() ==> self.model@[self.entries@[i].key@]
                == self.entries@[i].texture
        &&& forall|i: int|
            #![trigger self.entries@[i]]
            0 <= i < self.entries@.len() ==> self.entries@[i].texture.handle.slot < self.next_slot
    }

    /// Every cached handle was issued before `spec_next_slot`.
    pub proof fn lemma_slots_issued(&self)
        requires
            self.wf(),
        ensures
            forall|k: Seq<char>|
                #[trigger] self@.contains_key(k) ==> self@[k].handle.slot < self.spec_next_slot(),
    {
        assert forall|k: Seq<char>| #[trigger] self@.contains_key(k) implies self@[k].handle.slot
            < self.spec_next_slot() by {
            assert(self.model@.dom().contains(k));
            let i = choose|i: int| 0 <= i < self.entries@.len() && self.entries@[i].key@ == k;
            assert(self.entries@[i].key@ == k);
        }
    }

    /// An empty cache.
    pub fn new() -> (r: TextureManager)
        ensures
            r.wf(),
            r@ == Map::<Seq<char>, CachedTexture>::empty(),
            r.spec_next_slot() == 0,
    {
        TextureManager { entries: Vec::new(), next_slot: 0, model: Ghost(Map::empty()) }
    }

    /// The position of `key` among the entries, if it has one.
    fn find(&self, key: &str) -> (r: Option<usize>)
        requires
            self.wf(),
        ensures
            match r {
                Some(i) => i < self.entries@.len() && self.entries@[i as int].key@ == key@
                    && self@.contains_key(key@),
                None => !self@.contains_key(key@),
            },
    {
        let wanted = key.to_owned();
        let mut i: usize = 0;
        while i < self.entries.len()
            invariant
                self.wf(),
                wanted@ == key@,
                i <= self.entries@.len(),
                forall|j: int| 0 <= j < i ==> self.entries@[j].key@ != key@,
            decreases self.entries@.len() - i,
        {
            if self.entries[i].key == wanted {
                assert(self.model@.dom().contains(key@));
                return Some(i);
            }
            i = i + 1;
        }
        proof {
            if self.model@.dom().contains(key@) {
                let j = choose|j: int| 0 <= j < self.entries@.len() && self.entries@[j].key@ == key@;
                assert(self.entries@[j].key@ == key@);
            }
        }
        None
    }

    /// Looks up the image cached for `key`; `None` means it must be rasterized.
    pub fn get_texture(&self, key: &str) -> (r: Option<TextureHandle>)
        requires
            self.wf(),
        ensures
            r == lookup(self@, key@),
    {
        match self.find(key) {
            Some(i) => Some(self.entries[i].texture.handle),
            None => None,
        }
    }

    /// Records a fresh image of `width` by `height` for `key`, replacing any
    /// earlier one. A zero size cannot be rasterized; once every slot has been
    /// issued no more images can be named.
    pub fn create_texture(&mut self, key: &str, width: u32, height: u32) -> (r: Result<
        TextureHandle,
        RenderError,
    >)
        requires
            old(self).wf(),
        ensures
            final(self).wf(),
            r == (if width == 0 || height == 0 {
                Err::<TextureHandle, RenderError>(RenderError::InvalidState)
            } else if old(self).spec_next_slot() >= u64::MAX {
                Err(RenderError::ResourceExhaustion)
            } else {
                Ok(TextureHandle { slot: old(self).spec_next_slot() as u64 })
            }),
            r is Err ==> final(self)@ == old(self)@ && final(self).spec_next_slot()
                == old(self).spec_next_slot(),
            r is Ok ==> final(self)@ == old(self)@.insert(
                key@,
                CachedTexture { handle: r->Ok_0, width, height },
            ) && final(self).spec_next_slot() == old(self).spec_next_slot() + 1,
            r is Ok ==> forall|k: Seq<char>|
                #[trigger] old(self)@.contains_key(k) ==> old(self)@[k].handle.slot < r->Ok_0.slot,
    {
        proof {
            self.lemma_slots_issued();
        }
        if width == 0 || height == 0 {
            return Err(RenderError::InvalidState);
        }
        if self.next_slot == u64::MAX {
            return Err(RenderError::ResourceExhaustion);
        }
        let handle = TextureHandle { slot: self.next_slot };
        let texture = CachedTexture { handle, width, height };
        let ghost old_model = self.model@;
        let ghost new_model = old_model.insert(key@, texture);
        let ghost before = self.entries@;
        let found = self.find(key);
        match found {
            Some(i) => {
                self.entries.set(i, CacheEntry { key: key.to_owned(), texture });
                proof {
                    assert forall|k: Seq<char>| #[trigger] new_model.dom().contains(k) implies exists|
                        j: int,
                    | 0 <= j < self.entries@.len() && self.entries@[j].key@ == k by {
                        if k != key@ {
                            let j = choose|j: int| 0 <= j < before.len() && before[j].key@ == k;
                            assert(self.entries@[j].key@ == k);
                        } else {
                            assert(self.entries@[i as int].key@ == k);
                        }
                    }
                }
            },
            None => {
                self.entries.push(CacheEntry { key: key.to_owned(), texture });
                proof {
                    let n = self.entries@.len() - 1;
                    assert forall|k: Seq<char>| #[trigger] new_model.dom().contains(k) implies exists|
                        j: int,
                    | 0 <= j < self.entries@.len() && self.entries@[j].key@ == k by {
                        if k != key@ {
                            let j = choose|j: int|
                                0 <= j < old(self).entries@.len() && old(self).entries@[j].key@
                                    == k;
                            assert(self.entries@[j].key@ == k);
                        } else {
                            assert(self.entries@[n].key@ == k);
                        }
                    }
                }
            },
        }
        self.next_slot = self.next_slot + 1;
        self.model = Ghost(new_model);
        proof {
            let es = self.entries@;
            assert forall|j: int| #![trigger es[j]] 0 <= j < es.len() implies {
                &&& self.model@[es[j].key@] == es[j].texture
                &&& es[j].texture.handle.slot < self.next_slot
                &&& (es[j].key@ != key@ ==> j < before.len() && es[j] == before[j])
            } by {
                if es[j].key@ != key@ {
                    if let Some(i) = found {
                        assert(j != i);
                    }
                    assert(j < before.len());
                    assert(old_model[before[j].key@] == before[j].texture);
                }
            }
            assert forall|a: int, b: int| 0 <= a < b < es.len() implies es[a].key@ != es[b].key@ by {
                if es[a].key@ != key@ && es[b].key@ != key@ {
                    assert(before[a].key@ != before[b].key@);
                } else if es[a].key@ == key@ && es[b].key@ == key@ {
                    match found {
                        Some(i) => {
                            if a != i {
                                assert(before[a].key@ == key@);
                            } else {
                                assert(before[b].key@ == key@);
                            }
                        },
                        None => {
                            assert(before[a].key@ == key@);
                        },
                    }
                }
            }
            assert forall|k: Seq<char>| #![trigger self.model@.dom().contains(k)]
                (exists|j: int| 0 <= j < es.len() && es[j].key@ == k) implies self.model@.dom().contains(k) by {
                let j = choose|j: int| 0 <= j < es.len() && es[j].key@ == k;
                if k != key@ {
                    assert(es[j] == before[j]);
                    assert(old_model.dom().contains(before[j].key@));
                }
            }
        }
        Ok(handle)
    }

    /// Forgets the image cached for `key`, if any, and hands back its handle so
    /// that the surface can release it.
    pub fn drop_texture(&mut self, key: &str) -> (r: Option<TextureHandle>)
        requires
            old(self).wf(),
        ensures
            final(self).wf(),
            final(self)@ == old(self)@.remove(key@),
            final(self).spec_next_slot() == old(self).spec_next_slot(),
            r == lookup(old(self)@, key@),
    {
        match self.find(key) {
            Some(i) => {
                let ghost new_model = self.model@.remove(key@);
                let ghost before = self.entries@;
                let removed = self.entries.remove(i);
                proof {
                    assert forall|k: Seq<char>| #[trigger] new_model.dom().contains(k) implies exists|
                        j: int,
                    | 0 <= j < self.entries@.len() && self.entries@[j].key@ == k by {
                        let j = choose|j: int| 0 <= j < before.len() && before[j].key@ == k;
                        if j < i {
                            assert(self.entries@[j].key@ == k);
                        } else {
                            assert(self.entries@[j - 1].key@ == k);
                        }
                    }
                    assert forall|j: int| 0 <= j < self.entries@.len() implies self.entries@[j].key@
                        != key@ by {
                        if j < i {
                            assert(before[j].key@ != before[i as int].key@);
                        } else {
                            assert(before[j + 1].key@ != before[i as int].key@);
                        }
                    }
                }
                self.model = Ghost(new_model);
                proof {
                    let es = self.entries@;
                    assert forall|j: int| #![trigger es[j]] 0 <= j < es.len() implies {
                        &&& self.model@[es[j].key@] == es[j].texture
                        &&& es[j].texture.handle.slot < self.next_slot
                    } by {
                        if j < i {
                            assert(es[j] == before[j]);
                        } else {
                            assert(es[j] == before[j + 1]);
                        }
                    }
                    assert forall|a: int, b: int| 0 <= a < b < es.len() implies es[a].key@
                        != es[b].key@ by {
                        let a0 = if a < i { a } else { a + 1 };
                        let b0 = if b < i { b } else { b + 1 };
                        assert(es[a] == before[a0]);
                        assert(es[b] == before[b0]);
                        assert(before[a0].key@ != before[b0].key@);
                    }
                    assert forall|k: Seq<char>| #![trigger self.model@.dom().contains(k)]
                        (exists|j: int| 0 <= j < es.len() && es[j].key@ == k) implies self.model@.dom().contains(
                        k,
                    ) by {
                        let j = choose|j: int| 0 <= j < es.len() && es[j].key@ == k;
                        let j0 = if j < i { j } else { j + 1 };
                        assert(es[j] == before[j0]);
                        assert(old(self).model@.dom().contains(before[j0].key@));
                    }
                }
                Some(removed.texture.handle)
            },
            None => {
                proof {
                    assert(self.model@.remove(key@) =~= self.model@);
                }
                None
            },
        }
    }

    /// A copy of the cache, contents and next slot alike.
    pub fn snapshot(&self) -> (r: TextureManager)
        requires
            self.wf(),
        ensures
            r.wf(),
            r@ == self@,
            r.spec_next_slot() == self.spec_next_slot(),
    {
        let mut entries: Vec<CacheEntry> = Vec::new();
        let mut i: usize = 0;
        while i < self.entries.len()
            invariant
                i <= self.entries@.len(),
                entries@.len() == i,
                forall|j: int|
                    #![trigger entries@[j]]
                    0 <= j < i ==> entries@[j].key@ == self.entries@[j].key@
                        && entries@[j].texture == self.entries@[j].texture,
            decreases self.entries@.len() - i,
        {
            let e = &self.entries[i];
            entries.push(CacheEntry { key: e.key.clone(), texture: e.texture });
            i = i + 1;
        }
        let r = TextureManager { entries, next_slot: self.next_slot, model: Ghost(self.model@) };
        proof {
            assert forall|a: int, b: int| 0 <= a < b < r.entries@.len() implies r.entries@[a].key@
                != r.entries@[b].key@ by {
                assert(self.entries@[a].key@ != self.entries@[b].key@);
            }
            assert forall|k: Seq<char>| #![trigger r.model@.dom().contains(k)]
                r.model@.dom().contains(k) <==> exists|j: int|
                    0 <= j < r.entries@.len() && r.entries@[j].key@ == k by {
                if r.model@.dom().contains(k) {
                    let j = choose|j: int| 0 <= j < self.entries@.len() && self.entries@[j].key@ == k;
                    assert(r.entries@[j].key@ == k);
                }
                if exists|j: int| 0 <= j < r.entries@.len() && r.entries@[j].key@ == k {
                    let j = choose|j: int| 0 <= j < r.entries@.len() && r.entries@[j].key@ == k;
                    assert(self.entries@[j].key@ == k);
                }
            }
        }
        r
    }

    /// Forgets every cached image; handles already issued stay retired.
    pub fn clear(&mut self)
        requires
            old(self).wf(),
        ensures
            final(self).wf(),
            final(self)@ == Map::<Seq<char>, CachedTexture>::empty(),
            final(self).spec_next_slot() == old(self).spec_next_slot(),
    {
        self.entries = Vec::new();
        self.model = Ghost(Map::empty());
    }
}

} // verus!
