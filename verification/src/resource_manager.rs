//! Keyed storage of loaded resources.  Loading reads a file through the
//! `Resource` trait an embedding program implements; loading under an
//! already-present key replaces that key's value in place, so the store
//! never grows on a reload.  Lookups return the entry a load would replace:
//! the one at the highest index whose key equals the identifier.

use vstd::prelude::*;
use vstd::pervasive::unreached;
use vstd::std_specs::cmp::PartialEqSpec;

verus! {

/// Something that can be loaded from a file.
pub trait Resource: Sized {
    /// Loads the resource; what comes back depends on the file system.
    fn new_from_file(filename: &str) -> Option<Self>;
}

/// A store of resources under keys of type `I`.
pub struct ResourceManager<I, R> {
    pub resource_map: Vec<(I, R)>,
}

impl<I: Eq + core::hash::Hash, R: Resource> ResourceManager<I, R> {
    /// Some stored entry's key equals the identifier under the key type's
    /// own equality.
    pub open spec fn has_key(self, identifier: I) -> bool {
        exists|t: int|
            0 <= t < self.resource_map@.len() && (#[trigger] self.resource_map@[t]).0.eq_spec(
                &identifier,
            )
    }

    /// `t` is the index a lookup of `identifier` resolves to: its key
    /// matches and no later entry's key does.
    pub open spec fn key_index(self, identifier: I, t: int) -> bool {
        &&& 0 <= t < self.resource_map@.len()
        &&& self.resource_map@[t].0.eq_spec(&identifier)
        &&& forall|u: int|
            t < u < self.resource_map@.len() ==> !(#[trigger] self.resource_map@[u]).0.eq_spec(
                &identifier,
            )
    }

    /// An empty store.
    pub fn new() -> (r: Self)
        ensures
            r.resource_map@.len() == 0,
    {
        ResourceManager { resource_map: Vec::new() }
    }

    /// The index a lookup of the identifier resolves to, if its key is
    /// present at all.
    fn find(&self, identifier: &I) -> (r: Option<usize>)
        requires
            I::obeys_eq_spec(),
        ensures
            match r {
                Some(t) => self.key_index(*identifier, t as int),
                None => !self.has_key(*identifier),
            },
    {
        let mut t: usize = self.resource_map.len();
        while t > 0
            invariant
                I::obeys_eq_spec(),
                t <= self.resource_map@.len(),
                forall|u: int|
                    t <= u < self.resource_map@.len() ==> !(#[trigger] self.resource_map@[u]).0.eq_spec(
                        identifier,
                    ),
            decreases t,
        {
            t = t - 1;
            let entry = &self.resource_map[t];
            if entry.0 == *identifier {
                return Some(t);
            }
        }
        None
    }

    /// Loads a resource from a file and stores it under the identifier: a
    /// present key keeps its place (and its own key value) and only its
    /// resource is replaced, an absent key gains a fresh entry at the back.
    /// Returns whether the file yielded a resource; nothing changes when it
    /// did not.
    pub fn load(&mut self, identifier: I, filename: &str) -> (loaded: bool)
        requires
            I::obeys_eq_spec(),
        ensures
            !loaded ==> final(self).resource_map@ == old(self).resource_map@,
            loaded && !old(self).has_key(identifier) ==> final(self).resource_map@.len() == old(self).resource_map@.len() + 1 && final(self).resource_map@.last().0 == identifier
                && forall|t: int|
                0 <= t < old(self).resource_map@.len() ==> #[trigger] final(self).resource_map@[t]
                    == old(self).resource_map@[t],
            loaded && old(self).has_key(identifier) ==> final(self).resource_map@.len() == old(self).resource_map@.len() && exists|t: int|
                #[trigger] old(self).key_index(identifier, t) && final(self).resource_map@[t].0
                    == old(self).resource_map@[t].0 && forall|u: int|
                    0 <= u < old(self).resource_map@.len() && u != t ==> #[trigger] final(self).resource_map@[u] == old(self).resource_map@[u],
    {
        let resource = match R::new_from_file(filename) {
            Some(resource) => resource,
            None => {
                return false;
            },
        };
        match self.find(&identifier) {
            Some(t) => {
                let ghost ti = t as int;
                let entry = &mut self.resource_map[t];
                entry.1 = resource;
                proof {
                    assert(old(self).key_index(identifier, ti));
                    assert(self.resource_map@[ti].0 == old(self).resource_map@[ti].0);
                    assert(forall|u: int|
                        0 <= u < old(self).resource_map@.len() && u != ti
                            ==> #[trigger] self.resource_map@[u] == old(self).resource_map@[u]);
                }
            },
            None => {
                self.resource_map.push((identifier, resource));
            },
        }
        true
    }

    /// The stored resource under the identifier: the entry a reload would
    /// replace, the one at the highest index whose key matches.
    pub fn get(&self, identifier: I) -> (r: &R)
        requires
            I::obeys_eq_spec(),
            self.has_key(identifier),
        ensures
            exists|t: int| #[trigger]
                self.key_index(identifier, t) && r == &self.resource_map@[t].1,
    {
        match self.find(&identifier) {
            Some(t) => {
                let entry = &self.resource_map[t];
                &entry.1
            },
            None => {
                proof {
                    assert(false);
                }
                unreached()
            },
        }
    }

    /// The stored resource under the identifier, mutably: the same entry
    /// `get` resolves to; writing through the result changes that entry's
    /// resource and nothing else.
    pub fn get_mut(&mut self, identifier: I) -> (r: &mut R)
        requires
            I::obeys_eq_spec(),
            old(self).has_key(identifier),
        ensures
            exists|t: int| #[trigger]
                old(self).key_index(identifier, t) && *r == old(self).resource_map@[t].1
                    && final(self).resource_map@ == old(self).resource_map@.update(
                    t,
                    (old(self).resource_map@[t].0, *final(r)),
                ),
    {
        match self.find(&identifier) {
            Some(t) => {
                let ghost ti = t as int;
                let entry = &mut self.resource_map[t];
                proof {
                    assert(old(self).key_index(identifier, ti));
                }
                &mut entry.1
            },
            None => {
                proof {
                    assert(false);
                }
                unreached()
            },
        }
    }
}

/// Names of the textures the renderer loads.
#[derive(PartialEq, Eq, Hash, Debug)]
pub enum TextureId {
    Floor,
    Wall,
    Corner,
    ConnectorTop,
    ConnectorBottom,
    WallConnectedTop,
    WallConnectedBottom,
    Background,
    Actor,
    Enemy,
    DoorOpen,
    DoorClosed,
    Char0Nm,
    Char0M,
}

/// Names of the fonts the renderer loads.
#[derive(PartialEq, Eq, Hash, Debug)]
pub enum FontId {
    Arial,
    Joystix,
}

/// Names of the music tracks the audio layer loads.
#[derive(PartialEq, Eq, Hash, Debug)]
pub enum MusicId {
    Train,
    Screech,
}

/// Names of the sound effects the audio layer loads; only a placeholder
/// exists so far.
#[derive(PartialEq, Eq, Hash, Debug)]
pub enum SoundId {
    Unused,
}

} // verus!
