use vstd::prelude::*;

use std::collections::{HashMap, HashSet};
use vstd::std_specs::iter::IteratorSpec;

use crate::animation::Animation;
use crate::clip::{Clip, ClipId};
use crate::events::Marker;

verus! {

broadcast use vstd::std_specs::hash::group_hash_axioms;

/// An opaque identifier that references an [Animation] registered in an [AnimationLibrary].
#[derive(Debug, Clone, Copy, PartialEq, Eq, Hash, Structural)]
pub struct AnimationId {
    pub value: usize,
}

/// Error type returned by some [AnimationLibrary] methods.
#[derive(Debug, Clone, Copy, PartialEq, Eq, Structural)]
pub enum LibraryError {
    /// The name given to a clip/animation/marker is already in use
    NameAlreadyTaken,
}

/// No two identifiers share a name.
pub open spec fn names_unique(names: Map<usize, String>) -> bool {
    forall|a: usize, b: usize|
        names.contains_key(a) && names.contains_key(b) && (#[trigger] names[a])@ == (#[trigger] names[b])@
            ==> a == b
}

/// Whether some identifier has the given name.
pub open spec fn name_in_use(names: Map<usize, String>, name: Seq<char>) -> bool {
    exists|k: usize| names.contains_key(k) && (#[trigger] names[k])@ == name
}

/// The identifier that has the given name, if any.
pub open spec fn holder_of(names: Map<usize, String>, name: Seq<char>) -> Option<usize> {
    if name_in_use(names, name) {
        Some(choose|k: usize| names.contains_key(k) && (#[trigger] names[k])@ == name)
    } else {
        None
    }
}

/// The outcome of giving `name` to `id`: an identifier keeps a name it already has; a name
/// held by another identifier is refused; otherwise `id` takes the name (replacing its previous one).
pub open spec fn naming(names: Map<usize, String>, id: usize, name: String) -> (
    Map<usize, String>,
    Result<(), LibraryError>,
) {
    match holder_of(names, name@) {
        Some(k) => if k == id {
            (names, Ok(()))
        } else {
            (names, Err(LibraryError::NameAlreadyTaken))
        },
        None => (names.insert(id, name), Ok(())),
    }
}

/// The identifier with the given name, if any.
fn id_with_name(names: &HashMap<usize, String>, name: &String) -> (r: Option<usize>)
    requires
        names_unique(names@),
    ensures
        r == holder_of(names@, name@),
{
    let ghost items = vstd::std_specs::hash::spec_hash_map_iter(names).remaining();
    for (k, v) in it: names.iter()
        invariant
            it.seq() == items,
            names_unique(names@),
            forall|i: int| 0 <= i < it.index() ==> (#[trigger] items[i]).1@ != name@,
    {
        proof {
            let ghost i = it.index();
            assert(items[i] == (k, v));
            assert(names@.contains_key(*items[i].0));
        }
        if v.eq(name) {
            proof {
                assert(names@[*k]@ == name@);
                assert(name_in_use(names@, name@));
                let w = choose|w: usize| names@.contains_key(w) && (#[trigger] names@[w])@ == name@;
                assert(names@[w]@ == names@[*k]@);
            }
            return Some(*k);
        }
    }
    proof {
        assert forall|k: usize| names@.contains_key(k) implies (#[trigger] names@[k])@ != name@ by {
            assert(items.contains((&k, &names@[k])));
            let i = choose|i: int| 0 <= i < items.len() && items[i] == (&k, &names@[k]);
            assert(items[i].1@ != name@);
        }
    }
    None
}

/// Gives `name` to `id` (see [naming]).
fn name_id(names: &mut HashMap<usize, String>, id: usize, name: String) -> (r: Result<(), LibraryError>)
    requires
        names_unique(old(names)@),
    ensures
        (final(names)@, r) == naming(old(names)@, id, name),
        names_unique(final(names)@),
{
    match id_with_name(names, &name) {
        Some(existing) => {
            if existing == id {
                Ok(())
            } else {
                Err(LibraryError::NameAlreadyTaken)
            }
        },
        None => {
            names.insert(id, name);
            proof {
                assert forall|a: usize, b: usize|
                    names@.contains_key(a) && names@.contains_key(b) && (#[trigger] names@[a])@ == (
                    #[trigger] names@[b])@ implies a == b by {
                    if a != id && b != id {
                        assert(old(names)@[a] == names@[a]);
                        assert(old(names)@[b] == names@[b]);
                    } else if a == id && b != id {
                        assert(old(names)@.contains_key(b) && old(names)@[b]@ == name@);
                    } else if b == id && a != id {
                        assert(old(names)@.contains_key(a) && old(names)@[a]@ == name@);
                    }
                }
            }
            Ok(())
        },
    }
}

/// The name of `id`, if it has one.
fn name_of(names: &HashMap<usize, String>, id: usize) -> (r: Option<&String>)
    ensures
        match r {
            Some(n) => names@.contains_key(id) && *n == names@[id],
            None => !names@.contains_key(id),
        },
{
    names.get(&id)
}

/// Whether `id` has the name `name`.
fn has_name(names: &HashMap<usize, String>, id: usize, name: &String) -> (r: bool)
    ensures
        r == (names@.contains_key(id) && names@[id]@ == name@),
{
    match names.get(&id) {
        Some(v) => v.eq(name),
        None => false,
    }
}

/// The global store for clips, animations and markers, which it identifies and names.
pub struct AnimationLibrary {
    /// All the clips
    clips: HashMap<usize, Clip>,
    /// Optional clip names
    clip_names: HashMap<usize, String>,
    /// All the animations
    animations: HashMap<usize, Animation>,
    /// Optional animation names
    animation_names: HashMap<usize, String>,
    /// All the markers
    markers: HashSet<usize>,
    /// Optional marker names
    marker_names: HashMap<usize, String>,
    /// The next identifier to hand out, shared by clips, animations and markers
    next_id: usize,
    /// Every identifier handed out so far, deregistered ones included
    issued: Ghost<Set<usize>>,
}

impl AnimationLibrary {
    pub closed spec fn clip_map(&self) -> Map<usize, Clip> {
        self.clips@
    }

    pub closed spec fn clip_name_map(&self) -> Map<usize, String> {
        self.clip_names@
    }

    pub closed spec fn animation_map(&self) -> Map<usize, Animation> {
        self.animations@
    }

    pub closed spec fn animation_name_map(&self) -> Map<usize, String> {
        self.animation_names@
    }

    pub closed spec fn marker_set(&self) -> Set<usize> {
        self.markers@
    }

    pub closed spec fn marker_name_map(&self) -> Map<usize, String> {
        self.marker_names@
    }

    /// The next identifier to hand out.
    pub closed spec fn next_id(&self) -> usize {
        self.next_id
    }

    /// Every identifier handed out so far by [AnimationLibrary::register_clip],
    /// [AnimationLibrary::register_animation] and [AnimationLibrary::new_marker], whether what
    /// it identifies is still registered or not.
    pub closed spec fn issued_ids(&self) -> Set<usize> {
        self.issued@
    }

    /// Names are unique within clips, within animations and within markers, and every identifier
    /// in use was handed out before the next one.
    pub open spec fn wf(&self) -> bool {
        &&& names_unique(self.clip_name_map())
        &&& names_unique(self.animation_name_map())
        &&& names_unique(self.marker_name_map())
        &&& forall|k: usize| #[trigger] self.clip_map().dom().contains(k) ==> k < self.next_id()
        &&& forall|k: usize| #[trigger] self.animation_map().dom().contains(k) ==> k < self.next_id()
        &&& forall|k: usize| #[trigger] self.marker_set().contains(k) ==> k < self.next_id()
        &&& forall|k: usize| #[trigger] self.issued_ids().contains(k) ==> k < self.next_id()
    }

    /// An empty library.
    pub fn new() -> (l: Self)
        ensures
            l.wf(),
            l.clip_map().is_empty(),
            l.clip_name_map().is_empty(),
            l.animation_map().is_empty(),
            l.animation_name_map().is_empty(),
            l.marker_set().is_empty(),
            l.marker_name_map().is_empty(),
            l.next_id() == 0,
            l.issued_ids().is_empty(),
    {
        AnimationLibrary {
            clips: HashMap::new(),
            clip_names: HashMap::new(),
            animations: HashMap::new(),
            animation_names: HashMap::new(),
            markers: HashSet::new(),
            marker_names: HashMap::new(),
            next_id: 0,
            issued: Ghost(Set::empty()),
        }
    }

    /// Registers a clip and returns its identifier (the next one; identifiers wrap around after `usize::MAX`).
    pub fn register_clip(&mut self, clip: Clip) -> (id: ClipId)
        requires
            old(self).wf(),
        ensures
            id.value == old(self).next_id(),
            !old(self).issued_ids().contains(id.value),
            final(self).issued_ids() == old(self).issued_ids().insert(id.value),
            final(self).next_id() == old(self).next_id().wrapping_add(1),
            final(self).clip_map() == old(self).clip_map().insert(id.value, clip),
            final(self).clip_name_map() == old(self).clip_name_map(),
            final(self).animation_map() == old(self).animation_map(),
            final(self).animation_name_map() == old(self).animation_name_map(),
            final(self).marker_set() == old(self).marker_set(),
            final(self).marker_name_map() == old(self).marker_name_map(),
            old(self).next_id() < usize::MAX ==> final(self).wf(),
    {
        let id = self.next_id;
        self.next_id = self.next_id.wrapping_add(1);
        self.issued = Ghost(self.issued@.insert(id));
        self.clips.insert(id, clip);
        if id < usize::MAX {
        proof {
            lemma_ids_below(old(self).clip_map().dom(), self.clip_map().dom(), old(self).next_id(), self.next_id());
            lemma_ids_below(old(self).animation_map().dom(), self.animation_map().dom(), old(self).next_id(), self.next_id());
            lemma_ids_below(old(self).marker_set(), self.marker_set(), old(self).next_id(), self.next_id());
            lemma_ids_below(old(self).issued_ids(), self.issued_ids(), old(self).next_id(), self.next_id());
        }
        }
        ClipId { value: id }
    }

    /// Deregisters a clip, and its name.
    pub fn deregister_clip(&mut self, clip_id: ClipId)
        requires
            old(self).wf(),
        ensures
            final(self).wf(),
            final(self).next_id() == old(self).next_id(),
            final(self).issued_ids() == old(self).issued_ids(),
            final(self).clip_map() == old(self).clip_map().remove(clip_id.value),
            final(self).clip_name_map() == old(self).clip_name_map().remove(clip_id.value),
            final(self).animation_map() == old(self).animation_map(),
            final(self).animation_name_map() == old(self).animation_name_map(),
            final(self).marker_set() == old(self).marker_set(),
            final(self).marker_name_map() == old(self).marker_name_map(),
    {
        self.clips.remove(&clip_id.value);
        self.clip_names.remove(&clip_id.value);
        proof {
            lemma_ids_below(old(self).clip_map().dom(), self.clip_map().dom(), old(self).next_id(), self.next_id());
            lemma_ids_below(old(self).animation_map().dom(), self.animation_map().dom(), old(self).next_id(), self.next_id());
            lemma_ids_below(old(self).marker_set(), self.marker_set(), old(self).next_id(), self.next_id());
            lemma_ids_below(old(self).issued_ids(), self.issued_ids(), old(self).next_id(), self.next_id());
        }
        proof {
            assert forall|a: usize, b: usize|
                self.clip_names@.contains_key(a) && self.clip_names@.contains_key(b) && (#[trigger] self.clip_names@[a])@
                    == (#[trigger] self.clip_names@[b])@ implies a == b by {
                assert(old(self).clip_names@[a] == self.clip_names@[a]);
                assert(old(self).clip_names@[b] == self.clip_names@[b]);
            }
        }
    }

    /// Associates a unique name to a clip.
    ///
    /// Returns [LibraryError::NameAlreadyTaken] if another clip has this name; naming a clip with
    /// the name it already has changes nothing.
    pub fn name_clip(&mut self, clip_id: ClipId, name: String) -> (r: Result<(), LibraryError>)
        requires
            old(self).wf(),
        ensures
            final(self).wf(),
            (final(self).clip_name_map(), r) == naming(old(self).clip_name_map(), clip_id.value, name),
            final(self).next_id() == old(self).next_id(),
            final(self).issued_ids() == old(self).issued_ids(),
            final(self).clip_map() == old(self).clip_map(),
            final(self).animation_map() == old(self).animation_map(),
            final(self).animation_name_map() == old(self).animation_name_map(),
            final(self).marker_set() == old(self).marker_set(),
            final(self).marker_name_map() == old(self).marker_name_map(),
    {
        let r = name_id(&mut self.clip_names, clip_id.value, name);
        proof {
            lemma_ids_below(old(self).clip_map().dom(), self.clip_map().dom(), old(self).next_id(), self.next_id());
            lemma_ids_below(old(self).animation_map().dom(), self.animation_map().dom(), old(self).next_id(), self.next_id());
            lemma_ids_below(old(self).marker_set(), self.marker_set(), old(self).next_id(), self.next_id());
            lemma_ids_below(old(self).issued_ids(), self.issued_ids(), old(self).next_id(), self.next_id());
        }
        r
    }

    /// All the clip names, by clip identifier value.
    pub fn clip_names(&self) -> (r: &HashMap<usize, String>)
        ensures
            r@ == self.clip_name_map(),
    {
        &self.clip_names
    }

    /// The identifier of the clip with the given name, if any.
    pub fn clip_with_name(&self, name: &String) -> (r: Option<ClipId>)
        requires
            self.wf(),
        ensures
            r == match holder_of(self.clip_name_map(), name@) {
                Some(k) => Some(ClipId { value: k }),
                None => None,
            },
    {
        match id_with_name(&self.clip_names, name) {
            Some(k) => Some(ClipId { value: k }),
            None => None,
        }
    }

    /// The name of a clip, if it has one.
    pub fn get_clip_name(&self, clip_id: ClipId) -> (r: Option<&String>)
        ensures
            match r {
                Some(n) => self.clip_name_map().contains_key(clip_id.value) && *n == self.clip_name_map()[clip_id.value],
                None => !self.clip_name_map().contains_key(clip_id.value),
            },
    {
        name_of(&self.clip_names, clip_id.value)
    }

    /// Whether a clip has the given name.
    pub fn is_clip_name(&self, clip_id: ClipId, name: &String) -> (r: bool)
        ensures
            r == (self.clip_name_map().contains_key(clip_id.value) && self.clip_name_map()[clip_id.value]@ == name@),
    {
        has_name(&self.clip_names, clip_id.value, name)
    }

    /// All the clips, by identifier value.
    pub fn clips(&self) -> (r: &HashMap<usize, Clip>)
        ensures
            r@ == self.clip_map(),
    {
        &self.clips
    }

    /// A registered clip, if there is one with this identifier.
    pub fn get_clip(&self, clip_id: ClipId) -> (r: Option<&Clip>)
        ensures
            match r {
                Some(c) => self.clip_map().contains_key(clip_id.value) && *c == self.clip_map()[clip_id.value],
                None => !self.clip_map().contains_key(clip_id.value),
            },
    {
        self.clips.get(&clip_id.value)
    }

    /// Registers an animation and returns its identifier (the next one; identifiers wrap around after `usize::MAX`).
    pub fn register_animation(&mut self, animation: Animation) -> (id: AnimationId)
        requires
            old(self).wf(),
        ensures
            id.value == old(self).next_id(),
            !old(self).issued_ids().contains(id.value),
            final(self).issued_ids() == old(self).issued_ids().insert(id.value),
            final(self).next_id() == old(self).next_id().wrapping_add(1),
            final(self).animation_map() == old(self).animation_map().insert(id.value, animation),
            final(self).clip_map() == old(self).clip_map(),
            final(self).clip_name_map() == old(self).clip_name_map(),
            final(self).animation_name_map() == old(self).animation_name_map(),
            final(self).marker_set() == old(self).marker_set(),
            final(self).marker_name_map() == old(self).marker_name_map(),
            old(self).next_id() < usize::MAX ==> final(self).wf(),
    {
        let id = self.next_id;
        self.next_id = self.next_id.wrapping_add(1);
        self.issued = Ghost(self.issued@.insert(id));
        self.animations.insert(id, animation);
        if id < usize::MAX {
        proof {
            lemma_ids_below(old(self).clip_map().dom(), self.clip_map().dom(), old(self).next_id(), self.next_id());
            lemma_ids_below(old(self).animation_map().dom(), self.animation_map().dom(), old(self).next_id(), self.next_id());
            lemma_ids_below(old(self).marker_set(), self.marker_set(), old(self).next_id(), self.next_id());
            lemma_ids_below(old(self).issued_ids(), self.issued_ids(), old(self).next_id(), self.next_id());
        }
        }
        AnimationId { value: id }
    }

    /// Deregisters an animation, its name, and all the clips it is made of (and their names).
    pub fn deregister_animation(&mut self, animation_id: AnimationId)
        requires
            old(self).wf(),
        ensures
            final(self).wf(),
            final(self).next_id() == old(self).next_id(),
            final(self).issued_ids() == old(self).issued_ids(),
            final(self).animation_map() == old(self).animation_map().remove(animation_id.value),
            final(self).animation_name_map() == old(self).animation_name_map().remove(animation_id.value),
            final(self).clip_map() == if old(self).animation_map().contains_key(animation_id.value) {
                old(self).clip_map().remove_keys(
                    clip_ids_of(old(self).animation_map()[animation_id.value].clips@),
                )
            } else {
                old(self).clip_map()
            },
            final(self).clip_name_map() == if old(self).animation_map().contains_key(animation_id.value) {
                old(self).clip_name_map().remove_keys(
                    clip_ids_of(old(self).animation_map()[animation_id.value].clips@),
                )
            } else {
                old(self).clip_name_map()
            },
            final(self).marker_set() == old(self).marker_set(),
            final(self).marker_name_map() == old(self).marker_name_map(),
    {
        let removed = self.animations.remove(&animation_id.value);
        match removed {
            Some(animation) => {
                let ghost ids = clip_ids_of(animation.clips@);
                let ghost clips0 = self.clips@;
                let ghost names0 = self.clip_names@;
                let mut k: usize = 0;
                proof {
                    assert(clip_ids_of(animation.clips@.take(0)) =~= Set::<usize>::empty());
                    assert(clips0.remove_keys(Set::<usize>::empty()) =~= clips0);
                    assert(names0.remove_keys(Set::<usize>::empty()) =~= names0);
                }
                while k < animation.clips.len()
                    invariant
                        0 <= k <= animation.clips.len(),
                        self.clips@ == clips0.remove_keys(clip_ids_of(animation.clips@.take(k as int))),
                        self.clip_names@ == names0.remove_keys(clip_ids_of(animation.clips@.take(k as int))),
                        names_unique(names0),
                        self.animations@ == old(self).animations@.remove(animation_id.value),
                        self.animation_names@ == old(self).animation_names@,
                        self.markers@ == old(self).markers@,
                        self.marker_names@ == old(self).marker_names@,
                        self.next_id == old(self).next_id,
                        self.issued == old(self).issued,
                    decreases animation.clips.len() - k,
                {
                    let id = animation.clips[k].id.value;
                    self.clips.remove(&id);
                    self.clip_names.remove(&id);
                    proof {
                        assert(animation.clips@.take(k + 1)[k as int].id.value == id);
                        assert forall|v: usize| #[trigger] clip_ids_of(animation.clips@.take(k + 1)).contains(v) <==> clip_ids_of(animation.clips@.take(k as int)).insert(id).contains(v) by {
                            if clip_ids_of(animation.clips@.take(k + 1)).contains(v) {
                                let i = choose|i: int| 0 <= i < k + 1 && (#[trigger] animation.clips@.take(k + 1)[i]).id.value == v;
                                if i < k {
                                    assert(animation.clips@.take(k as int)[i] == animation.clips@.take(k + 1)[i]);
                                }
                            }
                            if clip_ids_of(animation.clips@.take(k as int)).contains(v) {
                                let i = choose|i: int| 0 <= i < k && (#[trigger] animation.clips@.take(k as int)[i]).id.value == v;
                                assert(animation.clips@.take(k as int)[i] == animation.clips@.take(k + 1)[i]);
                            }
                        }
                        assert(clip_ids_of(animation.clips@.take(k + 1)) =~= clip_ids_of(animation.clips@.take(k as int)).insert(id));
                        assert(self.clips@ =~= clips0.remove_keys(clip_ids_of(animation.clips@.take(k + 1))));
                        assert(self.clip_names@ =~= names0.remove_keys(clip_ids_of(animation.clips@.take(k + 1))));
                    }
                    k = k + 1;
                }
                proof {
                    assert(animation.clips@.take(animation.clips.len() as int) =~= animation.clips@);
                }
            },
            None => {},
        }
        self.animation_names.remove(&animation_id.value);
        proof {
            lemma_ids_below(old(self).clip_map().dom(), self.clip_map().dom(), old(self).next_id(), self.next_id());
            lemma_ids_below(old(self).animation_map().dom(), self.animation_map().dom(), old(self).next_id(), self.next_id());
            lemma_ids_below(old(self).marker_set(), self.marker_set(), old(self).next_id(), self.next_id());
            lemma_ids_below(old(self).issued_ids(), self.issued_ids(), old(self).next_id(), self.next_id());
        }
        proof {
            assert forall|a: usize, b: usize|
                self.clip_names@.contains_key(a) && self.clip_names@.contains_key(b) && (#[trigger] self.clip_names@[a])@
                    == (#[trigger] self.clip_names@[b])@ implies a == b by {
                assert(old(self).clip_names@[a] == self.clip_names@[a]);
                assert(old(self).clip_names@[b] == self.clip_names@[b]);
            }
            assert forall|a: usize, b: usize|
                self.animation_names@.contains_key(a) && self.animation_names@.contains_key(b) && (
                #[trigger] self.animation_names@[a])@ == (#[trigger] self.animation_names@[b])@ implies a == b by {
                assert(old(self).animation_names@[a] == self.animation_names@[a]);
                assert(old(self).animation_names@[b] == self.animation_names@[b]);
            }
        }
    }

    /// Associates a unique name to an animation (see [AnimationLibrary::name_clip]).
    pub fn name_animation(&mut self, animation_id: AnimationId, name: String) -> (r: Result<(), LibraryError>)
        requires
            old(self).wf(),
        ensures
            final(self).wf(),
            (final(self).animation_name_map(), r) == naming(
                old(self).animation_name_map(),
                animation_id.value,
                name,
            ),
            final(self).next_id() == old(self).next_id(),
            final(self).issued_ids() == old(self).issued_ids(),
            final(self).clip_map() == old(self).clip_map(),
            final(self).clip_name_map() == old(self).clip_name_map(),
            final(self).animation_map() == old(self).animation_map(),
            final(self).marker_set() == old(self).marker_set(),
            final(self).marker_name_map() == old(self).marker_name_map(),
    {
        let r = name_id(&mut self.animation_names, animation_id.value, name);
        proof {
            lemma_ids_below(old(self).clip_map().dom(), self.clip_map().dom(), old(self).next_id(), self.next_id());
            lemma_ids_below(old(self).animation_map().dom(), self.animation_map().dom(), old(self).next_id(), self.next_id());
            lemma_ids_below(old(self).marker_set(), self.marker_set(), old(self).next_id(), self.next_id());
            lemma_ids_below(old(self).issued_ids(), self.issued_ids(), old(self).next_id(), self.next_id());
        }
        r
    }

    /// All the animation names, by animation identifier value.
    pub fn animation_names(&self) -> (r: &HashMap<usize, String>)
        ensures
            r@ == self.animation_name_map(),
    {
        &self.animation_names
    }

    /// The identifier of the animation with the given name, if any.
    pub fn animation_with_name(&self, name: &String) -> (r: Option<AnimationId>)
        requires
            self.wf(),
        ensures
            r == match holder_of(self.animation_name_map(), name@) {
                Some(k) => Some(AnimationId { value: k }),
                None => None,
            },
    {
        match id_with_name(&self.animation_names, name) {
            Some(k) => Some(AnimationId { value: k }),
            None => None,
        }
    }

    /// The name of an animation, if it has one.
    pub fn get_animation_name(&self, animation_id: AnimationId) -> (r: Option<&String>)
        ensures
            match r {
                Some(n) => self.animation_name_map().contains_key(animation_id.value) && *n
                    == self.animation_name_map()[animation_id.value],
                None => !self.animation_name_map().contains_key(animation_id.value),
            },
    {
        name_of(&self.animation_names, animation_id.value)
    }

    /// Whether an animation has the given name.
    pub fn is_animation_name(&self, animation_id: AnimationId, name: &String) -> (r: bool)
        ensures
            r == (self.animation_name_map().contains_key(animation_id.value)
                && self.animation_name_map()[animation_id.value]@ == name@),
    {
        has_name(&self.animation_names, animation_id.value, name)
    }

    /// All the animations, by identifier value.
    pub fn animations(&self) -> (r: &HashMap<usize, Animation>)
        ensures
            r@ == self.animation_map(),
    {
        &self.animations
    }

    /// A registered animation, if there is one with this identifier.
    pub fn get_animation(&self, animation_id: AnimationId) -> (r: Option<&Animation>)
        ensures
            match r {
                Some(a) => self.animation_map().contains_key(animation_id.value) && *a
                    == self.animation_map()[animation_id.value],
                None => !self.animation_map().contains_key(animation_id.value),
            },
    {
        self.animations.get(&animation_id.value)
    }

    /// Creates a new marker and returns it (the next identifier; identifiers wrap around after `usize::MAX`).
    pub fn new_marker(&mut self) -> (m: Marker)
        requires
            old(self).wf(),
        ensures
            m.value == old(self).next_id(),
            !old(self).issued_ids().contains(m.value),
            final(self).issued_ids() == old(self).issued_ids().insert(m.value),
            final(self).next_id() == old(self).next_id().wrapping_add(1),
            final(self).marker_set() == old(self).marker_set().insert(m.value),
            final(self).marker_name_map() == old(self).marker_name_map(),
            final(self).clip_map() == old(self).clip_map(),
            final(self).clip_name_map() == old(self).clip_name_map(),
            final(self).animation_map() == old(self).animation_map(),
            final(self).animation_name_map() == old(self).animation_name_map(),
            old(self).next_id() < usize::MAX ==> final(self).wf(),
    {
        let id = self.next_id;
        self.next_id = self.next_id.wrapping_add(1);
        self.issued = Ghost(self.issued@.insert(id));
        self.markers.insert(id);
        if id < usize::MAX {
        proof {
            lemma_ids_below(old(self).clip_map().dom(), self.clip_map().dom(), old(self).next_id(), self.next_id());
            lemma_ids_below(old(self).animation_map().dom(), self.animation_map().dom(), old(self).next_id(), self.next_id());
            lemma_ids_below(old(self).marker_set(), self.marker_set(), old(self).next_id(), self.next_id());
            lemma_ids_below(old(self).issued_ids(), self.issued_ids(), old(self).next_id(), self.next_id());
        }
        }
        Marker { value: id }
    }

    /// Associates a unique name to a marker (see [AnimationLibrary::name_clip]).
    pub fn name_marker(&mut self, marker: Marker, name: String) -> (r: Result<(), LibraryError>)
        requires
            old(self).wf(),
        ensures
            final(self).wf(),
            (final(self).marker_name_map(), r) == naming(old(self).marker_name_map(), marker.value, name),
            final(self).next_id() == old(self).next_id(),
            final(self).issued_ids() == old(self).issued_ids(),
            final(self).marker_set() == old(self).marker_set(),
            final(self).clip_map() == old(self).clip_map(),
            final(self).clip_name_map() == old(self).clip_name_map(),
            final(self).animation_map() == old(self).animation_map(),
            final(self).animation_name_map() == old(self).animation_name_map(),
    {
        let r = name_id(&mut self.marker_names, marker.value, name);
        proof {
            lemma_ids_below(old(self).clip_map().dom(), self.clip_map().dom(), old(self).next_id(), self.next_id());
            lemma_ids_below(old(self).animation_map().dom(), self.animation_map().dom(), old(self).next_id(), self.next_id());
            lemma_ids_below(old(self).marker_set(), self.marker_set(), old(self).next_id(), self.next_id());
            lemma_ids_below(old(self).issued_ids(), self.issued_ids(), old(self).next_id(), self.next_id());
        }
        r
    }

    /// All the marker names, by marker identifier value.
    pub fn marker_names(&self) -> (r: &HashMap<usize, String>)
        ensures
            r@ == self.marker_name_map(),
    {
        &self.marker_names
    }

    /// The marker with the given name, if any.
    pub fn marker_with_name(&self, name: &String) -> (r: Option<Marker>)
        requires
            self.wf(),
        ensures
            r == match holder_of(self.marker_name_map(), name@) {
                Some(k) => Some(Marker { value: k }),
                None => None,
            },
    {
        match id_with_name(&self.marker_names, name) {
            Some(k) => Some(Marker { value: k }),
            None => None,
        }
    }

    /// The name of a marker, if it has one.
    pub fn get_marker_name(&self, marker: Marker) -> (r: Option<&String>)
        ensures
            match r {
                Some(n) => self.marker_name_map().contains_key(marker.value) && *n == self.marker_name_map()[marker.value],
                None => !self.marker_name_map().contains_key(marker.value),
            },
    {
        name_of(&self.marker_names, marker.value)
    }

    /// Whether a marker has the given name.
    pub fn is_marker_name(&self, marker: Marker, name: &String) -> (r: bool)
        ensures
            r == (self.marker_name_map().contains_key(marker.value) && self.marker_name_map()[marker.value]@ == name@),
    {
        has_name(&self.marker_names, marker.value, name)
    }

    /// All the markers, by identifier value.
    pub fn markers(&self) -> (r: &HashSet<usize>)
        ensures
            r@ == self.marker_set(),
    {
        &self.markers
    }
}

/// Identifiers in use stay below the next identifier when it grows, and when entries go away.
proof fn lemma_ids_below(
    old_keys: Set<usize>,
    new_keys: Set<usize>,
    old_next: usize,
    new_next: usize,
)
    requires
        forall|k: usize| #[trigger] old_keys.contains(k) ==> k < old_next,
        old_next <= new_next,
        forall|k: usize| #[trigger] new_keys.contains(k) ==> old_keys.contains(k) || k == old_next,
        old_next < new_next || forall|k: usize| #[trigger] new_keys.contains(k) ==> old_keys.contains(k),
    ensures
        forall|k: usize| #[trigger] new_keys.contains(k) ==> k < new_next,
{
}

/// The identifier values of a sequence of clips.
pub open spec fn clip_ids_of(clips: Seq<Clip>) -> Set<usize> {
    Set::new(|v: usize| exists|i: int| 0 <= i < clips.len() && (#[trigger] clips[i]).id.value == v)
}

} // verus!

verus! {

/// Naming laws: after giving `name` to `id` successfully, `id` is the one holder of `name`
/// (so looking the name up gives `id` back, and `id` has that name); a refusal happens exactly
/// when another identifier holds the name, and changes nothing.
pub proof fn lemma_naming_round_trip(names: Map<usize, String>, id: usize, name: String)
    requires
        names_unique(names),
    ensures
        ({
            let (after, r) = naming(names, id, name);
            &&& names_unique(after)
            &&& r is Ok ==> holder_of(after, name@) == Some(id) && after.contains_key(id) && after[id]@
                == name@
            &&& r is Err <==> (holder_of(names, name@) matches Some(k) && k != id)
            &&& r is Err ==> after == names
        }),
{
    let (after, r) = naming(names, id, name);
    match holder_of(names, name@) {
        Some(k) => {
            assert(name_in_use(names, name@));
        },
        None => {
            assert(after == names.insert(id, name));
            assert(after.contains_key(id) && after[id]@ == name@);
            assert(name_in_use(after, name@));
            let w = choose|w: usize| after.contains_key(w) && (#[trigger] after[w])@ == name@;
            if w != id {
                assert(names.contains_key(w) && names[w]@ == name@);
                assert(name_in_use(names, name@));
            }
            assert forall|a: usize, b: usize|
                after.contains_key(a) && after.contains_key(b) && (#[trigger] after[a])@ == (#[trigger] after[b])@
                    implies a == b by {
                if a != id && b != id {
                    assert(names[a] == after[a] && names[b] == after[b]);
                } else if a == id && b != id {
                    assert(names.contains_key(b) && names[b]@ == name@);
                    assert(name_in_use(names, name@));
                } else if b == id && a != id {
                    assert(names.contains_key(a) && names[a]@ == name@);
                    assert(name_in_use(names, name@));
                }
            }
        },
    }
}

/// Identifier freshness: in a well-formed library, the next identifier was never handed out
/// before and is used by no clip, animation or marker, so whatever is registered next gets an identifier that differs from
/// every one still in use (deregistering never gives an identifier back).
pub proof fn lemma_next_id_is_fresh(library: AnimationLibrary)
    requires
        library.wf(),
    ensures
        !library.clip_map().contains_key(library.next_id()),
        !library.animation_map().contains_key(library.next_id()),
        !library.marker_set().contains(library.next_id()),
        !library.issued_ids().contains(library.next_id()),
{
    if library.clip_map().contains_key(library.next_id()) {
        assert(library.clip_map().dom().contains(library.next_id()));
    }
    if library.animation_map().contains_key(library.next_id()) {
        assert(library.animation_map().dom().contains(library.next_id()));
    }
}

} // verus!
