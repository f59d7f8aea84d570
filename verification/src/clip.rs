use vstd::prelude::*;

use bevy_platform::collections::HashMap;
use bevy_platform::hash::FixedHasher;

use crate::animation::{AnimationDirection, AnimationDuration};
use crate::easing::Easing;
use crate::events::Marker;

verus! {

/// The map type that bevy's platform layer provides, as the clip's marker table uses it.
#[verifier::external_type_specification]
#[verifier::external_body]
#[verifier::reject_recursive_types(K)]
#[verifier::reject_recursive_types(V)]
#[verifier::reject_recursive_types(S)]
pub struct ExPlatformHashMap<K, V, S>(HashMap<K, V, S>);

/// The fixed hasher that bevy's platform map uses by default.
#[verifier::external_type_specification]
#[verifier::external_body]
pub struct ExPlatformFixedHasher(FixedHasher);

/// The markers of a clip: for each frame index, the markers attached to it, in insertion order.
pub uninterp spec fn marker_table(m: HashMap<usize, Vec<Marker>>) -> Map<usize, Seq<Marker>>;

/// `HashMap::new` of bevy's platform map: the table starts empty.
#[verifier::external_body]
fn marker_table_new() -> (table: HashMap<usize, Vec<Marker>>)
    ensures
        marker_table(table).dom() == Set::<usize>::empty(),
{
    HashMap::new()
}

/// `HashMap::get` of bevy's platform map, the found vector copied out:
/// `Some` of the markers stored under `frame` exactly when the table has that key.
#[verifier::external_body]
fn marker_table_get(m: &HashMap<usize, Vec<Marker>>, frame: usize) -> (r: Option<Vec<Marker>>)
    ensures
        r.is_some() <==> marker_table(*m).contains_key(frame),
        r matches Some(v) ==> v@ == marker_table(*m)[frame],
{
    m.get(&frame).cloned()
}

/// `HashMap::insert` of bevy's platform map: `frame` now maps to `markers`, other keys unchanged.
#[verifier::external_body]
fn marker_table_insert(m: &mut HashMap<usize, Vec<Marker>>, frame: usize, markers: Vec<Marker>)
    ensures
        marker_table(*final(m)) == marker_table(*old(m)).insert(frame, markers@),
{
    m.insert(frame, markers);
}

/// `Clone::clone` of bevy's platform map, on `usize` keys and `Copy` markers: the copy holds the same table.
#[verifier::external_body]
fn marker_table_clone(m: &HashMap<usize, Vec<Marker>>) -> (r: HashMap<usize, Vec<Marker>>)
    ensures
        marker_table(r) == marker_table(*m),
{
    m.clone()
}

/// An opaque identifier that references a [Clip].
#[derive(Debug, Clone, Copy, PartialEq, Eq, Hash, Structural)]
pub struct ClipId {
    pub value: usize,
}

impl ClipId {
    /// An identifier with the given value.
    pub fn from_value(value: usize) -> (id: ClipId)
        ensures
            id.value == value,
    {
        ClipId { value }
    }

    /// A placeholder identifier, meant to be overwritten.
    pub fn dummy() -> (id: ClipId)
        ensures
            id.value == usize::MAX,
    {
        ClipId { value: usize::MAX }
    }
}

/// The identifier of a marker attached to a clip.
pub type MarkerId = Marker;

/// A [Clip] is a sequence of frames (indices into a texture atlas) with optional
/// playback parameters and markers attached to some of its frames.
pub struct Clip {
    pub id: ClipId,
    pub atlas_indices: Vec<usize>,
    pub duration: Option<AnimationDuration>,
    pub repetitions: Option<usize>,
    pub direction: Option<AnimationDirection>,
    pub easing: Option<Easing>,
    pub markers: HashMap<usize, Vec<Marker>>,
}

/// The markers attached to a frame in a marker table (empty if none).
pub open spec fn markers_of(table: Map<usize, Seq<Marker>>, frame_index: usize) -> Seq<Marker> {
    if table.contains_key(frame_index) {
        table[frame_index]
    } else {
        Seq::empty()
    }
}

/// Whether two clips carry the same identifier and playback parameters.
pub open spec fn same_settings(a: Clip, b: Clip) -> bool {
    &&& a.id == b.id
    &&& a.duration == b.duration
    &&& a.repetitions == b.repetitions
    &&& a.direction == b.direction
    &&& a.easing == b.easing
}

impl Clip {
    /// The markers of this clip, by frame index.
    pub open spec fn marker_map(&self) -> Map<usize, Seq<Marker>> {
        marker_table(self.markers)
    }

    /// Creates a clip with the given identifier and no frame, parameter or marker.
    pub fn empty(id: ClipId) -> (c: Clip)
        ensures
            c.id == id,
            c.atlas_indices@ == Seq::<usize>::empty(),
            c.duration is None,
            c.repetitions is None,
            c.direction is None,
            c.easing is None,
            c.marker_map() == Map::<usize, Seq<Marker>>::empty(),
    {
        Clip {
            id,
            atlas_indices: Vec::new(),
            duration: None,
            repetitions: None,
            direction: None,
            easing: None,
            markers: marker_table_new(),
        }
    }

    /// Creates a clip with the given identifier playing the given atlas indices.
    pub fn from_frames(id: ClipId, atlas_indices: Vec<usize>) -> (c: Clip)
        ensures
            c.id == id,
            c.atlas_indices@ == atlas_indices@,
            c.duration is None,
            c.repetitions is None,
            c.direction is None,
            c.easing is None,
            c.marker_map() == Map::<usize, Seq<Marker>>::empty(),
    {
        Clip {
            id,
            atlas_indices,
            duration: None,
            repetitions: None,
            direction: None,
            easing: None,
            markers: marker_table_new(),
        }
    }

    /// The atlas indices of the frames of this clip.
    pub fn frames(&self) -> (r: &[usize])
        ensures
            r@ == self.atlas_indices@,
    {
        self.atlas_indices.as_slice()
    }

    /// The atlas indices of the frames of this clip.
    pub fn atlas_indices(&self) -> (r: &[usize])
        ensures
            r@ == self.atlas_indices@,
    {
        self.atlas_indices.as_slice()
    }

    /// The identifier of this clip.
    pub fn id(&self) -> (r: ClipId)
        ensures
            r == self.id,
    {
        self.id
    }

    /// The optional duration of this clip.
    pub fn duration(&self) -> (r: &Option<AnimationDuration>)
        ensures
            *r == self.duration,
    {
        &self.duration
    }

    /// The optional number of repetitions of this clip.
    pub fn repetitions(&self) -> (r: &Option<usize>)
        ensures
            *r == self.repetitions,
    {
        &self.repetitions
    }

    /// The optional direction of this clip.
    pub fn direction(&self) -> (r: &Option<AnimationDirection>)
        ensures
            *r == self.direction,
    {
        &self.direction
    }

    /// The optional easing of this clip.
    pub fn easing(&self) -> (r: &Option<Easing>)
        ensures
            *r == self.easing,
    {
        &self.easing
    }

    /// The markers of this clip, by frame index.
    pub fn markers(&self) -> (r: &HashMap<usize, Vec<Marker>>)
        ensures
            marker_table(*r) == self.marker_map(),
    {
        &self.markers
    }

    /// The markers attached to a frame of this clip (empty if none).
    pub fn markers_at(&self, frame_index: usize) -> (r: Vec<Marker>)
        ensures
            r@ == markers_of(self.marker_map(), frame_index),
    {
        match marker_table_get(&self.markers, frame_index) {
            Some(v) => v,
            None => Vec::new(),
        }
    }

    /// This clip with its duration set.
    pub fn with_duration(self, duration: AnimationDuration) -> (c: Clip)
        ensures
            c == (Clip { duration: Some(duration), ..self }),
            c.id == self.id,
            c.atlas_indices@ == self.atlas_indices@,
            c.duration == Some(duration),
            c.repetitions == self.repetitions,
            c.direction == self.direction,
            c.easing == self.easing,
            c.marker_map() == self.marker_map(),
    {
        let mut c = self;
        c.duration = Some(duration);
        c
    }

    /// Sets the duration of this clip.
    pub fn set_duration(&mut self, duration: AnimationDuration) -> (r: &mut Self)
        ensures
            *r == (Clip { duration: Some(duration), ..*old(self) }),
            *final(self) == *final(r),
    {
        self.duration = Some(duration);
        self
    }

    /// This clip with its repetitions set.
    pub fn with_repetitions(self, repetitions: usize) -> (c: Clip)
        ensures
            c == (Clip { repetitions: Some(repetitions), ..self }),
            c.id == self.id,
            c.atlas_indices@ == self.atlas_indices@,
            c.duration == self.duration,
            c.repetitions == Some(repetitions),
            c.direction == self.direction,
            c.easing == self.easing,
            c.marker_map() == self.marker_map(),
    {
        let mut c = self;
        c.repetitions = Some(repetitions);
        c
    }

    /// Sets the repetitions of this clip.
    pub fn set_repetitions(&mut self, repetitions: usize) -> (r: &mut Self)
        ensures
            *r == (Clip { repetitions: Some(repetitions), ..*old(self) }),
            *final(self) == *final(r),
    {
        self.repetitions = Some(repetitions);
        self
    }

    /// This clip with its direction set.
    pub fn with_direction(self, direction: AnimationDirection) -> (c: Clip)
        ensures
            c == (Clip { direction: Some(direction), ..self }),
            c.id == self.id,
            c.atlas_indices@ == self.atlas_indices@,
            c.duration == self.duration,
            c.repetitions == self.repetitions,
            c.direction == Some(direction),
            c.easing == self.easing,
            c.marker_map() == self.marker_map(),
    {
        let mut c = self;
        c.direction = Some(direction);
        c
    }

    /// Sets the direction of this clip.
    pub fn set_direction(&mut self, direction: AnimationDirection) -> (r: &mut Self)
        ensures
            *r == (Clip { direction: Some(direction), ..*old(self) }),
            *final(self) == *final(r),
    {
        self.direction = Some(direction);
        self
    }

    /// This clip with its easing set.
    pub fn with_easing(self, easing: Easing) -> (c: Clip)
        ensures
            c == (Clip { easing: Some(easing), ..self }),
            c.id == self.id,
            c.atlas_indices@ == self.atlas_indices@,
            c.duration == self.duration,
            c.repetitions == self.repetitions,
            c.direction == self.direction,
            c.easing == Some(easing),
            c.marker_map() == self.marker_map(),
    {
        let mut c = self;
        c.easing = Some(easing);
        c
    }

    /// Sets the easing of this clip.
    pub fn set_easing(&mut self, easing: Easing) -> (r: &mut Self)
        ensures
            *r == (Clip { easing: Some(easing), ..*old(self) }),
            *final(self) == *final(r),
    {
        self.easing = Some(easing);
        self
    }

    /// Attaches `marker` to the frame `frame_index`, after the markers already attached to it,
    /// and returns it.
    pub fn add_marker(&mut self, marker: Marker, frame_index: usize) -> (r: MarkerId)
        ensures
            r == marker,
            final(self).id == old(self).id,
            final(self).atlas_indices == old(self).atlas_indices,
            final(self).duration == old(self).duration,
            final(self).repetitions == old(self).repetitions,
            final(self).direction == old(self).direction,
            final(self).easing == old(self).easing,
            final(self).marker_map() == old(self).marker_map().insert(
                frame_index,
                markers_of(old(self).marker_map(), frame_index).push(marker),
            ),
    {
        let mut frame_markers = match marker_table_get(&self.markers, frame_index) {
            Some(v) => v,
            None => Vec::new(),
        };
        frame_markers.push(marker);
        marker_table_insert(&mut self.markers, frame_index, frame_markers);
        marker
    }

    /// A copy of this clip, with the same identifier, frames, parameters and markers.
    pub fn duplicate(&self) -> (c: Clip)
        ensures
            c.id == self.id,
            c.atlas_indices@ == self.atlas_indices@,
            c.duration == self.duration,
            c.repetitions == self.repetitions,
            c.direction == self.direction,
            c.easing == self.easing,
            c.marker_map() == self.marker_map(),
    {
        Clip {
            id: self.id,
            atlas_indices: self.atlas_indices.clone(),
            duration: self.duration,
            repetitions: self.repetitions,
            direction: self.direction,
            easing: self.easing,
            markers: marker_table_clone(&self.markers),
        }
    }
}

} // verus!
