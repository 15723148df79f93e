use vstd::prelude::*;

verus! {

/// The metadata document: a global shadow-size byte and the animation list.
pub struct AnimDataXML {
    pub shadow_size: u8,
    pub anims: AnimsXML,
}

/// The list of animation descriptors of the metadata document.
pub struct AnimsXML {
    pub anim: Vec<AnimXML>,
}

/// One animation descriptor: naming, optional special-frame markers, the
/// cell size its sheets are sliced with, and the per-frame durations.
pub struct AnimXML {
    pub name: String,
    pub index: u32,
    pub rush_frame: Option<u32>,
    pub hit_frame: Option<u32>,
    pub return_frame: Option<u32>,
    pub frame_width: u32,
    pub frame_height: u32,
    pub durations: DurationsXML,
}

/// The ordered list of per-frame durations of one animation.
pub struct DurationsXML {
    pub duration: Vec<usize>,
}

} // verus!
