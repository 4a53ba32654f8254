//! What can be wrong with a skeleton document, or with a request to one.
use vstd::prelude::*;

verus! {

/// Why a skeleton could not be built from a document, or a skin and an
/// animation not be taken from a skeleton.
#[derive(Debug, Clone)]
pub enum SkeletonError {
    /// No bone of this name stands before the place that names it.
    BoneNotFound(String),
    /// No slot has this name.
    SlotNotFound(String),
    /// No skin has this name.
    SkinNotFound(String),
    /// No animation has this name.
    AnimationNotFound(String),
    /// A colour is not hexadecimal text.
    ColorDecodeError,
}

impl SkeletonError {
    /// Whether the error says that no bone has the name `name`.
    pub open spec fn is_bone_not_found(&self, name: Seq<char>) -> bool {
        match self {
            SkeletonError::BoneNotFound(n) => n@ == name,
            _ => false,
        }
    }

    /// Whether the error says that no slot has the name `name`.
    pub open spec fn is_slot_not_found(&self, name: Seq<char>) -> bool {
        match self {
            SkeletonError::SlotNotFound(n) => n@ == name,
            _ => false,
        }
    }

    /// Whether the error says that no skin has the name `name`.
    pub open spec fn is_skin_not_found(&self, name: Seq<char>) -> bool {
        match self {
            SkeletonError::SkinNotFound(n) => n@ == name,
            _ => false,
        }
    }

    /// Whether the error says that no animation has the name `name`.
    pub open spec fn is_animation_not_found(&self, name: Seq<char>) -> bool {
        match self {
            SkeletonError::AnimationNotFound(n) => n@ == name,
            _ => false,
        }
    }
}

} // verus!
