//! The skeleton document: what a skeleton file holds, field by field, before
//! any name in it is resolved.
//!
//! Where the file format has an object keyed by names, the document has a
//! list of pairs of a name and a value, in the order of the file. Where the
//! name of an entry is looked up, the first entry of that name counts.
use crate::fixed::Fixed;
use crate::text::same_text;
use vstd::prelude::*;

verus! {

#[derive(Debug, Clone)]
pub struct Document {
    pub bones: Option<Vec<Bone>>,
    pub slots: Option<Vec<Slot>>,
    /// skin name, then slot name, then attachment name
    pub skins: Option<Vec<(String, Vec<(String, Vec<(String, Attachment)>)>)>>,
    pub animations: Option<Vec<(String, Animation)>>,
}

#[derive(Debug, Clone)]
pub struct Bone {
    pub name: String,
    pub parent: Option<String>,
    pub length: Option<Fixed>,
    pub x: Option<Fixed>,
    pub y: Option<Fixed>,
    pub scale_x: Option<Fixed>,
    pub scale_y: Option<Fixed>,
    /// in degrees
    pub rotation: Option<Fixed>,
    pub inherit_scale: Option<bool>,
    pub inherit_rotation: Option<bool>,
}

#[derive(Debug, Clone)]
pub struct Slot {
    pub name: String,
    pub bone: String,
    pub color: Option<String>,
    pub attachment: Option<String>,
}

#[derive(Debug, Clone)]
pub struct Attachment {
    pub name: Option<String>,
    pub type_: Option<AttachmentType>,
    pub x: Option<Fixed>,
    pub y: Option<Fixed>,
    pub scale_x: Option<Fixed>,
    pub scale_y: Option<Fixed>,
    /// in degrees
    pub rotation: Option<Fixed>,
    pub width: Option<Fixed>,
    pub height: Option<Fixed>,
    pub fps: Option<Fixed>,
    pub mode: Option<String>,
}

#[derive(Debug, Clone, Copy, PartialEq, Eq, Structural)]
pub enum AttachmentType {
    Region,
    RegionSequence,
    BoundingBox,
}

/// The attachment type that a document writes as `tag`, if it is one.
pub open spec fn attachment_type_of(tag: Seq<char>) -> Option<AttachmentType> {
    if tag == "region"@ {
        Some(AttachmentType::Region)
    } else if tag == "regionsequence"@ {
        Some(AttachmentType::RegionSequence)
    } else if tag == "boundingbox"@ {
        Some(AttachmentType::BoundingBox)
    } else {
        None
    }
}

impl AttachmentType {
    /// Reads an attachment type from its tag in a document.
    pub fn from_json(tag: &str) -> (r: Option<AttachmentType>)
        ensures
            r == attachment_type_of(tag@),
    {
        if same_text(tag, "region") {
            Some(AttachmentType::Region)
        } else if same_text(tag, "regionsequence") {
            Some(AttachmentType::RegionSequence)
        } else if same_text(tag, "boundingbox") {
            Some(AttachmentType::BoundingBox)
        } else {
            None
        }
    }
}

#[derive(Debug, Clone)]
pub struct Event {
    pub name: String,
    pub int_: Option<i32>,
    pub float_: Option<Fixed>,
    pub string: Option<String>,
}

#[derive(Debug, Clone)]
pub struct Animation {
    pub bones: Option<Vec<(String, BoneTimeline)>>,
    pub slots: Option<Vec<(String, SlotTimeline)>>,
    pub events: Option<Vec<EventKeyframe>>,
    pub draworder: Option<Vec<DrawOrderTimeline>>,
}

#[derive(Debug, Clone)]
pub struct BoneTimeline {
    pub translate: Option<Vec<BoneTranslateTimeline>>,
    pub rotate: Option<Vec<BoneRotateTimeline>>,
    pub scale: Option<Vec<BoneScaleTimeline>>,
}

#[derive(Debug, Clone)]
pub struct BoneTranslateTimeline {
    pub time: Fixed,
    pub curve: Option<TimelineCurve>,
    pub x: Option<Fixed>,
    pub y: Option<Fixed>,
}

#[derive(Debug, Clone)]
pub struct BoneRotateTimeline {
    pub time: Fixed,
    pub curve: Option<TimelineCurve>,
    /// in degrees
    pub angle: Option<Fixed>,
}

#[derive(Debug, Clone)]
pub struct BoneScaleTimeline {
    pub time: Fixed,
    pub curve: Option<TimelineCurve>,
    pub x: Option<Fixed>,
    pub y: Option<Fixed>,
}

/// How a value moves from one keyframe to the next.
#[derive(Debug, Clone)]
pub enum TimelineCurve {
    CurveLinear,
    CurveStepped,
    /// the control numbers `cx1, cy1, cx2, cy2` of a cubic Bezier curve from
    /// `(0, 0)` to `(1, 1)`
    CurveBezier(Vec<Fixed>),
}

/// What stands in a document in the place of a curve.
#[derive(Debug, Clone)]
pub enum CurveSource {
    Tag(String),
    Numbers(Vec<Fixed>),
}

/// A curve without its storage: the kind, and for a Bezier curve the control
/// numbers.
pub enum CurveKind {
    Linear,
    Stepped,
    Bezier(Seq<Fixed>),
}

impl View for TimelineCurve {
    type V = CurveKind;

    open spec fn view(&self) -> CurveKind {
        match self {
            TimelineCurve::CurveLinear => CurveKind::Linear,
            TimelineCurve::CurveStepped => CurveKind::Stepped,
            TimelineCurve::CurveBezier(p) => CurveKind::Bezier(p@),
        }
    }
}

/// The curve that a document writes as `source`, if it is one.
pub open spec fn curve_of(source: CurveSource) -> Option<CurveKind> {
    match source {
        CurveSource::Numbers(p) => Some(CurveKind::Bezier(p@)),
        CurveSource::Tag(tag) => if tag@ == "linear"@ {
            Some(CurveKind::Linear)
        } else if tag@ == "stepped"@ {
            Some(CurveKind::Stepped)
        } else {
            None
        },
    }
}

impl TimelineCurve {
    /// Reads a curve from what a document holds in its place: a list of
    /// numbers is a Bezier curve, and a tag is `linear` or `stepped`.
    pub fn from_json(source: CurveSource) -> (r: Option<TimelineCurve>)
        ensures
            match r {
                Some(curve) => curve_of(source) == Some(curve@),
                None => curve_of(source) is None,
            },
    {
        match source {
            CurveSource::Numbers(p) => Some(TimelineCurve::CurveBezier(p)),
            CurveSource::Tag(tag) => {
                if same_text(tag.as_str(), "linear") {
                    Some(TimelineCurve::CurveLinear)
                } else if same_text(tag.as_str(), "stepped") {
                    Some(TimelineCurve::CurveStepped)
                } else {
                    None
                }
            },
        }
    }

    /// A copy of the curve.
    pub fn duplicate(&self) -> (r: TimelineCurve)
        ensures
            r@ == self@,
    {
        match self {
            TimelineCurve::CurveLinear => TimelineCurve::CurveLinear,
            TimelineCurve::CurveStepped => TimelineCurve::CurveStepped,
            TimelineCurve::CurveBezier(p) => {
                let mut q: Vec<Fixed> = Vec::new();
                let mut i: usize = 0;
                while i < p.len()
                    invariant
                        i <= p.len(),
                        q@ == p@.subrange(0, i as int),
                    decreases p.len() - i,
                {
                    q.push(p[i]);
                    i += 1;
                }
                assert(q@ == p@);
                TimelineCurve::CurveBezier(q)
            },
        }
    }
}

#[derive(Debug, Clone)]
pub struct SlotTimeline {
    pub attachment: Option<Vec<SlotAttachmentTimeline>>,
    pub color: Option<Vec<SlotColorTimeline>>,
}

#[derive(Debug, Clone)]
pub struct SlotAttachmentTimeline {
    pub time: Fixed,
    pub name: Option<String>,
}

#[derive(Debug, Clone)]
pub struct SlotColorTimeline {
    pub time: Fixed,
    pub color: Option<String>,
    pub curve: Option<TimelineCurve>,
}

#[derive(Debug, Clone)]
pub struct EventKeyframe {
    pub time: Fixed,
    pub name: String,
    pub int_: Option<i32>,
    pub float_: Option<Fixed>,
    pub string_: Option<String>,
}

#[derive(Debug, Clone)]
pub struct DrawOrderTimeline {
    pub time: Fixed,
    pub offsets: Option<Vec<DrawOrderTimelineOffset>>,
}

#[derive(Debug, Clone)]
pub struct DrawOrderTimelineOffset {
    pub slot: String,
    pub offset: i32,
}

} // verus!
