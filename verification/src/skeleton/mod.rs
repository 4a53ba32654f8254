//! The skeleton: bones, slots, skins and animations, with every name
//! resolved to a place in a list.
pub mod animation;
pub mod error;
pub mod timelines;

use crate::fixed::Fixed;
use crate::fixed::ONE;
use crate::hex::color_of;
use crate::hex::decode_color;
use crate::json;
use crate::skeleton::animation::asked_animation;
use crate::skeleton::animation::resolved;
use crate::skeleton::animation::SkinAnimation;
use crate::skeleton::error::SkeletonError;
use crate::skeleton::timelines::listed;
use crate::skeleton::timelines::BoneTimeline;
use crate::skeleton::timelines::Curve;
use crate::skeleton::timelines::Interpolate;
use crate::skeleton::timelines::SlotTimeline;
use crate::text::same_text;
use vstd::prelude::*;

verus! {

/// Scale, rotation and translation in the plane.
#[derive(Debug, Clone, Copy, PartialEq, Eq)]
pub struct SRT {
    /// scale
    pub scale: (Fixed, Fixed),
    /// rotation, in radians
    pub rotation: Fixed,
    /// position or translation
    pub position: (Fixed, Fixed),
    /// cosine of the rotation
    pub cos: Fixed,
    /// sine of the rotation
    pub sin: Fixed,
}

impl SRT {
    /// Whether `cos` and `sin` are those of the rotation.
    pub open spec fn wf(&self) -> bool {
        &&& self.cos == self.rotation.cos()
        &&& self.sin == self.rotation.sin()
    }

    /// The transform of the given parts, the rotation in radians.
    pub open spec fn of(scale: (Fixed, Fixed), rotation: Fixed, position: (Fixed, Fixed)) -> SRT {
        SRT { scale, rotation, position, cos: rotation.cos(), sin: rotation.sin() }
    }

    /// The transform of the given parts, the rotation in degrees. A scale
    /// that is absent is one; a rotation or translation that is absent is
    /// zero.
    pub open spec fn new_spec(
        scale_x: Option<Fixed>,
        scale_y: Option<Fixed>,
        rotation_deg: Option<Fixed>,
        translation_x: Option<Fixed>,
        translation_y: Option<Fixed>,
    ) -> SRT {
        SRT::of(
            (scale_x.unwrap_or(Fixed { raw: ONE }), scale_y.unwrap_or(Fixed { raw: ONE })),
            rotation_deg.unwrap_or(Fixed { raw: 0 }).to_radians(),
            (translation_x.unwrap_or(Fixed { raw: 0 }), translation_y.unwrap_or(Fixed { raw: 0 })),
        )
    }

    /// The transform of the given parts, the rotation in degrees. A scale
    /// that is absent is one; a rotation or translation that is absent is
    /// zero.
    #[verifier::when_used_as_spec(new_spec)]
    pub fn new(
        scale_x: Option<Fixed>,
        scale_y: Option<Fixed>,
        rotation_deg: Option<Fixed>,
        translation_x: Option<Fixed>,
        translation_y: Option<Fixed>,
    ) -> (r: SRT)
        ensures
            r == SRT::new_spec(scale_x, scale_y, rotation_deg, translation_x, translation_y),
            r.wf(),
    {
        let degrees: Fixed = match rotation_deg {
            Some(d) => d,
            None => Fixed { raw: 0 },
        };
        let rotation: Fixed = degrees.to_radians();
        SRT {
            scale: (
                match scale_x {
                    Some(v) => v,
                    None => Fixed { raw: ONE },
                },
                match scale_y {
                    Some(v) => v,
                    None => Fixed { raw: ONE },
                },
            ),
            rotation,
            position: (
                match translation_x {
                    Some(v) => v,
                    None => Fixed { raw: 0 },
                },
                match translation_y {
                    Some(v) => v,
                    None => Fixed { raw: 0 },
                },
            ),
            cos: rotation.cos(),
            sin: rotation.sin(),
        }
    }

    /// The transform composed with `other`: translations and rotations
    /// added, scales multiplied.
    pub open spec fn composed(self, other: SRT) -> SRT {
        SRT::of(
            (self.scale.0.times(other.scale.0), self.scale.1.times(other.scale.1)),
            self.rotation.plus(other.rotation),
            (self.position.0.plus(other.position.0), self.position.1.plus(other.position.1)),
        )
    }

    /// add assign other srt to current srt
    pub fn add_assign(&mut self, other: &SRT)
        ensures
            *final(self) == old(self).composed(*other),
            final(self).wf(),
    {
        self.position.0 = self.position.0.plus(other.position.0);
        self.position.1 = self.position.1.plus(other.position.1);
        self.rotation = self.rotation.plus(other.rotation);
        self.scale.0 = self.scale.0.times(other.scale.0);
        self.scale.1 = self.scale.1.times(other.scale.1);
        self.cos = self.rotation.cos();
        self.sin = self.rotation.sin();
    }

    /// Where the transform takes the point `v`: the point is scaled, turned
    /// by the rotation whose cosine and sine the transform holds, and moved.
    pub open spec fn transform_spec(&self, v: (Fixed, Fixed)) -> (Fixed, Fixed) {
        (
            self.cos.times(v.0).times(self.scale.0).minus(
                self.sin.times(v.1).times(self.scale.1),
            ).plus(self.position.0),
            self.sin.times(v.0).times(self.scale.0).plus(
                self.cos.times(v.1).times(self.scale.1),
            ).plus(self.position.1),
        )
    }

    /// apply srt on a 2D point
    #[verifier::when_used_as_spec(transform_spec)]
    pub fn transform(&self, v: (Fixed, Fixed)) -> (r: (Fixed, Fixed))
        ensures
            r == self.transform_spec(v),
    {
        (
            self.cos.times(v.0).times(self.scale.0).minus(
                self.sin.times(v.1).times(self.scale.1),
            ).plus(self.position.0),
            self.sin.times(v.0).times(self.scale.0).plus(
                self.cos.times(v.1).times(self.scale.1),
            ).plus(self.position.1),
        )
    }
}

/// The transform that changes nothing: the scale one, no rotation and no
/// translation.
pub open spec fn identity() -> SRT {
    SRT::new(None, None, None, None, None)
}

/// Composing a transform with the one that changes nothing gives the
/// transform itself, and the one that changes nothing leaves every point
/// where it is.
pub proof fn lemma_identity(srt: SRT, v: (Fixed, Fixed))
    requires
        srt.wf(),
    ensures
        srt.composed(identity()) == srt,
        identity().transform(v) == v,
{
    crate::fixed::lemma_times_one(srt.scale.0);
    crate::fixed::lemma_times_one(srt.scale.1);
    crate::fixed::lemma_times_one(v.0);
    crate::fixed::lemma_times_one(v.1);
    crate::fixed::lemma_sine_of_quarter_turns();
}

/// Whether `i` is the first place in `names` that holds `name`.
pub open spec fn first_index(names: Seq<Seq<char>>, name: Seq<char>, i: int) -> bool {
    &&& 0 <= i < names.len()
    &&& names[i] == name
    &&& forall|k: int| 0 <= k < i ==> #[trigger] names[k] != name
}

/// Whether `names` holds `name`.
pub open spec fn has_name(names: Seq<Seq<char>>, name: Seq<char>) -> bool {
    exists|i: int| 0 <= i < names.len() && #[trigger] names[i] == name
}

/// The first place at or after `from` in `names` that holds `name`, or the
/// length of `names` where none does.
pub open spec fn name_place(names: Seq<Seq<char>>, name: Seq<char>, from: int) -> int
    decreases names.len() - from,
{
    if from >= names.len() {
        names.len() as int
    } else if names[from] == name {
        from
    } else {
        name_place(names, name, from + 1)
    }
}

/// The first place of a name lies within the names or at their end.
pub proof fn lemma_name_place(names: Seq<Seq<char>>, name: Seq<char>, from: int)
    requires
        0 <= from <= names.len(),
    ensures
        from <= name_place(names, name, from) <= names.len(),
    decreases names.len() - from,
{
    if from < names.len() && names[from] != name {
        lemma_name_place(names, name, from + 1);
    }
}

/// The names of the bones, in order.
pub open spec fn bone_names(bones: Seq<Bone>) -> Seq<Seq<char>> {
    Seq::new(bones.len(), |i: int| bones[i].name@)
}

/// The names of the slots, in order.
pub open spec fn slot_names(slots: Seq<Slot>) -> Seq<Seq<char>> {
    Seq::new(slots.len(), |i: int| slots[i].name@)
}

/// The place of the first bone of the given name.
pub fn bone_index(name: &str, bones: &[Bone]) -> (r: Result<usize, SkeletonError>)
    ensures
        match r {
            Ok(i) => first_index(bone_names(bones@), name@, i as int),
            Err(e) => !has_name(bone_names(bones@), name@) && e.is_bone_not_found(name@),
        },
{
    let mut i: usize = 0;
    while i < bones.len()
        invariant
            i <= bones.len(),
            forall|k: int| 0 <= k < i ==> #[trigger] bone_names(bones@)[k] != name@,
        decreases bones.len() - i,
    {
        if same_text(bones[i].name.as_str(), name) {
            assert(bone_names(bones@)[i as int] == name@);
            return Ok(i);
        }
        i += 1;
    }
    Err(SkeletonError::BoneNotFound(name.to_owned()))
}

/// The place of the first slot of the given name.
pub fn slot_index(name: &str, slots: &[Slot]) -> (r: Result<usize, SkeletonError>)
    ensures
        match r {
            Ok(i) => first_index(slot_names(slots@), name@, i as int),
            Err(e) => !has_name(slot_names(slots@), name@) && e.is_slot_not_found(name@),
        },
{
    let mut i: usize = 0;
    while i < slots.len()
        invariant
            i <= slots.len(),
            forall|k: int| 0 <= k < i ==> #[trigger] slot_names(slots@)[k] != name@,
        decreases slots.len() - i,
    {
        if same_text(slots[i].name.as_str(), name) {
            assert(slot_names(slots@)[i as int] == name@);
            return Ok(i);
        }
        i += 1;
    }
    Err(SkeletonError::SlotNotFound(name.to_owned()))
}

/// skeleton bone
pub struct Bone {
    pub name: String,
    /// the place of the parent among the bones, before the bone itself
    pub parent_index: Option<usize>,
    pub length: Fixed,
    /// the rest pose
    pub srt: SRT,
    pub inherit_scale: bool,
    pub inherit_rotation: bool,
}

impl Bone {
    /// Whether this is the bone that the document gives as `bone`, after
    /// the bones `bones`: the parent is the first of them that has the name
    /// of the parent, nothing is inherited only where the document says so,
    /// and a length that is absent is zero.
    pub open spec fn reads(&self, bone: json::Bone, bones: Seq<Bone>) -> bool {
        &&& self.name@ == bone.name@
        &&& match bone.parent {
            Some(p) => self.parent_index matches Some(i) && first_index(
                bone_names(bones),
                p@,
                i as int,
            ),
            None => self.parent_index is None,
        }
        &&& self.length == bone.length.unwrap_or(Fixed { raw: 0 })
        &&& self.srt == SRT::new(bone.scale_x, bone.scale_y, bone.rotation, bone.x, bone.y)
        &&& self.inherit_scale == bone.inherit_scale.unwrap_or(true)
        &&& self.inherit_rotation == bone.inherit_rotation.unwrap_or(true)
    }

    pub fn from_json(bone: json::Bone, bones: &[Bone]) -> (r: Result<Bone, SkeletonError>)
        ensures
            match r {
                Ok(b) => b.reads(bone, bones@),
                Err(e) => match bone.parent {
                    Some(p) => !has_name(bone_names(bones@), p@) && e.is_bone_not_found(p@),
                    None => false,
                },
            },
    {
        let index: Option<usize> = match &bone.parent {
            Some(name) => match bone_index(name.as_str(), bones) {
                Ok(i) => Some(i),
                Err(e) => {
                    return Err(e);
                },
            },
            None => None,
        };
        Ok(
            Bone {
                name: bone.name,
                parent_index: index,
                length: match bone.length {
                    Some(l) => l,
                    None => Fixed { raw: 0 },
                },
                srt: SRT::new(bone.scale_x, bone.scale_y, bone.rotation, bone.x, bone.y),
                inherit_scale: match bone.inherit_scale {
                    Some(b) => b,
                    None => true,
                },
                inherit_rotation: match bone.inherit_rotation {
                    Some(b) => b,
                    None => true,
                },
            },
        )
    }
}

/// skeleton slot
pub struct Slot {
    pub name: String,
    /// the place of the bone that carries the slot
    pub bone_index: usize,
    pub color: Vec<u8>,
    pub attachment: Option<String>,
}

impl Slot {
    /// Whether this is the slot that the document gives as `slot`, the
    /// bones being `bones`: the bone is the first of the name, and a colour
    /// that is absent is opaque white.
    pub open spec fn reads(&self, slot: json::Slot, bones: Seq<Bone>) -> bool {
        &&& self.name@ == slot.name@
        &&& first_index(bone_names(bones), slot.bone@, self.bone_index as int)
        &&& color_of(slot.color) == Some(self.color@)
        &&& self.attachment == slot.attachment
    }

    pub fn from_json(slot: json::Slot, bones: &[Bone]) -> (r: Result<Slot, SkeletonError>)
        ensures
            match r {
                Ok(s) => s.reads(slot, bones@),
                Err(e) => {
                    ||| e.is_bone_not_found(slot.bone@) && !has_name(bone_names(bones@), slot.bone@)
                    ||| e is ColorDecodeError && has_name(bone_names(bones@), slot.bone@)
                        && color_of(slot.color) is None
                },
            },
    {
        let bone_index: usize = match bone_index(slot.bone.as_str(), bones) {
            Ok(i) => i,
            Err(e) => {
                return Err(e);
            },
        };
        let color: Vec<u8> = match decode_color(&slot.color) {
            Ok(c) => c,
            Err(e) => {
                return Err(e);
            },
        };
        Ok(Slot { name: slot.name, bone_index, color, attachment: slot.attachment })
    }
}

/// skeleton attachment: a rectangle with a transform of its own
#[derive(Debug)]
pub struct Attachment {
    /// the name to show, where it differs from the name in the skin
    pub name: Option<String>,
    pub type_: json::AttachmentType,
    /// the transform of the attachment within its slot
    pub srt: SRT,
    /// the corners of the rectangle within the slot: top left, top right,
    /// bottom right, bottom left
    pub positions: [(Fixed, Fixed); 4],
}

impl Attachment {
    /// Whether this is the attachment that the document gives as
    /// `attachment`: a region unless the document says otherwise, its
    /// rectangle centred on the origin and taken through its transform. A
    /// width or height that is absent is zero.
    pub open spec fn reads(&self, attachment: json::Attachment) -> bool {
        let srt = SRT::new(
            attachment.scale_x,
            attachment.scale_y,
            attachment.rotation,
            attachment.x,
            attachment.y,
        );
        let w2 = attachment.width.unwrap_or(Fixed { raw: 0 }).halved();
        let h2 = attachment.height.unwrap_or(Fixed { raw: 0 }).halved();
        &&& self.name == attachment.name
        &&& self.type_ == attachment.type_.unwrap_or(json::AttachmentType::Region)
        &&& self.srt == srt
        &&& self.positions[0] == srt.transform((w2.negated(), h2))
        &&& self.positions[1] == srt.transform((w2, h2))
        &&& self.positions[2] == srt.transform((w2, h2.negated()))
        &&& self.positions[3] == srt.transform((w2.negated(), h2.negated()))
    }

    pub fn from_json(attachment: json::Attachment) -> (r: Attachment)
        ensures
            r.reads(attachment),
            r.srt.wf(),
    {
        let srt: SRT = SRT::new(
            attachment.scale_x,
            attachment.scale_y,
            attachment.rotation,
            attachment.x,
            attachment.y,
        );
        let w2: Fixed = match attachment.width {
            Some(w) => w,
            None => Fixed { raw: 0 },
        }.halved();
        let h2: Fixed = match attachment.height {
            Some(h) => h,
            None => Fixed { raw: 0 },
        }.halved();
        Attachment {
            name: attachment.name,
            type_: match attachment.type_ {
                Some(t) => t,
                None => json::AttachmentType::Region,
            },
            srt,
            positions: [
                srt.transform((w2.negated(), h2)),
                srt.transform((w2, h2)),
                srt.transform((w2, h2.negated())),
                srt.transform((w2.negated(), h2.negated())),
            ],
        }
    }

    /// gets 4 positions defining the transformed attachment
    pub fn get_positions(&self, srt: &SRT) -> (r: [(Fixed, Fixed); 4])
        ensures
            forall|i: int| 0 <= i < 4 ==> r[i] == srt.transform(#[trigger] self.positions[i]),
    {
        [
            srt.transform(self.positions[0]),
            srt.transform(self.positions[1]),
            srt.transform(self.positions[2]),
            srt.transform(self.positions[3]),
        ]
    }
}

/// The first place at or after `from` in a list of named attachments that
/// has the name `name`, or the length of the list where none has.
pub open spec fn attachment_place(
    list: Seq<(String, Attachment)>,
    name: Seq<char>,
    from: int,
) -> int
    decreases list.len() - from,
{
    if from >= list.len() {
        list.len() as int
    } else if list[from].0@ == name {
        from
    } else {
        attachment_place(list, name, from + 1)
    }
}

/// The first place at or after `from` among the slots of a skin that is
/// for the slot `slot` and holds an attachment of the name `name`, or the
/// number of places where there is none.
pub open spec fn skin_place(
    slots: Seq<(usize, Vec<(String, Attachment)>)>,
    slot: usize,
    name: Seq<char>,
    from: int,
) -> int
    decreases slots.len() - from,
{
    if from >= slots.len() {
        slots.len() as int
    } else if slots[from].0 == slot && attachment_place(slots[from].1@, name, 0)
        < slots[from].1@.len() {
        from
    } else {
        skin_place(slots, slot, name, from + 1)
    }
}

/// Skin
/// defines a set of slot with custom attachments
/// slots: Vec<(slot_index, Vec<(custom_attachment_name, Attachment)>)>
pub struct Skin {
    /// all slots modified by the skin, the default skin contains all skeleton bones
    pub slots: Vec<(usize, Vec<(String, Attachment)>)>,
}

impl Skin {
    /// Whether every place names one of `slots` slots and every attachment
    /// holds the cosine and sine of its rotation.
    pub open spec fn wf(&self, slots: int) -> bool {
        forall|i: int|
            0 <= i < self.slots@.len() ==> {
                &&& (#[trigger] self.slots@[i]).0 < slots
                &&& forall|j: int|
                    0 <= j < self.slots@[i].1@.len() ==> (#[trigger] self.slots@[i].1@[j]).1.srt.wf()
            }
    }

    /// The attachment that the skin gives the slot `slot` under the name
    /// `name`: the first of that name in the first place for the slot that
    /// has one, or none.
    pub open spec fn find_spec(&self, slot: usize, name: Seq<char>) -> Option<Attachment> {
        let e = skin_place(self.slots@, slot, name, 0);
        if e < self.slots@.len() {
            let list = self.slots@[e].1@;
            Some(list[attachment_place(list, name, 0)].1)
        } else {
            None
        }
    }

    /// find attachment in a skin
    pub fn find(&self, slot_index: usize, attach_name: &str) -> (r: Option<&Attachment>)
        ensures
            match r {
                Some(a) => self.find_spec(slot_index, attach_name@) == Some(*a),
                None => self.find_spec(slot_index, attach_name@) is None,
            },
    {
        let mut i: usize = 0;
        while i < self.slots.len()
            invariant
                i <= self.slots.len(),
                skin_place(self.slots@, slot_index, attach_name@, 0) == skin_place(
                    self.slots@,
                    slot_index,
                    attach_name@,
                    i as int,
                ),
            decreases self.slots.len() - i,
        {
            if self.slots[i].0 == slot_index {
                let list: &Vec<(String, Attachment)> = &self.slots[i].1;
                let mut j: usize = 0;
                while j < list.len()
                    invariant
                        j <= list.len(),
                        i < self.slots@.len(),
                        self.slots@[i as int].0 == slot_index,
                        list@ == self.slots@[i as int].1@,
                        skin_place(self.slots@, slot_index, attach_name@, 0) == skin_place(
                            self.slots@,
                            slot_index,
                            attach_name@,
                            i as int,
                        ),
                        attachment_place(list@, attach_name@, 0) == attachment_place(
                            list@,
                            attach_name@,
                            j as int,
                        ),
                    decreases list.len() - j,
                {
                    if same_text(list[j].0.as_str(), attach_name) {
                        return Some(&list[j].1);
                    }
                    j += 1;
                }
            }
            i += 1;
        }
        None
    }

    /// Whether this is the skin that the document gives as `skin`, the slots
    /// being `slots`: place by place, the first slot of the name, with the
    /// attachments of the document under their names.
    pub open spec fn reads(
        &self,
        skin: Seq<(String, Vec<(String, json::Attachment)>)>,
        slots: Seq<Slot>,
    ) -> bool {
        &&& self.slots@.len() == skin.len()
        &&& forall|i: int|
            0 <= i < skin.len() ==> {
                &&& first_index(slot_names(slots), skin[i].0@, (#[trigger] self.slots@[i]).0 as int)
                &&& self.slots@[i].1@.len() == skin[i].1@.len()
                &&& forall|j: int|
                    0 <= j < skin[i].1@.len() ==> {
                        &&& (#[trigger] self.slots@[i].1@[j]).0@ == skin[i].1@[j].0@
                        &&& self.slots@[i].1@[j].1.reads(skin[i].1@[j].1)
                    }
            }
    }

    /// Whether the skin that a document gives names only slots that are
    /// among `slots`.
    pub open spec fn sound(
        skin: Seq<(String, Vec<(String, json::Attachment)>)>,
        slots: Seq<Seq<char>>,
    ) -> bool {
        forall|i: int| 0 <= i < skin.len() ==> has_name(slots, (#[trigger] skin[i]).0@)
    }

    /// Whether the skin that a document gives names a slot that is not
    /// among `slots`, and `e` says so.
    pub open spec fn fault(
        skin: Seq<(String, Vec<(String, json::Attachment)>)>,
        slots: Seq<Seq<char>>,
        e: SkeletonError,
    ) -> bool {
        exists|i: int|
            0 <= i < skin.len() && !has_name(slots, (#[trigger] skin[i]).0@) && e.is_slot_not_found(
                skin[i].0@,
            )
    }

    /// Builds the skin that a document gives. It fails where the document
    /// names a slot that there is not.
    pub fn from_json(jslots: Vec<(String, Vec<(String, json::Attachment)>)>, slots: &[Slot]) -> (r:
        Result<Skin, SkeletonError>)
        ensures
            r is Ok <==> Skin::sound(jslots@, slot_names(slots@)),
            match r {
                Ok(skin) => skin.reads(jslots@, slots@) && skin.wf(slots@.len() as int),
                Err(e) => Skin::fault(jslots@, slot_names(slots@), e),
            },
    {
        let mut skin: Vec<(usize, Vec<(String, Attachment)>)> = Vec::new();
        for entry in it: jslots
            invariant
                it.seq() == jslots@,
                (Skin { slots: skin }).reads(jslots@.subrange(0, it.index() as int), slots@),
                (Skin { slots: skin }).wf(slots@.len() as int),
                Skin::sound(jslots@.subrange(0, it.index() as int), slot_names(slots@)),
        {
            let ghost at = it.index() as int;
            let (name, attachments): (String, Vec<(String, json::Attachment)>) = entry;
            let slot_index: usize = match slot_index(name.as_str(), slots) {
                Ok(i) => i,
                Err(e) => {
                    assert(!has_name(slot_names(slots@), jslots@[at].0@));
                    return Err(e);
                },
            };
            let list: Vec<(String, Attachment)> = Attachment::from_json_list(attachments);
            skin.push((slot_index, list));
            assert(slot_names(slots@)[slot_index as int] == jslots@[at].0@);
        }
        assert(jslots@.subrange(0, jslots@.len() as int) == jslots@);
        Ok(Skin { slots: skin })
    }
}

impl Attachment {
    /// Builds the attachments that a document gives under their names.
    pub fn from_json_list(list: Vec<(String, json::Attachment)>) -> (r: Vec<(String, Attachment)>)
        ensures
            r@.len() == list@.len(),
            forall|j: int|
                0 <= j < list@.len() ==> {
                    &&& (#[trigger] r@[j]).0@ == list@[j].0@
                    &&& r@[j].1.reads(list@[j].1)
                    &&& r@[j].1.srt.wf()
                },
    {
        let mut out: Vec<(String, Attachment)> = Vec::new();
        for entry in it: list
            invariant
                it.seq() == list@,
                out@.len() == it.index(),
                forall|j: int|
                    0 <= j < out@.len() ==> {
                        &&& (#[trigger] out@[j]).0@ == list@[j].0@
                        &&& out@[j].1.reads(list@[j].1)
                        &&& out@[j].1.srt.wf()
                    },
        {
            let (name, attachment): (String, json::Attachment) = entry;
            out.push((name, Attachment::from_json(attachment)));
        }
        out
    }
}

/// The later of `floor` and the latest time among the keyframes `keys`.
pub open spec fn latest<T: Interpolate, U: Curve<T>>(keys: Seq<U>, floor: Fixed) -> Fixed
    decreases keys.len(),
{
    if keys.len() == 0 {
        floor
    } else {
        let rest = latest::<T, U>(keys.drop_last(), floor);
        if keys.last().time_spec().raw > rest.raw {
            keys.last().time_spec()
        } else {
            rest
        }
    }
}

/// The later of `floor` and the latest time among the keyframes that a
/// document gives for a bone.
pub open spec fn bone_latest(timeline: json::BoneTimeline, floor: Fixed) -> Fixed {
    latest::<(Fixed, Fixed), json::BoneScaleTimeline>(
        listed(timeline.scale),
        latest::<Fixed, json::BoneRotateTimeline>(
            listed(timeline.rotate),
            latest::<(Fixed, Fixed), json::BoneTranslateTimeline>(listed(timeline.translate), floor),
        ),
    )
}

/// The later of `floor` and the latest time among the keyframes that a
/// document gives for a slot.
pub open spec fn slot_latest(timeline: json::SlotTimeline, floor: Fixed) -> Fixed {
    latest::<Vec<u8>, json::SlotColorTimeline>(
        listed(timeline.color),
        latest::<Option<String>, json::SlotAttachmentTimeline>(listed(timeline.attachment), floor),
    )
}

/// The later of `floor` and the latest time among the keyframes that a
/// document gives for its bones.
pub open spec fn bones_latest(bones: Seq<(String, json::BoneTimeline)>, floor: Fixed) -> Fixed
    decreases bones.len(),
{
    if bones.len() == 0 {
        floor
    } else {
        bone_latest(bones.last().1, bones_latest(bones.drop_last(), floor))
    }
}

/// The later of `floor` and the latest time among the keyframes that a
/// document gives for its slots.
pub open spec fn slots_latest(slots: Seq<(String, json::SlotTimeline)>, floor: Fixed) -> Fixed
    decreases slots.len(),
{
    if slots.len() == 0 {
        floor
    } else {
        slot_latest(slots.last().1, slots_latest(slots.drop_last(), floor))
    }
}

/// How long an animation of a document lasts: until the latest time of any
/// keyframe of its bones and slots, and zero where there is none or none
/// after zero.
pub open spec fn duration_of(animation: json::Animation) -> Fixed {
    slots_latest(listed(animation.slots), bones_latest(listed(animation.bones), Fixed { raw: 0 }))
}

/// Whether no keyframe of `keys` lies after `limit`.
pub open spec fn times_within<T: Interpolate, U: Curve<T>>(keys: Seq<U>, limit: Fixed) -> bool {
    forall|i: int| 0 <= i < keys.len() ==> (#[trigger] keys[i]).time_spec().raw <= limit.raw
}

/// Whether no keyframe that a document gives for a bone lies after
/// `limit`.
pub open spec fn bone_times_within(timeline: json::BoneTimeline, limit: Fixed) -> bool {
    &&& times_within::<(Fixed, Fixed), json::BoneTranslateTimeline>(
        listed(timeline.translate),
        limit,
    )
    &&& times_within::<Fixed, json::BoneRotateTimeline>(listed(timeline.rotate), limit)
    &&& times_within::<(Fixed, Fixed), json::BoneScaleTimeline>(listed(timeline.scale), limit)
}

/// Whether no keyframe that a document gives for a slot lies after
/// `limit`.
pub open spec fn slot_times_within(timeline: json::SlotTimeline, limit: Fixed) -> bool {
    &&& times_within::<Option<String>, json::SlotAttachmentTimeline>(
        listed(timeline.attachment),
        limit,
    )
    &&& times_within::<Vec<u8>, json::SlotColorTimeline>(listed(timeline.color), limit)
}

/// The latest time is not before the floor nor before any keyframe, and it
/// is the floor or the time of a keyframe.
pub proof fn lemma_latest<T: Interpolate, U: Curve<T>>(keys: Seq<U>, floor: Fixed)
    ensures
        latest::<T, U>(keys, floor).raw >= floor.raw,
        times_within::<T, U>(keys, latest::<T, U>(keys, floor)),
        latest::<T, U>(keys, floor) == floor || exists|i: int|
            0 <= i < keys.len() && latest::<T, U>(keys, floor) == (#[trigger] keys[i]).time_spec(),
    decreases keys.len(),
{
    if keys.len() > 0 {
        let rest = keys.drop_last();
        lemma_latest::<T, U>(rest, floor);
        let m = latest::<T, U>(rest, floor);
        let r = latest::<T, U>(keys, floor);
        assert forall|i: int| 0 <= i < keys.len() implies (#[trigger] keys[i]).time_spec().raw
            <= r.raw by {
            if i < keys.len() - 1 {
                assert(rest[i] == keys[i]);
            }
        }
        if r != floor {
            if r == keys.last().time_spec() {
                assert(keys[keys.len() - 1].time_spec() == r);
            } else {
                let i = choose|i: int| 0 <= i < rest.len() && m == (#[trigger] rest[i]).time_spec();
                assert(keys[i].time_spec() == r);
            }
        }
    }
}

proof fn lemma_times_within_later<T: Interpolate, U: Curve<T>>(keys: Seq<U>, a: Fixed, b: Fixed)
    requires
        times_within::<T, U>(keys, a),
        a.raw <= b.raw,
    ensures
        times_within::<T, U>(keys, b),
{
}

proof fn lemma_bone_latest(timeline: json::BoneTimeline, floor: Fixed)
    ensures
        bone_latest(timeline, floor).raw >= floor.raw,
        bone_times_within(timeline, bone_latest(timeline, floor)),
{
    let a = latest::<(Fixed, Fixed), json::BoneTranslateTimeline>(listed(timeline.translate), floor);
    let b = latest::<Fixed, json::BoneRotateTimeline>(listed(timeline.rotate), a);
    let c = latest::<(Fixed, Fixed), json::BoneScaleTimeline>(listed(timeline.scale), b);
    lemma_latest::<(Fixed, Fixed), json::BoneTranslateTimeline>(listed(timeline.translate), floor);
    lemma_latest::<Fixed, json::BoneRotateTimeline>(listed(timeline.rotate), a);
    lemma_latest::<(Fixed, Fixed), json::BoneScaleTimeline>(listed(timeline.scale), b);
    lemma_times_within_later::<(Fixed, Fixed), json::BoneTranslateTimeline>(
        listed(timeline.translate),
        a,
        c,
    );
    lemma_times_within_later::<Fixed, json::BoneRotateTimeline>(listed(timeline.rotate), b, c);
}

proof fn lemma_slot_latest(timeline: json::SlotTimeline, floor: Fixed)
    ensures
        slot_latest(timeline, floor).raw >= floor.raw,
        slot_times_within(timeline, slot_latest(timeline, floor)),
{
    let a = latest::<Option<String>, json::SlotAttachmentTimeline>(
        listed(timeline.attachment),
        floor,
    );
    let b = latest::<Vec<u8>, json::SlotColorTimeline>(listed(timeline.color), a);
    lemma_latest::<Option<String>, json::SlotAttachmentTimeline>(listed(timeline.attachment), floor);
    lemma_latest::<Vec<u8>, json::SlotColorTimeline>(listed(timeline.color), a);
    lemma_times_within_later::<Option<String>, json::SlotAttachmentTimeline>(
        listed(timeline.attachment),
        a,
        b,
    );
}

proof fn lemma_bone_times_later(timeline: json::BoneTimeline, a: Fixed, b: Fixed)
    requires
        bone_times_within(timeline, a),
        a.raw <= b.raw,
    ensures
        bone_times_within(timeline, b),
{
}

proof fn lemma_slot_times_later(timeline: json::SlotTimeline, a: Fixed, b: Fixed)
    requires
        slot_times_within(timeline, a),
        a.raw <= b.raw,
    ensures
        slot_times_within(timeline, b),
{
}

proof fn lemma_bones_latest(bones: Seq<(String, json::BoneTimeline)>, floor: Fixed)
    ensures
        bones_latest(bones, floor).raw >= floor.raw,
        forall|i: int|
            0 <= i < bones.len() ==> bone_times_within(
                (#[trigger] bones[i]).1,
                bones_latest(bones, floor),
            ),
    decreases bones.len(),
{
    if bones.len() > 0 {
        let rest = bones.drop_last();
        let m = bones_latest(rest, floor);
        lemma_bones_latest(rest, floor);
        lemma_bone_latest(bones.last().1, m);
        let r = bones_latest(bones, floor);
        assert forall|i: int| 0 <= i < bones.len() implies bone_times_within(
            (#[trigger] bones[i]).1,
            r,
        ) by {
            if i < bones.len() - 1 {
                assert(rest[i] == bones[i]);
                lemma_bone_times_later(bones[i].1, m, r);
            }
        }
    }
}

proof fn lemma_slots_latest(slots: Seq<(String, json::SlotTimeline)>, floor: Fixed)
    ensures
        slots_latest(slots, floor).raw >= floor.raw,
        forall|i: int|
            0 <= i < slots.len() ==> slot_times_within(
                (#[trigger] slots[i]).1,
                slots_latest(slots, floor),
            ),
    decreases slots.len(),
{
    if slots.len() > 0 {
        let rest = slots.drop_last();
        let m = slots_latest(rest, floor);
        lemma_slots_latest(rest, floor);
        lemma_slot_latest(slots.last().1, m);
        let r = slots_latest(slots, floor);
        assert forall|i: int| 0 <= i < slots.len() implies slot_times_within(
            (#[trigger] slots[i]).1,
            r,
        ) by {
            if i < slots.len() - 1 {
                assert(rest[i] == slots[i]);
                lemma_slot_times_later(slots[i].1, m, r);
            }
        }
    }
}

/// An animation lasts until its latest keyframe: its duration is not below
/// zero, and no keyframe of a bone or a slot lies after it.
pub proof fn lemma_duration_covers(animation: json::Animation)
    ensures
        duration_of(animation).raw >= 0,
        forall|i: int|
            0 <= i < listed(animation.bones).len() ==> bone_times_within(
                (#[trigger] listed(animation.bones)[i]).1,
                duration_of(animation),
            ),
        forall|i: int|
            0 <= i < listed(animation.slots).len() ==> slot_times_within(
                (#[trigger] listed(animation.slots)[i]).1,
                duration_of(animation),
            ),
{
    let bones = listed(animation.bones);
    let slots = listed(animation.slots);
    let zero = Fixed { raw: 0 };
    let m = bones_latest(bones, zero);
    lemma_bones_latest(bones, zero);
    lemma_slots_latest(slots, m);
    assert forall|i: int| 0 <= i < bones.len() implies bone_times_within(
        (#[trigger] bones[i]).1,
        duration_of(animation),
    ) by {
        lemma_bone_times_later(bones[i].1, m, duration_of(animation));
    }
}

/// An animation without keyframes lasts no time.
pub proof fn lemma_duration_of_nothing(animation: json::Animation)
    requires
        listed(animation.bones).len() == 0,
        listed(animation.slots).len() == 0,
    ensures
        duration_of(animation) == (Fixed { raw: 0 }),
{
}

fn latest_of<T: Interpolate, U: Curve<T>>(keys: &Option<Vec<U>>, floor: Fixed) -> (r: Fixed)
    ensures
        r == latest::<T, U>(listed(*keys), floor),
        r.raw >= floor.raw,
{
    match keys {
        None => floor,
        Some(list) => {
            let mut best: Fixed = floor;
            let mut i: usize = 0;
            while i < list.len()
                invariant
                    i <= list.len(),
                    best == latest::<T, U>(list@.subrange(0, i as int), floor),
                    best.raw >= floor.raw,
                decreases list.len() - i,
            {
                assert(list@.subrange(0, i + 1).drop_last() == list@.subrange(0, i as int));
                let time: Fixed = list[i].time();
                if time.raw > best.raw {
                    best = time;
                }
                i += 1;
            }
            assert(list@.subrange(0, i as int) == list@);
            best
        },
    }
}

/// Animation with precomputed data
pub struct Animation {
    /// the timelines of bones, each with the place of its bone
    pub bones: Vec<(usize, BoneTimeline)>,
    /// the timelines of slots, each with the place of its slot
    pub slots: Vec<(usize, SlotTimeline)>,
    pub events: Vec<json::EventKeyframe>,
    pub draworder: Vec<json::DrawOrderTimeline>,
    pub duration: Fixed,
}

impl Animation {
    /// Whether every timeline names one of `bones` bones or of `slots`
    /// slots and holds its sample tables, and the duration is not below
    /// zero.
    pub open spec fn wf(&self, bones: int, slots: int) -> bool {
        &&& forall|i: int|
            0 <= i < self.bones@.len() ==> (#[trigger] self.bones@[i]).0 < bones
                && self.bones@[i].1.wf()
        &&& forall|i: int|
            0 <= i < self.slots@.len() ==> (#[trigger] self.slots@[i]).0 < slots
                && self.slots@[i].1.wf()
        &&& self.duration.raw >= 0
    }

    /// Whether this is the animation that the document gives as
    /// `animation`, the bones and slots being `bones` and `slots`: timeline
    /// by timeline, for the first bone or slot of the name.
    pub open spec fn reads(&self, animation: json::Animation, bones: Seq<Bone>, slots: Seq<Slot>) -> bool {
        let jbones = listed(animation.bones);
        let jslots = listed(animation.slots);
        &&& self.duration == duration_of(animation)
        &&& self.bones@.len() == jbones.len()
        &&& forall|i: int|
            0 <= i < jbones.len() ==> first_index(
                bone_names(bones),
                jbones[i].0@,
                (#[trigger] self.bones@[i]).0 as int,
            ) && self.bones@[i].1.reads(jbones[i].1)
        &&& self.slots@.len() == jslots.len()
        &&& forall|i: int|
            0 <= i < jslots.len() ==> first_index(
                slot_names(slots),
                jslots[i].0@,
                (#[trigger] self.slots@[i]).0 as int,
            ) && self.slots@[i].1.reads(jslots[i].1)
        &&& self.events@ == listed(animation.events)
        &&& self.draworder@ == listed(animation.draworder)
    }

    /// Whether the animation that a document gives can be built with the
    /// bones and slots of the given names: its timelines name only bones and
    /// slots that there are, and every colour can be read.
    pub open spec fn sound(
        animation: json::Animation,
        bones: Seq<Seq<char>>,
        slots: Seq<Seq<char>>,
    ) -> bool {
        let jbones = listed(animation.bones);
        let jslots = listed(animation.slots);
        &&& forall|i: int| 0 <= i < jbones.len() ==> has_name(bones, (#[trigger] jbones[i]).0@)
        &&& forall|i: int|
            0 <= i < jslots.len() ==> has_name(slots, (#[trigger] jslots[i]).0@)
                && SlotTimeline::readable(jslots[i].1)
    }

    /// Whether the animation that a document gives cannot be built with
    /// the bones and slots of the given names, and `e` says why: a timeline
    /// names a bone or a slot that there is not, or a colour of a slot
    /// cannot be read.
    pub open spec fn fault(
        animation: json::Animation,
        bones: Seq<Seq<char>>,
        slots: Seq<Seq<char>>,
        e: SkeletonError,
    ) -> bool {
        let jbones = listed(animation.bones);
        let jslots = listed(animation.slots);
        ||| exists|i: int|
            0 <= i < jbones.len() && !has_name(bones, (#[trigger] jbones[i]).0@)
                && e.is_bone_not_found(jbones[i].0@)
        ||| exists|i: int|
            0 <= i < jslots.len() && !has_name(slots, (#[trigger] jslots[i]).0@)
                && e.is_slot_not_found(jslots[i].0@)
        ||| e is ColorDecodeError && exists|i: int|
            0 <= i < jslots.len() && !SlotTimeline::readable((#[trigger] jslots[i]).1)
    }

    /// Creates a from_json Animation
    pub fn from_json(animation: json::Animation, bones: &[Bone], slots: &[Slot]) -> (r: Result<
        Animation,
        SkeletonError,
    >)
        ensures
            r is Ok <==> Animation::sound(animation, bone_names(bones@), slot_names(slots@)),
            match r {
                Ok(a) => a.reads(animation, bones@, slots@) && a.wf(
                    bones@.len() as int,
                    slots@.len() as int,
                ),
                Err(e) => Animation::fault(animation, bone_names(bones@), slot_names(slots@), e),
            },
    {
        let duration: Fixed = Animation::duration(&animation);
        let ghost jbones = listed(animation.bones);
        let ghost jslots = listed(animation.slots);

        let mut abones: Vec<(usize, BoneTimeline)> = Vec::new();
        match animation.bones {
            None => {},
            Some(list) => {
                for entry in it: list
                    invariant
                        it.seq() == jbones,
                        jbones == listed(animation.bones),
                        abones@.len() == it.index(),
                        forall|i: int|
                            0 <= i < abones@.len() ==> first_index(
                                bone_names(bones@),
                                jbones[i].0@,
                                (#[trigger] abones@[i]).0 as int,
                            ) && abones@[i].1.reads(jbones[i].1) && abones@[i].1.wf(),
                        forall|i: int|
                            0 <= i < it.index() ==> has_name(
                                bone_names(bones@),
                                (#[trigger] jbones[i]).0@,
                            ),
                {
                    let ghost at = it.index() as int;
                    let (name, timelines): (String, json::BoneTimeline) = entry;
                    let index: usize = match bone_index(name.as_str(), bones) {
                        Ok(i) => i,
                        Err(e) => {
                            assert(!has_name(bone_names(bones@), jbones[at].0@));
                            return Err(e);
                        },
                    };
                    let timeline: BoneTimeline = match BoneTimeline::from_json(timelines) {
                        Ok(t) => t,
                        Err(e) => {
                            return Err(e);
                        },
                    };
                    abones.push((index, timeline));
                    assert(bone_names(bones@)[index as int] == jbones[at].0@);
                }
            },
        }

        let mut aslots: Vec<(usize, SlotTimeline)> = Vec::new();
        match animation.slots {
            None => {},
            Some(list) => {
                for entry in it: list
                    invariant
                        it.seq() == jslots,
                        jslots == listed(animation.slots),
                        aslots@.len() == it.index(),
                        forall|i: int|
                            0 <= i < aslots@.len() ==> first_index(
                                slot_names(slots@),
                                jslots[i].0@,
                                (#[trigger] aslots@[i]).0 as int,
                            ) && aslots@[i].1.reads(jslots[i].1) && aslots@[i].1.wf(),
                        forall|i: int|
                            0 <= i < it.index() ==> has_name(
                                slot_names(slots@),
                                (#[trigger] jslots[i]).0@,
                            ) && SlotTimeline::readable(jslots[i].1),
                {
                    let ghost at = it.index() as int;
                    let (name, timelines): (String, json::SlotTimeline) = entry;
                    let index: usize = match slot_index(name.as_str(), slots) {
                        Ok(i) => i,
                        Err(e) => {
                            assert(!has_name(slot_names(slots@), jslots[at].0@));
                            return Err(e);
                        },
                    };
                    let timeline: SlotTimeline = match SlotTimeline::from_json(timelines) {
                        Ok(t) => t,
                        Err(e) => {
                            assert(!SlotTimeline::readable(jslots[at].1));
                            return Err(e);
                        },
                    };
                    aslots.push((index, timeline));
                    assert(slot_names(slots@)[index as int] == jslots[at].0@);
                }
            },
        }

        Ok(
            Animation {
                duration,
                bones: abones,
                slots: aslots,
                events: match animation.events {
                    Some(e) => e,
                    None => Vec::new(),
                },
                draworder: match animation.draworder {
                    Some(d) => d,
                    None => Vec::new(),
                },
            },
        )
    }

    /// How long the animation of a document lasts.
    pub fn duration(animation: &json::Animation) -> (r: Fixed)
        ensures
            r == duration_of(*animation),
            r.raw >= 0,
    {
        let mut best: Fixed = Fixed { raw: 0 };
        match &animation.bones {
            None => {},
            Some(bones) => {
                let mut i: usize = 0;
                while i < bones.len()
                    invariant
                        i <= bones.len(),
                        best == bones_latest(bones@.subrange(0, i as int), Fixed { raw: 0 }),
                        best.raw >= 0,
                    decreases bones.len() - i,
                {
                    assert(bones@.subrange(0, i + 1).drop_last() == bones@.subrange(0, i as int));
                    let timelines: &json::BoneTimeline = &bones[i].1;
                    best = latest_of::<(Fixed, Fixed), json::BoneTranslateTimeline>(&timelines.translate, best);
                    best = latest_of::<Fixed, json::BoneRotateTimeline>(&timelines.rotate, best);
                    best = latest_of::<(Fixed, Fixed), json::BoneScaleTimeline>(&timelines.scale, best);
                    i += 1;
                }
                assert(bones@.subrange(0, i as int) == bones@);
            },
        }
        let ghost floor = best;
        match &animation.slots {
            None => {},
            Some(slots) => {
                let mut i: usize = 0;
                while i < slots.len()
                    invariant
                        i <= slots.len(),
                        best == slots_latest(slots@.subrange(0, i as int), floor),
                        best.raw >= 0,
                    decreases slots.len() - i,
                {
                    assert(slots@.subrange(0, i + 1).drop_last() == slots@.subrange(0, i as int));
                    let timelines: &json::SlotTimeline = &slots[i].1;
                    best = latest_of::<Option<String>, json::SlotAttachmentTimeline>(&timelines.attachment, best);
                    best = latest_of::<Vec<u8>, json::SlotColorTimeline>(&timelines.color, best);
                    i += 1;
                }
                assert(slots@.subrange(0, i as int) == slots@);
            },
        }
        best
    }
}

/// The first place at or after `from` among timelines with the places of
/// their bones that is for the bone at the place `bone`, or the number of
/// timelines where none is.
pub open spec fn bone_entry_place(entries: Seq<(usize, BoneTimeline)>, bone: usize, from: int) -> int
    decreases entries.len() - from,
{
    if from >= entries.len() {
        entries.len() as int
    } else if entries[from].0 == bone {
        from
    } else {
        bone_entry_place(entries, bone, from + 1)
    }
}

/// The first place at or after `from` among timelines with the places of
/// their slots that is for the slot at the place `slot`, or the number of
/// timelines where none is.
pub open spec fn slot_entry_place(entries: Seq<(usize, SlotTimeline)>, slot: usize, from: int) -> int
    decreases entries.len() - from,
{
    if from >= entries.len() {
        entries.len() as int
    } else if entries[from].0 == slot {
        from
    } else {
        slot_entry_place(entries, slot, from + 1)
    }
}

impl Animation {
    /// The first timeline for the bone at the place `bone`, if there is
    /// one.
    pub open spec fn bone_timeline_spec(&self, bone: usize) -> Option<BoneTimeline> {
        let i = bone_entry_place(self.bones@, bone, 0);
        if i < self.bones@.len() {
            Some(self.bones@[i].1)
        } else {
            None
        }
    }

    /// The first timeline for the slot at the place `slot`, if there is
    /// one.
    pub open spec fn slot_timeline_spec(&self, slot: usize) -> Option<SlotTimeline> {
        let i = slot_entry_place(self.slots@, slot, 0);
        if i < self.slots@.len() {
            Some(self.slots@[i].1)
        } else {
            None
        }
    }

    /// The first timeline for the bone at the place `bone`.
    pub fn bone_timeline(&self, bone: usize) -> (r: Option<&BoneTimeline>)
        ensures
            match r {
                Some(t) => self.bone_timeline_spec(bone) == Some(*t),
                None => self.bone_timeline_spec(bone) is None,
            },
            r matches Some(t) ==> exists|i: int|
                0 <= i < self.bones@.len() && (#[trigger] self.bones@[i]).1 == *t,
    {
        let mut i: usize = 0;
        while i < self.bones.len()
            invariant
                i <= self.bones.len(),
                bone_entry_place(self.bones@, bone, 0) == bone_entry_place(
                    self.bones@,
                    bone,
                    i as int,
                ),
            decreases self.bones.len() - i,
        {
            if self.bones[i].0 == bone {
                return Some(&self.bones[i].1);
            }
            i += 1;
        }
        None
    }

    /// The first timeline for the slot at the place `slot`.
    pub fn slot_timeline(&self, slot: usize) -> (r: Option<&SlotTimeline>)
        ensures
            match r {
                Some(t) => self.slot_timeline_spec(slot) == Some(*t),
                None => self.slot_timeline_spec(slot) is None,
            },
            r matches Some(t) ==> exists|i: int|
                0 <= i < self.slots@.len() && (#[trigger] self.slots@[i]).1 == *t,
    {
        let mut i: usize = 0;
        while i < self.slots.len()
            invariant
                i <= self.slots.len(),
                slot_entry_place(self.slots@, slot, 0) == slot_entry_place(
                    self.slots@,
                    slot,
                    i as int,
                ),
            decreases self.slots.len() - i,
        {
            if self.slots[i].0 == slot {
                return Some(&self.slots[i].1);
            }
            i += 1;
        }
        None
    }
}

/// The names of the bones of a document, in order.
pub open spec fn json_bone_names(bones: Seq<json::Bone>) -> Seq<Seq<char>> {
    Seq::new(bones.len(), |i: int| bones[i].name@)
}

/// The names of the slots of a document, in order.
pub open spec fn json_slot_names(slots: Seq<json::Slot>) -> Seq<Seq<char>> {
    Seq::new(slots.len(), |i: int| slots[i].name@)
}

/// The names of the skins, in order.
pub open spec fn skin_names(skins: Seq<(String, Skin)>) -> Seq<Seq<char>> {
    Seq::new(skins.len(), |i: int| skins[i].0@)
}

/// The names of the animations, in order.
pub open spec fn animation_names(animations: Seq<(String, Animation)>) -> Seq<Seq<char>> {
    Seq::new(animations.len(), |i: int| animations[i].0@)
}

/// Whether the bone of a document names a parent that is not among the
/// bones `before` it, and `e` says so.
pub open spec fn parent_fault(bone: json::Bone, before: Seq<Seq<char>>, e: SkeletonError) -> bool {
    match bone.parent {
        Some(p) => !has_name(before, p@) && e.is_bone_not_found(p@),
        None => false,
    }
}

/// Skeleton data converted from json and loaded into memory
pub struct Skeleton {
    /// bones for the skeleton, hierarchically ordered
    pub bones: Vec<Bone>,
    /// slots
    pub slots: Vec<Slot>,
    /// skins, each under its name
    pub skins: Vec<(String, Skin)>,
    /// all the animations, each under its name
    pub animations: Vec<(String, Animation)>,
}

impl Skeleton {
    /// Whether the skeleton holds together: every parent stands before its
    /// bone, every slot is carried by a bone, every skin and animation
    /// names bones and slots that there are, and every transform holds the
    /// cosine and sine of its rotation.
    pub open spec fn wf(&self) -> bool {
        &&& forall|i: int|
            0 <= i < self.bones@.len() ==> {
                &&& (#[trigger] self.bones@[i]).srt.wf()
                &&& match self.bones@[i].parent_index {
                    Some(p) => p < i,
                    None => true,
                }
            }
        &&& forall|i: int|
            0 <= i < self.slots@.len() ==> (#[trigger] self.slots@[i]).bone_index
                < self.bones@.len()
        &&& forall|i: int|
            0 <= i < self.skins@.len() ==> (#[trigger] self.skins@[i]).1.wf(
                self.slots@.len() as int,
            )
        &&& forall|i: int|
            0 <= i < self.animations@.len() ==> (#[trigger] self.animations@[i]).1.wf(
                self.bones@.len() as int,
                self.slots@.len() as int,
            )
    }

    /// Whether this is the skeleton that the document `doc` gives: bone by
    /// bone, slot by slot, and skin by skin and animation by animation
    /// under their names, each in the order of the document.
    pub open spec fn reads(&self, doc: json::Document) -> bool {
        let jbones = listed(doc.bones);
        let jslots = listed(doc.slots);
        let jskins = listed(doc.skins);
        let janimations = listed(doc.animations);
        &&& self.bones@.len() == jbones.len()
        &&& forall|i: int|
            0 <= i < jbones.len() ==> (#[trigger] self.bones@[i]).reads(
                jbones[i],
                self.bones@.subrange(0, i),
            )
        &&& self.slots@.len() == jslots.len()
        &&& forall|i: int|
            0 <= i < jslots.len() ==> (#[trigger] self.slots@[i]).reads(jslots[i], self.bones@)
        &&& self.animations@.len() == janimations.len()
        &&& forall|i: int|
            0 <= i < janimations.len() ==> (#[trigger] self.animations@[i]).0@ == janimations[i].0@
                && self.animations@[i].1.reads(janimations[i].1, self.bones@, self.slots@)
        &&& self.skins@.len() == jskins.len()
        &&& forall|i: int|
            0 <= i < jskins.len() ==> (#[trigger] self.skins@[i]).0@ == jskins[i].0@
                && self.skins@[i].1.reads(jskins[i].1@, self.slots@)
    }

    /// Whether a skeleton can be built from the document `doc`: every
    /// parent stands before its bone, every name of a bone or a slot that
    /// a slot, a timeline or a skin gives is the name of one, and every
    /// colour is hexadecimal text.
    pub open spec fn sound(doc: json::Document) -> bool {
        let jbones = listed(doc.bones);
        let jslots = listed(doc.slots);
        let jskins = listed(doc.skins);
        let janimations = listed(doc.animations);
        let bones = json_bone_names(jbones);
        let slots = json_slot_names(jslots);
        &&& forall|i: int|
            0 <= i < jbones.len() ==> match (#[trigger] jbones[i]).parent {
                Some(p) => has_name(bones.subrange(0, i), p@),
                None => true,
            }
        &&& forall|i: int|
            0 <= i < jslots.len() ==> has_name(bones, (#[trigger] jslots[i]).bone@) && color_of(
                jslots[i].color,
            ) is Some
        &&& forall|i: int|
            0 <= i < janimations.len() ==> Animation::sound(
                (#[trigger] janimations[i]).1,
                bones,
                slots,
            )
        &&& forall|i: int| 0 <= i < jskins.len() ==> Skin::sound((#[trigger] jskins[i]).1@, slots)
    }

    /// Whether no skeleton can be built from the document `doc`, and `e`
    /// says why: a bone names a parent that does not stand before it; a
    /// slot or a timeline names a bone that there is not; a timeline or a
    /// skin names a slot that there is not; or a colour is not hexadecimal
    /// text.
    pub open spec fn fault(doc: json::Document, e: SkeletonError) -> bool {
        let jbones = listed(doc.bones);
        let jslots = listed(doc.slots);
        let jskins = listed(doc.skins);
        let janimations = listed(doc.animations);
        let bones = json_bone_names(jbones);
        let slots = json_slot_names(jslots);
        ||| exists|i: int|
            0 <= i < jbones.len() && parent_fault(#[trigger] jbones[i], bones.subrange(0, i), e)
        ||| exists|i: int|
            0 <= i < jslots.len() && !has_name(bones, (#[trigger] jslots[i]).bone@)
                && e.is_bone_not_found(jslots[i].bone@)
        ||| e is ColorDecodeError && exists|i: int|
            0 <= i < jslots.len() && color_of((#[trigger] jslots[i]).color) is None
        ||| exists|i: int|
            0 <= i < janimations.len() && Animation::fault(
                (#[trigger] janimations[i]).1,
                bones,
                slots,
                e,
            )
        ||| exists|i: int|
            0 <= i < jskins.len() && Skin::fault((#[trigger] jskins[i]).1@, slots, e)
    }

    /// Creates a from_json skeleton
    /// Consumes json::Document
    pub fn from_json(doc: json::Document) -> (r: Result<Skeleton, SkeletonError>)
        ensures
            r is Ok <==> Skeleton::sound(doc),
            match r {
                Ok(skeleton) => skeleton.reads(doc) && skeleton.wf(),
                Err(e) => Skeleton::fault(doc, e),
            },
    {
        let ghost jbones = listed(doc.bones);
        let ghost jslots = listed(doc.slots);
        let ghost jskins = listed(doc.skins);
        let ghost janimations = listed(doc.animations);

        let mut bones: Vec<Bone> = Vec::new();
        if let Some(list) = doc.bones {
            for b in it: list
                invariant
                    it.seq() == jbones,
                    jbones == listed(doc.bones),
                    bones@.len() == it.index(),
                    bone_names(bones@) == json_bone_names(jbones).subrange(0, it.index() as int),
                    forall|i: int|
                        0 <= i < bones@.len() ==> {
                            &&& (#[trigger] bones@[i]).reads(jbones[i], bones@.subrange(0, i))
                            &&& bones@[i].srt.wf()
                            &&& match bones@[i].parent_index {
                                Some(p) => p < i,
                                None => true,
                            }
                        },
                    forall|i: int|
                        0 <= i < it.index() ==> match (#[trigger] jbones[i]).parent {
                            Some(p) => has_name(json_bone_names(jbones).subrange(0, i), p@),
                            None => true,
                        },
            {
                let ghost at = it.index() as int;
                let ghost before = bones@;
                let bone: Bone = match Bone::from_json(b, bones.as_slice()) {
                    Ok(bone) => bone,
                    Err(e) => {
                        assert(parent_fault(jbones[at], json_bone_names(jbones).subrange(0, at), e));
                        return Err(e);
                    },
                };
                proof {
                    if let Some(p) = jbones[at].parent {
                        let k = bone.parent_index->0 as int;
                        assert(bone_names(before)[k] == p@);
                    }
                }
                bones.push(bone);
                proof {
                    assert(bones@.subrange(0, at) == before);
                    assert forall|i: int| 0 <= i < bones@.len() implies (#[trigger] bones@[i]).reads(
                        jbones[i],
                        bones@.subrange(0, i),
                    ) by {
                        if i < at {
                            assert(bones@.subrange(0, i) == before.subrange(0, i));
                        }
                    }
                    assert(bone_names(bones@) =~= json_bone_names(jbones).subrange(0, at + 1));
                }
            }
        }
        assert(bone_names(bones@) =~= json_bone_names(jbones));

        let mut slots: Vec<Slot> = Vec::new();
        if let Some(list) = doc.slots {
            for s in it: list
                invariant
                    it.seq() == jslots,
                    jslots == listed(doc.slots),
                    jbones == listed(doc.bones),
                    bone_names(bones@) == json_bone_names(jbones),
                    slots@.len() == it.index(),
                    slot_names(slots@) == json_slot_names(jslots).subrange(0, it.index() as int),
                    forall|i: int|
                        0 <= i < slots@.len() ==> (#[trigger] slots@[i]).reads(jslots[i], bones@)
                            && slots@[i].bone_index < bones@.len(),
                    forall|i: int|
                        0 <= i < it.index() ==> has_name(
                            json_bone_names(jbones),
                            (#[trigger] jslots[i]).bone@,
                        ) && color_of(jslots[i].color) is Some,
            {
                let ghost at = it.index() as int;
                let slot: Slot = match Slot::from_json(s, bones.as_slice()) {
                    Ok(slot) => slot,
                    Err(e) => {
                        assert(jslots[at] == s);
                        return Err(e);
                    },
                };
                assert(bone_names(bones@)[slot.bone_index as int] == jslots[at].bone@);
                slots.push(slot);
                assert(slot_names(slots@) =~= json_slot_names(jslots).subrange(0, at + 1));
            }
        }
        assert(slot_names(slots@) =~= json_slot_names(jslots));

        let mut animations: Vec<(String, Animation)> = Vec::new();
        if let Some(list) = doc.animations {
            for entry in it: list
                invariant
                    it.seq() == janimations,
                    janimations == listed(doc.animations),
                    jslots == listed(doc.slots),
                    jbones == listed(doc.bones),
                    bone_names(bones@) == json_bone_names(jbones),
                    slot_names(slots@) == json_slot_names(jslots),
                    animations@.len() == it.index(),
                    forall|i: int|
                        0 <= i < animations@.len() ==> {
                            &&& (#[trigger] animations@[i]).0@ == janimations[i].0@
                            &&& animations@[i].1.reads(janimations[i].1, bones@, slots@)
                            &&& animations@[i].1.wf(bones@.len() as int, slots@.len() as int)
                        },
                    forall|i: int|
                        0 <= i < it.index() ==> Animation::sound(
                            (#[trigger] janimations[i]).1,
                            json_bone_names(jbones),
                            json_slot_names(jslots),
                        ),
            {
                let ghost at = it.index() as int;
                let (name, animation): (String, json::Animation) = entry;
                let animation: Animation = match Animation::from_json(
                    animation,
                    bones.as_slice(),
                    slots.as_slice(),
                ) {
                    Ok(a) => a,
                    Err(e) => {
                        assert(Animation::fault(
                            janimations[at].1,
                            json_bone_names(jbones),
                            json_slot_names(jslots),
                            e,
                        ));
                        return Err(e);
                    },
                };
                animations.push((name, animation));
            }
        }

        let mut skins: Vec<(String, Skin)> = Vec::new();
        if let Some(list) = doc.skins {
            for entry in it: list
                invariant
                    it.seq() == jskins,
                    jskins == listed(doc.skins),
                    jslots == listed(doc.slots),
                    slot_names(slots@) == json_slot_names(jslots),
                    skins@.len() == it.index(),
                    forall|i: int|
                        0 <= i < skins@.len() ==> {
                            &&& (#[trigger] skins@[i]).0@ == jskins[i].0@
                            &&& skins@[i].1.reads(jskins[i].1@, slots@)
                            &&& skins@[i].1.wf(slots@.len() as int)
                        },
                    forall|i: int|
                        0 <= i < it.index() ==> Skin::sound(
                            (#[trigger] jskins[i]).1@,
                            json_slot_names(jslots),
                        ),
            {
                let ghost at = it.index() as int;
                let (name, jslots_of_skin): (String, Vec<(String, Vec<(String, json::Attachment)>)>) =
                    entry;
                let skin: Skin = match Skin::from_json(jslots_of_skin, slots.as_slice()) {
                    Ok(s) => s,
                    Err(e) => {
                        assert(Skin::fault(jskins[at].1@, json_slot_names(jslots), e));
                        return Err(e);
                    },
                };
                skins.push((name, skin));
            }
        }

        Ok(Skeleton { bones, slots, skins, animations })
    }

    /// The first skin of the name `name`, if there is one.
    pub open spec fn skin_spec(&self, name: Seq<char>) -> Option<Skin> {
        let i = name_place(skin_names(self.skins@), name, 0);
        if i < self.skins@.len() {
            Some(self.skins@[i].1)
        } else {
            None
        }
    }

    /// The first animation of the name `name`, if there is one.
    pub open spec fn animation_spec(&self, name: Seq<char>) -> Option<Animation> {
        let i = name_place(animation_names(self.animations@), name, 0);
        if i < self.animations@.len() {
            Some(self.animations@[i].1)
        } else {
            None
        }
    }

    /// The first skin of the given name.
    pub fn get_skin(&self, name: &str) -> (r: Result<&Skin, SkeletonError>)
        ensures
            match r {
                Ok(skin) => self.skin_spec(name@) == Some(*skin),
                Err(e) => self.skin_spec(name@) is None && e.is_skin_not_found(name@),
            },
    {
        let mut i: usize = 0;
        while i < self.skins.len()
            invariant
                i <= self.skins.len(),
                name_place(skin_names(self.skins@), name@, 0) == name_place(
                    skin_names(self.skins@),
                    name@,
                    i as int,
                ),
            decreases self.skins.len() - i,
        {
            if same_text(self.skins[i].0.as_str(), name) {
                return Ok(&self.skins[i].1);
            }
            i += 1;
        }
        Err(SkeletonError::SkinNotFound(name.to_owned()))
    }

    /// The first animation of the given name.
    pub fn get_animation(&self, name: &str) -> (r: Result<&Animation, SkeletonError>)
        ensures
            match r {
                Ok(animation) => self.animation_spec(name@) == Some(*animation),
                Err(e) => self.animation_spec(name@) is None && e.is_animation_not_found(name@),
            },
    {
        let mut i: usize = 0;
        while i < self.animations.len()
            invariant
                i <= self.animations.len(),
                name_place(animation_names(self.animations@), name@, 0) == name_place(
                    animation_names(self.animations@),
                    name@,
                    i as int,
                ),
            decreases self.animations.len() - i,
        {
            if same_text(self.animations[i].0.as_str(), name) {
                return Ok(&self.animations[i].1);
            }
            i += 1;
        }
        Err(SkeletonError::AnimationNotFound(name.to_owned()))
    }

    /// Gets a SkinAnimation which can interpolate slots at a given time
    pub fn get_animated_skin<'a>(&'a self, skin: &str, animation: Option<&str>) -> (r: Result<
        SkinAnimation<'a>,
        SkeletonError,
    >)
        requires
            self.wf(),
        ensures
            match r {
                Ok(session) => {
                    &&& self.skin_spec(skin@) is Some
                    &&& self.skin_spec("default"@) is Some
                    &&& animation is Some ==> asked_animation(*self, animation) is Some
                    &&& session@ == resolved(
                        *self,
                        self.skin_spec(skin@)->0,
                        self.skin_spec("default"@)->0,
                        asked_animation(*self, animation),
                    )
                    &&& session@.wf()
                },
                Err(e) => {
                    ||| self.skin_spec(skin@) is None && e.is_skin_not_found(skin@)
                    ||| self.skin_spec(skin@) is Some && self.skin_spec("default"@) is None
                        && e.is_skin_not_found("default"@)
                    ||| self.skin_spec(skin@) is Some && self.skin_spec("default"@) is Some
                        && animation is Some && asked_animation(*self, animation) is None
                        && e.is_animation_not_found(animation->0@)
                },
            },
    {
        SkinAnimation::new(self, skin, animation)
    }
}

} // verus!
