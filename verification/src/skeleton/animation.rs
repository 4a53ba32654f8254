//! Module to interpolate animated sprites
use crate::fixed::saturate;
use crate::fixed::Fixed;
use crate::hex::white;
use crate::skeleton::error::SkeletonError;
use crate::skeleton::timelines::lemma_named_values_hold;
use crate::skeleton::timelines::name_model;
use crate::skeleton::timelines::named_values;
use crate::skeleton::timelines::BoneTimeline;
use crate::skeleton::timelines::SlotTimeline;
use crate::skeleton::Animation;
use crate::skeleton::Attachment;
use crate::skeleton::Bone;
use crate::skeleton::Skeleton;
use crate::skeleton::Skin;
use crate::skeleton::Slot;
use crate::skeleton::SRT;
use crate::text::same_text;
use vstd::prelude::*;

verus! {

/// The pose of a bone by itself at a time: its rest pose, composed with what
/// its timelines give then.
pub open spec fn local_pose(bone: Bone, timeline: Option<BoneTimeline>, t: Fixed) -> SRT {
    match timeline {
        Some(tl) => bone.srt.composed(tl.srt_spec(t)),
        None => bone.srt,
    }
}

/// The pose of a bone in the world, of its pose by itself and the pose of
/// its parent in the world. The parent's pose takes the bone's position to
/// the world. The parent's rotation is added only where the bone inherits
/// rotation, and the parent's scale is multiplied in only where the bone
/// inherits scale. A bone without a parent stands in the world as it is.
pub open spec fn world_pose(bone: Bone, local: SRT, parent: Option<SRT>) -> SRT {
    match parent {
        None => local,
        Some(p) => SRT::of(
            if bone.inherit_scale {
                (local.scale.0.times(p.scale.0), local.scale.1.times(p.scale.1))
            } else {
                local.scale
            },
            if bone.inherit_rotation {
                local.rotation.plus(p.rotation)
            } else {
                local.rotation
            },
            p.transform(local.position),
        ),
    }
}

/// The first place at or after `from` in a table of attachments by name
/// that has the name `name`, or the length of the table where none has.
pub open spec fn table_place(
    table: Seq<(Seq<char>, Option<Attachment>)>,
    name: Seq<char>,
    from: int,
) -> int
    decreases table.len() - from,
{
    if from >= table.len() {
        table.len() as int
    } else if table[from].0 == name {
        from
    } else {
        table_place(table, name, from + 1)
    }
}

/// The name under which an attachment is shown: its own where it has one,
/// else the name under which it was found.
pub open spec fn shown_name(attachment: Attachment, found_as: Option<Seq<char>>) -> Seq<char> {
    match attachment.name {
        Some(n) => n@,
        None => match found_as {
            Some(k) => k,
            None => Seq::empty(),
        },
    }
}

/// A sprite without its storage.
pub struct SpriteModel {
    pub attachment: Seq<char>,
    pub color: Seq<u8>,
    pub srt: SRT,
}

/// One slot of a session without its storage.
pub struct SlotModel {
    pub slot: Slot,
    /// the attachment that the slot shows by itself
    pub default: Option<Attachment>,
    /// where the animation switches the attachment of the slot: the names
    /// that it switches to, each with its attachment
    pub table: Option<Seq<(Seq<char>, Option<Attachment>)>>,
    pub timeline: Option<SlotTimeline>,
}

/// A session without its storage: the bones and slots of a skeleton, each
/// with what a skin and an animation give it.
pub struct SessionModel {
    pub bones: Seq<(Bone, Option<BoneTimeline>)>,
    pub slots: Seq<SlotModel>,
    pub duration: Fixed,
}

impl SlotModel {
    /// What the slot shows at the time `t`, with the name under which it
    /// was found. A slot whose attachment the animation does not switch
    /// shows its own, under the name that the slot gives. One that the
    /// animation switches shows its own before the first keyframe, nothing
    /// while the keyframe in force holds no name, and else the attachment
    /// that the table has under the name in force.
    pub open spec fn shown(self, t: Fixed) -> Option<(Attachment, Option<Seq<char>>)> {
        let own = match self.default {
            Some(a) => Some((a, name_model(self.slot.attachment))),
            None => None,
        };
        match (self.table, self.timeline) {
            (Some(table), Some(timeline)) => match timeline.attachment_at(t) {
                None => own,
                Some(None) => None,
                Some(Some(name)) => {
                    let i = table_place(table, name, 0);
                    if i < table.len() {
                        match table[i].1 {
                            Some(a) => Some((a, Some(name))),
                            None => None,
                        }
                    } else {
                        None
                    }
                },
            },
            _ => own,
        }
    }

    /// The colour of the slot at the time `t`: that of its colour
    /// timeline, and opaque white where it has no timeline.
    pub open spec fn color(self, t: Fixed) -> Seq<u8> {
        match self.timeline {
            Some(timeline) => timeline.color_at(t),
            None => white(),
        }
    }
}

impl SessionModel {
    /// Whether the session holds together: every parent stands before its
    /// bone, every slot is carried by a bone, and every timeline holds its
    /// sample tables.
    pub open spec fn wf(self) -> bool {
        &&& forall|i: int|
            0 <= i < self.bones.len() ==> {
                &&& match (#[trigger] self.bones[i]).0.parent_index {
                    Some(p) => p < i,
                    None => true,
                }
                &&& match self.bones[i].1 {
                    Some(timeline) => timeline.wf(),
                    None => true,
                }
            }
        &&& forall|i: int|
            0 <= i < self.slots.len() ==> {
                &&& (#[trigger] self.slots[i]).slot.bone_index < self.bones.len()
                &&& match self.slots[i].timeline {
                    Some(timeline) => timeline.wf(),
                    None => true,
                }
            }
    }

    /// The poses in the world of the first `n` bones at the time `t`, each
    /// from its own pose and the pose of its parent, which stands before
    /// it.
    pub open spec fn poses(self, t: Fixed, n: int) -> Seq<SRT>
        decreases n,
    {
        if n <= 0 {
            Seq::empty()
        } else {
            let before = self.poses(t, n - 1);
            let (bone, timeline) = self.bones[n - 1];
            let parent = match bone.parent_index {
                Some(p) => if p < n - 1 {
                    Some(before[p as int])
                } else {
                    None
                },
                None => None,
            };
            before.push(world_pose(bone, local_pose(bone, timeline, t), parent))
        }
    }

    /// The sprite of the slot at the place `i` at the time `t`, if the slot
    /// shows anything then: the attachment under its name, in the colour of
    /// the slot, its transform that of the slot's bone in the world
    /// composed with the attachment's own.
    pub open spec fn sprite(self, i: int, t: Fixed) -> Option<SpriteModel> {
        match self.slots[i].shown(t) {
            Some((attachment, found_as)) => Some(
                SpriteModel {
                    attachment: shown_name(attachment, found_as),
                    color: self.slots[i].color(t),
                    srt: self.poses(t, self.bones.len() as int)[self.slots[i].slot.bone_index as int].composed(
                        attachment.srt,
                    ),
                },
            ),
            None => None,
        }
    }

    /// The sprites of the first `n` slots at the time `t`, in the order of
    /// the slots. A slot that shows nothing has none.
    pub open spec fn sprites_upto(self, t: Fixed, n: int) -> Seq<SpriteModel>
        decreases n,
    {
        if n <= 0 {
            Seq::empty()
        } else {
            match self.sprite(n - 1, t) {
                Some(s) => self.sprites_upto(t, n - 1).push(s),
                None => self.sprites_upto(t, n - 1),
            }
        }
    }

    /// The pose at the time `t`: the sprites of all slots, and no pose
    /// after the end of the animation.
    pub open spec fn sample(self, t: Fixed) -> Option<Seq<SpriteModel>> {
        if t.raw > self.duration.raw {
            None
        } else {
            Some(self.sprites_upto(t, self.slots.len() as int))
        }
    }
}

/// Wrapper on attachment depending whether slot attachment is animated or not
pub enum AttachmentWrapper<'a> {
    Static(Option<&'a Attachment>),
    Dynamic(Option<&'a Attachment>, Vec<(&'a str, Option<&'a Attachment>)>),
}

/// An attachment that may be absent, without the reference.
pub open spec fn attachment_model(a: Option<&Attachment>) -> Option<Attachment> {
    match a {
        Some(r) => Some(*r),
        None => None,
    }
}

/// A table of attachments by name without its storage.
pub open spec fn table_model(table: Seq<(&str, Option<&Attachment>)>) -> Seq<
    (Seq<char>, Option<Attachment>),
> {
    Seq::new(table.len(), |i: int| (table[i].0@, attachment_model(table[i].1)))
}

/// Struct to handle animated skin and calculate sprites
pub struct SkinAnimation<'a> {
    pub anim_bones: Vec<(&'a Bone, Option<&'a BoneTimeline>)>,
    pub anim_slots: Vec<(&'a Slot, AttachmentWrapper<'a>, Option<&'a SlotTimeline>)>,
    pub duration: Fixed,
}

/// One bone of a session without the references.
pub open spec fn bone_model(entry: (&Bone, Option<&BoneTimeline>)) -> (Bone, Option<BoneTimeline>) {
    (
        *entry.0,
        match entry.1 {
            Some(t) => Some(*t),
            None => None,
        },
    )
}

/// One slot of a session without the references.
pub open spec fn slot_model(entry: (&Slot, AttachmentWrapper, Option<&SlotTimeline>)) -> SlotModel {
    SlotModel {
        slot: *entry.0,
        default: match entry.1 {
            AttachmentWrapper::Static(a) => attachment_model(a),
            AttachmentWrapper::Dynamic(a, _) => attachment_model(a),
        },
        table: match entry.1 {
            AttachmentWrapper::Static(_) => None,
            AttachmentWrapper::Dynamic(_, table) => Some(table_model(table@)),
        },
        timeline: match entry.2 {
            Some(t) => Some(*t),
            None => None,
        },
    }
}

impl<'a> View for SkinAnimation<'a> {
    type V = SessionModel;

    open spec fn view(&self) -> SessionModel {
        SessionModel {
            bones: Seq::new(self.anim_bones@.len(), |i: int| bone_model(self.anim_bones@[i])),
            slots: Seq::new(self.anim_slots@.len(), |i: int| slot_model(self.anim_slots@[i])),
            duration: self.duration,
        }
    }
}

/// Interpolated slot with attachment and color
#[derive(Debug)]
pub struct Sprite {
    /// attachment name
    pub attachment: String,
    /// color
    pub color: Vec<u8>,
    /// srt
    pub srt: SRT,
}

impl View for Sprite {
    type V = SpriteModel;

    open spec fn view(&self) -> SpriteModel {
        SpriteModel { attachment: self.attachment@, color: self.color@, srt: self.srt }
    }
}

/// Sprites without their storage.
pub open spec fn sprite_models(sprites: Seq<Sprite>) -> Seq<SpriteModel> {
    Seq::new(sprites.len(), |i: int| sprites[i]@)
}

/// The attachment that a skin gives a slot under a name, and else the one
/// that the default skin gives it under that name.
pub open spec fn find_attachment(
    skin: Skin,
    default_skin: Skin,
    slot: usize,
    name: Seq<char>,
) -> Option<Attachment> {
    match skin.find_spec(slot, name) {
        Some(a) => Some(a),
        None => default_skin.find_spec(slot, name),
    }
}

/// What a skin and an animation give the slot at the place `i`. The slot
/// shows by itself the attachment of the name that the slot gives. Where
/// the animation has attachment keyframes for the slot, the table holds
/// each name that they hold, in the order of the keyframes, with its
/// attachment.
pub open spec fn resolved_slot(
    slot: Slot,
    i: usize,
    skin: Skin,
    default_skin: Skin,
    animation: Option<Animation>,
) -> SlotModel {
    let timeline = match animation {
        Some(a) => a.slot_timeline_spec(i),
        None => None,
    };
    SlotModel {
        slot,
        default: match slot.attachment {
            Some(n) => find_attachment(skin, default_skin, i, n@),
            None => None,
        },
        table: match timeline {
            Some(tl) => if tl.attachment.timelines@.len() == 0 {
                None
            } else {
                let names = named_values(tl.attachment.timelines@);
                Some(
                    Seq::new(
                        names.len(),
                        |k: int| (names[k], find_attachment(skin, default_skin, i, names[k])),
                    ),
                )
            },
            None => None,
        },
        timeline,
    }
}

/// The session of a skeleton with a skin, the default skin and an
/// animation: bone by bone and slot by slot. Without an animation it lasts
/// no time.
pub open spec fn resolved(
    skeleton: Skeleton,
    skin: Skin,
    default_skin: Skin,
    animation: Option<Animation>,
) -> SessionModel {
    SessionModel {
        bones: Seq::new(
            skeleton.bones@.len(),
            |i: int|
                (
                    skeleton.bones@[i],
                    match animation {
                        Some(a) => a.bone_timeline_spec(i as usize),
                        None => None,
                    },
                ),
        ),
        slots: Seq::new(
            skeleton.slots@.len(),
            |i: int| resolved_slot(skeleton.slots@[i], i as usize, skin, default_skin, animation),
        ),
        duration: match animation {
            Some(a) => a.duration,
            None => Fixed { raw: 0 },
        },
    }
}

/// The animation of the name that is asked for, if one is asked for and the
/// skeleton has it.
pub open spec fn asked_animation(skeleton: Skeleton, animation: Option<&str>) -> Option<Animation> {
    match animation {
        Some(name) => skeleton.animation_spec(name@),
        None => None,
    }
}

fn find_attach<'a>(skin: &'a Skin, default_skin: &'a Skin, i: usize, name: &str) -> (r: Option<
    &'a Attachment,
>)
    ensures
        attachment_model(r) == find_attachment(*skin, *default_skin, i, name@),
{
    match skin.find(i, name) {
        Some(a) => Some(a),
        None => default_skin.find(i, name),
    }
}

fn find_in_table<'a>(table: &Vec<(&'a str, Option<&'a Attachment>)>, name: &str) -> (r: Option<
    &'a Attachment,
>)
    ensures
        ({
            let model = table_model(table@);
            let i = table_place(model, name@, 0);
            attachment_model(r) == if i < model.len() {
                model[i].1
            } else {
                None
            }
        }),
{
    let mut i: usize = 0;
    while i < table.len()
        invariant
            i <= table.len(),
            table_place(table_model(table@), name@, 0) == table_place(
                table_model(table@),
                name@,
                i as int,
            ),
        decreases table.len() - i,
    {
        if same_text(table[i].0, name) {
            return table[i].1;
        }
        i += 1;
    }
    None
}

impl<'a> SkinAnimation<'a> {
    /// The session of a skeleton with the skin of the name `skin` and, if one
    /// is asked for, the animation of the name `animation`. Attachments that
    /// the skin does not have are taken from the skin of the name `default`,
    /// which there has to be.
    pub fn new(skeleton: &'a Skeleton, skin: &str, animation: Option<&str>) -> (r: Result<
        SkinAnimation<'a>,
        SkeletonError,
    >)
        requires
            skeleton.wf(),
        ensures
            match r {
                Ok(session) => {
                    &&& skeleton.skin_spec(skin@) is Some
                    &&& skeleton.skin_spec("default"@) is Some
                    &&& animation is Some ==> asked_animation(*skeleton, animation) is Some
                    &&& session@ == resolved(
                        *skeleton,
                        skeleton.skin_spec(skin@)->0,
                        skeleton.skin_spec("default"@)->0,
                        asked_animation(*skeleton, animation),
                    )
                    &&& session@.wf()
                },
                Err(e) => {
                    ||| skeleton.skin_spec(skin@) is None && e.is_skin_not_found(skin@)
                    ||| skeleton.skin_spec(skin@) is Some && skeleton.skin_spec("default"@) is None
                        && e.is_skin_not_found("default"@)
                    ||| skeleton.skin_spec(skin@) is Some && skeleton.skin_spec("default"@) is Some
                        && animation is Some && asked_animation(*skeleton, animation) is None
                        && e.is_animation_not_found(animation->0@)
                },
            },
    {
        // search all attachments defined by the skin name (use 'default' skin if not found)
        let skin: &Skin = match skeleton.get_skin(skin) {
            Ok(s) => s,
            Err(e) => {
                return Err(e);
            },
        };
        let default_skin: &Skin = match skeleton.get_skin("default") {
            Ok(s) => s,
            Err(e) => {
                return Err(e);
            },
        };

        // get animation
        let ghost animation_name = animation;
        let (animation, duration): (Option<&Animation>, Fixed) = match animation {
            Some(name) => match skeleton.get_animation(name) {
                Ok(anim) => (Some(anim), anim.duration),
                Err(e) => {
                    return Err(e);
                },
            },
            None => (None, Fixed { raw: 0 }),
        };
        let ghost anim_model: Option<Animation> = match animation {
            Some(a) => Some(*a),
            None => None,
        };
        proof {
            if let Some(name) = animation_name {
                crate::skeleton::lemma_name_place(
                    crate::skeleton::animation_names(skeleton.animations@),
                    name@,
                    0,
                );
            }
        }
        let ghost goal = resolved(*skeleton, *skin, *default_skin, anim_model);

        // get bone related data
        let mut anim_bones: Vec<(&'a Bone, Option<&'a BoneTimeline>)> = Vec::new();
        let mut i: usize = 0;
        while i < skeleton.bones.len()
            invariant
                i <= skeleton.bones.len(),
                skeleton.wf(),
                anim_model == match animation {
                    Some(a) => Some(*a),
                    None => None,
                },
                animation matches Some(a) ==> a.wf(
                    skeleton.bones@.len() as int,
                    skeleton.slots@.len() as int,
                ),
                goal == resolved(*skeleton, *skin, *default_skin, anim_model),
                anim_bones@.len() == i,
                forall|k: int| 0 <= k < i ==> bone_model(#[trigger] anim_bones@[k]) == goal.bones[k],
                forall|k: int|
                    0 <= k < i ==> match (#[trigger] anim_bones@[k]).1 {
                        Some(t) => t.wf(),
                        None => true,
                    },
            decreases skeleton.bones.len() - i,
        {
            let timeline: Option<&BoneTimeline> = match animation {
                Some(anim) => anim.bone_timeline(i),
                None => None,
            };
            anim_bones.push((&skeleton.bones[i], timeline));
            i += 1;
        }

        // get slot related data
        let mut anim_slots: Vec<
            (&'a Slot, AttachmentWrapper<'a>, Option<&'a SlotTimeline>),
        > = Vec::new();
        let mut i: usize = 0;
        while i < skeleton.slots.len()
            invariant
                i <= skeleton.slots.len(),
                skeleton.wf(),
                anim_model == match animation {
                    Some(a) => Some(*a),
                    None => None,
                },
                animation matches Some(a) ==> a.wf(
                    skeleton.bones@.len() as int,
                    skeleton.slots@.len() as int,
                ),
                goal == resolved(*skeleton, *skin, *default_skin, anim_model),
                anim_slots@.len() == i,
                forall|k: int| 0 <= k < i ==> slot_model(#[trigger] anim_slots@[k]) == goal.slots[k],
                forall|k: int|
                    0 <= k < i ==> match (#[trigger] anim_slots@[k]).2 {
                        Some(t) => t.wf(),
                        None => true,
                    },
            decreases skeleton.slots.len() - i,
        {
            let s: &Slot = &skeleton.slots[i];
            let anim: Option<&SlotTimeline> = match animation {
                Some(anim) => anim.slot_timeline(i),
                None => None,
            };
            let slot_attach: Option<&Attachment> = match &s.attachment {
                Some(name) => find_attach(skin, default_skin, i, name.as_str()),
                None => None,
            };
            let attach: AttachmentWrapper<'a> = match anim {
                Some(anim) => {
                    if anim.attachment.timelines.len() == 0 {
                        AttachmentWrapper::Static(slot_attach)
                    } else {
                        let names: Vec<&str> = anim.get_attachment_names();
                        let mut attachments: Vec<(&'a str, Option<&'a Attachment>)> = Vec::new();
                        let mut k: usize = 0;
                        while k < names.len()
                            invariant
                                k <= names.len(),
                                attachments@.len() == k,
                                forall|j: int|
                                    0 <= j < k ==> (#[trigger] attachments@[j]).0@ == names@[j]@
                                        && attachment_model(attachments@[j].1) == find_attachment(
                                        *skin,
                                        *default_skin,
                                        i,
                                        names@[j]@,
                                    ),
                            decreases names.len() - k,
                        {
                            attachments.push((names[k], find_attach(skin, default_skin, i, names[k])));
                            k += 1;
                        }
                        proof {
                            let wanted = goal.slots[i as int].table->0;
                            assert(table_model(attachments@) =~= wanted);
                        }
                        AttachmentWrapper::Dynamic(slot_attach, attachments)
                    }
                },
                None => AttachmentWrapper::Static(slot_attach),
            };
            anim_slots.push((s, attach, anim));
            i += 1;
        }

        let session = SkinAnimation { duration, anim_bones, anim_slots };
        proof {
            assert(session@.bones =~= goal.bones);
            assert(session@.slots =~= goal.slots);
            assert forall|k: int| 0 <= k < session@.bones.len() implies match (
            #[trigger] session@.bones[k]).1 {
                Some(timeline) => timeline.wf(),
                None => true,
            } by {
                assert(session@.bones[k] == bone_model(session.anim_bones@[k]));
            }
            assert forall|k: int| 0 <= k < session@.slots.len() implies match (
            #[trigger] session@.slots[k]).timeline {
                Some(timeline) => timeline.wf(),
                None => true,
            } by {
                assert(session@.slots[k] == slot_model(session.anim_slots@[k]));
            }
        }
        Ok(session)
    }

    /// Interpolates animated slots at given time
    pub fn interpolate(&self, time: Fixed) -> (r: Option<Vec<Sprite>>)
        requires
            self@.wf(),
        ensures
            match r {
                Some(sprites) => self@.sample(time) == Some(sprite_models(sprites@)),
                None => self@.sample(time) is None,
            },
    {
        if time.raw > self.duration.raw {
            return None;
        }
        // calculate all bones srt
        let mut srts: Vec<SRT> = Vec::with_capacity(self.anim_bones.len());
        let mut i: usize = 0;
        while i < self.anim_bones.len()
            invariant
                i <= self.anim_bones.len(),
                self@.wf(),
                srts@ == self@.poses(time, i as int),
                srts@.len() == i,
            decreases self.anim_bones.len() - i,
        {
            let b: &Bone = self.anim_bones[i].0;
            let anim: Option<&BoneTimeline> = self.anim_bones[i].1;
            assert(self@.bones[i as int] == bone_model(self.anim_bones@[i as int]));

            // starts with setup pose
            let mut srt: SRT = b.srt;

            // add animation srt
            if let Some(anim) = anim {
                let anim_srt: SRT = anim.srt(time);
                srt.add_assign(&anim_srt);
            }
            // inherit world from parent srt

            if let Some(p) = b.parent_index {
                if p < srts.len() {
                    let parent_srt: SRT = srts[p];
                    srt.position = parent_srt.transform(srt.position);
                    if b.inherit_rotation {
                        srt.rotation = srt.rotation.plus(parent_srt.rotation);
                    }
                    if b.inherit_scale {
                        srt.scale.0 = srt.scale.0.times(parent_srt.scale.0);
                        srt.scale.1 = srt.scale.1.times(parent_srt.scale.1);
                    }
                    srt.cos = srt.rotation.cos();
                    srt.sin = srt.rotation.sin();
                }
            }
            srts.push(srt);
            i += 1;
        }

        // loop all slots and animate them
        let mut result: Vec<Sprite> = Vec::new();
        let mut k: usize = 0;
        while k < self.anim_slots.len()
            invariant
                k <= self.anim_slots.len(),
                self@.wf(),
                srts@ == self@.poses(time, self.anim_bones@.len() as int),
                srts@.len() == self.anim_bones@.len(),
                sprite_models(result@) == self@.sprites_upto(time, k as int),
            decreases self.anim_slots.len() - k,
        {
            let slot: &Slot = self.anim_slots[k].0;
            let anim: Option<&SlotTimeline> = self.anim_slots[k].2;
            assert(self@.slots[k as int] == slot_model(self.anim_slots@[k as int]));

            // search animated attachment
            let (name, skin_attach): (Option<String>, Option<&Attachment>) =
                match &self.anim_slots[k].1 {
                AttachmentWrapper::Static(attach) => (None, *attach),
                AttachmentWrapper::Dynamic(attach, names) => match anim {
                    Some(anim) => match anim.interpolate_attachment(time) {
                        Some(Some(name)) => {
                            let attach: Option<&Attachment> = find_in_table(names, name.as_str());
                            (Some(name), attach)
                        },
                        Some(None) => (None, None),
                        None => (None, *attach),
                    },
                    None => (None, *attach),
                },
            };

            // nothing to show if there is no attachment
            if let Some(skin_attach) = skin_attach {
                // color
                let color: Vec<u8> = match anim {
                    Some(anim) => anim.interpolate_color(time),
                    None => {
                        let c: Vec<u8> = vec![255, 255, 255, 255];
                        assert(c@ =~= white());
                        c
                    },
                };

                // attachment name
                let attach_name: String = match &skin_attach.name {
                    Some(n) => n.clone(),
                    None => match name {
                        Some(n) => n,
                        None => match &slot.attachment {
                            Some(n) => n.clone(),
                            None => String::new(),
                        },
                    },
                };

                let mut srt: SRT = srts[slot.bone_index];
                srt.add_assign(&skin_attach.srt);
                let sprite = Sprite { attachment: attach_name, srt, color };
                assert(self@.sprite(k as int, time) == Some(sprite@));
                let ghost before = result@;
                result.push(sprite);
                assert(sprite_models(result@) =~= sprite_models(before).push(sprite@));
            } else {
                assert(self@.sprite(k as int, time) is None);
            }
            k += 1;
        }

        Some(result)
    }

    /// Creates an iterator which iterates slots at delta seconds interval
    pub fn iter(&'a self, delta: Fixed) -> (r: AnimationIter<'a>)
        ensures
            *r.skin_animation == *self,
            r.time == (Fixed { raw: 0 }),
            r.delta == delta,
    {
        AnimationIter { skin_animation: self, time: Fixed { raw: 0 }, delta }
    }
}

/// Iterator over a constant period
pub struct AnimationIter<'a> {
    pub skin_animation: &'a SkinAnimation<'a>,
    pub time: Fixed,
    pub delta: Fixed,
}

impl<'a> AnimationIter<'a> {
    /// The pose at the time that the iterator stands at, which then moves
    /// on by its step. There is no pose once the time lies after the end of
    /// the animation.
    pub fn next(&mut self) -> (r: Option<Vec<Sprite>>)
        requires
            old(self).skin_animation@.wf(),
        ensures
            match r {
                Some(sprites) => old(self).skin_animation@.sample(old(self).time) == Some(
                    sprite_models(sprites@),
                ),
                None => old(self).skin_animation@.sample(old(self).time) is None,
            },
            final(self).time == old(self).time.plus(old(self).delta),
            final(self).delta == old(self).delta,
            final(self).skin_animation == old(self).skin_animation,
    {
        let result: Option<Vec<Sprite>> = self.skin_animation.interpolate(self.time);
        self.time = self.time.plus(self.delta);
        result
    }
}

proof fn lemma_steps(k: int, q: int, d: int, span: int)
    by (nonlinear_arith)
    requires
        d > 0,
        span >= 0,
        q == span / d,
        0 <= k,
    ensures
        k <= q ==> k * d <= span,
        k > q ==> k * d > span,
{
}

impl<'a> AnimationIter<'a> {
    /// The time at which the iterator stands after `k` more steps.
    pub open spec fn time_after(&self, k: nat) -> Fixed
        decreases k,
    {
        if k == 0 {
            self.time
        } else {
            self.time_after((k - 1) as nat).plus(self.delta)
        }
    }

    /// With a step above zero, the iterator stands after `k` steps at `k`
    /// times the step past its time, held within range.
    pub proof fn lemma_time_after(&self, k: nat)
        requires
            self.delta.raw > 0,
        ensures
            self.time_after(k).raw == saturate(self.time.raw + k * self.delta.raw),
        decreases k,
    {
        if k > 0 {
            self.lemma_time_after((k - 1) as nat);
            assert(k * self.delta.raw == (k - 1) * self.delta.raw + self.delta.raw)
                by (nonlinear_arith);
            assert((k - 1) * self.delta.raw >= 0) by (nonlinear_arith)
                requires
                    k >= 1,
                    self.delta.raw > 0,
            ;
        } else {
            assert(0 * self.delta.raw == 0) by (nonlinear_arith);
        }
    }

    /// An iterator with a step above zero gives a pose at each step until
    /// its time has passed the end of the animation, and none from then
    /// on: its poses are finite in number, and `n` is their number.
    pub proof fn lemma_poses_end(&self) -> (n: nat)
        requires
            self.delta.raw > 0,
            self.skin_animation.duration.raw < i64::MAX,
        ensures
            forall|k: nat|
                k < n ==> self.skin_animation@.sample(#[trigger] self.time_after(k)) is Some,
            forall|k: nat|
                k >= n ==> self.skin_animation@.sample(#[trigger] self.time_after(k)) is None,
    {
        let end = self.skin_animation.duration.raw as int;
        let t = self.time.raw as int;
        let d = self.delta.raw as int;
        let n: nat = if t > end {
            0
        } else {
            ((end - t) / d + 1) as nat
        };
        assert forall|k: nat|
            (k < n ==> self.skin_animation@.sample(#[trigger] self.time_after(k)) is Some) && (k
                >= n ==> self.skin_animation@.sample(self.time_after(k)) is None) by {
            self.lemma_time_after(k);
            if t > end {
                assert(k * d >= 0) by (nonlinear_arith)
                    requires
                        k >= 0,
                        d > 0,
                ;
            } else {
                lemma_steps(k as int, (end - t) / d, d, end - t);
            }
        }
        n
    }
}

/// A bone that does not inherit rotation stands in the world with the
/// rotation of its own pose, whatever the pose of its parent; and one that
/// does not inherit scale, with the scale of its own pose.
pub proof fn lemma_world_pose_inherits(bone: Bone, local: SRT, parent: Option<SRT>)
    ensures
        !bone.inherit_rotation ==> world_pose(bone, local, parent).rotation == local.rotation,
        !bone.inherit_scale ==> world_pose(bone, local, parent).scale == local.scale,
        parent is None ==> world_pose(bone, local, parent) == local,
{
}

impl SessionModel {
    /// The pose of a bone in the world does not depend on the bones after
    /// it: it is made of the bone's own pose and the pose of its parent.
    pub proof fn lemma_pose_of_bone(self, t: Fixed, n: int, i: int)
        requires
            0 <= i < n <= self.bones.len(),
        ensures
            self.poses(t, n).len() == n,
            self.poses(t, n)[i] == self.poses(t, i + 1)[i],
            self.poses(t, n)[i] == world_pose(
                self.bones[i].0,
                local_pose(self.bones[i].0, self.bones[i].1, t),
                match self.bones[i].0.parent_index {
                    Some(p) => if p < i {
                        Some(self.poses(t, i)[p as int])
                    } else {
                        None
                    },
                    None => None,
                },
            ),
        decreases n,
    {
        self.lemma_poses_len(t, n);
        self.lemma_poses_len(t, n - 1);
        if i < n - 1 {
            self.lemma_pose_of_bone(t, n - 1, i);
        }
    }

    proof fn lemma_poses_len(self, t: Fixed, n: int)
        requires
            0 <= n,
        ensures
            self.poses(t, n).len() == n,
        decreases n,
    {
        if n > 0 {
            self.lemma_poses_len(t, n - 1);
        }
    }

    /// In the pose of a whole skeleton, a bone that does not inherit
    /// rotation has the rotation of its own pose, and one that does not
    /// inherit scale has the scale of its own pose, whatever its parent
    /// does.
    pub proof fn lemma_inherit_flags(self, t: Fixed, i: int)
        requires
            0 <= i < self.bones.len(),
        ensures
            ({
                let (bone, timeline) = self.bones[i];
                let pose = self.poses(t, self.bones.len() as int)[i];
                &&& !bone.inherit_rotation ==> pose.rotation == local_pose(bone, timeline, t).rotation
                &&& !bone.inherit_scale ==> pose.scale == local_pose(bone, timeline, t).scale
            }),
    {
        self.lemma_pose_of_bone(t, self.bones.len() as int, i);
    }

    /// There is a pose at every time up to the end of the animation, the
    /// end included, and none after it.
    pub proof fn lemma_sample_until_end(self, t: Fixed)
        ensures
            t.raw <= self.duration.raw <==> self.sample(t) is Some,
            t.raw > self.duration.raw <==> self.sample(t) is None,
            self.sample(self.duration) is Some,
    {
    }
}

/// Two sessions of the same skeleton, skins and animation give the same
/// pose at the same time.
pub proof fn lemma_same_session_same_pose(
    skeleton: Skeleton,
    skin: Skin,
    default_skin: Skin,
    animation: Option<Animation>,
    first: SkinAnimation,
    second: SkinAnimation,
    t: Fixed,
)
    requires
        first@ == resolved(skeleton, skin, default_skin, animation),
        second@ == resolved(skeleton, skin, default_skin, animation),
    ensures
        first@.sample(t) == second@.sample(t),
{
}

proof fn lemma_table_place(table: Seq<(Seq<char>, Option<Attachment>)>, name: Seq<char>, from: int, j: int)
    requires
        0 <= from <= j < table.len(),
        table[j].0 == name,
    ensures
        from <= table_place(table, name, from) <= j,
    decreases table.len() - from,
{
    if table[from].0 != name {
        lemma_table_place(table, name, from + 1, j);
    }
}

/// In a session of a skeleton, the table of a slot has every name that the
/// attachment timeline of the slot can hold: looking up the name in force
/// never fails.
pub proof fn lemma_table_has_name_in_force(
    skeleton: Skeleton,
    skin: Skin,
    default_skin: Skin,
    animation: Option<Animation>,
    i: int,
    t: Fixed,
)
    requires
        0 <= i < skeleton.slots@.len(),
    ensures
        ({
            let slot = resolved(skeleton, skin, default_skin, animation).slots[i];
            match slot.timeline {
                Some(timeline) => match timeline.attachment_at(t) {
                    Some(Some(name)) => slot.table matches Some(table) && table_place(table, name, 0)
                        < table.len(),
                    _ => true,
                },
                None => true,
            }
        }),
{
    let slot = resolved(skeleton, skin, default_skin, animation).slots[i];
    if let Some(timeline) = slot.timeline {
        if let Some(Some(name)) = timeline.attachment_at(t) {
            let keys = timeline.attachment.timelines@;
            timeline.attachment.lemma_value_of_a_keyframe(t);
            let k = choose|k: int|
                0 <= k < keys.len() && timeline.attachment.value_at(t) == Some(
                    name_model(#[trigger] keys[k].value),
                );
            lemma_named_values_hold(keys, k);
            let j = choose|j: int|
                0 <= j < named_values(keys).len() && #[trigger] named_values(keys)[j]
                    == keys[k].value->0@;
            let table = slot.table->0;
            assert(table[j].0 == name);
            lemma_table_place(table, name, 0, j);
        }
    }
}

} // verus!
