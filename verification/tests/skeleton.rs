use spine::fixed::Fixed;
use spine::fixed::ONE;
use spine::fixed::QUARTER_TURN;
use spine::hex::decode_color;
use spine::json;
use spine::json::AttachmentType;
use spine::skeleton::bone_index;
use spine::skeleton::error::SkeletonError;
use spine::skeleton::slot_index;
use spine::skeleton::Animation;
use spine::skeleton::Attachment;
use spine::skeleton::Bone;
use spine::skeleton::Skeleton;
use spine::skeleton::Skin;
use spine::skeleton::Slot;
use spine::skeleton::SRT;

fn fx(v: f64) -> Fixed {
    Fixed::new((v * 1e6).round() as i64)
}

fn jbone(name: &str, parent: Option<&str>) -> json::Bone {
    json::Bone {
        name: name.to_string(),
        parent: parent.map(|p| p.to_string()),
        length: None,
        x: None,
        y: None,
        scale_x: None,
        scale_y: None,
        rotation: None,
        inherit_scale: None,
        inherit_rotation: None,
    }
}

fn jslot(name: &str, bone: &str, attachment: Option<&str>) -> json::Slot {
    json::Slot {
        name: name.to_string(),
        bone: bone.to_string(),
        color: None,
        attachment: attachment.map(|a| a.to_string()),
    }
}

fn jattachment(width: f64, height: f64) -> json::Attachment {
    json::Attachment {
        name: None,
        type_: None,
        x: None,
        y: None,
        scale_x: None,
        scale_y: None,
        rotation: None,
        width: Some(fx(width)),
        height: Some(fx(height)),
        fps: None,
        mode: None,
    }
}

fn janimation() -> json::Animation {
    json::Animation { bones: None, slots: None, events: None, draworder: None }
}

fn rotate(time: f64, angle: f64) -> json::BoneRotateTimeline {
    json::BoneRotateTimeline { time: fx(time), curve: None, angle: Some(fx(angle)) }
}

fn bone_rotation(keys: Vec<json::BoneRotateTimeline>) -> json::BoneTimeline {
    json::BoneTimeline { translate: None, rotate: Some(keys), scale: None }
}

fn document() -> json::Document {
    json::Document {
        bones: Some(vec![jbone("root", None), jbone("hip", Some("root")), jbone("leg", Some("hip"))]),
        slots: Some(vec![jslot("body", "hip", Some("torso")), jslot("foot", "leg", None)]),
        skins: Some(vec![(
            "default".to_string(),
            vec![("body".to_string(), vec![("torso".to_string(), jattachment(10.0, 20.0))])],
        )]),
        animations: Some(vec![(
            "walk".to_string(),
            json::Animation {
                bones: Some(vec![(
                    "leg".to_string(),
                    bone_rotation(vec![rotate(0.0, 0.0), rotate(1.5, 45.0)]),
                )]),
                slots: Some(vec![(
                    "foot".to_string(),
                    json::SlotTimeline {
                        attachment: Some(vec![json::SlotAttachmentTimeline {
                            time: fx(2.0),
                            name: None,
                        }]),
                        color: None,
                    },
                )]),
                events: None,
                draworder: None,
            },
        )]),
    }
}

fn bones() -> Vec<Bone> {
    Skeleton::from_json(document()).unwrap().bones
}

#[test]
fn hex_colors_are_decoded() {
    assert_eq!(decode_color(&Some("FFFFFFFF".to_string())).unwrap(), vec![255, 255, 255, 255]);
    assert_eq!(decode_color(&Some("00ff7F10".to_string())).unwrap(), vec![0, 255, 127, 16]);
    assert_eq!(decode_color(&Some(" 0 1 \n".to_string())).unwrap(), vec![1]);
    assert_eq!(decode_color(&Some("abcdef".to_string())).unwrap(), vec![0xab, 0xcd, 0xef]);
    assert_eq!(decode_color(&Some("ABCDEF".to_string())).unwrap(), vec![0xab, 0xcd, 0xef]);
    assert_eq!(decode_color(&None).unwrap(), vec![255, 255, 255, 255]);
}

#[test]
fn bad_hex_colors_are_refused() {
    assert!(matches!(decode_color(&Some("FFFFFFF".to_string())), Err(SkeletonError::ColorDecodeError)));
    assert!(matches!(decode_color(&Some("GG".to_string())), Err(SkeletonError::ColorDecodeError)));
    assert!(matches!(decode_color(&Some("0x10".to_string())), Err(SkeletonError::ColorDecodeError)));
    assert!(matches!(decode_color(&Some("#ffffff".to_string())), Err(SkeletonError::ColorDecodeError)));
}

#[test]
fn srt_new_fills_in_what_is_absent() {
    let srt = SRT::new(None, None, None, None, None);
    assert_eq!(srt.scale, (fx(1.0), fx(1.0)));
    assert_eq!(srt.rotation.raw, 0);
    assert_eq!(srt.position, (fx(0.0), fx(0.0)));
    assert_eq!(srt.cos.raw, ONE);
    assert_eq!(srt.sin.raw, 0);
    let srt = SRT::new(Some(fx(2.0)), Some(fx(0.5)), Some(fx(90.0)), Some(fx(3.0)), Some(fx(-4.0)));
    assert_eq!(srt.scale, (fx(2.0), fx(0.5)));
    assert_eq!(srt.rotation.raw, QUARTER_TURN);
    assert_eq!(srt.position, (fx(3.0), fx(-4.0)));
    assert_eq!(srt.cos.raw, 0);
    assert_eq!(srt.sin.raw, ONE);
}

#[test]
fn srt_add_assign_adds_and_multiplies() {
    let mut a = SRT::new(Some(fx(2.0)), Some(fx(3.0)), Some(fx(45.0)), Some(fx(1.0)), Some(fx(2.0)));
    let b = SRT::new(Some(fx(0.5)), Some(fx(2.0)), Some(fx(45.0)), Some(fx(10.0)), Some(fx(-20.0)));
    a.add_assign(&b);
    assert_eq!(a.scale, (fx(1.0), fx(6.0)));
    assert_eq!(a.rotation.raw, QUARTER_TURN);
    assert_eq!(a.position, (fx(11.0), fx(-18.0)));
    assert_eq!(a.cos.raw, 0);
    assert_eq!(a.sin.raw, ONE);
}

#[test]
fn srt_add_assign_of_nothing_changes_nothing() {
    let mut a = SRT::new(Some(fx(2.0)), Some(fx(3.0)), Some(fx(30.0)), Some(fx(1.0)), Some(fx(2.0)));
    let before = a;
    a.add_assign(&SRT::new(None, None, None, None, None));
    assert_eq!(a, before);
}

#[test]
fn srt_transform_scales_turns_and_moves() {
    let turn = SRT::new(Some(fx(2.0)), Some(fx(3.0)), Some(fx(90.0)), Some(fx(10.0)), Some(fx(20.0)));
    // (1, 0) is scaled to (2, 0), turned to (0, 2), moved to (10, 22)
    assert_eq!(turn.transform((fx(1.0), fx(0.0))), (fx(10.0), fx(22.0)));
    // (0, 1) is scaled to (0, 3), turned to (-3, 0), moved to (7, 20)
    assert_eq!(turn.transform((fx(0.0), fx(1.0))), (fx(7.0), fx(20.0)));
    let plain = SRT::new(None, None, None, Some(fx(-1.0)), Some(fx(1.0)));
    assert_eq!(plain.transform((fx(5.0), fx(6.0))), (fx(4.0), fx(7.0)));
    let slanted = SRT::new(None, None, Some(fx(45.0)), None, None);
    assert_eq!(slanted.transform((fx(10.0), fx(0.0))), (Fixed::new(7_071_070), Fixed::new(7_071_070)));
}

#[test]
fn bone_index_finds_the_first_of_a_name() {
    let mut list = bones();
    assert_eq!(bone_index("root", &list).unwrap(), 0);
    assert_eq!(bone_index("leg", &list).unwrap(), 2);
    list.push(Bone::from_json(jbone("hip", None), &[]).unwrap());
    assert_eq!(bone_index("hip", &list).unwrap(), 1);
    match bone_index("arm", &list) {
        Err(SkeletonError::BoneNotFound(name)) => assert_eq!(name, "arm"),
        _ => panic!("there is no arm"),
    }
    assert!(matches!(bone_index("root", &[]), Err(SkeletonError::BoneNotFound(_))));
}

#[test]
fn slot_index_finds_the_first_of_a_name() {
    let skeleton = Skeleton::from_json(document()).unwrap();
    assert_eq!(slot_index("body", &skeleton.slots).unwrap(), 0);
    assert_eq!(slot_index("foot", &skeleton.slots).unwrap(), 1);
    match slot_index("hand", &skeleton.slots) {
        Err(SkeletonError::SlotNotFound(name)) => assert_eq!(name, "hand"),
        _ => panic!("there is no hand"),
    }
}

#[test]
fn bone_from_json_reads_the_document() {
    let list = bones();
    let mut source = jbone("toe", Some("leg"));
    source.length = Some(fx(12.5));
    source.x = Some(fx(3.0));
    source.rotation = Some(fx(-90.0));
    source.inherit_rotation = Some(false);
    let bone = Bone::from_json(source, &list).unwrap();
    assert_eq!(bone.name, "toe");
    assert_eq!(bone.parent_index, Some(2));
    assert_eq!(bone.length, fx(12.5));
    assert_eq!(bone.srt.position, (fx(3.0), fx(0.0)));
    assert_eq!(bone.srt.rotation.raw, -QUARTER_TURN);
    assert_eq!(bone.srt.cos.raw, 0);
    assert_eq!(bone.srt.sin.raw, -ONE);
    assert!(bone.inherit_scale);
    assert!(!bone.inherit_rotation);
    let root = Bone::from_json(jbone("other", None), &list).unwrap();
    assert_eq!(root.parent_index, None);
    assert_eq!(root.length, fx(0.0));
    assert!(root.inherit_rotation);
}

#[test]
fn bone_from_json_wants_the_parent_before_it() {
    match Bone::from_json(jbone("toe", Some("foot")), &bones()) {
        Err(SkeletonError::BoneNotFound(name)) => assert_eq!(name, "foot"),
        _ => panic!("there is no bone foot"),
    }
}

#[test]
fn slot_from_json_reads_the_document() {
    let list = bones();
    let mut source = jslot("eye", "leg", Some("open"));
    source.color = Some("ff000080".to_string());
    let slot = Slot::from_json(source, &list).unwrap();
    assert_eq!(slot.name, "eye");
    assert_eq!(slot.bone_index, 2);
    assert_eq!(slot.color, vec![255, 0, 0, 128]);
    assert_eq!(slot.attachment, Some("open".to_string()));
    let plain = Slot::from_json(jslot("eye", "root", None), &list).unwrap();
    assert_eq!(plain.color, vec![255, 255, 255, 255]);
    assert_eq!(plain.attachment, None);
}

#[test]
fn slot_from_json_errors() {
    let list = bones();
    match Slot::from_json(jslot("eye", "head", None), &list) {
        Err(SkeletonError::BoneNotFound(name)) => assert_eq!(name, "head"),
        _ => panic!("there is no bone head"),
    }
    let mut source = jslot("eye", "leg", None);
    source.color = Some("red".to_string());
    assert!(matches!(Slot::from_json(source, &list), Err(SkeletonError::ColorDecodeError)));
    // the bone is looked up first
    let mut source = jslot("eye", "head", None);
    source.color = Some("red".to_string());
    assert!(matches!(Slot::from_json(source, &list), Err(SkeletonError::BoneNotFound(_))));
}

#[test]
fn attachment_from_json_places_its_corners() {
    let a = Attachment::from_json(jattachment(10.0, 20.0));
    assert_eq!(a.name, None);
    assert_eq!(a.type_, AttachmentType::Region);
    assert_eq!(a.positions[0], (fx(-5.0), fx(10.0)));
    assert_eq!(a.positions[1], (fx(5.0), fx(10.0)));
    assert_eq!(a.positions[2], (fx(5.0), fx(-10.0)));
    assert_eq!(a.positions[3], (fx(-5.0), fx(-10.0)));
    assert_eq!(a.srt, SRT::new(None, None, None, None, None));

    let mut source = jattachment(2.0, 4.0);
    source.name = Some("shown".to_string());
    source.type_ = Some(AttachmentType::BoundingBox);
    source.rotation = Some(fx(90.0));
    source.x = Some(fx(100.0));
    source.scale_y = Some(fx(2.0));
    let a = Attachment::from_json(source);
    assert_eq!(a.name, Some("shown".to_string()));
    assert_eq!(a.type_, AttachmentType::BoundingBox);
    // (-1, 2) is scaled to (-1, 4), turned to (-4, -1), moved to (96, -1)
    assert_eq!(a.positions[0], (fx(96.0), fx(-1.0)));
    assert_eq!(a.positions[1], (fx(96.0), fx(1.0)));
    assert_eq!(a.positions[2], (fx(104.0), fx(1.0)));
    assert_eq!(a.positions[3], (fx(104.0), fx(-1.0)));

    let mut source = jattachment(0.0, 0.0);
    source.width = None;
    source.height = None;
    let a = Attachment::from_json(source);
    assert_eq!(a.positions, [(fx(0.0), fx(0.0)); 4]);
}

#[test]
fn attachment_positions_go_through_a_transform() {
    let a = Attachment::from_json(jattachment(10.0, 20.0));
    let world = SRT::new(Some(fx(2.0)), None, Some(fx(90.0)), Some(fx(1.0)), None);
    let moved = a.get_positions(&world);
    // (-5, 10) is scaled to (-10, 10), turned to (-10, -10), moved to (-9, -10)
    assert_eq!(moved[0], (fx(-9.0), fx(-10.0)));
    assert_eq!(moved[1], (fx(-9.0), fx(10.0)));
    assert_eq!(moved[2], (fx(11.0), fx(10.0)));
    assert_eq!(moved[3], (fx(11.0), fx(-10.0)));
}

#[test]
fn skin_find_looks_under_slot_and_name() {
    let skeleton = Skeleton::from_json(json::Document {
        bones: Some(vec![jbone("root", None)]),
        slots: Some(vec![jslot("a", "root", None), jslot("b", "root", None)]),
        skins: Some(vec![(
            "default".to_string(),
            vec![
                ("a".to_string(), vec![("x".to_string(), jattachment(1.0, 1.0))]),
                (
                    "b".to_string(),
                    vec![
                        ("x".to_string(), jattachment(2.0, 2.0)),
                        ("y".to_string(), jattachment(3.0, 3.0)),
                        ("y".to_string(), jattachment(4.0, 4.0)),
                    ],
                ),
                ("a".to_string(), vec![("z".to_string(), jattachment(5.0, 5.0))]),
            ],
        )]),
        animations: None,
    })
    .unwrap();
    let skin: &Skin = skeleton.get_skin("default").unwrap();
    let corner = |a: Option<&Attachment>| a.map(|a| a.positions[1].0);
    assert_eq!(corner(skin.find(0, "x")), Some(fx(0.5)));
    assert_eq!(corner(skin.find(1, "x")), Some(fx(1.0)));
    assert_eq!(corner(skin.find(1, "y")), Some(fx(1.5)));
    assert_eq!(corner(skin.find(0, "z")), Some(fx(2.5)));
    assert_eq!(corner(skin.find(0, "y")), None);
    assert_eq!(corner(skin.find(2, "x")), None);
    assert_eq!(corner(skin.find(1, "")), None);
}

#[test]
fn duration_is_the_latest_keyframe() {
    let animation = json::Animation {
        bones: Some(vec![
            (
                "a".to_string(),
                json::BoneTimeline {
                    translate: Some(vec![json::BoneTranslateTimeline {
                        time: fx(0.5),
                        curve: None,
                        x: None,
                        y: None,
                    }]),
                    rotate: Some(vec![rotate(0.0, 0.0), rotate(2.25, 10.0), rotate(1.0, 5.0)]),
                    scale: None,
                },
            ),
            ("b".to_string(), bone_rotation(vec![rotate(1.75, 0.0)])),
        ]),
        slots: None,
        events: None,
        draworder: None,
    };
    assert_eq!(Animation::duration(&animation), fx(2.25));

    let with_slot = json::Animation {
        bones: Some(vec![("b".to_string(), bone_rotation(vec![rotate(1.75, 0.0)]))]),
        slots: Some(vec![(
            "s".to_string(),
            json::SlotTimeline {
                attachment: Some(vec![json::SlotAttachmentTimeline { time: fx(3.0), name: None }]),
                color: Some(vec![json::SlotColorTimeline {
                    time: fx(4.5),
                    color: None,
                    curve: None,
                }]),
            },
        )]),
        events: None,
        draworder: None,
    };
    assert_eq!(Animation::duration(&with_slot), fx(4.5));
}

#[test]
fn duration_without_keyframes_is_zero() {
    assert_eq!(Animation::duration(&janimation()), fx(0.0));
    let empty = json::Animation {
        bones: Some(vec![("b".to_string(), bone_rotation(vec![]))]),
        slots: Some(vec![]),
        events: None,
        draworder: None,
    };
    assert_eq!(Animation::duration(&empty), fx(0.0));
    let negative = json::Animation {
        bones: Some(vec![("b".to_string(), bone_rotation(vec![rotate(-1.0, 0.0)]))]),
        slots: None,
        events: None,
        draworder: None,
    };
    assert_eq!(Animation::duration(&negative), fx(0.0));
}

#[test]
fn skeleton_from_json_resolves_every_name() {
    let skeleton = Skeleton::from_json(document()).unwrap();
    assert_eq!(skeleton.bones.len(), 3);
    assert_eq!(skeleton.bones[0].parent_index, None);
    assert_eq!(skeleton.bones[1].parent_index, Some(0));
    assert_eq!(skeleton.bones[2].parent_index, Some(1));
    assert_eq!(skeleton.slots.len(), 2);
    assert_eq!(skeleton.slots[0].bone_index, 1);
    assert_eq!(skeleton.slots[1].bone_index, 2);
    assert_eq!(skeleton.skins.len(), 1);
    assert_eq!(skeleton.skins[0].0, "default");
    assert_eq!(skeleton.skins[0].1.slots.len(), 1);
    assert_eq!(skeleton.skins[0].1.slots[0].0, 0);
    assert_eq!(skeleton.skins[0].1.slots[0].1[0].0, "torso");
    assert_eq!(skeleton.animations.len(), 1);
    let walk = &skeleton.animations[0];
    assert_eq!(walk.0, "walk");
    assert_eq!(walk.1.duration, fx(2.0));
    assert_eq!(walk.1.bones.len(), 1);
    assert_eq!(walk.1.bones[0].0, 2);
    assert_eq!(walk.1.bones[0].1.rotate.timelines.len(), 2);
    assert_eq!(walk.1.slots[0].0, 1);
    assert!(walk.1.events.is_empty());
    assert!(walk.1.draworder.is_empty());
}

#[test]
fn skeleton_from_an_empty_document() {
    let skeleton = Skeleton::from_json(json::Document {
        bones: None,
        slots: None,
        skins: None,
        animations: None,
    })
    .unwrap();
    assert!(skeleton.bones.is_empty());
    assert!(skeleton.slots.is_empty());
    assert!(skeleton.skins.is_empty());
    assert!(skeleton.animations.is_empty());
}

#[test]
fn skeleton_keeps_events_and_draw_order() {
    let mut doc = document();
    doc.animations = Some(vec![(
        "wave".to_string(),
        json::Animation {
            bones: None,
            slots: None,
            events: Some(vec![json::EventKeyframe {
                time: fx(0.5),
                name: "step".to_string(),
                int_: Some(3),
                float_: None,
                string_: None,
            }]),
            draworder: Some(vec![json::DrawOrderTimeline {
                time: fx(1.0),
                offsets: Some(vec![json::DrawOrderTimelineOffset {
                    slot: "body".to_string(),
                    offset: 1,
                }]),
            }]),
        },
    )]);
    let skeleton = Skeleton::from_json(doc).unwrap();
    let wave = &skeleton.animations[0].1;
    assert_eq!(wave.events.len(), 1);
    assert_eq!(wave.events[0].name, "step");
    assert_eq!(wave.draworder.len(), 1);
    assert_eq!(wave.draworder[0].time, fx(1.0));
    // events and draw order do not count for the duration
    assert_eq!(wave.duration, fx(0.0));
}

#[test]
fn skeleton_wants_parents_before_their_bones() {
    let mut doc = document();
    doc.bones = Some(vec![jbone("hip", Some("root")), jbone("root", None)]);
    match Skeleton::from_json(doc) {
        Err(SkeletonError::BoneNotFound(name)) => assert_eq!(name, "root"),
        _ => panic!("the parent stands after its bone"),
    }
    let mut doc = document();
    doc.bones = Some(vec![jbone("root", Some("root"))]);
    assert!(matches!(Skeleton::from_json(doc), Err(SkeletonError::BoneNotFound(_))));
}

#[test]
fn skeleton_wants_the_bone_of_every_slot() {
    let mut doc = document();
    doc.slots = Some(vec![jslot("body", "spine", None)]);
    match Skeleton::from_json(doc) {
        Err(SkeletonError::BoneNotFound(name)) => assert_eq!(name, "spine"),
        _ => panic!("there is no bone spine"),
    }
}

#[test]
fn skeleton_wants_readable_colors() {
    let mut doc = document();
    let mut slot = jslot("body", "hip", None);
    slot.color = Some("12345".to_string());
    doc.slots = Some(vec![slot]);
    assert!(matches!(Skeleton::from_json(doc), Err(SkeletonError::ColorDecodeError)));

    let mut doc = document();
    doc.animations = Some(vec![(
        "blink".to_string(),
        json::Animation {
            bones: None,
            slots: Some(vec![(
                "body".to_string(),
                json::SlotTimeline {
                    attachment: None,
                    color: Some(vec![json::SlotColorTimeline {
                        time: fx(0.0),
                        color: Some("xyz".to_string()),
                        curve: None,
                    }]),
                },
            )]),
            events: None,
            draworder: None,
        },
    )]);
    assert!(matches!(Skeleton::from_json(doc), Err(SkeletonError::ColorDecodeError)));
}

#[test]
fn skeleton_wants_the_bones_and_slots_of_every_animation() {
    let mut doc = document();
    doc.animations = Some(vec![(
        "run".to_string(),
        json::Animation {
            bones: Some(vec![("tail".to_string(), bone_rotation(vec![]))]),
            slots: None,
            events: None,
            draworder: None,
        },
    )]);
    match Skeleton::from_json(doc) {
        Err(SkeletonError::BoneNotFound(name)) => assert_eq!(name, "tail"),
        _ => panic!("there is no bone tail"),
    }
    let mut doc = document();
    doc.animations = Some(vec![(
        "run".to_string(),
        json::Animation {
            bones: None,
            slots: Some(vec![(
                "hat".to_string(),
                json::SlotTimeline { attachment: None, color: None },
            )]),
            events: None,
            draworder: None,
        },
    )]);
    match Skeleton::from_json(doc) {
        Err(SkeletonError::SlotNotFound(name)) => assert_eq!(name, "hat"),
        _ => panic!("there is no slot hat"),
    }
}

#[test]
fn skeleton_wants_the_slots_of_every_skin() {
    let mut doc = document();
    doc.skins = Some(vec![(
        "default".to_string(),
        vec![("glove".to_string(), vec![("torso".to_string(), jattachment(1.0, 1.0))])],
    )]);
    match Skeleton::from_json(doc) {
        Err(SkeletonError::SlotNotFound(name)) => assert_eq!(name, "glove"),
        _ => panic!("there is no slot glove"),
    }
}

#[test]
fn skins_and_animations_are_found_by_name() {
    let mut doc = document();
    doc.skins.as_mut().unwrap().push(("red".to_string(), vec![]));
    doc.skins.as_mut().unwrap().push((
        "red".to_string(),
        vec![("body".to_string(), vec![("torso".to_string(), jattachment(1.0, 1.0))])],
    ));
    doc.animations.as_mut().unwrap().push(("idle".to_string(), janimation()));
    let skeleton = Skeleton::from_json(doc).unwrap();
    assert_eq!(skeleton.get_skin("default").unwrap().slots.len(), 1);
    // the first of the name
    assert_eq!(skeleton.get_skin("red").unwrap().slots.len(), 0);
    match skeleton.get_skin("blue") {
        Err(SkeletonError::SkinNotFound(name)) => assert_eq!(name, "blue"),
        _ => panic!("there is no skin blue"),
    }
    assert_eq!(skeleton.get_animation("walk").unwrap().duration, fx(2.0));
    assert_eq!(skeleton.get_animation("idle").unwrap().duration, fx(0.0));
    match skeleton.get_animation("run") {
        Err(SkeletonError::AnimationNotFound(name)) => assert_eq!(name, "run"),
        _ => panic!("there is no animation run"),
    }
    let walk = skeleton.get_animation("walk").unwrap();
    assert!(walk.bone_timeline(2).is_some());
    assert!(walk.bone_timeline(0).is_none());
    assert!(walk.slot_timeline(1).is_some());
    assert!(walk.slot_timeline(0).is_none());
}
