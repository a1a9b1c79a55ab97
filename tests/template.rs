use face_generator::error::LoadError;
use face_generator::template::{guide_kind, jitter_for, read_marker, GuideKind, GuideShape, Jitter, Marker, Template};

fn ids(ls: &[&str]) -> Vec<String> {
    ls.iter().map(|l| l.to_string()).collect()
}

#[test]
fn guide_kinds_from_shapes() {
    assert_eq!(guide_kind(GuideShape::Path(5)), Ok(GuideKind::Quad));
    assert_eq!(guide_kind(GuideShape::Path(4)), Ok(GuideKind::Circle));
    assert_eq!(guide_kind(GuideShape::Rect), Ok(GuideKind::Quad));
    assert_eq!(guide_kind(GuideShape::Circle), Ok(GuideKind::Circle));
    assert_eq!(guide_kind(GuideShape::Path(3)), Err(LoadError::MalformedGuide));
    assert_eq!(guide_kind(GuideShape::Path(6)), Err(LoadError::MalformedGuide));
    assert_eq!(guide_kind(GuideShape::Other), Err(LoadError::MalformedGuide));
}

#[test]
fn skull_and_nose_are_jittered() {
    assert_eq!(jitter_for("skull"), Jitter::Skull);
    assert_eq!(jitter_for("nose"), Jitter::Nose);
    assert_eq!(jitter_for("eye"), Jitter::Fixed);
}

#[test]
fn slot_markers() {
    match read_marker("guide_eye:left-2") {
        Ok(Marker::Slot(f, v)) => {
            assert_eq!(f, "eye");
            assert_eq!(v, "left");
        }
        _ => panic!("expected a slot"),
    }
    match read_marker("guide_nose") {
        Ok(Marker::Slot(f, v)) => {
            assert_eq!(f, "nose");
            assert_eq!(v, "");
        }
        _ => panic!("expected a slot"),
    }
    match read_marker("guide_hair_back") {
        Ok(Marker::Slot(f, v)) => {
            assert_eq!(f, "hair_back");
            assert_eq!(v, "");
        }
        _ => panic!("expected a slot"),
    }
    match read_marker("guide_a:b:c") {
        Ok(Marker::Slot(f, v)) => {
            assert_eq!(f, "a:b");
            assert_eq!(v, "c");
        }
        _ => panic!("expected a slot"),
    }
}

#[test]
fn option_markers() {
    match read_marker("option_glasses-1") {
        Ok(Marker::Optional(n)) => assert_eq!(n, "glasses"),
        _ => panic!("expected an option"),
    }
    match read_marker("option_beard:x") {
        Ok(Marker::Optional(n)) => assert_eq!(n, "beard"),
        _ => panic!("expected an option"),
    }
    assert!(matches!(read_marker("rect12"), Ok(Marker::Plain)));
    assert!(matches!(read_marker("contents"), Ok(Marker::Plain)));
}

#[test]
fn malformed_markers() {
    assert!(matches!(read_marker("guide_"), Err(LoadError::MalformedTemplate)));
    assert!(matches!(read_marker("guide_-2"), Err(LoadError::MalformedTemplate)));
    assert!(matches!(read_marker("option_:x"), Err(LoadError::MalformedTemplate)));
}

#[test]
fn template_records_slots_and_options_by_index() {
    let t = Template::new(&ids(&["", "guide_eye:left", "rect", "option_glasses", "guide_skull-1"]), Some(GuideKind::Quad))
        .ok()
        .unwrap();
    assert_eq!(t.node_count(), 5);
    let slots = t.slots();
    assert_eq!(slots.len(), 2);
    assert_eq!(slots[0].feature, "eye");
    assert_eq!(slots[0].variant, "left");
    assert_eq!(slots[0].node, 1);
    assert_eq!(slots[0].jitter, Jitter::Fixed);
    assert_eq!(slots[1].feature, "skull");
    assert_eq!(slots[1].node, 4);
    assert_eq!(slots[1].jitter, Jitter::Skull);
    let opts = t.optional_nodes();
    assert_eq!(opts.len(), 1);
    assert_eq!(opts[0].name, "glasses");
    assert_eq!(opts[0].node, 3);
    assert_eq!(t.outer_guide(), Some(GuideKind::Quad));
    for s in slots {
        assert!(s.node < t.node_count());
    }
}

#[test]
fn template_with_bad_slot_id() {
    assert!(matches!(Template::new(&ids(&["guide_"]), None), Err(LoadError::MalformedTemplate)));
}
