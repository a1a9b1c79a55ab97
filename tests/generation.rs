use face_generator::context::{draw, pick_variant, FeatureSet, GenerationContext, Registry};
use face_generator::generator::{sex_for, species_for, Face, Generator};
use face_generator::plan::{plan_template, Plan, SlotPlan};
use face_generator::template::{GuideKind, Template};
use face_generator::weights::{Weight, Weights};

fn strings(ls: &[&str]) -> Vec<String> {
    ls.iter().map(|l| l.to_string()).collect()
}

fn template(ids: &[&str], guide: GuideKind) -> Template {
    Template::new(&strings(ids), Some(guide)).ok().unwrap()
}

fn feature(name: &str, variants: Vec<(&str, Template)>) -> FeatureSet {
    let mut variant_names = Vec::new();
    let mut templates = Vec::new();
    for (n, t) in variants {
        variant_names.push(n.to_string());
        templates.push(t);
    }
    FeatureSet { name: name.to_string(), variant_names, templates }
}

fn weights(ls: &[&str]) -> Weights {
    Weights::new(&strings(ls)).ok().unwrap()
}

fn eyes_registry() -> Registry {
    let leaf = || template(&["", "path"], GuideKind::Quad);
    Registry {
        features: vec![feature("eye", vec![("blue", leaf()), ("green", leaf()), ("brown", leaf())])],
    }
}

#[test]
fn stream_words_are_reproducible() {
    assert_eq!(draw(42, 3), draw(42, 3));
    assert_ne!(draw(42, 0), draw(42, 1));
    assert_ne!(draw(42, 0), draw(43, 0));
}

#[test]
fn weighted_pick() {
    let ws = vec![Weight::Sometimes(1), Weight::Sometimes(2), Weight::Sometimes(3)];
    assert_eq!(pick_variant(&ws, 0), Some(0));
    assert_eq!(pick_variant(&ws, 1), Some(1));
    assert_eq!(pick_variant(&ws, 2), Some(1));
    assert_eq!(pick_variant(&ws, 3), Some(2));
    assert_eq!(pick_variant(&ws, 5), Some(2));
    assert_eq!(pick_variant(&ws, 6), Some(0));
    let ws = vec![Weight::Sometimes(5), Weight::Always, Weight::Always];
    assert_eq!(pick_variant(&ws, 0), Some(1));
    let ws = vec![Weight::Sometimes(0), Weight::Sometimes(0)];
    assert_eq!(pick_variant(&ws, 7), None);
    assert_eq!(pick_variant(&vec![], 7), None);
}

#[test]
fn choose_template_builds_child_path() {
    let reg = Registry { features: vec![feature("nose", vec![("default", template(&["p"], GuideKind::Quad))])] };
    let w = weights(&[]);
    let mut ctx = GenerationContext::new(&reg, &w, 7);
    let (_, path) = ctx.choose_template("root", "nose", "").unwrap();
    assert_eq!(path, "root:nose:default");
    assert!(ctx.choose_template("root", "mouth", "").is_none());
}

#[test]
fn zero_weight_drops_slot_and_option() {
    let reg = Registry { features: vec![feature("nose", vec![("default", template(&["p"], GuideKind::Quad))])] };
    let w = weights(&[":option:glasses|0", "root:nose$|0"]);
    for seed in 0..20u64 {
        let mut ctx = GenerationContext::new(&reg, &w, seed);
        assert!(!ctx.use_optional("root", "glasses"));
        assert!(ctx.use_optional("root", "hat"));
        assert!(ctx.choose_template("root", "nose", "").is_none());
    }
}

#[test]
fn always_rule_wins() {
    let reg = eyes_registry();
    let w = weights(&["eye:blue|always", "eye:green|1", "eye:brown|1"]);
    for seed in 0..50u64 {
        let mut ctx = GenerationContext::new(&reg, &w, seed);
        let (fi, vi, path) = ctx.choose_variant("face", "eye", "left").unwrap();
        assert_eq!((fi, vi), (0, 0));
        assert_eq!(path, "face:eye:blue");
    }
}

#[test]
fn same_selector_gets_same_variant() {
    let reg = eyes_registry();
    let w = weights(&[]);
    for seed in 0..50u64 {
        let mut ctx = GenerationContext::new(&reg, &w, seed);
        let a = ctx.choose_variant("face", "eye", "pair").unwrap();
        let _ = ctx.choose_variant("face", "eye", "other");
        let b = ctx.choose_variant("face", "eye", "pair").unwrap();
        assert_eq!(a, b);
    }
}

#[test]
fn different_selectors_may_differ() {
    let reg = eyes_registry();
    let w = weights(&[]);
    let mut differ = false;
    for seed in 0..100u64 {
        let mut ctx = GenerationContext::new(&reg, &w, seed);
        let a = ctx.choose_variant("face", "eye", "left").unwrap();
        let b = ctx.choose_variant("face", "eye", "right").unwrap();
        if a.1 != b.1 {
            differ = true;
        }
    }
    assert!(differ);
}

#[test]
fn back_companion_follows_front_variant() {
    let leaf = || template(&["p"], GuideKind::Quad);
    let reg = Registry {
        features: vec![
            feature("hair", vec![("curly", leaf()), ("straight", leaf())]),
            feature("hair_back", vec![("curly", leaf()), ("straight", leaf())]),
        ],
    };
    let w = weights(&[]);
    for seed in 0..30u64 {
        let mut ctx = GenerationContext::new(&reg, &w, seed);
        let front = ctx.choose_variant("face", "hair", "").unwrap();
        let back = ctx.choose_variant("face", "hair_back", "").unwrap();
        assert_eq!(back.0, 1);
        assert_eq!(front.1, back.1);
        let name = &reg.features[0].variant_names[front.1];
        assert_eq!(front.2, format!("face:hair:{}", name));
        assert_eq!(back.2, format!("face:hair_back:{}", name));
    }
}

#[test]
fn missing_back_companion_is_no_error() {
    let leaf = || template(&["p"], GuideKind::Quad);
    let reg = Registry { features: vec![feature("hair", vec![("curly", leaf())])] };
    let w = weights(&[]);
    let mut ctx = GenerationContext::new(&reg, &w, 3);
    assert!(ctx.choose_variant("face", "hair_back", "").is_none());
}

fn minimal_registry() -> Registry {
    let frame = template(&["", "rect", "guide_nose", "option_glasses"], GuideKind::Quad);
    let nose = template(&["", "path"], GuideKind::Quad);
    Registry { features: vec![feature("frame", vec![("root", frame)]), feature("nose", vec![("default", nose)])] }
}

fn describe(plan: &Plan, out: &mut String) {
    out.push_str(&format!("d{:?}", plan.dropped));
    for s in &plan.slots {
        match s {
            SlotPlan::Empty => out.push_str("[]"),
            SlotPlan::Filled(p) => {
                out.push_str(&format!("[{} {} {} {}", p.feature, p.variant, p.path, p.deferred));
                describe(&p.plan, out);
                out.push(']');
            }
        }
    }
}

fn describe_face(f: &Face) -> String {
    let mut s = format!("{} {} {} {} ", f.sex, f.frame_feature, f.frame_variant, f.path);
    describe(&f.plan, &mut s);
    s
}

#[test]
fn minimal_face() {
    let g = Generator::new(minimal_registry(), weights(&[]));
    let face = g.generate(11, "human").unwrap();
    assert_eq!((face.frame_feature, face.frame_variant), (0, 0));
    assert_eq!(face.path, format!("human:{}:frame:root", face.sex));
    assert!(face.plan.dropped.is_empty());
    assert_eq!(face.plan.slots.len(), 1);
    match &face.plan.slots[0] {
        SlotPlan::Filled(p) => {
            assert_eq!((p.feature, p.variant), (1, 0));
            assert_eq!(p.path, format!("human:{}:frame:root:nose:default", face.sex));
            assert!(!p.deferred);
        }
        SlotPlan::Empty => panic!("the nose slot is filled"),
    }
}

#[test]
fn optional_glasses_dropped() {
    let g = Generator::new(minimal_registry(), weights(&[":option:glasses|0"]));
    let face = g.generate(5, "human").unwrap();
    assert_eq!(face.plan.dropped, vec![3]);
}

#[test]
fn same_seed_same_face() {
    let g = Generator::new(eyes_face_registry(), weights(&["eye|0.5"]));
    for seed in 0..20u64 {
        let a = describe_face(&g.generate(seed, "elf").unwrap());
        let b = describe_face(&g.generate(seed, "elf").unwrap());
        assert_eq!(a, b);
    }
}

fn eyes_face_registry() -> Registry {
    let frame = template(&["", "guide_eye:pair", "guide_eye:pair-2", "guide_iris"], GuideKind::Quad);
    let leaf = || template(&["", "path"], GuideKind::Quad);
    let iris = template(&["", "circle"], GuideKind::Circle);
    Registry {
        features: vec![
            feature("frame", vec![("root", frame)]),
            feature("eye", vec![("blue", leaf()), ("green", leaf()), ("brown", leaf())]),
            feature("iris", vec![("round", iris)]),
        ],
    }
}

#[test]
fn paired_eyes_match_in_a_face() {
    let g = Generator::new(eyes_face_registry(), weights(&[]));
    for seed in 0..30u64 {
        let face = g.generate(seed, "human").unwrap();
        match (&face.plan.slots[0], &face.plan.slots[1]) {
            (SlotPlan::Filled(a), SlotPlan::Filled(b)) => assert_eq!(a.variant, b.variant),
            _ => panic!("both eyes are filled"),
        }
        match &face.plan.slots[2] {
            SlotPlan::Filled(p) => assert!(p.deferred),
            SlotPlan::Empty => panic!("the iris is filled"),
        }
    }
}

#[test]
fn no_frame_no_face() {
    let reg = Registry { features: vec![] };
    let g = Generator::new(reg, weights(&[]));
    assert!(g.generate(1, "human").is_none());
}

#[test]
fn self_nesting_template_stops() {
    let frame = template(&["", "guide_frame"], GuideKind::Quad);
    let reg = Registry { features: vec![feature("frame", vec![("root", frame)])] };
    let w = weights(&[]);
    let mut ctx = GenerationContext::new(&reg, &w, 9);
    let plan = plan_template(&mut ctx, &reg.features[0].templates[0], "x", 3);
    let mut depth = 0;
    let mut p = &plan;
    while let SlotPlan::Filled(c) = &p.slots[0] {
        depth += 1;
        p = &c.plan;
    }
    assert_eq!(depth, 3);
}

#[test]
fn species_and_sex_draws() {
    assert_eq!(species_for(0), "human");
    assert_eq!(species_for(29), "human");
    assert_eq!(species_for(30), "dwarf");
    assert_eq!(species_for(45), "elf");
    assert_eq!(species_for(60), "goblin");
    assert_eq!(species_for(61), "cyclops");
    assert_eq!(species_for(62), "human");
    assert_eq!(sex_for(4), "male");
    assert_eq!(sex_for(7), "female");
}

#[test]
fn stream_word_is_not_its_seed() {
    assert_ne!(draw(42, 0), 42);
    assert_ne!(draw(0, 0), 0);
}

#[test]
fn option_seed_shared_by_name() {
    let reg = Registry { features: vec![] };
    let w = weights(&["a:option:hat|0.5", "b:option:hat|0.5"]);
    for seed in 0..30u64 {
        let mut ctx = GenerationContext::new(&reg, &w, seed);
        let first = ctx.use_optional("a", "hat");
        let second = ctx.use_optional("b", "hat");
        assert_eq!(first, second);
    }
}
