use face_generator::error::LoadError;
use face_generator::palette::{palette_color_for, placeholder, style_rule, PaletteEntry};
use face_generator::scheme::{check_palette, choose_variants, palette_path, PaletteKind, Section, SubChoice, VariantSpec};

fn is_placeholder(s: &str) -> bool {
    s.len() == 7 && s.starts_with('#') && s[1..].chars().all(|c| c.is_ascii_hexdigit() && !c.is_ascii_uppercase())
}

#[test]
fn placeholder_shape() {
    let p = placeholder("skin");
    assert!(is_placeholder(&p), "{}", p);
    assert_eq!(p, placeholder("skin"));
    assert_ne!(placeholder("skin"), placeholder("skin_outline"));
}

#[test]
fn placeholders_distinct_for_roles() {
    let roles = [
        "skin", "eye", "hair", "iris", "skin_outline", "eye_outline", "hair_outline", "iris_outline",
        "skin_color", "eye_color", "hair_color", "skin_color_outline", "hair_color_outline",
        "eye_white_color", "eye_pupil_color",
    ];
    let ps: Vec<String> = roles.iter().map(|r| placeholder(r)).collect();
    for i in 0..ps.len() {
        for j in 0..i {
            assert_ne!(ps[i], ps[j], "{} and {}", roles[i], roles[j]);
        }
    }
}

#[test]
fn style_rules() {
    let p = placeholder("skin");
    assert_eq!(style_rule("skin"), format!(".skin {{ fill: {}; }}", p));
    let q = placeholder("skin_outline");
    assert_eq!(style_rule("skin_outline"), format!(".skin_outline {{ stroke: {}; }}", q));
}

#[test]
fn palette_replaces_placeholders() {
    let palette = vec![
        PaletteEntry { role: "skin".to_string(), color: "#aabbcc".to_string() },
        PaletteEntry { role: "skin_outline".to_string(), color: "#223344".to_string() },
    ];
    assert_eq!(palette_color_for(&palette, &placeholder("skin")), Some("#aabbcc".to_string()));
    assert_eq!(palette_color_for(&palette, &placeholder("skin_outline")), Some("#223344".to_string()));
    assert_eq!(palette_color_for(&palette, &placeholder("hair")), None);
    assert_eq!(palette_color_for(&palette, "#aabbcc"), None);
}

fn variant(name: &str, subs: Vec<SubChoice>) -> VariantSpec {
    VariantSpec { name: name.to_string(), sub_choices: subs }
}

fn kind(name: &str, variants: Vec<VariantSpec>) -> PaletteKind {
    PaletteKind { name: name.to_string(), variants }
}

fn sub(section: &str, allowed: &[&str]) -> SubChoice {
    SubChoice { section: section.to_string(), allowed: allowed.iter().map(|a| a.to_string()).collect() }
}

fn sections() -> Vec<Section> {
    vec![
        Section {
            name: "skin".to_string(),
            kinds: vec![
                kind("default", vec![variant("pale", vec![sub("hair", &["blond"])]), variant("dark", vec![])]),
                kind("goblin", vec![variant("green", vec![sub("hair", &["black"])])]),
            ],
        },
        Section {
            name: "hair".to_string(),
            kinds: vec![kind("default", vec![variant("blond", vec![]), variant("black", vec![]), variant("red", vec![])])],
        },
    ]
}

#[test]
fn palette_checks() {
    assert_eq!(check_palette(&sections(), "human"), Ok(()));
    let mut bad = sections();
    bad[0].kinds[0].variants[0].sub_choices[0].section = "beard".to_string();
    assert_eq!(check_palette(&bad, "human"), Err(LoadError::InvalidPalette));
    let mut bad = sections();
    bad[0].kinds[0].variants[0].sub_choices[0].allowed = vec!["purple".to_string()];
    assert_eq!(check_palette(&bad, "human"), Err(LoadError::InvalidPalette));
    let mut empty = sections();
    empty[0].kinds[0].variants[0].sub_choices[0].allowed = vec![];
    assert_eq!(check_palette(&empty, "human"), Err(LoadError::EmptyConstraint));
    let mut no_default = sections();
    no_default[1].kinds[0].name = "elf".to_string();
    assert_eq!(check_palette(&no_default, "human"), Err(LoadError::InvalidPalette));
}

#[test]
fn constraints_follow_choice() {
    let ss = sections();
    for seed in 0..40u64 {
        let c = choose_variants(&ss, "goblin", seed);
        assert_eq!(c, vec![0, 1]);
        assert_eq!(palette_path(&ss, "goblin", &c), "goblin:skin:green:hair:black");
        let c = choose_variants(&ss, "human", seed);
        if c[0] == 0 {
            assert_eq!(c[1], 0);
        }
        assert!(c[1] < 3);
    }
}

#[test]
fn palette_choice_reproducible() {
    let ss = sections();
    for seed in 0..20u64 {
        assert_eq!(choose_variants(&ss, "human", seed), choose_variants(&ss, "human", seed));
    }
}

#[test]
fn placeholder_is_not_the_name() {
    assert_ne!(placeholder("abcdef"), "#abcdef");
    assert_eq!(placeholder("").len(), 7);
}
