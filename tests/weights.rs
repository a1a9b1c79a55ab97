use face_generator::weights::{parse_probability, parse_weight, Weight, Weights, CERTAIN};
use face_generator::error::LoadError;

fn lines(ls: &[&str]) -> Vec<String> {
    ls.iter().map(|l| l.to_string()).collect()
}

#[test]
fn probabilities_in_parts_per_billion() {
    assert_eq!(parse_probability("0.5"), Some(500_000_000));
    assert_eq!(parse_probability("1"), Some(CERTAIN));
    assert_eq!(parse_probability("1.000"), Some(CERTAIN));
    assert_eq!(parse_probability("0"), Some(0));
    assert_eq!(parse_probability(".25"), Some(250_000_000));
    assert_eq!(parse_probability("0.02"), Some(20_000_000));
    assert_eq!(parse_probability("0.1234567891"), Some(123_456_789));
}

#[test]
fn probabilities_rejected() {
    assert_eq!(parse_probability("1.5"), None);
    assert_eq!(parse_probability("2"), None);
    assert_eq!(parse_probability(""), None);
    assert_eq!(parse_probability("."), None);
    assert_eq!(parse_probability("abc"), None);
    assert_eq!(parse_probability("0.5x"), None);
    assert_eq!(parse_probability("-0.5"), None);
}

#[test]
fn weight_always_or_probability() {
    assert_eq!(parse_weight("always"), Some(Weight::Always));
    assert_eq!(parse_weight("0.3"), Some(Weight::Sometimes(300_000_000)));
    assert_eq!(parse_weight("Always"), None);
}

#[test]
fn first_matching_rule_wins() {
    let w = Weights::new(&lines(&["# comment", "", "eye:blue|always", "eye|0.25", ":option:glasses|0"])).ok().unwrap();
    assert_eq!(w.for_path("human:male:frame:eye:blue"), Weight::Always);
    assert_eq!(w.for_path("human:male:frame:eye:green"), Weight::Sometimes(250_000_000));
    assert_eq!(w.for_path("x:option:glasses"), Weight::Sometimes(0));
}

#[test]
fn unmatched_path_is_always_taken() {
    let w = Weights::new(&lines(&[])).ok().unwrap();
    assert_eq!(w.for_path("anything"), Weight::Sometimes(CERTAIN));
    let w = Weights::new(&lines(&["^nose$|0.5"])).ok().unwrap();
    assert_eq!(w.for_path("a:nose"), Weight::Sometimes(CERTAIN));
    assert_eq!(w.for_path("nose"), Weight::Sometimes(500_000_000));
}

#[test]
fn pattern_split_at_last_bar() {
    let w = Weights::new(&lines(&["a|b|0.5"])).ok().unwrap();
    assert_eq!(w.for_path("b"), Weight::Sometimes(500_000_000));
    assert_eq!(w.for_path("c"), Weight::Sometimes(CERTAIN));
}

#[test]
fn invalid_weight_lines() {
    assert_eq!(Weights::new(&lines(&["eye"])).err(), Some(LoadError::InvalidWeight));
    assert_eq!(Weights::new(&lines(&["eye|often"])).err(), Some(LoadError::InvalidWeight));
    assert_eq!(Weights::new(&lines(&["eye|1.5"])).err(), Some(LoadError::InvalidWeight));
    assert_eq!(Weights::new(&lines(&["eye(|0.5"])).err(), Some(LoadError::InvalidWeight));
}
