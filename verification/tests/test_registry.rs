use hashcode_score_calc::qual2016::registry::starts_with;
use hashcode_score_calc::qual2016::{Case, CaseRegistry, Qual2016ScoringError};
use hashcode_score_calc::{get_challenges, ChallengeDate, InputFileName, ScoringError};

const NEAR: &str = "10 10 1 50 100\n1\n10\n1\n0 0\n5\n1\n0 0\n1\n0\n";

const FAR: &str = "10 10 1 50 100\n1\n10\n1\n0 0\n5\n1\n3 4\n1\n0\n";

const SCRIPT: &str = "2\n0 L 0 0 1\n0 D 0 0 1\n";

fn registry() -> CaseRegistry {
    let mut registry = CaseRegistry::new();
    registry.register("example", Case::parse(NEAR).expect("a world"));
    registry.register("busy_day", Case::parse(FAR).expect("a world"));
    registry.register("busy", Case::parse(NEAR).expect("a world"));
    registry
}

#[test]
fn a_selector_picks_the_first_world_whose_name_starts_it() {
    let registry = registry();
    assert_eq!(registry.score(SCRIPT, &"example".into()), Ok(98));
    assert_eq!(registry.score(SCRIPT, &"example.in".into()), Ok(98));
    assert_eq!(registry.score(SCRIPT, &"busy_day".into()), Ok(88));
    assert_eq!(registry.score(SCRIPT, &"busy_day_2".into()), Ok(88));
    assert_eq!(registry.score(SCRIPT, &"busy_bee".into()), Ok(98));
    assert_eq!(registry.find(&"busy_day".into()).map(|case| case.orders()[0].location.row), Some(3));
}

#[test]
fn an_unknown_name_is_refused() {
    let registry = registry();
    for name in ["exampl", "", "Example", "redundancy", "bus"] {
        assert_eq!(
            registry.score(SCRIPT, &name.into()),
            Err(ScoringError::UnknownInputCase(InputFileName(name.to_owned())))
        );
        assert!(registry.find(&name.into()).is_none());
    }
    assert_eq!(
        CaseRegistry::new().score(SCRIPT, &"example".into()),
        Err(ScoringError::UnknownInputCase("example".into()))
    );
}

#[test]
fn a_broken_rule_comes_through_the_registry() {
    let registry = registry();
    assert_eq!(
        registry.score("1\n0 L 0 0 9\n", &"example".into()),
        Err(ScoringError::from(Qual2016ScoringError::OverTakingWarehouse { warehouse_id: 0 }))
    );
    assert_eq!(
        ScoringError::from(Qual2016ScoringError::UnknownOrder { order_id: 1 }),
        ScoringError::ChallengeSpecific(Qual2016ScoringError::UnknownOrder { order_id: 1 })
    );
}

#[test]
fn prefixes_are_compared_byte_by_byte() {
    assert!(starts_with(b"busy_day", b"busy"));
    assert!(starts_with(b"busy", b"busy"));
    assert!(starts_with(b"busy", b""));
    assert!(!starts_with(b"bus", b"busy"));
    assert!(!starts_with(b"busy_day", b"busy-"));
    assert!(!starts_with(b"", b"a"));
}

#[test]
fn the_challenges_are_listed_with_their_worlds() {
    let challenges = get_challenges();
    assert_eq!(challenges.len(), 2);
    assert_eq!(challenges[0].date, ChallengeDate::Qualification(2020));
    let names: Vec<&str> = challenges[0].input_file_names.iter().map(|n| n.0.as_str()).collect();
    assert_eq!(names, vec!["a", "b", "c", "d", "e", "f"]);
    assert_eq!(challenges[1].date, ChallengeDate::Qualification(2016));
    let names: Vec<&str> = challenges[1].input_file_names.iter().map(|n| n.0.as_str()).collect();
    assert_eq!(names, vec!["example", "busy_day", "mother_of_all_warehouses", "redundancy"]);
}
