use hashcode_score_calc::qual2016::parsing::{Expected, ParseError};
use hashcode_score_calc::qual2016::{score, score_commands, Case, Command, Qual2016ScoringError};
use hashcode_score_calc::ScoringError;

/// One warehouse at (0, 0) with five items of the one product; an order at
/// the warehouse and one a cell away; two drones; fifty turns.
const EXAMPLE_WORLD: &str = "10 10 2 50 100\n1\n10\n1\n0 0\n5\n2\n0 0\n1\n0\n0 1\n1\n0\n";

const EXAMPLE_SUBMISSION: &str = "4\n0 L 0 0 1\n0 D 0 0 1\n1 L 0 0 1\n1 D 1 0 1\n";

fn world(text: &str) -> Case {
    let case = Case::parse(text).expect("a world");
    assert!(case.number_of_drones() == 0 || !case.warehouses().is_empty());
    case
}

fn rule(e: Qual2016ScoringError) -> Result<u64, ScoringError> {
    Err(ScoringError::ChallengeSpecific(e))
}

#[test]
fn test_qual2016_example_input() {
    let submission = EXAMPLE_SUBMISSION;
    let case = world(EXAMPLE_WORLD);

    assert_eq!(score(submission, &case).expect("Should succeed"), 194);
}

#[test]
fn should_not_fail() {
    let submission = r#"4
    6 L 0 350 2
    6 L 0 541 1
    6 D 331 350 2
    6 D 331 541 1
    "#;
    // A large world in which order 331 wants one item more than the script brings.
    let mut text = String::from("300 300 30 112993 200\n600\n");
    for _ in 0..600 {
        text.push_str("1 ");
    }
    text.push_str("\n1\n0 0\n");
    for _ in 0..600 {
        text.push_str("5 ");
    }
    text.push_str("\n400\n");
    for i in 0..400 {
        text.push_str(&format!("{} 7\n4\n350 350 541 0\n", i));
    }
    let case = world(&text);

    assert_eq!(score(submission, &case).expect("Should succeed"), 0);
}

#[test]
fn no_drones_no_turns_no_commands_score_nothing() {
    let case = world("1 1 0 0 0\n0\n0\n0\n");
    assert_eq!(score("0", &case), Ok(0));
    assert_eq!(score("0\n", &case), Ok(0));
}

#[test]
fn a_command_for_a_drone_that_is_not_there_fails() {
    let case = world(EXAMPLE_WORLD);
    assert_eq!(
        score("1\n2 L 0 0 1\n", &case),
        rule(Qual2016ScoringError::CommandIssuedToUnknownDrone { drone_id: 2 })
    );
    assert_eq!(
        score("2\n0 L 0 0 1\n7 W 3\n", &case),
        rule(Qual2016ScoringError::CommandIssuedToUnknownDrone { drone_id: 7 })
    );
    let empty = world("1 1 0 0 0\n0\n0\n0\n");
    assert_eq!(
        score("1\n0 W 1\n", &empty),
        rule(Qual2016ScoringError::CommandIssuedToUnknownDrone { drone_id: 0 })
    );
}

#[test]
fn the_lower_drone_wins_the_last_unit() {
    // One item in stock, two drones load in the same turn.
    let case = world("10 10 2 50 100\n1\n10\n1\n0 0\n1\n1\n0 0\n1\n0\n");
    assert_eq!(
        score("2\n0 L 0 0 1\n1 L 0 0 1\n", &case),
        rule(Qual2016ScoringError::OverTakingWarehouse { warehouse_id: 0 })
    );
    assert_eq!(
        score("2\n1 L 0 0 1\n0 L 0 0 1\n", &case),
        rule(Qual2016ScoringError::OverTakingWarehouse { warehouse_id: 0 })
    );
    // The winner is drone 0: it can deliver what it took, whatever the order of the script.
    assert_eq!(score("2\n0 L 0 0 1\n0 D 0 0 1\n", &case), Ok(98));
    // Drone 1 is late by a whole turn and then finds nothing.
    assert_eq!(
        score("3\n1 W 1\n1 L 0 0 1\n0 L 0 0 1\n", &case),
        rule(Qual2016ScoringError::OverTakingWarehouse { warehouse_id: 0 })
    );
}

#[test]
fn unloads_of_a_turn_come_before_its_loads() {
    // Drone 1 takes the only item and puts it back at turn 1, when drone 0 loads it.
    let case = world("10 10 2 50 100\n1\n10\n1\n0 0\n1\n1\n0 0\n1\n0\n");
    assert_eq!(score("5\n1 L 0 0 1\n1 U 0 0 1\n0 W 1\n0 L 0 0 1\n0 D 0 0 1\n", &case), Ok(96));
    // Without the unload the item is gone.
    assert_eq!(
        score("3\n1 L 0 0 1\n0 W 1\n0 L 0 0 1\n", &case),
        rule(Qual2016ScoringError::OverTakingWarehouse { warehouse_id: 0 })
    );
}

#[test]
fn scoring_twice_gives_the_same() {
    let case = world(EXAMPLE_WORLD);
    let first = score(EXAMPLE_SUBMISSION, &case);
    let second = score(EXAMPLE_SUBMISSION, &case);
    let third = score(EXAMPLE_SUBMISSION, &case);
    assert_eq!(first, Ok(194));
    assert_eq!(first, second);
    assert_eq!(second, third);
    // A failed run leaves nothing behind either.
    assert!(score("1\n0 D 0 0 1\n", &case).is_err());
    assert_eq!(score(EXAMPLE_SUBMISSION, &case), Ok(194));
    assert_eq!(case.warehouses()[0].inventory, vec![5]);
    assert_eq!(case.orders()[0].products, vec![0]);
}

#[test]
fn the_score_is_at_most_a_hundred_for_each_order() {
    let case = world(EXAMPLE_WORLD);
    let points = score(EXAMPLE_SUBMISSION, &case).expect("a score");
    assert!(points <= 100 * case.orders().len() as u64);
    // An order that wants nothing is done from the start and pays nothing.
    let idle = world("10 10 1 50 100\n1\n10\n1\n0 0\n5\n1\n0 0\n0\n");
    assert_eq!(score("1\n0 W 3\n", &idle), Ok(0));
}

#[test]
fn points_are_the_share_of_turns_left_rounded_up() {
    // Three turns: a delivery at turn 1 pays ceil(100 * 2 / 3) = 67, at turn 2 ceil(100 / 3) = 34.
    let case = world("10 10 1 3 100\n1\n10\n1\n0 0\n5\n1\n0 0\n1\n0\n");
    assert_eq!(score("2\n0 L 0 0 1\n0 D 0 0 1\n", &case), Ok(67));
    assert_eq!(score("3\n0 L 0 0 1\n0 W 1\n0 D 0 0 1\n", &case), Ok(34));
    // At turn 3 the run is over: the delivery never happens.
    assert_eq!(score("3\n0 L 0 0 1\n0 W 2\n0 D 0 0 1\n", &case), Ok(0));
    // Exact shares are not rounded: 4 turns, delivery at turn 1 pays 75.
    let four = world("10 10 1 4 100\n1\n10\n1\n0 0\n5\n1\n0 0\n1\n0\n");
    assert_eq!(score("2\n0 L 0 0 1\n0 D 0 0 1\n", &four), Ok(75));
}

#[test]
fn flights_take_the_distance_rounded_up() {
    // The order is at (3, 4), five turns from the warehouse: load at 0, fly 1..5, deliver at 6.
    let case = world("10 10 1 100 100\n1\n10\n1\n0 0\n5\n1\n3 4\n1\n0\n");
    assert_eq!(score("2\n0 L 0 0 1\n0 D 0 0 1\n", &case), Ok(94));
    // At (1, 1) the flight takes two turns: deliver at 3.
    let near = world("10 10 1 100 100\n1\n10\n1\n0 0\n5\n1\n1 1\n1\n0\n");
    assert_eq!(score("2\n0 L 0 0 1\n0 D 0 0 1\n", &near), Ok(97));
}

#[test]
fn an_order_pays_once_when_its_last_item_arrives() {
    let case = world("10 10 1 100 100\n2\n10 20\n1\n0 0\n5 5\n1\n0 0\n3\n0 1 0\n");
    // Two items of three: nothing yet.
    assert_eq!(score("2\n0 L 0 0 2\n0 D 0 0 2\n", &case), Ok(0));
    // The third arrives at turn 3.
    assert_eq!(score("4\n0 L 0 0 2\n0 L 0 1 1\n0 D 0 0 2\n0 D 0 1 1\n", &case), Ok(97));
    // A further delivery to the satisfied order fails.
    assert_eq!(
        score("6\n0 L 0 0 3\n0 L 0 1 1\n0 D 0 0 2\n0 D 0 1 1\n0 D 0 0 1\n0 W 1\n", &case),
        rule(Qual2016ScoringError::OverSupplyingOrder { order_id: 0 })
    );
}

#[test]
fn every_rule_has_its_failure() {
    let case = world("10 10 2 50 100\n2\n10 60\n2\n0 0\n5 5\n3 3\n0 1\n1\n0 0\n1\n0\n");
    assert_eq!(
        score("1\n0 L 0 0 0\n", &case),
        rule(Qual2016ScoringError::CommandWithAmountZero { drone_id: 0 })
    );
    assert_eq!(
        score("2\n0 W 1\n1 U 0 0 0\n", &case),
        rule(Qual2016ScoringError::CommandWithAmountZero { drone_id: 1 })
    );
    assert_eq!(
        score("1\n1 D 0 0 0\n", &case),
        rule(Qual2016ScoringError::CommandWithAmountZero { drone_id: 1 })
    );
    // The zero amount is found before the unknown drone.
    assert_eq!(
        score("2\n9 W 1\n1 D 0 0 0\n", &case),
        rule(Qual2016ScoringError::CommandWithAmountZero { drone_id: 1 })
    );
    assert_eq!(
        score("1\n0 L 2 0 1\n", &case),
        rule(Qual2016ScoringError::UnknownWarehouse { warehouse_id: 2 })
    );
    assert_eq!(
        score("1\n0 U 7 0 1\n", &case),
        rule(Qual2016ScoringError::UnknownWarehouse { warehouse_id: 7 })
    );
    assert_eq!(
        score("1\n0 D 1 0 1\n", &case),
        rule(Qual2016ScoringError::UnknownOrder { order_id: 1 })
    );
    assert_eq!(
        score("1\n0 L 0 2 1\n", &case),
        rule(Qual2016ScoringError::UnknownProduct { product_id: 2 })
    );
    assert_eq!(
        score("1\n0 U 0 2 1\n", &case),
        rule(Qual2016ScoringError::UnknownProduct { product_id: 2 })
    );
    assert_eq!(
        score("1\n0 L 0 0 6\n", &case),
        rule(Qual2016ScoringError::OverTakingWarehouse { warehouse_id: 0 })
    );
    assert_eq!(
        score("1\n0 L 1 0 4\n", &case),
        rule(Qual2016ScoringError::OverTakingWarehouse { warehouse_id: 1 })
    );
    // 2 * 60 > 100
    assert_eq!(
        score("1\n1 L 0 1 2\n", &case),
        rule(Qual2016ScoringError::DronePassedWeightLimit { drone_id: 1 })
    );
    // 4 * 10 + 60 = 100 fits, one item more does not.
    assert_eq!(score("2\n1 L 0 0 4\n1 L 0 1 1\n", &case), Ok(0));
    assert_eq!(
        score("3\n1 L 0 0 4\n1 L 0 1 1\n1 L 0 0 1\n", &case),
        rule(Qual2016ScoringError::DronePassedWeightLimit { drone_id: 1 })
    );
    assert_eq!(
        score("2\n0 L 0 0 1\n0 U 1 0 2\n", &case),
        rule(Qual2016ScoringError::OverTakingDrone { drone_id: 0, product_id: 0 })
    );
    assert_eq!(
        score("1\n0 U 0 0 1\n", &case),
        rule(Qual2016ScoringError::OverTakingDrone { drone_id: 0, product_id: 0 })
    );
    assert_eq!(
        score("1\n1 D 0 1 1\n", &case),
        rule(Qual2016ScoringError::OverTakingDrone { drone_id: 1, product_id: 1 })
    );
    assert_eq!(
        score("2\n0 L 0 0 2\n0 D 0 0 2\n", &case),
        rule(Qual2016ScoringError::OverSupplyingOrder { order_id: 0 })
    );
    assert_eq!(
        score("2\n0 L 0 1 1\n0 D 0 1 1\n", &case),
        rule(Qual2016ScoringError::OverSupplyingOrder { order_id: 0 })
    );
}

#[test]
fn a_failure_only_counts_when_its_turn_comes() {
    // The delivery would fail at turn 60, after the last turn.
    let case = world("10 10 1 50 100\n1\n10\n1\n0 0\n5\n1\n0 0\n1\n0\n");
    assert_eq!(score("2\n0 W 60\n0 D 0 0 1\n", &case), Ok(0));
    assert_eq!(
        score("2\n0 W 49\n0 D 0 0 1\n", &case),
        rule(Qual2016ScoringError::OverTakingDrone { drone_id: 0, product_id: 0 })
    );
    // An unknown order is found when the script is handed out, whenever it would run.
    assert_eq!(
        score("2\n0 W 60\n0 D 5 0 1\n", &case),
        rule(Qual2016ScoringError::UnknownOrder { order_id: 5 })
    );
}

#[test]
fn a_malformed_script_is_told_from_a_broken_rule() {
    let case = world(EXAMPLE_WORLD);
    assert_eq!(
        score("1\n0 X 0 0 1\n", &case),
        Err(ScoringError::SubmissionFileError(ParseError {
            offset: 4,
            expected: Expected::CommandTag
        }))
    );
    assert_eq!(
        score("two", &case),
        Err(ScoringError::SubmissionFileError(ParseError { offset: 0, expected: Expected::Digit }))
    );
    assert_eq!(
        score("1\n0 L 0 0 65536\n", &case),
        Err(ScoringError::SubmissionFileError(ParseError {
            offset: 10,
            expected: Expected::NumberInRange
        }))
    );
    assert_eq!(
        Case::parse("1 2 3").err(),
        Some(ScoringError::InputFileError(ParseError { offset: 5, expected: Expected::Digit }))
    );
}

#[test]
fn commands_can_be_scored_without_their_text() {
    let case = world(EXAMPLE_WORLD);
    let commands = vec![
        Command::Load { drone_id: 0, warehouse_id: 0, product_id: 0, number_of_items: 1 },
        Command::Deliver { drone_id: 0, order_id: 0, product_id: 0, number_of_items: 1 },
        Command::Load { drone_id: 1, warehouse_id: 0, product_id: 0, number_of_items: 1 },
        Command::Deliver { drone_id: 1, order_id: 1, product_id: 0, number_of_items: 1 },
    ];
    assert_eq!(score_commands(&case, &commands), Ok(194));
    assert_eq!(score_commands(&case, &Vec::new()), Ok(0));
    assert_eq!(
        score_commands(&case, &vec![Command::Wait { drone_id: 2, turns: 0 }]),
        Err(Qual2016ScoringError::CommandIssuedToUnknownDrone { drone_id: 2 })
    );
}

#[test]
fn big_counts_do_not_wrap() {
    // Two warehouses with 65535 weightless items each: a drone can hold them all.
    let case = world("10 10 1 50 100\n1\n0\n2\n0 0\n65535\n0 0\n65535\n1\n0 0\n1\n0\n");
    assert_eq!(
        score("4\n0 L 0 0 65535\n0 L 1 0 65535\n0 U 0 0 65535\n0 U 0 0 65535\n", &case),
        Ok(0)
    );
    assert_eq!(
        score("5\n0 L 0 0 65535\n0 L 1 0 65535\n0 U 0 0 65535\n0 U 0 0 65535\n0 U 0 0 1\n", &case),
        rule(Qual2016ScoringError::OverTakingDrone { drone_id: 0, product_id: 0 })
    );
}
