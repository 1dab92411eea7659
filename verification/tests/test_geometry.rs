use hashcode_score_calc::qual2016::Location;

#[test]
fn qual2016_test_flight_time_rows() {
    let a = Location { row: 0, col: 0 };
    let b = Location { row: 1, col: 0 };
    assert_eq!(a.flight_time(&b), 1);
}

#[test]
fn qual2016_test_flight_time_diag() {
    let a = Location { row: 0, col: 0 };
    let b = Location { row: 5, col: 5 };
    assert_eq!(a.flight_time(&b), 8);
}

#[test]
fn mod_test_flight_time_rows() {
    let a = Location { row: 0, col: 0 };
    let b = Location { row: 1, col: 0 };
    assert_eq!(a.flight_time(&b), 1);
}

#[test]
fn mod_test_flight_time_diag() {
    let a = Location { row: 0, col: 0 };
    let b = Location { row: 5, col: 5 };
    assert_eq!(a.flight_time(&b), 8);
}

#[test]
fn a_flight_to_the_same_cell_takes_no_time() {
    let a = Location { row: 17, col: 4 };
    assert_eq!(a.flight_time(&a), 0);
    assert_eq!(a.flight_time(&Location { row: 17, col: 4 }), 0);
}

#[test]
fn flying_back_takes_as_long_as_flying_there() {
    let a = Location { row: 2, col: 9 };
    let b = Location { row: 11, col: 3 };
    assert_eq!(a.flight_time(&b), 11);
    assert_eq!(b.flight_time(&a), 11);
}

#[test]
fn the_distance_is_rounded_up() {
    let origin = Location { row: 0, col: 0 };
    assert_eq!(origin.flight_time(&Location { row: 3, col: 4 }), 5);
    assert_eq!(origin.flight_time(&Location { row: 1, col: 1 }), 2);
    assert_eq!(origin.flight_time(&Location { row: 0, col: 65535 }), 65535);
    assert_eq!(origin.flight_time(&Location { row: 65535, col: 65535 }), 92681);
    assert_eq!(origin.flight_time(&Location { row: 4097, col: 1 }), 4098);
    assert_eq!(Location { row: 5, col: 5 }.flight_time(&Location { row: 5, col: 6 }), 1);
}
