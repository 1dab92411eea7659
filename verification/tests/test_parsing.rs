use hashcode_score_calc::qual2016::parsing::{
    decimal_number, decimal_number_ms, first_line, location, multispace0, number_u16, number_u32,
    numbers, one_command, orders, parse_input_file, parse_submission, products,
    warehouses_with_inventory_size, Expected, ParseError,
};
use hashcode_score_calc::qual2016::{Command, Location};

#[test]
fn qual2016_decimal_number_works() {
    let input = "123";
    let (next, value) = decimal_number(input.as_bytes(), 0, u16::MAX as u64).expect("a number");
    assert_eq!((&input[next..], value), ("", 123));
}

#[test]
fn parsing_decimal_number_works() {
    let input = "123";
    let res = decimal_number(input.as_bytes(), 0, u16::MAX as u64);
    assert_eq!(res, Ok((3, 123)));
    assert_eq!(&input[3..], "");
}

#[test]
fn qual2016_test_first_line() {
    let input = "100 100 3 50 500";
    let res = first_line(input.as_bytes(), 0);
    assert_eq!(res, Ok((input.len(), (100, 100, 3, 50, 500))));
    assert_eq!(&input[input.len()..], "");
}

#[test]
fn parsing_test_first_line() {
    let input = "100 100 3 50 500";
    let (next, line) = first_line(input.as_bytes(), 0).expect("should be ok");
    assert_eq!(&input[next..], "");
    assert_eq!(line, (100, 100, 3, 50, 500));
}

#[test]
fn qual2016_test_products() {
    let input = "3\n1 2 3\n";
    let (next, prod) = products(input.as_bytes(), 0).expect("should be ok");
    assert_eq!(&input[next..], "");
    assert_eq!(prod.len(), 3);
    assert_eq!(prod[0].weight, 1);
    assert_eq!(prod[1].weight, 2);
    assert_eq!(prod[2].weight, 3);
}

#[test]
fn parsing_test_products() {
    let input = "3\n1 2 3\n";
    let (next, prod) = products(input.as_bytes(), 0).expect("should be ok");
    assert_eq!(&input[next..], "");
    assert_eq!(prod.len(), 3);
    assert_eq!(prod[0].weight, 1);
    assert_eq!(prod[1].weight, 2);
    assert_eq!(prod[2].weight, 3);
    assert_eq!((prod[0].id, prod[1].id, prod[2].id), (0, 1, 2));
}

#[test]
fn qual2016_test_warehouses() {
    let input = "1\n1 2\n4 5 6\n";
    let (next, warehouses) =
        warehouses_with_inventory_size(input.as_bytes(), 0, 3).expect("should be ok");
    assert_eq!(&input[next..], "");
    assert_eq!(warehouses.len(), 1);
    assert_eq!(warehouses[0].inventory, vec![4, 5, 6]);
    assert_eq!(warehouses[0].location, Location { row: 1, col: 2 });
}

#[test]
fn parsing_test_warehouses() {
    let input = "1\n1 2\n4 5 6\n";
    let (next, warehouses) =
        warehouses_with_inventory_size(input.as_bytes(), 0, 3).expect("should be ok");
    assert_eq!(&input[next..], "");
    assert_eq!(warehouses.len(), 1);
    assert_eq!(warehouses[0].inventory, vec![4, 5, 6]);
    assert_eq!(warehouses[0].location, Location { row: 1, col: 2 });
    assert_eq!(warehouses[0].id, 0);
}

#[test]
fn qual2016_test_orders() {
    let input = "2\n1 2\n2\n3 4\n3 3\n1\n5\n";
    let (next, ord) = orders(input.as_bytes(), 0).expect("should be ok");
    assert_eq!(&input[next..], "");
    assert_eq!(ord.len(), 2);
    assert_eq!(ord[0].products, vec![3, 4]);
    assert_eq!(ord[0].location, Location { row: 1, col: 2 });
    assert_eq!(ord[1].products, vec![5]);
    assert_eq!(ord[1].location, Location { row: 3, col: 3 });
}

#[test]
fn parsing_test_orders() {
    let input = "2\n1 2\n2\n3 4\n3 3\n1\n5\n";
    let (next, ord) = orders(input.as_bytes(), 0).expect("should be ok");
    assert_eq!(&input[next..], "");
    assert_eq!(ord.len(), 2);
    assert_eq!(ord[0].products, vec![3, 4]);
    assert_eq!(ord[0].location, Location { row: 1, col: 2 });
    assert_eq!(ord[1].products, vec![5]);
    assert_eq!(ord[1].location, Location { row: 3, col: 3 });
    assert_eq!((ord[0].id, ord[1].id), (0, 1));
}

#[test]
fn a_number_stops_at_the_first_byte_that_is_no_digit() {
    assert_eq!(decimal_number(b"42abc", 0, 100), Ok((2, 42)));
    assert_eq!(decimal_number(b"x 17 y", 2, 100), Ok((4, 17)));
}

#[test]
fn a_number_needs_a_digit() {
    let digit = |offset| Err(ParseError { offset, expected: Expected::Digit });
    assert_eq!(decimal_number(b"", 0, 100), digit(0));
    assert_eq!(decimal_number(b" 1", 0, 100), digit(0));
    assert_eq!(decimal_number(b"-1", 0, 100), digit(0));
    assert_eq!(decimal_number(b"+1", 0, 100), digit(0));
    assert_eq!(decimal_number(b"12", 2, 100), digit(2));
    assert_eq!(decimal_number(b"12", 7, 100), digit(7));
}

#[test]
fn a_number_must_fit_its_field() {
    let range = |offset| Err(ParseError { offset, expected: Expected::NumberInRange });
    assert_eq!(decimal_number(b"65535", 0, 65535), Ok((5, 65535)));
    assert_eq!(decimal_number(b"65536", 0, 65535), range(0));
    assert_eq!(decimal_number(b"0000000000000000000000065535", 0, 65535), Ok((28, 65535)));
    assert_eq!(decimal_number(b"18446744073709551615", 0, u64::MAX), Ok((20, u64::MAX)));
    assert_eq!(decimal_number(b"18446744073709551616", 0, u64::MAX), range(0));
    assert_eq!(decimal_number(b"99999999999999999999999999", 0, u64::MAX), range(0));
    assert_eq!(decimal_number(b"7 101", 2, 100), range(2));
    assert_eq!(
        number_u16(b"70000 ", 0),
        Err(ParseError { offset: 0, expected: Expected::NumberInRange })
    );
    assert_eq!(number_u32(b"70000 ", 0), Ok((6, 70000)));
    assert_eq!(number_u32(b"4294967295", 0), Ok((10, u32::MAX)));
    assert_eq!(
        number_u32(b"4294967296", 0),
        Err(ParseError { offset: 0, expected: Expected::NumberInRange })
    );
}

#[test]
fn blanks_after_a_number_are_skipped() {
    assert_eq!(decimal_number_ms(b"5 \t\r\n 6", 0, 9), Ok((6, 5)));
    assert_eq!(decimal_number_ms(b"5", 0, 9), Ok((1, 5)));
    assert_eq!(multispace0(b"  x", 0), 2);
    assert_eq!(multispace0(b"  x", 2), 2);
    assert_eq!(multispace0(b"\n\n", 0), 2);
    // A form feed is no blank.
    assert_eq!(multispace0(b" \x0c ", 0), 1);
}

#[test]
fn a_row_of_numbers_has_exactly_as_many_as_asked_for() {
    assert_eq!(numbers(b"1 2 3 4", 0, 3), Ok((6, vec![1, 2, 3])));
    assert_eq!(numbers(b"1 2 3 4", 0, 0), Ok((0, vec![])));
    assert_eq!(
        numbers(b"1 2 3 4", 0, 5),
        Err(ParseError { offset: 7, expected: Expected::Digit })
    );
    assert_eq!(
        numbers(b"1 2 x 4", 0, 4),
        Err(ParseError { offset: 4, expected: Expected::Digit })
    );
}

#[test]
fn a_location_is_row_then_column() {
    assert_eq!(location(b"3 4 ", 0), Ok((4, Location { row: 3, col: 4 })));
    assert_eq!(location(b"3 ", 0), Err(ParseError { offset: 2, expected: Expected::Digit }));
}

#[test]
fn a_warehouse_needs_a_count_for_every_product() {
    let res = warehouses_with_inventory_size(b"2\n0 0\n1 2\n5 5\n3\n", 0, 2);
    assert_eq!(res.err(), Some(ParseError { offset: 16, expected: Expected::Digit }));
    let ok = warehouses_with_inventory_size(b"2\n0 0\n1 2\n5 5\n3 4\n", 0, 2).expect("two");
    assert_eq!(ok.0, 18);
    assert_eq!(ok.1[1].inventory, vec![3, 4]);
    assert_eq!(ok.1[1].id, 1);
}

#[test]
fn each_command_tag_is_read() {
    assert_eq!(
        one_command(b"0 L 1 2 3\n", 0),
        Ok((10, Command::Load { drone_id: 0, warehouse_id: 1, product_id: 2, number_of_items: 3 }))
    );
    assert_eq!(
        one_command(b"4 U 1 2 3", 0),
        Ok((9, Command::Unload { drone_id: 4, warehouse_id: 1, product_id: 2, number_of_items: 3 }))
    );
    assert_eq!(
        one_command(b"5 D 9 8 7", 0),
        Ok((9, Command::Deliver { drone_id: 5, order_id: 9, product_id: 8, number_of_items: 7 }))
    );
    assert_eq!(one_command(b"6 W 70000", 0), Ok((9, Command::Wait { drone_id: 6, turns: 70000 })));
    // The tag may stand right behind the number, and its numbers right behind the tag.
    assert_eq!(one_command(b"6W3", 0), Ok((3, Command::Wait { drone_id: 6, turns: 3 })));
}

#[test]
fn an_unknown_tag_is_reported_where_it_stands() {
    let tag = |offset| Err(ParseError { offset, expected: Expected::CommandTag });
    assert_eq!(one_command(b"0 X 1 2 3", 0), tag(2));
    assert_eq!(one_command(b"0 l 1 2 3", 0), tag(2));
    assert_eq!(one_command(b"0 ", 0), tag(2));
    assert_eq!(one_command(b"0 F 1 2", 0), tag(2));
    assert_eq!(
        one_command(b"0 L 1 2", 0),
        Err(ParseError { offset: 7, expected: Expected::Digit })
    );
    assert_eq!(
        one_command(b"0 W 4294967296", 0),
        Err(ParseError { offset: 4, expected: Expected::NumberInRange })
    );
}

#[test]
fn a_script_has_exactly_as_many_commands_as_it_says() {
    let (next, commands) = parse_submission("2\n0 W 1\n1 W 2\n0 W 3\n").expect("two commands");
    assert_eq!(next, 14);
    assert_eq!(
        commands,
        vec![Command::Wait { drone_id: 0, turns: 1 }, Command::Wait { drone_id: 1, turns: 2 }]
    );
    assert_eq!(parse_submission("0").map(|(_, c)| c), Ok(vec![]));
    assert_eq!(
        parse_submission("3\n0 W 1\n1 W 2\n").err(),
        Some(ParseError { offset: 14, expected: Expected::Digit })
    );
    assert_eq!(
        parse_submission("").err(),
        Some(ParseError { offset: 0, expected: Expected::Digit })
    );
    assert_eq!(
        parse_submission("\n1\n0 W 1").err(),
        Some(ParseError { offset: 0, expected: Expected::Digit })
    );
    assert_eq!(
        parse_submission("18446744073709551616\n").err(),
        Some(ParseError { offset: 0, expected: Expected::NumberInRange })
    );
}

#[test]
fn a_world_is_read_part_by_part() {
    let text = "100 100 3 50 500\n3\n100 5 450\n2\n0 0\n5 1 0\n5 5\n0 10 2\n3\n1 1\n2\n2 0\n3 3\n3\n0 0 0\n5 6\n1\n2\n";
    let (next, case) = parse_input_file(text).expect("a world");
    assert_eq!(next, text.len());
    assert_eq!(case.map().rows, 100);
    assert_eq!(case.map().cols, 100);
    assert_eq!(case.number_of_drones(), 3);
    assert_eq!(case.total_turns(), 50);
    assert_eq!(case.max_payload(), 500);
    assert_eq!(case.products().len(), 3);
    assert_eq!(case.products()[2].weight, 450);
    assert_eq!(case.warehouses().len(), 2);
    assert_eq!(case.warehouses()[1].location, Location { row: 5, col: 5 });
    assert_eq!(case.warehouses()[1].inventory, vec![0, 10, 2]);
    assert_eq!(case.orders().len(), 3);
    assert_eq!(case.orders()[1].products, vec![0, 0, 0]);
    assert_eq!(case.orders()[2].location, Location { row: 5, col: 6 });
}

#[test]
fn a_world_that_ends_early_is_refused() {
    let text = "100 100 3 50 500\n3\n100 5 450\n2\n0 0\n5 1 0\n5 5\n0 10\n";
    assert_eq!(
        parse_input_file(text).err(),
        Some(ParseError { offset: text.len(), expected: Expected::Digit })
    );
    assert_eq!(
        parse_input_file("100 100 3 50").err(),
        Some(ParseError { offset: 12, expected: Expected::Digit })
    );
    assert_eq!(
        parse_input_file("100 100 3 4294967296 1").err(),
        Some(ParseError { offset: 10, expected: Expected::NumberInRange })
    );
}
