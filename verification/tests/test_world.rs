use hashcode_score_calc::qual2016::{
    Case, Command, Drone, ExecutedCommand, Location, Order, Qual2016ScoringError, Simulation,
    Warehouse,
};

const WORLD: &str = "10 10 2 50 100\n2\n10 60\n2\n0 0\n5 1\n5 5\n3 4\n1\n0 0\n3\n0 1 0\n";

fn world() -> Case {
    Case::parse(WORLD).expect("a world")
}

#[test]
fn supply_takes_the_first_occurrences() {
    let mut order = Order { id: 3, location: Location { row: 1, col: 1 }, products: vec![5, 7, 5, 9, 5, 7] };
    assert_eq!(order.wanted(5), 3);
    assert_eq!(order.wanted(6), 0);
    assert_eq!(order.supply(5, 2), Ok(()));
    assert_eq!(order.products, vec![7, 9, 5, 7]);
    assert_eq!(order.supply(7, 1), Ok(()));
    assert_eq!(order.products, vec![9, 5, 7]);
    assert_eq!(order.supply(9, 0), Ok(()));
    assert_eq!(order.products, vec![9, 5, 7]);
    assert!(!order.is_done());
}

#[test]
fn supply_of_too_much_changes_nothing() {
    let mut order = Order { id: 3, location: Location { row: 1, col: 1 }, products: vec![5, 7, 5] };
    assert_eq!(
        order.supply(5, 3),
        Err(Qual2016ScoringError::OverSupplyingOrder { order_id: 3 })
    );
    assert_eq!(order.products, vec![5, 7, 5]);
    assert_eq!(
        order.supply(8, 1),
        Err(Qual2016ScoringError::OverSupplyingOrder { order_id: 3 })
    );
    assert_eq!(order.products, vec![5, 7, 5]);
    assert_eq!(order.supply(5, 2), Ok(()));
    assert_eq!(order.supply(7, 1), Ok(()));
    assert!(order.is_done());
    assert_eq!(
        order.supply(7, 1),
        Err(Qual2016ScoringError::OverSupplyingOrder { order_id: 3 })
    );
}

#[test]
fn a_warehouse_gives_what_it_has() {
    let mut warehouse = Warehouse { id: 4, location: Location { row: 0, col: 0 }, inventory: vec![3, 0] };
    assert_eq!(warehouse.take_out_product(0, 2), Ok(()));
    assert_eq!(warehouse.inventory, vec![1, 0]);
    assert_eq!(
        warehouse.take_out_product(0, 2),
        Err(Qual2016ScoringError::OverTakingWarehouse { warehouse_id: 4 })
    );
    assert_eq!(
        warehouse.take_out_product(2, 0),
        Err(Qual2016ScoringError::UnknownProduct { product_id: 2 })
    );
    assert_eq!(warehouse.inventory, vec![1, 0]);
    assert_eq!(warehouse.take_out_product(1, 0), Ok(()));
    warehouse.insert_product(1, 65535);
    warehouse.insert_product(1, 65535);
    assert_eq!(warehouse.inventory, vec![1, 131070]);
}

#[test]
fn the_earth_of_a_run_is_a_copy() {
    let case = world();
    let mut earth = case.get_earth_bound();
    assert_eq!(earth.get_warehouse(1).expect("known").inventory, vec![3, 4]);
    assert_eq!(earth.get_order(0).expect("known").products, vec![0, 1, 0]);
    assert_eq!(
        earth.get_warehouse(2).err(),
        Some(Qual2016ScoringError::UnknownWarehouse { warehouse_id: 2 })
    );
    assert_eq!(
        earth.get_order(1).err(),
        Some(Qual2016ScoringError::UnknownOrder { order_id: 1 })
    );
    earth.get_mut_warehouse(1).expect("known").insert_product(0, 2);
    earth.get_mut_order(0).expect("known").supply(0, 1).expect("wanted");
    assert!(earth.get_mut_warehouse(9).is_err());
    assert!(earth.get_mut_order(9).is_err());
    assert_eq!(earth.get_warehouse(1).expect("known").inventory, vec![5, 4]);
    assert_eq!(earth.get_order(0).expect("known").products, vec![1, 0]);
    assert_eq!(case.warehouses()[1].inventory, vec![3, 4]);
    assert_eq!(case.orders()[0].products, vec![0, 1, 0]);
    assert_eq!(case.get_product(1).map(|p| p.weight), Ok(60));
    assert_eq!(
        case.get_product(2).err(),
        Some(Qual2016ScoringError::UnknownProduct { product_id: 2 })
    );
}

#[test]
fn commands_know_their_drone_and_their_place() {
    let case = world();
    let earth = case.get_earth_bound();
    let load = Command::Load { drone_id: 1, warehouse_id: 1, product_id: 0, number_of_items: 1 };
    let unload = Command::Unload { drone_id: 2, warehouse_id: 0, product_id: 0, number_of_items: 1 };
    let deliver = Command::Deliver { drone_id: 3, order_id: 0, product_id: 0, number_of_items: 1 };
    let wait = Command::Wait { drone_id: 4, turns: 7 };
    let flight = Command::GeneratedFlight { drone_id: 5, to: Location { row: 9, col: 9 } };
    assert_eq!(load.get_drone_id(), 1);
    assert_eq!(unload.get_drone_id(), 2);
    assert_eq!(deliver.get_drone_id(), 3);
    assert_eq!(wait.get_drone_id(), 4);
    assert_eq!(flight.get_drone_id(), 5);
    assert_eq!(load.get_location(&earth), Ok(Some(Location { row: 5, col: 5 })));
    assert_eq!(unload.get_location(&earth), Ok(Some(Location { row: 0, col: 0 })));
    assert_eq!(deliver.get_location(&earth), Ok(Some(Location { row: 0, col: 0 })));
    assert_eq!(wait.get_location(&earth), Ok(None));
    assert_eq!(flight.get_location(&earth), Ok(Some(Location { row: 9, col: 9 })));
    let nowhere = Command::Load { drone_id: 1, warehouse_id: 2, product_id: 0, number_of_items: 1 };
    assert_eq!(
        nowhere.get_location(&earth),
        Err(Qual2016ScoringError::UnknownWarehouse { warehouse_id: 2 })
    );
    assert!(ExecutedCommand { command: unload, on_drone: 2 }.is_unload());
    assert!(!ExecutedCommand { command: load, on_drone: 1 }.is_unload());
    assert!(!ExecutedCommand { command: wait, on_drone: 4 }.is_unload());
}

#[test]
fn a_flight_is_put_in_where_the_drone_has_to_move() {
    let case = world();
    let earth = case.get_earth_bound();
    let start = Location { row: 0, col: 0 };
    let mut drone = Drone::new(0, start, &case);
    let at_home = Command::Load { drone_id: 0, warehouse_id: 0, product_id: 0, number_of_items: 1 };
    let wait = Command::Wait { drone_id: 0, turns: 2 };
    let away = Command::Load { drone_id: 0, warehouse_id: 1, product_id: 0, number_of_items: 1 };
    let back = Command::Deliver { drone_id: 0, order_id: 0, product_id: 0, number_of_items: 2 };
    assert_eq!(drone.register_command(at_home, &earth), Ok(()));
    assert_eq!(drone.queued(), 1);
    assert_eq!(drone.register_command(wait, &earth), Ok(()));
    assert_eq!(drone.register_command(away, &earth), Ok(()));
    assert_eq!(drone.register_command(wait, &earth), Ok(()));
    assert_eq!(drone.register_command(away, &earth), Ok(()));
    assert_eq!(drone.register_command(back, &earth), Ok(()));
    let to = |row, col| Command::GeneratedFlight { drone_id: 0, to: Location { row, col } };
    let queue: Vec<Command> = (0..drone.queued()).filter_map(|i| drone.queued_command(i)).collect();
    assert_eq!(queue, vec![at_home, wait, to(5, 5), away, wait, away, to(0, 0), back]);
    assert_eq!(drone.queued_command(8), None);
    let unknown = Command::Deliver { drone_id: 0, order_id: 4, product_id: 0, number_of_items: 2 };
    assert_eq!(
        drone.register_command(unknown, &earth),
        Err(Qual2016ScoringError::UnknownOrder { order_id: 4 })
    );
    assert_eq!(drone.queued(), 8);
    assert_eq!(drone.location(), start);
    assert_eq!(drone.next_turn(), 0);
}

#[test]
fn a_drone_gives_up_its_commands_when_they_are_due() {
    let case = world();
    let earth = case.get_earth_bound();
    let mut drone = Drone::new(7, Location { row: 0, col: 0 }, &case);
    let wait = Command::Wait { drone_id: 7, turns: 2 };
    drone.register_command(wait, &earth).expect("queued");
    assert!(drone.is_time_for_next_command(0));
    assert!(!drone.is_time_for_next_command(1));
    assert_eq!(drone.get_command_to_execute(1), None);
    assert_eq!(
        drone.get_command_to_execute(0),
        Some(ExecutedCommand { command: wait, on_drone: 7 })
    );
    assert_eq!(drone.get_command_to_execute(0), None);
    drone.wait(2);
    assert_eq!(drone.next_turn(), 2);
    drone.fly_to(Location { row: 3, col: 4 });
    assert_eq!(drone.next_turn(), 7);
    assert_eq!(drone.location(), Location { row: 3, col: 4 });
    drone.fly_to(Location { row: 3, col: 4 });
    assert_eq!(drone.next_turn(), 7);
    assert_eq!(drone.id(), 7);
}

#[test]
fn loading_and_unloading_move_items_and_weight() {
    let case = world();
    let mut earth = case.get_earth_bound();
    let mut drone = Drone::new(0, Location { row: 0, col: 0 }, &case);
    assert_eq!(drone.room_left(), Ok(100));
    assert_eq!(drone.on_earth(&mut earth).load(0, 0, 4), Ok(()));
    assert_eq!(drone.on_earth(&mut earth).load(0, 1, 1), Ok(()));
    assert_eq!((drone.carried(0), drone.carried(1), drone.carried(2)), (4, 1, 0));
    assert_eq!(drone.carried_weight(), Ok(100));
    assert_eq!(drone.room_left(), Ok(0));
    assert_eq!(drone.next_turn(), 2);
    assert_eq!(earth.get_warehouse(0).expect("known").inventory, vec![1, 0]);
    assert_eq!(
        drone.on_earth(&mut earth).load(0, 0, 1),
        Err(Qual2016ScoringError::DronePassedWeightLimit { drone_id: 0 })
    );
    assert_eq!(drone.carried(0), 4);
    assert_eq!(earth.get_warehouse(0).expect("known").inventory, vec![1, 0]);
    assert_eq!(drone.on_earth(&mut earth).unload(0, 0, 3), Ok(()));
    assert_eq!(drone.carried(0), 1);
    assert_eq!(drone.carried_weight(), Ok(70));
    assert_eq!(earth.get_warehouse(0).expect("known").inventory, vec![4, 0]);
    assert_eq!(
        drone.on_earth(&mut earth).unload(0, 0, 2),
        Err(Qual2016ScoringError::OverTakingDrone { drone_id: 0, product_id: 0 })
    );
    assert_eq!(
        drone.on_earth(&mut earth).unload(1, 0, 1),
        Err(Qual2016ScoringError::DroneNotInWarehouse { drone_id: 0, warehouse_id: 1 })
    );
    assert_eq!(
        drone.on_earth(&mut earth).load(1, 0, 1),
        Err(Qual2016ScoringError::DroneNotInWarehouse { drone_id: 0, warehouse_id: 1 })
    );
    // Too heavy and more than is in stock: the weight is looked at first.
    assert_eq!(
        drone.on_earth(&mut earth).load(0, 1, 9),
        Err(Qual2016ScoringError::DronePassedWeightLimit { drone_id: 0 })
    );
    assert_eq!(
        drone.on_earth(&mut earth).load(0, 0, 5),
        Err(Qual2016ScoringError::DronePassedWeightLimit { drone_id: 0 })
    );
    assert_eq!(drone.next_turn(), 3);
}

#[test]
fn delivering_takes_items_off_the_order() {
    let case = world();
    let mut earth = case.get_earth_bound();
    let mut drone = Drone::new(1, Location { row: 0, col: 0 }, &case);
    drone.on_earth(&mut earth).load(0, 0, 3).expect("in stock");
    assert_eq!(drone.on_earth(&mut earth).deliver(0, 0, 1), Ok(()));
    assert_eq!(earth.get_order(0).expect("known").products, vec![1, 0]);
    assert_eq!(drone.carried(0), 2);
    assert_eq!(
        drone.on_earth(&mut earth).deliver(0, 0, 2),
        Err(Qual2016ScoringError::OverSupplyingOrder { order_id: 0 })
    );
    assert_eq!(earth.get_order(0).expect("known").products, vec![1, 0]);
    assert_eq!(drone.carried(0), 2);
    assert_eq!(
        drone.on_earth(&mut earth).deliver(0, 1, 1),
        Err(Qual2016ScoringError::OverTakingDrone { drone_id: 1, product_id: 1 })
    );
    assert_eq!(
        drone.on_earth(&mut earth).deliver(3, 0, 1),
        Err(Qual2016ScoringError::UnknownOrder { order_id: 3 })
    );
    drone.fly_to(Location { row: 2, col: 2 });
    assert_eq!(
        drone.on_earth(&mut earth).deliver(0, 0, 1),
        Err(Qual2016ScoringError::DroneNotInOrderLocation { drone_id: 1, order_id: 0 })
    );
    assert_eq!(drone.next_turn(), 2 + 3);
}

#[test]
fn a_run_can_be_stepped_turn_by_turn() {
    let case = world();
    let mut run = Simulation::new(&case);
    assert_eq!(run.drones().len(), 2);
    assert_eq!(run.drones()[1].location(), Location { row: 0, col: 0 });
    let script = vec![
        Command::Load { drone_id: 0, warehouse_id: 0, product_id: 0, number_of_items: 2 },
        Command::Load { drone_id: 1, warehouse_id: 0, product_id: 1, number_of_items: 1 },
        Command::Deliver { drone_id: 1, order_id: 0, product_id: 1, number_of_items: 1 },
        Command::Deliver { drone_id: 0, order_id: 0, product_id: 0, number_of_items: 2 },
    ];
    assert_eq!(run.register_all(&script), Ok(()));
    assert_eq!(run.turn(0), Ok(()));
    assert_eq!(run.earth().get_warehouse(0).expect("known").inventory, vec![3, 0]);
    assert_eq!(run.score(), 0);
    assert_eq!(run.turn(1), Ok(()));
    assert_eq!(run.score(), 98);
    assert!(run.earth().get_order(0).expect("known").is_done());
    assert_eq!(run.turn(2), Ok(()));
    assert_eq!(run.score(), 98);
    assert_eq!(run.drones()[0].next_turn(), 2);
    assert_eq!(run.drones()[0].queued(), 0);
}

#[test]
fn a_load_and_an_unload_keep_the_total_stock() {
    let case = world();
    let mut earth = case.get_earth_bound();
    let mut drone = Drone::new(0, Location { row: 0, col: 0 }, &case);
    let total = |earth: &hashcode_score_calc::qual2016::Earth, product: usize| -> u32 {
        earth.warehouses().iter().map(|warehouse| warehouse.inventory[product]).sum()
    };
    assert_eq!((total(&earth, 0), total(&earth, 1)), (8, 5));
    drone.on_earth(&mut earth).load(0, 0, 3).expect("in stock");
    assert_eq!((total(&earth, 0), total(&earth, 1)), (5, 5));
    drone.fly_to(Location { row: 5, col: 5 });
    drone.on_earth(&mut earth).unload(1, 0, 3).expect("on board");
    assert_eq!((total(&earth, 0), total(&earth, 1)), (8, 5));
    assert_eq!(earth.get_warehouse(0).expect("known").inventory, vec![2, 1]);
    assert_eq!(earth.get_warehouse(1).expect("known").inventory, vec![6, 4]);
    drone.on_earth(&mut earth).load(1, 1, 1).expect("in stock");
    drone.on_earth(&mut earth).unload(1, 1, 1).expect("on board");
    assert_eq!((total(&earth, 0), total(&earth, 1)), (8, 5));
    assert_eq!(earth.orders().len(), 1);
    assert_eq!(drone.carried_weight(), Ok(0));
}
