//! What holds of the rules of the game, whatever the world and the script.

use vstd::prelude::*;
use super::accounting::{lemma_total_update, stock_column, warehouse_stock};
use super::command::Command;
use super::drone::{lemma_weight_after_change, DroneView};
use super::error::{
    OrderID, ProductID, Qual2016ScoringError, WarehouseID, WarehouseProductInventory,
};
use super::geometry::lemma_flight_time_is_rounded_distance;
use super::interaction::{deliver_outcome, lemma_carrying_less, load_outcome, unload_outcome};
use super::model::command_outcome;
use super::order::{count_of, lemma_without_first_counts};
use super::world::{CaseView, EarthView};

verus! {

/// A load moves items from one warehouse onto the drone: `amount` items of
/// the product leave the warehouses and come on board, and nothing else
/// changes hands.
pub proof fn lemma_load_moves_items(
    case: CaseView,
    drone: DroneView,
    earth: EarthView,
    warehouse_id: WarehouseID,
    product_id: ProductID,
    amount: WarehouseProductInventory,
    other: ProductID,
)
    requires
        load_outcome(case, drone, earth, warehouse_id, product_id, amount) is Ok,
    ensures
        ({
            let (loaded, emptier) = load_outcome(
                case,
                drone,
                earth,
                warehouse_id,
                product_id,
                amount,
            )->Ok_0;
            let moved = if other == product_id {
                amount as int
            } else {
                0int
            };
            &&& warehouse_stock(emptier.warehouses, other) == warehouse_stock(
                earth.warehouses,
                other,
            ) - moved
            &&& loaded.carrying[other] == drone.carrying[other] + moved
            &&& emptier.orders == earth.orders
        }),
{
    let (loaded, emptier) = load_outcome(case, drone, earth, warehouse_id, product_id, amount)->Ok_0;
    let w = warehouse_id as int;
    lemma_total_update(
        stock_column(earth.warehouses, other),
        w,
        emptier.warehouses[w].stock(other),
    );
    assert(stock_column(emptier.warehouses, other) =~= stock_column(
        earth.warehouses,
        other,
    ).update(w, emptier.warehouses[w].stock(other)));
}

/// An unload moves items from the drone into one warehouse: `amount` items of
/// the product leave the drone and come into the warehouses, and nothing else
/// changes hands.
pub proof fn lemma_unload_moves_items(
    drone: DroneView,
    earth: EarthView,
    warehouse_id: WarehouseID,
    product_id: ProductID,
    amount: WarehouseProductInventory,
    other: ProductID,
)
    requires
        unload_outcome(drone, earth, warehouse_id, product_id, amount) is Ok,
    ensures
        ({
            let (lighter, fuller) = unload_outcome(
                drone,
                earth,
                warehouse_id,
                product_id,
                amount,
            )->Ok_0;
            let moved = if other == product_id {
                amount as int
            } else {
                0int
            };
            &&& warehouse_stock(fuller.warehouses, other) == warehouse_stock(
                earth.warehouses,
                other,
            ) + moved
            &&& lighter.carrying[other] == drone.carrying[other] - moved
            &&& fuller.orders == earth.orders
        }),
{
    let (lighter, fuller) = unload_outcome(drone, earth, warehouse_id, product_id, amount)->Ok_0;
    let w = warehouse_id as int;
    lemma_total_update(stock_column(earth.warehouses, other), w, fuller.warehouses[w].stock(other));
    assert(stock_column(fuller.warehouses, other) =~= stock_column(earth.warehouses, other).update(
        w,
        fuller.warehouses[w].stock(other),
    ));
}

/// `after` is `before` once some drone has loaded some amount of a product
/// at a warehouse and some drone has unloaded the same amount of it at a
/// warehouse, both with success.
pub open spec fn is_transfer(case: CaseView, before: EarthView, after: EarthView) -> bool {
    exists|
        loader: DroneView,
        unloader: DroneView,
        from: WarehouseID,
        to: WarehouseID,
        product_id: ProductID,
        amount: WarehouseProductInventory,
    |
        transfers(case, before, after, loader, unloader, from, to, product_id, amount)
}

/// `loader` loads `amount` of `product_id` at `from` in the world `before`,
/// then `unloader` unloads as much at `to`, and the world is `after`.
pub open spec fn transfers(
    case: CaseView,
    before: EarthView,
    after: EarthView,
    loader: DroneView,
    unloader: DroneView,
    from: WarehouseID,
    to: WarehouseID,
    product_id: ProductID,
    amount: WarehouseProductInventory,
) -> bool {
    match load_outcome(case, loader, before, from, product_id, amount) {
        Err(_) => false,
        Ok((_, between)) => match unload_outcome(unloader, between, to, product_id, amount) {
            Err(_) => false,
            Ok((_, end)) => end == after,
        },
    }
}

/// A load and an unload of the same amount of the same product leave in the
/// warehouses, all together, as much of every product as there was.
pub proof fn lemma_transfer_keeps_stock(
    case: CaseView,
    before: EarthView,
    after: EarthView,
    other: ProductID,
)
    requires
        is_transfer(case, before, after),
    ensures
        warehouse_stock(after.warehouses, other) == warehouse_stock(before.warehouses, other),
{
    let (loader, unloader, from, to, product_id, amount) = choose|
        loader: DroneView,
        unloader: DroneView,
        from: WarehouseID,
        to: WarehouseID,
        product_id: ProductID,
        amount: WarehouseProductInventory,
    |
        transfers(case, before, after, loader, unloader, from, to, product_id, amount);
    let between = load_outcome(case, loader, before, from, product_id, amount)->Ok_0.1;
    lemma_load_moves_items(case, loader, before, from, product_id, amount, other);
    lemma_unload_moves_items(unloader, between, to, product_id, amount, other);
}

/// Any sequence of such pairs leaves in the warehouses, all together, as
/// much of every product as there was at the start.
pub proof fn lemma_transfers_keep_stock(case: CaseView, history: Seq<EarthView>, other: ProductID)
    requires
        history.len() > 0,
        forall|k: int|
            0 <= k < history.len() - 1 ==> is_transfer(case, #[trigger] history[k], history[k + 1]),
    ensures
        warehouse_stock(history.last().warehouses, other) == warehouse_stock(
            history[0].warehouses,
            other,
        ),
    decreases history.len(),
{
    if history.len() > 1 {
        let earlier = history.drop_last();
        assert forall|k: int| 0 <= k < earlier.len() - 1 implies is_transfer(
            case,
            #[trigger] earlier[k],
            earlier[k + 1],
        ) by {
            assert(is_transfer(case, history[k], history[k + 1]));
        }
        lemma_transfers_keep_stock(case, earlier, other);
        let k = history.len() - 2;
        assert(is_transfer(case, history[k], history[k + 1]));
        lemma_transfer_keeps_stock(case, history[k], history[k + 1], other);
    }
}

/// A command that succeeds leaves the drone within the rules: it carries
/// products of the catalog only, and no more weight than a drone may.
pub proof fn lemma_command_keeps_weight_limit(
    case: CaseView,
    drone: DroneView,
    earth: EarthView,
    command: Command,
    turn: int,
)
    requires
        case.wf(),
        drone.wf(case),
        command_outcome(case, drone, earth, command, turn) is Ok,
    ensures
        command_outcome(case, drone, earth, command, turn)->Ok_0.0.wf(case),
        command_outcome(case, drone, earth, command, turn)->Ok_0.0.carried_weight(case)
            <= case.max_payload,
{
    let after = command_outcome(case, drone, earth, command, turn)->Ok_0.0;
    match command {
        Command::GeneratedFlight { to, .. } => {
            lemma_flight_time_is_rounded_distance(drone.location, to);
        },
        Command::Wait { .. } => {},
        Command::Load { product_id, number_of_items, .. } => {
            lemma_load_adds_weight(case, drone, product_id, number_of_items as int);
        },
        Command::Unload { product_id, number_of_items, .. } => {
            lemma_carrying_less(case, drone, product_id, number_of_items as int);
        },
        Command::Deliver { product_id, number_of_items, .. } => {
            lemma_carrying_less(case, drone, product_id, number_of_items as int);
        },
    }
}

/// Items that come on board add their weight, and nothing else.
pub proof fn lemma_load_adds_weight(
    case: CaseView,
    drone: DroneView,
    product_id: ProductID,
    amount: int,
)
    requires
        case.wf(),
        drone.wf(case),
        product_id < case.products.len(),
        amount >= 0,
    ensures
        drone.with_carried(product_id, drone.carrying[product_id] + amount).carried_weight(case)
            == drone.carried_weight(case) + case.products[product_id as int].weight * amount,
        drone.carried_weight(case) + case.products[product_id as int].weight * amount
            <= case.max_payload ==> drone.with_carried(
            product_id,
            drone.carrying[product_id] + amount,
        ).wf(case),
{
    let after = drone.with_carried(product_id, drone.carrying[product_id] + amount);
    lemma_weight_after_change(
        case,
        drone.carrying,
        product_id,
        drone.carrying[product_id] + amount,
        case.products.len(),
    );
    let w = case.products[product_id as int].weight as int;
    assert(w * (drone.carrying[product_id] + amount - drone.carrying[product_id]) == w * amount)
        by (nonlinear_arith);
    assert(after.carrying.dom() =~= Set::<ProductID>::full());
}

/// A load that would take the drone over its weight limit is refused as a
/// whole: where the drone is at a known warehouse and the product is known,
/// the outcome is the failure, whatever the warehouse has in stock.
pub proof fn lemma_overweight_load_is_rejected(
    case: CaseView,
    drone: DroneView,
    earth: EarthView,
    warehouse_id: WarehouseID,
    product_id: ProductID,
    amount: WarehouseProductInventory,
)
    requires
        warehouse_id < earth.warehouses.len(),
        product_id < case.products.len(),
        earth.warehouses[warehouse_id as int].location == drone.location,
        drone.carried_weight(case) + case.products[product_id as int].weight * amount
            > case.max_payload,
    ensures
        load_outcome(case, drone, earth, warehouse_id, product_id, amount) == Err::<
            (DroneView, EarthView),
            Qual2016ScoringError,
        >(Qual2016ScoringError::DronePassedWeightLimit { drone_id: drone.id }),
{
}

/// A delivery that succeeds takes exactly `amount` items off the order, all
/// of the product delivered, and touches no other order and no warehouse.
pub proof fn lemma_delivery_shrinks_order(
    drone: DroneView,
    earth: EarthView,
    order_id: OrderID,
    product_id: ProductID,
    amount: WarehouseProductInventory,
    other: ProductID,
)
    requires
        deliver_outcome(drone, earth, order_id, product_id, amount) is Ok,
    ensures
        ({
            let (lighter, served) = deliver_outcome(
                drone,
                earth,
                order_id,
                product_id,
                amount,
            )->Ok_0;
            let before = earth.orders[order_id as int].products;
            let after = served.orders[order_id as int].products;
            &&& after.len() == before.len() - amount
            &&& count_of(after, other) == count_of(before, other) - if other == product_id {
                amount as int
            } else {
                0int
            }
            &&& served.orders.len() == earth.orders.len()
            &&& forall|o: int|
                0 <= o < earth.orders.len() && o != order_id ==> served.orders[o]
                    == earth.orders[o]
            &&& served.warehouses == earth.warehouses
            &&& lighter.carrying[product_id] == drone.carrying[product_id] - amount
        }),
{
    lemma_without_first_counts(
        earth.orders[order_id as int].products,
        product_id,
        amount as nat,
        other,
    );
}

/// A delivery of more items than the order still wants of the product fails,
/// where the drone is at the customer and has the items.
pub proof fn lemma_over_delivery_fails(
    drone: DroneView,
    earth: EarthView,
    order_id: OrderID,
    product_id: ProductID,
    amount: WarehouseProductInventory,
)
    requires
        order_id < earth.orders.len(),
        earth.orders[order_id as int].location == drone.location,
        drone.carrying[product_id] >= amount,
        count_of(earth.orders[order_id as int].products, product_id) < amount,
    ensures
        deliver_outcome(drone, earth, order_id, product_id, amount) == Err::<
            (DroneView, EarthView),
            Qual2016ScoringError,
        >(
            Qual2016ScoringError::OverSupplyingOrder {
                order_id: earth.orders[order_id as int].id,
            },
        ),
{
}

/// What an order still wants only shrinks: no command adds an item to any
/// order, and no order comes or goes.
pub proof fn lemma_orders_only_shrink(
    case: CaseView,
    drone: DroneView,
    earth: EarthView,
    command: Command,
    turn: int,
    order: int,
    product_id: ProductID,
)
    requires
        command_outcome(case, drone, earth, command, turn) is Ok,
        0 <= order < earth.orders.len(),
    ensures
        ({
            let served = command_outcome(case, drone, earth, command, turn)->Ok_0.1;
            &&& served.orders.len() == earth.orders.len()
            &&& served.orders[order].id == earth.orders[order].id
            &&& served.orders[order].location == earth.orders[order].location
            &&& served.orders[order].products.len() <= earth.orders[order].products.len()
            &&& count_of(served.orders[order].products, product_id) <= count_of(
                earth.orders[order].products,
                product_id,
            )
        }),
{
    match command {
        Command::Deliver { order_id, product_id: delivered, number_of_items, .. } => {
            lemma_delivery_shrinks_order(
                drone,
                earth,
                order_id,
                delivered,
                number_of_items,
                product_id,
            );
        },
        _ => {},
    }
}

} // verus!
