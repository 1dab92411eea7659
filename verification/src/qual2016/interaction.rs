//! The rules of the three commands that touch both a drone and the world.
//! Each is checked against both sides first and then applied to both, or to
//! neither.

use vstd::prelude::*;
use super::drone::{lemma_weight_after_change, DroneEarthInteraction, DroneView};
use super::error::{
    OrderID, ProductID, Qual2016ScoringError, Stock, WarehouseID, WarehouseProductInventory,
};
use super::world::{CaseView, EarthView};

verus! {

/// What loading `amount` items of `product_id` at `warehouse_id` leads to:
/// the drone and the world after it, or the rule that forbids it.
pub open spec fn load_outcome(
    case: CaseView,
    drone: DroneView,
    earth: EarthView,
    warehouse_id: WarehouseID,
    product_id: ProductID,
    amount: WarehouseProductInventory,
) -> Result<(DroneView, EarthView), Qual2016ScoringError> {
    match earth.warehouse(warehouse_id) {
        Err(e) => Err(e),
        Ok(warehouse) => match case.product(product_id) {
            Err(e) => Err(e),
            Ok(product) => if warehouse.location != drone.location {
                Err(
                    Qual2016ScoringError::DroneNotInWarehouse {
                        drone_id: drone.id,
                        warehouse_id,
                    },
                )
            } else if drone.carried_weight(case) + product.weight * amount > case.max_payload {
                Err(Qual2016ScoringError::DronePassedWeightLimit { drone_id: drone.id })
            } else {
                match warehouse.take_out(product_id, amount) {
                    Err(e) => Err(e),
                    Ok(emptier) => Ok(
                        (
                            drone.with_carried(
                                product_id,
                                drone.carrying[product_id] + amount,
                            ).busy_for(1),
                            earth.with_warehouse(warehouse_id, emptier),
                        ),
                    ),
                }
            },
        },
    }
}

/// What unloading `amount` items of `product_id` at `warehouse_id` leads to.
pub open spec fn unload_outcome(
    drone: DroneView,
    earth: EarthView,
    warehouse_id: WarehouseID,
    product_id: ProductID,
    amount: WarehouseProductInventory,
) -> Result<(DroneView, EarthView), Qual2016ScoringError> {
    match earth.warehouse(warehouse_id) {
        Err(e) => Err(e),
        Ok(warehouse) => if product_id >= warehouse.inventory.len() {
            Err(Qual2016ScoringError::UnknownProduct { product_id })
        } else if warehouse.location != drone.location {
            Err(Qual2016ScoringError::DroneNotInWarehouse { drone_id: drone.id, warehouse_id })
        } else if drone.carrying[product_id] < amount {
            Err(Qual2016ScoringError::OverTakingDrone { drone_id: drone.id, product_id })
        } else {
            Ok(
                (
                    drone.with_carried(product_id, drone.carrying[product_id] - amount).busy_for(
                        1,
                    ),
                    earth.with_warehouse(warehouse_id, warehouse.insert(product_id, amount)),
                ),
            )
        },
    }
}

/// What delivering `amount` items of `product_id` to `order_id` leads to.
pub open spec fn deliver_outcome(
    drone: DroneView,
    earth: EarthView,
    order_id: OrderID,
    product_id: ProductID,
    amount: WarehouseProductInventory,
) -> Result<(DroneView, EarthView), Qual2016ScoringError> {
    match earth.order(order_id) {
        Err(e) => Err(e),
        Ok(order) => if order.location != drone.location {
            Err(Qual2016ScoringError::DroneNotInOrderLocation { drone_id: drone.id, order_id })
        } else if drone.carrying[product_id] < amount {
            Err(Qual2016ScoringError::OverTakingDrone { drone_id: drone.id, product_id })
        } else {
            match order.supply(product_id, amount) {
                Err(e) => Err(e),
                Ok(smaller) => Ok(
                    (
                        drone.with_carried(
                            product_id,
                            drone.carrying[product_id] - amount,
                        ).busy_for(1),
                        earth.with_order(order_id, smaller),
                    ),
                ),
            }
        },
    }
}

/// What the drone carries of `product_id` and what the warehouse holds of it
/// fit one counter together, so that neither a load nor an unload can
/// overflow.
pub open spec fn stock_fits(
    drone: DroneView,
    earth: EarthView,
    warehouse_id: WarehouseID,
    product_id: ProductID,
) -> bool {
    warehouse_id < earth.warehouses.len() ==> earth.warehouses[warehouse_id as int].stock(
        product_id,
    ) + drone.carrying[product_id] <= Stock::MAX
}

impl DroneEarthInteraction<'_, '_, '_> {
    /// Moves `amount` items of `product_id` from the warehouse into the
    /// drone, and takes one turn.
    pub fn load(
        self,
        warehouse_id: WarehouseID,
        product_id: ProductID,
        amount: WarehouseProductInventory,
    ) -> (r: Result<(), Qual2016ScoringError>)
        requires
            old(self.drone).wf(),
            old(self.drone)@.next_turn < u64::MAX,
            stock_fits(old(self.drone)@, old(self.earth)@, warehouse_id, product_id),
        ensures
            match load_outcome(
                old(self.drone).world(),
                old(self.drone)@,
                old(self.earth)@,
                warehouse_id,
                product_id,
                amount,
            ) {
                Ok((drone, earth)) => {
                    &&& r is Ok
                    &&& final(self.drone)@ == drone
                    &&& final(self.earth)@ == earth
                },
                Err(e) => {
                    &&& r == Err::<(), Qual2016ScoringError>(e)
                    &&& final(self.drone)@ == old(self.drone)@
                    &&& final(self.earth)@ == old(self.earth)@
                },
            },
            final(self.drone).world() == old(self.drone).world(),
            final(self.drone).wf(),
    {
        let ghost case = self.drone.world();
        let ghost before = self.drone@;
        let ghost world_before = self.earth@;
        let warehouse = self.earth.get_mut_warehouse(warehouse_id)?;
        proof {
            assert(world_before.warehouses.update(warehouse_id as int, warehouse@)
                =~= world_before.warehouses);
        }
        let product = self.drone.case.get_product(product_id)?;
        // Self check
        if warehouse.location != self.drone.location {
            return Err(
                Qual2016ScoringError::DroneNotInWarehouse {
                    drone_id: self.drone.id,
                    warehouse_id,
                },
            );
        }
        let unit: u64 = product.weight as u64;
        assert(unit * amount <= 0xffff * 0xffff) by (nonlinear_arith)
            requires
                0 <= unit <= 0xffff,
                0 <= amount <= 0xffff,
        ;
        let needed: u64 = unit * amount as u64;
        if (self.drone.room_left()? as u64) < needed {
            return Err(Qual2016ScoringError::DronePassedWeightLimit { drone_id: self.drone.id });
        }
        warehouse.take_out_product(product_id, amount)?;
        let carried: Stock = self.drone.carried(product_id);
        self.drone.carrying.insert(product_id, carried + amount as Stock);
        self.drone.time_for_next_command = self.drone.time_for_next_command + 1;
        proof {
            assert(self.drone@.carrying =~= before.carrying.insert(product_id, carried + amount));
            lemma_weight_after_change(
                case,
                before.carrying,
                product_id,
                carried + amount,
                case.products.len(),
            );
            assert(product.weight * (carried + amount - carried) == product.weight * amount)
                by (nonlinear_arith);
        }
        Ok(())
    }

    /// Moves `amount` items of `product_id` from the drone into the
    /// warehouse, and takes one turn.
    pub fn unload(
        self,
        warehouse_id: WarehouseID,
        product_id: ProductID,
        amount: WarehouseProductInventory,
    ) -> (r: Result<(), Qual2016ScoringError>)
        requires
            old(self.drone).wf(),
            old(self.drone)@.next_turn < u64::MAX,
            stock_fits(old(self.drone)@, old(self.earth)@, warehouse_id, product_id),
        ensures
            match unload_outcome(
                old(self.drone)@,
                old(self.earth)@,
                warehouse_id,
                product_id,
                amount,
            ) {
                Ok((drone, earth)) => {
                    &&& r is Ok
                    &&& final(self.drone)@ == drone
                    &&& final(self.earth)@ == earth
                },
                Err(e) => {
                    &&& r == Err::<(), Qual2016ScoringError>(e)
                    &&& final(self.drone)@ == old(self.drone)@
                    &&& final(self.earth)@ == old(self.earth)@
                },
            },
            final(self.drone).world() == old(self.drone).world(),
            final(self.drone).wf(),
    {
        let ghost case = self.drone.world();
        let ghost before = self.drone@;
        let ghost world_before = self.earth@;
        let warehouse = self.earth.get_mut_warehouse(warehouse_id)?;
        proof {
            assert(world_before.warehouses.update(warehouse_id as int, warehouse@)
                =~= world_before.warehouses);
        }
        if product_id as usize >= warehouse.inventory.len() {
            return Err(Qual2016ScoringError::UnknownProduct { product_id });
        }
        // Self check
        if warehouse.location != self.drone.location {
            return Err(
                Qual2016ScoringError::DroneNotInWarehouse {
                    drone_id: self.drone.id,
                    warehouse_id,
                },
            );
        }
        let carried: Stock = self.drone.carried(product_id);
        if carried < amount as Stock {
            return Err(
                Qual2016ScoringError::OverTakingDrone { drone_id: self.drone.id, product_id },
            );
        }
        warehouse.insert_product(product_id, amount);
        self.drone.carrying.insert(product_id, carried - amount as Stock);
        self.drone.time_for_next_command = self.drone.time_for_next_command + 1;
        proof {
            assert(self.drone@.carrying =~= before.carrying.insert(product_id, carried - amount));
            lemma_carrying_less(case, before, product_id, amount as int);
        }
        Ok(())
    }

    /// Hands `amount` items of `product_id` to the customer of `order_id`,
    /// and takes one turn.
    pub fn deliver(
        self,
        order_id: OrderID,
        product_id: ProductID,
        amount: WarehouseProductInventory,
    ) -> (r: Result<(), Qual2016ScoringError>)
        requires
            old(self.drone).wf(),
            old(self.drone)@.next_turn < u64::MAX,
        ensures
            match deliver_outcome(
                old(self.drone)@,
                old(self.earth)@,
                order_id,
                product_id,
                amount,
            ) {
                Ok((drone, earth)) => {
                    &&& r is Ok
                    &&& final(self.drone)@ == drone
                    &&& final(self.earth)@ == earth
                },
                Err(e) => {
                    &&& r == Err::<(), Qual2016ScoringError>(e)
                    &&& final(self.drone)@ == old(self.drone)@
                    &&& final(self.earth)@ == old(self.earth)@
                },
            },
            final(self.drone).world() == old(self.drone).world(),
            final(self.drone).wf(),
    {
        let ghost case = self.drone.world();
        let ghost before = self.drone@;
        let ghost world_before = self.earth@;
        let order = self.earth.get_mut_order(order_id)?;
        proof {
            assert(world_before.orders.update(order_id as int, order@) =~= world_before.orders);
        }
        // Self check
        if order.location != self.drone.location {
            return Err(
                Qual2016ScoringError::DroneNotInOrderLocation {
                    drone_id: self.drone.id,
                    order_id,
                },
            );
        }
        let carried: Stock = self.drone.carried(product_id);
        if carried < amount as Stock {
            return Err(
                Qual2016ScoringError::OverTakingDrone { drone_id: self.drone.id, product_id },
            );
        }
        order.supply(product_id, amount)?;
        self.drone.carrying.insert(product_id, carried - amount as Stock);
        self.drone.time_for_next_command = self.drone.time_for_next_command + 1;
        proof {
            assert(self.drone@.carrying =~= before.carrying.insert(product_id, carried - amount));
            lemma_carrying_less(case, before, product_id, amount as int);
        }
        Ok(())
    }
}

/// A drone that gives items away stays within the rules.
pub proof fn lemma_carrying_less(
    case: CaseView,
    drone: DroneView,
    product_id: ProductID,
    amount: int,
)
    requires
        case.wf(),
        drone.wf(case),
        0 <= amount <= drone.carrying[product_id],
    ensures
        drone.with_carried(product_id, drone.carrying[product_id] - amount).wf(case),
        drone.with_carried(product_id, drone.carrying[product_id] - amount).carried_weight(case)
            == drone.carried_weight(case) - case.weight_of(product_id) * amount,
{
    let after = drone.with_carried(product_id, drone.carrying[product_id] - amount);
    lemma_weight_after_change(
        case,
        drone.carrying,
        product_id,
        drone.carrying[product_id] - amount,
        case.products.len(),
    );
    let w = case.weight_of(product_id);
    assert(w * (drone.carrying[product_id] - amount - drone.carrying[product_id]) == -(w * amount)
        && w * amount >= 0) by (nonlinear_arith)
        requires
            w >= 0,
            amount >= 0,
    ;
    assert(after.carrying.dom() =~= Set::<ProductID>::full());
}

} // verus!
