//! The actions a drone can be told to take.

use vstd::prelude::*;
use super::error::{DroneID, OrderID, ProductID, WarehouseID, WarehouseProductInventory};
use super::error::Qual2016ScoringError;
use super::geometry::{Location, Turn};
use super::world::{Earth, EarthView};

verus! {

/// One action of one drone. Scripts hold the first four; `GeneratedFlight` is
/// put in by the scheduler wherever a drone has to move first.
#[derive(Copy, Clone, Debug, PartialEq, Eq, Structural)]
pub enum Command {
    Load {
        drone_id: DroneID,
        warehouse_id: WarehouseID,
        product_id: ProductID,
        number_of_items: WarehouseProductInventory,
    },
    Unload {
        drone_id: DroneID,
        warehouse_id: WarehouseID,
        product_id: ProductID,
        number_of_items: WarehouseProductInventory,
    },
    Deliver {
        drone_id: DroneID,
        order_id: OrderID,
        product_id: ProductID,
        number_of_items: WarehouseProductInventory,
    },
    Wait { drone_id: DroneID, turns: Turn },
    GeneratedFlight { drone_id: DroneID, to: Location },
}

impl Command {
    /// The drone the command is for.
    pub open spec fn spec_drone_id(self) -> DroneID {
        match self {
            Command::Load { drone_id, .. } => drone_id,
            Command::Unload { drone_id, .. } => drone_id,
            Command::Deliver { drone_id, .. } => drone_id,
            Command::Wait { drone_id, .. } => drone_id,
            Command::GeneratedFlight { drone_id, .. } => drone_id,
        }
    }

    /// Whether the command puts products back into a warehouse.
    pub open spec fn spec_is_unload(self) -> bool {
        self is Unload
    }

    /// The amount of a load, an unload or a delivery.
    pub open spec fn spec_amount(self) -> Option<WarehouseProductInventory> {
        match self {
            Command::Load { number_of_items, .. } => Some(number_of_items),
            Command::Unload { number_of_items, .. } => Some(number_of_items),
            Command::Deliver { number_of_items, .. } => Some(number_of_items),
            _ => None,
        }
    }

    /// Where the drone has to be for the command: the warehouse of a load or
    /// an unload, the customer of a delivery, the end of a flight; a wait has
    /// no place. It fails where the warehouse or the order is unknown.
    pub open spec fn location_on(self, earth: EarthView) -> Result<
        Option<Location>,
        Qual2016ScoringError,
    > {
        match self {
            Command::Load { warehouse_id, .. } | Command::Unload { warehouse_id, .. } => {
                match earth.warehouse(warehouse_id) {
                    Ok(warehouse) => Ok(Some(warehouse.location)),
                    Err(e) => Err(e),
                }
            },
            Command::Deliver { order_id, .. } => {
                match earth.order(order_id) {
                    Ok(order) => Ok(Some(order.location)),
                    Err(e) => Err(e),
                }
            },
            Command::GeneratedFlight { to, .. } => Ok(Some(to)),
            Command::Wait { .. } => Ok(None),
        }
    }

    pub fn get_location(&self, earth: &Earth) -> (r: Result<
        Option<Location>,
        Qual2016ScoringError,
    >)
        ensures
            r == self.location_on(earth@),
    {
        match self {
            Command::Load { warehouse_id, .. } => {
                Ok(Some(earth.get_warehouse(*warehouse_id)?.location))
            },
            Command::Unload { warehouse_id, .. } => {
                Ok(Some(earth.get_warehouse(*warehouse_id)?.location))
            },
            Command::Deliver { order_id, .. } => Ok(Some(earth.get_order(*order_id)?.location)),
            Command::GeneratedFlight { to, .. } => Ok(Some(*to)),
            Command::Wait { .. } => Ok(None),
        }
    }

    pub fn get_drone_id(&self) -> (id: DroneID)
        ensures
            id == self.spec_drone_id(),
    {
        match self {
            Command::Load { drone_id, .. } => *drone_id,
            Command::Unload { drone_id, .. } => *drone_id,
            Command::Deliver { drone_id, .. } => *drone_id,
            Command::Wait { drone_id, .. } => *drone_id,
            Command::GeneratedFlight { drone_id, .. } => *drone_id,
        }
    }
}

} // verus!
