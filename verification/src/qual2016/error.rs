//! Rule violations that end a run.

use vstd::prelude::*;
use super::geometry::{Col, Row};

verus! {

pub type WarehouseID = u16;

pub type DroneID = u16;

pub type Weight = u16;

pub type ProductID = u16;

pub type OrderID = u16;

/// Number of commands in a script.
pub type CommandNumber = u64;

/// An amount of one product, as the text formats write it.
pub type WarehouseProductInventory = u16;

/// An amount of one product held by a warehouse or a drone during a run.
pub type Stock = u32;

/// A well-formed script broke a rule of the game. The first violation ends
/// the run, and no score is given.
#[derive(Copy, Clone, Debug, PartialEq, Eq, Structural)]
pub enum Qual2016ScoringError {
    LocationOutOfMap { row: Row, col: Col },
    CommandIssuedToUnknownDrone { drone_id: DroneID },
    DronePassedWeightLimit { drone_id: DroneID },
    OverTakingWarehouse { warehouse_id: WarehouseID },
    OverTakingDrone { drone_id: DroneID, product_id: ProductID },
    UnknownWarehouse { warehouse_id: WarehouseID },
    UnknownOrder { order_id: OrderID },
    UnknownProduct { product_id: ProductID },
    OverSupplyingOrder { order_id: OrderID },
    /// The drone was not flown to the warehouse before it was to load or
    /// unload there: a fault of the scheduler, not of the script.
    DroneNotInWarehouse { drone_id: DroneID, warehouse_id: WarehouseID },
    /// The drone was not flown to the customer before it was to deliver: a
    /// fault of the scheduler, not of the script.
    DroneNotInOrderLocation { drone_id: DroneID, order_id: OrderID },
    CommandWithAmountZero { drone_id: DroneID },
}

} // verus!
