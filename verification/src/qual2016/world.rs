//! A world: the product catalog, the warehouses, the orders, the fleet and
//! the turn budget; and the copy of it that one run changes.

use vstd::prelude::*;
use vstd::string::StringSliceAdditionalSpecFns;
use crate::ScoringError;
use super::error::{DroneID, OrderID, ProductID, Qual2016ScoringError, WarehouseID, Weight};
use super::geometry::{Location, MapSize, Turn};
use super::order::{order_views, Order, OrderView};
use super::parsing::{parse_input_file, spec_input_file};
use super::warehouse::{warehouse_views, Warehouse, WarehouseView};

verus! {

/// An entry of the product catalog. Ids are dense and start at 0.
#[derive(Copy, Clone, Debug, Hash)]
pub struct Product {
    pub id: ProductID,
    pub weight: Weight,
}

/// Two catalog entries are the same product where their ids are the same.
impl PartialEq for Product {
    fn eq(&self, other: &Product) -> (same: bool) {
        self.id == other.id
    }
}

impl vstd::std_specs::cmp::PartialEqSpecImpl for Product {
    open spec fn obeys_eq_spec() -> bool {
        true
    }

    open spec fn eq_spec(&self, other: &Product) -> bool {
        self.id == other.id
    }
}

impl Eq for Product {

}

/// The warehouses and orders of one run, as plain values.
pub struct EarthView {
    pub warehouses: Seq<WarehouseView>,
    pub orders: Seq<OrderView>,
}

impl EarthView {
    /// The warehouse that `warehouse_id` names.
    pub open spec fn warehouse(self, warehouse_id: WarehouseID) -> Result<
        WarehouseView,
        Qual2016ScoringError,
    > {
        if warehouse_id < self.warehouses.len() {
            Ok(self.warehouses[warehouse_id as int])
        } else {
            Err(Qual2016ScoringError::UnknownWarehouse { warehouse_id })
        }
    }

    /// The order that `order_id` names.
    pub open spec fn order(self, order_id: OrderID) -> Result<OrderView, Qual2016ScoringError> {
        if order_id < self.orders.len() {
            Ok(self.orders[order_id as int])
        } else {
            Err(Qual2016ScoringError::UnknownOrder { order_id })
        }
    }

    pub open spec fn with_warehouse(self, warehouse_id: WarehouseID, warehouse: WarehouseView) -> EarthView {
        EarthView { warehouses: self.warehouses.update(warehouse_id as int, warehouse), ..self }
    }

    pub open spec fn with_order(self, order_id: OrderID, order: OrderView) -> EarthView {
        EarthView { orders: self.orders.update(order_id as int, order), ..self }
    }
}

/// The warehouses and orders as one run of the simulation changes them.
pub struct Earth {
    pub(crate) warehouses: Vec<Warehouse>,
    pub(crate) orders: Vec<Order>,
}

impl View for Earth {
    type V = EarthView;

    open(crate) spec fn view(&self) -> EarthView {
        EarthView {
            warehouses: warehouse_views(self.warehouses@),
            orders: order_views(self.orders@),
        }
    }
}

impl Earth {
    pub fn warehouses(&self) -> (warehouses: &Vec<Warehouse>)
        ensures
            warehouse_views(warehouses@) == self@.warehouses,
    {
        &self.warehouses
    }

    pub fn orders(&self) -> (orders: &Vec<Order>)
        ensures
            order_views(orders@) == self@.orders,
    {
        &self.orders
    }

    pub fn get_warehouse(&self, warehouse_id: WarehouseID) -> (r: Result<
        &Warehouse,
        Qual2016ScoringError,
    >)
        ensures
            match self@.warehouse(warehouse_id) {
                Ok(warehouse) => r is Ok && r->Ok_0@ == warehouse,
                Err(e) => r is Err && r->Err_0 == e,
            },
    {
        if (warehouse_id as usize) < self.warehouses.len() {
            Ok(&self.warehouses[warehouse_id as usize])
        } else {
            Err(Qual2016ScoringError::UnknownWarehouse { warehouse_id })
        }
    }

    pub fn get_mut_warehouse(&mut self, warehouse_id: WarehouseID) -> (r: Result<
        &mut Warehouse,
        Qual2016ScoringError,
    >)
        ensures
            match r {
                Ok(warehouse) => {
                    &&& old(self)@.warehouse(warehouse_id) == Ok::<
                        WarehouseView,
                        Qual2016ScoringError,
                    >(warehouse@)
                    &&& final(self)@ == old(self)@.with_warehouse(warehouse_id, final(warehouse)@)
                },
                Err(e) => {
                    &&& old(self)@.warehouse(warehouse_id) == Err::<
                        WarehouseView,
                        Qual2016ScoringError,
                    >(e)
                    &&& *final(self) == *old(self)
                },
            },
    {
        if (warehouse_id as usize) < self.warehouses.len() {
            let warehouse = &mut self.warehouses[warehouse_id as usize];
            proof {
                assert(warehouse_views(old(self).warehouses@.update(warehouse_id as int, *final(warehouse)))
                    =~= warehouse_views(old(self).warehouses@).update(warehouse_id as int, final(warehouse)@));
            }
            Ok(warehouse)
        } else {
            Err(Qual2016ScoringError::UnknownWarehouse { warehouse_id })
        }
    }

    pub fn get_order(&self, order_id: OrderID) -> (r: Result<&Order, Qual2016ScoringError>)
        ensures
            match self@.order(order_id) {
                Ok(order) => r is Ok && r->Ok_0@ == order,
                Err(e) => r is Err && r->Err_0 == e,
            },
    {
        if (order_id as usize) < self.orders.len() {
            Ok(&self.orders[order_id as usize])
        } else {
            Err(Qual2016ScoringError::UnknownOrder { order_id })
        }
    }

    pub fn get_mut_order(&mut self, order_id: OrderID) -> (r: Result<
        &mut Order,
        Qual2016ScoringError,
    >)
        ensures
            match r {
                Ok(order) => {
                    &&& old(self)@.order(order_id) == Ok::<OrderView, Qual2016ScoringError>(order@)
                    &&& final(self)@ == old(self)@.with_order(order_id, final(order)@)
                },
                Err(e) => {
                    &&& old(self)@.order(order_id) == Err::<OrderView, Qual2016ScoringError>(e)
                    &&& *final(self) == *old(self)
                },
            },
    {
        if (order_id as usize) < self.orders.len() {
            let order = &mut self.orders[order_id as usize];
            proof {
                assert(order_views(old(self).orders@.update(order_id as int, *final(order)))
                    =~= order_views(old(self).orders@).update(order_id as int, final(order)@));
            }
            Ok(order)
        } else {
            Err(Qual2016ScoringError::UnknownOrder { order_id })
        }
    }
}

/// The catalog gives each product the id of its position.
pub open spec fn catalog_listed(products: Seq<Product>) -> bool {
    &&& products.len() <= 0xffff
    &&& forall|i: int| 0 <= i < products.len() ==> (#[trigger] products[i]).id == i
}

/// Each warehouse has the id of its position and lists `number_of_products`
/// products, with at most 65535 items of each.
pub open spec fn warehouses_listed(warehouses: Seq<WarehouseView>, number_of_products: nat) -> bool {
    &&& warehouses.len() <= 0xffff
    &&& forall|i: int|
        0 <= i < warehouses.len() ==> {
            &&& (#[trigger] warehouses[i]).id == i
            &&& warehouses[i].inventory.len() == number_of_products
        }
    &&& forall|i: int, p: int|
        0 <= i < warehouses.len() && 0 <= p < warehouses[i].inventory.len() ==> 0
            <= #[trigger] warehouses[i].inventory[p] <= 0xffff
}

/// Each order has the id of its position.
pub open spec fn orders_listed(orders: Seq<OrderView>) -> bool {
    &&& orders.len() <= 0xffff
    &&& forall|i: int| 0 <= i < orders.len() ==> (#[trigger] orders[i]).id == i
}

/// A world as plain values: the map, the catalog, the warehouses and orders
/// as they are before any drone moves, the fleet and the turn budget.
pub struct CaseView {
    pub map: MapSize,
    pub warehouses: Seq<WarehouseView>,
    pub total_turns: Turn,
    pub number_of_drones: DroneID,
    pub max_payload: Weight,
    pub orders: Seq<OrderView>,
    pub products: Seq<Product>,
}

impl CaseView {
    /// Ids are positions, every warehouse lists every product of the catalog,
    /// and all counts are those that the text format can write.
    pub open spec fn wf(self) -> bool {
        &&& catalog_listed(self.products)
        &&& warehouses_listed(self.warehouses, self.products.len())
        &&& orders_listed(self.orders)
    }

    /// Drones start at the first warehouse: a world with drones has one.
    pub open spec fn has_launch_site(self) -> bool {
        self.number_of_drones > 0 ==> self.warehouses.len() > 0
    }

    /// Where every drone starts.
    pub open spec fn launch_site(self) -> Location
        recommends
            self.warehouses.len() > 0,
    {
        self.warehouses[0].location
    }

    /// The warehouses and orders at the start of a run.
    pub open spec fn earth(self) -> EarthView {
        EarthView { warehouses: self.warehouses, orders: self.orders }
    }

    /// The catalog entry that `product_id` names.
    pub open spec fn product(self, product_id: ProductID) -> Result<Product, Qual2016ScoringError> {
        if product_id < self.products.len() {
            Ok(self.products[product_id as int])
        } else {
            Err(Qual2016ScoringError::UnknownProduct { product_id })
        }
    }

    /// Weight of one item of `product_id`; nothing for a product that the
    /// catalog does not list.
    pub open spec fn weight_of(self, product_id: ProductID) -> int {
        if product_id < self.products.len() {
            self.products[product_id as int].weight as int
        } else {
            0
        }
    }
}

/// A world: read once, then shared by every run that is scored against it.
pub struct Case {
    pub(crate) _map: MapSize,
    pub(crate) warehouses: Vec<Warehouse>,
    pub(crate) total_turns: Turn,
    pub(crate) number_of_drones: DroneID,
    pub(crate) max_payload: Weight,
    pub(crate) orders: Vec<Order>,
    pub(crate) products: Vec<Product>,
}

impl View for Case {
    type V = CaseView;

    open(crate) spec fn view(&self) -> CaseView {
        CaseView {
            map: self._map,
            warehouses: warehouse_views(self.warehouses@),
            total_turns: self.total_turns,
            number_of_drones: self.number_of_drones,
            max_payload: self.max_payload,
            orders: order_views(self.orders@),
            products: self.products@,
        }
    }
}

impl Case {
    pub open spec fn wf(&self) -> bool {
        self@.wf()
    }

    /// Reads a world description.
    pub fn parse(input: &str) -> (r: Result<Case, ScoringError>)
        ensures
            match spec_input_file(input.spec_bytes()) {
                Ok((_, case)) => r matches Ok(c) && c@ == case && c.wf(),
                Err(e) => r matches Err(re) && re == ScoringError::InputFileError(e),
            },
    {
        match parse_input_file(input) {
            Ok((_, case)) => Ok(case),
            Err(e) => Err(ScoringError::InputFileError(e)),
        }
    }

    /// Whether the drones of this world have a place to start from.
    pub fn can_launch(&self) -> (can: bool)
        ensures
            can == self@.has_launch_site(),
    {
        self.number_of_drones == 0 || self.warehouses.len() > 0
    }

    /// A fresh copy of the warehouses and orders, for one run to change.
    pub fn get_earth_bound(&self) -> (earth: Earth)
        ensures
            earth@ == self@.earth(),
    {
        let mut warehouses: Vec<Warehouse> = Vec::new();
        let mut i: usize = 0;
        while i < self.warehouses.len()
            invariant
                0 <= i <= self.warehouses.len(),
                warehouses.len() == i,
                forall|j: int| 0 <= j < i ==> warehouses[j]@ == self.warehouses[j]@,
            decreases self.warehouses.len() - i,
        {
            warehouses.push(self.warehouses[i].clone());
            i = i + 1;
        }
        let mut orders: Vec<Order> = Vec::new();
        let mut k: usize = 0;
        while k < self.orders.len()
            invariant
                0 <= k <= self.orders.len(),
                orders.len() == k,
                forall|j: int| 0 <= j < k ==> orders[j]@ == self.orders[j]@,
            decreases self.orders.len() - k,
        {
            orders.push(self.orders[k].clone());
            k = k + 1;
        }
        let earth = Earth { warehouses, orders };
        assert(earth@.warehouses =~= self@.warehouses);
        assert(earth@.orders =~= self@.orders);
        earth
    }

    pub fn get_product(&self, product_id: ProductID) -> (r: Result<&Product, Qual2016ScoringError>)
        ensures
            match self@.product(product_id) {
                Ok(product) => r is Ok && *r->Ok_0 == product,
                Err(e) => r is Err && r->Err_0 == e,
            },
    {
        if (product_id as usize) < self.products.len() {
            Ok(&self.products[product_id as usize])
        } else {
            Err(Qual2016ScoringError::UnknownProduct { product_id })
        }
    }

    pub fn map(&self) -> (map: MapSize)
        ensures
            map == self@.map,
    {
        self._map
    }

    pub fn total_turns(&self) -> (turns: Turn)
        ensures
            turns == self@.total_turns,
    {
        self.total_turns
    }

    pub fn number_of_drones(&self) -> (drones: DroneID)
        ensures
            drones == self@.number_of_drones,
    {
        self.number_of_drones
    }

    pub fn max_payload(&self) -> (weight: Weight)
        ensures
            weight == self@.max_payload,
    {
        self.max_payload
    }

    pub fn warehouses(&self) -> (warehouses: &Vec<Warehouse>)
        ensures
            warehouse_views(warehouses@) == self@.warehouses,
    {
        &self.warehouses
    }

    pub fn orders(&self) -> (orders: &Vec<Order>)
        ensures
            order_views(orders@) == self@.orders,
    {
        &self.orders
    }

    pub fn products(&self) -> (products: &Vec<Product>)
        ensures
            products@ == self@.products,
    {
        &self.products
    }
}

} // verus!
