//! Warehouses and what they have in stock.

use vstd::prelude::*;
use super::error::{
    ProductID, Qual2016ScoringError, Stock, WarehouseID, WarehouseProductInventory,
};
use super::geometry::Location;

verus! {

/// The stock of a warehouse as mathematical integers.
pub open spec fn stock_view(inventory: Seq<Stock>) -> Seq<int> {
    Seq::new(inventory.len(), |i: int| inventory[i] as int)
}

/// What a warehouse is, as plain values.
pub struct WarehouseView {
    pub id: WarehouseID,
    pub location: Location,
    /// Items in stock, by product id.
    pub inventory: Seq<int>,
}

impl WarehouseView {
    /// Items of `product_id` in stock; none of a product the warehouse does
    /// not list.
    pub open spec fn stock(self, product_id: ProductID) -> int {
        if product_id < self.inventory.len() {
            self.inventory[product_id as int]
        } else {
            0
        }
    }

    /// The warehouse after `number_of_products` of `product_id` have left it,
    /// or the failure where it does not list the product or holds fewer.
    pub open spec fn take_out(
        self,
        product_id: ProductID,
        number_of_products: WarehouseProductInventory,
    ) -> Result<WarehouseView, Qual2016ScoringError> {
        if product_id >= self.inventory.len() {
            Err(Qual2016ScoringError::UnknownProduct { product_id })
        } else if self.inventory[product_id as int] < number_of_products {
            Err(Qual2016ScoringError::OverTakingWarehouse { warehouse_id: self.id })
        } else {
            Ok(self.with_stock(product_id, self.inventory[product_id as int] - number_of_products))
        }
    }

    /// The warehouse with the stock of one product set.
    pub open spec fn with_stock(self, product_id: ProductID, stock: int) -> WarehouseView {
        WarehouseView { inventory: self.inventory.update(product_id as int, stock), ..self }
    }

    /// The warehouse after `number_of_products` of `product_id` have come in.
    pub open spec fn insert(
        self,
        product_id: ProductID,
        number_of_products: WarehouseProductInventory,
    ) -> WarehouseView {
        self.with_stock(product_id, self.stock(product_id) + number_of_products)
    }
}

/// A warehouse: where it stands and what it has in stock.
#[derive(Debug)]
pub struct Warehouse {
    pub id: WarehouseID,
    pub location: Location,
    pub inventory: Vec<Stock>,
}

impl View for Warehouse {
    type V = WarehouseView;

    open spec fn view(&self) -> WarehouseView {
        WarehouseView {
            id: self.id,
            location: self.location,
            inventory: stock_view(self.inventory@),
        }
    }
}

impl Clone for Warehouse {
    fn clone(&self) -> (copy: Self)
        ensures
            copy@ == self@,
    {
        let copy = Warehouse {
            id: self.id,
            location: self.location,
            inventory: self.inventory.clone(),
        };
        assert(copy.inventory@ =~= self.inventory@);
        copy
    }
}

impl Warehouse {
    pub fn take_out_product(
        &mut self,
        product_id: ProductID,
        number_of_products: WarehouseProductInventory,
    ) -> (r: Result<(), Qual2016ScoringError>)
        ensures
            match old(self)@.take_out(product_id, number_of_products) {
                Ok(warehouse) => r is Ok && final(self)@ == warehouse,
                Err(e) => r == Err::<(), Qual2016ScoringError>(e) && *final(self) == *old(self),
            },
    {
        if product_id as usize >= self.inventory.len() {
            return Err(Qual2016ScoringError::UnknownProduct { product_id });
        }
        let in_stock: Stock = self.inventory[product_id as usize];
        if in_stock >= number_of_products as Stock {
            self.inventory[product_id as usize] = in_stock - number_of_products as Stock;
            assert(self@.inventory =~= old(self)@.inventory.update(
                product_id as int,
                in_stock - number_of_products,
            ));
            Ok(())
        } else {
            Err(Qual2016ScoringError::OverTakingWarehouse { warehouse_id: self.id })
        }
    }

    pub fn insert_product(
        &mut self,
        prod_id: ProductID,
        number_of_products: WarehouseProductInventory,
    )
        requires
            prod_id < old(self).inventory.len(),
            old(self).inventory[prod_id as int] + number_of_products <= Stock::MAX,
        ensures
            final(self)@ == old(self)@.insert(prod_id, number_of_products),
    {
        let in_stock: Stock = self.inventory[prod_id as usize];
        self.inventory[prod_id as usize] = in_stock + number_of_products as Stock;
        assert(self@.inventory =~= old(self)@.inventory.update(
            prod_id as int,
            in_stock + number_of_products,
        ));
    }
}

/// The views of a list of warehouses.
pub open spec fn warehouse_views(warehouses: Seq<Warehouse>) -> Seq<WarehouseView> {
    Seq::new(warehouses.len(), |i: int| warehouses[i]@)
}

} // verus!
