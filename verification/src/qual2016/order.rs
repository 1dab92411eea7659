//! Customer orders: the items that are still to be delivered.

use vstd::prelude::*;
use itertools::Itertools;
use super::error::{OrderID, ProductID, Qual2016ScoringError, WarehouseProductInventory};
use super::geometry::Location;

verus! {

/// Number of times `product_id` occurs in `products`.
pub open spec fn count_of(products: Seq<ProductID>, product_id: ProductID) -> nat
    decreases products.len(),
{
    if products.len() == 0 {
        0
    } else {
        count_of(products.drop_first(), product_id) + if products[0] == product_id {
            1nat
        } else {
            0nat
        }
    }
}

/// `products` without the first `n` occurrences of `product_id` (without all
/// of them, where there are fewer).
pub open spec fn without_first(products: Seq<ProductID>, product_id: ProductID, n: nat) -> Seq<
    ProductID,
>
    decreases products.len(),
{
    if n == 0 || products.len() == 0 {
        products
    } else if products[0] == product_id {
        without_first(products.drop_first(), product_id, (n - 1) as nat)
    } else {
        seq![products[0]] + without_first(products.drop_first(), product_id, n)
    }
}

/// `i` is where `product_id` first occurs in `products`.
pub open spec fn is_first_position(products: Seq<ProductID>, product_id: ProductID, i: int) -> bool {
    &&& 0 <= i < products.len()
    &&& products[i] == product_id
    &&& forall|j: int| 0 <= j < i ==> products[j] != product_id
}

/// A product that does not occur is counted zero times.
pub proof fn lemma_count_of_absent(products: Seq<ProductID>, product_id: ProductID)
    requires
        forall|j: int| 0 <= j < products.len() ==> products[j] != product_id,
    ensures
        count_of(products, product_id) == 0,
    decreases products.len(),
{
    if products.len() > 0 {
        let rest = products.drop_first();
        assert forall|j: int| 0 <= j < rest.len() implies rest[j] != product_id by {
            assert(rest[j] == products[j + 1]);
        }
        lemma_count_of_absent(rest, product_id);
    }
}

/// Taking out the first occurrence is the first step of taking out the first
/// `n`. It lowers the count of that product by one and no other count.
pub proof fn lemma_remove_first_position(
    products: Seq<ProductID>,
    product_id: ProductID,
    i: int,
    n: nat,
    other: ProductID,
)
    requires
        is_first_position(products, product_id, i),
        n >= 1,
    ensures
        without_first(products, product_id, n) == without_first(
            products.remove(i),
            product_id,
            (n - 1) as nat,
        ),
        count_of(products.remove(i), other) == count_of(products, other) - if other
            == product_id {
            1int
        } else {
            0int
        },
    decreases i,
{
    let rest = products.drop_first();
    if i == 0 {
        assert(products.remove(0) =~= rest);
    } else {
        assert forall|j: int| 0 <= j < i - 1 implies rest[j] != product_id by {
            assert(rest[j] == products[j + 1]);
        }
        assert(rest[i - 1] == products[i]);
        lemma_remove_first_position(rest, product_id, i - 1, n, other);
        let removed = products.remove(i);
        assert(removed.drop_first() =~= rest.remove(i - 1));
        assert(removed[0] == products[0]);
        if n - 1 == 0 {
            assert(seq![products[0]] + rest.remove(i - 1) =~= removed);
        }
    }
}

/// Where enough occurrences are there, taking out the first `n` shortens the
/// sequence by `n`, lowers the count of that product by `n`, and keeps every
/// other count.
pub proof fn lemma_without_first_counts(
    products: Seq<ProductID>,
    product_id: ProductID,
    n: nat,
    other: ProductID,
)
    requires
        n <= count_of(products, product_id),
    ensures
        without_first(products, product_id, n).len() == products.len() - n,
        count_of(without_first(products, product_id, n), other) == count_of(products, other)
            - if other == product_id {
            n as int
        } else {
            0int
        },
    decreases products.len(),
{
    if n == 0 || products.len() == 0 {
    } else {
        let rest = products.drop_first();
        if products[0] == product_id {
            lemma_without_first_counts(rest, product_id, (n - 1) as nat, other);
        } else {
            lemma_without_first_counts(rest, product_id, n, other);
            let tail = without_first(rest, product_id, n);
            let whole = seq![products[0]] + tail;
            assert(whole.drop_first() =~= tail);
            assert(whole[0] == products[0]);
        }
    }
}

/// What a customer order is, as plain values.
pub struct OrderView {
    pub id: OrderID,
    pub location: Location,
    /// The items still to be delivered, one product id each.
    pub products: Seq<ProductID>,
}

impl OrderView {
    /// Nothing is left to deliver.
    pub open spec fn is_done(self) -> bool {
        self.products.len() == 0
    }

    /// The order after `number_of_items` of `product_id` have arrived, or the
    /// failure where it wants fewer.
    pub open spec fn supply(
        self,
        product_id: ProductID,
        number_of_items: WarehouseProductInventory,
    ) -> Result<OrderView, Qual2016ScoringError> {
        if count_of(self.products, product_id) < number_of_items {
            Err(Qual2016ScoringError::OverSupplyingOrder { order_id: self.id })
        } else {
            Ok(
                OrderView {
                    products: without_first(self.products, product_id, number_of_items as nat),
                    ..self
                },
            )
        }
    }
}

/// A customer order: where it goes, and the items it still wants.
#[derive(Debug)]
pub struct Order {
    pub id: OrderID,
    pub location: Location,
    pub products: Vec<ProductID>,
}

impl View for Order {
    type V = OrderView;

    open spec fn view(&self) -> OrderView {
        OrderView { id: self.id, location: self.location, products: self.products@ }
    }
}

fn same_product(candidate: ProductID, wanted: ProductID) -> (same: bool)
    ensures
        same == (candidate == wanted),
{
    candidate == wanted
}

/// `Itertools::find_position` on the items of an order, with the test that an
/// item is the wanted product. It walks the items from the front and stops at
/// the first that passes: the result is that item's index, or `None` where no
/// item passes.
#[verifier::external_body]
fn find_product(products: &Vec<ProductID>, product_id: ProductID) -> (found: Option<usize>)
    ensures
        match found {
            Some(i) => is_first_position(products@, product_id, i as int),
            None => forall|j: int| 0 <= j < products@.len() ==> products@[j] != product_id,
        },
{
    products.iter().find_position(|item| same_product(**item, product_id)).map(|(index, _)| index)
}

impl Order {
    /// Number of items of `product_id` that the order still wants.
    pub fn wanted(&self, product_id: ProductID) -> (n: usize)
        ensures
            n == count_of(self.products@, product_id),
    {
        let mut n: usize = 0;
        let mut i: usize = self.products.len();
        assert(self.products@.skip(i as int) =~= Seq::<ProductID>::empty());
        while i > 0
            invariant
                0 <= i <= self.products.len(),
                n == count_of(self.products@.skip(i as int), product_id),
                n <= self.products.len() - i,
            decreases i,
        {
            i = i - 1;
            assert(self.products@.skip(i as int).drop_first() =~= self.products@.skip(i + 1));
            if self.products[i] == product_id {
                n = n + 1;
            }
        }
        assert(self.products@.skip(0) =~= self.products@);
        n
    }

    /// Takes `number_of_items` of `product_id` off the order, the first
    /// occurrences first. Where the order wants fewer, nothing is taken.
    pub fn supply(
        &mut self,
        product_id: ProductID,
        number_of_items: WarehouseProductInventory,
    ) -> (r: Result<(), Qual2016ScoringError>)
        ensures
            match old(self)@.supply(product_id, number_of_items) {
                Ok(order) => r is Ok && final(self)@ == order,
                Err(e) => r == Err::<(), Qual2016ScoringError>(e) && *final(self) == *old(self),
            },
            r is Ok ==> final(self).products@.len() == old(self).products@.len() - number_of_items,
    {
        if self.wanted(product_id) < number_of_items as usize {
            return Err(Qual2016ScoringError::OverSupplyingOrder { order_id: self.id });
        }
        proof {
            lemma_without_first_counts(
                self.products@,
                product_id,
                number_of_items as nat,
                product_id,
            );
        }
        let mut left: WarehouseProductInventory = number_of_items;
        while left > 0
            invariant
                self.id == old(self).id,
                self.location == old(self).location,
                left <= count_of(self.products@, product_id),
                without_first(self.products@, product_id, left as nat) == without_first(
                    old(self).products@,
                    product_id,
                    number_of_items as nat,
                ),
            decreases left,
        {
            proof {
                if forall|j: int|
                    0 <= j < self.products@.len() ==> self.products@[j] != product_id {
                    lemma_count_of_absent(self.products@, product_id);
                }
            }
            match find_product(&self.products, product_id) {
                Some(index_to_remove) => {
                    proof {
                        lemma_remove_first_position(
                            self.products@,
                            product_id,
                            index_to_remove as int,
                            left as nat,
                            product_id,
                        );
                    }
                    self.products.remove(index_to_remove);
                    left = left - 1;
                },
                None => {
                    // The order wants `left` more: the product occurs.
                    assert(false);
                },
            }
        }
        Ok(())
    }

    pub fn is_done(&self) -> (done: bool)
        ensures
            done == self@.is_done(),
    {
        self.products.len() == 0
    }
}

impl Clone for Order {
    fn clone(&self) -> (copy: Self)
        ensures
            copy@ == self@,
    {
        let copy = Order { id: self.id, location: self.location, products: self.products.clone() };
        assert(copy.products@ =~= self.products@);
        copy
    }
}

/// The views of a list of orders.
pub open spec fn order_views(orders: Seq<Order>) -> Seq<OrderView> {
    Seq::new(orders.len(), |i: int| orders[i]@)
}

} // verus!
