//! The two text formats: world descriptions and action scripts.
//!
//! Both are made of unsigned decimal numbers and single-letter command tags,
//! each followed by any amount of blank space. A text is read from its first
//! byte, so it may not start with a blank; what follows the last token that
//! the grammar asks for is not looked at.

use vstd::prelude::*;
use vstd::string::StringSliceAdditionalSpecFns;
use super::command::Command;
use super::error::{CommandNumber, DroneID, OrderID, ProductID, Stock, WarehouseID, Weight};
use super::geometry::{Col, Location, MapSize, Row, Turn};
use super::order::{order_views, Order, OrderView};
use super::warehouse::{stock_view, warehouse_views, Warehouse, WarehouseView};
use super::world::{catalog_listed, orders_listed, warehouses_listed, Case, CaseView, Product};

verus! {

/// What the reader wanted to find where it stopped.
#[derive(Copy, Clone, Debug, PartialEq, Eq, Structural)]
pub enum Expected {
    /// A decimal digit, the start of a number.
    Digit,
    /// A number small enough for the field it stands for.
    NumberInRange,
    /// One of the command tags `L`, `U`, `D`, `W`.
    CommandTag,
}

/// A text does not follow its grammar: where, and what was wanted there.
#[derive(Copy, Clone, Debug, PartialEq, Eq, Structural)]
pub struct ParseError {
    /// Offset, in bytes, of the token that is missing or wrong.
    pub offset: usize,
    pub expected: Expected,
}

/// A value read from a text, with the offset at which reading goes on.
pub type Parsed<T> = Result<(usize, T), ParseError>;

pub open spec fn is_digit(byte: u8) -> bool {
    0x30 <= byte <= 0x39
}

/// Space, tab, line feed and carriage return.
pub open spec fn is_blank(byte: u8) -> bool {
    byte == 0x20 || byte == 0x09 || byte == 0x0a || byte == 0x0d
}

/// End of the run of digits that starts at `at`.
pub open spec fn digits_end(s: Seq<u8>, at: int) -> int
    decreases s.len() - at,
{
    if 0 <= at < s.len() && is_digit(s[at]) {
        digits_end(s, at + 1)
    } else {
        at
    }
}

/// End of the run of blanks that starts at `at`.
pub open spec fn blanks_end(s: Seq<u8>, at: int) -> int
    decreases s.len() - at,
{
    if 0 <= at < s.len() && is_blank(s[at]) {
        blanks_end(s, at + 1)
    } else {
        at
    }
}

/// The number that the digits from `from` up to `to` write in base ten.
pub open spec fn decimal_value(s: Seq<u8>, from: int, to: int) -> int
    decreases to - from,
{
    if to <= from {
        0
    } else {
        decimal_value(s, from, to - 1) * 10 + (s[to - 1] - 0x30)
    }
}

/// A number of at least one digit that is at most `limit`.
pub open spec fn spec_decimal_number(s: Seq<u8>, at: usize, limit: u64) -> Parsed<u64> {
    let end = digits_end(s, at as int);
    if end == at {
        Err(ParseError { offset: at, expected: Expected::Digit })
    } else if decimal_value(s, at as int, end) > limit {
        Err(ParseError { offset: at, expected: Expected::NumberInRange })
    } else {
        Ok((end as usize, decimal_value(s, at as int, end) as u64))
    }
}

/// A number and the blanks after it.
pub open spec fn spec_decimal_number_ms(s: Seq<u8>, at: usize, limit: u64) -> Parsed<u64> {
    match spec_decimal_number(s, at, limit) {
        Ok((end, value)) => Ok((blanks_end(s, end as int) as usize, value)),
        Err(e) => Err(e),
    }
}

/// A number of 16 bits and the blanks after it.
pub open spec fn spec_number_u16(s: Seq<u8>, at: usize) -> Parsed<u16> {
    match spec_decimal_number_ms(s, at, 0xffff) {
        Ok((next, value)) => Ok((next, value as u16)),
        Err(e) => Err(e),
    }
}

/// A number of 32 bits and the blanks after it.
pub open spec fn spec_number_u32(s: Seq<u8>, at: usize) -> Parsed<u32> {
    match spec_decimal_number_ms(s, at, 0xffff_ffff) {
        Ok((next, value)) => Ok((next, value as u32)),
        Err(e) => Err(e),
    }
}

/// The first `count` of a row of 16-bit numbers that starts at `at`.
pub open spec fn spec_numbers(s: Seq<u8>, at: usize, count: nat) -> Parsed<Seq<u16>>
    decreases count,
{
    if count == 0 {
        Ok((at, Seq::empty()))
    } else {
        match spec_numbers(s, at, (count - 1) as nat) {
            Err(e) => Err(e),
            Ok((mid, values)) => match spec_number_u16(s, mid) {
                Err(e) => Err(e),
                Ok((next, value)) => Ok((next, values.push(value))),
            },
        }
    }
}

/// Once a row of numbers has failed, asking for more of it fails the same way.
pub proof fn lemma_numbers_failure_stays(s: Seq<u8>, at: usize, failed: nat, count: nat)
    requires
        spec_numbers(s, at, failed) is Err,
        failed <= count,
    ensures
        spec_numbers(s, at, count) == spec_numbers(s, at, failed),
    decreases count,
{
    if failed < count {
        lemma_numbers_failure_stays(s, at, failed, (count - 1) as nat);
    }
}

proof fn lemma_digits_end_bounds(s: Seq<u8>, at: int)
    requires
        0 <= at <= s.len(),
    ensures
        at <= digits_end(s, at) <= s.len(),
        forall|j: int| at <= j < digits_end(s, at) ==> is_digit(s[j]),
    decreases s.len() - at,
{
    if at < s.len() && is_digit(s[at]) {
        lemma_digits_end_bounds(s, at + 1);
    }
}

proof fn lemma_decimal_value_grows(s: Seq<u8>, from: int, mid: int, to: int)
    requires
        0 <= from <= mid <= to <= s.len(),
        forall|j: int| from <= j < to ==> is_digit(s[j]),
    ensures
        0 <= decimal_value(s, from, mid) <= decimal_value(s, from, to),
    decreases to - from,
{
    if mid < to {
        lemma_decimal_value_grows(s, from, mid, to - 1);
    } else if from < mid {
        lemma_decimal_value_grows(s, from, mid - 1, to - 1);
    }
}

pub fn is_digit_byte(byte: u8) -> (digit: bool)
    ensures
        digit == is_digit(byte),
{
    0x30 <= byte && byte <= 0x39
}

pub fn is_blank_byte(byte: u8) -> (blank: bool)
    ensures
        blank == is_blank(byte),
{
    byte == 0x20 || byte == 0x09 || byte == 0x0a || byte == 0x0d
}

/// Skips the blanks that start at `at`.
pub fn multispace0(input: &[u8], at: usize) -> (next: usize)
    ensures
        next == blanks_end(input@, at as int),
        at <= next,
        at <= input.len() ==> next <= input.len(),
{
    let mut i: usize = at;
    while i < input.len() && is_blank_byte(input[i])
        invariant
            at <= i,
            at <= input.len() ==> i <= input.len(),
            blanks_end(input@, at as int) == blanks_end(input@, i as int),
        decreases input.len() - i,
    {
        i = i + 1;
    }
    i
}

/// Reads the number that starts at `at`: one digit or more, with a value of at
/// most `limit`.
pub fn decimal_number(input: &[u8], at: usize, limit: u64) -> (r: Parsed<u64>)
    ensures
        r == spec_decimal_number(input@, at, limit),
        r matches Ok((next, value)) ==> at < next <= input.len() && value <= limit,
{
    let mut i: usize = at;
    let mut value: u64 = 0;
    let mut fits: bool = true;
    proof {
        if at <= input.len() {
            lemma_digits_end_bounds(input@, at as int);
        }
    }
    while i < input.len() && is_digit_byte(input[i])
        invariant
            at <= i,
            at <= input.len() ==> i <= input.len(),
            digits_end(input@, at as int) == digits_end(input@, i as int),
            forall|j: int| at <= j < i ==> is_digit(input@[j]),
            fits ==> value == decimal_value(input@, at as int, i as int) && value <= limit,
            !fits ==> decimal_value(input@, at as int, i as int) > limit,
        decreases input.len() - i,
    {
        let digit: u64 = (input[i] - 0x30) as u64;
        proof {
            lemma_decimal_value_grows(input@, at as int, i as int, i as int);
        }
        if fits {
            if value > limit / 10 || (value == limit / 10 && digit > limit % 10) {
                fits = false;
            } else {
                value = value * 10 + digit;
            }
        }
        i = i + 1;
    }
    if i == at {
        Err(ParseError { offset: at, expected: Expected::Digit })
    } else if !fits {
        Err(ParseError { offset: at, expected: Expected::NumberInRange })
    } else {
        Ok((i, value))
    }
}

/// Reads a number and the blanks after it.
pub fn decimal_number_ms(input: &[u8], at: usize, limit: u64) -> (r: Parsed<u64>)
    ensures
        r == spec_decimal_number_ms(input@, at, limit),
        r matches Ok((next, value)) ==> at < next <= input.len() && value <= limit,
{
    match decimal_number(input, at, limit) {
        Ok((end, value)) => Ok((multispace0(input, end), value)),
        Err(e) => Err(e),
    }
}

pub fn number_u16(input: &[u8], at: usize) -> (r: Parsed<u16>)
    ensures
        r == spec_number_u16(input@, at),
        r matches Ok((next, _)) ==> at < next <= input.len(),
{
    match decimal_number_ms(input, at, 0xffff) {
        Ok((next, value)) => Ok((next, value as u16)),
        Err(e) => Err(e),
    }
}

pub fn number_u32(input: &[u8], at: usize) -> (r: Parsed<u32>)
    ensures
        r == spec_number_u32(input@, at),
        r matches Ok((next, _)) ==> at < next <= input.len(),
{
    match decimal_number_ms(input, at, 0xffff_ffff) {
        Ok((next, value)) => Ok((next, value as u32)),
        Err(e) => Err(e),
    }
}

/// Reads exactly `count` numbers of 16 bits.
pub fn numbers(input: &[u8], at: usize, count: usize) -> (r: Parsed<Vec<u16>>)
    ensures
        match spec_numbers(input@, at, count as nat) {
            Ok((next, values)) => r matches Ok((n, v)) && n == next && v@ == values,
            Err(e) => r matches Err(re) && re == e,
        },
        r matches Ok((_, v)) ==> v.len() == count,
{
    let mut values: Vec<u16> = Vec::new();
    let mut next: usize = at;
    let mut i: usize = 0;
    while i < count
        invariant
            0 <= i <= count,
            values.len() == i,
            spec_numbers(input@, at, i as nat) == Ok::<(usize, Seq<u16>), ParseError>(
                (next, values@),
            ),
        decreases count - i,
    {
        match number_u16(input, next) {
            Ok((after, value)) => {
                values.push(value);
                next = after;
            },
            Err(e) => {
                proof {
                    lemma_numbers_failure_stays(input@, at, (i + 1) as nat, count as nat);
                }
                return Err(e);
            },
        }
        i = i + 1;
    }
    Ok((next, values))
}

/// The head of a world description: rows, columns, drones, turns, and the
/// weight a drone can carry.
pub open spec fn spec_first_line(s: Seq<u8>, at: usize) -> Parsed<(Row, Col, DroneID, Turn, Weight)> {
    match spec_number_u16(s, at) {
        Err(e) => Err(e),
        Ok((a, rows)) => match spec_number_u16(s, a) {
            Err(e) => Err(e),
            Ok((b, cols)) => match spec_number_u16(s, b) {
                Err(e) => Err(e),
                Ok((c, drones)) => match spec_number_u32(s, c) {
                    Err(e) => Err(e),
                    Ok((d, turns)) => match spec_number_u16(s, d) {
                        Err(e) => Err(e),
                        Ok((next, max_payload)) => Ok(
                            (next, (rows, cols, drones, turns, max_payload)),
                        ),
                    },
                },
            },
        },
    }
}

pub fn first_line(input: &[u8], at: usize) -> (r: Parsed<(Row, Col, DroneID, Turn, Weight)>)
    ensures
        r == spec_first_line(input@, at),
{
    let (at, rows) = number_u16(input, at)?;
    let (at, cols) = number_u16(input, at)?;
    let (at, drones) = number_u16(input, at)?;
    let (at, turns) = number_u32(input, at)?;
    let (at, max_payload) = number_u16(input, at)?;
    Ok((at, (rows, cols, drones, turns, max_payload)))
}

/// The catalog that lists `weights` in their order.
pub open spec fn catalog(weights: Seq<Weight>) -> Seq<Product> {
    Seq::new(weights.len(), |i: int| Product { id: i as ProductID, weight: weights[i] })
}

/// The catalog: the number of products, then the weight of each.
pub open spec fn spec_products(s: Seq<u8>, at: usize) -> Parsed<Seq<Product>> {
    match spec_number_u16(s, at) {
        Err(e) => Err(e),
        Ok((a, count)) => match spec_numbers(s, a, count as nat) {
            Err(e) => Err(e),
            Ok((next, weights)) => Ok((next, catalog(weights))),
        },
    }
}

pub fn products(input: &[u8], at: usize) -> (r: Parsed<Vec<Product>>)
    ensures
        match spec_products(input@, at) {
            Ok((next, listed)) => r matches Ok((n, v)) && n == next && v@ == listed,
            Err(e) => r matches Err(re) && re == e,
        },
        r matches Ok((_, v)) ==> catalog_listed(v@),
{
    let (at, number_of_products) = number_u16(input, at)?;
    let (at, weights) = numbers(input, at, number_of_products as usize)?;
    let mut listed: Vec<Product> = Vec::new();
    let mut i: usize = 0;
    while i < weights.len()
        invariant
            0 <= i <= weights.len(),
            weights.len() <= 0xffff,
            listed.len() == i,
            forall|j: int|
                0 <= j < i ==> listed[j] == (Product { id: j as ProductID, weight: weights[j] }),
        decreases weights.len() - i,
    {
        listed.push(Product { id: i as ProductID, weight: weights[i] });
        i = i + 1;
    }
    assert(listed@ =~= catalog(weights@));
    Ok((at, listed))
}

/// A cell: its row, then its column.
pub open spec fn spec_location(s: Seq<u8>, at: usize) -> Parsed<Location> {
    match spec_number_u16(s, at) {
        Err(e) => Err(e),
        Ok((a, row)) => match spec_number_u16(s, a) {
            Err(e) => Err(e),
            Ok((next, col)) => Ok((next, Location { row, col })),
        },
    }
}

pub fn location(input: &[u8], at: usize) -> (r: Parsed<Location>)
    ensures
        r == spec_location(input@, at),
{
    let (at, row) = number_u16(input, at)?;
    let (at, col) = number_u16(input, at)?;
    Ok((at, Location { row, col }))
}

/// Numbers as mathematical integers.
pub open spec fn as_ints(values: Seq<u16>) -> Seq<int> {
    Seq::new(values.len(), |i: int| values[i] as int)
}

/// The stock of a warehouse: one count for each product of the catalog.
pub open spec fn spec_inventory(s: Seq<u8>, at: usize, number_of_products: ProductID) -> Parsed<
    Seq<int>,
> {
    match spec_numbers(s, at, number_of_products as nat) {
        Err(e) => Err(e),
        Ok((next, counts)) => Ok((next, as_ints(counts))),
    }
}

pub fn inventory_of_size(input: &[u8], at: usize, number_of_products: ProductID) -> (r: Parsed<
    Vec<Stock>,
>)
    ensures
        match spec_inventory(input@, at, number_of_products) {
            Ok((next, stock)) => r matches Ok((n, v)) && n == next && stock_view(v@) == stock,
            Err(e) => r matches Err(re) && re == e,
        },
        r matches Ok((_, v)) ==> v.len() == number_of_products && forall|p: int|
            0 <= p < v.len() ==> v[p] <= 0xffff,
{
    let (at, counts) = numbers(input, at, number_of_products as usize)?;
    let mut stock: Vec<Stock> = Vec::new();
    let mut i: usize = 0;
    while i < counts.len()
        invariant
            0 <= i <= counts.len(),
            stock.len() == i,
            forall|j: int| 0 <= j < i ==> stock[j] == counts[j],
        decreases counts.len() - i,
    {
        stock.push(counts[i] as Stock);
        i = i + 1;
    }
    assert(stock_view(stock@) =~= as_ints(counts@));
    Ok((at, stock))
}

/// One warehouse: its cell, then its stock.
pub open spec fn spec_warehouse(
    s: Seq<u8>,
    at: usize,
    number_of_products: ProductID,
    id: WarehouseID,
) -> Parsed<WarehouseView> {
    match spec_location(s, at) {
        Err(e) => Err(e),
        Ok((a, location)) => match spec_inventory(s, a, number_of_products) {
            Err(e) => Err(e),
            Ok((next, inventory)) => Ok((next, WarehouseView { id, location, inventory })),
        },
    }
}

/// The first `count` of a row of warehouses that starts at `at`.
pub open spec fn spec_warehouses_upto(
    s: Seq<u8>,
    at: usize,
    number_of_products: ProductID,
    count: nat,
) -> Parsed<Seq<WarehouseView>>
    decreases count,
{
    if count == 0 {
        Ok((at, Seq::empty()))
    } else {
        match spec_warehouses_upto(s, at, number_of_products, (count - 1) as nat) {
            Err(e) => Err(e),
            Ok((mid, listed)) => match spec_warehouse(
                s,
                mid,
                number_of_products,
                (count - 1) as WarehouseID,
            ) {
                Err(e) => Err(e),
                Ok((next, warehouse)) => Ok((next, listed.push(warehouse))),
            },
        }
    }
}

/// The warehouses: their number, then each of them.
pub open spec fn spec_warehouses(s: Seq<u8>, at: usize, number_of_products: ProductID) -> Parsed<
    Seq<WarehouseView>,
> {
    match spec_number_u16(s, at) {
        Err(e) => Err(e),
        Ok((a, count)) => spec_warehouses_upto(s, a, number_of_products, count as nat),
    }
}

/// Once a row of warehouses has failed, asking for more of it fails the same
/// way.
pub proof fn lemma_warehouses_failure_stays(
    s: Seq<u8>,
    at: usize,
    number_of_products: ProductID,
    failed: nat,
    count: nat,
)
    requires
        spec_warehouses_upto(s, at, number_of_products, failed) is Err,
        failed <= count,
    ensures
        spec_warehouses_upto(s, at, number_of_products, count) == spec_warehouses_upto(
            s,
            at,
            number_of_products,
            failed,
        ),
    decreases count,
{
    if failed < count {
        lemma_warehouses_failure_stays(s, at, number_of_products, failed, (count - 1) as nat);
    }
}

fn one_warehouse(input: &[u8], at: usize, inventory_size: ProductID, id: WarehouseID) -> (r:
    Parsed<Warehouse>)
    ensures
        match spec_warehouse(input@, at, inventory_size, id) {
            Ok((next, warehouse)) => r matches Ok((n, w)) && n == next && w@ == warehouse,
            Err(e) => r matches Err(re) && re == e,
        },
        r matches Ok((_, w)) ==> w.inventory.len() == inventory_size && forall|p: int|
            0 <= p < w.inventory.len() ==> w.inventory[p] <= 0xffff,
{
    let (at, location) = location(input, at)?;
    let (at, inventory) = inventory_of_size(input, at, inventory_size)?;
    Ok((at, Warehouse { id, location, inventory }))
}

pub fn warehouses_with_inventory_size(input: &[u8], at: usize, inventory_size: ProductID) -> (r:
    Parsed<Vec<Warehouse>>)
    ensures
        match spec_warehouses(input@, at, inventory_size) {
            Ok((next, listed)) => r matches Ok((n, v)) && n == next && warehouse_views(v@)
                == listed,
            Err(e) => r matches Err(re) && re == e,
        },
        r matches Ok((_, v)) ==> warehouses_listed(warehouse_views(v@), inventory_size as nat),
{
    let (start, number_of_warehouses) = number_u16(input, at)?;
    let mut listed: Vec<Warehouse> = Vec::new();
    let mut next: usize = start;
    let mut i: usize = 0;
    assert(warehouse_views(listed@) =~= Seq::<WarehouseView>::empty());
    while i < number_of_warehouses as usize
        invariant
            0 <= i <= number_of_warehouses,
            spec_number_u16(input@, at) == Ok::<(usize, u16), ParseError>(
                (start, number_of_warehouses),
            ),
            listed.len() == i,
            spec_warehouses_upto(input@, start, inventory_size, i as nat) == Ok::<
                (usize, Seq<WarehouseView>),
                ParseError,
            >((next, warehouse_views(listed@))),
            forall|j: int|
                0 <= j < i ==> {
                    &&& (#[trigger] listed[j]).id == j
                    &&& listed[j].inventory.len() == inventory_size
                    &&& forall|p: int|
                        0 <= p < listed[j].inventory.len() ==> listed[j].inventory[p] <= 0xffff
                },
        decreases number_of_warehouses - i,
    {
        match one_warehouse(input, next, inventory_size, i as WarehouseID) {
            Ok((after, warehouse)) => {
                proof {
                    assert(warehouse_views(listed@.push(warehouse)) =~= warehouse_views(
                        listed@,
                    ).push(warehouse@));
                }
                listed.push(warehouse);
                next = after;
            },
            Err(e) => {
                proof {
                    assert(spec_warehouses_upto(input@, start, inventory_size, (i + 1) as nat)
                        == Err::<(usize, Seq<WarehouseView>), ParseError>(e));
                    lemma_warehouses_failure_stays(
                        input@,
                        start,
                        inventory_size,
                        (i + 1) as nat,
                        number_of_warehouses as nat,
                    );
                }
                return Err(e);
            },
        }
        i = i + 1;
    }
    proof {
        let views = warehouse_views(listed@);
        assert forall|j: int, p: int|
            0 <= j < views.len() && 0 <= p < views[j].inventory.len() implies 0
            <= #[trigger] views[j].inventory[p] <= 0xffff by {
            assert(views[j].inventory[p] == listed[j].inventory[p]);
        }
    }
    Ok((next, listed))
}

/// The body of one order: its cell, the number of its items, then the product
/// of each item.
pub open spec fn spec_order_loc_and_prods(s: Seq<u8>, at: usize) -> Parsed<
    (Location, Seq<ProductID>),
> {
    match spec_location(s, at) {
        Err(e) => Err(e),
        Ok((a, location)) => match spec_number_u16(s, a) {
            Err(e) => Err(e),
            Ok((b, count)) => match spec_numbers(s, b, count as nat) {
                Err(e) => Err(e),
                Ok((next, items)) => Ok((next, (location, items))),
            },
        },
    }
}

pub fn one_order_loc_and_prods(input: &[u8], at: usize) -> (r: Parsed<(Location, Vec<ProductID>)>)
    ensures
        match spec_order_loc_and_prods(input@, at) {
            Ok((next, (location, items))) => r matches Ok((n, (l, v))) && n == next && l
                == location && v@ == items,
            Err(e) => r matches Err(re) && re == e,
        },
{
    let (at, ord_location) = location(input, at)?;
    let (at, number_of_items) = number_u16(input, at)?;
    let (at, items) = numbers(input, at, number_of_items as usize)?;
    Ok((at, (ord_location, items)))
}

/// The first `count` of a row of orders that starts at `at`.
pub open spec fn spec_orders_upto(s: Seq<u8>, at: usize, count: nat) -> Parsed<Seq<OrderView>>
    decreases count,
{
    if count == 0 {
        Ok((at, Seq::empty()))
    } else {
        match spec_orders_upto(s, at, (count - 1) as nat) {
            Err(e) => Err(e),
            Ok((mid, listed)) => match spec_order_loc_and_prods(s, mid) {
                Err(e) => Err(e),
                Ok((next, (location, products))) => Ok(
                    (
                        next,
                        listed.push(
                            OrderView { id: (count - 1) as OrderID, location, products },
                        ),
                    ),
                ),
            },
        }
    }
}

/// The orders: their number, then each of them.
pub open spec fn spec_orders(s: Seq<u8>, at: usize) -> Parsed<Seq<OrderView>> {
    match spec_number_u16(s, at) {
        Err(e) => Err(e),
        Ok((a, count)) => spec_orders_upto(s, a, count as nat),
    }
}

/// Once a row of orders has failed, asking for more of it fails the same way.
pub proof fn lemma_orders_failure_stays(s: Seq<u8>, at: usize, failed: nat, count: nat)
    requires
        spec_orders_upto(s, at, failed) is Err,
        failed <= count,
    ensures
        spec_orders_upto(s, at, count) == spec_orders_upto(s, at, failed),
    decreases count,
{
    if failed < count {
        lemma_orders_failure_stays(s, at, failed, (count - 1) as nat);
    }
}

pub fn orders(input: &[u8], at: usize) -> (r: Parsed<Vec<Order>>)
    ensures
        match spec_orders(input@, at) {
            Ok((next, listed)) => r matches Ok((n, v)) && n == next && order_views(v@) == listed,
            Err(e) => r matches Err(re) && re == e,
        },
        r matches Ok((_, v)) ==> orders_listed(order_views(v@)),
{
    let (start, number_of_orders) = number_u16(input, at)?;
    let mut listed: Vec<Order> = Vec::new();
    let mut next: usize = start;
    let mut i: usize = 0;
    assert(order_views(listed@) =~= Seq::<OrderView>::empty());
    while i < number_of_orders as usize
        invariant
            0 <= i <= number_of_orders,
            spec_number_u16(input@, at) == Ok::<(usize, u16), ParseError>(
                (start, number_of_orders),
            ),
            listed.len() == i,
            spec_orders_upto(input@, start, i as nat) == Ok::<
                (usize, Seq<OrderView>),
                ParseError,
            >((next, order_views(listed@))),
            forall|j: int| 0 <= j < i ==> (#[trigger] listed[j]).id == j,
        decreases number_of_orders - i,
    {
        match one_order_loc_and_prods(input, next) {
            Ok((after, (location, products))) => {
                let order = Order { id: i as OrderID, location, products };
                proof {
                    assert(order_views(listed@.push(order)) =~= order_views(listed@).push(
                        order@,
                    ));
                }
                listed.push(order);
                next = after;
            },
            Err(e) => {
                proof {
                    assert(spec_orders_upto(input@, start, (i + 1) as nat) == Err::<
                        (usize, Seq<OrderView>),
                        ParseError,
                    >(e));
                    lemma_orders_failure_stays(
                        input@,
                        start,
                        (i + 1) as nat,
                        number_of_orders as nat,
                    );
                }
                return Err(e);
            },
        }
        i = i + 1;
    }
    Ok((next, listed))
}

/// A whole world description: the head, the catalog, the warehouses, the
/// orders.
pub open spec fn spec_input_file(s: Seq<u8>) -> Parsed<CaseView> {
    match spec_first_line(s, 0) {
        Err(e) => Err(e),
        Ok((a, (rows, cols, drones, turns, max_payload))) => match spec_products(s, a) {
            Err(e) => Err(e),
            Ok((b, products)) => match spec_warehouses(s, b, products.len() as ProductID) {
                Err(e) => Err(e),
                Ok((c, warehouses)) => match spec_orders(s, c) {
                    Err(e) => Err(e),
                    Ok((next, orders)) => Ok(
                        (
                            next,
                            CaseView {
                                map: MapSize { rows, cols },
                                warehouses,
                                total_turns: turns,
                                number_of_drones: drones,
                                max_payload,
                                orders,
                                products,
                            },
                        ),
                    ),
                },
            },
        },
    }
}

pub fn parse_input_file(input: &str) -> (r: Parsed<Case>)
    ensures
        match spec_input_file(input.spec_bytes()) {
            Ok((next, case)) => r matches Ok((n, c)) && n == next && c@ == case,
            Err(e) => r matches Err(re) && re == e,
        },
        r matches Ok((_, c)) ==> c.wf(),
{
    let bytes = input.as_bytes();
    let (at, (rows, cols, drones, turns, max_payload)) = first_line(bytes, 0)?;
    let (at, case_products) = products(bytes, at)?;
    let (at, case_warehouses) = warehouses_with_inventory_size(
        bytes,
        at,
        case_products.len() as ProductID,
    )?;
    let (at, case_orders) = orders(bytes, at)?;
    Ok(
        (
            at,
            Case {
                _map: MapSize { rows, cols },
                warehouses: case_warehouses,
                products: case_products,
                total_turns: turns,
                number_of_drones: drones,
                max_payload,
                orders: case_orders,
            },
        ),
    )
}

pub const TAG_LOAD: u8 = 0x4c;

pub const TAG_UNLOAD: u8 = 0x55;

pub const TAG_DELIVER: u8 = 0x44;

pub const TAG_WAIT: u8 = 0x57;

/// The letters `L`, `U`, `D` and `W`.
pub open spec fn is_command_tag(byte: u8) -> bool {
    byte == TAG_LOAD || byte == TAG_UNLOAD || byte == TAG_DELIVER || byte == TAG_WAIT
}

/// The three numbers after the tag of a load, an unload or a delivery: the
/// warehouse or the order, the product, and the amount.
pub open spec fn spec_three_numbers(s: Seq<u8>, at: usize) -> Parsed<(u16, u16, u16)> {
    match spec_number_u16(s, at) {
        Err(e) => Err(e),
        Ok((a, first)) => match spec_number_u16(s, a) {
            Err(e) => Err(e),
            Ok((b, second)) => match spec_number_u16(s, b) {
                Err(e) => Err(e),
                Ok((next, third)) => Ok((next, (first, second, third))),
            },
        },
    }
}

/// One command: the drone, the tag, and what the tag asks for.
pub open spec fn spec_command(s: Seq<u8>, at: usize) -> Parsed<Command> {
    match spec_number_u16(s, at) {
        Err(e) => Err(e),
        Ok((a, drone_id)) => if a < s.len() && is_command_tag(s[a as int]) {
            let tag = s[a as int];
            let b = blanks_end(s, a + 1) as usize;
            if tag == TAG_WAIT {
                match spec_number_u32(s, b) {
                    Err(e) => Err(e),
                    Ok((next, turns)) => Ok((next, Command::Wait { drone_id, turns })),
                }
            } else {
                match spec_three_numbers(s, b) {
                    Err(e) => Err(e),
                    Ok((next, (place, product_id, number_of_items))) => Ok(
                        (
                            next,
                            if tag == TAG_LOAD {
                                Command::Load {
                                    drone_id,
                                    warehouse_id: place,
                                    product_id,
                                    number_of_items,
                                }
                            } else if tag == TAG_UNLOAD {
                                Command::Unload {
                                    drone_id,
                                    warehouse_id: place,
                                    product_id,
                                    number_of_items,
                                }
                            } else {
                                Command::Deliver {
                                    drone_id,
                                    order_id: place,
                                    product_id,
                                    number_of_items,
                                }
                            },
                        ),
                    ),
                }
            }
        } else {
            Err(ParseError { offset: a, expected: Expected::CommandTag })
        },
    }
}

fn three_numbers(input: &[u8], at: usize) -> (r: Parsed<(u16, u16, u16)>)
    ensures
        r == spec_three_numbers(input@, at),
{
    let (at, first) = number_u16(input, at)?;
    let (at, second) = number_u16(input, at)?;
    let (at, third) = number_u16(input, at)?;
    Ok((at, (first, second, third)))
}

pub fn one_command(input: &[u8], at: usize) -> (r: Parsed<Command>)
    ensures
        r == spec_command(input@, at),
{
    let (at, drone_id) = number_u16(input, at)?;
    if at >= input.len() {
        return Err(ParseError { offset: at, expected: Expected::CommandTag });
    }
    let command_type: u8 = input[at];
    if command_type == TAG_LOAD {
        let at = multispace0(input, at + 1);
        let (at, (warehouse_id, product_id, number_of_items)) = three_numbers(input, at)?;
        Ok((at, Command::Load { drone_id, warehouse_id, product_id, number_of_items }))
    } else if command_type == TAG_UNLOAD {
        let at = multispace0(input, at + 1);
        let (at, (warehouse_id, product_id, number_of_items)) = three_numbers(input, at)?;
        Ok((at, Command::Unload { drone_id, warehouse_id, product_id, number_of_items }))
    } else if command_type == TAG_DELIVER {
        let at = multispace0(input, at + 1);
        let (at, (order_id, product_id, number_of_items)) = three_numbers(input, at)?;
        Ok((at, Command::Deliver { drone_id, order_id, product_id, number_of_items }))
    } else if command_type == TAG_WAIT {
        let at = multispace0(input, at + 1);
        let (at, turns) = number_u32(input, at)?;
        Ok((at, Command::Wait { drone_id, turns }))
    } else {
        Err(ParseError { offset: at, expected: Expected::CommandTag })
    }
}

/// The first `count` of a row of commands that starts at `at`.
pub open spec fn spec_commands_upto(s: Seq<u8>, at: usize, count: nat) -> Parsed<Seq<Command>>
    decreases count,
{
    if count == 0 {
        Ok((at, Seq::empty()))
    } else {
        match spec_commands_upto(s, at, (count - 1) as nat) {
            Err(e) => Err(e),
            Ok((mid, commands)) => match spec_command(s, mid) {
                Err(e) => Err(e),
                Ok((next, command)) => Ok((next, commands.push(command))),
            },
        }
    }
}

/// A whole action script: the number of commands, then each of them.
pub open spec fn spec_submission(s: Seq<u8>) -> Parsed<Seq<Command>> {
    match spec_decimal_number_ms(s, 0, u64::MAX) {
        Err(e) => Err(e),
        Ok((a, count)) => spec_commands_upto(s, a, count as nat),
    }
}

/// Once a row of commands has failed, asking for more of it fails the same
/// way.
pub proof fn lemma_commands_failure_stays(s: Seq<u8>, at: usize, failed: nat, count: nat)
    requires
        spec_commands_upto(s, at, failed) is Err,
        failed <= count,
    ensures
        spec_commands_upto(s, at, count) == spec_commands_upto(s, at, failed),
    decreases count,
{
    if failed < count {
        lemma_commands_failure_stays(s, at, failed, (count - 1) as nat);
    }
}

pub fn parse_submission(input: &str) -> (r: Parsed<Vec<Command>>)
    ensures
        match spec_submission(input.spec_bytes()) {
            Ok((next, commands)) => r matches Ok((n, v)) && n == next && v@ == commands,
            Err(e) => r matches Err(re) && re == e,
        },
{
    let bytes = input.as_bytes();
    let (start, number_of_commands): (usize, CommandNumber) = decimal_number_ms(
        bytes,
        0,
        u64::MAX,
    )?;
    let mut commands: Vec<Command> = Vec::new();
    let mut next: usize = start;
    let mut i: CommandNumber = 0;
    while i < number_of_commands
        invariant
            0 <= i <= number_of_commands,
            bytes@ == input.spec_bytes(),
            spec_decimal_number_ms(bytes@, 0, u64::MAX) == Ok::<(usize, u64), ParseError>(
                (start, number_of_commands),
            ),
            spec_commands_upto(bytes@, start, i as nat) == Ok::<
                (usize, Seq<Command>),
                ParseError,
            >((next, commands@)),
        decreases number_of_commands - i,
    {
        match one_command(bytes, next) {
            Ok((after, command)) => {
                commands.push(command);
                next = after;
            },
            Err(e) => {
                proof {
                    assert(spec_commands_upto(bytes@, start, (i + 1) as nat) == Err::<
                        (usize, Seq<Command>),
                        ParseError,
                    >(e));
                    lemma_commands_failure_stays(
                        bytes@,
                        start,
                        (i + 1) as nat,
                        number_of_commands as nat,
                    );
                }
                return Err(e);
            },
        }
        i = i + 1;
    }
    Ok((next, commands))
}

} // verus!
