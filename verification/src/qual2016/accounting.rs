//! Bookkeeping over a whole run: no item is made, the weight limit holds,
//! and an order pays once.

use vstd::prelude::*;
use super::command::Command;
use super::drone::DroneView;
use super::error::{ProductID, Qual2016ScoringError, Stock};
use super::model::{
    command_outcome, dispatched, fleet, launched, phase_upto, points_for, run_upto,
    scheduled_upto, spec_score_commands, turn_outcome, RunView,
};
use super::order::{lemma_without_first_counts, OrderView};
use super::warehouse::WarehouseView;
use super::world::{CaseView, EarthView};

verus! {

/// The sum of a sequence.
pub open spec fn total(s: Seq<int>) -> int
    decreases s.len(),
{
    if s.len() == 0 {
        0
    } else {
        total(s.drop_last()) + s.last()
    }
}

/// Changing one term changes the sum by as much.
pub proof fn lemma_total_update(s: Seq<int>, i: int, v: int)
    requires
        0 <= i < s.len(),
    ensures
        total(s.update(i, v)) == total(s) - s[i] + v,
    decreases s.len(),
{
    if i == s.len() - 1 {
        assert(s.update(i, v).drop_last() =~= s.drop_last());
    } else {
        lemma_total_update(s.drop_last(), i, v);
        assert(s.update(i, v).drop_last() =~= s.drop_last().update(i, v));
    }
}

/// Where no term is negative, no term exceeds the sum.
pub proof fn lemma_total_bounds(s: Seq<int>, i: int)
    requires
        forall|j: int| 0 <= j < s.len() ==> s[j] >= 0,
        0 <= i < s.len(),
    ensures
        0 <= s[i] <= total(s),
    decreases s.len(),
{
    lemma_total_nonnegative(s.drop_last());
    if i < s.len() - 1 {
        lemma_total_bounds(s.drop_last(), i);
    }
}

/// A sum of terms that are not negative is not negative.
pub proof fn lemma_total_nonnegative(s: Seq<int>)
    requires
        forall|j: int| 0 <= j < s.len() ==> s[j] >= 0,
    ensures
        0 <= total(s),
    decreases s.len(),
{
    if s.len() > 0 {
        lemma_total_nonnegative(s.drop_last());
    }
}

/// A sum of terms of at most `c` each is at most `c` times their number.
pub proof fn lemma_total_at_most(s: Seq<int>, c: int)
    requires
        forall|j: int| 0 <= j < s.len() ==> s[j] <= c,
    ensures
        total(s) <= c * s.len(),
    decreases s.len(),
{
    if s.len() > 0 {
        lemma_total_at_most(s.drop_last(), c);
        assert(c * (s.len() - 1) + c == c * s.len()) by (nonlinear_arith);
    }
}

/// What each warehouse holds of `product_id`.
pub open spec fn stock_column(warehouses: Seq<WarehouseView>, product_id: ProductID) -> Seq<int> {
    Seq::new(warehouses.len(), |w: int| warehouses[w].stock(product_id))
}

/// What each drone carries of `product_id`.
pub open spec fn carried_column(drones: Seq<DroneView>, product_id: ProductID) -> Seq<int> {
    Seq::new(drones.len(), |i: int| drones[i].carrying[product_id])
}

/// One for each order that is done, zero for each that is not.
pub open spec fn done_column(orders: Seq<OrderView>) -> Seq<int> {
    Seq::new(
        orders.len(),
        |o: int|
            if orders[o].is_done() {
                1int
            } else {
                0int
            },
    )
}

/// Items of `product_id` in all warehouses together.
pub open spec fn warehouse_stock(warehouses: Seq<WarehouseView>, product_id: ProductID) -> int {
    total(stock_column(warehouses, product_id))
}

/// Items of `product_id` on board of all drones together.
pub open spec fn fleet_stock(drones: Seq<DroneView>, product_id: ProductID) -> int {
    total(carried_column(drones, product_id))
}

/// Number of orders that are done.
pub open spec fn done_count(orders: Seq<OrderView>) -> int {
    total(done_column(orders))
}

/// Items of `product_id` that have not been delivered yet.
pub open spec fn holdings(run: RunView, product_id: ProductID) -> int {
    warehouse_stock(run.earth.warehouses, product_id) + fleet_stock(run.drones, product_id)
}

/// No warehouse holds a negative number of anything.
pub open spec fn stock_nonnegative(earth: EarthView) -> bool {
    forall|w: int, p: int|
        0 <= w < earth.warehouses.len() && 0 <= p < earth.warehouses[w].inventory.len() ==> 0
            <= #[trigger] earth.warehouses[w].inventory[p]
}

/// No drone carries a negative number of anything.
pub open spec fn carried_nonnegative(drones: Seq<DroneView>) -> bool {
    forall|i: int, p: ProductID| 0 <= i < drones.len() ==> 0 <= #[trigger] drones[i].carrying[p]
}

/// What holds of a run at every moment: counts are not negative, the items
/// of each product fit one counter, and the score is at most 100 points for
/// each order that is done.
pub open spec fn accounted(run: RunView) -> bool {
    &&& stock_nonnegative(run.earth)
    &&& carried_nonnegative(run.drones)
    &&& forall|p: ProductID| #[trigger] holdings(run, p) <= Stock::MAX
    &&& 0 <= run.score <= 100 * done_count(run.earth.orders)
}

/// The points for one order lie between 0 and 100.
pub proof fn lemma_points_bounds(total_turns: int, turn: int)
    requires
        0 <= turn < total_turns,
    ensures
        1 <= points_for(total_turns, turn) <= 100,
{
    let n = 100 * (total_turns - turn) + total_turns - 1;
    assert(total_turns <= n < 101 * total_turns);
    assert(1 <= n / total_turns <= 100) by (nonlinear_arith)
        requires
            0 < total_turns <= n < 101 * total_turns,
    ;
}

/// The points are the share of the turns that are left, in hundredths and
/// rounded up.
pub proof fn lemma_points_round_up(total_turns: int, turn: int)
    requires
        0 <= turn < total_turns,
    ensures
        points_for(total_turns, turn) * total_turns >= 100 * (total_turns - turn),
        (points_for(total_turns, turn) - 1) * total_turns < 100 * (total_turns - turn),
{
    let n = 100 * (total_turns - turn) + total_turns - 1;
    let q = n / total_turns;
    assert(q * total_turns <= n < (q + 1) * total_turns) by (nonlinear_arith)
        requires
            0 < total_turns,
            q == n / total_turns,
    ;
    assert((q - 1) * total_turns == q * total_turns - total_turns) by (nonlinear_arith);
    assert((q + 1) * total_turns == q * total_turns + total_turns) by (nonlinear_arith);
}

/// Every count is at most all that there is: what one drone carries and what
/// one warehouse holds of a product never overflow a counter together.
pub proof fn lemma_accounted_fits(run: RunView, i: int, w: int, product_id: ProductID)
    requires
        accounted(run),
        0 <= i < run.drones.len(),
        0 <= w < run.earth.warehouses.len(),
    ensures
        run.earth.warehouses[w].stock(product_id) + run.drones[i].carrying[product_id]
            <= Stock::MAX,
{
    let stocks = stock_column(run.earth.warehouses, product_id);
    let carried = carried_column(run.drones, product_id);
    assert forall|j: int| 0 <= j < stocks.len() implies stocks[j] >= 0 by {
        if product_id < run.earth.warehouses[j].inventory.len() {
            assert(run.earth.warehouses[j].inventory[product_id as int] >= 0);
        }
    }
    assert forall|j: int| 0 <= j < carried.len() implies carried[j] >= 0 by {
        assert(run.drones[j].carrying[product_id] >= 0);
    }
    lemma_total_bounds(stocks, w);
    lemma_total_bounds(carried, i);
    assert(holdings(run, product_id) <= Stock::MAX);
}

/// One command keeps the books: it makes no item, and it pays at most 100
/// points, and those only for an order that it completes.
pub proof fn lemma_execute_accounted(
    case: CaseView,
    run: RunView,
    i: int,
    command: Command,
    turn: int,
)
    requires
        accounted(run),
        0 <= i < run.drones.len(),
        0 <= turn < case.total_turns,
        run.execute(case, i, command, turn) is Ok,
    ensures
        accounted(run.execute(case, i, command, turn)->Ok_0),
        run.execute(case, i, command, turn)->Ok_0.drones.len() == run.drones.len(),
        run.execute(case, i, command, turn)->Ok_0.earth.warehouses.len()
            == run.earth.warehouses.len(),
        run.execute(case, i, command, turn)->Ok_0.earth.orders.len() == run.earth.orders.len(),
        forall|p: ProductID|
            holdings(run.execute(case, i, command, turn)->Ok_0, p) <= #[trigger] holdings(run, p),
{
    let after = run.execute(case, i, command, turn)->Ok_0;
    let (drone, earth, points) = command_outcome(
        case,
        run.drones[i],
        run.earth,
        command,
        turn,
    )->Ok_0;
    lemma_points_bounds(case.total_turns as int, turn);
    assert forall|p: ProductID| holdings(after, p) <= #[trigger] holdings(run, p) by {
        lemma_total_update(carried_column(run.drones, p), i, drone.carrying[p]);
        assert(carried_column(after.drones, p) =~= carried_column(run.drones, p).update(
            i,
            drone.carrying[p],
        ));
        match command {
            Command::Load { warehouse_id, product_id, number_of_items, .. } => {
                let w = warehouse_id as int;
                lemma_total_update(
                    stock_column(run.earth.warehouses, p),
                    w,
                    earth.warehouses[w].stock(p),
                );
                assert(stock_column(earth.warehouses, p) =~= stock_column(
                    run.earth.warehouses,
                    p,
                ).update(w, earth.warehouses[w].stock(p)));
            },
            Command::Unload { warehouse_id, product_id, number_of_items, .. } => {
                let w = warehouse_id as int;
                lemma_total_update(
                    stock_column(run.earth.warehouses, p),
                    w,
                    earth.warehouses[w].stock(p),
                );
                assert(stock_column(earth.warehouses, p) =~= stock_column(
                    run.earth.warehouses,
                    p,
                ).update(w, earth.warehouses[w].stock(p)));
            },
            _ => {},
        }
    }
    assert(carried_nonnegative(after.drones)) by {
        assert forall|j: int, p: ProductID| 0 <= j < after.drones.len() implies 0
            <= #[trigger] after.drones[j].carrying[p] by {
            if j != i {
                assert(after.drones[j] == run.drones[j]);
                assert(run.drones[j].carrying[p] >= 0);
            } else {
                assert(run.drones[i].carrying[p] >= 0);
            }
        }
    }
    assert(stock_nonnegative(after.earth)) by {
        assert forall|w: int, p: int|
            0 <= w < after.earth.warehouses.len() && 0 <= p
                < after.earth.warehouses[w].inventory.len() implies 0
            <= #[trigger] after.earth.warehouses[w].inventory[p] by {
            assert(p < run.earth.warehouses[w].inventory.len());
            assert(run.earth.warehouses[w].inventory[p] >= 0);
        }
    }
    match command {
        Command::Deliver { order_id, product_id, number_of_items, .. } => {
            let o = order_id as int;
            lemma_without_first_counts(
                run.earth.orders[o].products,
                product_id,
                number_of_items as nat,
                product_id,
            );
            lemma_total_update(done_column(run.earth.orders), o, done_column(earth.orders)[o]);
            assert(done_column(earth.orders) =~= done_column(run.earth.orders).update(
                o,
                done_column(earth.orders)[o],
            ));
        },
        _ => {},
    }
    assert forall|p: ProductID| #[trigger] holdings(after, p) <= Stock::MAX by {
        assert(holdings(after, p) <= holdings(run, p));
    }
}

/// A change that leaves every count, the world and the score alone keeps the
/// books in order.
pub proof fn lemma_same_carrying_accounted(before: RunView, after: RunView)
    requires
        accounted(before),
        after.earth == before.earth,
        after.score == before.score,
        after.drones.len() == before.drones.len(),
        forall|i: int|
            0 <= i < before.drones.len() ==> (#[trigger] after.drones[i]).carrying
                == before.drones[i].carrying,
    ensures
        accounted(after),
{
    assert forall|p: ProductID| #[trigger] holdings(after, p) <= Stock::MAX by {
        assert(carried_column(after.drones, p) =~= carried_column(before.drones, p));
        assert(holdings(before, p) <= Stock::MAX);
    }
    assert forall|i: int, p: ProductID| 0 <= i < after.drones.len() implies 0
        <= #[trigger] after.drones[i].carrying[p] by {
        assert(before.drones[i].carrying[p] >= 0);
    }
}

/// At the start of a run the books are in order.
pub proof fn lemma_fresh_run_accounted(case: CaseView)
    requires
        case.wf(),
    ensures
        accounted(RunView { drones: fleet(case), earth: case.earth(), score: 0 }),
{
    let run = RunView { drones: fleet(case), earth: case.earth(), score: 0 };
    assert forall|p: ProductID| #[trigger] holdings(run, p) <= Stock::MAX by {
        let stocks = stock_column(run.earth.warehouses, p);
        assert forall|w: int| 0 <= w < stocks.len() implies stocks[w] <= 0xffff by {
            if p < run.earth.warehouses[w].inventory.len() {
                assert(run.earth.warehouses[w].inventory[p as int] <= 0xffff);
            }
        }
        lemma_total_at_most(stocks, 0xffff);
        lemma_total_at_most(carried_column(run.drones, p), 0);
        assert(0xffff * stocks.len() <= 0xffff * 0xffff) by (nonlinear_arith)
            requires
                stocks.len() <= 0xffff,
        ;
    }
    lemma_total_nonnegative(done_column(run.earth.orders));
}

/// Handing out a script changes the queues of the drones and nothing else.
pub proof fn lemma_schedule_keeps_drones(
    drones: Seq<DroneView>,
    earth: EarthView,
    commands: Seq<Command>,
    k: nat,
)
    requires
        scheduled_upto(drones, earth, commands, k) is Ok,
    ensures
        scheduled_upto(drones, earth, commands, k)->Ok_0.len() == drones.len(),
        forall|i: int|
            0 <= i < drones.len() ==> {
                let after = #[trigger] scheduled_upto(drones, earth, commands, k)->Ok_0[i];
                &&& after.carrying == drones[i].carrying
                &&& after.location == drones[i].location
                &&& after.next_turn == drones[i].next_turn
                &&& after.id == drones[i].id
            },
    decreases k,
{
    if k > 0 {
        lemma_schedule_keeps_drones(drones, earth, commands, (k - 1) as nat);
    }
}

/// The books stay in order through a half turn, and no drone, warehouse or
/// order comes or goes.
pub proof fn lemma_phase_accounted(
    case: CaseView,
    start: RunView,
    due: Seq<Option<Command>>,
    unloads: bool,
    turn: int,
    k: nat,
)
    requires
        accounted(start),
        k <= due.len() == start.drones.len(),
        0 <= turn < case.total_turns,
        phase_upto(case, start, due, unloads, turn, k) is Ok,
    ensures
        accounted(phase_upto(case, start, due, unloads, turn, k)->Ok_0),
        phase_upto(case, start, due, unloads, turn, k)->Ok_0.drones.len() == start.drones.len(),
        phase_upto(case, start, due, unloads, turn, k)->Ok_0.earth.orders.len()
            == start.earth.orders.len(),
        phase_upto(case, start, due, unloads, turn, k)->Ok_0.earth.warehouses.len()
            == start.earth.warehouses.len(),
    decreases k,
{
    if k > 0 {
        lemma_phase_accounted(case, start, due, unloads, turn, (k - 1) as nat);
        let run = phase_upto(case, start, due, unloads, turn, (k - 1) as nat)->Ok_0;
        match due[k - 1] {
            Some(command) => {
                if command.spec_is_unload() == unloads {
                    lemma_execute_accounted(case, run, k - 1, command, turn);
                }
            },
            None => {},
        }
    }
}

/// The books stay in order through a turn.
pub proof fn lemma_turn_accounted(case: CaseView, run: RunView, turn: int)
    requires
        accounted(run),
        0 <= turn < case.total_turns,
        turn_outcome(case, run, turn) is Ok,
    ensures
        accounted(turn_outcome(case, run, turn)->Ok_0),
        turn_outcome(case, run, turn)->Ok_0.drones.len() == run.drones.len(),
        turn_outcome(case, run, turn)->Ok_0.earth.orders.len() == run.earth.orders.len(),
        turn_outcome(case, run, turn)->Ok_0.earth.warehouses.len() == run.earth.warehouses.len(),
{
    let due = super::model::due_commands(run.drones, turn);
    let start = RunView { drones: dispatched(run.drones, turn), ..run };
    lemma_same_carrying_accounted(run, start);
    lemma_phase_accounted(case, start, due, true, turn, due.len());
    let unloaded = phase_upto(case, start, due, true, turn, due.len())->Ok_0;
    lemma_phase_accounted(case, unloaded, due, false, turn, due.len());
}

/// The books stay in order through a run.
pub proof fn lemma_run_accounted(case: CaseView, start: RunView, turns: nat)
    requires
        accounted(start),
        turns <= case.total_turns,
        run_upto(case, start, turns) is Ok,
    ensures
        accounted(run_upto(case, start, turns)->Ok_0),
        run_upto(case, start, turns)->Ok_0.earth.orders.len() == start.earth.orders.len(),
    decreases turns,
{
    if turns > 0 {
        lemma_run_accounted(case, start, (turns - 1) as nat);
        lemma_turn_accounted(case, run_upto(case, start, (turns - 1) as nat)->Ok_0, turns - 1);
    }
}

/// The score of a script is at most 100 points for each order of the world,
/// and never negative.
pub proof fn lemma_score_bounded(case: CaseView, commands: Seq<Command>)
    requires
        case.wf(),
    ensures
        spec_score_commands(case, commands) matches Ok(points) ==> 0 <= points <= 100
            * case.orders.len(),
{
    if spec_score_commands(case, commands) is Ok {
        let start = launched(case, commands)->Ok_0;
        let fresh = RunView { drones: fleet(case), earth: case.earth(), score: 0 };
        lemma_fresh_run_accounted(case);
        lemma_schedule_keeps_drones(fleet(case), case.earth(), commands, commands.len());
        lemma_same_carrying_accounted(fresh, start);
        lemma_run_accounted(case, start, case.total_turns as nat);
        let end = run_upto(case, start, case.total_turns as nat)->Ok_0;
        lemma_total_at_most(done_column(end.earth.orders), 1);
    }
}

} // verus!
