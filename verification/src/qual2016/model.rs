//! The simulation as a mathematical state machine: what a run is, what one
//! command, one turn and a whole script lead to.

use vstd::prelude::*;
use super::command::Command;
use super::drone::DroneView;
use super::error::{DroneID, Qual2016ScoringError};
use super::interaction::{deliver_outcome, load_outcome, unload_outcome};
use super::world::{CaseView, EarthView};

verus! {

/// Points for an order that is completed at `turn` (counted from 0): the
/// hundredth part of the turns that are left, rounded up.
pub open spec fn points_for(total_turns: int, turn: int) -> int {
    (100 * (total_turns - turn) + total_turns - 1) / total_turns
}

/// What executing `command` at `turn` leads to: the drone and the world after
/// it and the points gained, or the rule that forbids it. Points are gained
/// by the delivery that completes an order.
pub open spec fn command_outcome(
    case: CaseView,
    drone: DroneView,
    earth: EarthView,
    command: Command,
    turn: int,
) -> Result<(DroneView, EarthView, int), Qual2016ScoringError> {
    match command {
        Command::GeneratedFlight { to, .. } => Ok((drone.fly_to(to), earth, 0)),
        Command::Wait { turns, .. } => Ok((drone.busy_for(turns as int), earth, 0)),
        Command::Load { warehouse_id, product_id, number_of_items, .. } => {
            match load_outcome(case, drone, earth, warehouse_id, product_id, number_of_items) {
                Err(e) => Err(e),
                Ok((loaded, emptier)) => Ok((loaded, emptier, 0)),
            }
        },
        Command::Unload { warehouse_id, product_id, number_of_items, .. } => {
            match unload_outcome(drone, earth, warehouse_id, product_id, number_of_items) {
                Err(e) => Err(e),
                Ok((lighter, fuller)) => Ok((lighter, fuller, 0)),
            }
        },
        Command::Deliver { order_id, product_id, number_of_items, .. } => {
            match deliver_outcome(drone, earth, order_id, product_id, number_of_items) {
                Err(e) => Err(e),
                Ok((lighter, served)) => Ok(
                    (
                        lighter,
                        served,
                        if !earth.orders[order_id as int].is_done() && served.orders[order_id as int].is_done() {
                            points_for(case.total_turns as int, turn)
                        } else {
                            0
                        },
                    ),
                ),
            }
        },
    }
}

/// The state of one run: the fleet, the world, and the points so far.
pub struct RunView {
    pub drones: Seq<DroneView>,
    pub earth: EarthView,
    pub score: int,
}

impl RunView {
    /// The run after drone number `i` has executed `command` at `turn`.
    pub open spec fn execute(self, case: CaseView, i: int, command: Command, turn: int) -> Result<
        RunView,
        Qual2016ScoringError,
    > {
        match command_outcome(case, self.drones[i], self.earth, command, turn) {
            Err(e) => Err(e),
            Ok((drone, earth, points)) => Ok(
                RunView { drones: self.drones.update(i, drone), earth, score: self.score + points },
            ),
        }
    }
}

/// The fleet after every drone that is due at `turn` has given up the head
/// of its queue.
pub open spec fn dispatched(drones: Seq<DroneView>, turn: int) -> Seq<DroneView> {
    Seq::new(
        drones.len(),
        |i: int|
            if drones[i].due(turn) {
                drones[i].popped()
            } else {
                drones[i]
            },
    )
}

/// For each drone, the command that it executes at `turn`, if any.
pub open spec fn due_commands(drones: Seq<DroneView>, turn: int) -> Seq<Option<Command>> {
    Seq::new(
        drones.len(),
        |i: int|
            if drones[i].due(turn) {
                Some(drones[i].queue[0])
            } else {
                None
            },
    )
}

/// The run after the first `k` drones have had their go in one half of a
/// turn: the half of the unloads, or the half of all other commands.
pub open spec fn phase_upto(
    case: CaseView,
    start: RunView,
    due: Seq<Option<Command>>,
    unloads: bool,
    turn: int,
    k: nat,
) -> Result<RunView, Qual2016ScoringError>
    decreases k,
{
    if k == 0 {
        Ok(start)
    } else {
        match phase_upto(case, start, due, unloads, turn, (k - 1) as nat) {
            Err(e) => Err(e),
            Ok(run) => match due[k - 1] {
                Some(command) if command.spec_is_unload() == unloads => run.execute(
                    case,
                    k - 1,
                    command,
                    turn,
                ),
                _ => Ok(run),
            },
        }
    }
}

/// The run after `turn`: the drones that are due give up one command each;
/// then the unloads among these are executed, in the order of the drones, and
/// after them the other commands, in the order of the drones.
pub open spec fn turn_outcome(case: CaseView, run: RunView, turn: int) -> Result<
    RunView,
    Qual2016ScoringError,
> {
    let due = due_commands(run.drones, turn);
    let start = RunView { drones: dispatched(run.drones, turn), ..run };
    match phase_upto(case, start, due, true, turn, due.len()) {
        Err(e) => Err(e),
        Ok(unloaded) => phase_upto(case, unloaded, due, false, turn, due.len()),
    }
}

/// The run after the first `turns` turns.
pub open spec fn run_upto(case: CaseView, start: RunView, turns: nat) -> Result<
    RunView,
    Qual2016ScoringError,
>
    decreases turns,
{
    if turns == 0 {
        Ok(start)
    } else {
        match run_upto(case, start, (turns - 1) as nat) {
            Err(e) => Err(e),
            Ok(run) => turn_outcome(case, run, turns - 1),
        }
    }
}

/// The fleet at the start of a run: every drone empty, idle, and at the
/// first warehouse.
pub open spec fn fleet(case: CaseView) -> Seq<DroneView> {
    Seq::new(
        case.number_of_drones as nat,
        |i: int| DroneView::new(i as DroneID, case.launch_site()),
    )
}

/// The fleet after the first `k` commands of a script have been handed to
/// their drones.
pub open spec fn scheduled_upto(
    drones: Seq<DroneView>,
    earth: EarthView,
    commands: Seq<Command>,
    k: nat,
) -> Result<Seq<DroneView>, Qual2016ScoringError>
    decreases k,
{
    if k == 0 {
        Ok(drones)
    } else {
        match scheduled_upto(drones, earth, commands, (k - 1) as nat) {
            Err(e) => Err(e),
            Ok(fleet) => {
                let command = commands[k - 1];
                let drone_id = command.spec_drone_id();
                if drone_id >= fleet.len() {
                    Err(Qual2016ScoringError::CommandIssuedToUnknownDrone { drone_id })
                } else {
                    match fleet[drone_id as int].register(command, earth) {
                        Err(e) => Err(e),
                        Ok(drone) => Ok(fleet.update(drone_id as int, drone)),
                    }
                }
            },
        }
    }
}

/// The drone of the first among the first `k` commands that moves no items
/// at all.
pub open spec fn zero_amount_upto(commands: Seq<Command>, k: nat) -> Option<DroneID>
    decreases k,
{
    if k == 0 {
        None
    } else {
        match zero_amount_upto(commands, (k - 1) as nat) {
            Some(drone_id) => Some(drone_id),
            None => if commands[k - 1].spec_amount() == Some(0u16) {
                Some(commands[k - 1].spec_drone_id())
            } else {
                None
            },
        }
    }
}

/// The run at turn 0, once the script has been handed out.
pub open spec fn launched(case: CaseView, commands: Seq<Command>) -> Result<
    RunView,
    Qual2016ScoringError,
> {
    match zero_amount_upto(commands, commands.len()) {
        Some(drone_id) => Err(Qual2016ScoringError::CommandWithAmountZero { drone_id }),
        None => match scheduled_upto(fleet(case), case.earth(), commands, commands.len()) {
            Err(e) => Err(e),
            Ok(drones) => Ok(RunView { drones, earth: case.earth(), score: 0 }),
        },
    }
}

/// The score of a script in a world: the points of the run over all turns of
/// the world, or the first rule that the script breaks.
pub open spec fn spec_score_commands(case: CaseView, commands: Seq<Command>) -> Result<
    int,
    Qual2016ScoringError,
> {
    match launched(case, commands) {
        Err(e) => Err(e),
        Ok(start) => match run_upto(case, start, case.total_turns as nat) {
            Err(e) => Err(e),
            Ok(run) => Ok(run.score),
        },
    }
}

} // verus!
