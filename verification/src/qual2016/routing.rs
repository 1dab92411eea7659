//! Why the flights that the scheduler puts in are enough: a drone is always
//! at the place of the command it executes.

use vstd::prelude::*;
use super::command::Command;
use super::drone::{last_location, DroneView};
use super::error::Qual2016ScoringError;
use super::geometry::Location;
use super::model::{
    command_outcome, dispatched, due_commands, fleet, launched, phase_upto, run_upto,
    scheduled_upto, spec_score_commands, turn_outcome, RunView,
};
use super::world::{CaseView, EarthView};

verus! {

/// The failures that tell of a drone that was not flown to its place.
pub open spec fn is_misplaced(e: Qual2016ScoringError) -> bool {
    e is DroneNotInWarehouse || e is DroneNotInOrderLocation
}

/// Two worlds have their warehouses and their customers at the same cells.
pub open spec fn same_places(a: EarthView, b: EarthView) -> bool {
    &&& a.warehouses.len() == b.warehouses.len()
    &&& a.orders.len() == b.orders.len()
    &&& forall|w: int|
        0 <= w < a.warehouses.len() ==> (#[trigger] a.warehouses[w]).location
            == b.warehouses[w].location
    &&& forall|o: int|
        0 <= o < a.orders.len() ==> (#[trigger] a.orders[o]).location == b.orders[o].location
}

/// A drone that starts at `start` and executes `queue` in order is at the
/// place of every load, unload and delivery when it comes to it.
pub open spec fn routed(queue: Seq<Command>, earth: EarthView, start: Location) -> bool
    decreases queue.len(),
{
    if queue.len() == 0 {
        true
    } else {
        &&& routed(queue.drop_last(), earth, start)
        &&& match queue.last() {
            Command::GeneratedFlight { .. } => true,
            command => match command.location_on(earth) {
                Ok(Some(place)) => last_location(queue.drop_last(), earth, start) == Ok::<
                    Location,
                    Qual2016ScoringError,
                >(place),
                Ok(None) => true,
                Err(_) => false,
            },
        }
    }
}

/// The drone is where `command` needs it, and from where the command leaves
/// it the queue is routed.
pub open spec fn ready(drone: DroneView, command: Command, earth: EarthView) -> bool {
    match command {
        Command::GeneratedFlight { to, .. } => routed(drone.queue, earth, to),
        _ => match command.location_on(earth) {
            Ok(Some(place)) => place == drone.location && routed(
                drone.queue,
                earth,
                drone.location,
            ),
            Ok(None) => routed(drone.queue, earth, drone.location),
            Err(_) => false,
        },
    }
}

/// Every drone of the run has a routed queue.
pub open spec fn all_routed(run: RunView) -> bool {
    forall|i: int|
        0 <= i < run.drones.len() ==> routed(
            (#[trigger] run.drones[i]).queue,
            run.earth,
            run.drones[i].location,
        )
}

/// Whether the command that drone `j` took off its queue this turn has still
/// to be executed when the first `k` drones have had their go in a half turn.
pub open spec fn still_to_run(command: Command, j: int, unloads: bool, k: int) -> bool {
    if unloads {
        !command.spec_is_unload() || j >= k
    } else {
        !command.spec_is_unload() && j >= k
    }
}

/// In the middle of a turn: a drone that has still to execute its command is
/// ready for it, and every other drone has a routed queue.
pub open spec fn routed_within_turn(
    run: RunView,
    due: Seq<Option<Command>>,
    unloads: bool,
    k: int,
) -> bool {
    forall|j: int|
        0 <= j < run.drones.len() ==> match due[j] {
            Some(command) if still_to_run(command, j, unloads, k) => ready(
                #[trigger] run.drones[j],
                command,
                run.earth,
            ),
            _ => routed(run.drones[j].queue, run.earth, run.drones[j].location),
        }
}

/// Where the places are the same, a command has the same place.
pub proof fn lemma_same_places_same_location(command: Command, a: EarthView, b: EarthView)
    requires
        same_places(a, b),
    ensures
        command.location_on(a) == command.location_on(b),
{
}

/// Where the places are the same, a queue leaves a drone at the same place.
pub proof fn lemma_same_places_same_end(
    queue: Seq<Command>,
    a: EarthView,
    b: EarthView,
    start: Location,
)
    requires
        same_places(a, b),
    ensures
        last_location(queue, a, start) == last_location(queue, b, start),
    decreases queue.len(),
{
    if queue.len() > 0 {
        lemma_same_places_same_location(queue.last(), a, b);
        lemma_same_places_same_end(queue.drop_last(), a, b, start);
    }
}

/// Where the places are the same, the same queues are routed.
pub proof fn lemma_same_places_same_routes(
    queue: Seq<Command>,
    a: EarthView,
    b: EarthView,
    start: Location,
)
    requires
        same_places(a, b),
    ensures
        routed(queue, a, start) == routed(queue, b, start),
    decreases queue.len(),
{
    if queue.len() > 0 {
        lemma_same_places_same_location(queue.last(), a, b);
        lemma_same_places_same_end(queue.drop_last(), a, b, start);
        lemma_same_places_same_routes(queue.drop_last(), a, b, start);
    }
}

/// A routed queue leaves the drone at a known place.
pub proof fn lemma_route_has_end(queue: Seq<Command>, earth: EarthView, start: Location)
    requires
        routed(queue, earth, start),
    ensures
        last_location(queue, earth, start) is Ok,
    decreases queue.len(),
{
    if queue.len() > 0 {
        lemma_route_has_end(queue.drop_last(), earth, start);
    }
}

/// A command that is handed to a drone with a routed queue leaves the queue
/// routed.
pub proof fn lemma_register_keeps_route(drone: DroneView, command: Command, earth: EarthView)
    requires
        routed(drone.queue, earth, drone.location),
        drone.register(command, earth) is Ok,
    ensures
        routed(drone.register(command, earth)->Ok_0.queue, earth, drone.location),
        drone.register(command, earth)->Ok_0.location == drone.location,
{
    let after = drone.register(command, earth)->Ok_0;
    let last = last_location(drone.queue, earth, drone.location)->Ok_0;
    match command.location_on(earth) {
        Ok(Some(next)) => {
            if next != last {
                let flight = Command::GeneratedFlight { drone_id: drone.id, to: next };
                let with_flight = drone.queue.push(flight);
                assert(with_flight.drop_last() =~= drone.queue);
                assert(with_flight.last() == flight);
                assert(routed(with_flight, earth, drone.location));
                assert(after.queue.drop_last() =~= with_flight);
                assert(after.queue.last() == command);
                assert(last_location(with_flight, earth, drone.location) == Ok::<
                    Location,
                    Qual2016ScoringError,
                >(next));
            } else {
                assert(after.queue.drop_last() =~= drone.queue);
                assert(after.queue.last() == command);
            }
        },
        _ => {
            assert(after.queue.drop_last() =~= drone.queue);
            assert(after.queue.last() == command);
        },
    }
}

/// The place at which the head of a queue leaves a drone that was at
/// `start`.
pub open spec fn place_after(command: Command, earth: EarthView, start: Location) -> Location {
    match command.location_on(earth) {
        Ok(Some(place)) => place,
        _ => start,
    }
}

/// The head of a routed queue finds the drone at its place, and what is left
/// of the queue is routed from where the head leaves the drone.
pub proof fn lemma_head_of_route(queue: Seq<Command>, earth: EarthView, start: Location)
    requires
        routed(queue, earth, start),
        queue.len() > 0,
    ensures
        queue[0].location_on(earth) is Ok,
        queue[0] is GeneratedFlight || place_after(queue[0], earth, start) == start,
        routed(queue.drop_first(), earth, place_after(queue[0], earth, start)),
        last_location(queue.drop_first(), earth, place_after(queue[0], earth, start))
            == last_location(queue, earth, start),
    decreases queue.len(),
{
    let rest = queue.drop_first();
    let next = place_after(queue[0], earth, start);
    if queue.len() == 1 {
        assert(queue.drop_last() =~= Seq::<Command>::empty());
        assert(rest =~= Seq::<Command>::empty());
        assert(queue.last() == queue[0]);
    } else {
        let earlier = queue.drop_last();
        assert(earlier[0] == queue[0]);
        lemma_head_of_route(earlier, earth, start);
        assert(rest.drop_last() =~= earlier.drop_first());
        assert(rest.last() == queue.last());
    }
}

/// A command that succeeds moves no warehouse and no customer, leaves the
/// queue of the drone alone, and moves the drone only where it is a flight.
pub proof fn lemma_outcome_keeps_places(
    case: CaseView,
    drone: DroneView,
    earth: EarthView,
    command: Command,
    turn: int,
)
    requires
        command_outcome(case, drone, earth, command, turn) is Ok,
    ensures
        same_places(earth, command_outcome(case, drone, earth, command, turn)->Ok_0.1),
        command_outcome(case, drone, earth, command, turn)->Ok_0.0.queue == drone.queue,
        command_outcome(case, drone, earth, command, turn)->Ok_0.0.location == (match command {
            Command::GeneratedFlight { to, .. } => to,
            _ => drone.location,
        }),
{
}

/// A drone that is ready for its command does not fail for being elsewhere,
/// and after the command its queue is routed.
pub proof fn lemma_ready_drone_is_in_place(
    case: CaseView,
    drone: DroneView,
    earth: EarthView,
    command: Command,
    turn: int,
)
    requires
        ready(drone, command, earth),
    ensures
        match command_outcome(case, drone, earth, command, turn) {
            Ok((after, world, _)) => routed(after.queue, world, after.location) && same_places(
                earth,
                world,
            ),
            Err(e) => !is_misplaced(e),
        },
{
    if command_outcome(case, drone, earth, command, turn) is Ok {
        let (after, world, _) = command_outcome(case, drone, earth, command, turn)->Ok_0;
        lemma_outcome_keeps_places(case, drone, earth, command, turn);
        lemma_same_places_same_routes(after.queue, earth, world, after.location);
    }
}

/// Through a half turn, drones that are ready stay ready until their go, and
/// no drone fails for being elsewhere.
pub proof fn lemma_phase_keeps_routes(
    case: CaseView,
    start: RunView,
    due: Seq<Option<Command>>,
    unloads: bool,
    turn: int,
    k: nat,
)
    requires
        routed_within_turn(start, due, unloads, 0),
        k <= due.len() == start.drones.len(),
    ensures
        match phase_upto(case, start, due, unloads, turn, k) {
            Ok(run) => {
                &&& routed_within_turn(run, due, unloads, k as int)
                &&& run.drones.len() == start.drones.len()
                &&& same_places(start.earth, run.earth)
            },
            Err(e) => !is_misplaced(e),
        },
    decreases k,
{
    if k > 0 {
        lemma_phase_keeps_routes(case, start, due, unloads, turn, (k - 1) as nat);
        match phase_upto(case, start, due, unloads, turn, (k - 1) as nat) {
            Ok(run) => {
                let i = k - 1;
                match due[i] {
                    Some(command) if command.spec_is_unload() == unloads => {
                        assert(still_to_run(command, i, unloads, i));
                        assert(ready(run.drones[i], command, run.earth));
                        lemma_ready_drone_is_in_place(
                            case,
                            run.drones[i],
                            run.earth,
                            command,
                            turn,
                        );
                        if run.execute(case, i, command, turn) is Ok {
                            let after = run.execute(case, i, command, turn)->Ok_0;
                            assert forall|j: int| 0 <= j < after.drones.len() implies match due[j] {
                                Some(c) if still_to_run(c, j, unloads, k as int) => ready(
                                    #[trigger] after.drones[j],
                                    c,
                                    after.earth,
                                ),
                                _ => routed(
                                    after.drones[j].queue,
                                    after.earth,
                                    after.drones[j].location,
                                ),
                            } by {
                                if j != i {
                                    assert(after.drones[j] == run.drones[j]);
                                    lemma_ready_moves(run, after.earth, due, unloads, i, j);
                                }
                            }
                        }
                    },
                    _ => {
                        assert forall|j: int| 0 <= j < run.drones.len() implies match due[j] {
                            Some(c) if still_to_run(c, j, unloads, k as int) => ready(
                                #[trigger] run.drones[j],
                                c,
                                run.earth,
                            ),
                            _ => routed(run.drones[j].queue, run.earth, run.drones[j].location),
                        } by {
                            if j != i {
                                match due[j] {
                                    Some(c) => {
                                        assert(still_to_run(c, j, unloads, k as int)
                                            == still_to_run(c, j, unloads, i));
                                    },
                                    None => {},
                                }
                            }
                        }
                    },
                }
            },
            Err(_) => {},
        }
    }
}

/// What held of drone `j` before another drone's command still holds in the
/// world after it, where the places are the same.
proof fn lemma_ready_moves(
    run: RunView,
    world: EarthView,
    due: Seq<Option<Command>>,
    unloads: bool,
    i: int,
    j: int,
)
    requires
        routed_within_turn(run, due, unloads, i),
        same_places(run.earth, world),
        0 <= j < run.drones.len(),
        j != i,
    ensures
        match due[j] {
            Some(c) if still_to_run(c, j, unloads, i + 1) => ready(run.drones[j], c, world),
            _ => routed(run.drones[j].queue, world, run.drones[j].location),
        },
{
    let drone = run.drones[j];
    assert(match due[j] {
        Some(c) if still_to_run(c, j, unloads, i) => ready(drone, c, run.earth),
        _ => routed(drone.queue, run.earth, drone.location),
    });
    lemma_same_places_same_routes(drone.queue, run.earth, world, drone.location);
    match due[j] {
        Some(c) => {
            assert(still_to_run(c, j, unloads, i + 1) == still_to_run(c, j, unloads, i));
            lemma_same_places_same_location(c, run.earth, world);
            match c {
                Command::GeneratedFlight { to, .. } => {
                    lemma_same_places_same_routes(drone.queue, run.earth, world, to);
                },
                _ => {},
            }
        },
        None => {},
    }
}

/// Through a turn the queues stay routed, and no drone fails for being
/// elsewhere.
pub proof fn lemma_turn_keeps_routes(case: CaseView, run: RunView, turn: int)
    requires
        all_routed(run),
    ensures
        match turn_outcome(case, run, turn) {
            Ok(after) => all_routed(after) && after.drones.len() == run.drones.len(),
            Err(e) => !is_misplaced(e),
        },
{
    let due = due_commands(run.drones, turn);
    let start = RunView { drones: dispatched(run.drones, turn), ..run };
    assert forall|j: int| 0 <= j < start.drones.len() implies match due[j] {
        Some(c) if still_to_run(c, j, true, 0) => ready(#[trigger] start.drones[j], c, start.earth),
        _ => routed(start.drones[j].queue, start.earth, start.drones[j].location),
    } by {
        let drone = run.drones[j];
        assert(routed(drone.queue, run.earth, drone.location));
        if drone.due(turn) {
            lemma_head_of_route(drone.queue, run.earth, drone.location);
        }
    }
    lemma_phase_keeps_routes(case, start, due, true, turn, due.len());
    match phase_upto(case, start, due, true, turn, due.len()) {
        Ok(unloaded) => {
            assert forall|j: int| 0 <= j < unloaded.drones.len() implies match due[j] {
                Some(c) if still_to_run(c, j, false, 0) => ready(
                    #[trigger] unloaded.drones[j],
                    c,
                    unloaded.earth,
                ),
                _ => routed(
                    unloaded.drones[j].queue,
                    unloaded.earth,
                    unloaded.drones[j].location,
                ),
            } by {
                match due[j] {
                    Some(c) => {
                        assert(still_to_run(c, j, false, 0) == still_to_run(
                            c,
                            j,
                            true,
                            due.len() as int,
                        ));
                    },
                    None => {},
                }
            }
            lemma_phase_keeps_routes(case, unloaded, due, false, turn, due.len());
            match phase_upto(case, unloaded, due, false, turn, due.len()) {
                Ok(after) => {
                    assert forall|j: int| 0 <= j < after.drones.len() implies routed(
                        (#[trigger] after.drones[j]).queue,
                        after.earth,
                        after.drones[j].location,
                    ) by {
                        match due[j] {
                            Some(c) => {
                                assert(!still_to_run(c, j, false, due.len() as int));
                            },
                            None => {},
                        }
                    }
                },
                Err(_) => {},
            }
        },
        Err(_) => {},
    }
}

/// Through a run the queues stay routed, and no drone fails for being
/// elsewhere.
pub proof fn lemma_run_keeps_routes(case: CaseView, start: RunView, turns: nat)
    requires
        all_routed(start),
    ensures
        match run_upto(case, start, turns) {
            Ok(after) => all_routed(after),
            Err(e) => !is_misplaced(e),
        },
    decreases turns,
{
    if turns > 0 {
        lemma_run_keeps_routes(case, start, (turns - 1) as nat);
        match run_upto(case, start, (turns - 1) as nat) {
            Ok(run) => {
                lemma_turn_keeps_routes(case, run, turns - 1);
            },
            Err(_) => {},
        }
    }
}

/// Handing out a script leaves every queue routed, and fails for no drone
/// being elsewhere.
pub proof fn lemma_schedule_routes(
    drones: Seq<DroneView>,
    earth: EarthView,
    commands: Seq<Command>,
    k: nat,
)
    requires
        all_routed(RunView { drones, earth, score: 0 }),
    ensures
        match scheduled_upto(drones, earth, commands, k) {
            Ok(fleet) => all_routed(RunView { drones: fleet, earth, score: 0 }),
            Err(e) => !is_misplaced(e),
        },
    decreases k,
{
    if k > 0 {
        lemma_schedule_routes(drones, earth, commands, (k - 1) as nat);
        match scheduled_upto(drones, earth, commands, (k - 1) as nat) {
            Ok(fleet) => {
                let before = RunView { drones: fleet, earth, score: 0 };
                let command = commands[k - 1];
                let i = command.spec_drone_id() as int;
                if i < fleet.len() {
                    assert(routed(before.drones[i].queue, earth, before.drones[i].location));
                    lemma_route_has_end(fleet[i].queue, earth, fleet[i].location);
                    match fleet[i].register(command, earth) {
                        Ok(drone) => {
                            lemma_register_keeps_route(fleet[i], command, earth);
                            let after = RunView { drones: fleet.update(i, drone), earth, score: 0 };
                            assert forall|j: int| 0 <= j < after.drones.len() implies routed(
                                (#[trigger] after.drones[j]).queue,
                                earth,
                                after.drones[j].location,
                            ) by {
                                if j != i {
                                    assert(after.drones[j] == before.drones[j]);
                                }
                            }
                        },
                        Err(_) => {},
                    }
                }
            },
            Err(_) => {},
        }
    }
}

/// The flights that the scheduler puts in bring every drone to the place of
/// each of its commands in time: no script, in no world, fails because a
/// drone is not at the warehouse or at the customer that its command names.
pub proof fn lemma_no_drone_is_misplaced(case: CaseView, commands: Seq<Command>)
    ensures
        match spec_score_commands(case, commands) {
            Ok(_) => true,
            Err(e) => !is_misplaced(e),
        },
{
    let fresh = RunView { drones: fleet(case), earth: case.earth(), score: 0 };
    assert(all_routed(fresh));
    lemma_schedule_routes(fleet(case), case.earth(), commands, commands.len());
    match launched(case, commands) {
        Ok(start) => {
            assert(all_routed(start)) by {
                let scheduled = RunView { drones: start.drones, earth: case.earth(), score: 0 };
                assert(all_routed(scheduled));
                assert(scheduled == start);
            }
            lemma_run_keeps_routes(case, start, case.total_turns as nat);
        },
        Err(_) => {},
    }
}

} // verus!
