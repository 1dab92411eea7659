//! The driver: it hands a script to the drones, runs the turns, and adds up
//! the points.

use vstd::prelude::*;
use vstd::string::StringSliceAdditionalSpecFns;
use crate::{Score, ScoringError};
use super::accounting::{
    accounted, done_column, done_count, lemma_accounted_fits, lemma_execute_accounted,
    lemma_fresh_run_accounted, lemma_same_carrying_accounted, lemma_total_at_most,
};
use super::command::Command;
use super::drone::{Drone, DroneView, ExecutedCommand};
use super::error::{DroneID, ProductID, Qual2016ScoringError, WarehouseID};
use super::geometry::{lemma_flight_time_is_rounded_distance, Turn};
use super::interaction::stock_fits;
use super::model::{
    dispatched, due_commands, fleet, launched, phase_upto, run_upto, scheduled_upto,
    spec_score_commands, turn_outcome, zero_amount_upto, RunView,
};
use super::parsing::{parse_submission, spec_submission};
use super::routing::{is_misplaced, lemma_no_drone_is_misplaced};
use super::world::{Case, CaseView, Earth, EarthView};

verus! {

/// The views of a fleet.
pub open spec fn fleet_views<'case>(drones: Seq<Drone<'case>>) -> Seq<DroneView> {
    Seq::new(drones.len(), |i: int| drones[i]@)
}

/// The commands of what was taken off the queues.
pub open spec fn commands_of(due: Seq<Option<ExecutedCommand>>) -> Seq<Option<Command>> {
    Seq::new(
        due.len(),
        |i: int|
            match due[i] {
                Some(executed) => Some(executed.command),
                None => None,
            },
    )
}

/// Once a zero amount has been found, it stays the first.
pub proof fn lemma_zero_amount_stays(commands: Seq<Command>, found: nat, k: nat)
    requires
        zero_amount_upto(commands, found) is Some,
        found <= k,
    ensures
        zero_amount_upto(commands, k) == zero_amount_upto(commands, found),
    decreases k,
{
    if found < k {
        lemma_zero_amount_stays(commands, found, (k - 1) as nat);
    }
}

/// Once handing out the script has failed, it has failed.
pub proof fn lemma_schedule_failure_stays(
    drones: Seq<DroneView>,
    earth: EarthView,
    commands: Seq<Command>,
    failed: nat,
    k: nat,
)
    requires
        scheduled_upto(drones, earth, commands, failed) is Err,
        failed <= k,
    ensures
        scheduled_upto(drones, earth, commands, k) == scheduled_upto(
            drones,
            earth,
            commands,
            failed,
        ),
    decreases k,
{
    if failed < k {
        lemma_schedule_failure_stays(drones, earth, commands, failed, (k - 1) as nat);
    }
}

/// Once a half turn has failed, it has failed.
pub proof fn lemma_phase_failure_stays(
    case: CaseView,
    start: RunView,
    due: Seq<Option<Command>>,
    unloads: bool,
    turn: int,
    failed: nat,
    k: nat,
)
    requires
        phase_upto(case, start, due, unloads, turn, failed) is Err,
        failed <= k,
    ensures
        phase_upto(case, start, due, unloads, turn, k) == phase_upto(
            case,
            start,
            due,
            unloads,
            turn,
            failed,
        ),
    decreases k,
{
    if failed < k {
        lemma_phase_failure_stays(case, start, due, unloads, turn, failed, (k - 1) as nat);
    }
}

/// Once a run has failed, it has failed.
pub proof fn lemma_run_failure_stays(case: CaseView, start: RunView, failed: nat, turns: nat)
    requires
        run_upto(case, start, failed) is Err,
        failed <= turns,
    ensures
        run_upto(case, start, turns) == run_upto(case, start, failed),
    decreases turns,
{
    if failed < turns {
        lemma_run_failure_stays(case, start, failed, (turns - 1) as nat);
    }
}

/// Finds the first load, unload or delivery of no items.
pub fn check_amounts(commands: &Vec<Command>) -> (r: Result<(), Qual2016ScoringError>)
    ensures
        match zero_amount_upto(commands@, commands@.len()) {
            Some(drone_id) => r == Err::<(), Qual2016ScoringError>(
                Qual2016ScoringError::CommandWithAmountZero { drone_id },
            ),
            None => r is Ok,
        },
{
    let mut k: usize = 0;
    while k < commands.len()
        invariant
            0 <= k <= commands.len(),
            zero_amount_upto(commands@, k as nat) is None,
        decreases commands.len() - k,
    {
        let drone_id = commands[k].get_drone_id();
        let amount: Option<u16> = match commands[k] {
            Command::Load { number_of_items, .. } => Some(number_of_items),
            Command::Unload { number_of_items, .. } => Some(number_of_items),
            Command::Deliver { number_of_items, .. } => Some(number_of_items),
            _ => None,
        };
        assert(amount == commands@[k as int].spec_amount());
        if let Some(number_of_items) = amount {
            if number_of_items == 0 {
                proof {
                    assert(zero_amount_upto(commands@, (k + 1) as nat) == Some(drone_id));
                    lemma_zero_amount_stays(commands@, (k + 1) as nat, commands@.len());
                }
                return Err(Qual2016ScoringError::CommandWithAmountZero { drone_id });
            }
        }
        k = k + 1;
    }
    Ok(())
}

/// One run of the simulation: a fleet, its own copy of the warehouses and
/// orders, and the points so far.
pub struct Simulation<'case> {
    pub(crate) case: &'case Case,
    pub(crate) drones: Vec<Drone<'case>>,
    pub(crate) earth: Earth,
    pub(crate) score: Score,
}

impl<'case> View for Simulation<'case> {
    type V = RunView;

    open(crate) spec fn view(&self) -> RunView {
        RunView {
            drones: fleet_views(self.drones@),
            earth: self.earth@,
            score: self.score as int,
        }
    }
}

impl<'case> Simulation<'case> {
    /// The world of the run.
    pub open(crate) spec fn world(&self) -> CaseView {
        self.case@
    }

    /// The drones keep the rules, all of them fly in the world of the run,
    /// and the books are in order.
    pub open(crate) spec fn wf(&self) -> bool {
        &&& self.case.wf()
        &&& forall|i: int|
            0 <= i < self.drones.len() ==> (#[trigger] self.drones[i]).wf()
                && self.drones[i].world() == self.case@
        &&& accounted(self@)
        &&& self@.earth.orders.len() == self.case@.orders.len()
    }

    /// The points so far.
    pub fn score(&self) -> (score: Score)
        ensures
            score == self@.score,
    {
        self.score
    }

    /// The fleet, by drone id.
    pub fn drones(&self) -> (drones: &Vec<Drone<'case>>)
        ensures
            fleet_views(drones@) == self@.drones,
    {
        &self.drones
    }

    /// The warehouses and orders as they are now.
    pub fn earth(&self) -> (earth: &Earth)
        ensures
            earth@ == self@.earth,
    {
        &self.earth
    }

    /// A run at turn 0 with nothing to do yet.
    pub fn new(case: &'case Case) -> (simulation: Self)
        requires
            case.wf(),
            case@.has_launch_site(),
        ensures
            simulation@ == (RunView { drones: fleet(case@), earth: case@.earth(), score: 0 }),
            simulation.world() == case@,
            simulation.wf(),
    {
        let mut drones: Vec<Drone<'case>> = Vec::new();
        let mut i: DroneID = 0;
        while i < case.number_of_drones
            invariant
                case.wf(),
                case@.has_launch_site(),
                0 <= i <= case.number_of_drones,
                drones.len() == i,
                forall|j: int|
                    0 <= j < i ==> {
                        &&& (#[trigger] drones[j])@ == DroneView::new(
                            j as DroneID,
                            case@.launch_site(),
                        )
                        &&& drones[j].wf()
                        &&& drones[j].world() == case@
                    },
            decreases case.number_of_drones - i,
        {
            drones.push(Drone::new(i, case.warehouses[0].location, case));
            i = i + 1;
        }
        let simulation = Simulation { case, drones, earth: case.get_earth_bound(), score: 0 };
        proof {
            assert(simulation@.drones =~= fleet(case@));
            lemma_fresh_run_accounted(case@);
        }
        simulation
    }

    /// Hands the commands of a script to their drones, in the order of the
    /// script.
    pub fn register_all(&mut self, commands: &Vec<Command>) -> (r: Result<
        (),
        Qual2016ScoringError,
    >)
        requires
            old(self).wf(),
        ensures
            match scheduled_upto(old(self)@.drones, old(self)@.earth, commands@, commands@.len()) {
                Ok(drones) => r is Ok && final(self)@ == (RunView { drones, ..old(self)@ })
                    && final(self).wf(),
                Err(e) => r == Err::<(), Qual2016ScoringError>(e),
            },
            final(self).world() == old(self).world(),
    {
        let ghost start = self@;
        let mut k: usize = 0;
        while k < commands.len()
            invariant
                0 <= k <= commands.len(),
                self.wf(),
                self.world() == old(self).world(),
                start == old(self)@,
                self@.earth == start.earth,
                self@.score == start.score,
                scheduled_upto(start.drones, start.earth, commands@, k as nat) == Ok::<
                    Seq<DroneView>,
                    Qual2016ScoringError,
                >(self@.drones),
            decreases commands.len() - k,
        {
            let command = commands[k];
            let drone_id = command.get_drone_id();
            let ghost before = self@;
            if drone_id as usize >= self.drones.len() {
                proof {
                    lemma_schedule_failure_stays(
                        start.drones,
                        start.earth,
                        commands@,
                        (k + 1) as nat,
                        commands@.len(),
                    );
                }
                return Err(Qual2016ScoringError::CommandIssuedToUnknownDrone { drone_id });
            }
            match self.drones[drone_id as usize].register_command(command, &self.earth) {
                Ok(()) => {},
                Err(e) => {
                    proof {
                        lemma_schedule_failure_stays(
                            start.drones,
                            start.earth,
                            commands@,
                            (k + 1) as nat,
                            commands@.len(),
                        );
                    }
                    return Err(e);
                },
            }
            proof {
                let after = self@;
                assert(after.drones =~= before.drones.update(
                    drone_id as int,
                    after.drones[drone_id as int],
                ));
                lemma_same_carrying_accounted(before, after);
            }
            k = k + 1;
        }
        Ok(())
    }

    /// Drone number `i` executes `command` at `turn`.
    fn execute(&mut self, i: usize, command: Command, turn: Turn) -> (r: Result<
        (),
        Qual2016ScoringError,
    >)
        requires
            old(self).wf(),
            i < old(self)@.drones.len(),
            turn < old(self).world().total_turns,
            old(self)@.drones[i as int].next_turn == turn,
        ensures
            match old(self)@.execute(old(self).world(), i as int, command, turn as int) {
                Ok(run) => r is Ok && final(self)@ == run && final(self).wf(),
                Err(e) => r == Err::<(), Qual2016ScoringError>(e),
            },
            final(self).world() == old(self).world(),
    {
        let ghost before = self@;
        let ghost case = self.world();
        proof {
            assert forall|w: WarehouseID, p: ProductID|
                stock_fits(before.drones[i as int], before.earth, w, p) by {
                if w < before.earth.warehouses.len() {
                    lemma_accounted_fits(before, i as int, w as int, p);
                }
            }
            lemma_total_at_most(done_column(before.earth.orders), 1);
        }
        let points: Score = match command {
            Command::GeneratedFlight { to, .. } => {
                proof {
                    lemma_flight_time_is_rounded_distance(before.drones[i as int].location, to);
                }
                self.drones[i].fly_to(to);
                0
            },
            Command::Load { warehouse_id, product_id, number_of_items, .. } => {
                self.drones[i].on_earth(&mut self.earth).load(
                    warehouse_id,
                    product_id,
                    number_of_items,
                )?;
                0
            },
            Command::Unload { warehouse_id, product_id, number_of_items, .. } => {
                self.drones[i].on_earth(&mut self.earth).unload(
                    warehouse_id,
                    product_id,
                    number_of_items,
                )?;
                0
            },
            Command::Deliver { order_id, product_id, number_of_items, .. } => {
                let open: bool = !self.earth.get_order(order_id)?.is_done();
                self.drones[i].on_earth(&mut self.earth).deliver(
                    order_id,
                    product_id,
                    number_of_items,
                )?;
                if open && self.earth.get_order(order_id)?.is_done() {
                    let total_turns: u64 = self.case.total_turns as u64;
                    (100 * (total_turns - turn as u64) + total_turns - 1) / total_turns
                } else {
                    0
                }
            },
            Command::Wait { turns, .. } => {
                self.drones[i].wait(turns);
                0
            },
        };
        proof {
            let run = before.execute(case, i as int, command, turn as int)->Ok_0;
            assert(self@.drones =~= before.drones.update(i as int, self@.drones[i as int]));
            assert(self@.drones == run.drones);
            assert(self@.earth == run.earth);
            assert(points == run.score - before.score);
            lemma_execute_accounted(case, before, i as int, command, turn as int);
            assert(done_count(before.earth.orders) <= before.earth.orders.len());
        }
        self.score = self.score + points;
        Ok(())
    }

    /// Takes one command off the queue of every drone that is due at `turn`.
    fn dispatch(&mut self, turn: Turn) -> (due: Vec<Option<ExecutedCommand>>)
        requires
            old(self).wf(),
        ensures
            final(self)@ == (RunView { drones: dispatched(old(self)@.drones, turn as int), ..old(self)@ }),
            final(self).wf(),
            final(self).world() == old(self).world(),
            commands_of(due@) == due_commands(old(self)@.drones, turn as int),
            due@.len() == old(self)@.drones.len(),
            forall|i: int|
                0 <= i < due@.len() && due@[i] is Some ==> (#[trigger] final(self)@.drones[i]).next_turn
                    == turn,
    {
        let ghost before = self@;
        let mut due: Vec<Option<ExecutedCommand>> = Vec::new();
        let mut i: usize = 0;
        while i < self.drones.len()
            invariant
                0 <= i <= self.drones.len(),
                self.wf(),
                self.world() == old(self).world(),
                before == old(self)@,
                self@.earth == before.earth,
                self@.score == before.score,
                self@.drones.len() == before.drones.len(),
                due@.len() == i,
                forall|j: int|
                    0 <= j < i ==> (#[trigger] self@.drones[j]) == dispatched(
                        before.drones,
                        turn as int,
                    )[j],
                forall|j: int| i <= j < self.drones.len() ==> (#[trigger] self@.drones[j]) == before.drones[j],
                forall|j: int|
                    0 <= j < i ==> (#[trigger] commands_of(due@)[j]) == due_commands(
                        before.drones,
                        turn as int,
                    )[j],
                forall|j: int|
                    0 <= j < i && due@[j] is Some ==> (#[trigger] self@.drones[j]).next_turn == turn,
            decreases self.drones.len() - i,
        {
            let ghost earlier = self@;
            let ghost earlier_due = due@;
            let taken = self.drones[i].get_command_to_execute(turn);
            due.push(taken);
            proof {
                let after = self@;
                assert(after.drones =~= earlier.drones.update(i as int, after.drones[i as int]));
                lemma_same_carrying_accounted(earlier, after);
                assert(earlier.drones[i as int] == before.drones[i as int]);
                assert(after.drones[i as int] == dispatched(before.drones, turn as int)[i as int]);
                assert forall|j: int| 0 <= j < i + 1 implies (#[trigger] after.drones[j])
                    == dispatched(before.drones, turn as int)[j] by {
                    if j < i {
                        assert(earlier.drones[j] == dispatched(before.drones, turn as int)[j]);
                    }
                }
                assert forall|j: int| i + 1 <= j < after.drones.len() implies (
                #[trigger] after.drones[j]) == before.drones[j] by {
                    assert(earlier.drones[j] == before.drones[j]);
                }
                assert forall|j: int| 0 <= j < i + 1 implies (#[trigger] commands_of(due@)[j])
                    == due_commands(before.drones, turn as int)[j] by {
                    if j < i {
                        assert(due@[j] == earlier_due[j]);
                        assert(commands_of(earlier_due)[j] == due_commands(
                            before.drones,
                            turn as int,
                        )[j]);
                    }
                }
                assert forall|j: int| 0 <= j < i + 1 && due@[j] is Some implies (
                #[trigger] after.drones[j]).next_turn == turn by {
                    if j < i {
                        assert(due@[j] == earlier_due[j]);
                        assert(earlier.drones[j].next_turn == turn);
                    }
                }
            }
            i = i + 1;
        }
        proof {
            assert(self@.drones =~= dispatched(before.drones, turn as int));
            assert(commands_of(due@) =~= due_commands(before.drones, turn as int));
        }
        due
    }

    /// One half of a turn: the unloads among the commands that are due, or
    /// all the others, in the order of the drones.
    fn phase(&mut self, due: &Vec<Option<ExecutedCommand>>, unloads: bool, turn: Turn) -> (r:
        Result<(), Qual2016ScoringError>)
        requires
            old(self).wf(),
            due@.len() == old(self)@.drones.len(),
            turn < old(self).world().total_turns,
            forall|i: int|
                0 <= i < due@.len() && (#[trigger] due@[i]) is Some
                    && due@[i]->Some_0.command.spec_is_unload() == unloads ==> old(self)@.drones[i].next_turn == turn,
        ensures
            match phase_upto(
                old(self).world(),
                old(self)@,
                commands_of(due@),
                unloads,
                turn as int,
                due@.len(),
            ) {
                Ok(run) => r is Ok && final(self)@ == run && final(self).wf(),
                Err(e) => r == Err::<(), Qual2016ScoringError>(e),
            },
            final(self).world() == old(self).world(),
            r is Ok ==> final(self)@.drones.len() == old(self)@.drones.len(),
            r is Ok ==> forall|i: int|
                0 <= i < due@.len() && !((#[trigger] due@[i]) is Some
                    && due@[i]->Some_0.command.spec_is_unload() == unloads) ==> final(self)@.drones[i] == old(self)@.drones[i],
    {
        let ghost start = self@;
        let ghost case = self.world();
        let ghost commands = commands_of(due@);
        let mut i: usize = 0;
        while i < due.len()
            invariant
                0 <= i <= due.len(),
                self.wf(),
                self.world() == case,
                case == old(self).world(),
                start == old(self)@,
                commands == commands_of(due@),
                turn < case.total_turns,
                due@.len() == start.drones.len(),
                self@.drones.len() == start.drones.len(),
                phase_upto(case, start, commands, unloads, turn as int, i as nat) == Ok::<
                    RunView,
                    Qual2016ScoringError,
                >(self@),
                forall|j: int|
                    i <= j < due@.len() ==> (#[trigger] self@.drones[j]) == start.drones[j],
                forall|j: int|
                    0 <= j < i && !((#[trigger] due@[j]) is Some
                        && due@[j]->Some_0.command.spec_is_unload() == unloads)
                        ==> self@.drones[j] == start.drones[j],
                forall|j: int|
                    0 <= j < due@.len() && (#[trigger] due@[j]) is Some
                        && due@[j]->Some_0.command.spec_is_unload() == unloads
                        ==> start.drones[j].next_turn == turn,
            decreases due.len() - i,
        {
            let ghost earlier = self@;
            assert(commands[i as int] == (match due@[i as int] {
                Some(executed) => Some(executed.command),
                None => None,
            }));
            if let Some(executed) = due[i] {
                if executed.is_unload() == unloads {
                    assert(earlier.drones[i as int] == start.drones[i as int]);
                    match self.execute(i, executed.command, turn) {
                        Ok(()) => {},
                        Err(e) => {
                            proof {
                                assert(phase_upto(
                                    case,
                                    start,
                                    commands,
                                    unloads,
                                    turn as int,
                                    (i + 1) as nat,
                                ) == Err::<RunView, Qual2016ScoringError>(e));
                                lemma_phase_failure_stays(
                                    case,
                                    start,
                                    commands,
                                    unloads,
                                    turn as int,
                                    (i + 1) as nat,
                                    due@.len(),
                                );
                            }
                            return Err(e);
                        },
                    }
                }
            }
            i = i + 1;
        }
        Ok(())
    }

    /// Runs one turn.
    pub fn turn(&mut self, turn: Turn) -> (r: Result<(), Qual2016ScoringError>)
        requires
            old(self).wf(),
            turn < old(self).world().total_turns,
        ensures
            match turn_outcome(old(self).world(), old(self)@, turn as int) {
                Ok(run) => r is Ok && final(self)@ == run && final(self).wf(),
                Err(e) => r == Err::<(), Qual2016ScoringError>(e),
            },
            final(self).world() == old(self).world(),
    {
        let due = self.dispatch(turn);
        self.phase(&due, true, turn)?;
        self.phase(&due, false, turn)?;
        Ok(())
    }
}

/// Scores a script, given as its commands, in a world.
pub fn score_commands(case: &Case, commands: &Vec<Command>) -> (r: Result<
    Score,
    Qual2016ScoringError,
>)
    requires
        case.wf(),
        case@.has_launch_site(),
    ensures
        match spec_score_commands(case@, commands@) {
            Ok(points) => r == Ok::<Score, Qual2016ScoringError>(points as Score) && 0 <= points
                <= 100 * case@.orders.len(),
            Err(e) => r == Err::<Score, Qual2016ScoringError>(e) && !is_misplaced(e),
        },
{
    proof {
        lemma_no_drone_is_misplaced(case@, commands@);
    }
    check_amounts(commands)?;
    let mut simulation = Simulation::new(case);
    simulation.register_all(commands)?;
    let ghost start = simulation@;
    let mut t: Turn = 0;
    while t < case.total_turns
        invariant
            0 <= t <= case.total_turns,
            case@.total_turns == case.total_turns,
            simulation.wf(),
            simulation.world() == case@,
            launched(case@, commands@) == Ok::<RunView, Qual2016ScoringError>(start),
            run_upto(case@, start, t as nat) == Ok::<RunView, Qual2016ScoringError>(simulation@),
        decreases case.total_turns - t,
    {
        match simulation.turn(t) {
            Ok(()) => {},
            Err(e) => {
                proof {
                    assert(run_upto(case@, start, (t + 1) as nat) == Err::<
                        RunView,
                        Qual2016ScoringError,
                    >(e));
                    lemma_run_failure_stays(case@, start, (t + 1) as nat, case.total_turns as nat);
                    lemma_no_drone_is_misplaced(case@, commands@);
                }
                return Err(e);
            },
        }
        t = t + 1;
    }
    proof {
        lemma_total_at_most(done_column(simulation@.earth.orders), 1);
    }
    Ok(simulation.score())
}

/// The result of scoring the text of a script in a world.
pub open spec fn spec_score(case: CaseView, submission: Seq<u8>) -> Result<Score, ScoringError> {
    match spec_submission(submission) {
        Err(e) => Err(ScoringError::SubmissionFileError(e)),
        Ok((_, commands)) => match spec_score_commands(case, commands) {
            Err(e) => Err(ScoringError::ChallengeSpecific(e)),
            Ok(points) => Ok(points as Score),
        },
    }
}

/// Scores the text of a script in a world: the points of its run, or the
/// first thing that is wrong with it.
pub fn score(submission: &str, case: &Case) -> (r: Result<Score, ScoringError>)
    requires
        case.wf(),
        case@.has_launch_site(),
    ensures
        r == spec_score(case@, submission.spec_bytes()),
        r matches Ok(points) ==> points <= 100 * case@.orders.len(),
        r matches Err(ScoringError::ChallengeSpecific(e)) ==> !is_misplaced(e),
{
    let commands: Vec<Command> = match parse_submission(submission) {
        Ok((_, commands)) => commands,
        Err(e) => {
            return Err(ScoringError::SubmissionFileError(e));
        },
    };
    match score_commands(case, &commands) {
        Ok(points) => Ok(points),
        Err(e) => Err(ScoringError::ChallengeSpecific(e)),
    }
}

} // verus!
