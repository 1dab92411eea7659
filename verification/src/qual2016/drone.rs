//! One drone: where it is, what it carries, what it has been told to do, and
//! when it is next free.

use vstd::prelude::*;
use std::collections::{HashMap, VecDeque};
use super::command::Command;
use super::error::{DroneID, ProductID, Qual2016ScoringError, Stock, Weight};
use super::geometry::{lemma_flight_time_is_rounded_distance, spec_flight_time, Location, Turn};
use super::world::{Case, CaseView, Earth, EarthView};

verus! {

/// Weight of what is carried of the first `n` products of the catalog.
pub open spec fn weight_upto(case: CaseView, carrying: Map<ProductID, int>, n: nat) -> int
    decreases n,
{
    if n == 0 {
        0
    } else {
        weight_upto(case, carrying, (n - 1) as nat) + case.products[n - 1].weight * carrying[(n
            - 1) as ProductID]
    }
}

/// The place that the last command of `queue` with a place leaves a drone at;
/// `start` where no queued command has a place. It fails where a command that
/// is looked at names an unknown warehouse or order.
pub open spec fn last_location(queue: Seq<Command>, earth: EarthView, start: Location) -> Result<
    Location,
    Qual2016ScoringError,
>
    decreases queue.len(),
{
    if queue.len() == 0 {
        Ok(start)
    } else {
        match queue.last().location_on(earth) {
            Err(e) => Err(e),
            Ok(Some(location)) => Ok(location),
            Ok(None) => last_location(queue.drop_last(), earth, start),
        }
    }
}

/// What a drone is, as plain values.
pub struct DroneView {
    pub id: DroneID,
    pub location: Location,
    /// Items carried, for every product id (0 for what is not on board).
    pub carrying: Map<ProductID, int>,
    /// The commands that are still to be executed, the next one first.
    pub queue: Seq<Command>,
    /// The turn at which the drone executes its next command.
    pub next_turn: int,
}

impl DroneView {
    /// An empty, idle drone.
    pub open spec fn new(id: DroneID, location: Location) -> DroneView {
        DroneView {
            id,
            location,
            carrying: Map::total(|p: ProductID| 0int),
            queue: Seq::empty(),
            next_turn: 0,
        }
    }

    /// Total weight on board.
    pub open spec fn carried_weight(self, case: CaseView) -> int {
        weight_upto(case, self.carrying, case.products.len())
    }

    /// The drone carries products of the catalog only, a count of each that
    /// is not negative, and no more weight than a drone may.
    pub open spec fn wf(self, case: CaseView) -> bool {
        &&& self.carrying.dom() == Set::<ProductID>::full()
        &&& forall|p: ProductID| self.carrying[p] >= 0
        &&& forall|p: ProductID| p >= case.products.len() ==> self.carrying[p] == 0
        &&& self.carried_weight(case) <= case.max_payload
        &&& self.next_turn >= 0
    }

    pub open spec fn with_carried(self, product_id: ProductID, amount: int) -> DroneView {
        DroneView { carrying: self.carrying.insert(product_id, amount), ..self }
    }

    /// The drone is busy for `turns` more turns.
    pub open spec fn busy_for(self, turns: int) -> DroneView {
        DroneView { next_turn: self.next_turn + turns, ..self }
    }

    /// The drone after the flight to `location`.
    pub open spec fn fly_to(self, location: Location) -> DroneView {
        DroneView { location, ..self.busy_for(spec_flight_time(self.location, location)) }
    }

    /// The drone has a command to execute at `turn`.
    pub open spec fn due(self, turn: int) -> bool {
        self.next_turn == turn && self.queue.len() > 0
    }

    /// The drone without the command at the head of its queue.
    pub open spec fn popped(self) -> DroneView {
        DroneView { queue: self.queue.drop_first(), ..self }
    }

    /// The drone with `command` at the end of its queue, after a flight to
    /// the place of the command where the queue would not leave the drone
    /// there.
    pub open spec fn register(self, command: Command, earth: EarthView) -> Result<
        DroneView,
        Qual2016ScoringError,
    > {
        match last_location(self.queue, earth, self.location) {
            Err(e) => Err(e),
            Ok(last) => match command.location_on(earth) {
                Err(e) => Err(e),
                Ok(Some(next)) if next != last => Ok(
                    DroneView {
                        queue: self.queue.push(
                            Command::GeneratedFlight { drone_id: self.id, to: next },
                        ).push(command),
                        ..self
                    },
                ),
                Ok(_) => Ok(DroneView { queue: self.queue.push(command), ..self }),
            },
        }
    }
}

/// Changing the count of one product changes the weight by the weight of the
/// items that came or went.
pub proof fn lemma_weight_after_change(
    case: CaseView,
    carrying: Map<ProductID, int>,
    product_id: ProductID,
    amount: int,
    n: nat,
)
    requires
        n <= case.products.len() <= 0xffff,
    ensures
        weight_upto(case, carrying.insert(product_id, amount), n) == weight_upto(
            case,
            carrying,
            n,
        ) + if product_id < n {
            case.products[product_id as int].weight * (amount - carrying[product_id])
        } else {
            0
        },
    decreases n,
{
    if n > 0 {
        lemma_weight_after_change(case, carrying, product_id, amount, (n - 1) as nat);
        let w = case.products[n - 1].weight as int;
        if product_id == n - 1 {
            assert(w * amount == w * carrying[product_id] + w * (amount - carrying[product_id]))
                by (nonlinear_arith);
        }
    }
}

/// With no negative counts, the weight of the first products is at most the
/// weight of all, and never negative.
pub proof fn lemma_weight_monotone(case: CaseView, carrying: Map<ProductID, int>, m: nat, n: nat)
    requires
        m <= n <= case.products.len() <= 0xffff,
        forall|p: ProductID| carrying[p] >= 0,
    ensures
        0 <= weight_upto(case, carrying, m) <= weight_upto(case, carrying, n),
    decreases n,
{
    if n > 0 {
        let w = case.products[n - 1].weight as int;
        let c = carrying[(n - 1) as ProductID];
        assert(w * c >= 0) by (nonlinear_arith)
            requires
                w >= 0,
                c >= 0,
        ;
        if m < n {
            lemma_weight_monotone(case, carrying, m, (n - 1) as nat);
        } else {
            lemma_weight_monotone(case, carrying, (m - 1) as nat, (n - 1) as nat);
        }
    }
}

/// An empty drone weighs nothing.
pub proof fn lemma_weight_of_nothing(case: CaseView, n: nat)
    ensures
        weight_upto(case, Map::total(|p: ProductID| 0int), n) == 0,
    decreases n,
{
    if n > 0 {
        lemma_weight_of_nothing(case, (n - 1) as nat);
    }
}

/// Items of `product_id` that the table of a drone records.
pub open spec fn carried_in(carrying: Map<ProductID, Stock>, product_id: ProductID) -> int {
    if carrying.contains_key(product_id) {
        carrying[product_id] as int
    } else {
        0
    }
}

/// A drone of one run. It reads product weights from the world it flies in.
pub struct Drone<'case> {
    pub(crate) id: DroneID,
    pub(crate) to_execute: VecDeque<Command>,
    pub(crate) location: Location,
    pub(crate) carrying: HashMap<ProductID, Stock>,
    pub(crate) case: &'case Case,
    pub(crate) time_for_next_command: u64,
}

impl<'case> View for Drone<'case> {
    type V = DroneView;

    open(crate) spec fn view(&self) -> DroneView {
        DroneView {
            id: self.id,
            location: self.location,
            carrying: Map::total(|p: ProductID| carried_in(self.carrying@, p)),
            queue: self.to_execute@,
            next_turn: self.time_for_next_command as int,
        }
    }
}

/// A command taken off a drone's queue, to be executed this turn.
#[derive(Copy, Clone, Debug, PartialEq, Eq)]
pub struct ExecutedCommand {
    pub command: Command,
    /// The drone that executes it.
    pub on_drone: DroneID,
}

impl ExecutedCommand {
    pub fn is_unload(&self) -> (unload: bool)
        ensures
            unload == self.command.spec_is_unload(),
    {
        match &self.command {
            Command::Unload { .. } => true,
            _ => false,
        }
    }
}

impl<'case> Drone<'case> {
    /// The world the drone flies in.
    pub open(crate) spec fn world(&self) -> CaseView {
        self.case@
    }

    pub open spec fn wf(&self) -> bool {
        &&& self.world().wf()
        &&& self@.wf(self.world())
    }

    pub fn new(id: DroneID, location: Location, case: &'case Case) -> (drone: Self)
        ensures
            drone@ == DroneView::new(id, location),
            drone.world() == case@,
            case.wf() ==> drone.wf(),
    {
        let drone = Self {
            id,
            to_execute: VecDeque::new(),
            location,
            case,
            carrying: HashMap::new(),
            time_for_next_command: 0,
        };
        proof {
            assert(drone@.carrying =~= Map::total(|p: ProductID| 0int));
            lemma_weight_of_nothing(case@, case@.products.len());
        }
        drone
    }

    pub fn id(&self) -> (id: DroneID)
        ensures
            id == self@.id,
    {
        self.id
    }

    pub fn location(&self) -> (location: Location)
        ensures
            location == self@.location,
    {
        self.location
    }

    /// The turn at which the drone executes its next command.
    pub fn next_turn(&self) -> (turn: u64)
        ensures
            turn == self@.next_turn,
    {
        self.time_for_next_command
    }

    /// Number of commands that wait in the queue.
    pub fn queued(&self) -> (n: usize)
        ensures
            n == self@.queue.len(),
    {
        self.to_execute.len()
    }

    /// The command at place `i` of the queue, the next one being at place 0.
    pub fn queued_command(&self, i: usize) -> (command: Option<Command>)
        ensures
            command == (if i < self@.queue.len() {
                Some(self@.queue[i as int])
            } else {
                None
            }),
    {
        if i < self.to_execute.len() {
            Some(self.to_execute[i])
        } else {
            None
        }
    }

    /// Items of `product_id` on board.
    pub fn carried(&self, product_id: ProductID) -> (amount: Stock)
        ensures
            amount == self@.carrying[product_id],
    {
        match self.carrying.get(&product_id) {
            Some(amount) => *amount,
            None => 0,
        }
    }

    pub fn carried_weight(&self) -> (r: Result<Weight, Qual2016ScoringError>)
        requires
            self.wf(),
        ensures
            r == Ok::<Weight, Qual2016ScoringError>(self@.carried_weight(self.world()) as Weight),
            0 <= self@.carried_weight(self.world()) <= self.world().max_payload,
    {
        let mut weight: u64 = 0;
        let mut product_id: usize = 0;
        proof {
            lemma_weight_monotone(self.world(), self@.carrying, 0, self.world().products.len());
        }
        while product_id < self.case.products.len()
            invariant
                self.wf(),
                0 <= product_id <= self.case.products.len(),
                weight == weight_upto(self.world(), self@.carrying, product_id as nat),
            decreases self.case.products.len() - product_id,
        {
            let amount: u64 = self.carried(product_id as ProductID) as u64;
            let unit: u64 = self.case.products[product_id].weight as u64;
            proof {
                lemma_weight_monotone(
                    self.world(),
                    self@.carrying,
                    (product_id + 1) as nat,
                    self.world().products.len(),
                );
                assert(unit * amount <= 0xffff * 0xffff_ffff) by (nonlinear_arith)
                    requires
                        0 <= unit <= 0xffff,
                        0 <= amount <= 0xffff_ffff,
                ;
            }
            weight = weight + unit * amount;
            product_id = product_id + 1;
        }
        Ok(weight as Weight)
    }

    /// Weight that the drone can still take.
    pub fn room_left(&self) -> (r: Result<Weight, Qual2016ScoringError>)
        requires
            self.wf(),
        ensures
            r == Ok::<Weight, Qual2016ScoringError>(
                (self.world().max_payload - self@.carried_weight(self.world())) as Weight,
            ),
            0 <= self.world().max_payload - self@.carried_weight(self.world()) <= 0xffff,
    {
        let weight_limit = self.case.max_payload;
        let carried_weight = self.carried_weight()?;
        Ok(weight_limit - carried_weight)
    }

    /// Queues `command`, after a flight to its place where the drone would
    /// not be there. Nothing is queued where a command names an unknown
    /// warehouse or order.
    pub fn register_command(&mut self, command: Command, earth: &Earth) -> (r: Result<
        (),
        Qual2016ScoringError,
    >)
        ensures
            match old(self)@.register(command, earth@) {
                Ok(drone) => r is Ok && final(self)@ == drone,
                Err(e) => r == Err::<(), Qual2016ScoringError>(e) && final(self)@ == old(self)@,
            },
            final(self).world() == old(self).world(),
            old(self).wf() ==> final(self).wf(),
    {
        let mut last_known: Option<Location> = None;
        let mut i: usize = self.to_execute.len();
        assert(self.to_execute@.take(i as int) =~= self.to_execute@);
        while i > 0 && last_known.is_none()
            invariant
                *self == *old(self),
                0 <= i <= self.to_execute@.len(),
                match last_known {
                    Some(location) => last_location(self.to_execute@, earth@, self.location)
                        == Ok::<Location, Qual2016ScoringError>(location),
                    None => last_location(self.to_execute@, earth@, self.location)
                        == last_location(self.to_execute@.take(i as int), earth@, self.location),
                },
            decreases i + if last_known.is_none() { 1int } else { 0int },
        {
            i = i - 1;
            assert(self.to_execute@.take(i + 1).drop_last() =~= self.to_execute@.take(i as int));
            match self.to_execute[i].get_location(earth) {
                Ok(Some(location)) => {
                    last_known = Some(location);
                },
                Ok(None) => {},
                Err(e) => {
                    return Err(e);
                },
            }
        }
        let last: Location = match last_known {
            Some(location) => location,
            None => self.location,
        };
        let flight_command: Option<Command> = match command.get_location(earth)? {
            Some(next_location) => {
                if next_location != last {
                    Some(Command::GeneratedFlight { to: next_location, drone_id: self.id })
                } else {
                    None
                }
            },
            None => None,
        };
        if let Some(f_cmd) = flight_command {
            self.to_execute.push_back(f_cmd);
        }
        self.to_execute.push_back(command);
        Ok(())
    }

    /// Flies to `location`.
    pub fn fly_to(&mut self, location: Location)
        requires
            old(self)@.next_turn + spec_flight_time(old(self)@.location, location) <= u64::MAX,
        ensures
            final(self)@ == old(self)@.fly_to(location),
            final(self).world() == old(self).world(),
            old(self).wf() ==> final(self).wf(),
    {
        proof {
            lemma_flight_time_is_rounded_distance(self.location, location);
        }
        self.time_for_next_command = self.time_for_next_command + self.location.flight_time(
            &location,
        ) as u64;
        self.location = location;
    }

    /// Binds the drone and the world for one joint step.
    pub fn on_earth<'drone, 'earth>(&'drone mut self, earth: &'earth mut Earth) -> (r:
        DroneEarthInteraction<'case, 'drone, 'earth>)
        ensures
            *r.drone == *old(self),
            *r.earth == *old(earth),
            *final(r.drone) == *final(self),
            *final(r.earth) == *final(earth),
    {
        DroneEarthInteraction { drone: self, earth }
    }

    pub fn is_time_for_next_command(&self, time: Turn) -> (due: bool)
        ensures
            due == (self@.next_turn == time),
    {
        self.time_for_next_command == time as u64
    }

    /// Takes the head off the queue where the drone has a command to execute
    /// at `at_time`.
    pub fn get_command_to_execute(&mut self, at_time: Turn) -> (r: Option<ExecutedCommand>)
        ensures
            old(self)@.due(at_time as int) ==> final(self)@ == old(self)@.popped() && r == Some(
                ExecutedCommand { command: old(self)@.queue[0], on_drone: old(self)@.id },
            ),
            !old(self)@.due(at_time as int) ==> final(self)@ == old(self)@ && r is None,
            final(self).world() == old(self).world(),
            old(self).wf() ==> final(self).wf(),
    {
        if self.is_time_for_next_command(at_time) {
            match self.to_execute.pop_front() {
                Some(command) => Some(ExecutedCommand { command, on_drone: self.id }),
                None => None,
            }
        } else {
            None
        }
    }

    /// Stays idle for `turns_to_wait` turns.
    pub fn wait(&mut self, turns_to_wait: Turn)
        requires
            old(self)@.next_turn + turns_to_wait <= u64::MAX,
        ensures
            final(self)@ == old(self)@.busy_for(turns_to_wait as int),
            final(self).world() == old(self).world(),
            old(self).wf() ==> final(self).wf(),
    {
        self.time_for_next_command = self.time_for_next_command + turns_to_wait as u64;
    }
}

/// One drone and the world, bound for the time of one command: the command is
/// checked against both and then applied to both, or to neither.
pub struct DroneEarthInteraction<'case, 'drone, 'earth> {
    pub drone: &'drone mut Drone<'case>,
    pub earth: &'earth mut Earth,
}

} // verus!
