//! Judge for a drone-delivery routing puzzle: a world description and a
//! contestant's action script are simulated turn by turn, and the run yields
//! either a score or a typed failure.

use vstd::prelude::*;

pub mod qual2016;

use qual2016::error::Qual2016ScoringError;
use qual2016::parsing::ParseError;

verus! {

pub type Score = u64;

pub type Year = u32;

/// The key by which a caller selects a world.
#[derive(Ord, PartialOrd, Eq, PartialEq, Debug, Clone, Hash)]
pub struct InputFileName(pub String);

impl View for InputFileName {
    type V = Seq<char>;

    open spec fn view(&self) -> Seq<char> {
        self.0@
    }
}

impl From<&str> for InputFileName {
    fn from(s: &str) -> (name: Self)
        ensures
            name@ == s@,
    {
        Self(s.to_owned())
    }
}

impl vstd::std_specs::convert::FromSpecImpl<&str> for InputFileName {
    open spec fn obeys_from_spec() -> bool {
        false
    }

    open spec fn from_spec(s: &str) -> Self {
        arbitrary()
    }
}

/// Why a submission got no score.
#[derive(Debug, Clone, PartialEq, Eq)]
pub enum ScoringError {
    MissingLine,
    ExpectedANumber,
    /// No world goes by that name.
    UnknownInputCase(InputFileName),
    /// The script broke a rule of the game.
    ChallengeSpecific(Qual2016ScoringError),
    /// The world description does not follow its grammar.
    InputFileError(ParseError),
    /// The script does not follow its grammar.
    SubmissionFileError(ParseError),
}

impl From<Qual2016ScoringError> for ScoringError {
    fn from(e: Qual2016ScoringError) -> (error: Self) {
        ScoringError::ChallengeSpecific(e)
    }
}

impl vstd::std_specs::convert::FromSpecImpl<Qual2016ScoringError> for ScoringError {
    open spec fn obeys_from_spec() -> bool {
        true
    }

    open spec fn from_spec(e: Qual2016ScoringError) -> Self {
        ScoringError::ChallengeSpecific(e)
    }
}

/// The round of the contest that a challenge was set for.
#[derive(Copy, Clone, Hash, Debug, Ord, PartialOrd, PartialEq, Eq, Structural)]
pub enum ChallengeDate {
    Qualification(Year),
    Final(Year),
}

/// A challenge of the contest: its round, and the names of its worlds.
#[derive(Debug)]
pub struct Challenge {
    pub input_file_names: Vec<InputFileName>,
    pub date: ChallengeDate,
}

impl Challenge {
    /// The names of the worlds, as texts.
    pub open spec fn names(self) -> Seq<Seq<char>> {
        Seq::new(self.input_file_names@.len(), |i: int| self.input_file_names@[i]@)
    }
}

/// The challenges that the judge knows: the qualification rounds of 2020 and
/// of 2016, with the names of their worlds.
pub fn get_challenges() -> (challenges: Vec<Challenge>)
    ensures
        challenges@.len() == 2,
        challenges@[0].date == ChallengeDate::Qualification(2020),
        challenges@[0].names() == seq!["a"@, "b"@, "c"@, "d"@, "e"@, "f"@],
        challenges@[1].date == ChallengeDate::Qualification(2016),
        challenges@[1].names() == seq![
            "example"@,
            "busy_day"@,
            "mother_of_all_warehouses"@,
            "redundancy"@,
        ],
{
    let mut books: Vec<InputFileName> = Vec::new();
    books.push(InputFileName::from("a"));
    books.push(InputFileName::from("b"));
    books.push(InputFileName::from("c"));
    books.push(InputFileName::from("d"));
    books.push(InputFileName::from("e"));
    books.push(InputFileName::from("f"));
    let mut drones: Vec<InputFileName> = Vec::new();
    drones.push(InputFileName::from("example"));
    drones.push(InputFileName::from("busy_day"));
    drones.push(InputFileName::from("mother_of_all_warehouses"));
    drones.push(InputFileName::from("redundancy"));
    let qual2020 = Challenge { input_file_names: books, date: ChallengeDate::Qualification(2020) };
    let qual2016 = Challenge {
        input_file_names: drones,
        date: ChallengeDate::Qualification(2016),
    };
    assert(qual2020.names() =~= seq!["a"@, "b"@, "c"@, "d"@, "e"@, "f"@]);
    assert(qual2016.names() =~= seq![
        "example"@,
        "busy_day"@,
        "mother_of_all_warehouses"@,
        "redundancy"@,
    ]);
    let mut challenges: Vec<Challenge> = Vec::new();
    challenges.push(qual2020);
    challenges.push(qual2016);
    challenges
}

} // verus!
