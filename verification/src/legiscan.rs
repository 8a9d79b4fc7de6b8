//! The data of Legiscan: states, parties, bills and people.
//!
//! The records are plain values, as they come out of a Legiscan dataset. Reading a dataset is up
//! to the caller.

use crate::text::{decimal, push_char, string_views, to_decimal};
use vstd::prelude::*;
use vstd::string::*;

verus! {

/// A US state.
#[derive(Clone, Copy, Debug, PartialEq, Eq, Structural)]
pub enum State {
    AL,
    AK,
    AZ,
    AR,
    CA,
    CO,
    CT,
    DE,
    FL,
    GA,
    HI,
    ID,
    IL,
    IN,
    IA,
    KS,
    KY,
    LA,
    ME,
    MD,
    MA,
    MI,
    MN,
    MS,
    MO,
    MT,
    NE,
    NV,
    NH,
    NJ,
    NM,
    NY,
    NC,
    ND,
    OH,
    OK,
    OR,
    PA,
    RI,
    SC,
    SD,
    TN,
    TX,
    UT,
    VT,
    VA,
    WA,
    WI,
    WV,
    WY,
    DC,
}

/// Why a number is not the ID of a state.
#[derive(Clone, Copy, Debug, PartialEq, Eq, Structural)]
pub enum StateIdError {
    /// The ID is 0.
    Zero,
    /// The ID is greater than the number of states.
    Invalid { id: u8 },
}

impl StateIdError {
    /// The text of this error's message.
    pub open spec fn message(self) -> Seq<char> {
        match self {
            StateIdError::Zero => "state ID cannot be 0"@,
            StateIdError::Invalid { id } => "invalid state ID "@ + decimal(id as nat),
        }
    }

    /// Format this error as a message.
    pub fn to_string(&self) -> (r: String)
        ensures
            r@ == self.message(),
    {
        match self {
            StateIdError::Zero => String::from_str("state ID cannot be 0"),
            StateIdError::Invalid { id } => {
                let mut out = String::from_str("invalid state ID ");
                out.append(to_decimal(*id as u64).as_str());
                out
            },
        }
    }
}

impl State {
    /// The numeric ID of this state: its position among the states, counting from 1.
    pub open spec fn spec_id(&self) -> u8 {
        match *self {
            State::AL => 1,
            State::AK => 2,
            State::AZ => 3,
            State::AR => 4,
            State::CA => 5,
            State::CO => 6,
            State::CT => 7,
            State::DE => 8,
            State::FL => 9,
            State::GA => 10,
            State::HI => 11,
            State::ID => 12,
            State::IL => 13,
            State::IN => 14,
            State::IA => 15,
            State::KS => 16,
            State::KY => 17,
            State::LA => 18,
            State::ME => 19,
            State::MD => 20,
            State::MA => 21,
            State::MI => 22,
            State::MN => 23,
            State::MS => 24,
            State::MO => 25,
            State::MT => 26,
            State::NE => 27,
            State::NV => 28,
            State::NH => 29,
            State::NJ => 30,
            State::NM => 31,
            State::NY => 32,
            State::NC => 33,
            State::ND => 34,
            State::OH => 35,
            State::OK => 36,
            State::OR => 37,
            State::PA => 38,
            State::RI => 39,
            State::SC => 40,
            State::SD => 41,
            State::TN => 42,
            State::TX => 43,
            State::UT => 44,
            State::VT => 45,
            State::VA => 46,
            State::WA => 47,
            State::WI => 48,
            State::WV => 49,
            State::WY => 50,
            State::DC => 51,
        }
    }

    /// The numeric ID of this state.
    #[verifier::when_used_as_spec(spec_id)]
    pub fn id(&self) -> (r: u8)
        ensures
            r == self.spec_id(),
            1 <= r <= 51,
    {
        match self {
            State::AL => 1,
            State::AK => 2,
            State::AZ => 3,
            State::AR => 4,
            State::CA => 5,
            State::CO => 6,
            State::CT => 7,
            State::DE => 8,
            State::FL => 9,
            State::GA => 10,
            State::HI => 11,
            State::ID => 12,
            State::IL => 13,
            State::IN => 14,
            State::IA => 15,
            State::KS => 16,
            State::KY => 17,
            State::LA => 18,
            State::ME => 19,
            State::MD => 20,
            State::MA => 21,
            State::MI => 22,
            State::MN => 23,
            State::MS => 24,
            State::MO => 25,
            State::MT => 26,
            State::NE => 27,
            State::NV => 28,
            State::NH => 29,
            State::NJ => 30,
            State::NM => 31,
            State::NY => 32,
            State::NC => 33,
            State::ND => 34,
            State::OH => 35,
            State::OK => 36,
            State::OR => 37,
            State::PA => 38,
            State::RI => 39,
            State::SC => 40,
            State::SD => 41,
            State::TN => 42,
            State::TX => 43,
            State::UT => 44,
            State::VT => 45,
            State::VA => 46,
            State::WA => 47,
            State::WI => 48,
            State::WV => 49,
            State::WY => 50,
            State::DC => 51,
        }
    }

    /// The state with the given numeric ID.
    ///
    /// # Errors
    ///
    /// Fails if the ID is 0 or greater than the number of states.
    pub fn try_from(id: u8) -> (r: Result<State, StateIdError>)
        ensures
            id == 0 ==> r == Err::<State, StateIdError>(StateIdError::Zero),
            id > 51 ==> r == Err::<State, StateIdError>(StateIdError::Invalid { id }),
            1 <= id <= 51 ==> (r matches Ok(state) && state.id() == id),
    {
        match id {
            0 => Err(StateIdError::Zero),
            1 => Ok(State::AL),
            2 => Ok(State::AK),
            3 => Ok(State::AZ),
            4 => Ok(State::AR),
            5 => Ok(State::CA),
            6 => Ok(State::CO),
            7 => Ok(State::CT),
            8 => Ok(State::DE),
            9 => Ok(State::FL),
            10 => Ok(State::GA),
            11 => Ok(State::HI),
            12 => Ok(State::ID),
            13 => Ok(State::IL),
            14 => Ok(State::IN),
            15 => Ok(State::IA),
            16 => Ok(State::KS),
            17 => Ok(State::KY),
            18 => Ok(State::LA),
            19 => Ok(State::ME),
            20 => Ok(State::MD),
            21 => Ok(State::MA),
            22 => Ok(State::MI),
            23 => Ok(State::MN),
            24 => Ok(State::MS),
            25 => Ok(State::MO),
            26 => Ok(State::MT),
            27 => Ok(State::NE),
            28 => Ok(State::NV),
            29 => Ok(State::NH),
            30 => Ok(State::NJ),
            31 => Ok(State::NM),
            32 => Ok(State::NY),
            33 => Ok(State::NC),
            34 => Ok(State::ND),
            35 => Ok(State::OH),
            36 => Ok(State::OK),
            37 => Ok(State::OR),
            38 => Ok(State::PA),
            39 => Ok(State::RI),
            40 => Ok(State::SC),
            41 => Ok(State::SD),
            42 => Ok(State::TN),
            43 => Ok(State::TX),
            44 => Ok(State::UT),
            45 => Ok(State::VT),
            46 => Ok(State::VA),
            47 => Ok(State::WA),
            48 => Ok(State::WI),
            49 => Ok(State::WV),
            50 => Ok(State::WY),
            51 => Ok(State::DC),
            _ => Err(StateIdError::Invalid { id }),
        }
    }

    /// The full name of this state.
    pub open spec fn spec_name(&self) -> Seq<char> {
        match *self {
            State::AL => "Alabama"@,
            State::AK => "Alaska"@,
            State::AZ => "Arizona"@,
            State::AR => "Arkansas"@,
            State::CA => "California"@,
            State::CO => "Colorado"@,
            State::CT => "Connecticut"@,
            State::DE => "Delaware"@,
            State::FL => "Florida"@,
            State::GA => "Georgia"@,
            State::HI => "Hawaii"@,
            State::ID => "Idaho"@,
            State::IL => "Illinois"@,
            State::IN => "Indiana"@,
            State::IA => "Iowa"@,
            State::KS => "Kansas"@,
            State::KY => "Kentucky"@,
            State::LA => "Louisiana"@,
            State::ME => "Maine"@,
            State::MD => "Maryland"@,
            State::MA => "Massachusetts"@,
            State::MI => "Michigan"@,
            State::MN => "Minnesota"@,
            State::MS => "Mississippi"@,
            State::MO => "Missouri"@,
            State::MT => "Montana"@,
            State::NE => "Nebraska"@,
            State::NV => "Nevada"@,
            State::NH => "New Hampshire"@,
            State::NJ => "New Jersey"@,
            State::NM => "New Mexico"@,
            State::NY => "New York"@,
            State::NC => "North Carolina"@,
            State::ND => "North Dakota"@,
            State::OH => "Ohio"@,
            State::OK => "Oklahoma"@,
            State::OR => "Oregon"@,
            State::PA => "Pennsylvania"@,
            State::RI => "Rhode Island"@,
            State::SC => "South Carolina"@,
            State::SD => "South Dakota"@,
            State::TN => "Tennessee"@,
            State::TX => "Texas"@,
            State::UT => "Utah"@,
            State::VT => "Vermont"@,
            State::VA => "Virginia"@,
            State::WA => "Washington"@,
            State::WI => "Wisconsin"@,
            State::WV => "West Virginia"@,
            State::WY => "Wyoming"@,
            State::DC => "Washington, D.C."@,
        }
    }

    /// The full name of this state.
    pub fn name(&self) -> (r: &'static str)
        ensures
            r@ == self.spec_name(),
    {
        match self {
            State::AL => "Alabama",
            State::AK => "Alaska",
            State::AZ => "Arizona",
            State::AR => "Arkansas",
            State::CA => "California",
            State::CO => "Colorado",
            State::CT => "Connecticut",
            State::DE => "Delaware",
            State::FL => "Florida",
            State::GA => "Georgia",
            State::HI => "Hawaii",
            State::ID => "Idaho",
            State::IL => "Illinois",
            State::IN => "Indiana",
            State::IA => "Iowa",
            State::KS => "Kansas",
            State::KY => "Kentucky",
            State::LA => "Louisiana",
            State::ME => "Maine",
            State::MD => "Maryland",
            State::MA => "Massachusetts",
            State::MI => "Michigan",
            State::MN => "Minnesota",
            State::MS => "Mississippi",
            State::MO => "Missouri",
            State::MT => "Montana",
            State::NE => "Nebraska",
            State::NV => "Nevada",
            State::NH => "New Hampshire",
            State::NJ => "New Jersey",
            State::NM => "New Mexico",
            State::NY => "New York",
            State::NC => "North Carolina",
            State::ND => "North Dakota",
            State::OH => "Ohio",
            State::OK => "Oklahoma",
            State::OR => "Oregon",
            State::PA => "Pennsylvania",
            State::RI => "Rhode Island",
            State::SC => "South Carolina",
            State::SD => "South Dakota",
            State::TN => "Tennessee",
            State::TX => "Texas",
            State::UT => "Utah",
            State::VT => "Vermont",
            State::VA => "Virginia",
            State::WA => "Washington",
            State::WI => "Wisconsin",
            State::WV => "West Virginia",
            State::WY => "Wyoming",
            State::DC => "Washington, D.C.",
        }
    }
}

/// The state with the ID of a state is that state.
pub proof fn lemma_state_id(state: State)
    ensures
        1 <= state.id() <= 51,
        forall|other: State| other.id() == state.id() ==> other == state,
{
}

/// The possible statuses of a bill.
#[derive(Clone, Copy, Debug, PartialEq, Eq, Structural)]
pub enum Status {
    /// The bill has no status, or a status which is not known.
    Unknown,
    Introduced,
    Engrossed,
    Enrolled,
    Passed,
    Vetoed,
    Failed,
}

impl Status {
    /// The status with the given code: a code which is not known gives no status.
    pub open spec fn of(code: u8) -> Status {
        if code == 1 {
            Status::Introduced
        } else if code == 2 {
            Status::Engrossed
        } else if code == 3 {
            Status::Enrolled
        } else if code == 4 {
            Status::Passed
        } else if code == 5 {
            Status::Vetoed
        } else if code == 6 {
            Status::Failed
        } else {
            Status::Unknown
        }
    }

    /// The name of this status.
    pub open spec fn spec_name(&self) -> Seq<char> {
        match *self {
            Status::Unknown => "None"@,
            Status::Introduced => "Introduced"@,
            Status::Engrossed => "Engrossed"@,
            Status::Enrolled => "Enrolled"@,
            Status::Passed => "Passed"@,
            Status::Vetoed => "Vetoed"@,
            Status::Failed => "Failed"@,
        }
    }

    /// Format this status as its name.
    pub fn to_string(&self) -> (r: String)
        ensures
            r@ == self.spec_name(),
    {
        match self {
            Status::Unknown => String::from_str("None"),
            Status::Introduced => String::from_str("Introduced"),
            Status::Engrossed => String::from_str("Engrossed"),
            Status::Enrolled => String::from_str("Enrolled"),
            Status::Passed => String::from_str("Passed"),
            Status::Vetoed => String::from_str("Vetoed"),
            Status::Failed => String::from_str("Failed"),
        }
    }
}

/// A US political party.
#[derive(Clone, Copy, Debug, PartialEq, Eq, Structural)]
pub enum Party {
    Unknown,
    Democrat,
    Republican,
    Independent,
    Green,
    Libertarian,
    Nonpartisan,
}

impl Party {
    /// The numeric ID of this party: its position among the parties, counting from 1.
    pub open spec fn spec_id(&self) -> u8 {
        match *self {
            Party::Unknown => 1,
            Party::Democrat => 2,
            Party::Republican => 3,
            Party::Independent => 4,
            Party::Green => 5,
            Party::Libertarian => 6,
            Party::Nonpartisan => 7,
        }
    }

    /// The numeric ID of this party.
    #[verifier::when_used_as_spec(spec_id)]
    pub fn id(&self) -> (r: u8)
        ensures
            r == self.spec_id(),
    {
        match self {
            Party::Unknown => 1,
            Party::Democrat => 2,
            Party::Republican => 3,
            Party::Independent => 4,
            Party::Green => 5,
            Party::Libertarian => 6,
            Party::Nonpartisan => 7,
        }
    }

    /// The one-letter abbreviation for this party.
    pub open spec fn spec_abbreviation(&self) -> Seq<char> {
        match *self {
            Party::Unknown => "?"@,
            Party::Democrat => "D"@,
            Party::Republican => "R"@,
            Party::Independent => "I"@,
            Party::Green => "G"@,
            Party::Libertarian => "L"@,
            Party::Nonpartisan => "n/a"@,
        }
    }

    /// The one-letter abbreviation for this party.
    pub fn abbreviation(&self) -> (r: &'static str)
        ensures
            r@ == self.spec_abbreviation(),
    {
        match self {
            Party::Unknown => "?",
            Party::Democrat => "D",
            Party::Republican => "R",
            Party::Independent => "I",
            Party::Green => "G",
            Party::Libertarian => "L",
            Party::Nonpartisan => "n/a",
        }
    }

    /// The party with the given ID in Legiscan: an ID which is not known gives no party.
    pub open spec fn of(party_id: Seq<char>) -> Party {
        if party_id == "1"@ {
            Party::Democrat
        } else if party_id == "2"@ {
            Party::Republican
        } else if party_id == "3"@ {
            Party::Independent
        } else if party_id == "4"@ {
            Party::Green
        } else if party_id == "5"@ {
            Party::Libertarian
        } else if party_id == "6"@ {
            Party::Nonpartisan
        } else {
            Party::Unknown
        }
    }
}

/// A first, middle, and last name.
#[derive(Debug, PartialEq, Eq)]
pub struct Name {
    pub first: String,
    pub middle: String,
    pub last: String,
}

impl Clone for Name {
    fn clone(&self) -> (r: Self)
        ensures
            r == *self,
    {
        Name { first: self.first.clone(), middle: self.middle.clone(), last: self.last.clone() }
    }
}

impl Name {
    /// The full name: the first name, the middle name if there is one, and the last name,
    /// separated by spaces.
    pub open spec fn text(self) -> Seq<char> {
        if self.middle@.len() == 0 {
            self.first@ + " "@ + self.last@
        } else {
            self.first@ + " "@ + self.middle@ + " "@ + self.last@
        }
    }

    /// Format this name in full.
    pub fn to_string(&self) -> (r: String)
        ensures
            r@ == self.text(),
    {
        let mut out = self.first.clone();
        out.append(" ");
        if !self.middle.as_str().is_empty() {
            out.append(self.middle.as_str());
            out.append(" ");
        }
        out.append(self.last.as_str());
        out
    }
}

/// A subject of legislation.
#[derive(Debug, PartialEq, Eq)]
pub struct Subject {
    pub subject_id: u64,
    pub subject_name: String,
}

impl Clone for Subject {
    fn clone(&self) -> (r: Self)
        ensures
            r == *self,
    {
        Subject { subject_id: self.subject_id, subject_name: self.subject_name.clone() }
    }
}

/// Information about a person.
#[derive(Debug, PartialEq, Eq)]
pub struct Person {
    pub people_id: u64,
    pub person_hash: String,
    pub state_id: State,
    pub party_id: String,
    pub name: String,
    pub first_name: String,
    pub middle_name: String,
    pub last_name: String,
    pub district: String,
}

impl Clone for Person {
    fn clone(&self) -> (r: Self)
        ensures
            r == *self,
    {
        Person {
            people_id: self.people_id,
            person_hash: self.person_hash.clone(),
            state_id: self.state_id,
            party_id: self.party_id.clone(),
            name: self.name.clone(),
            first_name: self.first_name.clone(),
            middle_name: self.middle_name.clone(),
            last_name: self.last_name.clone(),
            district: self.district.clone(),
        }
    }
}

impl Person {
    /// The unique identifier for this person in the Legiscan API.
    pub fn id(&self) -> (r: String)
        ensures
            r@ == decimal(self.people_id as nat),
    {
        to_decimal(self.people_id)
    }

    /// The hash of the information about this person.
    pub fn hash(&self) -> (r: String)
        ensures
            r == self.person_hash,
    {
        self.person_hash.clone()
    }

    /// The state where this person is a legislator.
    pub fn state(&self) -> (r: State)
        ensures
            r == self.state_id,
    {
        self.state_id
    }

    /// The political party of which this person is a member.
    pub fn party(&self) -> (r: Party)
        ensures
            r == Party::of(self.party_id@),
    {
        let id = self.party_id.as_str();
        if crate::text::str_eq(id, "1") {
            Party::Democrat
        } else if crate::text::str_eq(id, "2") {
            Party::Republican
        } else if crate::text::str_eq(id, "3") {
            Party::Independent
        } else if crate::text::str_eq(id, "4") {
            Party::Green
        } else if crate::text::str_eq(id, "5") {
            Party::Libertarian
        } else if crate::text::str_eq(id, "6") {
            Party::Nonpartisan
        } else {
            Party::Unknown
        }
    }

    /// The person's full name.
    pub fn name(&self) -> (r: Name)
        ensures
            r == (Name { first: self.first_name, middle: self.middle_name, last: self.last_name }),
    {
        Name {
            first: self.first_name.clone(),
            middle: self.middle_name.clone(),
            last: self.last_name.clone(),
        }
    }

    /// The name of the district this person represents.
    pub fn district(&self) -> (r: String)
        ensures
            r == self.district,
    {
        self.district.clone()
    }

    /// Whether this "person" is an issue: it has neither a first name, nor a last name, nor a
    /// district.
    pub open spec fn is_issue(&self) -> bool {
        self.first_name@.len() == 0 && self.last_name@.len() == 0 && self.district@.len() == 0
    }

    /// Is this "person" actually an issue?
    ///
    /// Sometimes, for some states, the Legiscan API erroneously categorizes subjects (or topic)
    /// as people, so that all of the subjects related to legislation in that state will show up
    /// as people in the state dataset, and the subjects of a bill will actually show up as
    /// sponsors.
    ///
    /// # Returns
    ///
    /// The name of the issue if this is an issue; otherwise [`None`].
    pub fn is_actually_issue_not_person(&self) -> (r: Option<String>)
        ensures
            r == if self.is_issue() {
                Some(self.name)
            } else {
                None
            },
    {
        if self.first_name.as_str().is_empty() && self.last_name.as_str().is_empty()
            && self.district.as_str().is_empty() {
            Some(self.name.clone())
        } else {
            None
        }
    }
}

/// The test of whether a "person" is a person.
pub open spec fn is_person() -> spec_fn(Person) -> bool {
    |person: Person| !person.is_issue()
}

/// The test of whether a "person" is an issue.
pub open spec fn is_issue() -> spec_fn(Person) -> bool {
    |person: Person| person.is_issue()
}

/// The identifier of a person.
pub open spec fn person_id() -> spec_fn(Person) -> Seq<char> {
    |person: Person| decimal(person.people_id as nat)
}

/// The name of a person.
pub open spec fn person_name() -> spec_fn(Person) -> String {
    |person: Person| person.name
}

/// The name of a subject.
pub open spec fn subject_name() -> spec_fn(Subject) -> String {
    |subject: Subject| subject.subject_name
}

/// Filter out the "people" that are actually miscategorized subjects.
pub fn people(all: &Vec<Person>) -> (r: Vec<Person>)
    ensures
        r@ == all@.filter(is_person()),
{
    let mut out: Vec<Person> = Vec::new();
    let mut i: usize = 0;
    proof {
        reveal(Seq::filter);
        assert(all@.take(0) =~= Seq::<Person>::empty());
    }
    while i < all.len()
        invariant
            i <= all@.len(),
            out@ == all@.take(i as int).filter(is_person()),
        decreases all@.len() - i,
    {
        proof {
            assert(all@.take(i + 1) =~= all@.take(i as int).push(all@[i as int]));
            all@.take(i as int).lemma_filter_push(all@[i as int], is_person());
        }
        if all[i].is_actually_issue_not_person().is_none() {
            out.push(all[i].clone());
        }
        i += 1;
    }
    proof {
        assert(all@.take(all@.len() as int) =~= all@);
    }
    out
}

/// Information about a bill.
#[derive(Debug, PartialEq, Eq)]
pub struct Bill {
    pub bill_id: u64,
    pub change_hash: String,
    pub session_id: u64,
    pub status: u8,
    pub state: State,
    pub bill_number: String,
    pub title: String,
    pub description: String,
    pub sponsors: Vec<Person>,
    pub subjects: Vec<Subject>,
}

impl Bill {
    /// The unique identifier for this bill in the Legiscan API.
    pub fn id(&self) -> (r: String)
        ensures
            r@ == decimal(self.bill_id as nat),
    {
        to_decimal(self.bill_id)
    }

    /// The hash of the contents of this bill.
    pub fn hash(&self) -> (r: String)
        ensures
            r == self.change_hash,
    {
        self.change_hash.clone()
    }

    /// The state where this bill has been introduced.
    pub fn state(&self) -> (r: State)
        ensures
            r == self.state,
    {
        self.state
    }

    /// The status of this bill.
    pub fn status(&self) -> (r: Status)
        ensures
            r == Status::of(self.status),
    {
        match self.status {
            1 => Status::Introduced,
            2 => Status::Engrossed,
            3 => Status::Enrolled,
            4 => Status::Passed,
            5 => Status::Vetoed,
            6 => Status::Failed,
            _ => Status::Unknown,
        }
    }

    /// The short name of this bill (usually a body abbreviation and a number).
    pub fn name(&self) -> (r: String)
        ensures
            r == self.bill_number,
    {
        self.bill_number.clone()
    }

    /// A readable title for the bill.
    pub fn title(&self) -> (r: String)
        ensures
            r == self.title,
    {
        self.title.clone()
    }

    /// A brief summary of this bill.
    pub fn summary(&self) -> (r: String)
        ensures
            r == self.description,
    {
        self.description.clone()
    }

    /// The unique [`id`](Person::id) of each sponsor of this bill.
    ///
    /// Sometimes, Legiscan will miscategorize a subject as a person, and then bills related to
    /// that subject get the pseudo-person listed as a sponsor, rather than the subject listed in
    /// `subjects`. These pseudo-sponsors are filtered out.
    pub fn sponsors(&self) -> (r: Vec<String>)
        ensures
            string_views(r@) == self.sponsors@.filter(is_person()).map_values(person_id()),
    {
        let mut out: Vec<String> = Vec::new();
        let mut i: usize = 0;
        proof {
            reveal(Seq::filter);
            assert(self.sponsors@.take(0) =~= Seq::<Person>::empty());
            assert(string_views(out@) =~= self.sponsors@.take(0).filter(is_person()).map_values(person_id()));
        }
        while i < self.sponsors.len()
            invariant
                i <= self.sponsors@.len(),
                string_views(out@) == self.sponsors@.take(i as int).filter(is_person()).map_values(
                    person_id(),
                ),
            decreases self.sponsors@.len() - i,
        {
            let ghost before = self.sponsors@.take(i as int);
            proof {
                assert(self.sponsors@.take(i + 1) =~= before.push(self.sponsors@[i as int]));
                before.lemma_filter_push(self.sponsors@[i as int], is_person());
            }
            if self.sponsors[i].is_actually_issue_not_person().is_none() {
                let ghost held = string_views(out@);
                let text = self.sponsors[i].id();
                out.push(text);
                proof {
                    assert(string_views(out@) =~= held.push(text@));
                    assert(person_id()(self.sponsors@[i as int]) == text@);
                    before.filter(is_person()).lemma_push_map_commute(
                        person_id(),
                        self.sponsors@[i as int],
                    );
                }
            }
            i += 1;
        }
        proof {
            assert(self.sponsors@.take(self.sponsors@.len() as int) =~= self.sponsors@);
        }
        out
    }

    /// The name of each issue this bill pertains to: the names of its subjects, and then the
    /// names of the "people" among its sponsors that are actually subjects.
    pub fn issues(&self) -> (r: Vec<String>)
        ensures
            r@ == self.subjects@.map_values(subject_name()) + self.sponsors@.filter(
                is_issue(),
            ).map_values(person_name()),
    {
        let mut out: Vec<String> = Vec::new();
        let mut i: usize = 0;
        while i < self.subjects.len()
            invariant
                i <= self.subjects@.len(),
                out@ == self.subjects@.take(i as int).map_values(subject_name()),
            decreases self.subjects@.len() - i,
        {
            out.push(self.subjects[i].subject_name.clone());
            proof {
                assert(self.subjects@.take(i + 1) =~= self.subjects@.take(i as int).push(
                    self.subjects@[i as int],
                ));
                assert(subject_name()(self.subjects@[i as int]) == self.subjects@[i as int].subject_name);
                self.subjects@.take(i as int).lemma_push_map_commute(
                    subject_name(),
                    self.subjects@[i as int],
                );
            }
            i += 1;
        }
        let ghost subjects = out@;
        let mut k: usize = 0;
        proof {
            reveal(Seq::filter);
            assert(self.subjects@.take(self.subjects@.len() as int) =~= self.subjects@);
            assert(self.sponsors@.take(0) =~= Seq::<Person>::empty());
            assert(out@ =~= subjects + self.sponsors@.take(0).filter(is_issue()).map_values(
                person_name(),
            ));
        }
        while k < self.sponsors.len()
            invariant
                k <= self.sponsors@.len(),
                out@ == subjects + self.sponsors@.take(k as int).filter(is_issue()).map_values(
                    person_name(),
                ),
            decreases self.sponsors@.len() - k,
        {
            let ghost before = self.sponsors@.take(k as int);
            proof {
                assert(self.sponsors@.take(k + 1) =~= before.push(self.sponsors@[k as int]));
                before.lemma_filter_push(self.sponsors@[k as int], is_issue());
            }
            if let Some(issue) = self.sponsors[k].is_actually_issue_not_person() {
                let ghost held = before.filter(is_issue()).map_values(person_name());
                out.push(issue);
                proof {
                    assert(person_name()(self.sponsors@[k as int]) == issue);
                    before.filter(is_issue()).lemma_push_map_commute(
                        person_name(),
                        self.sponsors@[k as int],
                    );
                    assert(out@ =~= subjects + held.push(issue));
                }
            }
            k += 1;
        }
        proof {
            assert(self.sponsors@.take(self.sponsors@.len() as int) =~= self.sponsors@);
        }
        out
    }
}

} // verus!
