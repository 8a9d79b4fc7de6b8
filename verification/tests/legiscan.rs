use model::legiscan::{people, Bill, Name, Party, Person, State, StateIdError, Status, Subject};

fn person(id: u64, name: &str, first: &str, last: &str, district: &str, party: &str) -> Person {
    Person {
        people_id: id,
        person_hash: format!("hash{id}"),
        state_id: State::CA,
        party_id: party.to_string(),
        name: name.to_string(),
        first_name: first.to_string(),
        middle_name: String::new(),
        last_name: last.to_string(),
        district: district.to_string(),
    }
}

fn bill(status: u8) -> Bill {
    Bill {
        bill_id: 42,
        change_hash: "abc".to_string(),
        session_id: 1,
        status,
        state: State::TX,
        bill_number: "SB-999".to_string(),
        title: "A title".to_string(),
        description: "A summary".to_string(),
        sponsors: vec![
            person(7, "Ada Lovelace", "Ada", "Lovelace", "SD-1", "1"),
            person(8, "Taxation", "", "", "", "0"),
            person(9, "Alan Turing", "Alan", "Turing", "", "2"),
        ],
        subjects: vec![Subject { subject_id: 1, subject_name: "Health".to_string() }],
    }
}

#[test]
fn state_ids_count_from_one() {
    assert_eq!(State::AL.id(), 1);
    assert_eq!(State::CA.id(), 5);
    assert_eq!(State::WY.id(), 50);
    assert_eq!(State::DC.id(), 51);
}

#[test]
fn state_from_id() {
    assert_eq!(State::try_from(1), Ok(State::AL));
    assert_eq!(State::try_from(51), Ok(State::DC));
    assert_eq!(State::try_from(0), Err(StateIdError::Zero));
    assert_eq!(State::try_from(52), Err(StateIdError::Invalid { id: 52 }));
    assert_eq!(StateIdError::Zero.to_string(), "state ID cannot be 0");
    assert_eq!(StateIdError::Invalid { id: 52 }.to_string(), "invalid state ID 52");
    for id in 1..=51 {
        assert_eq!(State::try_from(id).unwrap().id(), id);
    }
}

#[test]
fn state_names() {
    assert_eq!(State::AL.name(), "Alabama");
    assert_eq!(State::NH.name(), "New Hampshire");
    assert_eq!(State::WI.name(), "Wisconsin");
    assert_eq!(State::WV.name(), "West Virginia");
    assert_eq!(State::WA.name(), "Washington");
    assert_eq!(State::DC.name(), "Washington, D.C.");
}

#[test]
fn party_ids_and_abbreviations() {
    assert_eq!(Party::Unknown.id(), 1);
    assert_eq!(Party::Democrat.id(), 2);
    assert_eq!(Party::Nonpartisan.id(), 7);
    assert_eq!(Party::Unknown.abbreviation(), "?");
    assert_eq!(Party::Democrat.abbreviation(), "D");
    assert_eq!(Party::Republican.abbreviation(), "R");
    assert_eq!(Party::Independent.abbreviation(), "I");
    assert_eq!(Party::Green.abbreviation(), "G");
    assert_eq!(Party::Libertarian.abbreviation(), "L");
    assert_eq!(Party::Nonpartisan.abbreviation(), "n/a");
}

#[test]
fn name_leaves_out_an_empty_middle_name() {
    let name = |middle: &str| Name {
        first: "Ada".to_string(),
        middle: middle.to_string(),
        last: "Lovelace".to_string(),
    };
    assert_eq!(name("").to_string(), "Ada Lovelace");
    assert_eq!(name("King").to_string(), "Ada King Lovelace");
    assert_eq!(name("King").clone(), name("King"));
}

#[test]
fn person_accessors() {
    let p = person(7, "Ada Lovelace", "Ada", "Lovelace", "SD-1", "3");
    assert_eq!(p.id(), "7");
    assert_eq!(p.hash(), "hash7");
    assert_eq!(p.state(), State::CA);
    assert_eq!(p.party(), Party::Independent);
    assert_eq!(p.district(), "SD-1");
    assert_eq!(p.name().to_string(), "Ada Lovelace");
    assert_eq!(p.is_actually_issue_not_person(), None);
    assert_eq!(person(1, "x", "", "", "", "1").party(), Party::Democrat);
    assert_eq!(person(1, "x", "", "", "", "2").party(), Party::Republican);
    assert_eq!(person(1, "x", "", "", "", "4").party(), Party::Green);
    assert_eq!(person(1, "x", "", "", "", "5").party(), Party::Libertarian);
    assert_eq!(person(1, "x", "", "", "", "6").party(), Party::Nonpartisan);
    assert_eq!(person(1, "x", "", "", "", "7").party(), Party::Unknown);
    assert_eq!(person(1, "x", "", "", "", "").party(), Party::Unknown);
}

#[test]
fn a_person_without_names_and_district_is_an_issue() {
    assert_eq!(
        person(8, "Taxation", "", "", "", "0").is_actually_issue_not_person(),
        Some("Taxation".to_string())
    );
    assert_eq!(person(8, "Taxation", "", "", "SD-1", "0").is_actually_issue_not_person(), None);
    assert_eq!(person(8, "Taxation", "", "T", "", "0").is_actually_issue_not_person(), None);
    assert_eq!(person(8, "Taxation", "T", "", "", "0").is_actually_issue_not_person(), None);
}

#[test]
fn people_leaves_out_issues() {
    let all = bill(0).sponsors;
    let real = people(&all);
    assert_eq!(real.iter().map(|p| p.people_id).collect::<Vec<_>>(), vec![7, 9]);
    assert_eq!(people(&vec![]), vec![]);
}

#[test]
fn bill_accessors() {
    let b = bill(4);
    assert_eq!(b.id(), "42");
    assert_eq!(b.hash(), "abc");
    assert_eq!(b.state(), State::TX);
    assert_eq!(b.name(), "SB-999");
    assert_eq!(b.title(), "A title");
    assert_eq!(b.summary(), "A summary");
    assert_eq!(b.sponsors(), vec!["7", "9"]);
    assert_eq!(b.issues(), vec!["Health", "Taxation"]);
}

#[test]
fn bill_status_codes() {
    assert_eq!(bill(0).status(), Status::Unknown);
    assert_eq!(bill(1).status(), Status::Introduced);
    assert_eq!(bill(2).status(), Status::Engrossed);
    assert_eq!(bill(3).status(), Status::Enrolled);
    assert_eq!(bill(4).status(), Status::Passed);
    assert_eq!(bill(5).status(), Status::Vetoed);
    assert_eq!(bill(6).status(), Status::Failed);
    assert_eq!(bill(7).status(), Status::Unknown);
    assert_eq!(Status::Unknown.to_string(), "None");
    assert_eq!(Status::Passed.to_string(), "Passed");
}
