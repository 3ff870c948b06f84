use hc_helper::airtable::AirtableTable;
use hc_helper::auth::data::{Address, AuthData};
use hc_helper::hackatime::data::Project;
use hc_helper::submission::{
    push_unified, submission_upsert, Noted, PushUnified, SubmissionError, UnifiedFields,
};

fn person(eligible: bool) -> AuthData {
    AuthData {
        ysws_eligible: eligible,
        first_name: "John".to_string(),
        last_name: "Hack Club".to_string(),
        primary_email: "john@example.com".to_string(),
        birthday: "2010-01-02".to_string(),
        ..AuthData::default()
    }
}

fn address(city: &str, primary: bool) -> Address {
    Address {
        line_1: "Line 1".to_string(),
        line_2: "Line 2".to_string(),
        city: city.to_string(),
        state: "VT".to_string(),
        postal_code: "05482".to_string(),
        primary,
        ..Address::default()
    }
}

fn project(name: &str, first: Option<&str>, last: Option<&str>) -> Project {
    Project {
        name: name.to_string(),
        first_heartbeat: first.map(str::to_string),
        last_heartbeat: last.map(str::to_string),
        ..Project::default()
    }
}

fn start(names: &[&str]) -> PushUnified {
    start_for(person(true), names)
}

fn start_for(person: AuthData, names: &[&str]) -> PushUnified {
    let names = names.iter().map(|name| name.to_string()).collect();
    match push_unified(person, names) {
        Ok(submission) => submission,
        Err(_) => panic!("not taken"),
    }
}

fn finish(submission: PushUnified) -> Result<UnifiedFields<u8>, SubmissionError> {
    submission.finish(
        "code".to_string(),
        "play".to_string(),
        "shot".to_string(),
        "words".to_string(),
        9,
    )
}

#[test]
fn the_ineligible_cannot_submit() {
    match push_unified(person(false), vec!["a".to_string()]) {
        Err(error) => {
            assert_eq!(error, SubmissionError::NotEligible);
            assert_eq!(error.message(), "User not YSWS-eligible");
        }
        Ok(_) => panic!("taken"),
    }
}

#[test]
fn projects_are_looked_up_by_their_trimmed_names() {
    let mut submission = start(&["  one two\t", "", " x"]);
    for name in ["one two", "", "x"] {
        assert_eq!(submission.next_name(), Some(name.to_string()));
        assert_eq!(submission.add_project(None), Noted::Unknown);
    }
    assert_eq!(submission.next_name(), None);
    assert_eq!(submission.hackatime_justification, "");
}

#[test]
fn justification_lists_the_known_projects() {
    let mut submission = start(&["a", "b", "c", "d", "e"]);
    let day = Some("2024-05-06T07:08:09Z");
    assert_eq!(
        submission.add_project(Some(&project("A", None, None))),
        Noted::NoFirstHeartbeat
    );
    assert_eq!(
        submission.add_project(Some(&project("B", day, Some("2024-06-07")))),
        Noted::Added
    );
    assert_eq!(submission.hackatime_justification, "B 2024-05-06-2024-06-07");
    assert_eq!(submission.add_project(None), Noted::Unknown);
    assert_eq!(
        submission.add_project(Some(&project("D", day, None))),
        Noted::NoLastHeartbeat
    );
    assert_eq!(
        submission.add_project(Some(&project("", Some(""), Some("Tail")))),
        Noted::Added
    );
    assert_eq!(
        submission.hackatime_justification,
        "B 2024-05-06-2024-06-07,  -"
    );
}

#[test]
fn submission_has_the_primary_address() {
    let mut person = person(true);
    person.addresses = vec![address("First", false), address("Primary", true)];
    let fields = match finish(start_for(person, &[])) {
        Ok(fields) => fields,
        Err(_) => panic!("not taken"),
    };
    assert_eq!(fields.code_url, "code");
    assert_eq!(fields.playable_url, "play");
    assert_eq!(fields.first_name, "John");
    assert_eq!(fields.last_name, "Hack Club");
    assert_eq!(fields.email, "john@example.com");
    assert_eq!(fields.screenshot_url, "shot");
    assert_eq!(fields.description, "words");
    assert_eq!(fields.address_line_1, "Line 1");
    assert_eq!(fields.address_line_2, "Line 2");
    assert_eq!(fields.city, "Primary");
    assert_eq!(fields.state, "VT");
    assert_eq!(fields.zip, "05482");
    assert_eq!(fields.birthday, "2010-01-02");
    assert_eq!(fields.hackatime_projects, "");
    assert_eq!(fields.extra, 9);
}

#[test]
fn submission_falls_back_to_the_first_address() {
    let mut person = person(true);
    person.addresses = vec![address("First", false), address("Second", false)];
    let mut submission = start_for(person, &["a"]);
    submission.add_project(Some(&project("A", Some("1T"), Some("2"))));
    match finish(submission) {
        Ok(fields) => {
            assert_eq!(fields.city, "First");
            assert_eq!(fields.hackatime_projects, "A 1-2");
        }
        Err(_) => panic!("not taken"),
    }
}

#[test]
fn without_an_address_nobody_submits() {
    match finish(start(&[])) {
        Err(error) => {
            assert_eq!(error, SubmissionError::NoAddress);
            assert_eq!(error.message(), "No primary address for user");
        }
        Ok(_) => panic!("taken"),
    }
}

#[test]
fn submissions_merge_on_their_code() {
    let table = AirtableTable {
        base_id: "app".to_string(),
        table_id_or_name: "t".to_string(),
    };
    let upsert = match submission_upsert(table, 5) {
        Ok(upsert) => upsert,
        Err(_) => panic!("no address"),
    };
    assert_eq!(upsert.url, "https://api.airtable.com/v0/app/t");
    assert_eq!(upsert.settings.fields_to_merge_on, vec!["Code URL"]);
    assert_eq!(upsert.chunks.len(), 1);
    assert_eq!(upsert.chunks[0].len(), 1);
    assert_eq!(upsert.chunks[0][0].fields, 5);
}
