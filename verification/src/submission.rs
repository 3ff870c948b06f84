//! Submissions of projects.
use vstd::prelude::*;

use crate::airtable::{upsert_records, AirtableTable, RecordEntry, Upsert};
use crate::auth::data::{first_primary, Address, AuthData};
use crate::hackatime::data::Project;
use crate::link::{outcome, LinkError};
use crate::text::{before_first, cut_before, separated, trim, trimmed};

verus! {

/// The record of a submission.
pub struct UnifiedFields<T> {
    pub code_url: String,
    pub playable_url: String,
    pub first_name: String,
    pub last_name: String,
    pub email: String,
    pub screenshot_url: String,
    pub description: String,
    pub address_line_1: String,
    pub address_line_2: String,
    pub city: String,
    pub state: String,
    pub zip: String,
    pub birthday: String,
    pub hackatime_projects: String,
    pub extra: T,
}

/// Why a submission is not taken.
#[derive(Clone, Copy, Debug, PartialEq, Eq, Structural)]
pub enum SubmissionError {
    /// The person may not submit.
    NotEligible,
    /// The person has no address.
    NoAddress,
}

impl SubmissionError {
    /// The message of the error.
    pub open spec fn text(&self) -> Seq<char> {
        match self {
            SubmissionError::NotEligible => "User not YSWS-eligible"@,
            SubmissionError::NoAddress => "No primary address for user"@,
        }
    }

    /// Writes the message of the error.
    pub fn message(&self) -> (text: String)
        ensures
            text@ == self.text(),
            self is NotEligible ==> text@ == "User not YSWS-eligible"@,
            self is NoAddress ==> text@ == "No primary address for user"@,
    {
        match self {
            SubmissionError::NotEligible => "User not YSWS-eligible".to_owned(),
            SubmissionError::NoAddress => "No primary address for user".to_owned(),
        }
    }
}

/// The date of a time.
pub open spec fn date_of(time: Seq<char>) -> Seq<char> {
    before_first(time, 'T')
}

/// A project with the dates between which it was worked on; `None` where one
/// of them is unknown.
pub open spec fn span(project: Project) -> Option<Seq<char>> {
    match (project.first_heartbeat, project.last_heartbeat) {
        (Some(first), Some(last)) => Some(
            project.name@ + " "@ + date_of(first@) + "-"@ + date_of(last@),
        ),
        _ => None,
    }
}

/// A justification with one more project, where `project` is what Hackatime
/// knows of it, if it knows of it.
pub open spec fn justified(justification: Seq<char>, project: Option<Project>) -> Seq<char> {
    match project {
        Some(project) => match span(project) {
            Some(span) => if justification.len() == 0 {
                span
            } else {
                justification + ", "@ + span
            },
            None => justification,
        },
        None => justification,
    }
}

/// What became of a project in a submission.
#[derive(Clone, Copy, Debug, PartialEq, Eq, Structural)]
pub enum Noted {
    /// It stands in the justification.
    Added,
    /// Nobody knows when the work on it began.
    NoFirstHeartbeat,
    /// Nobody knows when the work on it ended.
    NoLastHeartbeat,
    /// Hackatime does not know of it.
    Unknown,
}

/// What becomes of a project in a submission.
pub open spec fn noted(project: Option<Project>) -> Noted {
    match project {
        Some(project) => if project.first_heartbeat is None {
            Noted::NoFirstHeartbeat
        } else if project.last_heartbeat is None {
            Noted::NoLastHeartbeat
        } else {
            Noted::Added
        },
        None => Noted::Unknown,
    }
}

/// A submission that is being put together.
pub struct PushUnified {
    /// The person who submits.
    pub auth_data: AuthData,
    /// The names of its projects.
    pub hackatime_project_names: Vec<String>,
    /// How many of them have been looked up.
    pub looked_up: usize,
    /// When its projects were worked on, as far as they have been looked up.
    pub hackatime_justification: String,
}

/// Starts the submission of a person who may submit.
pub fn push_unified(auth_data: AuthData, hackatime_project_names: Vec<String>) -> (submission: Result<
    PushUnified,
    SubmissionError,
>)
    ensures
        match submission {
            Ok(submission) => {
                &&& auth_data.ysws_eligible
                &&& submission.wf()
                &&& submission.auth_data == auth_data
                &&& submission.hackatime_project_names == hackatime_project_names
                &&& submission.looked_up == 0
                &&& submission.hackatime_justification@ == Seq::<char>::empty()
            },
            Err(error) => !auth_data.ysws_eligible && error == SubmissionError::NotEligible,
        },
{
    if !auth_data.ysws_eligible {
        return Err(SubmissionError::NotEligible);
    }
    Ok(
        PushUnified {
            auth_data,
            hackatime_project_names,
            looked_up: 0,
            hackatime_justification: String::new(),
        },
    )
}

/// Whether taking in what Hackatime knows of a project turns one state of a
/// submission into the other.
pub open spec fn project_added(
    before: PushUnified,
    project: Option<Project>,
    after: PushUnified,
) -> bool {
    &&& after.auth_data == before.auth_data
    &&& after.hackatime_project_names == before.hackatime_project_names
    &&& after.looked_up == before.looked_up + 1
    &&& after.hackatime_justification@ == justified(before.hackatime_justification@, project)
}

/// What is behind an optional reference.
pub open spec fn referred(project: Option<&Project>) -> Option<Project> {
    match project {
        Some(project) => Some(*project),
        None => None,
    }
}

impl PushUnified {
    /// Whether the person may submit, and no more projects were looked up than
    /// there are.
    pub open spec fn wf(&self) -> bool {
        self.auth_data.ysws_eligible && self.looked_up <= self.hackatime_project_names@.len()
    }

    /// Whether all projects have been looked up.
    pub open spec fn done(&self) -> bool {
        self.looked_up == self.hackatime_project_names@.len()
    }

    /// The name of the project to look up next.
    pub fn next_name(&self) -> (name: Option<String>)
        requires
            self.wf(),
        ensures
            match name {
                Some(name) => !self.done() && name@ == trimmed(
                    self.hackatime_project_names@[self.looked_up as int]@,
                ),
                None => self.done(),
            },
            name is Some <==> self.looked_up < self.hackatime_project_names@.len(),
    {
        if self.looked_up < self.hackatime_project_names.len() {
            Some(trim(self.hackatime_project_names[self.looked_up].as_str()))
        } else {
            None
        }
    }

    /// Takes in what Hackatime knows of the project that was looked up, if it
    /// knows of it.
    pub fn add_project(&mut self, project: Option<&Project>) -> (result: Noted)
        requires
            old(self).wf(),
            !old(self).done(),
        ensures
            final(self).wf(),
            project_added(*old(self), referred(project), *final(self)),
            result == noted(referred(project)),
            result is Added <==> project is Some && (project->0).first_heartbeat is Some && (
            project->0).last_heartbeat is Some,
            result is Unknown <==> project is None,
            result is NoFirstHeartbeat <==> project is Some && (
            project->0).first_heartbeat is None,
    {
        let count = self.hackatime_project_names.len();
        assert(self.looked_up < count);
        self.looked_up = self.looked_up + 1;
        let project = match project {
            Some(project) => project,
            None => {
                return Noted::Unknown;
            },
        };
        let first = match &project.first_heartbeat {
            Some(time) => cut_before(time.as_str(), 'T'),
            None => {
                return Noted::NoFirstHeartbeat;
            },
        };
        let last = match &project.last_heartbeat {
            Some(time) => cut_before(time.as_str(), 'T'),
            None => {
                return Noted::NoLastHeartbeat;
            },
        };
        let mut span = project.name.clone();
        span.append(" ");
        span.append(first.as_str());
        span.append("-");
        span.append(last.as_str());
        if !self.hackatime_justification.as_str().is_empty() {
            self.hackatime_justification.append(", ");
            self.hackatime_justification.append(span.as_str());
        } else {
            self.hackatime_justification = span;
        }
        Noted::Added
    }

    /// Makes the record of a submission whose projects have all been looked up.
    pub fn finish<T>(
        self,
        code_url: String,
        playable_url: String,
        screenshot_url: String,
        description: String,
        additional_fields: T,
    ) -> (fields: Result<UnifiedFields<T>, SubmissionError>)
        requires
            self.wf(),
            self.done(),
        ensures
            match submission_address(self.auth_data.addresses@) {
                Some(address) => fields == Ok::<_, SubmissionError>(
                    UnifiedFields {
                        code_url,
                        playable_url,
                        first_name: self.auth_data.first_name,
                        last_name: self.auth_data.last_name,
                        email: self.auth_data.primary_email,
                        screenshot_url,
                        description,
                        address_line_1: address.line_1,
                        address_line_2: address.line_2,
                        city: address.city,
                        state: address.state,
                        zip: address.postal_code,
                        birthday: self.auth_data.birthday,
                        hackatime_projects: self.hackatime_justification,
                        extra: additional_fields,
                    },
                ),
                None => fields == Err::<UnifiedFields<T>, _>(SubmissionError::NoAddress),
            },
    {
        let auth_data = self.auth_data;
        let address = match auth_data.primary_address() {
            Some(address) => address,
            None => if !auth_data.addresses.is_empty() {
                auth_data.addresses[0].clone()
            } else {
                return Err(SubmissionError::NoAddress);
            },
        };
        Ok(
            UnifiedFields {
                code_url,
                playable_url,
                first_name: auth_data.first_name,
                last_name: auth_data.last_name,
                email: auth_data.primary_email,
                screenshot_url,
                description,
                address_line_1: address.line_1,
                address_line_2: address.line_2,
                city: address.city,
                state: address.state,
                zip: address.postal_code,
                birthday: auth_data.birthday,
                hackatime_projects: self.hackatime_justification,
                extra: additional_fields,
            },
        )
    }
}

/// The address for a submission: the first that is marked as primary, or the
/// first of all where none is.
pub open spec fn submission_address(addresses: Seq<Address>) -> Option<Address> {
    match first_primary(addresses) {
        Some(address) => Some(address),
        None => if addresses.len() > 0 {
            Some(addresses[0])
        } else {
            None
        },
    }
}

/// The write that puts the record of a submission into the table: a submission
/// with the same code is changed, if there is one.
pub fn submission_upsert<R>(table: AirtableTable, fields: R) -> (upsert: Result<
    Upsert<R>,
    LinkError,
>)
    requires
        table.fits_link(),
    ensures
        match upsert {
            Ok(upsert) => {
                &&& upsert.wf()
                &&& upsert.table == table
                &&& upsert.settings.fields_to_merge_on@.len() == 1
                &&& upsert.settings.fields_to_merge_on@[0]@ == "Code URL"@
                &&& upsert.chunks@.len() == 1
                &&& upsert.chunks@[0]@ == seq![RecordEntry { fields }]
            },
            Err(error) => table.link() is Err && outcome(Err::<String, _>(error)) == table.link(),
        },
{
    let mut records: Vec<R> = Vec::new();
    records.push(fields);
    let mut names: Vec<String> = Vec::new();
    names.push("Code URL".to_owned());
    let upsert = upsert_records(table, records, names);
    if let Ok(upsert) = &upsert {
        assert(upsert.chunks@[0]@ == seq![RecordEntry { fields }]);
    }
    upsert
}

/// The justification after `projects` were taken in, one after another.
pub open spec fn justification(projects: Seq<Option<Project>>) -> Seq<char>
    decreases projects.len(),
{
    if projects.len() == 0 {
        Seq::empty()
    } else {
        justified(justification(projects.drop_last()), projects.last())
    }
}

/// The projects among `projects` that are known with both dates, in order, each
/// with its dates.
pub open spec fn spans(projects: Seq<Option<Project>>) -> Seq<Seq<char>>
    decreases projects.len(),
{
    if projects.len() == 0 {
        Seq::empty()
    } else {
        match projects.last() {
            Some(project) => match span(project) {
                Some(span) => spans(projects.drop_last()).push(span),
                None => spans(projects.drop_last()),
            },
            None => spans(projects.drop_last()),
        }
    }
}

/// A justification is the list of the projects that are known with both dates,
/// in the order in which they were named, with commas between them; it is empty
/// exactly where there is no such project.
pub proof fn justification_lists_projects(projects: Seq<Option<Project>>)
    ensures
        justification(projects) == separated(spans(projects), ", "@),
        justification(projects).len() == 0 <==> spans(projects).len() == 0,
    decreases projects.len(),
{
    reveal_strlit(" ");
    reveal_strlit(", ");
    if projects.len() > 0 {
        let front = projects.drop_last();
        justification_lists_projects(front);
        if spans(projects) != spans(front) {
            assert(spans(projects).drop_last() == spans(front));
        }
    }
}

/// A submission looks its projects up one after another, in the order in which
/// they were named, and its justification lists those of them that are known
/// with both dates, in that order, with commas between them. It stays that of
/// the person who started it.
pub proof fn submission_lists_projects(states: Seq<PushUnified>, projects: Seq<Option<Project>>)
    requires
        states.len() == projects.len() + 1,
        states[0].looked_up == 0,
        states[0].hackatime_justification@ == Seq::<char>::empty(),
        forall|i: int|
            0 <= i < projects.len() ==> project_added(
                states[i],
                #[trigger] projects[i],
                states[i + 1],
            ),
    ensures
        states.last().hackatime_justification@ == separated(spans(projects), ", "@),
        forall|i: int|
            0 <= i < states.len() ==> (#[trigger] states[i]).looked_up == i
                && states[i].hackatime_project_names == states[0].hackatime_project_names
                && states[i].auth_data == states[0].auth_data,
{
    lemma_states(states, projects);
    justification_lists_projects(projects);
}

proof fn lemma_states(states: Seq<PushUnified>, projects: Seq<Option<Project>>)
    requires
        states.len() == projects.len() + 1,
        states[0].looked_up == 0,
        states[0].hackatime_justification@ == Seq::<char>::empty(),
        forall|i: int|
            0 <= i < projects.len() ==> project_added(
                states[i],
                #[trigger] projects[i],
                states[i + 1],
            ),
    ensures
        states.last().hackatime_justification@ == justification(projects),
        forall|i: int|
            0 <= i < states.len() ==> (#[trigger] states[i]).looked_up == i
                && states[i].hackatime_project_names == states[0].hackatime_project_names
                && states[i].auth_data == states[0].auth_data,
    decreases projects.len(),
{
    if projects.len() > 0 {
        let n = projects.len() - 1;
        lemma_states(states.drop_last(), projects.drop_last());
        assert(project_added(states[n], projects[n], states[n + 1]));
        assert(states.drop_last()[n].looked_up == n);
        assert forall|i: int| 0 <= i < states.len() implies (#[trigger] states[i]).looked_up == i
            && states[i].hackatime_project_names == states[0].hackatime_project_names
            && states[i].auth_data == states[0].auth_data by {
            if i <= n {
                assert(states.drop_last()[i].looked_up == i);
            }
        }
    }
}

proof fn lemma_date(time: Seq<char>, date: Seq<char>)
    requires
        date.len() <= time.len(),
        forall|i: int| 0 <= i < date.len() ==> (#[trigger] date[i]) == time[i] && date[i] != 'T',
        date.len() < time.len() ==> time[date.len() as int] == 'T',
    ensures
        date_of(time) == date,
{
    let cut = before_first(time, 'T');
    crate::text::cut_is_in_front_of_the_first(time, 'T');
    if cut.len() < date.len() {
        assert(date[cut.len() as int] == time[cut.len() as int]);
    }
    if date.len() < cut.len() {
        assert(cut[date.len() as int] == time[date.len() as int]);
    }
    assert(cut == date);
}

/// A project whose first and last heartbeat are known is listed behind those
/// before it, whatever else it holds: its name, a space, what stands in its
/// first heartbeat before a `T`, a hyphen, and what stands in its last heartbeat
/// before a `T`.
pub proof fn dated_project_is_listed(
    before: PushUnified,
    project: Project,
    after: PushUnified,
    first_heartbeat: String,
    last_heartbeat: String,
    first: Seq<char>,
    last: Seq<char>,
)
    requires
        project_added(before, Some(project), after),
        project.first_heartbeat == Some(first_heartbeat),
        project.last_heartbeat == Some(last_heartbeat),
        first.len() <= first_heartbeat@.len(),
        forall|i: int|
            0 <= i < first.len() ==> (#[trigger] first[i]) == first_heartbeat@[i] && first[i] != 'T',
        first.len() < first_heartbeat@.len() ==> first_heartbeat@[first.len() as int] == 'T',
        last.len() <= last_heartbeat@.len(),
        forall|i: int|
            0 <= i < last.len() ==> (#[trigger] last[i]) == last_heartbeat@[i] && last[i] != 'T',
        last.len() < last_heartbeat@.len() ==> last_heartbeat@[last.len() as int] == 'T',
    ensures
        before.hackatime_justification@.len() == 0 ==> after.hackatime_justification@
            == project.name@ + " "@ + first + "-"@ + last,
        before.hackatime_justification@.len() > 0 ==> after.hackatime_justification@
            == before.hackatime_justification@ + ", "@ + (project.name@ + " "@ + first + "-"@
            + last),
        after.hackatime_justification@.len() > before.hackatime_justification@.len(),
        noted(Some(project)) is Added,
{
    reveal_strlit(" ");
    lemma_date(first_heartbeat@, first);
    lemma_date(last_heartbeat@, last);
}

/// A project that Hackatime does not know, or whose first or last heartbeat is
/// not known, leaves the justification as it is; what is missing is told, the
/// first heartbeat coming first.
pub proof fn undated_project_is_not_listed(
    before: PushUnified,
    project: Option<Project>,
    after: PushUnified,
)
    requires
        project_added(before, project, after),
        project is None || (project->0).first_heartbeat is None || (
        project->0).last_heartbeat is None,
    ensures
        after.hackatime_justification@ == before.hackatime_justification@,
        noted(project) is Unknown <==> project is None,
        noted(project) is NoFirstHeartbeat <==> project is Some && (
        project->0).first_heartbeat is None,
        noted(project) is NoLastHeartbeat <==> project is Some && (
        project->0).first_heartbeat is Some,
{
}

/// Taking a project in goes on to the next name, and changes nothing else but
/// the justification.
pub proof fn next_project_is_looked_up(
    before: PushUnified,
    project: Option<Project>,
    after: PushUnified,
)
    requires
        project_added(before, project, after),
    ensures
        after.looked_up == before.looked_up + 1,
        after.hackatime_project_names@ == before.hackatime_project_names@,
        after.auth_data == before.auth_data,
{
}

/// A submission goes to the first address that is marked as primary, to the
/// first of all where none is marked, and to nobody exactly where there is no
/// address.
pub proof fn submission_goes_to_the_primary_address(addresses: Seq<Address>)
    ensures
        submission_address(addresses) is None <==> addresses.len() == 0,
        submission_address(addresses) matches Some(address) ==> {
            ||| exists|i: int|
                {
                    &&& 0 <= i < addresses.len()
                    &&& #[trigger] addresses[i] == address
                    &&& address.primary
                    &&& forall|j: int| 0 <= j < i ==> !(#[trigger] addresses[j]).primary
                }
            ||| {
                &&& address == addresses[0]
                &&& forall|i: int| 0 <= i < addresses.len() ==> !(#[trigger] addresses[i]).primary
            }
        },
{
    crate::auth::data::primary_address_is_the_first_marked(addresses);
}

/// Only one who may submit has a submission, and it is done exactly where every
/// name has been looked up.
pub proof fn only_the_eligible_submit(submission: PushUnified)
    requires
        submission.wf(),
    ensures
        submission.auth_data.ysws_eligible,
        submission.looked_up <= submission.hackatime_project_names@.len(),
        submission.done() <==> submission.looked_up >= submission.hackatime_project_names@.len(),
{
}

} // verus!
