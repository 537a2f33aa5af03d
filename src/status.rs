//! What the status client hands over: connector names from the list call,
//! decoded status records, and the two ways a call can fail.
use vstd::prelude::*;

verus! {

/// Why a call to an endpoint gave no usable data.
#[derive(Debug, Clone, Copy, PartialEq, Eq, Structural)]
pub enum ClientError {
    /// The endpoint could not be reached, or did not answer in time.
    Network,
    /// The response body does not have the expected shape.
    Decode,
}

/// The state of one task, as the status document reports it.
#[derive(Debug)]
pub struct TaskStatus {
    pub id: u32,
    pub state: String,
}

/// A connector's status document: its own state and its tasks'.
#[derive(Debug)]
pub struct ConnectorStatus {
    pub state: String,
    pub tasks: Vec<TaskStatus>,
}

/// One listed connector, with the outcome of fetching its status.
#[derive(Debug)]
pub struct ConnectorReport {
    pub name: String,
    pub status: Result<ConnectorStatus, ClientError>,
}

/// One endpoint's scrape: its base URL and either the reports on the
/// connectors that its list call named, or why the list call failed.
#[derive(Debug)]
pub struct EndpointScrape {
    pub base_url: String,
    pub connectors: Result<Vec<ConnectorReport>, ClientError>,
}

/// What a task status holds.
pub struct TaskView {
    pub id: u32,
    pub state: Seq<char>,
}

/// What a connector status holds.
pub struct StatusView {
    pub state: Seq<char>,
    pub tasks: Seq<TaskView>,
}

/// What a connector report holds; `None` where its status call failed.
pub struct ReportView {
    pub name: Seq<char>,
    pub status: Option<StatusView>,
}

impl View for TaskStatus {
    type V = TaskView;

    open spec fn view(&self) -> TaskView {
        TaskView { id: self.id, state: self.state@ }
    }
}

impl View for ConnectorStatus {
    type V = StatusView;

    open spec fn view(&self) -> StatusView {
        StatusView { state: self.state@, tasks: self.tasks@.map_values(|t: TaskStatus| t@) }
    }
}

impl View for ConnectorReport {
    type V = ReportView;

    open spec fn view(&self) -> ReportView {
        ReportView {
            name: self.name@,
            status: match self.status {
                Ok(s) => Some(s@),
                Err(_) => None,
            },
        }
    }
}

/// The reports of a list call's outcome; `None` where the list call failed.
pub open spec fn reports_view(connectors: Result<Vec<ConnectorReport>, ClientError>) -> Option<
    Seq<ReportView>,
> {
    match connectors {
        Ok(v) => Some(v@.map_values(|r: ConnectorReport| r@)),
        Err(_) => None,
    }
}

/// The lower-case form of `s`, as `str::to_lowercase` gives it.
pub uninterp spec fn lower_of(s: Seq<char>) -> Seq<char>;

/// Relies on `str::to_lowercase`: its result depends on the characters of `s` alone.
#[verifier::external_body]
fn lowercase(s: &str) -> (r: String)
    ensures
        r@ == lower_of(s@),
{
    s.to_lowercase()
}

/// A task with its state lower-cased.
pub open spec fn lowered_task(t: TaskView) -> TaskView {
    TaskView { id: t.id, state: lower_of(t.state) }
}

/// A status with its own state and its tasks' states lower-cased.
pub open spec fn lowered_status(s: StatusView) -> StatusView {
    StatusView { state: lower_of(s.state), tasks: s.tasks.map_values(|t: TaskView| lowered_task(t)) }
}

/// A report with every state in it lower-cased.
pub open spec fn lowered_report(r: ReportView) -> ReportView {
    ReportView {
        name: r.name,
        status: match r.status {
            Some(s) => Some(lowered_status(s)),
            None => None,
        },
    }
}

/// A list call's outcome with every state in it lower-cased.
pub open spec fn lowered_reports(rs: Option<Seq<ReportView>>) -> Option<Seq<ReportView>> {
    match rs {
        Some(v) => Some(v.map_values(|r: ReportView| lowered_report(r))),
        None => None,
    }
}

/// A copy of `status` with its own state and each task's state lower-cased.
pub fn lowercase_status(status: &ConnectorStatus) -> (r: ConnectorStatus)
    ensures
        r@ == lowered_status(status@),
{
    let mut tasks: Vec<TaskStatus> = Vec::new();
    let mut i: usize = 0;
    while i < status.tasks.len()
        invariant
            i <= status.tasks@.len(),
            tasks@.map_values(|t: TaskStatus| t@) == status@.tasks.take(i as int).map_values(
                |t: TaskView| lowered_task(t),
            ),
        decreases status.tasks@.len() - i,
    {
        let t = &status.tasks[i];
        let ghost before = tasks@.map_values(|t: TaskStatus| t@);
        tasks.push(TaskStatus { id: t.id, state: lowercase(t.state.as_str()) });
        assert(tasks@.map_values(|t: TaskStatus| t@) =~= before.push(lowered_task(t@)));
        assert(status@.tasks.take(i + 1).map_values(|t: TaskView| lowered_task(t))
            =~= status@.tasks.take(i as int).map_values(|t: TaskView| lowered_task(t)).push(
            lowered_task(t@),
        ));
        i = i + 1;
    }
    assert(status@.tasks.take(i as int) =~= status@.tasks);
    let r = ConnectorStatus { state: lowercase(status.state.as_str()), tasks };
    assert(r@.tasks =~= lowered_status(status@).tasks);
    r
}

/// A copy of a list call's outcome with every state in it lower-cased.
pub fn lowercase_reports(connectors: &Result<Vec<ConnectorReport>, ClientError>) -> (r: Result<
    Vec<ConnectorReport>,
    ClientError,
>)
    ensures
        reports_view(r) == lowered_reports(reports_view(*connectors)),
{
    let reports = match connectors {
        Ok(reports) => reports,
        Err(e) => return Err(*e),
    };
    let ghost f = |r: ConnectorReport| r@;
    let ghost g = |r: ReportView| lowered_report(r);
    let mut out: Vec<ConnectorReport> = Vec::new();
    let mut i: usize = 0;
    while i < reports.len()
        invariant
            i <= reports@.len(),
            f == (|r: ConnectorReport| r@),
            g == (|r: ReportView| lowered_report(r)),
            out@.map_values(f) == reports@.take(i as int).map_values(f).map_values(g),
        decreases reports@.len() - i,
    {
        let rep = &reports[i];
        let status = match &rep.status {
            Ok(s) => Ok(lowercase_status(s)),
            Err(e) => Err(*e),
        };
        let lowered = ConnectorReport { name: rep.name.clone(), status };
        assert(lowered@ == lowered_report(rep@));
        let ghost before = out@.map_values(f);
        out.push(lowered);
        assert(out@.map_values(f) =~= before.push(lowered_report(rep@)));
        assert(reports@.take(i + 1).map_values(f).map_values(g) =~= reports@.take(
            i as int,
        ).map_values(f).map_values(g).push(lowered_report(rep@)));
        i = i + 1;
    }
    assert(reports@.take(i as int) =~= reports@);
    Ok(out)
}

#[verifier::external_type_specification]
#[verifier::external_body]
pub struct ExJsonError(serde_json::Error);

/// The keys of the JSON object that `body` holds, in the order that
/// `serde_json::Map` keeps them, or `None` where serde_json does not read
/// `body` as one JSON object (not an object, invalid JSON or UTF-8, trailing
/// input, or nesting beyond its recursion limit).
pub uninterp spec fn object_keys_of(body: Seq<u8>) -> Option<Seq<Seq<char>>>;

/// Relies on `serde_json::from_slice` into a `serde_json::Map`: it succeeds
/// exactly on a JSON object, whose keys the map then holds.
#[verifier::external_body]
fn parse_object_keys(body: &[u8]) -> (r: Result<Vec<String>, serde_json::Error>)
    ensures
        r is Ok <==> object_keys_of(body@) is Some,
        r is Ok ==> object_keys_of(body@) == Some(r->Ok_0@.map_values(|k: String| k@)),
{
    serde_json::from_slice::<serde_json::Map<String, serde_json::Value>>(body).map(
        |m| m.into_iter().map(|(k, _)| k).collect(),
    )
}

/// The connector names of a list response body; a body that is not a JSON
/// object is a decode failure.
pub fn decode_connector_names(body: &[u8]) -> (r: Result<Vec<String>, ClientError>)
    ensures
        match object_keys_of(body@) {
            Some(keys) => r is Ok && r->Ok_0@.map_values(|k: String| k@) == keys,
            None => r == Err::<Vec<String>, ClientError>(ClientError::Decode),
        },
{
    match parse_object_keys(body) {
        Ok(names) => Ok(names),
        Err(_) => Err(ClientError::Decode),
    }
}

} // verus!
