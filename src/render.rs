//! Turns scrape results into Prometheus exposition text.
use crate::endpoint::{instance_label, instance_of};
use crate::status::{
    lower_of, lowercase_reports, lowered_report, lowered_reports, reports_view, ClientError,
    ConnectorReport, ConnectorStatus, EndpointScrape, ReportView, TaskView,
};
use crate::text::{dec, decimal, join, join_lines, same_text, texts};
use vstd::prelude::*;
use vstd::string::*;

verus! {

/// The four states that each connector and task gets one line for, in the
/// order the lines come.
pub open spec fn state_names() -> Seq<Seq<char>> {
    seq!["running"@, "failed"@, "paused"@, "unassigned"@]
}

/// The value a one-hot state line carries.
pub open spec fn flag(hit: bool) -> Seq<char> {
    if hit {
        "1"@
    } else {
        "0"@
    }
}

/// `metric{instance="inst"} value`.
pub open spec fn gauge_line(metric: Seq<char>, inst: Seq<char>, value: Seq<char>) -> Seq<char> {
    metric + "{instance=\""@ + inst + "\"} "@ + value
}

/// The line saying whether the connector `name` is in `state`.
pub open spec fn connector_state_line(
    name: Seq<char>,
    state: Seq<char>,
    inst: Seq<char>,
    hit: bool,
) -> Seq<char> {
    "kafka_connect_connector_state{connector=\""@ + name + "\",state=\""@ + state
        + "\",instance=\""@ + inst + "\"} "@ + flag(hit)
}

/// The line saying whether task `task` of the connector `name` is in `state`.
pub open spec fn task_state_line(
    name: Seq<char>,
    task: Seq<char>,
    state: Seq<char>,
    inst: Seq<char>,
    hit: bool,
) -> Seq<char> {
    "kafka_connect_connector_task_state{connector=\""@ + name + "\",task=\""@ + task
        + "\",state=\""@ + state + "\",instance=\""@ + inst + "\"} "@ + flag(hit)
}

/// The four state lines of a connector whose state, in lower case, is `lowered`.
pub open spec fn connector_block(name: Seq<char>, lowered: Seq<char>, inst: Seq<char>) -> Seq<
    Seq<char>,
> {
    Seq::new(4, |k: int| connector_state_line(name, state_names()[k], inst, lowered == state_names()[k]))
}

/// The four state lines of a task whose state, in lower case, is `lowered`.
pub open spec fn task_block(
    name: Seq<char>,
    task: Seq<char>,
    lowered: Seq<char>,
    inst: Seq<char>,
) -> Seq<Seq<char>> {
    Seq::new(4, |k: int| task_state_line(name, task, state_names()[k], inst, lowered == state_names()[k]))
}

/// The state lines of the tasks of the connector `name`, task by task.
pub open spec fn task_lines(name: Seq<char>, tasks: Seq<TaskView>, inst: Seq<char>) -> Seq<
    Seq<char>,
>
    decreases tasks.len(),
{
    if tasks.len() == 0 {
        Seq::empty()
    } else {
        task_lines(name, tasks.drop_last(), inst) + task_block(
            name,
            dec(tasks.last().id as nat),
            tasks.last().state,
            inst,
        )
    }
}

/// The lines of one connector: none where its status could not be had.
pub open spec fn report_lines(r: ReportView, inst: Seq<char>) -> Seq<Seq<char>> {
    match r.status {
        Some(st) => connector_block(r.name, st.state, inst) + task_lines(r.name, st.tasks, inst),
        None => Seq::empty(),
    }
}

/// The lines of the connectors, connector by connector.
pub open spec fn reports_lines(rs: Seq<ReportView>, inst: Seq<char>) -> Seq<Seq<char>>
    decreases rs.len(),
{
    if rs.len() == 0 {
        Seq::empty()
    } else {
        reports_lines(rs.drop_last(), inst) + report_lines(rs.last(), inst)
    }
}

/// Whether a connector's status was had and its own state is `state`.
pub open spec fn in_state(r: ReportView, state: Seq<char>) -> bool {
    r.status is Some && r.status->Some_0.state == state
}

/// The number of connectors whose own state is `state`.
pub open spec fn count_in_state(rs: Seq<ReportView>, state: Seq<char>) -> nat {
    rs.filter(|r: ReportView| in_state(r, state)).len()
}

/// The four lines that close a reachable endpoint's block.
pub open spec fn summary_lines(inst: Seq<char>, total: nat, running: nat, failed: nat) -> Seq<
    Seq<char>,
> {
    seq![
        gauge_line("kafka_connect_up"@, inst, "1"@),
        gauge_line("kafka_connect_connectors_total"@, inst, dec(total)),
        gauge_line("kafka_connect_connectors_running"@, inst, dec(running)),
        gauge_line("kafka_connect_connectors_failed"@, inst, dec(failed)),
    ]
}

/// The lines of a reachable endpoint whose list call named the connectors of `rs`.
pub open spec fn reachable_lines(inst: Seq<char>, rs: Seq<ReportView>) -> Seq<Seq<char>> {
    reports_lines(rs, inst) + summary_lines(
        inst,
        rs.len(),
        count_in_state(rs, "running"@),
        count_in_state(rs, "failed"@),
    )
}

/// The text of one endpoint: a single `up 0` line where its list call
/// failed, else its lines joined by newlines.
pub open spec fn endpoint_text(base: Seq<char>, connectors: Option<Seq<ReportView>>) -> Seq<char> {
    let inst = instance_of(base);
    match connectors {
        Some(rs) => join(reachable_lines(inst, rs), "\n"@),
        None => gauge_line("kafka_connect_up"@, inst, "0"@) + "\n"@,
    }
}

/// The text of one endpoint's scrape, its states compared in lower case.
pub open spec fn scrape_text(e: EndpointScrape) -> Seq<char> {
    endpoint_text(e.base_url@, lowered_reports(reports_view(e.connectors)))
}

/// The full exposition: each endpoint's text, in order, joined by newlines.
pub open spec fn exposition(scrapes: Seq<EndpointScrape>) -> Seq<char> {
    join(scrapes.map_values(|e: EndpointScrape| scrape_text(e)), "\n"@)
}

fn gauge(metric: &str, inst: &str, value: &str) -> (r: String)
    ensures
        r@ == gauge_line(metric@, inst@, value@),
{
    let mut r = String::from_str(metric);
    r.append("{instance=\"");
    r.append(inst);
    r.append("\"} ");
    r.append(value);
    r
}

fn flag_str(hit: bool) -> (r: &'static str)
    ensures
        r@ == flag(hit),
{
    if hit {
        "1"
    } else {
        "0"
    }
}

fn connector_line(name: &str, state: &str, inst: &str, lowered: &str) -> (r: String)
    ensures
        r@ == connector_state_line(name@, state@, inst@, lowered@ == state@),
{
    let mut r = String::from_str("kafka_connect_connector_state{connector=\"");
    r.append(name);
    r.append("\",state=\"");
    r.append(state);
    r.append("\",instance=\"");
    r.append(inst);
    r.append("\"} ");
    r.append(flag_str(same_text(lowered, state)));
    r
}

fn task_line(name: &str, task: &str, state: &str, inst: &str, lowered: &str) -> (r: String)
    ensures
        r@ == task_state_line(name@, task@, state@, inst@, lowered@ == state@),
{
    let mut r = String::from_str("kafka_connect_connector_task_state{connector=\"");
    r.append(name);
    r.append("\",task=\"");
    r.append(task);
    r.append("\",state=\"");
    r.append(state);
    r.append("\",instance=\"");
    r.append(inst);
    r.append("\"} ");
    r.append(flag_str(same_text(lowered, state)));
    r
}

fn push_connector_block(lines: &mut Vec<String>, name: &str, lowered: &str, inst: &str)
    ensures
        texts(final(lines)@) == texts(old(lines)@) + connector_block(name@, lowered@, inst@),
{
    let ghost before = texts(lines@);
    lines.push(connector_line(name, "running", inst, lowered));
    lines.push(connector_line(name, "failed", inst, lowered));
    lines.push(connector_line(name, "paused", inst, lowered));
    lines.push(connector_line(name, "unassigned", inst, lowered));
    assert(texts(lines@) =~= before + connector_block(name@, lowered@, inst@));
}

fn push_task_block(lines: &mut Vec<String>, name: &str, task: &str, lowered: &str, inst: &str)
    ensures
        texts(final(lines)@) == texts(old(lines)@) + task_block(name@, task@, lowered@, inst@),
{
    let ghost before = texts(lines@);
    lines.push(task_line(name, task, "running", inst, lowered));
    lines.push(task_line(name, task, "failed", inst, lowered));
    lines.push(task_line(name, task, "paused", inst, lowered));
    lines.push(task_line(name, task, "unassigned", inst, lowered));
    assert(texts(lines@) =~= before + task_block(name@, task@, lowered@, inst@));
}

fn push_report_lines(lines: &mut Vec<String>, name: &str, status: &ConnectorStatus, inst: &str)
    ensures
        texts(final(lines)@) == texts(old(lines)@) + connector_block(name@, status@.state, inst@)
            + task_lines(name@, status@.tasks, inst@),
{
    push_connector_block(lines, name, status.state.as_str(), inst);
    let ghost start = texts(lines@);
    let ghost tasks = status@.tasks;
    let mut i: usize = 0;
    while i < status.tasks.len()
        invariant
            i <= status.tasks@.len(),
            tasks == status@.tasks,
            texts(lines@) == start + task_lines(name@, tasks.take(i as int), inst@),
        decreases status.tasks@.len() - i,
    {
        let task = &status.tasks[i];
        assert(tasks[i as int] == task@);
        let id = decimal(task.id as u64);
        push_task_block(lines, name, id.as_str(), task.state.as_str(), inst);
        assert(tasks.take(i + 1).drop_last() =~= tasks.take(i as int));
        i = i + 1;
    }
    assert(tasks.take(i as int) =~= tasks);
    assert(texts(lines@) =~= texts(old(lines)@) + connector_block(name@, status@.state, inst@)
        + task_lines(name@, tasks, inst@));
}

/// The text for one endpoint whose states are already in lower case: each
/// state is compared with the four known ones as it stands.
pub fn render_lowered_endpoint(
    base_url: &str,
    connectors: &Result<Vec<ConnectorReport>, ClientError>,
) -> (r: String)
    ensures
        r@ == endpoint_text(base_url@, reports_view(*connectors)),
{
    let inst = instance_label(base_url);
    let reports = match connectors {
        Ok(reports) => reports,
        Err(_) => {
            let mut r = gauge("kafka_connect_up", inst.as_str(), "0");
            r.append("\n");
            return r;
        },
    };
    let ghost rs = reports@.map_values(|r: ConnectorReport| r@);
    let ghost is_running = |r: ReportView| in_state(r, "running"@);
    let ghost is_failed = |r: ReportView| in_state(r, "failed"@);
    let mut lines: Vec<String> = Vec::new();
    let mut running: usize = 0;
    let mut failed: usize = 0;
    let mut i: usize = 0;
    while i < reports.len()
        invariant
            i <= reports@.len(),
            rs == reports@.map_values(|r: ConnectorReport| r@),
            is_running == (|r: ReportView| in_state(r, "running"@)),
            is_failed == (|r: ReportView| in_state(r, "failed"@)),
            texts(lines@) == reports_lines(rs.take(i as int), inst@),
            running == rs.take(i as int).filter(is_running).len(),
            failed == rs.take(i as int).filter(is_failed).len(),
            running <= i,
            failed <= i,
        decreases reports@.len() - i,
    {
        let report = &reports[i];
        let ghost prefix = rs.take(i as int);
        assert(rs[i as int] == report@);
        assert(rs.take(i + 1) =~= prefix.push(report@));
        assert(rs.take(i + 1).drop_last() =~= prefix);
        proof {
            prefix.lemma_filter_push(report@, is_running);
            prefix.lemma_filter_push(report@, is_failed);
        }
        match &report.status {
            Ok(status) => {
                if same_text(status.state.as_str(), "running") {
                    running = running + 1;
                }
                if same_text(status.state.as_str(), "failed") {
                    failed = failed + 1;
                }
                push_report_lines(&mut lines, report.name.as_str(), status, inst.as_str());
            },
            Err(_) => {
                assert(texts(lines@) =~= texts(lines@) + Seq::<Seq<char>>::empty());
            },
        }
        i = i + 1;
    }
    assert(rs.take(i as int) =~= rs);
    lines.push(gauge("kafka_connect_up", inst.as_str(), "1"));
    let total = decimal(reports.len() as u64);
    lines.push(gauge("kafka_connect_connectors_total", inst.as_str(), total.as_str()));
    let running_text = decimal(running as u64);
    lines.push(gauge("kafka_connect_connectors_running", inst.as_str(), running_text.as_str()));
    let failed_text = decimal(failed as u64);
    lines.push(gauge("kafka_connect_connectors_failed", inst.as_str(), failed_text.as_str()));
    assert(texts(lines@) =~= reachable_lines(inst@, rs));
    join_lines(&lines, "\n")
}

/// The text for one endpoint, from the outcome of its list call and of each
/// listed connector's status call; states are compared in lower case.
pub fn render_endpoint(
    base_url: &str,
    connectors: &Result<Vec<ConnectorReport>, ClientError>,
) -> (r: String)
    ensures
        r@ == endpoint_text(base_url@, lowered_reports(reports_view(*connectors))),
{
    let lowered = lowercase_reports(connectors);
    render_lowered_endpoint(base_url, &lowered)
}

/// The full exposition of one scrape cycle: each endpoint's text, in the
/// order given, joined by newlines.
pub fn render_exposition(scrapes: &Vec<EndpointScrape>) -> (r: String)
    ensures
        r@ == exposition(scrapes@),
{
    let ghost f = |e: EndpointScrape| scrape_text(e);
    let mut blocks: Vec<String> = Vec::new();
    let mut i: usize = 0;
    while i < scrapes.len()
        invariant
            i <= scrapes@.len(),
            f == (|e: EndpointScrape| scrape_text(e)),
            texts(blocks@) == scrapes@.take(i as int).map_values(f),
        decreases scrapes@.len() - i,
    {
        let block = render_endpoint(scrapes[i].base_url.as_str(), &scrapes[i].connectors);
        let ghost before = texts(blocks@);
        blocks.push(block);
        assert(texts(blocks@) =~= before.push(block@));
        assert(scrapes@.take(i + 1).map_values(f) =~= scrapes@.take(i as int).map_values(f).push(
            f(scrapes@[i as int]),
        ));
        assert(texts(blocks@) =~= scrapes@.take(i + 1).map_values(f));
        i = i + 1;
    }
    assert(scrapes@.take(i as int) =~= scrapes@);
    join_lines(&blocks, "\n")
}

proof fn lemma_state_names_distinct()
    ensures
        forall|j: int, k: int|
            0 <= j < 4 && 0 <= k < 4 && #[trigger] state_names()[j] == #[trigger] state_names()[k]
                ==> j == k,
{
    reveal_strlit("running");
    reveal_strlit("failed");
    reveal_strlit("paused");
    reveal_strlit("unassigned");
    assert("running"@[0] != "failed"@[0]);
    assert("running"@[0] != "paused"@[0]);
    assert("running"@[0] != "unassigned"@[0]);
    assert("failed"@[0] != "paused"@[0]);
    assert("failed"@[0] != "unassigned"@[0]);
    assert("paused"@[0] != "unassigned"@[0]);
}

/// A connector's four state lines are one-hot: where its lower-cased state is
/// one of the four known states, the line for that state reads `1` and the
/// other three read `0`.
pub proof fn lemma_connector_block_one_hot(name: Seq<char>, lowered: Seq<char>, inst: Seq<char>)
    requires
        state_names().contains(lowered),
    ensures
        connector_block(name, lowered, inst).len() == 4,
        exists|k: int|
            0 <= k < 4 && state_names()[k] == lowered && forall|j: int|
                0 <= j < 4 ==> #[trigger] connector_block(name, lowered, inst)[j]
                    == connector_state_line(name, state_names()[j], inst, j == k),
{
    lemma_state_names_distinct();
    let k = choose|k: int| 0 <= k < 4 && state_names()[k] == lowered;
    assert forall|j: int| 0 <= j < 4 implies #[trigger] connector_block(name, lowered, inst)[j]
        == connector_state_line(name, state_names()[j], inst, j == k) by {
        assert((lowered == state_names()[j]) == (j == k));
    }
}

/// A task's four state lines are one-hot in the same way as a connector's.
pub proof fn lemma_task_block_one_hot(
    name: Seq<char>,
    task: Seq<char>,
    lowered: Seq<char>,
    inst: Seq<char>,
)
    requires
        state_names().contains(lowered),
    ensures
        task_block(name, task, lowered, inst).len() == 4,
        exists|k: int|
            0 <= k < 4 && state_names()[k] == lowered && forall|j: int|
                0 <= j < 4 ==> #[trigger] task_block(name, task, lowered, inst)[j]
                    == task_state_line(name, task, state_names()[j], inst, j == k),
{
    lemma_state_names_distinct();
    let k = choose|k: int| 0 <= k < 4 && state_names()[k] == lowered;
    assert forall|j: int| 0 <= j < 4 implies #[trigger] task_block(name, task, lowered, inst)[j]
        == task_state_line(name, task, state_names()[j], inst, j == k) by {
        assert((lowered == state_names()[j]) == (j == k));
    }
}

/// A state outside the four known ones gets four lines that all read `0`.
pub proof fn lemma_unknown_state_all_zero(name: Seq<char>, lowered: Seq<char>, inst: Seq<char>)
    requires
        !state_names().contains(lowered),
    ensures
        forall|j: int|
            0 <= j < 4 ==> #[trigger] connector_block(name, lowered, inst)[j]
                == connector_state_line(name, state_names()[j], inst, false),
{
    assert forall|j: int| 0 <= j < 4 implies #[trigger] connector_block(name, lowered, inst)[j]
        == connector_state_line(name, state_names()[j], inst, false) by {
        assert(state_names()[j] != lowered);
    }
}

proof fn lemma_task_lines_layout(name: Seq<char>, tasks: Seq<TaskView>, inst: Seq<char>, t: int)
    requires
        0 <= t < tasks.len(),
    ensures
        task_lines(name, tasks, inst).len() == 4 * tasks.len(),
        task_lines(name, tasks, inst).subrange(4 * t, 4 * t + 4) == task_block(
            name,
            dec(tasks[t].id as nat),
            tasks[t].state,
            inst,
        ),
    decreases tasks.len(),
{
    let a = task_lines(name, tasks.drop_last(), inst);
    let b = task_block(name, dec(tasks.last().id as nat), tasks.last().state, inst);
    if t < tasks.len() - 1 {
        lemma_task_lines_layout(name, tasks.drop_last(), inst, t);
        assert((a + b).subrange(4 * t, 4 * t + 4) =~= a.subrange(4 * t, 4 * t + 4));
    } else {
        if tasks.len() > 1 {
            lemma_task_lines_layout(name, tasks.drop_last(), inst, 0);
        }
        assert(a.len() == 4 * t);
        assert((a + b).subrange(4 * t, 4 * t + 4) =~= b);
    }
}

proof fn lemma_reports_lines_layout(rs: Seq<ReportView>, inst: Seq<char>, i: int) -> (o: int)
    requires
        0 <= i < rs.len(),
    ensures
        0 <= o,
        o + report_lines(rs[i], inst).len() <= reports_lines(rs, inst).len(),
        reports_lines(rs, inst).subrange(o, o + report_lines(rs[i], inst).len()) == report_lines(
            rs[i],
            inst,
        ),
    decreases rs.len(),
{
    let a = reports_lines(rs.drop_last(), inst);
    let b = report_lines(rs.last(), inst);
    let len = report_lines(rs[i], inst).len() as int;
    if i < rs.len() - 1 {
        let o = lemma_reports_lines_layout(rs.drop_last(), inst, i);
        assert((a + b).subrange(o, o + len) =~= a.subrange(o, o + len));
        o
    } else {
        assert((a + b).subrange(a.len() as int, a.len() as int + len) =~= b);
        a.len() as int
    }
}

/// In a reachable endpoint's lines, each connector whose status was had,
/// with or without tasks, has its four state lines together.
pub proof fn lemma_reachable_connector_group(inst: Seq<char>, rs: Seq<ReportView>, i: int)
    requires
        0 <= i < rs.len(),
        rs[i].status is Some,
    ensures
        exists|o: int|
            0 <= o && o + 4 <= reachable_lines(inst, rs).len() && #[trigger] reachable_lines(
                inst,
                rs,
            ).subrange(o, o + 4) == connector_block(
                rs[i].name,
                rs[i].status->Some_0.state,
                inst,
            ),
{
    let st = rs[i].status->Some_0;
    let all = reachable_lines(inst, rs);
    let body = reports_lines(rs, inst);
    let c = connector_block(rs[i].name, st.state, inst);
    let ts = task_lines(rs[i].name, st.tasks, inst);
    let o = lemma_reports_lines_layout(rs, inst, i);
    let len = report_lines(rs[i], inst).len() as int;
    assert(all.subrange(o, o + len) =~= body.subrange(o, o + len));
    assert(all.subrange(o, o + 4) =~= (c + ts).subrange(0, 4));
    assert((c + ts).subrange(0, 4) =~= c);
}

/// In a reachable endpoint's lines, each connector whose status was had
/// has its four state lines together, and so has each of its tasks; each
/// such group is one-hot where its state is one of the four known ones.
pub proof fn lemma_reachable_state_groups(inst: Seq<char>, rs: Seq<ReportView>, i: int, t: int)
    requires
        0 <= i < rs.len(),
        rs[i].status is Some,
        0 <= t < rs[i].status->Some_0.tasks.len(),
    ensures
        exists|o: int|
            0 <= o && o + 4 <= reachable_lines(inst, rs).len() && #[trigger] reachable_lines(
                inst,
                rs,
            ).subrange(o, o + 4) == connector_block(
                rs[i].name,
                rs[i].status->Some_0.state,
                inst,
            ),
        exists|o: int|
            0 <= o && o + 4 <= reachable_lines(inst, rs).len() && #[trigger] reachable_lines(
                inst,
                rs,
            ).subrange(o, o + 4) == task_block(
                rs[i].name,
                dec(rs[i].status->Some_0.tasks[t].id as nat),
                rs[i].status->Some_0.tasks[t].state,
                inst,
            ),
{
    let st = rs[i].status->Some_0;
    let all = reachable_lines(inst, rs);
    let body = reports_lines(rs, inst);
    let c = connector_block(rs[i].name, st.state, inst);
    let ts = task_lines(rs[i].name, st.tasks, inst);
    let o = lemma_reports_lines_layout(rs, inst, i);
    lemma_task_lines_layout(rs[i].name, st.tasks, inst, t);
    let len = report_lines(rs[i], inst).len() as int;
    assert(all.subrange(o, o + len) =~= body.subrange(o, o + len));
    assert(all.subrange(o, o + 4) =~= (c + ts).subrange(0, 4));
    assert((c + ts).subrange(0, 4) =~= c);
    let p = o + 4 + 4 * t;
    assert(all.subrange(p, p + 4) =~= (c + ts).subrange(4 + 4 * t, 4 + 4 * t + 4));
    assert((c + ts).subrange(4 + 4 * t, 4 + 4 * t + 4) =~= ts.subrange(4 * t, 4 * t + 4));
}

/// Whether a connector's status was had and its own state, lower-cased, is `state`.
pub open spec fn state_is(r: ReportView, state: Seq<char>) -> bool {
    r.status is Some && lower_of(r.status->Some_0.state) == state
}

proof fn lemma_lowered_count(rs: Seq<ReportView>, state: Seq<char>)
    ensures
        count_in_state(rs.map_values(|r: ReportView| lowered_report(r)), state) == rs.filter(
            |r: ReportView| state_is(r, state),
        ).len(),
    decreases rs.len(),
{
    let g = |r: ReportView| lowered_report(r);
    let p = |r: ReportView| in_state(r, state);
    let q = |r: ReportView| state_is(r, state);
    if rs.len() > 0 {
        let init = rs.drop_last();
        lemma_lowered_count(init, state);
        assert(rs =~= init.push(rs.last()));
        assert(rs.map_values(g) =~= init.map_values(g).push(g(rs.last())));
        init.map_values(g).lemma_filter_push(g(rs.last()), p);
        init.lemma_filter_push(rs.last(), q);
    } else {
        assert(rs.map_values(g).filter(p) =~= Seq::<ReportView>::empty());
        assert(rs.filter(q) =~= Seq::<ReportView>::empty());
    }
}

/// A reachable endpoint's lines end with four summary lines: `up` at `1`,
/// the number of listed connectors (those whose status call failed
/// included), and the numbers of connectors whose own state, in any case,
/// is `running` and `failed`; the states of tasks count for neither.
pub proof fn lemma_summary_counts(inst: Seq<char>, rs: Seq<ReportView>)
    ensures
        ({
            let ls = reachable_lines(inst, rs.map_values(|r: ReportView| lowered_report(r)));
            &&& ls.len() >= 4
            &&& ls[ls.len() - 4] == gauge_line("kafka_connect_up"@, inst, "1"@)
            &&& ls[ls.len() - 3] == gauge_line(
                "kafka_connect_connectors_total"@,
                inst,
                dec(rs.len()),
            )
            &&& ls[ls.len() - 2] == gauge_line(
                "kafka_connect_connectors_running"@,
                inst,
                dec(rs.filter(|r: ReportView| state_is(r, "running"@)).len()),
            )
            &&& ls[ls.len() - 1] == gauge_line(
                "kafka_connect_connectors_failed"@,
                inst,
                dec(rs.filter(|r: ReportView| state_is(r, "failed"@)).len()),
            )
        }),
{
    lemma_lowered_count(rs, "running"@);
    lemma_lowered_count(rs, "failed"@);
}

/// Whether `l` is a line of the reachability gauge.
pub open spec fn is_up_line(l: Seq<char>) -> bool {
    l.len() >= 17 && l.subrange(0, 17) == "kafka_connect_up{"@
}

proof fn lemma_c_prefix_not_up(l: Seq<char>)
    requires
        l.len() > 14,
        l[14] == 'c',
    ensures
        !is_up_line(l),
{
    reveal_strlit("kafka_connect_up{");
    if l.len() >= 17 {
        assert(l.subrange(0, 17)[14] == 'c');
        assert("kafka_connect_up{"@[14] == 'u');
    }
}

proof fn lemma_prefixed_not_up(lit: Seq<char>, rest: Seq<char>)
    requires
        lit.len() > 14,
        lit[14] == 'c',
    ensures
        !is_up_line(lit + rest),
{
    assert((lit + rest)[14] == lit[14]);
    lemma_c_prefix_not_up(lit + rest);
}

proof fn lemma_state_lines_not_up(name: Seq<char>, task: Seq<char>, lowered: Seq<char>, inst: Seq<char>)
    ensures
        forall|k: int| 0 <= k < 4 ==> !is_up_line(#[trigger] connector_block(name, lowered, inst)[k]),
        forall|k: int|
            0 <= k < 4 ==> !is_up_line(#[trigger] task_block(name, task, lowered, inst)[k]),
{
    reveal_strlit("kafka_connect_connector_state{connector=\"");
    reveal_strlit("kafka_connect_connector_task_state{connector=\"");
    let c = "kafka_connect_connector_state{connector=\""@;
    let t = "kafka_connect_connector_task_state{connector=\""@;
    assert forall|k: int| 0 <= k < 4 implies !is_up_line(
        #[trigger] connector_block(name, lowered, inst)[k],
    ) by {
        let st = state_names()[k];
        let rest = name + "\",state=\""@ + st + "\",instance=\""@ + inst + "\"} "@ + flag(
            lowered == st,
        );
        assert(connector_state_line(name, st, inst, lowered == st) =~= c + rest);
        lemma_prefixed_not_up(c, rest);
    }
    assert forall|k: int| 0 <= k < 4 implies !is_up_line(
        #[trigger] task_block(name, task, lowered, inst)[k],
    ) by {
        let st = state_names()[k];
        let rest = name + "\",task=\""@ + task + "\",state=\""@ + st + "\",instance=\""@ + inst
            + "\"} "@ + flag(lowered == st);
        assert(task_state_line(name, task, st, inst, lowered == st) =~= t + rest);
        lemma_prefixed_not_up(t, rest);
    }
}

proof fn lemma_task_lines_not_up(name: Seq<char>, tasks: Seq<TaskView>, inst: Seq<char>)
    ensures
        forall|j: int|
            0 <= j < task_lines(name, tasks, inst).len() ==> !is_up_line(
                #[trigger] task_lines(name, tasks, inst)[j],
            ),
    decreases tasks.len(),
{
    if tasks.len() > 0 {
        lemma_task_lines_not_up(name, tasks.drop_last(), inst);
        let last = tasks.last();
        lemma_state_lines_not_up(name, dec(last.id as nat), last.state, inst);
        let a = task_lines(name, tasks.drop_last(), inst);
        let b = task_block(name, dec(last.id as nat), last.state, inst);
        assert forall|j: int| 0 <= j < (a + b).len() implies !is_up_line(#[trigger] (a + b)[j]) by {
            if j >= a.len() {
                assert((a + b)[j] == b[j - a.len()]);
            }
        }
    }
}

proof fn lemma_reports_lines_not_up(rs: Seq<ReportView>, inst: Seq<char>)
    ensures
        forall|j: int|
            0 <= j < reports_lines(rs, inst).len() ==> !is_up_line(
                #[trigger] reports_lines(rs, inst)[j],
            ),
    decreases rs.len(),
{
    if rs.len() > 0 {
        lemma_reports_lines_not_up(rs.drop_last(), inst);
        let a = reports_lines(rs.drop_last(), inst);
        let b = report_lines(rs.last(), inst);
        if rs.last().status is Some {
            let st = rs.last().status->Some_0;
            lemma_state_lines_not_up(rs.last().name, Seq::empty(), st.state, inst);
            lemma_task_lines_not_up(rs.last().name, st.tasks, inst);
            let c = connector_block(rs.last().name, st.state, inst);
            let ts = task_lines(rs.last().name, st.tasks, inst);
            assert forall|j: int| 0 <= j < b.len() implies !is_up_line(#[trigger] b[j]) by {
                if j >= 4 {
                    assert((c + ts)[j] == ts[j - 4]);
                }
            }
        }
        assert forall|j: int| 0 <= j < (a + b).len() implies !is_up_line(#[trigger] (a + b)[j]) by {
            if j >= a.len() {
                assert((a + b)[j] == b[j - a.len()]);
            }
        }
    }
}

/// A reachable endpoint has exactly one reachability line among its lines:
/// the summary line at `1`. Every other line is a connector, task or count
/// line.
pub proof fn lemma_one_up_line(inst: Seq<char>, rs: Seq<ReportView>)
    ensures
        forall|j: int|
            0 <= j < reachable_lines(inst, rs).len() ==> (is_up_line(
                #[trigger] reachable_lines(inst, rs)[j],
            ) <==> j == reachable_lines(inst, rs).len() - 4),
        reachable_lines(inst, rs)[reachable_lines(inst, rs).len() - 4] == gauge_line(
            "kafka_connect_up"@,
            inst,
            "1"@,
        ),
{
    reveal_strlit("kafka_connect_up");
    reveal_strlit("kafka_connect_up{");
    reveal_strlit("{instance=\"");
    reveal_strlit("kafka_connect_connectors_total");
    reveal_strlit("kafka_connect_connectors_running");
    reveal_strlit("kafka_connect_connectors_failed");
    lemma_reports_lines_not_up(rs, inst);
    let a = reports_lines(rs, inst);
    let sm = summary_lines(
        inst,
        rs.len(),
        count_in_state(rs, "running"@),
        count_in_state(rs, "failed"@),
    );
    let all = a + sm;
    let up = gauge_line("kafka_connect_up"@, inst, "1"@);
    assert(up.subrange(0, 17) =~= "kafka_connect_up{"@);
    assert forall|k: int| 1 <= k < 4 implies !is_up_line(#[trigger] sm[k]) by {
        let m = if k == 1 {
            "kafka_connect_connectors_total"@
        } else if k == 2 {
            "kafka_connect_connectors_running"@
        } else {
            "kafka_connect_connectors_failed"@
        };
        assert(m[14] == 'c');
        let rest = "{instance=\""@ + inst + "\"} "@ + if k == 1 {
            dec(rs.len())
        } else if k == 2 {
            dec(count_in_state(rs, "running"@))
        } else {
            dec(count_in_state(rs, "failed"@))
        };
        assert(sm[k] =~= m + rest);
        lemma_prefixed_not_up(m, rest);
    }
    assert forall|j: int| 0 <= j < all.len() implies (is_up_line(#[trigger] all[j]) <==> j
        == all.len() - 4) by {
        if j >= a.len() {
            assert(all[j] == sm[j - a.len()]);
        }
    }
}

} // verus!
