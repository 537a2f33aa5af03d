use kafka_connect_exporter::cache::MetricsCache;
use kafka_connect_exporter::config::{
    next_delay_ms, parse_endpoint_list, parse_u64, Config, ConfigError,
};
use kafka_connect_exporter::endpoint::{instance_label, list_url, status_url};
use kafka_connect_exporter::render::{render_endpoint, render_exposition, render_lowered_endpoint};
use kafka_connect_exporter::status::{
    decode_connector_names, lowercase_reports, lowercase_status, ClientError, ConnectorReport, ConnectorStatus, EndpointScrape,
    TaskStatus,
};
use kafka_connect_exporter::text::{decimal, join_lines, strip_prefix_all, trim_text};

fn task(id: u32, state: &str) -> TaskStatus {
    TaskStatus { id, state: state.to_string() }
}

fn report(name: &str, state: &str, tasks: Vec<TaskStatus>) -> ConnectorReport {
    ConnectorReport {
        name: name.to_string(),
        status: Ok(ConnectorStatus { state: state.to_string(), tasks }),
    }
}

fn failed_report(name: &str, e: ClientError) -> ConnectorReport {
    ConnectorReport { name: name.to_string(), status: Err(e) }
}

fn lines(text: &str) -> Vec<&str> {
    text.split('\n').collect()
}

#[test]
fn endpoint_normalization_strips_scheme_and_slash() {
    let urls = parse_endpoint_list("https://host:1234/");
    assert_eq!(urls, vec!["https://host:1234".to_string()]);
    assert_eq!(instance_label(&urls[0]), "host:1234");
}

#[test]
fn endpoint_list_trims_and_drops_empty_pieces() {
    let urls = parse_endpoint_list(" http://a:8083// ,, \thttp://b:8083 ,");
    assert_eq!(urls, vec!["http://a:8083".to_string(), "http://b:8083".to_string()]);
    assert!(parse_endpoint_list("").is_empty());
    assert!(parse_endpoint_list(" , / ,").is_empty());
}

#[test]
fn instance_label_strips_repeated_and_plain_prefixes() {
    assert_eq!(instance_label("http://localhost:8083"), "localhost:8083");
    assert_eq!(instance_label("host:1"), "host:1");
    assert_eq!(instance_label("http://http://x"), "x");
    assert_eq!(instance_label("https://https://y"), "y");
    assert_eq!(instance_label("ftp://z"), "ftp://z");
}

#[test]
fn request_urls() {
    assert_eq!(list_url("http://h:1"), "http://h:1/connectors?expand=status");
    assert_eq!(status_url("http://h:1", "sink-a"), "http://h:1/connectors/sink-a/status");
}

#[test]
fn two_endpoints_first_reachable_second_not() {
    let scrapes = vec![
        EndpointScrape {
            base_url: "http://one:8083".to_string(),
            connectors: Ok(vec![report("c1", "RUNNING", vec![task(0, "running")])]),
        },
        EndpointScrape {
            base_url: "https://two:8083".to_string(),
            connectors: Err(ClientError::Network),
        },
    ];
    let text = render_exposition(&scrapes);
    let expected = [
        "kafka_connect_connector_state{connector=\"c1\",state=\"running\",instance=\"one:8083\"} 1",
        "kafka_connect_connector_state{connector=\"c1\",state=\"failed\",instance=\"one:8083\"} 0",
        "kafka_connect_connector_state{connector=\"c1\",state=\"paused\",instance=\"one:8083\"} 0",
        "kafka_connect_connector_state{connector=\"c1\",state=\"unassigned\",instance=\"one:8083\"} 0",
        "kafka_connect_connector_task_state{connector=\"c1\",task=\"0\",state=\"running\",instance=\"one:8083\"} 1",
        "kafka_connect_connector_task_state{connector=\"c1\",task=\"0\",state=\"failed\",instance=\"one:8083\"} 0",
        "kafka_connect_connector_task_state{connector=\"c1\",task=\"0\",state=\"paused\",instance=\"one:8083\"} 0",
        "kafka_connect_connector_task_state{connector=\"c1\",task=\"0\",state=\"unassigned\",instance=\"one:8083\"} 0",
        "kafka_connect_up{instance=\"one:8083\"} 1",
        "kafka_connect_connectors_total{instance=\"one:8083\"} 1",
        "kafka_connect_connectors_running{instance=\"one:8083\"} 1",
        "kafka_connect_connectors_failed{instance=\"one:8083\"} 0",
        "kafka_connect_up{instance=\"two:8083\"} 0",
        "",
    ]
    .join("\n");
    assert_eq!(text, expected);
    let got = lines(&text);
    assert_eq!(got.iter().filter(|l| l.contains("instance=\"two:8083\"")).count(), 1);
}

#[test]
fn unreachable_endpoint_is_one_up_zero_line() {
    let text = render_endpoint("http://down:8083", &Err(ClientError::Network));
    assert_eq!(text, "kafka_connect_up{instance=\"down:8083\"} 0\n");
    let text = render_endpoint("http://bad:8083", &Err(ClientError::Decode));
    assert_eq!(text, "kafka_connect_up{instance=\"bad:8083\"} 0\n");
}

#[test]
fn state_lines_are_one_hot_for_each_connector_and_task() {
    let reports = vec![
        report("a", "Paused", vec![task(3, "UNASSIGNED"), task(7, "failed")]),
        report("b", "failed", vec![]),
    ];
    let text = render_endpoint("h:1", &Ok(reports));
    let got = lines(&text);
    // 4 + 2 * 4 for a, 4 for b, 4 summary lines
    assert_eq!(got.len(), 20);
    for group in got[..16].chunks(4) {
        assert_eq!(group.iter().filter(|l| l.ends_with(" 1")).count(), 1);
        assert_eq!(group.iter().filter(|l| l.ends_with(" 0")).count(), 3);
    }
    assert_eq!(got[2], "kafka_connect_connector_state{connector=\"a\",state=\"paused\",instance=\"h:1\"} 1");
    assert_eq!(
        got[7],
        "kafka_connect_connector_task_state{connector=\"a\",task=\"3\",state=\"unassigned\",instance=\"h:1\"} 1"
    );
    assert_eq!(
        got[9],
        "kafka_connect_connector_task_state{connector=\"a\",task=\"7\",state=\"failed\",instance=\"h:1\"} 1"
    );
    assert_eq!(got[13], "kafka_connect_connector_state{connector=\"b\",state=\"failed\",instance=\"h:1\"} 1");
}

#[test]
fn unknown_state_reads_zero_everywhere() {
    let text = render_endpoint("h:1", &Ok(vec![report("x", "RESTARTING", vec![])]));
    let got = lines(&text);
    assert_eq!(got.len(), 8);
    assert!(got[..4].iter().all(|l| l.ends_with(" 0")));
    assert_eq!(got[6], "kafka_connect_connectors_running{instance=\"h:1\"} 0");
    assert_eq!(got[7], "kafka_connect_connectors_failed{instance=\"h:1\"} 0");
}

#[test]
fn running_and_failed_counts_ignore_case_and_tasks() {
    let reports = vec![
        report("a", "RUNNING", vec![task(0, "failed")]),
        report("b", "Running", vec![]),
        report("c", "FAILED", vec![task(0, "running")]),
        report("d", "paused", vec![]),
    ];
    let text = render_endpoint("http://h:1", &Ok(reports));
    let got = lines(&text);
    let n = got.len();
    assert_eq!(got[n - 4], "kafka_connect_up{instance=\"h:1\"} 1");
    assert_eq!(got[n - 3], "kafka_connect_connectors_total{instance=\"h:1\"} 4");
    assert_eq!(got[n - 2], "kafka_connect_connectors_running{instance=\"h:1\"} 2");
    assert_eq!(got[n - 1], "kafka_connect_connectors_failed{instance=\"h:1\"} 1");
}

#[test]
fn total_counts_connectors_whose_status_failed() {
    let reports = vec![
        report("a", "running", vec![]),
        failed_report("b", ClientError::Network),
        failed_report("c", ClientError::Decode),
    ];
    let text = render_endpoint("h:2", &Ok(reports));
    let got = lines(&text);
    assert_eq!(got.len(), 8);
    assert!(!text.contains("connector=\"b\""));
    assert!(!text.contains("connector=\"c\""));
    assert_eq!(got[5], "kafka_connect_connectors_total{instance=\"h:2\"} 3");
    assert_eq!(got[6], "kafka_connect_connectors_running{instance=\"h:2\"} 1");
}

#[test]
fn reachable_endpoint_without_connectors() {
    let text = render_endpoint("h:3", &Ok(vec![]));
    assert_eq!(
        text,
        "kafka_connect_up{instance=\"h:3\"} 1\n\
         kafka_connect_connectors_total{instance=\"h:3\"} 0\n\
         kafka_connect_connectors_running{instance=\"h:3\"} 0\n\
         kafka_connect_connectors_failed{instance=\"h:3\"} 0"
    );
}

#[test]
fn no_endpoints_give_empty_exposition() {
    assert_eq!(render_exposition(&vec![]), "");
}

#[test]
fn task_ids_render_in_decimal() {
    let text = render_endpoint("h", &Ok(vec![report("a", "running", vec![task(4294967295, "running")])]));
    assert!(text.contains("task=\"4294967295\",state=\"running\",instance=\"h\"} 1"));
}

#[test]
fn decode_names_of_object() {
    let names = decode_connector_names(br#"{"zeta": {"status": 1}, "alpha": null}"#).unwrap();
    assert_eq!(names, vec!["alpha".to_string(), "zeta".to_string()]);
    assert_eq!(decode_connector_names(b"{}").unwrap(), Vec::<String>::new());
}

#[test]
fn decode_failures() {
    assert_eq!(decode_connector_names(b"[\"a\"]").unwrap_err(), ClientError::Decode);
    assert_eq!(decode_connector_names(b"not json").unwrap_err(), ClientError::Decode);
    assert_eq!(decode_connector_names(b"").unwrap_err(), ClientError::Decode);
    assert_eq!(decode_connector_names(b"{\"a\": 1} x").unwrap_err(), ClientError::Decode);
}

#[test]
fn parse_u64_follows_std() {
    assert_eq!(parse_u64("30"), Some(30));
    assert_eq!(parse_u64("+5"), Some(5));
    assert_eq!(parse_u64("007"), Some(7));
    assert_eq!(parse_u64("18446744073709551615"), Some(u64::MAX));
    assert_eq!(parse_u64("18446744073709551616"), None);
    assert_eq!(parse_u64("99999999999999999999x"), None);
    assert_eq!(parse_u64(""), None);
    assert_eq!(parse_u64("+"), None);
    assert_eq!(parse_u64("-1"), None);
    assert_eq!(parse_u64(" 1"), None);
    assert_eq!(parse_u64("1.5"), None);
    for s in ["0", "1", "42", "+17", "x", "", "123456789012345678901"] {
        assert_eq!(parse_u64(s), s.parse::<u64>().ok());
    }
}

#[test]
fn config_defaults() {
    let c = Config::from_values(None, None, None).unwrap();
    assert_eq!(c.connect_urls, vec!["http://localhost:8083".to_string()]);
    assert_eq!(c.bind_addr, "0.0.0.0:9407");
    assert_eq!(c.scrape_interval_secs, 30);
}

#[test]
fn config_refuses_malformed_interval() {
    assert_eq!(Config::from_values(None, None, Some("soon")).unwrap_err(), ConfigError::InvalidInterval);
    assert_eq!(Config::from_values(None, None, Some("-5")).unwrap_err(), ConfigError::InvalidInterval);
    assert_eq!(Config::from_values(None, None, Some("")).unwrap_err(), ConfigError::InvalidInterval);
    assert_eq!(Config::from_values(None, None, Some("+7")).unwrap().scrape_interval_secs, 7);
}

#[test]
fn delay_keeps_a_fixed_period() {
    assert_eq!(next_delay_ms(30_000, 1_250), 28_750);
    assert_eq!(next_delay_ms(30_000, 30_000), 0);
    assert_eq!(next_delay_ms(30_000, 45_000), 0);
    assert_eq!(next_delay_ms(0, 0), 0);
}

#[test]
fn config_from_values() {
    let c = Config::from_values(Some("http://a:1/, https://b:2"), Some("127.0.0.1:1"), Some("5"))
        .unwrap();
    assert_eq!(c.connect_urls, vec!["http://a:1".to_string(), "https://b:2".to_string()]);
    assert_eq!(c.bind_addr, "127.0.0.1:1");
    assert_eq!(c.scrape_interval_secs, 5);
}

#[test]
fn cache_replaces_whole_value() {
    let mut cache = MetricsCache::new();
    assert_eq!(cache.snapshot(), "");
    cache.replace("first cycle\nline two".to_string());
    assert_eq!(cache.snapshot(), "first cycle\nline two");
    cache.replace("second".to_string());
    assert_eq!(cache.snapshot(), "second");
}

#[test]
fn text_helpers() {
    assert_eq!(decimal(0), "0");
    assert_eq!(decimal(1234567890), "1234567890");
    assert_eq!(decimal(u64::MAX), u64::MAX.to_string());
    assert_eq!(trim_text("\u{3000} a b \n"), "a b");
    assert_eq!(strip_prefix_all("ababc", "ab"), "c");
    assert_eq!(join_lines(&vec!["a".to_string(), "b".to_string()], "\n"), "a\nb");
    assert_eq!(join_lines(&vec![], "\n"), "");
}

#[test]
fn lowercase_status_lowers_connector_and_tasks() {
    let st = ConnectorStatus {
        state: "RUNNING".to_string(),
        tasks: vec![task(1, "Failed"), task(2, "UNASSIGNED")],
    };
    let low = lowercase_status(&st);
    assert_eq!(low.state, "running");
    assert_eq!(low.tasks.len(), 2);
    assert_eq!((low.tasks[0].id, low.tasks[0].state.as_str()), (1, "failed"));
    assert_eq!((low.tasks[1].id, low.tasks[1].state.as_str()), (2, "unassigned"));
}

#[test]
fn lowercase_reports_keeps_names_and_failures() {
    let low = lowercase_reports(&Ok(vec![
        report("MyConn", "PAUSED", vec![]),
        failed_report("Other", ClientError::Decode),
    ]))
    .unwrap();
    assert_eq!(low[0].name, "MyConn");
    assert_eq!(low[0].status.as_ref().unwrap().state, "paused");
    assert_eq!(low[1].name, "Other");
    assert_eq!(low[1].status.as_ref().unwrap_err(), &ClientError::Decode);
    assert_eq!(lowercase_reports(&Err(ClientError::Network)).unwrap_err(), ClientError::Network);
}

#[test]
fn lowered_renderer_compares_states_as_given() {
    let text = render_lowered_endpoint("h", &Ok(vec![report("a", "RUNNING", vec![])]));
    let got = lines(&text);
    assert!(got[..4].iter().all(|l| l.ends_with(" 0")));
    assert_eq!(got[6], "kafka_connect_connectors_running{instance=\"h\"} 0");
    let text = render_lowered_endpoint("h", &Ok(vec![report("a", "running", vec![])]));
    assert_eq!(lines(&text)[0], "kafka_connect_connector_state{connector=\"a\",state=\"running\",instance=\"h\"} 1");
    assert_eq!(lines(&text)[6], "kafka_connect_connectors_running{instance=\"h\"} 1");
}
