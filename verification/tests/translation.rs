use dumpy::config::{Config, SpoolConfig, TlsConfig};
use dumpy::query::{
    build_filter, parse_flow_timeframe, translate, EveAlert, EveEvent, EveFlow, EventPayload,
    FetchRequest,
};

fn test_config() -> Config {
    Config {
        port: Some(7000),
        tls: TlsConfig::default(),
        spools: vec![SpoolConfig {
            name: "default".to_string(),
            directory: "/var/spool/pcap".to_string(),
            prefix: None,
        }],
        users: Vec::new(),
    }
}

fn base_request() -> FetchRequest {
    FetchRequest {
        query_type: "filter".to_string(),
        filter: Some("tcp".to_string()),
        start_time: Some("2022-01-01T00:00:00Z".to_string()),
        duration: Some("2m".to_string()),
        event: None,
        duration_before: None,
        duration_after: None,
        spool: "default".to_string(),
    }
}

fn base_event() -> EveEvent {
    EveEvent {
        timestamp: "2022-01-01T00:00:00Z".to_string(),
        event_type: "alert".to_string(),
        proto: "TCP".to_string(),
        src_ip: "10.0.0.1".to_string(),
        src_port: Some(1111),
        dest_ip: "10.0.0.2".to_string(),
        dest_port: Some(2222),
        alert: Some(EveAlert { signature_id: 5 }),
        flow: None,
        netflow: None,
    }
}

#[test]
fn flow_timeframe_scenario() {
    // start 2022-01-01T00:00:00Z, end one minute later: the frame starts one
    // second early and lasts the flow plus two seconds
    let flow = EveFlow {
        start: "2022-01-01T00:00:00Z".to_string(),
        end: Some("2022-01-01T00:01:00Z".to_string()),
    };
    let (start, duration) = parse_flow_timeframe(&flow).unwrap();
    assert_eq!(start, 1640995199); // 2021-12-31T23:59:59Z
    assert_eq!(duration, 62);
}

#[test]
fn flow_timeframe_defaults() {
    let flow = EveFlow { start: "2022-01-01T00:00:00Z".to_string(), end: None };
    assert_eq!(parse_flow_timeframe(&flow).unwrap(), (1640995199, 60));
    let flow = EveFlow {
        start: "2022-01-01T00:00:00Z".to_string(),
        end: Some("garbage".to_string()),
    };
    assert_eq!(parse_flow_timeframe(&flow).unwrap(), (1640995199, 60));
    let flow = EveFlow { start: "garbage".to_string(), end: None };
    assert!(parse_flow_timeframe(&flow).is_none());
}

#[test]
fn filter_query_translation() {
    let q = translate(&test_config(), &base_request(), &EventPayload::Missing).unwrap();
    assert_eq!(q.start_time, 1640995200);
    assert_eq!(q.duration, 120);
    assert_eq!(q.filter, "tcp");
    assert_eq!(q.output_name, "1640995200.pcap");
}

#[test]
fn filter_query_default_duration() {
    let mut req = base_request();
    req.duration = None;
    let q = translate(&test_config(), &req, &EventPayload::Missing).unwrap();
    assert_eq!(q.duration, 60);
}

#[test]
fn filter_query_errors() {
    let config = test_config();
    let mut req = base_request();
    req.spool = "nope".to_string();
    let e = translate(&config, &req, &EventPayload::Missing).unwrap_err();
    assert_eq!(e.reason, "invalid spool name");

    let mut req = base_request();
    req.start_time = None;
    let e = translate(&config, &req, &EventPayload::Missing).unwrap_err();
    assert_eq!(e.reason, "start-time is required");

    let mut req = base_request();
    req.start_time = Some("yesterday".to_string());
    let e = translate(&config, &req, &EventPayload::Missing).unwrap_err();
    assert_eq!(e.reason, "invalid start-time");

    let mut req = base_request();
    req.duration = Some("2x".to_string());
    let e = translate(&config, &req, &EventPayload::Missing).unwrap_err();
    assert_eq!(e.reason, "invalid duration");

    let mut req = base_request();
    req.filter = None;
    let e = translate(&config, &req, &EventPayload::Missing).unwrap_err();
    assert_eq!(e.reason, "filter is required");

    let mut req = base_request();
    req.query_type = "weird".to_string();
    let e = translate(&config, &req, &EventPayload::Missing).unwrap_err();
    assert_eq!(e.reason, "bad query type");
}

#[test]
fn event_query_translation() {
    let config = test_config();
    let mut req = base_request();
    req.query_type = "event".to_string();
    let q = translate(&config, &req, &EventPayload::Parsed(base_event())).unwrap();
    // one default minute before and after the event timestamp
    assert_eq!(q.start_time, 1640995140);
    assert_eq!(q.duration, 120);
    assert_eq!(
        q.filter,
        "tcp and ((host 10.0.0.1 and port 1111) and (host 10.0.0.2 and port 2222))"
    );
    assert_eq!(q.output_name, "5-1640995140-10.0.0.1-1111-10.0.0.2-2222.pcap");
}

#[test]
fn event_query_without_ports() {
    let mut ev = base_event();
    ev.src_port = None;
    ev.alert = None;
    // the host-only filter keeps the protocol's case as given
    assert_eq!(build_filter(&ev), "TCP and host 10.0.0.1 and host 10.0.0.2");

    let config = test_config();
    let mut req = base_request();
    req.query_type = "event".to_string();
    let q = translate(&config, &req, &EventPayload::Parsed(ev)).unwrap();
    assert_eq!(q.output_name, "0-1640995140-10.0.0.1-0-10.0.0.2-2222.pcap");
}

#[test]
fn event_query_flow_frame() {
    let config = test_config();
    let mut req = base_request();
    req.query_type = "event".to_string();
    let mut ev = base_event();
    ev.event_type = "flow".to_string();
    ev.flow = Some(EveFlow {
        start: "2022-01-01T00:00:00Z".to_string(),
        end: Some("2022-01-01T00:01:00Z".to_string()),
    });
    let q = translate(&config, &req, &EventPayload::Parsed(ev)).unwrap();
    assert_eq!(q.start_time, 1640995199);
    assert_eq!(q.duration, 62);
}

#[test]
fn event_query_errors() {
    let config = test_config();
    let mut req = base_request();
    req.query_type = "event".to_string();

    let e = translate(&config, &req, &EventPayload::Missing).unwrap_err();
    assert_eq!(e.reason, "no event provided for event query");

    let e = translate(&config, &req, &EventPayload::Malformed).unwrap_err();
    assert_eq!(e.reason, "bad event");

    let mut ev = base_event();
    ev.timestamp = "garbage".to_string();
    let e = translate(&config, &req, &EventPayload::Parsed(ev)).unwrap_err();
    assert_eq!(e.reason, "failed to parse event timestamp");

    req.duration_before = Some("xx".to_string());
    let e = translate(&config, &req, &EventPayload::Parsed(base_event())).unwrap_err();
    assert_eq!(e.reason, "invalid duration-before");

    req.duration_before = Some("1m".to_string());
    req.duration_after = Some("zz".to_string());
    let e = translate(&config, &req, &EventPayload::Parsed(base_event())).unwrap_err();
    assert_eq!(e.reason, "invalid duration-after");

    // durations whose sum cannot be represented are out of range
    req.duration_before = Some("9223372036854775807s".to_string());
    req.duration_after = Some("9223372036854775807s".to_string());
    let e = translate(&config, &req, &EventPayload::Parsed(base_event())).unwrap_err();
    assert_eq!(e.reason, "invalid duration");
}
