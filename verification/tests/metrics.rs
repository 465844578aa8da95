use pythia::methods::http::{http_request, HttpRequest};
use pythia::utils::metrics::{gather_metrics, service_metrics, Inner, Metric, Metrics};

fn sample_metrics() -> Metrics {
    Metrics {
        ACTIVE_SUBSCRIPTIONS: Metric::new("active_subscriptions", "Number of active subscriptions", "gauge", &["chain"]),
        RPC_OUTCALLS: Metric::new("rpc_outcalls", "Number of rpc outcalls", "counter", &["method"]),
        SUCCESSFUL_RPC_OUTCALLS: Metric::new("sucessfull_rpc_outcalls", "Number of successfully returned rpc outcalls", "counter", &["method"]),
        SYBIL_OUTCALLS: Metric::new("sybil_outcalls", "Number of sybil outcalls", "counter", &["method"]),
        SUCCESSFUL_SYBIL_OUTCALLS: Metric::new("successful_sybil_outcalls", "Number of successful sybil outcalls", "counter", &["method"]),
        CYCLES: Metric::new("cycles", "Number of canister's cycles", "gauge", &[]),
    }
}

#[test]
fn inner_counts_saturate() {
    let mut inner = Inner::new(u128::MAX, vec![]);
    inner.inc();
    assert_eq!(inner.get(), u128::MAX);
    let mut inner = Inner::new(0, vec![]);
    inner.dec();
    assert_eq!(inner.get(), 0);
    inner.set(41);
    inner.inc();
    assert_eq!(inner.get(), 42);
}

#[test]
fn metric_without_labels_keeps_its_first_value() {
    let mut m = Metric::new("cycles", "Number of canister's cycles", "gauge", &[]);
    assert_eq!(m.get(), 0);
    m.set(5);
    assert_eq!(m.get(), 5);
    m.set(9);
    assert_eq!(m.get(), 5);
    m.inc();
    assert_eq!(m.get(), 5);
}

#[test]
fn metric_inc_makes_value_one() {
    let mut m = Metric::new("x", "h", "counter", &[]);
    m.inc();
    assert_eq!(m.get(), 1);
    let mut d = Metric::new("y", "h", "counter", &[]);
    d.dec();
    assert_eq!(d.get(), 0);
    assert_eq!(d.inner.len(), 1);
}

#[test]
fn labelled_values_count_separately() {
    let mut m = Metric::new("rpc_outcalls", "Number of rpc outcalls", "counter", &["method"]);
    m.with_label_values(vec!["gas_price".to_string()]).inc();
    m.with_label_values(vec!["gas_price".to_string()]).inc();
    m.with_label_values(vec!["call".to_string()]).inc();
    assert_eq!(m.with_label_values(vec!["gas_price".to_string()]).get(), 2);
    assert_eq!(m.with_label_values(vec!["call".to_string()]).get(), 1);
    assert_eq!(m.inner.len(), 2);
}

#[test]
fn metric_text_exposition() {
    let mut m = Metric::new("rpc_outcalls", "Number of rpc outcalls", "counter", &["method"]);
    let mut out = String::new();
    m.encode(&mut out);
    assert_eq!(out, "");
    m.with_label_values(vec!["gas_price".to_string()]).set(7);
    m.encode(&mut out);
    assert_eq!(
        out,
        "# HELP rpc_outcalls Number of rpc outcalls\n# TYPE rpc_outcalls counter\nrpc_outcalls{method=\"gas_price\"} 7\n"
    );
}

#[test]
fn plain_value_line_ends_the_values() {
    let mut m = Metric::new("cycles", "Number of canister's cycles", "gauge", &[]);
    m.set(1234567890123);
    let mut out = String::new();
    m.encode(&mut out);
    assert_eq!(out, "# HELP cycles Number of canister's cycles\n# TYPE cycles gauge\ncycles 1234567890123\n");
}

#[test]
fn gather_all_metrics() {
    let mut metrics = sample_metrics();
    assert!(gather_metrics(&metrics).is_empty());
    metrics.CYCLES.set(3);
    metrics.ACTIVE_SUBSCRIPTIONS.with_label_values(vec!["1".to_string()]).set(2);
    let text = String::from_utf8(gather_metrics(&metrics)).unwrap();
    assert_eq!(
        text,
        "# HELP active_subscriptions Number of active subscriptions\n# TYPE active_subscriptions gauge\nactive_subscriptions{chain=\"1\"} 2\n# HELP cycles Number of canister's cycles\n# TYPE cycles gauge\ncycles 3\n"
    );
}

#[test]
fn http_serves_metrics_path_only() {
    let mut metrics = sample_metrics();
    metrics.CYCLES.set(8);
    let req = HttpRequest { method: "GET".into(), url: "/metrics?format=text".into(), headers: vec![], body: vec![] };
    let res = http_request(&req, &metrics);
    assert_eq!(res.status_code, 200);
    assert_eq!(res.headers, vec![("Content-Type".to_string(), "text/plain".to_string())]);
    assert_eq!(res.body, gather_metrics(&metrics));

    let req = HttpRequest { method: "GET".into(), url: "/metricsx".into(), headers: vec![], body: vec![] };
    let res = http_request(&req, &metrics);
    assert_eq!(res.status_code, 404);
    assert!(res.headers.is_empty());
    assert_eq!(res.body, b"404 Not Found".to_vec());
}

#[test]
fn service_metrics_start_empty_and_count_by_label() {
    let mut m = service_metrics();
    assert!(gather_metrics(&m).is_empty());
    assert_eq!(m.RPC_OUTCALLS.label_names, vec!["method".to_string()]);
    assert!(m.CYCLES.label_names.is_empty());
    m.RPC_OUTCALLS.with_label_values(vec!["gas_price".to_string()]).inc();
    let text = String::from_utf8(gather_metrics(&m)).unwrap();
    assert_eq!(
        text,
        "# HELP rpc_outcalls Number of rpc outcalls\n# TYPE rpc_outcalls counter\nrpc_outcalls{method=\"gas_price\"} 1\n"
    );
}
