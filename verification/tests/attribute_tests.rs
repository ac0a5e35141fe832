use kuadrant_praxis::attributes::{
    parse_ip_and_port, AttributeFailure, HeaderEntry, RequestData, UpstreamAddr,
};

fn header(name: &str, value: &str) -> HeaderEntry {
    HeaderEntry { name: name.to_string(), value: Ok(value.to_string()) }
}

fn request() -> RequestData {
    RequestData {
        method: "GET".to_string(),
        uri_host: None,
        path: "/api/v1/items".to_string(),
        scheme: None,
        headers: vec![header("host", "example.com"), header("x-user", "alice")],
        client_addr: Some("10.0.0.7".to_string()),
        upstream_addr: Some(UpstreamAddr { ip: "192.168.1.5".to_string(), port: 8080 }),
    }
}

fn ok_bytes(r: Result<Option<Vec<u8>>, AttributeFailure>) -> Option<Vec<u8>> {
    match r {
        Ok(v) => v,
        Err(_) => panic!("expected a value"),
    }
}

fn not_available(r: Result<Option<Vec<u8>>, AttributeFailure>) -> String {
    match r {
        Err(AttributeFailure::NotAvailable(m)) => m,
        _ => panic!("expected NotAvailable"),
    }
}

fn retrieval(r: Result<Option<Vec<u8>>, AttributeFailure>) -> String {
    match r {
        Err(AttributeFailure::Retrieval(m)) => m,
        _ => panic!("expected Retrieval"),
    }
}

const NOW: Result<(u64, u32), String> = Ok((1_700_000_000, 123));

#[test]
fn host_prefers_uri_host() {
    let mut req = request();
    req.uri_host = Some("api.example.org".to_string());
    assert_eq!(ok_bytes(req.attribute("request.host", &NOW)), Some(b"api.example.org".to_vec()));
}

#[test]
fn host_falls_back_to_host_header() {
    let req = request();
    assert_eq!(ok_bytes(req.attribute("request.host", &NOW)), Some(b"example.com".to_vec()));
}

#[test]
fn host_header_not_text_is_retrieval_error() {
    let mut req = request();
    req.headers[0].value = Err("failed to convert header to a str".to_string());
    assert_eq!(retrieval(req.attribute("request.host", &NOW)), "Host header contains invalid UTF-8");
}

#[test]
fn host_absent_is_none() {
    let mut req = request();
    req.headers.clear();
    assert_eq!(ok_bytes(req.attribute("request.host", &NOW)), None);
}

#[test]
fn method_path_scheme_protocol() {
    let req = request();
    assert_eq!(ok_bytes(req.attribute("request.method", &NOW)), Some(b"GET".to_vec()));
    assert_eq!(ok_bytes(req.attribute("request.path", &NOW)), Some(b"/api/v1/items".to_vec()));
    assert_eq!(ok_bytes(req.attribute("request.url_path", &NOW)), Some(b"/api/v1/items".to_vec()));
    assert_eq!(ok_bytes(req.attribute("request.scheme", &NOW)), Some(b"http".to_vec()));
    assert_eq!(ok_bytes(req.attribute("request.protocol", &NOW)), Some(b"HTTP/1.1".to_vec()));
    let mut tls = request();
    tls.scheme = Some("https".to_string());
    assert_eq!(ok_bytes(tls.attribute("request.scheme", &NOW)), Some(b"https".to_vec()));
}

#[test]
fn time_is_nanoseconds_little_endian() {
    let req = request();
    let expected: i64 = 1_700_000_000i64 * 1_000_000_000 + 123;
    assert_eq!(ok_bytes(req.attribute("request.time", &NOW)), Some(expected.to_le_bytes().to_vec()));
    let err: Result<(u64, u32), String> = Err("clock went backwards".to_string());
    assert_eq!(retrieval(req.attribute("request.time", &err)), "time error: clock went backwards");
}

#[test]
fn destination_address_and_port() {
    let req = request();
    assert_eq!(ok_bytes(req.attribute("destination.address", &NOW)), Some(b"192.168.1.5".to_vec()));
    assert_eq!(
        ok_bytes(req.attribute("destination.port", &NOW)),
        Some(8080i64.to_le_bytes().to_vec())
    );
    let mut none = request();
    none.upstream_addr = None;
    assert_eq!(
        not_available(none.attribute("destination.address", &NOW)),
        "destination.address not available: upstream is None"
    );
    assert_eq!(
        not_available(none.attribute("destination.port", &NOW)),
        "destination.port not available: upstream is None"
    );
}

#[test]
fn source_address_and_port() {
    let mut req = request();
    assert_eq!(ok_bytes(req.attribute("source.address", &NOW)), Some(b"10.0.0.7".to_vec()));
    assert_eq!(ok_bytes(req.attribute("source.port", &NOW)), Some(80i64.to_le_bytes().to_vec()));
    req.client_addr = Some("10.0.0.7:4431".to_string());
    assert_eq!(ok_bytes(req.attribute("source.address", &NOW)), Some(b"10.0.0.7".to_vec()));
    assert_eq!(ok_bytes(req.attribute("source.port", &NOW)), Some(4431i64.to_le_bytes().to_vec()));
    req.client_addr = None;
    assert_eq!(
        not_available(req.attribute("source.address", &NOW)),
        "source.address not available: client_addr is None"
    );
    assert_eq!(
        not_available(req.attribute("source.port", &NOW)),
        "source.port not available: client_addr is None"
    );
}

#[test]
fn unknown_attribute_is_not_available() {
    let req = request();
    assert_eq!(
        not_available(req.attribute("request.body", &NOW)),
        "Attribute `request.body` not supported in Praxis AttributeResolver"
    );
}

#[test]
fn split_address_without_port_defaults_to_80() {
    assert_eq!(parse_ip_and_port("10.1.2.3"), ("10.1.2.3".to_string(), 80));
}

#[test]
fn split_address_with_port() {
    assert_eq!(parse_ip_and_port("10.1.2.3:8443"), ("10.1.2.3".to_string(), 8443));
    assert_eq!(parse_ip_and_port("10.1.2.3:+9"), ("10.1.2.3".to_string(), 9));
}

#[test]
fn split_address_with_bad_port_defaults_to_80() {
    assert_eq!(parse_ip_and_port("host:http"), ("host".to_string(), 80));
    assert_eq!(parse_ip_and_port("host:70000"), ("host".to_string(), 80));
    assert_eq!(parse_ip_and_port("host:"), ("host".to_string(), 80));
}

#[test]
fn split_address_uses_last_colon() {
    // IPv6 text carries no port: it stays whole, with port 80.
    assert_eq!(parse_ip_and_port("::1"), ("::1".to_string(), 80));
    assert_eq!(parse_ip_and_port("fe80::1:2"), ("fe80::1:2".to_string(), 80));
    assert_eq!(parse_ip_and_port("2001:db8::8a2e:370:7334"), ("2001:db8::8a2e:370:7334".to_string(), 80));
}

#[test]
fn ipv6_client_address_is_whole_with_port_80() {
    let mut req = request();
    req.client_addr = Some("::1".to_string());
    assert_eq!(ok_bytes(req.attribute("source.address", &NOW)), Some(b"::1".to_vec()));
    assert_eq!(ok_bytes(req.attribute("source.port", &NOW)), Some(80i64.to_le_bytes().to_vec()));
}

#[test]
fn request_headers_in_order_with_unreadable_as_empty() {
    let mut req = request();
    req.headers.push(HeaderEntry { name: "x-bin".to_string(), value: Err("bad".to_string()) });
    assert_eq!(
        req.request_headers(),
        vec![
            ("host".to_string(), "example.com".to_string()),
            ("x-user".to_string(), "alice".to_string()),
            ("x-bin".to_string(), "".to_string()),
        ]
    );
}

#[test]
fn header_value_is_case_insensitive() {
    let req = request();
    match req.header_value("X-User") {
        Ok(v) => assert_eq!(v, Some("alice".to_string())),
        Err(_) => panic!("expected a value"),
    }
    match req.header_value("x-missing") {
        Ok(v) => assert_eq!(v, None),
        Err(_) => panic!("expected no value"),
    }
}

#[test]
fn header_value_invalid_name_is_none() {
    let req = request();
    match req.header_value("not a header") {
        Ok(v) => assert_eq!(v, None),
        Err(_) => panic!("expected no value"),
    }
}

#[test]
fn header_value_first_of_repeated() {
    let mut req = request();
    req.headers.push(header("x-user", "bob"));
    match req.header_value("x-user") {
        Ok(v) => assert_eq!(v, Some("alice".to_string())),
        Err(_) => panic!("expected a value"),
    }
}

#[test]
fn header_value_not_text_is_error() {
    let mut req = request();
    req.headers[1].value = Err("failed to convert header to a str".to_string());
    match req.header_value("x-user") {
        Err(AttributeFailure::Retrieval(m)) => {
            assert_eq!(m, "invalid header value: failed to convert header to a str")
        }
        _ => panic!("expected a retrieval error"),
    }
}

#[test]
fn split_address_rejoins_at_last_colon() {
    let addr = "10.0.0.7:4431";
    let (ip, port) = parse_ip_and_port(addr);
    assert_eq!(format!("{}:{}", ip, port), addr);
}

#[test]
fn split_address_port_parsing_cases() {
    assert_eq!(parse_ip_and_port("h:0080"), ("h".to_string(), 80));
    assert_eq!(parse_ip_and_port("h:65535"), ("h".to_string(), 65535));
    assert_eq!(parse_ip_and_port("h:0"), ("h".to_string(), 0));
    assert_eq!(parse_ip_and_port("h:-1"), ("h".to_string(), 80));
    assert_eq!(parse_ip_and_port("h:+"), ("h".to_string(), 80));
    assert_eq!(parse_ip_and_port("h: 81"), ("h".to_string(), 80));
}

#[test]
fn header_lookup_ignores_case_of_every_letter() {
    let req = request();
    for key in ["HOST", "Host", "hOsT", "host"] {
        match req.header_value(key) {
            Ok(v) => assert_eq!(v, Some("example.com".to_string())),
            Err(_) => panic!("expected a value"),
        }
    }
    match req.header_value("") {
        Ok(v) => assert_eq!(v, None),
        Err(_) => panic!("expected no value"),
    }
}
