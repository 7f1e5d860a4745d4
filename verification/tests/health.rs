use ai_protect::engine::health::{
    request_complete, request_path, respond, HealthError, HealthResponse, MAX_REQUEST_LEN,
};

fn probe(path: &str, shutting_down: bool) -> String {
    let request = format!("GET {path} HTTP/1.1\r\nhost: test\r\n\r\n");
    respond(request.as_bytes(), shutting_down).text().to_string()
}

#[test]
fn healthz_is_always_ok() {
    assert!(probe("/healthz", false).starts_with("HTTP/1.1 200"));
}

#[test]
fn healthz_stays_ok_after_shutdown_is_requested() {
    assert!(probe("/healthz", true).starts_with("HTTP/1.1 200"));
}

#[test]
fn readyz_flips_to_unavailable_once_shutdown_is_requested() {
    assert!(probe("/readyz", false).starts_with("HTTP/1.1 200"));
    assert!(probe("/readyz", true).starts_with("HTTP/1.1 503"));
}

#[test]
fn unknown_path_is_not_found() {
    assert!(probe("/other", false).starts_with("HTTP/1.1 404"));
}

#[test]
fn healthz_is_ok_even_when_the_request_line_arrives_split_across_reads() {
    let mut have = b"GET ".to_vec();
    assert!(!request_complete(&have));
    have.extend_from_slice(b"/healthz HTTP/1.1\r\nhost: test\r\n\r\n");
    assert!(request_complete(&have));

    assert!(respond(&have, false).text().starts_with("HTTP/1.1 200"));
}

#[test]
fn a_request_without_a_line_is_read_up_to_the_limit() {
    assert!(!request_complete(&vec![b'a'; MAX_REQUEST_LEN - 1]));
    assert!(request_complete(&vec![b'a'; MAX_REQUEST_LEN]));
}

#[test]
fn malformed_requests_are_not_found() {
    assert!(matches!(respond(b"", false), HealthResponse::NotFound));
    assert!(matches!(respond(b"GET", false), HealthResponse::NotFound));
    assert!(matches!(respond(&[0xff, 0xfe, b'\n'], false), HealthResponse::NotFound));
    assert!(matches!(respond(b"\xff /healthz\r\n", false), HealthResponse::Healthy));
}

#[test]
fn the_path_is_the_second_word_of_the_first_line() {
    assert_eq!(request_path("GET /healthz HTTP/1.1\r\n/readyz"), "/healthz");
    assert_eq!(request_path("GET"), "");
}

#[test]
fn responses_read_exactly() {
    assert_eq!(
        HealthResponse::Healthy.text(),
        "HTTP/1.1 200 OK\r\ncontent-length: 0\r\nconnection: close\r\n\r\n"
    );
    assert_eq!(
        HealthResponse::Unavailable.text(),
        "HTTP/1.1 503 Service Unavailable\r\ncontent-length: 0\r\nconnection: close\r\n\r\n"
    );
    assert_eq!(
        HealthResponse::NotFound.text(),
        "HTTP/1.1 404 Not Found\r\ncontent-length: 0\r\nconnection: close\r\n\r\n"
    );
    assert_eq!(
        HealthError::Bind { addr: "127.0.0.1:80".to_string() }.message(),
        "binding health listener on 127.0.0.1:80"
    );
}
