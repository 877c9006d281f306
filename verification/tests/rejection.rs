use load_balancer::respond::rejection_response;

#[test]
fn the_rejection_payload_is_exactly_the_fixed_503_response() {
    let expected = "HTTP/1.1 503 Service Unavailable\r\nContent-Length: 42\r\nContent-Type: text/plain\r\nConnection: close\r\n\r\nService Unavailable - No healthy backends\n";
    assert_eq!(rejection_response(), expected);
}

#[test]
fn the_declared_content_length_matches_the_body() {
    let payload = rejection_response();
    let split = payload
        .find("\r\n\r\n")
        .expect("headers must end with a blank line");
    let headers = &payload[..split];
    let body = &payload[split + 4..];
    assert_eq!(body, "Service Unavailable - No healthy backends\n");
    assert!(headers.contains("Content-Length: 42"));
    assert_eq!(body.len(), 42);
    assert!(headers.contains("Connection: close"));
    assert!(headers.contains("Content-Type: text/plain"));
    assert!(headers.starts_with("HTTP/1.1 503 Service Unavailable"));
}
