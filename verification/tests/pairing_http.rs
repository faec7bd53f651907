use longfred_proto::bigfred::pairing_http::{
    error_code_from_field, response_body, split_response, HandsetPairingResponse, HANDSET_PAIRING_PATH,
    HANDSET_SESSION_PATH,
};

#[test]
fn pairing_http_parses_201_body_fields() {
    let raw = b"HTTP/1.1 201 Created\r\nContent-Type: application/json\r\n\r\n\
{\"pairingCode\":\"120945\",\"expiresAt\":1720000000000,\"layoutId\":1,\"commandStationId\":2}";
    let body = response_body(raw, 201).unwrap();
    assert_eq!(
        body,
        &b"{\"pairingCode\":\"120945\",\"expiresAt\":1720000000000,\"layoutId\":1,\"commandStationId\":2}"[..]
    );
    let parsed = HandsetPairingResponse::from_fields(b"120945", 1_720_000_000_000, 1, 2).unwrap();
    assert_eq!(parsed.pairing_code.as_slice(), b"120945");
    assert_eq!(parsed.expires_at, 1_720_000_000_000);
    assert_eq!(parsed.layout_id, 1);
    assert_eq!(parsed.command_station_id, 2);
}

#[test]
fn pairing_http_rejects_wrong_status_or_invalid_code() {
    assert!(response_body(b"HTTP/1.1 401 Nope\r\n\r\n{}", 201).is_none());
    assert!(HandsetPairingResponse::from_fields(b"12x", 1, 1, 2).is_none());
}

#[test]
fn parses_session_status() {
    let raw = b"HTTP/1.1 200 OK\r\nContent-Type: application/json\r\n\r\n\
{\"paired\":true,\"expiresAt\":1,\"layoutId\":1,\"commandStationId\":2,\"userId\":7}";
    let (code, body) = split_response(raw).unwrap();
    assert_eq!(code, 200);
    assert!(body.starts_with(b"{\"paired\":true"));
}

#[test]
fn parses_error_code() {
    assert_eq!(error_code_from_field(b"invalid_credentials").unwrap().as_slice(), b"invalid_credentials");
    assert_eq!(error_code_from_field(b""), None);
    assert_eq!(error_code_from_field(&[b'x'; 33]), None);
    assert_eq!(error_code_from_field(&[b'x'; 32]).unwrap().len(), 32);
}

#[test]
fn pairing_fields_need_six_digits_and_nonzero_ids() {
    assert!(HandsetPairingResponse::from_fields(b"12345", 1, 1, 2).is_none());
    assert!(HandsetPairingResponse::from_fields(b"1234567", 1, 1, 2).is_none());
    assert!(HandsetPairingResponse::from_fields(b"123456", 1, 0, 2).is_none());
    assert!(HandsetPairingResponse::from_fields(b"123456", 1, 1, 0).is_none());
    assert!(HandsetPairingResponse::from_fields(b"000000", 0, 7, 9).is_some());
}

#[test]
fn split_response_status_line_rules() {
    assert_eq!(split_response(b"HTTP/1.0 404 x\r\n\r\nbody").map(|(c, b)| (c, b.to_vec())), Some((404, b"body".to_vec())));
    assert_eq!(split_response(b"  HTTP/1.1\t200\r\n\r\n").map(|(c, b)| (c, b.len())), Some((200, 0)));
    assert!(split_response(b"HTTP/2 200 OK\r\n\r\n").is_none());
    assert!(split_response(b"HTTP/1.1 70000 OK\r\n\r\n").is_none());
    assert!(split_response(b"HTTP/1.1\r\n\r\n").is_none());
    assert!(split_response(b"HTTP/1.1 200 OK\r\nno blank line").is_none());
    assert!(split_response(b"HTTP/1.1 2x0 OK\r\n\r\n").is_none());
    assert!(split_response(b"HTTP/1.1 200 \xff\r\n\r\n").is_none());
}

#[test]
fn pairing_paths() {
    assert_eq!(HANDSET_PAIRING_PATH, "/api/v1/remotes/handset-pairing");
    assert_eq!(HANDSET_SESSION_PATH, "/api/v1/remotes/handset-session");
}
