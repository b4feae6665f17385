use sha1::Digest;
use tapline::directory::parse_cm_list;
use tapline::http::{find_crlf, find_header_end, split_url};
use tapline::tls::{accept_for, base64_encode, split_endpoint, WEBSOCKET_GUID};
use tapline::ws::{apply_mask, client_frame, frame_header, OP_BINARY};

const REAL_RESPONSE: &str = r#"{"response":{"serverlist":[
    {"endpoint":"cmp1-iad1.steamserver.net:443","legacy_endpoint":"cmp1-iad1.steamserver.net:443","type":"websockets","dc":"iad1","realm":"steamglobal","load":13,"wtd_load":45.24},
    {"endpoint":"cmp2-ord1.steamserver.net:27018","legacy_endpoint":"cmp2-ord1.steamserver.net:27018","type":"websockets","dc":"ord1","realm":"steamglobal","load":12,"wtd_load":45.14},
    {"endpoint":"162.254.192.98:27017","type":"netfilter","dc":"iad1","realm":"steamglobal","load":5,"wtd_load":20.0}
]}}"#;

#[test]
fn websocket_servers_are_parsed_out_of_a_real_response() {
    let servers = parse_cm_list(REAL_RESPONSE);
    assert_eq!(servers.len(), 2, "expected only the websockets entries");
    assert_eq!(
        servers.first().map(|s| s.endpoint.as_str()),
        Some("cmp1-iad1.steamserver.net:443")
    );
    assert_eq!(servers.first().map(|s| s.load), Some(13));
    assert_eq!(servers.get(1).map(|s| s.datacentre.as_str()), Some("ord1"));
}

#[test]
fn netfilter_servers_are_left_out() {
    let servers = parse_cm_list(REAL_RESPONSE);
    assert!(
        servers.iter().all(|s| !s.endpoint.starts_with("162.254")),
        "a netfilter endpoint survived the filter"
    );
}

#[test]
fn malformed_input_yields_no_servers_rather_than_a_wrong_one() {
    assert!(parse_cm_list("").is_empty());
    assert!(parse_cm_list("not json").is_empty());
    assert!(parse_cm_list(r#"{"response":{"serverlist":[{}]}}"#).is_empty());
    assert!(parse_cm_list(r#"[{"type":"websockets","dc":"x"}]"#).is_empty());
}

#[test]
fn an_entry_missing_its_load_sorts_last_rather_than_first() {
    let servers = parse_cm_list(r#"[{"endpoint":"a:443","type":"websockets","dc":"x"}]"#);
    assert_eq!(servers.first().map(|s| s.load), Some(u32::MAX));
}

#[test]
fn urls_split_the_way_the_cdn_writes_them() {
    assert_eq!(
        split_url("https://cache12-iad1.steamcontent.com/depot/232257/chunk/abc")
            .expect("must split"),
        (
            "cache12-iad1.steamcontent.com".to_owned(),
            443,
            "/depot/232257/chunk/abc".to_owned()
        )
    );
    assert_eq!(
        split_url("http://lancache.lan:8080/depot/1/chunk/a").expect("must split"),
        (
            "lancache.lan".to_owned(),
            8080,
            "/depot/1/chunk/a".to_owned()
        )
    );
    assert_eq!(
        split_url("https://example.invalid").expect("must split"),
        ("example.invalid".to_owned(), 443, "/".to_owned())
    );
}

#[test]
fn unusable_urls_are_refused() {
    assert!(split_url("ftp://example.invalid/x").is_err());
    assert!(split_url("no-scheme.invalid/x").is_err());
    assert!(split_url("https:///path").is_err());
    assert!(split_url("https://host:notaport/x").is_err());
}

#[test]
fn the_header_terminator_is_found_where_it_is() {
    assert_eq!(find_header_end(b"HTTP/1.1 200 OK\r\n\r\nbody"), Some(15));
    assert_eq!(find_header_end(b"HTTP/1.1 200 OK\r\n"), None);
    assert_eq!(find_header_end(b""), None);
}

#[test]
fn crlf_search_respects_its_starting_offset() {
    let buffer = b"5\r\nhello\r\n0\r\n\r\n";
    assert_eq!(find_crlf(buffer, 0), Some(1));
    assert_eq!(find_crlf(buffer, 2), Some(8));
    assert_eq!(find_crlf(buffer, 100), None);
}

#[test]
fn base64_matches_rfc_4648_vectors() {
    assert_eq!(base64_encode(b""), "");
    assert_eq!(base64_encode(b"f"), "Zg==");
    assert_eq!(base64_encode(b"fo"), "Zm8=");
    assert_eq!(base64_encode(b"foo"), "Zm9v");
    assert_eq!(base64_encode(b"foob"), "Zm9vYg==");
    assert_eq!(base64_encode(b"fooba"), "Zm9vYmE=");
    assert_eq!(base64_encode(b"foobar"), "Zm9vYmFy");
}

#[test]
fn the_handshake_accept_value_matches_the_rfc_example() {
    let key = "dGhlIHNhbXBsZSBub25jZQ==";
    let accept = base64_encode(&sha1::Sha1::digest(
        format!("{key}{WEBSOCKET_GUID}").as_bytes(),
    ));
    assert_eq!(accept, "s3pPLMBiTxaQ9kYGzzhZRbK+xOo=");
    assert_eq!(accept_for(key), "s3pPLMBiTxaQ9kYGzzhZRbK+xOo=");
}

#[test]
fn endpoints_split_the_way_the_cm_directory_writes_them() {
    assert_eq!(
        split_endpoint("cmp1-ord1.steamserver.net:27018").expect("must split"),
        ("cmp1-ord1.steamserver.net", 27_018)
    );
    assert_eq!(
        split_endpoint("cmp1-iad1.steamserver.net:443").expect("must split"),
        ("cmp1-iad1.steamserver.net", 443)
    );
    assert_eq!(
        split_endpoint("cm.example.invalid").expect("must split"),
        ("cm.example.invalid", 443)
    );
    assert!(split_endpoint("host:not-a-port").is_err());
}

#[test]
fn length_encoding_switches_at_the_right_boundaries() {
    assert_eq!(frame_header(OP_BINARY, 0).len(), 2);
    assert_eq!(frame_header(OP_BINARY, 125).len(), 2);
    assert_eq!(frame_header(OP_BINARY, 126).len(), 4);
    assert_eq!(frame_header(OP_BINARY, 65_535).len(), 4);
    assert_eq!(frame_header(OP_BINARY, 65_536).len(), 10);
}

#[test]
fn the_mask_bit_is_always_set_on_client_frames() {
    for len in [0_usize, 125, 126, 70_000] {
        let header = frame_header(OP_BINARY, len);
        let second = *header.get(1).expect("two bytes");
        assert_eq!(second & 0x80, 0x80, "mask bit missing at length {len}");
    }
}

#[test]
fn masking_is_reversible_and_actually_changes_the_bytes() {
    let payload = b"a steam protocol message".to_vec();
    let mut mask = [0_u8; 4];
    getrandom::getrandom(&mut mask).expect("randomness");

    let masked = apply_mask(&payload, &mask);
    assert_ne!(masked, payload, "masking left the payload unchanged");

    let unmasked = apply_mask(&masked, &mask);
    assert_eq!(unmasked, payload);
}

#[test]
fn masks_differ_between_frames() {
    let first = client_frame(OP_BINARY, b"").expect("randomness");
    let second = client_frame(OP_BINARY, b"").expect("randomness");
    assert_ne!(first.get(2..6), second.get(2..6));
}
