use tapline::content_manifest::content_manifest_payload::file_mapping::ChunkData;
use tapline::directory::{
    cm_servers, directory_body, parse_cm_list, sort_servers, CmServer, DirectoryError,
};
use tapline::enums_productinfo::EContentDescriptorID;
use tapline::http::{
    body_plan, chunk_step, header_block_too_large, parse_head, parse_head_text, pool_takes_back,
    request_head, sized_read_len, split_sized, BodyPlan, ChunkStep, FetchError, MAX_HEADER_BLOCK,
};
use tapline::steammessages_base::CMsgIPAddress;
use tapline::steammessages_clientserver_2::c_msg_gc_client::EFlag;
use tapline::steammessages_clientserver_login::CMsgClientLogon;
use tapline::steammessages_contentsystem_steamclient::{
    CContentServerDirectory_ConnectedSteamPipeServerInfo,
    CContentServerDirectory_GetServersForSteamPipe_Request, EAppContentDetectionType,
};
use tapline::steammessages_publishedfile_steamclient::{
    CPublishedFile_UpdateContentDescriptors_Request, EPublishedFileRevision,
};
use tapline::tls::{
    check_accept, handshake_key, handshake_line, upgrade_accepted, upgrade_request,
    ConnectError, HandshakeLine,
};
use tapline::wire::varint::WireError;
use tapline::ws::{
    apply_mask, client_frame, close_payload, extended_length_bytes, frame_head, frame_length,
    masked_frame, Assembler, Reaction, WsError, MAX_MESSAGE, OP_BINARY, OP_CLOSE, OP_CONTINUATION, OP_PING,
    OP_PONG, OP_TEXT,
};

#[test]
fn a_nested_message_reads_back_what_was_written() {
    let mut request = CContentServerDirectory_GetServersForSteamPipe_Request::default();
    request.cell_id = Some(7);
    request.ip_override = Some("10.0.0.1".to_owned());
    request.launcher_type = Some(-3);
    let mut info = CContentServerDirectory_ConnectedSteamPipeServerInfo::default();
    info.type_ = Some("CDN".to_owned());
    info.source_id = Some(-1);
    request.current_connections = vec![info.clone(), info];
    let bytes = request.encode_to_vec();
    let back = CContentServerDirectory_GetServersForSteamPipe_Request::decode(&bytes)
        .expect("our own encoding must decode");
    assert_eq!(back, request);
}

#[test]
fn the_largest_message_reads_back_what_was_written() {
    let mut logon = CMsgClientLogon::default();
    logon.protocol_version = Some(65_580);
    logon.client_language = Some("english".to_owned());
    logon.should_remember_password = Some(false);
    logon.client_supplied_steam_id = Some(76_561_197_960_265_728);
    logon.public_ip = Some(CMsgIPAddress { v4: Some(0x7f00_0001), v6: None });
    let bytes = logon.encode_to_vec();
    assert_eq!(CMsgClientLogon::decode(&bytes).expect("must decode"), logon);
}

#[test]
fn repeated_enums_are_written_one_record_each_and_read_packed_or_not() {
    let mut update = CPublishedFile_UpdateContentDescriptors_Request::default();
    update.publishedfileid = Some(3);
    update.descriptors_to_add = vec![EContentDescriptorID(1), EContentDescriptorID(5)];
    let bytes = update.encode_to_vec();
    assert_eq!(
        bytes,
        vec![0x09, 3, 0, 0, 0, 0, 0, 0, 0, 0x10, 0x01, 0x10, 0x05]
    );
    let back = CPublishedFile_UpdateContentDescriptors_Request::decode(&bytes).expect("decode");
    assert_eq!(back, update);
    let packed = [0x09, 3, 0, 0, 0, 0, 0, 0, 0, 0x12, 0x02, 0x01, 0x05];
    let from_packed =
        CPublishedFile_UpdateContentDescriptors_Request::decode(&packed).expect("decode");
    assert_eq!(from_packed, update);
}

#[test]
fn varints_use_seven_bits_a_byte() {
    let chunk = ChunkData {
        sha: None,
        crc: None,
        offset: Some(300),
        cb_original: None,
        cb_compressed: None,
    };
    assert_eq!(chunk.encode_to_vec(), vec![0x18, 0xac, 0x02]);
}

#[test]
fn an_absent_field_reads_as_its_schema_default() {
    let request = CContentServerDirectory_GetServersForSteamPipe_Request::default();
    assert_eq!(request.max_servers_or_default(), 20);
    let mut set = request.clone();
    set.max_servers = Some(3);
    assert_eq!(set.max_servers_or_default(), 3);
}

#[test]
fn malformed_input_is_refused_with_the_reason() {
    type Info = CContentServerDirectory_ConnectedSteamPipeServerInfo;
    assert_eq!(Info::decode(&[0x0a, 0x05, 0x61]), Err(WireError::UnexpectedEnd));
    assert_eq!(Info::decode(&[0x0a, 0x01, 0xff]), Err(WireError::InvalidUtf8));
    assert_eq!(Info::decode(&[0x08, 0x01]), Err(WireError::WrongWireType));
    assert_eq!(Info::decode(&[0x00, 0x01]), Err(WireError::InvalidFieldNumber));
    assert_eq!(Info::decode(&[]), Ok(Info::default()));
}

#[test]
fn a_merge_stopped_by_a_bad_record_keeps_what_came_before_it() {
    type Info = CContentServerDirectory_ConnectedSteamPipeServerInfo;
    let mut info = Info::default();
    info.source_id = Some(4);
    let bytes = [0x0a, 0x03, b'C', b'D', b'N', 0x1a, 0x02, b'h', b'1', 0x0a, 0x05, 0x61];
    assert_eq!(info.merge(&bytes), Err(WireError::UnexpectedEnd));
    assert_eq!(info.type_.as_deref(), Some("CDN"));
    assert_eq!(info.hostname.as_deref(), Some("h1"));
    assert_eq!(info.source_id, Some(4));
    assert_eq!(info.merge(&[0x10, 0x09, 0x0a, 0x01, 0xff]), Err(WireError::InvalidUtf8));
    assert_eq!(info.source_id, Some(9));
    assert_eq!(info.type_.as_deref(), Some("CDN"));
    assert_eq!(info.merge(&[0x10, 0x02]), Ok(()));
    assert_eq!(info.source_id, Some(2));
}

#[test]
fn an_unknown_value_of_an_enum_is_kept() {
    let e = EContentDescriptorID::from(99);
    assert_eq!(e.value(), 99);
    assert_eq!(EContentDescriptorID::k_EContentDescriptor_NudityOrSexualContent().value(), 1);
}

#[test]
fn servers_come_least_loaded_first_and_ties_keep_their_order() {
    let body = r#"[{"endpoint":"a:1","type":"websockets","load":9},
                   {"endpoint":"b:1","type":"websockets","load":3},
                   {"endpoint":"c:1","type":"websockets","load":9},
                   {"endpoint":"d:1","type":"websockets"}]"#;
    let servers = cm_servers(body);
    let endpoints: Vec<&str> = servers.iter().map(|s| s.endpoint.as_str()).collect();
    assert_eq!(endpoints, vec!["b:1", "a:1", "c:1", "d:1"]);
    assert_eq!(servers.len(), parse_cm_list(body).len());
}

#[test]
fn sorting_an_empty_list_gives_an_empty_list() {
    assert!(sort_servers(Vec::new()).is_empty());
    let one = vec![CmServer { endpoint: "x".to_owned(), datacentre: String::new(), load: 1 }];
    assert_eq!(sort_servers(one.clone()), one);
}

#[test]
fn a_response_head_says_status_headers_and_framing() {
    let head = parse_head(
        b"HTTP/1.1 206 Partial Content\r\nContent-Length: 42\r\nX-Note :  a: b \r\nConnection: Close",
    )
    .expect("a well-formed head");
    assert_eq!(head.status, 206);
    assert_eq!(
        head.headers,
        vec![
            ("Content-Length".to_owned(), "42".to_owned()),
            ("X-Note".to_owned(), "a: b".to_owned()),
            ("Connection".to_owned(), "Close".to_owned()),
        ]
    );
    assert_eq!(head.content_length, Some(42));
    assert!(!head.chunked);
    assert!(!head.keep_alive);

    let chunked = parse_head(b"HTTP/1.1 200 OK\r\ntransfer-encoding: gzip, Chunked").expect("ok");
    assert!(chunked.chunked);
    assert!(chunked.keep_alive);
    assert_eq!(chunked.content_length, None);
}

#[test]
fn a_head_without_a_status_code_is_refused() {
    assert_eq!(
        parse_head(b"HTTP/1.1 OK").err(),
        Some(FetchError::MalformedResponse("bad status: HTTP/1.1 OK".to_owned()))
    );
    assert!(parse_head(b"").is_err());
    assert_eq!(
        parse_head(b"HTTP/1.1 \xff").err(),
        Some(FetchError::MalformedResponse("bad status: HTTP/1.1 \u{FFFD}".to_owned()))
    );
    let text = parse_head_text("HTTP/1.1 404 Not Found\r\nContent-Length: 0").expect("ok");
    assert_eq!(text.status, 404);
    assert_eq!(text.content_length, Some(0));
}

#[test]
fn a_body_over_the_limit_is_refused_before_it_is_read() {
    let head = parse_head(b"HTTP/1.1 200 OK\r\nContent-Length: 100").expect("ok");
    assert_eq!(body_plan(&head, 99), Err(FetchError::BodyTooLarge { limit: 99 }));
    assert_eq!(
        body_plan(&head, 100),
        Ok(BodyPlan::Sized { length: 100, reusable: true })
    );
    let open = parse_head(b"HTTP/1.1 200 OK").expect("ok");
    assert_eq!(body_plan(&open, 10), Ok(BodyPlan::ToEnd));
}

#[test]
fn a_chunked_body_is_taken_apart_step_by_step() {
    let raw = b"5;ext=1\r\nhello\r\n0\r\n\r\nNEXT";
    assert_eq!(chunk_step(raw, 0), ChunkStep::Data { start: 9, end: 14, next: 16 });
    assert_eq!(chunk_step(raw, 16), ChunkStep::Done { leftover: 21 });
    assert_eq!(chunk_step(b"5\r\nhel", 0), ChunkStep::NeedMore);
    assert_eq!(chunk_step(b"5", 0), ChunkStep::NeedMore);
    assert_eq!(
        chunk_step(b"zz\r\n", 0),
        ChunkStep::Failed(FetchError::MalformedResponse("bad chunk size: zz".to_owned()))
    );
}

#[test]
fn a_request_head_carries_the_range_and_the_callers_headers() {
    let headers = vec![("X-A".to_owned(), "1".to_owned())];
    let head = request_head("cdn.example", "/depot/1", &headers, Some((0, 1023)));
    assert_eq!(
        head,
        b"GET /depot/1 HTTP/1.1\r\nHost: cdn.example\r\nUser-Agent: tapline\r\nAccept: */*\r\nX-A: 1\r\nRange: bytes=0-1023\r\nConnection: keep-alive\r\n\r\n"
            .to_vec()
    );
}

#[test]
fn the_pool_takes_a_connection_back_only_below_both_bounds() {
    assert!(pool_takes_back(0, 0, 96, 8));
    assert!(!pool_takes_back(96, 0, 96, 8));
    assert!(!pool_takes_back(10, 8, 96, 8));
}

#[test]
fn the_upgrade_request_and_its_answer() {
    let request = upgrade_request("cm.example", 443, "a2V5");
    assert_eq!(
        request,
        b"GET /cmsocket/ HTTP/1.1\r\nHost: cm.example:443\r\nUpgrade: websocket\r\nConnection: Upgrade\r\nSec-WebSocket-Key: a2V5\r\nSec-WebSocket-Version: 13\r\n\r\n"
            .to_vec()
    );
    assert!(upgrade_accepted("HTTP/1.1 101 Switching Protocols\r\n"));
    assert!(!upgrade_accepted("HTTP/1.1 403 Forbidden\r\n"));
    assert_eq!(handshake_line("\r\n"), HandshakeLine::End);
    assert_eq!(
        handshake_line("sec-WEBSOCKET-accept:  abc= \r\n"),
        HandshakeLine::Accept("abc=".to_owned())
    );
    assert_eq!(handshake_line("Upgrade: websocket\r\n"), HandshakeLine::Other);
}

#[test]
fn the_accept_value_is_held_to_the_key() {
    let key = "dGhlIHNhbXBsZSBub25jZQ==";
    assert_eq!(check_accept(Some("s3pPLMBiTxaQ9kYGzzhZRbK+xOo=".to_owned()), key), Ok(()));
    assert_eq!(
        check_accept(Some("wrong".to_owned()), key),
        Err(ConnectError::BadHandshake(
            "Sec-WebSocket-Accept was wrong, expected s3pPLMBiTxaQ9kYGzzhZRbK+xOo=".to_owned()
        ))
    );
    assert_eq!(
        check_accept(None, key),
        Err(ConnectError::BadHandshake(
            "the upgrade response carried no Sec-WebSocket-Accept".to_owned()
        ))
    );
    let fresh = handshake_key().expect("randomness");
    assert_eq!(fresh.len(), 24);
}

#[test]
fn masking_twice_gives_the_payload_back() {
    let payload = b"0123456789".to_vec();
    let mask = [0xde, 0xad, 0xbe, 0xef];
    let masked = apply_mask(&payload, &mask);
    assert_eq!(masked[0], b'0' ^ 0xde);
    assert_eq!(masked[4], b'4' ^ 0xde);
    assert_eq!(apply_mask(&masked, &mask), payload);
}

#[test]
fn a_client_frame_is_head_mask_and_masked_payload() {
    let frame = client_frame(OP_BINARY, b"hi").expect("randomness");
    assert_eq!(frame.len(), 2 + 4 + 2);
    assert_eq!(frame[0], 0x82);
    assert_eq!(frame[1], 0x82);
    assert_eq!(frame[6] ^ frame[2], b'h');
    assert_eq!(frame[7] ^ frame[3], b'i');
    assert_eq!(close_payload(), [3, 232]);
    let fixed = masked_frame(OP_BINARY, &[1, 2, 3], &[0xff, 0, 0xff, 0]);
    assert_eq!(fixed, vec![0x82, 0x83, 0xff, 0, 0xff, 0, 0xfe, 2, 0xfc]);
}

#[test]
fn a_frame_head_is_read_and_its_length_checked() {
    let head = frame_head(0x82, 0x7e);
    assert!(head.fin);
    assert_eq!(head.opcode, OP_BINARY);
    assert!(!head.masked);
    assert_eq!(extended_length_bytes(&head), 2);
    assert_eq!(frame_length(&head, &[0x01, 0x00]), Ok(256));

    let long = frame_head(0x02, 0x7f);
    assert!(!long.fin);
    assert_eq!(
        frame_length(&long, &[0, 0, 0, 0, 0x04, 0, 0, 1]),
        Err(WsError::FrameTooLarge { length: 0x0400_0001 })
    );
    assert_eq!(frame_length(&frame_head(0x82, 0x85), &[]), Err(WsError::ServerMasked));
    assert_eq!(frame_length(&frame_head(0x82, 0x05), &[]), Ok(5));
}

#[test]
fn frames_assemble_into_messages() {
    let mut assembler = Assembler::new();
    assert_eq!(assembler.on_frame(true, OP_PING, vec![1]), Reaction::Pong(vec![1]));
    assert_eq!(assembler.on_frame(true, OP_PONG, vec![]), Reaction::ReadOn);
    assert_eq!(assembler.on_frame(false, OP_BINARY, vec![1, 2]), Reaction::ReadOn);
    assert_eq!(
        assembler.on_frame(false, OP_BINARY, vec![3]),
        Reaction::Fail(WsError::Interleaved)
    );
    assert_eq!(
        assembler.on_frame(true, OP_CONTINUATION, vec![3]),
        Reaction::Deliver(vec![1, 2, 3])
    );
    assert_eq!(
        assembler.on_frame(true, OP_CONTINUATION, vec![]),
        Reaction::Fail(WsError::StrayContinuation)
    );
    assert_eq!(assembler.on_frame(true, OP_TEXT, vec![]), Reaction::Fail(WsError::TextFrame));
    assert_eq!(assembler.on_frame(true, OP_CLOSE, vec![]), Reaction::Close);
    assert_eq!(
        assembler.on_frame(true, 0x3, vec![]),
        Reaction::Fail(WsError::UnknownOpcode(3))
    );
    assert_eq!(
        assembler.on_frame(true, OP_BINARY, vec![0; MAX_MESSAGE + 1]),
        Reaction::Fail(WsError::MessageTooLarge)
    );
}

#[test]
fn enum_values_default_to_zero_and_order_by_value() {
    assert_eq!(EFlag::VALVE_DS().value(), 1);
    assert_eq!(EFlag::from(-7).value(), -7);
    assert_eq!(EAppContentDetectionType::default().value(), 0);
    assert_eq!(EAppContentDetectionType::k_EAppContentDetectionType_GameEngine().value(), 2);
    let latest = EPublishedFileRevision::k_EPublishedFileRevision_Latest();
    let author = EPublishedFileRevision::k_EPublishedFileRevision_AuthorSnapshot();
    assert!(latest < author);
    assert!(author > latest);
    assert!(EPublishedFileRevision::from(-1) < EPublishedFileRevision::default());
    assert_eq!(latest.partial_cmp(&latest), Some(std::cmp::Ordering::Equal));
    assert_eq!(latest.cmp(&author), std::cmp::Ordering::Less);
}

#[test]
fn the_directory_reply_gives_its_body_only_when_the_status_is_ok() {
    assert_eq!(
        directory_body("HTTP/1.1 200 OK\r\nX: y\r\n\r\n{\"a\":1}\r\n\r\nmore"),
        Ok("{\"a\":1}\r\n\r\nmore".to_owned())
    );
    assert_eq!(
        directory_body("HTTP/1.1 503 Busy\r\nX: y\r\n\r\nbody"),
        Err(DirectoryError::NotOk("HTTP/1.1 503 Busy".to_owned()))
    );
    assert_eq!(
        directory_body("HTTP/1.1 200 OK\r\n"),
        Err(DirectoryError::NoHeaderBodySplit)
    );
    assert_eq!(directory_body("\r\n\r\nx"), Err(DirectoryError::NotOk(String::new())));
}

#[test]
fn a_sized_body_stops_at_its_length() {
    assert_eq!(MAX_HEADER_BLOCK, 64 * 1024);
    assert!(!header_block_too_large(64 * 1024));
    assert!(header_block_too_large(64 * 1024 + 1));
    assert_eq!(split_sized(vec![1, 2, 3, 4, 5], 3), (vec![1, 2, 3], Some(vec![4, 5])));
    assert_eq!(split_sized(vec![1, 2], 3), (vec![1, 2], None));
    assert_eq!(split_sized(vec![1, 2, 3], 3), (vec![1, 2, 3], None));
    assert_eq!(sized_read_len(10, 100, 16), 16);
    assert_eq!(sized_read_len(90, 100, 16), 10);
}
