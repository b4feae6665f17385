use tapline::content_manifest::{content_manifest_payload, ContentManifestPayload};

/// The encoding of the payload `what_we_encode_is_byte_identical_to_google` builds, field by
/// field in number order, as protoc writes it.
const PROTOC_BYTES: &[u8] = &[
    0x0a, 0x80, 0x01, 0x0a, 0x0f, 0x62, 0x69, 0x6e, 0x2f, 0x73, 0x72, 0x63, 0x64, 0x73, 0x5f, 0x6c,
    0x69, 0x6e, 0x75, 0x78, 0x10, 0xce, 0xc2, 0xf1, 0x05, 0x18, 0x40, 0x2a, 0x14, 0x30, 0x31, 0x32,
    0x33, 0x34, 0x35, 0x36, 0x37, 0x38, 0x39, 0x61, 0x62, 0x63, 0x64, 0x65, 0x66, 0x30, 0x31, 0x32,
    0x33, 0x32, 0x25, 0x0a, 0x14, 0x61, 0x62, 0x63, 0x64, 0x65, 0x66, 0x67, 0x68, 0x69, 0x6a, 0x30,
    0x31, 0x32, 0x33, 0x34, 0x35, 0x36, 0x37, 0x38, 0x39, 0x15, 0x78, 0x56, 0x34, 0x12, 0x18, 0x00,
    0x20, 0x80, 0x80, 0x40, 0x28, 0x80, 0x80, 0x20, 0x32, 0x27, 0x0a, 0x14, 0x6a, 0x69, 0x68, 0x67,
    0x66, 0x65, 0x64, 0x63, 0x62, 0x61, 0x39, 0x38, 0x37, 0x36, 0x35, 0x34, 0x33, 0x32, 0x31, 0x30,
    0x15, 0x21, 0x43, 0x65, 0x87, 0x18, 0x80, 0x80, 0x40, 0x20, 0x80, 0x80, 0x04, 0x28, 0x80, 0x80,
    0x02, 0x3a, 0x00,
];

#[test]
fn we_decode_what_google_encoded() {
    let payload =
        ContentManifestPayload::decode(PROTOC_BYTES).expect("protoc's own output must decode");

    let mapping = payload
        .mappings
        .first()
        .expect("the fixture has one file mapping");

    assert_eq!(mapping.filename.as_deref(), Some("bin/srcds_linux"));
    assert_eq!(mapping.size, Some(12_345_678));
    assert_eq!(mapping.flags, Some(64));
    assert_eq!(
        mapping.sha_content.as_deref(),
        Some(&b"0123456789abcdef0123"[..])
    );
    assert_eq!(mapping.chunks.len(), 2);

    let first = mapping.chunks.first().expect("two chunks");
    assert_eq!(first.sha.as_deref(), Some(&b"abcdefghij0123456789"[..]));
    assert_eq!(first.crc, Some(0x1234_5678));
    assert_eq!(first.offset, Some(0));
    assert_eq!(first.cb_original, Some(1_048_576));
    assert_eq!(first.cb_compressed, Some(524_288));

    let second = mapping.chunks.get(1).expect("two chunks");
    assert_eq!(second.crc, Some(0x8765_4321));
    assert_eq!(second.offset, Some(1_048_576));
}

#[test]
fn what_we_encode_is_byte_identical_to_google() {
    let payload = ContentManifestPayload {
        mappings: vec![content_manifest_payload::FileMapping {
            filename: Some("bin/srcds_linux".to_owned()),
            size: Some(12_345_678),
            flags: Some(64),
            sha_filename: None,
            sha_content: Some(b"0123456789abcdef0123".to_vec()),
            chunks: vec![
                content_manifest_payload::file_mapping::ChunkData {
                    sha: Some(b"abcdefghij0123456789".to_vec()),
                    crc: Some(0x1234_5678),
                    offset: Some(0),
                    cb_original: Some(1_048_576),
                    cb_compressed: Some(524_288),
                },
                content_manifest_payload::file_mapping::ChunkData {
                    sha: Some(b"jihgfedcba9876543210".to_vec()),
                    crc: Some(0x8765_4321),
                    offset: Some(1_048_576),
                    cb_original: Some(65_536),
                    cb_compressed: Some(32_768),
                },
            ],
            linktarget: Some(String::new()),
        }],
    };

    assert_eq!(
        payload.encode_to_vec(),
        PROTOC_BYTES,
        "our encoding diverged from protoc's"
    );
}

#[test]
fn our_own_round_trip_is_stable() {
    let decoded = ContentManifestPayload::decode(PROTOC_BYTES).expect("must decode");
    let reencoded = decoded.encode_to_vec();
    assert_eq!(
        reencoded, PROTOC_BYTES,
        "decode then encode changed the bytes"
    );

    let twice = ContentManifestPayload::decode(&reencoded).expect("must decode again");
    assert_eq!(decoded, twice);
}

#[test]
fn unknown_fields_do_not_break_decoding() {
    let mut bytes = PROTOC_BYTES.to_vec();
    bytes.extend_from_slice(&[0xF8, 0xFE, 0x03, 0x01]);

    let payload =
        ContentManifestPayload::decode(&bytes).expect("an unknown field must not be fatal");
    assert_eq!(payload.mappings.len(), 1);
}

#[test]
fn a_truncated_message_is_an_error_not_a_partial_value() {
    for cut in 1..PROTOC_BYTES.len() {
        let prefix = PROTOC_BYTES.get(..cut).expect("in range");
        let _ = ContentManifestPayload::decode(prefix);
    }
}
