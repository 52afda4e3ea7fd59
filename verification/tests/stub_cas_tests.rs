use stub_cas::Digest;
use stub_cas::Fingerprint;
use stub_cas::Status;
use stub_cas::StatusCode;
use stub_cas::StubCAS;
use stub_cas::WriteRequest;

const HELLO_FP: &str = "2cf24dba5fb0a30e26e83b2ac5b9e29e1b161e5c1fa7425e73043362938b9824";
const OTHER_FP: &str = "aaaaaaaaaaaaaaaaaaaaaaaaaaaaaaaaaaaaaaaaaaaaaaaaaaaaaaaaaaaaaaaa";
const THIRD_FP: &str = "bbbbbbbbbbbbbbbbbbbbbbbbbbbbbbbbbbbbbbbbbbbbbbbbbbbbbbbbbbbbbbbb";

fn fp(hex: &str) -> Fingerprint {
    Fingerprint::from_hex_string(hex).unwrap()
}

fn req(name: &str, offset: i64, data: &[u8]) -> WriteRequest {
    WriteRequest {
        resource_name: name.to_string(),
        write_offset: offset,
        data: data.to_vec(),
    }
}

fn chunk_bytes(chunks: Vec<stub_cas::ReadResponse>) -> Vec<Vec<u8>> {
    let mut out = Vec::new();
    for c in chunks {
        out.push(c.data);
    }
    out
}

#[test]
fn empty_store_read_is_not_found_then_write_then_chunked_read() {
    let mut cas = StubCAS::with_unverified_content(2, Vec::new());
    let read_name = format!("/blobs/{}/5", HELLO_FP);

    let r = cas.responder.read(&read_name);
    match r {
        Err(st) => {
            assert!(matches!(st, Status::DigestNotFound { .. }));
            assert_eq!(st.code(), StatusCode::NotFound);
        },
        Ok(_) => panic!("read of an empty store must fail"),
    }

    let write_name = format!("upload-prefix/uploads/u1/blobs/{}/5", HELLO_FP);
    let reqs = vec![req(&write_name, 0, b"hello")];
    let w = cas.responder.write(&reqs).unwrap();
    assert_eq!(w.committed_size, 5);

    let chunks = chunk_bytes(cas.responder.read(&read_name).unwrap());
    assert_eq!(chunks, vec![b"he".to_vec(), b"ll".to_vec(), b"o".to_vec()]);
}

#[test]
fn round_trip_reassembles_exactly_what_was_written() {
    let mut cas = StubCAS::with_unverified_content(4, Vec::new());
    let payload: Vec<u8> = (0u8..=41).collect();
    let write_name = format!("p/uploads/u2/blobs/{}/42", OTHER_FP);
    let reqs = vec![
        req(&write_name, 0, &payload[..10]),
        req(&write_name, 10, &payload[10..]),
    ];
    assert_eq!(cas.responder.write(&reqs).unwrap().committed_size, 42);

    let read_name = format!("/blobs/{}/42", OTHER_FP);
    let chunks = chunk_bytes(cas.responder.read(&read_name).unwrap());
    assert_eq!(chunks.len(), 11);
    for (i, c) in chunks.iter().enumerate() {
        if i < 10 {
            assert_eq!(c.len(), 4);
        } else {
            assert_eq!(c.len(), 2);
        }
    }
    let mut rebuilt = Vec::new();
    for c in chunks {
        rebuilt.extend(c);
    }
    assert_eq!(rebuilt, payload);
}

#[test]
fn empty_blob_reads_as_zero_chunks() {
    let mut cas = StubCAS::with_unverified_content(2, Vec::new());
    let write_name = format!("p/uploads/u3/blobs/{}/0", OTHER_FP);
    let reqs = vec![req(&write_name, 0, b"")];
    assert_eq!(cas.responder.write(&reqs).unwrap().committed_size, 0);
    let read_name = format!("/blobs/{}/0", OTHER_FP);
    let chunks = cas.responder.read(&read_name).unwrap();
    assert_eq!(chunks.len(), 0);
}

#[test]
fn misordered_offsets_fail_and_store_nothing() {
    let mut cas = StubCAS::with_unverified_content(1024, Vec::new());
    let write_name = format!("p/uploads/u4/blobs/{}/5", HELLO_FP);
    let reqs = vec![req(&write_name, 0, b"he"), req(&write_name, 4, b"llo")];
    let st = cas.responder.write(&reqs).unwrap_err();
    assert!(matches!(
        st,
        Status::MissingChunk { expected_offset: 2, got_offset: 4 }
    ));
    assert_eq!(st.code(), StatusCode::InvalidArgument);

    let read_name = format!("/blobs/{}/5", HELLO_FP);
    let after = cas.responder.read(&read_name).unwrap_err();
    assert_eq!(after.code(), StatusCode::NotFound);
}

#[test]
fn mismatched_resource_names_fail_and_store_nothing() {
    let mut cas = StubCAS::with_unverified_content(1024, Vec::new());
    let name_a = format!("p/uploads/u5/blobs/{}/5", HELLO_FP);
    let name_b = format!("p/uploads/u6/blobs/{}/5", HELLO_FP);
    let reqs = vec![req(&name_a, 0, b"he"), req(&name_b, 2, b"llo")];
    let st = cas.responder.write(&reqs).unwrap_err();
    assert!(matches!(st, Status::MismatchedResourceName { .. }));
    assert_eq!(st.code(), StatusCode::InvalidArgument);

    let read_name = format!("/blobs/{}/5", HELLO_FP);
    assert_eq!(
        cas.responder.read(&read_name).unwrap_err().code(),
        StatusCode::NotFound
    );
}

#[test]
fn find_missing_blobs_preserves_request_order() {
    let seeded = vec![
        (fp(HELLO_FP), b"hello".to_vec()),
        (fp(OTHER_FP), b"other".to_vec()),
    ];
    let cas = StubCAS::with_unverified_content(1024, seeded);
    let a = Digest(fp(HELLO_FP), 5);
    let c = Digest(fp(THIRD_FP), 9);
    let b = Digest(fp(OTHER_FP), 5);
    let missing = cas
        .responder
        .find_missing_blobs(&vec![a, c, b])
        .unwrap();
    assert_eq!(missing.len(), 1);
    assert_eq!(missing[0], c);
}

#[test]
fn find_missing_blobs_of_empty_request_is_empty() {
    let cas = StubCAS::empty();
    let missing = cas.responder.find_missing_blobs(&Vec::new()).unwrap();
    assert!(missing.is_empty());
}

#[test]
fn always_errors_read_returns_internal_even_for_known_content() {
    let seeded = vec![(fp(HELLO_FP), b"hello".to_vec())];
    let mut cas = StubCAS::with_unverified_content(-1, seeded);
    let read_name = format!("/blobs/{}/5", HELLO_FP);
    let st = cas.responder.read(&read_name).unwrap_err();
    assert!(matches!(st, Status::AlwaysFailing));
    assert_eq!(st.code(), StatusCode::Internal);
}

#[test]
fn always_errors_structurally_valid_write_returns_internal() {
    let mut cas = StubCAS::always_errors();
    let write_name = format!("p/uploads/u7/blobs/{}/5", HELLO_FP);
    let reqs = vec![req(&write_name, 0, b"hello")];
    let st = cas.responder.write(&reqs).unwrap_err();
    assert!(matches!(st, Status::AlwaysFailing));
    assert_eq!(st.code(), StatusCode::Internal);
}

#[test]
fn always_errors_structurally_invalid_write_still_reports_invalid_argument() {
    let mut cas = StubCAS::always_errors();
    let name_a = format!("p/uploads/u8/blobs/{}/5", HELLO_FP);
    let name_b = format!("q/uploads/u8/blobs/{}/5", HELLO_FP);
    let reqs = vec![req(&name_a, 0, b"he"), req(&name_b, 2, b"llo")];
    let st = cas.responder.write(&reqs).unwrap_err();
    assert_eq!(st.code(), StatusCode::InvalidArgument);
}

#[test]
fn always_errors_find_missing_blobs_returns_internal() {
    let cas = StubCAS::always_errors();
    let st = cas
        .responder
        .find_missing_blobs(&vec![Digest(fp(HELLO_FP), 5)])
        .unwrap_err();
    assert_eq!(st.code(), StatusCode::Internal);
}

#[test]
fn read_request_count_moves_once_per_read_whatever_the_outcome() {
    let mut cas = StubCAS::empty();
    assert_eq!(cas.read_request_count(), 0);
    let _ = cas.responder.read("not-a-resource-name");
    assert_eq!(cas.responder.read_request_count, 1);
    let read_name = format!("/blobs/{}/5", HELLO_FP);
    let _ = cas.responder.read(&read_name);
    assert_eq!(cas.responder.read_request_count, 2);
    assert_eq!(cas.read_request_count(), 2);
}

#[test]
fn write_message_sizes_record_every_chunk_that_reached_the_offset_check() {
    let mut cas = StubCAS::with_unverified_content(1024, Vec::new());
    let write_name = format!("p/uploads/u9/blobs/{}/5", HELLO_FP);
    let bad = vec![req(&write_name, 0, b"he"), req(&write_name, 9, b"llo")];
    let _ = cas.responder.write(&bad);
    assert_eq!(cas.responder.write_message_sizes, vec![2]);

    let good = vec![req(&write_name, 0, b"he"), req(&write_name, 2, b"llo")];
    assert!(cas.responder.write(&good).is_ok());
    assert_eq!(cas.responder.write_message_sizes, vec![2, 2, 3]);
}

#[test]
fn read_rejects_malformed_resource_names() {
    let mut cas = StubCAS::empty();
    for name in ["", "blobs", "/wrong/abc/5", "no-leading-empty/blobs/abc/5"] {
        let st = cas.responder.read(name).unwrap_err();
        assert!(matches!(st, Status::BadReadResourceName { .. }));
        assert_eq!(st.code(), StatusCode::InvalidArgument);
    }
}

#[test]
fn read_rejects_undecodable_fingerprints() {
    let mut cas = StubCAS::empty();
    let st = cas.responder.read("/blobs/nothex/5").unwrap_err();
    assert!(matches!(st, Status::BadReadDigest { .. }));
    assert_eq!(st.code(), StatusCode::InvalidArgument);
}

#[test]
fn read_ignores_the_size_segment_and_any_extra_separators_in_it() {
    let seeded = vec![(fp(HELLO_FP), b"hello".to_vec())];
    let mut cas = StubCAS::with_unverified_content(1024, seeded);
    let name = format!("/blobs/{}/999/extra", HELLO_FP);
    let chunks = chunk_bytes(cas.responder.read(&name).unwrap());
    assert_eq!(chunks, vec![b"hello".to_vec()]);
}

#[test]
fn empty_write_stream_is_rejected() {
    let mut cas = StubCAS::empty();
    let st = cas.responder.write(&Vec::new()).unwrap_err();
    assert!(matches!(st, Status::EmptyWriteStream));
    assert_eq!(st.code(), StatusCode::InvalidArgument);
}

#[test]
fn write_rejects_malformed_resource_names() {
    let mut cas = StubCAS::empty();
    for name in [
        "too/short/name",
        "p/wrong/u1/blobs/abc/5",
        "p/uploads/u1/wrong/abc/5",
    ] {
        let reqs = vec![req(name, 0, b"hello")];
        let st = cas.responder.write(&reqs).unwrap_err();
        assert!(matches!(st, Status::BadWriteResourceName { .. }));
        assert_eq!(st.code(), StatusCode::InvalidArgument);
    }
}

#[test]
fn write_rejects_undecodable_fingerprints() {
    let mut cas = StubCAS::empty();
    let reqs = vec![req("p/uploads/u1/blobs/nothex/5", 0, b"hello")];
    let st = cas.responder.write(&reqs).unwrap_err();
    assert!(matches!(st, Status::BadWriteDigest { .. }));
    assert_eq!(st.code(), StatusCode::InvalidArgument);
}

#[test]
fn write_rejects_undecodable_sizes() {
    let mut cas = StubCAS::empty();
    for size_text in ["abc", "", "-5", "+", "99999999999999999999999999999999"] {
        let name = format!("p/uploads/u1/blobs/{}/{}", HELLO_FP, size_text);
        let reqs = vec![req(&name, 0, b"hello")];
        let st = cas.responder.write(&reqs).unwrap_err();
        assert!(matches!(st, Status::BadWriteSize { .. }));
        assert_eq!(st.code(), StatusCode::InvalidArgument);
    }
}

#[test]
fn write_accepts_a_size_with_a_leading_plus_sign() {
    let mut cas = StubCAS::empty();
    let name = format!("p/uploads/u1/blobs/{}/+5", HELLO_FP);
    let reqs = vec![req(&name, 0, b"hello")];
    assert_eq!(cas.responder.write(&reqs).unwrap().committed_size, 5);
}

#[test]
fn write_rejects_a_declared_size_that_differs_from_the_bytes() {
    let mut cas = StubCAS::empty();
    let name = format!("p/uploads/u1/blobs/{}/7", HELLO_FP);
    let reqs = vec![req(&name, 0, b"hello")];
    let st = cas.responder.write(&reqs).unwrap_err();
    assert!(matches!(
        st,
        Status::WrongSize { declared_size: 7, actual_size: 5 }
    ));
    assert_eq!(st.code(), StatusCode::InvalidArgument);
}

#[test]
fn write_overwrites_prior_content_under_the_same_fingerprint() {
    let mut cas = StubCAS::with_unverified_content(1024, Vec::new());
    let first = format!("p/uploads/u1/blobs/{}/5", HELLO_FP);
    let second = format!("p/uploads/u2/blobs/{}/5", HELLO_FP);
    assert!(cas.responder.write(&vec![req(&first, 0, b"hello")]).is_ok());
    assert!(cas.responder.write(&vec![req(&second, 0, b"world")]).is_ok());
    let read_name = format!("/blobs/{}/5", HELLO_FP);
    let chunks = chunk_bytes(cas.responder.read(&read_name).unwrap());
    assert_eq!(chunks, vec![b"world".to_vec()]);
}

#[test]
fn unimplemented_operations_say_so() {
    let cas = StubCAS::empty();
    let q = cas.responder.query_write_status().unwrap_err();
    assert!(matches!(q, Status::NotImplemented));
    assert_eq!(q.code(), StatusCode::Unimplemented);
    let b = cas.responder.batch_update_blobs().unwrap_err();
    assert_eq!(b.code(), StatusCode::Unimplemented);
    let g = cas.responder.get_tree().unwrap_err();
    assert_eq!(g.code(), StatusCode::Unimplemented);
}

#[test]
fn fingerprints_decode_only_from_64_hex_characters() {
    assert!(Fingerprint::from_hex_string(HELLO_FP).is_some());
    assert!(Fingerprint::from_hex_string("").is_none());
    assert!(Fingerprint::from_hex_string("2cf2").is_none());
    let bad = format!("{}zz", &HELLO_FP[..62]);
    assert!(Fingerprint::from_hex_string(&bad).is_none());
    let long = format!("{}00", HELLO_FP);
    assert!(Fingerprint::from_hex_string(&long).is_none());
}

#[test]
fn fingerprint_hex_decoding_is_case_insensitive() {
    let upper = HELLO_FP.to_uppercase();
    assert_eq!(fp(HELLO_FP), fp(&upper));
    assert_ne!(fp(HELLO_FP), fp(OTHER_FP));
}

#[test]
fn with_content_seeds_files_and_directories() {
    let files = vec![(fp(HELLO_FP), b"hello".to_vec())];
    let directories = vec![(fp(OTHER_FP), b"dir-bytes".to_vec())];
    let mut cas = StubCAS::with_content(1024, files, directories);
    let hello = format!("/blobs/{}/5", HELLO_FP);
    assert_eq!(
        chunk_bytes(cas.responder.read(&hello).unwrap()),
        vec![b"hello".to_vec()]
    );
    let dir = format!("/blobs/{}/9", OTHER_FP);
    assert_eq!(
        chunk_bytes(cas.responder.read(&dir).unwrap()),
        vec![b"dir-bytes".to_vec()]
    );
}

#[test]
fn later_seed_pairs_replace_earlier_ones_under_the_same_fingerprint() {
    let seeded = vec![
        (fp(HELLO_FP), b"first".to_vec()),
        (fp(HELLO_FP), b"second".to_vec()),
    ];
    let mut cas = StubCAS::with_unverified_content(1024, seeded);
    let name = format!("/blobs/{}/6", HELLO_FP);
    assert_eq!(
        chunk_bytes(cas.responder.read(&name).unwrap()),
        vec![b"second".to_vec()]
    );
}

#[test]
fn status_messages_name_the_offending_values() {
    let mut cas = StubCAS::empty();
    let st = cas.responder.read("junk").unwrap_err();
    assert_eq!(
        st.message(),
        "Bad resource name format junk - want /blobs/some-sha256/size"
    );

    let name = format!("p/uploads/u1/blobs/{}/7", HELLO_FP);
    let wrong = cas.responder.write(&vec![req(&name, 0, b"hello")]).unwrap_err();
    assert_eq!(
        wrong.message(),
        "Size was incorrect: resource name said size=7 but got 5"
    );

    let bad_offset = cas
        .responder
        .write(&vec![req(&name, 0, b"he"), req(&name, -3, b"llo")])
        .unwrap_err();
    assert_eq!(
        bad_offset.message(),
        "Missing chunk. Expected next offset 2, got next offset: -3"
    );

    assert_eq!(
        cas.responder.write(&Vec::new()).unwrap_err().message(),
        "Stream saw no messages"
    );
}

#[test]
fn not_found_message_names_the_fingerprint_in_hex() {
    let mut cas = StubCAS::empty();
    let read_name = format!("/blobs/{}/5", HELLO_FP);
    let st = cas.responder.read(&read_name).unwrap_err();
    assert_eq!(st.message(), format!("Did not find digest {}", HELLO_FP));
}
