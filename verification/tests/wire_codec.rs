//! The protobuf wire primitives and the reflection message codec, checked
//! against hand-written bytes and against prost's own varint encoder.
use dynrpc::reflection::ReflectionQuery;
use dynrpc::reflection::ReflectionResponse;
use dynrpc::reflection::decode_reflection_response;
use dynrpc::reflection::encode_reflection_request;
use dynrpc::wire::encode_varint;
use dynrpc::wire::read_varint;

fn put_varint(mut n: u64, out: &mut Vec<u8>) {
    loop {
        if n < 0x80 {
            out.push(n as u8);
            return;
        }
        out.push(0x80 | ((n & 0x7f) as u8));
        n >>= 7;
    }
}

fn put_len_field(field: u32, payload: &[u8], out: &mut Vec<u8>) {
    put_varint((field as u64) * 8 + 2, out);
    put_varint(payload.len() as u64, out);
    out.extend_from_slice(payload);
}

#[test]
fn varint_round_trip() {
    let samples: Vec<u64> = vec![0, 1, 127, 128, 300, 16383, 16384, 1 << 32, u64::MAX];
    for n in samples {
        let mut out: Vec<u8> = Vec::new();
        encode_varint(n, &mut out);
        let (value, next) = read_varint(out.as_slice(), 0).unwrap();
        assert_eq!(value, n);
        assert_eq!(next, out.len());
    }
}

#[test]
fn varint_matches_prost() {
    let samples: Vec<u64> = vec![0, 5, 127, 128, 300, 65535, u64::MAX];
    for n in samples {
        let mut ours: Vec<u8> = Vec::new();
        encode_varint(n, &mut ours);
        let mut theirs = bytes::BytesMut::new();
        prost::encoding::encode_varint(n, &mut theirs);
        assert_eq!(ours, theirs.to_vec());
    }
}

#[test]
fn varint_rejects_truncated_input() {
    assert!(read_varint(&[0x80], 0).is_none());
    assert!(read_varint(&[], 0).is_none());
}

#[test]
fn list_services_request_bytes() {
    let req = encode_reflection_request(&ReflectionQuery::ListServices);
    let mut expected: Vec<u8> = Vec::new();
    put_len_field(1, b"ignore", &mut expected);
    put_len_field(7, b"ignore", &mut expected);
    assert_eq!(req, expected);
}

#[test]
fn file_by_name_request_bytes() {
    let req = encode_reflection_request(&ReflectionQuery::FileByName(b"pkg.Service".to_vec()));
    let mut expected: Vec<u8> = Vec::new();
    put_len_field(1, b"ignore", &mut expected);
    put_len_field(3, b"pkg.Service", &mut expected);
    assert_eq!(req, expected);
}

#[test]
fn response_with_file_descriptors_decodes() {
    let blob_a = b"first file".to_vec();
    let blob_b = b"second".to_vec();
    let mut inner: Vec<u8> = Vec::new();
    put_len_field(1, &blob_a, &mut inner);
    put_len_field(1, &blob_b, &mut inner);
    let mut resp: Vec<u8> = Vec::new();
    put_len_field(1, b"host", &mut resp);
    put_len_field(4, &inner, &mut resp);
    match decode_reflection_response(resp.as_slice()) {
        Some(ReflectionResponse::FileDescriptors(blobs)) => {
            assert_eq!(blobs, vec![blob_a, blob_b]);
        },
        _ => panic!("expected file descriptors"),
    }
}

#[test]
fn response_with_service_list_decodes() {
    let mut entry_a: Vec<u8> = Vec::new();
    put_len_field(1, b"pkg.First", &mut entry_a);
    let mut entry_b: Vec<u8> = Vec::new();
    put_len_field(1, b"pkg.Second", &mut entry_b);
    let mut inner: Vec<u8> = Vec::new();
    put_len_field(1, &entry_a, &mut inner);
    put_len_field(1, &entry_b, &mut inner);
    let mut resp: Vec<u8> = Vec::new();
    put_len_field(6, &inner, &mut resp);
    match decode_reflection_response(resp.as_slice()) {
        Some(ReflectionResponse::ServiceNames(names)) => {
            assert_eq!(names, vec![b"pkg.First".to_vec(), b"pkg.Second".to_vec()]);
        },
        _ => panic!("expected service names"),
    }
}

#[test]
fn response_with_error_variant_is_unrecognized() {
    let mut inner: Vec<u8> = Vec::new();
    put_varint(8, &mut inner); // error_code field 1, varint
    put_varint(5, &mut inner);
    let mut resp: Vec<u8> = Vec::new();
    put_len_field(7, &inner, &mut resp);
    match decode_reflection_response(resp.as_slice()) {
        Some(ReflectionResponse::Unrecognized) => (),
        _ => panic!("expected unrecognized variant"),
    }
}

#[test]
fn empty_response_is_unrecognized() {
    match decode_reflection_response(&[]) {
        Some(ReflectionResponse::Unrecognized) => (),
        _ => panic!("expected unrecognized variant"),
    }
}

#[test]
fn malformed_response_fails_to_decode() {
    // a length-delimited field whose length runs past the end
    assert!(decode_reflection_response(&[0x22, 0x05, 0x01]).is_none());
    // an unknown wire type
    assert!(decode_reflection_response(&[0x23]).is_none());
}

#[test]
fn later_variant_field_wins() {
    let mut files: Vec<u8> = Vec::new();
    put_len_field(1, b"blob", &mut files);
    let mut entry: Vec<u8> = Vec::new();
    put_len_field(1, b"pkg.Svc", &mut entry);
    let mut services: Vec<u8> = Vec::new();
    put_len_field(1, &entry, &mut services);
    let mut resp: Vec<u8> = Vec::new();
    put_len_field(4, &files, &mut resp);
    put_len_field(6, &services, &mut resp);
    match decode_reflection_response(resp.as_slice()) {
        Some(ReflectionResponse::ServiceNames(names)) => {
            assert_eq!(names, vec![b"pkg.Svc".to_vec()]);
        },
        _ => panic!("expected the later variant"),
    }
}
