//! Metadata framing: routing and authentication entries, parse-back, and
//! byte-for-byte agreement with the transport library's own framing.
use bytes::BytesMut;
use rsocket_rust::extension::CompositeMetadata;
use rsocket_rust::extension::MimeType;
use rsocket_rust::extension::RoutingMetadata;
use rsocket_rust::utils::Writeable;

use dynrpc::invoke::reflection_request_frame;
use dynrpc::invoke::setup_frame;
use dynrpc::reflection::encode_reflection_request;
use dynrpc::reflection::ReflectionQuery;
use dynrpc::metadata::build_auth_metadata;
use dynrpc::metadata::build_routing_metadata;
use dynrpc::metadata::decode_first_route;

#[test]
fn routing_metadata_parses_back_to_the_name() {
    let md = build_routing_metadata(b"pkg.Service.Method").unwrap();
    let route = decode_first_route(md.as_slice()).unwrap();
    assert_eq!(route, b"pkg.Service.Method".to_vec());
}

#[test]
fn routing_metadata_exact_bytes() {
    let md = build_routing_metadata(b"a.B.c").unwrap();
    // entry: well-known routing mime id, 24-bit length, tag length, tag
    let expected = vec![0xfe, 0x00, 0x00, 0x06, 0x05, b'a', b'.', b'B', b'.', b'c'];
    assert_eq!(md, expected);
}

#[test]
fn routing_metadata_matches_transport_library() {
    let name = "pkg.Service.Method";
    let ours = build_routing_metadata(name.as_bytes()).unwrap();

    let routing = RoutingMetadata::builder().push_str(name).build();
    let mut tag_buf = BytesMut::new();
    routing.write_to(&mut tag_buf);
    let composite = CompositeMetadata::builder()
        .push(MimeType::MESSAGE_X_RSOCKET_ROUTING_V0, tag_buf.to_vec())
        .build();
    let mut theirs = BytesMut::new();
    composite.write_to(&mut theirs);
    assert_eq!(ours, theirs.to_vec());
}

#[test]
fn routing_metadata_decodes_with_transport_library() {
    let ours = build_routing_metadata(b"x.Y.z").unwrap();
    let mut buf = BytesMut::from(ours.as_slice());
    let composite = CompositeMetadata::decode(&mut buf).unwrap();
    let entries: Vec<_> = composite.iter().collect();
    assert_eq!(entries.len(), 1);
    assert_eq!(entries[0].get_mime_type(), &MimeType::MESSAGE_X_RSOCKET_ROUTING_V0);
    let mut tag_buf = BytesMut::from(entries[0].get_metadata().as_ref());
    let routing = RoutingMetadata::decode(&mut tag_buf).unwrap();
    assert_eq!(routing.get_tags(), &vec!["x.Y.z".to_string()]);
}

#[test]
fn routing_metadata_rejects_overlong_names() {
    let long = vec![b'a'; 256];
    assert!(build_routing_metadata(long.as_slice()).is_none());
    let edge = vec![b'a'; 255];
    assert!(build_routing_metadata(edge.as_slice()).is_some());
}

#[test]
fn auth_metadata_exact_bytes() {
    let md = build_auth_metadata(b"token").unwrap();
    // entry: well-known auth mime id, 24-bit length, bearer scheme byte, token
    let expected = vec![0xfc, 0x00, 0x00, 0x06, 0x81, b't', b'o', b'k', b'e', b'n'];
    assert_eq!(md, expected);
}

#[test]
fn auth_metadata_decodes_with_transport_library() {
    let ours = build_auth_metadata(b"secret").unwrap();
    let mut buf = BytesMut::from(ours.as_slice());
    let composite = CompositeMetadata::decode(&mut buf).unwrap();
    let entries: Vec<_> = composite.iter().collect();
    assert_eq!(entries.len(), 1);
    assert_eq!(entries[0].get_mime_type(), &MimeType::MESSAGE_X_RSOCKET_AUTHENTICATION_V0);
    assert_eq!(entries[0].get_metadata().as_ref(), [&[0x81u8][..], b"secret"].concat());
}

#[test]
fn setup_frame_with_token_carries_auth_metadata() {
    let token = b"tok".to_vec();
    let frame = setup_frame(Some(&token));
    assert!(frame.data.is_empty());
    assert_eq!(frame.metadata, build_auth_metadata(b"tok").unwrap());
}

#[test]
fn setup_frame_without_token_is_empty() {
    let frame = setup_frame(None);
    assert!(frame.data.is_empty());
    assert!(frame.metadata.is_empty());
}

#[test]
fn first_route_of_non_routing_metadata_is_none() {
    let auth = build_auth_metadata(b"tok").unwrap();
    assert!(decode_first_route(auth.as_slice()).is_none());
    assert!(decode_first_route(b"").is_none());
    assert!(decode_first_route(&[0x7e, 0x00, 0x00, 0x01, 0x00]).is_none());
}

#[test]
fn reflection_frame_is_routed_to_the_reflection_method() {
    let q = ReflectionQuery::ListServices;
    let frame = reflection_request_frame(&q);
    assert_eq!(frame.data, encode_reflection_request(&q));
    let route = decode_first_route(frame.metadata.as_slice()).unwrap();
    assert_eq!(
        route,
        b"grpc.reflection.v1.ServerReflection.ServerReflectionInfo".to_vec(),
    );
}
