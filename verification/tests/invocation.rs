//! End-to-end invocation flow against a real schema pool: selector parsing,
//! schema resolution, planning, the JSON codec round trip, response
//! streaming, and the describe rendering.
use prost::Message;
use prost_reflect::prost_types::DescriptorProto;
use prost_reflect::prost_types::field_descriptor_proto;
use prost_reflect::prost_types::FieldDescriptorProto;
use prost_reflect::prost_types::FileDescriptorProto;
use prost_reflect::prost_types::MethodDescriptorProto;
use prost_reflect::prost_types::ServiceDescriptorProto;

use dynrpc::invoke::RpcError;
use dynrpc::invoke::decode_stream;
use dynrpc::invoke::decode_stream_item;
use dynrpc::invoke::decode_unary_response;
use dynrpc::invoke::encode_request_frame;
use dynrpc::invoke::plan_call;
use dynrpc::invoke::resolve_schema;
use dynrpc::invoke::service_names_from_response;
use dynrpc::invoke::InvocationPlan;
use dynrpc::metadata::decode_first_route;
use dynrpc::pool::schema_methods;
use dynrpc::pool::schema_services;
use dynrpc::schema::parse_selector;
use dynrpc::schema::render_describe;
use dynrpc::schema::short_name_bytes;
use dynrpc::schema::split_selector;

fn string_field(name: &str, number: i32) -> FieldDescriptorProto {
    let mut f = FieldDescriptorProto::default();
    f.name = Some(name.to_string());
    f.number = Some(number);
    f.set_label(field_descriptor_proto::Label::Optional);
    f.set_type(field_descriptor_proto::Type::String);
    f
}

fn message(name: &str, fields: Vec<FieldDescriptorProto>) -> DescriptorProto {
    let mut m = DescriptorProto::default();
    m.name = Some(name.to_string());
    m.field = fields;
    m
}

fn method(name: &str, client_streaming: bool, server_streaming: bool) -> MethodDescriptorProto {
    let mut m = MethodDescriptorProto::default();
    m.name = Some(name.to_string());
    m.input_type = Some(".pkg.EchoRequest".to_string());
    m.output_type = Some(".pkg.EchoReply".to_string());
    m.client_streaming = Some(client_streaming);
    m.server_streaming = Some(server_streaming);
    m
}

fn test_schema_file() -> FileDescriptorProto {
    let mut file = FileDescriptorProto::default();
    file.name = Some("test.proto".to_string());
    file.package = Some("pkg".to_string());
    file.syntax = Some("proto3".to_string());
    file.message_type.push(message("EchoRequest", vec![string_field("msg", 1)]));
    file.message_type.push(message("EchoReply", vec![string_field("msg", 1)]));
    let mut svc = ServiceDescriptorProto::default();
    svc.name = Some("Service".to_string());
    svc.method.push(method("Method", false, false));
    svc.method.push(method("Watch", false, true));
    svc.method.push(method("Upload", true, false));
    file.service.push(svc);
    file
}

fn put_varint(mut n: u64, out: &mut Vec<u8>) {
    loop {
        if n < 0x80 {
            out.push(n as u8);
            return;
        }
        out.push(0x80 | ((n & 0x7f) as u8));
        n >>= 7;
    }
}

fn put_len_field(field: u32, payload: &[u8], out: &mut Vec<u8>) {
    put_varint((field as u64) * 8 + 2, out);
    put_varint(payload.len() as u64, out);
    out.extend_from_slice(payload);
}

/// A reflection response carrying the given schema-file blobs.
fn files_response(blobs: &[Vec<u8>]) -> Vec<u8> {
    let mut inner: Vec<u8> = Vec::new();
    for b in blobs {
        put_len_field(1, b, &mut inner);
    }
    let mut resp: Vec<u8> = Vec::new();
    put_len_field(4, &inner, &mut resp);
    resp
}

/// A reflection response carrying a service-name list.
fn services_response(names: &[&str]) -> Vec<u8> {
    let mut inner: Vec<u8> = Vec::new();
    for n in names {
        let mut entry: Vec<u8> = Vec::new();
        put_len_field(1, n.as_bytes(), &mut entry);
        put_len_field(1, &entry, &mut inner);
    }
    let mut resp: Vec<u8> = Vec::new();
    put_len_field(6, &inner, &mut resp);
    resp
}

fn test_pool() -> prost_reflect::DescriptorPool {
    let resp = files_response(&[test_schema_file().encode_to_vec()]);
    resolve_schema(Some(&resp)).unwrap()
}

/// The wire encoding of an EchoReply with the given `msg` value.
fn reply_bytes(msg: &str) -> Vec<u8> {
    let mut out: Vec<u8> = Vec::new();
    put_len_field(1, msg.as_bytes(), &mut out);
    out
}

#[test]
fn selector_with_slash_splits_at_the_first() {
    let (service, method) = split_selector(b"pkg.Service/Method");
    assert_eq!(service, b"pkg.Service".to_vec());
    assert_eq!(method, b"Method".to_vec());
    let (service, method) = split_selector(b"a/b/c");
    assert_eq!(service, b"a".to_vec());
    assert_eq!(method, b"b/c".to_vec());
}

#[test]
fn selector_without_slash_has_empty_method() {
    let (service, method) = split_selector(b"pkg.Service");
    assert_eq!(service, b"pkg.Service".to_vec());
    assert_eq!(method, b"".to_vec());
}

#[test]
fn strict_selector_requires_a_slash() {
    assert_eq!(parse_selector(b"pkg.Service"), Err(RpcError::InvalidSelector));
    let (service, method) = parse_selector(b"pkg.Service/Method").unwrap();
    assert_eq!(service, b"pkg.Service".to_vec());
    assert_eq!(method, b"Method".to_vec());
}

#[test]
fn resolve_schema_builds_a_pool_and_skips_bad_blobs() {
    let good = test_schema_file().encode_to_vec();
    let garbage = vec![0x0a, 0xff];
    let resp = files_response(&[garbage, good]);
    let pool = resolve_schema(Some(&resp)).unwrap();
    let services = schema_services(&pool);
    assert_eq!(services, vec![b"pkg.Service".to_vec()]);
    let methods = schema_methods(&pool);
    assert_eq!(methods.len(), 3);
    assert_eq!(methods[0].service, b"pkg.Service".to_vec());
    assert_eq!(methods[0].method, b"Method".to_vec());
    assert_eq!(methods[0].input_type, b"pkg.EchoRequest".to_vec());
    assert_eq!(methods[0].output_type, b"pkg.EchoReply".to_vec());
    assert!(!methods[0].client_streaming);
    assert!(!methods[0].server_streaming);
    assert!(methods[1].server_streaming);
    assert!(methods[2].client_streaming);
}

#[test]
fn resolve_schema_fails_without_a_file_descriptor_response() {
    // stream ended or failed with no response at all
    assert_eq!(resolve_schema(None).unwrap_err(), RpcError::NoDescriptor);
    // a different response variant
    let resp = services_response(&["pkg.Service"]);
    assert_eq!(resolve_schema(Some(&resp)).unwrap_err(), RpcError::NoDescriptor);
    // a malformed response
    let resp = vec![0x22, 0x05, 0x01];
    assert_eq!(resolve_schema(Some(&resp)).unwrap_err(), RpcError::NoDescriptor);
}

#[test]
fn resolve_schema_fails_when_no_usable_file() {
    // the only blob does not decode: total absence of a usable file is fatal
    let resp = files_response(&[vec![0x0a, 0xff]]);
    assert_eq!(resolve_schema(Some(&resp)).unwrap_err(), RpcError::NoDescriptor);
    // a file-descriptor response with no blobs at all is likewise fatal
    let resp = files_response(&[]);
    assert_eq!(resolve_schema(Some(&resp)).unwrap_err(), RpcError::NoDescriptor);
    // a blob that decodes but references a missing type fails the add
    let mut bad = test_schema_file();
    bad.service[0].method[0].input_type = Some(".pkg.Missing".to_string());
    let resp = files_response(&[bad.encode_to_vec()]);
    assert_eq!(resolve_schema(Some(&resp)).unwrap_err(), RpcError::NoDescriptor);
}

#[test]
fn service_names_come_only_from_a_list_response() {
    let resp = services_response(&["pkg.A", "pkg.B"]);
    let names = service_names_from_response(Some(&resp));
    assert_eq!(names, vec![b"pkg.A".to_vec(), b"pkg.B".to_vec()]);
    let other = files_response(&[b"blob".to_vec()]);
    assert!(service_names_from_response(Some(&other)).is_empty());
    assert!(service_names_from_response(None).is_empty());
}

#[test]
fn plan_resolves_types_and_shape() {
    let pool = test_pool();
    let services = schema_services(&pool);
    let methods = schema_methods(&pool);
    let plan = plan_call(
        &services,
        &methods,
        b"pkg.Service".to_vec(),
        b"Watch".to_vec(),
        None,
    )
    .unwrap();
    assert_eq!(plan.input_type, b"pkg.EchoRequest".to_vec());
    assert_eq!(plan.output_type, b"pkg.EchoReply".to_vec());
    assert!(plan.server_streaming);
    assert_eq!(plan.body, b"{}".to_vec());
}

#[test]
fn plan_rejects_unknown_names() {
    let pool = test_pool();
    let services = schema_services(&pool);
    let methods = schema_methods(&pool);
    let e = plan_call(&services, &methods, b"pkg.Other".to_vec(), b"Method".to_vec(), None);
    assert_eq!(e.unwrap_err(), RpcError::ServiceNotFound);
    let e = plan_call(&services, &methods, b"pkg.Service".to_vec(), b"Nope".to_vec(), None);
    assert_eq!(e.unwrap_err(), RpcError::MethodNotFound);
}

#[test]
fn plan_rejects_client_streaming_methods() {
    let pool = test_pool();
    let services = schema_services(&pool);
    let methods = schema_methods(&pool);
    let e = plan_call(
        &services,
        &methods,
        b"pkg.Service".to_vec(),
        b"Upload".to_vec(),
        Some(b"{}".to_vec()),
    );
    assert_eq!(e.unwrap_err(), RpcError::UnsupportedStreamingMode);
}

#[test]
fn absent_body_plans_like_the_empty_document() {
    let pool = test_pool();
    let services = schema_services(&pool);
    let methods = schema_methods(&pool);
    let a = plan_call(&services, &methods, b"pkg.Service".to_vec(), b"Method".to_vec(), None)
        .unwrap();
    let b = plan_call(
        &services,
        &methods,
        b"pkg.Service".to_vec(),
        b"Method".to_vec(),
        Some(b"{}".to_vec()),
    )
    .unwrap();
    assert_eq!(a.service, b.service);
    assert_eq!(a.method, b.method);
    assert_eq!(a.input_type, b.input_type);
    assert_eq!(a.output_type, b.output_type);
    assert_eq!(a.server_streaming, b.server_streaming);
    assert_eq!(a.body, b.body);
}

#[test]
fn encoded_request_round_trips_through_the_codec() {
    let pool = test_pool();
    let services = schema_services(&pool);
    let methods = schema_methods(&pool);
    let plan = plan_call(
        &services,
        &methods,
        b"pkg.Service".to_vec(),
        b"Method".to_vec(),
        Some(br#"{"msg":"hi"}"#.to_vec()),
    )
    .unwrap();
    let frame = encode_request_frame(&pool, &plan).unwrap();
    // the route names service.method
    let route = decode_first_route(frame.metadata.as_slice()).unwrap();
    assert_eq!(route, b"pkg.Service.Method".to_vec());
    // decoding the encoded body against the input type recovers the document
    let json = decode_unary_response(&pool, &plan.input_type, Some(&frame.data)).unwrap();
    assert_eq!(json, br#"{"msg":"hi"}"#.to_vec());
}

#[test]
fn default_valued_fields_are_elided_on_the_round_trip() {
    let pool = test_pool();
    let services = schema_services(&pool);
    let methods = schema_methods(&pool);
    let plan = plan_call(
        &services,
        &methods,
        b"pkg.Service".to_vec(),
        b"Method".to_vec(),
        Some(br#"{"msg":""}"#.to_vec()),
    )
    .unwrap();
    let frame = encode_request_frame(&pool, &plan).unwrap();
    let json = decode_unary_response(&pool, &plan.input_type, Some(&frame.data)).unwrap();
    assert_eq!(json, b"{}".to_vec());
}

#[test]
fn invalid_bodies_are_rejected_before_dispatch() {
    let pool = test_pool();
    let services = schema_services(&pool);
    let methods = schema_methods(&pool);
    let cases: Vec<&[u8]> = vec![
        b"{",  // malformed
        b"{} {}",  // trailing content
        br#"{"nope":1}"#,  // unknown field
        br#"{"msg":7}"#,  // wrong type
    ];
    for body in cases {
        let plan = plan_call(
            &services,
            &methods,
            b"pkg.Service".to_vec(),
            b"Method".to_vec(),
            Some(body.to_vec()),
        )
        .unwrap();
        let e = encode_request_frame(&pool, &plan).unwrap_err();
        assert_eq!(e, RpcError::InvalidRequestPayload);
    }
}

#[test]
fn overlong_routes_are_rejected() {
    let pool = test_pool();
    let plan = InvocationPlan {
        service: vec![b'a'; 300],
        method: b"Method".to_vec(),
        input_type: b"pkg.EchoRequest".to_vec(),
        output_type: b"pkg.EchoReply".to_vec(),
        server_streaming: false,
        body: b"{}".to_vec(),
    };
    assert_eq!(encode_request_frame(&pool, &plan).unwrap_err(), RpcError::InvalidSelector);
}

#[test]
fn streamed_frames_decode_in_arrival_order() {
    let pool = test_pool();
    let output = b"pkg.EchoReply".to_vec();
    let frames = vec![reply_bytes("a"), reply_bytes("b"), reply_bytes("c")];
    let decoded = decode_stream(&pool, &output, &frames);
    assert_eq!(decoded.len(), 3);
    let jsons: Vec<Vec<u8>> = decoded.iter().map(|d| d.json.clone()).collect();
    assert_eq!(
        jsons,
        vec![
            br#"{"msg":"a"}"#.to_vec(),
            br#"{"msg":"b"}"#.to_vec(),
            br#"{"msg":"c"}"#.to_vec(),
        ],
    );
    let indices: Vec<usize> = decoded.iter().map(|d| d.index).collect();
    assert_eq!(indices, vec![0, 1, 2]);
}

#[test]
fn undecodable_frames_are_skipped_not_fatal() {
    let pool = test_pool();
    let output = b"pkg.EchoReply".to_vec();
    let frames = vec![reply_bytes("a"), vec![0x0a, 0xff], reply_bytes("c")];
    let decoded = decode_stream(&pool, &output, &frames);
    let indices: Vec<usize> = decoded.iter().map(|d| d.index).collect();
    assert_eq!(indices, vec![0, 2]);
    assert_eq!(decoded[1].json, br#"{"msg":"c"}"#.to_vec());
    assert!(decode_stream_item(&pool, &output, &vec![0x0a, 0xff]).is_none());
}

#[test]
fn empty_stream_decodes_to_nothing() {
    let pool = test_pool();
    let output = b"pkg.EchoReply".to_vec();
    let frames: Vec<Vec<u8>> = Vec::new();
    assert!(decode_stream(&pool, &output, &frames).is_empty());
}

#[test]
fn unary_response_may_be_absent() {
    let pool = test_pool();
    let output = b"pkg.EchoReply".to_vec();
    assert!(decode_unary_response(&pool, &output, None).is_none());
    let garbled = vec![0x0a, 0xff];
    assert!(decode_unary_response(&pool, &output, Some(&garbled)).is_none());
    let ok = decode_unary_response(&pool, &output, Some(&reply_bytes("x"))).unwrap();
    assert_eq!(ok, br#"{"msg":"x"}"#.to_vec());
}

#[test]
fn error_texts_name_the_error() {
    assert_eq!(RpcError::NoDescriptor.text(), "NoDescriptor");
    assert_eq!(RpcError::InvalidSelector.text(), "InvalidSelector");
    assert_eq!(RpcError::ServiceNotFound.text(), "ServiceNotFound");
    assert_eq!(RpcError::MethodNotFound.text(), "MethodNotFound");
    assert_eq!(RpcError::UnsupportedStreamingMode.text(), "UnsupportedStreamingMode");
    assert_eq!(RpcError::InvalidRequestPayload.text(), "InvalidRequestPayload");
}

#[test]
fn short_names_drop_the_package() {
    assert_eq!(short_name_bytes(b"pkg.Service"), b"Service".to_vec());
    assert_eq!(short_name_bytes(b"Service"), b"Service".to_vec());
    assert_eq!(short_name_bytes(b"a.b.C"), b"C".to_vec());
    assert_eq!(short_name_bytes(b"trailing."), b"".to_vec());
}

#[test]
fn describe_renders_the_whole_service() {
    let pool = test_pool();
    let services = schema_services(&pool);
    let methods = schema_methods(&pool);
    let text = render_describe(&services, &methods, b"");
    let expected = "pkg.Service is a service:\n\n\
                    service Service {\n\
                    \x20 rpc Method( pkg.EchoRequest ) returns ( pkg.EchoReply );\n\
                    \x20 rpc Watch( pkg.EchoRequest ) returns ( stream pkg.EchoReply );\n\
                    \x20 rpc Upload( stream pkg.EchoRequest ) returns ( pkg.EchoReply );\n\
                    }\n";
    assert_eq!(String::from_utf8(text).unwrap(), expected);
}

#[test]
fn describe_narrows_to_one_method() {
    let pool = test_pool();
    let services = schema_services(&pool);
    let methods = schema_methods(&pool);
    let text = render_describe(&services, &methods, b"Watch");
    let expected = "pkg.Service.Watch is a method:\n\n\
                    \x20 rpc Watch( pkg.EchoRequest ) returns ( stream pkg.EchoReply );\n";
    assert_eq!(String::from_utf8(text).unwrap(), expected);
}
