//! Bindings to the descriptor-pool runtime.
//!
//! The pool type itself and the raw schema-file type are outside types; the
//! library reads the pool only through the named views below: the list of
//! service full names, the list of method records, and the two acceptance
//! predicates of the descriptor-driven JSON codec. The JSON texts and wire
//! bytes the codec produces are deliberately unnamed: a message may hold map
//! fields, whose rendering order is not a function of the inputs alone.
use vstd::prelude::*;

use prost::Message;
use prost_reflect::DescriptorPool;
use prost_reflect::prost_types::FileDescriptorProto;

use crate::reflection::views;
use crate::schema::MethodEntry;
use crate::schema::MethodRec;

verus! {

#[verifier::external_type_specification]
#[verifier::external_body]
pub struct ExDescriptorPool(DescriptorPool);

#[verifier::external_type_specification]
#[verifier::external_body]
pub struct ExFileDescriptorProto(FileDescriptorProto);

/// The full names of the pool's services, in the pool's own order.
pub uninterp spec fn pool_service_names(p: DescriptorPool) -> Seq<Seq<u8>>;

/// The method records of the pool's services, in the pool's own order.
pub uninterp spec fn pool_methods(p: DescriptorPool) -> Seq<MethodRec>;

/// Whether the codec accepts `json` as a document of the pool's message type
/// named `msg_type`: the name resolves to a message type, the document
/// parses as a single strict JSON value, and it validates against the type.
pub uninterp spec fn encode_accepts(p: DescriptorPool, msg_type: Seq<u8>, json: Seq<u8>) -> bool;

/// Whether the codec accepts `data` as the wire encoding of the pool's
/// message type named `msg_type`.
pub uninterp spec fn decode_accepts(p: DescriptorPool, msg_type: Seq<u8>, data: Seq<u8>) -> bool;

/// Whether `b` decodes as a raw schema file.
pub uninterp spec fn file_proto_decodes(b: Seq<u8>) -> bool;

/// The schema file `b` decodes to, when it decodes at all.
pub uninterp spec fn decoded_file(b: Seq<u8>) -> FileDescriptorProto;

/// Whether a fresh registry accepts exactly this sequence of schema files:
/// every definition valid, and every cross-file type reference resolved
/// within the sequence itself. Registration is pure validation, so its
/// outcome is a function of the files alone.
pub uninterp spec fn files_register(files: Seq<FileDescriptorProto>) -> bool;

/// Relies on prost's `Message::decode` for `FileDescriptorProto`: decodes
/// one raw schema-file blob (a deterministic function of the bytes), or
/// fails on malformed bytes.
#[verifier::external_body]
pub(crate) fn decode_file_proto(b: &Vec<u8>) -> (r: Option<FileDescriptorProto>)
    ensures
        r is Some <==> file_proto_decodes(b@),
        r matches Some(f) ==> f == decoded_file(b@),
{
    FileDescriptorProto::decode(b.as_slice()).ok()
}

/// Relies on `DescriptorPool::new` and
/// `DescriptorPool::add_file_descriptor_protos`: registers the decoded
/// schema files into a fresh pool, failing (and yielding no pool at all)
/// when a definition is invalid or a cross-file reference does not resolve.
#[verifier::external_body]
pub(crate) fn pool_from_files(files: Vec<FileDescriptorProto>) -> (r: Option<DescriptorPool>)
    ensures
        r is Some <==> files_register(files@),
{
    let mut pool = DescriptorPool::new();
    match pool.add_file_descriptor_protos(files) {
        Ok(()) => Some(pool),
        Err(_) => None,
    }
}

/// Relies on `DescriptorPool::services` and `ServiceDescriptor::full_name`:
/// hands out the full names of the pool's services, in the pool's order.
#[verifier::external_body]
pub(crate) fn pool_service_list(p: &DescriptorPool) -> (r: Vec<Vec<u8>>)
    ensures
        views(r@) == pool_service_names(*p),
{
    let mut out = Vec::new();
    for s in p.services() {
        out.push(s.full_name().as_bytes().to_vec());
    }
    out
}

/// Relies on `DescriptorPool::services`, `ServiceDescriptor::methods` and
/// the `MethodDescriptor` getters (`name`, `input`, `output`,
/// `is_client_streaming`, `is_server_streaming`): hands out one record per
/// method of each service, in the pool's order.
#[verifier::external_body]
pub(crate) fn pool_method_list(p: &DescriptorPool) -> (r: Vec<MethodEntry>)
    ensures
        r@.len() == pool_methods(*p).len(),
        forall|k: int| 0 <= k < r@.len() ==> (#[trigger] r@[k])@ == pool_methods(*p)[k],
{
    let mut out = Vec::new();
    for s in p.services() {
        for m in s.methods() {
            out.push(MethodEntry {
                service: s.full_name().as_bytes().to_vec(),
                method: m.name().as_bytes().to_vec(),
                input_type: m.input().full_name().as_bytes().to_vec(),
                output_type: m.output().full_name().as_bytes().to_vec(),
                client_streaming: m.is_client_streaming(),
                server_streaming: m.is_server_streaming(),
            });
        }
    }
    out
}

/// Relies on `serde_json::Deserializer::from_slice`,
/// `DynamicMessage::deserialize` (the strict protobuf-JSON mapping, unknown
/// fields rejected), `Deserializer::end` (no trailing content), and prost's
/// `Message::encode_to_vec`: converts a JSON document to the wire encoding
/// of the named message type.
#[verifier::external_body]
pub(crate) fn encode_json_message(p: &DescriptorPool, msg_type: &Vec<u8>, json: &Vec<u8>) -> (r:
    Option<Vec<u8>>)
    ensures
        r is Some <==> encode_accepts(*p, msg_type@, json@),
{
    let name = match std::str::from_utf8(msg_type.as_slice()) {
        Ok(n) => n,
        Err(_) => return None,
    };
    let desc = p.get_message_by_name(name)?;
    let mut de = serde_json::Deserializer::from_slice(json.as_slice());
    let msg = prost_reflect::DynamicMessage::deserialize(desc, &mut de).ok()?;
    de.end().ok()?;
    Some(msg.encode_to_vec())
}

/// Relies on `DynamicMessage::decode` against the named type's descriptor
/// and `serde_json::to_vec` over the dynamic message's `Serialize` impl (the
/// canonical protobuf-JSON rendering, compact): converts wire bytes back to
/// a JSON text.
#[verifier::external_body]
pub(crate) fn decode_message_json(p: &DescriptorPool, msg_type: &Vec<u8>, data: &Vec<u8>) -> (r:
    Option<Vec<u8>>)
    ensures
        r is Some <==> decode_accepts(*p, msg_type@, data@),
{
    let name = match std::str::from_utf8(msg_type.as_slice()) {
        Ok(n) => n,
        Err(_) => return None,
    };
    let desc = p.get_message_by_name(name)?;
    let msg = match prost_reflect::DynamicMessage::decode(desc, data.as_slice()) {
        Ok(m) => m,
        Err(_) => return None,
    };
    serde_json::to_vec(&msg).ok()
}

/// The full names of the resolved schema's services, in the pool's order.
pub fn schema_services(p: &DescriptorPool) -> (r: Vec<Vec<u8>>)
    ensures
        views(r@) == pool_service_names(*p),
{
    pool_service_list(p)
}

/// The method entries of the resolved schema, in the pool's order.
pub fn schema_methods(p: &DescriptorPool) -> (r: Vec<MethodEntry>)
    ensures
        r@.len() == pool_methods(*p).len(),
        forall|k: int| 0 <= k < r@.len() ==> (#[trigger] r@[k])@ == pool_methods(*p)[k],
{
    pool_method_list(p)
}

} // verus!
