//! The invocation dispatcher: errors, frames, setup and reflection framing,
//! schema resolution from a reflection response, call planning, request
//! encoding, and response decoding for the two supported call shapes.
use vstd::prelude::*;
use vstd::string::StringSliceAdditionalSpecFns;

use prost_reflect::DescriptorPool;
use prost_reflect::prost_types::FileDescriptorProto;

use crate::metadata::auth_metadata;
use crate::metadata::build_auth_metadata;
use crate::metadata::build_routing_metadata;
use crate::metadata::routing_metadata;
use crate::pool::decode_accepts;
use crate::pool::decode_file_proto;
use crate::pool::decoded_file;
use crate::pool::file_proto_decodes;
use crate::pool::files_register;
use crate::pool::decode_message_json;
use crate::pool::encode_accepts;
use crate::pool::encode_json_message;
use crate::pool::pool_from_files;
use crate::reflection::ParsedResponse;
use crate::reflection::ReflectionQuery;
use crate::reflection::ReflectionResponse;
use crate::reflection::decode_reflection_response;
use crate::reflection::encode_reflection_request;
use crate::reflection::parse_response;
use crate::reflection::reflection_route;
use crate::reflection::reflection_route_bytes;
use crate::reflection::request_bytes;
use crate::reflection::views;
use crate::schema::DOT;
use crate::schema::MethodEntry;
use crate::schema::MethodRec;
use crate::schema::contains_name;
use crate::schema::entry_views;
use crate::schema::find_method;
use crate::schema::resolve_method;
use crate::wire::append_slice;
use crate::wire::clone_bytes;

verus! {

/// The ways an invocation can fail before or at dispatch.
#[derive(Clone, Copy, Debug, PartialEq, Eq, Structural)]
pub enum RpcError {
    /// The selector does not name both a service and a method.
    InvalidSelector,
    /// The reflection exchange never produced usable schema files.
    NoDescriptor,
    /// The resolved schema has no service of the requested name.
    ServiceNotFound,
    /// The resolved service has no method of the requested name.
    MethodNotFound,
    /// The method needs a client-streaming request, which is not supported.
    UnsupportedStreamingMode,
    /// The request body does not parse or validate against the input type.
    InvalidRequestPayload,
}

impl RpcError {
    /// A diagnostic name for the error.
    pub fn text(&self) -> (r: &'static str)
        ensures
            r@ == match *self {
                RpcError::InvalidSelector => "InvalidSelector"@,
                RpcError::NoDescriptor => "NoDescriptor"@,
                RpcError::ServiceNotFound => "ServiceNotFound"@,
                RpcError::MethodNotFound => "MethodNotFound"@,
                RpcError::UnsupportedStreamingMode => "UnsupportedStreamingMode"@,
                RpcError::InvalidRequestPayload => "InvalidRequestPayload"@,
            },
    {
        match self {
            RpcError::InvalidSelector => "InvalidSelector",
            RpcError::NoDescriptor => "NoDescriptor",
            RpcError::ServiceNotFound => "ServiceNotFound",
            RpcError::MethodNotFound => "MethodNotFound",
            RpcError::UnsupportedStreamingMode => "UnsupportedStreamingMode",
            RpcError::InvalidRequestPayload => "InvalidRequestPayload",
        }
    }
}

/// One unit sent or received over the transport: an opaque data segment and
/// a metadata segment (a serialized composite metadata blob; possibly empty).
#[derive(Debug)]
pub struct Frame {
    pub data: Vec<u8>,
    pub metadata: Vec<u8>,
}

/// The connection-setup frame: carries bearer-auth metadata when a token is
/// supplied and it fits the metadata framing; otherwise it is empty, exactly
/// as when no token is supplied at all.
pub fn setup_frame(token: Option<&Vec<u8>>) -> (r: Frame)
    ensures
        r.data@.len() == 0,
        match token {
            Some(t) => if t@.len() + 1 < 0x1000000 {
                r.metadata@ == auth_metadata(t@)
            } else {
                r.metadata@.len() == 0
            },
            None => r.metadata@.len() == 0,
        },
{
    match token {
        Some(t) => match build_auth_metadata(t.as_slice()) {
            Some(md) => Frame { data: Vec::new(), metadata: md },
            None => Frame { data: Vec::new(), metadata: Vec::new() },
        },
        None => Frame { data: Vec::new(), metadata: Vec::new() },
    }
}

/// The frame carrying a reflection request, routed to the well-known
/// reflection method.
pub fn reflection_request_frame(q: &ReflectionQuery) -> (r: Frame)
    ensures
        r.data@ == request_bytes(*q),
        r.metadata@ == routing_metadata(reflection_route()),
{
    let data = encode_reflection_request(q);
    let route = reflection_route_bytes();
    proof {
        crate::reflection::lemma_reflection_route_fits();
    }
    match build_routing_metadata(route.as_slice()) {
        Some(md) => Frame { data, metadata: md },
        None => vstd::pervasive::unreached(),
    }
}

/// The schema files recovered from a response's blobs: each blob that
/// decodes contributes its file, in order; the others are skipped.
pub open spec fn usable_files(blobs: Seq<Seq<u8>>) -> Seq<FileDescriptorProto>
    decreases blobs.len(),
{
    if blobs.len() == 0 {
        Seq::empty()
    } else {
        let pre = usable_files(blobs.drop_last());
        if file_proto_decodes(blobs.last()) {
            pre.push(decoded_file(blobs.last()))
        } else {
            pre
        }
    }
}

/// Resolve a schema pool out of the single reflection exchange turn.
/// `resp` is the data of the one response frame, or `None` when the stream
/// ended or failed without one. Blobs that do not decode are skipped
/// individually; everything else is fatal, with `NoDescriptor`: no response
/// at all, a malformed response, any other response variant, the total
/// absence of a usable file, or a set of files that does not register.
/// Succeeds exactly when the response carries schema-file blobs of which at
/// least one decodes and the decoded set registers.
pub fn resolve_schema(resp: Option<&Vec<u8>>) -> (r: Result<DescriptorPool, RpcError>)
    ensures
        r matches Err(e) ==> e == RpcError::NoDescriptor,
        r is Ok <==> (resp matches Some(b) && parse_response(b@) matches Some(
            ParsedResponse::Files(blobs),
        ) && usable_files(blobs).len() > 0 && files_register(usable_files(blobs))),
{
    match resp {
        None => Err(RpcError::NoDescriptor),
        Some(b) => match decode_reflection_response(b.as_slice()) {
            Some(ReflectionResponse::FileDescriptors(blobs)) => {
                let ghost bs = views(blobs@);
                let mut files: Vec<FileDescriptorProto> = Vec::new();
                let mut i: usize = 0;
                while i < blobs.len()
                    invariant
                        i <= blobs@.len(),
                        bs == views(blobs@),
                        files@ == usable_files(bs.subrange(0, i as int)),
                    decreases blobs@.len() - i,
                {
                    let ghost pre = bs.subrange(0, i as int);
                    match decode_file_proto(&blobs[i]) {
                        Some(f) => files.push(f),
                        None => (),
                    }
                    i = i + 1;
                    proof {
                        let cur = bs.subrange(0, i as int);
                        assert(cur.drop_last() =~= pre);
                        assert(cur.last() == blobs@[i - 1]@);
                    }
                }
                proof {
                    assert(bs.subrange(0, blobs@.len() as int) =~= bs);
                }
                if files.len() == 0 {
                    return Err(RpcError::NoDescriptor);
                }
                match pool_from_files(files) {
                    Some(pool) => Ok(pool),
                    None => Err(RpcError::NoDescriptor),
                }
            },
            _ => Err(RpcError::NoDescriptor),
        },
    }
}

/// The service names of a list-services exchange turn. A response carrying
/// any other variant, a malformed response, or no response yields no names.
pub fn service_names_from_response(resp: Option<&Vec<u8>>) -> (r: Vec<Vec<u8>>)
    ensures
        match resp {
            None => r@.len() == 0,
            Some(b) => match parse_response(b@) {
                Some(ParsedResponse::Services(names)) => views(r@) == names,
                _ => r@.len() == 0,
            },
        },
{
    match resp {
        None => Vec::new(),
        Some(b) => match decode_reflection_response(b.as_slice()) {
            Some(ReflectionResponse::ServiceNames(names)) => names,
            _ => Vec::new(),
        },
    }
}

/// Everything the dispatch of one call needs, resolved and checked: the
/// selector parts, the method's input and output type names, its response
/// shape, and the effective request body.
#[derive(Debug)]
pub struct InvocationPlan {
    pub service: Vec<u8>,
    pub method: Vec<u8>,
    pub input_type: Vec<u8>,
    pub output_type: Vec<u8>,
    pub server_streaming: bool,
    pub body: Vec<u8>,
}

/// The mathematical record of an invocation plan.
pub struct PlanModel {
    pub service: Seq<u8>,
    pub method: Seq<u8>,
    pub input_type: Seq<u8>,
    pub output_type: Seq<u8>,
    pub server_streaming: bool,
    pub body: Seq<u8>,
}

impl View for InvocationPlan {
    type V = PlanModel;

    open spec fn view(&self) -> PlanModel {
        PlanModel {
            service: self.service@,
            method: self.method@,
            input_type: self.input_type@,
            output_type: self.output_type@,
            server_streaming: self.server_streaming,
            body: self.body@,
        }
    }
}

/// The request body used when the caller supplies none: the empty document.
pub open spec fn default_body() -> Seq<u8> {
    "{}".spec_bytes()
}

/// The body a call is planned with: the supplied one, or the default.
pub open spec fn effective_body(body: Option<Seq<u8>>) -> Seq<u8> {
    match body {
        None => default_body(),
        Some(b) => b,
    }
}

pub open spec fn body_view(b: Option<Vec<u8>>) -> Option<Seq<u8>> {
    match b {
        None => None,
        Some(v) => Some(v@),
    }
}

/// What planning a call returns, as a function of the resolved schema's
/// plain views and the caller's inputs: the service must be known, the
/// method must exist on it (the last matching record wins), and the method
/// must not need a client-streaming request.
pub open spec fn plan_spec(
    services: Seq<Seq<u8>>,
    methods: Seq<MethodRec>,
    service: Seq<u8>,
    method: Seq<u8>,
    body: Option<Seq<u8>>,
) -> Result<PlanModel, RpcError> {
    if !contains_name(services, service) {
        Err(RpcError::ServiceNotFound)
    } else {
        match find_method(methods, service, method) {
            None => Err(RpcError::MethodNotFound),
            Some(k) => {
                let m = methods[k];
                if m.4 {
                    Err(RpcError::UnsupportedStreamingMode)
                } else {
                    Ok(
                        PlanModel {
                            service: service,
                            method: method,
                            input_type: m.2,
                            output_type: m.3,
                            server_streaming: m.5,
                            body: effective_body(body),
                        },
                    )
                }
            },
        }
    }
}

/// Plan one call against the resolved schema. Rejects unknown services and
/// methods and any method that needs a client-streaming request; nothing is
/// encoded or dispatched for a rejected plan. An absent body is planned as
/// the empty document.
pub fn plan_call(
    services: &Vec<Vec<u8>>,
    methods: &Vec<MethodEntry>,
    service: Vec<u8>,
    method: Vec<u8>,
    body: Option<Vec<u8>>,
) -> (r: Result<InvocationPlan, RpcError>)
    ensures
        r matches Ok(p) ==> plan_spec(
            views(services@),
            entry_views(methods@),
            service@,
            method@,
            body_view(body),
        ) == Ok::<PlanModel, RpcError>(p@),
        r matches Err(e) ==> plan_spec(
            views(services@),
            entry_views(methods@),
            service@,
            method@,
            body_view(body),
        ) == Err::<PlanModel, RpcError>(e),
{
    let k = match resolve_method(services, methods, service.as_slice(), method.as_slice()) {
        Ok(k) => k,
        Err(e) => {
            return Err(e);
        },
    };
    proof {
        assert(entry_views(methods@)[k as int] == methods@[k as int]@);
    }
    if methods[k].client_streaming {
        return Err(RpcError::UnsupportedStreamingMode);
    }
    let body_bytes = match body {
        None => "{}".as_bytes_vec(),
        Some(b) => b,
    };
    Ok(
        InvocationPlan {
            service,
            method,
            input_type: clone_bytes(&methods[k].input_type),
            output_type: clone_bytes(&methods[k].output_type),
            server_streaming: methods[k].server_streaming,
            body: body_bytes,
        },
    )
}

/// A body supplied as the empty document plans exactly as an absent body.
pub proof fn lemma_empty_body_default(
    services: Seq<Seq<u8>>,
    methods: Seq<MethodRec>,
    service: Seq<u8>,
    method: Seq<u8>,
)
    ensures
        plan_spec(services, methods, service, method, None) == plan_spec(
            services,
            methods,
            service,
            method,
            Some(default_body()),
        ),
{
}

/// A method that needs a client-streaming request is always rejected as
/// unsupported, whatever its server-streaming flag and body, and planning
/// it never produces anything to encode or dispatch.
pub proof fn lemma_client_streaming_rejected(
    services: Seq<Seq<u8>>,
    methods: Seq<MethodRec>,
    service: Seq<u8>,
    method: Seq<u8>,
    body: Option<Seq<u8>>,
)
    requires
        contains_name(services, service),
        find_method(methods, service, method) matches Some(k) && methods[k].4,
    ensures
        plan_spec(services, methods, service, method, body) == Err::<PlanModel, RpcError>(
            RpcError::UnsupportedStreamingMode,
        ),
{
}

/// Planning reads nothing but the schema's plain views, so one pool always
/// plans one call the same way: the resolved method's type names, response
/// shape, and the whole plan are determined by the pool and the inputs.
pub proof fn lemma_plan_deterministic(
    p: DescriptorPool,
    services1: Seq<Seq<u8>>,
    services2: Seq<Seq<u8>>,
    methods1: Seq<MethodRec>,
    methods2: Seq<MethodRec>,
    service: Seq<u8>,
    method: Seq<u8>,
    body: Option<Seq<u8>>,
)
    requires
        services1 == crate::pool::pool_service_names(p),
        services2 == crate::pool::pool_service_names(p),
        methods1 == crate::pool::pool_methods(p),
        methods2 == crate::pool::pool_methods(p),
    ensures
        plan_spec(services1, methods1, service, method, body) == plan_spec(
            services2,
            methods2,
            service,
            method,
            body,
        ),
{
}

/// The route a planned call is tagged with: `service.method`.
pub open spec fn route_name(p: PlanModel) -> Seq<u8> {
    p.service + seq![DOT] + p.method
}

/// Encode the planned request into a dispatchable frame: the body goes
/// through the descriptor-driven codec against the plan's input type, and
/// the frame is tagged with routing metadata naming `service.method`.
pub fn encode_request_frame(p: &DescriptorPool, plan: &InvocationPlan) -> (r: Result<
    Frame,
    RpcError,
>)
    ensures
        r matches Ok(f) ==> encode_accepts(*p, plan.input_type@, plan.body@) && route_name(
            plan@,
        ).len() <= 255 && f.metadata@ == routing_metadata(route_name(plan@)),
        r matches Err(e) ==> (if !encode_accepts(*p, plan.input_type@, plan.body@) {
            e == RpcError::InvalidRequestPayload
        } else {
            e == RpcError::InvalidSelector && route_name(plan@).len() > 255
        }),
{
    let data = match encode_json_message(p, &plan.input_type, &plan.body) {
        Some(d) => d,
        None => {
            return Err(RpcError::InvalidRequestPayload);
        },
    };
    let mut route = clone_bytes(&plan.service);
    route.push(DOT);
    append_slice(&mut route, plan.method.as_slice());
    proof {
        assert(route@ =~= route_name(plan@));
    }
    match build_routing_metadata(route.as_slice()) {
        Some(md) => Ok(Frame { data, metadata: md }),
        None => Err(RpcError::InvalidSelector),
    }
}

/// Decode the single response of a unary call. No response frame, or a
/// response the codec rejects, yields nothing to display.
pub fn decode_unary_response(p: &DescriptorPool, msg_type: &Vec<u8>, resp: Option<&Vec<u8>>) -> (r:
    Option<Vec<u8>>)
    ensures
        resp is None ==> r is None,
        resp matches Some(b) ==> (r is Some <==> decode_accepts(*p, msg_type@, b@)),
{
    match resp {
        None => None,
        Some(b) => decode_message_json(p, msg_type, b),
    }
}

/// Decode one frame of a streaming response: the JSON text to display, or
/// nothing when this frame is skipped as undecodable.
pub fn decode_stream_item(p: &DescriptorPool, msg_type: &Vec<u8>, frame: &Vec<u8>) -> (r: Option<
    Vec<u8>,
>)
    ensures
        r is Some <==> decode_accepts(*p, msg_type@, frame@),
{
    decode_message_json(p, msg_type, frame)
}

/// One decoded frame of a streaming response: the position of its source
/// frame in arrival order, and its JSON text.
#[derive(Debug)]
pub struct DecodedFrame {
    pub index: usize,
    pub json: Vec<u8>,
}

/// The positions of the frames the codec accepts, in arrival order.
pub open spec fn decodable_indices(
    p: DescriptorPool,
    msg_type: Seq<u8>,
    frames: Seq<Seq<u8>>,
) -> Seq<int>
    decreases frames.len(),
{
    if frames.len() == 0 {
        Seq::empty()
    } else {
        let pre = decodable_indices(p, msg_type, frames.drop_last());
        if decode_accepts(p, msg_type, frames.last()) {
            pre.push(frames.len() - 1)
        } else {
            pre
        }
    }
}

/// Decode a whole received stream: one output per decodable frame, in
/// exactly the frames' arrival order; undecodable frames are skipped and
/// remain observable as gaps in the recorded positions.
pub fn decode_stream(p: &DescriptorPool, msg_type: &Vec<u8>, frames: &Vec<Vec<u8>>) -> (r: Vec<
    DecodedFrame,
>)
    ensures
        r@.map_values(|d: DecodedFrame| d.index as int) == decodable_indices(
            *p,
            msg_type@,
            views(frames@),
        ),
{
    let ghost fs = views(frames@);
    let mut out: Vec<DecodedFrame> = Vec::new();
    let mut i: usize = 0;
    while i < frames.len()
        invariant
            i <= frames@.len(),
            fs == views(frames@),
            out@.map_values(|d: DecodedFrame| d.index as int) == decodable_indices(
                *p,
                msg_type@,
                fs.subrange(0, i as int),
            ),
        decreases frames@.len() - i,
    {
        let ghost pre = fs.subrange(0, i as int);
        let ghost old_map = out@.map_values(|d: DecodedFrame| d.index as int);
        match decode_message_json(p, msg_type, &frames[i]) {
            Some(json) => {
                out.push(DecodedFrame { index: i, json });
                proof {
                    assert(out@.map_values(|d: DecodedFrame| d.index as int) =~= old_map.push(
                        i as int,
                    ));
                }
            },
            None => (),
        }
        i = i + 1;
        proof {
            let cur = fs.subrange(0, i as int);
            assert(cur.drop_last() =~= pre);
            assert(cur.last() == frames@[i - 1]@);
        }
    }
    proof {
        assert(fs.subrange(0, frames@.len() as int) =~= fs);
    }
    out
}

/// Streaming order: the recorded positions are strictly increasing, each
/// points at a frame the codec accepts, and every accepted frame's position
/// is recorded — nothing is reordered, dropped, or invented.
pub proof fn lemma_stream_order(p: DescriptorPool, msg_type: Seq<u8>, frames: Seq<Seq<u8>>)
    ensures
        forall|a: int, b: int|
            0 <= a < b < decodable_indices(p, msg_type, frames).len() ==> decodable_indices(
                p,
                msg_type,
                frames,
            )[a] < decodable_indices(p, msg_type, frames)[b],
        forall|k: int|
            0 <= k < decodable_indices(p, msg_type, frames).len() ==> (0 <= #[trigger]
            decodable_indices(p, msg_type, frames)[k] < frames.len() && decode_accepts(
                p,
                msg_type,
                frames[decodable_indices(p, msg_type, frames)[k]],
            )),
        forall|j: int|
            0 <= j < frames.len() && decode_accepts(p, msg_type, #[trigger] frames[j])
                ==> decodable_indices(p, msg_type, frames).contains(j),
    decreases frames.len(),
{
    if frames.len() > 0 {
        let pre = frames.drop_last();
        let idx = decodable_indices(p, msg_type, frames);
        let pidx = decodable_indices(p, msg_type, pre);
        lemma_stream_order(p, msg_type, pre);
        assert(forall|j: int| 0 <= j < pre.len() ==> pre[j] == frames[j]);
        assert forall|j: int|
            0 <= j < frames.len() && decode_accepts(p, msg_type, #[trigger] frames[j]) implies idx.contains(
            j,
        ) by {
            if j < frames.len() - 1 {
                assert(pidx.contains(j));
                let w = choose|w: int| 0 <= w < pidx.len() && pidx[w] == j;
                assert(idx[w] == j);
            } else {
                assert(idx.last() == j);
            }
        }
    }
}

} // verus!
