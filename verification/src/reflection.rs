//! Wire codec for the reflection exchange.
//!
//! A reflection request carries a host string and one query variant; the
//! server answers with a response message holding one of several payload
//! variants. Only two response variants matter here: the list of service
//! names, and the set of raw schema-file byte blobs. Everything else is
//! reported as unrecognized, which callers treat as "no usable schema".
use vstd::prelude::*;
use vstd::string::StrSliceExecFns;
use vstd::string::StringSliceAdditionalSpecFns;

use crate::wire::copy_range;
use crate::wire::encode_len_delimited;
use crate::wire::len_delimited;
use crate::wire::parse_varint;
use crate::wire::read_varint;

verus! {

/// The two reflection queries issued by this client.
pub enum ReflectionQuery {
    /// Ask for the names of all services the server exposes.
    ListServices,
    /// Ask for the schema files defining the named symbol.
    FileByName(Vec<u8>),
}

/// Field numbers of the reflection request message: the host string, the
/// file-by-name query, and the list-services query.
pub const REQ_HOST_FIELD: u32 = 1;

pub const REQ_FILE_BY_NAME_FIELD: u32 = 3;

pub const REQ_LIST_SERVICES_FIELD: u32 = 7;

/// The host value sent with every request; the server ignores it.
pub open spec fn host_bytes() -> Seq<u8> {
    "ignore".spec_bytes()
}

/// The encoded reflection request for query `q`.
pub open spec fn request_bytes(q: ReflectionQuery) -> Seq<u8> {
    match q {
        ReflectionQuery::ListServices => len_delimited(REQ_HOST_FIELD as nat, host_bytes())
            + len_delimited(REQ_LIST_SERVICES_FIELD as nat, host_bytes()),
        ReflectionQuery::FileByName(name) => len_delimited(REQ_HOST_FIELD as nat, host_bytes())
            + len_delimited(REQ_FILE_BY_NAME_FIELD as nat, name@),
    }
}

/// Serialize the reflection request for `q`.
pub fn encode_reflection_request(q: &ReflectionQuery) -> (r: Vec<u8>)
    ensures
        r@ == request_bytes(*q),
{
    let mut out: Vec<u8> = Vec::new();
    encode_len_delimited(REQ_HOST_FIELD, "ignore".as_bytes(), &mut out);
    match q {
        ReflectionQuery::ListServices => {
            encode_len_delimited(REQ_LIST_SERVICES_FIELD, "ignore".as_bytes(), &mut out);
        },
        ReflectionQuery::FileByName(name) => {
            encode_len_delimited(REQ_FILE_BY_NAME_FIELD, name.as_slice(), &mut out);
        },
    }
    out
}

/// The full method name the reflection exchange is routed to.
pub open spec fn reflection_route() -> Seq<u8> {
    "grpc.reflection.v1.ServerReflection.ServerReflectionInfo".spec_bytes()
}

/// The route name of the reflection method, as bytes.
pub fn reflection_route_bytes() -> (r: Vec<u8>)
    ensures
        r@ == reflection_route(),
{
    "grpc.reflection.v1.ServerReflection.ServerReflectionInfo".as_bytes_vec()
}

/// The reflection route is ASCII and fits a routing tag's length byte.
pub proof fn lemma_reflection_route_fits()
    ensures
        reflection_route().len() <= 255,
{
    reveal_strlit("grpc.reflection.v1.ServerReflection.ServerReflectionInfo");
    let chars = "grpc.reflection.v1.ServerReflection.ServerReflectionInfo"@;
    assert(vstd::utf8::is_ascii_chars(chars));
    vstd::utf8::is_ascii_chars_encode_utf8(chars);
}

/// A decoded reflection response, reduced to what the client consumes.
pub enum ReflectionResponse {
    /// The response carried raw schema-file blobs (one per schema file).
    FileDescriptors(Vec<Vec<u8>>),
    /// The response carried a list of fully-qualified service names.
    ServiceNames(Vec<Vec<u8>>),
    /// The response carried some other (well-formed) variant.
    Unrecognized,
}

/// Spec-level mirror of [`ReflectionResponse`].
pub enum ParsedResponse {
    Files(Seq<Seq<u8>>),
    Services(Seq<Seq<u8>>),
    Other,
}

/// The views of a sequence of byte vectors.
pub open spec fn views(v: Seq<Vec<u8>>) -> Seq<Seq<u8>> {
    Seq::new(v.len(), |k: int| v[k]@)
}

/// The model a concrete response stands for.
pub open spec fn response_model(r: ReflectionResponse) -> ParsedResponse {
    match r {
        ReflectionResponse::FileDescriptors(v) => ParsedResponse::Files(views(v@)),
        ReflectionResponse::ServiceNames(v) => ParsedResponse::Services(views(v@)),
        ReflectionResponse::Unrecognized => ParsedResponse::Other,
    }
}

/// One protobuf field of a message in `b` starting at offset `i`: its field
/// number, wire type, payload (for length-delimited fields), and the offset
/// just past it. `None` on malformed input.
pub open spec fn parse_field(b: Seq<u8>, i: int) -> Option<(nat, nat, Seq<u8>, int)> {
    match parse_field_unchecked(b, i) {
        None => None,
        Some(t) => if i < t.3 <= b.len() {
            Some(t)
        } else {
            None
        },
    }
}

pub open spec fn parse_field_unchecked(b: Seq<u8>, i: int) -> Option<(nat, nat, Seq<u8>, int)> {
    match parse_varint(b, i) {
        None => None,
        Some((key, j)) => {
            let field = key / 8;
            let wt = key % 8;
            if wt == 2 {
                match parse_varint(b, j) {
                    None => None,
                    Some((len, k)) => if k + len > b.len() {
                        None
                    } else {
                        Some((field, wt, b.subrange(k, k + len), k + len))
                    },
                }
            } else if wt == 0 {
                match parse_varint(b, j) {
                    None => None,
                    Some((v, k)) => Some((field, wt, Seq::empty(), k)),
                }
            } else if wt == 1 {
                if j + 8 <= b.len() {
                    Some((field, wt, Seq::empty(), j + 8))
                } else {
                    None
                }
            } else if wt == 5 {
                if j + 4 <= b.len() {
                    Some((field, wt, Seq::empty(), j + 4))
                } else {
                    None
                }
            } else {
                None
            }
        },
    }
}

/// A successfully parsed varint ends past where it started, within bounds.
pub proof fn lemma_parse_varint_advances(b: Seq<u8>, i: int)
    ensures
        parse_varint(b, i) matches Some(p) ==> i < p.1 <= b.len(),
    decreases b.len() - i,
{
    if 0 <= i < b.len() && b[i] >= 0x80 {
        lemma_parse_varint_advances(b, i + 1);
    }
}

/// Read one protobuf field of the message in `b` starting at `i`.
pub fn read_field(b: &[u8], i: usize) -> (r: Option<(u64, u8, Vec<u8>, usize)>)
    ensures
        r is None <==> parse_field(b@, i as int) is None,
        r matches Some(t) ==> parse_field(b@, i as int) == Some(
            (t.0 as nat, t.1 as nat, t.2@, t.3 as int),
        ),
{
    proof {
        lemma_parse_varint_advances(b@, i as int);
    }
    match read_varint(b, i) {
        None => None,
        Some((key, j)) => {
            proof {
                lemma_parse_varint_advances(b@, j as int);
            }
            let field: u64 = key / 8;
            let wt: u64 = key % 8;
            if wt == 2 {
                match read_varint(b, j) {
                    None => None,
                    Some((len, k)) => {
                        if len > (b.len() - k) as u64 {
                            None
                        } else {
                            let next: usize = k + (len as usize);
                            let payload = copy_range(b, k, next);
                            Some((field, wt as u8, payload, next))
                        }
                    },
                }
            } else if wt == 0 {
                match read_varint(b, j) {
                    None => None,
                    Some((v, k)) => Some((field, wt as u8, Vec::new(), k)),
                }
            } else if wt == 1 {
                if b.len() - j >= 8 {
                    Some((field, wt as u8, Vec::new(), j + 8))
                } else {
                    None
                }
            } else if wt == 5 {
                if b.len() - j >= 4 {
                    Some((field, wt as u8, Vec::new(), j + 4))
                } else {
                    None
                }
            } else {
                None
            }
        },
    }
}

/// Accumulating parse of a file-descriptor response body: collects every
/// occurrence of the repeated schema-file blob field (field 1), skips
/// unknown fields, and fails on malformed input or a wrong wire type.
pub open spec fn parse_files_at(b: Seq<u8>, i: int, acc: Seq<Seq<u8>>) -> Option<Seq<Seq<u8>>>
    decreases b.len() - i,
{
    if !(0 <= i <= b.len()) {
        None
    } else if i == b.len() {
        Some(acc)
    } else {
        match parse_field(b, i) {
            None => None,
            Some((field, wt, payload, next)) => {
                if field == 1 {
                    if wt == 2 {
                        parse_files_at(b, next, acc.push(payload))
                    } else {
                        None
                    }
                } else {
                    parse_files_at(b, next, acc)
                }
            },
        }
    }
}

/// Spec-level result a concrete blob-list parse must match.
pub open spec fn files_match(r: Option<Vec<Vec<u8>>>, s: Option<Seq<Seq<u8>>>) -> bool {
    match r {
        None => s is None,
        Some(v) => s == Some(views(v@)),
    }
}

fn take_files(b: &[u8], i: usize, acc: Vec<Vec<u8>>) -> (r: Option<Vec<Vec<u8>>>)
    requires
        i <= b@.len(),
    ensures
        files_match(r, parse_files_at(b@, i as int, views(acc@))),
    decreases b@.len() - i,
{
    if i == b.len() {
        return Some(acc);
    }
    match read_field(b, i) {
        None => None,
        Some((field, wt, payload, next)) => {
            if field == 1 {
                if wt == 2 {
                    let mut acc2 = acc;
                    let ghost old_views = views(acc2@);
                    acc2.push(payload);
                    proof {
                        assert(views(acc2@) =~= old_views.push(payload@));
                    }
                    take_files(b, next, acc2)
                } else {
                    None
                }
            } else {
                take_files(b, next, acc)
            }
        },
    }
}

/// Accumulating parse of a single service entry of a list-services response:
/// the name field (field 1) wins last, unknown fields are skipped.
pub open spec fn parse_service_name_at(b: Seq<u8>, i: int, name: Seq<u8>) -> Option<Seq<u8>>
    decreases b.len() - i,
{
    if !(0 <= i <= b.len()) {
        None
    } else if i == b.len() {
        Some(name)
    } else {
        match parse_field(b, i) {
            None => None,
            Some((field, wt, payload, next)) => {
                if field == 1 {
                    if wt == 2 {
                        parse_service_name_at(b, next, payload)
                    } else {
                        None
                    }
                } else {
                    parse_service_name_at(b, next, name)
                }
            },
        }
    }
}

pub open spec fn name_match(r: Option<Vec<u8>>, s: Option<Seq<u8>>) -> bool {
    match r {
        None => s is None,
        Some(v) => s == Some(v@),
    }
}

fn take_service_name(b: &[u8], i: usize, name: Vec<u8>) -> (r: Option<Vec<u8>>)
    requires
        i <= b@.len(),
    ensures
        name_match(r, parse_service_name_at(b@, i as int, name@)),
    decreases b@.len() - i,
{
    if i == b.len() {
        return Some(name);
    }
    match read_field(b, i) {
        None => None,
        Some((field, wt, payload, next)) => {
            if field == 1 {
                if wt == 2 {
                    take_service_name(b, next, payload)
                } else {
                    None
                }
            } else {
                take_service_name(b, next, name)
            }
        },
    }
}

/// Accumulating parse of a list-services response body: collects the name of
/// every service entry (field 1), skipping unknown fields.
pub open spec fn parse_services_at(b: Seq<u8>, i: int, acc: Seq<Seq<u8>>) -> Option<Seq<Seq<u8>>>
    decreases b.len() - i,
{
    if !(0 <= i <= b.len()) {
        None
    } else if i == b.len() {
        Some(acc)
    } else {
        match parse_field(b, i) {
            None => None,
            Some((field, wt, payload, next)) => {
                if field == 1 {
                    if wt == 2 {
                        match parse_service_name_at(payload, 0, Seq::empty()) {
                            None => None,
                            Some(name) => parse_services_at(b, next, acc.push(name)),
                        }
                    } else {
                        None
                    }
                } else {
                    parse_services_at(b, next, acc)
                }
            },
        }
    }
}

fn take_services(b: &[u8], i: usize, acc: Vec<Vec<u8>>) -> (r: Option<Vec<Vec<u8>>>)
    requires
        i <= b@.len(),
    ensures
        files_match(r, parse_services_at(b@, i as int, views(acc@))),
    decreases b@.len() - i,
{
    if i == b.len() {
        return Some(acc);
    }
    match read_field(b, i) {
        None => None,
        Some((field, wt, payload, next)) => {
            if field == 1 {
                if wt == 2 {
                    match take_service_name(payload.as_slice(), 0, Vec::new()) {
                        None => None,
                        Some(name) => {
                            let mut acc2 = acc;
                            let ghost old_views = views(acc2@);
                            acc2.push(name);
                            proof {
                                assert(views(acc2@) =~= old_views.push(
                                    acc2@[acc2@.len() - 1]@,
                                ));
                            }
                            take_services(b, next, acc2)
                        },
                    }
                } else {
                    None
                }
            } else {
                take_services(b, next, acc)
            }
        },
    }
}

/// Field numbers of the reflection response's payload variants.
pub const RESP_FILES_FIELD: u64 = 4;

pub const RESP_EXTENSIONS_FIELD: u64 = 5;

pub const RESP_SERVICES_FIELD: u64 = 6;

pub const RESP_ERROR_FIELD: u64 = 7;

/// Parse of the reflection response from offset `i` with `cur` the variant
/// seen so far. A later occurrence of a variant field replaces an earlier,
/// different variant; a repeated occurrence of the same variant merges into
/// it. Unknown fields are skipped; malformed input fails the whole parse.
pub open spec fn parse_response_at(b: Seq<u8>, i: int, cur: ParsedResponse) -> Option<
    ParsedResponse,
>
    decreases b.len() - i,
{
    if !(0 <= i <= b.len()) {
        None
    } else if i == b.len() {
        Some(cur)
    } else {
        match parse_field(b, i) {
            None => None,
            Some((field, wt, payload, next)) => {
                if field == RESP_FILES_FIELD {
                    if wt != 2 {
                        None
                    } else {
                        let start = match cur {
                            ParsedResponse::Files(v) => v,
                            _ => Seq::empty(),
                        };
                        match parse_files_at(payload, 0, start) {
                            None => None,
                            Some(v) => parse_response_at(b, next, ParsedResponse::Files(v)),
                        }
                    }
                } else if field == RESP_SERVICES_FIELD {
                    if wt != 2 {
                        None
                    } else {
                        let start = match cur {
                            ParsedResponse::Services(v) => v,
                            _ => Seq::empty(),
                        };
                        match parse_services_at(payload, 0, start) {
                            None => None,
                            Some(v) => parse_response_at(b, next, ParsedResponse::Services(v)),
                        }
                    }
                } else if field == RESP_EXTENSIONS_FIELD || field == RESP_ERROR_FIELD {
                    if wt != 2 {
                        None
                    } else {
                        parse_response_at(b, next, ParsedResponse::Other)
                    }
                } else if field == 1 || field == 2 {
                    if wt != 2 {
                        None
                    } else {
                        parse_response_at(b, next, cur)
                    }
                } else {
                    parse_response_at(b, next, cur)
                }
            },
        }
    }
}

/// The parse of a whole reflection response. Before any variant field is
/// seen the response counts as carrying no recognized variant.
pub open spec fn parse_response(b: Seq<u8>) -> Option<ParsedResponse> {
    parse_response_at(b, 0, ParsedResponse::Other)
}

pub open spec fn response_matches(r: Option<ReflectionResponse>, s: Option<ParsedResponse>) -> bool {
    match r {
        None => s is None,
        Some(x) => s == Some(response_model(x)),
    }
}

fn run_response(b: &[u8], i: usize, cur: ReflectionResponse) -> (r: Option<ReflectionResponse>)
    requires
        i <= b@.len(),
    ensures
        response_matches(r, parse_response_at(b@, i as int, response_model(cur))),
    decreases b@.len() - i,
{
    if i == b.len() {
        return Some(cur);
    }
    match read_field(b, i) {
        None => None,
        Some((field, wt, payload, next)) => {
            if field == RESP_FILES_FIELD {
                if wt != 2 {
                    None
                } else {
                    let start: Vec<Vec<u8>> = match cur {
                        ReflectionResponse::FileDescriptors(v) => v,
                        _ => Vec::new(),
                    };
                    proof {
                        if start@.len() == 0 {
                            assert(views(start@) =~= Seq::<Seq<u8>>::empty());
                        }
                    }
                    match take_files(payload.as_slice(), 0, start) {
                        None => None,
                        Some(v) => run_response(b, next, ReflectionResponse::FileDescriptors(v)),
                    }
                }
            } else if field == RESP_SERVICES_FIELD {
                if wt != 2 {
                    None
                } else {
                    let start: Vec<Vec<u8>> = match cur {
                        ReflectionResponse::ServiceNames(v) => v,
                        _ => Vec::new(),
                    };
                    proof {
                        if start@.len() == 0 {
                            assert(views(start@) =~= Seq::<Seq<u8>>::empty());
                        }
                    }
                    match take_services(payload.as_slice(), 0, start) {
                        None => None,
                        Some(v) => run_response(b, next, ReflectionResponse::ServiceNames(v)),
                    }
                }
            } else if field == RESP_EXTENSIONS_FIELD || field == RESP_ERROR_FIELD {
                if wt != 2 {
                    None
                } else {
                    run_response(b, next, ReflectionResponse::Unrecognized)
                }
            } else if field == 1 || field == 2 {
                if wt != 2 {
                    None
                } else {
                    run_response(b, next, cur)
                }
            } else {
                run_response(b, next, cur)
            }
        },
    }
}

/// Decode a reflection response.
pub fn decode_reflection_response(b: &[u8]) -> (r: Option<ReflectionResponse>)
    ensures
        response_matches(r, parse_response(b@)),
{
    run_response(b, 0, ReflectionResponse::Unrecognized)
}


/// Splitting a suffix equality around a concatenation.
proof fn lemma_suffix_split(b: Seq<u8>, i: int, x: Seq<u8>, y: Seq<u8>)
    requires
        0 <= i <= b.len(),
        b.subrange(i, b.len() as int) == x + y,
    ensures
        i + x.len() + y.len() == b.len(),
        b.subrange(i, i + x.len()) == x,
        b.subrange(i + x.len(), b.len() as int) == y,
{
    assert(b.subrange(i, b.len() as int).len() == b.len() - i);
    assert(b.subrange(i, b.len() as int).len() == (x + y).len());
    assert((x + y).len() == x.len() + y.len());
    assert(i + x.len() + y.len() == b.len());
    assert forall|k: int| 0 <= k < x.len() implies b.subrange(i, i + x.len())[k] == x[k] by {
        assert(b.subrange(i, b.len() as int)[k] == (x + y)[k]);
        assert((x + y)[k] == x[k]);
        assert(b.subrange(i, b.len() as int)[k] == b[i + k]);
        assert(b.subrange(i, i + x.len())[k] == b[i + k]);
    }
    assert(b.subrange(i, i + x.len()) =~= x);
    assert forall|k: int|
        0 <= k < y.len() implies b.subrange(i + x.len(), b.len() as int)[k] == y[k] by {
        assert(b.subrange(i, b.len() as int)[x.len() + k] == (x + y)[x.len() + k]);
        assert((x + y)[x.len() + k] == y[k]);
        assert(b.subrange(i, b.len() as int)[x.len() + k] == b[i + x.len() + k]);
        assert(b.subrange(i + x.len(), b.len() as int)[k] == b[i + x.len() + k]);
    }
    assert(b.subrange(i + x.len(), b.len() as int) =~= y);
}

/// A length-delimited field standing at the head of the suffix of `b` at
/// `i` parses as exactly that field.
pub proof fn lemma_parse_field_of_encoding(field: nat, payload: Seq<u8>, b: Seq<u8>, i: int)
    requires
        field * 8 + 2 <= u64::MAX as nat,
        payload.len() <= u64::MAX as nat,
        0 <= i <= b.len(),
        b.subrange(i, b.len() as int) == len_delimited(field, payload) + b.subrange(
            i + len_delimited(field, payload).len(),
            b.len() as int,
        ),
        i + len_delimited(field, payload).len() <= b.len(),
    ensures
        parse_field(b, i) == Some(
            (field, 2nat, payload, i + len_delimited(field, payload).len()),
        ),
{
    let key = crate::wire::varint(field * 8 + 2);
    let vlen = crate::wire::varint(payload.len());
    let enc = len_delimited(field, payload);
    let rest = b.subrange(i + enc.len(), b.len() as int);
    assert(enc == key + vlen + payload);
    assert(key + vlen + payload + rest =~= key + (vlen + (payload + rest)));
    lemma_suffix_split(b, i, key, vlen + (payload + rest));
    crate::wire::lemma_parse_varint_of_encoding(field * 8 + 2, b, i);
    let j = i + key.len();
    lemma_suffix_split(b, j, vlen, payload + rest);
    crate::wire::lemma_parse_varint_of_encoding(payload.len(), b, j);
    let k = j + vlen.len();
    lemma_suffix_split(b, k, payload, rest);
    assert((field * 8 + 2) / 8 == field);
    assert((field * 8 + 2) % 8 == 2);
    assert(b.subrange(k, k + payload.len()) == payload);
    assert(k + payload.len() == i + enc.len());
}

/// The payload of a schema-file response: one length-delimited blob field
/// per schema file, in order.
pub open spec fn files_payload(blobs: Seq<Seq<u8>>) -> Seq<u8>
    decreases blobs.len(),
{
    if blobs.len() == 0 {
        Seq::empty()
    } else {
        len_delimited(1, blobs[0]) + files_payload(blobs.drop_first())
    }
}

/// The encoding of a whole reflection response carrying schema-file blobs.
pub open spec fn files_response_bytes(blobs: Seq<Seq<u8>>) -> Seq<u8> {
    len_delimited(RESP_FILES_FIELD as nat, files_payload(blobs))
}

proof fn lemma_parse_files_of_payload(b: Seq<u8>, i: int, blobs: Seq<Seq<u8>>, acc: Seq<Seq<u8>>)
    requires
        0 <= i <= b.len(),
        b.subrange(i, b.len() as int) == files_payload(blobs),
        forall|k: int| 0 <= k < blobs.len() ==> #[trigger] blobs[k].len() <= u64::MAX as nat,
    ensures
        parse_files_at(b, i, acc) == Some(acc + blobs),
    decreases blobs.len(),
{
    if blobs.len() == 0 {
        assert(i == b.len());
        assert(acc + blobs =~= acc);
    } else {
        let head = len_delimited(1, blobs[0]);
        let tail = blobs.drop_first();
        lemma_suffix_split(b, i, head, files_payload(tail));
        lemma_parse_field_of_encoding(1, blobs[0], b, i);
        let next = i + head.len();
        assert(forall|k: int|
            0 <= k < tail.len() ==> #[trigger] tail[k].len() <= u64::MAX as nat);
        lemma_parse_files_of_payload(b, next, tail, acc.push(blobs[0]));
        assert(acc.push(blobs[0]) + tail =~= acc + blobs);
    }
}

/// A well-formed schema-file response decodes to exactly its blobs, in
/// order: the decoder loses, reorders, and invents nothing.
pub proof fn lemma_parse_response_of_files(blobs: Seq<Seq<u8>>)
    requires
        files_payload(blobs).len() <= u64::MAX as nat,
        forall|k: int| 0 <= k < blobs.len() ==> #[trigger] blobs[k].len() <= u64::MAX as nat,
    ensures
        parse_response(files_response_bytes(blobs)) == Some(ParsedResponse::Files(blobs)),
{
    let b = files_response_bytes(blobs);
    assert(b.subrange(0, b.len() as int) =~= b);
    assert(b.subrange(b.len() as int, b.len() as int) =~= Seq::<u8>::empty());
    assert(b =~= len_delimited(RESP_FILES_FIELD as nat, files_payload(blobs)) + b.subrange(
        b.len() as int,
        b.len() as int,
    ));
    lemma_parse_field_of_encoding(RESP_FILES_FIELD as nat, files_payload(blobs), b, 0);
    let payload = files_payload(blobs);
    assert(parse_field(b, 0) == Some(
        (RESP_FILES_FIELD as nat, 2nat, payload, b.len() as int),
    ));
    assert(payload.subrange(0, payload.len() as int) =~= payload);
    lemma_parse_files_of_payload(payload, 0, blobs, Seq::empty());
    assert(Seq::<Seq<u8>>::empty() + blobs =~= blobs);
    assert(parse_files_at(payload, 0, Seq::empty()) == Some(blobs));
    assert(parse_response_at(b, b.len() as int, ParsedResponse::Files(blobs)) == Some(
        ParsedResponse::Files(blobs),
    ));
    assert(parse_response_at(b, 0, ParsedResponse::Other) == Some(ParsedResponse::Files(blobs)));
}

/// The encoding of one service entry of a list-services response: a single
/// name field wrapped in the repeated entry field.
pub open spec fn service_entry_bytes(name: Seq<u8>) -> Seq<u8> {
    len_delimited(1, name)
}

/// The payload of a list-services response: one entry per service name.
pub open spec fn services_payload(names: Seq<Seq<u8>>) -> Seq<u8>
    decreases names.len(),
{
    if names.len() == 0 {
        Seq::empty()
    } else {
        len_delimited(1, service_entry_bytes(names[0])) + services_payload(names.drop_first())
    }
}

/// The encoding of a whole reflection response carrying a service list.
pub open spec fn services_response_bytes(names: Seq<Seq<u8>>) -> Seq<u8> {
    len_delimited(RESP_SERVICES_FIELD as nat, services_payload(names))
}

proof fn lemma_parse_service_entry(name: Seq<u8>)
    requires
        name.len() <= u64::MAX as nat,
    ensures
        parse_service_name_at(service_entry_bytes(name), 0, Seq::empty()) == Some(name),
{
    let b = service_entry_bytes(name);
    assert(b.subrange(0, b.len() as int) =~= b);
    assert(b.subrange(b.len() as int, b.len() as int) =~= Seq::<u8>::empty());
    assert(b =~= len_delimited(1, name) + b.subrange(b.len() as int, b.len() as int));
    lemma_parse_field_of_encoding(1, name, b, 0);
    assert(parse_service_name_at(b, b.len() as int, name) == Some(name));
}

proof fn lemma_parse_services_of_payload(
    b: Seq<u8>,
    i: int,
    names: Seq<Seq<u8>>,
    acc: Seq<Seq<u8>>,
)
    requires
        0 <= i <= b.len(),
        b.len() <= u64::MAX as nat,
        b.subrange(i, b.len() as int) == services_payload(names),
        forall|k: int| 0 <= k < names.len() ==> #[trigger] names[k].len() <= u64::MAX as nat,
    ensures
        parse_services_at(b, i, acc) == Some(acc + names),
    decreases names.len(),
{
    if names.len() == 0 {
        assert(i == b.len());
        assert(acc + names =~= acc);
    } else {
        let entry = service_entry_bytes(names[0]);
        let head = len_delimited(1, entry);
        let tail = names.drop_first();
        lemma_suffix_split(b, i, head, services_payload(tail));
        assert(entry.len() <= u64::MAX as nat) by {
            crate::wire::lemma_varint_len(1 * 8 + 2);
            crate::wire::lemma_varint_len(entry.len());
            assert(head.len() == crate::wire::varint(1 * 8 + 2).len() + crate::wire::varint(
                entry.len(),
            ).len() + entry.len());
            assert(head.len() <= b.len());
        }
        lemma_parse_field_of_encoding(1, entry, b, i);
        lemma_parse_service_entry(names[0]);
        let next = i + head.len();
        assert(forall|k: int|
            0 <= k < tail.len() ==> #[trigger] tail[k].len() <= u64::MAX as nat);
        lemma_parse_services_of_payload(b, next, tail, acc.push(names[0]));
        assert(acc.push(names[0]) + tail =~= acc + names);
    }
}

/// A well-formed list-services response decodes to exactly its names, in
/// order.
pub proof fn lemma_parse_response_of_services(names: Seq<Seq<u8>>)
    requires
        services_payload(names).len() <= u64::MAX as nat,
        forall|k: int| 0 <= k < names.len() ==> #[trigger] names[k].len() <= u64::MAX as nat,
    ensures
        parse_response(services_response_bytes(names)) == Some(ParsedResponse::Services(names)),
{
    let b = services_response_bytes(names);
    assert(b.subrange(0, b.len() as int) =~= b);
    assert(b.subrange(b.len() as int, b.len() as int) =~= Seq::<u8>::empty());
    assert(b =~= len_delimited(RESP_SERVICES_FIELD as nat, services_payload(names)) + b.subrange(
        b.len() as int,
        b.len() as int,
    ));
    lemma_parse_field_of_encoding(RESP_SERVICES_FIELD as nat, services_payload(names), b, 0);
    let payload = services_payload(names);
    assert(parse_field(b, 0) == Some(
        (RESP_SERVICES_FIELD as nat, 2nat, payload, b.len() as int),
    ));
    assert(payload.subrange(0, payload.len() as int) =~= payload);
    lemma_parse_services_of_payload(payload, 0, names, Seq::empty());
    assert(Seq::<Seq<u8>>::empty() + names =~= names);
    assert(parse_services_at(payload, 0, Seq::empty()) == Some(names));
    assert(parse_response_at(b, b.len() as int, ParsedResponse::Services(names)) == Some(
        ParsedResponse::Services(names),
    ));
    assert(parse_response_at(b, 0, ParsedResponse::Other) == Some(
        ParsedResponse::Services(names),
    ));
}
} // verus!
