//! Schema navigation: the plain view of a resolved schema's methods, API
//! selector parsing, method lookup, and the schema-style textual rendering.
use vstd::prelude::*;
use vstd::string::StringSliceAdditionalSpecFns;

use crate::wire::copy_range;
use crate::wire::append_slice;

verus! {

/// The byte the API selector is split on.
pub const SLASH: u8 = 0x2f;

/// The byte separating name segments in a fully-qualified name.
pub const DOT: u8 = 0x2e;

/// One method of a resolved schema, reduced to the plain values the client
/// consumes: the owning service's full name, the method's short name, the
/// full names of its input and output types, and its two streaming flags.
#[derive(Debug)]
pub struct MethodEntry {
    pub service: Vec<u8>,
    pub method: Vec<u8>,
    pub input_type: Vec<u8>,
    pub output_type: Vec<u8>,
    pub client_streaming: bool,
    pub server_streaming: bool,
}

/// The mathematical record of a method entry: service full name, method
/// name, input type full name, output type full name, client-streaming
/// flag, server-streaming flag.
pub type MethodRec = (Seq<u8>, Seq<u8>, Seq<u8>, Seq<u8>, bool, bool);

impl View for MethodEntry {
    type V = MethodRec;

    open spec fn view(&self) -> MethodRec {
        (
            self.service@,
            self.method@,
            self.input_type@,
            self.output_type@,
            self.client_streaming,
            self.server_streaming,
        )
    }
}

/// The records of a sequence of method entries.
pub open spec fn entry_views(v: Seq<MethodEntry>) -> Seq<MethodRec> {
    Seq::new(v.len(), |k: int| v[k]@)
}

/// Whether `s` contains a selector separator.
pub open spec fn has_slash(s: Seq<u8>) -> bool {
    exists|j: int| 0 <= j < s.len() && s[j] == SLASH
}

/// Split on the first separator: the part before it and the part after it.
/// Without a separator the whole string is the first part and the second is
/// empty.
pub open spec fn split_selector_spec(s: Seq<u8>) -> (Seq<u8>, Seq<u8>)
    decreases s.len(),
{
    if s.len() == 0 {
        (Seq::empty(), Seq::empty())
    } else if s[0] == SLASH {
        (Seq::empty(), s.drop_first())
    } else {
        let rest = split_selector_spec(s.drop_first());
        (seq![s[0]] + rest.0, rest.1)
    }
}

/// The index of the first separator, when `s` has one.
fn find_slash(s: &[u8]) -> (r: Option<usize>)
    ensures
        r matches Some(k) ==> k < s@.len() && s@[k as int] == SLASH && (forall|j: int|
            0 <= j < k ==> s@[j] != SLASH),
        r is None ==> !has_slash(s@),
{
    let mut k: usize = 0;
    while k < s.len()
        invariant
            k <= s@.len(),
            forall|j: int| 0 <= j < k ==> s@[j] != SLASH,
        decreases s@.len() - k,
    {
        if s[k] == SLASH {
            return Some(k);
        }
        k = k + 1;
    }
    None
}

/// A string with no separator splits into itself and an empty part.
proof fn lemma_split_no_slash(s: Seq<u8>)
    requires
        !has_slash(s),
    ensures
        split_selector_spec(s) == (s, Seq::<u8>::empty()),
    decreases s.len(),
{
    if s.len() > 0 {
        assert(s[0] != SLASH);
        assert(!has_slash(s.drop_first())) by {
            assert(forall|j: int|
                0 <= j < s.drop_first().len() ==> s.drop_first()[j] == s[j + 1]);
        }
        lemma_split_no_slash(s.drop_first());
        assert(seq![s[0]] + s.drop_first() =~= s);
    } else {
        assert(split_selector_spec(s).0 =~= s);
        assert(split_selector_spec(s).1 =~= Seq::<u8>::empty());
    }
}

/// A string whose first separator stands at `k` splits around it.
proof fn lemma_split_at_slash(s: Seq<u8>, k: int)
    requires
        0 <= k < s.len(),
        s[k] == SLASH,
        forall|j: int| 0 <= j < k ==> s[j] != SLASH,
    ensures
        split_selector_spec(s) == (s.subrange(0, k), s.subrange(k + 1, s.len() as int)),
    decreases s.len(),
{
    if k == 0 {
        assert(split_selector_spec(s).0 =~= s.subrange(0, 0));
        assert(s.drop_first() =~= s.subrange(1, s.len() as int));
    } else {
        let t = s.drop_first();
        assert(forall|j: int| 0 <= j < k - 1 ==> t[j] != SLASH);
        assert(t[k - 1] == SLASH);
        lemma_split_at_slash(t, k - 1);
        assert(seq![s[0]] + t.subrange(0, k - 1) =~= s.subrange(0, k));
        assert(t.subrange(k, t.len() as int) =~= s.subrange(k + 1, s.len() as int));
    }
}

/// Split an API selector on its first separator. Without one, the whole
/// selector is the service part and the method part is empty.
pub fn split_selector(sel: &[u8]) -> (r: (Vec<u8>, Vec<u8>))
    ensures
        (r.0@, r.1@) == split_selector_spec(sel@),
{
    match find_slash(sel) {
        Some(k) => {
            let n = sel.len();
            let service = copy_range(sel, 0, k);
            let method = copy_range(sel, k + 1, n);
            proof {
                lemma_split_at_slash(sel@, k as int);
            }
            (service, method)
        },
        None => {
            let service = copy_range(sel, 0, sel.len());
            proof {
                lemma_split_no_slash(sel@);
                assert(sel@.subrange(0, sel@.len() as int) =~= sel@);
            }
            (service, Vec::new())
        },
    }
}

/// Split an invocation selector, which must name both a service and a
/// method: selectors without a separator are rejected.
pub fn parse_selector(sel: &[u8]) -> (r: Result<(Vec<u8>, Vec<u8>), crate::invoke::RpcError>)
    ensures
        r matches Ok(t) ==> has_slash(sel@) && (t.0@, t.1@) == split_selector_spec(sel@),
        r matches Err(e) ==> e == crate::invoke::RpcError::InvalidSelector && !has_slash(sel@),
{
    match find_slash(sel) {
        Some(k) => {
            let n = sel.len();
            let service = copy_range(sel, 0, k);
            let method = copy_range(sel, k + 1, n);
            proof {
                lemma_split_at_slash(sel@, k as int);
            }
            Ok((service, method))
        },
        None => Err(crate::invoke::RpcError::InvalidSelector),
    }
}

/// Whether `name` occurs in `names`.
pub open spec fn contains_name(names: Seq<Seq<u8>>, name: Seq<u8>) -> bool {
    exists|j: int| 0 <= j < names.len() && names[j] == name
}

/// Whether a method record belongs to `service` and is named `method`.
pub open spec fn rec_matches(m: MethodRec, service: Seq<u8>, method: Seq<u8>) -> bool {
    m.0 == service && m.1 == method
}

/// The index of the last record matching `service`/`method`, if any: a later
/// definition of the same name shadows an earlier one.
pub open spec fn find_method(methods: Seq<MethodRec>, service: Seq<u8>, method: Seq<u8>) -> Option<
    int,
>
    decreases methods.len(),
{
    if methods.len() == 0 {
        None
    } else if rec_matches(methods.last(), service, method) {
        Some(methods.len() - 1)
    } else {
        find_method(methods.drop_last(), service, method)
    }
}

/// A found index is in range and matches; no index means no record matches.
pub proof fn lemma_find_method_correct(methods: Seq<MethodRec>, service: Seq<u8>, method: Seq<u8>)
    ensures
        find_method(methods, service, method) matches Some(k) ==> 0 <= k < methods.len()
            && rec_matches(methods[k], service, method) && (forall|j: int|
            k < j < methods.len() ==> !rec_matches(#[trigger] methods[j], service, method)),
        find_method(methods, service, method) is None ==> forall|j: int|
            0 <= j < methods.len() ==> !rec_matches(#[trigger] methods[j], service, method),
    decreases methods.len(),
{
    if methods.len() > 0 && !rec_matches(methods.last(), service, method) {
        lemma_find_method_correct(methods.drop_last(), service, method);
        assert(forall|j: int|
            0 <= j < methods.len() - 1 ==> methods.drop_last()[j] == #[trigger] methods[j]);
    }
}

/// Whether `name` equals the byte string `b`.
pub fn bytes_eq(a: &[u8], b: &[u8]) -> (r: bool)
    ensures
        r == (a@ == b@),
{
    if a.len() != b.len() {
        proof {
            assert(a@ != b@);
        }
        return false;
    }
    let mut k: usize = 0;
    while k < a.len()
        invariant
            k <= a@.len(),
            a@.len() == b@.len(),
            forall|j: int| 0 <= j < k ==> a@[j] == b@[j],
        decreases a@.len() - k,
    {
        if a[k] != b[k] {
            return false;
        }
        k = k + 1;
    }
    proof {
        assert(a@ =~= b@);
    }
    true
}

/// Look up `service`/`method` among the resolved entries. The service must
/// be known at all (else `ServiceNotFound`), and a method of that name must
/// exist on it (else `MethodNotFound`); the last matching entry wins.
pub fn resolve_method(
    services: &Vec<Vec<u8>>,
    methods: &Vec<MethodEntry>,
    service: &[u8],
    method: &[u8],
) -> (r: Result<usize, crate::invoke::RpcError>)
    ensures
        r matches Ok(k) ==> contains_name(crate::reflection::views(services@), service@)
            && find_method(entry_views(methods@), service@, method@) == Some(k as int)
            && k < methods@.len(),
        r matches Err(e) ==> (if !contains_name(crate::reflection::views(services@), service@) {
            e == crate::invoke::RpcError::ServiceNotFound
        } else {
            e == crate::invoke::RpcError::MethodNotFound && find_method(
                entry_views(methods@),
                service@,
                method@,
            ) is None
        }),
{
    let mut known: bool = false;
    let mut k: usize = 0;
    while k < services.len()
        invariant
            k <= services@.len(),
            known == exists|j: int|
                0 <= j < k && crate::reflection::views(services@)[j] == service@,
        decreases services@.len() - k,
    {
        proof {
            assert(crate::reflection::views(services@)[k as int] == services@[k as int]@);
        }
        if bytes_eq(services[k].as_slice(), service) {
            known = true;
        }
        k = k + 1;
    }
    if !known {
        return Err(crate::invoke::RpcError::ServiceNotFound);
    }
    let mut found: Option<usize> = None;
    let mut i: usize = 0;
    while i < methods.len()
        invariant
            i <= methods@.len(),
            (match found {
                None => find_method(
                    entry_views(methods@.subrange(0, i as int)),
                    service@,
                    method@,
                ) is None,
                Some(f) => f < i && find_method(
                    entry_views(methods@.subrange(0, i as int)),
                    service@,
                    method@,
                ) == Some(f as int),
            }),
        decreases methods@.len() - i,
    {
        let ghost pre = entry_views(methods@.subrange(0, i as int));
        if bytes_eq(methods[i].service.as_slice(), service) && bytes_eq(
            methods[i].method.as_slice(),
            method,
        ) {
            found = Some(i);
        }
        i = i + 1;
        proof {
            let cur = entry_views(methods@.subrange(0, i as int));
            assert(cur.drop_last() =~= pre);
            assert(cur.last() == methods@[i - 1]@);
        }
    }
    proof {
        assert(methods@.subrange(0, methods@.len() as int) =~= methods@);
    }
    match found {
        Some(f) => Ok(f),
        None => Err(crate::invoke::RpcError::MethodNotFound),
    }
}

/// The `stream ` marker, present when the flag is set.
pub open spec fn stream_prefix(streaming: bool) -> Seq<u8> {
    if streaming {
        "stream ".spec_bytes()
    } else {
        Seq::empty()
    }
}

/// The schema-style signature line of one method.
pub open spec fn rpc_line(m: MethodRec) -> Seq<u8> {
    "  rpc ".spec_bytes() + m.1 + "( ".spec_bytes() + stream_prefix(m.4) + m.2
        + " ) returns ( ".spec_bytes() + stream_prefix(m.5) + m.3 + " );\n".spec_bytes()
}

/// Append the signature line of `m` to `out`.
fn push_rpc_line(out: &mut Vec<u8>, m: &MethodEntry)
    ensures
        final(out)@ == old(out)@ + rpc_line(m@),
{
    append_slice(out, "  rpc ".as_bytes());
    append_slice(out, m.method.as_slice());
    append_slice(out, "( ".as_bytes());
    if m.client_streaming {
        append_slice(out, "stream ".as_bytes());
    }
    append_slice(out, m.input_type.as_slice());
    append_slice(out, " ) returns ( ".as_bytes());
    if m.server_streaming {
        append_slice(out, "stream ".as_bytes());
    }
    append_slice(out, m.output_type.as_slice());
    append_slice(out, " );\n".as_bytes());
    proof {
        assert(out@ =~= old(out)@ + rpc_line(m@));
    }
}

/// The segment of a fully-qualified name after its last dot; the whole name
/// when it has none.
pub open spec fn short_name(s: Seq<u8>) -> Seq<u8>
    decreases s.len(),
{
    if s.len() == 0 {
        Seq::empty()
    } else if s[s.len() - 1] == DOT {
        Seq::empty()
    } else {
        short_name(s.drop_last()) + seq![s[s.len() - 1]]
    }
}

/// With no dot at `k` or beyond, and a dot just before `k` (or nothing at
/// all), the short name is the tail from `k`.
proof fn lemma_short_name_tail(s: Seq<u8>, k: int)
    requires
        0 <= k <= s.len(),
        forall|j: int| k <= j < s.len() ==> s[j] != DOT,
        k > 0 ==> s[k - 1] == DOT,
    ensures
        short_name(s) == s.subrange(k, s.len() as int),
    decreases s.len(),
{
    if k == s.len() {
        assert(short_name(s) =~= s.subrange(k, s.len() as int));
    } else {
        let t = s.drop_last();
        lemma_short_name_tail(t, k);
        assert(t.subrange(k, t.len() as int) + seq![s[s.len() - 1]] =~= s.subrange(
            k,
            s.len() as int,
        ));
    }
}

/// The short (unqualified) segment of a fully-qualified name.
pub fn short_name_bytes(s: &[u8]) -> (r: Vec<u8>)
    ensures
        r@ == short_name(s@),
{
    let mut k: usize = s.len();
    while k > 0 && s[k - 1] != DOT
        invariant
            k <= s@.len(),
            forall|j: int| k <= j < s@.len() ==> s@[j] != DOT,
        decreases k,
    {
        k = k - 1;
    }
    let r = copy_range(s, k, s.len());
    proof {
        lemma_short_name_tail(s@, k as int);
    }
    r
}

/// The heading of a service's rendering.
pub open spec fn service_header(full: Seq<u8>) -> Seq<u8> {
    full + " is a service:\n\n".spec_bytes() + "service ".spec_bytes() + short_name(full)
        + " {\n".spec_bytes()
}

/// The signature lines of the methods belonging to `full`, from index `i`.
pub open spec fn rpc_lines_from(full: Seq<u8>, methods: Seq<MethodRec>, i: int) -> Seq<u8>
    decreases methods.len() - i,
{
    if i < 0 || i >= methods.len() {
        Seq::empty()
    } else {
        (if methods[i].0 == full {
            rpc_line(methods[i])
        } else {
            Seq::empty()
        }) + rpc_lines_from(full, methods, i + 1)
    }
}

/// The whole rendering of one service: heading, method lines, closing brace.
pub open spec fn service_block(full: Seq<u8>, methods: Seq<MethodRec>) -> Seq<u8> {
    service_header(full) + rpc_lines_from(full, methods, 0) + "}\n".spec_bytes()
}

fn render_rpc_lines(full: &Vec<u8>, methods: &Vec<MethodEntry>) -> (r: Vec<u8>)
    ensures
        r@ == rpc_lines_from(full@, entry_views(methods@), 0),
{
    let ghost ms = entry_views(methods@);
    let mut out: Vec<u8> = Vec::new();
    let mut j: usize = 0;
    while j < methods.len()
        invariant
            j <= methods@.len(),
            ms == entry_views(methods@),
            rpc_lines_from(full@, ms, 0) == out@ + rpc_lines_from(full@, ms, j as int),
        decreases methods@.len() - j,
    {
        proof {
            assert(ms[j as int] == methods@[j as int]@);
        }
        let ghost before = out@;
        if bytes_eq(methods[j].service.as_slice(), full.as_slice()) {
            push_rpc_line(&mut out, &methods[j]);
        }
        j = j + 1;
        proof {
            assert(rpc_lines_from(full@, ms, 0) =~= out@ + rpc_lines_from(full@, ms, j as int));
        }
    }
    out
}

/// Render one service as a schema-style block.
pub fn render_service_block(full: &Vec<u8>, methods: &Vec<MethodEntry>) -> (r: Vec<u8>)
    ensures
        r@ == service_block(full@, entry_views(methods@)),
{
    let mut out: Vec<u8> = Vec::new();
    append_slice(&mut out, full.as_slice());
    append_slice(&mut out, " is a service:\n\n".as_bytes());
    append_slice(&mut out, "service ".as_bytes());
    let short = short_name_bytes(full.as_slice());
    append_slice(&mut out, short.as_slice());
    append_slice(&mut out, " {\n".as_bytes());
    let lines = render_rpc_lines(full, methods);
    append_slice(&mut out, lines.as_slice());
    append_slice(&mut out, "}\n".as_bytes());
    proof {
        assert(out@ =~= service_block(full@, entry_views(methods@)));
    }
    out
}

/// The heading and signature of one method rendered on its own.
pub open spec fn method_block(m: MethodRec) -> Seq<u8> {
    m.0 + ".".spec_bytes() + m.1 + " is a method:\n\n".spec_bytes() + rpc_line(m)
}

/// The renderings of the methods of `full` named `mname`, from index `i`.
pub open spec fn method_blocks_from(
    full: Seq<u8>,
    mname: Seq<u8>,
    methods: Seq<MethodRec>,
    i: int,
) -> Seq<u8>
    decreases methods.len() - i,
{
    if i < 0 || i >= methods.len() {
        Seq::empty()
    } else {
        (if methods[i].0 == full && methods[i].1 == mname {
            method_block(methods[i])
        } else {
            Seq::empty()
        }) + method_blocks_from(full, mname, methods, i + 1)
    }
}

fn render_method_blocks(full: &Vec<u8>, mname: &[u8], methods: &Vec<MethodEntry>) -> (r: Vec<u8>)
    ensures
        r@ == method_blocks_from(full@, mname@, entry_views(methods@), 0),
{
    let ghost ms = entry_views(methods@);
    let mut out: Vec<u8> = Vec::new();
    let mut j: usize = 0;
    while j < methods.len()
        invariant
            j <= methods@.len(),
            ms == entry_views(methods@),
            method_blocks_from(full@, mname@, ms, 0) == out@ + method_blocks_from(
                full@,
                mname@,
                ms,
                j as int,
            ),
        decreases methods@.len() - j,
    {
        proof {
            assert(ms[j as int] == methods@[j as int]@);
        }
        if bytes_eq(methods[j].service.as_slice(), full.as_slice()) && bytes_eq(
            methods[j].method.as_slice(),
            mname,
        ) {
            let ghost before = out@;
            append_slice(&mut out, methods[j].service.as_slice());
            append_slice(&mut out, ".".as_bytes());
            append_slice(&mut out, methods[j].method.as_slice());
            append_slice(&mut out, " is a method:\n\n".as_bytes());
            push_rpc_line(&mut out, &methods[j]);
            proof {
                assert(out@ =~= before + method_block(ms[j as int]));
            }
        }
        j = j + 1;
        proof {
            assert(method_blocks_from(full@, mname@, ms, 0) =~= out@ + method_blocks_from(
                full@,
                mname@,
                ms,
                j as int,
            ));
        }
    }
    out
}

/// The full text of a describe rendering: with an empty method name, every
/// service of the schema as a block; otherwise, every method of that name,
/// in every service, rendered on its own.
pub open spec fn describe_text(
    services: Seq<Seq<u8>>,
    methods: Seq<MethodRec>,
    mname: Seq<u8>,
    si: int,
) -> Seq<u8>
    decreases services.len() - si,
{
    if si < 0 || si >= services.len() {
        Seq::empty()
    } else {
        (if mname.len() == 0 {
            service_block(services[si], methods)
        } else {
            method_blocks_from(services[si], mname, methods, 0)
        }) + describe_text(services, methods, mname, si + 1)
    }
}

/// Render the describe output for a resolved schema, narrowed to one method
/// name when `mname` is not empty.
pub fn render_describe(
    services: &Vec<Vec<u8>>,
    methods: &Vec<MethodEntry>,
    mname: &[u8],
) -> (r: Vec<u8>)
    ensures
        r@ == describe_text(
            crate::reflection::views(services@),
            entry_views(methods@),
            mname@,
            0,
        ),
{
    let ghost sv = crate::reflection::views(services@);
    let ghost ms = entry_views(methods@);
    let mut out: Vec<u8> = Vec::new();
    let mut si: usize = 0;
    while si < services.len()
        invariant
            si <= services@.len(),
            sv == crate::reflection::views(services@),
            ms == entry_views(methods@),
            describe_text(sv, ms, mname@, 0) == out@ + describe_text(sv, ms, mname@, si as int),
        decreases services@.len() - si,
    {
        proof {
            assert(sv[si as int] == services@[si as int]@);
        }
        let block = if mname.len() == 0 {
            render_service_block(&services[si], methods)
        } else {
            render_method_blocks(&services[si], mname, methods)
        };
        append_slice(&mut out, block.as_slice());
        si = si + 1;
        proof {
            assert(describe_text(sv, ms, mname@, 0) =~= out@ + describe_text(
                sv,
                ms,
                mname@,
                si as int,
            ));
        }
    }
    out
}

} // verus!
