//! Protobuf wire primitives: base-128 varints, field keys, length-delimited
//! fields, and the 24-bit big-endian length used by composite metadata.
use vstd::prelude::*;

verus! {

/// Base-128 varint encoding of `n`, least significant group first.
pub open spec fn varint(n: nat) -> Seq<u8>
    decreases n,
{
    if n < 0x80 {
        seq![n as u8]
    } else {
        seq![(0x80 + n % 0x80) as u8] + varint(n / 0x80)
    }
}

pub proof fn lemma_varint_len(n: nat)
    ensures
        1 <= varint(n).len(),
        n < 0x80 ==> varint(n).len() == 1,
    decreases n,
{
    if n >= 0x80 {
        lemma_varint_len(n / 0x80);
    }
}

/// Append the varint encoding of `n` to `out`.
pub fn encode_varint(n: u64, out: &mut Vec<u8>)
    ensures
        final(out)@ == old(out)@ + varint(n as nat),
    decreases n,
{
    if n < 0x80 {
        out.push(n as u8);
    } else {
        out.push((0x80 + n % 0x80) as u8);
        encode_varint(n / 0x80, out);
    }
}

/// Result of parsing a varint that starts at offset `i`: the decoded value
/// and the offset just past it. `None` on truncated input or a value that
/// does not fit in 64 bits.
pub open spec fn parse_varint(b: Seq<u8>, i: int) -> Option<(nat, int)>
    decreases b.len() - i,
{
    if i < 0 || i >= b.len() {
        None
    } else if b[i] < 0x80 {
        Some((b[i] as nat, i + 1))
    } else {
        match parse_varint(b, i + 1) {
            None => None,
            Some((v, j)) => {
                let val = ((b[i] - 0x80) as nat + 0x80 * v) as nat;
                if val > u64::MAX as nat {
                    None
                } else {
                    Some((val, j))
                }
            },
        }
    }
}

/// Read a varint from `b` starting at `i`.
pub fn read_varint(b: &[u8], i: usize) -> (r: Option<(u64, usize)>)
    ensures
        r is None <==> parse_varint(b@, i as int) is None,
        r matches Some(p) ==> parse_varint(b@, i as int) == Some((p.0 as nat, p.1 as int)),
    decreases b@.len() - i,
{
    if i >= b.len() {
        None
    } else {
        let c: u8 = b[i];
        if c < 0x80 {
            Some((c as u64, i + 1))
        } else {
            match read_varint(b, i + 1) {
                None => None,
                Some((v, j)) => {
                    let val: u128 = (c - 0x80) as u128 + 0x80u128 * (v as u128);
                    if val > u64::MAX as u128 {
                        None
                    } else {
                        Some((val as u64, j))
                    }
                },
            }
        }
    }
}

/// Parsing an encoded varint embedded in a larger buffer recovers the value
/// and stops exactly past it.
pub proof fn lemma_parse_varint_of_encoding(n: nat, b: Seq<u8>, i: int)
    requires
        n <= u64::MAX as nat,
        0 <= i,
        i + varint(n).len() <= b.len(),
        b.subrange(i, i + varint(n).len()) == varint(n),
    ensures
        parse_varint(b, i) == Some((n, i + varint(n).len())),
    decreases n,
{
    lemma_varint_len(n);
    if n < 0x80 {
        assert(b[i] == varint(n)[0]);
    } else {
        let rest = varint(n / 0x80);
        assert(b[i] == varint(n)[0]);
        assert(b[i] == (0x80 + n % 0x80) as u8);
        assert(b.subrange(i + 1, i + 1 + rest.len()) =~= rest) by {
            assert forall|k: int| 0 <= k < rest.len() implies b.subrange(
                i + 1,
                i + 1 + rest.len(),
            )[k] == rest[k] by {
                assert(b.subrange(i, i + varint(n).len())[k + 1] == varint(n)[k + 1]);
            }
        }
        lemma_parse_varint_of_encoding(n / 0x80, b, i + 1);
        assert((b[i] - 0x80) as nat + 0x80 * (n / 0x80) == n);
    }
}

/// Key (tag byte sequence) of a protobuf field: field number and wire type.
pub open spec fn field_key(field: nat, wire_type: nat) -> Seq<u8> {
    varint(field * 8 + wire_type)
}

/// A length-delimited protobuf field: key, payload length, payload bytes.
pub open spec fn len_delimited(field: nat, payload: Seq<u8>) -> Seq<u8> {
    field_key(field, 2) + varint(payload.len()) + payload
}

/// Append `s` to `out`.
pub fn append_slice(out: &mut Vec<u8>, s: &[u8])
    ensures
        final(out)@ == old(out)@ + s@,
{
    let mut k: usize = 0;
    while k < s.len()
        invariant
            k <= s@.len(),
            out@ == old(out)@ + s@.subrange(0, k as int),
        decreases s@.len() - k,
    {
        out.push(s[k]);
        k = k + 1;
        proof {
            assert(out@ =~= old(out)@ + s@.subrange(0, k as int));
        }
    }
    proof {
        assert(s@.subrange(0, s@.len() as int) =~= s@);
    }
}

/// Copy `b[from..to]` into a fresh vector.
pub fn copy_range(b: &[u8], from: usize, to: usize) -> (r: Vec<u8>)
    requires
        from <= to <= b@.len(),
    ensures
        r@ == b@.subrange(from as int, to as int),
{
    let mut out: Vec<u8> = Vec::new();
    let mut k: usize = from;
    while k < to
        invariant
            from <= k <= to <= b@.len(),
            out@ == b@.subrange(from as int, k as int),
        decreases to - k,
    {
        out.push(b[k]);
        k = k + 1;
        proof {
            assert(out@ =~= b@.subrange(from as int, k as int));
        }
    }
    out
}

/// Copy a byte vector.
pub fn clone_bytes(v: &Vec<u8>) -> (r: Vec<u8>)
    ensures
        r@ == v@,
{
    let r = copy_range(v.as_slice(), 0, v.len());
    proof {
        assert(v@.subrange(0, v@.len() as int) =~= v@);
    }
    r
}

/// Append the length-delimited field `field` with the given payload.
pub fn encode_len_delimited(field: u32, payload: &[u8], out: &mut Vec<u8>)
    ensures
        final(out)@ == old(out)@ + len_delimited(field as nat, payload@),
{
    encode_varint((field as u64) * 8 + 2, out);
    encode_varint(payload.len() as u64, out);
    append_slice(out, payload);
}

/// 24-bit big-endian encoding of `n`.
pub open spec fn u24_be(n: nat) -> Seq<u8> {
    seq![(n / 0x10000 % 0x100) as u8, (n / 0x100 % 0x100) as u8, (n % 0x100) as u8]
}

/// Append the 24-bit big-endian encoding of `n` to `out`.
pub fn encode_u24_be(n: u32, out: &mut Vec<u8>)
    requires
        n < 0x1000000,
    ensures
        final(out)@ == old(out)@ + u24_be(n as nat),
{
    out.push((n / 0x10000 % 0x100) as u8);
    out.push((n / 0x100 % 0x100) as u8);
    out.push((n % 0x100) as u8);
    proof {
        assert(out@ =~= old(out)@ + u24_be(n as nat));
    }
}

} // verus!
