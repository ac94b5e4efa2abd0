//! The wire contract of a request: a sequence of tagged, length-delimited
//! fields. Field 1 is the request id, field 2 the agent id, field 3 the
//! payload, field 4 one metadata entry (itself a message: field 1 the key,
//! field 2 the value). An empty field is left out; fields of other numbers
//! are skipped on reading.

use crate::request::{upsert, InternalRequest, MetadataEntry, RequestView};
use crate::roundtrip::lemma_decode_encode;
use crate::varint::{lemma_parse_varint_bounds, parse_varint, put_varint, read_varint, varint};
use vstd::prelude::*;
use vstd::slice::*;
use vstd::utf8::*;

verus! {

/// The payload bytes did not match the wire contract.
#[derive(Clone, Copy, Debug, PartialEq, Eq)]
pub struct DecodeError;

/// A length-delimited field: its key, the length of its body, the body.
pub open spec fn len_field(number: nat, body: Seq<u8>) -> Seq<u8> {
    varint(number * 8 + 2) + varint(body.len()) + body
}

/// A length-delimited field that is left out when its body is empty.
pub open spec fn opt_field(number: nat, body: Seq<u8>) -> Seq<u8> {
    if body.len() == 0 {
        Seq::empty()
    } else {
        len_field(number, body)
    }
}

/// The body of one metadata entry.
pub open spec fn entry_body(e: (Seq<char>, Seq<char>)) -> Seq<u8> {
    opt_field(1, encode_utf8(e.0)) + opt_field(2, encode_utf8(e.1))
}

/// All metadata entries, one field each, in order.
pub open spec fn entries_bytes(m: Seq<(Seq<char>, Seq<char>)>) -> Seq<u8>
    decreases m.len(),
{
    if m.len() == 0 {
        Seq::empty()
    } else {
        entries_bytes(m.drop_last()) + len_field(4, entry_body(m.last()))
    }
}

/// The bytes of a request.
pub open spec fn encode_spec(r: RequestView) -> Seq<u8> {
    opt_field(1, encode_utf8(r.request_id)) + opt_field(2, encode_utf8(r.agent_id)) + opt_field(
        3,
        r.payload,
    ) + entries_bytes(r.metadata)
}

/// The lengths of one metadata entry fit the 64-bit length prefix.
pub open spec fn entry_fits(e: (Seq<char>, Seq<char>)) -> bool {
    &&& encode_utf8(e.0).len() <= u64::MAX
    &&& encode_utf8(e.1).len() <= u64::MAX
    &&& entry_body(e).len() <= u64::MAX
}

/// Every length of the request fits the 64-bit length prefix. This holds of
/// every request that exists in memory.
pub open spec fn fits_wire(r: RequestView) -> bool {
    &&& encode_utf8(r.request_id).len() <= u64::MAX
    &&& encode_utf8(r.agent_id).len() <= u64::MAX
    &&& r.payload.len() <= u64::MAX
    &&& forall|i: int| 0 <= i < r.metadata.len() ==> entry_fits(#[trigger] r.metadata[i])
}

/// One field as it lies in the bytes: its number, its wire type, its body
/// (empty unless length-delimited) and the number of bytes it takes.
pub ghost struct RawField {
    pub number: nat,
    pub wire: nat,
    pub body: Seq<u8>,
    pub consumed: nat,
}

/// How deep groups may nest inside a field of a request that is passed over.
pub const MESSAGE_DEPTH: u32 = 100;

/// How deep groups may nest inside a field of a metadata entry that is
/// passed over.
pub const ENTRY_DEPTH: u32 = 99;

/// The number of bytes that the value of a field takes when it is passed
/// over: wire type 0 is a varint, 1 eight bytes, 5 four bytes, 2 a length and
/// that many bytes, 3 a group that runs to its end marker. `depth` is the
/// number of nested groups still allowed, this one included.
pub open spec fn skip_value(b: Seq<u8>, number: nat, wire: nat, depth: nat) -> Option<nat>
    decreases b.len(), 1nat,
{
    if depth == 0 {
        None
    } else if wire == 0 {
        match parse_varint(b, 0) {
            Some((_, j)) => Some(j),
            None => None,
        }
    } else if wire == 1 {
        if b.len() >= 8 {
            Some(8)
        } else {
            None
        }
    } else if wire == 5 {
        if b.len() >= 4 {
            Some(4)
        } else {
            None
        }
    } else if wire == 2 {
        match parse_varint(b, 0) {
            Some((len, j)) => if j + len <= b.len() {
                Some(j + len)
            } else {
                None
            },
            None => None,
        }
    } else if wire == 3 {
        skip_group(b, number, depth)
    } else {
        None
    }
}

/// The number of bytes up to and including the end marker of the group of
/// field `number`: fields are passed over one by one until an end marker
/// comes, which must carry the group's own number.
pub open spec fn skip_group(b: Seq<u8>, number: nat, depth: nat) -> Option<nat>
    decreases b.len(), 0nat,
{
    match parse_varint(b, 0) {
        None => None,
        Some((key, k)) => {
            if key > 0xFFFF_FFFF || key / 8 == 0 || key % 8 > 5 || k == 0 || k > b.len() || depth
                == 0 {
                None
            } else if key % 8 == 4 {
                if key / 8 == number {
                    Some(k)
                } else {
                    None
                }
            } else {
                match skip_value(b.skip(k as int), key / 8, key % 8, (depth - 1) as nat) {
                    None => None,
                    Some(c) => if k + c > b.len() {
                        None
                    } else {
                        match skip_group(b.skip((k + c) as int), number, depth) {
                            None => None,
                            Some(r) => Some(k + c + r),
                        }
                    },
                }
            }
        },
    }
}

/// Reads the field at the front of `b`. The key must fit 32 bits and name a
/// field number above zero. A length-delimited field yields its body; the
/// value of any other field is passed over.
pub open spec fn parse_raw(b: Seq<u8>, depth: nat) -> Option<RawField> {
    match parse_varint(b, 0) {
        None => None,
        Some((key, k)) => {
            let rest = b.skip(k as int);
            let number = key / 8;
            let wire = key % 8;
            if key > 0xFFFF_FFFF || number == 0 {
                None
            } else if wire == 2 {
                match parse_varint(rest, 0) {
                    Some((len, j)) => if j + len <= rest.len() {
                        Some(
                            RawField {
                                number,
                                wire,
                                body: rest.subrange(j as int, (j + len) as int),
                                consumed: k + j + len,
                            },
                        )
                    } else {
                        None
                    },
                    None => None,
                }
            } else {
                match skip_value(rest, number, wire, depth) {
                    Some(c) => Some(
                        RawField { number, wire, body: Seq::empty(), consumed: k + c },
                    ),
                    None => None,
                }
            }
        },
    }
}

/// What one field does to a metadata entry read so far: field 1 sets the
/// key, field 2 the value, both must be length-delimited valid UTF-8; other
/// fields change nothing.
pub open spec fn entry_step(acc: (Seq<char>, Seq<char>), f: RawField) -> Option<
    (Seq<char>, Seq<char>),
> {
    if f.number == 1 {
        if f.wire == 2 && valid_utf8(f.body) {
            Some((decode_utf8(f.body), acc.1))
        } else {
            None
        }
    } else if f.number == 2 {
        if f.wire == 2 && valid_utf8(f.body) {
            Some((acc.0, decode_utf8(f.body)))
        } else {
            None
        }
    } else {
        Some(acc)
    }
}

/// Reads a metadata entry: every field of `b` in turn, starting from `acc`.
pub open spec fn parse_entry(b: Seq<u8>, acc: (Seq<char>, Seq<char>)) -> Option<
    (Seq<char>, Seq<char>),
>
    decreases b.len(),
{
    if b.len() == 0 {
        Some(acc)
    } else {
        match parse_raw(b, ENTRY_DEPTH as nat) {
            None => None,
            Some(f) => if f.consumed == 0 || f.consumed > b.len() {
                None
            } else {
                match entry_step(acc, f) {
                    None => None,
                    Some(a) => parse_entry(b.skip(f.consumed as int), a),
                }
            },
        }
    }
}

/// What one field does to a request read so far: a later request id, agent
/// id or payload replaces an earlier one, a metadata entry is bound under
/// its key; fields of other numbers change nothing.
pub open spec fn message_step(acc: RequestView, f: RawField) -> Option<RequestView> {
    if f.number == 1 {
        if f.wire == 2 && valid_utf8(f.body) {
            Some(RequestView { request_id: decode_utf8(f.body), ..acc })
        } else {
            None
        }
    } else if f.number == 2 {
        if f.wire == 2 && valid_utf8(f.body) {
            Some(RequestView { agent_id: decode_utf8(f.body), ..acc })
        } else {
            None
        }
    } else if f.number == 3 {
        if f.wire == 2 {
            Some(RequestView { payload: f.body, ..acc })
        } else {
            None
        }
    } else if f.number == 4 {
        if f.wire == 2 {
            match parse_entry(f.body, (Seq::empty(), Seq::empty())) {
                Some((k, v)) => Some(RequestView { metadata: upsert(acc.metadata, k, v), ..acc }),
                None => None,
            }
        } else {
            None
        }
    } else {
        Some(acc)
    }
}

/// Reads a request: every field of `b` in turn, starting from `acc`.
pub open spec fn parse_message(b: Seq<u8>, acc: RequestView) -> Option<RequestView>
    decreases b.len(),
{
    if b.len() == 0 {
        Some(acc)
    } else {
        match parse_raw(b, MESSAGE_DEPTH as nat) {
            None => None,
            Some(f) => if f.consumed == 0 || f.consumed > b.len() {
                None
            } else {
                match message_step(acc, f) {
                    None => None,
                    Some(a) => parse_message(b.skip(f.consumed as int), a),
                }
            },
        }
    }
}

/// What the bytes `b` say, or `None` where they break the wire contract.
pub open spec fn decode_spec(b: Seq<u8>) -> Option<RequestView> {
    parse_message(b, RequestView::empty())
}

fn put_bytes(body: &[u8], out: &mut Vec<u8>)
    ensures
        final(out)@ == old(out)@ + body@,
{
    let mut i: usize = 0;
    while i < body.len()
        invariant
            i <= body@.len(),
            out@ == old(out)@ + body@.take(i as int),
        decreases body.len() - i,
    {
        out.push(body[i]);
        assert(body@.take(i + 1) =~= body@.take(i as int).push(body@[i as int]));
        assert(out@ =~= old(out)@ + body@.take(i + 1));
        i += 1;
    }
    assert(body@.take(i as int) =~= body@);
}

fn put_len_field(number: u8, body: &[u8], out: &mut Vec<u8>)
    requires
        number < 16,
    ensures
        final(out)@ == old(out)@ + len_field(number as nat, body@),
        body@.len() <= u64::MAX,
{
    put_varint((number * 8 + 2) as u64, out);
    put_varint(body.len() as u64, out);
    put_bytes(body, out);
    assert(final(out)@ =~= old(out)@ + len_field(number as nat, body@));
}

fn put_opt_field(number: u8, body: &[u8], out: &mut Vec<u8>)
    requires
        number < 16,
    ensures
        final(out)@ == old(out)@ + opt_field(number as nat, body@),
        body@.len() <= u64::MAX,
{
    if body.len() != 0 {
        put_len_field(number, body, out);
    } else {
        assert(final(out)@ =~= old(out)@ + opt_field(number as nat, body@));
    }
}

/// The bytes of `req` under the wire contract. Every length of a request
/// held in memory fits its prefix, so this cannot fail; and where the
/// metadata is a mapping, reading the bytes gives the request back.
pub fn encode(req: &InternalRequest) -> (out: Vec<u8>)
    ensures
        out@ == encode_spec(req@),
        fits_wire(req@),
        req.wf() ==> decode_spec(out@) == Some(req@),
{
    let mut out: Vec<u8> = Vec::new();
    put_opt_field(1, req.request_id.as_str().as_bytes(), &mut out);
    put_opt_field(2, req.agent_id.as_str().as_bytes(), &mut out);
    put_opt_field(3, req.payload.as_slice(), &mut out);
    let ghost head = out@;
    let ghost m = req@.metadata;
    let mut i: usize = 0;
    while i < req.metadata.len()
        invariant
            i <= req.metadata@.len(),
            m == req@.metadata,
            m.len() == req.metadata@.len(),
            out@ == head + entries_bytes(m.take(i as int)),
            forall|j: int| 0 <= j < i ==> entry_fits(#[trigger] m[j]),
        decreases req.metadata.len() - i,
    {
        let e = &req.metadata[i];
        let mut body: Vec<u8> = Vec::new();
        put_opt_field(1, e.key.as_str().as_bytes(), &mut body);
        put_opt_field(2, e.value.as_str().as_bytes(), &mut body);
        assert(body@ =~= entry_body(m[i as int]));
        put_len_field(4, body.as_slice(), &mut out);
        proof {
            let t = m.take(i + 1);
            assert(t.drop_last() =~= m.take(i as int));
            assert(t.last() == m[i as int]);
            assert(out@ =~= head + entries_bytes(t));
        }
        i += 1;
    }
    assert(m.take(i as int) =~= m);
    assert(out@ =~= encode_spec(req@));
    proof {
        if req.wf() {
            lemma_decode_encode(req@);
        }
    }
    out
}

/// Where one field lies in a buffer: the body is `start..end`, the next field
/// begins at `next`.
#[derive(Clone, Copy, Debug)]
pub struct FieldSpan {
    pub number: u32,
    pub wire: u8,
    pub start: usize,
    pub end: usize,
    pub next: usize,
}

impl FieldSpan {
    /// This span is the field `f` read at position `pos` of `b`.
    pub open spec fn matches_raw(self, b: Seq<u8>, pos: int, f: RawField) -> bool {
        &&& self.number == f.number
        &&& self.wire == f.wire
        &&& pos < self.start <= self.end <= self.next <= b.len()
        &&& self.next == pos + f.consumed
        &&& b.subrange(self.start as int, self.end as int) == f.body
    }
}

/// `r` moved on by `d` bytes.
pub open spec fn moved(r: Option<nat>, d: nat) -> Option<nat> {
    match r {
        Some(c) => Some(c + d),
        None => None,
    }
}

/// The position after the value that starts at `pos`, were it passed over.
/// There is none at a position past the end.
pub fn skip_value_at(b: &[u8], pos: usize, number: u32, wire: u8, depth: u32) -> (r: Option<usize>)
    ensures
        pos > b@.len() ==> r is None,
        pos <= b@.len() ==> match skip_value(
            b@.skip(pos as int),
            number as nat,
            wire as nat,
            depth as nat,
        ) {
            Some(c) => r == Some((pos + c) as usize) && pos + c <= b@.len(),
            None => r is None,
        },
    decreases b@.len() - pos, 1nat,
{
    let total: usize = b.len();
    if pos > total {
        return None;
    }
    let ghost s = b@.skip(pos as int);
    proof {
        lemma_parse_varint_bounds(s, 0);
    }
    if depth == 0 {
        None
    } else if wire == 0 {
        match read_varint(b, pos) {
            Some((_, next)) => Some(next),
            None => None,
        }
    } else if wire == 1 {
        if total - pos >= 8 {
            Some(pos + 8)
        } else {
            None
        }
    } else if wire == 5 {
        if total - pos >= 4 {
            Some(pos + 4)
        } else {
            None
        }
    } else if wire == 2 {
        match read_varint(b, pos) {
            Some((len, start)) => {
                if len <= (total - start) as u64 {
                    Some(start + len as usize)
                } else {
                    None
                }
            },
            None => None,
        }
    } else if wire == 3 {
        skip_group_at(b, pos, number, depth)
    } else {
        None
    }
}

/// The position after the end marker of the group of field `number` whose
/// content starts at `pos`. There is none at a position past the end.
pub fn skip_group_at(b: &[u8], pos: usize, number: u32, depth: u32) -> (r: Option<usize>)
    ensures
        pos > b@.len() ==> r is None,
        pos <= b@.len() ==> match skip_group(b@.skip(pos as int), number as nat, depth as nat) {
            Some(c) => r == Some((pos + c) as usize) && pos + c <= b@.len(),
            None => r is None,
        },
    decreases b@.len() - pos, 0nat,
{
    let total: usize = b.len();
    if pos > total {
        return None;
    }
    let ghost goal = skip_group(b@.skip(pos as int), number as nat, depth as nat);
    let mut cur: usize = pos;
    loop
        invariant
            pos <= cur <= total,
            total == b@.len(),
            goal == skip_group(b@.skip(pos as int), number as nat, depth as nat),
            goal == moved(
                skip_group(b@.skip(cur as int), number as nat, depth as nat),
                (cur - pos) as nat,
            ),
        decreases total - cur,
    {
        let ghost s = b@.skip(cur as int);
        proof {
            lemma_parse_varint_bounds(s, 0);
        }
        let head = read_varint(b, cur);
        if head.is_none() {
            return None;
        }
        let (key, at) = head.unwrap();
        let ghost k = parse_varint(s, 0).unwrap().1;
        assert(at == cur + k);
        assert(s.skip(k as int) =~= b@.skip(at as int));
        if key > 0xFFFF_FFFF || key / 8 == 0 || key % 8 > 5 || depth == 0 {
            return None;
        }
        let inner_number: u32 = (key / 8) as u32;
        let inner_wire: u8 = (key % 8) as u8;
        if inner_wire == 4 {
            if inner_number == number {
                return Some(at);
            } else {
                return None;
            }
        }
        match skip_value_at(b, at, inner_number, inner_wire, depth - 1) {
            None => {
                return None;
            },
            Some(next) => {
                assert(s.skip(next - cur) =~= b@.skip(next as int));
                cur = next;
            },
        }
    }
}

/// Reads the field that starts at `pos`. There is none at a position past
/// the end.
pub fn read_field(b: &[u8], pos: usize, depth: u32) -> (r: Option<FieldSpan>)
    ensures
        pos > b@.len() ==> r is None,
        pos <= b@.len() ==> match parse_raw(b@.skip(pos as int), depth as nat) {
            Some(f) => r matches Some(s) && s.matches_raw(b@, pos as int, f),
            None => r is None,
        },
{
    let ghost s = b@.skip(pos as int);
    let total: usize = b.len();
    if pos > total {
        return None;
    }
    let head = read_varint(b, pos);
    if head.is_none() {
        return None;
    }
    let (key, at) = head.unwrap();
    let ghost k = parse_varint(s, 0).unwrap().1;
    let ghost rest = s.skip(k as int);
    assert(at == pos + k);
    assert(rest =~= b@.skip(at as int));
    proof {
        lemma_parse_varint_bounds(s, 0);
        lemma_parse_varint_bounds(rest, 0);
    }
    if key > 0xFFFF_FFFF || key / 8 == 0 {
        return None;
    }
    let number: u32 = (key / 8) as u32;
    let wire: u8 = (key % 8) as u8;
    if wire == 2 {
        match read_varint(b, at) {
            Some((len, start)) => {
                if len <= (total - start) as u64 {
                    let end: usize = start + len as usize;
                    assert(rest.subrange(start - at, start - at + len) =~= b@.subrange(
                        start as int,
                        end as int,
                    ));
                    Some(FieldSpan { number, wire, start, end, next: end })
                } else {
                    None
                }
            },
            None => None,
        }
    } else {
        match skip_value_at(b, at, number, wire, depth) {
            Some(next) => {
                assert(b@.subrange(next as int, next as int) =~= Seq::empty());
                Some(FieldSpan { number, wire, start: next, end: next, next })
            },
            None => None,
        }
    }
}

/// `String::from_utf8` of std: the text that `bytes` spell in UTF-8, or
/// `None` where they are not valid UTF-8.
#[verifier::external_body]
fn string_from_utf8(bytes: Vec<u8>) -> (r: Option<String>)
    ensures
        r is Some <==> valid_utf8(bytes@),
        r matches Some(s) ==> s@ == decode_utf8(bytes@),
{
    match String::from_utf8(bytes) {
        Ok(s) => Some(s),
        Err(_) => None,
    }
}

fn text_field(b: &[u8], span: &FieldSpan) -> (r: Option<String>)
    requires
        span.start <= span.end <= b@.len(),
    ensures
        ({
            let body = b@.subrange(span.start as int, span.end as int);
            if span.wire == 2 && valid_utf8(body) {
                r matches Some(s) && s@ == decode_utf8(body)
            } else {
                r is None
            }
        }),
{
    if span.wire != 2 {
        return None;
    }
    string_from_utf8(slice_to_vec(slice_subrange(b, span.start, span.end)))
}

/// Reads one metadata entry from its body: the key and the value.
pub fn decode_entry(b: &[u8]) -> (r: Option<MetadataEntry>)
    ensures
        match parse_entry(b@, (Seq::empty(), Seq::empty())) {
            Some(e) => r matches Some(x) && (x.key@, x.value@) == e,
            None => r is None,
        },
{
    let mut key = String::new();
    let mut value = String::new();
    let mut pos: usize = 0;
    assert(b@.skip(0) =~= b@);
    while pos < b.len()
        invariant
            pos <= b@.len(),
            parse_entry(b@, (Seq::empty(), Seq::empty())) == parse_entry(
                b@.skip(pos as int),
                (key@, value@),
            ),
        decreases b.len() - pos,
    {
        let span = match read_field(b, pos, ENTRY_DEPTH) {
            Some(s) => s,
            None => {
                return None;
            },
        };
        if span.number == 1 {
            match text_field(b, &span) {
                Some(s) => {
                    key = s;
                },
                None => {
                    return None;
                },
            }
        } else if span.number == 2 {
            match text_field(b, &span) {
                Some(s) => {
                    value = s;
                },
                None => {
                    return None;
                },
            }
        }
        assert(b@.skip(pos as int).skip(span.next - pos) =~= b@.skip(span.next as int));
        pos = span.next;
    }
    Some(MetadataEntry { key, value })
}

/// Reads a request from `b`. Succeeds exactly where the bytes follow the
/// wire contract, and then returns what they say.
pub fn decode(b: &[u8]) -> (r: Result<InternalRequest, DecodeError>)
    ensures
        match decode_spec(b@) {
            Some(v) => r matches Ok(req) && req@ == v && req.wf(),
            None => r is Err,
        },
{
    let mut req = InternalRequest::empty();
    let mut pos: usize = 0;
    assert(b@.skip(0) =~= b@);
    while pos < b.len()
        invariant
            pos <= b@.len(),
            req.wf(),
            decode_spec(b@) == parse_message(b@.skip(pos as int), req@),
        decreases b.len() - pos,
    {
        let span = match read_field(b, pos, MESSAGE_DEPTH) {
            Some(s) => s,
            None => {
                return Err(DecodeError);
            },
        };
        if span.number == 1 {
            match text_field(b, &span) {
                Some(s) => {
                    req.request_id = s;
                },
                None => {
                    return Err(DecodeError);
                },
            }
        } else if span.number == 2 {
            match text_field(b, &span) {
                Some(s) => {
                    req.agent_id = s;
                },
                None => {
                    return Err(DecodeError);
                },
            }
        } else if span.number == 3 {
            if span.wire != 2 {
                return Err(DecodeError);
            }
            req.payload = slice_to_vec(slice_subrange(b, span.start, span.end));
        } else if span.number == 4 {
            if span.wire != 2 {
                return Err(DecodeError);
            }
            match decode_entry(slice_subrange(b, span.start, span.end)) {
                Some(e) => {
                    req.set_metadata(e.key, e.value);
                },
                None => {
                    return Err(DecodeError);
                },
            }
        }
        assert(b@.skip(pos as int).skip(span.next - pos) =~= b@.skip(span.next as int));
        pos = span.next;
    }
    Ok(req)
}

} // verus!
