//! Reading back what was written: the proofs that tie `encode_spec` and
//! `decode_spec` together.

use crate::request::{distinct_keys, has_key, upsert, RequestView};
use crate::varint::{lemma_parse_varint_of_varint, lemma_varint_len, parse_varint, varint};
use crate::wire::{
    decode_spec, encode_spec, entries_bytes, entry_body, entry_fits, entry_step, fits_wire,
    len_field, message_step, opt_field, parse_entry, parse_message, parse_raw, RawField,
    ENTRY_DEPTH, MESSAGE_DEPTH,
};
use vstd::prelude::*;
use vstd::utf8::*;

verus! {

/// A length-delimited field of number 1 to 4 is read back as it was
/// written, whatever follows it.
pub proof fn lemma_parse_len_field(number: nat, body: Seq<u8>, tail: Seq<u8>, depth: nat)
    requires
        1 <= number <= 4,
        body.len() <= u64::MAX,
    ensures
        parse_raw(len_field(number, body) + tail, depth) == Some(
            RawField { number, wire: 2, body, consumed: len_field(number, body).len() },
        ),
        1 <= len_field(number, body).len(),
        (len_field(number, body) + tail).skip(len_field(number, body).len() as int) == tail,
{
    let key = number * 8 + 2;
    let b = len_field(number, body) + tail;
    let after_key = varint(body.len()) + body + tail;
    assert(varint(key) =~= seq![key as u8]);
    assert(b =~= varint(key) + after_key);
    lemma_parse_varint_of_varint(key, after_key, 0);
    assert(parse_varint(b, 0) == Some((key, 1nat)));
    let rest = b.skip(1);
    assert(rest =~= varint(body.len()) + (body + tail));
    lemma_parse_varint_of_varint(body.len(), body + tail, 0);
    lemma_varint_len(body.len(), 0);
    let j = varint(body.len()).len();
    assert(parse_varint(rest, 0) == Some((body.len(), j)));
    assert(rest.subrange(j as int, (j + body.len()) as int) =~= body);
    assert(key / 8 == number && key % 8 == 2);
    assert(len_field(number, body).len() == 1 + j + body.len());
    assert(b.skip(len_field(number, body).len() as int) =~= tail);
}

/// Text with no bytes has no characters.
pub proof fn lemma_empty_text(t: Seq<char>)
    requires
        encode_utf8(t).len() == 0,
    ensures
        t == Seq::<char>::empty(),
{
    encode_utf8_decode_utf8(t);
    encode_utf8_valid_utf8(t);
    assert(encode_utf8(t) =~= Seq::<u8>::empty());
    assert(decode_utf8(Seq::<u8>::empty()) =~= Seq::<char>::empty());
    assert(t =~= Seq::<char>::empty());
}

/// A metadata entry is read back from its body as it was written.
pub proof fn lemma_parse_entry_body(e: (Seq<char>, Seq<char>))
    requires
        entry_fits(e),
    ensures
        parse_entry(entry_body(e), (Seq::empty(), Seq::empty())) == Some(e),
{
    let none = Seq::<char>::empty();
    let kb = encode_utf8(e.0);
    let vb = encode_utf8(e.1);
    let second = opt_field(2, vb);
    encode_utf8_decode_utf8(e.0);
    encode_utf8_valid_utf8(e.0);
    encode_utf8_decode_utf8(e.1);
    encode_utf8_valid_utf8(e.1);
    // the value, read from a key already known
    assert(parse_entry(second, (e.0, none)) == Some(e)) by {
        if vb.len() == 0 {
            lemma_empty_text(e.1);
            assert(e == (e.0, none));
        } else {
            lemma_parse_len_field(2, vb, Seq::empty(), ENTRY_DEPTH as nat);
            assert(second =~= len_field(2, vb) + Seq::<u8>::empty());
            let f = parse_raw(second, ENTRY_DEPTH as nat).unwrap();
            assert(entry_step((e.0, none), f) == Some(e));
            assert(second.skip(f.consumed as int) =~= Seq::<u8>::empty());
            assert(parse_entry(second.skip(f.consumed as int), e) == Some(e));
        }
    }
    if kb.len() == 0 {
        lemma_empty_text(e.0);
        assert(entry_body(e) =~= second);
    } else {
        lemma_parse_len_field(1, kb, second, ENTRY_DEPTH as nat);
        let b = entry_body(e);
        assert(b =~= len_field(1, kb) + second);
        let f = parse_raw(b, ENTRY_DEPTH as nat).unwrap();
        assert(entry_step((none, none), f) == Some((e.0, none)));
        assert(b.skip(f.consumed as int) == second);
    }
}

/// The entries written in order are the first entry followed by the rest.
pub proof fn lemma_entries_front(m: Seq<(Seq<char>, Seq<char>)>)
    requires
        m.len() > 0,
    ensures
        entries_bytes(m) == len_field(4, entry_body(m[0])) + entries_bytes(m.drop_first()),
    decreases m.len(),
{
    let last = len_field(4, entry_body(m.last()));
    if m.len() == 1 {
        assert(m.drop_last() =~= Seq::empty());
        assert(m.drop_first() =~= Seq::empty());
        assert(entries_bytes(m.drop_last()) =~= Seq::<u8>::empty());
        assert(entries_bytes(m) =~= last + entries_bytes(m.drop_first()));
    } else {
        lemma_entries_front(m.drop_last());
        assert(m.drop_first().drop_last() =~= m.drop_last().drop_first());
        assert(m.drop_first().last() == m.last());
        assert(m.drop_last()[0] == m[0]);
        assert(entries_bytes(m) =~= len_field(4, entry_body(m[0])) + entries_bytes(
            m.drop_first(),
        ));
    }
}

/// Reading the entries `m` adds them, in order, to a request whose keys they
/// do not repeat.
pub proof fn lemma_parse_entries(m: Seq<(Seq<char>, Seq<char>)>, tail: Seq<u8>, acc: RequestView)
    requires
        distinct_keys(acc.metadata + m),
        forall|i: int| 0 <= i < m.len() ==> entry_fits(#[trigger] m[i]),
    ensures
        parse_message(entries_bytes(m) + tail, acc) == parse_message(
            tail,
            RequestView { metadata: acc.metadata + m, ..acc },
        ),
    decreases m.len(),
{
    if m.len() == 0 {
        assert(entries_bytes(m) + tail =~= tail);
        assert(acc.metadata + m =~= acc.metadata);
    } else {
        let e = m[0];
        let rest = m.drop_first();
        let body = entry_body(e);
        let b = entries_bytes(m) + tail;
        let after = entries_bytes(rest) + tail;
        lemma_entries_front(m);
        assert(entry_fits(e));
        assert(b =~= len_field(4, body) + after);
        lemma_parse_len_field(4, body, after, MESSAGE_DEPTH as nat);
        lemma_parse_entry_body(e);
        let f = parse_raw(b, MESSAGE_DEPTH as nat).unwrap();
        let all = acc.metadata + m;
        assert(!has_key(acc.metadata, e.0)) by {
            if has_key(acc.metadata, e.0) {
                let i = choose|i: int| 0 <= i < acc.metadata.len() && #[trigger] acc.metadata[i].0
                    == e.0;
                assert(all[i] == acc.metadata[i]);
                assert(all[acc.metadata.len() as int] == e);
                assert(all[i].0 != all[acc.metadata.len() as int].0);
            }
        }
        let next = RequestView { metadata: acc.metadata.push(e), ..acc };
        assert(upsert(acc.metadata, e.0, e.1) == acc.metadata.push(e));
        assert(message_step(acc, f) == Some(next));
        assert(next.metadata + rest =~= all);
        assert forall|i: int| 0 <= i < rest.len() implies entry_fits(#[trigger] rest[i]) by {
            assert(rest[i] == m[i + 1]);
        }
        lemma_parse_entries(rest, tail, next);
    }
}

/// Writing a request and reading the bytes back gives the request, field
/// for field; and writing what was read gives the same bytes again.
pub proof fn lemma_decode_encode(r: RequestView)
    requires
        r.wf(),
        fits_wire(r),
    ensures
        decode_spec(encode_spec(r)) == Some(r),
        encode_spec(decode_spec(encode_spec(r)).unwrap()) == encode_spec(r),
{
    let none = Seq::<char>::empty();
    let ib = encode_utf8(r.request_id);
    let ab = encode_utf8(r.agent_id);
    let f1 = opt_field(1, ib);
    let f2 = opt_field(2, ab);
    let f3 = opt_field(3, r.payload);
    let f4 = entries_bytes(r.metadata);
    let a0 = RequestView::empty();
    let a1 = RequestView { request_id: r.request_id, ..a0 };
    let a2 = RequestView { agent_id: r.agent_id, ..a1 };
    let a3 = RequestView { payload: r.payload, ..a2 };
    let t1 = f2 + f3 + f4;
    let t2 = f3 + f4;
    encode_utf8_decode_utf8(r.request_id);
    encode_utf8_valid_utf8(r.request_id);
    encode_utf8_decode_utf8(r.agent_id);
    encode_utf8_valid_utf8(r.agent_id);
    assert(encode_spec(r) =~= f1 + t1);
    assert(parse_message(f1 + t1, a0) == parse_message(t1, a1)) by {
        if ib.len() == 0 {
            lemma_empty_text(r.request_id);
            assert(f1 + t1 =~= t1);
        } else {
            lemma_parse_len_field(1, ib, t1, MESSAGE_DEPTH as nat);
            let f = parse_raw(f1 + t1, MESSAGE_DEPTH as nat).unwrap();
            assert(message_step(a0, f) == Some(a1));
        }
    }
    assert(t1 =~= f2 + t2);
    assert(parse_message(f2 + t2, a1) == parse_message(t2, a2)) by {
        if ab.len() == 0 {
            lemma_empty_text(r.agent_id);
            assert(f2 + t2 =~= t2);
        } else {
            lemma_parse_len_field(2, ab, t2, MESSAGE_DEPTH as nat);
            let f = parse_raw(f2 + t2, MESSAGE_DEPTH as nat).unwrap();
            assert(message_step(a1, f) == Some(a2));
        }
    }
    assert(parse_message(f3 + f4, a2) == parse_message(f4, a3)) by {
        if r.payload.len() == 0 {
            assert(f3 + f4 =~= f4);
            assert(r.payload =~= Seq::<u8>::empty());
        } else {
            lemma_parse_len_field(3, r.payload, f4, MESSAGE_DEPTH as nat);
            let f = parse_raw(f3 + f4, MESSAGE_DEPTH as nat).unwrap();
            assert(message_step(a2, f) == Some(a3));
        }
    }
    assert(a3.metadata + r.metadata =~= r.metadata);
    lemma_parse_entries(r.metadata, Seq::empty(), a3);
    assert(f4 + Seq::<u8>::empty() =~= f4);
    assert(r == RequestView { metadata: a3.metadata + r.metadata, ..a3 });
}

} // verus!
