//! Base-128 variable-length integers, the building block of the wire format.

use vstd::prelude::*;

verus! {

/// The bytes of `v`: seven bits per byte, least significant group first,
/// the high bit set on every byte but the last.
pub open spec fn varint(v: nat) -> Seq<u8>
    decreases v,
{
    if v < 128 {
        seq![v as u8]
    } else {
        seq![(v % 128 + 128) as u8] + varint(v / 128)
    }
}

/// One more than the largest value that may still follow once `n` bytes of a
/// varint have been read: a varint has at most ten bytes and fits 64 bits.
pub open spec fn varint_limit(n: nat) -> nat {
    if n == 0 {
        0x1_0000_0000_0000_0000
    } else if n == 1 {
        0x200_0000_0000_0000
    } else if n == 2 {
        0x4_0000_0000_0000
    } else if n == 3 {
        0x800_0000_0000
    } else if n == 4 {
        0x10_0000_0000
    } else if n == 5 {
        0x2000_0000
    } else if n == 6 {
        0x40_0000
    } else if n == 7 {
        0x8000
    } else if n == 8 {
        0x100
    } else if n == 9 {
        2
    } else {
        0
    }
}

/// Reads a varint from the front of `b` when `n` of its bytes were read
/// before: the value and the number of bytes taken, or `None` where the
/// bytes end early, an eleventh byte would be needed, or the value leaves
/// 64 bits.
pub open spec fn parse_varint(b: Seq<u8>, n: nat) -> Option<(nat, nat)>
    decreases b.len(),
{
    if b.len() == 0 || n >= 10 {
        None
    } else if b[0] < 128 {
        if n == 9 && b[0] >= 2 {
            None
        } else {
            Some((b[0] as nat, 1))
        }
    } else {
        match parse_varint(b.drop_first(), n + 1) {
            Some((v, k)) => Some(((b[0] - 128) as nat + 128 * v, k + 1)),
            None => None,
        }
    }
}

/// Every value that `parse_varint` returns lies under the limit, and it takes
/// between one and ten bytes, all of them present.
pub proof fn lemma_parse_varint_bounds(b: Seq<u8>, n: nat)
    ensures
        parse_varint(b, n) matches Some((v, k)) ==> v < varint_limit(n) && 1 <= k <= b.len() && k
            + n <= 10,
    decreases b.len(),
{
    if b.len() == 0 || n >= 10 {
    } else if b[0] < 128 {
    } else {
        lemma_parse_varint_bounds(b.drop_first(), n + 1);
    }
}

/// A varint has between one and ten bytes when its value fits 64 bits.
pub proof fn lemma_varint_len(v: nat, n: nat)
    requires
        v < varint_limit(n),
    ensures
        1 <= varint(v).len() <= 10 - n,
    decreases v,
{
    if v >= 128 {
        lemma_varint_len(v / 128, n + 1);
    }
}

/// Reading back what `varint` wrote gives the value, whatever follows it.
pub proof fn lemma_parse_varint_of_varint(v: nat, tail: Seq<u8>, n: nat)
    requires
        v < varint_limit(n),
    ensures
        parse_varint(varint(v) + tail, n) == Some((v, varint(v).len())),
    decreases v,
{
    let b = varint(v) + tail;
    if v < 128 {
        assert(b[0] == v as u8);
    } else {
        let rest = varint(v / 128);
        assert(b[0] == (v % 128 + 128) as u8);
        assert(b.drop_first() =~= rest + tail);
        lemma_parse_varint_of_varint(v / 128, tail, n + 1);
    }
}

/// Appends the varint of `v` to `out`.
pub fn put_varint(v: u64, out: &mut Vec<u8>)
    ensures
        final(out)@ == old(out)@ + varint(v as nat),
    decreases v,
{
    if v < 128 {
        out.push(v as u8);
        assert(final(out)@ =~= old(out)@ + varint(v as nat));
    } else {
        out.push((v % 128 + 128) as u8);
        put_varint(v / 128, out);
        assert(final(out)@ =~= old(out)@ + varint(v as nat));
    }
}

fn read_varint_from(b: &[u8], pos: usize, n: u8) -> (r: Option<(u64, usize)>)
    requires
        pos <= b@.len(),
        n <= 10,
    ensures
        match parse_varint(b@.skip(pos as int), n as nat) {
            Some((v, k)) => r == Some((v as u64, (pos + k) as usize)) && v < varint_limit(n as nat)
                && pos + k <= b@.len(),
            None => r is None,
        },
    decreases b@.len() - pos,
{
    let ghost s = b@.skip(pos as int);
    proof {
        lemma_parse_varint_bounds(s, n as nat);
    }
    if pos >= b.len() || n >= 10 {
        return None;
    }
    let byte: u8 = b[pos];
    assert(s[0] == byte);
    if byte < 128 {
        if n == 9 && byte >= 2 {
            None
        } else {
            Some((byte as u64, pos + 1))
        }
    } else {
        assert(s.drop_first() =~= b@.skip(pos + 1));
        proof {
            lemma_parse_varint_bounds(s.drop_first(), (n + 1) as nat);
        }
        match read_varint_from(b, pos + 1, n + 1) {
            Some((v, next)) => Some(((byte - 128) as u64 + 128 * v, next)),
            None => None,
        }
    }
}

/// Reads the varint that starts at `pos`: its value and the position after
/// it. There is none at a position past the end.
pub fn read_varint(b: &[u8], pos: usize) -> (r: Option<(u64, usize)>)
    ensures
        pos > b@.len() ==> r is None,
        pos <= b@.len() ==> match parse_varint(b@.skip(pos as int), 0) {
            Some((v, k)) => r == Some((v as u64, (pos + k) as usize)) && v <= u64::MAX && pos + k
                <= b@.len(),
            None => r is None,
        },
{
    if pos > b.len() {
        return None;
    }
    read_varint_from(b, pos, 0)
}

} // verus!
