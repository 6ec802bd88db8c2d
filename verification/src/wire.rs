//! Walking the protobuf wire format: varints, field skipping and message framing.
use vstd::arithmetic::power2::{pow2, lemma_pow2_adds, lemma_pow2_pos, lemma2_to64};
use vstd::bits::lemma_u64_shl_is_mul;
use vstd::prelude::*;

verus! {

/// Little-endian base-128 value of `bytes`: the low seven bits of each byte,
/// least significant group first.
pub open spec fn leb(bytes: Seq<u8>) -> nat
    decreases bytes.len(),
{
    if bytes.len() == 0 {
        0
    } else {
        (bytes[0] % 128) as nat + 128 * leb(bytes.drop_first())
    }
}

/// Number of bytes of the varint that starts at `pos`, given that the `k` bytes
/// before `pos + k` all carry the continuation bit. `None` when the data ends
/// first or when no byte among the first ten ends the varint.
pub open spec fn varint_len_from(data: Seq<u8>, pos: int, k: nat) -> Option<nat>
    decreases 10 - k,
{
    if k >= 10 || pos < 0 || pos + k >= data.len() {
        None
    } else if data[pos + k] < 0x80 {
        Some(k + 1)
    } else {
        varint_len_from(data, pos, k + 1)
    }
}

/// The varint at `pos`: its value (taken modulo 2^64) and the position just after it.
pub open spec fn spec_read_varint(data: Seq<u8>, pos: int) -> Option<(u64, int)> {
    match varint_len_from(data, pos, 0) {
        Some(n) => Some(
            ((leb(data.subrange(pos, pos + n)) % 0x1_0000_0000_0000_0000) as u64, pos + n),
        ),
        None => None,
    }
}

/// Where the value of a field of wire type `wire_type` that starts at `pos` ends.
pub open spec fn spec_skip_field(data: Seq<u8>, pos: int, wire_type: u8) -> Option<int>
    decreases data.len() - pos, 1nat,
{
    if wire_type == 0 {
        match spec_read_varint(data, pos) {
            Some((_, end)) => Some(end),
            None => None,
        }
    } else if wire_type == 1 {
        if pos + 8 > data.len() {
            None
        } else {
            Some(pos + 8)
        }
    } else if wire_type == 2 {
        match spec_read_varint(data, pos) {
            Some((length, start)) => if start + length > data.len() {
                None
            } else {
                Some(start + length)
            },
            None => None,
        }
    } else if wire_type == 3 {
        spec_group_end(data, pos)
    } else if wire_type == 4 {
        Some(pos)
    } else if wire_type == 5 {
        if pos + 4 > data.len() {
            None
        } else {
            Some(pos + 4)
        }
    } else {
        None
    }
}

/// Where a group whose first member field starts at `pos` ends: just after the
/// first tag of wire type 4 (end group) met at this nesting level.
pub open spec fn spec_group_end(data: Seq<u8>, pos: int) -> Option<int>
    decreases data.len() - pos, 0nat,
{
    match spec_read_varint(data, pos) {
        None => None,
        Some((tag, next)) => {
            if tag & 7 == 4 {
                Some(next)
            } else {
                proof {
                    lemma_varint_len_bounds(data, pos, 0);
                }
                match spec_skip_field(data, next, (tag & 7) as u8) {
                    None => None,
                    Some(after) => if pos < after <= data.len() {
                        spec_group_end(data, after)
                    } else {
                        None
                    },
                }
            }
        },
    }
}

/// Where the message that starts at `pos` ends: the walk over fields stops at a
/// zero tag, at a second occurrence of field number 1, or at a field that
/// cannot be read or skipped; it also stops at the end of the data.
pub open spec fn spec_consume(data: Seq<u8>, pos: int, seen_one: bool) -> int
    decreases data.len() - pos,
{
    if pos < 0 || pos >= data.len() {
        pos
    } else {
        match spec_read_varint(data, pos) {
            None => pos,
            Some((tag, next)) => {
                if tag == 0 || (tag >> 3 == 1 && seen_one) {
                    pos
                } else {
                    match spec_skip_field(data, next, (tag & 7) as u8) {
                        None => pos,
                        Some(after) => if pos < after <= data.len() {
                            spec_consume(data, after, seen_one || tag >> 3 == 1)
                        } else {
                            pos
                        },
                    }
                }
            },
        }
    }
}

pub proof fn lemma_varint_len_bounds(data: Seq<u8>, pos: int, k: nat)
    ensures
        varint_len_from(data, pos, k) matches Some(n) ==> k < n <= 10 && 0 <= pos && pos + n
            <= data.len(),
    decreases 10 - k,
{
    if !(k >= 10 || pos < 0 || pos + k >= data.len()) && data[pos + k] >= 0x80 {
        lemma_varint_len_bounds(data, pos, k + 1);
    }
}

/// Facts about `spec_read_varint` that callers use: the varint is between one
/// and ten bytes long and lies within the data.
pub proof fn lemma_read_varint_bounds(data: Seq<u8>, pos: int)
    ensures
        spec_read_varint(data, pos) matches Some((_, end)) ==> 0 <= pos < end <= data.len() && end
            <= pos + 10,
{
    lemma_varint_len_bounds(data, pos, 0);
}

proof fn lemma_leb_bound(s: Seq<u8>)
    ensures
        leb(s) < pow2((7 * s.len()) as nat),
    decreases s.len(),
{
    lemma2_to64();
    if s.len() > 0 {
        lemma_leb_bound(s.drop_first());
        lemma_pow2_adds(7, (7 * (s.len() - 1)) as nat);
        assert((7 * s.len()) as nat == 7 + (7 * (s.len() - 1)) as nat);
        let r = leb(s.drop_first());
        let p = pow2((7 * (s.len() - 1)) as nat);
        assert(r + 1 <= p);
        assert(128 * r + 128 <= 128 * p) by (nonlinear_arith)
            requires
                r + 1 <= p,
        ;
    }
}

proof fn lemma_leb_push(s: Seq<u8>, b: u8)
    ensures
        leb(s.push(b)) == leb(s) + (b % 128) as nat * pow2((7 * s.len()) as nat),
    decreases s.len(),
{
    lemma2_to64();
    if s.len() == 0 {
        assert(s.push(b).drop_first() =~= Seq::<u8>::empty());
        assert(leb(Seq::<u8>::empty()) == 0);
        assert(s.push(b)[0] == b);
        assert(leb(s.push(b)) == (b % 128) as nat + 128 * leb(s.push(b).drop_first()));
        assert(leb(s) == 0);
        assert((7 * s.len()) as nat == 0);
        assert(pow2(0) == 1);
        assert(leb(s.push(b).drop_first()) == 0);
        assert(leb(s.push(b)) == (b % 128) as nat);
        let e = pow2((7 * s.len()) as nat);
        assert(e == 1);
        assert((b % 128) as nat * e == (b % 128) as nat) by (nonlinear_arith)
            requires
                e == 1,
        ;
    } else {
        let rest = s.drop_first();
        assert(s.push(b).drop_first() =~= rest.push(b));
        assert(s.push(b)[0] == s[0]);
        assert(leb(s.push(b)) == (s[0] % 128) as nat + 128 * leb(rest.push(b)));
        assert(leb(s) == (s[0] % 128) as nat + 128 * leb(rest));
        lemma_leb_push(rest, b);
        lemma_pow2_adds(7, (7 * rest.len()) as nat);
        assert((7 * s.len()) as nat == 7 + (7 * rest.len()) as nat);
        let c = (b % 128) as nat;
        let p = pow2((7 * rest.len()) as nat);
        assert(128 * (leb(rest) + c * p) == 128 * leb(rest) + c * (128 * p)) by (nonlinear_arith);
        assert(pow2((7 * s.len()) as nat) == 128 * p);
        assert(leb(rest.push(b)) == leb(rest) + c * p);
        assert(leb(s.push(b)) == leb(s) + c * pow2((7 * s.len()) as nat));
    }
}

proof fn lemma_or_shift_low(r: u64, c: u64, s: u64)
    requires
        s <= 56,
        c < 128,
        r < pow2(s as nat),
    ensures
        r | (c << s) == r + c * pow2(s as nat),
        r + c * pow2(s as nat) < pow2((s + 7) as nat),
{
    lemma_pow2_pos(s as nat);
    lemma2_to64();
    lemma_pow2_adds(s as nat, 7);
    vstd::arithmetic::power2::lemma_pow2_strictly_increases((s + 7) as nat, 64);
    assert(c * pow2(s as nat) <= 127 * pow2(s as nat)) by (nonlinear_arith)
        requires
            c < 128,
    ;
    lemma_u64_shl_is_mul(c, s);
    lemma_u64_shl_is_mul(1, s);
    assert(1u64 << s == pow2(s as nat));
    assert(r < (1u64 << s) ==> r | (c << s) == r + (c << s)) by (bit_vector)
        requires
            s <= 56,
            c < 128,
    ;
}

proof fn lemma_or_shift_top(r: u64, c: u64)
    requires
        c < 128,
        r < 0x8000_0000_0000_0000,
    ensures
        (r | (c << 63u64)) as int == (r + c * 0x8000_0000_0000_0000) % 0x1_0000_0000_0000_0000,
{
    assert(r | (c << 63u64) == r + (c % 2) * 0x8000_0000_0000_0000) by (bit_vector)
        requires
            c < 128,
            r < 0x8000_0000_0000_0000,
    ;
    assert(c * 0x8000_0000_0000_0000 == (c / 2) * 0x1_0000_0000_0000_0000 + (c % 2)
        * 0x8000_0000_0000_0000) by (nonlinear_arith);
    vstd::arithmetic::div_mod::lemma_mod_multiples_vanish(
        (c / 2) as int,
        r + (c % 2) * 0x8000_0000_0000_0000,
        0x1_0000_0000_0000_0000,
    );
    vstd::arithmetic::div_mod::lemma_small_mod(
        (r + (c % 2) * 0x8000_0000_0000_0000) as nat,
        0x1_0000_0000_0000_0000,
    );
}

/// Reads a varint from the data at the given position.
/// Returns `(value, new_position)` or `None` if the data is truncated.
pub fn read_varint(data: &[u8], start: usize) -> (r: Option<(u64, usize)>)
    ensures
        match spec_read_varint(data@, start as int) {
            Some((v, end)) => r == Some((v, end as usize)),
            None => r is None,
        },
{
    if start >= data.len() {
        return None;
    }
    let mut pos = start;
    let mut result: u64 = 0;
    let mut shift: u64 = 0;
    proof {
        lemma2_to64();
        assert(data@.subrange(start as int, start as int) =~= Seq::<u8>::empty());
    }
    loop
        invariant
            start <= pos,
            shift == 7 * (pos - start),
            pos - start <= 9,
            varint_len_from(data@, start as int, 0) == varint_len_from(
                data@,
                start as int,
                (pos - start) as nat,
            ),
            result == leb(data@.subrange(start as int, pos as int)),
            leb(data@.subrange(start as int, pos as int)) < pow2(shift as nat),
        decreases data.len() - pos,
    {
        if pos >= data.len() {
            assert(varint_len_from(data@, start as int, (pos - start) as nat) is None);
            return None;
        }
        let byte = data[pos];
        let ghost before = data@.subrange(start as int, pos as int);
        let ghost k = (pos - start) as nat;
        pos += 1;
        let c = (byte & 0x7F) as u64;
        assert(byte & 0x7F == byte % 128) by (bit_vector);
        assert(data@.subrange(start as int, pos as int) =~= before.push(byte));
        proof {
            lemma_leb_push(before, byte);
            assert(before.len() == k);
        }
        if shift <= 56 {
            proof {
                lemma_or_shift_low(result, c, shift);
            }
            result = result | (c << shift);
        } else {
            assert(shift == 63);
            proof {
                vstd::arithmetic::power2::lemma2_to64_rest();
                lemma_or_shift_top(result, c);
            }
            result = result | (c << 63u64);
        }
        shift += 7;
        if byte & 0x80 == 0 {
            assert(byte & 0x80 == 0 ==> byte < 0x80) by (bit_vector);
            proof {
                if k <= 8 {
                    lemma_leb_bound(before.push(byte));
                    vstd::arithmetic::power2::lemma_pow2_strictly_increases(
                        (7 * (k + 1)) as nat,
                        64,
                    );
                    vstd::arithmetic::div_mod::lemma_small_mod(
                        leb(before.push(byte)),
                        0x1_0000_0000_0000_0000,
                    );
                } else {
                    vstd::arithmetic::power2::lemma2_to64_rest();
                }
                assert(varint_len_from(data@, start as int, k) == Some(k + 1));
                assert(data@.subrange(start as int, start + (k + 1)) == before.push(byte));
            }
            return Some((result, pos));
        }
        assert(byte & 0x80 != 0 ==> byte >= 0x80) by (bit_vector);
        if shift >= 64 {
            assert(varint_len_from(data@, start as int, k) == varint_len_from(data@, start as int, k + 1));
            assert(varint_len_from(data@, start as int, k + 1) is None);
            return None;
        }
    }
}

/// `spec_skip_field` and `spec_group_end` never move backwards and never run past the data.
pub proof fn lemma_skip_bounds(data: Seq<u8>, pos: int, wire_type: u8)
    requires
        0 <= pos <= data.len(),
    ensures
        spec_skip_field(data, pos, wire_type) matches Some(end) ==> pos <= end <= data.len(),
    decreases data.len() - pos, 1nat,
{
    lemma_read_varint_bounds(data, pos);
    if wire_type == 3 {
        lemma_group_bounds(data, pos);
    }
}

pub proof fn lemma_group_bounds(data: Seq<u8>, pos: int)
    requires
        0 <= pos <= data.len(),
    ensures
        spec_group_end(data, pos) matches Some(end) ==> pos < end <= data.len(),
    decreases data.len() - pos, 0nat,
{
    lemma_read_varint_bounds(data, pos);
    if let Some((tag, next)) = spec_read_varint(data, pos) {
        if tag & 7 != 4 {
            lemma_skip_bounds(data, next, (tag & 7) as u8);
            if let Some(after) = spec_skip_field(data, next, (tag & 7) as u8) {
                if pos < after <= data.len() {
                    lemma_group_bounds(data, after);
                }
            }
        }
    }
}

/// The message walk ends between its starting point and the end of the data.
pub proof fn lemma_consume_bounds(data: Seq<u8>, pos: int, seen_one: bool)
    requires
        0 <= pos <= data.len(),
    ensures
        pos <= spec_consume(data, pos, seen_one) <= data.len(),
    decreases data.len() - pos,
{
    if pos < data.len() {
        lemma_read_varint_bounds(data, pos);
        if let Some((tag, next)) = spec_read_varint(data, pos) {
            if !(tag == 0 || (tag >> 3 == 1 && seen_one)) {
                lemma_skip_bounds(data, next, (tag & 7) as u8);
                if let Some(after) = spec_skip_field(data, next, (tag & 7) as u8) {
                    if pos < after <= data.len() {
                        lemma_consume_bounds(data, after, seen_one || tag >> 3 == 1);
                    }
                }
            }
        }
    }
}

/// Skipping a field moves past exactly its value: a varint (wire type 0) ends
/// after its last byte; a fixed-width value (wire types 1 and 5) takes eight
/// or four bytes; a length-delimited value (wire type 2) ends `L` bytes after
/// its length prefix, where `L` is the whole base-128 number that the prefix
/// spells, every seven-bit group counted, and it cannot be skipped when fewer
/// than `L` bytes remain (for `L` below 2^64; a longer prefix is read modulo
/// 2^64, as a `u64` holds it). Data is taken to be shorter than 2^64 bytes, as
/// any slice is.
pub proof fn law_skip_takes_whole_value(d: Seq<u8>, pos: int)
    requires
        0 <= pos <= d.len(),
        d.len() < 0x1_0000_0000_0000_0000,
    ensures
        varint_len_from(d, pos, 0) matches Some(k) ==> spec_skip_field(d, pos, 0) == Some(pos + k),
        pos + 8 <= d.len() ==> spec_skip_field(d, pos, 1) == Some(pos + 8),
        pos + 4 <= d.len() ==> spec_skip_field(d, pos, 5) == Some(pos + 4),
        varint_len_from(d, pos, 0) matches Some(k) ==> {
            let len = leb(d.subrange(pos, pos + k));
            &&& pos + k + len <= d.len() ==> spec_skip_field(d, pos, 2) == Some(pos + k + len)
            &&& pos + k + len > d.len() && len < 0x1_0000_0000_0000_0000 ==> spec_skip_field(
                d,
                pos,
                2,
            ) is None
        },
{
    lemma_varint_len_bounds(d, pos, 0);
    if let Some(k) = varint_len_from(d, pos, 0) {
        let len = leb(d.subrange(pos, pos + k));
        if len >= 0x1_0000_0000_0000_0000 {
            assert(pos + k + len > d.len());
        }
    }
}

/// Skips a field value in the wire format based on the wire type.
/// Returns the new position after skipping, or `None` if data is truncated.
pub fn skip_field(data: &[u8], pos: usize, wire_type: u8) -> (r: Option<usize>)
    requires
        pos <= data.len(),
    ensures
        match spec_skip_field(data@, pos as int, wire_type) {
            Some(end) => r == Some(end as usize),
            None => r is None,
        },
    decreases data.len() - pos,
{
    proof {
        lemma_skip_bounds(data@, pos as int, wire_type);
        lemma_read_varint_bounds(data@, pos as int);
    }
    if wire_type == 0 {
        match read_varint(data, pos) {
            Some((_, new_pos)) => Some(new_pos),
            None => None,
        }
    } else if wire_type == 1 {
        if data.len() - pos < 8 {
            None
        } else {
            Some(pos + 8)
        }
    } else if wire_type == 2 {
        match read_varint(data, pos) {
            Some((length, new_pos)) => {
                if length > (data.len() - new_pos) as u64 {
                    None
                } else {
                    Some(new_pos + length as usize)
                }
            },
            None => None,
        }
    } else if wire_type == 3 {
        let mut p = pos;
        loop
            invariant
                wire_type == 3,
                pos <= p <= data.len(),
                spec_group_end(data@, pos as int) == spec_group_end(data@, p as int),
            decreases data.len() - p,
        {
            proof {
                lemma_read_varint_bounds(data@, p as int);
            }
            match read_varint(data, p) {
                None => {
                    return None;
                },
                Some((tag, new_p)) => {
                    let wt = (tag & 0x07) as u8;
                    assert(tag & 7 < 8) by (bit_vector);
                    if wt == 4 {
                        return Some(new_p);
                    }
                    proof {
                        lemma_skip_bounds(data@, new_p as int, wt);
                    }
                    match skip_field(data, new_p, wt) {
                        None => {
                            return None;
                        },
                        Some(q) => {
                            p = q;
                        },
                    }
                },
            }
        }
    } else if wire_type == 4 {
        Some(pos)
    } else if wire_type == 5 {
        if data.len() - pos < 4 {
            None
        } else {
            Some(pos + 4)
        }
    } else {
        None
    }
}

/// Reads the protobuf wire format to find the boundary of a single message.
///
/// Watches for field number 1 (the "name" field of a file descriptor)
/// appearing a second time, which indicates the next concatenated message.
/// Returns the byte offset of the message boundary.
pub fn consume_one_message(data: &[u8]) -> (r: Option<usize>)
    ensures
        r == Some(spec_consume(data@, 0, false) as usize),
        0 <= spec_consume(data@, 0, false) <= data.len(),
{
    proof {
        lemma_consume_bounds(data@, 0, false);
    }
    let mut pos: usize = 0;
    let mut consumed_field_one = false;
    while pos < data.len()
        invariant
            pos <= data.len(),
            spec_consume(data@, 0, false) == spec_consume(data@, pos as int, consumed_field_one),
        decreases data.len() - pos,
    {
        let position_before_field = pos;
        proof {
            lemma_read_varint_bounds(data@, pos as int);
        }
        let (tag, new_pos) = match read_varint(data, pos) {
            Some(v) => v,
            None => {
                return Some(position_before_field);
            },
        };
        if tag == 0 {
            return Some(position_before_field);
        }
        let field_number = tag >> 3;
        let wire_type = tag & 0x07;
        let ghost seen_before = consumed_field_one;
        if field_number == 1 {
            if consumed_field_one {
                return Some(position_before_field);
            }
            consumed_field_one = true;
        }
        proof {
            lemma_skip_bounds(data@, new_pos as int, wire_type as u8);
        }
        pos = match skip_field(data, new_pos, wire_type as u8) {
            Some(p) => p,
            None => {
                return Some(position_before_field);
            },
        };
        assert(consumed_field_one == (seen_before || tag >> 3 == 1));
    }
    Some(pos)
}

/// `d2` holds the same bytes as `d` below `end`.
pub open spec fn agree_upto(d: Seq<u8>, d2: Seq<u8>, end: int) -> bool {
    &&& 0 <= end <= d.len()
    &&& end <= d2.len()
    &&& forall|i: int| 0 <= i < end ==> d[i] == d2[i]
}

proof fn lemma_varint_len_prefix(d: Seq<u8>, d2: Seq<u8>, pos: int, k: nat)
    requires
        varint_len_from(d, pos, k) matches Some(n) && agree_upto(d, d2, pos + n),
    ensures
        varint_len_from(d2, pos, k) == varint_len_from(d, pos, k),
    decreases 10 - k,
{
    lemma_varint_len_bounds(d, pos, k);
    if d[pos + k] >= 0x80 {
        lemma_varint_len_prefix(d, d2, pos, k + 1);
    }
}

/// A varint reads the same from any data that agrees with `d` up to its end.
pub proof fn lemma_read_varint_prefix(d: Seq<u8>, d2: Seq<u8>, pos: int)
    requires
        spec_read_varint(d, pos) matches Some((_, end)) && agree_upto(d, d2, end),
    ensures
        spec_read_varint(d2, pos) == spec_read_varint(d, pos),
{
    lemma_varint_len_bounds(d, pos, 0);
    lemma_varint_len_prefix(d, d2, pos, 0);
    let n = varint_len_from(d, pos, 0)->0;
    assert(d.subrange(pos, pos + n) =~= d2.subrange(pos, pos + n));
}

/// Skipping a field gives the same end on any data that agrees up to that end.
pub proof fn lemma_skip_prefix(d: Seq<u8>, d2: Seq<u8>, pos: int, wire_type: u8)
    requires
        0 <= pos <= d.len(),
        spec_skip_field(d, pos, wire_type) matches Some(end) && agree_upto(d, d2, end),
    ensures
        spec_skip_field(d2, pos, wire_type) == spec_skip_field(d, pos, wire_type),
    decreases d.len() - pos, 1nat,
{
    lemma_read_varint_bounds(d, pos);
    if wire_type == 0 || wire_type == 2 {
        lemma_read_varint_prefix(d, d2, pos);
    } else if wire_type == 3 {
        lemma_group_prefix(d, d2, pos);
    }
}

pub proof fn lemma_group_prefix(d: Seq<u8>, d2: Seq<u8>, pos: int)
    requires
        0 <= pos <= d.len(),
        spec_group_end(d, pos) matches Some(end) && agree_upto(d, d2, end),
    ensures
        spec_group_end(d2, pos) == spec_group_end(d, pos),
    decreases d.len() - pos, 0nat,
{
    lemma_read_varint_bounds(d, pos);
    lemma_group_bounds(d, pos);
    let end = spec_group_end(d, pos)->0;
    let (tag, next) = spec_read_varint(d, pos)->0;
    if tag & 7 != 4 {
        lemma_skip_bounds(d, next, (tag & 7) as u8);
        let after = spec_skip_field(d, next, (tag & 7) as u8)->0;
        lemma_group_bounds(d, after);
        assert(agree_upto(d, d2, next));
        assert(agree_upto(d, d2, after));
        lemma_read_varint_prefix(d, d2, pos);
        lemma_skip_prefix(d, d2, next, (tag & 7) as u8);
        lemma_group_prefix(d, d2, after);
    } else {
        lemma_read_varint_prefix(d, d2, pos);
    }
}

proof fn lemma_consume_reframe(d: Seq<u8>, pos: int, seen_one: bool)
    requires
        0 <= pos <= d.len(),
    ensures
        spec_consume(d.subrange(0, spec_consume(d, pos, seen_one)), pos, seen_one) == spec_consume(
            d,
            pos,
            seen_one,
        ),
    decreases d.len() - pos,
{
    lemma_consume_bounds(d, pos, seen_one);
    let n = spec_consume(d, pos, seen_one);
    let d2 = d.subrange(0, n);
    if pos < d.len() {
        lemma_read_varint_bounds(d, pos);
        if let Some((tag, next)) = spec_read_varint(d, pos) {
            if !(tag == 0 || (tag >> 3 == 1 && seen_one)) {
                lemma_skip_bounds(d, next, (tag & 7) as u8);
                if let Some(after) = spec_skip_field(d, next, (tag & 7) as u8) {
                    if pos < after <= d.len() {
                        let seen2 = seen_one || tag >> 3 == 1;
                        lemma_consume_bounds(d, after, seen2);
                        lemma_consume_reframe(d, after, seen2);
                        lemma_read_varint_prefix(d, d2, pos);
                        lemma_skip_prefix(d, d2, next, (tag & 7) as u8);
                    }
                }
            }
        }
    }
}

/// Framing is stable: the bytes that `consume_one_message` marks as one message
/// are, taken alone, again framed as exactly one whole message.
pub proof fn law_reframing_is_stable(data: Seq<u8>)
    ensures
        spec_consume(data.subrange(0, spec_consume(data, 0, false)), 0, false) == spec_consume(
            data,
            0,
            false,
        ),
{
    lemma_consume_reframe(data, 0, false);
}

} // verus!
