//! Nibble arena, cursor views and the primitive field decoders.
//!
//! The whole input is one immutable sequence of 4-bit values, obtained by
//! splitting each byte into (low nibble, high nibble) in that order.  A
//! [`Cursor`] is a lightweight view descriptor: an absolute position and an
//! absolute exclusive bound within that shared arena.  Views never copy the
//! arena, and every view keeps absolute addressing, so nested forward and
//! backward jumps never lose global position.

use vstd::prelude::*;

use crate::Error;

verus! {

/// Every stored nibble is a 4-bit value.
pub open spec fn nibbles_wf(a: Seq<u8>) -> bool {
    forall|i: int| 0 <= i < a.len() ==> a[i] < 16
}

/// Nibble expansion of a byte sequence: for each byte, its low nibble first,
/// then its high nibble.
pub open spec fn expand_bytes(bs: Seq<u8>) -> Seq<u8> {
    Seq::new(bs.len() * 2, |i: int| if i % 2 == 0 { bs[i / 2] & 0xf } else { bs[i / 2] >> 4 })
}

/// Re-packing of a nibble sequence into bytes: the inverse of expansion.
/// An odd trailing nibble is dropped.
pub open spec fn pack_nibbles(ns: Seq<u8>) -> Seq<u8> {
    Seq::new(ns.len() / 2, |i: int| ns[2 * i] | (ns[2 * i + 1] << 4))
}

/// Re-packing the nibble expansion of any byte sequence reproduces that
/// sequence exactly.
pub proof fn lemma_nibble_round_trip(bs: Seq<u8>)
    ensures
        pack_nibbles(expand_bytes(bs)) == bs,
{
    let e = expand_bytes(bs);
    assert forall|i: int| 0 <= i < bs.len() implies pack_nibbles(e)[i] == bs[i] by {
        let b = bs[i];
        assert((2 * i) % 2 == 0);
        assert((2 * i) / 2 == i);
        assert((2 * i + 1) % 2 == 1);
        assert((2 * i + 1) / 2 == i);
        assert(((b & 0xf) | ((b >> 4) << 4)) == b) by (bit_vector);
    }
    assert(pack_nibbles(expand_bytes(bs)) =~= bs);
}

/// The unsigned value of a nibble sequence read least-significant nibble
/// first (the format's little-endian fixed-width integer encoding).
pub open spec fn le_val(s: Seq<u8>) -> nat
    decreases s.len(),
{
    if s.len() == 0 {
        0
    } else {
        (s[0] + 16 * le_val(s.skip(1))) as nat
    }
}

/// The value of the `w` nibbles of `a` starting at `pos`.
pub open spec fn nib_at(a: Seq<u8>, pos: int, w: int) -> nat {
    le_val(a.subrange(pos, pos + w))
}

/// 16 to the power `w`: one more than the largest value of `w` nibbles.
pub open spec fn pow16(w: nat) -> nat
    decreases w,
{
    if w == 0 {
        1
    } else {
        16 * pow16((w - 1) as nat)
    }
}

pub proof fn lemma_pow16_le(w1: nat, w2: nat)
    requires
        w1 <= w2,
    ensures
        pow16(w1) <= pow16(w2),
    decreases w2,
{
    if w1 < w2 && w2 > 0 {
        lemma_pow16_le(w1, (w2 - 1) as nat);
    }
}

/// A well-formed nibble sequence encodes a value below `pow16` of its length.
pub proof fn lemma_le_val_bound(s: Seq<u8>)
    requires
        forall|i: int| 0 <= i < s.len() ==> s[i] < 16,
    ensures
        le_val(s) < pow16(s.len()),
    decreases s.len(),
{
    if s.len() > 0 {
        lemma_le_val_bound(s.skip(1));
    }
}

/// The documented little-endian encoding of `v` into `w` nibbles.
pub open spec fn le_nibbles(v: nat, w: nat) -> Seq<u8>
    decreases w,
{
    if w == 0 {
        Seq::empty()
    } else {
        seq![(v % 16) as u8] + le_nibbles(v / 16, (w - 1) as nat)
    }
}

/// Fixed-width decode is the exact inverse of the documented encoding:
/// decoding the `w`-nibble encoding of any value below `pow16(w)` yields
/// that value back.
pub proof fn lemma_le_decode_encode(v: nat, w: nat)
    requires
        v < pow16(w),
    ensures
        le_val(le_nibbles(v, w)) == v,
    decreases w,
{
    if w > 0 {
        assert(v / 16 < pow16((w - 1) as nat)) by {
            assert(v < 16 * pow16((w - 1) as nat));
        };
        lemma_le_decode_encode(v / 16, (w - 1) as nat);
        let s = le_nibbles(v, w);
        assert(s.skip(1) =~= le_nibbles(v / 16, (w - 1) as nat));
        assert(le_val(s) == v % 16 + 16 * (v / 16));
    }
}

/// And in the other direction: encoding the decoded value of any
/// well-formed nibble sequence reproduces the sequence.
pub proof fn lemma_le_encode_decode(s: Seq<u8>)
    requires
        forall|i: int| 0 <= i < s.len() ==> s[i] < 16,
    ensures
        le_nibbles(le_val(s), s.len()) == s,
    decreases s.len(),
{
    if s.len() == 0 {
        assert(le_nibbles(le_val(s), s.len()) =~= s);
    } else {
        let v = le_val(s);
        let rest = le_val(s.skip(1));
        assert(v == s[0] + 16 * rest);
        assert(v % 16 == s[0]);
        assert(v / 16 == rest);
        lemma_le_encode_decode(s.skip(1));
        assert(le_nibbles(v, s.len()) =~= s);
    }
}

/// A view into the shared nibble arena: an absolute position and an
/// absolute exclusive bound.
#[derive(Debug, Clone, Copy)]
pub struct Cursor {
    pub pos: usize,
    pub end: usize,
}

impl Cursor {
    /// The view lies within the arena.
    pub open spec fn wf(self, a: Seq<u8>) -> bool {
        self.pos <= self.end && self.end <= a.len()
    }

    /// Nibbles remaining in the view.
    pub open spec fn rem(self) -> int {
        self.end - self.pos
    }

    /// A view over the whole arena.
    pub fn over(a: &[u8]) -> (c: Cursor)
        ensures
            c.pos == 0,
            c.end == a@.len(),
            c.wf(a@),
    {
        Cursor { pos: 0, end: a.len() }
    }
}

/// Expand a byte buffer into its nibble arena.
pub fn extract_nibbles(input: &[u8]) -> (r: Vec<u8>)
    ensures
        r@ == expand_bytes(input@),
        nibbles_wf(r@),
{
    let mut out: Vec<u8> = Vec::new();
    let mut i: usize = 0;
    while i < input.len()
        invariant
            i <= input.len(),
            out@ == expand_bytes(input@.take(i as int)),
            nibbles_wf(out@),
        decreases input.len() - i,
    {
        let b = input[i];
        assert(b & 0x0f < 16) by (bit_vector);
        assert(b >> 4 < 16) by (bit_vector);
        out.push(b & 0x0f);
        out.push(b >> 4);
        i = i + 1;
        proof {
            assert(out@ =~= expand_bytes(input@.take(i as int)));
        }
    }
    proof {
        assert(input@.take(input@.len() as int) =~= input@);
    }
    out
}

/// Pack the nibbles of `ns` in `[start, end)` back into bytes; an odd
/// trailing nibble is dropped.
pub fn nibbles_to_bytes(ns: &[u8], start: usize, end: usize) -> (r: Vec<u8>)
    requires
        start <= end <= ns@.len(),
    ensures
        r@ == pack_nibbles(ns@.subrange(start as int, end as int)),
{
    let count: usize = (end - start) / 2;
    let mut out: Vec<u8> = Vec::new();
    let mut i: usize = 0;
    while i < count
        invariant
            start <= end <= ns@.len(),
            count == (end - start) / 2,
            i <= count,
            out@ == pack_nibbles(ns@.subrange(start as int, end as int)).take(i as int),
        decreases count - i,
    {
        let b: u8 = ns[start + 2 * i] | (ns[start + 2 * i + 1] << 4u8);
        out.push(b);
        i = i + 1;
        proof {
            assert(out@ =~= pack_nibbles(ns@.subrange(start as int, end as int)).take(i as int));
        }
    }
    proof {
        let p = pack_nibbles(ns@.subrange(start as int, end as int));
        assert(p.take(p.len() as int) =~= p);
    }
    out
}

/// The value of `w` nibbles at `pos`, least-significant nibble first.
fn read_le(a: &[u8], pos: usize, w: usize) -> (r: u64)
    requires
        pos + w <= a@.len(),
        w <= 16,
        nibbles_wf(a@),
    ensures
        r == nib_at(a@, pos as int, w as int),
        r < pow16(w as nat),
    decreases w,
{
    proof {
        lemma_le_val_bound(a@.subrange(pos as int, pos + w));
        lemma_pow16_le(w as nat, 16);
        reveal_with_fuel(pow16, 17);
        assert(pow16(16) == 0x10000000000000000);
    }
    if w == 0 {
        assert(a@.subrange(pos as int, pos as int).len() == 0);
        0
    } else {
        let n: usize = a.len();
        assert(pos + 1 <= n);
        let rest = read_le(a, pos + 1, w - 1);
        let d = a[pos];
        proof {
            let s = a@.subrange(pos as int, pos + w);
            assert(s.skip(1) =~= a@.subrange(pos + 1, pos + 1 + (w - 1)));
            assert(s[0] == a@[pos as int]);
            lemma_pow16_le((w - 1) as nat, 15);
            reveal_with_fuel(pow16, 16);
            assert(pow16(15) == 0x1000000000000000);
        }
        d as u64 + 16 * rest
    }
}

/// Read a fixed-width little-endian integer of `w` nibbles and advance.
/// Fails with `OutOfData`, leaving the cursor unchanged, exactly when fewer
/// than `w` nibbles remain.
pub fn next_int(a: &[u8], c: &mut Cursor, w: usize) -> (r: Result<u64, Error>)
    requires
        old(c).wf(a@),
        nibbles_wf(a@),
        1 <= w <= 16,
    ensures
        final(c).end == old(c).end,
        match r {
            Ok(v) => {
                &&& old(c).rem() >= w
                &&& final(c).pos == old(c).pos + w
                &&& v == nib_at(a@, old(c).pos as int, w as int)
                &&& v < pow16(w as nat)
            },
            Err(e) => {
                &&& e == Error::OutOfData
                &&& old(c).rem() < w
                &&& final(c).pos == old(c).pos
            },
        },
{
    if c.end - c.pos < w {
        return Err(Error::OutOfData);
    }
    let v = read_le(a, c.pos, w);
    c.pos = c.pos + w;
    Ok(v)
}

/// The wrapped binary-coded-decimal value of a nibble sequence: each nibble
/// is a base-10 digit, combined most-significant digit first, accumulated
/// modulo 2^64.
pub open spec fn bcd_val(s: Seq<u8>) -> nat
    decreases s.len(),
{
    if s.len() == 0 {
        0
    } else {
        ((bcd_val(s.drop_last()) * 10 + s.last()) % 0x10000000000000000) as nat
    }
}

/// Decode the whole view as a binary-coded-decimal integer.  The cursor is
/// only read, never advanced, and the decode never fails.
pub fn decode_bcd(a: &[u8], c: &Cursor) -> (r: u64)
    requires
        c.wf(a@),
    ensures
        r == bcd_val(a@.subrange(c.pos as int, c.end as int)),
{
    let mut value: u64 = 0;
    let mut i: usize = 0;
    while i < c.end - c.pos
        invariant
            c.wf(a@),
            i <= c.rem(),
            value == bcd_val(a@.subrange(c.pos as int, c.pos + i)),
        decreases c.rem() - i,
    {
        let d = a[c.pos + i];
        value = value.wrapping_mul(10).wrapping_add(d as u64);
        i = i + 1;
        proof {
            let s = a@.subrange(c.pos as int, c.pos + i);
            assert(s.drop_last() =~= a@.subrange(c.pos as int, c.pos + i - 1));
        }
    }
    proof {
        assert(a@.subrange(c.pos as int, c.pos + (c.end - c.pos)) =~= a@.subrange(
            c.pos as int,
            c.end as int,
        ));
    }
    value
}

/// The text that permissive decoding yields for a byte sequence: a function
/// of the bytes alone.
pub uninterp spec fn text_of(bytes: Seq<u8>) -> Seq<char>;

/// Relies on String::from_utf8_lossy: the decoded text is a function of the
/// bytes alone (invalid sequences are replaced, never rejected), and bytes
/// that are all ASCII decode to exactly the corresponding characters.
#[verifier::external_body]
pub fn bytes_to_text(bytes: &Vec<u8>) -> (r: String)
    ensures
        r@ == text_of(bytes@),
        (forall|i: int| 0 <= i < bytes@.len() ==> bytes@[i] < 0x80) ==> r@ == bytes@.map(
            |_i: int, b: u8| b as char,
        ),
{
    String::from_utf8_lossy(bytes).into_owned()
}

/// The declared character count of the length-prefixed string at `pos`.
pub open spec fn pascal_len(a: Seq<u8>, pos: int) -> nat {
    nib_at(a, pos, 2)
}

/// The packed name bytes of the length-prefixed string at `pos`.
pub open spec fn pascal_bytes(a: Seq<u8>, pos: int) -> Seq<u8> {
    pack_nibbles(a.subrange(pos + 2, pos + 2 + 2 * pascal_len(a, pos)))
}

/// The decoded text of the length-prefixed string at `pos`.
pub open spec fn pascal_chars(a: Seq<u8>, pos: int) -> Seq<char> {
    text_of(pascal_bytes(a, pos))
}

/// Decode a length-prefixed ("pascal") string: a 2-nibble character count
/// `L`, then `L` nibble pairs interpreted as bytes, decoded permissively as
/// text.  Fails with `OutOfData`, leaving the cursor unchanged, exactly when
/// the length field or the declared characters exceed the view.
pub fn pascal_string(a: &[u8], c: &mut Cursor) -> (r: Result<String, Error>)
    requires
        old(c).wf(a@),
        nibbles_wf(a@),
    ensures
        final(c).end == old(c).end,
        final(c).wf(a@),
        match r {
            Ok(s) => {
                let l = pascal_len(a@, old(c).pos as int);
                &&& old(c).rem() >= 2
                &&& 2 * l <= old(c).rem() - 2
                &&& final(c).pos == old(c).pos + 2 + 2 * l
                &&& s@ == pascal_chars(a@, old(c).pos as int)
            },
            Err(e) => {
                &&& e == Error::OutOfData
                &&& final(c).pos == old(c).pos
                &&& (old(c).rem() < 2 || 2 * pascal_len(a@, old(c).pos as int) > old(c).rem() - 2)
            },
        },
{
    let mut t = *c;
    let l64 = match next_int(a, &mut t, 2) {
        Ok(v) => v,
        Err(e) => {
            return Err(e);
        },
    };
    proof {
        reveal_with_fuel(pow16, 3);
        assert(l64 < 256);
    }
    let l: usize = l64 as usize;
    if 2 * l > c.end - t.pos {
        return Err(Error::OutOfData);
    }
    let bytes = nibbles_to_bytes(a, t.pos, t.pos + 2 * l);
    let s = bytes_to_text(&bytes);
    c.pos = t.pos + 2 * l;
    Ok(s)
}

/// Specification mirror of [`next_int`]: the value of a `w`-nibble field at
/// `pos`, or `OutOfData` when the field exceeds the view.
pub open spec fn int_at(a: Seq<u8>, pos: int, end: int, w: int) -> Result<nat, Error> {
    if end - pos < w {
        Err(Error::OutOfData)
    } else {
        Ok(nib_at(a, pos, w))
    }
}

/// Specification mirror of [`pascal_string`]: the decoded text and the
/// position after it, or `OutOfData`.
pub open spec fn pascal_at(a: Seq<u8>, pos: int, end: int) -> Result<(Seq<char>, int), Error> {
    let l = pascal_len(a, pos);
    if end - pos < 2 || 2 * l > end - pos - 2 {
        Err(Error::OutOfData)
    } else {
        Ok((pascal_chars(a, pos), pos + 2 + 2 * l))
    }
}

/// Specification mirror of [`next_offset`]: the resolved absolute target of
/// the 5-nibble offset field at `pos` (`None` for a zero field), or
/// `OutOfData`.
pub open spec fn offset_at(a: Seq<u8>, pos: int, end: int) -> Result<Option<int>, Error> {
    let v = nib_at(a, pos, 5);
    if end - pos < 5 {
        Err(Error::OutOfData)
    } else if v == 0 {
        Ok(None)
    } else if v < 5 || v - 5 >= end - pos - 5 {
        Err(Error::OutOfData)
    } else {
        Ok(Some(pos + 5 + v - 5))
    }
}

/// Specification mirror of [`next_lv`]: the payload bounds of the
/// length-value region at `pos`, or `OutOfData`.
pub open spec fn lv_at(a: Seq<u8>, pos: int, end: int) -> Result<(int, int), Error> {
    let l = nib_at(a, pos, 5);
    if end - pos < 5 || l < 5 || l - 5 > end - pos - 5 {
        Err(Error::OutOfData)
    } else {
        Ok((pos + 5, pos + l))
    }
}

/// Specification mirror of [`next_tlv`]: the tag and payload bounds of the
/// tag-length-value region at `pos`, or `OutOfData`.
pub open spec fn tlv_at(a: Seq<u8>, pos: int, end: int) -> Result<(u32, int, int), Error> {
    let tag = nib_at(a, pos, 5) as u32;
    let l = nib_at(a, pos + 5, 5);
    if end - pos < 10 || l > end - pos - 10 {
        Err(Error::OutOfData)
    } else {
        Ok((tag, pos + 10, pos + 10 + l))
    }
}

/// Copy the nibbles of `[start, end)` into an owned buffer.
pub fn copy_nibbles(a: &[u8], start: usize, end: usize) -> (r: Vec<u8>)
    requires
        start <= end <= a@.len(),
    ensures
        r@ == a@.subrange(start as int, end as int),
{
    let mut out: Vec<u8> = Vec::new();
    let mut i: usize = start;
    while i < end
        invariant
            start <= i <= end <= a@.len(),
            out@ == a@.subrange(start as int, i as int),
        decreases end - i,
    {
        out.push(a[i]);
        i = i + 1;
        proof {
            assert(out@ =~= a@.subrange(start as int, i as int));
        }
    }
    out
}

/// Read a 5-nibble offset field and resolve it.  A zero value yields
/// "absent"; a value `V` yields a view whose first nibble sits exactly
/// `V - 5` nibbles beyond the cursor position immediately after the field,
/// and whose bound is the view's own bound.  Fails with `OutOfData`, leaving
/// the cursor unchanged, when the field is truncated or the destination
/// exceeds the view.
pub fn next_offset(a: &[u8], c: &mut Cursor) -> (r: Result<Option<Cursor>, Error>)
    requires
        old(c).wf(a@),
        nibbles_wf(a@),
    ensures
        final(c).end == old(c).end,
        final(c).wf(a@),
        match r {
            Ok(opt) => {
                let v = nib_at(a@, old(c).pos as int, 5);
                &&& old(c).rem() >= 5
                &&& final(c).pos == old(c).pos + 5
                &&& match opt {
                    None => v == 0,
                    Some(t) => {
                        &&& v >= 5
                        &&& v - 5 < old(c).rem() - 5
                        &&& t.pos == old(c).pos + 5 + (v - 5)
                        &&& t.end == old(c).end
                        &&& t.wf(a@)
                    },
                }
            },
            Err(e) => {
                let v = nib_at(a@, old(c).pos as int, 5);
                &&& e == Error::OutOfData
                &&& final(c).pos == old(c).pos
                &&& (old(c).rem() < 5 || (v > 0 && (v < 5 || v - 5 >= old(c).rem() - 5)))
            },
        },
{
    let mut t = *c;
    let v64 = match next_int(a, &mut t, 5) {
        Ok(v) => v,
        Err(e) => {
            return Err(e);
        },
    };
    proof {
        reveal_with_fuel(pow16, 6);
        assert(v64 < 0x100000);
    }
    let v: usize = v64 as usize;
    if v == 0 {
        c.pos = t.pos;
        return Ok(None);
    }
    if v < 5 || v - 5 >= c.end - t.pos {
        return Err(Error::OutOfData);
    }
    let target = Cursor { pos: t.pos + (v - 5), end: c.end };
    c.pos = t.pos;
    Ok(Some(target))
}

/// Read a 5-nibble offset field that must be present: a zero value is a
/// structural `Mismatch`, an unreachable destination is `OutOfData`.
pub fn next_mandatory_offset(a: &[u8], c: &mut Cursor) -> (r: Result<Cursor, Error>)
    requires
        old(c).wf(a@),
        nibbles_wf(a@),
    ensures
        final(c).end == old(c).end,
        final(c).wf(a@),
        match r {
            Ok(t) => {
                let v = nib_at(a@, old(c).pos as int, 5);
                &&& old(c).rem() >= 5
                &&& final(c).pos == old(c).pos + 5
                &&& v >= 5
                &&& v - 5 < old(c).rem() - 5
                &&& t.pos == old(c).pos + 5 + (v - 5)
                &&& t.end == old(c).end
                &&& t.wf(a@)
            },
            Err(e) => {
                let v = nib_at(a@, old(c).pos as int, 5);
                &&& final(c).pos == old(c).pos || (v == 0 && final(c).pos == old(c).pos + 5)
                &&& if old(c).rem() < 5 || (v > 0 && (v < 5 || v - 5 >= old(c).rem() - 5)) {
                    e == Error::OutOfData
                } else {
                    e == Error::Mismatch && v == 0
                }
            },
        },
{
    match next_offset(a, c) {
        Ok(Some(t)) => Ok(t),
        Ok(None) => Err(Error::Mismatch),
        Err(e) => Err(e),
    }
}

/// A backward jump: the view of the `count` nibbles immediately before the
/// view's current position, ending where it starts.  Fails with `OutOfData`
/// when the distance exceeds the absolute position.
pub fn previous_nibbles(c: &Cursor, count: usize) -> (r: Result<Cursor, Error>)
    ensures
        match r {
            Ok(t) => {
                &&& c.pos >= count
                &&& t.pos == c.pos - count
                &&& t.end == c.pos
            },
            Err(e) => e == Error::OutOfData && c.pos < count,
        },
{
    if c.pos < count {
        return Err(Error::OutOfData);
    }
    Ok(Cursor { pos: c.pos - count, end: c.pos })
}

/// The ASCII code of the lowercase hexadecimal digit for a nibble value.
pub open spec fn hex_digit_byte(d: nat) -> u8 {
    if d < 10 {
        (0x30 + d) as u8
    } else {
        (0x57 + d) as u8
    }
}

/// The ASCII hexadecimal rendering of a value, most significant digit
/// first, with no leading zeros.
pub open spec fn hex_bytes(n: nat) -> Seq<u8>
    decreases n,
{
    if n < 16 {
        seq![hex_digit_byte(n)]
    } else {
        hex_bytes(n / 16).push(hex_digit_byte(n % 16))
    }
}

/// The hexadecimal rendering of a line address, zero-padded to at least
/// four digits.
pub open spec fn addr_bytes(n: nat) -> Seq<u8> {
    let h = hex_bytes(n);
    if h.len() < 4 {
        Seq::new((4 - h.len()) as nat, |_i: int| 0x30u8) + h
    } else {
        h
    }
}

/// The sixteen hex columns of one dump line: each present nibble as a hex
/// digit and a space, absent columns as two spaces.
pub open spec fn hex_cols(ns: Seq<u8>, i: int, j: int) -> Seq<u8>
    decreases 16 - j,
{
    if j >= 16 {
        Seq::empty()
    } else {
        (if i + j < ns.len() {
            hex_bytes(ns[i + j] as nat) + seq![0x20u8]
        } else {
            seq![0x20u8, 0x20u8]
        }) + hex_cols(ns, i, j + 1)
    }
}

/// One of the two ASCII columns of a dump line: eight bytes assembled from
/// nibble pairs at the given shift, printable ones shown, others dotted,
/// absent ones blank.
pub open spec fn ascii_cols(ns: Seq<u8>, i: int, shift: int, j: int) -> Seq<u8>
    decreases 8 - j,
{
    if j >= 8 {
        Seq::empty()
    } else {
        let idx = i + j * 2 + shift;
        (if idx + 1 < ns.len() {
            let b = (ns[idx + 1] << 4) | ns[idx];
            seq![
                if 0x1f <= b && b <= 0x7f {
                    b
                } else {
                    0x2eu8
                },
            ]
        } else {
            seq![0x20u8]
        }) + ascii_cols(ns, i, shift, j + 1)
    }
}

/// One dump line: the address, the hex columns, and the two shifted ASCII
/// columns, separated by double spaces and ended by a newline.
pub open spec fn dump_line(ns: Seq<u8>, off: nat, i: int) -> Seq<u8> {
    addr_bytes((off + i) as nat) + seq![0x20u8, 0x20u8] + hex_cols(ns, i, 0) + seq![0x20u8, 0x20u8]
        + ascii_cols(ns, i, 0, 0) + seq![0x20u8, 0x20u8] + ascii_cols(ns, i, 1, 0) + seq![0x0au8]
}

/// The dump lines covering the first `l` nibbles, sixteen per line.
pub open spec fn dump_lines(ns: Seq<u8>, off: nat, i: int, l: int) -> Seq<u8>
    decreases l + 16 - i,
{
    if i >= l {
        Seq::empty()
    } else {
        dump_line(ns, off, i) + dump_lines(ns, off, i + 16, l)
    }
}

/// The full dump as bytes: at most `lim` nibbles are shown.
pub open spec fn hexdump_bytes(ns: Seq<u8>, off: nat, lim: int) -> Seq<u8> {
    let l = if ns.len() <= lim {
        ns.len() as int
    } else {
        lim
    };
    dump_lines(ns, off, 0, l)
}

/// The full dump as text; every byte of it is ASCII.
pub open spec fn hexdump_chars(ns: Seq<u8>, off: nat, lim: int) -> Seq<char> {
    hexdump_bytes(ns, off, lim).map(|_i: int, b: u8| b as char)
}

/// The hex digit byte of a nibble value.
fn hex_digit_e(d: u8) -> (r: u8)
    requires
        d < 16,
    ensures
        r == hex_digit_byte(d as nat),
        r < 0x80,
{
    if d < 10 {
        0x30 + d
    } else {
        0x57 + d
    }
}

/// The hexadecimal rendering of a value.
fn hex_bytes_e(n: usize) -> (r: Vec<u8>)
    ensures
        r@ == hex_bytes(n as nat),
        forall|k: int| 0 <= k < r@.len() ==> r@[k] < 0x80,
    decreases n,
{
    if n < 16 {
        let mut out: Vec<u8> = Vec::new();
        out.push(hex_digit_e(n as u8));
        proof {
            assert(out@ =~= seq![hex_digit_byte(n as nat)]);
        }
        out
    } else {
        let mut out = hex_bytes_e(n / 16);
        out.push(hex_digit_e((n % 16) as u8));
        out
    }
}

/// The zero-padded line address.
fn addr_bytes_e(n: usize) -> (r: Vec<u8>)
    ensures
        r@ == addr_bytes(n as nat),
        forall|k: int| 0 <= k < r@.len() ==> r@[k] < 0x80,
{
    let h = hex_bytes_e(n);
    if h.len() >= 4 {
        return h;
    }
    let mut out: Vec<u8> = Vec::new();
    let pad: usize = 4 - h.len();
    let mut i: usize = 0;
    while i < pad
        invariant
            i <= pad,
            out@ == Seq::new(i as nat, |_i: int| 0x30u8),
        decreases pad - i,
    {
        out.push(0x30);
        i = i + 1;
        proof {
            assert(out@ =~= Seq::new(i as nat, |_i: int| 0x30u8));
        }
    }
    let mut h2 = h;
    out.append(&mut h2);
    proof {
        assert(out@ =~= addr_bytes(n as nat));
    }
    out
}

/// The sixteen hex columns of one dump line.
fn hex_cols_e(ns: &[u8], i: usize, j: usize) -> (r: Vec<u8>)
    requires
        i <= ns@.len(),
        j <= 16,
    ensures
        r@ == hex_cols(ns@, i as int, j as int),
        forall|k: int| 0 <= k < r@.len() ==> r@[k] < 0x80,
    decreases 16 - j,
{
    if j >= 16 {
        let empty: Vec<u8> = Vec::new();
        proof {
            assert(empty@ =~= Seq::<u8>::empty());
        }
        return empty;
    }
    let mut out: Vec<u8> = Vec::new();
    if j < ns.len() - i {
        let mut hb = hex_bytes_e(ns[i + j] as usize);
        out.append(&mut hb);
        out.push(0x20);
    } else {
        out.push(0x20);
        out.push(0x20);
    }
    let mut rest = hex_cols_e(ns, i, j + 1);
    out.append(&mut rest);
    proof {
        assert(out@ =~= hex_cols(ns@, i as int, j as int));
    }
    out
}

/// One of the two ASCII columns of a dump line.
fn ascii_cols_e(ns: &[u8], i: usize, shift: usize, j: usize) -> (r: Vec<u8>)
    requires
        i <= ns@.len(),
        shift <= 1,
        j <= 8,
    ensures
        r@ == ascii_cols(ns@, i as int, shift as int, j as int),
        forall|k: int| 0 <= k < r@.len() ==> r@[k] < 0x80,
    decreases 8 - j,
{
    if j >= 8 {
        let empty: Vec<u8> = Vec::new();
        proof {
            assert(empty@ =~= Seq::<u8>::empty());
        }
        return empty;
    }
    let mut out: Vec<u8> = Vec::new();
    let rel: usize = j * 2 + shift;
    if rel + 1 < ns.len() - i {
        let idx: usize = i + rel;
        let b: u8 = (ns[idx + 1] << 4u8) | ns[idx];
        if 0x1f <= b && b <= 0x7f {
            out.push(b);
        } else {
            out.push(0x2e);
        }
    } else {
        out.push(0x20);
    }
    let mut rest = ascii_cols_e(ns, i, shift, j + 1);
    out.append(&mut rest);
    proof {
        assert(out@ =~= ascii_cols(ns@, i as int, shift as int, j as int));
    }
    out
}

/// The dump lines covering nibbles `i` to `l`.
fn dump_lines_e(ns: &[u8], off: usize, i: usize, l: usize) -> (r: Vec<u8>)
    requires
        i <= ns@.len(),
        l <= ns@.len(),
        off + ns@.len() <= usize::MAX,
    ensures
        r@ == dump_lines(ns@, off as nat, i as int, l as int),
        forall|k: int| 0 <= k < r@.len() ==> r@[k] < 0x80,
    decreases l + 16 - i,
{
    if i >= l {
        let empty: Vec<u8> = Vec::new();
        proof {
            assert(empty@ =~= Seq::<u8>::empty());
        }
        return empty;
    }
    let mut out = addr_bytes_e(off + i);
    out.push(0x20);
    out.push(0x20);
    let mut hc = hex_cols_e(ns, i, 0);
    out.append(&mut hc);
    out.push(0x20);
    out.push(0x20);
    let mut a0 = ascii_cols_e(ns, i, 0, 0);
    out.append(&mut a0);
    out.push(0x20);
    out.push(0x20);
    let mut a1 = ascii_cols_e(ns, i, 1, 0);
    out.append(&mut a1);
    out.push(0x0a);
    if l - i > 16 {
        let mut rest = dump_lines_e(ns, off, i + 16, l);
        out.append(&mut rest);
    } else {
        proof {
            assert(dump_lines(ns@, off as nat, i + 16, l as int) =~= Seq::<u8>::empty());
        }
    }
    proof {
        assert(out@ =~= dump_lines(ns@, off as nat, i as int, l as int));
    }
    out
}

/// Render a hex-and-ASCII dump of a nibble view: sixteen nibbles per line,
/// each line carrying its address, the nibble values, and the two
/// byte-alignments of the data as ASCII.  At most `limit` nibbles are
/// shown (200 when no limit is given).
pub fn hexdump_nibbles(nibs: &[u8], offset: usize, limit: Option<usize>) -> (r: String)
    requires
        offset + nibs@.len() <= usize::MAX,
    ensures
        r@ == hexdump_chars(
            nibs@,
            offset as nat,
            match limit {
                Option::None => 200,
                Option::Some(v) => v as int,
            },
        ),
{
    let lim: usize = match limit {
        None => 200,
        Some(v) => v,
    };
    let l: usize = if nibs.len() <= lim {
        nibs.len()
    } else {
        lim
    };
    let bytes = dump_lines_e(nibs, offset, 0, l);
    let s = bytes_to_text(&bytes);
    proof {
        assert(s@ =~= hexdump_chars(
            nibs@,
            offset as nat,
            match limit {
                Option::None => 200,
                Option::Some(v) => v as int,
            },
        ));
    }
    s
}

/// Read a tag-length-value region: a 5-nibble tag, a 5-nibble payload
/// length, and a sub-view over exactly that many nibbles of payload.  The
/// cursor advances past the payload.  Fails with `OutOfData`, leaving the
/// cursor unchanged, when the declared length exceeds the remaining input.
pub fn next_tlv(a: &[u8], c: &mut Cursor) -> (r: Result<(u32, Cursor), Error>)
    requires
        old(c).wf(a@),
        nibbles_wf(a@),
    ensures
        final(c).end == old(c).end,
        final(c).wf(a@),
        match r {
            Ok(tv) => {
                let l = nib_at(a@, old(c).pos + 5, 5);
                &&& old(c).rem() >= 10
                &&& tv.0 == nib_at(a@, old(c).pos as int, 5)
                &&& l <= old(c).rem() - 10
                &&& tv.1.pos == old(c).pos + 10
                &&& tv.1.end == old(c).pos + 10 + l
                &&& tv.1.wf(a@)
                &&& final(c).pos == old(c).pos + 10 + l
            },
            Err(e) => {
                let l = nib_at(a@, old(c).pos + 5, 5);
                &&& e == Error::OutOfData
                &&& final(c).pos == old(c).pos
                &&& (old(c).rem() < 10 || l > old(c).rem() - 10)
            },
        },
{
    let mut t = *c;
    let tag64 = match next_int(a, &mut t, 5) {
        Ok(v) => v,
        Err(e) => {
            return Err(e);
        },
    };
    let len64 = match next_int(a, &mut t, 5) {
        Ok(v) => v,
        Err(e) => {
            return Err(e);
        },
    };
    proof {
        reveal_with_fuel(pow16, 6);
        assert(tag64 < 0x100000);
        assert(len64 < 0x100000);
    }
    let tag: u32 = tag64 as u32;
    let len: usize = len64 as usize;
    if len > c.end - t.pos {
        return Err(Error::OutOfData);
    }
    let sub = Cursor { pos: t.pos, end: t.pos + len };
    c.pos = t.pos + len;
    Ok((tag, sub))
}

/// Read a length-value region: a 5-nibble length that includes the length
/// field itself, then a payload view of `length - 5` nibbles.  The cursor
/// advances past the payload.  Fails with `OutOfData`, leaving the cursor
/// unchanged, when the declared length is below 5 or exceeds the remaining
/// input.
pub fn next_lv(a: &[u8], c: &mut Cursor) -> (r: Result<Cursor, Error>)
    requires
        old(c).wf(a@),
        nibbles_wf(a@),
    ensures
        final(c).end == old(c).end,
        final(c).wf(a@),
        match r {
            Ok(sub) => {
                let l = nib_at(a@, old(c).pos as int, 5);
                &&& old(c).rem() >= 5
                &&& l >= 5
                &&& l - 5 <= old(c).rem() - 5
                &&& sub.pos == old(c).pos + 5
                &&& sub.end == old(c).pos + l
                &&& sub.wf(a@)
                &&& final(c).pos == old(c).pos + l
            },
            Err(e) => {
                let l = nib_at(a@, old(c).pos as int, 5);
                &&& e == Error::OutOfData
                &&& final(c).pos == old(c).pos
                &&& (old(c).rem() < 5 || l < 5 || l - 5 > old(c).rem() - 5)
            },
        },
{
    let mut t = *c;
    let len64 = match next_int(a, &mut t, 5) {
        Ok(v) => v,
        Err(e) => {
            return Err(e);
        },
    };
    proof {
        reveal_with_fuel(pow16, 6);
        assert(len64 < 0x100000);
    }
    let len: usize = len64 as usize;
    if len < 5 || len - 5 > c.end - t.pos {
        return Err(Error::OutOfData);
    }
    let sub = Cursor { pos: t.pos, end: t.pos + (len - 5) };
    c.pos = t.pos + (len - 5);
    Ok(sub)
}

} // verus!
