//! The protobuf wire primitives that the PBF container is built from:
//! base-128 varints, zigzag signed mapping, field keys, and packed
//! repeated scalars. Every encoder is proved to emit exactly the spec
//! encoding, every decoder to return exactly what the spec parser reads,
//! and encode followed by parse is proved to be the identity.

use vstd::prelude::*;

verus! {

/// Greatest varint length the parser accepts, as in wire-format practice.
pub const MAX_VARINT_LEN: u64 = 10;

pub open spec fn pow128(n: nat) -> nat
    decreases n,
{
    if n == 0 {
        1
    } else {
        128 * pow128((n - 1) as nat)
    }
}

/// The base-128 little-endian-group encoding of an unsigned value.
pub open spec fn varint_enc(x: nat) -> Seq<u8>
    decreases x,
{
    if x < 128 {
        seq![x as u8]
    } else {
        seq![(x % 128 + 128) as u8] + varint_enc(x / 128)
    }
}

/// Reads a varint no longer than `fuel` bytes at `pos`, returning the raw
/// value and the position just past it.
pub open spec fn varint_parse_at(s: Seq<u8>, pos: int, fuel: nat) -> Option<(nat, int)>
    decreases fuel,
{
    if fuel == 0 || !(0 <= pos < s.len()) {
        None
    } else if s[pos] < 128 {
        Some((s[pos] as nat, pos + 1))
    } else {
        match varint_parse_at(s, pos + 1, (fuel - 1) as nat) {
            Some((v, end)) => Some(((s[pos] - 128) as nat + v * 128, end)),
            None => None,
        }
    }
}

/// A varint as the format admits it: at most ten bytes, value within `u64`.
pub open spec fn varint_parse(s: Seq<u8>, pos: int) -> Option<(u64, int)> {
    match varint_parse_at(s, pos, MAX_VARINT_LEN as nat) {
        Some((v, end)) => if v <= u64::MAX as nat {
            Some((v as u64, end))
        } else {
            None
        },
        None => None,
    }
}

pub proof fn lemma_pow128_pos(n: nat)
    ensures
        pow128(n) >= 1,
    decreases n,
{
    if n > 0 {
        lemma_pow128_pos((n - 1) as nat);
    }
}

pub proof fn lemma_pow128_mono(a: nat, b: nat)
    requires
        a <= b,
    ensures
        pow128(a) <= pow128(b),
    decreases b,
{
    if a < b {
        lemma_pow128_mono(a, (b - 1) as nat);
    }
}

pub proof fn lemma_pow128_vals()
    ensures
        pow128(9) == 0x8000000000000000,
        pow128(10) == 0x400000000000000000,
        pow128(1) == 128,
{
    assert(pow128(0) == 1);
    assert(pow128(1) == 128 * pow128(0));
    assert(pow128(2) == 128 * pow128(1));
    assert(pow128(3) == 128 * pow128(2));
    assert(pow128(4) == 128 * pow128(3));
    assert(pow128(5) == 128 * pow128(4));
    assert(pow128(6) == 128 * pow128(5));
    assert(pow128(7) == 128 * pow128(6));
    assert(pow128(8) == 128 * pow128(7));
    assert(pow128(9) == 128 * pow128(8));
    assert(pow128(10) == 128 * pow128(9));
}

pub proof fn lemma_varint_parse_at_bounds(s: Seq<u8>, pos: int, fuel: nat)
    ensures
        varint_parse_at(s, pos, fuel) matches Some(r) ==> {
            &&& r.0 < pow128(fuel)
            &&& pos < r.1 <= s.len()
            &&& r.1 - pos <= fuel
        },
    decreases fuel,
{
    if fuel > 0 && 0 <= pos < s.len() && s[pos] < 128 {
        lemma_pow128_pos((fuel - 1) as nat);
        assert(pow128(fuel) == 128 * pow128((fuel - 1) as nat));
    }
    if fuel > 0 && 0 <= pos < s.len() && s[pos] >= 128 {
        lemma_varint_parse_at_bounds(s, pos + 1, (fuel - 1) as nat);
        match varint_parse_at(s, pos + 1, (fuel - 1) as nat) {
            Some((v, end)) => {
                assert((s[pos] - 128) as nat + v * 128 < pow128(fuel)) by {
                    assert(v * 128 <= (pow128((fuel - 1) as nat) - 1) * 128) by {
                        vstd::arithmetic::mul::lemma_mul_inequality(
                            v as int,
                            pow128((fuel - 1) as nat) - 1,
                            128,
                        );
                    }
                }
            },
            None => {},
        }
    }
}

pub proof fn lemma_varint_parse_bounds(s: Seq<u8>, pos: int)
    ensures
        varint_parse(s, pos) matches Some(r) ==> pos < r.1 <= s.len() && r.1 - pos
            <= MAX_VARINT_LEN,
{
    lemma_varint_parse_at_bounds(s, pos, MAX_VARINT_LEN as nat);
}

pub proof fn lemma_varint_enc_len(x: nat)
    ensures
        1 <= varint_enc(x).len(),
        forall|f: nat| x < pow128(f) ==> varint_enc(x).len() <= f || x < 128,
        x <= u64::MAX as nat ==> varint_enc(x).len() <= MAX_VARINT_LEN,
    decreases x,
{
    if x >= 128 {
        lemma_varint_enc_len(x / 128);
        assert forall|f: nat| x < pow128(f) implies varint_enc(x).len() <= f by {
            assert(f > 0);
            assert(x / 128 < pow128((f - 1) as nat));
        }
        if x <= u64::MAX as nat {
            lemma_pow128_vals();
            assert(x < pow128(10));
        }
    }
}

/// Parsing an embedded varint encoding recovers the value and stops at its end.
pub proof fn lemma_varint_enc_parse_at(s: Seq<u8>, pos: int, x: nat, fuel: nat)
    requires
        x < pow128(fuel),
        fuel >= 1,
        0 <= pos,
        pos + varint_enc(x).len() <= s.len(),
        s.subrange(pos, pos + varint_enc(x).len() as int) == varint_enc(x),
    ensures
        varint_parse_at(s, pos, fuel) == Some((x, pos + varint_enc(x).len())),
    decreases fuel,
{
    let e = varint_enc(x);
    assert(s[pos] == e[0]);
    if x < 128 {
        assert(varint_parse_at(s, pos, fuel) == Some((x, pos + 1)));
    } else {
        let tail = varint_enc(x / 128);
        assert(e == seq![(x % 128 + 128) as u8] + tail);
        assert(s[pos] == (x % 128 + 128) as u8);
        assert(s[pos] >= 128);
        assert(x / 128 < pow128((fuel - 1) as nat)) by {
            assert(pow128(fuel) == 128 * pow128((fuel - 1) as nat));
        }
        assert(s.subrange(pos + 1, pos + 1 + tail.len() as int) == tail) by {
            assert forall|i: int| 0 <= i < tail.len() implies s.subrange(
                pos + 1,
                pos + 1 + tail.len() as int,
            )[i] == tail[i] by {
                assert(s[pos + 1 + i] == e[1 + i]);
            }
            assert(s.subrange(pos + 1, pos + 1 + tail.len() as int) =~= tail);
        }
        assert((fuel - 1) as nat >= 1) by {
            assert(pow128(0) == 1);
            assert(pow128(1) == 128);
            if fuel == 1 {
                assert(x < 128);
            }
        }
        lemma_varint_enc_parse_at(s, pos + 1, x / 128, (fuel - 1) as nat);
        assert(varint_parse_at(s, pos + 1, (fuel - 1) as nat) == Some(
            (x / 128 as nat, pos + 1 + tail.len()),
        ));
        assert((s[pos] - 128) as nat + (x / 128) * 128 == x);
    }
}

pub proof fn lemma_varint_enc_parse(s: Seq<u8>, pos: int, x: u64)
    requires
        0 <= pos,
        pos + varint_enc(x as nat).len() <= s.len(),
        s.subrange(pos, pos + varint_enc(x as nat).len() as int) == varint_enc(x as nat),
    ensures
        varint_parse(s, pos) == Some((x, pos + varint_enc(x as nat).len())),
{
    lemma_pow128_vals();
    lemma_varint_enc_parse_at(s, pos, x as nat, MAX_VARINT_LEN as nat);
}

fn read_varint_at(s: &[u8], pos: usize, fuel: u8) -> (r: Option<(u128, usize)>)
    requires
        pos <= s@.len(),
        fuel <= MAX_VARINT_LEN,
    ensures
        match varint_parse_at(s@, pos as int, fuel as nat) {
            Some((v, end)) => r matches Some(p) && p.0 as nat == v && p.1 as int == end,
            None => r is None,
        },
    decreases fuel,
{
    if fuel == 0 || pos >= s.len() {
        None
    } else {
        let b = s[pos];
        if b < 128 {
            Some((b as u128, pos + 1))
        } else {
            match read_varint_at(s, pos + 1, fuel - 1) {
                Some((v, end)) => {
                    proof {
                        lemma_varint_parse_at_bounds(s@, pos as int + 1, (fuel - 1) as nat);
                        lemma_pow128_vals();
                        assert((v as nat) < pow128((fuel - 1) as nat));
                        lemma_pow128_mono((fuel - 1) as nat, 9);
                        assert(v as nat * 128 <= (pow128(9) - 1) * 128) by {
                            vstd::arithmetic::mul::lemma_mul_inequality(
                                v as int,
                                pow128(9) - 1,
                                128,
                            );
                        }
                    }
                    Some(((b - 128) as u128 + v * 128, end))
                },
                None => None,
            }
        }
    }
}

/// Reads one varint; `None` when the bytes at `pos` do not form one.
pub fn read_varint(s: &[u8], pos: usize) -> (r: Option<(u64, usize)>)
    requires
        pos <= s@.len(),
    ensures
        match varint_parse(s@, pos as int) {
            Some((v, end)) => r matches Some(p) && p.0 == v && p.1 as int == end,
            None => r is None,
        },
{
    match read_varint_at(s, pos, 10) {
        Some((v, end)) => if v <= u64::MAX as u128 {
            Some((v as u64, end))
        } else {
            None
        },
        None => None,
    }
}

/// Appends the varint encoding of `x` to `out`.
pub fn write_varint(out: &mut Vec<u8>, x: u64)
    ensures
        final(out)@ == old(out)@ + varint_enc(x as nat),
    decreases x,
{
    if x < 128 {
        out.push(x as u8);
        assert(final(out)@ =~= old(out)@ + varint_enc(x as nat));
    } else {
        let b = (x % 128 + 128) as u8;
        out.push(b);
        write_varint(out, x / 128);
        assert(final(out)@ =~= old(out)@ + varint_enc(x as nat));
    }
}

/// The zigzag image of a signed 64-bit value.
pub open spec fn zigzag_enc(x: i64) -> u64 {
    if x >= 0 {
        (2 * (x as int)) as u64
    } else {
        (-2 * (x as int) - 1) as u64
    }
}

/// The signed value a zigzag image stands for.
pub open spec fn zigzag_dec(v: u64) -> i64 {
    if v % 2 == 0 {
        ((v as int) / 2) as i64
    } else {
        (-(((v as int) + 1) / 2)) as i64
    }
}

pub proof fn lemma_zigzag_roundtrip(x: i64)
    ensures
        zigzag_dec(zigzag_enc(x)) == x,
{
}

pub fn zigzag_encode(x: i64) -> (r: u64)
    ensures
        r == zigzag_enc(x),
{
    if x >= 0 {
        (x as u64) * 2
    } else {
        let m = (-(x + 1)) as u64;
        m * 2 + 1
    }
}

pub fn zigzag_decode(v: u64) -> (r: i64)
    ensures
        r == zigzag_dec(v),
{
    let h = v / 2;
    if v % 2 == 0 {
        h as i64
    } else {
        (-(h as i64)) - 1
    }
}

/// Reinterprets a raw varint value as an `int64` field value.
pub open spec fn i64_of_u64(v: u64) -> i64 {
    if v <= i64::MAX as u64 {
        v as i64
    } else {
        ((v as int) - 0x10000000000000000) as i64
    }
}

/// The raw varint value an `int64` field is written as.
pub open spec fn u64_of_i64(x: i64) -> u64 {
    if x >= 0 {
        x as u64
    } else {
        ((x as int) + 0x10000000000000000) as u64
    }
}

pub proof fn lemma_i64_varint_roundtrip(x: i64)
    ensures
        i64_of_u64(u64_of_i64(x)) == x,
{
}

pub fn i64_from_u64(v: u64) -> (r: i64)
    ensures
        r == i64_of_u64(v),
{
    if v <= i64::MAX as u64 {
        v as i64
    } else {
        let m = (v - 0x8000000000000000) as i64;
        m + i64::MIN
    }
}

pub fn i64_to_u64(x: i64) -> (r: u64)
    ensures
        r == u64_of_i64(x),
{
    if x >= 0 {
        x as u64
    } else {
        let m = (x - i64::MIN) as u64;
        m + 0x8000000000000000
    }
}

/// Truncates a raw varint value to an `int32` field value, as the wire
/// format reads such fields.
pub open spec fn trunc_i32(v: u64) -> i32 {
    if (v as nat) % 0x100000000 >= 0x80000000 {
        (((v as nat) % 0x100000000) - 0x100000000) as i32
    } else {
        (((v as nat) % 0x100000000) as int) as i32
    }
}

/// The raw varint value an `int32` field is written as: sign-extended
/// to 64 bits, as the wire format requires.
pub open spec fn i32_as_varint_val(x: i32) -> u64 {
    if x >= 0 {
        x as u64
    } else {
        ((x as int) + 0x10000000000000000) as u64
    }
}

pub proof fn lemma_i32_varint_roundtrip(x: i32)
    ensures
        trunc_i32(i32_as_varint_val(x)) == x,
{
}

pub fn trunc_i32_exec(v: u64) -> (r: i32)
    ensures
        r == trunc_i32(v),
{
    let low = (v % 0x100000000) as u32;
    if low >= 0x80000000 {
        let m = (low - 0x80000000) as i64;
        (m - 0x80000000) as i32
    } else {
        low as i32
    }
}

pub fn i32_to_varint_val(x: i32) -> (r: u64)
    ensures
        r == i32_as_varint_val(x),
{
    if x >= 0 {
        x as u64
    } else {
        let m = (x as i64 + 0x100000000) as u64;
        m + 0xFFFFFFFF00000000u64
    }
}

/// Reinterprets an unsigned 32-bit value as signed, bit for bit.
pub open spec fn u32_as_i32(v: u32) -> i32 {
    if v <= i32::MAX as u32 {
        v as i32
    } else {
        ((v as int) - 0x100000000) as i32
    }
}

/// Reinterprets a signed 32-bit value as unsigned, bit for bit.
pub open spec fn i32_as_u32(x: i32) -> u32 {
    if x >= 0 {
        x as u32
    } else {
        ((x as int) + 0x100000000) as u32
    }
}

pub proof fn lemma_u32_i32_roundtrip(v: u32)
    ensures
        i32_as_u32(u32_as_i32(v)) == v,
{
}

pub proof fn lemma_i32_u32_roundtrip(x: i32)
    ensures
        u32_as_i32(i32_as_u32(x)) == x,
{
}

pub fn u32_to_i32(v: u32) -> (r: i32)
    ensures
        r == u32_as_i32(v),
{
    if v <= 0x7FFFFFFF {
        v as i32
    } else {
        let m = (v - 0x80000000) as i64;
        (m - 0x80000000) as i32
    }
}

pub fn i32_to_u32(x: i32) -> (r: u32)
    ensures
        r == i32_as_u32(x),
{
    if x >= 0 {
        x as u32
    } else {
        let m = (x as i64 + 0x100000000) as u64;
        m as u32
    }
}

/// Truncates a raw varint value to a `uint32` field value.
pub open spec fn trunc_u32(v: u64) -> u32 {
    ((v as nat) % 0x100000000) as u32
}

pub fn trunc_u32_exec(v: u64) -> (r: u32)
    ensures
        r == trunc_u32(v),
{
    (v % 0x100000000) as u32
}

/// The zigzag image of a signed 32-bit value, for `sint32` fields.
pub open spec fn zigzag32_enc(x: i32) -> u64 {
    if x >= 0 {
        (2 * (x as int)) as u64
    } else {
        (-2 * (x as int) - 1) as u64
    }
}

/// The signed 32-bit value a raw `sint32` varint stands for: the low
/// 32 bits of the raw value, unfolded from zigzag.
pub open spec fn zigzag32_dec(v: u64) -> i32 {
    let w = (v as nat) % 0x100000000;
    if w % 2 == 0 {
        ((w as int) / 2) as i32
    } else {
        (-(((w as int) + 1) / 2)) as i32
    }
}

pub proof fn lemma_zigzag32_roundtrip(x: i32)
    ensures
        zigzag32_dec(zigzag32_enc(x)) == x,
{
}

pub fn zigzag32_encode(x: i32) -> (r: u64)
    ensures
        r == zigzag32_enc(x),
{
    if x >= 0 {
        (x as u64) * 2
    } else {
        let m = (-(x + 1)) as u64;
        m * 2 + 1
    }
}

pub fn zigzag32_decode(v: u64) -> (r: i32)
    ensures
        r == zigzag32_dec(v),
{
    let w = (v % 0x100000000) as u32;
    let h = w / 2;
    if w % 2 == 0 {
        h as i32
    } else {
        (-(h as i32)) - 1
    }
}

/// Compares two byte runs for equality.
pub fn bytes_eq(a: &[u8], b: &[u8]) -> (r: bool)
    ensures
        r <==> a@ == b@,
{
    if a.len() != b.len() {
        return false;
    }
    let mut i: usize = 0;
    while i < a.len()
        invariant
            i <= a@.len() == b@.len(),
            forall|j: int| 0 <= j < i ==> a@[j] == b@[j],
        decreases a@.len() - i,
    {
        if a[i] != b[i] {
            return false;
        }
        i += 1;
    }
    assert(a@ =~= b@);
    true
}

/// Splits knowledge of a concatenation embedded in `s` into its two halves.
pub proof fn lemma_subrange_concat(s: Seq<u8>, pos: int, a: Seq<u8>, b: Seq<u8>)
    requires
        0 <= pos,
        pos + a.len() + b.len() <= s.len(),
        s.subrange(pos, pos + a.len() + b.len()) == a + b,
    ensures
        s.subrange(pos, pos + a.len() as int) == a,
        s.subrange(pos + a.len() as int, pos + a.len() + b.len()) == b,
{
    let whole = s.subrange(pos, pos + a.len() + b.len());
    assert forall|i: int| 0 <= i < a.len() implies s.subrange(pos, pos + a.len() as int)[i]
        == a[i] by {
        assert(whole[i] == (a + b)[i]);
    }
    assert(s.subrange(pos, pos + a.len() as int) =~= a);
    assert forall|i: int| 0 <= i < b.len() implies s.subrange(
        pos + a.len() as int,
        pos + a.len() + b.len(),
    )[i] == b[i] by {
        assert(whole[a.len() + i] == (a + b)[a.len() + i]);
    }
    assert(s.subrange(pos + a.len() as int, pos + a.len() + b.len()) =~= b);
}

/// Wire type of varint-valued fields.
pub const WIRE_VARINT: u64 = 0;

/// Wire type of length-delimited fields.
pub const WIRE_LEN: u64 = 2;

/// The encoding of a field key.
pub open spec fn key_enc(num: u64, wire: u64) -> Seq<u8> {
    varint_enc((num * 8 + wire) as nat)
}

/// One decoded field: its number, wire type, raw varint value (wire
/// type 0), payload bounds (wire type 2), and the position just past it.
pub struct WireField {
    pub num: u64,
    pub wire: u64,
    pub raw: u64,
    pub start: int,
    pub end: int,
    pub next: int,
}

/// Reads one field at `pos`: its key, then its value or extent.
/// Wire types 1 and 5 are skipped over; 3, 4, 6 and 7 are refused.
pub open spec fn field_parse(s: Seq<u8>, pos: int) -> Option<WireField> {
    match varint_parse(s, pos) {
        None => None,
        Some((key, p1)) => {
            let num = key / 8;
            let wire = key % 8;
            if num == 0 {
                None
            } else if wire == 0 {
                match varint_parse(s, p1) {
                    None => None,
                    Some((v, p2)) => Some(
                        WireField { num, wire, raw: v, start: 0, end: 0, next: p2 },
                    ),
                }
            } else if wire == 2 {
                match varint_parse(s, p1) {
                    None => None,
                    Some((l, p2)) => if p2 + l <= s.len() {
                        Some(
                            WireField {
                                num,
                                wire,
                                raw: 0,
                                start: p2,
                                end: p2 + l,
                                next: p2 + l,
                            },
                        )
                    } else {
                        None
                    },
                }
            } else if wire == 1 {
                if p1 + 8 <= s.len() {
                    Some(WireField { num, wire, raw: 0, start: 0, end: 0, next: p1 + 8 })
                } else {
                    None
                }
            } else if wire == 5 {
                if p1 + 4 <= s.len() {
                    Some(WireField { num, wire, raw: 0, start: 0, end: 0, next: p1 + 4 })
                } else {
                    None
                }
            } else {
                None
            }
        },
    }
}

pub proof fn lemma_field_parse_bounds(s: Seq<u8>, pos: int)
    ensures
        field_parse(s, pos) matches Some(f) ==> {
            &&& pos < f.next <= s.len()
            &&& (f.wire == 2 ==> pos < f.start <= f.end <= s.len() && f.end == f.next)
        },
{
    lemma_varint_parse_bounds(s, pos);
    match varint_parse(s, pos) {
        None => {},
        Some((key, p1)) => {
            lemma_varint_parse_bounds(s, p1);
        },
    }
}

/// One field as executable code hands it on.
pub enum FieldRef {
    Varint(u64),
    Bytes(usize, usize),
    Skip,
}

/// Reads one field of the message area at `pos`.
pub fn read_field(s: &[u8], pos: usize) -> (r: Option<(u64, FieldRef, usize)>)
    requires
        pos <= s@.len(),
    ensures
        match field_parse(s@, pos as int) {
            Some(f) => {
                &&& r matches Some(t)
                &&& t.0 == f.num
                &&& t.2 as int == f.next
                &&& (f.wire == 0 ==> (t.1 matches FieldRef::Varint(v) && v == f.raw))
                &&& (f.wire == 2 ==> (t.1 matches FieldRef::Bytes(a, b) && a as int == f.start
                    && b as int == f.end))
                &&& (f.wire == 1 || f.wire == 5 ==> t.1 is Skip)
            },
            None => r is None,
        },
{
    proof {
        lemma_varint_parse_bounds(s@, pos as int);
    }
    match read_varint(s, pos) {
        None => None,
        Some((key, p1)) => {
            let num = key / 8;
            let wire = key % 8;
            if num == 0 {
                None
            } else if wire == 0 {
                match read_varint(s, p1) {
                    None => None,
                    Some((v, p2)) => Some((num, FieldRef::Varint(v), p2)),
                }
            } else if wire == 2 {
                proof {
                    lemma_varint_parse_bounds(s@, p1 as int);
                }
                match read_varint(s, p1) {
                    None => None,
                    Some((l, p2)) => if l <= (s.len() - p2) as u64 {
                        let end = p2 + (l as usize);
                        Some((num, FieldRef::Bytes(p2, end), end))
                    } else {
                        None
                    },
                }
            } else if wire == 1 {
                if s.len() - p1 >= 8 {
                    Some((num, FieldRef::Skip, p1 + 8))
                } else {
                    None
                }
            } else if wire == 5 {
                if s.len() - p1 >= 4 {
                    Some((num, FieldRef::Skip, p1 + 4))
                } else {
                    None
                }
            } else {
                None
            }
        },
    }
}

/// Appends a field key.
pub fn write_key(out: &mut Vec<u8>, num: u64, wire: u64)
    requires
        num <= 0xFFFFFFF,
        wire <= 7,
    ensures
        final(out)@ == old(out)@ + key_enc(num, wire),
{
    write_varint(out, num * 8 + wire);
}

/// Appends a whole varint field: key and value.
pub fn write_varint_field(out: &mut Vec<u8>, num: u64, v: u64)
    requires
        num <= 0xFFFFFFF,
    ensures
        final(out)@ == old(out)@ + key_enc(num, WIRE_VARINT) + varint_enc(v as nat),
{
    write_key(out, num, WIRE_VARINT);
    write_varint(out, v);
}

/// The encoding of a length-delimited payload: its length, then its bytes.
pub open spec fn len_delim_enc(payload: Seq<u8>) -> Seq<u8> {
    varint_enc(payload.len()) + payload
}

/// Appends a whole length-delimited field: key, length, payload.
pub fn write_bytes_field(out: &mut Vec<u8>, num: u64, payload: &[u8])
    requires
        num <= 0xFFFFFFF,
    ensures
        final(out)@ == old(out)@ + key_enc(num, WIRE_LEN) + len_delim_enc(payload@),
{
    write_key(out, num, WIRE_LEN);
    write_varint(out, payload.len() as u64);
    out.extend_from_slice(payload);
    assert(final(out)@ =~= old(out)@ + key_enc(num, WIRE_LEN) + len_delim_enc(payload@));
}

/// Parsing an embedded varint field recovers its number and value.
pub proof fn lemma_field_parse_varint(s: Seq<u8>, pos: int, num: u64, v: u64)
    requires
        1 <= num <= 0xFFFFFFF,
        0 <= pos,
        pos + key_enc(num, WIRE_VARINT).len() + varint_enc(v as nat).len() <= s.len(),
        s.subrange(pos, pos + key_enc(num, WIRE_VARINT).len() + varint_enc(v as nat).len())
            == key_enc(num, WIRE_VARINT) + varint_enc(v as nat),
    ensures
        field_parse(s, pos) matches Some(f) && f.num == num && f.wire == WIRE_VARINT && f.raw
            == v && f.next == pos + key_enc(num, WIRE_VARINT).len() + varint_enc(
            v as nat,
        ).len(),
{
    let k = key_enc(num, WIRE_VARINT);
    let e = varint_enc(v as nat);
    lemma_subrange_concat(s, pos, k, e);
    lemma_varint_enc_parse(s, pos, (num * 8 + WIRE_VARINT) as u64);
    lemma_varint_enc_parse(s, pos + k.len(), v);
}

/// Parsing an embedded length-delimited field finds exactly its payload.
pub proof fn lemma_field_parse_bytes(s: Seq<u8>, pos: int, num: u64, payload: Seq<u8>)
    requires
        1 <= num <= 0xFFFFFFF,
        payload.len() <= u64::MAX,
        0 <= pos,
        pos + key_enc(num, WIRE_LEN).len() + len_delim_enc(payload).len() <= s.len(),
        s.subrange(pos, pos + key_enc(num, WIRE_LEN).len() + len_delim_enc(payload).len())
            == key_enc(num, WIRE_LEN) + len_delim_enc(payload),
    ensures
        field_parse(s, pos) matches Some(f) && f.num == num && f.wire == WIRE_LEN && f.end
            == f.next && f.next == pos + key_enc(num, WIRE_LEN).len() + len_delim_enc(
            payload,
        ).len() && f.start == f.end - payload.len() && s.subrange(f.start, f.end) == payload,
{
    let k = key_enc(num, WIRE_LEN);
    let l = varint_enc(payload.len());
    lemma_subrange_concat(s, pos, k, len_delim_enc(payload));
    lemma_varint_enc_parse(s, pos, (num * 8 + WIRE_LEN) as u64);
    lemma_subrange_concat(s, pos + k.len(), l, payload);
    lemma_varint_enc_parse(s, pos + k.len(), payload.len() as u64);
}

/// The concatenated varint encodings of a packed repeated field.
pub open spec fn packed_enc(vs: Seq<u64>) -> Seq<u8>
    decreases vs.len(),
{
    if vs.len() == 0 {
        Seq::empty()
    } else {
        varint_enc(vs[0] as nat) + packed_enc(vs.drop_first())
    }
}

pub proof fn lemma_packed_enc_push(vs: Seq<u64>, x: u64)
    ensures
        packed_enc(vs.push(x)) == packed_enc(vs) + varint_enc(x as nat),
    decreases vs.len(),
{
    if vs.len() == 0 {
        assert(vs.push(x).drop_first() =~= Seq::<u64>::empty());
        assert(vs.push(x)[0] == x);
        assert(packed_enc(vs.push(x)) == varint_enc(x as nat) + packed_enc(
            vs.push(x).drop_first(),
        ));
        assert(packed_enc(vs.push(x)) =~= packed_enc(vs) + varint_enc(x as nat));
    } else {
        let w = vs.push(x);
        assert(w[0] == vs[0]);
        assert(w.drop_first() =~= vs.drop_first().push(x));
        lemma_packed_enc_push(vs.drop_first(), x);
        assert(packed_enc(w) == varint_enc(w[0] as nat) + packed_enc(w.drop_first()));
        assert(packed_enc(w.drop_first()) == packed_enc(vs.drop_first()) + varint_enc(
            x as nat,
        ));
        assert(packed_enc(vs) == varint_enc(vs[0] as nat) + packed_enc(vs.drop_first()));
        assert(packed_enc(vs.push(x)) =~= packed_enc(vs) + varint_enc(x as nat));
    }
}

/// Reads the raw values packed into `s[pos..end]`, one varint after the
/// other, with nothing left over.
pub open spec fn packed_parse(s: Seq<u8>, pos: int, end: int) -> Option<Seq<u64>>
    decreases end - pos,
    when pos <= end <= s.len()
    via packed_parse_decreases
{
    if pos == end {
        Some(Seq::empty())
    } else {
        match varint_parse(s, pos) {
            None => None,
            Some((v, p2)) => if p2 <= end {
                match packed_parse(s, p2, end) {
                    Some(rest) => Some(seq![v] + rest),
                    None => None,
                }
            } else {
                None
            },
        }
    }
}

#[via_fn]
proof fn packed_parse_decreases(s: Seq<u8>, pos: int, end: int) {
    lemma_varint_parse_bounds(s, pos);
}

/// Parsing an embedded packed encoding recovers the values.
pub proof fn lemma_packed_enc_parse(s: Seq<u8>, pos: int, vs: Seq<u64>)
    requires
        0 <= pos,
        pos + packed_enc(vs).len() <= s.len(),
        s.subrange(pos, pos + packed_enc(vs).len()) == packed_enc(vs),
    ensures
        packed_parse(s, pos, pos + packed_enc(vs).len()) == Some(vs),
    decreases vs.len(),
{
    if vs.len() == 0 {
    } else {
        let e0 = varint_enc(vs[0] as nat);
        let rest = packed_enc(vs.drop_first());
        lemma_subrange_concat(s, pos, e0, rest);
        lemma_varint_enc_parse(s, pos, vs[0]);
        lemma_packed_enc_parse(s, pos + e0.len(), vs.drop_first());
        assert(seq![vs[0]] + vs.drop_first() =~= vs);
    }
}

/// Reads a packed repeated area; `None` when it is not a clean run of
/// varints.
pub fn read_packed(s: &[u8], start: usize, end: usize) -> (r: Option<Vec<u64>>)
    requires
        start <= end <= s@.len(),
    ensures
        match packed_parse(s@, start as int, end as int) {
            Some(vs) => r matches Some(v) && v@ == vs,
            None => r is None,
        },
{
    let mut acc: Vec<u64> = Vec::new();
    let mut pos: usize = start;
    loop
        invariant
            start <= pos <= end <= s@.len(),
            match packed_parse(s@, pos as int, end as int) {
                Some(rest) => packed_parse(s@, start as int, end as int) == Some(acc@ + rest),
                None => packed_parse(s@, start as int, end as int) is None,
            },
        decreases end - pos,
    {
        if pos == end {
            assert(acc@ + Seq::<u64>::empty() =~= acc@);
            return Some(acc);
        }
        proof {
            lemma_varint_parse_bounds(s@, pos as int);
        }
        match read_varint(s, pos) {
            None => {
                return None;
            },
            Some((v, p2)) => {
                if p2 > end {
                    return None;
                }
                proof {
                    match packed_parse(s@, p2 as int, end as int) {
                        Some(rest2) => {
                            assert(acc@ + (seq![v] + rest2) =~= acc@.push(v) + rest2);
                        },
                        None => {},
                    }
                }
                acc.push(v);
                pos = p2;
            },
        }
    }
}

/// The `sint64` values of a run of raw varint values, and back.
pub open spec fn map_sint64(vs: Seq<u64>) -> Seq<i64> {
    vs.map_values(|v: u64| zigzag_dec(v))
}

pub open spec fn raws_of_sint64(xs: Seq<i64>) -> Seq<u64> {
    xs.map_values(|x: i64| zigzag_enc(x))
}

pub proof fn lemma_sint64_values_roundtrip(xs: Seq<i64>)
    ensures
        map_sint64(raws_of_sint64(xs)) == xs,
{
    assert(map_sint64(raws_of_sint64(xs)) =~= xs);
}

/// The `uint32` values of a run of raw varint values, and back.
pub open spec fn map_uint32(vs: Seq<u64>) -> Seq<u32> {
    vs.map_values(|v: u64| trunc_u32(v))
}

pub open spec fn raws_of_uint32(xs: Seq<u32>) -> Seq<u64> {
    xs.map_values(|x: u32| x as u64)
}

pub proof fn lemma_uint32_values_roundtrip(xs: Seq<u32>)
    ensures
        map_uint32(raws_of_uint32(xs)) == xs,
{
    assert(map_uint32(raws_of_uint32(xs)) =~= xs);
}

/// The `int32` values of a run of raw varint values, and back.
pub open spec fn map_int32(vs: Seq<u64>) -> Seq<i32> {
    vs.map_values(|v: u64| trunc_i32(v))
}

pub open spec fn raws_of_int32(xs: Seq<i32>) -> Seq<u64> {
    xs.map_values(|x: i32| i32_as_varint_val(x))
}

pub proof fn lemma_int32_values_roundtrip(xs: Seq<i32>)
    ensures
        map_int32(raws_of_int32(xs)) == xs,
{
    assert(map_int32(raws_of_int32(xs)) =~= xs);
}

/// The `sint32` values of a run of raw varint values, and back.
pub open spec fn map_sint32(vs: Seq<u64>) -> Seq<i32> {
    vs.map_values(|v: u64| zigzag32_dec(v))
}

pub open spec fn raws_of_sint32(xs: Seq<i32>) -> Seq<u64> {
    xs.map_values(|x: i32| zigzag32_enc(x))
}

pub proof fn lemma_sint32_values_roundtrip(xs: Seq<i32>)
    ensures
        map_sint32(raws_of_sint32(xs)) == xs,
{
    assert(map_sint32(raws_of_sint32(xs)) =~= xs);
}

/// The `bool` values of a run of raw varint values, and back.
pub open spec fn map_bool(vs: Seq<u64>) -> Seq<bool> {
    vs.map_values(|v: u64| v != 0)
}

pub open spec fn raws_of_bool(xs: Seq<bool>) -> Seq<u64> {
    xs.map_values(|x: bool| if x { 1u64 } else { 0u64 })
}

pub proof fn lemma_bool_values_roundtrip(xs: Seq<bool>)
    ensures
        map_bool(raws_of_bool(xs)) == xs,
{
    assert(map_bool(raws_of_bool(xs)) =~= xs);
}

pub fn sint64_values(raws: &Vec<u64>) -> (r: Vec<i64>)
    ensures
        r@ == map_sint64(raws@),
{
    let mut out: Vec<i64> = Vec::new();
    let mut i: usize = 0;
    while i < raws.len()
        invariant
            i <= raws@.len(),
            out@ == map_sint64(raws@.take(i as int)),
        decreases raws@.len() - i,
    {
        out.push(zigzag_decode(raws[i]));
        proof {
            assert(raws@.take(i as int + 1) =~= raws@.take(i as int).push(raws@[i as int]));
            assert(map_sint64(raws@.take(i as int + 1)) =~= map_sint64(
                raws@.take(i as int),
            ).push(zigzag_dec(raws@[i as int])));
        }
        i += 1;
    }
    assert(raws@.take(raws@.len() as int) =~= raws@);
    out
}

pub fn sint64_raws(xs: &Vec<i64>) -> (r: Vec<u64>)
    ensures
        r@ == raws_of_sint64(xs@),
{
    let mut out: Vec<u64> = Vec::new();
    let mut i: usize = 0;
    while i < xs.len()
        invariant
            i <= xs@.len(),
            out@ == raws_of_sint64(xs@.take(i as int)),
        decreases xs@.len() - i,
    {
        out.push(zigzag_encode(xs[i]));
        proof {
            assert(xs@.take(i as int + 1) =~= xs@.take(i as int).push(xs@[i as int]));
            assert(raws_of_sint64(xs@.take(i as int + 1)) =~= raws_of_sint64(
                xs@.take(i as int),
            ).push(zigzag_enc(xs@[i as int])));
        }
        i += 1;
    }
    assert(xs@.take(xs@.len() as int) =~= xs@);
    out
}

pub fn uint32_values(raws: &Vec<u64>) -> (r: Vec<u32>)
    ensures
        r@ == map_uint32(raws@),
{
    let mut out: Vec<u32> = Vec::new();
    let mut i: usize = 0;
    while i < raws.len()
        invariant
            i <= raws@.len(),
            out@ == map_uint32(raws@.take(i as int)),
        decreases raws@.len() - i,
    {
        out.push(trunc_u32_exec(raws[i]));
        proof {
            assert(raws@.take(i as int + 1) =~= raws@.take(i as int).push(raws@[i as int]));
            assert(map_uint32(raws@.take(i as int + 1)) =~= map_uint32(
                raws@.take(i as int),
            ).push(trunc_u32(raws@[i as int])));
        }
        i += 1;
    }
    assert(raws@.take(raws@.len() as int) =~= raws@);
    out
}

pub fn uint32_raws(xs: &Vec<u32>) -> (r: Vec<u64>)
    ensures
        r@ == raws_of_uint32(xs@),
{
    let mut out: Vec<u64> = Vec::new();
    let mut i: usize = 0;
    while i < xs.len()
        invariant
            i <= xs@.len(),
            out@ == raws_of_uint32(xs@.take(i as int)),
        decreases xs@.len() - i,
    {
        out.push(xs[i] as u64);
        proof {
            assert(xs@.take(i as int + 1) =~= xs@.take(i as int).push(xs@[i as int]));
            assert(raws_of_uint32(xs@.take(i as int + 1)) =~= raws_of_uint32(
                xs@.take(i as int),
            ).push(xs@[i as int] as u64));
        }
        i += 1;
    }
    assert(xs@.take(xs@.len() as int) =~= xs@);
    out
}

pub fn int32_values(raws: &Vec<u64>) -> (r: Vec<i32>)
    ensures
        r@ == map_int32(raws@),
{
    let mut out: Vec<i32> = Vec::new();
    let mut i: usize = 0;
    while i < raws.len()
        invariant
            i <= raws@.len(),
            out@ == map_int32(raws@.take(i as int)),
        decreases raws@.len() - i,
    {
        out.push(trunc_i32_exec(raws[i]));
        proof {
            assert(raws@.take(i as int + 1) =~= raws@.take(i as int).push(raws@[i as int]));
            assert(map_int32(raws@.take(i as int + 1)) =~= map_int32(
                raws@.take(i as int),
            ).push(trunc_i32(raws@[i as int])));
        }
        i += 1;
    }
    assert(raws@.take(raws@.len() as int) =~= raws@);
    out
}

pub fn int32_raws(xs: &Vec<i32>) -> (r: Vec<u64>)
    ensures
        r@ == raws_of_int32(xs@),
{
    let mut out: Vec<u64> = Vec::new();
    let mut i: usize = 0;
    while i < xs.len()
        invariant
            i <= xs@.len(),
            out@ == raws_of_int32(xs@.take(i as int)),
        decreases xs@.len() - i,
    {
        out.push(i32_to_varint_val(xs[i]));
        proof {
            assert(xs@.take(i as int + 1) =~= xs@.take(i as int).push(xs@[i as int]));
            assert(raws_of_int32(xs@.take(i as int + 1)) =~= raws_of_int32(
                xs@.take(i as int),
            ).push(i32_as_varint_val(xs@[i as int])));
        }
        i += 1;
    }
    assert(xs@.take(xs@.len() as int) =~= xs@);
    out
}

pub fn sint32_values(raws: &Vec<u64>) -> (r: Vec<i32>)
    ensures
        r@ == map_sint32(raws@),
{
    let mut out: Vec<i32> = Vec::new();
    let mut i: usize = 0;
    while i < raws.len()
        invariant
            i <= raws@.len(),
            out@ == map_sint32(raws@.take(i as int)),
        decreases raws@.len() - i,
    {
        out.push(zigzag32_decode(raws[i]));
        proof {
            assert(raws@.take(i as int + 1) =~= raws@.take(i as int).push(raws@[i as int]));
            assert(map_sint32(raws@.take(i as int + 1)) =~= map_sint32(
                raws@.take(i as int),
            ).push(zigzag32_dec(raws@[i as int])));
        }
        i += 1;
    }
    assert(raws@.take(raws@.len() as int) =~= raws@);
    out
}

pub fn sint32_raws(xs: &Vec<i32>) -> (r: Vec<u64>)
    ensures
        r@ == raws_of_sint32(xs@),
{
    let mut out: Vec<u64> = Vec::new();
    let mut i: usize = 0;
    while i < xs.len()
        invariant
            i <= xs@.len(),
            out@ == raws_of_sint32(xs@.take(i as int)),
        decreases xs@.len() - i,
    {
        out.push(zigzag32_encode(xs[i]));
        proof {
            assert(xs@.take(i as int + 1) =~= xs@.take(i as int).push(xs@[i as int]));
            assert(raws_of_sint32(xs@.take(i as int + 1)) =~= raws_of_sint32(
                xs@.take(i as int),
            ).push(zigzag32_enc(xs@[i as int])));
        }
        i += 1;
    }
    assert(xs@.take(xs@.len() as int) =~= xs@);
    out
}

pub fn bool_values(raws: &Vec<u64>) -> (r: Vec<bool>)
    ensures
        r@ == map_bool(raws@),
{
    let mut out: Vec<bool> = Vec::new();
    let mut i: usize = 0;
    while i < raws.len()
        invariant
            i <= raws@.len(),
            out@ == map_bool(raws@.take(i as int)),
        decreases raws@.len() - i,
    {
        out.push(raws[i] != 0);
        proof {
            assert(raws@.take(i as int + 1) =~= raws@.take(i as int).push(raws@[i as int]));
            assert(map_bool(raws@.take(i as int + 1)) =~= map_bool(raws@.take(i as int)).push(
                raws@[i as int] != 0,
            ));
        }
        i += 1;
    }
    assert(raws@.take(raws@.len() as int) =~= raws@);
    out
}

pub fn bool_raws(xs: &Vec<bool>) -> (r: Vec<u64>)
    ensures
        r@ == raws_of_bool(xs@),
{
    let mut out: Vec<u64> = Vec::new();
    let mut i: usize = 0;
    while i < xs.len()
        invariant
            i <= xs@.len(),
            out@ == raws_of_bool(xs@.take(i as int)),
        decreases xs@.len() - i,
    {
        out.push(if xs[i] {
            1
        } else {
            0
        });
        proof {
            assert(xs@.take(i as int + 1) =~= xs@.take(i as int).push(xs@[i as int]));
            assert(raws_of_bool(xs@.take(i as int + 1)) =~= raws_of_bool(
                xs@.take(i as int),
            ).push(
                if xs@[i as int] {
                    1u64
                } else {
                    0u64
                },
            ));
        }
        i += 1;
    }
    assert(xs@.take(xs@.len() as int) =~= xs@);
    out
}

/// Appends the packed encoding of `vs`.
pub fn write_packed(out: &mut Vec<u8>, vs: &Vec<u64>)
    ensures
        final(out)@ == old(out)@ + packed_enc(vs@),
{
    let mut i: usize = 0;
    while i < vs.len()
        invariant
            i <= vs@.len(),
            out@ == old(out)@ + packed_enc(vs@.take(i as int)),
        decreases vs@.len() - i,
    {
        proof {
            lemma_packed_enc_push(vs@.take(i as int), vs@[i as int]);
            assert(vs@.take(i as int).push(vs@[i as int]) =~= vs@.take(i as int + 1));
        }
        write_varint(out, vs[i]);
        i += 1;
    }
    assert(vs@.take(vs@.len() as int) =~= vs@);
}

} // verus!
