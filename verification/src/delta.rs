//! Delta coding: each value is stored as its difference from the one
//! before, the first against zero. Differences wrap, so decoding by a
//! wrapping running sum recovers every input exactly.

use vstd::prelude::*;
use vstd::wrapping::i32_specs;
use vstd::wrapping::i64_specs;

verus! {

/// The deltas of `vals` against a running predecessor, starting at `prev`.
pub open spec fn delta_encode_spec(vals: Seq<i64>, prev: i64) -> Seq<i64>
    decreases vals.len(),
{
    if vals.len() == 0 {
        Seq::empty()
    } else {
        seq![i64_specs::wrapping_sub(vals[0], prev)] + delta_encode_spec(
            vals.drop_first(),
            vals[0],
        )
    }
}

/// The running wrapping sums of `deltas`, starting at `prev`.
pub open spec fn delta_decode_spec(deltas: Seq<i64>, prev: i64) -> Seq<i64>
    decreases deltas.len(),
{
    if deltas.len() == 0 {
        Seq::empty()
    } else {
        let v = i64_specs::wrapping_add(prev, deltas[0]);
        seq![v] + delta_decode_spec(deltas.drop_first(), v)
    }
}

/// Decoding the deltas of any value sequence recovers it, whatever the
/// values: the wrapping sum undoes the wrapping difference exactly.
pub proof fn lemma_delta_roundtrip(vals: Seq<i64>, prev: i64)
    ensures
        delta_decode_spec(delta_encode_spec(vals, prev), prev) == vals,
    decreases vals.len(),
{
    if vals.len() == 0 {
        assert(delta_decode_spec(delta_encode_spec(vals, prev), prev) =~= vals);
    } else {
        let d = i64_specs::wrapping_sub(vals[0], prev);
        assert(i64_specs::wrapping_add(prev, d) == vals[0]);
        lemma_delta_roundtrip(vals.drop_first(), vals[0]);
        let ds = delta_encode_spec(vals, prev);
        assert(ds.drop_first() =~= delta_encode_spec(vals.drop_first(), vals[0]));
        assert(ds[0] == d);
        assert(delta_decode_spec(ds, prev) == seq![vals[0]] + delta_decode_spec(
            ds.drop_first(),
            vals[0],
        ));
        assert(delta_decode_spec(delta_encode_spec(vals, prev), prev) =~= vals);
    }
}

pub proof fn lemma_delta_encode_len(vals: Seq<i64>, prev: i64)
    ensures
        delta_encode_spec(vals, prev).len() == vals.len(),
    decreases vals.len(),
{
    if vals.len() > 0 {
        lemma_delta_encode_len(vals.drop_first(), vals[0]);
    }
}

pub proof fn lemma_delta_decode_len(deltas: Seq<i64>, prev: i64)
    ensures
        delta_decode_spec(deltas, prev).len() == deltas.len(),
    decreases deltas.len(),
{
    if deltas.len() > 0 {
        lemma_delta_decode_len(
            deltas.drop_first(),
            i64_specs::wrapping_add(prev, deltas[0]),
        );
    }
}

/// Replaces each value by its wrapping difference from its predecessor.
pub fn delta_encode(vals: &Vec<i64>) -> (r: Vec<i64>)
    ensures
        r@ == delta_encode_spec(vals@, 0),
{
    let mut out: Vec<i64> = Vec::new();
    let mut prev: i64 = 0;
    let mut i: usize = 0;
    proof {
        assert(vals@.skip(0) =~= vals@);
        assert(out@ + delta_encode_spec(vals@, 0) =~= delta_encode_spec(vals@, 0));
    }
    while i < vals.len()
        invariant
            i <= vals@.len(),
            prev == (if i == 0 {
                0i64
            } else {
                vals@[i as int - 1]
            }),
            delta_encode_spec(vals@, 0) == out@ + delta_encode_spec(vals@.skip(i as int), prev),
        decreases vals@.len() - i,
    {
        let v = vals[i];
        proof {
            let rest = vals@.skip(i as int);
            assert(rest[0] == v);
            assert(rest.drop_first() =~= vals@.skip(i as int + 1));
            assert(out@ + delta_encode_spec(rest, prev) =~= out@.push(
                i64_specs::wrapping_sub(v, prev),
            ) + delta_encode_spec(vals@.skip(i as int + 1), v));
        }
        out.push(v.wrapping_sub(prev));
        prev = v;
        i += 1;
    }
    assert(vals@.skip(vals@.len() as int) =~= Seq::<i64>::empty());
    assert(out@ =~= out@ + delta_encode_spec(vals@.skip(vals@.len() as int), prev));
    out
}

/// Replaces each delta by the wrapping running sum up to it.
pub fn delta_decode(deltas: &Vec<i64>) -> (r: Vec<i64>)
    ensures
        r@ == delta_decode_spec(deltas@, 0),
{
    let mut out: Vec<i64> = Vec::new();
    let mut prev: i64 = 0;
    let mut i: usize = 0;
    proof {
        assert(deltas@.skip(0) =~= deltas@);
        assert(out@ + delta_decode_spec(deltas@, 0) =~= delta_decode_spec(deltas@, 0));
    }
    while i < deltas.len()
        invariant
            i <= deltas@.len(),
            delta_decode_spec(deltas@, 0) == out@ + delta_decode_spec(
                deltas@.skip(i as int),
                prev,
            ),
        decreases deltas@.len() - i,
    {
        let d = deltas[i];
        proof {
            let rest = deltas@.skip(i as int);
            assert(rest[0] == d);
            assert(rest.drop_first() =~= deltas@.skip(i as int + 1));
            assert(out@ + delta_decode_spec(rest, prev) =~= out@.push(
                i64_specs::wrapping_add(prev, d),
            ) + delta_decode_spec(deltas@.skip(i as int + 1), i64_specs::wrapping_add(prev, d)));
        }
        prev = prev.wrapping_add(d);
        out.push(prev);
        i += 1;
    }
    assert(deltas@.skip(deltas@.len() as int) =~= Seq::<i64>::empty());
    assert(out@ =~= out@ + delta_decode_spec(deltas@.skip(deltas@.len() as int), prev));
    out
}

/// The deltas of 32-bit values, as the dense metadata arrays store them.
pub open spec fn delta32_encode_spec(vals: Seq<i32>, prev: i32) -> Seq<i32>
    decreases vals.len(),
{
    if vals.len() == 0 {
        Seq::empty()
    } else {
        seq![i32_specs::wrapping_sub(vals[0], prev)] + delta32_encode_spec(
            vals.drop_first(),
            vals[0],
        )
    }
}

/// The running wrapping sums of 32-bit deltas.
pub open spec fn delta32_decode_spec(deltas: Seq<i32>, prev: i32) -> Seq<i32>
    decreases deltas.len(),
{
    if deltas.len() == 0 {
        Seq::empty()
    } else {
        let v = i32_specs::wrapping_add(prev, deltas[0]);
        seq![v] + delta32_decode_spec(deltas.drop_first(), v)
    }
}

pub proof fn lemma_delta32_roundtrip(vals: Seq<i32>, prev: i32)
    ensures
        delta32_decode_spec(delta32_encode_spec(vals, prev), prev) == vals,
    decreases vals.len(),
{
    if vals.len() == 0 {
        assert(delta32_decode_spec(delta32_encode_spec(vals, prev), prev) =~= vals);
    } else {
        let d = i32_specs::wrapping_sub(vals[0], prev);
        assert(i32_specs::wrapping_add(prev, d) == vals[0]);
        lemma_delta32_roundtrip(vals.drop_first(), vals[0]);
        let ds = delta32_encode_spec(vals, prev);
        assert(ds.drop_first() =~= delta32_encode_spec(vals.drop_first(), vals[0]));
        assert(ds[0] == d);
        assert(delta32_decode_spec(ds, prev) == seq![vals[0]] + delta32_decode_spec(
            ds.drop_first(),
            vals[0],
        ));
        assert(delta32_decode_spec(delta32_encode_spec(vals, prev), prev) =~= vals);
    }
}

pub proof fn lemma_delta32_decode_len(deltas: Seq<i32>, prev: i32)
    ensures
        delta32_decode_spec(deltas, prev).len() == deltas.len(),
    decreases deltas.len(),
{
    if deltas.len() > 0 {
        lemma_delta32_decode_len(
            deltas.drop_first(),
            i32_specs::wrapping_add(prev, deltas[0]),
        );
    }
}

/// Replaces each 32-bit value by its wrapping difference from its
/// predecessor.
pub fn delta32_encode(vals: &Vec<i32>) -> (r: Vec<i32>)
    ensures
        r@ == delta32_encode_spec(vals@, 0),
{
    let mut out: Vec<i32> = Vec::new();
    let mut prev: i32 = 0;
    let mut i: usize = 0;
    proof {
        assert(vals@.skip(0) =~= vals@);
        assert(out@ + delta32_encode_spec(vals@, 0) =~= delta32_encode_spec(vals@, 0));
    }
    while i < vals.len()
        invariant
            i <= vals@.len(),
            prev == (if i == 0 {
                0i32
            } else {
                vals@[i as int - 1]
            }),
            delta32_encode_spec(vals@, 0) == out@ + delta32_encode_spec(
                vals@.skip(i as int),
                prev,
            ),
        decreases vals@.len() - i,
    {
        let v = vals[i];
        proof {
            let rest = vals@.skip(i as int);
            assert(rest[0] == v);
            assert(rest.drop_first() =~= vals@.skip(i as int + 1));
            assert(out@ + delta32_encode_spec(rest, prev) =~= out@.push(
                i32_specs::wrapping_sub(v, prev),
            ) + delta32_encode_spec(vals@.skip(i as int + 1), v));
        }
        out.push(v.wrapping_sub(prev));
        prev = v;
        i += 1;
    }
    assert(vals@.skip(vals@.len() as int) =~= Seq::<i32>::empty());
    assert(out@ =~= out@ + delta32_encode_spec(vals@.skip(vals@.len() as int), prev));
    out
}

/// Replaces each 32-bit delta by the wrapping running sum up to it.
pub fn delta32_decode(deltas: &Vec<i32>) -> (r: Vec<i32>)
    ensures
        r@ == delta32_decode_spec(deltas@, 0),
{
    let mut out: Vec<i32> = Vec::new();
    let mut prev: i32 = 0;
    let mut i: usize = 0;
    proof {
        assert(deltas@.skip(0) =~= deltas@);
        assert(out@ + delta32_decode_spec(deltas@, 0) =~= delta32_decode_spec(deltas@, 0));
    }
    while i < deltas.len()
        invariant
            i <= deltas@.len(),
            delta32_decode_spec(deltas@, 0) == out@ + delta32_decode_spec(
                deltas@.skip(i as int),
                prev,
            ),
        decreases deltas@.len() - i,
    {
        let d = deltas[i];
        proof {
            let rest = deltas@.skip(i as int);
            assert(rest[0] == d);
            assert(rest.drop_first() =~= deltas@.skip(i as int + 1));
            assert(out@ + delta32_decode_spec(rest, prev) =~= out@.push(
                i32_specs::wrapping_add(prev, d),
            ) + delta32_decode_spec(
                deltas@.skip(i as int + 1),
                i32_specs::wrapping_add(prev, d),
            ));
        }
        prev = prev.wrapping_add(d);
        out.push(prev);
        i += 1;
    }
    assert(deltas@.skip(deltas@.len() as int) =~= Seq::<i32>::empty());
    assert(out@ =~= out@ + delta32_decode_spec(deltas@.skip(deltas@.len() as int), prev));
    out
}

} // verus!
