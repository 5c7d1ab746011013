//! Little-endian integers.
use vstd::prelude::*;

verus! {

/// The lowest `width` bytes of an integer in two's complement, lowest first.
pub open spec fn le_bytes(v: int, width: nat) -> Seq<u8>
    decreases width,
{
    if width == 0 {
        seq![]
    } else {
        seq![(v % 256) as u8] + le_bytes(v / 256, (width - 1) as nat)
    }
}

/// 256 to the power of `width`.
pub open spec fn span(width: nat) -> int
    decreases width,
{
    if width == 0 {
        1
    } else {
        256 * span((width - 1) as nat)
    }
}

/// The natural number with these little-endian bytes.
pub open spec fn le_value(s: Seq<u8>) -> int
    decreases s.len(),
{
    if s.len() == 0 {
        0
    } else {
        s[0] as int + 256 * le_value(s.drop_first())
    }
}

/// The integer with these little-endian bytes in two's complement.
pub open spec fn le_signed(s: Seq<u8>) -> int {
    if 2 * le_value(s) >= span(s.len()) {
        le_value(s) - span(s.len())
    } else {
        le_value(s)
    }
}

pub proof fn lemma_span(width: nat)
    ensures
        span(width) > 0,
        width == 1 ==> span(width) == 0x100,
        width == 2 ==> span(width) == 0x1_0000,
        width == 4 ==> span(width) == 0x1_0000_0000,
        width == 8 ==> span(width) == 0x1_0000_0000_0000_0000,
    decreases width,
{
    reveal_with_fuel(span, 9);
    if width > 0 {
        lemma_span((width - 1) as nat);
    }
}

pub proof fn lemma_le_len(v: int, width: nat)
    ensures
        le_bytes(v, width).len() == width,
    decreases width,
{
    if width > 0 {
        lemma_le_len(v / 256, (width - 1) as nat);
    }
}

/// Numbers that differ by a multiple of `span(width)` have the same bytes.
proof fn lemma_le_wrap(v: int, width: nat)
    ensures
        le_bytes(v + span(width), width) == le_bytes(v, width),
    decreases width,
{
    if width > 0 {
        let p = span((width - 1) as nat);
        assert((v + 256 * p) % 256 == v % 256);
        assert((v + 256 * p) / 256 == v / 256 + p);
        lemma_le_wrap(v / 256, (width - 1) as nat);
    }
}

pub proof fn lemma_le_value(v: int, width: nat)
    requires
        0 <= v < span(width),
    ensures
        le_value(le_bytes(v, width)) == v,
    decreases width,
{
    if width > 0 {
        lemma_le_value(v / 256, (width - 1) as nat);
        assert(le_bytes(v, width).drop_first() =~= le_bytes(v / 256, (width - 1) as nat));
    }
}

pub proof fn lemma_le_value_range(s: Seq<u8>)
    ensures
        0 <= le_value(s) < span(s.len()),
    decreases s.len(),
{
    if s.len() > 0 {
        lemma_le_value_range(s.drop_first());
    }
}

/// Reading the bytes of a 64-bit integer gives the integer back.
pub proof fn law_i64_bytes_round_trip(v: i64)
    ensures
        le_bytes(v as int, 8).len() == 8,
        le_signed(le_bytes(v as int, 8)) == v,
{
    lemma_le_len(v as int, 8);
    lemma_span(8);
    if v < 0 {
        lemma_le_wrap(v as int, 8);
        lemma_le_value(v + span(8), 8);
    } else {
        lemma_le_value(v as int, 8);
    }
}

/// Appends the lowest `width` bytes of `v`.
fn put(out: &mut Vec<u8>, v: u64, width: usize)
    ensures
        final(out)@ == old(out)@ + le_bytes(v as int, width as nat),
    decreases width,
{
    if width > 0 {
        out.push((v % 256) as u8);
        let ghost mid = out@;
        put(out, v / 256, width - 1);
        assert(out@ =~= old(out)@ + le_bytes(v as int, width as nat));
    } else {
        assert(out@ =~= old(out)@ + le_bytes(v as int, 0));
    }
}

/// Appends the eight bytes of a signed integer.
pub fn put_i64(out: &mut Vec<u8>, v: i64)
    ensures
        final(out)@ == old(out)@ + le_bytes(v as int, 8),
{
    if v < 0 {
        let u: u64 = (v as i128 + 0x1_0000_0000_0000_0000) as u64;
        proof {
            lemma_span(8);
            lemma_le_wrap(v as int, 8);
        }
        put(out, u, 8);
    } else {
        put(out, v as u64, 8);
    }
}

proof fn lemma_le_low(v: int, width: nat, more: nat)
    requires
        width <= more,
    ensures
        le_bytes(v % span(more), width) == le_bytes(v, width),
    decreases width,
{
    lemma_span(more);
    if width > 0 {
        let p = span((more - 1) as nat);
        lemma_span((more - 1) as nat);
        let q = v / (256 * p);
        assert(v == 256 * p * q + v % (256 * p)) by (nonlinear_arith)
            requires
                p > 0,
                q == v / (256 * p),
        ;
        let r = v % (256 * p);
        assert(256 * p * q == 256 * (p * q)) by (nonlinear_arith);
        assert(r % 256 == v % 256);
        assert(v / 256 == p * q + r / 256);
        assert((v / 256) % p == r / 256) by (nonlinear_arith)
            requires
                v / 256 == p * q + r / 256,
                0 <= r < 256 * p,
                p > 0,
        {
            assert(0 <= r / 256 < p);
            vstd::arithmetic::div_mod::lemma_fundamental_div_mod_converse(
                v / 256,
                p,
                q,
                r / 256,
            );
        }
        lemma_le_low(v / 256, (width - 1) as nat, (more - 1) as nat);
    }
}

/// Appends the lowest `width` bytes of a signed integer.
pub fn put_low(out: &mut Vec<u8>, v: i64, width: usize)
    requires
        width <= 8,
    ensures
        final(out)@ == old(out)@ + le_bytes(v as int, width as nat),
{
    if v < 0 {
        let u: u64 = (v as i128 + 0x1_0000_0000_0000_0000) as u64;
        proof {
            lemma_span(8);
            lemma_le_low(v as int, width as nat, 8);
            assert(v as int % 0x1_0000_0000_0000_0000 == u);
        }
        put(out, u, width);
    } else {
        put(out, v as u64, width);
    }
}

/// The lowest `width` bytes of every value, one after another.
pub open spec fn le_all(v: Seq<i64>, width: nat) -> Seq<u8>
    decreases v.len(),
{
    if v.len() == 0 {
        seq![]
    } else {
        le_all(v.drop_last(), width) + le_bytes(v.last() as int, width)
    }
}

/// Serializes integers at a width of one to eight bytes.
pub fn to_le_bytes(values: &Vec<i64>, width: usize) -> (r: Vec<u8>)
    requires
        width <= 8,
    ensures
        r@ == le_all(values@, width as nat),
{
    let mut out: Vec<u8> = Vec::new();
    let mut i: usize = 0;
    assert(values@.take(0) =~= Seq::<i64>::empty());
    while i < values.len()
        invariant
            i <= values@.len(),
            width <= 8,
            out@ == le_all(values@.take(i as int), width as nat),
        decreases values@.len() - i,
    {
        assert(values@.take(i + 1).drop_last() =~= values@.take(i as int));
        put_low(&mut out, values[i], width);
        i = i + 1;
    }
    assert(values@.take(i as int) =~= values@);
    out
}

/// The little-endian bytes of a 32-bit word.
pub fn put_u32(out: &mut Vec<u8>, v: u32)
    ensures
        final(out)@ == old(out)@ + le_bytes(v as int, 4),
{
    put(out, v as u64, 4);
}

/// The natural number in `data[at..at + width]`.
pub fn read_le(data: &Vec<u8>, at: usize, width: usize) -> (r: u64)
    requires
        width <= 8,
        at + width <= data@.len(),
    ensures
        r == le_value(data@.subrange(at as int, at + width)),
    decreases width,
{
    let ghost s = data@.subrange(at as int, at + width);
    let len: usize = data.len();
    if width == 0 {
        return 0;
    }
    assert(at < len);
    let rest: u64 = read_le(data, at + 1, width - 1);
    proof {
        assert(s.drop_first() =~= data@.subrange(at + 1, at + width));
        lemma_le_value_range(s.drop_first());
        lemma_span_mono((width - 1) as nat, 7);
        reveal_with_fuel(span, 9);
    }
    data[at] as u64 + 256 * rest
}

proof fn lemma_span_mono(a: nat, b: nat)
    requires
        a <= b,
    ensures
        span(a) <= span(b),
    decreases b,
{
    lemma_span(a);
    lemma_span(b);
    if a < b {
        lemma_span_mono(a, (b - 1) as nat);
        lemma_span((b - 1) as nat);
    }
}

/// The signed integer in `data[at..at + width]`, for a width of four or eight.
pub fn read_le_signed(data: &Vec<u8>, at: usize, width: usize) -> (r: i64)
    requires
        width == 4 || width == 8,
        at + width <= data@.len(),
    ensures
        r == le_signed(data@.subrange(at as int, at + width)),
{
    let u: u64 = read_le(data, at, width);
    proof {
        lemma_span(4);
        lemma_span(8);
        lemma_le_value_range(data@.subrange(at as int, at + width));
    }
    if width == 4 {
        if u >= 0x8000_0000 {
            (u as i128 - 0x1_0000_0000) as i64
        } else {
            u as i64
        }
    } else if u >= 0x8000_0000_0000_0000 {
        (u as i128 - 0x1_0000_0000_0000_0000) as i64
    } else {
        u as i64
    }
}

/// The signed integers of `width` bytes that `data` holds; a rest that is too
/// short for one more is left out.
pub open spec fn signed_chunks(data: Seq<u8>, width: int) -> Seq<i64> {
    Seq::new(
        (data.len() as int / width) as nat,
        |i: int| le_signed(data.subrange(i * width, i * width + width)) as i64,
    )
}

pub fn read_signed_chunks(data: &Vec<u8>, width: usize) -> (r: Vec<i64>)
    requires
        width == 4 || width == 8,
    ensures
        r@ == signed_chunks(data@, width as int),
{
    let n: usize = data.len() / width;
    let mut out: Vec<i64> = Vec::new();
    let mut i: usize = 0;
    while i < n
        invariant
            i <= n,
            width == 4 || width == 8,
            n == data@.len() / width as nat,
            out@.len() == i,
            forall|k: int|
                0 <= k < i ==> (#[trigger] out@[k]) == le_signed(
                    data@.subrange(k * width, k * width + width),
                ),
        decreases n - i,
    {
        let len: usize = data.len();
        assert(i * width + width <= len);
        out.push(read_le_signed(data, i * width, width));
        i = i + 1;
    }
    assert(out@ =~= signed_chunks(data@, width as int));
    out
}

/// Serializing 64-bit integers and reading them back gives the same integers.
pub proof fn law_i64_list_round_trip(values: Seq<i64>)
    ensures
        le_all(values, 8).len() == 8 * values.len(),
        signed_chunks(le_all(values, 8), 8) == values,
    decreases values.len(),
{
    if values.len() == 0 {
        assert(signed_chunks(le_all(values, 8), 8) =~= values);
    } else {
        let front = values.drop_last();
        law_i64_list_round_trip(front);
        law_i64_bytes_round_trip(values.last());
        let a = le_all(front, 8);
        let d = le_all(values, 8);
        assert forall|i: int| 0 <= i < values.len() implies #[trigger] signed_chunks(d, 8)[i]
            == values[i] by {
            if i < front.len() {
                assert(d.subrange(i * 8, i * 8 + 8) =~= a.subrange(i * 8, i * 8 + 8));
                assert(signed_chunks(a, 8)[i] == front[i]);
            } else {
                assert(d.subrange(i * 8, i * 8 + 8) =~= le_bytes(values.last() as int, 8));
            }
        }
        assert(signed_chunks(d, 8) =~= values);
    }
}

} // verus!
