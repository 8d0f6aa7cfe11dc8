//! Little-endian numbers in byte sequences.

use vstd::prelude::*;

verus! {

/// The number that bytes write, least significant byte first.
pub open spec fn le_value(bytes: Seq<u8>) -> nat
    decreases bytes.len(),
{
    if bytes.len() == 0 {
        0
    } else {
        bytes[0] as nat + 256 * le_value(bytes.drop_first())
    }
}

/// The low `width` bytes of a number, least significant byte first.
pub open spec fn le_bytes(n: nat, width: nat) -> Seq<u8>
    decreases width,
{
    if width == 0 {
        seq![]
    } else {
        seq![(n % 256) as u8] + le_bytes(n / 256, (width - 1) as nat)
    }
}

/// `256` to the power of `width`: how many numbers `width` bytes can write.
pub open spec fn span(width: nat) -> nat
    decreases width,
{
    if width == 0 {
        1
    } else {
        256 * span((width - 1) as nat)
    }
}

pub proof fn le_bytes_len(n: nat, width: nat)
    ensures
        le_bytes(n, width).len() == width,
    decreases width,
{
    if width > 0 {
        le_bytes_len(n / 256, (width - 1) as nat);
    }
}

pub proof fn le_value_bound(bytes: Seq<u8>)
    ensures
        le_value(bytes) < span(bytes.len()),
    decreases bytes.len(),
{
    if bytes.len() > 0 {
        le_value_bound(bytes.drop_first());
    }
}

/// Reading what was written gives the number back, as long as it fits.
pub proof fn le_round_trip(n: nat, width: nat)
    requires
        n < span(width),
    ensures
        le_value(le_bytes(n, width)) == n,
        le_bytes(n, width).len() == width,
    decreases width,
{
    if width > 0 {
        le_round_trip(n / 256, (width - 1) as nat);
        assert(le_bytes(n, width).drop_first() =~= le_bytes(n / 256, (width - 1) as nat));
    }
}

/// A byte behind others weighs 256 times what it would weigh in front of the last of them.
pub proof fn the_last_byte_weighs_the_most(bytes: Seq<u8>, last: u8)
    ensures
        le_value(bytes.push(last)) == le_value(bytes) + last * span(bytes.len()),
    decreases bytes.len(),
{
    let longer = bytes.push(last);
    if bytes.len() == 0 {
        assert(longer.drop_first() =~= bytes);
        assert(le_value(longer.drop_first()) == 0);
        assert(last * span(0) == last) by (nonlinear_arith)
            requires
                span(0) == 1,
        ;
    } else {
        let rest = bytes.drop_first();
        the_last_byte_weighs_the_most(rest, last);
        assert(longer.drop_first() =~= rest.push(last));
        let (l, p) = (last as int, span(rest.len()) as int);
        assert(256 * (l * p) == l * (256 * p)) by (nonlinear_arith);
    }
}

/// A number in four bytes has its least byte first.
pub proof fn the_least_byte_comes_first(n: nat)
    requires
        n < 0x1_0000_0000,
    ensures
        le_bytes(n, 4).len() == 4,
        le_bytes(n, 4)[0] == n % 256,
        le_bytes(n, 4)[0] + 256 * le_bytes(n, 4)[1] + 65536 * le_bytes(n, 4)[2] + 16777216
            * le_bytes(n, 4)[3] == n,
{
    reveal_with_fuel(le_bytes, 5);
    le_bytes_len(n, 4);
}

pub proof fn span_values()
    ensures
        span(1) == 0x100,
        span(4) == 0x1_0000_0000,
        span(8) == 0x1_0000_0000_0000_0000,
{
    reveal_with_fuel(span, 9);
}

/// Appends the low `width` bytes of a number.
pub fn push_le(out: &mut Vec<u8>, n: u64, width: usize)
    ensures
        final(out)@ == old(out)@ + le_bytes(n as nat, width as nat),
    decreases width,
{
    if width > 0 {
        out.push((n % 256) as u8);
        push_le(out, n / 256, width - 1);
        assert(out@ =~= old(out)@ + le_bytes(n as nat, width as nat));
    } else {
        assert(out@ =~= old(out)@ + le_bytes(n as nat, 0));
    }
}

/// Reads the number in the bytes `at..at + width`.
pub fn read_le(buf: &[u8], at: usize, width: usize) -> (n: u64)
    requires
        at + width <= buf.len(),
        width <= 8,
    ensures
        n == le_value(buf@.subrange(at as int, at + width)),
        n < span(width as nat),
    decreases width,
{
    proof {
        le_value_bound(buf@.subrange(at as int, at + width));
        span_values();
    }
    if width == 0 {
        0
    } else {
        let rest: u64 = read_le(buf, at + 1, width - 1);
        assert(buf@.subrange(at as int, at + width).drop_first() =~= buf@.subrange(
            at + 1,
            at + width,
        ));
        proof {
            span_monotone(width as nat, 8);
        }
        buf[at] as u64 + 256 * rest
    }
}

proof fn span_monotone(a: nat, b: nat)
    requires
        a <= b,
    ensures
        span(a) <= span(b),
    decreases b,
{
    if a < b {
        span_monotone(a, (b - 1) as nat);
    }
}

/// A copy of the bytes `start..end`.
pub fn slice_bytes(buf: &[u8], start: usize, end: usize) -> (out: Vec<u8>)
    requires
        start <= end <= buf@.len(),
    ensures
        out@ == buf@.subrange(start as int, end as int),
{
    let mut out: Vec<u8> = Vec::new();
    let mut i: usize = start;
    while i < end
        invariant
            start <= i <= end <= buf@.len(),
            out@ == buf@.subrange(start as int, i as int),
        decreases end - i,
    {
        out.push(buf[i]);
        i = i + 1;
        assert(buf@.subrange(start as int, i as int) =~= buf@.subrange(start as int, i - 1).push(
            buf@[i - 1],
        ));
    }
    out
}

/// Appends every byte of a slice.
pub fn push_bytes(out: &mut Vec<u8>, bytes: &[u8])
    ensures
        final(out)@ == old(out)@ + bytes@,
{
    let mut i: usize = 0;
    while i < bytes.len()
        invariant
            i <= bytes@.len(),
            out@ == old(out)@ + bytes@.take(i as int),
        decreases bytes.len() - i,
    {
        out.push(bytes[i]);
        i = i + 1;
        assert(bytes@.take(i as int) =~= bytes@.take(i - 1).push(bytes@[i - 1]));
    }
    assert(bytes@.take(bytes@.len() as int) =~= bytes@);
    assert(out@ =~= old(out)@ + bytes@);
}

} // verus!
