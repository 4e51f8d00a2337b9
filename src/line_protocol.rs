//! The plain-text line format in which measurements are uploaded.

use vstd::prelude::*;
use crate::arr_deque::ArrDeque;

verus! {

/// One reading: a raw sample and the device clock, in seconds, when it was
/// taken.
#[derive(Clone, Copy, Debug, PartialEq, Eq, Structural)]
pub struct Measurement {
    pub value: u16,
    pub time: u32,
}

/// The ASCII decimal digits of `n`, without leading zeros.
pub open spec fn decimal(n: nat) -> Seq<u8>
    decreases n,
{
    if n < 10 {
        seq![(48 + n) as u8]
    } else {
        decimal(n / 10).push((48 + n % 10) as u8)
    }
}

/// `x` in decimal, with a leading `-` when negative.
pub open spec fn signed_decimal(x: int) -> Seq<u8> {
    if x < 0 {
        seq![45u8] + decimal((-x) as nat)
    } else {
        decimal(x as nat)
    }
}

/// Nine zeros: seconds are sent as nanoseconds.
pub open spec fn nanos_suffix() -> Seq<u8> {
    seq![48u8, 48u8, 48u8, 48u8, 48u8, 48u8, 48u8, 48u8, 48u8]
}

/// `<prefix><value> <seconds since the epoch>000000000\n`, where the
/// absolute time is the device time shifted by `offset`.
pub open spec fn line(prefix: Seq<u8>, m: Measurement, offset: int) -> Seq<u8> {
    prefix + decimal(m.value as nat) + seq![32u8] + signed_decimal(m.time + offset)
        + nanos_suffix() + seq![10u8]
}

/// The lines of all of `ms`, in order.
pub open spec fn lines(prefix: Seq<u8>, ms: Seq<Measurement>, offset: int) -> Seq<u8>
    decreases ms.len(),
{
    if ms.len() == 0 {
        Seq::empty()
    } else {
        lines(prefix, ms.drop_last(), offset) + line(prefix, ms.last(), offset)
    }
}

/// Whether `offset` is a difference between an `i64` wall-clock time and a
/// `u32` device time.
pub open spec fn offset_in_range(offset: int) -> bool {
    i64::MIN - u32::MAX <= offset <= i64::MAX
}

/// The shift from device clock to wall clock: `now - clock`.
pub fn time_offset(now: i64, clock: u32) -> (r: i128)
    ensures
        r == now - clock,
        offset_in_range(r as int),
{
    now as i128 - clock as i128
}

/// Appends the decimal digits of `n` to `out`.
pub fn push_decimal(out: &mut Vec<u8>, n: u128)
    ensures
        final(out)@ == old(out)@ + decimal(n as nat),
    decreases n,
{
    if n >= 10 {
        push_decimal(out, n / 10);
    }
    out.push((48 + n % 10) as u8);
    assert(final(out)@ =~= old(out)@ + decimal(n as nat));
}

/// Appends `x` in decimal, with a `-` when negative.
pub fn push_signed_decimal(out: &mut Vec<u8>, x: i128)
    requires
        x > i128::MIN,
    ensures
        final(out)@ == old(out)@ + signed_decimal(x as int),
{
    if x < 0 {
        out.push(45u8);
        push_decimal(out, (0 - x) as u128);
    } else {
        push_decimal(out, x as u128);
    }
    assert(final(out)@ =~= old(out)@ + signed_decimal(x as int));
}

fn push_bytes(out: &mut Vec<u8>, bytes: &[u8])
    ensures
        final(out)@ == old(out)@ + bytes@,
{
    let mut i: usize = 0;
    while i < bytes.len()
        invariant
            i <= bytes@.len(),
            out@ == old(out)@ + bytes@.subrange(0, i as int),
        decreases bytes@.len() - i,
    {
        out.push(bytes[i]);
        i = i + 1;
        assert(out@ =~= old(out)@ + bytes@.subrange(0, i as int));
    }
    assert(bytes@.subrange(0, i as int) =~= bytes@);
}

/// Appends the upload line of `m` to `out`.
pub fn push_line(out: &mut Vec<u8>, prefix: &[u8], m: Measurement, offset: i128)
    requires
        offset_in_range(offset as int),
    ensures
        final(out)@ == old(out)@ + line(prefix@, m, offset as int),
{
    push_bytes(out, prefix);
    push_decimal(out, m.value as u128);
    out.push(32u8);
    push_signed_decimal(out, m.time as i128 + offset);
    let mut k: usize = 0;
    while k < 9
        invariant
            k <= 9,
            out@ == old(out)@ + prefix@ + decimal(m.value as nat) + seq![32u8]
                + signed_decimal(m.time + offset) + nanos_suffix().subrange(0, k as int),
        decreases 9 - k,
    {
        out.push(48u8);
        k = k + 1;
        assert(nanos_suffix().subrange(0, k as int) =~= nanos_suffix().subrange(0, k - 1).push(48u8));
        assert(out@ =~= old(out)@ + prefix@ + decimal(m.value as nat) + seq![32u8]
                + signed_decimal(m.time + offset) + nanos_suffix().subrange(0, k as int));
    }
    out.push(10u8);
    assert(nanos_suffix().subrange(0, 9) =~= nanos_suffix());
    assert(final(out)@ =~= old(out)@ + line(prefix@, m, offset as int));
}

/// The upload body for every buffered measurement, oldest first: one line
/// each, times shifted by `offset` from device clock to wall clock.
pub fn records_body<const N: usize>(
    records: &ArrDeque<Measurement, N>,
    prefix: &[u8],
    offset: i128,
) -> (r: Vec<u8>)
    requires
        records.wf(),
        offset_in_range(offset as int),
    ensures
        r@ == lines(prefix@, records@, offset as int),
{
    let mut out: Vec<u8> = Vec::new();
    let mut it = records.iter();
    let ghost all = records@;
    let total = records.len();
    let mut done: usize = 0;
    loop
        invariant
            it.wf(),
            offset_in_range(offset as int),
            all.len() == total,
            done <= all.len(),
            it.remaining() == all.subrange(done as int, all.len() as int),
            out@ == lines(prefix@, all.subrange(0, done as int), offset as int),
        ensures
            out@ == lines(prefix@, all, offset as int),
        decreases all.len() - done,
    {
        let next = it.next();
        match next {
            Some(m) => {
                let ghost before = all.subrange(0, done as int);
                push_line(&mut out, prefix, *m, offset);
                done = done + 1;
                assert(all.subrange(0, done as int).drop_last() =~= before);
                assert(it.remaining() =~= all.subrange(done as int, all.len() as int));
            },
            None => {
                assert(all.subrange(0, done as int) =~= all);
                break;
            },
        }
    }
    out
}

/// The upload body of immediate mode: `<prefix><value>`, with no time.
pub fn immediate_body(prefix: &[u8], value: u16) -> (r: Vec<u8>)
    ensures
        r@ == prefix@ + decimal(value as nat),
{
    let mut out: Vec<u8> = Vec::new();
    push_bytes(&mut out, prefix);
    push_decimal(&mut out, value as u128);
    assert(out@ =~= prefix@ + decimal(value as nat));
    out
}

} // verus!
