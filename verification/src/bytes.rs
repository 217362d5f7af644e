//! Byte-level helpers shared by the binary encoders.

use vstd::prelude::*;

verus! {

/// The least multiple of `unit` that is not below `n`.
pub open spec fn round_up(n: int, unit: int) -> int {
    ((n + unit - 1) / unit) * unit
}

/// The `width` low bytes of `value`, least significant first.
pub open spec fn le_bytes(value: nat, width: nat) -> Seq<u8>
    decreases width,
{
    if width == 0 {
        Seq::empty()
    } else {
        seq![(value % 256) as u8] + le_bytes(value / 256, (width - 1) as nat)
    }
}

/// `bytes` followed by as many copies of `fill` as bring its length to a
/// multiple of `unit`.
pub open spec fn pad_to_multiple(bytes: Seq<u8>, unit: int, fill: u8) -> Seq<u8> {
    bytes + Seq::new((round_up(bytes.len() as int, unit) - bytes.len()) as nat, |i: int| fill)
}

/// Rounding up moves a length by less than one unit and lands on a multiple.
pub proof fn lemma_round_up(n: int, unit: int)
    requires
        0 <= n,
        0 < unit,
    ensures
        n <= round_up(n, unit) < n + unit,
        round_up(n, unit) % unit == 0,
        n % unit == 0 ==> round_up(n, unit) == n,
{
    let q = (n + unit - 1) / unit;
    assert(q * unit <= n + unit - 1 < q * unit + unit) by (nonlinear_arith)
        requires
            q == (n + unit - 1) / unit,
            0 < unit,
    ;
    assert((q * unit) % unit == 0) by (nonlinear_arith)
        requires
            0 < unit,
    ;
    if n % unit == 0 {
        assert(q * unit == n) by (nonlinear_arith)
            requires
                q * unit <= n + unit - 1 < q * unit + unit,
                n % unit == 0,
                (q * unit) % unit == 0,
                0 < unit,
                0 <= n,
        ;
    }
}

/// `le_bytes` yields exactly `width` bytes.
pub proof fn lemma_le_bytes_len(value: nat, width: nat)
    ensures
        le_bytes(value, width).len() == width,
    decreases width,
{
    if width > 0 {
        lemma_le_bytes_len(value / 256, (width - 1) as nat);
    }
}

/// Appends `source` to `target`.
pub fn append_bytes(target: &mut Vec<u8>, source: &Vec<u8>)
    ensures
        final(target)@ == old(target)@ + source@,
{
    let mut i: usize = 0;
    while i < source.len()
        invariant
            i <= source@.len(),
            target@ == old(target)@ + source@.subrange(0, i as int),
        decreases source@.len() - i,
    {
        target.push(source[i]);
        i += 1;
    }
    assert(source@.subrange(0, i as int) == source@);
}

/// Appends `fill` to `target` until its length is a multiple of `unit`.
pub fn pad_in_place(target: &mut Vec<u8>, unit: usize, fill: u8)
    requires
        0 < unit,
    ensures
        final(target)@ == pad_to_multiple(old(target)@, unit as int, fill),
        final(target)@.len() % (unit as nat) == 0,
{
    proof {
        lemma_round_up(target@.len() as int, unit as int);
    }
    let ghost goal: int = round_up(target@.len() as int, unit as int);
    while target.len() % unit != 0
        invariant
            0 < unit,
            old(target)@.len() <= target@.len() <= goal,
            goal == round_up(old(target)@.len() as int, unit as int),
            goal % (unit as int) == 0,
            goal < old(target)@.len() + unit,
            target@ == old(target)@ + Seq::new(
                (target@.len() - old(target)@.len()) as nat,
                |i: int| fill,
            ),
        decreases goal - target@.len(),
    {
        target.push(fill);
    }
    proof {
        let len: int = target@.len() as int;
        assert(len == goal) by (nonlinear_arith)
            requires
                len % (unit as int) == 0,
                goal % (unit as int) == 0,
                len <= goal,
                goal - len < unit,
                0 < unit,
        ;
    }
}

} // verus!
