//! Decimal rendering of integers as ASCII bytes.

use vstd::prelude::*;

verus! {

/// The decimal digits of `n`, most significant first, as ASCII bytes.
pub open spec fn spec_dec(n: nat) -> Seq<u8>
    decreases n,
{
    if n < 10 {
        seq![(0x30 + n) as u8]
    } else {
        spec_dec(n / 10) + seq![(0x30 + n % 10) as u8]
    }
}

/// The textual form of a signed integer: a minus sign where `i` is negative,
/// then the decimal digits of its magnitude.
pub open spec fn spec_render_int(i: int) -> Seq<u8> {
    if i < 0 {
        seq![0x2du8] + spec_dec((-i) as nat)
    } else {
        spec_dec(i as nat)
    }
}

/// `n` in decimal, left-padded with ASCII zeros to at least `width` bytes.
pub open spec fn spec_zero_pad(n: nat, width: nat) -> Seq<u8> {
    if spec_dec(n).len() >= width {
        spec_dec(n)
    } else {
        Seq::new((width - spec_dec(n).len()) as nat, |i: int| 0x30u8) + spec_dec(n)
    }
}

pub fn render_u64(n: u64) -> (r: Vec<u8>)
    ensures
        r@ == spec_dec(n as nat),
    decreases n,
{
    if n < 10 {
        let mut v: Vec<u8> = Vec::new();
        v.push(0x30 + n as u8);
        proof {
            assert(v@ =~= spec_dec(n as nat));
        }
        v
    } else {
        let mut v = render_u64(n / 10);
        v.push(0x30 + (n % 10) as u8);
        proof {
            assert(v@ =~= spec_dec(n as nat));
        }
        v
    }
}

pub fn render_usize(n: usize) -> (r: Vec<u8>)
    ensures
        r@ == spec_dec(n as nat),
{
    render_u64(n as u64)
}

pub fn render_u32(n: u32) -> (r: Vec<u8>)
    ensures
        r@ == spec_dec(n as nat),
{
    render_u64(n as u64)
}

pub fn render_i64(i: i64) -> (r: Vec<u8>)
    ensures
        r@ == spec_render_int(i as int),
{
    if i >= 0 {
        render_u64(i as u64)
    } else {
        let m: u64 = ((-(i + 1)) as u64) + 1;
        proof {
            assert(m as nat == (-(i as int)) as nat);
        }
        let mut v: Vec<u8> = Vec::new();
        v.push(0x2d);
        let mut d = render_u64(m);
        v.append(&mut d);
        proof {
            assert(v@ =~= spec_render_int(i as int));
        }
        v
    }
}

/// `n` in decimal, left-padded with ASCII zeros to at least `width` bytes.
pub fn render_zero_padded(n: u64, width: usize) -> (r: Vec<u8>)
    ensures
        r@ == spec_zero_pad(n as nat, width as nat),
{
    let mut d = render_u64(n);
    let mut v: Vec<u8> = Vec::new();
    while v.len() + d.len() < width
        invariant
            d@ == spec_dec(n as nat),
            v@ =~= Seq::new(v@.len(), |i: int| 0x30u8),
            v@.len() == 0 || v@.len() + d@.len() <= width,
        decreases width - v.len(),
    {
        v.push(0x30);
        proof {
            assert(v@ =~= Seq::new(v@.len(), |i: int| 0x30u8));
        }
    }
    v.append(&mut d);
    proof {
        assert(v@ =~= spec_zero_pad(n as nat, width as nat));
    }
    v
}

} // verus!
