//! Big-endian fixed-width integers and the byte cursor that reads them.

use vstd::prelude::*;

verus! {

/// Why a byte string is not an encoded value.
#[derive(Clone, Copy, Debug, PartialEq, Eq, Structural)]
pub enum DecodeError {
    /// The bytes end before the value does.
    EndOfBuffer,
    /// This many bytes follow the value.
    ExtraData(usize),
}

/// `width` bytes of `n`, most significant first.
pub open spec fn be_bytes(n: nat, width: nat) -> Seq<u8>
    decreases width,
{
    if width == 0 {
        Seq::empty()
    } else {
        be_bytes(n / 256, (width - 1) as nat).push((n % 256) as u8)
    }
}

/// The number that `bytes` spell, most significant first.
pub open spec fn be_value(bytes: Seq<u8>) -> nat
    decreases bytes.len(),
{
    if bytes.len() == 0 {
        0
    } else {
        be_value(bytes.drop_last()) * 256 + bytes.last() as nat
    }
}

/// `256^width`.
pub open spec fn radix(width: nat) -> nat
    decreases width,
{
    if width == 0 {
        1
    } else {
        256 * radix((width - 1) as nat)
    }
}

/// A number of `width` bytes is read back from the bytes it is written as.
pub proof fn be_round_trip(n: nat, width: nat)
    requires
        n < radix(width),
    ensures
        be_bytes(n, width).len() == width,
        be_value(be_bytes(n, width)) == n,
    decreases width,
{
    if width > 0 {
        be_round_trip(n / 256, (width - 1) as nat);
        let s = be_bytes(n / 256, (width - 1) as nat);
        assert(be_bytes(n, width).drop_last() =~= s);
    }
}

/// Bytes are written back from the number they are read as.
pub proof fn be_value_round_trip(bytes: Seq<u8>)
    ensures
        be_value(bytes) < radix(bytes.len()),
        be_bytes(be_value(bytes), bytes.len()) == bytes,
    decreases bytes.len(),
{
    if bytes.len() > 0 {
        let init = bytes.drop_last();
        be_value_round_trip(init);
        let v = be_value(init) * 256 + bytes.last() as nat;
        assert(v / 256 == be_value(init));
        assert(v % 256 == bytes.last() as nat);
        assert(init.push(bytes.last()) =~= bytes);
    } else {
        assert(bytes =~= Seq::<u8>::empty());
    }
}

/// Appends `width` bytes of `n`, most significant first.
pub fn put_be(out: &mut Vec<u8>, n: u64, width: usize)
    ensures
        final(out)@ == old(out)@ + be_bytes(n as nat, width as nat),
    decreases width,
{
    if width > 0 {
        put_be(out, n / 256, width - 1);
        out.push((n % 256) as u8);
        assert(out@ =~= old(out)@ + be_bytes(n as nat, width as nat));
    } else {
        assert(out@ =~= old(out)@ + be_bytes(n as nat, width as nat));
    }
}

pub(crate) proof fn lemma_radix_values()
    ensures
        radix(0) == 1,
        radix(4) == 0x1_0000_0000,
        radix(8) == 0x1_0000_0000_0000_0000,
{
    reveal_with_fuel(radix, 9);
}

proof fn lemma_radix_monotone(a: nat, b: nat)
    requires
        a <= b,
    ensures
        radix(a) <= radix(b),
    decreases b,
{
    if a < b {
        lemma_radix_monotone(a, (b - 1) as nat);
    }
}

/// The number at `bytes[at..at + width]`.
pub fn get_be(bytes: &[u8], at: usize, width: usize) -> (n: u64)
    requires
        width <= 8,
        at + width <= bytes.len(),
    ensures
        n as nat == be_value(bytes@.subrange(at as int, at + width)),
{
    let mut n: u64 = 0;
    let mut i: usize = 0;
    while i < width
        invariant
            i <= width <= 8,
            at + width <= bytes.len(),
            n as nat == be_value(bytes@.subrange(at as int, at + i)),
        decreases width - i,
    {
        let ghost prefix = bytes@.subrange(at as int, at + i);
        let ghost longer = bytes@.subrange(at as int, at + i + 1);
        proof {
            be_value_round_trip(prefix);
            be_value_round_trip(longer);
            assert(longer.drop_last() =~= prefix);
            lemma_radix_monotone(longer.len(), 8);
            lemma_radix_values();
        }
        n = n * 256 + (bytes[at + i] as u64);
        i = i + 1;
    }
    n
}

/// The first byte of a number is its most significant one, and the rest are
/// those of what it leaves.
pub proof fn most_significant_byte_is_first(n: nat, width: nat)
    requires
        width > 0,
        n < radix(width),
    ensures
        be_bytes(n, width).len() == width,
        be_bytes(n, width)[0] as nat == n / radix((width - 1) as nat),
        be_bytes(n, width).skip(1) == be_bytes(n % radix((width - 1) as nat), (width - 1) as nat),
        be_bytes(n, width).last() as nat == n % 256,
    decreases width,
{
    be_round_trip(n, width);
    lemma_radix_positive((width - 1) as nat);
    if width == 1 {
        assert(radix(1) == 256) by {
            reveal_with_fuel(radix, 2);
        }
        assert(radix(0) == 1);
        assert(be_bytes(n / 256, 0) =~= Seq::<u8>::empty());
        assert(be_bytes(n, 1).skip(1) =~= Seq::<u8>::empty());
    } else {
        let less = (width - 1) as nat;
        let least = (width - 2) as nat;
        most_significant_byte_is_first(n / 256, less);
        lemma_radix_positive(least);
        let r = radix(least);
        assert(radix(less) == 256 * r);
        assert((n / 256) / r == n / (256 * r)) by {
            vstd::arithmetic::div_mod::lemma_div_denominator(n as int, 256, r as int);
        }
        assert((n % (256 * r)) / 256 == (n / 256) % r && (n % (256 * r)) % 256 == n % 256) by {
            vstd::arithmetic::div_mod::lemma_mod_breakdown(n as int, 256, r as int);
            let low = n % 256;
            let high = (n / 256) % r;
            assert(n % (256 * r) == 256 * high + low);
        }
        let whole = be_bytes(n, width);
        let part = be_bytes(n / 256, less);
        assert(whole == part.push((n % 256) as u8));
        assert(whole[0] == part[0]);
        be_round_trip(n / 256, less);
        assert(whole.skip(1) =~= part.skip(1).push((n % 256) as u8));
    }
}

proof fn lemma_radix_positive(width: nat)
    ensures
        radix(width) > 0,
    decreases width,
{
    if width > 0 {
        lemma_radix_positive((width - 1) as nat);
    }
}

} // verus!
