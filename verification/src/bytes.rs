//! Numbers as bytes, the least significant byte first.

use vstd::prelude::*;

verus! {

/// The number that bytes stand for, the least significant byte first.
pub open spec fn le_value(bytes: Seq<u8>) -> nat
    decreases bytes.len(),
{
    if bytes.len() == 0 {
        0
    } else {
        bytes[0] as nat + 256 * le_value(bytes.skip(1))
    }
}

/// The `len` least significant bytes of a number, the least significant byte first.
pub open spec fn le_bytes(n: nat, len: nat) -> Seq<u8>
    decreases len,
{
    if len == 0 {
        Seq::empty()
    } else {
        seq![(n % 256) as u8] + le_bytes(n / 256, (len - 1) as nat)
    }
}

/// Bytes stand for a number that has those bytes.
pub proof fn lemma_le_bytes(bytes: Seq<u8>)
    ensures
        le_bytes(le_value(bytes), bytes.len()) == bytes,
    decreases bytes.len(),
{
    if bytes.len() > 0 {
        lemma_le_bytes(bytes.skip(1));
        assert(le_value(bytes) / 256 == le_value(bytes.skip(1)));
        assert(le_bytes(le_value(bytes), bytes.len()) =~= bytes);
    } else {
        assert(bytes =~= Seq::empty());
    }
}

/// Eight bytes stand for a number below two to the sixty-fourth.
pub proof fn lemma_le_value_bound(bytes: Seq<u8>)
    requires
        bytes.len() == 8,
    ensures
        le_value(bytes) <= u64::MAX,
{
    reveal_with_fuel(le_value, 9);
}

/// The number that eight bytes stand for.
pub fn read_le(bytes: &[u8; 8]) -> (n: u64)
    ensures
        n == le_value(bytes@),
{
    let mut n: u64 = 0;
    let mut i: usize = 8;
    let ghost s = bytes@;
    let ghost mut bound: nat = 1;
    assert(s.skip(8) =~= Seq::empty());
    while i > 0
        invariant
            i <= 8,
            s == bytes@,
            s.len() == 8,
            n == le_value(s.skip(i as int)),
            n < bound,
            i == 8 ==> bound == 1,
            i == 7 ==> bound == 0x100,
            i == 6 ==> bound == 0x1_0000,
            i == 5 ==> bound == 0x100_0000,
            i == 4 ==> bound == 0x1_0000_0000,
            i == 3 ==> bound == 0x100_0000_0000,
            i == 2 ==> bound == 0x1_0000_0000_0000,
            i == 1 ==> bound == 0x100_0000_0000_0000,
        decreases i,
    {
        assert(s.skip(i - 1).skip(1) =~= s.skip(i as int));
        i = i - 1;
        n = bytes[i] as u64 + 256 * n;
        proof {
            bound = 256 * bound;
        }
    }
    assert(s.skip(0) =~= s);
    n
}

/// The eight bytes of a number.
pub fn write_le(n: u64) -> (bytes: [u8; 8])
    ensures
        bytes@ == le_bytes(n as nat, 8),
        le_value(bytes@) == n,
{
    let n1: u64 = n / 256;
    let n2: u64 = n1 / 256;
    let n3: u64 = n2 / 256;
    let n4: u64 = n3 / 256;
    let n5: u64 = n4 / 256;
    let n6: u64 = n5 / 256;
    let n7: u64 = n6 / 256;
    assert(n1 <= 0xff_ffff_ffff_ffff);
    assert(n2 <= 0xffff_ffff_ffff);
    assert(n3 <= 0xff_ffff_ffff);
    assert(n4 <= 0xffff_ffff);
    assert(n5 <= 0xff_ffff);
    assert(n6 <= 0xffff);
    let bytes: [u8; 8] = [
        (n % 256) as u8,
        (n1 % 256) as u8,
        (n2 % 256) as u8,
        (n3 % 256) as u8,
        (n4 % 256) as u8,
        (n5 % 256) as u8,
        (n6 % 256) as u8,
        n7 as u8,
    ];
    proof {
        reveal_with_fuel(le_bytes, 9);
        assert(bytes@ =~= le_bytes(n as nat, 8));
        let s = bytes@;
        assert(s.skip(8) =~= Seq::empty());
        assert(s.skip(7).skip(1) =~= s.skip(8));
        assert(s.skip(6).skip(1) =~= s.skip(7));
        assert(s.skip(5).skip(1) =~= s.skip(6));
        assert(s.skip(4).skip(1) =~= s.skip(5));
        assert(s.skip(3).skip(1) =~= s.skip(4));
        assert(s.skip(2).skip(1) =~= s.skip(3));
        assert(s.skip(1).skip(1) =~= s.skip(2));
        assert(le_value(s.skip(8)) == 0);
        assert(le_value(s.skip(7)) == n7);
        assert(le_value(s.skip(6)) == n6);
        assert(le_value(s.skip(5)) == n5);
        assert(le_value(s.skip(4)) == n4);
        assert(le_value(s.skip(3)) == n3);
        assert(le_value(s.skip(2)) == n2);
        assert(le_value(s.skip(1)) == n1);
    }
    bytes
}

/// Reads a number from the first four of some bytes.
pub fn read_le_32(bytes: &[u8]) -> (n: u64)
    requires
        bytes@.len() >= 4,
    ensures
        n == le_value(bytes@.take(4)),
        n <= 0xffff_ffff,
{
    proof {
        let s = bytes@.take(4);
        reveal_with_fuel(le_value, 5);
        assert(s.skip(1).skip(1) =~= s.skip(2));
        assert(s.skip(2).skip(1) =~= s.skip(3));
        assert(s.skip(3).skip(1) =~= s.skip(4));
    }
    bytes[0] as u64 + 0x100 * bytes[1] as u64 + 0x1_0000 * bytes[2] as u64 + 0x100_0000
        * bytes[3] as u64
}

} // verus!
