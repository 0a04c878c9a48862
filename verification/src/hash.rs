//! Two small hash functions for trusted keys: one for numbers that are well mixed already, and
//! FNV-1a for names.

use vstd::prelude::*;

verus! {

/// The multiplier of [`TypeIdHasher`].
pub const SEED: u64 = 0x517c_c1b7_2722_0a95;

/// The starting value of FNV-1a.
pub const FNV_OFFSET: u64 = 0xcbf2_9ce4_8422_2325;

/// The multiplier of FNV-1a.
pub const FNV_PRIME: u64 = 0x0000_0100_0000_01b3;

/// `x` with its bits moved up by 5, around the end.
pub open spec fn rotated(x: u64) -> u64 {
    (x << 5) | (x >> 59)
}

/// The state after `value` was mixed into it.
pub open spec fn mixed(state: u64, value: u64) -> u64 {
    (rotated(state) ^ value).wrapping_mul(SEED)
}

/// The number that bytes stand for, the lowest byte first.
pub open spec fn le_value(bytes: Seq<u8>) -> nat
    decreases bytes.len(),
{
    if bytes.len() == 0 {
        0
    } else {
        bytes[0] as nat + 256 * le_value(bytes.drop_first())
    }
}

/// The state after bytes were mixed into it, eight at a time; the last group may be shorter.
pub open spec fn mixed_bytes(state: u64, bytes: Seq<u8>) -> u64
    decreases bytes.len(),
{
    if bytes.len() == 0 {
        state
    } else if bytes.len() <= 8 {
        mixed(state, le_value(bytes) as u64)
    } else {
        mixed_bytes(mixed(state, le_value(bytes.take(8)) as u64), bytes.skip(8))
    }
}

/// 256 to the power of `n`.
spec fn power_of_256(n: nat) -> nat
    decreases n,
{
    if n == 0 {
        1
    } else {
        256 * power_of_256((n - 1) as nat)
    }
}

proof fn lemma_powers()
    ensures
        power_of_256(8) == 0x1_0000_0000_0000_0000,
{
    reveal_with_fuel(power_of_256, 9);
}

proof fn lemma_power_grows(a: nat, b: nat)
    requires
        a <= b,
    ensures
        power_of_256(a) <= power_of_256(b),
    decreases b,
{
    if a < b {
        lemma_power_grows(a, (b - 1) as nat);
    }
}

/// The number that the bytes from `from` up to `to` stand for, the lowest byte first.
fn read_le(bytes: &[u8], from: usize, to: usize) -> (value: u64)
    requires
        from <= to <= bytes@.len(),
        to - from <= 8,
    ensures
        value as nat == le_value(bytes@.subrange(from as int, to as int)),
{
    let mut value: u64 = 0;
    let mut i: usize = to;
    proof {
        assert(bytes@.subrange(to as int, to as int) =~= Seq::empty());
    }
    while i > from
        invariant
            from <= i <= to <= bytes@.len(),
            to - from <= 8,
            value as nat == le_value(bytes@.subrange(i as int, to as int)),
            value < power_of_256((to - i) as nat),
        decreases i,
    {
        proof {
            lemma_powers();
            lemma_power_grows((to - i + 1) as nat, 8);
            let rest = bytes@.subrange(i as int, to as int);
            let longer = bytes@.subrange(i - 1, to as int);
            assert(longer.drop_first() =~= rest);
            assert(longer[0] == bytes@[i - 1]);
        }
        i = i - 1;
        value = value * 256 + bytes[i] as u64;
    }
    value
}

/// A hash function for keys that are well mixed already.
pub struct TypeIdHasher {
    pub state: u64,
}

impl Default for TypeIdHasher {
    fn default() -> (hasher: Self)
        ensures
            hasher.state == 0,
    {
        TypeIdHasher { state: 0 }
    }
}

impl TypeIdHasher {
    /// Mixes a number into the state.
    pub fn mix(&mut self, value: u64)
        ensures
            final(self).state == mixed(old(self).state, value),
    {
        let turned: u64 = (self.state << 5) | (self.state >> 59);
        self.state = (turned ^ value).wrapping_mul(SEED);
    }

    /// The hash of what was mixed in.
    pub fn finish(&self) -> (hash: u64)
        ensures
            hash == self.state,
    {
        self.state
    }

    /// Mixes bytes into the state, eight at a time, the lowest byte first.
    pub fn write(&mut self, bytes: &[u8])
        ensures
            final(self).state == mixed_bytes(old(self).state, bytes@),
    {
        let mut from: usize = 0;
        assert(bytes@.skip(0) =~= bytes@);
        while bytes.len() - from > 8
            invariant
                from <= bytes@.len(),
                mixed_bytes(self.state, bytes@.skip(from as int)) == mixed_bytes(
                    old(self).state,
                    bytes@,
                ),
            decreases bytes@.len() - from,
        {
            let value = read_le(bytes, from, from + 8);
            proof {
                let rest = bytes@.skip(from as int);
                assert(rest.take(8) =~= bytes@.subrange(from as int, from + 8));
                assert(rest.skip(8) =~= bytes@.skip(from + 8));
            }
            self.mix(value);
            from = from + 8;
        }
        if from < bytes.len() {
            let value = read_le(bytes, from, bytes.len());
            proof {
                assert(bytes@.skip(from as int) =~= bytes@.subrange(
                    from as int,
                    bytes@.len() as int,
                ));
            }
            self.mix(value);
        } else {
            assert(bytes@.skip(from as int).len() == 0);
        }
    }

    /// Mixes a wide number into the state, its lower half first.
    pub fn write_u128(&mut self, value: u128)
        ensures
            final(self).state == mixed(
                mixed(old(self).state, value as u64),
                (value >> 64) as u64,
            ),
    {
        self.mix(value as u64);
        self.mix((value >> 64) as u64);
    }
}

/// The state of FNV-1a after bytes were put in.
pub open spec fn fnv(state: u64, bytes: Seq<u8>) -> u64
    decreases bytes.len(),
{
    if bytes.len() == 0 {
        state
    } else {
        (fnv(state, bytes.drop_last()) ^ (bytes.last() as u64)).wrapping_mul(FNV_PRIME)
    }
}

/// The hash function FNV-1a.
pub struct FnvHasher {
    pub state: u64,
}

impl Default for FnvHasher {
    fn default() -> (hasher: Self)
        ensures
            hasher.state == FNV_OFFSET,
    {
        FnvHasher { state: FNV_OFFSET }
    }
}

impl FnvHasher {
    /// The hash of what was put in.
    pub fn finish(&self) -> (hash: u64)
        ensures
            hash == self.state,
    {
        self.state
    }

    /// Puts bytes in.
    pub fn write(&mut self, bytes: &[u8])
        ensures
            final(self).state == fnv(old(self).state, bytes@),
    {
        let mut i: usize = 0;
        assert(bytes@.take(0) =~= Seq::empty());
        while i < bytes.len()
            invariant
                i <= bytes@.len(),
                self.state == fnv(old(self).state, bytes@.take(i as int)),
            decreases bytes@.len() - i,
        {
            assert(bytes@.take(i as int + 1).drop_last() =~= bytes@.take(i as int));
            self.state = (self.state ^ (bytes[i] as u64)).wrapping_mul(FNV_PRIME);
            i = i + 1;
        }
        assert(bytes@.take(i as int) =~= bytes@);
    }
}

} // verus!
