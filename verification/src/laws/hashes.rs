//! How bytes are put into a hash.

use vstd::arithmetic::power::pow;
use vstd::prelude::*;

verus! {

/// Bytes can be put into FNV-1a one by one or in pieces of any length: the state is the same. One
/// byte is combined with the state first, which is multiplied then; no bytes leave it as it is.
pub proof fn fnv_takes_bytes_in_pieces(state: u64, some: Seq<u8>, more: Seq<u8>, byte: u8)
    ensures
        crate::hash::fnv(state, Seq::empty()) == state,
        crate::hash::fnv(state, seq![byte]) == (state ^ (byte as u64)).wrapping_mul(
            0x0000_0100_0000_01b3,
        ),
        crate::hash::fnv(state, some + more) == crate::hash::fnv(
            crate::hash::fnv(state, some),
            more,
        ),
    decreases more.len(),
{
    reveal_with_fuel(crate::hash::fnv, 2);
    assert(seq![byte].drop_last() =~= Seq::empty());
    if more.len() == 0 {
        assert(some + more =~= some);
    } else {
        fnv_takes_bytes_in_pieces(state, some, more.drop_last(), byte);
        assert((some + more).drop_last() =~= some + more.drop_last());
        assert((some + more).last() == more.last());
    }
}

/// The number that bytes stand for counts the first byte once, and each further one 256 times as
/// much as the one before it.
pub proof fn bytes_stand_for_a_number_lowest_first(some: Seq<u8>, more: Seq<u8>, byte: u8)
    ensures
        crate::hash::le_value(Seq::empty()) == 0,
        crate::hash::le_value(seq![byte]) == byte,
        crate::hash::le_value(some + more) == crate::hash::le_value(some) + pow(256, some.len())
            * crate::hash::le_value(more),
    decreases some.len(),
{
    reveal(pow);
    reveal_with_fuel(crate::hash::le_value, 2);
    assert(seq![byte].drop_first() =~= Seq::empty());
    if some.len() == 0 {
        assert(some + more =~= more);
        assert(pow(256, 0) == 1);
    } else {
        let rest = some.drop_first();
        bytes_stand_for_a_number_lowest_first(rest, more, byte);
        assert((some + more).drop_first() =~= rest + more);
        let p = pow(256, rest.len());
        let m = crate::hash::le_value(more) as int;
        assert(pow(256, some.len()) == 256 * p);
        assert(256 * (p * m) == (256 * p) * m) by (nonlinear_arith);
    }
}

/// Bytes are mixed in by groups of eight: eight of them, or fewer at the end, as the one number that
/// they stand for, and what follows a whole number of groups after them. No bytes leave the state as
/// it is.
pub proof fn bytes_are_mixed_in_groups_of_eight(
    state: u64,
    group: Seq<u8>,
    some: Seq<u8>,
    more: Seq<u8>,
)
    requires
        0 < group.len() <= 8,
        some.len() % 8 == 0,
    ensures
        crate::hash::mixed_bytes(state, Seq::empty()) == state,
        crate::hash::mixed_bytes(state, group) == crate::hash::mixed(
            state,
            crate::hash::le_value(group) as u64,
        ),
        crate::hash::mixed_bytes(state, some + more) == crate::hash::mixed_bytes(
            crate::hash::mixed_bytes(state, some),
            more,
        ),
    decreases some.len(),
{
    reveal_with_fuel(crate::hash::mixed_bytes, 2);
    if some.len() == 0 {
        assert(some + more =~= more);
    } else {
        assert(some.len() >= 8);
        let head = some.take(8);
        let next = crate::hash::mixed(state, crate::hash::le_value(head) as u64);
        let rest = some.skip(8);
        bytes_are_mixed_in_groups_of_eight(next, group, rest, more);
        if more.len() > 0 || rest.len() > 0 {
            assert((some + more).take(8) =~= head);
            assert((some + more).skip(8) =~= rest + more);
        } else {
            assert(some + more =~= some);
            assert(rest + more =~= rest);
        }
        if rest.len() == 0 {
            assert(some =~= head);
            assert(rest =~= Seq::empty());
        }
    }
}

/// To mix a number in is to turn the state round by five bits, combine it with the number, and
/// multiply by a constant.
pub proof fn mixing_turns_combines_and_multiplies(state: u64, value: u64)
    ensures
        crate::hash::mixed(state, value) == (((state << 5) | (state >> 59)) ^ value).wrapping_mul(
            0x517c_c1b7_2722_0a95,
        ),
{
}

} // verus!
