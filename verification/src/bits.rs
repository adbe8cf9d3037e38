//! Bit-level vocabulary shared by the device models.

use vstd::prelude::*;

verus! {

/// Whether line `n` of an eight-line register is set.
pub open spec fn line_set(x: u8, n: int) -> bool {
    0 <= n < 8 && x & (1u8 << (n as u8)) != 0
}

/// The lowest-numbered line set at or above `from`, if any.
pub open spec fn lowest_line_from(x: u8, from: int) -> Option<u8>
    decreases 8 - from,
{
    if from < 0 || from >= 8 {
        None
    } else if line_set(x, from) {
        Some(from as u8)
    } else {
        lowest_line_from(x, from + 1)
    }
}

/// The lowest-numbered line that is set, if any.
pub open spec fn lowest_line(x: u8) -> Option<u8> {
    lowest_line_from(x, 0)
}

/// Finds the lowest-numbered line that is set.
pub fn find_lowest_line(x: u8) -> (r: Option<u8>)
    ensures
        r == lowest_line(x),
{
    let mut n: u8 = 0;
    while n < 8
        invariant
            n <= 8,
            lowest_line_from(x, n as int) == lowest_line(x),
        decreases 8 - n,
    {
        if x & (1u8 << n) != 0 {
            return Some(n);
        }
        n = n + 1;
    }
    None
}

proof fn lemma_lowest_line_from(x: u8, from: int)
    requires
        0 <= from <= 8,
    ensures
        match lowest_line_from(x, from) {
            Some(n) => from <= n < 8 && line_set(x, n as int) && forall|m: int|
                from <= m < n ==> !line_set(x, m),
            None => forall|m: int| from <= m < 8 ==> !line_set(x, m),
        },
    decreases 8 - from,
{
    if from < 8 && !line_set(x, from) {
        lemma_lowest_line_from(x, from + 1);
    }
}

/// `lowest_line` is the minimum of the lines that are set; it is `None` for
/// the empty register only.
pub proof fn lemma_lowest_line_is_minimum(x: u8)
    ensures
        match lowest_line(x) {
            Some(n) => n < 8 && line_set(x, n as int) && forall|m: int|
                0 <= m < n ==> !line_set(x, m),
            None => x == 0,
        },
        x == 0 ==> lowest_line(x) is None,
{
    lemma_lowest_line_from(x, 0);
    lemma_empty_register(x);
    assert(line_set(x, 0) == (x & (1u8 << 0u8) != 0));
    assert(line_set(x, 1) == (x & (1u8 << 1u8) != 0));
    assert(line_set(x, 2) == (x & (1u8 << 2u8) != 0));
    assert(line_set(x, 3) == (x & (1u8 << 3u8) != 0));
    assert(line_set(x, 4) == (x & (1u8 << 4u8) != 0));
    assert(line_set(x, 5) == (x & (1u8 << 5u8) != 0));
    assert(line_set(x, 6) == (x & (1u8 << 6u8) != 0));
    assert(line_set(x, 7) == (x & (1u8 << 7u8) != 0));
}

proof fn lemma_empty_register(x: u8)
    by (bit_vector)
    ensures
        (x & (1u8 << 0u8) == 0 && x & (1u8 << 1u8) == 0 && x & (1u8 << 2u8) == 0 && x & (1u8 << 3u8)
            == 0 && x & (1u8 << 4u8) == 0 && x & (1u8 << 5u8) == 0 && x & (1u8 << 6u8) == 0 && x & (
        1u8 << 7u8) == 0) <==> x == 0,
{
}

/// Setting line `n` changes no other line.
pub proof fn lemma_set_line(x: u8, n: u8, m: u8)
    by (bit_vector)
    requires
        n < 8,
        m < 8,
    ensures
        (x | (1u8 << n)) & (1u8 << m) != 0 <==> x & (1u8 << m) != 0 || m == n,
{
}

/// Clearing line `n` changes no other line.
pub proof fn lemma_clear_line(x: u8, n: u8, m: u8)
    by (bit_vector)
    requires
        n < 8,
        m < 8,
    ensures
        (x & !(1u8 << n)) & (1u8 << m) != 0 <==> x & (1u8 << m) != 0 && m != n,
{
}

/// Clearing a line that had just been set gives back the register.
pub proof fn lemma_clear_undoes_set(x: u8, n: u8)
    by (bit_vector)
    requires
        n < 8,
        x & (1u8 << n) == 0,
    ensures
        (x | (1u8 << n)) & !(1u8 << n) == x,
{
}

/// Line `m` survives the two exclusions if it is in neither of them.
pub proof fn lemma_line_of_candidates(irr: u8, imr: u8, isr: u8, m: u8)
    by (bit_vector)
    requires
        m < 8,
    ensures
        (irr & !imr & !isr) & (1u8 << m) != 0 <==> irr & (1u8 << m) != 0 && imr & (1u8 << m) == 0
            && isr & (1u8 << m) == 0,
{
}

/// The empty register has no line.
pub proof fn lemma_no_line_in_zero(m: u8)
    by (bit_vector)
    requires
        m < 8,
    ensures
        0u8 & (1u8 << m) == 0,
{
}

/// The flag bits of a byte, as quotients.
pub proof fn lemma_flag_bits(f: u8)
    by (bit_vector)
    ensures
        (f & 1 != 0) == (f % 2 == 1),
        (f & 2 != 0) == (f / 2 % 2 == 1),
        (f & 4 != 0) == (f / 4 % 2 == 1),
        (f & 8 != 0) == (f / 8 % 2 == 1),
        (f & 16 != 0) == (f / 16 % 2 == 1),
        (f & 32 != 0) == (f / 32 % 2 == 1),
        (f & 64 != 0) == (f / 64 % 2 == 1),
        (f & 128 != 0) == (f / 128 % 2 == 1),
{
}

} // verus!
