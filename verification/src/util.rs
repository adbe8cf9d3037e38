//! The internet checksum.

use vstd::prelude::*;

verus! {

/// The sum of the big-endian 16-bit words of `data`; an odd byte at the end is
/// the high half of a word.
pub open spec fn word_sum(data: Seq<u8>) -> nat
    decreases data.len(),
{
    if data.len() == 0 {
        0
    } else if data.len() == 1 {
        0x100 * data[0] as nat
    } else {
        0x100 * data[0] as nat + data[1] as nat + word_sum(data.skip(2))
    }
}

/// A sum folded to 16 bits with end-around carry: the representative modulo 65535
/// that is zero only for zero.
pub open spec fn folded(sum: nat) -> nat {
    if sum == 0 {
        0
    } else {
        ((sum - 1) % 0xFFFF + 1) as nat
    }
}

/// The checksum of `data`: the complement of the folded sum.
pub open spec fn checksum(data: Seq<u8>) -> u16 {
    (0xFFFF - folded(word_sum(data))) as u16
}

/// The internet checksum of `data`.
pub fn internet_checksum(data: &[u8]) -> (ck: u16)
    ensures
        ck == checksum(data@),
{
    let n: usize = data.len();
    let mut sum: u32 = 0;
    let mut i: usize = 0;
    let ghost mut done: nat = 0;
    assert(data@.skip(0) == data@);
    while n - i >= 2
        invariant
            i <= n == data@.len(),
            word_sum(data@) == done + word_sum(data@.skip(i as int)),
            sum == folded(done),
            sum <= 0xFFFF,
        decreases n - i,
    {
        let word: u32 = 0x100 * (data[i] as u32) + data[i + 1] as u32;
        assert(data@.skip(i as int).skip(2) == data@.skip(i + 2));
        proof {
            lemma_fold_add(done, word as nat);
            done = done + word as nat;
        }
        sum = add_with_carry(sum, word);
        i = i + 2;
    }
    if i < n {
        let word: u32 = 0x100 * (data[i] as u32);
        proof {
            lemma_fold_add(done, word as nat);
            done = done + word as nat;
        }
        sum = add_with_carry(sum, word);
    }
    (0xFFFF - sum) as u16
}

fn add_with_carry(sum: u32, word: u32) -> (r: u32)
    requires
        sum <= 0xFFFF,
        word <= 0xFFFF,
    ensures
        r == (if sum + word > 0xFFFF {
            sum + word - 0xFFFF
        } else {
            sum + word
        }),
{
    if sum + word > 0xFFFF {
        sum + word - 0xFFFF
    } else {
        sum + word
    }
}

proof fn lemma_fold_add(sum: nat, word: nat)
    requires
        word <= 0xFFFF,
    ensures
        folded(sum) <= 0xFFFF,
        folded(sum + word) == (if folded(sum) + word > 0xFFFF {
            folded(sum) + word - 0xFFFF
        } else {
            (folded(sum) + word) as int
        }),
{
}

/// The header with its checksum stored at `at`.
pub open spec fn with_checksum(data: Seq<u8>, at: int) -> Seq<u8> {
    data.update(at, (checksum(data) / 0x100) as u8).update(at + 1, (checksum(data) % 0x100) as u8)
}

proof fn lemma_sum_with_word(data: Seq<u8>, at: int, hi: u8, lo: u8)
    requires
        0 <= at,
        at + 2 <= data.len(),
        at % 2 == 0,
        data[at] == 0,
        data[at + 1] == 0,
    ensures
        word_sum(data.update(at, hi).update(at + 1, lo)) == word_sum(data) + 0x100 * hi + lo,
    decreases data.len(),
{
    let changed = data.update(at, hi).update(at + 1, lo);
    if at == 0 {
        assert(changed.skip(2) == data.skip(2));
    } else {
        lemma_sum_with_word(data.skip(2), at - 2, hi, lo);
        assert(changed.skip(2) == data.skip(2).update(at - 2, hi).update(at - 1, lo));
    }
}

/// A packet whose checksum field was zero when the checksum was taken sums to
/// zero with the checksum in place.
pub proof fn law_valid_packet_sums_to_zero(data: Seq<u8>, at: int)
    requires
        0 <= at,
        at + 2 <= data.len(),
        at % 2 == 0,
        data[at] == 0,
        data[at + 1] == 0,
    ensures
        checksum(with_checksum(data, at)) == 0,
{
    let ck = checksum(data);
    lemma_fold_add(word_sum(data), 0);
    lemma_sum_with_word(data, at, (ck / 0x100) as u8, (ck % 0x100) as u8);
    lemma_fold_add(word_sum(data), ck as nat);
    assert(word_sum(with_checksum(data, at)) == word_sum(data) + ck);
}

/// The sum takes the bytes in pairs, the first of each pair as the high one; a last byte
/// without a partner counts as a high one.
pub proof fn law_words_are_summed_in_pairs(a: u8, b: u8, rest: Seq<u8>)
    ensures
        word_sum(Seq::empty()) == 0,
        word_sum(seq![a]) == 256 * a,
        word_sum(seq![a, b] + rest) == 256 * a + b + word_sum(rest),
{
    assert((seq![a, b] + rest).skip(2) =~= rest);
}

/// The checksum makes up what the sum lacks of a multiple of 65535, which is what adding
/// with end-around carry counts by; it is all ones exactly if every word is zero.
pub proof fn law_checksum_completes_the_sum(data: Seq<u8>)
    ensures
        (word_sum(data) + checksum(data)) % 0xFFFF == 0,
        checksum(data) == 0xFFFF <==> word_sum(data) == 0,
{
    let sum = word_sum(data);
    if sum > 0 {
        let q = (sum - 1) / 0xFFFF;
        assert(sum + checksum(data) == 0xFFFF * (q + 1));
    }
}

} // verus!
