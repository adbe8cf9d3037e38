//! Typing text on a US-QWERTY keyboard: characters to scan-code bytes (set 1).
//!
//! A key press is its make code, the release is the make code with bit 7 set.
//! Shifted characters come between the press and the release of the left shift
//! key. Characters without a key are skipped.

use vstd::prelude::*;

verus! {

/// Press of the left shift key.
pub const SHIFT_MAKE: u8 = 0x2A;

/// Release of the left shift key.
pub const SHIFT_BREAK: u8 = 0xAA;

/// The code of `c` in a row of keys whose codes count up from `first`.
pub open spec fn row_code(row: Seq<char>, first: int, c: char) -> Option<u8>
    decreases row.len(),
{
    if row.len() == 0 {
        None
    } else if row[0] == c {
        Some(first as u8)
    } else {
        row_code(row.drop_first(), first + 1, c)
    }
}

/// The first of two codes that is there.
pub open spec fn either(a: Option<u8>, b: Option<u8>) -> Option<u8> {
    if a is Some {
        a
    } else {
        b
    }
}

pub open spec fn digit_row() -> Seq<char> {
    seq!['1', '2', '3', '4', '5', '6', '7', '8', '9', '0', '-', '=']
}

pub open spec fn top_row() -> Seq<char> {
    seq!['\t', 'q', 'w', 'e', 'r', 't', 'y', 'u', 'i', 'o', 'p', '[', ']', '\n']
}

pub open spec fn home_row() -> Seq<char> {
    seq!['a', 's', 'd', 'f', 'g', 'h', 'j', 'k', 'l', ';', '\'', '`']
}

pub open spec fn bottom_row() -> Seq<char> {
    seq!['\\', 'z', 'x', 'c', 'v', 'b', 'n', 'm', ',', '.', '/']
}

pub open spec fn shifted_digit_row() -> Seq<char> {
    seq!['!', '@', '#', '$', '%', '^', '&', '*', '(', ')', '_', '+']
}

pub open spec fn shifted_top_row() -> Seq<char> {
    seq!['Q', 'W', 'E', 'R', 'T', 'Y', 'U', 'I', 'O', 'P', '{', '}']
}

pub open spec fn shifted_home_row() -> Seq<char> {
    seq!['A', 'S', 'D', 'F', 'G', 'H', 'J', 'K', 'L', ':', '"', '~']
}

pub open spec fn shifted_bottom_row() -> Seq<char> {
    seq!['|', 'Z', 'X', 'C', 'V', 'B', 'N', 'M', '<', '>', '?']
}

/// The make code of a character that needs no shift.
pub open spec fn unshifted_code(c: char) -> Option<u8> {
    either(
        either(row_code(digit_row(), 0x02, c), row_code(top_row(), 0x0F, c)),
        either(
            either(row_code(home_row(), 0x1E, c), row_code(bottom_row(), 0x2B, c)),
            row_code(seq![' '], 0x39, c),
        ),
    )
}

/// The make code of a character that needs shift.
pub open spec fn shifted_code(c: char) -> Option<u8> {
    either(
        either(row_code(shifted_digit_row(), 0x02, c), row_code(shifted_top_row(), 0x10, c)),
        either(row_code(shifted_home_row(), 0x1E, c), row_code(shifted_bottom_row(), 0x2B, c)),
    )
}

/// The make code of a character and whether shift is held for it.
pub open spec fn key_of(c: char) -> Option<(u8, bool)> {
    match unshifted_code(c) {
        Some(code) => Some((code, false)),
        None => match shifted_code(c) {
            Some(code) => Some((code, true)),
            None => None,
        },
    }
}

/// The bytes of typing one character.
pub open spec fn typed_char(c: char) -> Seq<u8> {
    match key_of(c) {
        None => Seq::empty(),
        Some((make, false)) => seq![make, (make + 0x80) as u8],
        Some((make, true)) => seq![SHIFT_MAKE, make, (make + 0x80) as u8, SHIFT_BREAK],
    }
}

/// The bytes of typing a text.
pub open spec fn typed(text: Seq<char>) -> Seq<u8>
    decreases text.len(),
{
    if text.len() == 0 {
        Seq::empty()
    } else {
        typed(text.drop_last()) + typed_char(text.last())
    }
}

fn find_in_row(row: &[char], first: u8, c: char) -> (code: Option<u8>)
    requires
        first + row@.len() <= 0x80,
    ensures
        code == row_code(row@, first as int, c),
        code is Some ==> code->0 < 0x80,
{
    let mut i: usize = 0;
    assert(row@.skip(0) == row@);
    while i < row.len()
        invariant
            i <= row@.len(),
            first + row@.len() <= 0x80,
            row_code(row@.skip(i as int), first + i, c) == row_code(row@, first as int, c),
        decreases row@.len() - i,
    {
        assert(row@.skip(i as int).drop_first() == row@.skip(i + 1));
        if row[i] == c {
            return Some(first + i as u8);
        }
        i = i + 1;
    }
    None
}

fn find_unshifted(c: char) -> (code: Option<u8>)
    ensures
        code == unshifted_code(c),
        code is Some ==> code->0 < 0x80,
{
    let digits: [char; 12] = ['1', '2', '3', '4', '5', '6', '7', '8', '9', '0', '-', '='];
    assert(digits@ == digit_row());
    let code: Option<u8> = find_in_row(&digits, 0x02, c);
    if code.is_some() {
        return code;
    }
    let top: [char; 14] = [
        '\t',
        'q',
        'w',
        'e',
        'r',
        't',
        'y',
        'u',
        'i',
        'o',
        'p',
        '[',
        ']',
        '\n',
    ];
    assert(top@ == top_row());
    let code: Option<u8> = find_in_row(&top, 0x0F, c);
    if code.is_some() {
        return code;
    }
    let home: [char; 12] = ['a', 's', 'd', 'f', 'g', 'h', 'j', 'k', 'l', ';', '\'', '`'];
    assert(home@ == home_row());
    let code: Option<u8> = find_in_row(&home, 0x1E, c);
    if code.is_some() {
        return code;
    }
    let bottom: [char; 11] = ['\\', 'z', 'x', 'c', 'v', 'b', 'n', 'm', ',', '.', '/'];
    assert(bottom@ == bottom_row());
    let code: Option<u8> = find_in_row(&bottom, 0x2B, c);
    if code.is_some() {
        return code;
    }
    let space: [char; 1] = [' '];
    assert(space@ == seq![' ']);
    find_in_row(&space, 0x39, c)
}

fn find_shifted(c: char) -> (code: Option<u8>)
    ensures
        code == shifted_code(c),
        code is Some ==> code->0 < 0x80,
{
    let digits: [char; 12] = ['!', '@', '#', '$', '%', '^', '&', '*', '(', ')', '_', '+'];
    assert(digits@ == shifted_digit_row());
    let code: Option<u8> = find_in_row(&digits, 0x02, c);
    if code.is_some() {
        return code;
    }
    let top: [char; 12] = ['Q', 'W', 'E', 'R', 'T', 'Y', 'U', 'I', 'O', 'P', '{', '}'];
    assert(top@ == shifted_top_row());
    let code: Option<u8> = find_in_row(&top, 0x10, c);
    if code.is_some() {
        return code;
    }
    let home: [char; 12] = ['A', 'S', 'D', 'F', 'G', 'H', 'J', 'K', 'L', ':', '"', '~'];
    assert(home@ == shifted_home_row());
    let code: Option<u8> = find_in_row(&home, 0x1E, c);
    if code.is_some() {
        return code;
    }
    let bottom: [char; 11] = ['|', 'Z', 'X', 'C', 'V', 'B', 'N', 'M', '<', '>', '?'];
    assert(bottom@ == shifted_bottom_row());
    find_in_row(&bottom, 0x2B, c)
}

/// The make code of a character and whether shift is held for it, if there is a
/// key for it.
pub fn key_for(c: char) -> (key: Option<(u8, bool)>)
    ensures
        key == key_of(c),
        key matches Some(k) ==> k.0 < 0x80,
{
    match find_unshifted(c) {
        Some(code) => Some((code, false)),
        None => match find_shifted(c) {
            Some(code) => Some((code, true)),
            None => None,
        },
    }
}

/// Appends the bytes of typing `c` to `out`.
pub fn push_char_scancodes(out: &mut Vec<u8>, c: char)
    ensures
        final(out)@ == old(out)@ + typed_char(c),
{
    if let Some(key) = key_for(c) {
        let make: u8 = key.0;
        if key.1 {
            out.push(SHIFT_MAKE);
        }
        out.push(make);
        out.push(make + 0x80);
        if key.1 {
            out.push(SHIFT_BREAK);
        }
    }
    assert(out@ == old(out)@ + typed_char(c));
}

/// The bytes of typing `s`.
pub fn string_to_scancodes(s: &str) -> (out: Vec<u8>)
    ensures
        out@ == typed(s@),
{
    let mut out: Vec<u8> = Vec::new();
    for c in it: s.chars()
        invariant
            it.seq() == s@,
            out@ == typed(s@.take(it.index() as int)),
    {
        let ghost i = it.index() as int;
        push_char_scancodes(&mut out, c);
        assert(s@.take(i + 1).drop_last() == s@.take(i));
        assert(s@.take(i + 1).last() == c);
    }
    assert(s@.take(s@.len() as int) == s@);
    out
}

/// Typing one text after another is typing them joined.
pub proof fn law_typing_concatenates(a: Seq<char>, b: Seq<char>)
    ensures
        typed(a + b) == typed(a) + typed(b),
    decreases b.len(),
{
    if b.len() == 0 {
        assert(a + b == a);
        assert(typed(a) + typed(b) == typed(a));
    } else {
        law_typing_concatenates(a, b.drop_last());
        assert((a + b).drop_last() == a + b.drop_last());
        assert(typed(a + b) == typed(a) + typed(b));
    }
}

/// Every key that is pressed is released again before the next character, and a
/// character that has no key contributes nothing.
pub proof fn law_every_press_is_released(c: char)
    ensures
        match key_of(c) {
            None => typed_char(c).len() == 0,
            Some((make, false)) => typed_char(c) == seq![make, (make + 0x80) as u8],
            Some((make, true)) => typed_char(c).first() == SHIFT_MAKE && typed_char(c).last()
                == SHIFT_BREAK && typed_char(c).subrange(1, 3) == seq![make, (make + 0x80) as u8],
        },
{
    if let Some((make, true)) = key_of(c) {
        assert(typed_char(c).subrange(1, 3) == seq![make, (make + 0x80) as u8]);
    }
}

proof fn lemma_in_row(row: Seq<char>, first: int, c: char, i: int)
    requires
        0 <= i < row.len(),
        row[i] == c,
        forall|j: int| 0 <= j < i ==> row[j] != c,
    ensures
        row_code(row, first, c) == Some((first + i) as u8),
    decreases row.len(),
{
    if i > 0 {
        let rest = row.drop_first();
        assert(row[0] != c);
        assert forall|j: int| 0 <= j < i - 1 implies rest[j] != c by {
            assert(row[j + 1] != c);
        }
        lemma_in_row(rest, first + 1, c, i - 1);
    }
}

proof fn lemma_not_in_row(row: Seq<char>, first: int, c: char)
    requires
        forall|j: int| 0 <= j < row.len() ==> row[j] != c,
    ensures
        row_code(row, first, c) is None,
    decreases row.len(),
{
    if row.len() > 0 {
        let rest = row.drop_first();
        assert(row[0] != c);
        assert forall|j: int| 0 <= j < rest.len() implies rest[j] != c by {
            assert(row[j + 1] != c);
        }
        lemma_not_in_row(rest, first + 1, c);
    }
}

/// The keys that need no shift, row by row: each row's make codes count up from its first
/// key, which is `1` at 0x02, tab at 0x0F, `a` at 0x1E and the backslash at 0x2B; the
/// space bar is 0x39.
pub proof fn law_keys_without_shift(i: int)
    ensures
        ({
            let digits = seq!['1', '2', '3', '4', '5', '6', '7', '8', '9', '0', '-', '='];
            let top = seq![
                '\t', 'q', 'w', 'e', 'r', 't', 'y', 'u', 'i', 'o', 'p', '[', ']', '\n',
            ];
            let home = seq!['a', 's', 'd', 'f', 'g', 'h', 'j', 'k', 'l', ';', '\'', '`'];
            let bottom = seq!['\\', 'z', 'x', 'c', 'v', 'b', 'n', 'm', ',', '.', '/'];
            &&& 0 <= i < 12 ==> key_of(digits[i]) == Some(((0x02 + i) as u8, false))
            &&& 0 <= i < 14 ==> key_of(top[i]) == Some(((0x0F + i) as u8, false))
            &&& 0 <= i < 12 ==> key_of(home[i]) == Some(((0x1E + i) as u8, false))
            &&& 0 <= i < 11 ==> key_of(bottom[i]) == Some(((0x2B + i) as u8, false))
            &&& key_of(' ') == Some((0x39u8, false))
        }),
{
    if 0 <= i < 12 {
        lemma_in_row(digit_row(), 0x02, digit_row()[i], i);
        let c = home_row()[i];
        lemma_not_in_row(digit_row(), 0x02, c);
        lemma_not_in_row(top_row(), 0x0F, c);
        lemma_in_row(home_row(), 0x1E, c, i);
    }
    if 0 <= i < 14 {
        let c = top_row()[i];
        lemma_not_in_row(digit_row(), 0x02, c);
        lemma_in_row(top_row(), 0x0F, c, i);
    }
    if 0 <= i < 11 {
        let c = bottom_row()[i];
        lemma_not_in_row(digit_row(), 0x02, c);
        lemma_not_in_row(top_row(), 0x0F, c);
        lemma_not_in_row(home_row(), 0x1E, c);
        lemma_in_row(bottom_row(), 0x2B, c, i);
    }
    lemma_not_in_row(digit_row(), 0x02, ' ');
    lemma_not_in_row(top_row(), 0x0F, ' ');
    lemma_not_in_row(home_row(), 0x1E, ' ');
    lemma_not_in_row(bottom_row(), 0x2B, ' ');
    lemma_in_row(seq![' '], 0x39, ' ', 0);
}

proof fn lemma_needs_shift(c: char)
    requires
        forall|j: int| 0 <= j < digit_row().len() ==> digit_row()[j] != c,
        forall|j: int| 0 <= j < top_row().len() ==> top_row()[j] != c,
        forall|j: int| 0 <= j < home_row().len() ==> home_row()[j] != c,
        forall|j: int| 0 <= j < bottom_row().len() ==> bottom_row()[j] != c,
        c != ' ',
    ensures
        unshifted_code(c) is None,
{
    lemma_not_in_row(digit_row(), 0x02, c);
    lemma_not_in_row(top_row(), 0x0F, c);
    lemma_not_in_row(home_row(), 0x1E, c);
    lemma_not_in_row(bottom_row(), 0x2B, c);
    lemma_not_in_row(seq![' '], 0x39, c);
}

/// The characters that need shift, row by row, on the keys of the same rows.
pub proof fn law_keys_with_shift(i: int)
    ensures
        ({
            let digits = seq!['!', '@', '#', '$', '%', '^', '&', '*', '(', ')', '_', '+'];
            let top = seq!['Q', 'W', 'E', 'R', 'T', 'Y', 'U', 'I', 'O', 'P', '{', '}'];
            let home = seq!['A', 'S', 'D', 'F', 'G', 'H', 'J', 'K', 'L', ':', '"', '~'];
            let bottom = seq!['|', 'Z', 'X', 'C', 'V', 'B', 'N', 'M', '<', '>', '?'];
            &&& 0 <= i < 12 ==> key_of(digits[i]) == Some(((0x02 + i) as u8, true))
            &&& 0 <= i < 12 ==> key_of(top[i]) == Some(((0x10 + i) as u8, true))
            &&& 0 <= i < 12 ==> key_of(home[i]) == Some(((0x1E + i) as u8, true))
            &&& 0 <= i < 11 ==> key_of(bottom[i]) == Some(((0x2B + i) as u8, true))
        }),
{
    if 0 <= i < 12 {
        lemma_needs_shift(shifted_digit_row()[i]);
        lemma_in_row(shifted_digit_row(), 0x02, shifted_digit_row()[i], i);
        let c = shifted_top_row()[i];
        lemma_needs_shift(c);
        lemma_not_in_row(shifted_digit_row(), 0x02, c);
        lemma_in_row(shifted_top_row(), 0x10, c, i);
        let d = shifted_home_row()[i];
        lemma_needs_shift(d);
        lemma_not_in_row(shifted_digit_row(), 0x02, d);
        lemma_not_in_row(shifted_top_row(), 0x10, d);
        lemma_in_row(shifted_home_row(), 0x1E, d, i);
    }
    if 0 <= i < 11 {
        let c = shifted_bottom_row()[i];
        lemma_needs_shift(c);
        lemma_not_in_row(shifted_digit_row(), 0x02, c);
        lemma_not_in_row(shifted_top_row(), 0x10, c);
        lemma_not_in_row(shifted_home_row(), 0x1E, c);
        lemma_in_row(shifted_bottom_row(), 0x2B, c, i);
    }
}

/// No other character has a key: not a control character but tab and line feed, and
/// nothing behind the tilde. What is typed for a key with shift is its press and release
/// between those of the left shift key, 0x2A and 0xAA; a release is the press plus 0x80.
pub proof fn law_other_characters_have_no_key(c: char)
    ensures
        (c as u32) < 32 && c != '\t' && c != '\n' || (c as u32) > 126 ==> key_of(c) is None
            && typed_char(c).len() == 0,
        key_of(c) matches Some((make, false)) ==> typed_char(c) == seq![make, (make + 128) as u8],
        key_of(c) matches Some((make, true)) ==> typed_char(c) == seq![
            0x2Au8,
            make,
            (make + 128) as u8,
            0xAA,
        ],
{
    if (c as u32) < 32 && c != '\t' && c != '\n' || (c as u32) > 126 {
        lemma_needs_shift(c);
        lemma_not_in_row(shifted_digit_row(), 0x02, c);
        lemma_not_in_row(shifted_top_row(), 0x10, c);
        lemma_not_in_row(shifted_home_row(), 0x1E, c);
        lemma_not_in_row(shifted_bottom_row(), 0x2B, c);
    }
}

} // verus!
