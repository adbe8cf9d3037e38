//! Text as sequences of characters: the pieces of string handling that the
//! policies and protocols are built from.

use vstd::prelude::*;
use vstd::utf8::{decode_utf8, valid_utf8};

verus! {

/// `String::push` appends one character.
pub assume_specification[ String::push ](s: &mut String, c: char)
    ensures
        final(s)@ == old(s)@.push(c),
;

/// `std::str::from_utf8` accepts exactly the well-formed byte strings and yields
/// the characters that they encode.
#[verifier::external_body]
pub(crate) fn text_from_utf8(bytes: &[u8]) -> (r: Option<String>)
    ensures
        match r {
            Some(s) => valid_utf8(bytes@) && s@ == decode_utf8(bytes@),
            None => !valid_utf8(bytes@),
        },
{
    match std::str::from_utf8(bytes) {
        Ok(s) => Some(s.to_owned()),
        Err(_) => None,
    }
}

/// The text that `String::from_utf8_lossy` makes of some bytes.
pub uninterp spec fn lossy_text(bytes: Seq<u8>) -> Seq<char>;

/// `String::from_utf8_lossy` makes a text of any bytes; of well-formed ones, the
/// characters that they encode. What stands for ill-formed bytes is not stated, only
/// that the same bytes always give the same text.
#[verifier::external_body]
pub(crate) fn text_from_utf8_lossy(bytes: &[u8]) -> (s: String)
    ensures
        s@ == lossy_text(bytes@),
        valid_utf8(bytes@) ==> s@ == decode_utf8(bytes@),
{
    String::from_utf8_lossy(bytes).into_owned()
}

/// The characters of `s`.
pub fn chars_of(s: &str) -> (v: Vec<char>)
    ensures
        v@ == s@,
{
    let mut v: Vec<char> = Vec::new();
    for c in it: s.chars()
        invariant
            it.seq() == s@,
            v@ == s@.take(it.index() as int),
    {
        let ghost i = it.index() as int;
        v.push(c);
        assert(s@.take(i + 1) == s@.take(i).push(c));
    }
    assert(s@.take(s@.len() as int) == s@);
    v
}

/// The text with these characters.
pub fn text_of(chars: &[char]) -> (s: String)
    ensures
        s@ == chars@,
{
    let mut s: String = String::new();
    let mut i: usize = 0;
    while i < chars.len()
        invariant
            i <= chars@.len(),
            s@ == chars@.take(i as int),
        decreases chars@.len() - i,
    {
        s.push(chars[i]);
        i = i + 1;
        assert(chars@.take(i as int) == chars@.take(i - 1).push(chars@[i - 1]));
    }
    assert(chars@.take(chars@.len() as int) == chars@);
    s
}

/// The ASCII lower-case form of a character; other characters stay.
pub open spec fn lower_char(c: char) -> char {
    if 'A' <= c <= 'Z' {
        (c as u32 + 32) as char
    } else {
        c
    }
}

/// The ASCII lower-case form of a text.
pub open spec fn lower(s: Seq<char>) -> Seq<char> {
    Seq::new(s.len(), |i: int| lower_char(s[i]))
}

fn to_lower_char(c: char) -> (r: char)
    ensures
        r == lower_char(c),
{
    if 'A' <= c && c <= 'Z' {
        (c as u8 + 32) as char
    } else {
        c
    }
}

/// The ASCII lower-case form of `chars`.
pub fn lowered(chars: &[char]) -> (r: Vec<char>)
    ensures
        r@ == lower(chars@),
{
    let mut r: Vec<char> = Vec::new();
    let mut i: usize = 0;
    while i < chars.len()
        invariant
            i <= chars@.len(),
            r@ == lower(chars@.take(i as int)),
        decreases chars@.len() - i,
    {
        r.push(to_lower_char(chars[i]));
        i = i + 1;
        assert(r@ == lower(chars@.take(i as int)));
    }
    assert(chars@.take(chars@.len() as int) == chars@);
    r
}

/// Whether two texts are the same but for ASCII case.
pub fn same_ignoring_case(a: &[char], b: &[char]) -> (same: bool)
    ensures
        same == (lower(a@) == lower(b@)),
{
    if a.len() != b.len() {
        assert(lower(a@).len() != lower(b@).len());
        return false;
    }
    let mut i: usize = 0;
    while i < a.len()
        invariant
            i <= a@.len() == b@.len(),
            forall|j: int| 0 <= j < i ==> lower(a@)[j] == lower(b@)[j],
        decreases a@.len() - i,
    {
        if to_lower_char(a[i]) != to_lower_char(b[i]) {
            assert(lower(a@)[i as int] != lower(b@)[i as int]);
            return false;
        }
        i = i + 1;
    }
    assert(lower(a@) == lower(b@));
    true
}

/// Whether two texts are the same.
pub fn same_chars(a: &[char], b: &[char]) -> (same: bool)
    ensures
        same == (a@ == b@),
{
    if a.len() != b.len() {
        return false;
    }
    let mut i: usize = 0;
    while i < a.len()
        invariant
            i <= a@.len() == b@.len(),
            forall|j: int| 0 <= j < i ==> a@[j] == b@[j],
        decreases a@.len() - i,
    {
        if a[i] != b[i] {
            return false;
        }
        i = i + 1;
    }
    assert(a@ == b@);
    true
}

/// Copies `chars[from..to]`.
pub fn char_range(chars: &[char], from: usize, to: usize) -> (r: Vec<char>)
    requires
        from <= to <= chars@.len(),
    ensures
        r@ == chars@.subrange(from as int, to as int),
{
    let mut r: Vec<char> = Vec::new();
    let mut i: usize = from;
    while i < to
        invariant
            from <= i <= to <= chars@.len(),
            r@ == chars@.subrange(from as int, i as int),
        decreases to - i,
    {
        r.push(chars[i]);
        i = i + 1;
        assert(chars@.subrange(from as int, i as int) == chars@.subrange(from as int, i - 1).push(
            chars@[i - 1],
        ));
    }
    r
}

/// Whether a character is white space in the sense of Unicode.
pub open spec fn is_space(c: char) -> bool {
    let u = c as u32;
    0x09 <= u <= 0x0D || u == 0x20 || u == 0x85 || u == 0xA0 || u == 0x1680 || 0x2000 <= u <= 0x200A
        || u == 0x2028 || u == 0x2029 || u == 0x202F || u == 0x205F || u == 0x3000
}

fn char_is_space(c: char) -> (b: bool)
    ensures
        b == is_space(c),
{
    let u: u32 = c as u32;
    (0x09 <= u && u <= 0x0D) || u == 0x20 || u == 0x85 || u == 0xA0 || u == 0x1680 || (0x2000 <= u
        && u <= 0x200A) || u == 0x2028 || u == 0x2029 || u == 0x202F || u == 0x205F || u == 0x3000
}

/// `s` without white space at its start.
pub open spec fn trim_start(s: Seq<char>) -> Seq<char>
    decreases s.len(),
{
    if s.len() > 0 && is_space(s[0]) {
        trim_start(s.drop_first())
    } else {
        s
    }
}

/// `s` without white space at its end.
pub open spec fn trim_end(s: Seq<char>) -> Seq<char>
    decreases s.len(),
{
    if s.len() > 0 && is_space(s.last()) {
        trim_end(s.drop_last())
    } else {
        s
    }
}

/// `s` without white space at either end.
pub open spec fn trim(s: Seq<char>) -> Seq<char> {
    trim_end(trim_start(s))
}

/// `chars` without white space at either end.
pub fn trimmed(chars: &[char]) -> (r: Vec<char>)
    ensures
        r@ == trim(chars@),
{
    let n: usize = chars.len();
    let mut a: usize = 0;
    assert(chars@.skip(0) == chars@);
    while a < n && char_is_space(chars[a])
        invariant
            a <= n == chars@.len(),
            trim_start(chars@.skip(a as int)) == trim_start(chars@),
        decreases n - a,
    {
        assert(chars@.skip(a as int).drop_first() == chars@.skip(a + 1));
        a = a + 1;
    }
    assert(trim_start(chars@) == chars@.skip(a as int));
    let mut b: usize = n;
    assert(chars@.subrange(a as int, b as int) == chars@.skip(a as int));
    while b > a && char_is_space(chars[b - 1])
        invariant
            a <= b <= n == chars@.len(),
            trim_end(chars@.subrange(a as int, b as int)) == trim(chars@),
        decreases b,
    {
        assert(chars@.subrange(a as int, b as int).drop_last() == chars@.subrange(
            a as int,
            b - 1,
        ));
        b = b - 1;
    }
    char_range(chars, a, b)
}

/// The pieces of `s` between separators; there is one more piece than there are
/// separators.
pub open spec fn split(s: Seq<char>, sep: char) -> Seq<Seq<char>>
    decreases s.len(),
{
    if s.len() == 0 {
        seq![Seq::empty()]
    } else {
        let before = split(s.drop_last(), sep);
        if s.last() == sep {
            before.push(Seq::empty())
        } else {
            before.drop_last().push(before.last().push(s.last()))
        }
    }
}

/// The views of a list of texts.
pub open spec fn views(v: Seq<Vec<char>>) -> Seq<Seq<char>> {
    Seq::new(v.len(), |i: int| v[i]@)
}

/// Splits `chars` at every separator.
pub fn split_at(chars: &[char], sep: char) -> (pieces: Vec<Vec<char>>)
    ensures
        views(pieces@) == split(chars@, sep),
        pieces@.len() >= 1,
{
    let mut done: Vec<Vec<char>> = Vec::new();
    let mut piece: Vec<char> = Vec::new();
    let mut i: usize = 0;
    assert(chars@.take(0).len() == 0);
    assert(views(done@).push(piece@) == split(chars@.take(0), sep));
    while i < chars.len()
        invariant
            i <= chars@.len(),
            views(done@).push(piece@) == split(chars@.take(i as int), sep),
        decreases chars@.len() - i,
    {
        let c: char = chars[i];
        let ghost was_done = views(done@);
        let ghost was_piece = piece@;
        assert(chars@.take(i + 1).drop_last() == chars@.take(i as int));
        assert(was_done.push(was_piece).drop_last() == was_done);
        if c == sep {
            done.push(piece);
            piece = Vec::new();
            assert(views(done@) == was_done.push(was_piece));
            assert(piece@ == Seq::<char>::empty());
        } else {
            piece.push(c);
        }
        i = i + 1;
    }
    assert(chars@.take(chars@.len() as int) == chars@);
    let ghost was_done = views(done@);
    let ghost was_piece = piece@;
    done.push(piece);
    assert(views(done@) == was_done.push(was_piece));
    done
}

/// Where `c` occurs last in `s`, if it does.
pub open spec fn last_index(s: Seq<char>, c: char) -> Option<int>
    decreases s.len(),
{
    if s.len() == 0 {
        None
    } else if s.last() == c {
        Some(s.len() - 1)
    } else {
        last_index(s.drop_last(), c)
    }
}

/// Finds where `c` occurs last in `chars`.
pub fn find_last(chars: &[char], c: char) -> (r: Option<usize>)
    ensures
        match r {
            Some(i) => last_index(chars@, c) == Some(i as int) && i < chars@.len(),
            None => last_index(chars@, c) is None,
        },
{
    let mut n: usize = chars.len();
    assert(chars@.take(n as int) == chars@);
    while n > 0
        invariant
            n <= chars@.len(),
            last_index(chars@.take(n as int), c) == last_index(chars@, c),
        decreases n,
    {
        assert(chars@.take(n as int).drop_last() == chars@.take(n - 1));
        if chars[n - 1] == c {
            return Some(n - 1);
        }
        n = n - 1;
    }
    None
}

pub open spec fn is_digit(c: char) -> bool {
    '0' <= c <= '9'
}

/// The number that a string of decimal digits stands for, if it is one.
pub open spec fn decimal(s: Seq<char>) -> Option<nat>
    decreases s.len(),
{
    if s.len() == 0 || !is_digit(s.last()) {
        None
    } else if s.len() == 1 {
        Some((s.last() as u32 - '0' as u32) as nat)
    } else {
        match decimal(s.drop_last()) {
            Some(n) => Some((10 * n + (s.last() as u32 - '0' as u32)) as nat),
            None => None,
        }
    }
}

/// An unsigned number of at most `max`: decimal digits with an optional plus sign
/// in front.
pub open spec fn unsigned(s: Seq<char>, max: nat) -> Option<nat> {
    let digits = if s.len() > 0 && s[0] == '+' {
        s.drop_first()
    } else {
        s
    };
    match decimal(digits) {
        Some(n) => if n <= max {
            Some(n)
        } else {
            None
        },
        None => None,
    }
}

proof fn lemma_decimal_grows(s: Seq<char>, k: int)
    requires
        0 < k <= s.len(),
        decimal(s) is Some,
    ensures
        decimal(s.take(k)) is Some,
        decimal(s.take(k))->0 <= decimal(s)->0,
    decreases s.len(),
{
    if k == s.len() {
        assert(s.take(k) == s);
    } else {
        lemma_decimal_grows(s.drop_last(), k);
        assert(s.drop_last().take(k) == s.take(k));
    }
}

/// Reads an unsigned number of at most `max`.
pub fn parse_unsigned(chars: &[char], max: u64) -> (r: Option<u64>)
    ensures
        match r {
            Some(n) => unsigned(chars@, max as nat) == Some(n as nat),
            None => unsigned(chars@, max as nat) is None,
        },
{
    let from: usize = if chars.len() > 0 && chars[0] == '+' {
        1
    } else {
        0
    };
    let ghost digits = chars@.skip(from as int);
    assert(from == 0 ==> digits == chars@);
    assert(from == 1 ==> digits == chars@.drop_first());
    if chars.len() == from {
        return None;
    }
    let mut n: u64 = 0;
    let mut i: usize = from;
    while i < chars.len()
        invariant
            from <= i <= chars@.len(),
            from <= 1,
            digits == chars@.skip(from as int),
            digits.len() > 0,
            n <= max,
            i > from ==> decimal(digits.take(i - from)) == Some(n as nat),
            i == from ==> n == 0,
            unsigned(chars@, max as nat) == (match decimal(digits) {
                Some(n) => if n <= max {
                    Some(n)
                } else {
                    None
                },
                None => None,
            }),
        decreases chars@.len() - i,
    {
        let c: char = chars[i];
        let ghost k = i - from;
        assert(digits.take(k + 1).drop_last() == digits.take(k));
        assert(digits.take(k + 1).last() == c);
        if c < '0' || c > '9' {
            proof {
                if decimal(digits) is Some {
                    lemma_decimal_grows(digits, k + 1);
                }
            }
            return None;
        }
        let d: u64 = (c as u32 - '0' as u32) as u64;
        assert(decimal(digits.take(k + 1)) == Some((10 * n + d) as nat));
        if d > max || n > (max - d) / 10 {
            assert(10 * n + d > max);
            proof {
                if decimal(digits) is Some {
                    lemma_decimal_grows(digits, k + 1);
                }
            }
            return None;
        }
        n = 10 * n + d;
        i = i + 1;
    }
    assert(digits.take(digits.len() as int) == digits);
    Some(n)
}

/// The decimal digits of `n`.
pub open spec fn to_decimal(n: nat) -> Seq<char>
    decreases n,
{
    let digit = (('0' as u32) + n % 10) as char;
    if n < 10 {
        seq![digit]
    } else {
        to_decimal(n / 10).push(digit)
    }
}

/// The decimal digits of `n`.
pub fn decimal_digits(n: u64) -> (r: Vec<char>)
    ensures
        r@ == to_decimal(n as nat),
    decreases n,
{
    let digit: char = ('0' as u8 + (n % 10) as u8) as char;
    if n < 10 {
        let mut r: Vec<char> = Vec::new();
        r.push(digit);
        assert(r@ == to_decimal(n as nat));
        r
    } else {
        let mut r: Vec<char> = decimal_digits(n / 10);
        r.push(digit);
        r
    }
}

/// A number is read back from its digits.
pub proof fn law_decimal_reads_back(n: nat)
    ensures
        decimal(to_decimal(n)) == Some(n),
    decreases n,
{
    let s = to_decimal(n);
    let digit = (('0' as u32) + n % 10) as char;
    assert(is_digit(digit) && digit as u32 - '0' as u32 == n % 10);
    if n >= 10 {
        law_decimal_reads_back(n / 10);
        assert(s.drop_last() == to_decimal(n / 10));
        lemma_decimal_nonempty(n / 10);
    }
}

proof fn lemma_decimal_nonempty(n: nat)
    ensures
        to_decimal(n).len() >= 1,
    decreases n,
{
    if n >= 10 {
        lemma_decimal_nonempty(n / 10);
    }
}

/// Appends the characters of `more`.
pub fn push_chars(out: &mut Vec<char>, more: &[char])
    ensures
        final(out)@ == old(out)@ + more@,
{
    let mut i: usize = 0;
    while i < more.len()
        invariant
            i <= more@.len(),
            out@ == old(out)@ + more@.take(i as int),
        decreases more@.len() - i,
    {
        out.push(more[i]);
        i = i + 1;
        assert(more@.take(i as int) == more@.take(i - 1).push(more@[i - 1]));
    }
    assert(more@.take(more@.len() as int) == more@);
}

/// Appends the characters of `more`.
pub fn push_text(out: &mut Vec<char>, more: &str)
    ensures
        final(out)@ == old(out)@ + more@,
{
    let chars: Vec<char> = chars_of(more);
    push_chars(out, chars.as_slice());
}

/// How many characters there are before the first white space.
pub open spec fn word_len(s: Seq<char>) -> nat
    decreases s.len(),
{
    if s.len() == 0 || is_space(s[0]) {
        0
    } else {
        1 + word_len(s.drop_first())
    }
}

/// The second of the words that white space parts `s` into.
pub open spec fn second_word(s: Seq<char>) -> Option<Seq<char>> {
    let first = trim_start(s);
    let second = trim_start(first.skip(word_len(first) as int));
    if second.len() == 0 {
        None
    } else {
        Some(second.take(word_len(second) as int))
    }
}

fn skip_spaces(chars: &[char], from: usize) -> (at: usize)
    requires
        from <= chars@.len(),
    ensures
        from <= at <= chars@.len(),
        chars@.skip(at as int) == trim_start(chars@.skip(from as int)),
{
    let n: usize = chars.len();
    let mut at: usize = from;
    while at < n && char_is_space(chars[at])
        invariant
            from <= at <= n == chars@.len(),
            trim_start(chars@.skip(at as int)) == trim_start(chars@.skip(from as int)),
        decreases n - at,
    {
        assert(chars@.skip(at as int).drop_first() == chars@.skip(at + 1));
        at = at + 1;
    }
    at
}

fn skip_word(chars: &[char], from: usize) -> (at: usize)
    requires
        from <= chars@.len(),
    ensures
        at == from + word_len(chars@.skip(from as int)),
        at <= chars@.len(),
{
    let n: usize = chars.len();
    let mut at: usize = from;
    while at < n && !char_is_space(chars[at])
        invariant
            from <= at <= n == chars@.len(),
            at + word_len(chars@.skip(at as int)) == from + word_len(chars@.skip(from as int)),
        decreases n - at,
    {
        assert(chars@.skip(at as int).drop_first() == chars@.skip(at + 1));
        at = at + 1;
    }
    at
}

/// The second of the words that white space parts `chars` into.
pub fn find_second_word(chars: &[char]) -> (word: Option<Vec<char>>)
    ensures
        match word {
            Some(w) => second_word(chars@) == Some(w@),
            None => second_word(chars@) is None,
        },
{
    assert(chars@.skip(0) == chars@);
    let first: usize = skip_spaces(chars, 0);
    let gap: usize = skip_word(chars, first);
    assert(chars@.skip(first as int).skip(gap - first) == chars@.skip(gap as int));
    let second: usize = skip_spaces(chars, gap);
    if second == chars.len() {
        return None;
    }
    let end: usize = skip_word(chars, second);
    assert(chars@.subrange(second as int, end as int) == chars@.skip(second as int).take(
        end - second,
    ));
    Some(char_range(chars, second, end))
}

/// Only the 26 capital letters have another lower-case form, which is 32 places on.
pub proof fn law_lower_case(s: Seq<char>, i: int)
    requires
        0 <= i < s.len(),
    ensures
        lower(s).len() == s.len(),
        65 <= s[i] as u32 <= 90 ==> lower(s)[i] as u32 == s[i] as u32 + 32,
        !(65 <= s[i] as u32 <= 90) ==> lower(s)[i] == s[i],
        lower(lower(s)) == lower(s),
{
    assert(lower(lower(s)) =~= lower(s));
}

/// White space is tab to carriage return, the space, and the spaces and line ends of
/// Unicode.
pub proof fn law_white_space(c: char)
    ensures
        (c as u32) < 128 ==> (is_space(c) <==> c == '\t' || c == '\n' || c as u32 == 11 || c as u32
            == 12 || c == '\r' || c == ' '),
        128 <= c as u32 ==> (is_space(c) <==> c as u32 == 133 || c as u32 == 160 || c as u32 == 5760
            || 8192 <= c as u32 <= 8202 || c as u32 == 8232 || c as u32 == 8233 || c as u32 == 8239
            || c as u32 == 8287 || c as u32 == 12288),
{
}

/// Trimming cuts off white space at both ends and nothing else: what it leaves neither
/// starts nor ends with white space, and is what stood between.
pub proof fn law_trim_cuts_white_space(before: Seq<char>, s: Seq<char>, after: Seq<char>)
    requires
        forall|i: int| 0 <= i < before.len() ==> is_space(#[trigger] before[i]),
        forall|i: int| 0 <= i < after.len() ==> is_space(#[trigger] after[i]),
        s.len() > 0 ==> !is_space(s[0]) && !is_space(s.last()),
    ensures
        trim(before + s + after) == s,
{
    lemma_trim_start_of(before, s + after);
    assert(before + s + after =~= before + (s + after));
    if s.len() > 0 {
        assert((s + after)[0] == s[0]);
        assert(trim_start(s + after) == s + after);
        lemma_trim_end_of(s, after);
    } else {
        assert(s + after =~= after);
        lemma_trim_start_of(after, Seq::empty());
        assert(after + Seq::<char>::empty() =~= after);
        assert(trim_start(after) == Seq::<char>::empty());
        assert(s =~= Seq::<char>::empty());
    }
}

proof fn lemma_trim_start_of(before: Seq<char>, s: Seq<char>)
    requires
        forall|i: int| 0 <= i < before.len() ==> is_space(#[trigger] before[i]),
    ensures
        trim_start(before + s) == trim_start(s),
    decreases before.len(),
{
    if before.len() == 0 {
        assert(before + s =~= s);
    } else {
        let rest = before.drop_first();
        assert(is_space(before[0]));
        assert((before + s).drop_first() =~= rest + s);
        assert forall|i: int| 0 <= i < rest.len() implies is_space(#[trigger] rest[i]) by {
            assert(is_space(before[i + 1]));
        }
        lemma_trim_start_of(rest, s);
    }
}

proof fn lemma_trim_end_of(s: Seq<char>, after: Seq<char>)
    requires
        forall|i: int| 0 <= i < after.len() ==> is_space(#[trigger] after[i]),
        s.len() > 0,
        !is_space(s.last()),
    ensures
        trim_end(s + after) == s,
    decreases after.len(),
{
    if after.len() == 0 {
        assert(s + after =~= s);
    } else {
        let rest = after.drop_last();
        assert(is_space(after[after.len() - 1]));
        assert((s + after).drop_last() =~= s + rest);
        assert forall|i: int| 0 <= i < rest.len() implies is_space(#[trigger] rest[i]) by {
            assert(is_space(after[i]));
        }
        lemma_trim_end_of(s, rest);
    }
}

/// Some pieces with a separator between each two.
pub open spec fn glued(pieces: Seq<Seq<char>>, sep: char) -> Seq<char>
    decreases pieces.len(),
{
    if pieces.len() == 0 {
        Seq::empty()
    } else if pieces.len() == 1 {
        pieces[0]
    } else {
        glued(pieces.drop_last(), sep).push(sep) + pieces.last()
    }
}

/// Splitting parts a text at every separator: no piece holds one, and glued together
/// with separators the pieces are the text again.
pub proof fn law_split_pieces(s: Seq<char>, sep: char)
    ensures
        split(s, sep).len() >= 1,
        glued(split(s, sep), sep) == s,
        forall|k: int| 0 <= k < split(s, sep).len() ==> !(#[trigger] split(s, sep)[k]).contains(sep),
    decreases s.len(),
{
    let pieces = split(s, sep);
    if s.len() == 0 {
        assert(glued(pieces, sep) =~= s);
        assert(!pieces[0].contains(sep));
    } else {
        let shorter = s.drop_last();
        law_split_pieces(shorter, sep);
        let before = split(shorter, sep);
        let c = s.last();
        if c == sep {
            assert(pieces.drop_last() =~= before);
            assert(glued(before, sep).push(sep) + Seq::<char>::empty() =~= s);
            assert forall|k: int| 0 <= k < pieces.len() implies !(#[trigger] pieces[k]).contains(
                sep,
            ) by {
                if k < before.len() {
                    assert(pieces[k] == before[k]);
                }
            }
        } else {
            let last = before.last().push(c);
            assert(pieces.drop_last() =~= before.drop_last());
            if before.len() == 1 {
                assert(glued(pieces, sep) =~= s);
            } else {
                assert(glued(before.drop_last(), sep).push(sep) + last =~= (glued(
                    before.drop_last(),
                    sep,
                ).push(sep) + before.last()).push(c));
                assert(shorter.push(c) =~= s);
            }
            assert forall|k: int| 0 <= k < pieces.len() implies !(#[trigger] pieces[k]).contains(
                sep,
            ) by {
                if k < before.len() - 1 {
                    assert(pieces[k] == before[k]);
                } else {
                    let old_last = before[before.len() - 1];
                    assert(!old_last.contains(sep));
                    assert(pieces[k] == old_last.push(c));
                    if pieces[k].contains(sep) {
                        let j = choose|j: int| 0 <= j < pieces[k].len() && pieces[k][j] == sep;
                        if j < old_last.len() {
                            assert(old_last[j] == sep);
                        }
                    }
                }
            }
        }
    }
}

/// The digits of a number: the last one is its remainder by ten, those before it are the
/// digits of a tenth of it, and there is no zero in front.
pub proof fn law_decimal_digits(n: nat)
    ensures
        n < 10 ==> to_decimal(n).len() == 1,
        to_decimal(n).last() as u32 == 48 + n % 10,
        n >= 10 ==> to_decimal(n).drop_last() == to_decimal(n / 10),
        n > 0 ==> to_decimal(n)[0] as u32 != 48,
    decreases n,
{
    if n >= 10 {
        law_decimal_digits(n / 10);
        lemma_decimal_nonempty(n / 10);
        assert(to_decimal(n).drop_last() =~= to_decimal(n / 10));
    }
}

proof fn lemma_decimal_chars(n: nat)
    ensures
        to_decimal(n).len() >= 1,
        forall|i: int| 0 <= i < to_decimal(n).len() ==> 48 <= (#[trigger] to_decimal(n)[i]) as u32
            <= 57,
    decreases n,
{
    if n >= 10 {
        lemma_decimal_chars(n / 10);
        let s = to_decimal(n / 10);
        assert forall|i: int| 0 <= i < to_decimal(n).len() implies 48 <= (
        #[trigger] to_decimal(n)[i]) as u32 <= 57 by {
            if i < s.len() {
                assert(to_decimal(n)[i] == s[i]);
            }
        }
    }
}

/// A number that is written in decimal digits is read as that number, with or without a
/// plus sign, unless it is too large; a text with anything else in it, and an empty one,
/// is no number.
pub proof fn law_unsigned_reads_digits(n: nat, max: nat, s: Seq<char>, i: int)
    ensures
        n <= max ==> unsigned(to_decimal(n), max) == Some(n),
        n <= max ==> unsigned(seq!['+'] + to_decimal(n), max) == Some(n),
        n > max ==> unsigned(to_decimal(n), max) is None,
        0 < i < s.len() && !(48 <= s[i] as u32 <= 57) ==> unsigned(s, max) is None,
        s.len() > 0 && !(48 <= s[0] as u32 <= 57) && s[0] != '+' ==> unsigned(s, max) is None,
        unsigned(Seq::empty(), max) is None,
        unsigned(seq!['+'], max) is None,
{
    law_decimal_reads_back(n);
    lemma_decimal_chars(n);
    assert((seq!['+'] + to_decimal(n)).drop_first() =~= to_decimal(n));
    if 0 < i < s.len() && !(48 <= s[i] as u32 <= 57) {
        lemma_no_number(s, i);
        lemma_no_number(s.drop_first(), i - 1);
    }
    if s.len() > 0 && !(48 <= s[0] as u32 <= 57) && s[0] != '+' {
        lemma_no_number(s, 0);
    }
    assert(seq!['+'].drop_first() =~= Seq::<char>::empty());
}

proof fn lemma_no_number(s: Seq<char>, i: int)
    requires
        0 <= i < s.len(),
        !(48 <= s[i] as u32 <= 57),
    ensures
        decimal(s) is None,
    decreases s.len(),
{
    if i < s.len() - 1 {
        lemma_no_number(s.drop_last(), i);
    }
}

/// The second word of a line is what stands between the white space behind its first word
/// and the next white space, or the end.
pub proof fn law_second_word(first: Seq<char>, second: Seq<char>, rest: Seq<char>)
    requires
        first.len() > 0,
        second.len() > 0,
        forall|i: int| 0 <= i < first.len() ==> !is_space(#[trigger] first[i]),
        forall|i: int| 0 <= i < second.len() ==> !is_space(#[trigger] second[i]),
        rest.len() > 0 ==> is_space(rest[0]),
    ensures
        second_word(first + seq![' '] + second + rest) == Some(second),
        second_word(first) is None,
        second_word(Seq::empty()) is None,
{
    let s = first + seq![' '] + second + rest;
    assert(s[0] == first[0]);
    assert(trim_start(s) == s);
    assert(s =~= first + (seq![' '] + second + rest));
    lemma_word(first, seq![' '] + second + rest);
    let tail = s.skip(first.len() as int);
    assert(tail =~= seq![' '] + (second + rest));
    lemma_trim_start_of(seq![' '], second + rest);
    assert((second + rest)[0] == second[0]);
    assert(trim_start(second + rest) == second + rest);
    lemma_word(second, rest);
    assert((second + rest).take(second.len() as int) =~= second);
    assert(trim_start(first) == first);
    assert(first + Seq::<char>::empty() =~= first);
    lemma_word(first, Seq::empty());
    assert(first.skip(first.len() as int) =~= Seq::<char>::empty());
    assert(Seq::<char>::empty().skip(0) =~= Seq::<char>::empty());
}

proof fn lemma_word(word: Seq<char>, rest: Seq<char>)
    requires
        forall|i: int| 0 <= i < word.len() ==> !is_space(#[trigger] word[i]),
        rest.len() > 0 ==> is_space(rest[0]),
    ensures
        word_len(word + rest) == word.len(),
    decreases word.len(),
{
    let s = word + rest;
    if word.len() == 0 {
        assert(s =~= rest);
    } else {
        let shorter = word.drop_first();
        assert(s[0] == word[0]);
        assert(s.drop_first() =~= shorter + rest);
        assert forall|i: int| 0 <= i < shorter.len() implies !is_space(#[trigger] shorter[i]) by {
            assert(!is_space(word[i + 1]));
        }
        lemma_word(shorter, rest);
    }
}

/// The last place where a character stands: behind it there is no other.
pub proof fn law_last_index(before: Seq<char>, c: char, after: Seq<char>)
    requires
        !after.contains(c),
    ensures
        last_index(before + seq![c] + after, c) == Some(before.len() as int),
        last_index(after, c) is None,
    decreases after.len(),
{
    let s = before + seq![c] + after;
    if after.len() == 0 {
        assert(s.last() == c);
    } else {
        let shorter = after.drop_last();
        assert(after[after.len() - 1] != c);
        if shorter.contains(c) {
            let j = choose|j: int| 0 <= j < shorter.len() && shorter[j] == c;
            assert(after[j] == c);
        }
        assert(s.drop_last() =~= before + seq![c] + shorter);
        law_last_index(before, c, shorter);
    }
}

/// Decimal digits hold no other characters.
pub proof fn law_digits_are_digits(n: nat, c: char)
    requires
        !(48 <= c as u32 <= 57),
    ensures
        !to_decimal(n).contains(c),
{
    lemma_decimal_chars(n);
    if to_decimal(n).contains(c) {
        let j = choose|j: int| 0 <= j < to_decimal(n).len() && to_decimal(n)[j] == c;
        assert(48 <= to_decimal(n)[j] as u32 <= 57);
    }
}

} // verus!
