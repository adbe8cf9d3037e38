//! Fixed-width integers as bytes, in both byte orders.

use vstd::prelude::*;

verus! {

/// The 16-bit number stored at `at`, low byte first.
pub open spec fn le_u16(s: Seq<u8>, at: int) -> u16 {
    (s[at] + 0x100 * s[at + 1]) as u16
}

/// The 32-bit number stored at `at`, low byte first.
pub open spec fn le_u32(s: Seq<u8>, at: int) -> u32 {
    (s[at] + 0x100 * s[at + 1] + 0x1_0000 * s[at + 2] + 0x100_0000 * s[at + 3]) as u32
}

/// The 64-bit number stored at `at`, low byte first.
pub open spec fn le_u64(s: Seq<u8>, at: int) -> u64 {
    (le_u32(s, at) + 0x1_0000_0000 * le_u32(s, at + 4)) as u64
}

/// The 16-bit number stored at `at`, high byte first.
pub open spec fn be_u16(s: Seq<u8>, at: int) -> u16 {
    (0x100 * s[at] + s[at + 1]) as u16
}

/// The bytes of `v`, low byte first.
pub open spec fn le16_bytes(v: u16) -> Seq<u8> {
    seq![(v % 0x100) as u8, (v / 0x100) as u8]
}

/// The bytes of `v`, low byte first.
pub open spec fn le32_bytes(v: u32) -> Seq<u8> {
    seq![
        (v % 0x100) as u8,
        (v / 0x100 % 0x100) as u8,
        (v / 0x1_0000 % 0x100) as u8,
        (v / 0x100_0000) as u8,
    ]
}

/// The bytes of `v`, high byte first.
pub open spec fn be16_bytes(v: u16) -> Seq<u8> {
    seq![(v / 0x100) as u8, (v % 0x100) as u8]
}

/// The bytes of `v`, high byte first.
pub open spec fn be32_bytes(v: u32) -> Seq<u8> {
    seq![
        (v / 0x100_0000) as u8,
        (v / 0x1_0000 % 0x100) as u8,
        (v / 0x100 % 0x100) as u8,
        (v % 0x100) as u8,
    ]
}

/// `s` with `v` stored at `at`, low byte first.
pub open spec fn stored_le32(s: Seq<u8>, at: int, v: u32) -> Seq<u8> {
    s.update(at, (v % 0x100) as u8).update(at + 1, (v / 0x100 % 0x100) as u8).update(
        at + 2,
        (v / 0x1_0000 % 0x100) as u8,
    ).update(at + 3, (v / 0x100_0000) as u8)
}

/// Byte `k` of `v`, counted from the low end.
pub open spec fn byte_of(v: u32, k: int) -> u8 {
    (if k == 0 {
        v % 0x100
    } else if k == 1 {
        v / 0x100 % 0x100
    } else if k == 2 {
        v / 0x1_0000 % 0x100
    } else {
        v / 0x100_0000
    }) as u8
}

/// The number with these bytes, low byte first.
pub open spec fn u32_of(b0: u8, b1: u8, b2: u8, b3: u8) -> u32 {
    (b0 + 0x100 * b1 + 0x1_0000 * b2 + 0x100_0000 * b3) as u32
}

/// `v` with byte `k`, counted from the low end, replaced by `b`.
#[verifier::opaque]
pub open spec fn with_byte(v: u32, k: int, b: u8) -> u32 {
    u32_of(
        if k == 0 {
            b
        } else {
            byte_of(v, 0)
        },
        if k == 1 {
            b
        } else {
            byte_of(v, 1)
        },
        if k == 2 {
            b
        } else {
            byte_of(v, 2)
        },
        if k == 3 {
            b
        } else {
            byte_of(v, 3)
        },
    )
}

/// Byte `k` of `v`, counted from the low end.
pub fn get_byte(v: u32, k: u16) -> (b: u8)
    requires
        k < 4,
    ensures
        b == byte_of(v, k as int),
{
    match k {
        0 => (v % 0x100) as u8,
        1 => (v / 0x100 % 0x100) as u8,
        2 => (v / 0x1_0000 % 0x100) as u8,
        _ => (v / 0x100_0000) as u8,
    }
}

/// `v` with byte `k`, counted from the low end, replaced by `b`.
pub fn set_byte(v: u32, k: u16, b: u8) -> (r: u32)
    requires
        k < 4,
    ensures
        r == with_byte(v, k as int, b),
{
    proof {
        reveal(with_byte);
    }
    let b0: u8 = if k == 0 {
        b
    } else {
        get_byte(v, 0)
    };
    let b1: u8 = if k == 1 {
        b
    } else {
        get_byte(v, 1)
    };
    let b2: u8 = if k == 2 {
        b
    } else {
        get_byte(v, 2)
    };
    let b3: u8 = if k == 3 {
        b
    } else {
        get_byte(v, 3)
    };
    b0 as u32 + 0x100 * (b1 as u32) + 0x1_0000 * (b2 as u32) + 0x100_0000 * (b3 as u32)
}

proof fn lemma_byte_of_u32_of(b0: u8, b1: u8, b2: u8, b3: u8)
    ensures
        byte_of(u32_of(b0, b1, b2, b3), 0) == b0,
        byte_of(u32_of(b0, b1, b2, b3), 1) == b1,
        byte_of(u32_of(b0, b1, b2, b3), 2) == b2,
        byte_of(u32_of(b0, b1, b2, b3), 3) == b3,
{
    let v = u32_of(b0, b1, b2, b3);
    let high = b2 + 0x100 * b3;
    assert(v == b0 + 0x100 * (b1 + 0x100 * high));
    assert(v / 0x100 == b1 + 0x100 * high);
    assert(v / 0x1_0000 == high);
    assert(v / 0x100_0000 == b3);
}

/// Replacing a byte changes that byte and no other.
pub proof fn lemma_with_byte(v: u32, k: int, b: u8, j: int)
    requires
        0 <= k < 4,
        0 <= j < 4,
    ensures
        byte_of(with_byte(v, k, b), j) == (if j == k {
            b
        } else {
            byte_of(v, j)
        }),
{
    reveal(with_byte);
    let b0 = if k == 0 { b } else { byte_of(v, 0) };
    let b1 = if k == 1 { b } else { byte_of(v, 1) };
    let b2 = if k == 2 { b } else { byte_of(v, 2) };
    let b3 = if k == 3 { b } else { byte_of(v, 3) };
    lemma_byte_of_u32_of(b0, b1, b2, b3);
}

/// Reads the 16-bit number at `at`, low byte first.
pub fn get_le_u16(bytes: &[u8], at: usize) -> (v: u16)
    requires
        at + 2 <= bytes@.len(),
    ensures
        v == le_u16(bytes@, at as int),
{
    bytes[at] as u16 + 0x100 * (bytes[at + 1] as u16)
}

/// Reads the 32-bit number at `at`, low byte first.
pub fn get_le_u32(bytes: &[u8], at: usize) -> (v: u32)
    requires
        at + 4 <= bytes@.len(),
    ensures
        v == le_u32(bytes@, at as int),
{
    bytes[at] as u32 + 0x100 * (bytes[at + 1] as u32) + 0x1_0000 * (bytes[at + 2] as u32)
        + 0x100_0000 * (bytes[at + 3] as u32)
}

/// Reads the 64-bit number at `at`, low byte first.
pub fn get_le_u64(bytes: &[u8], at: usize) -> (v: u64)
    requires
        at + 8 <= bytes@.len(),
    ensures
        v == le_u64(bytes@, at as int),
{
    let len: usize = bytes.len();
    assert(at + 8 <= len);
    get_le_u32(bytes, at) as u64 + 0x1_0000_0000 * (get_le_u32(bytes, at + 4) as u64)
}

/// Reads the 16-bit number at `at`, high byte first.
pub fn get_be_u16(bytes: &[u8], at: usize) -> (v: u16)
    requires
        at + 2 <= bytes@.len(),
    ensures
        v == be_u16(bytes@, at as int),
{
    0x100 * (bytes[at] as u16) + bytes[at + 1] as u16
}

/// Appends `v`, low byte first.
pub fn put_le_u16(out: &mut Vec<u8>, v: u16)
    ensures
        final(out)@ == old(out)@ + le16_bytes(v),
{
    out.push((v % 0x100) as u8);
    out.push((v / 0x100) as u8);
}

/// Appends `v`, low byte first.
pub fn put_le_u32(out: &mut Vec<u8>, v: u32)
    ensures
        final(out)@ == old(out)@ + le32_bytes(v),
{
    out.push((v % 0x100) as u8);
    out.push((v / 0x100 % 0x100) as u8);
    out.push((v / 0x1_0000 % 0x100) as u8);
    out.push((v / 0x100_0000) as u8);
}

/// Appends `v`, high byte first.
pub fn put_be_u16(out: &mut Vec<u8>, v: u16)
    ensures
        final(out)@ == old(out)@ + be16_bytes(v),
{
    out.push((v / 0x100) as u8);
    out.push((v % 0x100) as u8);
}

/// Appends `v`, high byte first.
pub fn put_be_u32(out: &mut Vec<u8>, v: u32)
    ensures
        final(out)@ == old(out)@ + be32_bytes(v),
{
    out.push((v / 0x100_0000) as u8);
    out.push((v / 0x1_0000 % 0x100) as u8);
    out.push((v / 0x100 % 0x100) as u8);
    out.push((v % 0x100) as u8);
}

/// Appends the bytes of `src`.
pub fn put_bytes(out: &mut Vec<u8>, src: &[u8])
    ensures
        final(out)@ == old(out)@ + src@,
{
    let mut i: usize = 0;
    while i < src.len()
        invariant
            i <= src@.len(),
            out@ == old(out)@ + src@.take(i as int),
        decreases src@.len() - i,
    {
        out.push(src[i]);
        i = i + 1;
        assert(src@.take(i as int) == src@.take(i - 1).push(src@[i - 1]));
    }
    assert(src@.take(src@.len() as int) == src@);
}

/// Copies `bytes[from..to]`.
pub fn copy_range(bytes: &[u8], from: usize, to: usize) -> (out: Vec<u8>)
    requires
        from <= to <= bytes@.len(),
    ensures
        out@ == bytes@.subrange(from as int, to as int),
{
    let mut out: Vec<u8> = Vec::new();
    let mut i: usize = from;
    while i < to
        invariant
            from <= i <= to <= bytes@.len(),
            out@ == bytes@.subrange(from as int, i as int),
        decreases to - i,
    {
        out.push(bytes[i]);
        i = i + 1;
        assert(bytes@.subrange(from as int, i as int) == bytes@.subrange(from as int, i - 1).push(
            bytes@[i - 1],
        ));
    }
    out
}

/// `n` zero bytes.
pub fn zeros(n: usize) -> (out: Vec<u8>)
    ensures
        out@ == Seq::new(n as nat, |i: int| 0u8),
{
    let mut out: Vec<u8> = Vec::new();
    let mut i: usize = 0;
    while i < n
        invariant
            i <= n,
            out@ == Seq::new(i as nat, |i: int| 0u8),
        decreases n - i,
    {
        out.push(0u8);
        i = i + 1;
    }
    out
}

/// Whether two byte strings are the same.
pub fn same_bytes(a: &[u8], b: &[u8]) -> (same: bool)
    ensures
        same == (a@ == b@),
{
    if a.len() != b.len() {
        return false;
    }
    let mut i: usize = 0;
    while i < a.len()
        invariant
            i <= a@.len(),
            a@.len() == b@.len(),
            a@.take(i as int) == b@.take(i as int),
        decreases a@.len() - i,
    {
        if a[i] != b[i] {
            return false;
        }
        i = i + 1;
        assert(a@.take(i as int) == a@.take(i - 1).push(a@[i - 1]));
        assert(b@.take(i as int) == b@.take(i - 1).push(b@[i - 1]));
    }
    assert(a@.take(a@.len() as int) == a@);
    assert(b@.take(b@.len() as int) == b@);
    true
}

/// A 32-bit number is read from where its bytes stand.
pub proof fn lemma_le32_at(s: Seq<u8>, at: int, v: u32)
    requires
        0 <= at,
        at + 4 <= s.len(),
        s.subrange(at, at + 4) == le32_bytes(v),
    ensures
        le_u32(s, at) == v,
{
    let t = s.subrange(at, at + 4);
    assert(s[at] == t[0] && s[at + 1] == t[1] && s[at + 2] == t[2] && s[at + 3] == t[3]);
}

/// A stored 32-bit number is read back, and no other byte changes.
pub proof fn lemma_stored_le32(s: Seq<u8>, at: int, v: u32)
    requires
        0 <= at,
        at + 4 <= s.len(),
    ensures
        stored_le32(s, at, v).len() == s.len(),
        le_u32(stored_le32(s, at, v), at) == v,
        forall|i: int|
            0 <= i < s.len() && !(at <= i < at + 4) ==> #[trigger] stored_le32(s, at, v)[i] == s[i],
{
}

/// Some runs of bytes, by what they hold.
pub open spec fn byte_views(list: Seq<Vec<u8>>) -> Seq<Seq<u8>> {
    Seq::new(list.len(), |i: int| list[i]@)
}

/// Some runs of bytes, one behind the other.
pub open spec fn flat(runs: Seq<Seq<u8>>) -> Seq<u8>
    decreases runs.len(),
{
    if runs.len() == 0 {
        Seq::empty()
    } else {
        flat(runs.drop_last()) + runs.last()
    }
}

/// Which byte comes first: the low one in numbers whose names say `le`, the high one in those
/// whose names say `be`.
pub proof fn law_byte_orders(a: u8, b: u8, v: u16, w: u32)
    ensures
        le_u16(seq![a, b], 0) == a + 256 * b,
        be_u16(seq![a, b], 0) == 256 * a + b,
        le16_bytes(v).len() == 2 && le16_bytes(v)[0] + 256 * le16_bytes(v)[1] == v,
        be16_bytes(v).len() == 2 && 256 * be16_bytes(v)[0] + be16_bytes(v)[1] == v,
        ({
            let s = le32_bytes(w);
            s.len() == 4 && s[0] + 256 * (s[1] + 256 * (s[2] + 256 * s[3])) == w
        }),
        ({
            let s = be32_bytes(w);
            s.len() == 4 && s[3] + 256 * (s[2] + 256 * (s[1] + 256 * s[0])) == w
        }),
        byte_of(w, 0) + 256 * (byte_of(w, 1) + 256 * (byte_of(w, 2) + 256 * byte_of(w, 3))) == w,
{
}

/// Runs of bytes are put one behind the other.
pub proof fn law_runs_are_joined_in_order(runs: Seq<Seq<u8>>, last: Seq<u8>)
    ensures
        flat(Seq::empty()) == Seq::<u8>::empty(),
        flat(runs.push(last)) == flat(runs) + last,
{
    assert(runs.push(last).drop_last() =~= runs);
}

} // verus!
