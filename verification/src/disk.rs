//! In-memory disk image, addressed by sector.

use crate::bytes::put_bytes;
use vstd::prelude::*;

verus! {

/// Bytes in one sector.
pub const SECTOR_SIZE: usize = 512;

/// A flat disk image. Reads past its end see zeros; writes past its end extend
/// it.
pub struct Disk {
    pub bytes: Vec<u8>,
}

impl View for Disk {
    type V = Seq<u8>;

    open spec fn view(&self) -> Seq<u8> {
        self.bytes@
    }
}

/// The byte at `at`, zero past the end of the image.
pub open spec fn image_byte(image: Seq<u8>, at: int) -> u8 {
    if 0 <= at < image.len() {
        image[at]
    } else {
        0
    }
}

/// The `n` bytes from `at` on, zero past the end of the image.
pub open spec fn image_read(image: Seq<u8>, at: int, n: nat) -> Seq<u8> {
    Seq::new(n, |i: int| image_byte(image, at + i))
}

/// The image with `data` written at `at`, extended with zeros as far as needed.
/// An image that would be too long to be held is left as it is.
pub open spec fn image_written(image: Seq<u8>, at: int, data: Seq<u8>) -> Seq<u8> {
    let end = at + data.len();
    if data.len() == 0 || end > usize::MAX {
        image
    } else {
        Seq::new(
            (if end > image.len() {
                end
            } else {
                image.len() as int
            }) as nat,
            |i: int|
                if at <= i < end {
                    data[i - at]
                } else {
                    image_byte(image, i)
                },
        )
    }
}

impl Disk {
    pub fn new() -> (disk: Self)
        ensures
            disk@ == Seq::<u8>::empty(),
    {
        Disk { bytes: Vec::new() }
    }

    /// Replaces the image. The length need not be a whole number of sectors: a
    /// partial last sector reads as if it were padded with zeros.
    pub fn load(&mut self, bytes: &[u8])
        ensures
            final(self)@ == bytes@,
    {
        self.bytes.clear();
        put_bytes(&mut self.bytes, bytes);
    }

    pub fn size(&self) -> (n: usize)
        ensures
            n == self@.len(),
    {
        self.bytes.len()
    }

    /// Reads `count` sectors from `lba` on into `dest`, as far as it reaches,
    /// and returns how many bytes were filled in.
    pub fn read_sectors(&self, lba: u32, count: u8, dest: &mut [u8]) -> (n: usize)
        ensures
            n == (if count * 512 <= old(dest)@.len() {
                count * 512
            } else {
                old(dest)@.len() as int
            }),
            final(dest)@ == image_read(self@, lba * 512, n as nat) + old(dest)@.skip(n as int),
    {
        let want: usize = count as usize * SECTOR_SIZE;
        let n: usize = if want <= dest.len() {
            want
        } else {
            dest.len()
        };
        let mut i: usize = 0;
        while i < n
            invariant
                i <= n <= dest@.len(),
                n <= 255 * 512,
                dest@.len() == old(dest)@.len(),
                dest@ == image_read(self@, lba * 512, i as nat) + old(dest)@.skip(i as int),
            decreases n - i,
        {
            dest[i] = self.byte_at(lba as u64 * 512 + i as u64);
            i = i + 1;
            assert(dest@ == image_read(self@, lba * 512, i as nat) + old(dest)@.skip(i as int));
        }
        n
    }

    fn byte_at(&self, at: u64) -> (b: u8)
        ensures
            b == image_byte(self@, at as int),
    {
        if at < self.bytes.len() as u64 {
            self.bytes[at as usize]
        } else {
            0
        }
    }

    /// Copies out the `n` bytes from sector `lba` on.
    pub fn read_from(&self, lba: u32, n: usize) -> (out: Vec<u8>)
        requires
            n <= 0x1000_0000,
        ensures
            out@ == image_read(self@, lba * 512, n as nat),
    {
        let mut out: Vec<u8> = Vec::new();
        let mut i: usize = 0;
        while i < n
            invariant
                i <= n <= 0x1000_0000,
                out@ == image_read(self@, lba * 512, i as nat),
            decreases n - i,
        {
            out.push(self.byte_at(lba as u64 * 512 + i as u64));
            i = i + 1;
            assert(out@ == image_read(self@, lba * 512, i as nat));
        }
        out
    }

    /// Writes `data` from sector `lba` on, extending the image where it ends
    /// too soon.
    pub fn write_sectors(&mut self, lba: u32, data: &[u8])
        ensures
            final(self)@ == image_written(old(self)@, lba * 512, data@),
    {
        let len: usize = data.len();
        let start64: u64 = lba as u64 * 512;
        if len == 0 || start64 > usize::MAX as u64 || len > usize::MAX - start64 as usize {
            return ;
        }
        let start: usize = start64 as usize;
        let end: usize = start + len;
        while self.bytes.len() < end
            invariant
                end == lba * 512 + data@.len(),
                self@.len() >= old(self)@.len(),
                self@.len() <= end || self@.len() == old(self)@.len(),
                self@ == image_read(old(self)@, 0, self@.len()),
            decreases end - self@.len(),
        {
            self.bytes.push(0u8);
            assert(self@ == image_read(old(self)@, 0, self@.len()));
        }
        let ghost grown = self@;
        let mut i: usize = 0;
        while i < len
            invariant
                i <= len == data@.len(),
                start == lba * 512,
                end == start + len,
                end <= grown.len(),
                self@.len() == grown.len(),
                forall|j: int|
                    0 <= j < grown.len() ==> self@[j] == (if start <= j < start + i {
                        data@[j - start]
                    } else {
                        grown[j]
                    }),
            decreases len - i,
        {
            self.bytes[start + i] = data[i];
            i = i + 1;
        }
        assert(self@ == image_written(old(self)@, lba * 512, data@));
    }
}

impl Default for Disk {
    fn default() -> (disk: Self)
        ensures
            disk@ == Seq::<u8>::empty(),
    {
        Disk::new()
    }
}

/// What was written is read back, and no byte outside of it changes.
pub proof fn law_read_back_written(image: Seq<u8>, at: int, data: Seq<u8>, other: int)
    requires
        0 <= at,
        at + data.len() <= usize::MAX,
    ensures
        image_read(image_written(image, at, data), at, data.len()) == data,
        !(at <= other < at + data.len()) ==> image_byte(image_written(image, at, data), other)
            == image_byte(image, other),
{
    assert(image_read(image_written(image, at, data), at, data.len()) =~= data);
}

/// A partial last sector reads as its bytes followed by zeros.
pub proof fn law_short_image_is_padded(image: Seq<u8>, n: nat)
    requires
        image.len() <= n,
    ensures
        image_read(image, 0, n) == image + Seq::new((n - image.len()) as nat, |i: int| 0u8),
{
    assert(image_read(image, 0, n) =~= image + Seq::new((n - image.len()) as nat, |i: int| 0u8));
}

/// What is read of an image is its bytes, one after the other, and zeros past its end; what is
/// written makes it no shorter, and no longer than needed.
pub proof fn law_image_bytes(image: Seq<u8>, at: int, n: nat, i: int, data: Seq<u8>)
    requires
        0 <= at,
        at + data.len() <= usize::MAX,
    ensures
        image_read(image, at, n).len() == n,
        0 <= i < n && at + i < image.len() ==> image_read(image, at, n)[i] == image[at + i],
        0 <= i < n && at + i >= image.len() ==> image_read(image, at, n)[i] == 0,
        image_written(image, at, Seq::empty()) == image,
        data.len() > 0 && at + data.len() <= image.len() ==> image_written(image, at, data).len()
            == image.len(),
        data.len() > 0 && at + data.len() > image.len() ==> image_written(image, at, data).len()
            == at + data.len(),
{
}

} // verus!
