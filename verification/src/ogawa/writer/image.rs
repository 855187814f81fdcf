//! The image of an archive being written: the bytes of the Ogawa file in
//! order, with the table of stored samples used to share identical sample
//! data and the time sampling table. Writing the image to disk is left to
//! the caller.

use vstd::prelude::*;
use crate::ogawa::format::{OGAWA_MAGIC, NOT_FROZEN_FLAG};
use crate::ogawa::le::{le_bytes, lemma_le_bytes_len};
use crate::ogawa::writer::write_util::{write_u64_le, extend_bytes, write_with_hint};
use crate::ogawa::read_util::{TimeSamplingRecord, record_view, record_views};
use crate::ogawa::writer::time_table::{sampling_bytes, samplings_bytes, lemma_samplings_bytes_push};
use crate::util::error::Error;

verus! {

/// Identity of a stored sample: the two little-endian halves of its 128-bit
/// digest, its size in bytes and its type tag. Two samples with the same
/// key share one data block.
#[derive(Clone, Copy, Debug, PartialEq, Eq, Structural)]
pub struct ContentKey {
    pub digest_lo: u64,
    pub digest_hi: u64,
    pub num_bytes: u64,
    pub pod_tag: u8,
}

/// The state of an archive image as mathematical values.
pub struct ImageView {
    /// The file bytes written so far.
    pub bytes: Seq<u8>,
    /// Whether the archive has been finalized.
    pub frozen: bool,
    /// Stored samples and their positions, in the order they were stored.
    pub stored: Seq<(ContentKey, u64)>,
    /// Whether identical samples share one data block.
    pub dedup_enabled: bool,
    /// The time sampling table: largest sample count, time per cycle and
    /// times of each sampling, times as the bit patterns of their values.
    pub samplings: Seq<(u32, u64, Seq<u64>)>,
}

/// An archive image under construction.
pub struct ArchiveImage {
    bytes: Vec<u8>,
    frozen: bool,
    stored: Vec<(ContentKey, u64)>,
    dedup_enabled: bool,
    samplings: Vec<TimeSamplingRecord>,
}

impl View for ArchiveImage {
    type V = ImageView;

    closed spec fn view(&self) -> ImageView {
        ImageView {
            bytes: self.bytes@,
            frozen: self.frozen,
            stored: self.stored@,
            dedup_enabled: self.dedup_enabled,
            samplings: record_views(self.samplings@),
        }
    }
}

/// Each sampling's number of times fits its 4-byte count.
pub open spec fn counts_fit(v: ImageView) -> bool {
    forall|i: int| 0 <= i < v.samplings.len() ==> #[trigger] v.samplings[i].2.len() < 0x1_0000_0000
}

/// The bit pattern of the time per cycle of the identity sampling (1.0).
pub const IDENTITY_TIME_PER_CYCLE: u64 = 0x3FF0_0000_0000_0000;

/// The identity sampling, always at index 0: one time, 0.0, per cycle 1.0.
pub open spec fn identity_sampling() -> (u32, u64, Seq<u64>) {
    (0, IDENTITY_TIME_PER_CYCLE, seq![0u64])
}

/// The index of the first sampling with this time per cycle and times.
pub open spec fn sampling_index(s: Seq<(u32, u64, Seq<u64>)>, tpc: u64, times: Seq<u64>) -> Option<int>
    decreases s.len(),
{
    if s.len() == 0 {
        None
    } else {
        match sampling_index(s.drop_last(), tpc, times) {
            Some(i) => Some(i),
            None => if s.last().1 == tpc && s.last().2 == times {
                Some(s.len() - 1)
            } else {
                None
            },
        }
    }
}

/// Looking a sampling up finds the first one with exactly the given time
/// per cycle and times, and finds none when no sampling has both.
pub proof fn lemma_sampling_index_finds_equal(s: Seq<(u32, u64, Seq<u64>)>, tpc: u64, times: Seq<u64>)
    ensures
        sampling_index(s, tpc, times) matches Some(i) ==> 0 <= i < s.len() && s[i].1 == tpc && s[i].2 == times
            && forall|j: int| 0 <= j < i ==> !(#[trigger] s[j].1 == tpc && s[j].2 == times),
        sampling_index(s, tpc, times) is None ==> forall|j: int|
            0 <= j < s.len() ==> !(#[trigger] s[j].1 == tpc && s[j].2 == times),
    decreases s.len(),
{
    if s.len() > 0 {
        let init = s.drop_last();
        lemma_sampling_index_finds_equal(init, tpc, times);
        assert forall|j: int| 0 <= j < init.len() implies init[j] == s[j] by {}
    }
}

/// The table after raising the largest sample count of sampling `idx` to
/// at least `n`; an index outside the table changes nothing.
pub open spec fn raised_max(s: Seq<(u32, u64, Seq<u64>)>, idx: int, n: u32) -> Seq<(u32, u64, Seq<u64>)> {
    if 0 <= idx < s.len() {
        let e = s[idx];
        s.update(idx, (if n > e.0 { n } else { e.0 }, e.1, e.2))
    } else {
        s
    }
}

/// The 16-byte header of a file being written: the magic `Ogawa`, the
/// "not frozen" flag, the format version 1 as the bytes 0, 1 and a zero
/// root position.
pub open spec fn initial_header() -> Seq<u8> {
    seq![0x4Fu8, 0x67, 0x61, 0x77, 0x61, 0x00, 0x00, 0x01] + le_bytes(0, 8)
}

/// A data block: its length as 8 little-endian bytes, then the bytes.
pub open spec fn data_block(data: Seq<u8>) -> Seq<u8> {
    le_bytes(data.len(), 8) + data
}

/// The 16 digest bytes of a key.
pub open spec fn key_bytes(k: ContentKey) -> Seq<u8> {
    le_bytes(k.digest_lo as nat, 8) + le_bytes(k.digest_hi as nat, 8)
}

/// A keyed data block: the length of key and data, the 16 digest bytes,
/// then the data.
pub open spec fn keyed_block(k: ContentKey, data: Seq<u8>) -> Seq<u8> {
    le_bytes(data.len() + 16, 8) + key_bytes(k) + data
}

/// The 8-byte little-endian words of a sequence of child offsets.
pub open spec fn words(cs: Seq<u64>) -> Seq<u8>
    decreases cs.len(),
{
    if cs.len() == 0 {
        Seq::empty()
    } else {
        words(cs.drop_last()) + le_bytes(cs.last() as nat, 8)
    }
}

/// A group block: the number of children, then one word per child.
pub open spec fn group_block(cs: Seq<u64>) -> Seq<u8> {
    le_bytes(cs.len(), 8) + words(cs)
}

/// The position stored for a key, searching in storing order.
pub open spec fn stored_position(s: Seq<(ContentKey, u64)>, k: ContentKey) -> Option<u64>
    decreases s.len(),
{
    if s.len() == 0 {
        None
    } else {
        match stored_position(s.drop_last(), k) {
            Some(p) => Some(p),
            None => if s.last().0 == k {
                Some(s.last().1)
            } else {
                None
            },
        }
    }
}

/// The image just after creation: the header, nothing stored, sharing on.
pub open spec fn initial_image() -> ImageView {
    ImageView {
        bytes: initial_header(),
        frozen: false,
        stored: Seq::empty(),
        dedup_enabled: true,
        samplings: seq![identity_sampling()],
    }
}

/// The image after appending `block`.
pub open spec fn appended(img: ImageView, block: Seq<u8>) -> ImageView {
    ImageView { bytes: img.bytes + block, ..img }
}

/// Writing keyed data: its position and the image after it. An empty sample
/// is position 0 and writes nothing; with sharing on, a key already stored
/// gives its position back; otherwise the block is appended at the end and,
/// with sharing on, recorded.
pub open spec fn keyed_write(img: ImageView, k: ContentKey, data: Seq<u8>) -> (ImageView, u64) {
    if data.len() == 0 {
        (img, 0)
    } else if img.dedup_enabled && stored_position(img.stored, k) is Some {
        (img, stored_position(img.stored, k)->0)
    } else {
        let pos = img.bytes.len() as u64;
        let after = appended(img, keyed_block(k, data));
        if img.dedup_enabled {
            (ImageView { stored: img.stored.push((k, pos)), ..after }, pos)
        } else {
            (after, pos)
        }
    }
}

/// Files are addressed by 63-bit positions: an image stays below this size.
pub open spec fn fits(n: nat) -> bool {
    n < 0x4000_0000_0000_0000
}

/// Writing a data block: its position and the image after it (an empty
/// block is position 0 and writes nothing).
pub open spec fn data_write(img: ImageView, data: Seq<u8>) -> (ImageView, u64) {
    if data.len() == 0 {
        (img, 0)
    } else {
        (appended(img, data_block(data)), img.bytes.len() as u64)
    }
}

/// Writing a data block appends the data and 8 bytes at most, and keeps
/// everything but the bytes.
pub proof fn lemma_data_write_growth(img: ImageView, data: Seq<u8>)
    ensures
        data_write(img, data).0.bytes.len() <= img.bytes.len() + data.len() + 8,
        data_write(img, data).0.frozen == img.frozen,
        data_write(img, data).0.dedup_enabled == img.dedup_enabled,
        data_write(img, data).0.samplings == img.samplings,
        data_write(img, data).0.stored == img.stored,
{
    lemma_le_bytes_len(data.len(), 8);
}

/// Writing keyed data appends at most the data and 24 bytes, keeps what was
/// written before, and changes neither the frozen flag, the sharing switch
/// nor the time sampling table.
pub proof fn lemma_keyed_write_growth(img: ImageView, k: ContentKey, data: Seq<u8>)
    ensures
        keyed_write(img, k, data).0.bytes.len() <= img.bytes.len() + data.len() + 24,
        keyed_write(img, k, data).0.bytes.subrange(0, img.bytes.len() as int) == img.bytes,
        keyed_write(img, k, data).0.frozen == img.frozen,
        keyed_write(img, k, data).0.dedup_enabled == img.dedup_enabled,
        keyed_write(img, k, data).0.samplings == img.samplings,
{
    lemma_le_bytes_len(data.len() + 16, 8);
    lemma_le_bytes_len(k.digest_lo as nat, 8);
    lemma_le_bytes_len(k.digest_hi as nat, 8);
    let after = keyed_write(img, k, data).0;
    assert(after.bytes.subrange(0, img.bytes.len() as int) =~= img.bytes);
}

/// With sharing on, writing a second sample under the same key gives the
/// first sample's position and leaves the image as the first write left it.
pub proof fn lemma_keyed_write_shares(img: ImageView, k: ContentKey, first: Seq<u8>, second: Seq<u8>)
    requires
        img.dedup_enabled,
        first.len() > 0,
        second.len() > 0,
    ensures
        keyed_write(keyed_write(img, k, first).0, k, second) == (keyed_write(img, k, first).0, keyed_write(img, k, first).1),
{
    let w = keyed_write(img, k, first);
    if stored_position(img.stored, k) is None {
        lemma_stored_position_extend(img.stored, (k, img.bytes.len() as u64), k);
    }
    assert(stored_position(w.0.stored, k) == Some(w.1));
}

proof fn lemma_stored_position_extend(s: Seq<(ContentKey, u64)>, e: (ContentKey, u64), k: ContentKey)
    ensures
        stored_position(s.push(e), k) == (match stored_position(s, k) {
            Some(p) => Some(p),
            None => if e.0 == k {
                Some(e.1)
            } else {
                None
            },
        }),
{
    assert(s.push(e).drop_last() =~= s);
}

proof fn lemma_words_push(cs: Seq<u64>, c: u64)
    ensures
        words(cs.push(c)) == words(cs) + le_bytes(c as nat, 8),
{
    assert(cs.push(c).drop_last() =~= cs);
}

impl ArchiveImage {
    /// Start a new archive: the header with the "not frozen" flag and a
    /// zero root position, sharing of identical samples on.
    pub fn create() -> (r: Self)
        ensures
            r@ == initial_image(),
    {
        let mut bytes: Vec<u8> = Vec::new();
        let magic = OGAWA_MAGIC;
        bytes.push(magic[0]);
        bytes.push(magic[1]);
        bytes.push(magic[2]);
        bytes.push(magic[3]);
        bytes.push(magic[4]);
        bytes.push(NOT_FROZEN_FLAG);
        bytes.push(0u8);
        bytes.push(1u8);
        let ghost head = bytes@;
        write_u64_le(&mut bytes, 0);
        assert(head =~= seq![0x4Fu8, 0x67, 0x61, 0x77, 0x61, 0x00, 0x00, 0x01]);
        let mut times: Vec<u64> = Vec::new();
        times.push(0u64);
        let identity = TimeSamplingRecord { max_sample: 0, time_per_cycle: IDENTITY_TIME_PER_CYCLE, times };
        let mut samplings: Vec<TimeSamplingRecord> = Vec::new();
        samplings.push(identity);
        assert(record_views(samplings@) =~= seq![identity_sampling()]);
        ArchiveImage { bytes, frozen: false, stored: Vec::new(), dedup_enabled: true, samplings }
    }

    /// Turn sharing of identical samples on or off.
    #[allow(non_snake_case)]
    pub fn setDedupEnabled(&mut self, enabled: bool)
        ensures
            final(self)@ == (ImageView { dedup_enabled: enabled, ..old(self)@ }),
    {
        self.dedup_enabled = enabled;
    }

    /// Whether identical samples share one data block.
    #[allow(non_snake_case)]
    pub fn isDedupEnabled(&self) -> (r: bool)
        ensures
            r == self@.dedup_enabled,
    {
        self.dedup_enabled
    }

    /// Number of samples recorded for sharing.
    pub fn dedup_count(&self) -> (r: usize)
        ensures
            r == self@.stored.len(),
    {
        self.stored.len()
    }

    /// Whether the archive has been finalized.
    pub fn is_frozen(&self) -> (r: bool)
        ensures
            r == self@.frozen,
    {
        self.frozen
    }

    /// The bytes written so far.
    pub fn bytes(&self) -> (r: &[u8])
        ensures
            r@ == self@.bytes,
    {
        self.bytes.as_slice()
    }

    /// The current end of the image: where the next block goes.
    pub fn pos(&self) -> (r: u64)
        ensures
            r == self@.bytes.len(),
    {
        self.bytes.len() as u64
    }

    /// Append a data block and return its position; an empty block is
    /// position 0 and writes nothing. Fails once the archive is frozen.
    pub fn write_data(&mut self, data: &[u8]) -> (r: Result<u64, Error>)
        requires
            fits(old(self)@.bytes.len() + data@.len() + 8),
        ensures
            old(self)@.frozen ==> (r matches Err(Error::Frozen) && final(self)@ == old(self)@),
            !old(self)@.frozen && data@.len() == 0 ==> (r == Ok::<u64, Error>(0) && final(self)@ == old(self)@),
            !old(self)@.frozen && data@.len() > 0 ==> (r == Ok::<u64, Error>(old(self)@.bytes.len() as u64)
                && final(self)@ == appended(old(self)@, data_block(data@))),
    {
        if self.frozen {
            return Err(Error::Frozen);
        }
        if data.len() == 0 {
            return Ok(0);
        }
        let pos = self.bytes.len() as u64;
        write_u64_le(&mut self.bytes, data.len() as u64);
        extend_bytes(&mut self.bytes, data);
        assert(self.bytes@ =~= old(self)@.bytes + data_block(data@));
        Ok(pos)
    }

    /// Append a group of child offsets and return its position; an empty
    /// group is position 0 and writes nothing. Fails once frozen.
    pub fn write_group(&mut self, children: &[u64]) -> (r: Result<u64, Error>)
        requires
            fits(old(self)@.bytes.len() + 8 * children@.len() + 8),
        ensures
            old(self)@.frozen ==> (r matches Err(Error::Frozen) && final(self)@ == old(self)@),
            !old(self)@.frozen && children@.len() == 0 ==> (r == Ok::<u64, Error>(0) && final(self)@
                == old(self)@),
            !old(self)@.frozen && children@.len() > 0 ==> (r == Ok::<u64, Error>(
                old(self)@.bytes.len() as u64,
            ) && final(self)@ == appended(old(self)@, group_block(children@))),
    {
        if self.frozen {
            return Err(Error::Frozen);
        }
        if children.len() == 0 {
            return Ok(0);
        }
        let pos = self.bytes.len() as u64;
        write_u64_le(&mut self.bytes, children.len() as u64);
        let ghost head = self.bytes@;
        let mut i: usize = 0;
        while i < children.len()
            invariant
                i <= children@.len(),
                head == old(self)@.bytes + le_bytes(children@.len(), 8),
                self.bytes@ == head + words(children@.subrange(0, i as int)),
                self.frozen == old(self)@.frozen,
                self.stored@ == old(self)@.stored,
                self.dedup_enabled == old(self)@.dedup_enabled,
                self.samplings@ == old(self).samplings@,
            decreases children@.len() - i,
        {
            write_u64_le(&mut self.bytes, children[i]);
            proof {
                assert(children@.subrange(0, i + 1) =~= children@.subrange(0, i as int).push(children@[i as int]));
                lemma_words_push(children@.subrange(0, i as int), children@[i as int]);
            }
            i = i + 1;
        }
        assert(children@.subrange(0, children@.len() as int) =~= children@);
        assert(self.bytes@ =~= old(self)@.bytes + group_block(children@));
        Ok(pos)
    }

    /// The position stored for key `k`, searching in storing order.
    pub fn find_stored(&self, k: ContentKey) -> (r: Option<u64>)
        ensures
            r == stored_position(self@.stored, k),
    {
        let mut i: usize = 0;
        while i < self.stored.len()
            invariant
                i <= self.stored@.len(),
                stored_position(self.stored@.subrange(0, i as int), k) is None,
            decreases self.stored@.len() - i,
        {
            let e = self.stored[i];
            proof {
                assert(self.stored@.subrange(0, i + 1) =~= self.stored@.subrange(0, i as int).push(e));
                lemma_stored_position_extend(self.stored@.subrange(0, i as int), e, k);
            }
            if e.0 == k {
                proof {
                    self.lemma_prefix_found(i as int + 1, k);
                }
                return Some(e.1);
            }
            i = i + 1;
        }
        assert(self.stored@.subrange(0, self.stored@.len() as int) =~= self.stored@);
        None
    }

    proof fn lemma_prefix_found(&self, n: int, k: ContentKey)
        requires
            0 <= n <= self.stored@.len(),
            stored_position(self.stored@.subrange(0, n), k) is Some,
        ensures
            stored_position(self.stored@, k) == stored_position(self.stored@.subrange(0, n), k),
        decreases self.stored@.len() - n,
    {
        if n < self.stored@.len() {
            let s = self.stored@;
            assert(s.subrange(0, n + 1) =~= s.subrange(0, n).push(s[n]));
            lemma_stored_position_extend(s.subrange(0, n), s[n], k);
            self.lemma_prefix_found(n + 1, k);
        } else {
            assert(self.stored@.subrange(0, n) =~= self.stored@);
        }
    }

    /// Write a sample under its key: 16 digest bytes, then the data. With
    /// sharing on, a key written before gives back the earlier position and
    /// writes nothing. An empty sample is position 0. Fails once frozen.
    pub fn write_keyed_data_with_key(&mut self, data: &[u8], key: ContentKey) -> (r: Result<u64, Error>)
        requires
            fits(old(self)@.bytes.len() + data@.len() + 24),
        ensures
            old(self)@.frozen ==> (r matches Err(Error::Frozen) && final(self)@ == old(self)@),
            !old(self)@.frozen ==> r == Ok::<u64, Error>(keyed_write(old(self)@, key, data@).1)
                && final(self)@ == keyed_write(old(self)@, key, data@).0,
    {
        if self.frozen {
            return Err(Error::Frozen);
        }
        if data.len() == 0 {
            return Ok(0);
        }
        if self.dedup_enabled {
            match self.find_stored(key) {
                Some(p) => {
                    return Ok(p);
                },
                None => {},
            }
        }
        let pos = self.bytes.len() as u64;
        write_u64_le(&mut self.bytes, data.len() as u64 + 16);
        write_u64_le(&mut self.bytes, key.digest_lo);
        write_u64_le(&mut self.bytes, key.digest_hi);
        extend_bytes(&mut self.bytes, data);
        assert(self.bytes@ =~= old(self)@.bytes + keyed_block(key, data@));
        if self.dedup_enabled {
            self.stored.push((key, pos));
        }
        Ok(pos)
    }
}


/// The file bytes after freezing: the frozen flag 0xFF at offset 5 and the
/// root group position, little-endian, at offsets 8 to 15.
pub open spec fn frozen_bytes(b: Seq<u8>, root: u64) -> Seq<u8> {
    b.subrange(0, 5) + seq![0xFFu8] + b.subrange(6, 8) + le_bytes(root as nat, 8) + b.subrange(16, b.len() as int)
}

impl ArchiveImage {
    /// Finalize the image: set the frozen flag and the root group position
    /// in the header. Nothing can be written afterwards.
    pub fn freeze(&mut self, root_pos: u64)
        requires
            old(self)@.bytes.len() >= 16,
        ensures
            final(self)@ == (ImageView {
                bytes: frozen_bytes(old(self)@.bytes, root_pos),
                frozen: true,
                ..old(self)@
            }),
    {
        let ghost b = self.bytes@;
        self.bytes.set(5, 0xFF);
        let mut v: u64 = root_pos;
        let mut i: usize = 0;
        while i < 8
            invariant
                i <= 8,
                self.bytes@.len() == b.len(),
                b.len() >= 16,
                self.samplings@ == old(self).samplings@,
                self.stored@ == old(self).stored@,
                self.dedup_enabled == old(self).dedup_enabled,
                self.frozen == old(self).frozen,
                forall|k: int| 0 <= k < b.len() && !(8 <= k < 8 + i) && k != 5 ==> #[trigger] self.bytes@[k] == b[k],
                self.bytes@[5] == 0xFF,
                le_bytes(root_pos as nat, 8) == self.bytes@.subrange(8, 8 + i as int) + le_bytes(v as nat, (8 - i) as nat),
            decreases 8 - i,
        {
            let ghost before = self.bytes@;
            self.bytes.set(8 + i, (v % 256) as u8);
            proof {
                let n = (8 - i) as nat;
                assert(le_bytes(v as nat, n) == seq![(v as nat % 256) as u8] + le_bytes(v as nat / 256, (n - 1) as nat));
                assert(self.bytes@.subrange(8, 8 + i + 1) =~= before.subrange(8, 8 + i as int).push((v % 256) as u8));
                assert(before.subrange(8, 8 + i as int) + le_bytes(v as nat, n) =~= self.bytes@.subrange(8, 8 + i + 1)
                    + le_bytes(v as nat / 256, (n - 1) as nat));
            }
            v = v / 256;
            i = i + 1;
        }
        self.frozen = true;
        proof {
            assert(le_bytes(v as nat, 0) =~= Seq::<u8>::empty());
            assert(self.bytes@.subrange(8, 16) =~= le_bytes(root_pos as nat, 8));
            assert(self.bytes@ =~= frozen_bytes(b, root_pos));
        }
    }
}

fn u64s_equal(a: &[u64], b: &[u64]) -> (r: bool)
    ensures
        r == (a@ == b@),
{
    if a.len() != b.len() {
        return false;
    }
    let mut i: usize = 0;
    while i < a.len()
        invariant
            a@.len() == b@.len(),
            i <= a@.len(),
            a@.subrange(0, i as int) == b@.subrange(0, i as int),
        decreases a@.len() - i,
    {
        if a[i] != b[i] {
            assert(a@[i as int] != b@[i as int]);
            return false;
        }
        assert(a@.subrange(0, i + 1) =~= a@.subrange(0, i as int).push(a@[i as int]));
        assert(b@.subrange(0, i + 1) =~= b@.subrange(0, i as int).push(b@[i as int]));
        i = i + 1;
    }
    assert(a@ =~= a@.subrange(0, a@.len() as int));
    assert(b@ =~= b@.subrange(0, b@.len() as int));
    true
}

proof fn lemma_sampling_index_prefix(s: Seq<(u32, u64, Seq<u64>)>, n: int, tpc: u64, times: Seq<u64>)
    requires
        0 <= n <= s.len(),
        sampling_index(s.subrange(0, n), tpc, times) is Some,
    ensures
        sampling_index(s, tpc, times) == sampling_index(s.subrange(0, n), tpc, times),
    decreases s.len() - n,
{
    if n < s.len() {
        assert(s.subrange(0, n + 1).drop_last() =~= s.subrange(0, n));
        lemma_sampling_index_prefix(s, n + 1, tpc, times);
    } else {
        assert(s.subrange(0, n) =~= s);
    }
}

impl ArchiveImage {
    /// Add a time sampling and return its index: an equal sampling already
    /// in the table (same time per cycle and times) gives its index back,
    /// else the sampling is appended with a largest sample count of 0.
    #[allow(non_snake_case)]
    pub fn addTimeSampling(&mut self, time_per_cycle: u64, times: Vec<u64>) -> (r: u32)
        requires
            old(self)@.samplings.len() < 0xFFFF_FFFF,
            times@.len() < 0x1_0000_0000,
        ensures
            r <= old(self)@.samplings.len(),
            r < old(self)@.samplings.len() ==> old(self)@.samplings[r as int].1 == time_per_cycle
                && old(self)@.samplings[r as int].2 == times@ && final(self)@ == old(self)@,
            r == old(self)@.samplings.len() ==> (forall|j: int|
                0 <= j < old(self)@.samplings.len() ==> !(#[trigger] old(self)@.samplings[j].1 == time_per_cycle
                    && old(self)@.samplings[j].2 == times@)),
            match sampling_index(old(self)@.samplings, time_per_cycle, times@) {
                Some(i) => r == i && final(self)@ == old(self)@,
                None => r == old(self)@.samplings.len() && final(self)@ == (ImageView {
                    samplings: old(self)@.samplings.push((0u32, time_per_cycle, times@)),
                    ..old(self)@
                }),
            },
    {
        proof {
            lemma_sampling_index_finds_equal(old(self)@.samplings, time_per_cycle, times@);
        }
        let ghost views = record_views(self.samplings@);
        let mut i: usize = 0;
        while i < self.samplings.len()
            invariant
                i <= self.samplings@.len(),
                views == record_views(self.samplings@),
                self@ == old(self)@,
                views.len() < 0xFFFF_FFFF,
                sampling_index(views.subrange(0, i as int), time_per_cycle, times@) is None,
            decreases self.samplings@.len() - i,
        {
            let same = self.samplings[i].time_per_cycle == time_per_cycle && u64s_equal(
                self.samplings[i].times.as_slice(),
                times.as_slice(),
            );
            proof {
                assert(views.subrange(0, i + 1).drop_last() =~= views.subrange(0, i as int));
                assert(views[i as int] == record_view(self.samplings@[i as int]));
            }
            if same {
                proof {
                    lemma_sampling_index_prefix(views, i + 1, time_per_cycle, times@);
                }
                return i as u32;
            }
            i = i + 1;
        }
        assert(views.subrange(0, views.len() as int) =~= views);
        let n = self.samplings.len() as u32;
        let rec = TimeSamplingRecord { max_sample: 0, time_per_cycle, times };
        self.samplings.push(rec);
        assert(record_views(self.samplings@) =~= views.push((0u32, time_per_cycle, rec.times@)));
        n
    }

    /// Raise the largest sample count of sampling `ts_index` to at least
    /// `num_samples`; an index outside the table changes nothing.
    pub fn update_max_samples(&mut self, ts_index: u32, num_samples: u32)
        ensures
            final(self)@ == (ImageView {
                samplings: raised_max(old(self)@.samplings, ts_index as int, num_samples),
                ..old(self)@
            }),
    {
        let idx = ts_index as usize;
        if idx < self.samplings.len() {
            let ghost views = record_views(self.samplings@);
            let old_max = self.samplings[idx].max_sample;
            let new_max = if num_samples > old_max { num_samples } else { old_max };
            let mut rec = self.samplings.remove(idx);
            rec.max_sample = new_max;
            self.samplings.insert(idx, rec);
            assert(record_views(self.samplings@) =~= raised_max(views, idx as int, num_samples));
        }
    }

    /// The time sampling at `index`, if there is one.
    #[allow(non_snake_case)]
    pub fn getTimeSampling(&self, index: usize) -> (r: Option<&TimeSamplingRecord>)
        ensures
            index < self@.samplings.len() ==> (r matches Some(t) && record_view(*t) == self@.samplings[index as int]),
            index >= self@.samplings.len() ==> r is None,
    {
        if index < self.samplings.len() {
            Some(&self.samplings[index])
        } else {
            None
        }
    }

    /// Number of time samplings in the table.
    #[allow(non_snake_case)]
    pub fn getNumTimeSamplings(&self) -> (r: usize)
        ensures
            r == self@.samplings.len(),
    {
        self.samplings.len()
    }

    /// Encode the time sampling table: for each sampling its largest sample
    /// count, time per cycle, number of times and times, little-endian.
    pub fn serialize_time_samplings(&self) -> (r: Vec<u8>)
        requires
            counts_fit(self@),
        ensures
            r@ == samplings_bytes(self@.samplings),
    {
        let ghost views = record_views(self.samplings@);
        let mut buf: Vec<u8> = Vec::new();
        let mut i: usize = 0;
        while i < self.samplings.len()
            invariant
                i <= self.samplings@.len(),
                views == record_views(self.samplings@),
                counts_fit(self@),
                buf@ == samplings_bytes(views.subrange(0, i as int)),
            decreases self.samplings@.len() - i,
        {
            let rec = &self.samplings[i];
            proof {
                assert(self@.samplings[i as int].2.len() < 0x1_0000_0000);
                assert(self@.samplings[i as int] == record_view(*rec));
            }
            let ghost before = buf@;
            write_with_hint(&mut buf, rec.max_sample, 2);
            write_u64_le(&mut buf, rec.time_per_cycle);
            write_with_hint(&mut buf, rec.times.len() as u32, 2);
            let ghost head = buf@;
            let mut k: usize = 0;
            while k < rec.times.len()
                invariant
                    k <= rec.times@.len(),
                    buf@ == head + words(rec.times@.subrange(0, k as int)),
                decreases rec.times@.len() - k,
            {
                write_u64_le(&mut buf, rec.times[k]);
                proof {
                    assert(rec.times@.subrange(0, k + 1) =~= rec.times@.subrange(0, k as int).push(rec.times@[k as int]));
                    lemma_words_push(rec.times@.subrange(0, k as int), rec.times@[k as int]);
                }
                k = k + 1;
            }
            proof {
                assert(rec.times@.subrange(0, rec.times@.len() as int) =~= rec.times@);
                assert(views[i as int] == record_view(*rec));
                assert(buf@ =~= before + sampling_bytes(views[i as int]));
                assert(views.subrange(0, i + 1) =~= views.subrange(0, i as int).push(views[i as int]));
                lemma_samplings_bytes_push(views.subrange(0, i as int), views[i as int]);
            }
            i = i + 1;
        }
        assert(views.subrange(0, views.len() as int) =~= views);
        buf
    }
}

} // verus!
