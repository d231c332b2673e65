//! The runtime handle for a claimed device and its metadata protocol.
//!
//! Every operation is expressed over a byte image of the device: a write
//! is planned and applied as plain byte-range updates, so the whole
//! protocol — slot alternation, CRC guarding, redundant head and tail
//! copies — is verified.  The unverified edge that talks to real device
//! nodes replays the same byte ranges with positioned writes.

use vstd::prelude::*;
use crate::types::{
    Sectors, SectorOffset, Device, Timespec, Uuid, DevOwnership, InvalidCause, EngineError, ts_lt,
    SECTOR_SIZE, BDA_STATIC_HDR_SECTORS, MIN_DEV_SECTORS, RESERVED_SECTORS, MAX_DEV_SECTORS,
};
use crate::checksum::{crc32_of, checksum_ieee};
use crate::sigblock::{
    SigBlock, Mda, MdaPair, sig_encode, zero_seq, zero_bytes, push_zeros, ts_before,
    valid_mda_size, spec_ownership, spec_read, lemma_sig_round_trip, SIG_MAGIC, zeroed_range,
    le64_at, le32_at,
};
use vstd::bytes::{spec_u64_to_le_bytes, spec_u32_to_le_bytes};
use crate::dec::{dec_of, u64_to_dec};

verus! {

/// `s` with `d` written at byte offset `off`.
pub open spec fn write_bytes(s: Seq<u8>, off: int, d: Seq<u8>) -> Seq<u8> {
    Seq::new(s.len(), |i: int| if off <= i < off + d.len() { d[i - off] } else { s[i] })
}

/// Write `data` into the image at byte offset `off`.
pub fn write_at(image: &mut Vec<u8>, off: usize, data: &[u8])
    requires
        off + data@.len() <= old(image)@.len(),
    ensures
        final(image)@ == write_bytes(old(image)@, off as int, data@),
{
    let n = data.len();
    let l = image.len();
    assert(off + n <= l);
    let mut i: usize = 0;
    while i < n
        invariant
            i <= n,
            n == data@.len(),
            off + n <= usize::MAX,
            off + n <= image@.len(),
            image@.len() == old(image)@.len(),
            forall|j: int| 0 <= j < off ==> image@[j] == old(image)@[j],
            forall|j: int| off <= j < off + i ==> image@[j] == data@[j - off],
            forall|j: int| off + i <= j < image@.len() ==> image@[j] == old(image)@[j],
        decreases n - i,
    {
        let b = *vstd::slice::slice_index_get(data, i);
        image[off + i] = b;
        i = i + 1;
    }
    assert(image@ =~= write_bytes(old(image)@, off as int, data@));
}

/// Copy `len` bytes out of the image, starting at byte offset `off`.
pub fn read_range(image: &Vec<u8>, off: usize, len: usize) -> (v: Vec<u8>)
    requires
        off + len <= image@.len(),
    ensures
        v@ == image@.subrange(off as int, off + len),
{
    let l = image.len();
    assert(off + len <= l);
    let mut v: Vec<u8> = Vec::new();
    let mut i: usize = 0;
    while i < len
        invariant
            i <= len,
            off + len <= usize::MAX,
            off + len <= image@.len(),
            v@.len() == i,
            forall|j: int| 0 <= j < i ==> v@[j] == image@[off + j],
        decreases len - i,
    {
        let b = image[off + i];
        v.push(b);
        i = i + 1;
    }
    assert(v@ =~= image@.subrange(off as int, off + len));
    v
}

/// The minimal persistable summary of a claimed device.
#[derive(Clone, Debug, PartialEq, Eq)]
pub struct BlockDevSave {
    pub devnode: String,
    pub total_size: Sectors,
}

/// A claimed block device: kernel identity, device-node path, and its
/// signature record.
#[derive(Clone, Debug, PartialEq, Eq)]
pub struct BlockDev {
    pub dev: Device,
    pub devnode: String,
    pub sigblock: SigBlock,
}

/// The 4096-byte static header copy holding a serialized sigblock at
/// sector 1; sectors 0 and 2 through 7 stay zero.
pub open spec fn hdr_seq(sb: SigBlock) -> Seq<u8> {
    zero_seq(512) + sig_encode(sb) + zero_seq(3072)
}

/// Byte offset of the tail static header: the last eight sectors.
pub open spec fn tail_hdr_byte(sb: SigBlock) -> int {
    (sb.total_size.0 - BDA_STATIC_HDR_SECTORS) * SECTOR_SIZE
}

/// Byte offset of a slot within the head metadata area.
pub open spec fn head_slot_byte(slot: Mda) -> int {
    (BDA_STATIC_HDR_SECTORS + slot.offset.0) * SECTOR_SIZE
}

/// Byte offset of a slot within the tail metadata area, which ends where
/// the tail static header begins.
pub open spec fn tail_slot_byte(sb: SigBlock, slot: Mda) -> int {
    (sb.total_size.0 - BDA_STATIC_HDR_SECTORS - sb.mda_sectors.0 + slot.offset.0) * SECTOR_SIZE
}

impl SigBlock {
    /// Whether the next metadata write lands in the second slot.
    pub open spec fn target_is_b(self) -> bool {
        !self.mda.most_recent_is_b()
    }

    /// The slot the next metadata write overwrites.
    pub open spec fn target_slot(self) -> Mda {
        if self.target_is_b() {
            self.mda.mdab
        } else {
            self.mda.mdaa
        }
    }

    /// The record after a metadata write of `used` bytes with checksum
    /// `crc` at time `t`: the least recently updated slot is replaced.
    pub open spec fn with_slot_written(self, t: Timespec, crc: u32, used: u32) -> SigBlock {
        let slot = Mda { offset: self.target_slot().offset, used, crc, last_updated: t };
        SigBlock {
            mda: if self.target_is_b() {
                MdaPair { mdaa: self.mda.mdaa, mdab: slot }
            } else {
                MdaPair { mdaa: slot, mdab: self.mda.mdab }
            },
            ..self
        }
    }
}

/// Both header copies rewritten with the serialized record.
pub open spec fn spec_write_sigblock(sb: SigBlock, img: Seq<u8>) -> Seq<u8> {
    write_bytes(write_bytes(img, 0, hdr_seq(sb)), tail_hdr_byte(sb), hdr_seq(sb))
}

/// Both header copies overwritten with zeros.
pub open spec fn spec_wipe_sigblock(sb: SigBlock, img: Seq<u8>) -> Seq<u8> {
    write_bytes(write_bytes(img, 0, zero_seq(4096)), tail_hdr_byte(sb), zero_seq(4096))
}

/// The payload written to the target slot's position in both metadata
/// areas.
pub open spec fn spec_write_mdax_image(sb: SigBlock, img: Seq<u8>, m: Seq<u8>) -> Seq<u8> {
    write_bytes(
        write_bytes(img, head_slot_byte(sb.target_slot()), m),
        tail_slot_byte(sb, sb.target_slot()),
        m,
    )
}

/// What `read_mdax` returns for a record and an image: the most recent
/// slot's payload, read from the head metadata area and checked against
/// the stored CRC.
pub open spec fn spec_read_mdax(sb: SigBlock, img: Seq<u8>) -> Result<Seq<u8>, InvalidCause> {
    let slot = if sb.mda.most_recent_is_b() {
        sb.mda.mdab
    } else {
        sb.mda.mdaa
    };
    if slot.last_updated == (Timespec { sec: 0, nsec: 0 }) {
        Err(InvalidCause::NoMdaWritten)
    } else {
        let bytes = img.subrange(head_slot_byte(slot), head_slot_byte(slot) + slot.used);
        if crc32_of(bytes) == slot.crc {
            Ok(bytes)
        } else {
            Err(InvalidCause::MdaCrcMismatch)
        }
    }
}

/// The record and image after `save_state`: the stale slot overwritten
/// with the payload, then both header copies rewritten to make it current.
pub open spec fn spec_save_state(sb: SigBlock, img: Seq<u8>, t: Timespec, m: Seq<u8>) -> (
    SigBlock,
    Seq<u8>,
) {
    let sb2 = sb.with_slot_written(t, crc32_of(m), m.len() as u32);
    let img2 = spec_write_mdax_image(sb, img, m);
    (sb2, spec_write_sigblock(sb2, img2))
}

impl BlockDev {
    /// The record's invariant.
    pub open spec fn well_formed(self) -> bool {
        self.sigblock.well_formed()
    }

    /// An image has one byte per sector of the device.
    pub open spec fn image_fits(self, img: Seq<u8>) -> bool {
        img.len() == self.sigblock.total_size.0 * SECTOR_SIZE
    }

    /// The persistable summary: device-node path and total size.
    pub fn to_save(&self) -> (s: BlockDevSave)
        ensures
            s.devnode@ == self.devnode@,
            s.total_size == self.sigblock.total_size,
    {
        BlockDevSave { devnode: self.devnode.clone(), total_size: self.sigblock.total_size }
    }

    /// The "major:minor" device identity string.
    pub fn dstr(&self) -> (s: String)
        ensures
            s@ == dec_of(self.dev.major as nat) + seq![':'] + dec_of(self.dev.minor as nat),
    {
        let mut s = u64_to_dec(self.dev.major);
        proof {
            reveal_strlit(":");
        }
        assert(":"@ =~= seq![':']);
        s.append(":");
        let minor = u64_to_dec(self.dev.minor);
        s.append(minor.as_str());
        s
    }

    /// Size in sectors of the block-device area at the head of the device:
    /// static header, metadata area, and reserved space.
    pub fn main_bda_size(&self) -> (r: Sectors)
        requires
            self.well_formed(),
        ensures
            r.0 == BDA_STATIC_HDR_SECTORS + self.sigblock.mda_sectors.0
                + self.sigblock.reserved_sectors.0,
    {
        Sectors(
            BDA_STATIC_HDR_SECTORS + self.sigblock.mda_sectors.0 + self.sigblock.reserved_sectors.0,
        )
    }

    /// Size in sectors of the copy at the tail of the device: static
    /// header and metadata area.
    pub fn aux_bda_size(&self) -> (r: Sectors)
        requires
            self.well_formed(),
        ensures
            r.0 == BDA_STATIC_HDR_SECTORS + self.sigblock.mda_sectors.0,
    {
        Sectors(BDA_STATIC_HDR_SECTORS + self.sigblock.mda_sectors.0)
    }

    /// The sector range available to upper layers: everything between the
    /// head and tail block-device areas.  The subtraction is proved safe
    /// by the record's invariant, so the length never underflows.
    pub fn avail_range(&self) -> (r: (SectorOffset, Sectors))
        requires
            self.well_formed(),
        ensures
            r.0.0 == BDA_STATIC_HDR_SECTORS + self.sigblock.mda_sectors.0
                + self.sigblock.reserved_sectors.0,
            r.1.0 == self.sigblock.total_size.0 - r.0.0 - (BDA_STATIC_HDR_SECTORS
                + self.sigblock.mda_sectors.0),
            r.0.0 + r.1.0 + BDA_STATIC_HDR_SECTORS + self.sigblock.mda_sectors.0
                == self.sigblock.total_size.0,
    {
        let start = self.main_bda_size();
        let aux = self.aux_bda_size();
        let length = self.sigblock.total_size.0 - start.0 - aux.0;
        (SectorOffset(start.0), Sectors(length))
    }

    /// Serialize the signature record and write it to sector 1 of both the
    /// head and the tail static header; the other header sectors are
    /// zeroed.
    pub fn write_sigblock(&self, image: &mut Vec<u8>)
        requires
            self.well_formed(),
            self.image_fits(old(image)@),
        ensures
            final(image)@ == spec_write_sigblock(self.sigblock, old(image)@),
    {
        let hdr = self.sigblock_header();
        let n = image.len();
        let total = self.sigblock.total_size.0;
        let tail: u64 = (total - BDA_STATIC_HDR_SECTORS) * SECTOR_SIZE;
        proof {
            assert(n == total * SECTOR_SIZE);
            assert(tail + 4096 == n);
            assert(4096 <= n);
        }
        write_at(image, 0, hdr.as_slice());
        write_at(image, tail as usize, hdr.as_slice());
    }

    /// Overwrite both static header copies with zeros, reverting the
    /// device to an unowned-detectable state.  Metadata-area payloads are
    /// not erased.
    pub fn wipe_sigblock(&self, image: &mut Vec<u8>)
        requires
            self.well_formed(),
            self.image_fits(old(image)@),
        ensures
            final(image)@ == spec_wipe_sigblock(self.sigblock, old(image)@),
    {
        let hdr = zero_bytes(4096);
        let n = image.len();
        let total = self.sigblock.total_size.0;
        let tail: u64 = (total - BDA_STATIC_HDR_SECTORS) * SECTOR_SIZE;
        proof {
            assert(n == total * SECTOR_SIZE);
            assert(tail + 4096 == n);
            assert(4096 <= n);
        }
        write_at(image, 0, hdr.as_slice());
        write_at(image, tail as usize, hdr.as_slice());
    }

    /// Write a metadata payload to the least recently updated slot, in
    /// both the head and the tail metadata area, and account for it in the
    /// in-memory record.  Rejected if the payload exceeds one slot's
    /// capacity; the record and image are then unchanged.
    pub fn write_mdax(&mut self, image: &mut Vec<u8>, time: &Timespec, metadata: &[u8]) -> (r:
        Result<(), EngineError>)
        requires
            old(self).well_formed(),
            old(self).image_fits(old(image)@),
        ensures
            final(self).dev == old(self).dev,
            final(self).devnode == old(self).devnode,
            match r {
                Ok(()) => {
                    &&& metadata@.len() <= old(self).sigblock.spec_mda_capacity()
                    &&& final(self).sigblock == old(self).sigblock.with_slot_written(
                        *time,
                        crc32_of(metadata@),
                        metadata@.len() as u32,
                    )
                    &&& final(image)@ == spec_write_mdax_image(
                        old(self).sigblock,
                        old(image)@,
                        metadata@,
                    )
                },
                Err(e) => {
                    &&& metadata@.len() > old(self).sigblock.spec_mda_capacity()
                    &&& e == EngineError::Invalid(
                        InvalidCause::MetadataTooLarge { len: metadata@.len() as usize },
                    )
                    &&& *final(self) == *old(self)
                    &&& final(image)@ == old(image)@
                },
            },
    {
        let planned = self.record_mdax(time, metadata);
        let (head, tail) = match planned {
            Err(e) => {
                return Err(e);
            },
            Ok(offs) => offs,
        };
        let n = image.len();
        proof {
            let sb = old(self).sigblock;
            assert(n == sb.total_size.0 * SECTOR_SIZE);
            assert(head + metadata@.len() <= (BDA_STATIC_HDR_SECTORS + sb.mda_sectors.0)
                * SECTOR_SIZE <= n);
            assert(tail + metadata@.len() <= (sb.total_size.0 - BDA_STATIC_HDR_SECTORS)
                * SECTOR_SIZE <= n);
        }
        write_at(image, head as usize, metadata);
        write_at(image, tail as usize, metadata);
        Ok(())
    }

    /// Account for a metadata write in the in-memory record and hand back
    /// the two byte offsets — head and tail metadata area — at which the
    /// payload must land on the device.  Rejected if the payload exceeds
    /// one slot's capacity; the record is then unchanged.
    pub fn record_mdax(&mut self, time: &Timespec, metadata: &[u8]) -> (r: Result<
        (u64, u64),
        EngineError,
    >)
        requires
            old(self).well_formed(),
        ensures
            final(self).dev == old(self).dev,
            final(self).devnode == old(self).devnode,
            final(self).well_formed(),
            match r {
                Ok((head, tail)) => {
                    &&& metadata@.len() <= old(self).sigblock.spec_mda_capacity()
                    &&& final(self).sigblock == old(self).sigblock.with_slot_written(
                        *time,
                        crc32_of(metadata@),
                        metadata@.len() as u32,
                    )
                    &&& head == head_slot_byte(old(self).sigblock.target_slot())
                    &&& tail == tail_slot_byte(old(self).sigblock, old(self).sigblock.target_slot())
                    &&& head + metadata@.len() <= (BDA_STATIC_HDR_SECTORS
                        + old(self).sigblock.mda_sectors.0) * SECTOR_SIZE
                    &&& tail + metadata@.len() <= (old(self).sigblock.total_size.0
                        - BDA_STATIC_HDR_SECTORS) * SECTOR_SIZE
                },
                Err(e) => {
                    &&& metadata@.len() > old(self).sigblock.spec_mda_capacity()
                    &&& e == EngineError::Invalid(
                        InvalidCause::MetadataTooLarge { len: metadata@.len() as usize },
                    )
                    &&& *final(self) == *old(self)
                },
            },
    {
        let capacity = self.sigblock.mda_capacity();
        if metadata.len() > capacity as usize {
            return Err(
                EngineError::Invalid(InvalidCause::MetadataTooLarge { len: metadata.len() }),
            );
        }
        let use_b = !ts_before(
            &self.sigblock.mda.mdaa.last_updated,
            &self.sigblock.mda.mdab.last_updated,
        );
        let offset = if use_b {
            self.sigblock.mda.mdab.offset.0
        } else {
            self.sigblock.mda.mdaa.offset.0
        };
        let crc = checksum_ieee(metadata);
        let used = metadata.len() as u32;
        let slot = Mda {
            offset: SectorOffset(offset),
            used,
            crc,
            last_updated: Timespec { sec: time.sec, nsec: time.nsec },
        };
        if use_b {
            self.sigblock.mda.mdab = slot;
        } else {
            self.sigblock.mda.mdaa = slot;
        }
        let total = self.sigblock.total_size.0;
        let mda = self.sigblock.mda_sectors.0;
        proof {
            assert(offset <= mda / 2);
            assert(metadata@.len() <= (mda / 2) * SECTOR_SIZE);
        }
        let head: u64 = (BDA_STATIC_HDR_SECTORS + offset) * SECTOR_SIZE;
        let tail: u64 = (total - BDA_STATIC_HDR_SECTORS - mda + offset) * SECTOR_SIZE;
        Ok((head, tail))
    }

    /// The 4096-byte static header that persists the current record: a
    /// zero sector, the signature sector, six zero sectors.
    pub fn sigblock_header(&self) -> (h: Vec<u8>)
        requires
            self.well_formed(),
        ensures
            h@ == hdr_seq(self.sigblock),
            h@.len() == 4096,
    {
        let mut hdr = zero_bytes(512);
        let mut sig = self.sigblock.write();
        hdr.append(&mut sig);
        push_zeros(&mut hdr, 3072);
        assert(hdr@ =~= hdr_seq(self.sigblock));
        hdr
    }

    /// The byte offsets of the two static header copies: the head of the
    /// device and its last eight sectors.
    pub fn hdr_byte_offsets(&self) -> (r: (u64, u64))
        requires
            self.well_formed(),
        ensures
            r.0 == 0,
            r.1 == tail_hdr_byte(self.sigblock),
            r.1 + 4096 == self.sigblock.total_size.0 * SECTOR_SIZE,
    {
        let total = self.sigblock.total_size.0;
        (0, (total - BDA_STATIC_HDR_SECTORS) * SECTOR_SIZE)
    }

    /// Where the most recently written payload lies: its byte offset in
    /// the head metadata area and its length.  Fails if neither slot was
    /// ever written.
    pub fn read_mdax_plan(&self) -> (r: Result<(u64, u32), EngineError>)
        requires
            self.well_formed(),
        ensures
            ({
                let slot = if self.sigblock.mda.most_recent_is_b() {
                    self.sigblock.mda.mdab
                } else {
                    self.sigblock.mda.mdaa
                };
                match r {
                    Ok((off, len)) => {
                        &&& slot.last_updated != (Timespec { sec: 0, nsec: 0 })
                        &&& off == head_slot_byte(slot)
                        &&& len == slot.used
                        &&& off + len <= self.sigblock.total_size.0 * SECTOR_SIZE
                    },
                    Err(e) => {
                        &&& slot.last_updated == (Timespec { sec: 0, nsec: 0 })
                        &&& e == EngineError::Invalid(InvalidCause::NoMdaWritten)
                    },
                }
            }),
    {
        let younger = self.sigblock.mda.most_recent();
        if younger.last_updated.sec == 0 && younger.last_updated.nsec == 0 {
            return Err(EngineError::Invalid(InvalidCause::NoMdaWritten));
        }
        let off: u64 = (BDA_STATIC_HDR_SECTORS + younger.offset.0) * SECTOR_SIZE;
        Ok((off, younger.used))
    }

    /// Check a payload read back from the device against the most recent
    /// slot's bookkeeping: exactly the recorded length, and the recorded
    /// checksum.
    pub fn verify_mdax(&self, buf: Vec<u8>) -> (r: Result<Vec<u8>, EngineError>)
        requires
            self.well_formed(),
        ensures
            ({
                let slot = if self.sigblock.mda.most_recent_is_b() {
                    self.sigblock.mda.mdab
                } else {
                    self.sigblock.mda.mdaa
                };
                match r {
                    Ok(v) => {
                        &&& v@ == buf@
                        &&& buf@.len() == slot.used
                        &&& crc32_of(buf@) == slot.crc
                    },
                    Err(e) => {
                        &&& (buf@.len() != slot.used || crc32_of(buf@) != slot.crc)
                        &&& e == EngineError::Invalid(InvalidCause::MdaCrcMismatch)
                    },
                }
            }),
    {
        let younger = self.sigblock.mda.most_recent();
        if buf.len() != younger.used as usize {
            return Err(EngineError::Invalid(InvalidCause::MdaCrcMismatch));
        }
        let computed = checksum_ieee(buf.as_slice());
        if computed != younger.crc {
            return Err(EngineError::Invalid(InvalidCause::MdaCrcMismatch));
        }
        Ok(buf)
    }

    /// Decide the record's invariant at run time, for callers outside the
    /// verified world that must guard a call.
    pub fn check_well_formed(&self) -> (r: bool)
        ensures
            r == self.well_formed(),
    {
        let sb = &self.sigblock;
        let mda = sb.mda_sectors.0;
        if !(mda % 2 == 0 && crate::types::MIN_MDA_SECTORS <= mda && mda
            <= crate::types::MAX_MDA_SECTORS) {
            return false;
        }
        let capacity: u64 = (mda / 2) * SECTOR_SIZE;
        sb.reserved_sectors.0 == RESERVED_SECTORS && sb.total_size.0 <= MAX_DEV_SECTORS && 2
            * BDA_STATIC_HDR_SECTORS + 2 * mda + sb.reserved_sectors.0 <= sb.total_size.0
            && sb.mda.mdaa.offset.0 == 0 && sb.mda.mdab.offset.0 == mda / 2 && (sb.mda.mdaa.used
            as u64) <= capacity && (sb.mda.mdab.used as u64) <= capacity
    }

    /// Read the most recently written metadata payload from the head
    /// metadata area and verify it against the stored CRC.  Fails if
    /// neither slot was ever written, or on a checksum mismatch.
    pub fn read_mdax(&self, image: &Vec<u8>) -> (r: Result<Vec<u8>, EngineError>)
        requires
            self.well_formed(),
            self.image_fits(image@),
        ensures
            match (r, spec_read_mdax(self.sigblock, image@)) {
                (Ok(v), Ok(b)) => v@ == b,
                (Err(e), Err(c)) => e == EngineError::Invalid(c),
                _ => false,
            },
    {
        let younger = self.sigblock.mda.most_recent();
        let offset = younger.offset.0;
        let used = younger.used;
        let crc = younger.crc;
        if younger.last_updated.sec == 0 && younger.last_updated.nsec == 0 {
            return Err(EngineError::Invalid(InvalidCause::NoMdaWritten));
        }
        let head: u64 = (BDA_STATIC_HDR_SECTORS + offset) * SECTOR_SIZE;
        let buf = read_range(image, head as usize, used as usize);
        let computed = checksum_ieee(buf.as_slice());
        if computed != crc {
            return Err(EngineError::Invalid(InvalidCause::MdaCrcMismatch));
        }
        Ok(buf)
    }

    /// Persist a new metadata payload: write it to the stale slot, then
    /// rewrite the signature block to mark that slot current.  The order
    /// is the crash-safety contract — until the header is rewritten, the
    /// previous slot remains the one a reader selects.
    pub fn save_state(&mut self, image: &mut Vec<u8>, time: &Timespec, metadata: &[u8]) -> (r:
        Result<(), EngineError>)
        requires
            old(self).well_formed(),
            old(self).image_fits(old(image)@),
        ensures
            final(self).dev == old(self).dev,
            final(self).devnode == old(self).devnode,
            match r {
                Ok(()) => {
                    &&& metadata@.len() <= old(self).sigblock.spec_mda_capacity()
                    &&& (final(self).sigblock, final(image)@) == spec_save_state(
                        old(self).sigblock,
                        old(image)@,
                        *time,
                        metadata@,
                    )
                },
                Err(e) => {
                    &&& metadata@.len() > old(self).sigblock.spec_mda_capacity()
                    &&& e == EngineError::Invalid(
                        InvalidCause::MetadataTooLarge { len: metadata@.len() as usize },
                    )
                    &&& *final(self) == *old(self)
                    &&& final(image)@ == old(image)@
                },
            },
    {
        let res = self.write_mdax(image, time, metadata);
        match res {
            Ok(()) => {
                self.write_sigblock(image);
                Ok(())
            },
            Err(e) => Err(e),
        }
    }
}

/// Timestamp ordering is transitive.
pub proof fn lemma_ts_lt_trans(a: Timespec, b: Timespec, c: Timespec)
    requires
        ts_lt(a, b),
        ts_lt(b, c),
    ensures
        ts_lt(a, c),
{
}

/// A device of the minimum admitted size accommodates every acceptable
/// metadata-area size: the freshly constructed record is well formed, and
/// the available range's length never underflows.
pub proof fn lemma_min_dev_fits_any_valid_mda(pool: Uuid, dev: Uuid, mda: u64)
    requires
        valid_mda_size(mda),
    ensures
        SigBlock::spec_new(pool, dev, Sectors(mda), Sectors(MIN_DEV_SECTORS)).well_formed(),
        (BDA_STATIC_HDR_SECTORS + mda + crate::types::RESERVED_SECTORS) + (BDA_STATIC_HDR_SECTORS
            + mda) <= MIN_DEV_SECTORS,
{
}

/// A header written by `write_sigblock` is discoverable: the ownership
/// classifier names the owning pool, and parsing the signature sector
/// recovers the record intact.
pub proof fn lemma_written_sigblock_is_discoverable(sb: SigBlock, img: Seq<u8>)
    requires
        sb.well_formed(),
        img.len() == sb.total_size.0 * SECTOR_SIZE,
    ensures
        ({
            let hdr = spec_write_sigblock(sb, img).subrange(0, 4096);
            &&& spec_ownership(hdr) == Some(DevOwnership::Ours(sb.pool_uuid))
            &&& spec_read(hdr, 512, sb.total_size) == Some(sb)
        }),
{
    vstd::bytes::lemma_auto_spec_u64_to_from_le_bytes();
    vstd::bytes::lemma_auto_spec_u32_to_from_le_bytes();
    lemma_sig_round_trip(sb);
    let e = sig_encode(sb);
    let f = crate::sigblock::sig_fields(sb);
    let h = hdr_seq(sb);
    assert(e.len() == 512);
    assert(h.len() == 4096);
    let img2 = spec_write_sigblock(sb, img);
    let total = sb.total_size.0;
    assert(tail_hdr_byte(sb) >= 4096);
    let hdr = img2.subrange(0, 4096);
    assert(hdr =~= h);
    assert(h.subrange(512, 1024) =~= e);
    assert(hdr.subrange(512, 1024) == e);
    // The magic's first byte shows the header is not all zero.
    vstd::bytes::spec_u64_to_le_bytes_to_open(SIG_MAGIC);
    assert(spec_u64_to_le_bytes(SIG_MAGIC)[0] == (SIG_MAGIC & 0xff) as u8);
    assert(SIG_MAGIC & 0xff == 0x21) by (bit_vector);
    assert(e[4] == spec_u64_to_le_bytes(SIG_MAGIC)[0]);
    assert(hdr[516] == e[4]);
    assert(hdr[516] != 0);
    assert(!zeroed_range(hdr, 0, 4096));
    assert(hdr.subrange(516, 524) =~= e.subrange(4, 12));
    assert(le64_at(hdr, 516) == SIG_MAGIC);
    assert(hdr.subrange(516, 636) =~= e.subrange(4, 124));
    assert(e.subrange(4, 124) =~= f);
    assert(hdr.subrange(512, 516) =~= e.subrange(0, 4));
    assert(e.subrange(0, 4) =~= spec_u32_to_le_bytes(crc32_of(f)));
    assert(le32_at(hdr, 512) == crc32_of(hdr.subrange(516, 636)));
    assert(hdr.subrange(524, 532) =~= e.subrange(12, 20));
    assert(e.subrange(12, 20) =~= spec_u64_to_le_bytes(sb.pool_uuid.hi));
    assert(le64_at(hdr, 524) == sb.pool_uuid.hi);
    assert(hdr.subrange(532, 540) =~= e.subrange(20, 28));
    assert(e.subrange(20, 28) =~= spec_u64_to_le_bytes(sb.pool_uuid.lo));
    assert(le64_at(hdr, 532) == sb.pool_uuid.lo);
    assert(spec_ownership(hdr) == Some(DevOwnership::Ours(sb.pool_uuid)));
}

/// Saving then reading returns the payload just written, byte for byte,
/// for any payload within slot capacity, provided time moved forward.
pub proof fn lemma_save_then_read(sb: SigBlock, img: Seq<u8>, t: Timespec, m: Seq<u8>)
    requires
        sb.well_formed(),
        img.len() == sb.total_size.0 * SECTOR_SIZE,
        m.len() <= sb.spec_mda_capacity(),
        ts_lt(sb.mda.mdaa.last_updated, t),
        ts_lt(sb.mda.mdab.last_updated, t),
    ensures
        ({
            let (sb2, img2) = spec_save_state(sb, img, t, m);
            &&& sb2.well_formed()
            &&& img2.len() == img.len()
            &&& sb2.mda.most_recent_is_b() == sb.target_is_b()
            &&& spec_read_mdax(sb2, img2) == Ok::<Seq<u8>, InvalidCause>(m)
        }),
{
    vstd::bytes::lemma_auto_spec_u64_to_from_le_bytes();
    vstd::bytes::lemma_auto_spec_u32_to_from_le_bytes();
    let (sb2, img2) = spec_save_state(sb, img, t, m);
    let total = sb.total_size.0;
    let mda = sb.mda_sectors.0;
    let target = sb.target_slot();
    let written = Mda {
        offset: target.offset,
        used: m.len() as u32,
        crc: crc32_of(m),
        last_updated: t,
    };
    assert(sb2.well_formed());
    // The written slot is now the most recent one.
    assert(sb2.mda.most_recent_is_b() == sb.target_is_b());
    let slot = if sb2.mda.most_recent_is_b() {
        sb2.mda.mdab
    } else {
        sb2.mda.mdaa
    };
    assert(slot == written);
    assert(slot.last_updated != (Timespec { sec: 0, nsec: 0 }));
    // The head copy of the payload is untouched by the later writes.
    let hb = head_slot_byte(slot);
    let img_m = spec_write_mdax_image(sb, img, m);
    assert(sig_encode(sb2).len() == 512);
    assert(hdr_seq(sb2).len() == 4096);
    assert(hb == head_slot_byte(target));
    assert(target.offset.0 <= mda / 2);
    assert(hb + m.len() <= (BDA_STATIC_HDR_SECTORS + mda) * SECTOR_SIZE);
    assert((BDA_STATIC_HDR_SECTORS + mda) * SECTOR_SIZE <= tail_slot_byte(sb, target));
    assert(tail_hdr_byte(sb2) == (total - BDA_STATIC_HDR_SECTORS) * SECTOR_SIZE);
    assert(hb + m.len() <= tail_hdr_byte(sb2));
    assert(hb >= 4096);
    assert(img_m.len() == img.len());
    assert(img2.len() == img.len());
    assert forall|i: int| hb <= i < hb + m.len() implies img2[i] == m[i - hb] by {
        assert(img_m[i] == m[i - hb]);
    }
    let bytes = img2.subrange(hb, hb + slot.used);
    assert(bytes =~= m);
    assert(crc32_of(bytes) == slot.crc);
    assert(spec_read_mdax(sb2, img2) == Ok::<Seq<u8>, InvalidCause>(m));
}

/// Two consecutive saves alternate between the two slots, and after each
/// one the reader returns exactly the payload most recently written.
pub proof fn lemma_save_state_alternates(
    sb: SigBlock,
    img: Seq<u8>,
    t1: Timespec,
    m1: Seq<u8>,
    t2: Timespec,
    m2: Seq<u8>,
)
    requires
        sb.well_formed(),
        img.len() == sb.total_size.0 * SECTOR_SIZE,
        m1.len() <= sb.spec_mda_capacity(),
        m2.len() <= sb.spec_mda_capacity(),
        ts_lt(sb.mda.mdaa.last_updated, t1),
        ts_lt(sb.mda.mdab.last_updated, t1),
        ts_lt(t1, t2),
    ensures
        ({
            let (sb1, img1) = spec_save_state(sb, img, t1, m1);
            let (sb2, img2) = spec_save_state(sb1, img1, t2, m2);
            &&& sb1.target_is_b() != sb.target_is_b()
            &&& spec_read_mdax(sb1, img1) == Ok::<Seq<u8>, InvalidCause>(m1)
            &&& spec_read_mdax(sb2, img2) == Ok::<Seq<u8>, InvalidCause>(m2)
        }),
{
    let (sb1, img1) = spec_save_state(sb, img, t1, m1);
    lemma_save_then_read(sb, img, t1, m1);
    assert(sb1.target_is_b() != sb.target_is_b());
    if sb.target_is_b() {
        lemma_ts_lt_trans(sb.mda.mdaa.last_updated, t1, t2);
    } else {
        lemma_ts_lt_trans(sb.mda.mdab.last_updated, t1, t2);
    }
    assert(sb1.mda_sectors == sb.mda_sectors);
    assert(sb1.spec_mda_capacity() == sb.spec_mda_capacity());
    lemma_save_then_read(sb1, img1, t2, m2);
}

} // verus!
