//! The signature record ("sigblock"): the authoritative on-disk descriptor
//! of a claimed device, with its byte codec and the ownership classifier.
//!
//! The record is serialized into one sector.  Byte offsets within that
//! sector: a CRC-32 of the remainder of the used region at 0, a magic word
//! at 4, the pool and device identifiers at 12 and 28, the device size in
//! sectors at 44, the metadata-area and reserved sizes at 52 and 60, and
//! the two metadata-slot descriptors at 68 and 96; bytes 124 to 512 are
//! zero padding.

use vstd::prelude::*;
use vstd::bytes::*;
use vstd::slice::slice_subrange;
use crate::types::{
    Sectors, SectorOffset, Uuid, Timespec, DevOwnership, InvalidCause, ts_lt, SECTOR_SIZE,
    BDA_STATIC_HDR_SECTORS, MIN_MDA_SECTORS, MAX_MDA_SECTORS, RESERVED_SECTORS, MIN_DEV_SECTORS,
    MAX_DEV_SECTORS,
};
use crate::checksum::{crc32_of, checksum_ieee};

verus! {

/// The magic word that marks a sigblock, as a little-endian machine word.
pub const SIG_MAGIC: u64 = 0x7369746172745321;

/// One metadata-area slot descriptor.
#[derive(Clone, Copy, PartialEq, Eq, Structural, Debug)]
pub struct Mda {
    /// Sector offset of the slot within its metadata area.
    pub offset: SectorOffset,
    /// Bytes actually written by the last update.
    pub used: u32,
    /// CRC-32 of the last written payload.
    pub crc: u32,
    /// When the slot was last written; zero means never.
    pub last_updated: Timespec,
}

/// The pair of alternating metadata-area slots.
#[derive(Clone, Copy, PartialEq, Eq, Structural, Debug)]
pub struct MdaPair {
    pub mdaa: Mda,
    pub mdab: Mda,
}

impl MdaPair {
    /// Whether the second slot is the most recently written one.  On a tie
    /// the first slot counts as most recent.
    pub open spec fn most_recent_is_b(self) -> bool {
        ts_lt(self.mdaa.last_updated, self.mdab.last_updated)
    }

    /// The slot holding the newest payload.
    pub fn most_recent(&self) -> (m: &Mda)
        ensures
            *m == if self.most_recent_is_b() {
                self.mdab
            } else {
                self.mdaa
            },
    {
        if ts_before(&self.mdaa.last_updated, &self.mdab.last_updated) {
            &self.mdab
        } else {
            &self.mdaa
        }
    }

    /// The slot to overwrite next: always the other one than `most_recent`.
    pub fn least_recent(&self) -> (m: &Mda)
        ensures
            *m == if self.most_recent_is_b() {
                self.mdaa
            } else {
                self.mdab
            },
    {
        if ts_before(&self.mdaa.last_updated, &self.mdab.last_updated) {
            &self.mdaa
        } else {
            &self.mdab
        }
    }
}

/// Compare two timestamps.
pub fn ts_before(a: &Timespec, b: &Timespec) -> (r: bool)
    ensures
        r == ts_lt(*a, *b),
{
    a.sec < b.sec || (a.sec == b.sec && a.nsec < b.nsec)
}

/// A metadata-area size is acceptable when it splits into two equal slots
/// and lies within the format's bounds.
pub open spec fn valid_mda_size(mda: u64) -> bool {
    &&& mda % 2 == 0
    &&& MIN_MDA_SECTORS <= mda
    &&& mda <= MAX_MDA_SECTORS
}

/// Check a requested metadata-area size; `None` means acceptable.
pub fn validate_mda_size(size: Sectors) -> (r: Option<InvalidCause>)
    ensures
        r is None <==> valid_mda_size(size.0),
        size.0 % 2 != 0 ==> r == Some(InvalidCause::MdaSizeOdd { mda_size: size.0 }),
        size.0 % 2 == 0 && size.0 < MIN_MDA_SECTORS ==> r == Some(
            InvalidCause::MdaSizeTooSmall { mda_size: size.0 },
        ),
        size.0 % 2 == 0 && size.0 > MAX_MDA_SECTORS ==> r == Some(
            InvalidCause::MdaSizeTooLarge { mda_size: size.0 },
        ),
{
    if size.0 % 2 != 0 {
        Some(InvalidCause::MdaSizeOdd { mda_size: size.0 })
    } else if size.0 < MIN_MDA_SECTORS {
        Some(InvalidCause::MdaSizeTooSmall { mda_size: size.0 })
    } else if size.0 > MAX_MDA_SECTORS {
        Some(InvalidCause::MdaSizeTooLarge { mda_size: size.0 })
    } else {
        None
    }
}

/// Any device at least `MIN_DEV_SECTORS` long can hold two static headers,
/// two metadata areas of any acceptable size, and the reserved space.
pub proof fn lemma_valid_mda_fits_min_dev(mda: u64)
    requires
        valid_mda_size(mda),
    ensures
        2 * BDA_STATIC_HDR_SECTORS + 2 * mda + RESERVED_SECTORS <= MIN_DEV_SECTORS,
{
}

/// The signature record.
#[derive(Clone, Copy, PartialEq, Eq, Structural, Debug)]
pub struct SigBlock {
    pub pool_uuid: Uuid,
    pub dev_uuid: Uuid,
    /// Total device size in sectors.
    pub total_size: Sectors,
    /// Size of each metadata area in sectors (both slots together).
    pub mda_sectors: Sectors,
    /// Statically reserved sectors after the head metadata area.
    pub reserved_sectors: Sectors,
    pub mda: MdaPair,
}

impl SigBlock {
    /// Capacity in bytes of one metadata slot.
    pub open spec fn spec_mda_capacity(self) -> u32 {
        ((self.mda_sectors.0 / 2) * SECTOR_SIZE) as u32
    }

    /// Capacity in bytes of one metadata slot.
    pub fn mda_capacity(&self) -> (r: u32)
        requires
            self.well_formed(),
        ensures
            r == self.spec_mda_capacity(),
    {
        ((self.mda_sectors.0 / 2) * SECTOR_SIZE) as u32
    }

    /// The record's internal invariant: an acceptable metadata-area size,
    /// the fixed reserved size, a device large enough for both header
    /// copies, slots at their fixed offsets, and slot usage within
    /// capacity.
    pub open spec fn well_formed(self) -> bool {
        &&& valid_mda_size(self.mda_sectors.0)
        &&& self.reserved_sectors.0 == RESERVED_SECTORS
        &&& self.total_size.0 <= MAX_DEV_SECTORS
        &&& 2 * BDA_STATIC_HDR_SECTORS + 2 * self.mda_sectors.0 + self.reserved_sectors.0
            <= self.total_size.0
        &&& self.mda.mdaa.offset.0 == 0
        &&& self.mda.mdab.offset.0 == self.mda_sectors.0 / 2
        &&& self.mda.mdaa.used <= self.spec_mda_capacity()
        &&& self.mda.mdab.used <= self.spec_mda_capacity()
    }

    /// The record a fresh claim writes: never-written slots at the fixed
    /// offsets.
    pub open spec fn spec_new(
        pool_uuid: Uuid,
        dev_uuid: Uuid,
        mda_size: Sectors,
        total_size: Sectors,
    ) -> SigBlock {
        SigBlock {
            pool_uuid,
            dev_uuid,
            total_size,
            mda_sectors: mda_size,
            reserved_sectors: Sectors(RESERVED_SECTORS),
            mda: MdaPair {
                mdaa: Mda {
                    offset: SectorOffset(0),
                    used: 0,
                    crc: 0,
                    last_updated: Timespec { sec: 0, nsec: 0 },
                },
                mdab: Mda {
                    offset: SectorOffset(mda_size.0 / 2),
                    used: 0,
                    crc: 0,
                    last_updated: Timespec { sec: 0, nsec: 0 },
                },
            },
        }
    }

    /// Construct the record for a freshly claimed device.
    pub fn new(pool_uuid: &Uuid, dev_uuid: &Uuid, mda_size: Sectors, total_size: Sectors) -> (sb:
        SigBlock)
        requires
            valid_mda_size(mda_size.0),
            2 * BDA_STATIC_HDR_SECTORS + 2 * mda_size.0 + RESERVED_SECTORS <= total_size.0,
            total_size.0 <= MAX_DEV_SECTORS,
        ensures
            sb == Self::spec_new(*pool_uuid, *dev_uuid, mda_size, total_size),
            sb.well_formed(),
    {
        SigBlock {
            pool_uuid: *pool_uuid,
            dev_uuid: *dev_uuid,
            total_size,
            mda_sectors: mda_size,
            reserved_sectors: Sectors(RESERVED_SECTORS),
            mda: MdaPair {
                mdaa: Mda {
                    offset: SectorOffset(0),
                    used: 0,
                    crc: 0,
                    last_updated: Timespec { sec: 0, nsec: 0 },
                },
                mdab: Mda {
                    offset: SectorOffset(mda_size.0 / 2),
                    used: 0,
                    crc: 0,
                    last_updated: Timespec { sec: 0, nsec: 0 },
                },
            },
        }
    }
}

/// A sequence of `n` zero bytes.
pub open spec fn zero_seq(n: nat) -> Seq<u8> {
    Seq::new(n, |i: int| 0u8)
}

/// The machine word encoded little-endian at byte `i`.
pub open spec fn le64_at(s: Seq<u8>, i: int) -> u64 {
    spec_u64_from_le_bytes(s.subrange(i, i + 8))
}

/// The 32-bit word encoded little-endian at byte `i`.
pub open spec fn le32_at(s: Seq<u8>, i: int) -> u32 {
    spec_u32_from_le_bytes(s.subrange(i, i + 4))
}

/// The field bytes of one slot descriptor.
pub open spec fn mda_fields(m: Mda) -> Seq<u8> {
    spec_u64_to_le_bytes(m.offset.0) + spec_u32_to_le_bytes(m.used) + spec_u32_to_le_bytes(m.crc)
        + spec_u64_to_le_bytes(m.last_updated.sec) + spec_u32_to_le_bytes(m.last_updated.nsec)
}

/// The guarded field bytes of a sigblock: everything after the CRC, before
/// the padding.
pub open spec fn sig_fields(sb: SigBlock) -> Seq<u8> {
    spec_u64_to_le_bytes(SIG_MAGIC) + spec_u64_to_le_bytes(sb.pool_uuid.hi)
        + spec_u64_to_le_bytes(sb.pool_uuid.lo) + spec_u64_to_le_bytes(sb.dev_uuid.hi)
        + spec_u64_to_le_bytes(sb.dev_uuid.lo) + spec_u64_to_le_bytes(sb.total_size.0)
        + spec_u64_to_le_bytes(sb.mda_sectors.0) + spec_u64_to_le_bytes(sb.reserved_sectors.0)
        + mda_fields(sb.mda.mdaa) + mda_fields(sb.mda.mdab)
}

/// The full 512-byte sector a sigblock serializes to.
pub open spec fn sig_encode(sb: SigBlock) -> Seq<u8> {
    spec_u32_to_le_bytes(crc32_of(sig_fields(sb))) + sig_fields(sb) + zero_seq(388)
}

/// The slot descriptor decoded at byte `i` of a sigblock sector.
pub open spec fn mda_decoded(s: Seq<u8>, i: int) -> Mda {
    Mda {
        offset: SectorOffset(le64_at(s, i)),
        used: le32_at(s, i + 8),
        crc: le32_at(s, i + 12),
        last_updated: Timespec { sec: le64_at(s, i + 16), nsec: le32_at(s, i + 24) },
    }
}

/// The record decoded from a 512-byte sigblock sector, fields read at
/// their fixed offsets.
pub open spec fn sig_decoded(s: Seq<u8>) -> SigBlock {
    SigBlock {
        pool_uuid: Uuid { hi: le64_at(s, 12), lo: le64_at(s, 20) },
        dev_uuid: Uuid { hi: le64_at(s, 28), lo: le64_at(s, 36) },
        total_size: Sectors(le64_at(s, 44)),
        mda_sectors: Sectors(le64_at(s, 52)),
        reserved_sectors: Sectors(le64_at(s, 60)),
        mda: MdaPair { mdaa: mda_decoded(s, 68), mdab: mda_decoded(s, 96) },
    }
}

/// Parse a 512-byte sigblock sector: the magic must be present, the CRC
/// must match the guarded bytes, and the decoded record must satisfy its
/// invariant.
pub open spec fn sig_parse(s: Seq<u8>) -> Option<SigBlock>
    recommends
        s.len() == 512,
{
    if le64_at(s, 4) == SIG_MAGIC && le32_at(s, 0) == crc32_of(s.subrange(4, 124))
        && sig_decoded(s).well_formed() {
        Some(sig_decoded(s))
    } else {
        None
    }
}

fn push_u64(v: &mut Vec<u8>, x: u64)
    ensures
        final(v)@ == old(v)@ + spec_u64_to_le_bytes(x),
{
    let mut b = u64_to_le_bytes(x);
    v.append(&mut b);
}

fn push_u32(v: &mut Vec<u8>, x: u32)
    ensures
        final(v)@ == old(v)@ + spec_u32_to_le_bytes(x),
{
    let mut b = u32_to_le_bytes(x);
    v.append(&mut b);
}

pub(crate) fn push_zeros(v: &mut Vec<u8>, n: usize)
    ensures
        final(v)@ == old(v)@ + zero_seq(n as nat),
{
    let ghost orig = v@;
    let mut i: usize = 0;
    while i < n
        invariant
            i <= n,
            v@ == orig + zero_seq(i as nat),
        decreases n - i,
    {
        v.push(0);
        assert((orig + zero_seq(i as nat)).push(0u8) =~= orig + zero_seq((i + 1) as nat));
        i = i + 1;
    }
}

/// A vector of `n` zero bytes.
pub fn zero_bytes(n: usize) -> (v: Vec<u8>)
    ensures
        v@ == zero_seq(n as nat),
{
    let mut v = Vec::new();
    push_zeros(&mut v, n);
    assert(v@ =~= zero_seq(n as nat));
    v
}

fn push_mda(v: &mut Vec<u8>, m: &Mda)
    ensures
        final(v)@ == old(v)@ + mda_fields(*m),
{
    push_u64(v, m.offset.0);
    push_u32(v, m.used);
    push_u32(v, m.crc);
    push_u64(v, m.last_updated.sec);
    push_u32(v, m.last_updated.nsec);
    assert(v@ =~= old(v)@ + mda_fields(*m));
}

impl SigBlock {
    /// Serialize the record into the 512-byte sector written at sector 1
    /// of each static header copy.
    pub fn write(&self) -> (buf: Vec<u8>)
        ensures
            buf@ == sig_encode(*self),
            buf@.len() == 512,
    {
        proof {
            lemma_auto_spec_u64_to_from_le_bytes();
            lemma_auto_spec_u32_to_from_le_bytes();
        }
        let mut fields = u64_to_le_bytes(SIG_MAGIC);
        push_u64(&mut fields, self.pool_uuid.hi);
        push_u64(&mut fields, self.pool_uuid.lo);
        push_u64(&mut fields, self.dev_uuid.hi);
        push_u64(&mut fields, self.dev_uuid.lo);
        push_u64(&mut fields, self.total_size.0);
        push_u64(&mut fields, self.mda_sectors.0);
        push_u64(&mut fields, self.reserved_sectors.0);
        push_mda(&mut fields, &self.mda.mdaa);
        push_mda(&mut fields, &self.mda.mdab);
        assert(fields@ =~= sig_fields(*self));
        let crc = checksum_ieee(fields.as_slice());
        let mut buf = u32_to_le_bytes(crc);
        buf.append(&mut fields);
        push_zeros(&mut buf, 388);
        assert(buf@ =~= sig_encode(*self));
        buf
    }

    /// Deserialize and validate the sigblock sector found at byte `base`
    /// of `buf`, for a device whose probed size is `total_size` sectors.
    /// `None` means structurally invalid: bad magic placement is not
    /// distinguished here (the ownership classifier does that); a CRC or
    /// field-validation failure, or a stored size that contradicts the
    /// probed size, rejects the record.
    pub fn read(buf: &[u8], base: usize, total_size: Sectors) -> (r: Option<SigBlock>)
        requires
            base + 512 <= buf@.len(),
        ensures
            r == spec_read(buf@, base as int, total_size),
    {
        let n = buf.len();
        let s = slice_subrange(buf, base, base + 512);
        let magic = u64_from_le_bytes(slice_subrange(s, 4, 12));
        if magic != SIG_MAGIC {
            return None;
        }
        let stored_crc = u32_from_le_bytes(slice_subrange(s, 0, 4));
        let computed_crc = checksum_ieee(slice_subrange(s, 4, 124));
        if stored_crc != computed_crc {
            return None;
        }
        let mda_sectors = u64_from_le_bytes(slice_subrange(s, 52, 60));
        let reserved = u64_from_le_bytes(slice_subrange(s, 60, 68));
        let total = u64_from_le_bytes(slice_subrange(s, 44, 52));
        if mda_sectors % 2 != 0 || mda_sectors < MIN_MDA_SECTORS || mda_sectors > MAX_MDA_SECTORS {
            return None;
        }
        if reserved != RESERVED_SECTORS || total > MAX_DEV_SECTORS {
            return None;
        }
        if 2 * BDA_STATIC_HDR_SECTORS + 2 * mda_sectors + reserved > total {
            return None;
        }
        let sb = SigBlock {
            pool_uuid: Uuid {
                hi: u64_from_le_bytes(slice_subrange(s, 12, 20)),
                lo: u64_from_le_bytes(slice_subrange(s, 20, 28)),
            },
            dev_uuid: Uuid {
                hi: u64_from_le_bytes(slice_subrange(s, 28, 36)),
                lo: u64_from_le_bytes(slice_subrange(s, 36, 44)),
            },
            total_size: Sectors(total),
            mda_sectors: Sectors(mda_sectors),
            reserved_sectors: Sectors(reserved),
            mda: MdaPair {
                mdaa: Mda {
                    offset: SectorOffset(u64_from_le_bytes(slice_subrange(s, 68, 76))),
                    used: u32_from_le_bytes(slice_subrange(s, 76, 80)),
                    crc: u32_from_le_bytes(slice_subrange(s, 80, 84)),
                    last_updated: Timespec {
                        sec: u64_from_le_bytes(slice_subrange(s, 84, 92)),
                        nsec: u32_from_le_bytes(slice_subrange(s, 92, 96)),
                    },
                },
                mdab: Mda {
                    offset: SectorOffset(u64_from_le_bytes(slice_subrange(s, 96, 104))),
                    used: u32_from_le_bytes(slice_subrange(s, 104, 108)),
                    crc: u32_from_le_bytes(slice_subrange(s, 108, 112)),
                    last_updated: Timespec {
                        sec: u64_from_le_bytes(slice_subrange(s, 112, 120)),
                        nsec: u32_from_le_bytes(slice_subrange(s, 120, 124)),
                    },
                },
            },
        };
        assert(sb == sig_decoded(s@));
        let capacity: u64 = (mda_sectors / 2) * SECTOR_SIZE;
        if sb.mda.mdaa.offset.0 != 0 || sb.mda.mdab.offset.0 != mda_sectors / 2 {
            return None;
        }
        if (sb.mda.mdaa.used as u64) > capacity || (sb.mda.mdab.used as u64) > capacity {
            return None;
        }
        if total != total_size.0 {
            return None;
        }
        Some(sb)
    }
}

/// What `SigBlock::read` returns: the parsed record, provided its stored
/// size matches the probed device size.
pub open spec fn spec_read(buf: Seq<u8>, base: int, total_size: Sectors) -> Option<SigBlock> {
    match sig_parse(buf.subrange(base, base + 512)) {
        Some(sb) => if sb.total_size == total_size {
            Some(sb)
        } else {
            None
        },
        None => None,
    }
}

/// All bytes of `b` in `[lo, hi)` are zero.
pub open spec fn zeroed_range(b: Seq<u8>, lo: int, hi: int) -> bool {
    forall|i: int| lo <= i < hi ==> b[i] == 0
}

/// Classification of a device from its first 4096 bytes: all zero means
/// unowned; a sigblock magic at sector 1 with a valid CRC names the owning
/// pool; a magic whose CRC fails is malformed (`None`); anything else is
/// foreign content.
pub open spec fn spec_ownership(b: Seq<u8>) -> Option<DevOwnership>
    recommends
        b.len() == 4096,
{
    if zeroed_range(b, 0, 4096) {
        Some(DevOwnership::Unowned)
    } else if le64_at(b, 516) == SIG_MAGIC {
        if le32_at(b, 512) == crc32_of(b.subrange(516, 636)) {
            Some(DevOwnership::Ours(Uuid { hi: le64_at(b, 524), lo: le64_at(b, 532) }))
        } else {
            None
        }
    } else {
        Some(DevOwnership::Theirs)
    }
}

impl SigBlock {
    /// Classify a device from its first 4096 bytes.  `None` means the
    /// header looks like a sigblock but is malformed: callers treat that
    /// as a hard error, distinct from foreign content.
    pub fn determine_ownership(buf: &[u8]) -> (r: Option<DevOwnership>)
        requires
            buf@.len() == 4096,
        ensures
            r == spec_ownership(buf@),
    {
        let mut all_zero = true;
        let mut i: usize = 0;
        while i < 4096
            invariant
                i <= 4096,
                buf@.len() == 4096,
                all_zero <==> zeroed_range(buf@, 0, i as int),
            decreases 4096 - i,
        {
            if *vstd::slice::slice_index_get(buf, i) != 0 {
                all_zero = false;
            }
            i = i + 1;
        }
        if all_zero {
            return Some(DevOwnership::Unowned);
        }
        let magic = u64_from_le_bytes(slice_subrange(buf, 516, 524));
        if magic != SIG_MAGIC {
            return Some(DevOwnership::Theirs);
        }
        let stored_crc = u32_from_le_bytes(slice_subrange(buf, 512, 516));
        let computed_crc = checksum_ieee(slice_subrange(buf, 516, 636));
        if stored_crc != computed_crc {
            return None;
        }
        Some(
            DevOwnership::Ours(
                Uuid {
                    hi: u64_from_le_bytes(slice_subrange(buf, 524, 532)),
                    lo: u64_from_le_bytes(slice_subrange(buf, 532, 540)),
                },
            ),
        )
    }
}

/// Parsing inverts serialization: a well-formed record is recovered intact
/// from its own encoding.
pub proof fn lemma_sig_round_trip(sb: SigBlock)
    requires
        sb.well_formed(),
    ensures
        sig_encode(sb).len() == 512,
        sig_parse(sig_encode(sb)) == Some(sb),
{
    lemma_auto_spec_u64_to_from_le_bytes();
    lemma_auto_spec_u32_to_from_le_bytes();
    let f = sig_fields(sb);
    let e = sig_encode(sb);
    assert(f.len() == 120);
    assert(e.len() == 512);
    assert(e.subrange(4, 124) =~= f);
    assert(e.subrange(0, 4) =~= spec_u32_to_le_bytes(crc32_of(f)));
    assert(e.subrange(4, 12) =~= spec_u64_to_le_bytes(SIG_MAGIC));
    assert(e.subrange(12, 20) =~= spec_u64_to_le_bytes(sb.pool_uuid.hi));
    assert(e.subrange(20, 28) =~= spec_u64_to_le_bytes(sb.pool_uuid.lo));
    assert(e.subrange(28, 36) =~= spec_u64_to_le_bytes(sb.dev_uuid.hi));
    assert(e.subrange(36, 44) =~= spec_u64_to_le_bytes(sb.dev_uuid.lo));
    assert(e.subrange(44, 52) =~= spec_u64_to_le_bytes(sb.total_size.0));
    assert(e.subrange(52, 60) =~= spec_u64_to_le_bytes(sb.mda_sectors.0));
    assert(e.subrange(60, 68) =~= spec_u64_to_le_bytes(sb.reserved_sectors.0));
    assert(e.subrange(68, 76) =~= spec_u64_to_le_bytes(sb.mda.mdaa.offset.0));
    assert(e.subrange(76, 80) =~= spec_u32_to_le_bytes(sb.mda.mdaa.used));
    assert(e.subrange(80, 84) =~= spec_u32_to_le_bytes(sb.mda.mdaa.crc));
    assert(e.subrange(84, 92) =~= spec_u64_to_le_bytes(sb.mda.mdaa.last_updated.sec));
    assert(e.subrange(92, 96) =~= spec_u32_to_le_bytes(sb.mda.mdaa.last_updated.nsec));
    assert(e.subrange(96, 104) =~= spec_u64_to_le_bytes(sb.mda.mdab.offset.0));
    assert(e.subrange(104, 108) =~= spec_u32_to_le_bytes(sb.mda.mdab.used));
    assert(e.subrange(108, 112) =~= spec_u32_to_le_bytes(sb.mda.mdab.crc));
    assert(e.subrange(112, 120) =~= spec_u64_to_le_bytes(sb.mda.mdab.last_updated.sec));
    assert(e.subrange(120, 124) =~= spec_u32_to_le_bytes(sb.mda.mdab.last_updated.nsec));
    assert(sig_decoded(e) == sb);
}

} // verus!
