use blockdev::types::{
    Device, DevOwnership, EngineError, InvalidCause, Sectors, Timespec, Uuid, MIN_DEV_SECTORS,
    MIN_DEV_SIZE, SECTOR_SIZE,
};
use blockdev::sigblock::{validate_mda_size, SigBlock};
use blockdev::blockdev::BlockDev;
use blockdev::setup::{find_all, initialize, resolve_devices, DevInfo, Probe};
use blockdev::dec::u64_to_dec;

const MDA: u64 = 2032;
const SMALL_TOTAL: u64 = 6128; // smallest well-formed device, in sectors
const CAPACITY: usize = 520192; // (MDA / 2) * 512 bytes per slot

fn pool_uuid() -> Uuid {
    Uuid { hi: 0x1111_2222_3333_4444, lo: 0x5555_6666_7777_8888 }
}

fn dev_uuid() -> Uuid {
    Uuid { hi: 0x9999_aaaa_bbbb_cccc, lo: 0xdddd_eeee_ffff_0001 }
}

fn small_blockdev() -> BlockDev {
    let sb = SigBlock::new(&pool_uuid(), &dev_uuid(), Sectors(MDA), Sectors(SMALL_TOTAL));
    BlockDev { dev: Device { major: 8, minor: 16 }, devnode: String::from("/dev/sdb"), sigblock: sb }
}

fn small_image() -> Vec<u8> {
    vec![0u8; (SMALL_TOTAL * SECTOR_SIZE) as usize]
}

/// The header bytes that `write_sigblock` lays down at the head of a
/// device: a zero sector, the signature sector, six zero sectors.
fn header_of(sb: &SigBlock) -> Vec<u8> {
    let mut hdr = vec![0u8; 512];
    hdr.extend_from_slice(&sb.write());
    hdr.extend_from_slice(&[0u8; 3072]);
    hdr
}

#[test]
fn sigblock_round_trip() {
    let sb = SigBlock::new(&pool_uuid(), &dev_uuid(), Sectors(MDA), Sectors(SMALL_TOTAL));
    let buf = sb.write();
    assert_eq!(buf.len(), 512);
    let parsed = SigBlock::read(&buf, 0, Sectors(SMALL_TOTAL)).expect("round trip");
    assert_eq!(parsed, sb);
    assert_eq!(parsed.pool_uuid, pool_uuid());
    assert_eq!(parsed.dev_uuid, dev_uuid());
    assert_eq!(parsed.total_size, Sectors(SMALL_TOTAL));
    assert_eq!(parsed.mda_sectors, Sectors(MDA));
}

#[test]
fn sigblock_read_rejects_wrong_total() {
    let sb = SigBlock::new(&pool_uuid(), &dev_uuid(), Sectors(MDA), Sectors(SMALL_TOTAL));
    let buf = sb.write();
    assert!(SigBlock::read(&buf, 0, Sectors(SMALL_TOTAL + 2)).is_none());
}

#[test]
fn sigblock_read_rejects_corruption() {
    let sb = SigBlock::new(&pool_uuid(), &dev_uuid(), Sectors(MDA), Sectors(SMALL_TOTAL));
    let mut buf = sb.write();
    buf[50] ^= 0x01; // a field byte: the CRC no longer matches
    assert!(SigBlock::read(&buf, 0, Sectors(SMALL_TOTAL)).is_none());
}

#[test]
fn ownership_unowned_for_zeroed_header() {
    let hdr = vec![0u8; 4096];
    assert_eq!(SigBlock::determine_ownership(&hdr), Some(DevOwnership::Unowned));
}

#[test]
fn ownership_theirs_for_foreign_content() {
    let mut hdr = vec![0u8; 4096];
    hdr[0] = 0xee; // some other filesystem's bytes, no sigblock magic
    hdr[2000] = 0x42;
    assert_eq!(SigBlock::determine_ownership(&hdr), Some(DevOwnership::Theirs));
}

#[test]
fn ownership_ours_for_written_header() {
    let bd = small_blockdev();
    let mut image = small_image();
    bd.write_sigblock(&mut image);
    let hdr = &image[..4096];
    assert_eq!(
        SigBlock::determine_ownership(hdr),
        Some(DevOwnership::Ours(pool_uuid()))
    );
    // The tail copy carries the same header.
    let tail = ((SMALL_TOTAL - 8) * SECTOR_SIZE) as usize;
    assert_eq!(&image[..4096], &image[tail..tail + 4096]);
}

#[test]
fn ownership_malformed_is_an_error_not_theirs() {
    let bd = small_blockdev();
    let mut image = small_image();
    bd.write_sigblock(&mut image);
    image[530] ^= 0x01; // inside the guarded bytes: magic intact, CRC broken
    assert_eq!(SigBlock::determine_ownership(&image[..4096]), None);
}

#[test]
fn mda_size_validation() {
    assert_eq!(
        validate_mda_size(Sectors(2033)),
        Some(InvalidCause::MdaSizeOdd { mda_size: 2033 })
    );
    assert_eq!(
        validate_mda_size(Sectors(2030)),
        Some(InvalidCause::MdaSizeTooSmall { mda_size: 2030 })
    );
    assert_eq!(
        validate_mda_size(Sectors(1047546)),
        Some(InvalidCause::MdaSizeTooLarge { mda_size: 1047546 })
    );
    assert_eq!(validate_mda_size(Sectors(MDA)), None);
    assert_eq!(validate_mda_size(Sectors(1047544)), None);
}

#[test]
fn avail_range_small_device() {
    let bd = small_blockdev();
    let (start, length) = bd.avail_range();
    assert_eq!(start.0, 8 + MDA + 2048);
    assert_eq!(length.0, SMALL_TOTAL - (8 + MDA + 2048) - (8 + MDA));
    assert_eq!(length.0, 0); // the smallest well-formed device has no slack
}

#[test]
fn avail_range_min_device_never_underflows() {
    // The minimum admitted device size with the largest acceptable
    // metadata area: the available length is exactly zero, never negative.
    let sb = SigBlock::new(&pool_uuid(), &dev_uuid(), Sectors(1047544), Sectors(MIN_DEV_SECTORS));
    let bd = BlockDev { dev: Device { major: 8, minor: 0 }, devnode: String::from("/dev/sda"), sigblock: sb };
    let (start, length) = bd.avail_range();
    assert_eq!(start.0, 8 + 1047544 + 2048);
    assert_eq!(length.0, 0);
    // And with the smallest acceptable metadata area there is plenty.
    let sb2 = SigBlock::new(&pool_uuid(), &dev_uuid(), Sectors(MDA), Sectors(MIN_DEV_SECTORS));
    let bd2 = BlockDev { dev: Device { major: 8, minor: 0 }, devnode: String::from("/dev/sda"), sigblock: sb2 };
    let (start2, length2) = bd2.avail_range();
    assert_eq!(start2.0 + length2.0 + 8 + MDA, MIN_DEV_SECTORS);
}

#[test]
fn read_mdax_fails_when_never_written() {
    let bd = small_blockdev();
    let image = small_image();
    assert_eq!(
        bd.read_mdax(&image),
        Err(EngineError::Invalid(InvalidCause::NoMdaWritten))
    );
}

#[test]
fn write_then_read_round_trips_payload() {
    let mut bd = small_blockdev();
    let mut image = small_image();
    let payload = b"pool metadata, first version";
    bd.save_state(&mut image, &Timespec { sec: 1, nsec: 0 }, payload)
        .expect("save");
    assert_eq!(bd.read_mdax(&image).expect("read"), payload.to_vec());
}

#[test]
fn save_state_alternates_slots() {
    let mut bd = small_blockdev();
    let mut image = small_image();
    let t1 = Timespec { sec: 10, nsec: 0 };
    let t2 = Timespec { sec: 11, nsec: 0 };
    bd.save_state(&mut image, &t1, b"first payload").expect("save one");
    let after_first = bd.sigblock.mda;
    bd.save_state(&mut image, &t2, b"second payload").expect("save two");
    let after_second = bd.sigblock.mda;
    // The two writes landed in different slots, and each slot keeps its
    // own timestamp.
    let first_slot_b = after_first.mdab.last_updated == t1;
    let second_slot_b = after_second.mdab.last_updated == t2;
    assert_ne!(first_slot_b, second_slot_b);
    assert_eq!(bd.read_mdax(&image).expect("read"), b"second payload".to_vec());
    // A third save overwrites the first slot again.
    bd.save_state(&mut image, &Timespec { sec: 12, nsec: 0 }, b"third payload")
        .expect("save three");
    assert_eq!(bd.read_mdax(&image).expect("read"), b"third payload".to_vec());
}

#[test]
fn bit_flips_in_payload_fail_the_crc() {
    let mut bd = small_blockdev();
    let mut image = small_image();
    let payload = b"guarded by a checksum";
    bd.save_state(&mut image, &Timespec { sec: 5, nsec: 0 }, payload)
        .expect("save");
    // The first save lands in the second slot, at sector offset MDA / 2
    // within the head metadata area.
    let slot_byte = ((8 + MDA / 2) * SECTOR_SIZE) as usize;
    assert_eq!(&image[slot_byte..slot_byte + payload.len()], payload);
    for (delta, mask) in [(0usize, 0x01u8), (5, 0x80), (payload.len() - 1, 0x10)] {
        image[slot_byte + delta] ^= mask;
        assert_eq!(
            bd.read_mdax(&image),
            Err(EngineError::Invalid(InvalidCause::MdaCrcMismatch))
        );
        image[slot_byte + delta] ^= mask;
        assert!(bd.read_mdax(&image).is_ok());
    }
}

#[test]
fn oversized_payload_is_rejected() {
    let mut bd = small_blockdev();
    let mut image = small_image();
    let before = bd.sigblock;
    let payload = vec![7u8; CAPACITY + 1];
    assert_eq!(
        bd.save_state(&mut image, &Timespec { sec: 1, nsec: 0 }, &payload),
        Err(EngineError::Invalid(InvalidCause::MetadataTooLarge { len: CAPACITY + 1 }))
    );
    assert_eq!(bd.sigblock, before);
    assert!(image.iter().all(|&b| b == 0));
    // A payload of exactly the slot capacity is accepted.
    let full = vec![9u8; CAPACITY];
    bd.save_state(&mut image, &Timespec { sec: 1, nsec: 0 }, &full)
        .expect("full slot");
    assert_eq!(bd.read_mdax(&image).expect("read"), full);
}

#[test]
fn wipe_reverts_to_unowned_but_keeps_mda_payload() {
    let mut bd = small_blockdev();
    let mut image = small_image();
    let payload = b"still here after the wipe";
    bd.save_state(&mut image, &Timespec { sec: 3, nsec: 0 }, payload)
        .expect("save");
    bd.wipe_sigblock(&mut image);
    assert_eq!(
        SigBlock::determine_ownership(&image[..4096]),
        Some(DevOwnership::Unowned)
    );
    let slot_byte = ((8 + MDA / 2) * SECTOR_SIZE) as usize;
    assert_eq!(&image[slot_byte..slot_byte + payload.len()], payload);
}

#[test]
fn to_save_and_dstr() {
    let bd = small_blockdev();
    let save = bd.to_save();
    assert_eq!(save.devnode, "/dev/sdb");
    assert_eq!(save.total_size, Sectors(SMALL_TOTAL));
    assert_eq!(bd.dstr(), "8:16");
    assert_eq!(u64_to_dec(0), "0");
    assert_eq!(u64_to_dec(18446744073709551615), "18446744073709551615");
}

#[test]
fn resolve_devices_deduplicates() {
    let paths_resolved = vec![
        Device { major: 8, minor: 1 },
        Device { major: 8, minor: 2 },
        Device { major: 8, minor: 1 },
        Device { major: 7, minor: 9 },
    ];
    let set = resolve_devices(&paths_resolved);
    assert_eq!(
        set.devs,
        vec![
            Device { major: 7, minor: 9 },
            Device { major: 8, minor: 1 },
            Device { major: 8, minor: 2 },
        ]
    );
}

fn unowned_info(devnode: &str, size: u64) -> (Device, DevInfo) {
    (
        Device { major: 8, minor: 1 },
        DevInfo { devnode: String::from(devnode), size, hdr: vec![0u8; 4096] },
    )
}

#[test]
fn initialize_claims_unowned_devices() {
    let devices = vec![unowned_info("/dev/sdc", MIN_DEV_SIZE)];
    let out = initialize(&pool_uuid(), devices, Sectors(MDA), false).expect("initialize");
    assert_eq!(out.len(), 1);
    let (node, bd) = &out[0];
    assert_eq!(node, "/dev/sdc");
    assert_eq!(bd.devnode, "/dev/sdc");
    assert_eq!(bd.sigblock.pool_uuid, pool_uuid());
    assert_eq!(bd.sigblock.total_size, Sectors(MIN_DEV_SIZE / SECTOR_SIZE));
    assert_eq!(bd.sigblock.mda_sectors, Sectors(MDA));
}

#[test]
fn initialize_rejects_invalid_mda_size_first() {
    let out = initialize(&pool_uuid(), Vec::new(), Sectors(2033), false);
    assert_eq!(
        out,
        Err(EngineError::Invalid(InvalidCause::MdaSizeOdd { mda_size: 2033 }))
    );
}

#[test]
fn initialize_rejects_undersized_device() {
    let devices = vec![unowned_info("/dev/sdd", MIN_DEV_SIZE - 1)];
    assert_eq!(
        initialize(&pool_uuid(), devices, Sectors(MDA), false),
        Err(EngineError::Invalid(InvalidCause::DeviceTooSmall {
            devnode: String::from("/dev/sdd"),
            size: MIN_DEV_SIZE - 1,
        }))
    );
}

#[test]
fn initialize_fails_whole_batch_on_one_undersized_device() {
    // Three candidates, one too small: the whole batch fails and nothing
    // is claimed.
    let devices = vec![
        unowned_info("/dev/sda", MIN_DEV_SIZE),
        unowned_info("/dev/sdb", MIN_DEV_SIZE - 512),
        unowned_info("/dev/sdc", MIN_DEV_SIZE),
    ];
    assert_eq!(
        initialize(&pool_uuid(), devices, Sectors(MDA), false),
        Err(EngineError::Invalid(InvalidCause::DeviceTooSmall {
            devnode: String::from("/dev/sdb"),
            size: MIN_DEV_SIZE - 512,
        }))
    );
}

#[test]
fn initialize_foreign_device_needs_force() {
    let mut hdr = vec![0u8; 4096];
    hdr[100] = 0x55; // foreign, unrecognized content
    let dev = Device { major: 9, minor: 3 };
    let make = |hdr: Vec<u8>| {
        vec![(dev, DevInfo { devnode: String::from("/dev/sde"), size: MIN_DEV_SIZE, hdr })]
    };
    assert_eq!(
        initialize(&pool_uuid(), make(hdr.clone()), Sectors(MDA), false),
        Err(EngineError::Invalid(InvalidCause::NotZeroed {
            devnode: String::from("/dev/sde"),
        }))
    );
    let out = initialize(&pool_uuid(), make(hdr), Sectors(MDA), true).expect("forced");
    assert_eq!(out.len(), 1);
    // Writing the new record makes the device ours.
    let fresh_hdr = header_of(&out[0].1.sigblock);
    assert_eq!(
        SigBlock::determine_ownership(&fresh_hdr),
        Some(DevOwnership::Ours(pool_uuid()))
    );
}

#[test]
fn initialize_skips_devices_already_in_this_pool() {
    // A device that already carries this pool's signature is not
    // re-claimed and keeps its device identifier.
    let sb = SigBlock::new(
        &pool_uuid(),
        &dev_uuid(),
        Sectors(MDA),
        Sectors(MIN_DEV_SIZE / SECTOR_SIZE),
    );
    let hdr = header_of(&sb);
    let devices = vec![(
        Device { major: 8, minor: 32 },
        DevInfo { devnode: String::from("/dev/sdf"), size: MIN_DEV_SIZE, hdr: hdr.clone() },
    )];
    let out = initialize(&pool_uuid(), devices, Sectors(MDA), false).expect("idempotent");
    assert!(out.is_empty());
    // The header was never rewritten, so the device identifier stands.
    let kept = SigBlock::read(&hdr, 512, Sectors(MIN_DEV_SIZE / SECTOR_SIZE)).expect("reread");
    assert_eq!(kept.dev_uuid, dev_uuid());
}

#[test]
fn initialize_rejects_device_of_another_pool() {
    let other_pool = Uuid { hi: 1, lo: 2 };
    let sb = SigBlock::new(
        &other_pool,
        &dev_uuid(),
        Sectors(MDA),
        Sectors(MIN_DEV_SIZE / SECTOR_SIZE),
    );
    let devices = vec![(
        Device { major: 8, minor: 48 },
        DevInfo { devnode: String::from("/dev/sdg"), size: MIN_DEV_SIZE, hdr: header_of(&sb) },
    )];
    assert_eq!(
        initialize(&pool_uuid(), devices, Sectors(MDA), false),
        Err(EngineError::Invalid(InvalidCause::OwnedByOtherPool {
            devnode: String::from("/dev/sdg"),
            pool: other_pool,
        }))
    );
}

#[test]
fn initialized_devices_are_found_again() {
    // A freshly initialized device is discovered by the scan with the
    // same pool identifier and the probed size.
    let devices = vec![unowned_info("/dev/sdh", MIN_DEV_SIZE)];
    let out = initialize(&pool_uuid(), devices, Sectors(MDA), false).expect("initialize");
    let bd = &out[0].1;
    let probes = vec![
        // An unowned device and a foreign device are skipped silently.
        Probe {
            dev: Device { major: 1, minor: 1 },
            devnode: String::from("/dev/loop0"),
            size: MIN_DEV_SIZE,
            hdr: vec![0u8; 4096],
        },
        Probe {
            dev: Device { major: 1, minor: 2 },
            devnode: String::from("/dev/loop1"),
            size: MIN_DEV_SIZE,
            hdr: {
                let mut h = vec![0u8; 4096];
                h[7] = 0xaa;
                h
            },
        },
        Probe {
            dev: bd.dev,
            devnode: String::from("/dev/sdh"),
            size: MIN_DEV_SIZE,
            hdr: header_of(&bd.sigblock),
        },
    ];
    let pm = find_all(&probes).expect("scan");
    assert_eq!(pm.pools.len(), 1);
    assert_eq!(pm.pools[0].pool_uuid, pool_uuid());
    assert_eq!(pm.pools[0].devs.len(), 1);
    let (found_uuid, found) = &pm.pools[0].devs[0];
    assert_eq!(*found_uuid, bd.sigblock.dev_uuid);
    assert_eq!(found.devnode, "/dev/sdh");
    assert_eq!(found.sigblock, bd.sigblock);
    assert_eq!(found.sigblock.total_size, Sectors(MIN_DEV_SIZE / SECTOR_SIZE));
}

#[test]
fn find_all_aborts_on_corrupt_member() {
    let sb = SigBlock::new(
        &pool_uuid(),
        &dev_uuid(),
        Sectors(MDA),
        Sectors(MIN_DEV_SIZE / SECTOR_SIZE),
    );
    let mut hdr = header_of(&sb);
    hdr[545] ^= 0x01; // magic intact, guarded bytes corrupted
    let probes = vec![Probe {
        dev: Device { major: 8, minor: 64 },
        devnode: String::from("/dev/sdi"),
        size: MIN_DEV_SIZE,
        hdr,
    }];
    assert_eq!(
        find_all(&probes),
        Err(EngineError::Invalid(InvalidCause::SigblockInvalid {
            devnode: String::from("/dev/sdi"),
        }))
    );
}

#[test]
fn find_all_rejects_size_mismatch() {
    // A recognizable signature whose stored size contradicts the probed
    // size is a hard error, not a skip.
    let sb = SigBlock::new(
        &pool_uuid(),
        &dev_uuid(),
        Sectors(MDA),
        Sectors(MIN_DEV_SIZE / SECTOR_SIZE),
    );
    let probes = vec![Probe {
        dev: Device { major: 8, minor: 80 },
        devnode: String::from("/dev/sdj"),
        size: MIN_DEV_SIZE + 512,
        hdr: header_of(&sb),
    }];
    assert_eq!(
        find_all(&probes),
        Err(EngineError::Invalid(InvalidCause::SigblockInvalid {
            devnode: String::from("/dev/sdj"),
        }))
    );
}

#[test]
fn fresh_device_identifiers_differ() {
    let devices = vec![
        unowned_info("/dev/sdk", MIN_DEV_SIZE),
        (
            Device { major: 8, minor: 96 },
            DevInfo { devnode: String::from("/dev/sdl"), size: MIN_DEV_SIZE, hdr: vec![0u8; 4096] },
        ),
    ];
    let out = initialize(&pool_uuid(), devices, Sectors(MDA), false).expect("initialize");
    assert_eq!(out.len(), 2);
    assert_ne!(out[0].1.sigblock.dev_uuid, out[1].1.sigblock.dev_uuid);
}

#[test]
fn initialize_rejects_malformed_header() {
    let sb = SigBlock::new(
        &pool_uuid(),
        &dev_uuid(),
        Sectors(MDA),
        Sectors(MIN_DEV_SIZE / SECTOR_SIZE),
    );
    let mut hdr = header_of(&sb);
    hdr[600] ^= 0x04; // magic intact, CRC broken: corrupt, not foreign
    let devices = vec![(
        Device { major: 8, minor: 112 },
        DevInfo { devnode: String::from("/dev/sdm"), size: MIN_DEV_SIZE, hdr },
    )];
    assert_eq!(
        initialize(&pool_uuid(), devices, Sectors(MDA), false),
        Err(EngineError::Invalid(InvalidCause::SigblockInvalid {
            devnode: String::from("/dev/sdm"),
        }))
    );
}

#[test]
fn find_all_replaces_duplicate_identity() {
    // Two probes carrying the same pool and device identifiers: the later
    // one wins, as a map insert.
    let total = Sectors(MIN_DEV_SIZE / SECTOR_SIZE);
    let sb = SigBlock::new(&pool_uuid(), &dev_uuid(), Sectors(MDA), total);
    let make = |major: u64, node: &str| Probe {
        dev: Device { major, minor: 0 },
        devnode: String::from(node),
        size: MIN_DEV_SIZE,
        hdr: header_of(&sb),
    };
    let probes = vec![make(8, "/dev/sdn"), make(9, "/dev/sdo")];
    let pm = find_all(&probes).expect("scan");
    assert_eq!(pm.pools.len(), 1);
    assert_eq!(pm.pools[0].devs.len(), 1);
    assert_eq!(pm.pools[0].devs[0].1.devnode, "/dev/sdo");
    assert_eq!(pm.pools[0].devs[0].1.dev, Device { major: 9, minor: 0 });
}
