//! Claiming and discovering pool members: the device-set resolver, the
//! batch initializer, and the discovery scan.
//!
//! The unverified edge gathers plain facts about each candidate device
//! (its node path, its size, its first 4096 bytes) and hands them here;
//! everything that decides — admission, rejection, record construction,
//! pool-map assembly — is verified.

use vstd::prelude::*;
use crate::types::{
    Sectors, Device, Uuid, DevOwnership, InvalidCause, EngineError, EngineResult, dev_lt,
    fresh_uuid, SECTOR_SIZE, MIN_DEV_SIZE, MIN_DEV_SECTORS, MAX_DEV_SECTORS,
    BDA_STATIC_HDR_SECTORS, RESERVED_SECTORS,
};
use crate::sigblock::{
    SigBlock, valid_mda_size, validate_mda_size, spec_ownership, spec_read,
    lemma_valid_mda_fits_min_dev,
};
use crate::blockdev::BlockDev;

verus! {

/// A set of devices, deduplicated and held in ascending (major, minor)
/// order.
#[derive(Debug, PartialEq, Eq)]
pub struct DevSet {
    pub devs: Vec<Device>,
}

impl DevSet {
    /// Strictly ascending, hence duplicate-free.
    pub open spec fn well_formed(self) -> bool {
        forall|i: int, j: int|
            0 <= i < j < self.devs@.len() ==> dev_lt(self.devs@[i], self.devs@[j])
    }

    pub open spec fn spec_contains(self, d: Device) -> bool {
        self.devs@.contains(d)
    }

    /// The empty set.
    pub fn new() -> (r: DevSet)
        ensures
            r.well_formed(),
            r.devs@.len() == 0,
    {
        DevSet { devs: Vec::new() }
    }

    /// Add a device; duplicates collapse silently.
    pub fn insert(&mut self, d: Device)
        requires
            old(self).well_formed(),
        ensures
            final(self).well_formed(),
            forall|x: Device|
                final(self).spec_contains(x) <==> old(self).spec_contains(x) || x == d,
    {
        let n = self.devs.len();
        let mut i: usize = 0;
        while i < n
            invariant
                i <= n,
                n == self.devs@.len(),
                self.devs@ == old(self).devs@,
                self.well_formed(),
                forall|k: int| 0 <= k < i ==> dev_lt(self.devs@[k], d),
            decreases n - i,
        {
            let c = self.devs[i];
            if c.major == d.major && c.minor == d.minor {
                assert(self.devs@[i as int] == d);
                assert(self.spec_contains(d));
                return ;
            }
            if !(c.major < d.major || (c.major == d.major && c.minor < d.minor)) {
                // `c` is strictly greater: `d` goes right here.
                assert(dev_lt(d, self.devs@[i as int]));
                let ghost pre = self.devs@;
                self.devs.insert(i, d);
                assert(self.devs@ == pre.insert(i as int, d));
                assert forall|x: Device| #[trigger]
                    self.devs@.contains(x) implies pre.contains(x) || x == d by {
                    let k = choose|k: int| 0 <= k < self.devs@.len() && self.devs@[k] == x;
                    if k < i {
                        assert(pre[k] == x);
                    } else if k > i {
                        assert(pre[k - 1] == x);
                    }
                }
                assert forall|x: Device| pre.contains(x) implies self.devs@.contains(x) by {
                    let k = choose|k: int| 0 <= k < pre.len() && pre[k] == x;
                    if k < i {
                        assert(self.devs@[k] == x);
                    } else {
                        assert(self.devs@[k + 1] == x);
                    }
                }
                assert(self.devs@.contains(d)) by {
                    assert(self.devs@[i as int] == d);
                }
                assert forall|a: int, b: int|
                    0 <= a < b < self.devs@.len() implies dev_lt(
                    self.devs@[a],
                    self.devs@[b],
                ) by {
                    if a < i && b == i {
                        assert(self.devs@[a] == pre[a]);
                    } else if a == i && b > i {
                        assert(self.devs@[b] == pre[b - 1]);
                        if b - 1 > i {
                            assert(dev_lt(pre[i as int], pre[b - 1]));
                        }
                    } else if a < i && b > i {
                        assert(self.devs@[a] == pre[a] && self.devs@[b] == pre[b - 1]);
                        if b - 1 > a {
                        }
                    } else if a > i && b > i {
                        assert(self.devs@[a] == pre[a - 1] && self.devs@[b] == pre[b - 1]);
                    }
                }
                return ;
            }
            i = i + 1;
        }
        // Strictly greater than every element: append.
        let ghost pre = self.devs@;
        self.devs.push(d);
        assert(self.devs@ == pre.push(d));
        assert forall|x: Device| #[trigger]
            self.devs@.contains(x) implies pre.contains(x) || x == d by {
            let k = choose|k: int| 0 <= k < self.devs@.len() && self.devs@[k] == x;
            if k < pre.len() {
                assert(pre[k] == x);
            }
        }
        assert forall|x: Device| pre.contains(x) implies self.devs@.contains(x) by {
            let k = choose|k: int| 0 <= k < pre.len() && pre[k] == x;
            assert(self.devs@[k] == x);
        }
        assert(self.devs@.contains(d)) by {
            assert(self.devs@[pre.len() as int] == d);
        }
    }
}

/// Collapse a list of resolved device identities into a set.  Several
/// paths may name the same device; duplicates vanish by set semantics.
/// The unverified edge resolves each path to its (major, minor) identity
/// beforehand and reports an I/O error if any path is not a block device.
pub fn resolve_devices(resolved: &Vec<Device>) -> (r: DevSet)
    ensures
        r.well_formed(),
        forall|d: Device| r.spec_contains(d) <==> resolved@.contains(d),
{
    let n = resolved.len();
    let mut set = DevSet::new();
    let mut i: usize = 0;
    while i < n
        invariant
            i <= n,
            n == resolved@.len(),
            set.well_formed(),
            forall|d: Device| set.spec_contains(d) <==> resolved@.subrange(0, i as int).contains(d),
        decreases n - i,
    {
        let ghost before = set;
        set.insert(resolved[i]);
        assert forall|d: Device|
            set.spec_contains(d) <==> resolved@.subrange(0, i + 1 as int).contains(d) by {
            let pre = resolved@.subrange(0, i as int);
            let cur = resolved@.subrange(0, i + 1 as int);
            assert(cur =~= pre.push(resolved@[i as int]));
            if set.spec_contains(d) {
                if before.spec_contains(d) {
                    let k = choose|k: int| 0 <= k < pre.len() && pre[k] == d;
                    assert(cur[k] == d);
                } else {
                    assert(cur[i as int] == d);
                }
            }
            if cur.contains(d) {
                let k = choose|k: int| 0 <= k < cur.len() && cur[k] == d;
                if k < i {
                    assert(pre[k] == d);
                }
            }
        }
        i = i + 1;
    }
    assert(resolved@.subrange(0, n as int) =~= resolved@);
    set
}

/// What the unverified edge gathers about one candidate device before
/// anything is decided or written: its node path, its size in bytes, and
/// its first 4096 bytes.
#[derive(Debug)]
pub struct DevInfo {
    pub devnode: String,
    pub size: u64,
    pub hdr: Vec<u8>,
}

/// The verdict on one candidate: claim it (`Ok(true)`), skip it because
/// it already belongs to this pool (`Ok(false)`), or reject the whole
/// batch.  A malformed header is reported first, then an undersized
/// device, then ownership policy: foreign content needs `force`, and a
/// device of another pool is never admitted.
pub open spec fn candidate_verdict(pool: Uuid, force: bool, d: DevInfo) -> Result<
    bool,
    InvalidCause,
> {
    match spec_ownership(d.hdr@) {
        None => Err(InvalidCause::SigblockInvalid { devnode: d.devnode }),
        Some(o) => if d.size < MIN_DEV_SIZE {
            Err(InvalidCause::DeviceTooSmall { devnode: d.devnode, size: d.size })
        } else {
            match o {
                DevOwnership::Unowned => Ok(true),
                DevOwnership::Theirs => if force {
                    Ok(true)
                } else {
                    Err(InvalidCause::NotZeroed { devnode: d.devnode })
                },
                DevOwnership::Ours(u) => if u == pool {
                    Ok(false)
                } else {
                    Err(InvalidCause::OwnedByOtherPool { devnode: d.devnode, pool: u })
                },
            }
        },
    }
}

/// The candidates admitted for claiming, in order, or the first
/// rejection.
pub open spec fn admitted(pool: Uuid, force: bool, devs: Seq<(Device, DevInfo)>) -> Result<
    Seq<(Device, DevInfo)>,
    InvalidCause,
>
    decreases devs.len(),
{
    if devs.len() == 0 {
        Ok(Seq::empty())
    } else {
        match admitted(pool, force, devs.drop_last()) {
            Err(c) => Err(c),
            Ok(p) => match candidate_verdict(pool, force, devs.last().1) {
                Err(c) => Err(c),
                Ok(claim) => if claim {
                    Ok(p.push(devs.last()))
                } else {
                    Ok(p)
                },
            },
        }
    }
}

/// An error found at position `i` rejects every extension of the prefix.
proof fn lemma_admitted_err_extends(pool: Uuid, force: bool, devs: Seq<(Device, DevInfo)>, i: int)
    requires
        0 <= i <= devs.len(),
        admitted(pool, force, devs.subrange(0, i)) is Err,
    ensures
        admitted(pool, force, devs) == admitted(pool, force, devs.subrange(0, i)),
    decreases devs.len() - i,
{
    if i == devs.len() {
        assert(devs.subrange(0, i) =~= devs);
    } else {
        assert(devs.subrange(0, i + 1).drop_last() =~= devs.subrange(0, i));
        lemma_admitted_err_extends(pool, force, devs, i + 1);
    }
}

/// One returned entry corresponds to one admitted candidate: same node
/// path, same kernel identity, and a fresh well-formed record carrying
/// the pool identifier and the device's probed size in sectors.  Only the
/// device identifier is unconstrained: it is freshly random.
pub open spec fn init_entry_ok(
    pool: Uuid,
    mda_size: Sectors,
    a: (Device, DevInfo),
    o: (String, BlockDev),
) -> bool {
    &&& o.0 == a.1.devnode
    &&& o.1.dev == a.0
    &&& o.1.devnode == a.1.devnode
    &&& o.1.sigblock == SigBlock::spec_new(
        pool,
        o.1.sigblock.dev_uuid,
        mda_size,
        Sectors(a.1.size / SECTOR_SIZE),
    )
    &&& o.1.well_formed()
}

/// The initializer's output corresponds to the admitted candidates, in
/// order.
pub open spec fn init_output_ok(
    pool: Uuid,
    mda_size: Sectors,
    adm: Seq<(Device, DevInfo)>,
    out: Seq<(String, BlockDev)>,
) -> bool {
    &&& out.len() == adm.len()
    &&& forall|k: int| 0 <= k < adm.len() ==> init_entry_ok(pool, mda_size, #[trigger] adm[k], out[k])
}

/// Initialize a batch of candidate devices for a pool.
///
/// The requested metadata-area size is validated first; then every
/// candidate is validated, in order, before anything is claimed — a batch
/// with any unusable device fails as a whole, claiming nothing.  Admitted
/// devices (unowned ones, and foreign ones under `force`) each receive a
/// fresh signature record carrying the pool identifier, a fresh random
/// device identifier, and the device's probed size in sectors.  Devices
/// already owned by this pool are skipped, not re-claimed and not
/// returned.  The caller persists each returned record with
/// `write_sigblock`.
pub fn initialize(
    pool_uuid: &Uuid,
    devices: Vec<(Device, DevInfo)>,
    mda_size: Sectors,
    force: bool,
) -> (r: EngineResult<Vec<(String, BlockDev)>>)
    requires
        forall|k: int| 0 <= k < devices@.len() ==> (#[trigger] devices@[k].1.hdr)@.len() == 4096,
    ensures
        match r {
            Err(e) => match validate_mda_size_spec(mda_size.0) {
                Some(c) => e == EngineError::Invalid(c),
                None => (admitted(*pool_uuid, force, devices@) matches Err(c) && e
                    == EngineError::Invalid(c)),
            },
            Ok(out) => {
                &&& validate_mda_size_spec(mda_size.0) is None
                &&& (admitted(*pool_uuid, force, devices@) matches Ok(adm) && init_output_ok(
                    *pool_uuid,
                    mda_size,
                    adm,
                    out@,
                ))
            },
        },
{
    match validate_mda_size(mda_size) {
        Some(c) => {
            return Err(EngineError::Invalid(c));
        },
        None => {},
    }
    let n = devices.len();
    // First pass: validate every candidate before touching anything.
    let mut claim: Vec<bool> = Vec::new();
    let mut i: usize = 0;
    while i < n
        invariant
            i <= n,
            n == devices@.len(),
            valid_mda_size(mda_size.0),
            forall|k: int| 0 <= k < n ==> (#[trigger] devices@[k].1.hdr)@.len() == 4096,
            claim@.len() == i,
            forall|k: int|
                0 <= k < i ==> candidate_verdict(*pool_uuid, force, devices@[k].1) == Ok::<
                    bool,
                    InvalidCause,
                >(#[trigger] claim@[k]),
        decreases n - i,
    {
        let info = &devices[i].1;
        let verdict: Result<bool, InvalidCause> = match SigBlock::determine_ownership(
            info.hdr.as_slice(),
        ) {
            None => Err(InvalidCause::SigblockInvalid { devnode: info.devnode.clone() }),
            Some(o) => {
                if info.size < MIN_DEV_SIZE {
                    Err(
                        InvalidCause::DeviceTooSmall {
                            devnode: info.devnode.clone(),
                            size: info.size,
                        },
                    )
                } else {
                    match o {
                        DevOwnership::Unowned => Ok(true),
                        DevOwnership::Theirs => {
                            if force {
                                Ok(true)
                            } else {
                                Err(InvalidCause::NotZeroed { devnode: info.devnode.clone() })
                            }
                        },
                        DevOwnership::Ours(u) => {
                            if u.hi == pool_uuid.hi && u.lo == pool_uuid.lo {
                                Ok(false)
                            } else {
                                Err(
                                    InvalidCause::OwnedByOtherPool {
                                        devnode: info.devnode.clone(),
                                        pool: u,
                                    },
                                )
                            }
                        },
                    }
                }
            },
        };
        match verdict {
            Err(c) => {
                proof {
                    assert(candidate_verdict(*pool_uuid, force, devices@[i as int].1) == Err::<
                        bool,
                        InvalidCause,
                    >(c));
                    lemma_admitted_ok_prefix(*pool_uuid, force, devices@, claim@, i as int);
                    assert(devices@.subrange(0, i + 1 as int).drop_last() =~= devices@.subrange(
                        0,
                        i as int,
                    ));
                    assert(admitted(*pool_uuid, force, devices@.subrange(0, i + 1 as int))
                        == Err::<Seq<(Device, DevInfo)>, InvalidCause>(c));
                    lemma_admitted_err_extends(*pool_uuid, force, devices@, i + 1 as int);
                }
                return Err(EngineError::Invalid(c));
            },
            Ok(b) => {
                claim.push(b);
            },
        }
        i = i + 1;
    }
    // Second pass: claim the admitted devices.
    let mut out: Vec<(String, BlockDev)> = Vec::new();
    let ghost mut padm: Seq<(Device, DevInfo)> = Seq::empty();
    proof {
        assert(devices@.subrange(0, 0) =~= Seq::<(Device, DevInfo)>::empty());
    }
    let mut j: usize = 0;
    while j < n
        invariant
            j <= n,
            n == devices@.len(),
            valid_mda_size(mda_size.0),
            claim@.len() == n,
            forall|k: int|
                0 <= k < n ==> candidate_verdict(*pool_uuid, force, devices@[k].1) == Ok::<
                    bool,
                    InvalidCause,
                >(#[trigger] claim@[k]),
            admitted(*pool_uuid, force, devices@.subrange(0, j as int)) == Ok::<
                Seq<(Device, DevInfo)>,
                InvalidCause,
            >(padm),
            init_output_ok(*pool_uuid, mda_size, padm, out@),
        decreases n - j,
    {
        proof {
            assert(devices@.subrange(0, j + 1 as int).drop_last() =~= devices@.subrange(
                0,
                j as int,
            ));
        }
        if claim[j] {
            let dev = devices[j].0;
            let info = &devices[j].1;
            proof {
                assert(candidate_verdict(*pool_uuid, force, devices@[j as int].1) == Ok::<
                    bool,
                    InvalidCause,
                >(true));
                assert(info.size >= MIN_DEV_SIZE);
                lemma_valid_mda_fits_min_dev(mda_size.0);
                assert(info.size / SECTOR_SIZE >= MIN_DEV_SECTORS);
                assert(info.size / SECTOR_SIZE <= MAX_DEV_SECTORS);
            }
            let total = Sectors(info.size / SECTOR_SIZE);
            let dev_uuid = fresh_uuid();
            let sb = SigBlock::new(pool_uuid, &dev_uuid, mda_size, total);
            let bd = BlockDev { dev, devnode: info.devnode.clone(), sigblock: sb };
            out.push((info.devnode.clone(), bd));
            proof {
                padm = padm.push(devices@[j as int]);
            }
        }
        j = j + 1;
    }
    proof {
        assert(devices@.subrange(0, n as int) =~= devices@);
    }
    Ok(out)
}

/// A prefix whose candidates all passed admits without error.
proof fn lemma_admitted_ok_prefix(
    pool: Uuid,
    force: bool,
    devs: Seq<(Device, DevInfo)>,
    claim: Seq<bool>,
    i: int,
)
    requires
        0 <= i <= devs.len(),
        claim.len() >= i,
        forall|k: int|
            0 <= k < i ==> candidate_verdict(pool, force, devs[k].1) == Ok::<bool, InvalidCause>(
                #[trigger] claim[k],
            ),
    ensures
        admitted(pool, force, devs.subrange(0, i)) is Ok,
    decreases i,
{
    if i > 0 {
        lemma_admitted_ok_prefix(pool, force, devs, claim, i - 1);
        assert(devs.subrange(0, i).drop_last() =~= devs.subrange(0, i - 1));
        assert(devs.subrange(0, i).last() == devs[i - 1]);
        assert(candidate_verdict(pool, force, devs[i - 1].1) == Ok::<bool, InvalidCause>(
            claim[i - 1],
        ));
    }
}

/// The acceptability of a metadata-area size, with the cause of a
/// rejection.
pub open spec fn validate_mda_size_spec(mda: u64) -> Option<InvalidCause> {
    if mda % 2 != 0 {
        Some(InvalidCause::MdaSizeOdd { mda_size: mda })
    } else if mda < crate::types::MIN_MDA_SECTORS {
        Some(InvalidCause::MdaSizeTooSmall { mda_size: mda })
    } else if mda > crate::types::MAX_MDA_SECTORS {
        Some(InvalidCause::MdaSizeTooLarge { mda_size: mda })
    } else {
        None
    }
}

/// What the unverified edge gathers about one device-node entry during a
/// scan: kernel identity, node path, probed size in bytes, and the first
/// 4096 bytes.  Entries that could not be opened or read are skipped by
/// the edge and never reach the scan.
#[derive(Debug)]
pub struct Probe {
    pub dev: Device,
    pub devnode: String,
    pub size: u64,
    pub hdr: Vec<u8>,
}

/// One pool's devices, keyed by device identifier.
#[derive(Debug, PartialEq, Eq)]
pub struct PoolEntry {
    pub pool_uuid: Uuid,
    pub devs: Vec<(Uuid, BlockDev)>,
}

/// The discovery result: pool identifier to (device identifier to
/// claimed device).
#[derive(Debug, PartialEq, Eq)]
pub struct PoolMap {
    pub pools: Vec<PoolEntry>,
}

/// The map an association list denotes; later entries override earlier
/// ones.
pub open spec fn devs_view(s: Seq<(Uuid, BlockDev)>) -> Map<Uuid, BlockDev>
    decreases s.len(),
{
    if s.len() == 0 {
        Map::empty()
    } else {
        devs_view(s.drop_last()).insert(s.last().0, s.last().1)
    }
}

/// The nested map a pool list denotes.
pub open spec fn pools_view(s: Seq<PoolEntry>) -> Map<Uuid, Map<Uuid, BlockDev>>
    decreases s.len(),
{
    if s.len() == 0 {
        Map::empty()
    } else {
        pools_view(s.drop_last()).insert(s.last().pool_uuid, devs_view(s.last().devs@))
    }
}

proof fn lemma_devs_view_keys(s: Seq<(Uuid, BlockDev)>, u: Uuid)
    ensures
        devs_view(s).contains_key(u) <==> exists|k: int| 0 <= k < s.len() && s[k].0 == u,
    decreases s.len(),
{
    if s.len() > 0 {
        lemma_devs_view_keys(s.drop_last(), u);
        if devs_view(s).contains_key(u) {
            if s.last().0 != u {
                let k = choose|k: int| 0 <= k < s.len() - 1 && s.drop_last()[k].0 == u;
                assert(s[k].0 == u);
            } else {
                assert(s[s.len() - 1].0 == u);
            }
        }
        if exists|k: int| 0 <= k < s.len() && s[k].0 == u {
            let k = choose|k: int| 0 <= k < s.len() && s[k].0 == u;
            if k < s.len() - 1 {
                assert(s.drop_last()[k].0 == u);
            }
        }
    }
}

proof fn lemma_pools_view_keys(s: Seq<PoolEntry>, p: Uuid)
    ensures
        pools_view(s).contains_key(p) <==> exists|k: int| 0 <= k < s.len() && s[k].pool_uuid == p,
    decreases s.len(),
{
    if s.len() > 0 {
        lemma_pools_view_keys(s.drop_last(), p);
        if pools_view(s).contains_key(p) {
            if s.last().pool_uuid != p {
                let k = choose|k: int| 0 <= k < s.len() - 1 && s.drop_last()[k].pool_uuid == p;
                assert(s[k].pool_uuid == p);
            } else {
                assert(s[s.len() - 1].pool_uuid == p);
            }
        }
        if exists|k: int| 0 <= k < s.len() && s[k].pool_uuid == p {
            let k = choose|k: int| 0 <= k < s.len() && s[k].pool_uuid == p;
            if k < s.len() - 1 {
                assert(s.drop_last()[k].pool_uuid == p);
            }
        }
    }
}

/// With unique device keys, replacing the entry at `j` updates the map at
/// that key alone.
proof fn lemma_devs_view_update(s: Seq<(Uuid, BlockDev)>, j: int, b: BlockDev)
    requires
        0 <= j < s.len(),
        forall|x: int, y: int| 0 <= x < y < s.len() ==> s[x].0 != s[y].0,
    ensures
        devs_view(s.update(j, (s[j].0, b))) == devs_view(s).insert(s[j].0, b),
    decreases s.len(),
{
    let s2 = s.update(j, (s[j].0, b));
    if j == s.len() - 1 {
        assert(s2.drop_last() =~= s.drop_last());
        assert(devs_view(s2) =~= devs_view(s).insert(s[j].0, b));
    } else {
        assert(s2.drop_last() =~= s.drop_last().update(j, (s[j].0, b)));
        assert(s.drop_last()[j] == s[j]);
        lemma_devs_view_update(s.drop_last(), j, b);
        assert(s[j].0 != s.last().0);
        assert(devs_view(s2) =~= devs_view(s).insert(s[j].0, b));
    }
}

/// With unique pool keys, replacing the entry at `i` (keeping its key)
/// updates the nested map at that key alone.
proof fn lemma_pools_view_update(s: Seq<PoolEntry>, i: int, e: PoolEntry)
    requires
        0 <= i < s.len(),
        e.pool_uuid == s[i].pool_uuid,
        forall|x: int, y: int| 0 <= x < y < s.len() ==> s[x].pool_uuid != s[y].pool_uuid,
    ensures
        pools_view(s.update(i, e)) == pools_view(s).insert(e.pool_uuid, devs_view(e.devs@)),
    decreases s.len(),
{
    let s2 = s.update(i, e);
    if i == s.len() - 1 {
        assert(s2.drop_last() =~= s.drop_last());
        assert(pools_view(s2) =~= pools_view(s).insert(e.pool_uuid, devs_view(e.devs@)));
    } else {
        assert(s2.drop_last() =~= s.drop_last().update(i, e));
        assert(s.drop_last()[i] == s[i]);
        lemma_pools_view_update(s.drop_last(), i, e);
        assert(e.pool_uuid != s.last().pool_uuid);
        assert(pools_view(s2) =~= pools_view(s).insert(e.pool_uuid, devs_view(e.devs@)));
    }
}

/// With unique pool keys, the nested map at the key of entry `i` is that
/// entry's own map.
proof fn lemma_pools_view_index(s: Seq<PoolEntry>, i: int)
    requires
        0 <= i < s.len(),
        forall|x: int, y: int| 0 <= x < y < s.len() ==> s[x].pool_uuid != s[y].pool_uuid,
    ensures
        pools_view(s).contains_key(s[i].pool_uuid),
        pools_view(s)[s[i].pool_uuid] == devs_view(s[i].devs@),
    decreases s.len(),
{
    if i == s.len() - 1 {
    } else {
        lemma_pools_view_index(s.drop_last(), i);
        assert(s.drop_last()[i] == s[i]);
        assert(s[i].pool_uuid != s.last().pool_uuid);
    }
}

impl PoolMap {
    /// The nested map this structure denotes.
    pub open spec fn as_map(self) -> Map<Uuid, Map<Uuid, BlockDev>> {
        pools_view(self.pools@)
    }

    /// Pool identifiers are unique, and device identifiers are unique
    /// within each pool.
    pub open spec fn well_formed(self) -> bool {
        &&& forall|x: int, y: int|
            0 <= x < y < self.pools@.len() ==> self.pools@[x].pool_uuid != self.pools@[y].pool_uuid
        &&& forall|p: int, x: int, y: int|
            #![trigger self.pools@[p].devs@[x], self.pools@[p].devs@[y]]
            0 <= p < self.pools@.len() && 0 <= x < y < self.pools@[p].devs@.len()
                ==> self.pools@[p].devs@[x].0 != self.pools@[p].devs@[y].0
    }

    /// The empty map.
    pub fn new() -> (r: PoolMap)
        ensures
            r.well_formed(),
            r.as_map() == Map::<Uuid, Map<Uuid, BlockDev>>::empty(),
    {
        PoolMap { pools: Vec::new() }
    }

    fn find_pool(&self, pool: &Uuid) -> (r: Option<usize>)
        ensures
            match r {
                Some(i) => i < self.pools@.len() && self.pools@[i as int].pool_uuid == *pool,
                None => forall|k: int|
                    0 <= k < self.pools@.len() ==> (#[trigger] self.pools@[k]).pool_uuid != *pool,
            },
    {
        let n = self.pools.len();
        let mut i: usize = 0;
        while i < n
            invariant
                i <= n,
                n == self.pools@.len(),
                forall|k: int| 0 <= k < i ==> (#[trigger] self.pools@[k]).pool_uuid != *pool,
            decreases n - i,
        {
            if self.pools[i].pool_uuid == *pool {
                return Some(i);
            }
            i = i + 1;
        }
        None
    }

    /// Record a discovered device under its pool; an entry with the same
    /// pool and device identifier is replaced.
    pub fn insert(&mut self, pool: Uuid, dev_uuid: Uuid, bd: BlockDev)
        requires
            old(self).well_formed(),
        ensures
            final(self).well_formed(),
            final(self).as_map() == old(self).as_map().insert(
                pool,
                (if old(self).as_map().contains_key(pool) {
                    old(self).as_map()[pool]
                } else {
                    Map::<Uuid, BlockDev>::empty()
                }).insert(dev_uuid, bd),
            ),
    {
        let found = self.find_pool(&pool);
        match found {
            None => {
                proof {
                    lemma_pools_view_keys(self.pools@, pool);
                }
                let mut devs: Vec<(Uuid, BlockDev)> = Vec::new();
                devs.push((dev_uuid, bd));
                let ghost pre = self.pools@;
                let entry = PoolEntry { pool_uuid: pool, devs };
                let ghost e = entry;
                self.pools.push(entry);
                proof {
                    assert(self.pools@.drop_last() =~= pre);
                    assert(e.devs@.len() == 1);
                    assert(e.devs@.last() == (dev_uuid, bd));
                    assert(e.devs@.drop_last().len() == 0);
                    assert(devs_view(e.devs@.drop_last()) =~= Map::<Uuid, BlockDev>::empty());
                    assert(devs_view(e.devs@) =~= Map::<Uuid, BlockDev>::empty().insert(
                        dev_uuid,
                        bd,
                    ));
                    assert forall|x: int, y: int|
                        0 <= x < y < self.pools@.len() implies self.pools@[x].pool_uuid
                        != self.pools@[y].pool_uuid by {
                        if y < self.pools@.len() - 1 {
                            assert(pre[x].pool_uuid != pre[y].pool_uuid);
                        }
                    }
                }
            },
            Some(i) => {
                proof {
                    lemma_pools_view_index(self.pools@, i as int);
                }
                let ghost pre = self.pools@;
                let mut entry = self.pools.remove(i);
                let fd = find_dev(&entry.devs, &dev_uuid);
                let ghost predevs = entry.devs@;
                match fd {
                    None => {
                        proof {
                            lemma_devs_view_keys(predevs, dev_uuid);
                        }
                        entry.devs.push((dev_uuid, bd));
                        proof {
                            assert(entry.devs@.drop_last() =~= predevs);
                        }
                    },
                    Some(j) => {
                        proof {
                            lemma_devs_view_update(predevs, j as int, bd);
                        }
                        entry.devs.remove(j);
                        entry.devs.insert(j, (dev_uuid, bd));
                        proof {
                            assert(entry.devs@ =~= predevs.update(j as int, (
                                predevs[j as int].0,
                                bd,
                            )));
                        }
                    },
                }
                proof {
                    assert(devs_view(entry.devs@) == devs_view(predevs).insert(dev_uuid, bd));
                }
                let ghost e = entry;
                self.pools.insert(i, entry);
                proof {
                    assert(self.pools@ =~= pre.update(i as int, e));
                    lemma_pools_view_update(pre, i as int, e);
                    assert forall|pp: int, x: int, y: int|
                        #![trigger self.pools@[pp].devs@[x], self.pools@[pp].devs@[y]]
                        0 <= pp < self.pools@.len() && 0 <= x < y
                            < self.pools@[pp].devs@.len() implies self.pools@[pp].devs@[x].0
                        != self.pools@[pp].devs@[y].0 by {
                        if pp != i {
                            assert(self.pools@[pp] == pre[pp]);
                        } else {
                            assert(self.pools@[pp] == e);
                        }
                    }
                }
            },
        }
    }
}

fn find_dev(devs: &Vec<(Uuid, BlockDev)>, u: &Uuid) -> (r: Option<usize>)
    ensures
        match r {
            Some(j) => j < devs@.len() && devs@[j as int].0 == *u,
            None => forall|k: int| 0 <= k < devs@.len() ==> (#[trigger] devs@[k]).0 != *u,
        },
{
    let n = devs.len();
    let mut j: usize = 0;
    while j < n
        invariant
            j <= n,
            n == devs@.len(),
            forall|k: int| 0 <= k < j ==> (#[trigger] devs@[k]).0 != *u,
        decreases n - j,
    {
        if devs[j].0 == *u {
            return Some(j);
        }
        j = j + 1;
    }
    None
}

/// The map a scan of the given probes assembles, or its first hard
/// error.  Unowned and foreign entries are skipped; a malformed header,
/// or a recognized signature that fails validation, rejects the whole
/// scan.
pub open spec fn scan_all(probes: Seq<Probe>) -> Result<Map<Uuid, Map<Uuid, BlockDev>>, InvalidCause>
    decreases probes.len(),
{
    if probes.len() == 0 {
        Ok(Map::empty())
    } else {
        match scan_all(probes.drop_last()) {
            Err(c) => Err(c),
            Ok(m) => {
                let p = probes.last();
                match spec_ownership(p.hdr@) {
                    None => Err(InvalidCause::SigblockInvalid { devnode: p.devnode }),
                    Some(DevOwnership::Ours(_)) => match spec_read(
                        p.hdr@,
                        512,
                        Sectors(p.size / SECTOR_SIZE),
                    ) {
                        None => Err(InvalidCause::SigblockInvalid { devnode: p.devnode }),
                        Some(sb) => Ok(
                            m.insert(
                                sb.pool_uuid,
                                (if m.contains_key(sb.pool_uuid) {
                                    m[sb.pool_uuid]
                                } else {
                                    Map::<Uuid, BlockDev>::empty()
                                }).insert(
                                    sb.dev_uuid,
                                    BlockDev { dev: p.dev, devnode: p.devnode, sigblock: sb },
                                ),
                            ),
                        ),
                    },
                    Some(_) => Ok(m),
                }
            },
        }
    }
}

/// A scan error at position `i` rejects every extension of the prefix.
proof fn lemma_scan_err_extends(probes: Seq<Probe>, i: int)
    requires
        0 <= i <= probes.len(),
        scan_all(probes.subrange(0, i)) is Err,
    ensures
        scan_all(probes) == scan_all(probes.subrange(0, i)),
    decreases probes.len() - i,
{
    if i == probes.len() {
        assert(probes.subrange(0, i) =~= probes);
    } else {
        assert(probes.subrange(0, i + 1).drop_last() =~= probes.subrange(0, i));
        lemma_scan_err_extends(probes, i + 1);
    }
}

/// Assemble the pool map from probed device-node entries.
///
/// Entries whose header is not a recognizable signature are skipped
/// (unowned or foreign devices are no error), but a header that carries
/// the signature magic and fails validation — a malformed sigblock, a bad
/// CRC, or a stored size contradicting the probed size — aborts the whole
/// scan: a recognizable but corrupt pool member must be seen, not
/// silently dropped.  Each discovered device is indexed by its pool and
/// device identifiers, with its size taken from the probe.
pub fn find_all(probes: &Vec<Probe>) -> (r: EngineResult<PoolMap>)
    requires
        forall|k: int| 0 <= k < probes@.len() ==> (#[trigger] probes@[k].hdr)@.len() == 4096,
    ensures
        match r {
            Ok(pm) => {
                &&& pm.well_formed()
                &&& scan_all(probes@) == Ok::<Map<Uuid, Map<Uuid, BlockDev>>, InvalidCause>(
                    pm.as_map(),
                )
            },
            Err(e) => (scan_all(probes@) matches Err(c) && e == EngineError::Invalid(c)),
        },
{
    let n = probes.len();
    let mut pm = PoolMap::new();
    let mut i: usize = 0;
    while i < n
        invariant
            i <= n,
            n == probes@.len(),
            forall|k: int| 0 <= k < n ==> (#[trigger] probes@[k].hdr)@.len() == 4096,
            pm.well_formed(),
            scan_all(probes@.subrange(0, i as int)) == Ok::<
                Map<Uuid, Map<Uuid, BlockDev>>,
                InvalidCause,
            >(pm.as_map()),
        decreases n - i,
    {
        proof {
            assert(probes@.subrange(0, i + 1 as int).drop_last() =~= probes@.subrange(0, i as int));
            assert(probes@.subrange(0, i + 1 as int).last() == probes@[i as int]);
        }
        let p = &probes[i];
        match SigBlock::determine_ownership(p.hdr.as_slice()) {
            None => {
                let c = InvalidCause::SigblockInvalid { devnode: p.devnode.clone() };
                proof {
                    lemma_scan_err_extends(probes@, i + 1 as int);
                }
                return Err(EngineError::Invalid(c));
            },
            Some(o) => {
                match o {
                    DevOwnership::Ours(_) => {
                        match SigBlock::read(p.hdr.as_slice(), 512, Sectors(p.size / SECTOR_SIZE)) {
                            None => {
                                let c = InvalidCause::SigblockInvalid {
                                    devnode: p.devnode.clone(),
                                };
                                proof {
                                    lemma_scan_err_extends(probes@, i + 1 as int);
                                }
                                return Err(EngineError::Invalid(c));
                            },
                            Some(sb) => {
                                let bd = BlockDev {
                                    dev: p.dev,
                                    devnode: p.devnode.clone(),
                                    sigblock: sb,
                                };
                                pm.insert(sb.pool_uuid, sb.dev_uuid, bd);
                            },
                        }
                    },
                    _ => {},
                }
            },
        }
        i = i + 1;
    }
    proof {
        assert(probes@.subrange(0, n as int) =~= probes@);
    }
    Ok(pm)
}

} // verus!
