//! Capacity campaign declarations and the fixed-layout capacity report: the
//! resource registry, campaign identities and configuration, and the
//! checksummed little-endian report a host decoder consumes.

use vstd::prelude::*;

use crate::health::{same_module, ModuleId};
use crate::instrumentation::{fnv_byte, FNV1A32_OFFSET, FNV1A32_PRIME};

verus! {

pub const CAPACITY_REPORT_MAGIC: u32 = 0x4E42_5243;

pub const CAPACITY_REPORT_VERSION: u32 = 1;

pub const CAPACITY_RESOURCE_RECORD_BYTES: usize = 60;

pub const CAPACITY_REPORT_FIXED_BYTES: usize = 184;

pub const CAPACITY_FLAG_IDENTITY_MISSING: u32 = 1;

pub const CAPACITY_FLAG_SESSION_MISMATCH: u32 = 2;

pub const CAPACITY_FLAG_RESOURCE_MISSING: u32 = 4;

pub const CAPACITY_FLAG_DECLARATION_MISMATCH: u32 = 8;

pub const CAPACITY_FLAG_UNEXPECTED_PATH: u32 = 16;

pub const CAPACITY_FLAG_INCOMPLETE: u32 = 32;

pub const CAPACITY_FLAG_SIZE_OVERFLOW: u32 = 64;

#[derive(Clone, Copy, Debug, PartialEq, Eq, Structural)]
pub enum CapacityResourceKind {
    StackBytes,
    QueueSlots,
    PoolSlots,
}

pub open spec fn kind_code(kind: CapacityResourceKind) -> u32 {
    match kind {
        CapacityResourceKind::StackBytes => 1,
        CapacityResourceKind::QueueSlots => 2,
        CapacityResourceKind::PoolSlots => 3,
    }
}

impl CapacityResourceKind {
    /// The kind's code in a report record.
    pub fn code(self) -> (r: u32)
        ensures
            r == kind_code(self),
    {
        match self {
            CapacityResourceKind::StackBytes => 1,
            CapacityResourceKind::QueueSlots => 2,
            CapacityResourceKind::PoolSlots => 3,
        }
    }
}

/// Where a resource's observations come from.
#[derive(Clone, Copy, Debug, PartialEq, Eq, Structural)]
pub enum CapacityResourceSource {
    Stack(ModuleId),
    Mailbox,
    SamplePool,
}

/// One declared resource: a 32-byte identity, its kind, declared size and
/// reporting granularity, and its observation source.
#[derive(Clone, Copy, Debug, PartialEq, Eq)]
pub struct CapacityResource {
    resource_id: [u8; 32],
    kind: CapacityResourceKind,
    declared: u32,
    granularity: u32,
    source: CapacityResourceSource,
}

impl CapacityResource {
    pub closed spec fn spec_id(self) -> Seq<u8> {
        self.resource_id@
    }

    pub closed spec fn spec_kind(self) -> CapacityResourceKind {
        self.kind
    }

    pub closed spec fn spec_declared(self) -> u32 {
        self.declared
    }

    pub closed spec fn spec_granularity(self) -> u32 {
        self.granularity
    }

    pub closed spec fn spec_source(self) -> CapacityResourceSource {
        self.source
    }

    /// A guarded stack of `module`, measured in bytes.
    pub fn stack(resource_id: [u8; 32], module: ModuleId, declared_bytes: u32, granularity_bytes: u32) -> (r: Self)
        ensures
            r.spec_id() == resource_id@,
            r.spec_kind() == CapacityResourceKind::StackBytes,
            r.spec_declared() == declared_bytes,
            r.spec_granularity() == granularity_bytes,
            r.spec_source() == CapacityResourceSource::Stack(module),
    {
        CapacityResource {
            resource_id,
            kind: CapacityResourceKind::StackBytes,
            declared: declared_bytes,
            granularity: granularity_bytes,
            source: CapacityResourceSource::Stack(module),
        }
    }

    /// The kernel mailbox, measured in queue slots.
    pub fn mailbox(resource_id: [u8; 32], declared_slots: u32, granularity_slots: u32) -> (r: Self)
        ensures
            r.spec_id() == resource_id@,
            r.spec_kind() == CapacityResourceKind::QueueSlots,
            r.spec_declared() == declared_slots,
            r.spec_granularity() == granularity_slots,
            r.spec_source() == CapacityResourceSource::Mailbox,
    {
        CapacityResource {
            resource_id,
            kind: CapacityResourceKind::QueueSlots,
            declared: declared_slots,
            granularity: granularity_slots,
            source: CapacityResourceSource::Mailbox,
        }
    }

    /// The sample pool, measured in pool slots.
    pub fn sample_pool(resource_id: [u8; 32], declared_slots: u32, granularity_slots: u32) -> (r: Self)
        ensures
            r.spec_id() == resource_id@,
            r.spec_kind() == CapacityResourceKind::PoolSlots,
            r.spec_declared() == declared_slots,
            r.spec_granularity() == granularity_slots,
            r.spec_source() == CapacityResourceSource::SamplePool,
    {
        CapacityResource {
            resource_id,
            kind: CapacityResourceKind::PoolSlots,
            declared: declared_slots,
            granularity: granularity_slots,
            source: CapacityResourceSource::SamplePool,
        }
    }

    pub fn resource_id(&self) -> (r: &[u8; 32])
        ensures
            r@ == self.spec_id(),
    {
        &self.resource_id
    }

    pub fn kind(&self) -> (r: CapacityResourceKind)
        ensures
            r == self.spec_kind(),
    {
        self.kind
    }

    pub fn declared(&self) -> (r: u32)
        ensures
            r == self.spec_declared(),
    {
        self.declared
    }

    pub fn granularity(&self) -> (r: u32)
        ensures
            r == self.spec_granularity(),
    {
        self.granularity
    }
}

#[derive(Clone, Copy, Debug, PartialEq, Eq, Structural)]
pub enum CapacityRegistryError {
    Full,
    ZeroIdentity,
    ZeroDeclaration,
    ZeroGranularity,
    DuplicateResource,
    DuplicateSource,
}

/// An identity of all zero bytes names nothing.
pub open spec fn zero_identity(id: Seq<u8>) -> bool {
    forall|i: int| 0 <= i < id.len() ==> #[trigger] id[i] == 0
}

/// Why a resource cannot join a registry already holding `entries`.
pub open spec fn register_verdict(entries: Seq<CapacityResource>, capacity: int, r: CapacityResource) -> Option<CapacityRegistryError> {
    if zero_identity(r.spec_id()) {
        Some(CapacityRegistryError::ZeroIdentity)
    } else if r.spec_declared() == 0 {
        Some(CapacityRegistryError::ZeroDeclaration)
    } else if r.spec_granularity() == 0 {
        Some(CapacityRegistryError::ZeroGranularity)
    } else if exists|i: int| 0 <= i < entries.len() && #[trigger] entries[i].spec_id() == r.spec_id() {
        Some(CapacityRegistryError::DuplicateResource)
    } else if exists|i: int| 0 <= i < entries.len() && #[trigger] entries[i].spec_source() == r.spec_source() {
        Some(CapacityRegistryError::DuplicateSource)
    } else if entries.len() >= capacity {
        Some(CapacityRegistryError::Full)
    } else {
        None
    }
}

fn is_zero_identity(id: &[u8; 32]) -> (r: bool)
    ensures
        r == zero_identity(id@),
{
    let mut i: usize = 0;
    while i < 32
        invariant
            i <= 32,
            id@.len() == 32,
            forall|k: int| 0 <= k < i ==> #[trigger] id@[k] == 0,
        decreases 32 - i,
    {
        if id[i] != 0 {
            return false;
        }
        i += 1;
    }
    true
}

fn same_identity(a: &[u8; 32], b: &[u8; 32]) -> (r: bool)
    ensures
        r == (a@ == b@),
{
    let mut i: usize = 0;
    while i < 32
        invariant
            i <= 32,
            a@.len() == 32 && b@.len() == 32,
            forall|k: int| 0 <= k < i ==> a@[k] == b@[k],
        decreases 32 - i,
    {
        if a[i] != b[i] {
            return false;
        }
        i += 1;
    }
    assert(a@ =~= b@);
    true
}

fn same_source(a: CapacityResourceSource, b: CapacityResourceSource) -> (r: bool)
    ensures
        r == (a == b),
{
    match (a, b) {
        (CapacityResourceSource::Stack(x), CapacityResourceSource::Stack(y)) => same_module(x, y),
        (CapacityResourceSource::Mailbox, CapacityResourceSource::Mailbox) => true,
        (CapacityResourceSource::SamplePool, CapacityResourceSource::SamplePool) => true,
        _ => false,
    }
}

/// At most `N` declared resources with distinct identities and sources.
pub struct CapacityRegistry<const N: usize> {
    entries: Vec<CapacityResource>,
}

impl<const N: usize> CapacityRegistry<N> {
    /// The registered resources, in registration order.
    pub closed spec fn resources(self) -> Seq<CapacityResource> {
        self.entries@
    }

    pub closed spec fn wf(self) -> bool {
        self.entries@.len() <= N
    }

    pub fn new() -> (r: Self)
        ensures
            r.wf(),
            r.resources().len() == 0,
    {
        CapacityRegistry { entries: Vec::new() }
    }

    /// Declare one more resource: refused for a zero identity, declaration or
    /// granularity, a repeated identity or source, or a full registry.
    pub fn register(&mut self, resource: CapacityResource) -> (r: Result<(), CapacityRegistryError>)
        requires
            old(self).wf(),
        ensures
            final(self).wf(),
            register_verdict(old(self).resources(), N as int, resource) matches Some(e)
                ==> r == Err::<(), CapacityRegistryError>(e) && final(self).resources() == old(self).resources(),
            register_verdict(old(self).resources(), N as int, resource) is None
                ==> r is Ok && final(self).resources() == old(self).resources().push(resource),
    {
        if is_zero_identity(&resource.resource_id) {
            return Err(CapacityRegistryError::ZeroIdentity);
        }
        if resource.declared == 0 {
            return Err(CapacityRegistryError::ZeroDeclaration);
        }
        if resource.granularity == 0 {
            return Err(CapacityRegistryError::ZeroGranularity);
        }
        let mut i: usize = 0;
        while i < self.entries.len()
            invariant
                i <= self.entries@.len(),
                self.wf(),
                *self == *old(self),
                !zero_identity(resource.spec_id()),
                resource.spec_declared() != 0 && resource.spec_granularity() != 0,
                forall|k: int| 0 <= k < i ==> #[trigger] self.entries@[k].spec_id() != resource.spec_id(),
            decreases self.entries.len() - i,
        {
            if same_identity(&self.entries[i].resource_id, &resource.resource_id) {
                assert(self.entries@[i as int].spec_id() == resource.spec_id());
                return Err(CapacityRegistryError::DuplicateResource);
            }
            i += 1;
        }
        let mut i: usize = 0;
        while i < self.entries.len()
            invariant
                i <= self.entries@.len(),
                self.wf(),
                *self == *old(self),
                !zero_identity(resource.spec_id()),
                resource.spec_declared() != 0 && resource.spec_granularity() != 0,
                forall|k: int| 0 <= k < self.entries@.len() ==> #[trigger] self.entries@[k].spec_id() != resource.spec_id(),
                forall|k: int| 0 <= k < i ==> #[trigger] self.entries@[k].spec_source() != resource.spec_source(),
            decreases self.entries.len() - i,
        {
            if same_source(self.entries[i].source, resource.source) {
                assert(self.entries@[i as int].spec_source() == resource.spec_source());
                return Err(CapacityRegistryError::DuplicateSource);
            }
            i += 1;
        }
        if self.entries.len() >= N {
            return Err(CapacityRegistryError::Full);
        }
        self.entries.push(resource);
        Ok(())
    }

    /// The registered resources, in registration order.
    pub fn iter(&self) -> (r: Vec<CapacityResource>)
        ensures
            r@ == self.resources(),
    {
        self.entries.clone()
    }

    pub fn len(&self) -> (r: usize)
        ensures
            r == self.resources().len(),
    {
        self.entries.len()
    }

    pub fn is_empty(&self) -> (r: bool)
        ensures
            r == (self.resources().len() == 0),
    {
        self.entries.len() == 0
    }
}

impl<const N: usize> Default for CapacityRegistry<N> {
    fn default() -> (r: Self)
        ensures
            r.wf(),
            r.resources().len() == 0,
    {
        Self::new()
    }
}

/// The build, workload and declaration a campaign measures.
#[derive(Clone, Copy, Debug, PartialEq, Eq)]
pub struct CapacityIdentity {
    pub build_id: [u8; 32],
    pub workload_id: [u8; 32],
    pub declaration_id: [u8; 32],
}

pub open spec fn identity_complete(i: CapacityIdentity) -> bool {
    !zero_identity(i.build_id@) && !zero_identity(i.workload_id@) && !zero_identity(i.declaration_id@)
}

impl CapacityIdentity {
    pub fn new(build_id: [u8; 32], workload_id: [u8; 32], declaration_id: [u8; 32]) -> (r: Self)
        ensures
            r == (CapacityIdentity { build_id, workload_id, declaration_id }),
    {
        CapacityIdentity { build_id, workload_id, declaration_id }
    }

    /// No identity is all zeros.
    pub fn is_complete(self) -> (r: bool)
        ensures
            r == identity_complete(self),
    {
        !is_zero_identity(&self.build_id) && !is_zero_identity(&self.workload_id) && !is_zero_identity(
            &self.declaration_id,
        )
    }
}

#[derive(Clone, Copy, Debug, PartialEq, Eq)]
pub struct CapacityCampaignConfig {
    pub identity: CapacityIdentity,
    pub session_id: u32,
    pub margin_percent: u32,
    pub unseen_path_reserve_percent: u32,
    pub required_paths: u64,
    pub isr_paths: u64,
}

#[derive(Clone, Copy, Debug, PartialEq, Eq, Structural)]
pub enum CapacityCampaignError {
    ZeroSession,
    ReusedSession,
    IdentityMissing,
    InvalidMargin,
    InvalidReserve,
    NoRequiredPaths,
    IsrPathNotRequired,
    InvalidPath,
    UndeclaredPath,
    CampaignFinished,
    SessionStartRejected,
}

/// Why a campaign configuration is refused, if it is.
pub open spec fn config_verdict(c: CapacityCampaignConfig) -> Option<CapacityCampaignError> {
    if c.session_id == 0 {
        Some(CapacityCampaignError::ZeroSession)
    } else if !identity_complete(c.identity) {
        Some(CapacityCampaignError::IdentityMissing)
    } else if c.margin_percent > 1_000 {
        Some(CapacityCampaignError::InvalidMargin)
    } else if c.unseen_path_reserve_percent == 0 || c.unseen_path_reserve_percent > 1_000 {
        Some(CapacityCampaignError::InvalidReserve)
    } else if c.required_paths == 0 {
        Some(CapacityCampaignError::NoRequiredPaths)
    } else if c.isr_paths & !c.required_paths != 0 {
        Some(CapacityCampaignError::IsrPathNotRequired)
    } else {
        None
    }
}

/// Check a campaign configuration before a session starts: a nonzero
/// session, a complete identity, margin and reserve within 0..=1000 percent
/// (reserve nonzero), some required path, and ISR paths among the required.
pub fn validate_config(config: CapacityCampaignConfig) -> (r: Result<(), CapacityCampaignError>)
    ensures
        config_verdict(config) matches Some(e) ==> r == Err::<(), CapacityCampaignError>(e),
        config_verdict(config) is None ==> r is Ok,
{
    if config.session_id == 0 {
        return Err(CapacityCampaignError::ZeroSession);
    }
    if !config.identity.is_complete() {
        return Err(CapacityCampaignError::IdentityMissing);
    }
    if config.margin_percent > 1_000 {
        return Err(CapacityCampaignError::InvalidMargin);
    }
    if config.unseen_path_reserve_percent == 0 || config.unseen_path_reserve_percent > 1_000 {
        return Err(CapacityCampaignError::InvalidReserve);
    }
    if config.required_paths == 0 {
        return Err(CapacityCampaignError::NoRequiredPaths);
    }
    if config.isr_paths & !config.required_paths != 0 {
        return Err(CapacityCampaignError::IsrPathNotRequired);
    }
    Ok(())
}

/// One resource's line in a report.
#[derive(Clone, Copy, Debug, PartialEq, Eq)]
pub struct CapacityResourceRecord {
    pub resource_id: [u8; 32],
    pub kind: u32,
    pub declared: u32,
    pub observed_peak: u32,
    pub granularity: u32,
    pub saturated: u32,
    pub dropped: u32,
    pub failure_count: u32,
}

impl CapacityResourceRecord {
    pub fn zeroed() -> (r: Self)
        ensures
            zero_identity(r.resource_id@),
            r.kind == 0 && r.declared == 0 && r.observed_peak == 0 && r.granularity == 0,
            r.saturated == 0 && r.dropped == 0 && r.failure_count == 0,
    {
        CapacityResourceRecord {
            resource_id: [0; 32],
            kind: 0,
            declared: 0,
            observed_peak: 0,
            granularity: 0,
            saturated: 0,
            dropped: 0,
            failure_count: 0,
        }
    }

    /// The record of a declared resource before any observation.
    pub fn from_resource(resource: CapacityResource) -> (r: Self)
        ensures
            r.resource_id@ == resource.spec_id(),
            r.kind == kind_code(resource.spec_kind()),
            r.declared == resource.spec_declared(),
            r.granularity == resource.spec_granularity(),
            r.observed_peak == 0 && r.saturated == 0 && r.dropped == 0 && r.failure_count == 0,
    {
        CapacityResourceRecord {
            resource_id: resource.resource_id,
            kind: resource.kind.code(),
            declared: resource.declared,
            observed_peak: 0,
            granularity: resource.granularity,
            saturated: 0,
            dropped: 0,
            failure_count: 0,
        }
    }
}

/// The little-endian bytes of a word.
pub open spec fn le_bytes(x: u32) -> Seq<u8> {
    seq![(x & 0xff) as u8, ((x >> 8u32) & 0xff) as u8, ((x >> 16u32) & 0xff) as u8, ((x >> 24u32) & 0xff) as u8]
}

pub open spec fn record_bytes(r: CapacityResourceRecord) -> Seq<u8> {
    r.resource_id@ + le_bytes(r.kind) + le_bytes(r.declared) + le_bytes(r.observed_peak) + le_bytes(r.granularity)
        + le_bytes(r.saturated) + le_bytes(r.dropped) + le_bytes(r.failure_count)
}

pub open spec fn records_bytes(rs: Seq<CapacityResourceRecord>) -> Seq<u8>
    decreases rs.len(),
{
    if rs.len() == 0 {
        Seq::empty()
    } else {
        records_bytes(rs.drop_last()) + record_bytes(rs.last())
    }
}

/// FNV-1a over a byte sequence, from the offset basis.
pub open spec fn fnv_bytes(bytes: Seq<u8>) -> u32
    decreases bytes.len(),
{
    if bytes.len() == 0 {
        FNV1A32_OFFSET
    } else {
        fnv_byte(fnv_bytes(bytes.drop_last()), bytes.last() as u32)
    }
}

/// Little-endian fixed-layout report: `resource_capacity` and `report_bytes`
/// make the tail self-describing to a host decoder.
#[derive(Clone, Copy, Debug, PartialEq, Eq)]
pub struct CapacityReport<const N: usize> {
    pub magic: u32,
    pub version: u32,
    pub report_bytes: u32,
    pub completed: u32,
    pub flags: u32,
    pub session_id: u32,
    pub resource_count: u32,
    pub resource_capacity: u32,
    pub margin_percent: u32,
    pub unseen_path_reserve_percent: u32,
    pub coverage_finished: u32,
    pub workload_complete: u32,
    pub isr_paths_covered: u32,
    pub required_paths_lo: u32,
    pub required_paths_hi: u32,
    pub observed_paths_lo: u32,
    pub observed_paths_hi: u32,
    pub required_isr_paths_lo: u32,
    pub required_isr_paths_hi: u32,
    pub observed_isr_paths_lo: u32,
    pub observed_isr_paths_hi: u32,
    pub build_id: [u8; 32],
    pub workload_id: [u8; 32],
    pub declaration_id: [u8; 32],
    pub resources: [CapacityResourceRecord; N],
    pub checksum: u32,
}

/// The report's bytes in layout order, without the trailing checksum.
pub open spec fn report_body<const N: usize>(r: CapacityReport<N>) -> Seq<u8> {
    le_bytes(r.magic) + le_bytes(r.version) + le_bytes(r.report_bytes) + le_bytes(r.completed) + le_bytes(r.flags)
        + le_bytes(r.session_id) + le_bytes(r.resource_count) + le_bytes(r.resource_capacity)
        + le_bytes(r.margin_percent) + le_bytes(r.unseen_path_reserve_percent) + le_bytes(r.coverage_finished)
        + le_bytes(r.workload_complete) + le_bytes(r.isr_paths_covered) + le_bytes(r.required_paths_lo)
        + le_bytes(r.required_paths_hi) + le_bytes(r.observed_paths_lo) + le_bytes(r.observed_paths_hi)
        + le_bytes(r.required_isr_paths_lo) + le_bytes(r.required_isr_paths_hi) + le_bytes(r.observed_isr_paths_lo)
        + le_bytes(r.observed_isr_paths_hi) + r.build_id@ + r.workload_id@ + r.declaration_id@
        + records_bytes(r.resources@)
}

/// A report verifies: right magic and version, `report_bytes` its own size,
/// and the checksum over every byte before it.
pub open spec fn capacity_report_verifies<const N: usize>(r: CapacityReport<N>) -> bool {
    &&& r.magic == CAPACITY_REPORT_MAGIC
    &&& r.version == CAPACITY_REPORT_VERSION
    &&& r.report_bytes as nat == vstd::layout::size_of::<CapacityReport<N>>()
    &&& r.checksum == fnv_bytes(report_body(r))
}

/// Sealing a report with the checksum of its body makes it verify whenever
/// its magic, version and size are right; the body never covers the checksum.
pub proof fn sealed_capacity_report_verifies<const N: usize>(r: CapacityReport<N>)
    requires
        r.magic == CAPACITY_REPORT_MAGIC,
        r.version == CAPACITY_REPORT_VERSION,
        r.report_bytes as nat == vstd::layout::size_of::<CapacityReport<N>>(),
    ensures
        capacity_report_verifies(CapacityReport { checksum: fnv_bytes(report_body(r)), ..r }),
{
    let sealed = CapacityReport { checksum: fnv_bytes(report_body(r)), ..r };
    assert(report_body(sealed) =~= report_body(r));
}

fn push_word(bytes: &mut Vec<u8>, x: u32)
    ensures
        final(bytes)@ == old(bytes)@ + le_bytes(x),
{
    bytes.push((x & 0xff) as u8);
    bytes.push(((x >> 8u32) & 0xff) as u8);
    bytes.push(((x >> 16u32) & 0xff) as u8);
    bytes.push(((x >> 24u32) & 0xff) as u8);
    assert(final(bytes)@ =~= old(bytes)@ + le_bytes(x));
}

fn push_id(bytes: &mut Vec<u8>, id: &[u8; 32])
    ensures
        final(bytes)@ == old(bytes)@ + id@,
{
    let ghost start = bytes@;
    let mut i: usize = 0;
    while i < 32
        invariant
            i <= 32,
            id@.len() == 32,
            bytes@ == start + id@.take(i as int),
        decreases 32 - i,
    {
        bytes.push(id[i]);
        assert(id@.take(i + 1) =~= id@.take(i as int).push(id@[i as int]));
        assert(bytes@ =~= start + id@.take(i + 1));
        i += 1;
    }
    assert(id@.take(32) =~= id@);
}

fn fnv_of(bytes: &Vec<u8>) -> (r: u32)
    ensures
        r == fnv_bytes(bytes@),
{
    let mut hash: u32 = FNV1A32_OFFSET;
    let mut i: usize = 0;
    while i < bytes.len()
        invariant
            i <= bytes@.len(),
            hash == fnv_bytes(bytes@.take(i as int)),
        decreases bytes@.len() - i,
    {
        assert(bytes@.take(i + 1).drop_last() =~= bytes@.take(i as int));
        hash = (hash ^ (bytes[i] as u32)).wrapping_mul(FNV1A32_PRIME);
        i += 1;
    }
    assert(bytes@.take(i as int) =~= bytes@);
    hash
}

impl<const N: usize> CapacityReport<N> {
    /// The report's bytes in layout order, without the trailing checksum.
    pub fn body_bytes(&self) -> (r: Vec<u8>)
        ensures
            r@ == report_body(*self),
    {
        let mut bytes: Vec<u8> = Vec::new();
        push_word(&mut bytes, self.magic);
        push_word(&mut bytes, self.version);
        push_word(&mut bytes, self.report_bytes);
        push_word(&mut bytes, self.completed);
        push_word(&mut bytes, self.flags);
        push_word(&mut bytes, self.session_id);
        push_word(&mut bytes, self.resource_count);
        push_word(&mut bytes, self.resource_capacity);
        push_word(&mut bytes, self.margin_percent);
        push_word(&mut bytes, self.unseen_path_reserve_percent);
        push_word(&mut bytes, self.coverage_finished);
        push_word(&mut bytes, self.workload_complete);
        push_word(&mut bytes, self.isr_paths_covered);
        push_word(&mut bytes, self.required_paths_lo);
        push_word(&mut bytes, self.required_paths_hi);
        push_word(&mut bytes, self.observed_paths_lo);
        push_word(&mut bytes, self.observed_paths_hi);
        push_word(&mut bytes, self.required_isr_paths_lo);
        push_word(&mut bytes, self.required_isr_paths_hi);
        push_word(&mut bytes, self.observed_isr_paths_lo);
        push_word(&mut bytes, self.observed_isr_paths_hi);
        push_id(&mut bytes, &self.build_id);
        push_id(&mut bytes, &self.workload_id);
        push_id(&mut bytes, &self.declaration_id);
        let ghost head = bytes@;
        let mut k: usize = 0;
        while k < N
            invariant
                k <= N,
                self.resources@.len() == N,
                bytes@ == head + records_bytes(self.resources@.take(k as int)),
            decreases N - k,
        {
            let record = self.resources[k];
            let ghost before = bytes@;
            push_id(&mut bytes, &record.resource_id);
            push_word(&mut bytes, record.kind);
            push_word(&mut bytes, record.declared);
            push_word(&mut bytes, record.observed_peak);
            push_word(&mut bytes, record.granularity);
            push_word(&mut bytes, record.saturated);
            push_word(&mut bytes, record.dropped);
            push_word(&mut bytes, record.failure_count);
            proof {
                assert(self.resources@.take(k + 1).drop_last() =~= self.resources@.take(k as int));
                assert(bytes@ =~= before + record_bytes(record));
            }
            k += 1;
        }
        assert(self.resources@.take(N as int) =~= self.resources@);
        proof {
            let r = *self;
            assert(bytes@ =~= report_body(r));
        }
        bytes
    }

    /// FNV-1a over every byte before the checksum.
    pub fn compute_checksum(&self) -> (r: u32)
        ensures
            r == fnv_bytes(report_body(*self)),
    {
        let bytes = self.body_bytes();
        fnv_of(&bytes)
    }

    /// The report's transport bytes: the body, then the checksum.
    pub fn to_bytes(&self) -> (r: Vec<u8>)
        ensures
            r@ == report_body(*self) + le_bytes(self.checksum),
    {
        let mut bytes = self.body_bytes();
        push_word(&mut bytes, self.checksum);
        bytes
    }

    pub fn verify_checksum(&self) -> (r: bool)
        ensures
            r == capacity_report_verifies(*self),
    {
        self.magic == CAPACITY_REPORT_MAGIC && self.version == CAPACITY_REPORT_VERSION && self.report_bytes as usize
            == core::mem::size_of::<Self>() && self.checksum == self.compute_checksum()
    }

    /// The report verifies and records a completed campaign.
    pub fn is_convertible(&self) -> (r: bool)
        ensures
            r == (capacity_report_verifies(*self) && self.completed == 1),
    {
        self.verify_checksum() && self.completed == 1
    }
}


/// Report flags that stop collection before any resource is read.
pub const CAPACITY_PREFLIGHT_FAILURES: u32 = CAPACITY_FLAG_IDENTITY_MISSING | CAPACITY_FLAG_SESSION_MISMATCH
    | CAPACITY_FLAG_UNEXPECTED_PATH | CAPACITY_FLAG_INCOMPLETE | CAPACITY_FLAG_SIZE_OVERFLOW;

/// Report flags that leave a report incomplete.
pub const CAPACITY_STRUCTURAL_FAILURES: u32 = CAPACITY_FLAG_IDENTITY_MISSING | CAPACITY_FLAG_SESSION_MISMATCH
    | CAPACITY_FLAG_RESOURCE_MISSING | CAPACITY_FLAG_DECLARATION_MISMATCH | CAPACITY_FLAG_UNEXPECTED_PATH
    | CAPACITY_FLAG_INCOMPLETE | CAPACITY_FLAG_SIZE_OVERFLOW;

/// What a mailbox or the sample pool recorded over one capacity session.
#[derive(Clone, Copy, Debug, PartialEq, Eq, Structural)]
pub struct CapacitySourceSnapshot {
    pub session_id: u32,
    pub sealed: bool,
    pub activity_after_finish: bool,
    pub observed_peak: u32,
    pub failures: u32,
    pub saturated: bool,
}

/// A stack guard's reading for one module: stack length, bytes used, and
/// whether the canary survived.
#[derive(Clone, Copy, Debug, PartialEq, Eq, Structural)]
pub struct StackGuardStatus {
    pub len: usize,
    pub used_bytes: usize,
    pub canary_intact: bool,
}

/// `value` as a word, or the largest word and `true` when it does not fit.
pub open spec fn bounded(value: usize) -> (u32, bool) {
    if value <= u32::MAX { (value as u32, false) } else { (u32::MAX, true) }
}

pub open spec fn flag_word(b: bool) -> u32 {
    if b { 1 } else { 0 }
}

fn bounded_u32(value: usize) -> (r: (u32, bool))
    ensures
        r == bounded(value),
{
    if value <= 0xffff_ffff {
        (value as u32, false)
    } else {
        (0xffff_ffff, true)
    }
}

/// A record that has observed nothing and names nothing.
pub open spec fn record_zeroed(r: CapacityResourceRecord) -> bool {
    &&& zero_identity(r.resource_id@)
    &&& r.kind == 0 && r.declared == 0 && r.observed_peak == 0 && r.granularity == 0
    &&& r.saturated == 0 && r.dropped == 0 && r.failure_count == 0
}

/// A record's observations copied from a source snapshot; `oversized` when
/// the source's capacity does not fit a word.
pub open spec fn record_from_snapshot(r: CapacityResourceRecord, s: CapacitySourceSnapshot, oversized: bool) -> bool {
    &&& r.observed_peak == s.observed_peak
    &&& r.failure_count == s.failures
    &&& r.dropped == flag_word(s.failures != 0)
    &&& r.saturated == flag_word(s.saturated || oversized)
}

/// The record a report holds for `resource`, given the stack reading for it
/// (read only for a stack), the two source snapshots and their capacities.
pub open spec fn record_collected(
    r: CapacityResourceRecord,
    resource: CapacityResource,
    stack: Option<StackGuardStatus>,
    mailbox: CapacitySourceSnapshot,
    mailbox_capacity: usize,
    pool: CapacitySourceSnapshot,
    pool_capacity: usize,
) -> bool {
    &&& r.resource_id@ == resource.spec_id()
    &&& r.kind == kind_code(resource.spec_kind())
    &&& r.declared == resource.spec_declared()
    &&& r.granularity == resource.spec_granularity()
    &&& match resource.spec_source() {
        CapacityResourceSource::Stack(_) => match stack {
            None => r.observed_peak == 0 && r.saturated == 0 && r.dropped == 0 && r.failure_count == 0,
            Some(st) => {
                &&& r.observed_peak == bounded(st.used_bytes).0
                &&& r.saturated == flag_word(bounded(st.len).1 || bounded(st.used_bytes).1 || !st.canary_intact)
                &&& r.dropped == 0
                &&& r.failure_count == flag_word(!st.canary_intact)
            },
        },
        CapacityResourceSource::Mailbox => record_from_snapshot(r, mailbox, bounded(mailbox_capacity).1),
        CapacityResourceSource::SamplePool => record_from_snapshot(r, pool, bounded(pool_capacity).1),
    }
}

/// The flag one resource adds to a report: a missing stack reading, or a
/// declaration that differs from the measured capacity.
pub open spec fn resource_flag(
    resource: CapacityResource,
    stack: Option<StackGuardStatus>,
    mailbox_capacity: usize,
    pool_capacity: usize,
) -> u32 {
    match resource.spec_source() {
        CapacityResourceSource::Stack(_) => match stack {
            None => CAPACITY_FLAG_RESOURCE_MISSING,
            Some(st) => if bounded(st.len).0 != resource.spec_declared() { CAPACITY_FLAG_DECLARATION_MISMATCH } else { 0 },
        },
        CapacityResourceSource::Mailbox => if bounded(mailbox_capacity).0 != resource.spec_declared() {
            CAPACITY_FLAG_DECLARATION_MISMATCH
        } else {
            0
        },
        CapacityResourceSource::SamplePool => if bounded(pool_capacity).0 != resource.spec_declared() {
            CAPACITY_FLAG_DECLARATION_MISMATCH
        } else {
            0
        },
    }
}

/// The flags of the first `k` resources, or-ed together.
pub open spec fn resource_flags(
    resources: Seq<CapacityResource>,
    stacks: Seq<Option<StackGuardStatus>>,
    mailbox_capacity: usize,
    pool_capacity: usize,
    k: int,
) -> u32
    decreases k,
{
    if k <= 0 {
        0
    } else {
        resource_flags(resources, stacks, mailbox_capacity, pool_capacity, k - 1) | resource_flag(
            resources[k - 1],
            stacks[k - 1],
            mailbox_capacity,
            pool_capacity,
        )
    }
}

/// One measurement campaign: its declaration, the paths it observed, whether
/// it is sealed, and the flags it raised.
pub struct CapacityCampaign {
    identity: CapacityIdentity,
    session_id: u32,
    margin_percent: u32,
    unseen_path_reserve_percent: u32,
    required_paths: u64,
    isr_paths: u64,
    observed_paths: u64,
    observed_isr_paths: u64,
    closed: bool,
    flags: u32,
}

impl CapacityCampaign {
    pub closed spec fn spec_identity(self) -> CapacityIdentity {
        self.identity
    }

    pub closed spec fn spec_session_id(self) -> u32 {
        self.session_id
    }

    pub closed spec fn spec_margin_percent(self) -> u32 {
        self.margin_percent
    }

    pub closed spec fn spec_reserve_percent(self) -> u32 {
        self.unseen_path_reserve_percent
    }

    pub closed spec fn spec_required_paths(self) -> u64 {
        self.required_paths
    }

    pub closed spec fn spec_isr_paths(self) -> u64 {
        self.isr_paths
    }

    pub closed spec fn spec_observed_paths(self) -> u64 {
        self.observed_paths
    }

    pub closed spec fn spec_observed_isr_paths(self) -> u64 {
        self.observed_isr_paths
    }

    /// Sealed by `finish`: no further observation is accepted.
    pub closed spec fn spec_finished(self) -> bool {
        self.closed
    }

    pub closed spec fn spec_flags(self) -> u32 {
        self.flags
    }

    /// The same campaign, with `flag` raised.
    pub open spec fn flagged(self, old_flags: u32, flag: u32) -> bool {
        self.spec_flags() == old_flags | flag
    }

    /// Start a campaign for a valid configuration whose mailbox and sample
    /// pool sessions could be started (`sources_started`).
    pub fn start(config: CapacityCampaignConfig, sources_started: bool) -> (r: Result<Self, CapacityCampaignError>)
        ensures
            config_verdict(config) matches Some(e) ==> r == Err::<Self, CapacityCampaignError>(e),
            config_verdict(config) is None && !sources_started ==> r == Err::<Self, CapacityCampaignError>(
                CapacityCampaignError::SessionStartRejected,
            ),
            config_verdict(config) is None && sources_started ==> (r matches Ok(c) && {
                &&& c.spec_identity() == config.identity
                &&& c.spec_session_id() == config.session_id
                &&& c.spec_margin_percent() == config.margin_percent
                &&& c.spec_reserve_percent() == config.unseen_path_reserve_percent
                &&& c.spec_required_paths() == config.required_paths
                &&& c.spec_isr_paths() == config.isr_paths
                &&& c.spec_observed_paths() == 0 && c.spec_observed_isr_paths() == 0
                &&& !c.spec_finished() && c.spec_flags() == 0
            }),
    {
        match validate_config(config) {
            Err(e) => return Err(e),
            Ok(()) => {},
        }
        if !sources_started {
            return Err(CapacityCampaignError::SessionStartRejected);
        }
        Ok(CapacityCampaign {
            identity: config.identity,
            session_id: config.session_id,
            margin_percent: config.margin_percent,
            unseen_path_reserve_percent: config.unseen_path_reserve_percent,
            required_paths: config.required_paths,
            isr_paths: config.isr_paths,
            observed_paths: 0,
            observed_isr_paths: 0,
            closed: false,
            flags: 0,
        })
    }

    /// Restart under a fresh, larger session id once the sources restarted.
    pub fn reset(&mut self, session_id: u32, sources_restarted: bool) -> (r: Result<(), CapacityCampaignError>)
        ensures
            session_id == 0 ==> r == Err::<(), CapacityCampaignError>(CapacityCampaignError::ZeroSession),
            session_id != 0 && session_id <= old(self).spec_session_id() ==> r == Err::<(), CapacityCampaignError>(
                CapacityCampaignError::ReusedSession,
            ),
            session_id > old(self).spec_session_id() && !sources_restarted ==> r == Err::<(), CapacityCampaignError>(
                CapacityCampaignError::SessionStartRejected,
            ),
            r is Err ==> *final(self) == *old(self),
            session_id > old(self).spec_session_id() && sources_restarted ==> r is Ok && {
                &&& final(self).spec_session_id() == session_id
                &&& final(self).spec_identity() == old(self).spec_identity()
                &&& final(self).spec_margin_percent() == old(self).spec_margin_percent()
                &&& final(self).spec_reserve_percent() == old(self).spec_reserve_percent()
                &&& final(self).spec_required_paths() == old(self).spec_required_paths()
                &&& final(self).spec_isr_paths() == old(self).spec_isr_paths()
                &&& final(self).spec_observed_paths() == 0 && final(self).spec_observed_isr_paths() == 0
                &&& !final(self).spec_finished() && final(self).spec_flags() == 0
            },
    {
        if session_id == 0 {
            return Err(CapacityCampaignError::ZeroSession);
        }
        if session_id <= self.session_id {
            return Err(CapacityCampaignError::ReusedSession);
        }
        if !sources_restarted {
            return Err(CapacityCampaignError::SessionStartRejected);
        }
        self.session_id = session_id;
        self.observed_paths = 0;
        self.observed_isr_paths = 0;
        self.closed = false;
        self.flags = 0;
        Ok(())
    }

    pub fn observe_path(&mut self, path: u8) -> (r: Result<(), CapacityCampaignError>)
        ensures
            campaign_observed(*old(self), *final(self), path, false, r),
    {
        self.observe(path, false)
    }

    pub fn observe_isr_path(&mut self, path: u8) -> (r: Result<(), CapacityCampaignError>)
        ensures
            campaign_observed(*old(self), *final(self), path, true, r),
    {
        self.observe(path, true)
    }

    fn observe(&mut self, path: u8, isr: bool) -> (r: Result<(), CapacityCampaignError>)
        ensures
            campaign_observed(*old(self), *final(self), path, isr, r),
    {
        if self.closed {
            self.flags = self.flags | CAPACITY_FLAG_UNEXPECTED_PATH;
            return Err(CapacityCampaignError::CampaignFinished);
        }
        if path >= 64 {
            self.flags = self.flags | CAPACITY_FLAG_UNEXPECTED_PATH;
            return Err(CapacityCampaignError::InvalidPath);
        }
        let bit: u64 = 1u64 << path;
        if self.required_paths & bit == 0 || (isr && self.isr_paths & bit == 0) {
            self.flags = self.flags | CAPACITY_FLAG_UNEXPECTED_PATH;
            return Err(CapacityCampaignError::UndeclaredPath);
        }
        self.observed_paths = self.observed_paths | bit;
        if isr {
            self.observed_isr_paths = self.observed_isr_paths | bit;
        }
        Ok(())
    }

    /// Seal the campaign before its report is collected; `sources_sealed`
    /// tells whether the mailbox and sample-pool sessions sealed under this
    /// campaign's session. Sealing twice is refused and marks the campaign
    /// incomplete.
    pub fn finish(&mut self, sources_sealed: bool) -> (r: Result<(), CapacityCampaignError>)
        ensures
            campaign_declaration_kept(*old(self), *final(self)),
            final(self).spec_observed_paths() == old(self).spec_observed_paths(),
            final(self).spec_observed_isr_paths() == old(self).spec_observed_isr_paths(),
            final(self).spec_finished(),
            old(self).spec_finished() ==> r == Err::<(), CapacityCampaignError>(CapacityCampaignError::CampaignFinished)
                && final(self).spec_flags() == old(self).spec_flags() | CAPACITY_FLAG_INCOMPLETE,
            !old(self).spec_finished() ==> r is Ok && final(self).spec_flags() == if sources_sealed {
                old(self).spec_flags()
            } else {
                old(self).spec_flags() | CAPACITY_FLAG_SESSION_MISMATCH
            },
    {
        if self.closed {
            self.flags = self.flags | CAPACITY_FLAG_INCOMPLETE;
            return Err(CapacityCampaignError::CampaignFinished);
        }
        self.closed = true;
        if !sources_sealed {
            self.flags = self.flags | CAPACITY_FLAG_SESSION_MISMATCH;
        }
        Ok(())
    }

    /// Collect the report of this campaign from the registry, the mailbox
    /// and sample-pool snapshots with their capacities, and one stack reading
    /// per registered resource (read only for stacks).
    pub fn report<const N: usize>(
        &self,
        registry: &CapacityRegistry<N>,
        mailbox: CapacitySourceSnapshot,
        mailbox_capacity: usize,
        pool: CapacitySourceSnapshot,
        pool_capacity: usize,
        stacks: &[Option<StackGuardStatus>],
    ) -> (r: CapacityReport<N>)
        requires
            registry.wf(),
            stacks@.len() == registry.resources().len(),
        ensures
            collected(r, *self, registry.resources(), mailbox, mailbox_capacity, pool, pool_capacity, stacks@),
    {
        CapacityReport::collect(self, registry, mailbox, mailbox_capacity, pool, pool_capacity, stacks)
    }
}

/// What recording `path` (from an ISR when `isr`) does: refused with
/// the unexpected-path flag after `finish`, for a path past 63, and for
/// a path not declared (or not declared for ISRs); else the path is
/// marked observed.
pub open spec fn campaign_observed(before: CapacityCampaign, after: CapacityCampaign, path: u8, isr: bool, r: Result<
    (),
    CapacityCampaignError,
>) -> bool {
    let bit = (1u64 << path);
    &&& after.spec_identity() == before.spec_identity()
    &&& after.spec_session_id() == before.spec_session_id()
    &&& after.spec_margin_percent() == before.spec_margin_percent()
    &&& after.spec_reserve_percent() == before.spec_reserve_percent()
    &&& after.spec_required_paths() == before.spec_required_paths()
    &&& after.spec_isr_paths() == before.spec_isr_paths()
    &&& after.spec_finished() == before.spec_finished()
    &&& if before.spec_finished() {
        &&& r == Err::<(), CapacityCampaignError>(CapacityCampaignError::CampaignFinished)
        &&& after.flagged(before.spec_flags(), CAPACITY_FLAG_UNEXPECTED_PATH)
        &&& after.spec_observed_paths() == before.spec_observed_paths()
        &&& after.spec_observed_isr_paths() == before.spec_observed_isr_paths()
    } else if path >= 64 {
        &&& r == Err::<(), CapacityCampaignError>(CapacityCampaignError::InvalidPath)
        &&& after.flagged(before.spec_flags(), CAPACITY_FLAG_UNEXPECTED_PATH)
        &&& after.spec_observed_paths() == before.spec_observed_paths()
        &&& after.spec_observed_isr_paths() == before.spec_observed_isr_paths()
    } else if before.spec_required_paths() & bit == 0 || (isr && before.spec_isr_paths() & bit == 0) {
        &&& r == Err::<(), CapacityCampaignError>(CapacityCampaignError::UndeclaredPath)
        &&& after.flagged(before.spec_flags(), CAPACITY_FLAG_UNEXPECTED_PATH)
        &&& after.spec_observed_paths() == before.spec_observed_paths()
        &&& after.spec_observed_isr_paths() == before.spec_observed_isr_paths()
    } else {
        &&& r is Ok
        &&& after.spec_flags() == before.spec_flags()
        &&& after.spec_observed_paths() == before.spec_observed_paths() | bit
        &&& after.spec_observed_isr_paths() == if isr {
            before.spec_observed_isr_paths() | bit
        } else {
            before.spec_observed_isr_paths()
        }
    }
}

/// Two campaigns declare the same session, identity, limits and paths.
pub open spec fn campaign_declaration_kept(a: CapacityCampaign, b: CapacityCampaign) -> bool {
    &&& b.spec_identity() == a.spec_identity()
    &&& b.spec_session_id() == a.spec_session_id()
    &&& b.spec_margin_percent() == a.spec_margin_percent()
    &&& b.spec_reserve_percent() == a.spec_reserve_percent()
    &&& b.spec_required_paths() == a.spec_required_paths()
    &&& b.spec_isr_paths() == a.spec_isr_paths()
}

/// The flags a report carries before its resources are read.
pub open spec fn preflight_flags<const N: usize>(
    c: CapacityCampaign,
    resource_count: nat,
    mailbox: CapacitySourceSnapshot,
    pool: CapacitySourceSnapshot,
) -> u32 {
    let f0 = c.spec_flags();
    let f1 = if !identity_complete(c.spec_identity()) { f0 | CAPACITY_FLAG_IDENTITY_MISSING } else { f0 };
    let f2 = if !c.spec_finished() || resource_count == 0 { f1 | CAPACITY_FLAG_INCOMPLETE } else { f1 };
    let f3 = if mailbox.session_id != c.spec_session_id() || pool.session_id != c.spec_session_id() {
        f2 | CAPACITY_FLAG_SESSION_MISMATCH
    } else {
        f2
    };
    let f4 = if !mailbox.sealed || mailbox.activity_after_finish || !pool.sealed || pool.activity_after_finish {
        f3 | CAPACITY_FLAG_INCOMPLETE
    } else {
        f3
    };
    if bounded(vstd::layout::size_of::<CapacityReport<N>>() as usize).1 || bounded(resource_count as usize).1
        || bounded(N).1 {
        f4 | CAPACITY_FLAG_SIZE_OVERFLOW
    } else {
        f4
    }
}

/// `r` is the report collected for campaign `c`: its header copies the
/// campaign and the sizes; a campaign that fails preflight yields zeroed
/// records; otherwise each registered resource gets its collected record,
/// the rest are zeroed, the resources' flags are added, and the report is
/// complete when no structural failure is flagged. It is always sealed with
/// the checksum of its body.
pub open spec fn collected<const N: usize>(
    r: CapacityReport<N>,
    c: CapacityCampaign,
    resources: Seq<CapacityResource>,
    mailbox: CapacitySourceSnapshot,
    mailbox_capacity: usize,
    pool: CapacitySourceSnapshot,
    pool_capacity: usize,
    stacks: Seq<Option<StackGuardStatus>>,
) -> bool {
    let pf = preflight_flags::<N>(c, resources.len(), mailbox, pool);
    let finished = c.spec_finished();
    &&& r.magic == CAPACITY_REPORT_MAGIC
    &&& r.version == CAPACITY_REPORT_VERSION
    &&& r.report_bytes == bounded(vstd::layout::size_of::<CapacityReport<N>>() as usize).0
    &&& r.resource_count == bounded(resources.len() as usize).0
    &&& r.resource_capacity == bounded(N).0
    &&& r.session_id == c.spec_session_id()
    &&& r.margin_percent == c.spec_margin_percent()
    &&& r.unseen_path_reserve_percent == c.spec_reserve_percent()
    &&& r.coverage_finished == flag_word(finished)
    &&& r.workload_complete == flag_word(
        finished && c.spec_observed_paths() & c.spec_required_paths() == c.spec_required_paths(),
    )
    &&& r.isr_paths_covered == flag_word(
        finished && c.spec_observed_isr_paths() & c.spec_isr_paths() == c.spec_isr_paths(),
    )
    &&& r.required_paths_lo == c.spec_required_paths() as u32
    &&& r.required_paths_hi == (c.spec_required_paths() >> 32u64) as u32
    &&& r.observed_paths_lo == c.spec_observed_paths() as u32
    &&& r.observed_paths_hi == (c.spec_observed_paths() >> 32u64) as u32
    &&& r.required_isr_paths_lo == c.spec_isr_paths() as u32
    &&& r.required_isr_paths_hi == (c.spec_isr_paths() >> 32u64) as u32
    &&& r.observed_isr_paths_lo == c.spec_observed_isr_paths() as u32
    &&& r.observed_isr_paths_hi == (c.spec_observed_isr_paths() >> 32u64) as u32
    &&& r.build_id == c.spec_identity().build_id
    &&& r.workload_id == c.spec_identity().workload_id
    &&& r.declaration_id == c.spec_identity().declaration_id
    &&& if pf & CAPACITY_PREFLIGHT_FAILURES != 0 {
        &&& r.flags == pf
        &&& r.completed == 0
        &&& forall|i: int| 0 <= i < N ==> record_zeroed(#[trigger] r.resources@[i])
    } else {
        &&& r.flags == pf | resource_flags(resources, stacks, mailbox_capacity, pool_capacity, resources.len() as int)
        &&& r.completed == flag_word(r.flags & CAPACITY_STRUCTURAL_FAILURES == 0)
        &&& forall|i: int|
            0 <= i < resources.len() ==> record_collected(
                #[trigger] r.resources@[i],
                resources[i],
                stacks[i],
                mailbox,
                mailbox_capacity,
                pool,
                pool_capacity,
            )
        &&& forall|i: int| resources.len() <= i < N ==> record_zeroed(#[trigger] r.resources@[i])
    }
    &&& r.checksum == fnv_bytes(report_body(r))
}

/// Every collected report passes the checksum verification whenever the
/// report's own size fits a word.
pub proof fn collected_report_verifies<const N: usize>(
    r: CapacityReport<N>,
    c: CapacityCampaign,
    resources: Seq<CapacityResource>,
    mailbox: CapacitySourceSnapshot,
    mailbox_capacity: usize,
    pool: CapacitySourceSnapshot,
    pool_capacity: usize,
    stacks: Seq<Option<StackGuardStatus>>,
)
    requires
        collected(r, c, resources, mailbox, mailbox_capacity, pool, pool_capacity, stacks),
        vstd::layout::size_of::<CapacityReport<N>>() <= u32::MAX,
    ensures
        capacity_report_verifies(r),
{
}

impl<const N: usize> CapacityReport<N> {
    /// Seal `self` with the checksum of its body.
    fn seal(&mut self)
        ensures
            *final(self) == (CapacityReport { checksum: fnv_bytes(report_body(*old(self))), ..*old(self) }),
            final(self).checksum == fnv_bytes(report_body(*final(self))),
    {
        let checksum = self.compute_checksum();
        let ghost before = *self;
        self.checksum = checksum;
        assert(report_body(*self) =~= report_body(before));
    }

    /// The record of `resource` and the flag it adds.
    fn collect_record(
        resource: CapacityResource,
        stack: Option<StackGuardStatus>,
        mailbox: CapacitySourceSnapshot,
        mailbox_capacity: usize,
        pool: CapacitySourceSnapshot,
        pool_capacity: usize,
    ) -> (r: (CapacityResourceRecord, u32))
        ensures
            record_collected(r.0, resource, stack, mailbox, mailbox_capacity, pool, pool_capacity),
            r.1 == resource_flag(resource, stack, mailbox_capacity, pool_capacity),
    {
        let mut record = CapacityResourceRecord::from_resource(resource);
        match resource.source {
            CapacityResourceSource::Stack(_) => match stack {
                None => (record, CAPACITY_FLAG_RESOURCE_MISSING),
                Some(status) => {
                    let (stack_len, len_saturated) = bounded_u32(status.len);
                    let (used, used_saturated) = bounded_u32(status.used_bytes);
                    record.observed_peak = used;
                    record.saturated = if len_saturated || used_saturated || !status.canary_intact { 1 } else { 0 };
                    record.failure_count = if !status.canary_intact { 1 } else { 0 };
                    let flag = if stack_len != resource.declared { CAPACITY_FLAG_DECLARATION_MISMATCH } else { 0 };
                    (record, flag)
                },
            },
            CapacityResourceSource::Mailbox => {
                let (capacity, oversized) = bounded_u32(mailbox_capacity);
                record.observed_peak = mailbox.observed_peak;
                record.failure_count = mailbox.failures;
                record.dropped = if mailbox.failures != 0 { 1 } else { 0 };
                record.saturated = if mailbox.saturated || oversized { 1 } else { 0 };
                let flag = if capacity != resource.declared { CAPACITY_FLAG_DECLARATION_MISMATCH } else { 0 };
                (record, flag)
            },
            CapacityResourceSource::SamplePool => {
                let (capacity, oversized) = bounded_u32(pool_capacity);
                record.observed_peak = pool.observed_peak;
                record.failure_count = pool.failures;
                record.dropped = if pool.failures != 0 { 1 } else { 0 };
                record.saturated = if pool.saturated || oversized { 1 } else { 0 };
                let flag = if capacity != resource.declared { CAPACITY_FLAG_DECLARATION_MISMATCH } else { 0 };
                (record, flag)
            },
        }
    }

    /// Build the sealed report of campaign `c`.
    pub fn collect(
        c: &CapacityCampaign,
        registry: &CapacityRegistry<N>,
        mailbox: CapacitySourceSnapshot,
        mailbox_capacity: usize,
        pool: CapacitySourceSnapshot,
        pool_capacity: usize,
        stacks: &[Option<StackGuardStatus>],
    ) -> (r: Self)
        requires
            registry.wf(),
            stacks@.len() == registry.resources().len(),
        ensures
            collected(r, *c, registry.resources(), mailbox, mailbox_capacity, pool, pool_capacity, stacks@),
    {
        let finished = c.closed;
        let mut flags = c.flags;
        if !c.identity.is_complete() {
            flags = flags | CAPACITY_FLAG_IDENTITY_MISSING;
        }
        if !finished || registry.is_empty() {
            flags = flags | CAPACITY_FLAG_INCOMPLETE;
        }
        if mailbox.session_id != c.session_id || pool.session_id != c.session_id {
            flags = flags | CAPACITY_FLAG_SESSION_MISMATCH;
        }
        if !mailbox.sealed || mailbox.activity_after_finish || !pool.sealed || pool.activity_after_finish {
            flags = flags | CAPACITY_FLAG_INCOMPLETE;
        }
        let (report_bytes, size_overflow) = bounded_u32(core::mem::size_of::<Self>());
        let (resource_count, count_overflow) = bounded_u32(registry.len());
        let (resource_capacity, capacity_overflow) = bounded_u32(N);
        if size_overflow || count_overflow || capacity_overflow {
            flags = flags | CAPACITY_FLAG_SIZE_OVERFLOW;
        }
        let ghost pf = flags;
        assert(pf == preflight_flags::<N>(*c, registry.resources().len(), mailbox, pool));
        let zero = CapacityResourceRecord::zeroed();
        let mut report = CapacityReport {
            magic: CAPACITY_REPORT_MAGIC,
            version: CAPACITY_REPORT_VERSION,
            report_bytes,
            completed: 0,
            flags,
            session_id: c.session_id,
            resource_count,
            resource_capacity,
            margin_percent: c.margin_percent,
            unseen_path_reserve_percent: c.unseen_path_reserve_percent,
            coverage_finished: if finished { 1 } else { 0 },
            workload_complete: if finished && c.observed_paths & c.required_paths == c.required_paths { 1 } else { 0 },
            isr_paths_covered: if finished && c.observed_isr_paths & c.isr_paths == c.isr_paths { 1 } else { 0 },
            required_paths_lo: c.required_paths as u32,
            required_paths_hi: (c.required_paths >> 32u64) as u32,
            observed_paths_lo: c.observed_paths as u32,
            observed_paths_hi: (c.observed_paths >> 32u64) as u32,
            required_isr_paths_lo: c.isr_paths as u32,
            required_isr_paths_hi: (c.isr_paths >> 32u64) as u32,
            observed_isr_paths_lo: c.observed_isr_paths as u32,
            observed_isr_paths_hi: (c.observed_isr_paths >> 32u64) as u32,
            build_id: c.identity.build_id,
            workload_id: c.identity.workload_id,
            declaration_id: c.identity.declaration_id,
            resources: [zero; N],
            checksum: 0,
        };
        if flags & CAPACITY_PREFLIGHT_FAILURES != 0 {
            report.seal();
            return report;
        }
        let resources = registry.iter();
        let ghost rs = registry.resources();
        let mut extra: u32 = 0;
        let mut index: usize = 0;
        while index < resources.len()
            invariant
                resources@ == rs,
                rs.len() <= N,
                stacks@.len() == rs.len(),
                index <= rs.len(),
                report.resources@.len() == N,
                report.flags == pf,
                extra == resource_flags(rs, stacks@, mailbox_capacity, pool_capacity, index as int),
                forall|i: int|
                    0 <= i < index ==> record_collected(
                        #[trigger] report.resources@[i],
                        rs[i],
                        stacks@[i],
                        mailbox,
                        mailbox_capacity,
                        pool,
                        pool_capacity,
                    ),
                forall|i: int| index <= i < N ==> record_zeroed(#[trigger] report.resources@[i]),
                report.magic == CAPACITY_REPORT_MAGIC,
                report.version == CAPACITY_REPORT_VERSION,
                report.report_bytes == report_bytes,
                report.resource_count == resource_count,
                report.resource_capacity == resource_capacity,
                report.completed == 0,
                report.session_id == c.session_id,
                report.margin_percent == c.margin_percent,
                report.unseen_path_reserve_percent == c.unseen_path_reserve_percent,
                report.coverage_finished == flag_word(finished),
                report.workload_complete == flag_word(
                    finished && c.observed_paths & c.required_paths == c.required_paths,
                ),
                report.isr_paths_covered == flag_word(finished && c.observed_isr_paths & c.isr_paths == c.isr_paths),
                report.required_paths_lo == c.required_paths as u32,
                report.required_paths_hi == (c.required_paths >> 32u64) as u32,
                report.observed_paths_lo == c.observed_paths as u32,
                report.observed_paths_hi == (c.observed_paths >> 32u64) as u32,
                report.required_isr_paths_lo == c.isr_paths as u32,
                report.required_isr_paths_hi == (c.isr_paths >> 32u64) as u32,
                report.observed_isr_paths_lo == c.observed_isr_paths as u32,
                report.observed_isr_paths_hi == (c.observed_isr_paths >> 32u64) as u32,
                report.build_id == c.identity.build_id,
                report.workload_id == c.identity.workload_id,
                report.declaration_id == c.identity.declaration_id,
            decreases rs.len() - index,
        {
            let (record, flag) = Self::collect_record(
                resources[index],
                stacks[index],
                mailbox,
                mailbox_capacity,
                pool,
                pool_capacity,
            );
            report.resources[index] = record;
            extra = extra | flag;
            index += 1;
        }
        report.flags = flags | extra;
        report.completed = if report.flags & CAPACITY_STRUCTURAL_FAILURES == 0 { 1 } else { 0 };
        report.seal();
        report
    }
}
} // verus!
