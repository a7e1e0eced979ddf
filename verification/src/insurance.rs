use vstd::prelude::*;
use crate::common::{AccountId, CoverageType, MAX_BATCH_SIZE, clamp_limit, clamp_limit_spec};

verus! {

/// Seconds between a payment and the next due date.
pub const THIRTY_DAYS_SECS: u64 = 2592000;

/// Longest policy name, in bytes.
pub const MAX_NAME_LEN: u32 = 64;

/// Longest external reference, in bytes.
pub const MAX_EXT_REF_LEN: u32 = 128;

/// Largest number of policies that may be active at once.
pub const MAX_POLICIES: u32 = 1000;

/// Largest number of active policies one owner may hold.
pub const MAX_POLICIES_PER_OWNER: u32 = 50;

/// Why an insurance operation was refused.
#[derive(Clone, Copy, Debug, PartialEq, Eq, Structural, PartialOrd, Ord)]
pub enum InsuranceError {
    Unauthorized,
    AlreadyInitialized,
    NotInitialized,
    PolicyNotFound,
    PolicyInactive,
    InvalidName,
    InvalidPremium,
    InvalidCoverageAmount,
    UnsupportedCombination,
    InvalidExternalRef,
    MaxPoliciesReached,
    PolicyLimitExceeded,
}

/// The stable numeric code of each error.
pub open spec fn error_code_spec(e: InsuranceError) -> u32 {
    match e {
        InsuranceError::Unauthorized => 1,
        InsuranceError::AlreadyInitialized => 2,
        InsuranceError::NotInitialized => 3,
        InsuranceError::PolicyNotFound => 4,
        InsuranceError::PolicyInactive => 5,
        InsuranceError::InvalidName => 6,
        InsuranceError::InvalidPremium => 7,
        InsuranceError::InvalidCoverageAmount => 8,
        InsuranceError::UnsupportedCombination => 9,
        InsuranceError::InvalidExternalRef => 10,
        InsuranceError::MaxPoliciesReached => 11,
        InsuranceError::PolicyLimitExceeded => 12,
    }
}

impl InsuranceError {
    /// The error's stable numeric code.
    pub fn code(&self) -> (c: u32)
        ensures
            c == error_code_spec(*self),
    {
        match self {
            InsuranceError::Unauthorized => 1,
            InsuranceError::AlreadyInitialized => 2,
            InsuranceError::NotInitialized => 3,
            InsuranceError::PolicyNotFound => 4,
            InsuranceError::PolicyInactive => 5,
            InsuranceError::InvalidName => 6,
            InsuranceError::InvalidPremium => 7,
            InsuranceError::InvalidCoverageAmount => 8,
            InsuranceError::UnsupportedCombination => 9,
            InsuranceError::InvalidExternalRef => 10,
            InsuranceError::MaxPoliciesReached => 11,
            InsuranceError::PolicyLimitExceeded => 12,
        }
    }
}

/// Per-type premium and coverage bounds, in stroops.
#[derive(Clone, Copy, Debug, PartialEq, Eq, Structural)]
pub struct TypeConstraints {
    pub min_premium: i128,
    pub max_premium: i128,
    pub min_coverage: i128,
    pub max_coverage: i128,
}

impl TypeConstraints {
    /// The bounds that apply to each coverage type.
    pub open spec fn constraints_for(t: CoverageType) -> TypeConstraints {
        match t {
            CoverageType::Health => TypeConstraints {
                min_premium: 1,
                max_premium: 500_000_000_000,
                min_coverage: 1,
                max_coverage: 100_000_000_000_000,
            },
            CoverageType::Life => TypeConstraints {
                min_premium: 1,
                max_premium: 1_000_000_000_000,
                min_coverage: 1,
                max_coverage: 500_000_000_000_000,
            },
            CoverageType::Property => TypeConstraints {
                min_premium: 1,
                max_premium: 2_000_000_000_000,
                min_coverage: 1,
                max_coverage: 1_000_000_000_000_000,
            },
            CoverageType::Auto => TypeConstraints {
                min_premium: 1,
                max_premium: 750_000_000_000,
                min_coverage: 1,
                max_coverage: 200_000_000_000_000,
            },
            CoverageType::Liability => TypeConstraints {
                min_premium: 1,
                max_premium: 400_000_000_000,
                min_coverage: 1,
                max_coverage: 50_000_000_000_000,
            },
        }
    }

    /// The bounds for coverage type `t`.
    pub fn for_type(t: &CoverageType) -> (c: TypeConstraints)
        ensures
            c == Self::constraints_for(*t),
    {
        match t {
            CoverageType::Health => TypeConstraints {
                min_premium: 1,
                max_premium: 500_000_000_000,
                min_coverage: 1,
                max_coverage: 100_000_000_000_000,
            },
            CoverageType::Life => TypeConstraints {
                min_premium: 1,
                max_premium: 1_000_000_000_000,
                min_coverage: 1,
                max_coverage: 500_000_000_000_000,
            },
            CoverageType::Property => TypeConstraints {
                min_premium: 1,
                max_premium: 2_000_000_000_000,
                min_coverage: 1,
                max_coverage: 1_000_000_000_000_000,
            },
            CoverageType::Auto => TypeConstraints {
                min_premium: 1,
                max_premium: 750_000_000_000,
                min_coverage: 1,
                max_coverage: 200_000_000_000_000,
            },
            CoverageType::Liability => TypeConstraints {
                min_premium: 1,
                max_premium: 400_000_000_000,
                min_coverage: 1,
                max_coverage: 50_000_000_000_000,
            },
        }
    }
}

/// An insurance policy as stored by the registry.
pub struct Policy {
    pub id: u32,
    pub owner: AccountId,
    pub name: Vec<u8>,
    pub coverage_type: CoverageType,
    pub monthly_premium: i128,
    pub coverage_amount: i128,
    pub external_ref: Option<Vec<u8>>,
    pub active: bool,
    pub archived: bool,
    pub created_at: u64,
    pub last_payment_at: u64,
    pub next_payment_date: u64,
}

/// The mathematical value of a [`Policy`].
pub struct PolicyView {
    pub id: u32,
    pub owner: AccountId,
    pub name: Seq<u8>,
    pub coverage_type: CoverageType,
    pub monthly_premium: i128,
    pub coverage_amount: i128,
    pub external_ref: Option<Seq<u8>>,
    pub active: bool,
    pub archived: bool,
    pub created_at: u64,
    pub last_payment_at: u64,
    pub next_payment_date: u64,
}

/// Maps a policy to its view.
pub open spec fn policy_view_fn() -> spec_fn(Policy) -> PolicyView {
    |p: Policy| p@
}

/// The bytes of an optional byte string.
pub open spec fn bytes_opt_view(r: Option<Vec<u8>>) -> Option<Seq<u8>> {
    match r {
        Some(v) => Some(v@),
        None => None,
    }
}

impl View for Policy {
    type V = PolicyView;

    open spec fn view(&self) -> PolicyView {
        PolicyView {
            id: self.id,
            owner: self.owner,
            name: self.name@,
            coverage_type: self.coverage_type,
            monthly_premium: self.monthly_premium,
            coverage_amount: self.coverage_amount,
            external_ref: bytes_opt_view(self.external_ref),
            active: self.active,
            archived: self.archived,
            created_at: self.created_at,
            last_payment_at: self.last_payment_at,
            next_payment_date: self.next_payment_date,
        }
    }
}

fn copy_bytes(v: &Vec<u8>) -> (r: Vec<u8>)
    ensures
        r@ == v@,
{
    let mut r: Vec<u8> = Vec::new();
    for i in 0..v.len()
        invariant
            r@ == v@.take(i as int),
    {
        r.push(v[i]);
        assert(r@ =~= v@.take(i + 1));
    }
    assert(v@.take(v@.len() as int) =~= v@);
    r
}

fn copy_bytes_opt(r: &Option<Vec<u8>>) -> (c: Option<Vec<u8>>)
    ensures
        bytes_opt_view(c) == bytes_opt_view(*r),
{
    match r {
        Some(v) => Some(copy_bytes(v)),
        None => None,
    }
}

impl Policy {
    /// A copy of this policy.
    pub fn copy(&self) -> (p: Policy)
        ensures
            p@ == self@,
    {
        Policy {
            id: self.id,
            owner: self.owner,
            name: copy_bytes(&self.name),
            coverage_type: self.coverage_type,
            monthly_premium: self.monthly_premium,
            coverage_amount: self.coverage_amount,
            external_ref: copy_bytes_opt(&self.external_ref),
            active: self.active,
            archived: self.archived,
            created_at: self.created_at,
            last_payment_at: self.last_payment_at,
            next_payment_date: self.next_payment_date,
        }
    }
}

/// Published when a policy is created.
pub struct PolicyCreatedEvent {
    pub policy_id: u32,
    pub name: Vec<u8>,
    pub coverage_type: CoverageType,
    pub monthly_premium: i128,
    pub coverage_amount: i128,
    pub timestamp: u64,
}

/// Published when a premium is paid.
pub struct PremiumPaidEvent {
    pub policy_id: u32,
    pub name: Vec<u8>,
    pub amount: i128,
    pub next_payment_date: u64,
    pub timestamp: u64,
}

/// Published when a policy is deactivated.
pub struct PolicyDeactivatedEvent {
    pub policy_id: u32,
    pub name: Vec<u8>,
    pub timestamp: u64,
}

impl Policy {
    /// The event announcing this policy's creation.
    pub fn created_event(&self) -> (e: PolicyCreatedEvent)
        ensures
            e.policy_id == self.id,
            e.name@ == self.name@,
            e.coverage_type == self.coverage_type,
            e.monthly_premium == self.monthly_premium,
            e.coverage_amount == self.coverage_amount,
            e.timestamp == self.created_at,
    {
        PolicyCreatedEvent {
            policy_id: self.id,
            name: copy_bytes(&self.name),
            coverage_type: self.coverage_type,
            monthly_premium: self.monthly_premium,
            coverage_amount: self.coverage_amount,
            timestamp: self.created_at,
        }
    }

    /// The event announcing this policy's latest premium payment.
    pub fn premium_paid_event(&self) -> (e: PremiumPaidEvent)
        ensures
            e.policy_id == self.id,
            e.name@ == self.name@,
            e.amount == self.monthly_premium,
            e.next_payment_date == self.next_payment_date,
            e.timestamp == self.last_payment_at,
    {
        PremiumPaidEvent {
            policy_id: self.id,
            name: copy_bytes(&self.name),
            amount: self.monthly_premium,
            next_payment_date: self.next_payment_date,
            timestamp: self.last_payment_at,
        }
    }

    /// The event announcing this policy's deactivation at `timestamp`.
    pub fn deactivated_event(&self, timestamp: u64) -> (e: PolicyDeactivatedEvent)
        ensures
            e.policy_id == self.id,
            e.name@ == self.name@,
            e.timestamp == timestamp,
    {
        PolicyDeactivatedEvent { policy_id: self.id, name: copy_bytes(&self.name), timestamp }
    }
}

/// Counts of active and archived policies.
pub struct StorageStats {
    pub active_policies: u32,
    pub archived_policies: u32,
}

/// One page of a paginated listing of policies.
pub struct PolicyPage {
    pub items: Vec<Policy>,
    pub next_cursor: u32,
    pub count: u32,
}

/// The contents of the registry.
pub struct InsuranceView {
    /// The contract owner; `None` until the registry is initialised.
    pub owner: Option<AccountId>,
    /// All policies ever created, policy `i + 1` at position `i`.
    pub policies: Seq<PolicyView>,
    /// Ids of the active policies, in creation order.
    pub active: Seq<u32>,
}

/// The insurance policy registry: the contract owner, every policy ever
/// created (ids are assigned `1, 2, 3, ...`), and the list of active ids.
///
/// Creating, deactivating, archiving, restoring and listing policies, and
/// the storage statistics, work whether or not the registry has been
/// initialised; payments, external references, single-policy reads and
/// premium totals answer `NotInitialized` until it has.
pub struct Insurance {
    owner: Option<AccountId>,
    policies: Vec<Policy>,
    active: Vec<u32>,
}

impl View for Insurance {
    type V = InsuranceView;

    closed spec fn view(&self) -> InsuranceView {
        InsuranceView {
            owner: self.owner,
            policies: self.policies@.map_values(policy_view_fn()),
            active: self.active@,
        }
    }
}

// ── Specification ─────────────────────────────────────────────────────────

/// A policy name is 1 to `MAX_NAME_LEN` bytes long.
pub open spec fn name_valid(name: Seq<u8>) -> bool {
    1 <= name.len() <= MAX_NAME_LEN
}

/// An external reference is absent or 1 to `MAX_EXT_REF_LEN` bytes long.
pub open spec fn ext_ref_valid(r: Option<Seq<u8>>) -> bool {
    match r {
        Some(s) => 1 <= s.len() <= MAX_EXT_REF_LEN,
        None => true,
    }
}

/// The largest coverage allowed for a premium: twelve months of premium
/// times 500, or `i128::MAX` where that product does not fit in an `i128`.
pub open spec fn max_ratio_spec(premium: i128) -> int {
    if i128::MIN <= premium * 6000 <= i128::MAX {
        premium * 6000
    } else {
        i128::MAX as int
    }
}

/// What every stored policy satisfies: the creation rules, and an archived
/// policy is never active.
pub open spec fn policy_valid(p: PolicyView) -> bool {
    let c = TypeConstraints::constraints_for(p.coverage_type);
    &&& name_valid(p.name)
    &&& c.min_premium <= p.monthly_premium <= c.max_premium
    &&& c.min_coverage <= p.coverage_amount <= c.max_coverage
    &&& p.coverage_amount <= max_ratio_spec(p.monthly_premium)
    &&& ext_ref_valid(p.external_ref)
    &&& p.archived ==> !p.active
}

/// Picks the id of an active policy of `owner`.
pub open spec fn owned_active_id(owner: AccountId) -> spec_fn(PolicyView) -> Option<u32> {
    |p: PolicyView|
        if p.owner == owner && p.active {
            Some(p.id)
        } else {
            None
        }
}

/// Ids of `owner`'s active policies, in order.
pub open spec fn owner_active_ids(ps: Seq<PolicyView>, owner: AccountId) -> Seq<u32> {
    ps.filter_map(owned_active_id(owner))
}

/// Ids of the active policies among `ps`, in order.
pub open spec fn active_ids(ps: Seq<PolicyView>) -> Seq<u32> {
    ps.filter_map(|p: PolicyView| if p.active { Some(p.id) } else { None })
}

impl InsuranceView {
    /// The registry's invariant.
    pub open spec fn inv(self) -> bool {
        &&& self.policies.len() <= u32::MAX
        &&& forall|i: int|
            0 <= i < self.policies.len() ==> #[trigger] self.policies[i].id == i + 1
                && policy_valid(self.policies[i])
        &&& self.active == active_ids(self.policies)
        &&& self.active.len() <= MAX_POLICIES
    }

    /// The policy with id `id`, if there is one.
    pub open spec fn lookup(self, id: u32) -> Option<PolicyView> {
        if 1 <= id <= self.policies.len() {
            Some(self.policies[id - 1])
        } else {
            None
        }
    }
}

/// The policy `create_policy` stores: active, never paid, due thirty days
/// after creation.
pub open spec fn new_policy_spec(
    id: u32,
    owner: AccountId,
    name: Seq<u8>,
    coverage_type: CoverageType,
    premium: i128,
    coverage: i128,
    now: u64,
) -> PolicyView {
    PolicyView {
        id,
        owner,
        name,
        coverage_type,
        monthly_premium: premium,
        coverage_amount: coverage,
        external_ref: None,
        active: true,
        archived: false,
        created_at: now,
        last_payment_at: 0,
        next_payment_date: (now + THIRTY_DAYS_SECS) as u64,
    }
}

/// Why `create_policy` refuses, checked in this order; `None` if it accepts.
pub open spec fn create_error(
    v: InsuranceView,
    caller: AccountId,
    name: Seq<u8>,
    coverage_type: CoverageType,
    premium: i128,
    coverage: i128,
) -> Option<InsuranceError> {
    let c = TypeConstraints::constraints_for(coverage_type);
    if !name_valid(name) {
        Some(InsuranceError::InvalidName)
    } else if premium <= 0 {
        Some(InsuranceError::InvalidPremium)
    } else if coverage <= 0 {
        Some(InsuranceError::InvalidCoverageAmount)
    } else if premium < c.min_premium || premium > c.max_premium {
        Some(InsuranceError::InvalidPremium)
    } else if coverage < c.min_coverage || coverage > c.max_coverage {
        Some(InsuranceError::InvalidCoverageAmount)
    } else if coverage > max_ratio_spec(premium) {
        Some(InsuranceError::UnsupportedCombination)
    } else if v.active.len() >= MAX_POLICIES {
        Some(InsuranceError::MaxPoliciesReached)
    } else if owner_active_ids(v.policies, caller).len() >= MAX_POLICIES_PER_OWNER {
        Some(InsuranceError::PolicyLimitExceeded)
    } else {
        None
    }
}

/// The registry and the result after `create_policy`.
pub open spec fn create_policy_spec(
    v: InsuranceView,
    caller: AccountId,
    name: Seq<u8>,
    coverage_type: CoverageType,
    premium: i128,
    coverage: i128,
    now: u64,
) -> (InsuranceView, Result<u32, InsuranceError>) {
    match create_error(v, caller, name, coverage_type, premium, coverage) {
        Some(e) => (v, Err(e)),
        None => {
            let id = (v.policies.len() + 1) as u32;
            let p = new_policy_spec(id, caller, name, coverage_type, premium, coverage, now);
            (InsuranceView { policies: v.policies.push(p), active: v.active.push(id), ..v }, Ok(id))
        },
    }
}

/// `p` after a premium payment at time `now`.
pub open spec fn paid_spec(p: PolicyView, now: u64) -> PolicyView {
    PolicyView { last_payment_at: now, next_payment_date: (now + THIRTY_DAYS_SECS) as u64, ..p }
}

/// The registry and the result after `pay_premium`.
pub open spec fn pay_premium_spec(v: InsuranceView, caller: AccountId, policy_id: u32, now: u64) -> (
    InsuranceView,
    Result<bool, InsuranceError>,
) {
    if v.owner is None {
        (v, Err(InsuranceError::NotInitialized))
    } else {
        match v.lookup(policy_id) {
            None => (v, Err(InsuranceError::PolicyNotFound)),
            Some(p) => if !p.active {
                (v, Err(InsuranceError::PolicyInactive))
            } else if caller != p.owner {
                (v, Err(InsuranceError::Unauthorized))
            } else {
                (
                    InsuranceView {
                        policies: v.policies.update(policy_id - 1, paid_spec(p, now)),
                        ..v
                    },
                    Ok(true),
                )
            },
        }
    }
}

/// Whether a batch payment by `caller` pays policy `p`.
pub open spec fn batch_pays(p: PolicyView, caller: AccountId) -> bool {
    p.active && p.owner == caller
}

/// The policies after `caller` pays, at `now`, the policies named in `ids`.
pub open spec fn batch_paid_policies(v: InsuranceView, caller: AccountId, ids: Seq<u32>, now: u64) -> Seq<
    PolicyView,
> {
    Seq::new(
        v.policies.len(),
        |k: int|
            if batch_pays(v.policies[k], caller) && ids.contains(v.policies[k].id) {
                paid_spec(v.policies[k], now)
            } else {
                v.policies[k]
            },
    )
}

/// Whether the batch entry `id` names a policy that `caller` pays.
pub open spec fn batch_entry_pays(v: InsuranceView, caller: AccountId) -> spec_fn(u32) -> bool {
    |id: u32| batch_pays(v.lookup(id).unwrap(), caller)
}

/// The registry and the result after `batch_pay_premiums`: every active
/// policy of `caller` named in `ids` is paid, and the result counts the
/// entries of `ids` (repetitions included) that name such a policy.
pub open spec fn batch_pay_spec(v: InsuranceView, caller: AccountId, ids: Seq<u32>, now: u64) -> (
    InsuranceView,
    Result<u32, InsuranceError>,
) {
    if v.owner is None {
        (v, Err(InsuranceError::NotInitialized))
    } else if exists|i: int| 0 <= i < ids.len() && v.lookup(#[trigger] ids[i]) is None {
        (v, Err(InsuranceError::PolicyNotFound))
    } else {
        (
            InsuranceView { policies: batch_paid_policies(v, caller, ids, now), ..v },
            Ok(ids.filter(batch_entry_pays(v, caller)).len() as u32),
        )
    }
}

/// The registry and the result after `set_external_ref`.
pub open spec fn set_external_ref_spec(
    v: InsuranceView,
    caller: AccountId,
    policy_id: u32,
    ext_ref: Option<Seq<u8>>,
) -> (InsuranceView, Result<bool, InsuranceError>) {
    if v.owner is None {
        (v, Err(InsuranceError::NotInitialized))
    } else if v.owner != Some(caller) {
        (v, Err(InsuranceError::Unauthorized))
    } else {
        match v.lookup(policy_id) {
            None => (v, Err(InsuranceError::PolicyNotFound)),
            Some(p) => if !ext_ref_valid(ext_ref) {
                (v, Err(InsuranceError::InvalidExternalRef))
            } else {
                (
                    InsuranceView {
                        policies: v.policies.update(
                            policy_id - 1,
                            PolicyView { external_ref: ext_ref, ..p },
                        ),
                        ..v
                    },
                    Ok(true),
                )
            },
        }
    }
}

/// Holds of every id but `id`.
pub open spec fn ne_id(id: u32) -> spec_fn(u32) -> bool {
    |x: u32| x != id
}

/// Whether `caller` may deactivate, archive or restore `p`: it is the
/// policy's owner or the contract owner (before initialisation there is no
/// contract owner, and only the policy's owner may).
pub open spec fn may_manage(v: InsuranceView, caller: AccountId, p: PolicyView) -> bool {
    caller == p.owner || Some(caller) == v.owner
}

/// The registry and the result after `deactivate_policy`: a request that is
/// refused (unknown id, caller who is neither the policy's owner nor the
/// contract owner) answers `false` and changes
/// nothing; deactivating an inactive policy answers `true` and changes
/// nothing.
pub open spec fn deactivate_spec(v: InsuranceView, caller: AccountId, policy_id: u32) -> (
    InsuranceView,
    bool,
) {
    match v.lookup(policy_id) {
        None => (v, false),
        Some(p) => if !may_manage(v, caller, p) {
            (v, false)
        } else if !p.active {
            (v, true)
        } else {
            (
                InsuranceView {
                    policies: v.policies.update(policy_id - 1, PolicyView { active: false, ..p }),
                    active: v.active.filter(ne_id(policy_id)),
                    ..v
                },
                true,
            )
        },
    }
}

/// The registry and the result after `archive_policy`: the policy becomes
/// archived and inactive; refused requests (unknown id, caller who may not
/// manage it, policy already archived) answer `false` and change nothing.
pub open spec fn archive_spec(v: InsuranceView, caller: AccountId, policy_id: u32) -> (
    InsuranceView,
    bool,
) {
    match v.lookup(policy_id) {
        None => (v, false),
        Some(p) => if !may_manage(v, caller, p) || p.archived {
            (v, false)
        } else {
            (
                InsuranceView {
                    policies: v.policies.update(
                        policy_id - 1,
                        PolicyView { active: false, archived: true, ..p },
                    ),
                    active: if p.active {
                        v.active.filter(ne_id(policy_id))
                    } else {
                        v.active
                    },
                    ..v
                },
                true,
            )
        },
    }
}

/// The registry and the result after `restore_policy`: an archived policy
/// becomes active again, unless its owner already holds
/// `MAX_POLICIES_PER_OWNER` active policies or `MAX_POLICIES` are active;
/// refused requests answer `false` and change nothing.
pub open spec fn restore_spec(v: InsuranceView, caller: AccountId, policy_id: u32) -> (
    InsuranceView,
    bool,
) {
    match v.lookup(policy_id) {
        None => (v, false),
        Some(p) => if !may_manage(v, caller, p) || !p.archived {
            (v, false)
        } else if owner_active_ids(v.policies, p.owner).len() >= MAX_POLICIES_PER_OWNER {
            (v, false)
        } else if v.active.len() >= MAX_POLICIES {
            (v, false)
        } else {
            let nps = v.policies.update(
                policy_id - 1,
                PolicyView { active: true, archived: false, ..p },
            );
            (InsuranceView { policies: nps, active: active_ids(nps), ..v }, true)
        },
    }
}

/// Number of archived policies among `ps`.
pub open spec fn archived_count(ps: Seq<PolicyView>) -> nat
    decreases ps.len(),
{
    if ps.len() == 0 {
        0
    } else {
        archived_count(ps.drop_last()) + if ps.last().archived {
            1nat
        } else {
            0nat
        }
    }
}

/// Picks the id of a policy of `owner` that is active and has an id at or
/// above `cursor`.
pub open spec fn listed_id(owner: AccountId, cursor: u32) -> spec_fn(PolicyView) -> Option<u32> {
    |p: PolicyView|
        if p.owner == owner && p.active && p.id >= cursor {
            Some(p.id)
        } else {
            None
        }
}

/// Ids of `owner`'s active policies with an id at or above `cursor`, in order.
pub open spec fn owner_active_from(ps: Seq<PolicyView>, owner: AccountId, cursor: u32) -> Seq<u32> {
    ps.filter_map(listed_id(owner, cursor))
}

/// The page `get_active_policies` returns: the first `clamp_limit(limit)`
/// matching ids, and, when more remain, the first id left out as the cursor
/// (`0` when nothing is left out).
pub open spec fn page_items_spec(v: InsuranceView, owner: AccountId, cursor: u32, limit: u32) -> Seq<u32> {
    let m = owner_active_from(v.policies, owner, cursor);
    let lim = clamp_limit_spec(limit);
    if m.len() <= lim {
        m
    } else {
        m.take(lim as int)
    }
}

/// The policies on that page, in the order of their ids.
pub open spec fn page_policies_spec(v: InsuranceView, owner: AccountId, cursor: u32, limit: u32) -> Seq<
    PolicyView,
> {
    page_items_spec(v, owner, cursor, limit).map_values(|id: u32| v.policies[id - 1])
}

/// The cursor returned with that page.
pub open spec fn page_next_cursor_spec(v: InsuranceView, owner: AccountId, cursor: u32, limit: u32) -> u32 {
    let m = owner_active_from(v.policies, owner, cursor);
    let lim = clamp_limit_spec(limit);
    if m.len() <= lim {
        0
    } else {
        m[lim as int]
    }
}

/// `a + b` saturated to the `i128` range.
pub open spec fn sat_add_spec(a: int, b: int) -> int {
    if a + b > i128::MAX {
        i128::MAX as int
    } else if a + b < i128::MIN {
        i128::MIN as int
    } else {
        a + b
    }
}

/// Saturating sum of the monthly premiums of `owner`'s active policies.
pub open spec fn total_premium_spec(ps: Seq<PolicyView>, owner: AccountId) -> int
    decreases ps.len(),
{
    if ps.len() == 0 {
        0
    } else {
        let t = total_premium_spec(ps.drop_last(), owner);
        let p = ps.last();
        if p.owner == owner && p.active {
            sat_add_spec(t, p.monthly_premium as int)
        } else {
            t
        }
    }
}

/// Plain sum of the monthly premiums of `owner`'s active policies.
pub open spec fn premium_sum(ps: Seq<PolicyView>, owner: AccountId) -> int
    decreases ps.len(),
{
    if ps.len() == 0 {
        0
    } else {
        let t = premium_sum(ps.drop_last(), owner);
        let p = ps.last();
        if p.owner == owner && p.active {
            t + p.monthly_premium
        } else {
            t
        }
    }
}

/// Whether a contract owner and a list of policies form a registry: the
/// policies are numbered `1, 2, 3, ...`, each satisfies the creation rules,
/// and at most `MAX_POLICIES` are active.
pub open spec fn parts_valid(owner: Option<AccountId>, ps: Seq<PolicyView>) -> bool {
    &&& ps.len() <= u32::MAX
    &&& forall|i: int| 0 <= i < ps.len() ==> (#[trigger] ps[i]).id == i + 1 && policy_valid(ps[i])
    &&& active_ids(ps).len() <= MAX_POLICIES
}

/// The registry and the result after `init`.
pub open spec fn init_spec(v: InsuranceView, owner: AccountId) -> (InsuranceView, Result<(), InsuranceError>) {
    if v.owner is Some {
        (v, Err(InsuranceError::AlreadyInitialized))
    } else {
        (InsuranceView { owner: Some(owner), ..v }, Ok(()))
    }
}

// ── Lemmas ────────────────────────────────────────────────────────────────

proof fn lemma_active_ids_push(ps: Seq<PolicyView>, p: PolicyView)
    ensures
        active_ids(ps.push(p)) == if p.active {
            active_ids(ps).push(p.id)
        } else {
            active_ids(ps)
        },
{
    assert(ps.push(p).drop_last() =~= ps);
    reveal_with_fuel(Seq::filter_map, 1);
    if p.active {
        assert(active_ids(ps) + seq![p.id] =~= active_ids(ps).push(p.id));
    }
}

proof fn lemma_active_ids_congruent(a: Seq<PolicyView>, b: Seq<PolicyView>)
    requires
        a.len() == b.len(),
        forall|k: int| 0 <= k < a.len() ==> #[trigger] a[k].active == b[k].active && a[k].id == b[k].id,
    ensures
        active_ids(a) == active_ids(b),
    decreases a.len(),
{
    reveal_with_fuel(Seq::filter_map, 1);
    if a.len() > 0 {
        let a2 = a.drop_last();
        let b2 = b.drop_last();
        assert forall|k: int| 0 <= k < a2.len() implies #[trigger] a2[k].active == b2[k].active
            && a2[k].id == b2[k].id by {
            assert(a2[k] == a[k] && b2[k] == b[k]);
        }
        lemma_active_ids_congruent(a2, b2);
        assert(a.last().active == b.last().active && a.last().id == b.last().id) by {
            assert(a[a.len() - 1].active == b[a.len() - 1].active);
        }
    }
}

proof fn lemma_filter_map_bounded(ps: Seq<PolicyView>)
    requires
        forall|k: int| 0 <= k < ps.len() ==> #[trigger] ps[k].id == k + 1,
    ensures
        forall|j: int| 0 <= j < active_ids(ps).len() ==> 1 <= #[trigger] active_ids(ps)[j] <= ps.len(),
    decreases ps.len(),
{
    reveal_with_fuel(Seq::filter_map, 1);
    if ps.len() > 0 {
        let ps2 = ps.drop_last();
        assert forall|k: int| 0 <= k < ps2.len() implies #[trigger] ps2[k].id == k + 1 by {
            assert(ps2[k] == ps[k]);
        }
        lemma_filter_map_bounded(ps2);
        assert(ps.last().id == ps.len()) by {
            assert(ps[ps.len() - 1].id == ps.len());
        }
        let a2 = active_ids(ps2);
        if ps.last().active {
            assert(active_ids(ps) == a2 + seq![ps.last().id]);
            assert forall|j: int| 0 <= j < active_ids(ps).len() implies 1 <= #[trigger] active_ids(
                ps,
            )[j] <= ps.len() by {
                if j < a2.len() {
                    assert(active_ids(ps)[j] == a2[j]);
                }
            }
        } else {
            assert(active_ids(ps) == a2);
        }
    }
}

proof fn lemma_filter_noop(s: Seq<u32>, x: u32)
    requires
        !s.contains(x),
    ensures
        s.filter(ne_id(x)) == s,
    decreases s.len(),
{
    reveal_with_fuel(Seq::filter, 1);
    if s.len() > 0 {
        let s2 = s.drop_last();
        assert(!s2.contains(x)) by {
            if s2.contains(x) {
                let j = choose|j: int| 0 <= j < s2.len() && s2[j] == x;
                assert(s[j] == x);
            }
        }
        lemma_filter_noop(s2, x);
        assert(s.last() != x) by {
            assert(s[s.len() - 1] == s.last());
        }
        assert(s2.push(s.last()) =~= s);
    }
}

proof fn lemma_active_ids_deactivate(ps: Seq<PolicyView>, k: int, q: PolicyView)
    requires
        0 <= k < ps.len(),
        ps[k].active,
        !q.active,
        q.id == ps[k].id,
        forall|i: int| 0 <= i < ps.len() ==> #[trigger] ps[i].id == i + 1,
    ensures
        active_ids(ps.update(k, q)) == active_ids(ps).filter(ne_id(ps[k].id)),
    decreases ps.len(),
{
    reveal_with_fuel(Seq::filter_map, 1);
    reveal_with_fuel(Seq::filter, 1);
    let id = ps[k].id;
    let ps2 = ps.drop_last();
    let nps = ps.update(k, q);
    assert forall|i: int| 0 <= i < ps2.len() implies #[trigger] ps2[i].id == i + 1 by {
        assert(ps2[i] == ps[i]);
    }
    if k == ps.len() - 1 {
        assert(nps.drop_last() =~= ps2);
        assert(nps.last() == q);
        assert(ps.last() == ps[k]);
        lemma_filter_map_bounded(ps2);
        assert(!active_ids(ps2).contains(id)) by {
            if active_ids(ps2).contains(id) {
                let j = choose|j: int| 0 <= j < active_ids(ps2).len() && active_ids(ps2)[j] == id;
                assert(1 <= active_ids(ps2)[j] <= ps2.len());
            }
        }
        lemma_filter_noop(active_ids(ps2), id);
        assert(active_ids(ps) == active_ids(ps2) + seq![id]);
        assert((active_ids(ps2) + seq![id]).drop_last() =~= active_ids(ps2));
        assert(active_ids(nps) == active_ids(ps2));
    } else {
        assert(nps.drop_last() =~= ps2.update(k, q));
        assert(ps2[k] == ps[k]);
        lemma_active_ids_deactivate(ps2, k, q);
        let l = ps.last();
        assert(nps.last() == l);
        assert(l == ps[ps.len() - 1]);
        assert(l.id == ps.len());
        assert(l.id != id);
        if l.active {
            let a2 = active_ids(ps2);
            assert(active_ids(ps) == a2 + seq![l.id]);
            assert((a2 + seq![l.id]).drop_last() =~= a2);
            assert((a2 + seq![l.id]).last() == l.id);
            assert(active_ids(ps).filter(ne_id(id)) == a2.filter(ne_id(id)).push(l.id));
            assert(active_ids(nps) == active_ids(ps2.update(k, q)) + seq![l.id]);
            assert(active_ids(ps2.update(k, q)) + seq![l.id] =~= a2.filter(ne_id(id)).push(l.id));
        }
    }
}

proof fn lemma_active_ids_prefix_len(ps: Seq<PolicyView>, j: int)
    requires
        0 <= j <= ps.len(),
    ensures
        active_ids(ps.take(j)).len() <= active_ids(ps).len(),
    decreases ps.len(),
{
    reveal_with_fuel(Seq::filter_map, 1);
    if j == ps.len() {
        assert(ps.take(j) =~= ps);
    } else {
        let ps2 = ps.drop_last();
        assert(ps.take(j) =~= ps2.take(j));
        lemma_active_ids_prefix_len(ps2, j);
    }
}

proof fn lemma_filter_map_prefix(s: Seq<PolicyView>, f: spec_fn(PolicyView) -> Option<u32>, j: int)
    requires
        0 <= j <= s.len(),
    ensures
        s.take(j).filter_map(f).len() <= s.filter_map(f).len(),
        forall|k: int| 0 <= k < s.take(j).filter_map(f).len() ==> #[trigger] s.take(j).filter_map(f)[k]
            == s.filter_map(f)[k],
    decreases s.len(),
{
    reveal_with_fuel(Seq::filter_map, 1);
    if j == s.len() {
        assert(s.take(j) =~= s);
    } else {
        let s2 = s.drop_last();
        assert(s.take(j) =~= s2.take(j));
        lemma_filter_map_prefix(s2, f, j);
    }
}

proof fn lemma_premium_sum_bounded(ps: Seq<PolicyView>, owner: AccountId)
    requires
        forall|k: int| 0 <= k < ps.len() ==> 0 <= #[trigger] ps[k].monthly_premium <= 2_000_000_000_000,
    ensures
        0 <= premium_sum(ps, owner) <= ps.len() * 2_000_000_000_000,
        total_premium_spec(ps, owner) == premium_sum(ps, owner) || ps.len() * 2_000_000_000_000
            > i128::MAX,
    decreases ps.len(),
{
    if ps.len() > 0 {
        let ps2 = ps.drop_last();
        assert forall|k: int| 0 <= k < ps2.len() implies 0 <= #[trigger] ps2[k].monthly_premium
            <= 2_000_000_000_000 by {
            assert(ps2[k] == ps[k]);
        }
        lemma_premium_sum_bounded(ps2, owner);
        assert(ps.last() == ps[ps.len() - 1]);
    }
}

/// The ids of the active policies among `policies`, in order.
fn active_ids_of(policies: &Vec<Policy>) -> (r: Vec<u32>)
    ensures
        r@ == active_ids(policies@.map_values(policy_view_fn())),
{
    let ghost ps = policies@.map_values(policy_view_fn());
    let mut r: Vec<u32> = Vec::new();
    let n = policies.len();
    proof {
        reveal_with_fuel(Seq::filter_map, 1);
        assert(ps.take(0) =~= Seq::<PolicyView>::empty());
    }
    for i in 0..n
        invariant
            n == policies@.len(),
            ps == policies@.map_values(policy_view_fn()),
            r@ == active_ids(ps.take(i as int)),
    {
        let p = &policies[i];
        proof {
            assert(ps[i as int] == p@);
            assert(ps.take(i + 1) =~= ps.take(i as int).push(p@));
            lemma_active_ids_push(ps.take(i as int), p@);
        }
        if p.active {
            r.push(p.id);
        }
    }
    proof {
        assert(ps.take(n as int) =~= ps);
    }
    r
}

proof fn lemma_active_ids_len_update(ps: Seq<PolicyView>, k: int, q: PolicyView)
    requires
        0 <= k < ps.len(),
        q.id == ps[k].id,
    ensures
        active_ids(ps.update(k, q)).len() + (if ps[k].active {
            1int
        } else {
            0int
        }) == active_ids(ps).len() + (if q.active {
            1int
        } else {
            0int
        }),
    decreases ps.len(),
{
    reveal_with_fuel(Seq::filter_map, 1);
    let ps2 = ps.drop_last();
    let nps = ps.update(k, q);
    if k == ps.len() - 1 {
        assert(nps.drop_last() =~= ps2);
        assert(nps.last() == q);
        assert(ps.last() == ps[k]);
    } else {
        assert(nps.drop_last() =~= ps2.update(k, q));
        assert(ps2[k] == ps[k]);
        lemma_active_ids_len_update(ps2, k, q);
        assert(nps.last() == ps.last());
    }
}

// ── Checks ────────────────────────────────────────────────────────────────

/// Whether `p` satisfies the rules every stored policy satisfies.
pub fn policy_is_valid(p: &Policy) -> (ok: bool)
    ensures
        ok == policy_valid(p@),
{
    if p.name.len() == 0 || p.name.len() > MAX_NAME_LEN as usize {
        return false;
    }
    let c = TypeConstraints::for_type(&p.coverage_type);
    if p.monthly_premium < c.min_premium || p.monthly_premium > c.max_premium {
        return false;
    }
    if p.coverage_amount < c.min_coverage || p.coverage_amount > c.max_coverage {
        return false;
    }
    let max_ratio: i128 = match p.monthly_premium.checked_mul(12) {
        Some(yearly) => match yearly.checked_mul(500) {
            Some(m) => m,
            None => i128::MAX,
        },
        None => i128::MAX,
    };
    if p.coverage_amount > max_ratio {
        return false;
    }
    if p.archived && p.active {
        return false;
    }
    validate_ext_ref(&p.external_ref)
}

/// Whether an external reference is acceptable: absent, or 1 to
/// `MAX_EXT_REF_LEN` bytes long.
pub fn validate_ext_ref(ext_ref: &Option<Vec<u8>>) -> (ok: bool)
    ensures
        ok == ext_ref_valid(bytes_opt_view(*ext_ref)),
{
    match ext_ref {
        Some(r) => r.len() != 0 && r.len() <= MAX_EXT_REF_LEN as usize,
        None => true,
    }
}

/// `a + b`, saturated to the `i128` range.
pub fn saturating_add_i128(a: i128, b: i128) -> (r: i128)
    ensures
        r == sat_add_spec(a as int, b as int),
{
    match a.checked_add(b) {
        Some(c) => c,
        None => if b > 0 {
            i128::MAX
        } else {
            i128::MIN
        },
    }
}

// ── Executable registry ───────────────────────────────────────────────────

impl Insurance {
    /// The registry's well-formedness: its contents satisfy the invariant.
    pub open spec fn wf(&self) -> bool {
        self@.inv()
    }

    /// An empty, uninitialised registry.
    pub fn new() -> (s: Insurance)
        ensures
            s.wf(),
            s@.owner is None,
            s@.policies.len() == 0,
    {
        let s = Insurance { owner: None, policies: Vec::new(), active: Vec::new() };
        assert(s@.policies =~= Seq::<PolicyView>::empty());
        assert(active_ids(Seq::<PolicyView>::empty()) =~= Seq::<u32>::empty()) by {
            reveal_with_fuel(Seq::filter_map, 1);
        }
        s
    }

    /// Number of policies ever created; the last one created has this id.
    pub fn policy_count(&self) -> (n: u32)
        requires
            self.wf(),
        ensures
            n == self@.policies.len(),
    {
        self.policies.len() as u32
    }

    /// Number of active policies `owner` holds.
    pub fn owner_active_count(&self, owner: AccountId) -> (n: usize)
        requires
            self.wf(),
        ensures
            n == owner_active_ids(self@.policies, owner).len(),
    {
        let ghost ps = self@.policies;
        let mut n: usize = 0;
        let len = self.policies.len();
        proof {
            reveal_with_fuel(Seq::filter_map, 1);
            assert(ps.take(0) =~= Seq::<PolicyView>::empty());
        }
        for i in 0..len
            invariant
                len == ps.len(),
                ps == self@.policies,
                n == owner_active_ids(ps.take(i as int), owner).len(),
                n <= i,
        {
            let p = &self.policies[i];
            proof {
                reveal_with_fuel(Seq::filter_map, 1);
                assert(ps.take(i + 1).drop_last() =~= ps.take(i as int));
                assert(ps.take(i + 1).last() == ps[i as int]);
                assert(ps[i as int] == p@);
                assert(owned_active_id(owner)(p@) == if p@.owner == owner && p@.active {
                    Some(p@.id)
                } else {
                    None
                });
                assert(owner_active_ids(ps.take(i + 1), owner) == match owned_active_id(owner)(p@) {
                    Some(x) => owner_active_ids(ps.take(i as int), owner) + seq![x],
                    None => owner_active_ids(ps.take(i as int), owner),
                });
            }
            if p.owner == owner && p.active {
                n = n + 1;
            }
        }
        proof {
            assert(ps.take(len as int) =~= ps);
        }
        n
    }

    /// Sets the contract owner of an uninitialised registry.
    pub fn init(&mut self, owner: AccountId) -> (r: Result<(), InsuranceError>)
        requires
            old(self).wf(),
        ensures
            final(self).wf(),
            (final(self)@, r) == init_spec(old(self)@, owner),
    {
        if self.owner.is_some() {
            return Err(InsuranceError::AlreadyInitialized);
        }
        self.owner = Some(owner);
        Ok(())
    }

    /// Creates a policy owned by `caller`, created at time `now`, and
    /// returns its id.
    pub fn create_policy(
        &mut self,
        caller: AccountId,
        name: Vec<u8>,
        coverage_type: CoverageType,
        monthly_premium: i128,
        coverage_amount: i128,
        now: u64,
    ) -> (r: Result<u32, InsuranceError>)
        requires
            old(self).wf(),
            old(self)@.policies.len() < u32::MAX,
            now <= u64::MAX - THIRTY_DAYS_SECS,
        ensures
            final(self).wf(),
            (final(self)@, r) == create_policy_spec(
                old(self)@,
                caller,
                name@,
                coverage_type,
                monthly_premium,
                coverage_amount,
                now,
            ),
    {
        if name.len() == 0 {
            return Err(InsuranceError::InvalidName);
        }
        if name.len() > MAX_NAME_LEN as usize {
            return Err(InsuranceError::InvalidName);
        }
        if monthly_premium <= 0 {
            return Err(InsuranceError::InvalidPremium);
        }
        if coverage_amount <= 0 {
            return Err(InsuranceError::InvalidCoverageAmount);
        }
        let constraints = TypeConstraints::for_type(&coverage_type);
        if monthly_premium < constraints.min_premium || monthly_premium > constraints.max_premium {
            return Err(InsuranceError::InvalidPremium);
        }
        if coverage_amount < constraints.min_coverage || coverage_amount > constraints.max_coverage {
            return Err(InsuranceError::InvalidCoverageAmount);
        }
        let max_ratio: i128 = match monthly_premium.checked_mul(12) {
            Some(yearly) => match yearly.checked_mul(500) {
                Some(m) => m,
                None => i128::MAX,
            },
            None => i128::MAX,
        };
        if coverage_amount > max_ratio {
            return Err(InsuranceError::UnsupportedCombination);
        }
        if self.active.len() >= MAX_POLICIES as usize {
            return Err(InsuranceError::MaxPoliciesReached);
        }
        if self.owner_active_count(caller) >= MAX_POLICIES_PER_OWNER as usize {
            return Err(InsuranceError::PolicyLimitExceeded);
        }
        let ghost old_v = self@;
        let next_id = self.policies.len() as u32 + 1;
        let policy = Policy {
            id: next_id,
            owner: caller,
            name,
            coverage_type,
            monthly_premium,
            coverage_amount,
            external_ref: None,
            active: true,
            archived: false,
            created_at: now,
            last_payment_at: 0,
            next_payment_date: now + THIRTY_DAYS_SECS,
        };
        let ghost pv = policy@;
        self.policies.push(policy);
        self.active.push(next_id);
        proof {
            assert(self@.policies =~= old_v.policies.push(pv));
            lemma_active_ids_push(old_v.policies, pv);
        }
        Ok(next_id)
    }

    /// Records a premium payment at time `now` by the policy's owner.
    pub fn pay_premium(&mut self, caller: AccountId, policy_id: u32, now: u64) -> (r: Result<
        bool,
        InsuranceError,
    >)
        requires
            old(self).wf(),
            now <= u64::MAX - THIRTY_DAYS_SECS,
        ensures
            final(self).wf(),
            (final(self)@, r) == pay_premium_spec(old(self)@, caller, policy_id, now),
    {
        if self.owner.is_none() {
            return Err(InsuranceError::NotInitialized);
        }
        if policy_id == 0 || policy_id as usize > self.policies.len() {
            return Err(InsuranceError::PolicyNotFound);
        }
        let idx = policy_id as usize - 1;
        if !self.policies[idx].active {
            return Err(InsuranceError::PolicyInactive);
        }
        if caller != self.policies[idx].owner {
            return Err(InsuranceError::Unauthorized);
        }
        let ghost old_v = self@;
        self.pay_at(idx, now);
        proof {
            assert(self@.policies =~= old_v.policies.update(idx as int, paid_spec(old_v.policies[idx as int], now)));
        }
        Ok(true)
    }

    /// Marks the policy at `idx` as paid at `now`.
    fn pay_at(&mut self, idx: usize, now: u64)
        requires
            old(self).wf(),
            idx < old(self)@.policies.len(),
            now <= u64::MAX - THIRTY_DAYS_SECS,
        ensures
            final(self).wf(),
            final(self)@ == (InsuranceView {
                policies: old(self)@.policies.update(idx as int, paid_spec(old(self)@.policies[idx as int], now)),
                ..old(self)@
            }),
    {
        let ghost old_v = self@;
        let mut p = self.policies[idx].copy();
        p.last_payment_at = now;
        p.next_payment_date = now + THIRTY_DAYS_SECS;
        self.policies.set(idx, p);
        proof {
            assert(self@.owner == old_v.owner);
            assert(self@.active == old_v.active);
            let nps = old_v.policies.update(idx as int, paid_spec(old_v.policies[idx as int], now));
            assert(self@.policies =~= nps);
            lemma_active_ids_congruent(old_v.policies, nps);
            assert forall|i: int| 0 <= i < nps.len() implies #[trigger] nps[i].id == i + 1
                && policy_valid(nps[i]) by {
                assert(0 <= i < old_v.policies.len());
                assert(old_v.policies[i].id == i + 1);
                assert(policy_valid(old_v.policies[i]));
            }
            assert(self@.policies.len() == old_v.policies.len());
            assert(self@.active == active_ids(self@.policies));
        }
    }

    /// Pays every active policy of `caller` named in `ids` and returns how
    /// many entries of `ids` were paid.
    pub fn batch_pay_premiums(&mut self, caller: AccountId, ids: &Vec<u32>, now: u64) -> (r: Result<
        u32,
        InsuranceError,
    >)
        requires
            old(self).wf(),
            ids.len() <= MAX_BATCH_SIZE,
            now <= u64::MAX - THIRTY_DAYS_SECS,
        ensures
            final(self).wf(),
            (final(self)@, r) == batch_pay_spec(old(self)@, caller, ids@, now),
    {
        if self.owner.is_none() {
            return Err(InsuranceError::NotInitialized);
        }
        let ghost v0 = self@;
        let n = ids.len();
        let len = self.policies.len();
        for i in 0..n
            invariant
                n == ids@.len(),
                len == v0.policies.len(),
                self@ == v0,
                v0.inv(),
                v0.owner is Some,
                forall|j: int| 0 <= j < i ==> v0.lookup(#[trigger] ids@[j]) is Some,
        {
            let id = ids[i];
            if id == 0 || id as usize > len {
                assert(v0.lookup(ids@[i as int]) is None);
                return Err(InsuranceError::PolicyNotFound);
            }
        }
        let mut count: u32 = 0;
        proof {
            assert(ids@.take(0).filter(batch_entry_pays(v0, caller)) =~= Seq::<u32>::empty()) by {
                reveal_with_fuel(Seq::filter, 1);
            }
            assert(self@.policies =~= batch_paid_policies(v0, caller, ids@.take(0), now));
        }
        for i in 0..n
            invariant
                n == ids@.len(),
                n <= MAX_BATCH_SIZE,
                len == v0.policies.len(),
                v0.inv(),
                v0.owner is Some,
                now <= u64::MAX - THIRTY_DAYS_SECS,
                forall|j: int| 0 <= j < n ==> v0.lookup(#[trigger] ids@[j]) is Some,
                self.wf(),
                self@.owner == v0.owner,
                self@.active == v0.active,
                self@.policies == batch_paid_policies(v0, caller, ids@.take(i as int), now),
                count == ids@.take(i as int).filter(batch_entry_pays(v0, caller)).len(),
                count <= i,
        {
            let id = ids[i];
            proof {
                assert(v0.lookup(ids@[i as int]) is Some);
            }
            let idx = id as usize - 1;
            let ghost seen0 = ids@.take(i as int);
            proof {
                assert(self@.policies[idx as int] == batch_paid_policies(v0, caller, seen0, now)[idx as int]);
                assert(self@.policies[idx as int].active == v0.policies[idx as int].active);
                assert(self@.policies[idx as int].owner == v0.policies[idx as int].owner);
                assert(v0.lookup(id) == Some(v0.policies[idx as int]));
                assert(batch_entry_pays(v0, caller)(id) == (v0.policies[idx as int].active
                    && v0.policies[idx as int].owner == caller));
            }
            if self.policies[idx].active && self.policies[idx].owner == caller {
                self.pay_at(idx, now);
                count = count + 1;
            }
            proof {
                let seen = ids@.take(i + 1);
                assert(seen0.push(id) =~= seen);
                let target = batch_paid_policies(v0, caller, seen, now);
                assert forall|k: int| 0 <= k < len implies #[trigger] self@.policies[k] == target[k] by {
                    let p0 = v0.policies[k];
                    assert(p0.id == k + 1);
                    assert(batch_paid_policies(v0, caller, seen0, now)[k] == (if batch_pays(p0, caller)
                        && seen0.contains(p0.id) {
                        paid_spec(p0, now)
                    } else {
                        p0
                    }));
                    if k == idx as int {
                        assert(seen.contains(p0.id)) by {
                            assert(seen[i as int] == id);
                        }
                    } else {
                        assert(seen0.contains(p0.id) == seen.contains(p0.id)) by {
                            if seen.contains(p0.id) {
                                let j = choose|j: int| 0 <= j < seen.len() && seen[j] == p0.id;
                                if j < i {
                                    assert(seen0[j] == p0.id);
                                }
                            }
                            if seen0.contains(p0.id) {
                                let j = choose|j: int| 0 <= j < seen0.len() && seen0[j] == p0.id;
                                assert(seen[j] == p0.id);
                            }
                        }
                    }
                }
                assert(self@.policies =~= target);
                reveal_with_fuel(Seq::filter, 1);
                assert(seen.drop_last() =~= seen0);
                assert(seen.last() == id);
                assert(seen.filter(batch_entry_pays(v0, caller)) == if batch_entry_pays(v0, caller)(id) {
                    seen0.filter(batch_entry_pays(v0, caller)).push(id)
                } else {
                    seen0.filter(batch_entry_pays(v0, caller))
                });
            }
        }
        proof {
            assert(ids@.take(n as int) =~= ids@);
            assert(!(exists|j: int| 0 <= j < ids@.len() && v0.lookup(#[trigger] ids@[j]) is None));
        }
        Ok(count)
    }

    /// Sets or clears the external reference of a policy; only the contract
    /// owner may do so.
    pub fn set_external_ref(&mut self, caller: AccountId, policy_id: u32, ext_ref: Option<Vec<u8>>) -> (r:
        Result<bool, InsuranceError>)
        requires
            old(self).wf(),
        ensures
            final(self).wf(),
            (final(self)@, r) == set_external_ref_spec(
                old(self)@,
                caller,
                policy_id,
                bytes_opt_view(ext_ref),
            ),
    {
        match self.owner {
            None => {
                return Err(InsuranceError::NotInitialized);
            },
            Some(o) => {
                if caller != o {
                    return Err(InsuranceError::Unauthorized);
                }
            },
        }
        if policy_id == 0 || policy_id as usize > self.policies.len() {
            return Err(InsuranceError::PolicyNotFound);
        }
        let idx = policy_id as usize - 1;
        if !validate_ext_ref(&ext_ref) {
            return Err(InsuranceError::InvalidExternalRef);
        }
        let ghost old_v = self@;
        let ghost ev = bytes_opt_view(ext_ref);
        let mut p = self.policies[idx].copy();
        p.external_ref = ext_ref;
        self.policies.set(idx, p);
        proof {
            assert(self@.owner == old_v.owner);
            assert(self@.active == old_v.active);
            let nps = old_v.policies.update(idx as int, PolicyView { external_ref: ev, ..old_v.policies[idx as int] });
            assert(self@.policies =~= nps);
            lemma_active_ids_congruent(old_v.policies, nps);
            assert forall|i: int| 0 <= i < nps.len() implies #[trigger] nps[i].id == i + 1
                && policy_valid(nps[i]) by {
                assert(0 <= i < old_v.policies.len());
                assert(old_v.policies[i].id == i + 1);
                assert(policy_valid(old_v.policies[i]));
            }
            assert(self@.active == active_ids(self@.policies));
        }
        Ok(true)
    }

    /// Makes the policy at `idx` inactive, and archived when `archive` is set.
    fn retire_at(&mut self, idx: usize, archive: bool)
        requires
            old(self).wf(),
            idx < old(self)@.policies.len(),
            old(self)@.policies[idx as int].active || archive,
        ensures
            final(self).wf(),
            final(self)@ == (InsuranceView {
                policies: old(self)@.policies.update(
                    idx as int,
                    PolicyView {
                        active: false,
                        archived: archive || old(self)@.policies[idx as int].archived,
                        ..old(self)@.policies[idx as int]
                    },
                ),
                active: if old(self)@.policies[idx as int].active {
                    old(self)@.active.filter(ne_id((idx + 1) as u32))
                } else {
                    old(self)@.active
                },
                ..old(self)@
            }),
    {
        let ghost old_v = self@;
        let was_active = self.policies[idx].active;
        let mut p = self.policies[idx].copy();
        p.active = false;
        p.archived = archive || p.archived;
        self.policies.set(idx, p);
        let ghost q = PolicyView {
            active: false,
            archived: archive || old_v.policies[idx as int].archived,
            ..old_v.policies[idx as int]
        };
        let ghost nps = old_v.policies.update(idx as int, q);
        proof {
            assert(self@.policies =~= nps);
            assert(old_v.policies[idx as int].id == idx + 1);
        }
        if was_active {
            let policy_id = (idx + 1) as u32;
            let mut new_active: Vec<u32> = Vec::new();
            let n = self.active.len();
            for i in 0..n
                invariant
                    n == self.active@.len(),
                    new_active@ == self.active@.take(i as int).filter(ne_id(policy_id)),
                    new_active@.len() <= i,
            {
                let id = self.active[i];
                if id != policy_id {
                    new_active.push(id);
                }
                proof {
                    reveal_with_fuel(Seq::filter, 1);
                    assert(self.active@.take(i + 1).drop_last() =~= self.active@.take(i as int));
                }
            }
            proof {
                assert(self.active@.take(n as int) =~= self.active@);
            }
            self.active = new_active;
            proof {
                lemma_active_ids_deactivate(old_v.policies, idx as int, q);
                old_v.active.lemma_filter_len(ne_id(policy_id));
            }
        } else {
            proof {
                lemma_active_ids_congruent(old_v.policies, nps);
            }
        }
        proof {
            assert(self@.policies == nps);
            assert forall|i: int| 0 <= i < nps.len() implies #[trigger] nps[i].id == i + 1
                && policy_valid(nps[i]) by {
                assert(0 <= i < old_v.policies.len());
                assert(old_v.policies[i].id == i + 1);
                assert(policy_valid(old_v.policies[i]));
            }
        }
    }

    /// Whether `caller` is the contract owner.
    fn is_contract_owner(&self, caller: AccountId) -> (b: bool)
        ensures
            b == (Some(caller) == self@.owner),
    {
        match self.owner {
            Some(o) => o == caller,
            None => false,
        }
    }

    /// Deactivates a policy; the policy's owner or the contract owner may do
    /// so. Answers whether the policy is now inactive through this request
    /// or an earlier one.
    pub fn deactivate_policy(&mut self, caller: AccountId, policy_id: u32) -> (r: bool)
        requires
            old(self).wf(),
        ensures
            final(self).wf(),
            (final(self)@, r) == deactivate_spec(old(self)@, caller, policy_id),
    {
        if policy_id == 0 || policy_id as usize > self.policies.len() {
            return false;
        }
        let idx = policy_id as usize - 1;
        if caller != self.policies[idx].owner && !self.is_contract_owner(caller) {
            return false;
        }
        if !self.policies[idx].active {
            return true;
        }
        proof {
            assert(self@.policies[idx as int].id == policy_id);
            assert(!self@.policies[idx as int].archived);
        }
        self.retire_at(idx, false);
        true
    }

    /// Archives a policy, making it inactive; the policy's owner or the
    /// contract owner may do so.
    pub fn archive_policy(&mut self, caller: AccountId, policy_id: u32) -> (r: bool)
        requires
            old(self).wf(),
        ensures
            final(self).wf(),
            (final(self)@, r) == archive_spec(old(self)@, caller, policy_id),
    {
        if policy_id == 0 || policy_id as usize > self.policies.len() {
            return false;
        }
        let idx = policy_id as usize - 1;
        if caller != self.policies[idx].owner && !self.is_contract_owner(caller) {
            return false;
        }
        if self.policies[idx].archived {
            return false;
        }
        proof {
            assert(self@.policies[idx as int].id == policy_id);
        }
        self.retire_at(idx, true);
        true
    }

    /// Restores an archived policy to active, within the per-owner and
    /// global caps; the policy's owner or the contract owner may do so.
    pub fn restore_policy(&mut self, caller: AccountId, policy_id: u32) -> (r: bool)
        requires
            old(self).wf(),
        ensures
            final(self).wf(),
            (final(self)@, r) == restore_spec(old(self)@, caller, policy_id),
    {
        if policy_id == 0 || policy_id as usize > self.policies.len() {
            return false;
        }
        let idx = policy_id as usize - 1;
        if caller != self.policies[idx].owner && !self.is_contract_owner(caller) {
            return false;
        }
        if !self.policies[idx].archived {
            return false;
        }
        let policy_owner = self.policies[idx].owner;
        if self.owner_active_count(policy_owner) >= MAX_POLICIES_PER_OWNER as usize {
            return false;
        }
        if self.active.len() >= MAX_POLICIES as usize {
            return false;
        }
        let ghost old_v = self@;
        proof {
            assert(old_v.policies[idx as int].id == policy_id);
            assert(policy_valid(old_v.policies[idx as int]));
        }
        let mut p = self.policies[idx].copy();
        p.active = true;
        p.archived = false;
        self.policies.set(idx, p);
        let ghost q = PolicyView { active: true, archived: false, ..old_v.policies[idx as int] };
        let ghost nps = old_v.policies.update(idx as int, q);
        proof {
            assert(self@.policies =~= nps);
        }
        self.active = active_ids_of(&self.policies);
        proof {
            lemma_active_ids_len_update(old_v.policies, idx as int, q);
            assert(self@.policies == nps);
            assert(self@.active == active_ids(nps));
            assert(old_v.active == active_ids(old_v.policies));
            assert(self@.active.len() == old_v.active.len() + 1);
            assert(self@.owner == old_v.owner);
            assert forall|i: int| 0 <= i < nps.len() implies #[trigger] nps[i].id == i + 1
                && policy_valid(nps[i]) by {
                assert(0 <= i < old_v.policies.len());
                assert(old_v.policies[i].id == i + 1);
                assert(policy_valid(old_v.policies[i]));
            }
        }
        true
    }

    /// How many policies are active and how many are archived.
    pub fn get_storage_stats(&self) -> (st: StorageStats)
        requires
            self.wf(),
        ensures
            st.active_policies == self@.active.len(),
            st.archived_policies == archived_count(self@.policies),
    {
        let ghost ps = self@.policies;
        let mut archived: u32 = 0;
        let n = self.policies.len();
        for i in 0..n
            invariant
                n == ps.len(),
                n <= u32::MAX,
                ps == self@.policies,
                archived == archived_count(ps.take(i as int)),
                archived <= i,
        {
            let p = &self.policies[i];
            proof {
                assert(ps.take(i + 1).drop_last() =~= ps.take(i as int));
                assert(ps.take(i + 1).last() == ps[i as int]);
                assert(ps[i as int] == p@);
            }
            if p.archived {
                archived = archived + 1;
            }
        }
        proof {
            assert(ps.take(n as int) =~= ps);
        }
        StorageStats { active_policies: self.active.len() as u32, archived_policies: archived }
    }

    /// One page of `owner`'s active policies, in the order of their ids,
    /// starting at id `cursor`; `next_cursor` is the id the next page starts
    /// at, or `0` when nothing is left.
    pub fn get_active_policies(&self, owner: AccountId, cursor: u32, limit: u32) -> (page: PolicyPage)
        requires
            self.wf(),
        ensures
            page.items@.map_values(policy_view_fn()) == page_policies_spec(self@, owner, cursor, limit),
            page.next_cursor == page_next_cursor_spec(self@, owner, cursor, limit),
            page.count == page.items@.len(),
    {
        let (ids, next_cursor) = self.active_page_ids(owner, cursor, limit);
        proof {
            lemma_page_sound(self@, owner, cursor, limit);
        }
        let ghost want = page_policies_spec(self@, owner, cursor, limit);
        let mut items: Vec<Policy> = Vec::new();
        for j in 0..ids.len()
            invariant
                self.wf(),
                ids@ == page_items_spec(self@, owner, cursor, limit),
                want == page_policies_spec(self@, owner, cursor, limit),
                ids@.len() <= 50,
                forall|k: int| 0 <= k < ids@.len() ==> self@.lookup(#[trigger] ids@[k]) is Some,
                items@.map_values(policy_view_fn()) == want.take(j as int),
        {
            let id = ids[j];
            proof {
                assert(self@.lookup(ids@[j as int]) is Some);
            }
            let p = self.policies[id as usize - 1].copy();
            let ghost before = items@;
            proof {
                assert(self@.policies[id - 1] == self.policies@[id - 1]@);
                assert(want[j as int] == self@.policies[id - 1]);
                assert(want[j as int] == p@);
            }
            items.push(p);
            proof {
                assert(items@ == before.push(p));
                assert(items@.map_values(policy_view_fn()) =~= before.map_values(policy_view_fn()).push(p@));
                assert(want.take(j + 1) =~= want.take(j as int).push(want[j as int]));
            }
        }
        proof {
            assert(want.take(ids@.len() as int) =~= want);
        }
        let count = items.len() as u32;
        PolicyPage { items, next_cursor, count }
    }

    /// The ids on one page of `owner`'s active policies, and the cursor of
    /// the next page.
    fn active_page_ids(&self, owner: AccountId, cursor: u32, limit: u32) -> (r: (Vec<u32>, u32))
        requires
            self.wf(),
        ensures
            r.0@ == page_items_spec(self@, owner, cursor, limit),
            r.1 == page_next_cursor_spec(self@, owner, cursor, limit),
    {
        let ghost ps = self@.policies;
        let lim = clamp_limit(limit);
        let mut items: Vec<u32> = Vec::new();
        let mut next_cursor: u32 = 0;
        let mut done = false;
        let n = self.policies.len();
        let mut i: usize = 0;
        proof {
            reveal_with_fuel(Seq::filter_map, 1);
            assert(ps.take(0) =~= Seq::<PolicyView>::empty());
        }
        while i < n && !done
            invariant
                n == ps.len(),
                ps == self@.policies,
                i <= n,
                lim == clamp_limit_spec(limit),
                1 <= lim <= 50,
                !done ==> items@ == ps.take(i as int).filter_map(listed_id(owner, cursor)) && items@.len() <= lim && next_cursor == 0,
                done ==> ps.take(i as int).filter_map(listed_id(owner, cursor)).len() == lim + 1 && items@ == ps.take(
                    i as int,
                ).filter_map(listed_id(owner, cursor)).take(lim as int) && next_cursor == ps.take(i as int).filter_map(listed_id(owner, cursor))[lim as int],
            decreases n - i,
        {
            let p = &self.policies[i];
            proof {
                reveal_with_fuel(Seq::filter_map, 1);
                assert(ps.take(i + 1).drop_last() =~= ps.take(i as int));
                assert(ps.take(i + 1).last() == ps[i as int]);
                assert(ps[i as int] == p@);
                assert(listed_id(owner, cursor)(p@) == if p@.owner == owner && p@.active && p@.id >= cursor {
                    Some(p@.id)
                } else {
                    None
                });
                assert(ps.take(i + 1).filter_map(listed_id(owner, cursor)) == match listed_id(owner, cursor)(p@) {
                    Some(x) => ps.take(i as int).filter_map(listed_id(owner, cursor)) + seq![x],
                    None => ps.take(i as int).filter_map(listed_id(owner, cursor)),
                });
            }
            if p.owner == owner && p.active && p.id >= cursor {
                if (items.len() as u32) < lim {
                    items.push(p.id);
                    proof {
                        assert(items@ =~= ps.take(i as int).filter_map(listed_id(owner, cursor)) + seq![p.id]);
                    }
                } else {
                    next_cursor = p.id;
                    done = true;
                    proof {
                        let m = ps.take(i + 1).filter_map(listed_id(owner, cursor));
                        assert(m == ps.take(i as int).filter_map(listed_id(owner, cursor)) + seq![p.id]);
                        assert(items@ =~= m.take(lim as int));
                    }
                }
            }
            i = i + 1;
        }
        proof {
            let m = ps.filter_map(listed_id(owner, cursor));
            lemma_filter_map_prefix(ps, listed_id(owner, cursor), i as int);
            assert(m == owner_active_from(ps, owner, cursor));
            if !done {
                assert(ps.take(n as int) =~= ps);
            } else {
                assert(items@ =~= m.take(lim as int));
            }
        }
        (items, next_cursor)
    }

    /// Sum of the monthly premiums of `owner`'s active policies, saturating
    /// at the bounds of `i128`.
    pub fn get_total_monthly_premium(&self, owner: AccountId) -> (r: Result<i128, InsuranceError>)
        requires
            self.wf(),
        ensures
            self@.owner is None ==> r == Err::<i128, InsuranceError>(InsuranceError::NotInitialized),
            self@.owner is Some ==> r == Ok::<i128, InsuranceError>(
                total_premium_spec(self@.policies, owner) as i128,
            ),
    {
        if self.owner.is_none() {
            return Err(InsuranceError::NotInitialized);
        }
        let ghost ps = self@.policies;
        let mut total: i128 = 0;
        let n = self.policies.len();
        for i in 0..n
            invariant
                n == ps.len(),
                ps == self@.policies,
                total == total_premium_spec(ps.take(i as int), owner),
        {
            let p = &self.policies[i];
            proof {
                assert(ps.take(i + 1).drop_last() =~= ps.take(i as int));
                assert(ps.take(i + 1).last() == ps[i as int]);
                assert(ps[i as int] == p@);
            }
            if p.owner == owner && p.active {
                total = saturating_add_i128(total, p.monthly_premium);
            }
        }
        proof {
            assert(ps.take(n as int) =~= ps);
        }
        Ok(total)
    }

    /// The contract owner, if the registry is initialised.
    pub fn owner(&self) -> (o: Option<AccountId>)
        ensures
            o == self@.owner,
    {
        self.owner
    }

    /// Copies of all policies, in id order.
    pub fn policies(&self) -> (ps: Vec<Policy>)
        ensures
            ps@.map_values(policy_view_fn()) == self@.policies,
    {
        let mut ps: Vec<Policy> = Vec::new();
        let n = self.policies.len();
        for i in 0..n
            invariant
                n == self@.policies.len(),
                ps@.len() == i,
                ps@.map_values(policy_view_fn()) == self@.policies.take(i as int),
        {
            let p = self.policies[i].copy();
            assert(p@ == self@.policies[i as int]);
            let ghost old_ps = ps@;
            ps.push(p);
            assert forall|k: int| 0 <= k < i + 1 implies #[trigger] ps@.map_values(policy_view_fn())[k]
                == self@.policies.take(i + 1)[k] by {
                if k < i {
                    assert(old_ps.map_values(policy_view_fn())[k] == self@.policies.take(i as int)[k]);
                    assert(ps@[k] == old_ps[k]);
                }
            }
            assert(ps@.map_values(policy_view_fn()) =~= self@.policies.take(i + 1));
        }
        assert(self@.policies.take(n as int) =~= self@.policies);
        ps
    }

    /// Rebuilds a registry from its contract owner and its policies, in id
    /// order; `None` when they do not form a registry.
    pub fn from_parts(owner: Option<AccountId>, policies: Vec<Policy>) -> (r: Option<Insurance>)
        ensures
            r is Some <==> parts_valid(owner, policies@.map_values(policy_view_fn())),
            r matches Some(s) ==> s.wf() && s@.owner == owner && s@.policies == policies@.map_values(policy_view_fn()),
    {
        let ghost ps = policies@.map_values(policy_view_fn());
        let n = policies.len();
        if n > u32::MAX as usize {
            return None;
        }
        let mut active: Vec<u32> = Vec::new();
        proof {
            reveal_with_fuel(Seq::filter_map, 1);
            assert(ps.take(0) =~= Seq::<PolicyView>::empty());
        }
        for i in 0..n
            invariant
                n == policies@.len(),
                n <= u32::MAX,
                ps == policies@.map_values(policy_view_fn()),
                forall|j: int| 0 <= j < i ==> #[trigger] ps[j].id == j + 1,
                forall|j: int| 0 <= j < i ==> policy_valid(#[trigger] ps[j]),
                active@ == active_ids(ps.take(i as int)),
                active@.len() <= MAX_POLICIES,
        {
            let p = &policies[i];
            proof {
                assert(ps[i as int] == p@);
            }
            if p.id as usize != i + 1 || !policy_is_valid(p) {
                proof {
                    assert(!(ps[i as int].id == i + 1 && policy_valid(ps[i as int])));
                }
                return None;
            }
            proof {
                assert(ps.take(i + 1) =~= ps.take(i as int).push(p@));
                lemma_active_ids_push(ps.take(i as int), p@);
            }
            if p.active {
                if active.len() >= MAX_POLICIES as usize {
                    proof {
                        assert(active_ids(ps.take(i + 1)) == active@.push(p.id));
                        lemma_active_ids_prefix_len(ps, i + 1);
                        assert(active_ids(ps).len() > MAX_POLICIES);
                    }
                    return None;
                }
                active.push(p.id);
            }
        }
        proof {
            assert(ps.take(n as int) =~= ps);
            assert forall|j: int| 0 <= j < n implies #[trigger] ps[j].id == j + 1 && policy_valid(ps[j]) by {
                assert(ps[j].id == j + 1);
                assert(policy_valid(ps[j]));
            }
        }
        let s = Insurance { owner, policies, active };
        proof {
            assert(s@.policies == ps);
        }
        Some(s)
    }

    /// The policy with id `policy_id`, if there is one.
    pub fn get_policy(&self, policy_id: u32) -> (r: Result<Option<Policy>, InsuranceError>)
        requires
            self.wf(),
        ensures
            self@.owner is None ==> r == Err::<Option<Policy>, InsuranceError>(
                InsuranceError::NotInitialized,
            ),
            self@.owner is Some ==> r is Ok && match r {
                Ok(Some(p)) => self@.lookup(policy_id) == Some(p@),
                Ok(None) => self@.lookup(policy_id) is None,
                Err(_) => false,
            },
    {
        if self.owner.is_none() {
            return Err(InsuranceError::NotInitialized);
        }
        if policy_id >= 1 && (policy_id as usize) <= self.policies.len() {
            Ok(Some(self.policies[policy_id as usize - 1].copy()))
        } else {
            Ok(None)
        }
    }
}

} // verus!

verus! {

// ── Laws ──────────────────────────────────────────────────────────────────

proof fn lemma_listed_ids(ps: Seq<PolicyView>, owner: AccountId, cursor: u32)
    requires
        forall|k: int| 0 <= k < ps.len() ==> #[trigger] ps[k].id == k + 1,
    ensures
        forall|j: int|
            0 <= j < owner_active_from(ps, owner, cursor).len() ==> {
                let x = #[trigger] owner_active_from(ps, owner, cursor)[j];
                &&& 1 <= x <= ps.len()
                &&& ps[x - 1].owner == owner
                &&& ps[x - 1].active
                &&& x >= cursor
            },
        forall|j: int, k: int|
            0 <= j < k < owner_active_from(ps, owner, cursor).len() ==> #[trigger] owner_active_from(
                ps,
                owner,
                cursor,
            )[j] < #[trigger] owner_active_from(ps, owner, cursor)[k],
    decreases ps.len(),
{
    reveal_with_fuel(Seq::filter_map, 1);
    if ps.len() > 0 {
        let ps2 = ps.drop_last();
        assert forall|k: int| 0 <= k < ps2.len() implies #[trigger] ps2[k].id == k + 1 by {
            assert(ps2[k] == ps[k]);
        }
        lemma_listed_ids(ps2, owner, cursor);
        let m2 = owner_active_from(ps2, owner, cursor);
        let m = owner_active_from(ps, owner, cursor);
        let l = ps.last();
        assert(l == ps[ps.len() - 1]);
        assert(listed_id(owner, cursor)(l) == if l.owner == owner && l.active && l.id >= cursor {
            Some(l.id)
        } else {
            None
        });
        if l.owner == owner && l.active && l.id >= cursor {
            assert(m == m2 + seq![l.id]);
            assert forall|j: int| 0 <= j < m.len() implies {
                let x = #[trigger] m[j];
                &&& 1 <= x <= ps.len()
                &&& ps[x - 1].owner == owner
                &&& ps[x - 1].active
                &&& x >= cursor
            } by {
                if j < m2.len() {
                    assert(m[j] == m2[j]);
                    assert(ps2[m2[j] - 1] == ps[m2[j] - 1]);
                }
            }
            assert forall|j: int, k: int| 0 <= j < k < m.len() implies #[trigger] m[j] < #[trigger] m[k] by {
                assert(m[j] == m2[j]);
                if k < m2.len() {
                    assert(m[k] == m2[k]);
                }
            }
        } else {
            assert(m == m2);
            assert forall|j: int| 0 <= j < m.len() implies {
                let x = #[trigger] m[j];
                &&& 1 <= x <= ps.len()
                &&& ps[x - 1].owner == owner
                &&& ps[x - 1].active
                &&& x >= cursor
            } by {
                assert(ps2[m2[j] - 1] == ps[m2[j] - 1]);
            }
        }
    }
}

/// Holds of ids at or above `c`.
pub open spec fn ge_id(c: u32) -> spec_fn(u32) -> bool {
    |x: u32| x >= c
}

proof fn lemma_filter_push(s: Seq<u32>, f: spec_fn(u32) -> bool, x: u32)
    ensures
        s.push(x).filter(f) == if f(x) {
            s.filter(f).push(x)
        } else {
            s.filter(f)
        },
{
    reveal_with_fuel(Seq::filter, 1);
    assert(s.push(x).drop_last() =~= s);
}

proof fn lemma_from_monotone(ps: Seq<PolicyView>, owner: AccountId, c: u32, c2: u32)
    requires
        c <= c2,
    ensures
        owner_active_from(ps, owner, c2) == owner_active_from(ps, owner, c).filter(ge_id(c2)),
    decreases ps.len(),
{
    reveal_with_fuel(Seq::filter_map, 1);
    reveal_with_fuel(Seq::filter, 1);
    if ps.len() == 0 {
        assert(owner_active_from(ps, owner, c) =~= Seq::<u32>::empty());
        assert(owner_active_from(ps, owner, c2) =~= Seq::<u32>::empty());
    } else {
        let ps2 = ps.drop_last();
        lemma_from_monotone(ps2, owner, c, c2);
        let a = owner_active_from(ps2, owner, c);
        let l = ps.last();
        assert(listed_id(owner, c)(l) == if l.owner == owner && l.active && l.id >= c {
            Some(l.id)
        } else {
            None
        });
        assert(listed_id(owner, c2)(l) == if l.owner == owner && l.active && l.id >= c2 {
            Some(l.id)
        } else {
            None
        });
        assert(ge_id(c2)(l.id) == (l.id >= c2));
        if l.owner == owner && l.active && l.id >= c {
            assert(owner_active_from(ps, owner, c) == a + seq![l.id]);
            assert(a + seq![l.id] =~= a.push(l.id));
            lemma_filter_push(a, ge_id(c2), l.id);
            if l.id >= c2 {
                assert(owner_active_from(ps, owner, c2) == owner_active_from(ps2, owner, c2) + seq![l.id]);
                assert(owner_active_from(ps2, owner, c2) + seq![l.id] =~= owner_active_from(ps2, owner, c2).push(l.id));
            }
        }
    }
}

proof fn lemma_filter_none_ge(s: Seq<u32>, v: u32)
    requires
        forall|i: int| 0 <= i < s.len() ==> #[trigger] s[i] < v,
    ensures
        s.filter(ge_id(v)) == Seq::<u32>::empty(),
    decreases s.len(),
{
    reveal_with_fuel(Seq::filter, 1);
    if s.len() > 0 {
        let s2 = s.drop_last();
        assert forall|i: int| 0 <= i < s2.len() implies #[trigger] s2[i] < v by {
            assert(s2[i] == s[i]);
        }
        lemma_filter_none_ge(s2, v);
        assert(s[s.len() - 1] < v);
        assert(ge_id(v)(s.last()) == (s.last() >= v));
    } else {
        assert(s.filter(ge_id(v)) =~= Seq::<u32>::empty());
    }
}

proof fn lemma_sorted_filter_ge_skip(s: Seq<u32>, k: int)
    requires
        0 <= k < s.len(),
        forall|i: int, j: int| 0 <= i < j < s.len() ==> #[trigger] s[i] < #[trigger] s[j],
    ensures
        s.filter(ge_id(s[k])) == s.skip(k),
    decreases s.len(),
{
    let s2 = s.drop_last();
    let x = s.last();
    assert(s2.push(x) =~= s);
    lemma_filter_push(s2, ge_id(s[k]), x);
    assert(ge_id(s[k])(x) == (x >= s[k]));
    if k == s.len() - 1 {
        assert forall|i: int| 0 <= i < s2.len() implies #[trigger] s2[i] < x by {
            assert(s[i] < s[s.len() - 1]);
        }
        lemma_filter_none_ge(s2, x);
        assert(s.skip(k) =~= seq![x]);
        assert(Seq::<u32>::empty().push(x) =~= seq![x]);
    } else {
        assert forall|i: int, j: int| 0 <= i < j < s2.len() implies #[trigger] s2[i] < #[trigger] s2[j] by {
            assert(s[i] < s[j]);
        }
        assert(s2[k] == s[k]);
        lemma_sorted_filter_ge_skip(s2, k);
        assert(s[k] < s[s.len() - 1]);
        assert(s.skip(k) =~= s2.skip(k).push(x));
    }
}

/// Paging covers every active policy of the owner exactly once: a page
/// followed by everything listed from its `next_cursor` on is everything
/// listed from its own cursor on, and a page whose `next_cursor` is `0` holds
/// everything left.
pub proof fn lemma_pages_cover(v: InsuranceView, owner: AccountId, cursor: u32, limit: u32)
    requires
        v.inv(),
    ensures
        page_next_cursor_spec(v, owner, cursor, limit) == 0 ==> page_items_spec(v, owner, cursor, limit)
            == owner_active_from(v.policies, owner, cursor),
        page_next_cursor_spec(v, owner, cursor, limit) != 0 ==> page_items_spec(v, owner, cursor, limit)
            + owner_active_from(v.policies, owner, page_next_cursor_spec(v, owner, cursor, limit))
            == owner_active_from(v.policies, owner, cursor),
{
    lemma_listed_ids(v.policies, owner, cursor);
    let m = owner_active_from(v.policies, owner, cursor);
    let lim = clamp_limit_spec(limit);
    if m.len() > lim {
        let c2 = m[lim as int];
        assert(1 <= c2);
        assert(c2 >= cursor);
        lemma_from_monotone(v.policies, owner, cursor, c2);
        lemma_sorted_filter_ge_skip(m, lim as int);
        assert(m.take(lim as int) + m.skip(lim as int) =~= m);
    }
}

/// Every id on a page of `get_active_policies` names an active policy of the
/// requested owner with an id at or above the cursor; the ids come in
/// increasing order; and a nonzero `next_cursor` names another such policy, with an id
/// above every id on the page.
pub proof fn lemma_page_sound(v: InsuranceView, owner: AccountId, cursor: u32, limit: u32)
    requires
        v.inv(),
    ensures
        forall|j: int|
            0 <= j < page_items_spec(v, owner, cursor, limit).len() ==> {
                let x = #[trigger] page_items_spec(v, owner, cursor, limit)[j];
                &&& v.lookup(x) is Some
                &&& v.lookup(x)->0.owner == owner
                &&& v.lookup(x)->0.active
                &&& x >= cursor
            },
        forall|j: int, k: int|
            0 <= j < k < page_items_spec(v, owner, cursor, limit).len() ==> #[trigger] page_items_spec(
                v,
                owner,
                cursor,
                limit,
            )[j] < #[trigger] page_items_spec(v, owner, cursor, limit)[k],
        page_items_spec(v, owner, cursor, limit).len() <= clamp_limit_spec(limit),
        page_next_cursor_spec(v, owner, cursor, limit) != 0 ==> {
            let c = page_next_cursor_spec(v, owner, cursor, limit);
            &&& v.lookup(c) is Some
            &&& v.lookup(c)->0.owner == owner
            &&& v.lookup(c)->0.active
            &&& c >= cursor
            &&& forall|j: int|
                0 <= j < page_items_spec(v, owner, cursor, limit).len() ==> #[trigger] page_items_spec(
                    v,
                    owner,
                    cursor,
                    limit,
                )[j] < c
        },
{
    lemma_listed_ids(v.policies, owner, cursor);
    let m = owner_active_from(v.policies, owner, cursor);
    let lim = clamp_limit_spec(limit);
    let items = page_items_spec(v, owner, cursor, limit);
    assert forall|j: int| 0 <= j < items.len() implies #[trigger] items[j] == m[j] by {}
    if m.len() > lim {
        assert(m[lim as int] == page_next_cursor_spec(v, owner, cursor, limit));
        assert forall|j: int| 0 <= j < items.len() implies #[trigger] items[j] < m[lim as int] by {
            assert(items[j] == m[j]);
        }
    }
}

/// The total monthly premium of an owner never saturates: it is the exact
/// sum of the premiums of the owner's active policies.
pub proof fn lemma_total_premium_exact(v: InsuranceView, owner: AccountId)
    requires
        v.inv(),
    ensures
        total_premium_spec(v.policies, owner) == premium_sum(v.policies, owner),
        0 <= premium_sum(v.policies, owner) <= i128::MAX,
{
    assert forall|k: int| 0 <= k < v.policies.len() implies 0 <= #[trigger] v.policies[k].monthly_premium
        <= 2_000_000_000_000 by {
        assert(v.policies[k].id == k + 1);
        assert(policy_valid(v.policies[k]));
    }
    lemma_premium_sum_bounded(v.policies, owner);
    assert(v.policies.len() * 2_000_000_000_000 <= 4294967295 * 2_000_000_000_000);
}

/// A refused request (an error, or `false` from deactivation, archiving or
/// restoring) leaves the registry exactly as it was, whichever operation it
/// was.
pub proof fn lemma_refusals_change_nothing(
    v: InsuranceView,
    caller: AccountId,
    name: Seq<u8>,
    coverage_type: CoverageType,
    premium: i128,
    coverage: i128,
    policy_id: u32,
    ids: Seq<u32>,
    ext_ref: Option<Seq<u8>>,
    now: u64,
)
    ensures
        init_spec(v, caller).1 is Err ==> init_spec(v, caller).0 == v,
        create_policy_spec(v, caller, name, coverage_type, premium, coverage, now).1 is Err
            ==> create_policy_spec(v, caller, name, coverage_type, premium, coverage, now).0 == v,
        pay_premium_spec(v, caller, policy_id, now).1 is Err ==> pay_premium_spec(
            v,
            caller,
            policy_id,
            now,
        ).0 == v,
        batch_pay_spec(v, caller, ids, now).1 is Err ==> batch_pay_spec(v, caller, ids, now).0 == v,
        set_external_ref_spec(v, caller, policy_id, ext_ref).1 is Err ==> set_external_ref_spec(
            v,
            caller,
            policy_id,
            ext_ref,
        ).0 == v,
        !deactivate_spec(v, caller, policy_id).1 ==> deactivate_spec(v, caller, policy_id).0 == v,
        !archive_spec(v, caller, policy_id).1 ==> archive_spec(v, caller, policy_id).0 == v,
        !restore_spec(v, caller, policy_id).1 ==> restore_spec(v, caller, policy_id).0 == v,
{
}

/// A policy that `create_policy` accepts gets the next id (`1` for the first
/// policy), and reading it back yields exactly the created policy: active,
/// unpaid, and due thirty days after creation.
pub proof fn lemma_create_then_get(
    v: InsuranceView,
    caller: AccountId,
    name: Seq<u8>,
    coverage_type: CoverageType,
    premium: i128,
    coverage: i128,
    now: u64,
)
    requires
        v.inv(),
        v.policies.len() < u32::MAX,
        create_policy_spec(v, caller, name, coverage_type, premium, coverage, now).1 is Ok,
    ensures
        ({
            let (w, r) = create_policy_spec(v, caller, name, coverage_type, premium, coverage, now);
            let id = r->Ok_0;
            &&& id == v.policies.len() + 1
            &&& w.lookup(id) == Some(
                new_policy_spec(id, caller, name, coverage_type, premium, coverage, now),
            )
            &&& w.active.contains(id)
            &&& forall|other: u32| other != id ==> w.lookup(other) == v.lookup(other)
        }),
{
    let (w, r) = create_policy_spec(v, caller, name, coverage_type, premium, coverage, now);
    let id = r->Ok_0;
    assert(w.active[w.active.len() - 1] == id);
    assert forall|other: u32| other != id implies w.lookup(other) == v.lookup(other) by {
        if 1 <= other <= v.policies.len() {
            assert(w.policies[other - 1] == v.policies[other - 1]);
        }
    }
}

/// After an accepted `pay_premium` at time `now`, the policy was last paid
/// at `now` and is next due thirty days later; nothing else changes.
pub proof fn lemma_pay_then_get(v: InsuranceView, caller: AccountId, policy_id: u32, now: u64)
    requires
        v.inv(),
        now <= u64::MAX - THIRTY_DAYS_SECS,
        pay_premium_spec(v, caller, policy_id, now).1 is Ok,
    ensures
        ({
            let w = pay_premium_spec(v, caller, policy_id, now).0;
            &&& w.lookup(policy_id) is Some
            &&& w.lookup(policy_id)->0.last_payment_at == now
            &&& w.lookup(policy_id)->0.next_payment_date == now + THIRTY_DAYS_SECS
            &&& w.lookup(policy_id)->0.active
            &&& w.lookup(policy_id) == Some(
                PolicyView {
                    last_payment_at: now,
                    next_payment_date: (now + THIRTY_DAYS_SECS) as u64,
                    ..v.lookup(policy_id)->0
                },
            )
            &&& w.lookup(policy_id)->0.created_at == v.lookup(policy_id)->0.created_at
            &&& w.owner == v.owner
            &&& w.active == v.active
            &&& forall|other: u32| other != policy_id ==> w.lookup(other) == v.lookup(other)
        }),
{
    let w = pay_premium_spec(v, caller, policy_id, now).0;
    assert forall|other: u32| other != policy_id implies w.lookup(other) == v.lookup(other) by {
        if 1 <= other <= v.policies.len() {
            assert(w.policies[other - 1] == v.policies[other - 1]);
        }
    }
}

proof fn lemma_active_ids_sorted(ps: Seq<PolicyView>)
    requires
        forall|k: int| 0 <= k < ps.len() ==> #[trigger] ps[k].id == k + 1,
    ensures
        forall|j: int|
            0 <= j < active_ids(ps).len() ==> {
                let x = #[trigger] active_ids(ps)[j];
                &&& 1 <= x <= ps.len()
                &&& ps[x - 1].active
            },
        forall|j: int, k: int|
            0 <= j < k < active_ids(ps).len() ==> #[trigger] active_ids(ps)[j] < #[trigger] active_ids(
                ps,
            )[k],
    decreases ps.len(),
{
    reveal_with_fuel(Seq::filter_map, 1);
    if ps.len() > 0 {
        let ps2 = ps.drop_last();
        assert forall|k: int| 0 <= k < ps2.len() implies #[trigger] ps2[k].id == k + 1 by {
            assert(ps2[k] == ps[k]);
        }
        lemma_active_ids_sorted(ps2);
        let a2 = active_ids(ps2);
        let a = active_ids(ps);
        let l = ps.last();
        assert(l == ps[ps.len() - 1]);
        if l.active {
            assert(a == a2 + seq![l.id]);
            assert forall|j: int| 0 <= j < a.len() implies {
                let x = #[trigger] a[j];
                &&& 1 <= x <= ps.len()
                &&& ps[x - 1].active
            } by {
                if j < a2.len() {
                    assert(a[j] == a2[j]);
                    assert(ps2[a2[j] - 1] == ps[a2[j] - 1]);
                }
            }
            assert forall|j: int, k: int| 0 <= j < k < a.len() implies #[trigger] a[j] < #[trigger] a[k] by {
                assert(a[j] == a2[j]);
                if k < a2.len() {
                    assert(a[k] == a2[k]);
                }
            }
        } else {
            assert(a == a2);
            assert forall|j: int| 0 <= j < a.len() implies {
                let x = #[trigger] a[j];
                &&& 1 <= x <= ps.len()
                &&& ps[x - 1].active
            } by {
                assert(ps2[a2[j] - 1] == ps[a2[j] - 1]);
            }
        }
    }
}

/// After `deactivate_policy` answers `true`, the policy is inactive, it is
/// not in the active list, and no page of its owner's active policies lists
/// it.
pub proof fn lemma_deactivate_then_list(
    v: InsuranceView,
    caller: AccountId,
    policy_id: u32,
    cursor: u32,
    limit: u32,
)
    requires
        v.inv(),
        deactivate_spec(v, caller, policy_id).1,
    ensures
        ({
            let w = deactivate_spec(v, caller, policy_id).0;
            let owner = v.lookup(policy_id)->0.owner;
            &&& w.lookup(policy_id) is Some
            &&& !w.lookup(policy_id)->0.active
            &&& !w.active.contains(policy_id)
            &&& !page_items_spec(w, owner, cursor, limit).contains(policy_id)
        }),
{
    let w = deactivate_spec(v, caller, policy_id).0;
    let owner = v.lookup(policy_id)->0.owner;
    let k = policy_id - 1;
    assert(v.policies[k].id == policy_id);
    assert forall|i: int| 0 <= i < w.policies.len() implies #[trigger] w.policies[i].id == i + 1 by {
        assert(v.policies[i].id == i + 1);
    }
    if v.policies[k].active {
        lemma_active_ids_deactivate(v.policies, k, PolicyView { active: false, ..v.policies[k] });
    }
    assert(w.active == active_ids(w.policies));
    lemma_active_ids_sorted(w.policies);
    if w.active.contains(policy_id) {
        let j = choose|j: int| 0 <= j < w.active.len() && w.active[j] == policy_id;
        assert(w.policies[w.active[j] - 1].active);
    }
    lemma_listed_ids(w.policies, owner, cursor);
    let m = owner_active_from(w.policies, owner, cursor);
    assert forall|j: int| 0 <= j < page_items_spec(w, owner, cursor, limit).len() implies #[trigger] page_items_spec(
        w,
        owner,
        cursor,
        limit,
    )[j] == m[j] by {}
    if page_items_spec(w, owner, cursor, limit).contains(policy_id) {
        let j = choose|j: int|
            0 <= j < page_items_spec(w, owner, cursor, limit).len() && page_items_spec(
                w,
                owner,
                cursor,
                limit,
            )[j] == policy_id;
        assert(m[j] == policy_id);
    }
}

/// After any deactivation request, the active list still holds each id at
/// most once (in increasing order); when an active policy was deactivated
/// it is exactly one shorter, and otherwise it is unchanged.
pub proof fn lemma_deactivate_active_list(v: InsuranceView, caller: AccountId, policy_id: u32)
    requires
        v.inv(),
    ensures
        ({
            let (w, r) = deactivate_spec(v, caller, policy_id);
            &&& forall|j: int, k: int|
                0 <= j < k < w.active.len() ==> #[trigger] w.active[j] < #[trigger] w.active[k]
            &&& w.active.len() == if r && v.lookup(policy_id)->0.active {
                v.active.len() - 1
            } else {
                v.active.len() as int
            }
        }),
{
    let (w, r) = deactivate_spec(v, caller, policy_id);
    assert forall|i: int| 0 <= i < w.policies.len() implies #[trigger] w.policies[i].id == i + 1 by {
        assert(v.policies[i].id == i + 1);
    }
    if r && v.lookup(policy_id)->0.active {
        let k = policy_id - 1;
        assert(v.policies[k].id == policy_id);
        let q = PolicyView { active: false, ..v.policies[k] };
        lemma_active_ids_deactivate(v.policies, k, q);
        lemma_active_ids_len_update(v.policies, k, q);
    }
    lemma_active_ids_sorted(w.policies);
}

/// Both registries hold the same number of policies, with the same ids at
/// the same places.
pub open spec fn same_ids(v: InsuranceView, w: InsuranceView) -> bool {
    &&& w.policies.len() == v.policies.len()
    &&& forall|i: int| 0 <= i < v.policies.len() ==> #[trigger] w.policies[i].id == v.policies[i].id
}

/// Ids are handed out consecutively and never reused: a created policy gets
/// the id one above the last one, and no other operation adds, removes or
/// renumbers a policy.
pub proof fn lemma_ids_consecutive(
    v: InsuranceView,
    caller: AccountId,
    name: Seq<u8>,
    coverage_type: CoverageType,
    premium: i128,
    coverage: i128,
    policy_id: u32,
    ids: Seq<u32>,
    ext_ref: Option<Seq<u8>>,
    now: u64,
)
    requires
        v.inv(),
        v.policies.len() < u32::MAX,
    ensures
        ({
            let (w, r) = create_policy_spec(v, caller, name, coverage_type, premium, coverage, now);
            &&& r is Ok ==> r->Ok_0 == v.policies.len() + 1 && w.policies.len() == v.policies.len() + 1
                && w.policies[v.policies.len() as int].id == r->Ok_0 && forall|i: int|
                0 <= i < v.policies.len() ==> #[trigger] w.policies[i].id == v.policies[i].id
            &&& r is Err ==> w == v
        }),
        same_ids(v, init_spec(v, caller).0),
        same_ids(v, pay_premium_spec(v, caller, policy_id, now).0),
        same_ids(v, batch_pay_spec(v, caller, ids, now).0),
        same_ids(v, set_external_ref_spec(v, caller, policy_id, ext_ref).0),
        same_ids(v, deactivate_spec(v, caller, policy_id).0),
        same_ids(v, archive_spec(v, caller, policy_id).0),
        same_ids(v, restore_spec(v, caller, policy_id).0),
{
    let (w, r) = create_policy_spec(v, caller, name, coverage_type, premium, coverage, now);
    if r is Ok {
        assert forall|i: int| 0 <= i < v.policies.len() implies #[trigger] w.policies[i].id
            == v.policies[i].id by {
            assert(w.policies[i] == v.policies[i]);
        }
    }
}

/// A policy's due date follows its payments: it is thirty days after the
/// later of its creation and its last payment, and a payment, when there was
/// one, came no earlier than the creation.
pub open spec fn due_date_ok(p: PolicyView) -> bool {
    &&& p.next_payment_date == (if p.last_payment_at > p.created_at {
        p.last_payment_at
    } else {
        p.created_at
    }) + THIRTY_DAYS_SECS
    &&& p.last_payment_at == 0 || p.last_payment_at >= p.created_at
}

pub open spec fn all_due_dates_ok(v: InsuranceView) -> bool {
    forall|i: int| 0 <= i < v.policies.len() ==> due_date_ok(#[trigger] v.policies[i])
}

/// Whether time `now` is not before any policy's creation.
pub open spec fn not_before_creation(v: InsuranceView, now: u64) -> bool {
    forall|i: int| 0 <= i < v.policies.len() ==> (#[trigger] v.policies[i]).created_at <= now
}

/// With a clock that never runs backwards, every policy's due date stays
/// thirty days after the later of its creation and its last payment, whatever
/// operation runs.
pub proof fn lemma_due_dates_follow_payments(
    v: InsuranceView,
    caller: AccountId,
    name: Seq<u8>,
    coverage_type: CoverageType,
    premium: i128,
    coverage: i128,
    policy_id: u32,
    ids: Seq<u32>,
    ext_ref: Option<Seq<u8>>,
    now: u64,
)
    requires
        v.inv(),
        all_due_dates_ok(v),
        not_before_creation(v, now),
        now <= u64::MAX - THIRTY_DAYS_SECS,
    ensures
        all_due_dates_ok(create_policy_spec(v, caller, name, coverage_type, premium, coverage, now).0),
        all_due_dates_ok(init_spec(v, caller).0),
        all_due_dates_ok(pay_premium_spec(v, caller, policy_id, now).0),
        all_due_dates_ok(batch_pay_spec(v, caller, ids, now).0),
        all_due_dates_ok(set_external_ref_spec(v, caller, policy_id, ext_ref).0),
        all_due_dates_ok(deactivate_spec(v, caller, policy_id).0),
        all_due_dates_ok(archive_spec(v, caller, policy_id).0),
        all_due_dates_ok(restore_spec(v, caller, policy_id).0),
{
    let w = create_policy_spec(v, caller, name, coverage_type, premium, coverage, now).0;
    assert forall|i: int| 0 <= i < w.policies.len() implies due_date_ok(#[trigger] w.policies[i]) by {
        if i < v.policies.len() {
            assert(due_date_ok(v.policies[i]));
        }
    }
    let w = pay_premium_spec(v, caller, policy_id, now).0;
    assert forall|i: int| 0 <= i < w.policies.len() implies due_date_ok(#[trigger] w.policies[i]) by {
        assert(due_date_ok(v.policies[i]));
        assert(v.policies[i].created_at <= now);
    }
    let w = batch_pay_spec(v, caller, ids, now).0;
    assert forall|i: int| 0 <= i < w.policies.len() implies due_date_ok(#[trigger] w.policies[i]) by {
        assert(due_date_ok(v.policies[i]));
        assert(v.policies[i].created_at <= now);
    }
    let w = set_external_ref_spec(v, caller, policy_id, ext_ref).0;
    assert forall|i: int| 0 <= i < w.policies.len() implies due_date_ok(#[trigger] w.policies[i]) by {
        assert(due_date_ok(v.policies[i]));
    }
    let w = deactivate_spec(v, caller, policy_id).0;
    assert forall|i: int| 0 <= i < w.policies.len() implies due_date_ok(#[trigger] w.policies[i]) by {
        assert(due_date_ok(v.policies[i]));
    }
    let w = archive_spec(v, caller, policy_id).0;
    assert forall|i: int| 0 <= i < w.policies.len() implies due_date_ok(#[trigger] w.policies[i]) by {
        assert(due_date_ok(v.policies[i]));
    }
    let w = restore_spec(v, caller, policy_id).0;
    assert forall|i: int| 0 <= i < w.policies.len() implies due_date_ok(#[trigger] w.policies[i]) by {
        assert(due_date_ok(v.policies[i]));
    }
}

/// What a policy adds to `owner`'s premium total.
pub open spec fn premium_share(p: PolicyView, owner: AccountId) -> int {
    if p.owner == owner && p.active {
        p.monthly_premium as int
    } else {
        0
    }
}

proof fn lemma_premium_sum_congruent(a: Seq<PolicyView>, b: Seq<PolicyView>, owner: AccountId)
    requires
        a.len() == b.len(),
        forall|k: int| 0 <= k < a.len() ==> premium_share(#[trigger] a[k], owner) == premium_share(b[k], owner),
    ensures
        premium_sum(a, owner) == premium_sum(b, owner),
    decreases a.len(),
{
    if a.len() > 0 {
        let a2 = a.drop_last();
        let b2 = b.drop_last();
        assert forall|k: int| 0 <= k < a2.len() implies premium_share(#[trigger] a2[k], owner)
            == premium_share(b2[k], owner) by {
            assert(a2[k] == a[k] && b2[k] == b[k]);
        }
        lemma_premium_sum_congruent(a2, b2, owner);
        assert(premium_share(a[a.len() - 1], owner) == premium_share(b[a.len() - 1], owner));
    }
}

proof fn lemma_premium_sum_update(ps: Seq<PolicyView>, k: int, q: PolicyView, owner: AccountId)
    requires
        0 <= k < ps.len(),
    ensures
        premium_sum(ps.update(k, q), owner) == premium_sum(ps, owner) - premium_share(ps[k], owner)
            + premium_share(q, owner),
    decreases ps.len(),
{
    let ps2 = ps.drop_last();
    let nps = ps.update(k, q);
    if k == ps.len() - 1 {
        assert(nps.drop_last() =~= ps2);
        assert(nps.last() == q);
        assert(ps.last() == ps[k]);
    } else {
        assert(nps.drop_last() =~= ps2.update(k, q));
        assert(ps2[k] == ps[k]);
        lemma_premium_sum_update(ps2, k, q, owner);
        assert(nps.last() == ps.last());
    }
}

proof fn lemma_total_exact_bounded(ps: Seq<PolicyView>, owner: AccountId)
    requires
        ps.len() <= u32::MAX,
        forall|k: int| 0 <= k < ps.len() ==> 0 <= #[trigger] ps[k].monthly_premium <= 2_000_000_000_000,
    ensures
        total_premium_spec(ps, owner) == premium_sum(ps, owner),
{
    lemma_premium_sum_bounded(ps, owner);
    assert(ps.len() * 2_000_000_000_000 <= 4294967295 * 2_000_000_000_000);
}

/// How an owner's premium total (what `get_total_monthly_premium` reports)
/// moves: an accepted creation adds the new premium to the creator's total;
/// a deactivation that retires an active policy takes its premium off its
/// owner's total; payments and external-reference updates change no total;
/// every other owner's total stays as it was.
pub proof fn lemma_premium_totals(
    v: InsuranceView,
    caller: AccountId,
    name: Seq<u8>,
    coverage_type: CoverageType,
    premium: i128,
    coverage: i128,
    policy_id: u32,
    ids: Seq<u32>,
    ext_ref: Option<Seq<u8>>,
    now: u64,
    owner: AccountId,
)
    requires
        v.inv(),
        v.policies.len() < u32::MAX,
    ensures
        ({
            let (w, r) = create_policy_spec(v, caller, name, coverage_type, premium, coverage, now);
            total_premium_spec(w.policies, owner) == total_premium_spec(v.policies, owner) + if r is Ok
                && owner == caller {
                premium as int
            } else {
                0
            }
        }),
        ({
            let (w, r) = deactivate_spec(v, caller, policy_id);
            total_premium_spec(w.policies, owner) == total_premium_spec(v.policies, owner) - if r
                && v.lookup(policy_id)->0.active && v.lookup(policy_id)->0.owner == owner {
                v.lookup(policy_id)->0.monthly_premium as int
            } else {
                0
            }
        }),
        total_premium_spec(pay_premium_spec(v, caller, policy_id, now).0.policies, owner)
            == total_premium_spec(v.policies, owner),
        total_premium_spec(batch_pay_spec(v, caller, ids, now).0.policies, owner) == total_premium_spec(
            v.policies,
            owner,
        ),
        total_premium_spec(set_external_ref_spec(v, caller, policy_id, ext_ref).0.policies, owner)
            == total_premium_spec(v.policies, owner),
{
    assert forall|k: int| 0 <= k < v.policies.len() implies 0 <= #[trigger] v.policies[k].monthly_premium
        <= 2_000_000_000_000 by {
        assert(v.policies[k].id == k + 1);
        assert(policy_valid(v.policies[k]));
    }
    lemma_total_exact_bounded(v.policies, owner);
    // creation
    let (w, r) = create_policy_spec(v, caller, name, coverage_type, premium, coverage, now);
    if r is Ok {
        assert(w.policies.drop_last() =~= v.policies);
        assert forall|k: int| 0 <= k < w.policies.len() implies 0 <= #[trigger] w.policies[k].monthly_premium
            <= 2_000_000_000_000 by {
            if k < v.policies.len() {
                assert(w.policies[k] == v.policies[k]);
            }
        }
        lemma_total_exact_bounded(w.policies, owner);
    }
    // deactivation
    let (w, r) = deactivate_spec(v, caller, policy_id);
    if r && v.lookup(policy_id)->0.active {
        let k = policy_id - 1;
        lemma_premium_sum_update(v.policies, k, PolicyView { active: false, ..v.policies[k] }, owner);
        assert forall|j: int| 0 <= j < w.policies.len() implies 0 <= #[trigger] w.policies[j].monthly_premium
            <= 2_000_000_000_000 by {
            assert(v.policies[j].monthly_premium <= 2_000_000_000_000);
        }
        lemma_total_exact_bounded(w.policies, owner);
    }
    // payments and external references
    let w = pay_premium_spec(v, caller, policy_id, now).0;
    assert forall|k: int| 0 <= k < v.policies.len() implies premium_share(#[trigger] v.policies[k], owner)
        == premium_share(w.policies[k], owner) by {}
    lemma_premium_sum_congruent(v.policies, w.policies, owner);
    lemma_total_exact_bounded(w.policies, owner);
    let w = batch_pay_spec(v, caller, ids, now).0;
    assert forall|k: int| 0 <= k < v.policies.len() implies premium_share(#[trigger] v.policies[k], owner)
        == premium_share(w.policies[k], owner) by {}
    lemma_premium_sum_congruent(v.policies, w.policies, owner);
    lemma_total_exact_bounded(w.policies, owner);
    let w = set_external_ref_spec(v, caller, policy_id, ext_ref).0;
    assert forall|k: int| 0 <= k < v.policies.len() implies premium_share(#[trigger] v.policies[k], owner)
        == premium_share(w.policies[k], owner) by {}
    lemma_premium_sum_congruent(v.policies, w.policies, owner);
    lemma_total_exact_bounded(w.policies, owner);
}

/// A batch payment touches only the due fields of the policies it pays: a
/// policy named in the batch that is active and owned by the caller now
/// reads as paid at `now` (last payment `now`, due thirty days later), with
/// every other field, its creation time included, as before; every other
/// policy is exactly as before.
pub proof fn lemma_batch_pay_changes_only_due_fields(
    v: InsuranceView,
    caller: AccountId,
    ids: Seq<u32>,
    now: u64,
)
    requires
        v.inv(),
        now <= u64::MAX - THIRTY_DAYS_SECS,
        batch_pay_spec(v, caller, ids, now).1 is Ok,
    ensures
        ({
            let w = batch_pay_spec(v, caller, ids, now).0;
            &&& w.owner == v.owner
            &&& w.active == v.active
            &&& w.policies.len() == v.policies.len()
            &&& forall|x: u32|
                #![trigger w.lookup(x)]
                1 <= x <= v.policies.len() ==> {
                    let p = v.lookup(x)->0;
                    w.lookup(x) == if ids.contains(x) && p.active && p.owner == caller {
                        Some(
                            PolicyView {
                                last_payment_at: now,
                                next_payment_date: (now + THIRTY_DAYS_SECS) as u64,
                                ..p
                            },
                        )
                    } else {
                        Some(p)
                    }
                }
        }),
{
    let w = batch_pay_spec(v, caller, ids, now).0;
    assert forall|x: u32| #![trigger w.lookup(x)] 1 <= x <= v.policies.len() implies {
        let p = v.lookup(x)->0;
        w.lookup(x) == if ids.contains(x) && p.active && p.owner == caller {
            Some(
                PolicyView {
                    last_payment_at: now,
                    next_payment_date: (now + THIRTY_DAYS_SECS) as u64,
                    ..p
                },
            )
        } else {
            Some(p)
        }
    } by {
        assert(v.policies[x - 1].id == x);
    }
}

proof fn lemma_owner_active_len_update(ps: Seq<PolicyView>, owner: AccountId, k: int, q: PolicyView)
    requires
        0 <= k < ps.len(),
        q.id == ps[k].id,
        q.owner == ps[k].owner,
    ensures
        owner_active_ids(ps.update(k, q), owner).len() + (if ps[k].active && ps[k].owner == owner {
            1int
        } else {
            0int
        }) == owner_active_ids(ps, owner).len() + (if q.active && q.owner == owner {
            1int
        } else {
            0int
        }),
    decreases ps.len(),
{
    reveal_with_fuel(Seq::filter_map, 1);
    let ps2 = ps.drop_last();
    let nps = ps.update(k, q);
    if k == ps.len() - 1 {
        assert(nps.drop_last() =~= ps2);
        assert(nps.last() == q);
        assert(ps.last() == ps[k]);
    } else {
        assert(nps.drop_last() =~= ps2.update(k, q));
        assert(ps2[k] == ps[k]);
        lemma_owner_active_len_update(ps2, owner, k, q);
        assert(nps.last() == ps.last());
    }
}

/// Restoring never takes a policy's owner over the per-owner cap, whoever
/// asks for it (the policy's owner or the contract owner): after an accepted
/// restore the policy is active again, its owner holds exactly one more
/// active policy than before, and at most `MAX_POLICIES_PER_OWNER`; at most
/// `MAX_POLICIES` policies are active in all.
pub proof fn lemma_restore_respects_caps(v: InsuranceView, caller: AccountId, policy_id: u32)
    requires
        v.inv(),
        restore_spec(v, caller, policy_id).1,
    ensures
        ({
            let w = restore_spec(v, caller, policy_id).0;
            let p = v.lookup(policy_id)->0;
            &&& p.archived
            &&& w.lookup(policy_id) == Some(PolicyView { active: true, archived: false, ..p })
            &&& owner_active_ids(w.policies, p.owner).len() == owner_active_ids(v.policies, p.owner).len()
                + 1
            &&& owner_active_ids(w.policies, p.owner).len() <= MAX_POLICIES_PER_OWNER
            &&& w.active.len() <= MAX_POLICIES
        }),
{
    let p = v.lookup(policy_id)->0;
    let k = policy_id - 1;
    let q = PolicyView { active: true, archived: false, ..p };
    assert(v.policies[k].id == policy_id);
    assert(policy_valid(v.policies[k]));
    assert(!p.active);
    lemma_owner_active_len_update(v.policies, p.owner, k, q);
    lemma_active_ids_len_update(v.policies, k, q);
}

/// An accepted creation never takes the creator over the per-owner cap: the
/// creator holds one more active policy than before, and at most
/// `MAX_POLICIES_PER_OWNER`.
pub proof fn lemma_create_respects_owner_cap(
    v: InsuranceView,
    caller: AccountId,
    name: Seq<u8>,
    coverage_type: CoverageType,
    premium: i128,
    coverage: i128,
    now: u64,
)
    requires
        v.inv(),
        create_policy_spec(v, caller, name, coverage_type, premium, coverage, now).1 is Ok,
    ensures
        ({
            let w = create_policy_spec(v, caller, name, coverage_type, premium, coverage, now).0;
            &&& owner_active_ids(w.policies, caller).len() == owner_active_ids(v.policies, caller).len() + 1
            &&& owner_active_ids(w.policies, caller).len() <= MAX_POLICIES_PER_OWNER
        }),
{
    let w = create_policy_spec(v, caller, name, coverage_type, premium, coverage, now).0;
    reveal_with_fuel(Seq::filter_map, 1);
    let np = w.policies.last();
    assert(w.policies.drop_last() =~= v.policies);
    assert(np.owner == caller && np.active);
}

/// Deactivating, archiving and setting an external reference each change one
/// thing about one policy and nothing about the others: an accepted
/// deactivation clears only the active flag, an accepted archive clears the
/// active flag and sets the archived one, an accepted external-reference
/// update replaces only the reference; every other field (owner, premium,
/// dates included) and every other policy stay as they were.
pub proof fn lemma_updates_touch_one_field(
    v: InsuranceView,
    caller: AccountId,
    policy_id: u32,
    ext_ref: Option<Seq<u8>>,
)
    requires
        v.inv(),
    ensures
        deactivate_spec(v, caller, policy_id).1 ==> {
            let w = deactivate_spec(v, caller, policy_id).0;
            &&& w.owner == v.owner
            &&& w.lookup(policy_id) == Some(PolicyView { active: false, ..v.lookup(policy_id)->0 })
            &&& forall|x: u32| x != policy_id ==> #[trigger] w.lookup(x) == v.lookup(x)
        },
        archive_spec(v, caller, policy_id).1 ==> {
            let w = archive_spec(v, caller, policy_id).0;
            &&& w.owner == v.owner
            &&& w.lookup(policy_id) == Some(
                PolicyView { active: false, archived: true, ..v.lookup(policy_id)->0 },
            )
            &&& forall|x: u32| x != policy_id ==> #[trigger] w.lookup(x) == v.lookup(x)
        },
        set_external_ref_spec(v, caller, policy_id, ext_ref).1 is Ok ==> {
            let w = set_external_ref_spec(v, caller, policy_id, ext_ref).0;
            &&& w.owner == v.owner
            &&& w.active == v.active
            &&& w.lookup(policy_id) == Some(PolicyView { external_ref: ext_ref, ..v.lookup(policy_id)->0 })
            &&& forall|x: u32| x != policy_id ==> #[trigger] w.lookup(x) == v.lookup(x)
        },
{
    if 1 <= policy_id <= v.policies.len() {
        let p = v.policies[policy_id - 1];
        assert(p.id == policy_id);
        if deactivate_spec(v, caller, policy_id).1 && !p.active {
            assert(PolicyView { active: false, ..p } == p);
        }
        assert(policy_valid(p));
    }
}

} // verus!
