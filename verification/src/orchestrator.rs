use vstd::bytes::{
    spec_u128_to_le_bytes, spec_u64_from_le_bytes, spec_u64_to_le_bytes, u128_to_le_bytes,
    u64_from_le_bytes, u64_to_le_bytes,
};
use vstd::prelude::*;
use crate::checksum::{sha256_digest, sha256_spec};
use crate::common::AccountId;

verus! {

/// Longest time, in seconds, a signed flow authorisation stays valid.
pub const MAX_DEADLINE_WINDOW_SECS: u64 = 3600;

/// Most entries the execution audit log retains.
pub const MAX_AUDIT_ENTRIES: u32 = 100;

/// Why the orchestrator refused a request.
#[derive(Clone, Copy, Debug, PartialEq, Eq, Structural)]
pub enum OrchestratorError {
    AlreadyInitialized,
    NotInitialized,
    InvalidAmount,
    DeadlineExpired,
    InvalidNonce,
    ExecutionLocked,
}

/// Counters over all flow executions.
#[derive(Clone, Copy, Debug, PartialEq, Eq, Structural)]
pub struct ExecutionStats {
    pub total_executions: u64,
    pub successful_executions: u64,
    pub failed_executions: u64,
    pub last_execution_time: u64,
    pub evicted_entries: u64,
}

/// One executed flow, as kept in the audit log.
#[derive(Clone, Copy, Debug, PartialEq, Eq, Structural)]
pub struct AuditEntry {
    pub caller: AccountId,
    pub amount: i128,
    pub success: bool,
    pub timestamp: u64,
}

/// Whether a signed request with `deadline` may run at ledger time `now`:
/// the deadline lies strictly after `now` and at most
/// `MAX_DEADLINE_WINDOW_SECS` after it.
pub open spec fn deadline_ok(deadline: u64, now: u64) -> bool {
    now < deadline && deadline <= now + MAX_DEADLINE_WINDOW_SECS
}

/// Checks the deadline window of a signed request.
pub fn check_deadline(deadline: u64, now: u64) -> (r: Result<(), OrchestratorError>)
    ensures
        r is Ok <==> deadline_ok(deadline, now),
        r is Err ==> r->Err_0 == OrchestratorError::DeadlineExpired,
{
    if deadline <= now {
        return Err(OrchestratorError::DeadlineExpired);
    }
    if deadline - now > MAX_DEADLINE_WINDOW_SECS {
        return Err(OrchestratorError::DeadlineExpired);
    }
    Ok(())
}

/// The operation tag of a remittance flow request: the bytes of `"flow"`.
pub open spec fn flow_tag() -> Seq<u8> {
    seq![102u8, 108u8, 111u8, 119u8]
}

/// The bytes a flow request hash is taken over: the operation tag, then the
/// nonce, the amount (two's complement) and the deadline, each little-endian.
pub open spec fn request_preimage_spec(nonce: u64, amount: i128, deadline: u64) -> Seq<u8> {
    flow_tag() + spec_u64_to_le_bytes(nonce) + spec_u128_to_le_bytes(amount as u128)
        + spec_u64_to_le_bytes(deadline)
}

/// The hash that binds a signed flow request to its parameters: the first
/// eight bytes of the SHA-256 digest of its preimage, read little-endian.
/// The fields hashed are the operation tag, nonce, amount and deadline; the
/// byte layout and the digest are this library's own choice of scheme.
pub open spec fn request_hash_spec(nonce: u64, amount: i128, deadline: u64) -> u64 {
    spec_u64_from_le_bytes(sha256_spec(request_preimage_spec(nonce, amount, deadline)).take(8))
}

/// Builds the preimage of a flow request hash.
pub fn request_preimage(nonce: u64, amount: i128, deadline: u64) -> (bytes: Vec<u8>)
    ensures
        bytes@ == request_preimage_spec(nonce, amount, deadline),
{
    let mut bytes: Vec<u8> = Vec::new();
    bytes.push(102u8);
    bytes.push(108u8);
    bytes.push(111u8);
    bytes.push(119u8);
    let mut n = u64_to_le_bytes(nonce);
    let mut a = u128_to_le_bytes(amount as u128);
    let mut d = u64_to_le_bytes(deadline);
    bytes.append(&mut n);
    bytes.append(&mut a);
    bytes.append(&mut d);
    assert(bytes@ =~= request_preimage_spec(nonce, amount, deadline));
    bytes
}

/// The hash a signed flow request with these parameters must carry.
pub fn request_hash(nonce: u64, amount: i128, deadline: u64) -> (h: u64)
    ensures
        h == request_hash_spec(nonce, amount, deadline),
{
    let pre = request_preimage(nonce, amount, deadline);
    let digest = sha256_digest(pre.as_slice());
    let mut head: Vec<u8> = Vec::new();
    for i in 0..8
        invariant
            digest@.len() == 32,
            head@ == digest@.take(i as int),
    {
        head.push(digest[i]);
        assert(head@ =~= digest@.take(i + 1));
    }
    u64_from_le_bytes(head.as_slice())
}

/// The log after appending `e`: when the log would exceed
/// `MAX_AUDIT_ENTRIES`, its oldest entry is dropped.
pub open spec fn audit_append(log: Seq<AuditEntry>, e: AuditEntry) -> Seq<AuditEntry> {
    if log.len() + 1 > MAX_AUDIT_ENTRIES {
        log.push(e).drop_first()
    } else {
        log.push(e)
    }
}

/// The current nonce of `a`: the stored one, or `0` for an account never seen.
pub open spec fn nonce_of(nonces: Seq<(AccountId, u64)>, a: AccountId) -> u64 {
    if exists|i: int| 0 <= i < nonces.len() && #[trigger] nonces[i].0 == a {
        nonces[choose|i: int| 0 <= i < nonces.len() && #[trigger] nonces[i].0 == a].1
    } else {
        0
    }
}

/// The orchestrator's state.
pub struct OrchestratorView {
    pub owner: Option<AccountId>,
    pub locked: bool,
    pub stats: ExecutionStats,
    pub nonces: Seq<(AccountId, u64)>,
    pub audit: Seq<AuditEntry>,
}

impl OrchestratorView {
    /// Every execution is counted once as a success or a failure; the audit
    /// log plus the evicted entries account for every execution; the log is
    /// bounded; each account has one nonce; no signed flow has run before
    /// initialisation.
    pub open spec fn inv(self) -> bool {
        &&& self.stats.total_executions == self.stats.successful_executions
            + self.stats.failed_executions
        &&& self.audit.len() + self.stats.evicted_entries == self.stats.total_executions
        &&& self.audit.len() <= MAX_AUDIT_ENTRIES
        &&& forall|i: int, j: int|
            0 <= i < j < self.nonces.len() ==> #[trigger] self.nonces[i].0 != #[trigger] self.nonces[j].0
        &&& self.owner is None ==> self.stats == ExecutionStats {
            total_executions: 0,
            successful_executions: 0,
            failed_executions: 0,
            last_execution_time: 0,
            evicted_entries: 0,
        } && self.nonces.len() == 0
    }

    /// The stats as reported to callers: none before initialisation.
    pub open spec fn reported_stats(self) -> Option<ExecutionStats> {
        if self.owner is None {
            None
        } else {
            Some(self.stats)
        }
    }
}

/// Why a signed flow request is refused, checked in this order; `None` if it
/// is admitted. `hash_matches` tells whether the request carried the hash of
/// its own parameters; a mismatch is refused like a wrong nonce.
pub open spec fn begin_error(
    v: OrchestratorView,
    caller: AccountId,
    amount: i128,
    nonce: u64,
    deadline: u64,
    hash_matches: bool,
    now: u64,
) -> Option<OrchestratorError> {
    if v.owner is None {
        Some(OrchestratorError::NotInitialized)
    } else if amount <= 0 {
        Some(OrchestratorError::InvalidAmount)
    } else if !deadline_ok(deadline, now) {
        Some(OrchestratorError::DeadlineExpired)
    } else if nonce != nonce_of(v.nonces, caller) || !hash_matches {
        Some(OrchestratorError::InvalidNonce)
    } else if v.locked {
        Some(OrchestratorError::ExecutionLocked)
    } else {
        None
    }
}

/// The stats after one more execution at `now` that succeeded or failed.
pub open spec fn record_spec(s: ExecutionStats, succeeded: bool, now: u64) -> ExecutionStats {
    ExecutionStats {
        total_executions: (s.total_executions + 1) as u64,
        successful_executions: if succeeded {
            (s.successful_executions + 1) as u64
        } else {
            s.successful_executions
        },
        failed_executions: if succeeded {
            s.failed_executions
        } else {
            (s.failed_executions + 1) as u64
        },
        last_execution_time: now,
        ..s
    }
}

/// Flow orchestration state: the owner, the execution lock, per-account
/// nonces, execution statistics and the bounded audit log.
pub struct Orchestrator {
    owner: Option<AccountId>,
    locked: bool,
    stats: ExecutionStats,
    nonces: Vec<(AccountId, u64)>,
    audit: Vec<AuditEntry>,
}

impl View for Orchestrator {
    type V = OrchestratorView;

    closed spec fn view(&self) -> OrchestratorView {
        OrchestratorView {
            owner: self.owner,
            locked: self.locked,
            stats: self.stats,
            nonces: self.nonces@,
            audit: self.audit@,
        }
    }
}

fn zero_stats() -> (s: ExecutionStats)
    ensures
        s == (ExecutionStats {
            total_executions: 0,
            successful_executions: 0,
            failed_executions: 0,
            last_execution_time: 0,
            evicted_entries: 0,
        }),
{
    ExecutionStats {
        total_executions: 0,
        successful_executions: 0,
        failed_executions: 0,
        last_execution_time: 0,
        evicted_entries: 0,
    }
}

impl Orchestrator {
    /// The orchestrator's well-formedness: its state satisfies the invariant.
    pub open spec fn wf(&self) -> bool {
        self@.inv()
    }

    /// An uninitialised orchestrator.
    pub fn new() -> (o: Orchestrator)
        ensures
            o.wf(),
            o@.owner is None,
            !o@.locked,
            o@.audit.len() == 0,
    {
        Orchestrator {
            owner: None,
            locked: false,
            stats: zero_stats(),
            nonces: Vec::new(),
            audit: Vec::new(),
        }
    }

    /// Sets the owner of an uninitialised orchestrator.
    pub fn init(&mut self, owner: AccountId) -> (r: Result<(), OrchestratorError>)
        requires
            old(self).wf(),
        ensures
            final(self).wf(),
            old(self)@.owner is Some ==> r == Err::<(), OrchestratorError>(
                OrchestratorError::AlreadyInitialized,
            ) && final(self)@ == old(self)@,
            old(self)@.owner is None ==> r is Ok && final(self)@ == (OrchestratorView {
                owner: Some(owner),
                ..old(self)@
            }),
    {
        if self.owner.is_some() {
            return Err(OrchestratorError::AlreadyInitialized);
        }
        self.owner = Some(owner);
        Ok(())
    }

    /// The execution statistics; `None` before initialisation.
    pub fn get_execution_stats(&self) -> (r: Option<ExecutionStats>)
        requires
            self.wf(),
        ensures
            r == self@.reported_stats(),
    {
        if self.owner.is_none() {
            None
        } else {
            Some(self.stats)
        }
    }

    /// Whether a flow is executing (the execution lock is held).
    pub fn get_execution_state(&self) -> (locked: bool)
        ensures
            locked == self@.locked,
    {
        self.locked
    }

    fn find_nonce(&self, a: AccountId) -> (r: Option<usize>)
        requires
            self.wf(),
        ensures
            match r {
                Some(i) => i < self@.nonces.len() && self@.nonces[i as int].0 == a
                    && nonce_of(self@.nonces, a) == self@.nonces[i as int].1,
                None => forall|i: int| 0 <= i < self@.nonces.len() ==> #[trigger] self@.nonces[i].0 != a,
            },
    {
        let n = self.nonces.len();
        for i in 0..n
            invariant
                n == self@.nonces.len(),
                self.wf(),
                forall|j: int| 0 <= j < i ==> #[trigger] self@.nonces[j].0 != a,
        {
            if self.nonces[i].0 == a {
                proof {
                    let k = choose|k: int| 0 <= k < self@.nonces.len() && #[trigger] self@.nonces[k].0 == a;
                    if k != i {
                        if k < i {
                            assert(self@.nonces[k].0 != self@.nonces[i as int].0);
                        } else {
                            assert(self@.nonces[i as int].0 != self@.nonces[k].0);
                        }
                    }
                }
                return Some(i);
            }
        }
        None
    }

    /// The nonce the next signed request of `a` must carry.
    pub fn get_nonce(&self, a: AccountId) -> (n: u64)
        requires
            self.wf(),
        ensures
            n == nonce_of(self@.nonces, a),
    {
        match self.find_nonce(a) {
            Some(i) => self.nonces[i].1,
            None => 0,
        }
    }

    /// Admits a signed flow request of `caller` for `amount`, carrying `nonce`
    /// and valid until `deadline`, at ledger time `now`; the request carries
    /// `request_hash`, which must equal `request_hash(nonce, amount, deadline)`.
    /// On success the caller's nonce advances and the execution lock is taken;
    /// a refused request changes nothing.
    pub fn begin_flow(
        &mut self,
        caller: AccountId,
        amount: i128,
        nonce: u64,
        deadline: u64,
        request_hash: u64,
        now: u64,
    ) -> (r: Result<(), OrchestratorError>)
        requires
            old(self).wf(),
            nonce_of(old(self)@.nonces, caller) < u64::MAX,
        ensures
            final(self).wf(),
            match begin_error(
                old(self)@,
                caller,
                amount,
                nonce,
                deadline,
                request_hash == request_hash_spec(nonce, amount, deadline),
                now,
            ) {
                Some(e) => r == Err::<(), OrchestratorError>(e) && final(self)@ == old(self)@,
                None => r is Ok && final(self)@.locked && final(self)@.owner == old(self)@.owner
                    && final(self)@.stats == old(self)@.stats && final(self)@.audit == old(
                    self,
                )@.audit && nonce_of(final(self)@.nonces, caller) == nonce + 1 && forall|
                    a: AccountId,
                | a != caller ==> nonce_of(final(self)@.nonces, a) == nonce_of(old(self)@.nonces, a),
            },
    {
        let expected = self::request_hash(nonce, amount, deadline);
        self.admit_flow(caller, amount, nonce, deadline, request_hash, expected, now)
    }

    /// Admits a signed flow request as `begin_flow` does, given the hash
    /// `expected_hash` that its parameters call for.
    pub fn admit_flow(
        &mut self,
        caller: AccountId,
        amount: i128,
        nonce: u64,
        deadline: u64,
        request_hash: u64,
        expected_hash: u64,
        now: u64,
    ) -> (r: Result<(), OrchestratorError>)
        requires
            old(self).wf(),
            nonce_of(old(self)@.nonces, caller) < u64::MAX,
        ensures
            final(self).wf(),
            match begin_error(
                old(self)@,
                caller,
                amount,
                nonce,
                deadline,
                request_hash == expected_hash,
                now,
            ) {
                Some(e) => r == Err::<(), OrchestratorError>(e) && final(self)@ == old(self)@,
                None => r is Ok && final(self)@.locked && final(self)@.owner == old(self)@.owner
                    && final(self)@.stats == old(self)@.stats && final(self)@.audit == old(
                    self,
                )@.audit && nonce_of(final(self)@.nonces, caller) == nonce + 1 && forall|
                    a: AccountId,
                | a != caller ==> nonce_of(final(self)@.nonces, a) == nonce_of(old(self)@.nonces, a),
            },
    {
        if self.owner.is_none() {
            return Err(OrchestratorError::NotInitialized);
        }
        if amount <= 0 {
            return Err(OrchestratorError::InvalidAmount);
        }
        check_deadline(deadline, now)?;
        let found = self.find_nonce(caller);
        let current = match found {
            Some(i) => self.nonces[i].1,
            None => 0,
        };
        if nonce != current || request_hash != expected_hash {
            return Err(OrchestratorError::InvalidNonce);
        }
        if self.locked {
            return Err(OrchestratorError::ExecutionLocked);
        }
        let ghost old_nonces = self@.nonces;
        match found {
            Some(i) => {
                self.nonces.set(i, (caller, nonce + 1));
                proof {
                    assert forall|x: int, y: int| 0 <= x < y < self@.nonces.len() implies #[trigger] self@.nonces[x].0
                        != #[trigger] self@.nonces[y].0 by {
                        assert(old_nonces[x].0 != old_nonces[y].0);
                    }
                    assert(self@.nonces == old_nonces.update(i as int, (caller, (nonce + 1) as u64)));
                    assert forall|a: AccountId| #[trigger] nonce_of(self@.nonces, a) == if a == caller {
                        (nonce + 1) as u64
                    } else {
                        nonce_of(old_nonces, a)
                    } by {
                        lemma_nonce_of_update(old_nonces, i as int, caller, (nonce + 1) as u64, a);
                    }
                    assert(nonce_of(self@.nonces, caller) == (nonce + 1) as u64);
                }
            },
            None => {
                self.nonces.push((caller, nonce + 1));
                proof {
                    assert forall|x: int, y: int| 0 <= x < y < self@.nonces.len() implies #[trigger] self@.nonces[x].0
                        != #[trigger] self@.nonces[y].0 by {
                        if y < old_nonces.len() {
                            assert(old_nonces[x].0 != old_nonces[y].0);
                        } else {
                            assert(old_nonces[x].0 != caller);
                        }
                    }
                    assert forall|a: AccountId| #[trigger] nonce_of(self@.nonces, a) == if a == caller {
                        (nonce + 1) as u64
                    } else {
                        nonce_of(old_nonces, a)
                    } by {
                        lemma_nonce_of_push(old_nonces, caller, (nonce + 1) as u64, a);
                    }
                    assert(nonce_of(self@.nonces, caller) == (nonce + 1) as u64);
                }
            },
        }
        self.locked = true;
        Ok(())
    }

    /// Admits an unsigned remittance flow of `amount`: refused with
    /// `ExecutionLocked` while another flow holds the execution lock, and
    /// with `InvalidAmount` unless `amount` is positive; otherwise the lock
    /// is taken. This works whether or not the orchestrator is initialised,
    /// and touches neither nonces, statistics nor the audit log.
    pub fn begin_unsigned_flow(&mut self, amount: i128) -> (r: Result<(), OrchestratorError>)
        requires
            old(self).wf(),
        ensures
            final(self).wf(),
            old(self)@.locked ==> r == Err::<(), OrchestratorError>(OrchestratorError::ExecutionLocked)
                && final(self)@ == old(self)@,
            !old(self)@.locked && amount <= 0 ==> r == Err::<(), OrchestratorError>(
                OrchestratorError::InvalidAmount,
            ) && final(self)@ == old(self)@,
            !old(self)@.locked && amount > 0 ==> r is Ok && final(self)@ == (OrchestratorView {
                locked: true,
                ..old(self)@
            }),
    {
        if self.locked {
            return Err(OrchestratorError::ExecutionLocked);
        }
        if amount <= 0 {
            return Err(OrchestratorError::InvalidAmount);
        }
        self.locked = true;
        Ok(())
    }

    /// Completes an unsigned flow, whether it succeeded or failed: releases
    /// the execution lock and changes nothing else.
    pub fn finish_unsigned_flow(&mut self)
        requires
            old(self).wf(),
        ensures
            final(self).wf(),
            final(self)@ == (OrchestratorView { locked: false, ..old(self)@ }),
    {
        self.locked = false;
    }

    /// Completes the flow admitted by `begin_flow`: releases the lock, counts
    /// the execution as succeeded or failed at `now`, and logs it.
    pub fn finish_flow(&mut self, caller: AccountId, amount: i128, succeeded: bool, now: u64)
        requires
            old(self).wf(),
            old(self)@.owner is Some,
            old(self)@.locked,
            old(self)@.stats.total_executions < u64::MAX,
        ensures
            final(self).wf(),
            !final(self)@.locked,
            final(self)@.owner == old(self)@.owner,
            final(self)@.nonces == old(self)@.nonces,
            final(self)@.audit == audit_append(
                old(self)@.audit,
                AuditEntry { caller, amount, success: succeeded, timestamp: now },
            ),
            final(self)@.stats == (ExecutionStats {
                evicted_entries: if old(self)@.audit.len() + 1 > MAX_AUDIT_ENTRIES {
                    (old(self)@.stats.evicted_entries + 1) as u64
                } else {
                    old(self)@.stats.evicted_entries
                },
                ..record_spec(old(self)@.stats, succeeded, now)
            }),
    {
        let ghost old_audit = self@.audit;
        let ghost old_v = self@;
        let mut stats = self.stats;
        stats.total_executions = stats.total_executions + 1;
        if succeeded {
            stats.successful_executions = stats.successful_executions + 1;
        } else {
            stats.failed_executions = stats.failed_executions + 1;
        }
        stats.last_execution_time = now;
        self.audit.push(AuditEntry { caller, amount, success: succeeded, timestamp: now });
        if self.audit.len() > MAX_AUDIT_ENTRIES as usize {
            self.audit.remove(0);
            stats.evicted_entries = stats.evicted_entries + 1;
        }
        self.stats = stats;
        self.locked = false;
        proof {
            let e = AuditEntry { caller, amount, success: succeeded, timestamp: now };
            assert(self@.audit =~= audit_append(old_audit, e));
            assert(self@.audit.len() + self@.stats.evicted_entries == self@.stats.total_executions);
            assert(self@.nonces == old_v.nonces);
            assert(self@.owner is Some);
        }
    }

    /// Up to `limit` audit entries (at most `MAX_AUDIT_ENTRIES`), oldest
    /// first, starting at position `from_index`.
    pub fn get_audit_log(&self, from_index: u32, limit: u32) -> (page: Vec<AuditEntry>)
        requires
            self.wf(),
        ensures
            page@ == audit_page_spec(self@.audit, from_index, limit),
    {
        let lim: u32 = if limit > MAX_AUDIT_ENTRIES {
            MAX_AUDIT_ENTRIES
        } else {
            limit
        };
        let len = self.audit.len();
        let mut page: Vec<AuditEntry> = Vec::new();
        if from_index as usize >= len {
            proof {
                assert(page@ =~= audit_page_spec(self@.audit, from_index, limit));
            }
            return page;
        }
        let start = from_index as usize;
        let end = if len - start > lim as usize {
            start + lim as usize
        } else {
            len
        };
        for i in start..end
            invariant
                start <= end <= len,
                len == self@.audit.len(),
                page@ == self@.audit.subrange(start as int, i as int),
        {
            page.push(self.audit[i]);
            assert(page@ =~= self@.audit.subrange(start as int, i + 1));
        }
        page
    }
}

/// The audit entries `get_audit_log(from_index, limit)` returns.
pub open spec fn audit_page_spec(log: Seq<AuditEntry>, from_index: u32, limit: u32) -> Seq<AuditEntry> {
    let lim = if limit > MAX_AUDIT_ENTRIES {
        MAX_AUDIT_ENTRIES
    } else {
        limit
    };
    if from_index >= log.len() {
        Seq::empty()
    } else if log.len() - from_index > lim {
        log.subrange(from_index as int, from_index + lim)
    } else {
        log.subrange(from_index as int, log.len() as int)
    }
}

proof fn lemma_nonce_of_update(s: Seq<(AccountId, u64)>, i: int, caller: AccountId, n: u64, a: AccountId)
    requires
        0 <= i < s.len(),
        s[i].0 == caller,
        forall|x: int, y: int| 0 <= x < y < s.len() ==> #[trigger] s[x].0 != #[trigger] s[y].0,
    ensures
        nonce_of(s.update(i, (caller, n)), a) == if a == caller {
            n
        } else {
            nonce_of(s, a)
        },
{
    let t = s.update(i, (caller, n));
    if a == caller {
        assert(t[i].0 == a);
        let k = choose|k: int| 0 <= k < t.len() && #[trigger] t[k].0 == a;
        if k != i {
            if k < i {
                assert(s[k].0 != s[i].0);
            } else {
                assert(s[i].0 != s[k].0);
            }
        }
    } else {
        if exists|k: int| 0 <= k < s.len() && #[trigger] s[k].0 == a {
            let k = choose|k: int| 0 <= k < s.len() && #[trigger] s[k].0 == a;
            assert(t[k].0 == a);
            let k2 = choose|k2: int| 0 <= k2 < t.len() && #[trigger] t[k2].0 == a;
            if k2 != k {
                assert(t[k2] == s[k2]);
                if k < k2 {
                    assert(s[k].0 != s[k2].0);
                } else {
                    assert(s[k2].0 != s[k].0);
                }
            }
        } else {
            assert forall|k: int| 0 <= k < t.len() implies #[trigger] t[k].0 != a by {
                if k != i {
                    assert(t[k] == s[k]);
                }
            }
        }
    }
}

proof fn lemma_nonce_of_push(s: Seq<(AccountId, u64)>, caller: AccountId, n: u64, a: AccountId)
    requires
        forall|i: int| 0 <= i < s.len() ==> #[trigger] s[i].0 != caller,
        forall|x: int, y: int| 0 <= x < y < s.len() ==> #[trigger] s[x].0 != #[trigger] s[y].0,
    ensures
        nonce_of(s.push((caller, n)), a) == if a == caller {
            n
        } else {
            nonce_of(s, a)
        },
{
    let t = s.push((caller, n));
    if a == caller {
        assert(t[s.len() as int].0 == a);
        let k = choose|k: int| 0 <= k < t.len() && #[trigger] t[k].0 == a;
        if k < s.len() {
            assert(t[k] == s[k]);
        }
    } else {
        if exists|k: int| 0 <= k < s.len() && #[trigger] s[k].0 == a {
            let k = choose|k: int| 0 <= k < s.len() && #[trigger] s[k].0 == a;
            assert(t[k].0 == a);
            let k2 = choose|k2: int| 0 <= k2 < t.len() && #[trigger] t[k2].0 == a;
            assert(k2 < s.len());
            assert(t[k2] == s[k2]);
            if k2 != k {
                if k < k2 {
                    assert(s[k].0 != s[k2].0);
                } else {
                    assert(s[k2].0 != s[k].0);
                }
            }
        } else {
            assert forall|k: int| 0 <= k < t.len() implies #[trigger] t[k].0 != a by {
                if k < s.len() {
                    assert(t[k] == s[k]);
                }
            }
        }
    }
}

/// Every execution is counted once, as a success or as a failure:
/// `total_executions == successful_executions + failed_executions` holds
/// initially and after every flow.
pub proof fn lemma_stats_accounting(s: ExecutionStats, succeeded: bool, now: u64)
    requires
        s.total_executions == s.successful_executions + s.failed_executions,
        s.total_executions < u64::MAX,
    ensures
        record_spec(s, succeeded, now).total_executions == record_spec(
            s,
            succeeded,
            now,
        ).successful_executions + record_spec(s, succeeded, now).failed_executions,
        record_spec(s, succeeded, now).total_executions == s.total_executions + 1,
{
}

/// The deadline window is exactly `(now, now + MAX_DEADLINE_WINDOW_SECS]`:
/// `now` itself is rejected, `now + 1` and the upper edge are accepted, and
/// one second past the edge is rejected.
pub proof fn lemma_deadline_window_edges(now: u64)
    requires
        now <= u64::MAX - MAX_DEADLINE_WINDOW_SECS - 1,
    ensures
        !deadline_ok(now, now),
        deadline_ok((now + 1) as u64, now),
        deadline_ok((now + MAX_DEADLINE_WINDOW_SECS) as u64, now),
        !deadline_ok((now + MAX_DEADLINE_WINDOW_SECS + 1) as u64, now),
{
}

/// The audit log never holds more than `MAX_AUDIT_ENTRIES` entries, keeps
/// the newest entry last, and when it overflows drops exactly its oldest.
pub proof fn lemma_audit_append(log: Seq<AuditEntry>, e: AuditEntry)
    requires
        log.len() <= MAX_AUDIT_ENTRIES,
    ensures
        audit_append(log, e).len() <= MAX_AUDIT_ENTRIES,
        audit_append(log, e).last() == e,
        log.len() < MAX_AUDIT_ENTRIES ==> audit_append(log, e) == log.push(e),
        log.len() == MAX_AUDIT_ENTRIES ==> audit_append(log, e) == log.subrange(1, log.len() as int).push(
            e,
        ),
{
    if log.len() == MAX_AUDIT_ENTRIES {
        assert(log.push(e).drop_first() =~= log.subrange(1, log.len() as int).push(e));
    }
}

/// A request hash is taken over bytes that determine the request: requests
/// that differ in nonce, amount or deadline have different preimages, so one
/// request's hash can stand for another only through a digest collision.
pub proof fn lemma_request_preimage_injective(
    n1: u64,
    a1: i128,
    d1: u64,
    n2: u64,
    a2: i128,
    d2: u64,
)
    requires
        n1 != n2 || a1 != a2 || d1 != d2,
    ensures
        request_preimage_spec(n1, a1, d1) != request_preimage_spec(n2, a2, d2),
{
    vstd::bytes::lemma_auto_spec_u64_to_from_le_bytes();
    vstd::bytes::lemma_auto_spec_u128_to_from_le_bytes();
    let p = request_preimage_spec(n1, a1, d1);
    let q = request_preimage_spec(n2, a2, d2);
    if p == q {
        assert(p.subrange(4, 12) =~= spec_u64_to_le_bytes(n1));
        assert(q.subrange(4, 12) =~= spec_u64_to_le_bytes(n2));
        assert(p.subrange(12, 28) =~= spec_u128_to_le_bytes(a1 as u128));
        assert(q.subrange(12, 28) =~= spec_u128_to_le_bytes(a2 as u128));
        assert(p.subrange(28, 36) =~= spec_u64_to_le_bytes(d1));
        assert(q.subrange(28, 36) =~= spec_u64_to_le_bytes(d2));
        assert(vstd::bytes::spec_u64_from_le_bytes(spec_u64_to_le_bytes(n1)) == n1);
        assert(vstd::bytes::spec_u64_from_le_bytes(spec_u64_to_le_bytes(d1)) == d1);
        assert(vstd::bytes::spec_u128_from_le_bytes(spec_u128_to_le_bytes(a1 as u128)) == a1 as u128);
        assert(a1 as u128 == a2 as u128 ==> a1 == a2) by (bit_vector);
    }
}

} // verus!
