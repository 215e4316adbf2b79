use std::collections::{HashMap, HashSet};

use vstd::prelude::*;

use crate::lemmas::{lemma_bucket_sum_nonneg, lemma_prefix_bucket_bounded, lemma_prefix_issued_bounded};
use crate::model::{
    batch_ids, batch_packages, bucket_sum, issued_sum, prefix_sum, Bucket, EscrowView,
};
use crate::types::{Address, Aggregates, Config, Error, Package, PackageStatus, Payout};

verus! {

broadcast use vstd::std_specs::hash::group_hash_axioms;

/// The escrow ledger: configuration, roles, pause switch, locked balances and
/// every package ever created.
///
/// The ledger never moves value itself. Operations that need the pool's balance
/// take it as an argument; operations that pay out return the `Payout` to
/// perform, after the new status has been recorded. The `caller` of an
/// operation is the party that the invocation has been attested for.
pub struct AidEscrow {
    admin: Option<Address>,
    config: Config,
    paused: bool,
    locked: HashMap<u64, i128>,
    distributors: HashSet<u64>,
    counter: u64,
    packages: Vec<Package>,
}

impl View for AidEscrow {
    type V = EscrowView;

    closed spec fn view(&self) -> EscrowView {
        EscrowView {
            admin: self.admin,
            config: self.config@,
            paused: self.paused,
            locked: self.locked@,
            distributors: self.distributors@,
            counter: self.counter,
            packages: self.packages@,
        }
    }
}

impl AidEscrow {
    /// A ledger that is not initialised yet.
    pub fn new() -> (r: AidEscrow)
        ensures
            r@ == EscrowView::empty(),
            r@.wf(),
    {
        let r = AidEscrow {
            admin: None,
            config: Config { min_amount: 1, max_expires_in: 0, allowed_tokens: Vec::new() },
            paused: false,
            locked: HashMap::new(),
            distributors: HashSet::new(),
            counter: 0,
            packages: Vec::new(),
        };
        assert(r@.config.allowed_tokens =~= Seq::<Address>::empty());
        assert(r@ =~= EscrowView::empty());
        r
    }

    /// Position of the package `id`, if there is one.
    fn find(&self, id: u64) -> (r: Option<usize>)
        requires
            self@.wf(),
        ensures
            match r {
                Some(i) => i < self@.packages.len() && self@.packages[i as int].id == id
                    && self@.has_package(id) && self@.index_of(id) == i,
                None => !self@.has_package(id),
            },
    {
        let mut i: usize = 0;
        while i < self.packages.len()
            invariant
                self@.wf(),
                i <= self@.packages.len(),
                forall|k: int| 0 <= k < i ==> #[trigger] self@.packages[k].id != id,
            decreases self@.packages.len() - i,
        {
            if self.packages[i].id == id {
                proof {
                    self@.lemma_index_of(id, i as int);
                }
                return Some(i);
            }
            i += 1;
        }
        None
    }

    fn locked_of(&self, token: Address) -> (r: i128)
        ensures
            r == self@.locked_of(token),
    {
        match self.locked.get(&token.0) {
            Some(v) => *v,
            None => 0,
        }
    }

    /// `NotInitialized` without an administrator, `NotAuthorized` unless `caller` is it.
    fn check_admin(&self, caller: Address) -> (r: Result<(), Error>)
        ensures
            match self@.admin_error(caller) {
                Some(e) => r == Err::<(), Error>(e),
                None => r is Ok,
            },
    {
        match self.admin {
            None => Err(Error::NotInitialized),
            Some(a) => if a == caller {
                Ok(())
            } else {
                Err(Error::NotAuthorized)
            },
        }
    }

    /// Whether `operator` is the administrator or a registered distributor.
    fn require_admin_or_distributor(&self, operator: Address) -> (r: Result<(), Error>)
        ensures
            match self@.operator_error(operator) {
                Some(e) => r == Err::<(), Error>(e),
                None => r is Ok,
            },
    {
        match self.admin {
            None => Err(Error::NotInitialized),
            Some(a) => if a == operator || self.distributors.contains(&operator.0) {
                Ok(())
            } else {
                Err(Error::NotAuthorized)
            },
        }
    }

    // --- Admin & Config ---

    /// Stores `admin` as the administrator and the default configuration, once.
    pub fn init(&mut self, admin: Address) -> (r: Result<(), Error>)
        requires
            old(self)@.wf(),
        ensures
            final(self)@.wf(),
            (final(self)@, r) == old(self)@.init_step(admin),
    {
        if self.admin.is_some() {
            return Err(Error::AlreadyInitialized);
        }
        self.admin = Some(admin);
        self.config = Config { min_amount: 1, max_expires_in: 0, allowed_tokens: Vec::new() };
        assert(self@.config.allowed_tokens =~= Seq::<Address>::empty());
        proof {
            old(self)@.lemma_wf_frame(self@);
        }
        Ok(())
    }

    /// The administrator, once initialised.
    pub fn get_admin(&self) -> (r: Result<Address, Error>)
        ensures
            match self@.admin {
                Some(a) => r == Ok::<Address, Error>(a),
                None => r == Err::<Address, Error>(Error::NotInitialized),
            },
    {
        match self.admin {
            Some(a) => Ok(a),
            None => Err(Error::NotInitialized),
        }
    }

    /// The administrator registers `addr` as a distributor; registering twice changes nothing.
    pub fn add_distributor(&mut self, caller: Address, addr: Address) -> (r: Result<(), Error>)
        requires
            old(self)@.wf(),
        ensures
            final(self)@.wf(),
            (final(self)@, r) == old(self)@.add_distributor_step(caller, addr),
    {
        self.check_admin(caller)?;
        self.distributors.insert(addr.0);
        proof {
            old(self)@.lemma_wf_frame(self@);
        }
        Ok(())
    }

    /// The administrator removes `addr` from the distributors; removing twice changes nothing.
    pub fn remove_distributor(&mut self, caller: Address, addr: Address) -> (r: Result<(), Error>)
        requires
            old(self)@.wf(),
        ensures
            final(self)@.wf(),
            (final(self)@, r) == old(self)@.remove_distributor_step(caller, addr),
    {
        self.check_admin(caller)?;
        self.distributors.remove(&addr.0);
        assert(self@.distributors =~= old(self)@.distributors.remove(addr.0));
        proof {
            old(self)@.lemma_wf_frame(self@);
        }
        Ok(())
    }

    /// The administrator replaces the configuration; a minimum amount that is not
    /// positive is refused with `InvalidAmount`.
    pub fn set_config(&mut self, caller: Address, config: Config) -> (r: Result<(), Error>)
        requires
            old(self)@.wf(),
        ensures
            final(self)@.wf(),
            (final(self)@, r) == old(self)@.set_config_step(caller, config@),
    {
        self.check_admin(caller)?;
        if config.min_amount <= 0 {
            return Err(Error::InvalidAmount);
        }
        self.config = config;
        proof {
            old(self)@.lemma_wf_frame(self@);
        }
        Ok(())
    }

    /// The administrator halts creations and claims.
    pub fn pause(&mut self, caller: Address) -> (r: Result<(), Error>)
        requires
            old(self)@.wf(),
        ensures
            final(self)@.wf(),
            (final(self)@, r) == old(self)@.set_paused_step(caller, true),
    {
        self.check_admin(caller)?;
        self.paused = true;
        proof {
            old(self)@.lemma_wf_frame(self@);
        }
        Ok(())
    }

    /// The administrator lifts the pause.
    pub fn unpause(&mut self, caller: Address) -> (r: Result<(), Error>)
        requires
            old(self)@.wf(),
        ensures
            final(self)@.wf(),
            (final(self)@, r) == old(self)@.set_paused_step(caller, false),
    {
        self.check_admin(caller)?;
        self.paused = false;
        proof {
            old(self)@.lemma_wf_frame(self@);
        }
        Ok(())
    }

    /// Whether creations and claims are halted.
    pub fn is_paused(&self) -> (r: bool)
        ensures
            r == self@.paused,
    {
        self.paused
    }

    /// A copy of the configuration.
    pub fn get_config(&self) -> (r: Config)
        ensures
            r@ == self@.config,
    {
        self.config.copy_config()
    }

    /// Whether `addr` is a registered distributor.
    pub fn is_distributor(&self, addr: Address) -> (r: bool)
        ensures
            r == self@.distributors.contains(addr.0),
    {
        self.distributors.contains(&addr.0)
    }

    /// The identifier that the next batch entry receives.
    pub fn package_counter(&self) -> (r: u64)
        ensures
            r == self@.counter,
    {
        self.counter
    }

    /// Amount currently locked for open packages of `token`.
    pub fn get_locked(&self, token: Address) -> (r: i128)
        ensures
            r == self@.locked_of(token),
    {
        self.locked_of(token)
    }

    /// Checks a deposit of `amount` of `token` from `from` into the pool; the
    /// transfer itself is the caller's.
    pub fn fund(&self, token: Address, from: Address, amount: i128) -> (r: Result<(), Error>)
        ensures
            r == if amount <= 0 {
                Err::<(), Error>(Error::InvalidAmount)
            } else {
                Ok(())
            },
    {
        if amount <= 0 {
            return Err(Error::InvalidAmount);
        }
        Ok(())
    }

    // --- Packages ---

    /// Creates package `id`, locking `amount` of `token` out of the pool, whose
    /// balance is `balance` at time `now`.
    pub fn create_package(
        &mut self,
        operator: Address,
        id: u64,
        recipient: Address,
        amount: i128,
        token: Address,
        expires_at: u64,
        now: u64,
        balance: i128,
    ) -> (r: Result<u64, Error>)
        requires
            old(self)@.wf(),
        ensures
            final(self)@.wf(),
            (final(self)@, r) == old(self)@.create_step(
                operator,
                id,
                recipient,
                amount,
                token,
                expires_at,
                now,
                balance,
            ),
    {
        if self.paused {
            return Err(Error::ContractPaused);
        }
        self.require_admin_or_distributor(operator)?;
        if amount <= 0 {
            return Err(Error::InvalidAmount);
        }
        if amount < self.config.min_amount {
            return Err(Error::InvalidAmount);
        }
        if self.config.allowed_tokens.len() > 0 && !contains_token(&self.config.allowed_tokens, token) {
            return Err(Error::InvalidState);
        }
        let max = self.config.max_expires_in;
        if max > 0 {
            if expires_at == 0 || expires_at <= now || expires_at - now > max {
                return Err(Error::InvalidState);
            }
        }
        if self.find(id).is_some() {
            return Err(Error::PackageIdExists);
        }
        let current = self.locked_of(token);
        let total = match current.checked_add(amount) {
            Some(t) => t,
            None => return Err(Error::InsufficientFunds),
        };
        if balance < total {
            return Err(Error::InsufficientFunds);
        }
        let package = Package {
            id,
            recipient,
            amount,
            token,
            status: PackageStatus::Created,
            created_at: now,
            expires_at,
        };
        proof {
            old(self)@.lemma_create_wf(package);
        }
        self.locked.insert(token.0, total);
        self.packages.push(package);
        assert(self@.locked =~= old(self)@.locked.insert(token.0, total));
        Ok(id)
    }

    /// Creates one package per entry, with identifiers from the batch counter, all
    /// expiring at `now + expires_in`; on any failure nothing is created.
    pub fn batch_create_packages(
        &mut self,
        operator: Address,
        recipients: Vec<Address>,
        amounts: Vec<i128>,
        token: Address,
        expires_in: u64,
        now: u64,
        balance: i128,
    ) -> (r: Result<Vec<u64>, Error>)
        requires
            old(self)@.wf(),
        ensures
            final(self)@.wf(),
            final(self)@ == old(self)@.batch_step(
                operator,
                recipients@,
                amounts@,
                token,
                expires_in,
                now,
                balance,
            ).0,
            match r {
                Ok(ids) => old(self)@.batch_step(
                    operator,
                    recipients@,
                    amounts@,
                    token,
                    expires_in,
                    now,
                    balance,
                ).1 == Ok::<Seq<u64>, Error>(ids@),
                Err(e) => old(self)@.batch_step(
                    operator,
                    recipients@,
                    amounts@,
                    token,
                    expires_in,
                    now,
                    balance,
                ).1 == Err::<Seq<u64>, Error>(e),
            },
    {
        if self.paused {
            return Err(Error::ContractPaused);
        }
        self.require_admin_or_distributor(operator)?;
        if recipients.len() != amounts.len() {
            return Err(Error::MismatchedArrays);
        }
        let n = amounts.len();
        if now > u64::MAX - expires_in || self.counter > u64::MAX - n as u64 {
            return Err(Error::InvalidState);
        }
        let expires_at = now + expires_in;
        let ghost s0 = self@;
        proof {
            s0.lemma_batch_step_entries(
                operator,
                recipients@,
                amounts@,
                token,
                expires_in,
                now,
                balance,
            );
        }
        let mut running = self.locked_of(token);
        proof {
            lemma_bucket_sum_nonneg(s0.packages, token, Bucket::Committed);
        }
        let mut fresh: Vec<Package> = Vec::new();
        let mut ids: Vec<u64> = Vec::new();
        let mut i: usize = 0;
        while i < n
            invariant
                self@ == s0,
                s0 == old(self)@,
                s0.wf(),
                n == amounts@.len(),
                n == recipients@.len(),
                i <= n,
                self.counter + n <= u64::MAX,
                expires_at == now + expires_in,
                s0.batch_error(amounts@, token, balance, i as int) is None,
                s0.batch_error(amounts@, token, balance, n as int) is Some ==> s0.batch_step(
                    operator,
                    recipients@,
                    amounts@,
                    token,
                    expires_in,
                    now,
                    balance,
                ) == (s0, Err::<Seq<u64>, Error>(
                    s0.batch_error(amounts@, token, balance, n as int)->Some_0,
                )),
                running == s0.locked_of(token) + prefix_sum(amounts@, i as int),
                running >= 0,
                fresh@ == batch_packages(
                    self.counter,
                    recipients@,
                    amounts@,
                    token,
                    now,
                    expires_at,
                    i as nat,
                ),
                ids@ == batch_ids(self.counter, i as nat),
            decreases n - i,
        {
            let amount = amounts[i];
            let id = self.counter + i as u64;
            if amount <= 0 {
                proof {
                    s0.lemma_batch_error_sticky(amounts@, token, balance, i as int, n as int);
                }
                return Err(Error::InvalidAmount);
            }
            let total = match running.checked_add(amount) {
                Some(t) => t,
                None => {
                    proof {
                        s0.lemma_batch_error_sticky(amounts@, token, balance, i as int, n as int);
                    }
                    return Err(Error::InsufficientFunds);
                },
            };
            if balance < total {
                proof {
                    s0.lemma_batch_error_sticky(amounts@, token, balance, i as int, n as int);
                }
                return Err(Error::InsufficientFunds);
            }
            if self.find(id).is_some() {
                proof {
                    s0.lemma_batch_error_sticky(amounts@, token, balance, i as int, n as int);
                }
                return Err(Error::PackageIdExists);
            }
            fresh.push(
                Package {
                    id,
                    recipient: recipients[i],
                    amount,
                    token,
                    status: PackageStatus::Created,
                    created_at: now,
                    expires_at,
                },
            );
            ids.push(id);
            running = total;
            i += 1;
            assert(ids@ =~= batch_ids(self.counter, i as nat));
        }
        proof {
            s0.lemma_batch_wf(recipients@, amounts@, token, now, expires_at, balance);
        }
        self.locked.insert(token.0, running);
        self.counter = self.counter + n as u64;
        self.packages.append(&mut fresh);
        assert(self@.locked =~= s0.locked.insert(token.0, running));
        Ok(ids)
    }

    /// Sets the status of the open package at `i` and unlocks its amount, the
    /// locked total floored at zero.
    fn release(&mut self, i: usize, status: PackageStatus)
        requires
            old(self)@.wf(),
            i < old(self)@.packages.len(),
            old(self)@.packages[i as int].status == PackageStatus::Created,
            status != PackageStatus::Created,
        ensures
            final(self)@ == old(self)@.release(i as int, status),
            final(self)@.wf(),
    {
        proof {
            old(self)@.lemma_release_wf(i as int, status);
        }
        let p = self.packages[i];
        self.packages[i] = Package { status, ..p };
        let current = self.locked_of(p.token);
        let new_locked = if current > p.amount {
            current - p.amount
        } else {
            0
        };
        self.locked.insert(p.token.0, new_locked);
        assert(self@.packages =~= old(self)@.release(i as int, status).packages);
        assert(self@.locked =~= old(self)@.release(i as int, status).locked);
    }

    /// The recipient claims package `id` at time `now`. A package past its expiry
    /// is marked `Expired` and unlocked, and the claim fails with `PackageExpired`.
    pub fn claim(&mut self, caller: Address, id: u64, now: u64) -> (r: Result<Payout, Error>)
        requires
            old(self)@.wf(),
        ensures
            final(self)@.wf(),
            (final(self)@, r) == old(self)@.claim_step(caller, id, now),
    {
        if self.paused {
            return Err(Error::ContractPaused);
        }
        let i = match self.find(id) {
            Some(i) => i,
            None => return Err(Error::PackageNotFound),
        };
        let p = self.packages[i];
        if p.status != PackageStatus::Created {
            return Err(Error::PackageNotActive);
        }
        if p.expires_at > 0 && now > p.expires_at {
            self.release(i, PackageStatus::Expired);
            return Err(Error::PackageExpired);
        }
        if caller != p.recipient {
            return Err(Error::NotAuthorized);
        }
        self.release(i, PackageStatus::Claimed);
        Ok(Payout { token: p.token, to: p.recipient, amount: p.amount })
    }

    /// The administrator pays package `id` out to its recipient.
    pub fn disburse(&mut self, caller: Address, id: u64) -> (r: Result<Payout, Error>)
        requires
            old(self)@.wf(),
        ensures
            final(self)@.wf(),
            (final(self)@, r) == old(self)@.disburse_step(caller, id),
    {
        self.check_admin(caller)?;
        let i = match self.find(id) {
            Some(i) => i,
            None => return Err(Error::PackageNotFound),
        };
        let p = self.packages[i];
        if p.status != PackageStatus::Created {
            return Err(Error::PackageNotActive);
        }
        self.release(i, PackageStatus::Claimed);
        Ok(Payout { token: p.token, to: p.recipient, amount: p.amount })
    }

    /// Cancels an open package and returns its amount to the pool.
    fn cancel_open(
        &mut self,
        caller: Address,
        id: u64,
        now: u64,
        allow_expired: bool,
        inactive: Error,
    ) -> (r: Result<(), Error>)
        requires
            old(self)@.wf(),
        ensures
            final(self)@.wf(),
            (final(self)@, r) == old(self)@.cancel_step(caller, id, now, allow_expired, inactive),
    {
        self.check_admin(caller)?;
        let i = match self.find(id) {
            Some(i) => i,
            None => return Err(Error::PackageNotFound),
        };
        let p = self.packages[i];
        if p.status != PackageStatus::Created {
            return Err(inactive);
        }
        if !allow_expired && p.expires_at > 0 && now > p.expires_at {
            return Err(Error::PackageExpired);
        }
        self.release(i, PackageStatus::Cancelled);
        Ok(())
    }

    /// The administrator cancels package `id`, whether or not it is past its expiry.
    pub fn revoke(&mut self, caller: Address, id: u64) -> (r: Result<(), Error>)
        requires
            old(self)@.wf(),
        ensures
            final(self)@.wf(),
            (final(self)@, r) == old(self)@.cancel_step(caller, id, 0, true, Error::InvalidState),
    {
        self.cancel_open(caller, id, 0, true, Error::InvalidState)
    }

    /// The administrator cancels package `package_id`, unless it is past its expiry.
    pub fn cancel_package(&mut self, caller: Address, package_id: u64, now: u64) -> (r: Result<
        (),
        Error,
    >)
        requires
            old(self)@.wf(),
        ensures
            final(self)@.wf(),
            (final(self)@, r) == old(self)@.cancel_step(
                caller,
                package_id,
                now,
                false,
                Error::PackageNotActive,
            ),
    {
        self.cancel_open(caller, package_id, now, false, Error::PackageNotActive)
    }

    /// The administrator takes back the amount of an expired or cancelled package.
    /// An open package past its expiry is first marked `Expired` and unlocked.
    pub fn refund(&mut self, caller: Address, id: u64, now: u64) -> (r: Result<Payout, Error>)
        requires
            old(self)@.wf(),
        ensures
            final(self)@.wf(),
            (final(self)@, r) == old(self)@.refund_step(caller, id, now),
    {
        self.check_admin(caller)?;
        let i = match self.find(id) {
            Some(i) => i,
            None => return Err(Error::PackageNotFound),
        };
        let p = self.packages[i];
        if p.status == PackageStatus::Created {
            if p.expires_at > 0 && now > p.expires_at {
                self.release(i, PackageStatus::Expired);
            } else {
                return Err(Error::InvalidState);
            }
        } else if p.status == PackageStatus::Claimed || p.status == PackageStatus::Refunded {
            return Err(Error::InvalidState);
        }
        proof {
            self@.lemma_set_status_wf(i as int, PackageStatus::Refunded);
        }
        self.packages[i] = Package { status: PackageStatus::Refunded, ..p };
        assert(self@.packages =~= old(self)@.refund_step(caller, id, now).0.packages);
        Ok(Payout { token: p.token, to: caller, amount: p.amount })
    }

    /// The administrator pushes back the expiry of an open, bounded package.
    pub fn extend_expiration(
        &mut self,
        caller: Address,
        package_id: u64,
        additional_time: u64,
        now: u64,
    ) -> (r: Result<(), Error>)
        requires
            old(self)@.wf(),
        ensures
            final(self)@.wf(),
            (final(self)@, r) == old(self)@.extend_step(caller, package_id, additional_time, now),
    {
        self.check_admin(caller)?;
        let i = match self.find(package_id) {
            Some(i) => i,
            None => return Err(Error::PackageNotFound),
        };
        let p = self.packages[i];
        if p.status != PackageStatus::Created {
            return Err(Error::PackageNotActive);
        }
        if additional_time == 0 {
            return Err(Error::InvalidAmount);
        }
        if p.expires_at == 0 {
            return Err(Error::InvalidState);
        }
        if now > p.expires_at {
            return Err(Error::PackageExpired);
        }
        let new_expires_at = match p.expires_at.checked_add(additional_time) {
            Some(t) => t,
            None => return Err(Error::InvalidState),
        };
        let max = self.config.max_expires_in;
        if max > 0 {
            if new_expires_at <= now || new_expires_at - now > max {
                return Err(Error::InvalidState);
            }
        }
        let q = Package { expires_at: new_expires_at, ..p };
        proof {
            old(self)@.lemma_same_share_wf(i as int, q);
        }
        self.packages[i] = q;
        assert(self@.packages =~= old(self)@.extend_step(caller, package_id, additional_time, now).0.packages);
        Ok(())
    }

    /// Package `id` as stored.
    pub fn get_package(&self, id: u64) -> (r: Result<Package, Error>)
        requires
            self@.wf(),
        ensures
            r == self@.get_package_result(id),
    {
        match self.find(id) {
            Some(i) => Ok(self.packages[i]),
            None => Err(Error::PackageNotFound),
        }
    }

    /// Status of package `id` as stored; expiry is not applied here.
    pub fn view_package_status(&self, id: u64) -> (r: Result<PackageStatus, Error>)
        requires
            self@.wf(),
        ensures
            r == match self@.get_package_result(id) {
                Ok(p) => Ok::<PackageStatus, Error>(p.status),
                Err(e) => Err::<PackageStatus, Error>(e),
            },
    {
        match self.find(id) {
            Some(i) => Ok(self.packages[i].status),
            None => Err(Error::PackageNotFound),
        }
    }

    /// Total amount of all packages of `token`, whatever their status, if it fits
    /// in an `i128`.
    pub fn total_issued(&self, token: Address) -> (r: Option<i128>)
        requires
            self@.wf(),
        ensures
            r == if issued_sum(self@.packages, token) <= i128::MAX {
                Some(issued_sum(self@.packages, token) as i128)
            } else {
                None::<i128>
            },
    {
        let ghost ps = self@.packages;
        let mut total: i128 = 0;
        let mut i: usize = 0;
        while i < self.packages.len()
            invariant
                self@.wf(),
                ps == self@.packages,
                i <= ps.len(),
                total == issued_sum(ps.take(i as int), token),
            decreases ps.len() - i,
        {
            let p = self.packages[i];
            proof {
                assert(ps.take(i + 1).drop_last() =~= ps.take(i as int));
                lemma_prefix_issued_bounded(ps, i + 1, token);
            }
            if p.token == token {
                total = match total.checked_add(p.amount) {
                    Some(t) => t,
                    None => return None,
                };
            }
            i += 1;
        }
        assert(ps.take(i as int) =~= ps);
        Some(total)
    }

    /// Sums the amounts of the packages of `token` by status: still `Created`,
    /// `Claimed`, and `Expired`, `Cancelled` or `Refunded`.
    pub fn get_aggregates(&self, token: Address) -> (r: Aggregates)
        requires
            self@.wf(),
            issued_sum(self@.packages, token) <= i128::MAX,
        ensures
            r.total_committed == bucket_sum(self@.packages, token, Bucket::Committed),
            r.total_claimed == bucket_sum(self@.packages, token, Bucket::Claimed),
            r.total_expired_cancelled == bucket_sum(self@.packages, token, Bucket::Closed),
            r.total_committed == self@.locked_of(token),
    {
        let ghost ps = self@.packages;
        let mut total_committed: i128 = 0;
        let mut total_claimed: i128 = 0;
        let mut total_expired_cancelled: i128 = 0;
        let mut i: usize = 0;
        while i < self.packages.len()
            invariant
                self@.wf(),
                ps == self@.packages,
                i <= ps.len(),
                issued_sum(ps, token) <= i128::MAX,
                total_committed == bucket_sum(ps.take(i as int), token, Bucket::Committed),
                total_claimed == bucket_sum(ps.take(i as int), token, Bucket::Claimed),
                total_expired_cancelled == bucket_sum(ps.take(i as int), token, Bucket::Closed),
            decreases ps.len() - i,
        {
            let p = self.packages[i];
            proof {
                assert(ps.take(i + 1).drop_last() =~= ps.take(i as int));
                lemma_prefix_bucket_bounded(ps, i + 1, token, Bucket::Committed);
                lemma_prefix_bucket_bounded(ps, i + 1, token, Bucket::Claimed);
                lemma_prefix_bucket_bounded(ps, i + 1, token, Bucket::Closed);
            }
            if p.token == token {
                match p.status {
                    PackageStatus::Created => {
                        total_committed = total_committed + p.amount;
                    },
                    PackageStatus::Claimed => {
                        total_claimed = total_claimed + p.amount;
                    },
                    PackageStatus::Expired | PackageStatus::Cancelled | PackageStatus::Refunded => {
                        total_expired_cancelled = total_expired_cancelled + p.amount;
                    },
                }
            }
            i += 1;
        }
        assert(ps.take(i as int) =~= ps);
        Aggregates { total_committed, total_claimed, total_expired_cancelled }
    }
}

/// Whether `token` is in `tokens`.
fn contains_token(tokens: &Vec<Address>, token: Address) -> (r: bool)
    ensures
        r == tokens@.contains(token),
{
    let mut i: usize = 0;
    while i < tokens.len()
        invariant
            i <= tokens@.len(),
            forall|k: int| 0 <= k < i ==> #[trigger] tokens@[k] != token,
        decreases tokens@.len() - i,
    {
        if tokens[i] == token {
            return true;
        }
        i += 1;
    }
    false
}

} // verus!
