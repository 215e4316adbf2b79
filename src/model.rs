use vstd::prelude::*;

use crate::types::{Address, ConfigView, Error, Package, PackageStatus, Payout};

verus! {

/// The mathematical state of the ledger.
pub struct EscrowView {
    pub admin: Option<Address>,
    pub config: ConfigView,
    pub paused: bool,
    /// Asset identifier to the amount locked for open packages of that asset.
    pub locked: Map<u64, i128>,
    /// Identifiers of the registered distributors.
    pub distributors: Set<u64>,
    /// Next identifier that a batch hands out.
    pub counter: u64,
    /// Every package ever created, in order of creation; position `i` is ordinal `i`
    /// of the aggregation index.
    pub packages: Seq<Package>,
}

/// The aggregate that a status counts towards.
pub enum Bucket {
    Committed,
    Claimed,
    Closed,
}

pub open spec fn bucket_of(status: PackageStatus) -> Bucket {
    match status {
        PackageStatus::Created => Bucket::Committed,
        PackageStatus::Claimed => Bucket::Claimed,
        _ => Bucket::Closed,
    }
}

/// What one package adds to the sum of `bucket` for `token`.
pub open spec fn share(p: Package, token: Address, bucket: Bucket) -> int {
    if p.token == token && bucket_of(p.status) == bucket {
        p.amount as int
    } else {
        0
    }
}

/// Sum of the amounts of the packages of `token` whose status falls in `bucket`.
pub open spec fn bucket_sum(ps: Seq<Package>, token: Address, bucket: Bucket) -> int
    decreases ps.len(),
{
    if ps.len() == 0 {
        0
    } else {
        bucket_sum(ps.drop_last(), token, bucket) + share(ps.last(), token, bucket)
    }
}

/// Sum of the amounts of all packages of `token`, whatever their status: the
/// total ever locked for that asset, since every package is locked when created.
pub open spec fn issued_sum(ps: Seq<Package>, token: Address) -> int
    decreases ps.len(),
{
    if ps.len() == 0 {
        0
    } else {
        issued_sum(ps.drop_last(), token) + if ps.last().token == token {
            ps.last().amount as int
        } else {
            0
        }
    }
}

/// Sum of the first `n` amounts.
pub open spec fn prefix_sum(amounts: Seq<i128>, n: int) -> int
    decreases n,
{
    if n <= 0 {
        0
    } else {
        prefix_sum(amounts, n - 1) + amounts[n - 1] as int
    }
}

/// `cur - amount`, floored at zero.
pub open spec fn clamp_sub(cur: int, amount: int) -> i128 {
    if cur > amount {
        (cur - amount) as i128
    } else {
        0
    }
}

/// The packages that a batch appends: entry `j` gets identifier `counter + j`.
pub open spec fn batch_packages(
    counter: u64,
    recipients: Seq<Address>,
    amounts: Seq<i128>,
    token: Address,
    now: u64,
    expires_at: u64,
    n: nat,
) -> Seq<Package>
    decreases n,
{
    if n == 0 {
        Seq::empty()
    } else {
        let j = (n - 1) as nat;
        batch_packages(counter, recipients, amounts, token, now, expires_at, j).push(
            Package {
                id: (counter + j) as u64,
                recipient: recipients[j as int],
                amount: amounts[j as int],
                token,
                status: PackageStatus::Created,
                created_at: now,
                expires_at,
            },
        )
    }
}

/// The identifiers that a batch of `n` entries hands out.
pub open spec fn batch_ids(counter: u64, n: nat) -> Seq<u64> {
    Seq::new(n, |j: int| (counter + j) as u64)
}

impl EscrowView {
    /// The state of a ledger that was never initialised.
    pub open spec fn empty() -> EscrowView {
        EscrowView {
            admin: None,
            config: ConfigView::default_config(),
            paused: false,
            locked: Map::empty(),
            distributors: Set::empty(),
            counter: 0,
            packages: Seq::empty(),
        }
    }

    pub open spec fn locked_of(self, token: Address) -> int {
        if self.locked.contains_key(token.0) {
            self.locked[token.0] as int
        } else {
            0
        }
    }

    pub open spec fn has_package(self, id: u64) -> bool {
        exists|i: int| 0 <= i < self.packages.len() && self.packages[i].id == id
    }

    pub open spec fn index_of(self, id: u64) -> int {
        choose|i: int| 0 <= i < self.packages.len() && self.packages[i].id == id
    }

    pub open spec fn package(self, id: u64) -> Package {
        self.packages[self.index_of(id)]
    }

    pub open spec fn is_operator(self, who: Address) -> bool {
        self.admin == Some(who) || self.distributors.contains(who.0)
    }

    /// Identifiers are unique, amounts positive, the minimum amount positive, and
    /// for every asset the locked amount is the sum over its `Created` packages.
    pub open spec fn wf(self) -> bool {
        &&& forall|i: int, j: int|
            0 <= i < self.packages.len() && 0 <= j < self.packages.len()
                && #[trigger] self.packages[i].id == #[trigger] self.packages[j].id ==> i == j
        &&& forall|i: int| 0 <= i < self.packages.len() ==> #[trigger] self.packages[i].amount > 0
        &&& forall|t: Address| #[trigger]
            self.locked_of(t) == bucket_sum(self.packages, t, Bucket::Committed)
        &&& self.config.min_amount > 0
    }

    // --- checks shared by several operations ---

    pub open spec fn admin_error(self, caller: Address) -> Option<Error> {
        match self.admin {
            None => Some(Error::NotInitialized),
            Some(a) => if a == caller {
                None
            } else {
                Some(Error::NotAuthorized)
            },
        }
    }

    pub open spec fn operator_error(self, operator: Address) -> Option<Error> {
        match self.admin {
            None => Some(Error::NotInitialized),
            Some(a) => if a == operator || self.distributors.contains(operator.0) {
                None
            } else {
                Some(Error::NotAuthorized)
            },
        }
    }

    /// Sets the status of the package at `i`.
    pub open spec fn set_status(self, i: int, status: PackageStatus) -> EscrowView {
        EscrowView {
            packages: self.packages.update(i, self.packages[i].with_status(status)),
            ..self
        }
    }

    /// Sets the status of the package at `i` and unlocks its amount.
    pub open spec fn release(self, i: int, status: PackageStatus) -> EscrowView {
        let p = self.packages[i];
        EscrowView {
            locked: self.locked.insert(
                p.token.0,
                clamp_sub(self.locked_of(p.token), p.amount as int),
            ),
            ..self.set_status(i, status)
        }
    }

    // --- administration ---

    pub open spec fn init_step(self, admin: Address) -> (EscrowView, Result<(), Error>) {
        if self.admin is Some {
            (self, Err(Error::AlreadyInitialized))
        } else {
            (
                EscrowView { admin: Some(admin), config: ConfigView::default_config(), ..self },
                Ok(()),
            )
        }
    }

    pub open spec fn add_distributor_step(self, caller: Address, addr: Address) -> (
        EscrowView,
        Result<(), Error>,
    ) {
        match self.admin_error(caller) {
            Some(e) => (self, Err(e)),
            None => (EscrowView { distributors: self.distributors.insert(addr.0), ..self }, Ok(())),
        }
    }

    pub open spec fn remove_distributor_step(self, caller: Address, addr: Address) -> (
        EscrowView,
        Result<(), Error>,
    ) {
        match self.admin_error(caller) {
            Some(e) => (self, Err(e)),
            None => (EscrowView { distributors: self.distributors.remove(addr.0), ..self }, Ok(())),
        }
    }

    pub open spec fn set_config_step(self, caller: Address, config: ConfigView) -> (
        EscrowView,
        Result<(), Error>,
    ) {
        match self.admin_error(caller) {
            Some(e) => (self, Err(e)),
            None => if config.min_amount <= 0 {
                (self, Err(Error::InvalidAmount))
            } else {
                (EscrowView { config, ..self }, Ok(()))
            },
        }
    }

    pub open spec fn set_paused_step(self, caller: Address, paused: bool) -> (
        EscrowView,
        Result<(), Error>,
    ) {
        match self.admin_error(caller) {
            Some(e) => (self, Err(e)),
            None => (EscrowView { paused, ..self }, Ok(())),
        }
    }

    // --- creation ---

    /// The first check that a single creation fails, if any.
    pub open spec fn create_error(
        self,
        operator: Address,
        id: u64,
        amount: i128,
        token: Address,
        expires_at: u64,
        now: u64,
        balance: i128,
    ) -> Option<Error> {
        let max = self.config.max_expires_in;
        if self.paused {
            Some(Error::ContractPaused)
        } else if self.operator_error(operator) is Some {
            self.operator_error(operator)
        } else if amount <= 0 || amount < self.config.min_amount {
            Some(Error::InvalidAmount)
        } else if !self.config.allows_token(token) {
            Some(Error::InvalidState)
        } else if max > 0 && (expires_at == 0 || expires_at <= now || expires_at - now > max) {
            Some(Error::InvalidState)
        } else if self.has_package(id) {
            Some(Error::PackageIdExists)
        } else if balance < self.locked_of(token) + amount {
            Some(Error::InsufficientFunds)
        } else {
            None
        }
    }

    pub open spec fn create_step(
        self,
        operator: Address,
        id: u64,
        recipient: Address,
        amount: i128,
        token: Address,
        expires_at: u64,
        now: u64,
        balance: i128,
    ) -> (EscrowView, Result<u64, Error>) {
        match self.create_error(operator, id, amount, token, expires_at, now, balance) {
            Some(e) => (self, Err(e)),
            None => (
                EscrowView {
                    locked: self.locked.insert(token.0, (self.locked_of(token) + amount) as i128),
                    packages: self.packages.push(
                        Package {
                            id,
                            recipient,
                            amount,
                            token,
                            status: PackageStatus::Created,
                            created_at: now,
                            expires_at,
                        },
                    ),
                    ..self
                },
                Ok(id),
            ),
        }
    }

    /// The check that entry `j` of a batch fails, given the entries before it.
    pub open spec fn batch_entry_error(
        self,
        amounts: Seq<i128>,
        token: Address,
        balance: i128,
        j: int,
    ) -> Option<Error> {
        if amounts[j] <= 0 {
            Some(Error::InvalidAmount)
        } else if balance < self.locked_of(token) + prefix_sum(amounts, j) + amounts[j] {
            Some(Error::InsufficientFunds)
        } else if self.has_package((self.counter + j) as u64) {
            Some(Error::PackageIdExists)
        } else {
            None
        }
    }

    /// The first check that one of the first `n` entries of a batch fails, if any.
    pub open spec fn batch_error(self, amounts: Seq<i128>, token: Address, balance: i128, n: int) -> Option<
        Error,
    >
        decreases n,
    {
        if n <= 0 {
            None
        } else {
            match self.batch_error(amounts, token, balance, n - 1) {
                Some(e) => Some(e),
                None => self.batch_entry_error(amounts, token, balance, n - 1),
            }
        }
    }

    /// A batch either creates all of its packages or none. An identifier that the
    /// batch counter hands out and that a package already holds fails the batch
    /// with `PackageIdExists`; a counter or an expiry beyond `u64` fails it with
    /// `InvalidState`.
    pub open spec fn batch_step(
        self,
        operator: Address,
        recipients: Seq<Address>,
        amounts: Seq<i128>,
        token: Address,
        expires_in: u64,
        now: u64,
        balance: i128,
    ) -> (EscrowView, Result<Seq<u64>, Error>) {
        let n = amounts.len();
        if self.paused {
            (self, Err(Error::ContractPaused))
        } else if self.operator_error(operator) is Some {
            (self, Err(self.operator_error(operator)->Some_0))
        } else if recipients.len() != n {
            (self, Err(Error::MismatchedArrays))
        } else if now + expires_in > u64::MAX || self.counter + n > u64::MAX {
            (self, Err(Error::InvalidState))
        } else if self.batch_error(amounts, token, balance, n as int) is Some {
            (self, Err(self.batch_error(amounts, token, balance, n as int)->Some_0))
        } else {
            (
                EscrowView {
                    locked: self.locked.insert(
                        token.0,
                        (self.locked_of(token) + prefix_sum(amounts, n as int)) as i128,
                    ),
                    counter: (self.counter + n) as u64,
                    packages: self.packages + batch_packages(
                        self.counter,
                        recipients,
                        amounts,
                        token,
                        now,
                        (now + expires_in) as u64,
                        n,
                    ),
                    ..self
                },
                Ok(batch_ids(self.counter, n)),
            )
        }
    }

    // --- release ---

    pub open spec fn claim_step(self, caller: Address, id: u64, now: u64) -> (
        EscrowView,
        Result<Payout, Error>,
    ) {
        let i = self.index_of(id);
        let p = self.packages[i];
        if self.paused {
            (self, Err(Error::ContractPaused))
        } else if !self.has_package(id) {
            (self, Err(Error::PackageNotFound))
        } else if p.status != PackageStatus::Created {
            (self, Err(Error::PackageNotActive))
        } else if p.is_past_expiry(now) {
            (self.release(i, PackageStatus::Expired), Err(Error::PackageExpired))
        } else if caller != p.recipient {
            (self, Err(Error::NotAuthorized))
        } else {
            (
                self.release(i, PackageStatus::Claimed),
                Ok(Payout { token: p.token, to: p.recipient, amount: p.amount }),
            )
        }
    }

    pub open spec fn disburse_step(self, caller: Address, id: u64) -> (
        EscrowView,
        Result<Payout, Error>,
    ) {
        let i = self.index_of(id);
        let p = self.packages[i];
        if self.admin_error(caller) is Some {
            (self, Err(self.admin_error(caller)->Some_0))
        } else if !self.has_package(id) {
            (self, Err(Error::PackageNotFound))
        } else if p.status != PackageStatus::Created {
            (self, Err(Error::PackageNotActive))
        } else {
            (
                self.release(i, PackageStatus::Claimed),
                Ok(Payout { token: p.token, to: p.recipient, amount: p.amount }),
            )
        }
    }

    /// Cancels an open package. With `allow_expired` false, a package past its
    /// expiry is refused with `PackageExpired`; `inactive` is the error for a
    /// package that is no longer `Created`.
    pub open spec fn cancel_step(
        self,
        caller: Address,
        id: u64,
        now: u64,
        allow_expired: bool,
        inactive: Error,
    ) -> (EscrowView, Result<(), Error>) {
        let i = self.index_of(id);
        let p = self.packages[i];
        if self.admin_error(caller) is Some {
            (self, Err(self.admin_error(caller)->Some_0))
        } else if !self.has_package(id) {
            (self, Err(Error::PackageNotFound))
        } else if p.status != PackageStatus::Created {
            (self, Err(inactive))
        } else if !allow_expired && p.is_past_expiry(now) {
            (self, Err(Error::PackageExpired))
        } else {
            (self.release(i, PackageStatus::Cancelled), Ok(()))
        }
    }

    pub open spec fn refund_step(self, caller: Address, id: u64, now: u64) -> (
        EscrowView,
        Result<Payout, Error>,
    ) {
        let i = self.index_of(id);
        let p = self.packages[i];
        let payout = Payout { token: p.token, to: caller, amount: p.amount };
        if self.admin_error(caller) is Some {
            (self, Err(self.admin_error(caller)->Some_0))
        } else if !self.has_package(id) {
            (self, Err(Error::PackageNotFound))
        } else if p.status == PackageStatus::Created {
            if p.is_past_expiry(now) {
                (
                    self.release(i, PackageStatus::Expired).set_status(i, PackageStatus::Refunded),
                    Ok(payout),
                )
            } else {
                (self, Err(Error::InvalidState))
            }
        } else if p.status.is_terminal() {
            (self, Err(Error::InvalidState))
        } else {
            (self.set_status(i, PackageStatus::Refunded), Ok(payout))
        }
    }

    pub open spec fn extend_step(self, caller: Address, id: u64, additional_time: u64, now: u64) -> (
        EscrowView,
        Result<(), Error>,
    ) {
        let i = self.index_of(id);
        let p = self.packages[i];
        let new_expiry = p.expires_at + additional_time;
        let max = self.config.max_expires_in;
        if self.admin_error(caller) is Some {
            (self, Err(self.admin_error(caller)->Some_0))
        } else if !self.has_package(id) {
            (self, Err(Error::PackageNotFound))
        } else if p.status != PackageStatus::Created {
            (self, Err(Error::PackageNotActive))
        } else if additional_time == 0 {
            (self, Err(Error::InvalidAmount))
        } else if p.expires_at == 0 {
            (self, Err(Error::InvalidState))
        } else if now > p.expires_at {
            (self, Err(Error::PackageExpired))
        } else if new_expiry > u64::MAX || (max > 0 && (new_expiry <= now || new_expiry - now
            > max)) {
            (self, Err(Error::InvalidState))
        } else {
            (
                EscrowView {
                    packages: self.packages.update(
                        i,
                        Package { expires_at: new_expiry as u64, ..p },
                    ),
                    ..self
                },
                Ok(()),
            )
        }
    }

    // --- views ---

    pub open spec fn get_package_result(self, id: u64) -> Result<Package, Error> {
        if self.has_package(id) {
            Ok(self.package(id))
        } else {
            Err(Error::PackageNotFound)
        }
    }
}

} // verus!
