use vstd::prelude::*;

verus! {

/// A principal or an asset, by its identifier.
#[derive(Clone, Copy, PartialEq, Eq, Structural, Debug, Hash)]
pub struct Address(pub u64);

/// Lifecycle state of a package.
#[derive(Clone, Copy, PartialEq, Eq, Structural, Debug)]
pub enum PackageStatus {
    Created,
    Claimed,
    Expired,
    Cancelled,
    Refunded,
}

impl PackageStatus {
    /// `Claimed` and `Refunded` admit no further transition.
    pub open spec fn is_terminal(self) -> bool {
        self == PackageStatus::Claimed || self == PackageStatus::Refunded
    }
}

/// One fund commitment earmarked for one recipient.
#[derive(Clone, Copy, PartialEq, Eq, Structural, Debug)]
pub struct Package {
    pub id: u64,
    pub recipient: Address,
    pub amount: i128,
    pub token: Address,
    pub status: PackageStatus,
    pub created_at: u64,
    /// Zero means the package never expires.
    pub expires_at: u64,
}

impl Package {
    pub open spec fn with_status(self, status: PackageStatus) -> Package {
        Package { status, ..self }
    }

    /// A bounded package is past its expiry strictly after `expires_at`.
    pub open spec fn is_past_expiry(self, now: u64) -> bool {
        self.expires_at > 0 && now > self.expires_at
    }
}

/// Tunables of the ledger.
#[derive(Clone, Debug, PartialEq, Eq)]
pub struct Config {
    pub min_amount: i128,
    /// Zero means no horizon limit.
    pub max_expires_in: u64,
    /// Empty means every asset is allowed.
    pub allowed_tokens: Vec<Address>,
}

/// The mathematical value of a `Config`.
pub struct ConfigView {
    pub min_amount: i128,
    pub max_expires_in: u64,
    pub allowed_tokens: Seq<Address>,
}

impl View for Config {
    type V = ConfigView;

    open spec fn view(&self) -> ConfigView {
        ConfigView {
            min_amount: self.min_amount,
            max_expires_in: self.max_expires_in,
            allowed_tokens: self.allowed_tokens@,
        }
    }
}

impl ConfigView {
    /// The configuration stored at initialisation.
    pub open spec fn default_config() -> ConfigView {
        ConfigView { min_amount: 1, max_expires_in: 0, allowed_tokens: Seq::empty() }
    }

    pub open spec fn allows_token(self, token: Address) -> bool {
        self.allowed_tokens.len() == 0 || self.allowed_tokens.contains(token)
    }
}

impl Config {
    pub fn copy_config(&self) -> (r: Config)
        ensures
            r@ == self@,
    {
        let mut tokens: Vec<Address> = Vec::new();
        let mut i: usize = 0;
        while i < self.allowed_tokens.len()
            invariant
                i <= self.allowed_tokens@.len(),
                tokens@ == self.allowed_tokens@.take(i as int),
            decreases self.allowed_tokens@.len() - i,
        {
            tokens.push(self.allowed_tokens[i]);
            i += 1;
            assert(tokens@ =~= self.allowed_tokens@.take(i as int));
        }
        assert(tokens@ =~= self.allowed_tokens@);
        Config {
            min_amount: self.min_amount,
            max_expires_in: self.max_expires_in,
            allowed_tokens: tokens,
        }
    }
}

/// Per-asset sums of package amounts, bucketed by status.
#[derive(Clone, Copy, PartialEq, Eq, Structural, Debug)]
pub struct Aggregates {
    /// Packages still `Created`.
    pub total_committed: i128,
    /// Packages `Claimed`.
    pub total_claimed: i128,
    /// Packages `Expired`, `Cancelled` or `Refunded`.
    pub total_expired_cancelled: i128,
}

#[derive(Clone, Copy, PartialEq, Eq, Structural, Debug)]
pub enum Error {
    NotInitialized,
    AlreadyInitialized,
    NotAuthorized,
    InvalidAmount,
    PackageNotFound,
    /// Already claimed, expired, or cancelled.
    PackageNotActive,
    PackageExpired,
    PackageNotExpired,
    /// The pool balance is below what is locked plus the new amount.
    InsufficientFunds,
    PackageIdExists,
    /// Transition not allowed.
    InvalidState,
    /// Recipients and amounts have different lengths.
    MismatchedArrays,
    ContractPaused,
}

/// A transfer out of the pool that the caller must perform after the ledger
/// has recorded the state change.
#[derive(Clone, Copy, PartialEq, Eq, Structural, Debug)]
pub struct Payout {
    pub token: Address,
    pub to: Address,
    pub amount: i128,
}

} // verus!
