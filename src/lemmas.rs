use vstd::prelude::*;

use crate::model::{
    batch_packages, bucket_of, bucket_sum, issued_sum, prefix_sum, share, Bucket, EscrowView,
};
use crate::types::{Address, Error, Package, PackageStatus};

verus! {

pub proof fn lemma_bucket_sum_push(ps: Seq<Package>, p: Package, t: Address, b: Bucket)
    ensures
        bucket_sum(ps.push(p), t, b) == bucket_sum(ps, t, b) + share(p, t, b),
{
    assert(ps.push(p).drop_last() =~= ps);
}

pub proof fn lemma_issued_sum_push(ps: Seq<Package>, p: Package, t: Address)
    ensures
        issued_sum(ps.push(p), t) == issued_sum(ps, t) + if p.token == t {
            p.amount as int
        } else {
            0
        },
{
    assert(ps.push(p).drop_last() =~= ps);
}

/// Replacing one package changes a bucket by the difference of the two shares.
pub proof fn lemma_bucket_sum_update(ps: Seq<Package>, i: int, q: Package, t: Address, b: Bucket)
    requires
        0 <= i < ps.len(),
    ensures
        bucket_sum(ps.update(i, q), t, b) == bucket_sum(ps, t, b) - share(ps[i], t, b) + share(
            q,
            t,
            b,
        ),
    decreases ps.len(),
{
    let qs = ps.update(i, q);
    if i == ps.len() - 1 {
        assert(qs.drop_last() =~= ps.drop_last());
    } else {
        assert(qs.drop_last() =~= ps.drop_last().update(i, q));
        lemma_bucket_sum_update(ps.drop_last(), i, q, t, b);
    }
}

pub proof fn lemma_bucket_sum_nonneg(ps: Seq<Package>, t: Address, b: Bucket)
    requires
        forall|i: int| 0 <= i < ps.len() ==> #[trigger] ps[i].amount > 0,
    ensures
        bucket_sum(ps, t, b) >= 0,
    decreases ps.len(),
{
    if ps.len() > 0 {
        lemma_bucket_sum_nonneg(ps.drop_last(), t, b);
    }
}

pub proof fn lemma_bucket_sum_append(ps: Seq<Package>, qs: Seq<Package>, t: Address, b: Bucket)
    ensures
        bucket_sum(ps + qs, t, b) == bucket_sum(ps, t, b) + bucket_sum(qs, t, b),
    decreases qs.len(),
{
    if qs.len() == 0 {
        assert(ps + qs =~= ps);
    } else {
        assert((ps + qs).drop_last() =~= ps + qs.drop_last());
        lemma_bucket_sum_append(ps, qs.drop_last(), t, b);
    }
}

/// The three buckets together make up the total issued.
pub proof fn lemma_buckets_cover_issued(ps: Seq<Package>, t: Address)
    ensures
        bucket_sum(ps, t, Bucket::Committed) + bucket_sum(ps, t, Bucket::Claimed) + bucket_sum(
            ps,
            t,
            Bucket::Closed,
        ) == issued_sum(ps, t),
    decreases ps.len(),
{
    if ps.len() > 0 {
        lemma_buckets_cover_issued(ps.drop_last(), t);
    }
}

/// Each bucket of a prefix is at most the total issued of the whole sequence.
pub proof fn lemma_prefix_bucket_bounded(ps: Seq<Package>, n: int, t: Address, b: Bucket)
    requires
        0 <= n <= ps.len(),
        forall|i: int| 0 <= i < ps.len() ==> #[trigger] ps[i].amount > 0,
    ensures
        0 <= bucket_sum(ps.take(n), t, b) <= issued_sum(ps, t),
    decreases ps.len(),
{
    if n == ps.len() {
        assert(ps.take(n) =~= ps);
        lemma_buckets_cover_issued(ps, t);
        lemma_bucket_sum_nonneg(ps, t, Bucket::Committed);
        lemma_bucket_sum_nonneg(ps, t, Bucket::Claimed);
        lemma_bucket_sum_nonneg(ps, t, Bucket::Closed);
    } else {
        let qs = ps.drop_last();
        assert(ps.take(n) =~= qs.take(n));
        lemma_prefix_bucket_bounded(qs, n, t, b);
    }
}

pub proof fn lemma_batch_packages_len(
    counter: u64,
    recipients: Seq<Address>,
    amounts: Seq<i128>,
    token: Address,
    now: u64,
    expires_at: u64,
    n: nat,
)
    ensures
        batch_packages(counter, recipients, amounts, token, now, expires_at, n).len() == n,
    decreases n,
{
    if n > 0 {
        lemma_batch_packages_len(counter, recipients, amounts, token, now, expires_at, (n - 1) as nat);
    }
}

/// Entry `j` of a batch is the package that the batch builds from entry `j`.
pub proof fn lemma_batch_packages_index(
    counter: u64,
    recipients: Seq<Address>,
    amounts: Seq<i128>,
    token: Address,
    now: u64,
    expires_at: u64,
    n: nat,
    j: int,
)
    requires
        0 <= j < n,
    ensures
        batch_packages(counter, recipients, amounts, token, now, expires_at, n)[j] == (Package {
            id: (counter + j) as u64,
            recipient: recipients[j],
            amount: amounts[j],
            token,
            status: PackageStatus::Created,
            created_at: now,
            expires_at,
        }),
    decreases n,
{
    lemma_batch_packages_len(counter, recipients, amounts, token, now, expires_at, (n - 1) as nat);
    if j < n - 1 {
        lemma_batch_packages_index(
            counter,
            recipients,
            amounts,
            token,
            now,
            expires_at,
            (n - 1) as nat,
            j,
        );
    }
}

/// A batch adds its amounts to the committed bucket of its asset, and nothing elsewhere.
pub proof fn lemma_batch_packages_sum(
    counter: u64,
    recipients: Seq<Address>,
    amounts: Seq<i128>,
    token: Address,
    now: u64,
    expires_at: u64,
    n: nat,
    t: Address,
    b: Bucket,
)
    ensures
        bucket_sum(batch_packages(counter, recipients, amounts, token, now, expires_at, n), t, b)
            == if t == token && b == Bucket::Committed {
            prefix_sum(amounts, n as int)
        } else {
            0
        },
    decreases n,
{
    if n > 0 {
        let j = (n - 1) as nat;
        let prev = batch_packages(counter, recipients, amounts, token, now, expires_at, j);
        lemma_batch_packages_sum(counter, recipients, amounts, token, now, expires_at, j, t, b);
        let p = Package {
            id: (counter + j) as u64,
            recipient: recipients[j as int],
            amount: amounts[j as int],
            token,
            status: PackageStatus::Created,
            created_at: now,
            expires_at,
        };
        lemma_bucket_sum_push(prev, p, t, b);
    }
}

impl EscrowView {
    /// Well-formedness reads only the packages, the locked balances and the minimum amount.
    pub proof fn lemma_wf_frame(self, other: EscrowView)
        requires
            self.wf(),
            other.packages == self.packages,
            other.locked == self.locked,
            other.config.min_amount > 0,
        ensures
            other.wf(),
    {
        assert forall|t: Address| #[trigger]
            other.locked_of(t) == bucket_sum(other.packages, t, Bucket::Committed) by {
            assert(self.locked_of(t) == bucket_sum(self.packages, t, Bucket::Committed));
        }
    }

    /// With unique identifiers, a position that holds `id` is the one `index_of` picks.
    pub proof fn lemma_index_of(self, id: u64, i: int)
        requires
            self.wf(),
            0 <= i < self.packages.len(),
            self.packages[i].id == id,
        ensures
            self.has_package(id),
            self.index_of(id) == i,
    {
        assert(self.has_package(id));
        let k = self.index_of(id);
        assert(self.packages[k].id == self.packages[i].id);
    }

    /// An open package's amount is covered by what is locked for its asset.
    pub proof fn lemma_open_amount_locked(self, i: int)
        requires
            self.wf(),
            0 <= i < self.packages.len(),
            self.packages[i].status == PackageStatus::Created,
        ensures
            self.locked_of(self.packages[i].token) >= self.packages[i].amount,
    {
        let p = self.packages[i];
        let q = p.with_status(PackageStatus::Cancelled);
        lemma_bucket_sum_update(self.packages, i, q, p.token, Bucket::Committed);
        let qs = self.packages.update(i, q);
        assert forall|k: int| 0 <= k < qs.len() implies #[trigger] qs[k].amount > 0 by {
            assert(self.packages[k].amount > 0);
        }
        lemma_bucket_sum_nonneg(qs, p.token, Bucket::Committed);
        assert(self.locked_of(p.token) == bucket_sum(self.packages, p.token, Bucket::Committed));
    }

    /// Changing the status of a package without touching the committed bucket keeps
    /// the state well formed.
    pub proof fn lemma_set_status_wf(self, i: int, status: PackageStatus)
        requires
            self.wf(),
            0 <= i < self.packages.len(),
            bucket_of(self.packages[i].status) != Bucket::Committed,
            bucket_of(status) != Bucket::Committed,
        ensures
            self.set_status(i, status).wf(),
            self.set_status(i, status).packages.len() == self.packages.len(),
            self.set_status(i, status).packages[i] == self.packages[i].with_status(status),
    {
        let s2 = self.set_status(i, status);
        let q = self.packages[i].with_status(status);
        assert forall|t: Address| #[trigger]
            s2.locked_of(t) == bucket_sum(s2.packages, t, Bucket::Committed) by {
            lemma_bucket_sum_update(self.packages, i, q, t, Bucket::Committed);
            assert(self.locked_of(t) == bucket_sum(self.packages, t, Bucket::Committed));
        }
        assert forall|a: int, b: int|
            0 <= a < s2.packages.len() && 0 <= b < s2.packages.len() && #[trigger] s2.packages[a].id
                == #[trigger] s2.packages[b].id implies a == b by {
            assert(self.packages[a].id == self.packages[b].id);
        }
        assert forall|a: int| 0 <= a < s2.packages.len() implies #[trigger] s2.packages[a].amount
            > 0 by {
            assert(self.packages[a].amount > 0);
        }
    }

    /// Closing an open package and unlocking its amount keeps the state well formed,
    /// and the unlocked amount is exactly the package's.
    pub proof fn lemma_release_wf(self, i: int, status: PackageStatus)
        requires
            self.wf(),
            0 <= i < self.packages.len(),
            self.packages[i].status == PackageStatus::Created,
            status != PackageStatus::Created,
        ensures
            self.release(i, status).wf(),
            self.release(i, status).packages.len() == self.packages.len(),
            self.release(i, status).packages[i] == self.packages[i].with_status(status),
            self.release(i, status).locked_of(self.packages[i].token) == self.locked_of(
                self.packages[i].token,
            ) - self.packages[i].amount,
            forall|t: Address|
                t != self.packages[i].token ==> #[trigger] self.release(i, status).locked_of(t)
                    == self.locked_of(t),
    {
        let p = self.packages[i];
        let s2 = self.release(i, status);
        let q = p.with_status(status);
        self.lemma_open_amount_locked(i);
        assert forall|t: Address| #[trigger]
            s2.locked_of(t) == bucket_sum(s2.packages, t, Bucket::Committed) by {
            lemma_bucket_sum_update(self.packages, i, q, t, Bucket::Committed);
            assert(self.locked_of(t) == bucket_sum(self.packages, t, Bucket::Committed));
        }
        assert forall|a: int, b: int|
            0 <= a < s2.packages.len() && 0 <= b < s2.packages.len() && #[trigger] s2.packages[a].id
                == #[trigger] s2.packages[b].id implies a == b by {
            assert(self.packages[a].id == self.packages[b].id);
        }
        assert forall|a: int| 0 <= a < s2.packages.len() implies #[trigger] s2.packages[a].amount
            > 0 by {
            assert(self.packages[a].amount > 0);
        }
    }

    /// Adding a new open package and locking its amount keeps the state well formed.
    pub proof fn lemma_create_wf(self, p: Package)
        requires
            self.wf(),
            !self.has_package(p.id),
            p.amount > 0,
            p.status == PackageStatus::Created,
            self.locked_of(p.token) + p.amount <= i128::MAX,
        ensures
            (EscrowView {
                locked: self.locked.insert(p.token.0, (self.locked_of(p.token) + p.amount) as i128),
                packages: self.packages.push(p),
                ..self
            }).wf(),
    {
        let s2 = EscrowView {
            locked: self.locked.insert(p.token.0, (self.locked_of(p.token) + p.amount) as i128),
            packages: self.packages.push(p),
            ..self
        };
        assert forall|t: Address| #[trigger]
            s2.locked_of(t) == bucket_sum(s2.packages, t, Bucket::Committed) by {
            lemma_bucket_sum_push(self.packages, p, t, Bucket::Committed);
            assert(self.locked_of(t) == bucket_sum(self.packages, t, Bucket::Committed));
        }
        assert forall|a: int, b: int|
            0 <= a < s2.packages.len() && 0 <= b < s2.packages.len() && #[trigger] s2.packages[a].id
                == #[trigger] s2.packages[b].id implies a == b by {
            if a < self.packages.len() && b < self.packages.len() {
                assert(self.packages[a].id == self.packages[b].id);
            } else if a < self.packages.len() {
                assert(self.packages[a].id == p.id);
            } else if b < self.packages.len() {
                assert(self.packages[b].id == p.id);
            }
        }
        assert forall|a: int| 0 <= a < s2.packages.len() implies #[trigger] s2.packages[a].amount
            > 0 by {
            if a < self.packages.len() {
                assert(self.packages[a].amount > 0);
            }
        }
    }

    /// Replacing a package by one with the same identity, amount, asset and status
    /// keeps the state well formed.
    pub proof fn lemma_same_share_wf(self, i: int, q: Package)
        requires
            self.wf(),
            0 <= i < self.packages.len(),
            q.id == self.packages[i].id,
            q.amount == self.packages[i].amount,
            q.token == self.packages[i].token,
            q.status == self.packages[i].status,
        ensures
            (EscrowView { packages: self.packages.update(i, q), ..self }).wf(),
    {
        let s2 = EscrowView { packages: self.packages.update(i, q), ..self };
        assert forall|t: Address| #[trigger]
            s2.locked_of(t) == bucket_sum(s2.packages, t, Bucket::Committed) by {
            lemma_bucket_sum_update(self.packages, i, q, t, Bucket::Committed);
            assert(self.locked_of(t) == bucket_sum(self.packages, t, Bucket::Committed));
        }
        assert forall|a: int, b: int|
            0 <= a < s2.packages.len() && 0 <= b < s2.packages.len() && #[trigger] s2.packages[a].id
                == #[trigger] s2.packages[b].id implies a == b by {
            assert(self.packages[a].id == self.packages[b].id);
        }
        assert forall|a: int| 0 <= a < s2.packages.len() implies #[trigger] s2.packages[a].amount
            > 0 by {
            assert(self.packages[a].amount > 0);
        }
    }

    /// Once an entry of a batch has failed, the batch fails with that error.
    pub proof fn lemma_batch_error_sticky(
        self,
        amounts: Seq<i128>,
        token: Address,
        balance: i128,
        i: int,
        n: int,
    )
        requires
            0 <= i < n,
            self.batch_error(amounts, token, balance, i) is None,
            self.batch_entry_error(amounts, token, balance, i) is Some,
        ensures
            self.batch_error(amounts, token, balance, n) == self.batch_entry_error(
                amounts,
                token,
                balance,
                i,
            ),
        decreases n - i,
    {
        if n > i + 1 {
            self.lemma_batch_error_sticky(amounts, token, balance, i, n - 1);
        }
    }

    /// A batch that fails no check fails no entry.
    pub proof fn lemma_batch_error_none(
        self,
        amounts: Seq<i128>,
        token: Address,
        balance: i128,
        n: int,
        j: int,
    )
        requires
            0 <= j < n,
            self.batch_error(amounts, token, balance, n) is None,
        ensures
            self.batch_entry_error(amounts, token, balance, j) is None,
            self.batch_error(amounts, token, balance, j) is None,
        decreases n - j,
    {
        if j < n - 1 {
            self.lemma_batch_error_none(amounts, token, balance, n - 1, j);
        }
    }

    /// When the checks before the entries pass, a batch's outcome is decided by its entries.
    pub proof fn lemma_batch_step_entries(
        self,
        operator: Address,
        recipients: Seq<Address>,
        amounts: Seq<i128>,
        token: Address,
        expires_in: u64,
        now: u64,
        balance: i128,
    )
        requires
            !self.paused,
            self.operator_error(operator) is None,
            recipients.len() == amounts.len(),
            now + expires_in <= u64::MAX,
            self.counter + amounts.len() <= u64::MAX,
        ensures
            self.batch_error(amounts, token, balance, amounts.len() as int) is Some ==> self.batch_step(
                operator,
                recipients,
                amounts,
                token,
                expires_in,
                now,
                balance,
            ) == (self, Err::<Seq<u64>, Error>(
                self.batch_error(amounts, token, balance, amounts.len() as int)->Some_0,
            )),
    {
    }

    /// A batch that passes every check leaves the state well formed.
    pub proof fn lemma_batch_wf(
        self,
        recipients: Seq<Address>,
        amounts: Seq<i128>,
        token: Address,
        now: u64,
        expires_at: u64,
        balance: i128,
    )
        requires
            self.wf(),
            recipients.len() == amounts.len(),
            self.counter + amounts.len() <= u64::MAX,
            self.batch_error(amounts, token, balance, amounts.len() as int) is None,
            0 <= self.locked_of(token) + prefix_sum(amounts, amounts.len() as int) <= i128::MAX,
        ensures
            (EscrowView {
                locked: self.locked.insert(
                    token.0,
                    (self.locked_of(token) + prefix_sum(amounts, amounts.len() as int)) as i128,
                ),
                counter: (self.counter + amounts.len()) as u64,
                packages: self.packages + batch_packages(
                    self.counter,
                    recipients,
                    amounts,
                    token,
                    now,
                    expires_at,
                    amounts.len(),
                ),
                ..self
            }).wf(),
    {
        let n = amounts.len();
        let fresh = batch_packages(self.counter, recipients, amounts, token, now, expires_at, n);
        let s2 = EscrowView {
            locked: self.locked.insert(
                token.0,
                (self.locked_of(token) + prefix_sum(amounts, n as int)) as i128,
            ),
            counter: (self.counter + n) as u64,
            packages: self.packages + fresh,
            ..self
        };
        let m = self.packages.len();
        lemma_batch_packages_len(self.counter, recipients, amounts, token, now, expires_at, n);
        assert forall|t: Address| #[trigger]
            s2.locked_of(t) == bucket_sum(s2.packages, t, Bucket::Committed) by {
            lemma_bucket_sum_append(self.packages, fresh, t, Bucket::Committed);
            lemma_batch_packages_sum(
                self.counter,
                recipients,
                amounts,
                token,
                now,
                expires_at,
                n,
                t,
                Bucket::Committed,
            );
            assert(self.locked_of(t) == bucket_sum(self.packages, t, Bucket::Committed));
        }
        assert forall|a: int| 0 <= a < s2.packages.len() implies #[trigger] s2.packages[a].amount
            > 0 by {
            if a < m {
                assert(self.packages[a].amount > 0);
            } else {
                lemma_batch_packages_index(
                    self.counter,
                    recipients,
                    amounts,
                    token,
                    now,
                    expires_at,
                    n,
                    a - m,
                );
                self.lemma_batch_error_none(amounts, token, balance, n as int, a - m);
            }
        }
        assert forall|a: int, b: int|
            0 <= a < s2.packages.len() && 0 <= b < s2.packages.len() && #[trigger] s2.packages[a].id
                == #[trigger] s2.packages[b].id implies a == b by {
            if a >= m {
                lemma_batch_packages_index(
                    self.counter,
                    recipients,
                    amounts,
                    token,
                    now,
                    expires_at,
                    n,
                    a - m,
                );
                self.lemma_batch_error_none(amounts, token, balance, n as int, a - m);
            }
            if b >= m {
                lemma_batch_packages_index(
                    self.counter,
                    recipients,
                    amounts,
                    token,
                    now,
                    expires_at,
                    n,
                    b - m,
                );
                self.lemma_batch_error_none(amounts, token, balance, n as int, b - m);
            }
            if a < m && b < m {
                assert(self.packages[a].id == self.packages[b].id);
            } else if a < m {
                assert(self.packages[a].id == s2.packages[b].id);
            } else if b < m {
                assert(self.packages[b].id == s2.packages[a].id);
            }
        }
    }
}

/// The issued total of a prefix is at most that of the whole sequence.
pub proof fn lemma_prefix_issued_bounded(ps: Seq<Package>, n: int, t: Address)
    requires
        0 <= n <= ps.len(),
        forall|i: int| 0 <= i < ps.len() ==> #[trigger] ps[i].amount > 0,
    ensures
        0 <= issued_sum(ps.take(n), t) <= issued_sum(ps, t),
    decreases ps.len(),
{
    if n == ps.len() {
        assert(ps.take(n) =~= ps);
        lemma_buckets_cover_issued(ps, t);
        lemma_bucket_sum_nonneg(ps, t, Bucket::Committed);
        lemma_bucket_sum_nonneg(ps, t, Bucket::Claimed);
        lemma_bucket_sum_nonneg(ps, t, Bucket::Closed);
    } else {
        let qs = ps.drop_last();
        assert(ps.take(n) =~= qs.take(n));
        lemma_prefix_issued_bounded(qs, n, t);
    }
}

} // verus!
