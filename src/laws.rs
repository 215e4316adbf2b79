use vstd::prelude::*;

use crate::lemmas::{
    lemma_batch_packages_len, lemma_batch_packages_sum, lemma_bucket_sum_append,
    lemma_bucket_sum_nonneg, lemma_buckets_cover_issued, lemma_issued_sum_push,
};
use crate::model::{batch_packages, bucket_sum, issued_sum, prefix_sum, Bucket, EscrowView};
use crate::types::{Address, ConfigView, Error, Package, PackageStatus, Payout};

verus! {

/// One mutating operation on the ledger, with the inputs that its caller supplies.
pub enum Op {
    Init { admin: Address },
    AddDistributor { caller: Address, addr: Address },
    RemoveDistributor { caller: Address, addr: Address },
    SetConfig { caller: Address, config: ConfigView },
    SetPaused { caller: Address, paused: bool },
    /// A deposit into the pool; the ledger itself does not change.
    Fund { token: Address, amount: i128 },
    Create {
        operator: Address,
        id: u64,
        recipient: Address,
        amount: i128,
        token: Address,
        expires_at: u64,
        now: u64,
        balance: i128,
    },
    Batch {
        operator: Address,
        recipients: Seq<Address>,
        amounts: Seq<i128>,
        token: Address,
        expires_in: u64,
        now: u64,
        balance: i128,
    },
    Claim { caller: Address, id: u64, now: u64 },
    Disburse { caller: Address, id: u64 },
    Revoke { caller: Address, id: u64 },
    Cancel { caller: Address, id: u64, now: u64 },
    Refund { caller: Address, id: u64, now: u64 },
    Extend { caller: Address, id: u64, additional_time: u64, now: u64 },
}

/// The state after `op`.
pub open spec fn apply(s: EscrowView, op: Op) -> EscrowView {
    match op {
        Op::Init { admin } => s.init_step(admin).0,
        Op::AddDistributor { caller, addr } => s.add_distributor_step(caller, addr).0,
        Op::RemoveDistributor { caller, addr } => s.remove_distributor_step(caller, addr).0,
        Op::SetConfig { caller, config } => s.set_config_step(caller, config).0,
        Op::SetPaused { caller, paused } => s.set_paused_step(caller, paused).0,
        Op::Fund { .. } => s,
        Op::Create { operator, id, recipient, amount, token, expires_at, now, balance } => s.create_step(
            operator,
            id,
            recipient,
            amount,
            token,
            expires_at,
            now,
            balance,
        ).0,
        Op::Batch { operator, recipients, amounts, token, expires_in, now, balance } => s.batch_step(
            operator,
            recipients,
            amounts,
            token,
            expires_in,
            now,
            balance,
        ).0,
        Op::Claim { caller, id, now } => s.claim_step(caller, id, now).0,
        Op::Disburse { caller, id } => s.disburse_step(caller, id).0,
        Op::Revoke { caller, id } => s.cancel_step(caller, id, 0, true, Error::InvalidState).0,
        Op::Cancel { caller, id, now } => s.cancel_step(
            caller,
            id,
            now,
            false,
            Error::PackageNotActive,
        ).0,
        Op::Refund { caller, id, now } => s.refund_step(caller, id, now).0,
        Op::Extend { caller, id, additional_time, now } => s.extend_step(
            caller,
            id,
            additional_time,
            now,
        ).0,
    }
}

/// The state after the operations of `ops`, in order.
pub open spec fn run(s: EscrowView, ops: Seq<Op>) -> EscrowView
    decreases ops.len(),
{
    if ops.len() == 0 {
        s
    } else {
        apply(run(s, ops.drop_last()), ops.last())
    }
}

/// The transfer out of the pool that `op` asks for, if it succeeds.
pub open spec fn payout_of(s: EscrowView, op: Op) -> Option<Payout> {
    let r = match op {
        Op::Claim { caller, id, now } => s.claim_step(caller, id, now).1,
        Op::Disburse { caller, id } => s.disburse_step(caller, id).1,
        Op::Refund { caller, id, now } => s.refund_step(caller, id, now).1,
        _ => Err(Error::InvalidState),
    };
    match r {
        Ok(p) => Some(p),
        Err(_) => None,
    }
}

/// What `op` takes out of the pool of `token`.
pub open spec fn outflow(s: EscrowView, op: Op, token: Address) -> int {
    match payout_of(s, op) {
        Some(p) => if p.token == token {
            p.amount as int
        } else {
            0
        },
        None => 0,
    }
}

/// What `op` puts into the pool of `token`.
pub open spec fn inflow(op: Op, token: Address) -> int {
    match op {
        Op::Fund { token: t, amount } => if t == token && amount > 0 {
            amount as int
        } else {
            0
        },
        _ => 0,
    }
}

/// Whether `op`, where it reads the pool of `token`, is handed `balance`.
pub open spec fn sees_balance(op: Op, token: Address, balance: int) -> bool {
    match op {
        Op::Create { token: t, balance: b, .. } => t == token ==> b == balance,
        Op::Batch { token: t, balance: b, .. } => t == token ==> b == balance,
        _ => true,
    }
}

/// What a refund pays out of `token` for a package whose amount was unlocked
/// before the refund (a cancelled or expired one).
pub open spec fn unlocked_refund(s: EscrowView, op: Op, token: Address) -> int {
    match op {
        Op::Refund { caller, id, now } => if s.refund_step(caller, id, now).1 is Ok && s.package(
            id,
        ).status != PackageStatus::Created && s.package(id).token == token {
            s.package(id).amount as int
        } else {
            0
        },
        _ => 0,
    }
}

/// The amount that `op` newly locks for `token`.
pub open spec fn newly_locked(s: EscrowView, op: Op, token: Address) -> int {
    match op {
        Op::Create { operator, id, recipient, amount, token: t, expires_at, now, balance } => if t
            == token && s.create_step(
            operator,
            id,
            recipient,
            amount,
            t,
            expires_at,
            now,
            balance,
        ).1 is Ok {
            amount as int
        } else {
            0
        },
        Op::Batch { operator, recipients, amounts, token: t, expires_in, now, balance } => if t
            == token && s.batch_step(
            operator,
            recipients,
            amounts,
            t,
            expires_in,
            now,
            balance,
        ).1 is Ok {
            prefix_sum(amounts, amounts.len() as int)
        } else {
            0
        },
        _ => 0,
    }
}

/// The pool balance of `token` after `ops`, starting from `balance`.
pub open spec fn pool_after(s: EscrowView, ops: Seq<Op>, token: Address, balance: int) -> int
    decreases ops.len(),
{
    if ops.len() == 0 {
        balance
    } else {
        let prev = ops.drop_last();
        pool_after(s, prev, token, balance) + inflow(ops.last(), token) - outflow(
            run(s, prev),
            ops.last(),
            token,
        )
    }
}

/// Each operation that reads the pool of `token` is handed its true balance, and no
/// refund of an already unlocked package pays out more than the pool holds beyond
/// what is locked.
pub open spec fn pool_respected(s: EscrowView, ops: Seq<Op>, token: Address, balance: int) -> bool
    decreases ops.len(),
{
    if ops.len() == 0 {
        true
    } else {
        let prev = ops.drop_last();
        let t = run(s, prev);
        let pool = pool_after(s, prev, token, balance);
        &&& pool_respected(s, prev, token, balance)
        &&& sees_balance(ops.last(), token, pool)
        &&& t.locked_of(token) + unlocked_refund(t, ops.last(), token) <= pool
    }
}

/// The total that the operations of `ops` newly lock for `token`.
pub open spec fn locked_over(s: EscrowView, ops: Seq<Op>, token: Address) -> int
    decreases ops.len(),
{
    if ops.len() == 0 {
        0
    } else {
        let prev = ops.drop_last();
        locked_over(s, prev, token) + newly_locked(run(s, prev), ops.last(), token)
    }
}

// --- the effect of one operation ---

proof fn lemma_found(s: EscrowView, id: u64)
    requires
        s.has_package(id),
    ensures
        0 <= s.index_of(id) < s.packages.len(),
        s.packages[s.index_of(id)].id == id,
{
}

/// A batch that passes its checks fits its running total in the pool.
proof fn lemma_batch_bounds(s: EscrowView, amounts: Seq<i128>, token: Address, balance: i128, n: int)
    requires
        s.wf(),
        0 <= n <= amounts.len(),
        s.batch_error(amounts, token, balance, n) is None,
    ensures
        prefix_sum(amounts, n) >= 0,
        n > 0 ==> s.locked_of(token) + prefix_sum(amounts, n) <= balance,
    decreases n,
{
    if n > 0 {
        lemma_batch_bounds(s, amounts, token, balance, n - 1);
    }
}

proof fn lemma_create_step_wf(
    s: EscrowView,
    operator: Address,
    id: u64,
    recipient: Address,
    amount: i128,
    token: Address,
    expires_at: u64,
    now: u64,
    balance: i128,
)
    requires
        s.wf(),
    ensures
        s.create_step(operator, id, recipient, amount, token, expires_at, now, balance).0.wf(),
{
    if s.create_error(operator, id, amount, token, expires_at, now, balance) is None {
        s.lemma_create_wf(
            Package {
                id,
                recipient,
                amount,
                token,
                status: PackageStatus::Created,
                created_at: now,
                expires_at,
            },
        );
    }
}

proof fn lemma_batch_step_wf(
    s: EscrowView,
    operator: Address,
    recipients: Seq<Address>,
    amounts: Seq<i128>,
    token: Address,
    expires_in: u64,
    now: u64,
    balance: i128,
)
    requires
        s.wf(),
    ensures
        s.batch_step(operator, recipients, amounts, token, expires_in, now, balance).0.wf(),
{
    let n = amounts.len() as int;
    if s.batch_step(operator, recipients, amounts, token, expires_in, now, balance).1 is Ok {
        lemma_batch_bounds(s, amounts, token, balance, n);
        lemma_bucket_sum_nonneg(s.packages, token, Bucket::Committed);
        s.lemma_batch_wf(recipients, amounts, token, now, (now + expires_in) as u64, balance);
    }
}

proof fn lemma_claim_step_wf(s: EscrowView, caller: Address, id: u64, now: u64)
    requires
        s.wf(),
    ensures
        s.claim_step(caller, id, now).0.wf(),
{
    if s.has_package(id) {
        lemma_found(s, id);
        let i = s.index_of(id);
        if s.packages[i].status == PackageStatus::Created {
            s.lemma_release_wf(i, PackageStatus::Expired);
            s.lemma_release_wf(i, PackageStatus::Claimed);
        }
    }
}

proof fn lemma_disburse_step_wf(s: EscrowView, caller: Address, id: u64)
    requires
        s.wf(),
    ensures
        s.disburse_step(caller, id).0.wf(),
{
    if s.has_package(id) {
        lemma_found(s, id);
        let i = s.index_of(id);
        if s.packages[i].status == PackageStatus::Created {
            s.lemma_release_wf(i, PackageStatus::Claimed);
        }
    }
}

proof fn lemma_cancel_step_wf(
    s: EscrowView,
    caller: Address,
    id: u64,
    now: u64,
    allow_expired: bool,
    inactive: Error,
)
    requires
        s.wf(),
    ensures
        s.cancel_step(caller, id, now, allow_expired, inactive).0.wf(),
{
    if s.has_package(id) {
        lemma_found(s, id);
        let i = s.index_of(id);
        if s.packages[i].status == PackageStatus::Created {
            s.lemma_release_wf(i, PackageStatus::Cancelled);
        }
    }
}

proof fn lemma_refund_step_wf(s: EscrowView, caller: Address, id: u64, now: u64)
    requires
        s.wf(),
    ensures
        s.refund_step(caller, id, now).0.wf(),
{
    if s.has_package(id) {
        lemma_found(s, id);
        let i = s.index_of(id);
        if s.packages[i].status == PackageStatus::Created {
            s.lemma_release_wf(i, PackageStatus::Expired);
            s.release(i, PackageStatus::Expired).lemma_set_status_wf(i, PackageStatus::Refunded);
        } else if !s.packages[i].status.is_terminal() {
            s.lemma_set_status_wf(i, PackageStatus::Refunded);
        }
    }
}

proof fn lemma_extend_step_wf(s: EscrowView, caller: Address, id: u64, additional_time: u64, now: u64)
    requires
        s.wf(),
    ensures
        s.extend_step(caller, id, additional_time, now).0.wf(),
{
    if s.has_package(id) {
        lemma_found(s, id);
        let i = s.index_of(id);
        let p = s.packages[i];
        s.lemma_same_share_wf(i, Package { expires_at: (p.expires_at + additional_time) as u64, ..p });
    }
}

/// Every operation keeps the ledger well formed.
pub proof fn lemma_apply_wf(s: EscrowView, op: Op)
    requires
        s.wf(),
    ensures
        apply(s, op).wf(),
{
    match op {
        Op::Create { operator, id, recipient, amount, token, expires_at, now, balance } => {
            lemma_create_step_wf(s, operator, id, recipient, amount, token, expires_at, now, balance);
        },
        Op::Batch { operator, recipients, amounts, token, expires_in, now, balance } => {
            lemma_batch_step_wf(s, operator, recipients, amounts, token, expires_in, now, balance);
        },
        Op::Claim { caller, id, now } => {
            lemma_claim_step_wf(s, caller, id, now);
        },
        Op::Disburse { caller, id } => {
            lemma_disburse_step_wf(s, caller, id);
        },
        Op::Revoke { caller, id } => {
            lemma_cancel_step_wf(s, caller, id, 0, true, Error::InvalidState);
        },
        Op::Cancel { caller, id, now } => {
            lemma_cancel_step_wf(s, caller, id, now, false, Error::PackageNotActive);
        },
        Op::Refund { caller, id, now } => {
            lemma_refund_step_wf(s, caller, id, now);
        },
        Op::Extend { caller, id, additional_time, now } => {
            lemma_extend_step_wf(s, caller, id, additional_time, now);
        },
        Op::Fund { .. } => {},
        _ => {
            s.lemma_wf_frame(apply(s, op));
        },
    }
}

/// Every sequence of operations keeps the ledger well formed.
pub proof fn lemma_run_wf(s: EscrowView, ops: Seq<Op>)
    requires
        s.wf(),
    ensures
        run(s, ops).wf(),
    decreases ops.len(),
{
    if ops.len() > 0 {
        lemma_run_wf(s, ops.drop_last());
        lemma_apply_wf(run(s, ops.drop_last()), ops.last());
    }
}

// --- terminal statuses ---

/// Whether `s2` keeps the package at `i` of `s` as it was, and every earlier position.
pub open spec fn keeps_package(s: EscrowView, s2: EscrowView, i: int) -> bool {
    &&& s2.packages.len() >= s.packages.len()
    &&& s2.packages[i] == s.packages[i]
}

proof fn lemma_release_keeps(s: EscrowView, j: int, status: PackageStatus, i: int)
    requires
        s.wf(),
        0 <= j < s.packages.len(),
        0 <= i < s.packages.len(),
        s.packages[j].status == PackageStatus::Created,
        status != PackageStatus::Created,
        s.packages[i].status.is_terminal(),
    ensures
        keeps_package(s, s.release(j, status), i),
        s.release(j, status).wf(),
{
    s.lemma_release_wf(j, status);
}

proof fn lemma_claim_keeps(s: EscrowView, caller: Address, id: u64, now: u64, i: int)
    requires
        s.wf(),
        0 <= i < s.packages.len(),
        s.packages[i].status.is_terminal(),
    ensures
        keeps_package(s, s.claim_step(caller, id, now).0, i),
{
    if s.has_package(id) {
        lemma_found(s, id);
        let j = s.index_of(id);
        if s.packages[j].status == PackageStatus::Created {
            lemma_release_keeps(s, j, PackageStatus::Expired, i);
            lemma_release_keeps(s, j, PackageStatus::Claimed, i);
        }
    }
}

proof fn lemma_disburse_keeps(s: EscrowView, caller: Address, id: u64, i: int)
    requires
        s.wf(),
        0 <= i < s.packages.len(),
        s.packages[i].status.is_terminal(),
    ensures
        keeps_package(s, s.disburse_step(caller, id).0, i),
{
    if s.has_package(id) {
        lemma_found(s, id);
        let j = s.index_of(id);
        if s.packages[j].status == PackageStatus::Created {
            lemma_release_keeps(s, j, PackageStatus::Claimed, i);
        }
    }
}

proof fn lemma_cancel_keeps(
    s: EscrowView,
    caller: Address,
    id: u64,
    now: u64,
    allow_expired: bool,
    inactive: Error,
    i: int,
)
    requires
        s.wf(),
        0 <= i < s.packages.len(),
        s.packages[i].status.is_terminal(),
    ensures
        keeps_package(s, s.cancel_step(caller, id, now, allow_expired, inactive).0, i),
{
    if s.has_package(id) {
        lemma_found(s, id);
        let j = s.index_of(id);
        if s.packages[j].status == PackageStatus::Created {
            lemma_release_keeps(s, j, PackageStatus::Cancelled, i);
        }
    }
}

proof fn lemma_refund_keeps(s: EscrowView, caller: Address, id: u64, now: u64, i: int)
    requires
        s.wf(),
        0 <= i < s.packages.len(),
        s.packages[i].status.is_terminal(),
    ensures
        keeps_package(s, s.refund_step(caller, id, now).0, i),
{
    if s.has_package(id) {
        lemma_found(s, id);
        let j = s.index_of(id);
        if s.packages[j].status == PackageStatus::Created {
            lemma_release_keeps(s, j, PackageStatus::Expired, i);
        }
    }
}

proof fn lemma_batch_keeps(
    s: EscrowView,
    operator: Address,
    recipients: Seq<Address>,
    amounts: Seq<i128>,
    token: Address,
    expires_in: u64,
    now: u64,
    balance: i128,
    i: int,
)
    requires
        0 <= i < s.packages.len(),
    ensures
        keeps_package(
            s,
            s.batch_step(operator, recipients, amounts, token, expires_in, now, balance).0,
            i,
        ),
{
    lemma_batch_packages_len(
        s.counter,
        recipients,
        amounts,
        token,
        now,
        (now + expires_in) as u64,
        amounts.len(),
    );
}

/// A package in a terminal status (`Claimed` or `Refunded`) is left exactly as it
/// is by every operation: no operation transitions out of a terminal status.
pub proof fn terminal_status_is_kept(s: EscrowView, op: Op, i: int)
    requires
        s.wf(),
        0 <= i < s.packages.len(),
        s.packages[i].status.is_terminal(),
    ensures
        keeps_package(s, apply(s, op), i),
{
    match op {
        Op::Batch { operator, recipients, amounts, token, expires_in, now, balance } => {
            lemma_batch_keeps(s, operator, recipients, amounts, token, expires_in, now, balance, i);
        },
        Op::Claim { caller, id, now } => {
            lemma_claim_keeps(s, caller, id, now, i);
        },
        Op::Disburse { caller, id } => {
            lemma_disburse_keeps(s, caller, id, i);
        },
        Op::Revoke { caller, id } => {
            lemma_cancel_keeps(s, caller, id, 0, true, Error::InvalidState, i);
        },
        Op::Cancel { caller, id, now } => {
            lemma_cancel_keeps(s, caller, id, now, false, Error::PackageNotActive, i);
        },
        Op::Refund { caller, id, now } => {
            lemma_refund_keeps(s, caller, id, now, i);
        },
        Op::Extend { caller, id, additional_time, now } => {
            if s.has_package(id) {
                lemma_found(s, id);
            }
        },
        _ => {},
    }
}

/// Over any sequence of operations, a package in a terminal status keeps that status
/// and everything else it holds.
pub proof fn terminal_status_is_kept_over_run(s: EscrowView, ops: Seq<Op>, i: int)
    requires
        s.wf(),
        0 <= i < s.packages.len(),
        s.packages[i].status.is_terminal(),
    ensures
        keeps_package(s, run(s, ops), i),
    decreases ops.len(),
{
    if ops.len() > 0 {
        let prev = ops.drop_last();
        terminal_status_is_kept_over_run(s, prev, i);
        lemma_run_wf(s, prev);
        terminal_status_is_kept(run(s, prev), ops.last(), i);
    }
}

// --- no double release ---

/// Whether `op` is a claim or a disbursement of package `id`.
pub open spec fn releases(op: Op, id: u64) -> bool {
    match op {
        Op::Claim { id: x, .. } => x == id,
        Op::Disburse { id: x, .. } => x == id,
        _ => false,
    }
}

/// Once a claim or a disbursement of a package has succeeded, whatever happens next
/// no claim or disbursement of it succeeds again: each fails with `PackageNotActive`,
/// unless an earlier check of the operation (the pause switch for a claim, the
/// administrator for a disbursement) fails first.
pub proof fn no_double_release(
    s: EscrowView,
    first: Op,
    ops: Seq<Op>,
    id: u64,
    caller: Address,
    now: u64,
)
    requires
        s.wf(),
        releases(first, id),
        payout_of(s, first) is Some,
    ensures
        ({
            let t = run(apply(s, first), ops);
            &&& t.claim_step(caller, id, now) == (t, Err::<Payout, Error>(
                if t.paused {
                    Error::ContractPaused
                } else {
                    Error::PackageNotActive
                },
            ))
            &&& t.disburse_step(caller, id) == (t, Err::<Payout, Error>(
                match t.admin_error(caller) {
                    Some(e) => e,
                    None => Error::PackageNotActive,
                },
            ))
        }),
{
    lemma_found(s, id);
    let i = s.index_of(id);
    s.lemma_release_wf(i, PackageStatus::Claimed);
    let s1 = apply(s, first);
    assert(s1 == s.release(i, PackageStatus::Claimed));
    assert(s1.packages[i].status == PackageStatus::Claimed);
    terminal_status_is_kept_over_run(s1, ops, i);
    lemma_run_wf(s1, ops);
    let t = run(s1, ops);
    assert(t.packages[i].id == id);
    t.lemma_index_of(id, i);
}

// --- solvency ---

proof fn lemma_release_locked(s: EscrowView, j: int, status: PackageStatus, token: Address)
    requires
        s.wf(),
        0 <= j < s.packages.len(),
        s.packages[j].status == PackageStatus::Created,
        status != PackageStatus::Created,
    ensures
        s.release(j, status).locked_of(token) == s.locked_of(token) - if s.packages[j].token
            == token {
            s.packages[j].amount as int
        } else {
            0
        },
        s.release(j, status).locked_of(token) <= s.locked_of(token),
{
    s.lemma_release_wf(j, status);
}

proof fn lemma_claim_solvent(s: EscrowView, caller: Address, id: u64, now: u64, token: Address, pool: int)
    requires
        s.wf(),
        s.locked_of(token) <= pool,
    ensures
        ({
            let op = Op::Claim { caller, id, now };
            apply(s, op).locked_of(token) <= pool - outflow(s, op, token)
        }),
{
    if s.has_package(id) {
        lemma_found(s, id);
        let j = s.index_of(id);
        if s.packages[j].status == PackageStatus::Created {
            lemma_release_locked(s, j, PackageStatus::Expired, token);
            lemma_release_locked(s, j, PackageStatus::Claimed, token);
        }
    }
}

proof fn lemma_disburse_solvent(s: EscrowView, caller: Address, id: u64, token: Address, pool: int)
    requires
        s.wf(),
        s.locked_of(token) <= pool,
    ensures
        ({
            let op = Op::Disburse { caller, id };
            apply(s, op).locked_of(token) <= pool - outflow(s, op, token)
        }),
{
    if s.has_package(id) {
        lemma_found(s, id);
        let j = s.index_of(id);
        if s.packages[j].status == PackageStatus::Created {
            lemma_release_locked(s, j, PackageStatus::Claimed, token);
        }
    }
}

proof fn lemma_cancel_solvent(
    s: EscrowView,
    caller: Address,
    id: u64,
    now: u64,
    allow_expired: bool,
    inactive: Error,
    token: Address,
)
    requires
        s.wf(),
    ensures
        s.cancel_step(caller, id, now, allow_expired, inactive).0.locked_of(token) <= s.locked_of(
            token,
        ),
{
    if s.has_package(id) {
        lemma_found(s, id);
        let j = s.index_of(id);
        if s.packages[j].status == PackageStatus::Created {
            lemma_release_locked(s, j, PackageStatus::Cancelled, token);
        }
    }
}

proof fn lemma_refund_solvent(s: EscrowView, caller: Address, id: u64, now: u64, token: Address, pool: int)
    requires
        s.wf(),
        s.locked_of(token) + unlocked_refund(s, Op::Refund { caller, id, now }, token) <= pool,
    ensures
        ({
            let op = Op::Refund { caller, id, now };
            apply(s, op).locked_of(token) <= pool - outflow(s, op, token)
        }),
{
    if s.has_package(id) {
        lemma_found(s, id);
        let j = s.index_of(id);
        if s.packages[j].status == PackageStatus::Created {
            lemma_release_locked(s, j, PackageStatus::Expired, token);
        }
    }
}

proof fn lemma_extend_locked(s: EscrowView, caller: Address, id: u64, additional_time: u64, now: u64, token: Address)
    ensures
        s.extend_step(caller, id, additional_time, now).0.locked_of(token) == s.locked_of(token),
{
}

proof fn lemma_create_solvent(
    s: EscrowView,
    operator: Address,
    id: u64,
    recipient: Address,
    amount: i128,
    t: Address,
    expires_at: u64,
    now: u64,
    balance: i128,
    token: Address,
    pool: int,
)
    requires
        s.wf(),
        s.locked_of(token) <= pool,
        t == token ==> balance == pool,
    ensures
        s.create_step(operator, id, recipient, amount, t, expires_at, now, balance).0.locked_of(
            token,
        ) <= pool,
{
}

proof fn lemma_batch_solvent(
    s: EscrowView,
    operator: Address,
    recipients: Seq<Address>,
    amounts: Seq<i128>,
    t: Address,
    expires_in: u64,
    now: u64,
    balance: i128,
    token: Address,
    pool: int,
)
    requires
        s.wf(),
        s.locked_of(token) <= pool,
        t == token ==> balance == pool,
    ensures
        s.batch_step(operator, recipients, amounts, t, expires_in, now, balance).0.locked_of(token)
            <= pool,
{
    if s.batch_step(operator, recipients, amounts, t, expires_in, now, balance).1 is Ok {
        lemma_batch_bounds(s, amounts, t, balance, amounts.len() as int);
    }
}

/// One operation keeps what is locked for `token` within the pool: if the locked
/// amount is at most the pool balance before, and the operation is handed the true
/// balance where it reads it, then after it the locked amount is at most the pool
/// plus what the operation paid in, less what it paid out. The one case where this
/// does not hold is the refund of a package that was unlocked earlier (cancelled or
/// expired) when the pool holds less than the locked amount plus the refund; that
/// case is left out.
pub proof fn solvency_is_kept(s: EscrowView, op: Op, token: Address, pool: int)
    requires
        s.wf(),
        sees_balance(op, token, pool),
        s.locked_of(token) + unlocked_refund(s, op, token) <= pool,
    ensures
        apply(s, op).locked_of(token) <= pool + inflow(op, token) - outflow(s, op, token),
{
    match op {
        Op::Create { operator, id, recipient, amount, token: t, expires_at, now, balance } => {
            lemma_create_solvent(
                s,
                operator,
                id,
                recipient,
                amount,
                t,
                expires_at,
                now,
                balance,
                token,
                pool,
            );
        },
        Op::Batch { operator, recipients, amounts, token: t, expires_in, now, balance } => {
            lemma_batch_solvent(
                s,
                operator,
                recipients,
                amounts,
                t,
                expires_in,
                now,
                balance,
                token,
                pool,
            );
        },
        Op::Claim { caller, id, now } => {
            lemma_claim_solvent(s, caller, id, now, token, pool);
        },
        Op::Disburse { caller, id } => {
            lemma_disburse_solvent(s, caller, id, token, pool);
        },
        Op::Revoke { caller, id } => {
            lemma_cancel_solvent(s, caller, id, 0, true, Error::InvalidState, token);
        },
        Op::Cancel { caller, id, now } => {
            lemma_cancel_solvent(s, caller, id, now, false, Error::PackageNotActive, token);
        },
        Op::Refund { caller, id, now } => {
            lemma_refund_solvent(s, caller, id, now, token, pool);
        },
        Op::Extend { caller, id, additional_time, now } => {
            lemma_extend_locked(s, caller, id, additional_time, now, token);
        },
        _ => {},
    }
}

/// Over any sequence of operations that are handed the true pool balance, the
/// amount locked for `token` never exceeds that balance, save for refunds of
/// already unlocked packages beyond what the pool holds (see `solvency_is_kept`).
pub proof fn solvency_over_run(s: EscrowView, ops: Seq<Op>, token: Address, balance: int)
    requires
        s.wf(),
        s.locked_of(token) <= balance,
        pool_respected(s, ops, token, balance),
    ensures
        run(s, ops).locked_of(token) <= pool_after(s, ops, token, balance),
    decreases ops.len(),
{
    if ops.len() > 0 {
        let prev = ops.drop_last();
        solvency_over_run(s, prev, token, balance);
        lemma_run_wf(s, prev);
        solvency_is_kept(run(s, prev), ops.last(), token, pool_after(s, prev, token, balance));
    }
}

// --- batch atomicity ---

/// A batch that fails leaves the ledger as it was: no package of it is stored and
/// nothing more is locked.
pub proof fn failed_batch_changes_nothing(
    s: EscrowView,
    operator: Address,
    recipients: Seq<Address>,
    amounts: Seq<i128>,
    token: Address,
    expires_in: u64,
    now: u64,
    balance: i128,
)
    ensures
        s.batch_step(operator, recipients, amounts, token, expires_in, now, balance).1 is Err
            ==> s.batch_step(operator, recipients, amounts, token, expires_in, now, balance).0 == s,
{
}

// --- aggregation ---

proof fn lemma_issued_sum_update(ps: Seq<Package>, i: int, q: Package, t: Address)
    requires
        0 <= i < ps.len(),
        q.token == ps[i].token,
        q.amount == ps[i].amount,
    ensures
        issued_sum(ps.update(i, q), t) == issued_sum(ps, t),
    decreases ps.len(),
{
    let qs = ps.update(i, q);
    if i == ps.len() - 1 {
        assert(qs.drop_last() =~= ps.drop_last());
    } else {
        assert(qs.drop_last() =~= ps.drop_last().update(i, q));
        lemma_issued_sum_update(ps.drop_last(), i, q, t);
    }
}

proof fn lemma_release_issued(s: EscrowView, j: int, status: PackageStatus, t: Address)
    requires
        0 <= j < s.packages.len(),
    ensures
        issued_sum(s.release(j, status).packages, t) == issued_sum(s.packages, t),
        issued_sum(s.set_status(j, status).packages, t) == issued_sum(s.packages, t),
{
    lemma_issued_sum_update(s.packages, j, s.packages[j].with_status(status), t);
}

proof fn lemma_issued_after_batch(
    s: EscrowView,
    operator: Address,
    recipients: Seq<Address>,
    amounts: Seq<i128>,
    token: Address,
    expires_in: u64,
    now: u64,
    balance: i128,
    t: Address,
)
    ensures
        ({
            let r = s.batch_step(operator, recipients, amounts, token, expires_in, now, balance);
            issued_sum(r.0.packages, t) == issued_sum(s.packages, t) + if t == token && r.1 is Ok {
                prefix_sum(amounts, amounts.len() as int)
            } else {
                0
            }
        }),
{
    let r = s.batch_step(operator, recipients, amounts, token, expires_in, now, balance);
    if r.1 is Ok {
        let fresh = batch_packages(
            s.counter,
            recipients,
            amounts,
            token,
            now,
            (now + expires_in) as u64,
            amounts.len(),
        );
        lemma_buckets_cover_issued(s.packages, t);
        lemma_buckets_cover_issued(s.packages + fresh, t);
        lemma_bucket_sum_append(s.packages, fresh, t, Bucket::Committed);
        lemma_bucket_sum_append(s.packages, fresh, t, Bucket::Claimed);
        lemma_bucket_sum_append(s.packages, fresh, t, Bucket::Closed);
        let n = amounts.len();
        let e = (now + expires_in) as u64;
        lemma_batch_packages_sum(s.counter, recipients, amounts, token, now, e, n, t, Bucket::Committed);
        lemma_batch_packages_sum(s.counter, recipients, amounts, token, now, e, n, t, Bucket::Claimed);
        lemma_batch_packages_sum(s.counter, recipients, amounts, token, now, e, n, t, Bucket::Closed);
    }
}

proof fn lemma_release_op_issued(s: EscrowView, op: Op, t: Address)
    requires
        s.wf(),
        op is Claim || op is Disburse || op is Revoke || op is Cancel || op is Refund || op is Extend,
    ensures
        issued_sum(apply(s, op).packages, t) == issued_sum(s.packages, t),
{
    let id = match op {
        Op::Claim { id, .. } => id,
        Op::Disburse { id, .. } => id,
        Op::Revoke { id, .. } => id,
        Op::Cancel { id, .. } => id,
        Op::Refund { id, .. } => id,
        Op::Extend { id, .. } => id,
        _ => 0,
    };
    if s.has_package(id) {
        lemma_found(s, id);
        let j = s.index_of(id);
        let p = s.packages[j];
        lemma_release_issued(s, j, PackageStatus::Expired, t);
        lemma_release_issued(s, j, PackageStatus::Claimed, t);
        lemma_release_issued(s, j, PackageStatus::Cancelled, t);
        lemma_release_issued(s, j, PackageStatus::Refunded, t);
        lemma_release_issued(s.release(j, PackageStatus::Expired), j, PackageStatus::Refunded, t);
        if let Op::Extend { additional_time, .. } = op {
            lemma_issued_sum_update(
                s.packages,
                j,
                Package { expires_at: (p.expires_at + additional_time) as u64, ..p },
                t,
            );
        }
    }
}

/// One operation adds to the total issued for `t` exactly what it newly locks.
proof fn lemma_issued_step(s: EscrowView, op: Op, t: Address)
    requires
        s.wf(),
    ensures
        issued_sum(apply(s, op).packages, t) == issued_sum(s.packages, t) + newly_locked(s, op, t),
{
    match op {
        Op::Create { operator, id, recipient, amount, token, expires_at, now, balance } => {
            lemma_issued_sum_push(
                s.packages,
                Package {
                    id,
                    recipient,
                    amount,
                    token,
                    status: PackageStatus::Created,
                    created_at: now,
                    expires_at,
                },
                t,
            );
        },
        Op::Batch { operator, recipients, amounts, token, expires_in, now, balance } => {
            lemma_issued_after_batch(s, operator, recipients, amounts, token, expires_in, now, balance, t);
        },
        Op::Claim { .. } => {
            lemma_release_op_issued(s, op, t);
        },
        Op::Disburse { .. } => {
            lemma_release_op_issued(s, op, t);
        },
        Op::Revoke { .. } => {
            lemma_release_op_issued(s, op, t);
        },
        Op::Cancel { .. } => {
            lemma_release_op_issued(s, op, t);
        },
        Op::Refund { .. } => {
            lemma_release_op_issued(s, op, t);
        },
        Op::Extend { .. } => {
            lemma_release_op_issued(s, op, t);
        },
        _ => {},
    }
}

proof fn lemma_issued_over_run(s: EscrowView, ops: Seq<Op>, t: Address)
    requires
        s.wf(),
    ensures
        issued_sum(run(s, ops).packages, t) == issued_sum(s.packages, t) + locked_over(s, ops, t),
    decreases ops.len(),
{
    if ops.len() > 0 {
        let prev = ops.drop_last();
        lemma_issued_over_run(s, prev, t);
        lemma_run_wf(s, prev);
        lemma_issued_step(run(s, prev), ops.last(), t);
    }
}

/// A ledger that was never initialised is well formed.
pub proof fn empty_is_wf()
    ensures
        EscrowView::empty().wf(),
{
    let s = EscrowView::empty();
    assert forall|t: Address| #[trigger] s.locked_of(t) == bucket_sum(s.packages, t, Bucket::Committed) by {
    }
}

/// For every asset and after any sequence of operations on a new ledger, the
/// committed, claimed and expired-or-cancelled sums together equal the total amount
/// ever locked for that asset.
pub proof fn aggregates_account_for_all_locked(ops: Seq<Op>, token: Address)
    ensures
        ({
            let t = run(EscrowView::empty(), ops);
            bucket_sum(t.packages, token, Bucket::Committed) + bucket_sum(
                t.packages,
                token,
                Bucket::Claimed,
            ) + bucket_sum(t.packages, token, Bucket::Closed) == locked_over(
                EscrowView::empty(),
                ops,
                token,
            )
        }),
{
    empty_is_wf();
    lemma_issued_over_run(EscrowView::empty(), ops, token);
    lemma_buckets_cover_issued(run(EscrowView::empty(), ops).packages, token);
}

} // verus!
