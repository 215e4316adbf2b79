use std::collections::HashMap;

use aid_escrow::{Address, Aggregates, AidEscrow, Error, Package, Payout};

/// The escrow ledger together with a token ledger and a clock, standing in for the
/// host that runs it. Every authorization succeeds, as under mocked auths.
#[allow(dead_code)]
struct Host {
    escrow: AidEscrow,
    pool: Address,
    balances: HashMap<(Address, Address), i128>,
    now: u64,
    next: u64,
}

#[allow(dead_code)]
impl Host {
    fn new() -> Host {
        Host {
            escrow: AidEscrow::new(),
            pool: Address(1),
            balances: HashMap::new(),
            now: 0,
            next: 100_000,
        }
    }

    fn generate(&mut self) -> Address {
        self.next += 1;
        Address(self.next)
    }

    fn balance(&self, token: Address, who: Address) -> i128 {
        *self.balances.get(&(token, who)).unwrap_or(&0)
    }

    fn mint(&mut self, token: Address, to: Address, amount: i128) {
        *self.balances.entry((token, to)).or_insert(0) += amount;
    }

    fn transfer(&mut self, token: Address, from: Address, to: Address, amount: i128) {
        assert!(self.balance(token, from) >= amount, "balance too low");
        *self.balances.entry((token, from)).or_insert(0) -= amount;
        *self.balances.entry((token, to)).or_insert(0) += amount;
    }

    fn pay(&mut self, p: Payout) {
        let pool = self.pool;
        self.transfer(p.token, pool, p.to, p.amount);
    }

    fn admin(&self) -> Address {
        self.escrow.get_admin().unwrap()
    }

    fn init(&mut self, admin: Address) -> Result<(), Error> {
        self.escrow.init(admin)
    }

    fn fund(&mut self, token: Address, from: Address, amount: i128) -> Result<(), Error> {
        self.escrow.fund(token, from, amount)?;
        let pool = self.pool;
        self.transfer(token, from, pool, amount);
        Ok(())
    }

    fn create_package(
        &mut self,
        operator: Address,
        id: u64,
        recipient: Address,
        amount: i128,
        token: Address,
        expires_at: u64,
    ) -> Result<u64, Error> {
        let balance = self.balance(token, self.pool);
        self.escrow.create_package(operator, id, recipient, amount, token, expires_at, self.now, balance)
    }

    fn batch_create_packages(
        &mut self,
        operator: Address,
        recipients: Vec<Address>,
        amounts: Vec<i128>,
        token: Address,
        expires_in: u64,
    ) -> Result<Vec<u64>, Error> {
        let balance = self.balance(token, self.pool);
        self.escrow.batch_create_packages(operator, recipients, amounts, token, expires_in, self.now, balance)
    }

    fn get_package(&self, id: u64) -> Result<Package, Error> {
        self.escrow.get_package(id)
    }

    fn claim(&mut self, id: u64) -> Result<(), Error> {
        let caller = self.escrow.get_package(id).map(|p| p.recipient).unwrap_or(Address(0));
        let payout = self.escrow.claim(caller, id, self.now)?;
        self.pay(payout);
        Ok(())
    }

    fn disburse(&mut self, id: u64) -> Result<(), Error> {
        let admin = self.admin();
        let payout = self.escrow.disburse(admin, id)?;
        self.pay(payout);
        Ok(())
    }

    fn revoke(&mut self, id: u64) -> Result<(), Error> {
        let admin = self.admin();
        self.escrow.revoke(admin, id)
    }

    fn cancel_package(&mut self, id: u64) -> Result<(), Error> {
        let admin = self.admin();
        self.escrow.cancel_package(admin, id, self.now)
    }

    fn refund(&mut self, id: u64) -> Result<(), Error> {
        let admin = self.admin();
        let payout = self.escrow.refund(admin, id, self.now)?;
        self.pay(payout);
        Ok(())
    }

    fn extend_expiration(&mut self, id: u64, additional_time: u64) -> Result<(), Error> {
        let admin = self.admin();
        self.escrow.extend_expiration(admin, id, additional_time, self.now)
    }
}

/// A ledger with an administrator and a pool funded with `fund_amount` of one token.
fn setup_funded(fund_amount: i128) -> (Host, Address, Address) {
    let mut h = Host::new();
    let admin = h.generate();
    let token = h.generate();
    h.init(admin).unwrap();
    h.mint(token, admin, fund_amount * 2);
    h.fund(token, admin, fund_amount).unwrap();
    (h, token, admin)
}

#[test]
fn test_aggregates_no_packages() {
    let (h, token, _admin) = setup_funded(10_000);
    let agg = h.escrow.get_aggregates(token);
    assert_eq!(agg, Aggregates { total_committed: 0, total_claimed: 0, total_expired_cancelled: 0 });
}

#[test]
fn test_aggregates_single_created_package() {
    let (mut h, token, admin) = setup_funded(10_000);
    let recipient = h.generate();
    let expiry = h.now + 86400;
    h.create_package(admin, 1, recipient, 2000, token, expiry).unwrap();

    let agg = h.escrow.get_aggregates(token);
    assert_eq!(agg.total_committed, 2000);
    assert_eq!(agg.total_claimed, 0);
    assert_eq!(agg.total_expired_cancelled, 0);
}

#[test]
fn test_aggregates_mixed_statuses() {
    let (mut h, token, admin) = setup_funded(10_000);
    let r1 = h.generate();
    let r2 = h.generate();
    let r3 = h.generate();
    let r4 = h.generate();

    let start_time = 1000u64;
    h.now = start_time;
    let expiry = start_time + 86400;
    let short_expiry = start_time + 100;

    h.create_package(admin, 1, r1, 1000, token, expiry).unwrap();

    h.create_package(admin, 2, r2, 2000, token, expiry).unwrap();
    h.claim(2).unwrap();

    h.create_package(admin, 3, r3, 500, token, expiry).unwrap();
    h.revoke(3).unwrap();

    h.create_package(admin, 4, r4, 750, token, short_expiry).unwrap();
    h.now = short_expiry + 1;
    h.refund(4).unwrap();

    let agg = h.escrow.get_aggregates(token);
    assert_eq!(agg.total_committed, 1000);
    assert_eq!(agg.total_claimed, 2000);
    assert_eq!(agg.total_expired_cancelled, 1250);
}

#[test]
fn test_aggregates_all_claimed() {
    let (mut h, token, admin) = setup_funded(10_000);
    let r1 = h.generate();
    let r2 = h.generate();
    let expiry = h.now + 86400;

    h.create_package(admin, 10, r1, 3000, token, expiry).unwrap();
    h.create_package(admin, 11, r2, 4000, token, expiry).unwrap();
    h.claim(10).unwrap();
    h.claim(11).unwrap();

    let agg = h.escrow.get_aggregates(token);
    assert_eq!(agg.total_committed, 0);
    assert_eq!(agg.total_claimed, 7000);
    assert_eq!(agg.total_expired_cancelled, 0);
}

#[test]
fn test_aggregates_all_cancelled() {
    let (mut h, token, admin) = setup_funded(10_000);
    let r1 = h.generate();
    let r2 = h.generate();
    let expiry = h.now + 86400;

    h.create_package(admin, 20, r1, 1500, token, expiry).unwrap();
    h.create_package(admin, 21, r2, 2500, token, expiry).unwrap();
    h.cancel_package(20).unwrap();
    h.cancel_package(21).unwrap();

    let agg = h.escrow.get_aggregates(token);
    assert_eq!(agg.total_committed, 0);
    assert_eq!(agg.total_claimed, 0);
    assert_eq!(agg.total_expired_cancelled, 4000);
}

#[test]
fn test_aggregates_filters_by_token() {
    let mut h = Host::new();
    let admin = h.generate();
    let token_a = h.generate();
    let token_b = h.generate();
    h.init(admin).unwrap();

    h.mint(token_a, admin, 20_000);
    h.mint(token_b, admin, 20_000);
    h.fund(token_a, admin, 10_000).unwrap();
    h.fund(token_b, admin, 10_000).unwrap();

    let r1 = h.generate();
    let r2 = h.generate();
    let expiry = h.now + 86400;

    h.create_package(admin, 1, r1, 3000, token_a, expiry).unwrap();
    h.create_package(admin, 2, r2, 2000, token_a, expiry).unwrap();
    h.claim(2).unwrap();

    h.create_package(admin, 3, r1, 5000, token_b, expiry).unwrap();
    h.revoke(3).unwrap();

    let agg_a = h.escrow.get_aggregates(token_a);
    assert_eq!(agg_a.total_committed, 3000);
    assert_eq!(agg_a.total_claimed, 2000);
    assert_eq!(agg_a.total_expired_cancelled, 0);

    let agg_b = h.escrow.get_aggregates(token_b);
    assert_eq!(agg_b.total_committed, 0);
    assert_eq!(agg_b.total_claimed, 0);
    assert_eq!(agg_b.total_expired_cancelled, 5000);
}

#[test]
fn test_aggregates_unknown_token() {
    let (mut h, token, admin) = setup_funded(10_000);
    let r = h.generate();
    let expiry = h.now + 86400;
    h.create_package(admin, 1, r, 1000, token, expiry).unwrap();

    let unknown_token = h.generate();
    let agg = h.escrow.get_aggregates(unknown_token);
    assert_eq!(agg.total_committed, 0);
    assert_eq!(agg.total_claimed, 0);
    assert_eq!(agg.total_expired_cancelled, 0);
}

#[test]
fn test_aggregates_disburse_counts_as_claimed() {
    let (mut h, token, admin) = setup_funded(10_000);
    let r1 = h.generate();
    let r2 = h.generate();
    let expiry = h.now + 86400;

    h.create_package(admin, 1, r1, 1000, token, expiry).unwrap();
    h.claim(1).unwrap();

    h.create_package(admin, 2, r2, 2000, token, expiry).unwrap();
    h.disburse(2).unwrap();

    let agg = h.escrow.get_aggregates(token);
    assert_eq!(agg.total_committed, 0);
    assert_eq!(agg.total_claimed, 3000);
    assert_eq!(agg.total_expired_cancelled, 0);
}

#[test]
fn test_aggregates_many_packages() {
    let (mut h, token, admin) = setup_funded(100_000);
    let expiry = h.now + 86400;

    for i in 0u64..10 {
        let r = h.generate();
        h.create_package(admin, i, r, 1000, token, expiry).unwrap();
        if i % 2 == 0 {
            h.claim(i).unwrap();
        } else {
            h.cancel_package(i).unwrap();
        }
    }

    let agg = h.escrow.get_aggregates(token);
    assert_eq!(agg.total_committed, 0);
    assert_eq!(agg.total_claimed, 5000);
    assert_eq!(agg.total_expired_cancelled, 5000);
}

#[test]
fn test_aggregates_update_after_transitions() {
    let (mut h, token, admin) = setup_funded(10_000);
    let r = h.generate();
    let expiry = h.now + 86400;

    h.create_package(admin, 1, r, 3000, token, expiry).unwrap();
    let agg1 = h.escrow.get_aggregates(token);
    assert_eq!(agg1.total_committed, 3000);
    assert_eq!(agg1.total_claimed, 0);
    assert_eq!(agg1.total_expired_cancelled, 0);

    h.claim(1).unwrap();
    let agg2 = h.escrow.get_aggregates(token);
    assert_eq!(agg2.total_committed, 0);
    assert_eq!(agg2.total_claimed, 3000);
    assert_eq!(agg2.total_expired_cancelled, 0);
}

#[test]
fn test_aggregates_revoke_then_refund() {
    let (mut h, token, admin) = setup_funded(10_000);
    let r = h.generate();
    let expiry = h.now + 86400;

    h.create_package(admin, 1, r, 4000, token, expiry).unwrap();
    let agg1 = h.escrow.get_aggregates(token);
    assert_eq!(agg1.total_committed, 4000);

    h.revoke(1).unwrap();
    let agg2 = h.escrow.get_aggregates(token);
    assert_eq!(agg2.total_committed, 0);
    assert_eq!(agg2.total_expired_cancelled, 4000);

    h.refund(1).unwrap();
    let agg3 = h.escrow.get_aggregates(token);
    assert_eq!(agg3.total_committed, 0);
    assert_eq!(agg3.total_claimed, 0);
    assert_eq!(agg3.total_expired_cancelled, 4000);
}
