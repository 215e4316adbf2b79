use std::collections::HashMap;

use aid_escrow::{Address, AidEscrow, Config, Error, Package, PackageStatus, Payout};

/// The escrow ledger together with a token ledger and a clock, standing in for the
/// host that runs it. Every authorization succeeds, as under mocked auths.
#[allow(dead_code)]
struct Host {
    escrow: AidEscrow,
    pool: Address,
    balances: HashMap<(Address, Address), i128>,
    now: u64,
    next: u64,
}

#[allow(dead_code)]
impl Host {
    fn new() -> Host {
        Host {
            escrow: AidEscrow::new(),
            pool: Address(1),
            balances: HashMap::new(),
            now: 0,
            next: 100_000,
        }
    }

    fn generate(&mut self) -> Address {
        self.next += 1;
        Address(self.next)
    }

    fn balance(&self, token: Address, who: Address) -> i128 {
        *self.balances.get(&(token, who)).unwrap_or(&0)
    }

    fn mint(&mut self, token: Address, to: Address, amount: i128) {
        *self.balances.entry((token, to)).or_insert(0) += amount;
    }

    fn transfer(&mut self, token: Address, from: Address, to: Address, amount: i128) {
        assert!(self.balance(token, from) >= amount, "balance too low");
        *self.balances.entry((token, from)).or_insert(0) -= amount;
        *self.balances.entry((token, to)).or_insert(0) += amount;
    }

    fn pay(&mut self, p: Payout) {
        let pool = self.pool;
        self.transfer(p.token, pool, p.to, p.amount);
    }

    fn admin(&self) -> Address {
        self.escrow.get_admin().unwrap()
    }

    fn init(&mut self, admin: Address) -> Result<(), Error> {
        self.escrow.init(admin)
    }

    fn fund(&mut self, token: Address, from: Address, amount: i128) -> Result<(), Error> {
        self.escrow.fund(token, from, amount)?;
        let pool = self.pool;
        self.transfer(token, from, pool, amount);
        Ok(())
    }

    fn create_package(
        &mut self,
        operator: Address,
        id: u64,
        recipient: Address,
        amount: i128,
        token: Address,
        expires_at: u64,
    ) -> Result<u64, Error> {
        let balance = self.balance(token, self.pool);
        self.escrow.create_package(operator, id, recipient, amount, token, expires_at, self.now, balance)
    }

    fn batch_create_packages(
        &mut self,
        operator: Address,
        recipients: Vec<Address>,
        amounts: Vec<i128>,
        token: Address,
        expires_in: u64,
    ) -> Result<Vec<u64>, Error> {
        let balance = self.balance(token, self.pool);
        self.escrow.batch_create_packages(operator, recipients, amounts, token, expires_in, self.now, balance)
    }

    fn get_package(&self, id: u64) -> Result<Package, Error> {
        self.escrow.get_package(id)
    }

    fn claim(&mut self, id: u64) -> Result<(), Error> {
        let caller = self.escrow.get_package(id).map(|p| p.recipient).unwrap_or(Address(0));
        let payout = self.escrow.claim(caller, id, self.now)?;
        self.pay(payout);
        Ok(())
    }

    fn disburse(&mut self, id: u64) -> Result<(), Error> {
        let admin = self.admin();
        let payout = self.escrow.disburse(admin, id)?;
        self.pay(payout);
        Ok(())
    }

    fn revoke(&mut self, id: u64) -> Result<(), Error> {
        let admin = self.admin();
        self.escrow.revoke(admin, id)
    }

    fn cancel_package(&mut self, id: u64) -> Result<(), Error> {
        let admin = self.admin();
        self.escrow.cancel_package(admin, id, self.now)
    }

    fn refund(&mut self, id: u64) -> Result<(), Error> {
        let admin = self.admin();
        let payout = self.escrow.refund(admin, id, self.now)?;
        self.pay(payout);
        Ok(())
    }

    fn extend_expiration(&mut self, id: u64, additional_time: u64) -> Result<(), Error> {
        let admin = self.admin();
        self.escrow.extend_expiration(admin, id, additional_time, self.now)
    }
}

#[test]
fn test_core_flow_fund_create_claim() {
    let mut h = Host::new();
    let admin = h.generate();
    let recipient = h.generate();
    let token = h.generate();
    h.init(admin).unwrap();
    h.mint(token, admin, 10_000);

    h.fund(token, admin, 5000).unwrap();
    assert_eq!(h.balance(token, h.pool), 5000);

    let pkg_id = 101;
    let expiry = h.now + 86400;
    h.create_package(admin, pkg_id, recipient, 1000, token, expiry).unwrap();

    let pkg = h.get_package(pkg_id).unwrap();
    assert_eq!(pkg.status, PackageStatus::Created);
    assert_eq!(pkg.amount, 1000);

    h.claim(pkg_id).unwrap();

    let pkg_claimed = h.get_package(pkg_id).unwrap();
    assert_eq!(pkg_claimed.status, PackageStatus::Claimed);
    assert_eq!(h.balance(token, recipient), 1000);
    assert_eq!(h.balance(token, h.pool), 4000);
}

#[test]
fn test_solvency_check() {
    let mut h = Host::new();
    let admin = h.generate();
    let recipient = h.generate();
    let token = h.generate();
    h.init(admin).unwrap();
    h.mint(token, admin, 1000);
    h.fund(token, admin, 1000).unwrap();

    let res = h.create_package(admin, 1, recipient, 2000, token, 0);
    assert_eq!(res, Err(Error::InsufficientFunds));

    h.create_package(admin, 2, recipient, 1000, token, 0).unwrap();

    let res2 = h.create_package(admin, 3, recipient, 1, token, 0);
    assert_eq!(res2, Err(Error::InsufficientFunds));
}

#[test]
fn test_expiry_and_refund() {
    let mut h = Host::new();
    let admin = h.generate();
    let recipient = h.generate();
    let token = h.generate();
    h.init(admin).unwrap();
    h.mint(token, admin, 1000);
    h.fund(token, admin, 1000).unwrap();

    let start_time = 1000;
    h.now = start_time;
    let pkg_id = 1;
    let expiry = start_time + 100;
    h.create_package(admin, pkg_id, recipient, 500, token, expiry).unwrap();

    h.now = expiry + 1;

    let claim_res = h.claim(pkg_id);
    assert_eq!(claim_res, Err(Error::PackageExpired));

    assert_eq!(h.balance(token, admin), 0);

    h.refund(pkg_id).unwrap();

    assert_eq!(h.balance(token, admin), 500);

    let pkg = h.get_package(pkg_id).unwrap();
    assert_eq!(pkg.status, PackageStatus::Refunded);
}

#[test]
fn test_revoke_flow() {
    let mut h = Host::new();
    let admin = h.generate();
    let recipient = h.generate();
    let token = h.generate();
    h.init(admin).unwrap();
    h.mint(token, admin, 1000);
    h.fund(token, admin, 1000).unwrap();

    let pkg_id = 1;
    h.create_package(admin, pkg_id, recipient, 500, token, 0).unwrap();

    h.revoke(pkg_id).unwrap();

    let pkg = h.get_package(pkg_id).unwrap();
    assert_eq!(pkg.status, PackageStatus::Cancelled);

    // The revoked amount is back in the pool, so the whole balance can be committed.
    let pkg_id_2 = 2;
    h.create_package(admin, pkg_id_2, recipient, 1000, token, 0).unwrap();
}

#[test]
fn test_cancel_package_comprehensive() {
    let mut h = Host::new();
    let admin = h.generate();
    let recipient = h.generate();
    let token = h.generate();
    h.init(admin).unwrap();
    h.mint(token, admin, 2000);
    h.fund(token, admin, 2000).unwrap();

    let pkg_id = 1;
    h.create_package(admin, pkg_id, recipient, 1000, token, 0).unwrap();

    h.cancel_package(pkg_id).unwrap();
    let pkg = h.get_package(pkg_id).unwrap();
    assert_eq!(pkg.status, PackageStatus::Cancelled);

    let res = h.cancel_package(pkg_id);
    assert_eq!(res, Err(Error::PackageNotActive));

    let pkg_id_2 = 2;
    h.create_package(admin, pkg_id_2, recipient, 1000, token, 0).unwrap();
    h.claim(pkg_id_2).unwrap();

    let res_claim = h.cancel_package(pkg_id_2);
    assert_eq!(res_claim, Err(Error::PackageNotActive));
}

#[test]
fn test_admin_adds_and_removes_distributor() {
    let mut h = Host::new();
    let admin = h.generate();
    let distributor = h.generate();
    let recipient = h.generate();
    let token = h.generate();
    h.init(admin).unwrap();
    h.mint(token, admin, 2_000);
    h.fund(token, admin, 2_000).unwrap();

    h.escrow.add_distributor(admin, distributor).unwrap();

    let pkg_id = 1;
    h.create_package(distributor, pkg_id, recipient, 1_000, token, 0).unwrap();
    let pkg = h.get_package(pkg_id).unwrap();
    assert_eq!(pkg.status, PackageStatus::Created);

    h.escrow.remove_distributor(admin, distributor).unwrap();
    let res = h.create_package(distributor, 2, recipient, 100, token, 0);
    assert_eq!(res, Err(Error::NotAuthorized));
}

#[test]
fn test_non_distributor_cannot_create_package() {
    let mut h = Host::new();
    let admin = h.generate();
    let non_distributor = h.generate();
    let recipient = h.generate();
    let token = h.generate();
    h.init(admin).unwrap();
    h.mint(token, admin, 1_000);
    h.fund(token, admin, 1_000).unwrap();

    let res = h.create_package(non_distributor, 1, recipient, 500, token, 0);
    assert_eq!(res, Err(Error::NotAuthorized));
}

#[test]
fn test_view_package_status() {
    let mut h = Host::new();
    let admin = h.generate();
    let recipient = h.generate();
    let token = h.generate();
    h.init(admin).unwrap();
    h.mint(token, admin, 10_000);
    h.fund(token, admin, 5000).unwrap();

    let result = h.escrow.view_package_status(999);
    assert_eq!(result, Err(Error::PackageNotFound));

    let pkg_id = 1;
    let expires_at = h.now + 86400;
    h.create_package(admin, pkg_id, recipient, 1000, token, expires_at).unwrap();

    let status = h.escrow.view_package_status(pkg_id).unwrap();
    assert_eq!(status, PackageStatus::Created);

    h.claim(pkg_id).unwrap();

    let status_after_claim = h.escrow.view_package_status(pkg_id).unwrap();
    assert_eq!(status_after_claim, PackageStatus::Claimed);
}

#[test]
fn test_integration_flow() {
    let mut h = Host::new();
    let admin = h.generate();
    let recipient = h.generate();
    let token = h.generate();
    h.init(admin).unwrap();
    assert_eq!(h.escrow.get_admin(), Ok(admin));
    h.mint(token, admin, 10_000);
    h.fund(token, admin, 5000).unwrap();
    assert_eq!(h.balance(token, h.pool), 5000);

    let pkg_id = 0;
    let expires_at = h.now + 86400;
    let returned_id = h.create_package(admin, pkg_id, recipient, 1000, token, expires_at).unwrap();
    assert_eq!(returned_id, pkg_id);

    let package = h.get_package(pkg_id).unwrap();
    assert_eq!(package.recipient, recipient);
    assert_eq!(package.amount, 1000);
    assert_eq!(package.token, token);
    assert_eq!(package.status, PackageStatus::Created);

    h.claim(pkg_id).unwrap();
    let package = h.get_package(pkg_id).unwrap();
    assert_eq!(package.status, PackageStatus::Claimed);
    assert_eq!(h.balance(token, recipient), 1000);
    assert_eq!(h.balance(token, h.pool), 4000);
}

#[test]
fn test_multiple_packages() {
    let mut h = Host::new();
    let admin = h.generate();
    let recipient1 = h.generate();
    let recipient2 = h.generate();
    let token = h.generate();
    h.init(admin).unwrap();
    h.mint(token, admin, 10_000);
    h.fund(token, admin, 5000).unwrap();
    assert_eq!(h.balance(token, h.pool), 5000);

    let id1 = 100;
    let id2 = 101;
    let expiry = h.now + 86400;
    h.create_package(admin, id1, recipient1, 500, token, expiry).unwrap();
    h.create_package(admin, id2, recipient2, 1000, token, expiry).unwrap();

    let p1 = h.get_package(id1).unwrap();
    let p2 = h.get_package(id2).unwrap();
    assert_eq!(p1.recipient, recipient1);
    assert_eq!(p2.recipient, recipient2);
    assert_eq!(p1.amount, 500);
    assert_eq!(p2.amount, 1000);
    assert_eq!(h.balance(token, h.pool), 5000);
}

#[test]
fn test_error_cases() {
    let mut h = Host::new();
    let admin = h.generate();
    let recipient = h.generate();
    let token = h.generate();
    h.init(admin).unwrap();
    h.mint(token, admin, 10_000);
    h.fund(token, admin, 5000).unwrap();

    let result = h.create_package(admin, 0, recipient, 0, token, 86400);
    assert_eq!(result, Err(Error::InvalidAmount));

    let pkg_id = 1;
    h.create_package(admin, pkg_id, recipient, 1000, token, 86400).unwrap();

    let result = h.claim(999);
    assert_eq!(result, Err(Error::PackageNotFound));

    let result = h.get_package(999);
    assert_eq!(result, Err(Error::PackageNotFound));
}

#[test]
fn test_set_get_config() {
    let mut h = Host::new();
    let admin = h.generate();
    let allowed_token = h.generate();
    h.init(admin).unwrap();

    let config = Config { min_amount: 50, max_expires_in: 3600, allowed_tokens: vec![allowed_token] };
    h.escrow.set_config(admin, config.clone()).unwrap();

    let stored = h.escrow.get_config();
    assert_eq!(stored, config);
}

#[test]
fn test_config_constraints_on_create_package() {
    let mut h = Host::new();
    let admin = h.generate();
    let recipient = h.generate();
    let allowed_token = h.generate();
    let blocked_token = h.generate();
    h.init(admin).unwrap();
    h.mint(allowed_token, admin, 10_000);
    h.fund(allowed_token, admin, 5000).unwrap();

    h.escrow
        .set_config(admin, Config { min_amount: 100, max_expires_in: 1000, allowed_tokens: vec![allowed_token] })
        .unwrap();

    let now = h.now;
    let too_small = h.create_package(admin, 1, recipient, 99, allowed_token, now + 10);
    assert_eq!(too_small, Err(Error::InvalidAmount));

    let blocked = h.create_package(admin, 2, recipient, 200, blocked_token, now + 10);
    assert_eq!(blocked, Err(Error::InvalidState));

    let too_far = h.create_package(admin, 3, recipient, 200, allowed_token, now + 2000);
    assert_eq!(too_far, Err(Error::InvalidState));
}

#[test]
fn test_config_constraints_on_extend_expiration() {
    let mut h = Host::new();
    let admin = h.generate();
    let recipient = h.generate();
    let token = h.generate();
    h.init(admin).unwrap();
    h.mint(token, admin, 10_000);
    h.fund(token, admin, 5000).unwrap();

    h.escrow
        .set_config(admin, Config { min_amount: 1, max_expires_in: 1000, allowed_tokens: vec![] })
        .unwrap();

    let now = h.now;
    let pkg_id = 1;
    h.create_package(admin, pkg_id, recipient, 1000, token, now + 500).unwrap();

    let result = h.extend_expiration(pkg_id, 700);
    assert_eq!(result, Err(Error::InvalidState));
}

#[test]
fn test_extend_expiration_success() {
    let mut h = Host::new();
    let admin = h.generate();
    let recipient = h.generate();
    let token = h.generate();
    h.init(admin).unwrap();
    h.mint(token, admin, 10_000);
    h.fund(token, admin, 5000).unwrap();

    let pkg_id = 1;
    let initial_expiry = h.now + 1000;
    h.create_package(admin, pkg_id, recipient, 1000, token, initial_expiry).unwrap();

    let pkg = h.get_package(pkg_id).unwrap();
    assert_eq!(pkg.expires_at, initial_expiry);
    assert_eq!(pkg.status, PackageStatus::Created);

    let additional_time = 500;
    h.extend_expiration(pkg_id, additional_time).unwrap();

    let pkg_extended = h.get_package(pkg_id).unwrap();
    assert_eq!(pkg_extended.expires_at, initial_expiry + additional_time);
    assert_eq!(pkg_extended.status, PackageStatus::Created);
}

#[test]
fn test_extend_expiration_non_existent_package() {
    let mut h = Host::new();
    let admin = h.generate();
    let token = h.generate();
    h.init(admin).unwrap();
    h.mint(token, admin, 10_000);
    h.fund(token, admin, 5000).unwrap();

    let result = h.extend_expiration(999, 500);
    assert_eq!(result, Err(Error::PackageNotFound));
}

#[test]
fn test_extend_expiration_claimed_package() {
    let mut h = Host::new();
    let admin = h.generate();
    let recipient = h.generate();
    let token = h.generate();
    h.init(admin).unwrap();
    h.mint(token, admin, 10_000);
    h.fund(token, admin, 5000).unwrap();

    let pkg_id = 1;
    let expiry = h.now + 1000;
    h.create_package(admin, pkg_id, recipient, 1000, token, expiry).unwrap();
    h.claim(pkg_id).unwrap();

    let result = h.extend_expiration(pkg_id, 500);
    assert_eq!(result, Err(Error::PackageNotActive));
}

#[test]
fn test_extend_expiration_expired_package() {
    let mut h = Host::new();
    let admin = h.generate();
    let recipient = h.generate();
    let token = h.generate();
    h.init(admin).unwrap();
    h.mint(token, admin, 10_000);
    h.fund(token, admin, 5000).unwrap();

    let start_time = 1000;
    h.now = start_time;
    let pkg_id = 1;
    let expiry = start_time + 100;
    h.create_package(admin, pkg_id, recipient, 1000, token, expiry).unwrap();

    h.now = expiry + 1;
    let result = h.extend_expiration(pkg_id, 500);
    assert_eq!(result, Err(Error::PackageExpired));
}

#[test]
fn test_extend_expiration_zero_additional_time() {
    let mut h = Host::new();
    let admin = h.generate();
    let recipient = h.generate();
    let token = h.generate();
    h.init(admin).unwrap();
    h.mint(token, admin, 10_000);
    h.fund(token, admin, 5000).unwrap();

    let pkg_id = 1;
    let expiry = h.now + 1000;
    h.create_package(admin, pkg_id, recipient, 1000, token, expiry).unwrap();

    let result = h.extend_expiration(pkg_id, 0);
    assert_eq!(result, Err(Error::InvalidAmount));
}

#[test]
fn test_extend_expiration_unbounded_package() {
    let mut h = Host::new();
    let admin = h.generate();
    let recipient = h.generate();
    let token = h.generate();
    h.init(admin).unwrap();
    h.mint(token, admin, 10_000);
    h.fund(token, admin, 5000).unwrap();

    let pkg_id = 1;
    h.create_package(admin, pkg_id, recipient, 1000, token, 0).unwrap();

    let result = h.extend_expiration(pkg_id, 500);
    assert_eq!(result, Err(Error::InvalidState));
}

#[test]
fn test_extend_expiration_multiple_extends() {
    let mut h = Host::new();
    let admin = h.generate();
    let recipient = h.generate();
    let token = h.generate();
    h.init(admin).unwrap();
    h.mint(token, admin, 10_000);
    h.fund(token, admin, 5000).unwrap();

    let pkg_id = 1;
    let initial_expiry = h.now + 1000;
    h.create_package(admin, pkg_id, recipient, 1000, token, initial_expiry).unwrap();

    h.extend_expiration(pkg_id, 100).unwrap();
    let pkg1 = h.get_package(pkg_id).unwrap();
    assert_eq!(pkg1.expires_at, initial_expiry + 100);

    h.extend_expiration(pkg_id, 200).unwrap();
    let pkg2 = h.get_package(pkg_id).unwrap();
    assert_eq!(pkg2.expires_at, initial_expiry + 300);

    h.extend_expiration(pkg_id, 500).unwrap();
    let pkg3 = h.get_package(pkg_id).unwrap();
    assert_eq!(pkg3.expires_at, initial_expiry + 800);
}

#[test]
fn test_extend_expiration_cancelled_package() {
    let mut h = Host::new();
    let admin = h.generate();
    let recipient = h.generate();
    let token = h.generate();
    h.init(admin).unwrap();
    h.mint(token, admin, 10_000);
    h.fund(token, admin, 5000).unwrap();

    let pkg_id = 1;
    let expiry = h.now + 1000;
    h.create_package(admin, pkg_id, recipient, 1000, token, expiry).unwrap();
    h.cancel_package(pkg_id).unwrap();

    let result = h.extend_expiration(pkg_id, 500);
    assert_eq!(result, Err(Error::PackageNotActive));
}
