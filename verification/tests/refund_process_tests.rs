use payment_lifecycle::identity::Identity;
use payment_lifecycle::refund::{
    Error, RefundContract, RefundEvent, RefundProcessed, RefundStatus, TransferOrder,
};

fn party(n: u128) -> Identity {
    Identity::account(0, n)
}

/// The engine itself, as the tokens know it.
fn engine() -> Identity {
    Identity::contract(1, 1)
}

/// A token as the tests need it: balances, and what each holder lets the
/// engine spend.
struct Token {
    id: Identity,
    balances: Vec<(Identity, i128)>,
    allowances: Vec<(Identity, i128)>,
    calls: Vec<TransferOrder>,
}

impl Token {
    fn new(id: Identity) -> Token {
        Token { id, balances: Vec::new(), allowances: Vec::new(), calls: Vec::new() }
    }

    fn balance(&self, who: Identity) -> i128 {
        self.balances.iter().filter(|(holder, _)| *holder == who).map(|(_, amount)| *amount).sum()
    }

    fn allowance(&self, from: Identity) -> i128 {
        self.allowances.iter().filter(|(holder, _)| *holder == from).map(|(_, amount)| *amount).sum()
    }

    fn mint(&mut self, to: Identity, amount: i128) {
        self.balances.push((to, amount));
    }

    fn approve(&mut self, from: Identity, amount: i128) {
        let had = self.allowance(from);
        self.allowances.push((from, amount - had));
    }

    fn transfer_from(&mut self, order: TransferOrder) -> bool {
        self.calls.push(order);
        if order.token != self.id
            || self.allowance(order.from) < order.amount
            || self.balance(order.from) < order.amount
        {
            return false;
        }
        self.allowances.push((order.from, -order.amount));
        self.balances.push((order.from, -order.amount));
        self.balances.push((order.to, order.amount));
        true
    }
}

#[test]
fn test_initialize() {
    let mut client = RefundContract::new();
    let admin = party(1);

    assert_eq!(client.initialize(admin), Ok(()));
}

#[test]
fn test_initialize_twice_should_fail() {
    let mut client = RefundContract::new();
    let admin = party(1);

    assert_eq!(client.initialize(admin), Ok(()));
    assert_eq!(client.initialize(admin), Err(Error::AlreadyInitialized));
    assert_eq!(client.initialize(party(2)), Err(Error::AlreadyInitialized));
    assert_eq!(client.settlement_order(party(2), 1), Err(Error::Unauthorized));
    assert_eq!(client.settlement_order(admin, 1), Err(Error::RefundNotFound));
}

#[test]
fn test_approve_refund() {
    let mut client = RefundContract::new();
    let admin = party(1);
    assert_eq!(client.initialize(admin), Ok(()));

    let (merchant, customer, token) = (party(2), party(3), party(4));
    let payment_id = 1u64;
    let amount = 1000i128;
    let reason = String::from("reason");

    let refund_id =
        client.request_refund(merchant, payment_id, customer, amount, token, reason, 0).unwrap();

    assert_eq!(client.approve_refund(admin, refund_id, 0), Ok(()));

    let refund = client.get_refund(refund_id).unwrap();
    assert_eq!(refund.status, RefundStatus::Approved);
}

#[test]
fn test_approve_refund_not_admin() {
    let mut client = RefundContract::new();
    let admin = party(1);
    let not_admin = party(9);
    assert_eq!(client.initialize(admin), Ok(()));

    let (merchant, customer, token) = (party(2), party(3), party(4));
    let refund_id = client
        .request_refund(merchant, 1u64, customer, 1000i128, token, String::from("reason"), 0)
        .unwrap();

    let result = client.approve_refund(not_admin, refund_id, 0);
    assert_eq!(result, Err(Error::Unauthorized));
    assert_eq!(result.unwrap_err().code(), 3);
    assert_eq!(client.get_refund(refund_id).unwrap().status, RefundStatus::Requested);
}

#[test]
fn test_process_refund_success() {
    let mut client = RefundContract::new();
    let admin = party(1);
    assert_eq!(client.initialize(admin), Ok(()));

    let token_contract = Identity::contract(5, 5);
    let mut token_client = Token::new(token_contract);

    let merchant = party(2);
    let customer = party(3);

    token_client.mint(merchant, 10000);
    token_client.approve(merchant, 1000);

    let payment_id = 1u64;
    let amount = 1000i128;
    let reason = String::from("reason");

    let refund_id = client
        .request_refund(merchant, payment_id, customer, amount, token_contract, reason, 0)
        .unwrap();
    assert_eq!(refund_id, 1);

    assert_eq!(client.approve_refund(admin, refund_id, 0), Ok(()));
    client.take_events();

    let done =
        client.process_refund(admin, refund_id, 99, |order| token_client.transfer_from(order));
    assert_eq!(done, Ok(()));

    let refund = client.get_refund(refund_id).unwrap();
    assert_eq!(refund.status, RefundStatus::Processed);

    assert_eq!(token_client.balance(merchant), 9000);
    assert_eq!(token_client.balance(customer), 1000);
    assert_eq!(token_client.balance(engine()), 0);
    assert_eq!(
        token_client.calls,
        vec![TransferOrder { token: token_contract, from: merchant, to: customer, amount: 1000 }]
    );
    assert_eq!(
        client.take_events(),
        vec![RefundEvent::Processed(RefundProcessed {
            refund_id,
            processed_by: admin,
            customer,
            amount: 1000,
            token: token_contract,
            processed_at: 99,
        })]
    );
}

#[test]
fn test_process_refund_not_approved() {
    let mut client = RefundContract::new();
    let admin = party(1);
    assert_eq!(client.initialize(admin), Ok(()));

    let (merchant, customer, token) = (party(2), party(3), party(4));
    let refund_id =
        client.request_refund(merchant, 1, customer, 1000, token, String::from("r"), 0).unwrap();

    let mut asked = 0;
    let done = client.process_refund(admin, refund_id, 0, |_| {
        asked += 1;
        true
    });
    assert_eq!(done, Err(Error::NotApproved));
    assert_eq!(done.unwrap_err().code(), 6);
    assert_eq!(asked, 0);
    assert_eq!(client.get_refund(refund_id).unwrap().status, RefundStatus::Requested);
}

#[test]
fn test_process_refund_transfer_failed() {
    let mut client = RefundContract::new();
    let admin = party(1);
    assert_eq!(client.initialize(admin), Ok(()));

    let token_contract = Identity::contract(5, 5);
    let mut token_client = Token::new(token_contract);

    let merchant = party(2);
    let customer = party(3);

    let refund_id = client
        .request_refund(merchant, 1, customer, 1000, token_contract, String::from("r"), 0)
        .unwrap();

    assert_eq!(client.approve_refund(admin, refund_id, 0), Ok(()));

    let done =
        client.process_refund(admin, refund_id, 0, |order| token_client.transfer_from(order));
    assert_eq!(done, Err(Error::TransferFailed));
    assert_eq!(done.unwrap_err().code(), 5);
    assert_eq!(client.get_refund(refund_id).unwrap().status, RefundStatus::Approved);
}

#[test]
fn failed_settlement_can_be_tried_again() {
    let mut client = RefundContract::new();
    let admin = party(1);
    assert_eq!(client.initialize(admin), Ok(()));
    let token_contract = Identity::contract(5, 5);
    let mut token_client = Token::new(token_contract);
    let (merchant, customer) = (party(2), party(3));

    let refund_id = client
        .request_refund(merchant, 1, customer, 1000, token_contract, String::from("r"), 0)
        .unwrap();
    assert_eq!(client.approve_refund(admin, refund_id, 0), Ok(()));
    client.take_events();

    token_client.mint(merchant, 10000);
    let done =
        client.process_refund(admin, refund_id, 1, |order| token_client.transfer_from(order));
    assert_eq!(done, Err(Error::TransferFailed));
    assert_eq!(client.get_refund(refund_id).unwrap().status, RefundStatus::Approved);
    assert!(client.take_events().is_empty());
    assert_eq!(token_client.balance(merchant), 10000);

    token_client.approve(merchant, 1000);
    let done =
        client.process_refund(admin, refund_id, 2, |order| token_client.transfer_from(order));
    assert_eq!(done, Ok(()));
    assert_eq!(client.get_refund(refund_id).unwrap().status, RefundStatus::Processed);
    assert_eq!(token_client.balance(merchant), 9000);
    assert_eq!(token_client.balance(customer), 1000);

    let done =
        client.process_refund(admin, refund_id, 3, |order| token_client.transfer_from(order));
    assert_eq!(done, Err(Error::NotApproved));
    assert_eq!(token_client.calls.len(), 2);
    assert_eq!(token_client.balance(customer), 1000);
}

#[test]
fn settlement_checks_come_in_order() {
    let mut client = RefundContract::new();
    let admin = party(1);
    let (merchant, customer, token) = (party(2), party(3), party(4));
    let refund_id =
        client.request_refund(merchant, 1, customer, 250, token, String::from("r"), 0).unwrap();

    assert_eq!(client.settle_refund(admin, refund_id, true, 0), Err(Error::Unauthorized));
    assert_eq!(client.initialize(admin), Ok(()));
    assert_eq!(client.settle_refund(party(9), 999, true, 0), Err(Error::Unauthorized));
    assert_eq!(client.settle_refund(admin, 999, true, 0), Err(Error::RefundNotFound));
    assert_eq!(client.settle_refund(admin, refund_id, true, 0), Err(Error::NotApproved));
    assert_eq!(client.settlement_order(admin, refund_id), Err(Error::NotApproved));

    assert_eq!(client.approve_refund(admin, refund_id, 0), Ok(()));
    assert_eq!(
        client.settlement_order(admin, refund_id),
        Ok(TransferOrder { token, from: merchant, to: customer, amount: 250 })
    );
    assert_eq!(client.settle_refund(admin, refund_id, false, 0), Err(Error::TransferFailed));
    assert_eq!(client.get_refund(refund_id).unwrap().status, RefundStatus::Approved);
    assert_eq!(client.settle_refund(admin, refund_id, true, 0), Ok(()));
    assert_eq!(client.get_refund(refund_id).unwrap().status, RefundStatus::Processed);
    assert_eq!(client.settle_refund(admin, refund_id, true, 0), Err(Error::NotApproved));
    assert_eq!(client.approve_refund(admin, refund_id, 0), Err(Error::InvalidStatus));
    assert_eq!(
        client.reject_refund(admin, refund_id, String::from("late"), 0),
        Err(Error::InvalidStatus)
    );
}

#[test]
fn rejected_refund_is_never_settled() {
    let mut client = RefundContract::new();
    let admin = party(1);
    assert_eq!(client.initialize(admin), Ok(()));
    let refund_id = client
        .request_refund(party(2), 1, party(3), 250, party(4), String::from("r"), 0)
        .unwrap();
    assert_eq!(client.reject_refund(admin, refund_id, String::from("no"), 0), Ok(()));
    assert_eq!(client.process_refund(admin, refund_id, 0, |_| true), Err(Error::NotApproved));
    assert_eq!(client.get_refund(refund_id).unwrap().status, RefundStatus::Rejected);
}
