//! Refunds: the record of each refund, its way from request over approval
//! or rejection to settlement, and the lookups by merchant, customer and
//! payment.

use vstd::prelude::*;
use crate::identity::Identity;
use crate::index::{
    ids_under, lemma_ids_under_counts, lemma_ids_under_resolve, lemma_ids_under_same_filing,
    numbered, resolve, window, Index, IndexKey, Record,
};

verus! {

/// Where a refund stands. Every refund starts as `Requested`. `Rejected`
/// and `Processed` are final; `Approved` waits for settlement.
#[derive(Clone, Copy, Debug, PartialEq, Eq, Structural)]
pub enum RefundStatus {
    Requested,
    Approved,
    Rejected,
    Processed,
}

/// Why an operation on refunds was turned down.
#[derive(Clone, Copy, Debug, PartialEq, Eq, Structural)]
pub enum Error {
    InvalidAmount,
    RefundNotFound,
    Unauthorized,
    InvalidPaymentId,
    TransferFailed,
    NotApproved,
    InvalidStatus,
    AlreadyProcessed,
    AlreadyInitialized,
}

impl Error {
    /// The number by which callers on the wire know this error. No two
    /// errors share a number.
    pub open spec fn spec_code(self) -> u32 {
        match self {
            Error::InvalidAmount => 1,
            Error::RefundNotFound => 2,
            Error::Unauthorized => 3,
            Error::InvalidPaymentId => 4,
            Error::TransferFailed => 5,
            Error::NotApproved => 6,
            Error::InvalidStatus => 7,
            Error::AlreadyProcessed => 8,
            Error::AlreadyInitialized => 9,
        }
    }

    /// The number by which callers on the wire know this error.
    pub fn code(&self) -> (c: u32)
        ensures
            c == self.spec_code(),
    {
        match self {
            Error::InvalidAmount => 1,
            Error::RefundNotFound => 2,
            Error::Unauthorized => 3,
            Error::InvalidPaymentId => 4,
            Error::TransferFailed => 5,
            Error::NotApproved => 6,
            Error::InvalidStatus => 7,
            Error::AlreadyProcessed => 8,
            Error::AlreadyInitialized => 9,
        }
    }
}

/// Published when a refund is requested.
#[derive(Clone, Copy, Debug, PartialEq, Eq, Structural)]
pub struct RefundRequested {
    pub refund_id: u64,
    pub payment_id: u64,
    pub merchant: Identity,
    pub customer: Identity,
    pub amount: i128,
    pub token: Identity,
}

/// Published when a refund is approved.
#[derive(Clone, Copy, Debug, PartialEq, Eq, Structural)]
pub struct RefundApproved {
    pub refund_id: u64,
    pub approved_by: Identity,
    pub approved_at: u64,
}

/// Published when a refund is rejected.
#[derive(Clone, Debug, PartialEq, Eq)]
pub struct RefundRejected {
    pub refund_id: u64,
    pub rejected_by: Identity,
    pub rejected_at: u64,
    pub rejection_reason: String,
}

/// Published when a refund is settled.
#[derive(Clone, Copy, Debug, PartialEq, Eq, Structural)]
pub struct RefundProcessed {
    pub refund_id: u64,
    pub processed_by: Identity,
    pub customer: Identity,
    pub amount: i128,
    pub token: Identity,
    pub processed_at: u64,
}

/// What the refund side publishes: one event for each request and each
/// transition that succeeded.
#[derive(Clone, Debug, PartialEq, Eq)]
pub enum RefundEvent {
    Requested(RefundRequested),
    Approved(RefundApproved),
    Rejected(RefundRejected),
    Processed(RefundProcessed),
}

/// One refund. Only `status` ever changes after the refund was requested.
#[derive(Clone, Debug, PartialEq, Eq)]
pub struct Refund {
    pub id: u64,
    pub payment_id: u64,
    pub merchant: Identity,
    pub customer: Identity,
    pub amount: i128,
    pub token: Identity,
    pub status: RefundStatus,
    pub requested_at: u64,
    pub reason: String,
}

/// The movement of tokens that settles a refund: `amount` of `token` from
/// `from` to `to`, out of what `from` has allowed this engine to spend.
#[derive(Clone, Copy, Debug, PartialEq, Eq, Structural)]
pub struct TransferOrder {
    pub token: Identity,
    pub from: Identity,
    pub to: Identity,
    pub amount: i128,
}

/// What approving a refund in this status leads to.
pub open spec fn after_approve(status: RefundStatus) -> Result<RefundStatus, Error> {
    match status {
        RefundStatus::Requested => Ok(RefundStatus::Approved),
        _ => Err(Error::InvalidStatus),
    }
}

/// What rejecting a refund in this status leads to.
pub open spec fn after_reject(status: RefundStatus) -> Result<RefundStatus, Error> {
    match status {
        RefundStatus::Requested => Ok(RefundStatus::Rejected),
        _ => Err(Error::InvalidStatus),
    }
}

/// What settling a refund in this status leads to, once its tokens were
/// moved.
pub open spec fn after_process(status: RefundStatus) -> Result<RefundStatus, Error> {
    match status {
        RefundStatus::Approved => Ok(RefundStatus::Processed),
        _ => Err(Error::NotApproved),
    }
}

impl RefundStatus {
    /// The status after approval, or why a refund in this status cannot be
    /// approved.
    pub fn approve(self) -> (next: Result<RefundStatus, Error>)
        ensures
            next == after_approve(self),
    {
        match self {
            RefundStatus::Requested => Ok(RefundStatus::Approved),
            _ => Err(Error::InvalidStatus),
        }
    }

    /// The status after rejection, or why a refund in this status cannot
    /// be rejected.
    pub fn reject(self) -> (next: Result<RefundStatus, Error>)
        ensures
            next == after_reject(self),
    {
        match self {
            RefundStatus::Requested => Ok(RefundStatus::Rejected),
            _ => Err(Error::InvalidStatus),
        }
    }

    /// The status after settlement, or why a refund in this status cannot
    /// be settled.
    pub fn process(self) -> (next: Result<RefundStatus, Error>)
        ensures
            next == after_process(self),
    {
        match self {
            RefundStatus::Approved => Ok(RefundStatus::Processed),
            _ => Err(Error::NotApproved),
        }
    }
}

impl Record for Refund {
    open spec fn id(&self) -> u64 {
        self.id
    }

    /// A refund is filed under its merchant, under its customer, and under
    /// the payment that it is for.
    open spec fn files_under(&self, key: IndexKey) -> bool {
        match key {
            IndexKey::Customer(customer) => self.customer == customer,
            IndexKey::Merchant(merchant) => self.merchant == merchant,
            IndexKey::Payment(payment_id) => self.payment_id == payment_id,
        }
    }
}

/// A second refund that is the first one, field by field.
fn copy_of(refund: &Refund) -> (copy: Refund)
    ensures
        copy == *refund,
{
    Refund {
        id: refund.id,
        payment_id: refund.payment_id,
        merchant: refund.merchant,
        customer: refund.customer,
        amount: refund.amount,
        token: refund.token,
        status: refund.status,
        requested_at: refund.requested_at,
        reason: refund.reason.clone(),
    }
}

/// The refunds, their indices, and the administrator who decides on them.
pub struct RefundContract {
    admin: Option<Identity>,
    refunds: Vec<Refund>,
    index: Index,
    events: Vec<RefundEvent>,
}

impl RefundContract {
    /// The administrator, once one was named.
    pub closed spec fn admin(&self) -> Option<Identity> {
        self.admin
    }

    /// Every refund requested so far, in the order of the requests.
    pub closed spec fn refunds(&self) -> Seq<Refund> {
        self.refunds@
    }

    /// The identifiers filed under `key`, oldest first.
    pub closed spec fn filed(&self, key: IndexKey) -> Seq<u64> {
        self.index.ids(key)
    }

    /// The events published so far and not yet taken, oldest first.
    pub closed spec fn events(&self) -> Seq<RefundEvent> {
        self.events@
    }

    /// The index is sound in itself: it has one bucket for a key at most.
    pub closed spec fn index_wf(&self) -> bool {
        self.index.wf()
    }

    /// The refunds are numbered 1, 2, 3, ... in the order of the requests,
    /// each is for a positive amount and names a payment, and each bucket
    /// holds the identifiers of exactly the refunds that belong under its
    /// key, in that order.
    pub open spec fn wf(&self) -> bool {
        &&& self.index_wf()
        &&& self.refunds().len() <= u64::MAX
        &&& numbered(self.refunds())
        &&& forall|i: int|
            0 <= i < self.refunds().len() ==> (#[trigger] self.refunds()[i]).amount > 0
                && self.refunds()[i].payment_id != 0
        &&& forall|key: IndexKey| self.filed(key) == ids_under(self.refunds(), key)
    }

    /// Whether a refund with this identifier was requested.
    pub open spec fn has_refund(&self, refund_id: u64) -> bool {
        1 <= refund_id <= self.refunds().len()
    }

    /// The refund with this identifier.
    pub open spec fn refund(&self, refund_id: u64) -> Refund
        recommends
            self.has_refund(refund_id),
    {
        self.refunds()[refund_id - 1]
    }

    /// The refunds as they are once the status of one of them was set.
    pub open spec fn with_status(&self, refund_id: u64, status: RefundStatus) -> Seq<Refund>
        recommends
            self.has_refund(refund_id),
    {
        self.refunds().update(refund_id - 1, Refund { status, ..self.refund(refund_id) })
    }

    /// What `request_refund` answers: an amount that is not positive is
    /// reported first, then a payment identifier of 0; else the refund gets
    /// the next identifier.
    pub open spec fn request_outcome(&self, payment_id: u64, amount: i128) -> Result<u64, Error> {
        if amount <= 0 {
            Err(Error::InvalidAmount)
        } else if payment_id == 0 {
            Err(Error::InvalidPaymentId)
        } else {
            Ok((self.refunds().len() + 1) as u64)
        }
    }

    /// What a decision on a requested refund answers, approval and
    /// rejection alike: anyone but the administrator is reported first, then
    /// a refund that does not exist, then one that is no longer `Requested`.
    pub open spec fn decision_outcome(&self, admin: Identity, refund_id: u64) -> Result<
        (),
        Error,
    > {
        if self.admin() != Some(admin) {
            Err(Error::Unauthorized)
        } else if !self.has_refund(refund_id) {
            Err(Error::RefundNotFound)
        } else {
            match after_approve(self.refund(refund_id).status) {
                Ok(_) => Ok(()),
                Err(e) => Err(e),
            }
        }
    }

    /// Whether a refund may be settled now, and by which movement of
    /// tokens: anyone but the administrator is reported first, then a refund
    /// that does not exist, then one that is not `Approved`. The tokens go
    /// from the refund's merchant to its customer.
    pub open spec fn settlement_outcome(&self, admin: Identity, refund_id: u64) -> Result<
        TransferOrder,
        Error,
    > {
        if self.admin() != Some(admin) {
            Err(Error::Unauthorized)
        } else if !self.has_refund(refund_id) {
            Err(Error::RefundNotFound)
        } else {
            match after_process(self.refund(refund_id).status) {
                Err(e) => Err(e),
                Ok(_) => Ok(
                    TransferOrder {
                        token: self.refund(refund_id).token,
                        from: self.refund(refund_id).merchant,
                        to: self.refund(refund_id).customer,
                        amount: self.refund(refund_id).amount,
                    },
                ),
            }
        }
    }

    /// How settling a refund relates the contract before to the contract
    /// `after` and to the answer `done`, given whether the tokens were
    /// moved. Where the refund may not be settled, that is the answer and
    /// nothing changes. Where the tokens were not moved, the answer is
    /// `TransferFailed` and nothing changes: the refund stays `Approved`.
    /// Else the refund is `Processed` and that is published.
    pub open spec fn settles_to(
        &self,
        after: &RefundContract,
        admin: Identity,
        refund_id: u64,
        transferred: bool,
        now: u64,
        done: Result<(), Error>,
    ) -> bool {
        &&& after.admin() == self.admin()
        &&& forall|key: IndexKey| after.filed(key) == self.filed(key)
        &&& match self.settlement_outcome(admin, refund_id) {
            Err(e) => done == Err::<(), Error>(e) && after.refunds() == self.refunds()
                && after.events() == self.events(),
            Ok(order) => if transferred {
                &&& done == Ok::<(), Error>(())
                &&& after.refunds() == self.with_status(refund_id, RefundStatus::Processed)
                &&& after.events() == self.events().push(
                    RefundEvent::Processed(
                        RefundProcessed {
                            refund_id,
                            processed_by: admin,
                            customer: order.to,
                            amount: order.amount,
                            token: order.token,
                            processed_at: now,
                        },
                    ),
                )
            } else {
                &&& done == Err::<(), Error>(Error::TransferFailed)
                &&& after.refunds() == self.refunds()
                &&& after.events() == self.events()
            },
        }
    }

    /// A contract without refunds and without an administrator.
    pub fn new() -> (contract: RefundContract)
        ensures
            contract.wf(),
            contract.admin() == None::<Identity>,
            contract.refunds() == Seq::<Refund>::empty(),
            contract.events() == Seq::<RefundEvent>::empty(),
            forall|key: IndexKey| contract.filed(key) == Seq::<u64>::empty(),
    {
        RefundContract {
            admin: None,
            refunds: Vec::new(),
            index: Index::new(),
            events: Vec::new(),
        }
    }

    /// Whether these can be the refunds of a contract: numbered 1, 2, 3,
    /// ... in their order, each for a positive amount and for a payment
    /// other than 0.
    pub open spec fn restorable(refunds: Seq<Refund>) -> bool {
        &&& refunds.len() <= u64::MAX
        &&& numbered(refunds)
        &&& forall|i: int|
            0 <= i < refunds.len() ==> (#[trigger] refunds[i]).amount > 0 && refunds[i].payment_id
                != 0
    }

    /// The contract that has this administrator, holds these refunds and
    /// has published nothing, with every refund filed under its merchant,
    /// its customer and its payment; none where the refunds are not numbered
    /// 1, 2, 3, ... in their order, or one of them is for no amount or no
    /// payment.
    pub fn restore(admin: Option<Identity>, refunds: Vec<Refund>) -> (restored: Option<
        RefundContract,
    >)
        ensures
            restored is Some <==> Self::restorable(refunds@),
            restored matches Some(contract) ==> contract.wf() && contract.admin() == admin
                && contract.refunds() == refunds@ && contract.events() == Seq::<
                RefundEvent,
            >::empty(),
    {
        let mut index = Index::new();
        let mut i: usize = 0;
        while i < refunds.len()
            invariant
                i <= refunds.len(),
                index.wf(),
                Self::restorable(refunds@.take(i as int)),
                forall|key: IndexKey| index.ids(key) == ids_under(refunds@.take(i as int), key),
            decreases refunds.len() - i,
        {
            let refund = &refunds[i];
            if i as u64 == u64::MAX || refund.id != i as u64 + 1 || refund.amount <= 0
                || refund.payment_id == 0 {
                return None;
            }
            let ghost filed = index;
            index.append(IndexKey::Merchant(refund.merchant), refund.id);
            index.append(IndexKey::Customer(refund.customer), refund.id);
            index.append(IndexKey::Payment(refund.payment_id), refund.id);
            i += 1;
            proof {
                let now = refunds@.take(i as int);
                assert(now.drop_last() == refunds@.take(i - 1));
                assert forall|key: IndexKey| index.ids(key) == ids_under(now, key) by {
                    assert(filed.ids(key) == ids_under(now.drop_last(), key));
                }
            }
        }
        proof {
            assert(refunds@.take(i as int) == refunds@);
        }
        Some(RefundContract { admin, refunds, index, events: Vec::new() })
    }

    /// The invariant speaks of the refunds and the index alone.
    proof fn lemma_wf_carries(&self, other: &RefundContract)
        requires
            self.wf(),
            other.refunds@ == self.refunds@,
            other.index == self.index,
        ensures
            other.wf(),
            forall|key: IndexKey| other.filed(key) == self.filed(key),
    {
        assert forall|key: IndexKey| other.filed(key) == ids_under(other.refunds(), key) by {
            assert(self.filed(key) == ids_under(self.refunds(), key));
        }
    }

    /// Names the administrator. This can be done once: where one was named
    /// before, the answer is `AlreadyInitialized` and that one stays.
    pub fn initialize(&mut self, admin: Identity) -> (done: Result<(), Error>)
        requires
            old(self).wf(),
        ensures
            final(self).wf(),
            final(self).refunds() == old(self).refunds(),
            final(self).events() == old(self).events(),
            forall|key: IndexKey| final(self).filed(key) == old(self).filed(key),
            match old(self).admin() {
                Some(_) => done == Err::<(), Error>(Error::AlreadyInitialized)
                    && final(self).admin() == old(self).admin(),
                None => done == Ok::<(), Error>(()) && final(self).admin() == Some(admin),
            },
    {
        if self.admin.is_some() {
            return Err(Error::AlreadyInitialized);
        }
        self.admin = Some(admin);
        proof {
            old(self).lemma_wf_carries(self);
        }
        Ok(())
    }

    /// Whether a refund with this identifier was requested.
    pub fn contains(&self, refund_id: u64) -> (yes: bool)
        ensures
            yes == self.has_refund(refund_id),
    {
        refund_id >= 1 && refund_id <= self.refunds.len() as u64
    }

    /// Where the refund with this identifier stands among the refunds.
    fn place(&self, refund_id: u64) -> (i: usize)
        requires
            self.has_refund(refund_id),
        ensures
            i == refund_id - 1,
            i < self.refunds.len(),
    {
        assert(refund_id <= self.refunds.len());
        (refund_id - 1) as usize
    }

    /// The identifier that the next refund gets: one more than the number
    /// of refunds so far.
    pub fn next_id(&self) -> (id: u64)
        requires
            self.refunds().len() < u64::MAX,
        ensures
            id == self.refunds().len() + 1,
    {
        self.refunds.len() as u64 + 1
    }

    /// How many refunds were requested: the identifier of the latest one.
    pub fn refund_count(&self) -> (n: u64)
        ensures
            n == self.refunds().len(),
    {
        self.refunds.len() as u64
    }

    /// Whether `who` is the administrator.
    fn is_admin(&self, who: Identity) -> (yes: bool)
        ensures
            yes == (self.admin() == Some(who)),
    {
        match self.admin {
            Some(admin) => admin == who,
            None => false,
        }
    }

    /// Records a new refund in status `Requested`, files it under its
    /// merchant, its customer and its payment, and publishes the request.
    /// The amount must be positive and the payment identifier not 0; that
    /// the payment exists, or was for as much, is not looked into. The
    /// caller has made sure that `merchant` is the one who asks.
    pub fn request_refund(
        &mut self,
        merchant: Identity,
        payment_id: u64,
        customer: Identity,
        amount: i128,
        token: Identity,
        reason: String,
        now: u64,
    ) -> (requested: Result<u64, Error>)
        requires
            old(self).wf(),
            old(self).refunds().len() < u64::MAX,
        ensures
            final(self).wf(),
            final(self).admin() == old(self).admin(),
            requested == old(self).request_outcome(payment_id, amount),
            match requested {
                Ok(refund_id) => {
                    &&& final(self).refunds() == old(self).refunds().push(
                        Refund {
                            id: refund_id,
                            payment_id,
                            merchant,
                            customer,
                            amount,
                            token,
                            status: RefundStatus::Requested,
                            requested_at: now,
                            reason,
                        },
                    )
                    &&& final(self).events() == old(self).events().push(
                        RefundEvent::Requested(
                            RefundRequested {
                                refund_id,
                                payment_id,
                                merchant,
                                customer,
                                amount,
                                token,
                            },
                        ),
                    )
                    &&& final(self).filed(IndexKey::Merchant(merchant)) == old(self).filed(
                        IndexKey::Merchant(merchant),
                    ).push(refund_id)
                    &&& final(self).filed(IndexKey::Customer(customer)) == old(self).filed(
                        IndexKey::Customer(customer),
                    ).push(refund_id)
                    &&& final(self).filed(IndexKey::Payment(payment_id)) == old(self).filed(
                        IndexKey::Payment(payment_id),
                    ).push(refund_id)
                    &&& forall|key: IndexKey|
                        key != IndexKey::Merchant(merchant) && key != IndexKey::Customer(customer)
                            && key != IndexKey::Payment(payment_id) ==> final(self).filed(key)
                            == old(self).filed(key)
                },
                Err(_) => {
                    &&& final(self).refunds() == old(self).refunds()
                    &&& final(self).events() == old(self).events()
                    &&& forall|key: IndexKey| final(self).filed(key) == old(self).filed(key)
                },
            },
    {
        if amount <= 0 {
            return Err(Error::InvalidAmount);
        }
        if payment_id == 0 {
            return Err(Error::InvalidPaymentId);
        }
        let refund_id: u64 = self.next_id();
        let refund = Refund {
            id: refund_id,
            payment_id,
            merchant,
            customer,
            amount,
            token,
            status: RefundStatus::Requested,
            requested_at: now,
            reason,
        };
        self.refunds.push(refund);
        self.index.append(IndexKey::Merchant(merchant), refund_id);
        self.index.append(IndexKey::Customer(customer), refund_id);
        self.index.append(IndexKey::Payment(payment_id), refund_id);
        self.events.push(
            RefundEvent::Requested(
                RefundRequested { refund_id, payment_id, merchant, customer, amount, token },
            ),
        );
        proof {
            assert(self.refunds().drop_last() == old(self).refunds());
            assert forall|key: IndexKey| self.filed(key) == ids_under(self.refunds(), key) by {
                assert(old(self).filed(key) == ids_under(old(self).refunds(), key));
            }
        }
        Ok(refund_id)
    }

    /// The refund with this identifier, or `RefundNotFound` where none was
    /// requested under it.
    pub fn get_refund(&self, refund_id: u64) -> (found: Result<Refund, Error>)
        ensures
            found == if self.has_refund(refund_id) {
                Ok::<Refund, Error>(self.refund(refund_id))
            } else {
                Err::<Refund, Error>(Error::RefundNotFound)
            },
    {
        if self.contains(refund_id) {
            Ok(copy_of(&self.refunds[self.place(refund_id)]))
        } else {
            Err(Error::RefundNotFound)
        }
    }

    /// Sets the status of one refund and leaves everything else as it is.
    fn put_status(&mut self, refund_id: u64, status: RefundStatus)
        requires
            old(self).wf(),
            old(self).has_refund(refund_id),
        ensures
            final(self).wf(),
            final(self).admin() == old(self).admin(),
            final(self).refunds() == old(self).with_status(refund_id, status),
            final(self).events() == old(self).events(),
            forall|key: IndexKey| final(self).filed(key) == old(self).filed(key),
    {
        let i: usize = self.place(refund_id);
        self.refunds[i].status = status;
        proof {
            assert forall|key: IndexKey| self.filed(key) == ids_under(self.refunds(), key) by {
                assert(old(self).filed(key) == ids_under(old(self).refunds(), key));
                lemma_ids_under_same_filing(old(self).refunds(), self.refunds(), key);
            }
        }
    }

    /// Approves a requested refund, at the time `now`, and publishes that.
    /// Anyone but the administrator gives `Unauthorized`, a refund that does
    /// not exist `RefundNotFound`, one that is no longer `Requested`
    /// `InvalidStatus`; then nothing changes. The caller has made sure that
    /// `admin` is the one who asks.
    pub fn approve_refund(&mut self, admin: Identity, refund_id: u64, now: u64) -> (done: Result<
        (),
        Error,
    >)
        requires
            old(self).wf(),
        ensures
            final(self).wf(),
            final(self).admin() == old(self).admin(),
            done == old(self).decision_outcome(admin, refund_id),
            done is Ok ==> final(self).refunds() == old(self).with_status(
                refund_id,
                RefundStatus::Approved,
            ) && final(self).events() == old(self).events().push(
                RefundEvent::Approved(
                    RefundApproved { refund_id, approved_by: admin, approved_at: now },
                ),
            ),
            done is Err ==> final(self).refunds() == old(self).refunds() && final(self).events()
                == old(self).events(),
            forall|key: IndexKey| final(self).filed(key) == old(self).filed(key),
    {
        if !self.is_admin(admin) {
            return Err(Error::Unauthorized);
        }
        if !self.contains(refund_id) {
            return Err(Error::RefundNotFound);
        }
        let next = match self.refunds[self.place(refund_id)].status.approve() {
            Ok(next) => next,
            Err(e) => {
                return Err(e);
            },
        };
        self.put_status(refund_id, next);
        let ghost decided = *self;
        self.events.push(
            RefundEvent::Approved(
                RefundApproved { refund_id, approved_by: admin, approved_at: now },
            ),
        );
        proof {
            decided.lemma_wf_carries(self);
        }
        Ok(())
    }

    /// Rejects a requested refund, at the time `now`, and publishes that
    /// with the reason given. Anyone but the administrator gives
    /// `Unauthorized`, a refund that does not exist `RefundNotFound`, one
    /// that is no longer `Requested` `InvalidStatus`; then nothing changes.
    /// The caller has made sure that `admin` is the one who asks.
    pub fn reject_refund(
        &mut self,
        admin: Identity,
        refund_id: u64,
        rejection_reason: String,
        now: u64,
    ) -> (done: Result<(), Error>)
        requires
            old(self).wf(),
        ensures
            final(self).wf(),
            final(self).admin() == old(self).admin(),
            done == old(self).decision_outcome(admin, refund_id),
            done is Ok ==> final(self).refunds() == old(self).with_status(
                refund_id,
                RefundStatus::Rejected,
            ) && final(self).events() == old(self).events().push(
                RefundEvent::Rejected(
                    RefundRejected {
                        refund_id,
                        rejected_by: admin,
                        rejected_at: now,
                        rejection_reason,
                    },
                ),
            ),
            done is Err ==> final(self).refunds() == old(self).refunds() && final(self).events()
                == old(self).events(),
            forall|key: IndexKey| final(self).filed(key) == old(self).filed(key),
    {
        if !self.is_admin(admin) {
            return Err(Error::Unauthorized);
        }
        if !self.contains(refund_id) {
            return Err(Error::RefundNotFound);
        }
        let next = match self.refunds[self.place(refund_id)].status.reject() {
            Ok(next) => next,
            Err(e) => {
                return Err(e);
            },
        };
        self.put_status(refund_id, next);
        let ghost decided = *self;
        self.events.push(
            RefundEvent::Rejected(
                RefundRejected { refund_id, rejected_by: admin, rejected_at: now, rejection_reason },
            ),
        );
        proof {
            decided.lemma_wf_carries(self);
        }
        Ok(())
    }

    /// Whether the refund may be settled now, and if so, which movement of
    /// tokens settles it. Nothing changes.
    pub fn settlement_order(&self, admin: Identity, refund_id: u64) -> (order: Result<
        TransferOrder,
        Error,
    >)
        ensures
            order == self.settlement_outcome(admin, refund_id),
    {
        if !self.is_admin(admin) {
            return Err(Error::Unauthorized);
        }
        if !self.contains(refund_id) {
            return Err(Error::RefundNotFound);
        }
        let refund = &self.refunds[self.place(refund_id)];
        if let Err(e) = refund.status.process() {
            return Err(e);
        }
        Ok(
            TransferOrder {
                token: refund.token,
                from: refund.merchant,
                to: refund.customer,
                amount: refund.amount,
            },
        )
    }

    /// Closes the settlement of a refund, at the time `now`, once it is
    /// known whether the tokens of its order were moved. Where the refund
    /// may not be settled, that is the answer, whatever `transferred` says.
    /// Where the tokens were not moved, the answer is `TransferFailed` and
    /// the refund stays `Approved`, so that it can be settled later. Else
    /// the refund becomes `Processed` and that is published.
    pub fn settle_refund(
        &mut self,
        admin: Identity,
        refund_id: u64,
        transferred: bool,
        now: u64,
    ) -> (done: Result<(), Error>)
        requires
            old(self).wf(),
        ensures
            final(self).wf(),
            old(self).settles_to(final(self), admin, refund_id, transferred, now, done),
    {
        let order = match self.settlement_order(admin, refund_id) {
            Ok(order) => order,
            Err(e) => {
                return Err(e);
            },
        };
        if !transferred {
            return Err(Error::TransferFailed);
        }
        self.put_status(refund_id, RefundStatus::Processed);
        let ghost settled = *self;
        self.events.push(
            RefundEvent::Processed(
                RefundProcessed {
                    refund_id,
                    processed_by: admin,
                    customer: order.to,
                    amount: order.amount,
                    token: order.token,
                    processed_at: now,
                },
            ),
        );
        proof {
            settled.lemma_wf_carries(self);
        }
        Ok(())
    }

    /// Settles an approved refund, at the time `now`: has `transfer` move
    /// the tokens of its order, from the merchant to the customer, and closes
    /// the settlement by what `transfer` answers, as `settle_refund` does.
    /// Where the refund may not be settled, `transfer` is given nothing to
    /// do. The caller has made sure that `admin` is the one who asks.
    pub fn process_refund<F: FnOnce(TransferOrder) -> bool>(
        &mut self,
        admin: Identity,
        refund_id: u64,
        now: u64,
        transfer: F,
    ) -> (done: Result<(), Error>)
        requires
            old(self).wf(),
            old(self).settlement_outcome(admin, refund_id) matches Ok(order) ==> transfer.requires(
                (order,),
            ),
        ensures
            final(self).wf(),
            match old(self).settlement_outcome(admin, refund_id) {
                Err(_) => old(self).settles_to(final(self), admin, refund_id, false, now, done),
                Ok(order) => exists|transferred: bool|
                    transfer.ensures((order,), transferred) && old(self).settles_to(
                        final(self),
                        admin,
                        refund_id,
                        transferred,
                        now,
                        done,
                    ),
            },
    {
        match self.settlement_order(admin, refund_id) {
            Err(e) => Err(e),
            Ok(order) => {
                let transferred = transfer(order);
                self.settle_refund(admin, refund_id, transferred, now)
            },
        }
    }

    /// The refunds filed under `key` that the query selects, oldest first.
    /// An identifier that names no refund would be passed over; there is
    /// none such in a bucket.
    fn page(&self, key: IndexKey, limit: u64, offset: u64) -> (out: Vec<Refund>)
        requires
            self.wf(),
        ensures
            out@ == resolve(self.refunds(), window(self.filed(key), offset as nat, limit as nat)),
    {
        let ids = self.index.page(key, limit, offset);
        proof {
            lemma_ids_under_resolve(self.refunds(), key);
            crate::index::lemma_window_entries(self.filed(key), offset as nat, limit as nat);
        }
        let mut out: Vec<Refund> = Vec::new();
        let mut k: usize = 0;
        while k < ids.len()
            invariant
                k <= ids.len(),
                forall|j: int| 0 <= j < ids.len() ==> self.has_refund(#[trigger] ids[j]),
                out@ == resolve(self.refunds(), ids@.take(k as int)),
            decreases ids.len() - k,
        {
            if let Ok(refund) = self.get_refund(ids[k]) {
                out.push(refund);
            }
            k += 1;
        }
        out
    }

    /// The refunds of `merchant`, oldest first: none where `offset` is at
    /// or beyond their number, else those from place `offset` on, `limit` of
    /// them or as many as are left.
    pub fn get_refunds_by_merchant(&self, merchant: Identity, limit: u64, offset: u64) -> (out:
        Vec<Refund>)
        requires
            self.wf(),
        ensures
            out@ == resolve(
                self.refunds(),
                window(self.filed(IndexKey::Merchant(merchant)), offset as nat, limit as nat),
            ),
    {
        self.page(IndexKey::Merchant(merchant), limit, offset)
    }

    /// How many refunds name `merchant` as their merchant.
    pub fn get_refund_count_by_merchant(&self, merchant: Identity) -> (n: u64)
        requires
            self.wf(),
        ensures
            n == self.filed(IndexKey::Merchant(merchant)).len(),
    {
        self.index.count(IndexKey::Merchant(merchant))
    }

    /// The refunds to `customer`, oldest first: none where `offset` is at
    /// or beyond their number, else those from place `offset` on, `limit` of
    /// them or as many as are left.
    pub fn get_refunds_by_customer(&self, customer: Identity, limit: u64, offset: u64) -> (out:
        Vec<Refund>)
        requires
            self.wf(),
        ensures
            out@ == resolve(
                self.refunds(),
                window(self.filed(IndexKey::Customer(customer)), offset as nat, limit as nat),
            ),
    {
        self.page(IndexKey::Customer(customer), limit, offset)
    }

    /// How many refunds name `customer` as their customer.
    pub fn get_refund_count_by_customer(&self, customer: Identity) -> (n: u64)
        requires
            self.wf(),
        ensures
            n == self.filed(IndexKey::Customer(customer)).len(),
    {
        self.index.count(IndexKey::Customer(customer))
    }

    /// The refunds for the payment `payment_id`, oldest first: none where
    /// `offset` is at or beyond their number, else those from place `offset`
    /// on, `limit` of them or as many as are left.
    pub fn get_refunds_by_payment(&self, payment_id: u64, limit: u64, offset: u64) -> (out: Vec<
        Refund,
    >)
        requires
            self.wf(),
        ensures
            out@ == resolve(
                self.refunds(),
                window(self.filed(IndexKey::Payment(payment_id)), offset as nat, limit as nat),
            ),
    {
        self.page(IndexKey::Payment(payment_id), limit, offset)
    }

    /// How many refunds were requested for the payment `payment_id`.
    pub fn get_refund_count_by_payment(&self, payment_id: u64) -> (n: u64)
        requires
            self.wf(),
        ensures
            n == self.filed(IndexKey::Payment(payment_id)).len(),
    {
        self.index.count(IndexKey::Payment(payment_id))
    }

    /// Hands out the events published since the last call, oldest first,
    /// and forgets them.
    pub fn take_events(&mut self) -> (taken: Vec<RefundEvent>)
        requires
            old(self).wf(),
        ensures
            final(self).wf(),
            taken@ == old(self).events(),
            final(self).events() == Seq::<RefundEvent>::empty(),
            final(self).admin() == old(self).admin(),
            final(self).refunds() == old(self).refunds(),
            forall|key: IndexKey| final(self).filed(key) == old(self).filed(key),
    {
        let mut taken: Vec<RefundEvent> = Vec::new();
        std::mem::swap(&mut self.events, &mut taken);
        proof {
            old(self).lemma_wf_carries(self);
        }
        taken
    }
}

impl RefundContract {
    /// Identifiers are places: the refund with identifier `n` is the `n`-th
    /// that was requested, so no identifier is skipped and none is given
    /// twice.
    pub proof fn lemma_identifiers_are_places(&self)
        requires
            self.wf(),
        ensures
            forall|refund_id: u64|
                self.has_refund(refund_id) ==> (#[trigger] self.refund(refund_id)).id == refund_id,
            forall|i: int, j: int|
                0 <= i < j < self.refunds().len() ==> self.refunds()[i].id < self.refunds()[j].id,
    {
    }

    /// The administrator's decision succeeds on a requested refund and on
    /// no other.
    pub proof fn lemma_decisions_leave_requested_only(&self, admin: Identity, refund_id: u64)
        requires
            self.admin() == Some(admin),
            self.has_refund(refund_id),
        ensures
            self.decision_outcome(admin, refund_id) is Ok <==> self.refund(refund_id).status
                == RefundStatus::Requested,
            self.refund(refund_id).status != RefundStatus::Requested ==> self.decision_outcome(
                admin,
                refund_id,
            ) == Err::<(), Error>(Error::InvalidStatus),
    {
    }

    /// Once a refund was approved or rejected, approving and rejecting it
    /// are both turned down with `InvalidStatus`.
    pub proof fn lemma_decided_once(
        &self,
        later: &RefundContract,
        admin: Identity,
        refund_id: u64,
        status: RefundStatus,
    )
        requires
            self.decision_outcome(admin, refund_id) is Ok,
            status == RefundStatus::Approved || status == RefundStatus::Rejected,
            later.admin() == self.admin(),
            later.refunds() == self.with_status(refund_id, status),
        ensures
            later.decision_outcome(admin, refund_id) == Err::<(), Error>(Error::InvalidStatus),
    {
    }

    /// Settlement is open for an approved refund and for no other: in any
    /// other status the administrator is answered `NotApproved`.
    pub proof fn lemma_settlement_needs_approval(&self, admin: Identity, refund_id: u64)
        requires
            self.admin() == Some(admin),
            self.has_refund(refund_id),
        ensures
            self.settlement_outcome(admin, refund_id) is Ok <==> self.refund(refund_id).status
                == RefundStatus::Approved,
            self.refund(refund_id).status != RefundStatus::Approved ==> self.settlement_outcome(
                admin,
                refund_id,
            ) == Err::<TransferOrder, Error>(Error::NotApproved),
    {
    }

    /// A settlement whose transfer failed leaves the refund approved, with
    /// the same order open; one whose transfer then succeeds makes it
    /// `Processed`, after which settlement is closed.
    pub proof fn lemma_failed_transfer_can_be_retried(
        &self,
        failed: &RefundContract,
        retried: &RefundContract,
        admin: Identity,
        refund_id: u64,
        first: u64,
        second: u64,
        first_answer: Result<(), Error>,
        second_answer: Result<(), Error>,
    )
        requires
            self.settlement_outcome(admin, refund_id) is Ok,
            self.settles_to(failed, admin, refund_id, false, first, first_answer),
            failed.settles_to(retried, admin, refund_id, true, second, second_answer),
        ensures
            first_answer == Err::<(), Error>(Error::TransferFailed),
            failed.refund(refund_id).status == RefundStatus::Approved,
            failed.settlement_outcome(admin, refund_id) == self.settlement_outcome(
                admin,
                refund_id,
            ),
            second_answer == Ok::<(), Error>(()),
            retried.refund(refund_id).status == RefundStatus::Processed,
            retried.settlement_outcome(admin, refund_id) == Err::<TransferOrder, Error>(
                Error::NotApproved,
            ),
    {
    }

    /// The number filed under a key is the number of refunds that were
    /// requested with it.
    pub proof fn lemma_count_is_number_requested(&self, key: IndexKey)
        requires
            self.wf(),
        ensures
            self.filed(key).len() == self.refunds().filter(
                |refund: Refund| refund.files_under(key),
            ).len(),
    {
        lemma_ids_under_counts(self.refunds(), key);
    }
}

} // verus!
