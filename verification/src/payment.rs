//! Payments: the record of each payment, the transitions of its status, and
//! the lookups by customer and by merchant.

use vstd::prelude::*;
use crate::identity::Identity;
use crate::index::{
    ids_under, lemma_ids_under_counts, lemma_ids_under_resolve, lemma_ids_under_same_filing,
    numbered, resolve, window, Index, IndexKey, Record,
};

verus! {

/// Where a payment stands. Every payment starts as `Pending`; the other
/// three are final.
#[derive(Clone, Copy, Debug, PartialEq, Eq, Structural)]
pub enum PaymentStatus {
    Pending,
    Completed,
    Refunded,
    Cancelled,
}

/// Why an operation on payments was turned down.
#[derive(Clone, Copy, Debug, PartialEq, Eq, Structural)]
pub enum Error {
    PaymentNotFound,
    InvalidStatus,
    AlreadyProcessed,
    Unauthorized,
}

impl Error {
    /// The number by which callers on the wire know this error.
    pub open spec fn spec_code(self) -> u32 {
        match self {
            Error::PaymentNotFound => 1,
            Error::InvalidStatus => 2,
            Error::AlreadyProcessed => 3,
            Error::Unauthorized => 4,
        }
    }

    /// The number by which callers on the wire know this error.
    pub fn code(&self) -> (c: u32)
        ensures
            c == self.spec_code(),
    {
        match self {
            Error::PaymentNotFound => 1,
            Error::InvalidStatus => 2,
            Error::AlreadyProcessed => 3,
            Error::Unauthorized => 4,
        }
    }
}

/// Published when a payment is completed.
#[derive(Clone, Copy, Debug, PartialEq, Eq, Structural)]
pub struct PaymentCompleted {
    pub payment_id: u64,
    pub merchant: Identity,
    pub amount: i128,
}

/// Published when a payment is refunded.
#[derive(Clone, Copy, Debug, PartialEq, Eq, Structural)]
pub struct PaymentRefunded {
    pub payment_id: u64,
    pub customer: Identity,
    pub amount: i128,
}

/// Published when a payment is cancelled.
#[derive(Clone, Copy, Debug, PartialEq, Eq, Structural)]
pub struct PaymentCancelled {
    pub payment_id: u64,
    pub cancelled_by: Identity,
    pub timestamp: u64,
}

/// What the payment side publishes: one event for each transition that
/// succeeded.
#[derive(Clone, Copy, Debug, PartialEq, Eq, Structural)]
pub enum PaymentEvent {
    Completed(PaymentCompleted),
    Refunded(PaymentRefunded),
    Cancelled(PaymentCancelled),
}

/// One payment. Only `status` ever changes after the payment was created.
#[derive(Clone, Copy, Debug, PartialEq, Eq, Structural)]
pub struct Payment {
    pub id: u64,
    pub customer: Identity,
    pub merchant: Identity,
    pub amount: i128,
    pub token: Identity,
    pub status: PaymentStatus,
    pub created_at: u64,
}

/// What completing a payment in this status leads to.
pub open spec fn after_complete(status: PaymentStatus) -> Result<PaymentStatus, Error> {
    match status {
        PaymentStatus::Pending => Ok(PaymentStatus::Completed),
        PaymentStatus::Completed => Err(Error::AlreadyProcessed),
        PaymentStatus::Refunded => Err(Error::InvalidStatus),
        PaymentStatus::Cancelled => Err(Error::InvalidStatus),
    }
}

/// What refunding a payment in this status leads to.
pub open spec fn after_refund(status: PaymentStatus) -> Result<PaymentStatus, Error> {
    match status {
        PaymentStatus::Pending => Ok(PaymentStatus::Refunded),
        PaymentStatus::Completed => Err(Error::InvalidStatus),
        PaymentStatus::Refunded => Err(Error::AlreadyProcessed),
        PaymentStatus::Cancelled => Err(Error::InvalidStatus),
    }
}

/// What cancelling a payment in this status leads to.
pub open spec fn after_cancel(status: PaymentStatus) -> Result<PaymentStatus, Error> {
    match status {
        PaymentStatus::Pending => Ok(PaymentStatus::Cancelled),
        PaymentStatus::Completed => Err(Error::InvalidStatus),
        PaymentStatus::Refunded => Err(Error::InvalidStatus),
        PaymentStatus::Cancelled => Err(Error::InvalidStatus),
    }
}

impl PaymentStatus {
    /// The status after completing, or why a payment in this status cannot
    /// be completed.
    pub fn complete(self) -> (next: Result<PaymentStatus, Error>)
        ensures
            next == after_complete(self),
    {
        match self {
            PaymentStatus::Pending => Ok(PaymentStatus::Completed),
            PaymentStatus::Completed => Err(Error::AlreadyProcessed),
            PaymentStatus::Refunded => Err(Error::InvalidStatus),
            PaymentStatus::Cancelled => Err(Error::InvalidStatus),
        }
    }

    /// The status after refunding, or why a payment in this status cannot
    /// be refunded.
    pub fn refund(self) -> (next: Result<PaymentStatus, Error>)
        ensures
            next == after_refund(self),
    {
        match self {
            PaymentStatus::Pending => Ok(PaymentStatus::Refunded),
            PaymentStatus::Completed => Err(Error::InvalidStatus),
            PaymentStatus::Refunded => Err(Error::AlreadyProcessed),
            PaymentStatus::Cancelled => Err(Error::InvalidStatus),
        }
    }

    /// The status after cancelling, or why a payment in this status cannot
    /// be cancelled.
    pub fn cancel(self) -> (next: Result<PaymentStatus, Error>)
        ensures
            next == after_cancel(self),
    {
        match self {
            PaymentStatus::Pending => Ok(PaymentStatus::Cancelled),
            PaymentStatus::Completed => Err(Error::InvalidStatus),
            PaymentStatus::Refunded => Err(Error::InvalidStatus),
            PaymentStatus::Cancelled => Err(Error::InvalidStatus),
        }
    }
}

impl Record for Payment {
    open spec fn id(&self) -> u64 {
        self.id
    }

    /// A payment is filed under its customer and under its merchant.
    open spec fn files_under(&self, key: IndexKey) -> bool {
        match key {
            IndexKey::Customer(customer) => self.customer == customer,
            IndexKey::Merchant(merchant) => self.merchant == merchant,
            IndexKey::Payment(_) => false,
        }
    }
}

/// The payments and their indices.
pub struct PaymentContract {
    payments: Vec<Payment>,
    index: Index,
    events: Vec<PaymentEvent>,
}

impl PaymentContract {
    /// Every payment made so far, in the order of creation.
    pub closed spec fn payments(&self) -> Seq<Payment> {
        self.payments@
    }

    /// The identifiers filed under `key`, oldest first.
    pub closed spec fn filed(&self, key: IndexKey) -> Seq<u64> {
        self.index.ids(key)
    }

    /// The events published so far and not yet taken, oldest first.
    pub closed spec fn events(&self) -> Seq<PaymentEvent> {
        self.events@
    }

    /// The index is sound in itself: it has one bucket for a key at most.
    pub closed spec fn index_wf(&self) -> bool {
        self.index.wf()
    }

    /// The payments are numbered 1, 2, 3, ... in the order of creation, and
    /// each bucket holds the identifiers of exactly the payments that belong
    /// under its key, in that order.
    pub open spec fn wf(&self) -> bool {
        &&& self.index_wf()
        &&& self.payments().len() <= u64::MAX
        &&& numbered(self.payments())
        &&& forall|key: IndexKey| self.filed(key) == ids_under(self.payments(), key)
    }

    /// Whether a payment with this identifier was created.
    pub open spec fn has_payment(&self, payment_id: u64) -> bool {
        1 <= payment_id <= self.payments().len()
    }

    /// The payment with this identifier.
    pub open spec fn payment(&self, payment_id: u64) -> Payment
        recommends
            self.has_payment(payment_id),
    {
        self.payments()[payment_id - 1]
    }

    /// The payments as they are once the status of one of them was set.
    pub open spec fn with_status(&self, payment_id: u64, status: PaymentStatus) -> Seq<Payment>
        recommends
            self.has_payment(payment_id),
    {
        self.payments().update(
            payment_id - 1,
            Payment { status, ..self.payment(payment_id) },
        )
    }

    /// What `complete_payment` answers.
    pub open spec fn complete_outcome(&self, payment_id: u64) -> Result<(), Error> {
        if !self.has_payment(payment_id) {
            Err(Error::PaymentNotFound)
        } else {
            match after_complete(self.payment(payment_id).status) {
                Ok(_) => Ok(()),
                Err(e) => Err(e),
            }
        }
    }

    /// What `refund_payment` answers.
    pub open spec fn refund_outcome(&self, payment_id: u64) -> Result<(), Error> {
        if !self.has_payment(payment_id) {
            Err(Error::PaymentNotFound)
        } else {
            match after_refund(self.payment(payment_id).status) {
                Ok(_) => Ok(()),
                Err(e) => Err(e),
            }
        }
    }

    /// What `cancel_payment` answers: a payment that does not exist is
    /// reported first, then a caller who is neither its customer nor its
    /// merchant, then a status that is no longer `Pending`.
    pub open spec fn cancel_outcome(&self, caller: Identity, payment_id: u64) -> Result<
        (),
        Error,
    > {
        if !self.has_payment(payment_id) {
            Err(Error::PaymentNotFound)
        } else if self.payment(payment_id).customer != caller && self.payment(
            payment_id,
        ).merchant != caller {
            Err(Error::Unauthorized)
        } else {
            match after_cancel(self.payment(payment_id).status) {
                Ok(_) => Ok(()),
                Err(e) => Err(e),
            }
        }
    }

    /// A contract without payments.
    pub fn new() -> (contract: PaymentContract)
        ensures
            contract.wf(),
            contract.payments() == Seq::<Payment>::empty(),
            contract.events() == Seq::<PaymentEvent>::empty(),
            forall|key: IndexKey| contract.filed(key) == Seq::<u64>::empty(),
    {
        PaymentContract { payments: Vec::new(), index: Index::new(), events: Vec::new() }
    }

    /// Whether these can be the payments of a contract: numbered 1, 2, 3,
    /// ... in their order.
    pub open spec fn restorable(payments: Seq<Payment>) -> bool {
        &&& payments.len() <= u64::MAX
        &&& numbered(payments)
    }

    /// The contract that holds these payments and has published nothing,
    /// with every payment filed under its customer and its merchant; none
    /// where the payments are not numbered 1, 2, 3, ... in their order.
    pub fn restore(payments: Vec<Payment>) -> (restored: Option<PaymentContract>)
        ensures
            restored is Some <==> Self::restorable(payments@),
            restored matches Some(contract) ==> contract.wf() && contract.payments() == payments@
                && contract.events() == Seq::<PaymentEvent>::empty(),
    {
        let mut index = Index::new();
        let mut i: usize = 0;
        while i < payments.len()
            invariant
                i <= payments.len(),
                index.wf(),
                Self::restorable(payments@.take(i as int)),
                forall|key: IndexKey| index.ids(key) == ids_under(payments@.take(i as int), key),
            decreases payments.len() - i,
        {
            let payment = payments[i];
            if i as u64 == u64::MAX || payment.id != i as u64 + 1 {
                return None;
            }
            let ghost filed = index;
            index.append(IndexKey::Customer(payment.customer), payment.id);
            index.append(IndexKey::Merchant(payment.merchant), payment.id);
            i += 1;
            proof {
                let now = payments@.take(i as int);
                assert(now.drop_last() == payments@.take(i - 1));
                assert forall|key: IndexKey| index.ids(key) == ids_under(now, key) by {
                    assert(filed.ids(key) == ids_under(now.drop_last(), key));
                }
            }
        }
        proof {
            assert(payments@.take(i as int) == payments@);
        }
        Some(PaymentContract { payments, index, events: Vec::new() })
    }

    /// Whether a payment with this identifier was created.
    pub fn contains(&self, payment_id: u64) -> (yes: bool)
        ensures
            yes == self.has_payment(payment_id),
    {
        payment_id >= 1 && payment_id <= self.payments.len() as u64
    }

    /// Where the payment with this identifier stands among the payments.
    fn place(&self, payment_id: u64) -> (i: usize)
        requires
            self.has_payment(payment_id),
        ensures
            i == payment_id - 1,
            i < self.payments.len(),
    {
        assert(payment_id <= self.payments.len());
        (payment_id - 1) as usize
    }

    /// The identifier that the next payment gets: one more than the number
    /// of payments so far.
    pub fn next_id(&self) -> (id: u64)
        requires
            self.payments().len() < u64::MAX,
        ensures
            id == self.payments().len() + 1,
    {
        self.payments.len() as u64 + 1
    }

    /// How many payments were created: the identifier of the latest one.
    pub fn payment_count(&self) -> (n: u64)
        ensures
            n == self.payments().len(),
    {
        self.payments.len() as u64
    }

    /// Records a new pending payment and files it under its customer and
    /// its merchant. The payment gets the next identifier: one more than
    /// the number of payments made before. Amount and token are taken as
    /// given. The caller has made sure that `customer` is the one who asks.
    pub fn create_payment(
        &mut self,
        customer: Identity,
        merchant: Identity,
        amount: i128,
        token: Identity,
        now: u64,
    ) -> (payment_id: u64)
        requires
            old(self).wf(),
            old(self).payments().len() < u64::MAX,
        ensures
            final(self).wf(),
            payment_id == old(self).payments().len() + 1,
            final(self).payments() == old(self).payments().push(
                Payment {
                    id: payment_id,
                    customer,
                    merchant,
                    amount,
                    token,
                    status: PaymentStatus::Pending,
                    created_at: now,
                },
            ),
            final(self).filed(IndexKey::Customer(customer)) == old(self).filed(
                IndexKey::Customer(customer),
            ).push(payment_id),
            final(self).filed(IndexKey::Merchant(merchant)) == old(self).filed(
                IndexKey::Merchant(merchant),
            ).push(payment_id),
            forall|key: IndexKey|
                key != IndexKey::Customer(customer) && key != IndexKey::Merchant(merchant)
                    ==> final(self).filed(key) == old(self).filed(key),
            final(self).events() == old(self).events(),
    {
        let payment_id: u64 = self.next_id();
        let payment = Payment {
            id: payment_id,
            customer,
            merchant,
            amount,
            token,
            status: PaymentStatus::Pending,
            created_at: now,
        };
        self.payments.push(payment);
        self.index.append(IndexKey::Customer(customer), payment_id);
        self.index.append(IndexKey::Merchant(merchant), payment_id);
        proof {
            assert(self.payments().drop_last() == old(self).payments());
            assert forall|key: IndexKey| self.filed(key) == ids_under(self.payments(), key) by {
                assert(old(self).filed(key) == ids_under(old(self).payments(), key));
            }
        }
        payment_id
    }

    /// The payment with this identifier, or `PaymentNotFound` where none
    /// was created under it.
    pub fn get_payment(&self, payment_id: u64) -> (found: Result<Payment, Error>)
        ensures
            found == if self.has_payment(payment_id) {
                Ok::<Payment, Error>(self.payment(payment_id))
            } else {
                Err::<Payment, Error>(Error::PaymentNotFound)
            },
    {
        if self.contains(payment_id) {
            Ok(self.payments[self.place(payment_id)])
        } else {
            Err(Error::PaymentNotFound)
        }
    }

    /// The invariant speaks of the payments and the index alone.
    proof fn lemma_wf_carries(&self, other: &PaymentContract)
        requires
            self.wf(),
            other.payments@ == self.payments@,
            other.index == self.index,
        ensures
            other.wf(),
            forall|key: IndexKey| other.filed(key) == self.filed(key),
    {
        assert forall|key: IndexKey| other.filed(key) == ids_under(other.payments(), key) by {
            assert(self.filed(key) == ids_under(self.payments(), key));
        }
    }

    /// Sets the status of one payment and leaves everything else as it is.
    fn put_status(&mut self, payment_id: u64, status: PaymentStatus)
        requires
            old(self).wf(),
            old(self).has_payment(payment_id),
        ensures
            final(self).wf(),
            final(self).payments() == old(self).with_status(payment_id, status),
            final(self).events() == old(self).events(),
            forall|key: IndexKey| final(self).filed(key) == old(self).filed(key),
    {
        let i: usize = self.place(payment_id);
        let payment = self.payments[i];
        self.payments.set(i, Payment { status, ..payment });
        proof {
            assert forall|key: IndexKey| self.filed(key) == ids_under(self.payments(), key) by {
                assert(old(self).filed(key) == ids_under(old(self).payments(), key));
                lemma_ids_under_same_filing(old(self).payments(), self.payments(), key);
            }
        }
    }

    /// Marks a pending payment as completed and publishes that. A payment
    /// that does not exist gives `PaymentNotFound`, one that was completed
    /// before `AlreadyProcessed`, one that was refunded or cancelled
    /// `InvalidStatus`; then nothing changes. The caller has made sure that
    /// `admin` is the one who asks.
    pub fn complete_payment(&mut self, admin: Identity, payment_id: u64) -> (done: Result<
        (),
        Error,
    >)
        requires
            old(self).wf(),
        ensures
            final(self).wf(),
            done == old(self).complete_outcome(payment_id),
            done is Ok ==> final(self).payments() == old(self).with_status(
                payment_id,
                PaymentStatus::Completed,
            ) && final(self).events() == old(self).events().push(
                PaymentEvent::Completed(
                    PaymentCompleted {
                        payment_id,
                        merchant: old(self).payment(payment_id).merchant,
                        amount: old(self).payment(payment_id).amount,
                    },
                ),
            ),
            done is Err ==> final(self).payments() == old(self).payments() && final(self).events()
                == old(self).events(),
            forall|key: IndexKey| final(self).filed(key) == old(self).filed(key),
    {
        let payment = match self.get_payment(payment_id) {
            Ok(payment) => payment,
            Err(e) => {
                return Err(e);
            },
        };
        let next = match payment.status.complete() {
            Ok(next) => next,
            Err(e) => {
                return Err(e);
            },
        };
        self.put_status(payment_id, next);
        let ghost settled = *self;
        self.events.push(
            PaymentEvent::Completed(
                PaymentCompleted { payment_id, merchant: payment.merchant, amount: payment.amount },
            ),
        );
        proof {
            settled.lemma_wf_carries(self);
        }
        Ok(())
    }

    /// Marks a pending payment as refunded and publishes that. A payment
    /// that does not exist gives `PaymentNotFound`, one that was refunded
    /// before `AlreadyProcessed`, one that was completed or cancelled
    /// `InvalidStatus`; then nothing changes. The caller has made sure that
    /// `admin` is the one who asks.
    pub fn refund_payment(&mut self, admin: Identity, payment_id: u64) -> (done: Result<
        (),
        Error,
    >)
        requires
            old(self).wf(),
        ensures
            final(self).wf(),
            done == old(self).refund_outcome(payment_id),
            done is Ok ==> final(self).payments() == old(self).with_status(
                payment_id,
                PaymentStatus::Refunded,
            ) && final(self).events() == old(self).events().push(
                PaymentEvent::Refunded(
                    PaymentRefunded {
                        payment_id,
                        customer: old(self).payment(payment_id).customer,
                        amount: old(self).payment(payment_id).amount,
                    },
                ),
            ),
            done is Err ==> final(self).payments() == old(self).payments() && final(self).events()
                == old(self).events(),
            forall|key: IndexKey| final(self).filed(key) == old(self).filed(key),
    {
        let payment = match self.get_payment(payment_id) {
            Ok(payment) => payment,
            Err(e) => {
                return Err(e);
            },
        };
        let next = match payment.status.refund() {
            Ok(next) => next,
            Err(e) => {
                return Err(e);
            },
        };
        self.put_status(payment_id, next);
        let ghost settled = *self;
        self.events.push(
            PaymentEvent::Refunded(
                PaymentRefunded { payment_id, customer: payment.customer, amount: payment.amount },
            ),
        );
        proof {
            settled.lemma_wf_carries(self);
        }
        Ok(())
    }

    /// Marks a pending payment as cancelled, at the time `now`, and
    /// publishes that. Only the payment's customer or its merchant may
    /// cancel. A payment that does not exist gives `PaymentNotFound`; any
    /// other caller `Unauthorized`; a payment that is no longer pending
    /// `InvalidStatus`, one that was cancelled before too; then nothing
    /// changes. The caller has made sure that `caller` is the one who asks.
    pub fn cancel_payment(&mut self, caller: Identity, payment_id: u64, now: u64) -> (done:
        Result<(), Error>)
        requires
            old(self).wf(),
        ensures
            final(self).wf(),
            done == old(self).cancel_outcome(caller, payment_id),
            done is Ok ==> final(self).payments() == old(self).with_status(
                payment_id,
                PaymentStatus::Cancelled,
            ) && final(self).events() == old(self).events().push(
                PaymentEvent::Cancelled(
                    PaymentCancelled { payment_id, cancelled_by: caller, timestamp: now },
                ),
            ),
            done is Err ==> final(self).payments() == old(self).payments() && final(self).events()
                == old(self).events(),
            forall|key: IndexKey| final(self).filed(key) == old(self).filed(key),
    {
        let payment = match self.get_payment(payment_id) {
            Ok(payment) => payment,
            Err(e) => {
                return Err(e);
            },
        };
        let is_authorized = payment.customer == caller || payment.merchant == caller;
        if !is_authorized {
            return Err(Error::Unauthorized);
        }
        let next = match payment.status.cancel() {
            Ok(next) => next,
            Err(e) => {
                return Err(e);
            },
        };
        self.put_status(payment_id, next);
        let ghost settled = *self;
        self.events.push(
            PaymentEvent::Cancelled(
                PaymentCancelled { payment_id, cancelled_by: caller, timestamp: now },
            ),
        );
        proof {
            settled.lemma_wf_carries(self);
        }
        Ok(())
    }

    /// The payments filed under `key` that the query selects, oldest first.
    /// An identifier that names no payment would be passed over; there is
    /// none such in a bucket.
    fn page(&self, key: IndexKey, limit: u64, offset: u64) -> (out: Vec<Payment>)
        requires
            self.wf(),
        ensures
            out@ == resolve(self.payments(), window(self.filed(key), offset as nat, limit as nat)),
    {
        let ids = self.index.page(key, limit, offset);
        proof {
            lemma_ids_under_resolve(self.payments(), key);
            crate::index::lemma_window_entries(self.filed(key), offset as nat, limit as nat);
        }
        let mut out: Vec<Payment> = Vec::new();
        let mut k: usize = 0;
        while k < ids.len()
            invariant
                k <= ids.len(),
                forall|j: int| 0 <= j < ids.len() ==> self.has_payment(#[trigger] ids[j]),
                out@ == resolve(self.payments(), ids@.take(k as int)),
            decreases ids.len() - k,
        {
            if let Ok(payment) = self.get_payment(ids[k]) {
                out.push(payment);
            }
            k += 1;
        }
        out
    }

    /// The payments of `customer`, oldest first: none where `offset` is at
    /// or beyond their number, else those from place `offset` on, `limit` of
    /// them or as many as are left.
    pub fn get_payments_by_customer(&self, customer: Identity, limit: u64, offset: u64) -> (out:
        Vec<Payment>)
        requires
            self.wf(),
        ensures
            out@ == resolve(
                self.payments(),
                window(self.filed(IndexKey::Customer(customer)), offset as nat, limit as nat),
            ),
    {
        self.page(IndexKey::Customer(customer), limit, offset)
    }

    /// How many payments name `customer` as their customer.
    pub fn get_payment_count_by_customer(&self, customer: Identity) -> (n: u64)
        requires
            self.wf(),
        ensures
            n == self.filed(IndexKey::Customer(customer)).len(),
    {
        self.index.count(IndexKey::Customer(customer))
    }

    /// The payments to `merchant`, oldest first: none where `offset` is at
    /// or beyond their number, else those from place `offset` on, `limit` of
    /// them or as many as are left.
    pub fn get_payments_by_merchant(&self, merchant: Identity, limit: u64, offset: u64) -> (out:
        Vec<Payment>)
        requires
            self.wf(),
        ensures
            out@ == resolve(
                self.payments(),
                window(self.filed(IndexKey::Merchant(merchant)), offset as nat, limit as nat),
            ),
    {
        self.page(IndexKey::Merchant(merchant), limit, offset)
    }

    /// How many payments name `merchant` as their merchant.
    pub fn get_payment_count_by_merchant(&self, merchant: Identity) -> (n: u64)
        requires
            self.wf(),
        ensures
            n == self.filed(IndexKey::Merchant(merchant)).len(),
    {
        self.index.count(IndexKey::Merchant(merchant))
    }

    /// Hands out the events published since the last call, oldest first,
    /// and forgets them.
    pub fn take_events(&mut self) -> (taken: Vec<PaymentEvent>)
        requires
            old(self).wf(),
        ensures
            final(self).wf(),
            taken@ == old(self).events(),
            final(self).events() == Seq::<PaymentEvent>::empty(),
            final(self).payments() == old(self).payments(),
            forall|key: IndexKey| final(self).filed(key) == old(self).filed(key),
    {
        let mut taken: Vec<PaymentEvent> = Vec::new();
        std::mem::swap(&mut self.events, &mut taken);
        proof {
            old(self).lemma_wf_carries(self);
        }
        taken
    }
}

impl PaymentContract {
    /// Identifiers are places: the payment with identifier `n` is the
    /// `n`-th that was created, so no identifier is skipped and none is
    /// given twice.
    pub proof fn lemma_identifiers_are_places(&self)
        requires
            self.wf(),
        ensures
            forall|payment_id: u64|
                self.has_payment(payment_id) ==> (#[trigger] self.payment(payment_id)).id
                    == payment_id,
            forall|i: int, j: int|
                0 <= i < j < self.payments().len() ==> self.payments()[i].id
                    < self.payments()[j].id,
    {
    }

    /// Each of the three transitions succeeds on a pending payment and on
    /// no other; cancelling needs the customer or the merchant besides.
    pub proof fn lemma_transitions_leave_pending_only(&self, caller: Identity, payment_id: u64)
        requires
            self.has_payment(payment_id),
        ensures
            self.complete_outcome(payment_id) is Ok <==> self.payment(payment_id).status
                == PaymentStatus::Pending,
            self.refund_outcome(payment_id) is Ok <==> self.payment(payment_id).status
                == PaymentStatus::Pending,
            self.cancel_outcome(caller, payment_id) is Ok <==> self.payment(payment_id).status
                == PaymentStatus::Pending && (caller == self.payment(payment_id).customer || caller
                == self.payment(payment_id).merchant),
    {
    }

    /// Once a transition has set a final status, every further transition
    /// is turned down: with `AlreadyProcessed` where it asks for the status
    /// that the payment has, as completing and refunding can, else with
    /// `InvalidStatus`, or with `Unauthorized` for one who may not cancel.
    pub proof fn lemma_final_status_stays(
        &self,
        later: &PaymentContract,
        caller: Identity,
        payment_id: u64,
        status: PaymentStatus,
    )
        requires
            self.has_payment(payment_id),
            status != PaymentStatus::Pending,
            later.payments() == self.with_status(payment_id, status),
        ensures
            later.has_payment(payment_id),
            later.payment(payment_id).status == status,
            later.complete_outcome(payment_id) == Err::<(), Error>(
                if status == PaymentStatus::Completed {
                    Error::AlreadyProcessed
                } else {
                    Error::InvalidStatus
                },
            ),
            later.refund_outcome(payment_id) == Err::<(), Error>(
                if status == PaymentStatus::Refunded {
                    Error::AlreadyProcessed
                } else {
                    Error::InvalidStatus
                },
            ),
            later.cancel_outcome(caller, payment_id) == Err::<(), Error>(
                if caller == self.payment(payment_id).customer || caller == self.payment(
                    payment_id,
                ).merchant {
                    Error::InvalidStatus
                } else {
                    Error::Unauthorized
                },
            ),
    {
    }

    /// The customer and the merchant of a pending payment may cancel it;
    /// anyone else is answered `Unauthorized`, whatever the status.
    pub proof fn lemma_cancel_is_for_the_parties(&self, caller: Identity, payment_id: u64)
        requires
            self.has_payment(payment_id),
        ensures
            (caller == self.payment(payment_id).customer || caller == self.payment(
                payment_id,
            ).merchant) && self.payment(payment_id).status == PaymentStatus::Pending
                ==> self.cancel_outcome(caller, payment_id) == Ok::<(), Error>(()),
            caller != self.payment(payment_id).customer && caller != self.payment(
                payment_id,
            ).merchant ==> self.cancel_outcome(caller, payment_id) == Err::<(), Error>(
                Error::Unauthorized,
            ),
    {
    }

    /// The number filed under a key is the number of payments that were
    /// created with it.
    pub proof fn lemma_count_is_number_created(&self, key: IndexKey)
        requires
            self.wf(),
        ensures
            self.filed(key).len() == self.payments().filter(
                |payment: Payment| payment.files_under(key),
            ).len(),
    {
        lemma_ids_under_counts(self.payments(), key);
    }
}

} // verus!
