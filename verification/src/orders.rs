//! The order log: the immutable order records checkout creates.
//!
//! Orders are only ever appended, never updated or deleted; an order's
//! identifier is its position in the log, so identifiers are unique and
//! assigned in creation order.

use vstd::prelude::*;

use crate::errors::CartError;
use crate::models::Order;

verus! {

/// The orders of account `a`, in creation order.
pub open spec fn orders_of(s: Seq<Order>, a: i32) -> Seq<Order>
    decreases s.len(),
{
    if s.len() == 0 {
        Seq::empty()
    } else {
        let rest = orders_of(s.drop_last(), a);
        if s.last().customer_id == a {
            rest.push(s.last())
        } else {
            rest
        }
    }
}

/// The log of every order the shop has persisted.
pub struct OrderLog {
    orders: Vec<Order>,
}

impl View for OrderLog {
    type V = Seq<Order>;

    closed spec fn view(&self) -> Seq<Order> {
        self.orders@
    }
}

impl OrderLog {
    /// Each order's identifier is its position in the log.
    pub open spec fn wf(&self) -> bool {
        forall|i: int| 0 <= i < self@.len() ==> (#[trigger] self@[i]).id == i
    }

    /// An empty log.
    pub fn new() -> (log: OrderLog)
        ensures
            log.wf(),
            log@ == Seq::<Order>::empty(),
    {
        OrderLog { orders: Vec::new() }
    }

    /// How many orders have been persisted.
    pub fn count(&self) -> (n: usize)
        ensures
            n == self@.len(),
    {
        self.orders.len()
    }

    /// Appends one new order record and returns it. Only checkout creates
    /// orders; nothing ever changes or removes one.
    pub(crate) fn place(
        &mut self,
        customer_id: i32,
        amount: u128,
        payment_type: String,
        order_date: i64,
    ) -> (o: Order)
        requires
            old(self).wf(),
            old(self)@.len() < i32::MAX,
        ensures
            final(self).wf(),
            final(self)@ == old(self)@.push(o),
            o.id == old(self)@.len(),
            o.customer_id == customer_id,
            o.amount == amount,
            o.payment_type == payment_type,
            o.order_date == order_date,
    {
        let id = self.orders.len() as i32;
        let o = Order { id, customer_id, amount, payment_type, order_date };
        let stored = o.clone();
        self.orders.push(stored);
        o
    }

    /// The authenticated account's orders, in creation order. Fails with
    /// `Unauthenticated` for an anonymous caller.
    pub fn orders_for(&self, account: Option<i32>) -> (r: Result<Vec<Order>, CartError>)
        ensures
            r is Ok <==> account is Some,
            match r {
                Ok(v) => account matches Some(a) && v@ == orders_of(self@, a),
                Err(e) => e == CartError::Unauthenticated && account is None,
            },
    {
        let a = match account {
            Some(a) => a,
            None => {
                return Err(CartError::Unauthenticated);
            },
        };
        let n = self.orders.len();
        let mut out: Vec<Order> = Vec::new();
        let mut i: usize = 0;
        while i < n
            invariant
                0 <= i <= n,
                n == self@.len(),
                out@ == orders_of(self@.take(i as int), a),
            decreases n - i,
        {
            proof {
                assert(self@.take(i + 1 as int).drop_last() =~= self@.take(i as int));
                assert(self@.take(i + 1 as int).last() == self@[i as int]);
            }
            if self.orders[i].customer_id == a {
                out.push(self.orders[i].clone());
            }
            i = i + 1;
        }
        proof {
            assert(self@.take(n as int) =~= self@);
        }
        Ok(out)
    }
}

} // verus!
