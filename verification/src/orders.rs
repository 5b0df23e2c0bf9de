//! An order domain model: typed ids, items, and a status enum that makes
//! invalid state transitions unrepresentable.

use vstd::arithmetic::mul::lemma_mul_nonnegative;
use vstd::prelude::*;

verus! {

/// Relies on std's `String::push_str`: appends the string slice onto the
/// end of this string.
pub assume_specification[ String::push_str ](s: &mut String, other: &str)
    ensures
        final(s)@ == old(s)@ + other@,
;

/// A type-safe order id.
#[derive(Clone, Copy, Debug, PartialEq, Eq, Hash, Structural)]
pub struct OrderId(pub u64);

/// A type-safe customer id.
#[derive(Clone, Copy, Debug, PartialEq, Eq, Hash, Structural)]
pub struct CustomerId(pub u64);

/// A type-safe product id.
#[derive(Clone, Copy, Debug, PartialEq, Eq, Hash, Structural)]
pub struct ProductId(pub u64);

/// One line of an order: a product, how many, and the price per unit in
/// cents.
#[derive(Clone, Copy, Debug, PartialEq, Eq, Structural)]
pub struct OrderItem {
    pub product_id: ProductId,
    pub quantity: u32,
    pub unit_price: u64,
}

/// What one item is worth: quantity times unit price.
pub open spec fn item_total(it: OrderItem) -> int {
    it.quantity as int * it.unit_price as int
}

/// What a sequence of items is worth altogether.
pub open spec fn items_total(s: Seq<OrderItem>) -> int
    decreases s.len(),
{
    if s.len() == 0 {
        0
    } else {
        items_total(s.drop_last()) + item_total(s.last())
    }
}

proof fn lemma_items_total_nonneg(s: Seq<OrderItem>)
    ensures
        items_total(s) >= 0,
    decreases s.len(),
{
    if s.len() > 0 {
        lemma_items_total_nonneg(s.drop_last());
        lemma_mul_nonnegative(s.last().quantity as int, s.last().unit_price as int);
    }
}

proof fn lemma_items_total_take_le(s: Seq<OrderItem>, i: int)
    requires
        0 <= i <= s.len(),
    ensures
        items_total(s.take(i)) <= items_total(s),
    decreases s.len() - i,
{
    if i == s.len() {
        assert(s.take(i) =~= s);
    } else {
        assert(s.take(i + 1).drop_last() =~= s.take(i));
        lemma_mul_nonnegative(s[i].quantity as int, s[i].unit_price as int);
        lemma_items_total_take_le(s, i + 1);
    }
}

impl OrderItem {
    /// Builds one order line.
    pub fn new(product_id: ProductId, quantity: u32, unit_price: u64) -> (it: OrderItem)
        ensures
            it == (OrderItem { product_id, quantity, unit_price }),
    {
        OrderItem { product_id, quantity, unit_price }
    }

    /// What this line is worth.  The caller keeps totals within `u64`,
    /// which the machine's arithmetic forces.
    pub fn total(&self) -> (t: u64)
        requires
            item_total(*self) <= u64::MAX,
        ensures
            t as int == item_total(*self),
    {
        proof {
            lemma_mul_nonnegative(self.quantity as int, self.unit_price as int);
        }
        (self.quantity as u64) * self.unit_price
    }
}

/// Carrier details, recorded when the order ships.  The timestamp is a
/// plain number (seconds) handed in by the caller, who owns the clock.
#[derive(Debug)]
pub struct ShippingInfo {
    pub carrier: String,
    pub tracking_number: String,
    pub shipped_at: u64,
}

impl Clone for ShippingInfo {
    /// An equal copy, field for field.
    fn clone(&self) -> (r: ShippingInfo)
        ensures
            r.carrier@ == self.carrier@,
            r.tracking_number@ == self.tracking_number@,
            r.shipped_at == self.shipped_at,
    {
        ShippingInfo {
            carrier: self.carrier.clone(),
            tracking_number: self.tracking_number.clone(),
            shipped_at: self.shipped_at,
        }
    }
}

/// Delivery details, recorded when the order arrives.
#[derive(Debug)]
pub struct DeliveryInfo {
    pub delivered_at: u64,
    pub signature: Option<String>,
}

/// The life of an order.  Each status carries exactly the data that
/// exists in that status and no other.
#[derive(Debug)]
pub enum OrderStatus {
    Pending,
    Shipped(ShippingInfo),
    Delivered { shipping: ShippingInfo, delivery: DeliveryInfo },
    Cancelled(String),
}

/// An order: its ids, its lines, and where it stands.
#[derive(Debug)]
pub struct Order {
    id: OrderId,
    customer_id: CustomerId,
    items: Vec<OrderItem>,
    status: OrderStatus,
}

impl Order {
    /// The order's id.
    pub closed spec fn spec_id(self) -> OrderId {
        self.id
    }

    /// The customer's id.
    pub closed spec fn spec_customer(self) -> CustomerId {
        self.customer_id
    }

    /// The order's lines, in the order they were added.
    pub closed spec fn spec_items(self) -> Seq<OrderItem> {
        self.items@
    }

    /// Where the order stands.
    pub closed spec fn spec_status(self) -> OrderStatus {
        self.status
    }

    /// A fresh, empty, pending order.
    pub fn new(id: OrderId, customer_id: CustomerId) -> (o: Order)
        ensures
            o.spec_id() == id,
            o.spec_customer() == customer_id,
            o.spec_items() == Seq::<OrderItem>::empty(),
            o.spec_status() is Pending,
    {
        Order { id, customer_id, items: Vec::new(), status: OrderStatus::Pending }
    }

    /// Appends one line.
    pub fn add_item(&mut self, item: OrderItem)
        ensures
            final(self).spec_items() == old(self).spec_items().push(item),
            final(self).spec_id() == old(self).spec_id(),
            final(self).spec_customer() == old(self).spec_customer(),
            final(self).spec_status() == old(self).spec_status(),
    {
        self.items.push(item);
    }

    /// What the whole order is worth: the sum over its lines.
    pub fn total(&self) -> (t: u64)
        requires
            items_total(self.spec_items()) <= u64::MAX,
        ensures
            t as int == items_total(self.spec_items()),
    {
        let n = self.items.len();
        let mut sum: u64 = 0;
        let mut k: usize = 0;
        while k < n
            invariant
                k <= n,
                n == self.spec_items().len(),
                items_total(self.spec_items()) <= u64::MAX,
                sum as int == items_total(self.spec_items().take(k as int)),
            decreases n - k,
        {
            proof {
                let s = self.spec_items();
                assert(s.take(k as int + 1).drop_last() =~= s.take(k as int));
                assert(s.take(k as int + 1).last() == s[k as int]);
                lemma_items_total_take_le(s, k as int + 1);
                lemma_items_total_nonneg(s.take(k as int));
                lemma_mul_nonnegative(s[k as int].quantity as int, s[k as int].unit_price as int);
            }
            let line = self.items[k].total();
            sum = sum + line;
            k = k + 1;
        }
        proof {
            assert(self.spec_items().take(n as int) =~= self.spec_items());
        }
        sum
    }

    /// Ships a pending order with the given carrier details; `shipped_at`
    /// is the caller's clock reading.  Any other status is refused
    /// unchanged.
    pub fn ship(&mut self, carrier: String, tracking_number: String, shipped_at: u64) -> (r:
        Result<(), &'static str>)
        ensures
            final(self).spec_id() == old(self).spec_id(),
            final(self).spec_customer() == old(self).spec_customer(),
            final(self).spec_items() == old(self).spec_items(),
            old(self).spec_status() is Pending ==> (r is Ok && (final(self).spec_status()
                matches OrderStatus::Shipped(info) && info.carrier == carrier
                && info.tracking_number == tracking_number && info.shipped_at == shipped_at)),
            !(old(self).spec_status() is Pending) ==> (r matches Err(m) && m@
                == "Can only ship pending orders"@ && final(self).spec_status() == old(self).spec_status()),
    {
        match &self.status {
            OrderStatus::Pending => {
                self.status = OrderStatus::Shipped(
                    ShippingInfo { carrier, tracking_number, shipped_at },
                );
                Ok(())
            },
            _ => Err("Can only ship pending orders"),
        }
    }

    /// Delivers a shipped order, keeping its shipping details;
    /// `delivered_at` is the caller's clock reading.  Any other status is
    /// refused unchanged.
    pub fn deliver(&mut self, signature: Option<String>, delivered_at: u64) -> (r: Result<
        (),
        &'static str,
    >)
        ensures
            final(self).spec_id() == old(self).spec_id(),
            final(self).spec_customer() == old(self).spec_customer(),
            final(self).spec_items() == old(self).spec_items(),
            old(self).spec_status() matches OrderStatus::Shipped(info) ==> (r is Ok && (final(self).spec_status() matches OrderStatus::Delivered { shipping, delivery }
                && shipping.carrier@ == info.carrier@ && shipping.tracking_number@
                == info.tracking_number@ && shipping.shipped_at == info.shipped_at
                && delivery.delivered_at == delivered_at && delivery.signature == signature)),
            !(old(self).spec_status() is Shipped) ==> (r matches Err(m) && m@
                == "Can only deliver shipped orders"@ && final(self).spec_status() == old(self).spec_status()),
    {
        match &self.status {
            OrderStatus::Shipped(info) => {
                let shipping = info.clone();
                self.status = OrderStatus::Delivered {
                    shipping,
                    delivery: DeliveryInfo { delivered_at, signature },
                };
                Ok(())
            },
            _ => Err("Can only deliver shipped orders"),
        }
    }

    /// Cancels a pending order with a reason.  Every other status is
    /// refused unchanged, each with its own message.
    pub fn cancel(&mut self, reason: String) -> (r: Result<(), &'static str>)
        ensures
            final(self).spec_id() == old(self).spec_id(),
            final(self).spec_customer() == old(self).spec_customer(),
            final(self).spec_items() == old(self).spec_items(),
            old(self).spec_status() is Pending ==> (r is Ok && (final(self).spec_status()
                matches OrderStatus::Cancelled(why) && why == reason)),
            old(self).spec_status() is Shipped ==> (r matches Err(m) && m@
                == "Cannot cancel shipped orders"@),
            old(self).spec_status() is Delivered ==> (r matches Err(m) && m@
                == "Cannot cancel delivered orders"@),
            old(self).spec_status() is Cancelled ==> (r matches Err(m) && m@
                == "Order already cancelled"@),
            !(old(self).spec_status() is Pending) ==> final(self).spec_status() == old(self).spec_status(),
    {
        match &self.status {
            OrderStatus::Pending => {
                self.status = OrderStatus::Cancelled(reason);
                Ok(())
            },
            OrderStatus::Shipped(_) => Err("Cannot cancel shipped orders"),
            OrderStatus::Delivered { .. } => Err("Cannot cancel delivered orders"),
            OrderStatus::Cancelled(_) => Err("Order already cancelled"),
        }
    }

    /// The tracking number, exactly when the order has shipped (and has
    /// not been cancelled before shipping).
    pub fn tracking_number(&self) -> (r: Option<&str>)
        ensures
            self.spec_status() matches OrderStatus::Shipped(info) ==> (r matches Some(s) && s@
                == info.tracking_number@),
            self.spec_status() matches OrderStatus::Delivered { shipping, delivery } ==> (r
                matches Some(s) && s@ == shipping.tracking_number@),
            self.spec_status() is Pending || self.spec_status() is Cancelled ==> r is None,
    {
        match &self.status {
            OrderStatus::Shipped(info) => Some(info.tracking_number.as_str()),
            OrderStatus::Delivered { shipping, .. } => Some(shipping.tracking_number.as_str()),
            _ => None,
        }
    }

    /// A one-line description of the status, exactly as specified per
    /// status.
    pub fn status_description(&self) -> (d: String)
        ensures
            self.spec_status() is Pending ==> d@ == "Pending"@,
            self.spec_status() matches OrderStatus::Shipped(info) ==> d@ == "Shipped via "@
                + info.carrier@ + " ("@ + info.tracking_number@ + ")"@,
            self.spec_status() matches OrderStatus::Delivered { shipping, delivery }
                ==> (delivery.signature matches Some(sig) ==> d@ == "Delivered (signed by "@
                + sig@ + ")"@) && (delivery.signature is None ==> d@ == "Delivered"@),
            self.spec_status() matches OrderStatus::Cancelled(reason) ==> d@ == "Cancelled: "@
                + reason@,
    {
        match &self.status {
            OrderStatus::Pending => "Pending".to_owned(),
            OrderStatus::Shipped(info) => {
                let mut d = "Shipped via ".to_owned();
                d.push_str(info.carrier.as_str());
                d.push_str(" (");
                d.push_str(info.tracking_number.as_str());
                d.push_str(")");
                d
            },
            OrderStatus::Delivered { delivery, .. } => {
                match &delivery.signature {
                    Some(sig) => {
                        let mut d = "Delivered (signed by ".to_owned();
                        d.push_str(sig.as_str());
                        d.push_str(")");
                        d
                    },
                    None => "Delivered".to_owned(),
                }
            },
            OrderStatus::Cancelled(reason) => {
                let mut d = "Cancelled: ".to_owned();
                d.push_str(reason.as_str());
                d
            },
        }
    }
}

} // verus!
