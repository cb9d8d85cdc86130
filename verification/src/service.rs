//! The entity operations over the five keyed collections.
//!
//! A single service value owns the identifier counter and one collection per
//! entity type.  Every operation validates its input, touches at most two
//! collections, and reports its outcome as a `Message` value; the contracts
//! state exactly which collections change and how.

use vstd::prelude::*;

verus! {

use vstd::string::{StrSliceExecFns, StringExecFns};
use crate::records::{
    Record, Message, User, UserV, LiquorProduct, LiquorProductV, SaleRecord, SaleRecordV,
    InventoryAdjustment, InventoryAdjustmentV, SupplyChainEvent, SupplyChainEventV, fits_ceiling,
    within_ceiling,
};
use crate::collection::Collection;
use crate::store::{IdCounter, counter_value};

/// A white-space character, as `str::trim` understands it.
pub open spec fn is_space_char(c: char) -> bool {
    let u = c as u32;
    ||| u == 0x9
    ||| u == 0xA
    ||| u == 0xB
    ||| u == 0xC
    ||| u == 0xD
    ||| u == 0x20
    ||| u == 0x85
    ||| u == 0xA0
    ||| u == 0x1680
    ||| (0x2000 <= u && u <= 0x200A)
    ||| u == 0x2028
    ||| u == 0x2029
    ||| u == 0x202F
    ||| u == 0x205F
    ||| u == 0x3000
}

/// A string that trims to nothing: every character is white space.
pub open spec fn blank(s: Seq<char>) -> bool {
    forall|i: int| 0 <= i < s.len() ==> is_space_char(#[trigger] s[i])
}

/// `n` occurs contiguously inside `h`.
pub open spec fn is_substring(h: Seq<char>, n: Seq<char>) -> bool {
    exists|i: int|
        0 <= i && i + n.len() <= h.len() && #[trigger] h.subrange(i, i + n.len() as int) == n
}

/// The stock level after a signed adjustment, reduced modulo two to the
/// sixty-fourth as the narrowing arithmetic of the stored counter demands.
pub open spec fn wrap_add(stock: u64, delta: i64) -> u64 {
    let total = stock as int + delta as int;
    if total < 0 {
        (total + 0x1_0000_0000_0000_0000) as u64
    } else if total <= u64::MAX as int {
        total as u64
    } else {
        (total - 0x1_0000_0000_0000_0000) as u64
    }
}

/// The product with its stock replaced.
pub open spec fn with_stock(p: LiquorProductV, s: u64) -> LiquorProductV {
    LiquorProductV { current_stock: s, ..p }
}

/// The user with points accumulated.
pub open spec fn with_points(u: UserV, p: u64) -> UserV {
    UserV { points: p, ..u }
}

/// The user record a successful registration builds.
pub open spec fn new_user_v(id: u64, username: Seq<char>, role: Seq<char>, contact_info: Seq<
    char,
>) -> UserV {
    UserV { id, username, role, points: 0, contact_info }
}

/// Replacing a product's stock leaves its encoded length unchanged.
proof fn lemma_with_stock_len(p: LiquorProductV, s: u64)
    ensures
        LiquorProduct::enc_v(with_stock(p, s)).len() == LiquorProduct::enc_v(p).len(),
{
    vstd::bytes::lemma_auto_spec_u64_to_from_le_bytes();
}

/// Replacing a user's points leaves the encoded length unchanged.
proof fn lemma_with_points_len(u: UserV, p: u64)
    ensures
        User::enc_v(with_points(u, p)).len() == User::enc_v(u).len(),
{
    vstd::bytes::lemma_auto_spec_u64_to_from_le_bytes();
}

/// A sale record always encodes to fifty-six bytes, within its ceiling.
proof fn lemma_sale_fits(m: SaleRecordV)
    ensures
        SaleRecord::enc_v(m).len() == 56,
        fits_ceiling::<SaleRecord>(m),
{
    vstd::bytes::lemma_auto_spec_u64_to_from_le_bytes();
}

/// Every record sits under its own identifier.
pub open spec fn keyed_by_id<T: Record>(m: Map<u64, T::V>) -> bool {
    forall|k: u64| #[trigger] m.dom().contains(k) ==> T::vid(m[k]) == k
}

/// `s` lists exactly the records of `m`, in ascending identifier order.
pub open spec fn listing<T: Record>(s: Seq<T::V>, m: Map<u64, T::V>) -> bool {
    &&& forall|i: int|
        0 <= i < s.len() ==> m.dom().contains(T::vid(#[trigger] s[i])) && m[T::vid(s[i])] == s[i]
    &&& forall|i: int, j: int| 0 <= i < j < s.len() ==> T::vid(s[i]) < T::vid(s[j])
    &&& forall|k: u64|
        #[trigger] m.dom().contains(k) ==> exists|i: int|
            0 <= i < s.len() && T::vid(#[trigger] s[i]) == k
}

/// Checks that a text field is present after trimming white space.
pub fn validate_string_field(field: &str, field_name: &str) -> (r: Result<(), Message>)
    ensures
        !blank(field@) ==> r is Ok,
        blank(field@) ==> (r matches Err(m) && m matches Message::InvalidPayload(t) && t@
            == field_name@ + " cannot be empty"@),
{
    let len = field.unicode_len();
    let mut i: usize = 0;
    while i < len
        invariant
            i <= len,
            len == field@.len(),
            forall|j: int| 0 <= j < i ==> is_space_char(#[trigger] field@[j]),
        decreases len - i,
    {
        let c = field.get_char(i);
        if !exec_is_space(c) {
            return Ok(());
        }
        i += 1;
    }
    let mut msg = field_name.to_owned();
    msg.append(" cannot be empty");
    Err(Message::InvalidPayload(msg))
}

/// Executable test for `is_space_char`.
fn exec_is_space(c: char) -> (r: bool)
    ensures
        r == is_space_char(c),
{
    let u = c as u32;
    u == 0x9 || u == 0xA || u == 0xB || u == 0xC || u == 0xD || u == 0x20 || u == 0x85
        || u == 0xA0 || u == 0x1680 || (0x2000 <= u && u <= 0x200A) || u == 0x2028 || u == 0x2029
        || u == 0x202F || u == 0x205F || u == 0x3000
}

/// Relies on `str::contains`: true exactly when the pattern occurs as a
/// contiguous substring of the haystack.
#[verifier::external_body]
fn str_contains_sub(h: &str, n: &str) -> (r: bool)
    ensures
        r == is_substring(h@, n@),
{
    h.contains(n)
}

/// The record backend: one counter, five collections.
pub struct LiquorService {
    ids: IdCounter,
    users: Collection<User>,
    products: Collection<LiquorProduct>,
    sales: Collection<SaleRecord>,
    adjustments: Collection<InventoryAdjustment>,
    events: Collection<SupplyChainEvent>,
}

impl LiquorService {
    /// The identifier counter's next value.
    pub closed spec fn counter(self) -> u64 {
        counter_value(self.ids)
    }

    pub closed spec fn users_map(self) -> Map<u64, UserV> {
        self.users.view_map()
    }

    pub closed spec fn products_map(self) -> Map<u64, LiquorProductV> {
        self.products.view_map()
    }

    pub closed spec fn sales_map(self) -> Map<u64, SaleRecordV> {
        self.sales.view_map()
    }

    pub closed spec fn adjustments_map(self) -> Map<u64, InventoryAdjustmentV> {
        self.adjustments.view_map()
    }

    pub closed spec fn events_map(self) -> Map<u64, SupplyChainEventV> {
        self.events.view_map()
    }

    /// Collections are well formed and every record sits under its own id.
    pub closed spec fn wf(self) -> bool {
        &&& self.users.wf() && keyed_by_id::<User>(self.users_map())
        &&& self.products.wf() && keyed_by_id::<LiquorProduct>(self.products_map())
        &&& self.sales.wf() && keyed_by_id::<SaleRecord>(self.sales_map())
        &&& self.adjustments.wf() && keyed_by_id::<InventoryAdjustment>(self.adjustments_map())
        &&& self.events.wf() && keyed_by_id::<SupplyChainEvent>(self.events_map())
    }

    /// All collections except the named one are as they were.
    pub open spec fn same_but_users(self, o: Self) -> bool {
        self.products_map() == o.products_map() && self.sales_map() == o.sales_map()
            && self.adjustments_map() == o.adjustments_map() && self.events_map() == o.events_map()
    }

    pub open spec fn same_but_products(self, o: Self) -> bool {
        self.users_map() == o.users_map() && self.sales_map() == o.sales_map()
            && self.adjustments_map() == o.adjustments_map() && self.events_map() == o.events_map()
    }

    pub open spec fn unchanged(self, o: Self) -> bool {
        self.users_map() == o.users_map() && self.counter() == o.counter() && self.same_but_users(
            o,
        )
    }

    /// Creates a service over fresh durable memory: everything empty, the
    /// counter at zero.
    pub fn new() -> (s: Self)
        ensures
            s.wf(),
            s.counter() == 0,
            s.users_map() == Map::<u64, UserV>::empty(),
            s.products_map() == Map::<u64, LiquorProductV>::empty(),
            s.sales_map() == Map::<u64, SaleRecordV>::empty(),
            s.adjustments_map() == Map::<u64, InventoryAdjustmentV>::empty(),
            s.events_map() == Map::<u64, SupplyChainEventV>::empty(),
    {
        LiquorService {
            ids: IdCounter::new(),
            users: Collection::new(),
            products: Collection::new(),
            sales: Collection::new(),
            adjustments: Collection::new(),
            events: Collection::new(),
        }
    }

    /// Hands out the next synthetic identifier and advances the counter, so
    /// no two calls can ever return the same value.
    pub fn generate_id(&mut self) -> (id: u64)
        requires
            old(self).wf(),
            old(self).counter() < u64::MAX,
        ensures
            final(self).wf(),
            id == old(self).counter(),
            final(self).counter() == id + 1,
            final(self).users_map() == old(self).users_map(),
            final(self).same_but_users(*old(self)),
    {
        let current = self.ids.get();
        self.ids.set(current + 1);
        current
    }

    /// Registers a user: rejects blank fields, assigns a fresh identifier,
    /// starts the points accumulator at zero.
    pub fn register_user(&mut self, username: String, role: String, contact_info: String) -> (r:
        Result<User, Message>)
        requires
            old(self).wf(),
        ensures
            final(self).wf(),
            blank(username@) ==> (r matches Err(m) && m matches Message::InvalidPayload(_)
                && final(self).unchanged(*old(self))),
            !blank(username@) && blank(role@) ==> (r matches Err(m)
                && m matches Message::InvalidPayload(_) && final(self).unchanged(*old(self))),
            !blank(username@) && !blank(role@) && blank(contact_info@) ==> (r matches Err(m)
                && m matches Message::InvalidPayload(_) && final(self).unchanged(*old(self))),
            !blank(username@) && !blank(role@) && !blank(contact_info@) && old(self).counter()
                == u64::MAX ==> (r matches Err(m) && m matches Message::Error(_)
                && final(self).unchanged(*old(self))),
            blank(username@) ==> (r matches Err(m) && m matches Message::InvalidPayload(t) && t@
                == "Username"@ + " cannot be empty"@),
            !blank(username@) && blank(role@) ==> (r matches Err(m)
                && m matches Message::InvalidPayload(t) && t@ == "Role"@ + " cannot be empty"@),
            !blank(username@) && !blank(role@) && blank(contact_info@) ==> (r matches Err(m)
                && m matches Message::InvalidPayload(t) && t@ == "Contact Info"@
                + " cannot be empty"@),
            !blank(username@) && !blank(role@) && !blank(contact_info@) && old(self).counter()
                < u64::MAX && !fits_ceiling::<User>(
                new_user_v(old(self).counter(), username@, role@, contact_info@),
            ) ==> (r matches Err(m) && m matches Message::InvalidPayload(t) && t@
                == "Record exceeds its maximum encoded size"@ && final(self).unchanged(
                *old(self),
            )),
            !blank(username@) && !blank(role@) && !blank(contact_info@) && old(self).counter()
                < u64::MAX && fits_ceiling::<User>(
                new_user_v(old(self).counter(), username@, role@, contact_info@),
            ) ==> (r matches Ok(u) && u@ == new_user_v(
                old(self).counter(),
                username@,
                role@,
                contact_info@,
            ) && final(self).users_map() == old(self).users_map().insert(old(self).counter(), u@)
                && final(self).counter() == old(self).counter() + 1
                && final(self).same_but_users(*old(self))),
    {
        if let Err(m) = validate_string_field(username.as_str(), "Username") {
            return Err(m);
        }
        if let Err(m) = validate_string_field(role.as_str(), "Role") {
            return Err(m);
        }
        if let Err(m) = validate_string_field(contact_info.as_str(), "Contact Info") {
            return Err(m);
        }
        let current = self.ids.get();
        if current == u64::MAX {
            return Err(Message::Error("identifier space exhausted".to_owned()));
        }
        let user = User { id: current, username, role, points: 0, contact_info };
        if !within_ceiling(&user) {
            return Err(
                Message::InvalidPayload("Record exceeds its maximum encoded size".to_owned()),
            );
        }
        let user_id = self.generate_id();
        self.users.insert(user_id, &user);
        Ok(user)
    }

    /// The current stock of a product, or NotFound.
    pub fn check_stock_availability(&self, product_id: u64) -> (r: Result<u64, Message>)
        requires
            self.wf(),
        ensures
            self.products_map().dom().contains(product_id) ==> (r matches Ok(v) && v
                == self.products_map()[product_id].current_stock),
            !self.products_map().dom().contains(product_id) ==> (r matches Err(m)
                && m matches Message::NotFound(t) && t@ == "Product not found"@),
    {
        match self.products.get(product_id) {
            Some(p) => Ok(p.current_stock),
            None => Err(Message::NotFound("Product not found".to_owned())),
        }
    }

    /// Adds a product under its caller-supplied identifier; rejects an empty
    /// name.
    pub fn add_liquor_product(&mut self, payload: LiquorProduct) -> (r: Result<
        LiquorProduct,
        Message,
    >)
        requires
            old(self).wf(),
        ensures
            final(self).wf(),
            final(self).counter() == old(self).counter(),
            final(self).same_but_products(*old(self)),
            payload@.name.len() == 0 ==> (r matches Err(m) && m matches Message::InvalidPayload(t)
                && t@ == "Product name is required"@ && final(self).products_map() == old(self).products_map()),
            payload@.name.len() > 0 && !fits_ceiling::<LiquorProduct>(payload@) ==> (
            r matches Err(m) && m matches Message::InvalidPayload(t) && t@
                == "Record exceeds its maximum encoded size"@ && final(self).products_map() == old(
                self,
            ).products_map()),
            payload@.name.len() > 0 && fits_ceiling::<LiquorProduct>(payload@) ==> (r matches Ok(
                p,
            ) && p@ == payload@ && final(self).products_map() == old(self).products_map().insert(
                payload@.id,
                payload@,
            )),
    {
        if payload.name.as_str().is_empty() {
            return Err(Message::InvalidPayload("Product name is required".to_owned()));
        }
        if !within_ceiling(&payload) {
            return Err(
                Message::InvalidPayload("Record exceeds its maximum encoded size".to_owned()),
            );
        }
        let key = payload.id;
        self.products.insert(key, &payload);
        Ok(payload)
    }

    /// Overwrites a product's stock with an absolute value, or NotFound.
    pub fn update_stock(&mut self, product_id: u64, new_stock: u64) -> (r: Result<
        LiquorProduct,
        Message,
    >)
        requires
            old(self).wf(),
        ensures
            final(self).wf(),
            final(self).counter() == old(self).counter(),
            final(self).same_but_products(*old(self)),
            old(self).products_map().dom().contains(product_id) ==> (r matches Ok(p) && p@
                == with_stock(old(self).products_map()[product_id], new_stock) && final(self).products_map() == old(self).products_map().insert(product_id, p@)),
            !old(self).products_map().dom().contains(product_id) ==> (r matches Err(m)
                && m matches Message::NotFound(t) && t@ == "Product not found"@ && final(self).products_map() == old(self).products_map()),
    {
        match self.products.get(product_id) {
            None => Err(Message::NotFound("Product not found".to_owned())),
            Some(p) => {
                let ghost pv = p@;
                let mut updated = p;
                updated.current_stock = new_stock;
                proof {
                    lemma_with_stock_len(pv, new_stock);
                }
                let key = updated.id;
                self.products.insert(key, &updated);
                Ok(updated)
            },
        }
    }

    /// Sells a product: the stock check comes first, then the age check;
    /// on success the stock drops by exactly the quantity sold and the sale
    /// record is appended.
    pub fn sell_liquor_product(&mut self, payload: SaleRecord) -> (r: Result<SaleRecord, Message>)
        requires
            old(self).wf(),
        ensures
            final(self).wf(),
            final(self).counter() == old(self).counter(),
            final(self).users_map() == old(self).users_map(),
            final(self).adjustments_map() == old(self).adjustments_map(),
            final(self).events_map() == old(self).events_map(),
            !old(self).products_map().dom().contains(payload@.liquor_product_id) ==> (
            r matches Err(m) && m matches Message::NotFound(t) && t@ == "Product not found"@
                && final(self).products_map() == old(self).products_map() && final(self).sales_map() == old(self).sales_map()),
            old(self).products_map().dom().contains(payload@.liquor_product_id) && old(self).products_map()[payload@.liquor_product_id].current_stock < payload@.quantity ==> (
            r matches Err(m) && m matches Message::InsufficientStock(t) && t@
                == "Insufficient stock to sell the product"@ && final(self).products_map() == old(self).products_map() && final(self).sales_map() == old(self).sales_map()),
            old(self).products_map().dom().contains(payload@.liquor_product_id) && old(self).products_map()[payload@.liquor_product_id].current_stock >= payload@.quantity
                && payload@.customer_age < 21 ==> (r matches Err(m)
                && m matches Message::AgeRestriction(t) && t@
                == "Customer must be at least 21 years old to purchase"@ && final(self).products_map() == old(self).products_map() && final(self).sales_map() == old(self).sales_map()),
            old(self).products_map().dom().contains(payload@.liquor_product_id) && old(self).products_map()[payload@.liquor_product_id].current_stock >= payload@.quantity
                && payload@.customer_age >= 21 ==> (r matches Ok(s) && s@ == payload@ && final(self).products_map() == old(self).products_map().insert(
                payload@.liquor_product_id,
                with_stock(
                    old(self).products_map()[payload@.liquor_product_id],
                    (old(self).products_map()[payload@.liquor_product_id].current_stock
                        - payload@.quantity) as u64,
                ),
            ) && final(self).sales_map() == old(self).sales_map().insert(payload@.id, payload@)),
    {
        match self.products.get(payload.liquor_product_id) {
            None => Err(Message::NotFound("Product not found".to_owned())),
            Some(p) => {
                if p.current_stock < payload.quantity {
                    return Err(
                        Message::InsufficientStock(
                            "Insufficient stock to sell the product".to_owned(),
                        ),
                    );
                }
                if payload.customer_age < 21 {
                    return Err(
                        Message::AgeRestriction(
                            "Customer must be at least 21 years old to purchase".to_owned(),
                        ),
                    );
                }
                let ghost pv = p@;
                let mut updated = p;
                updated.current_stock = updated.current_stock - payload.quantity;
                proof {
                    lemma_with_stock_len(pv, updated.current_stock);
                    lemma_sale_fits(payload@);
                }
                let key = updated.id;
                self.products.insert(key, &updated);
                let sale_key = payload.id;
                self.sales.insert(sale_key, &payload);
                Ok(payload)
            },
        }
    }

    /// Applies a signed stock delta under the stored counter's narrowing
    /// arithmetic and appends the adjustment record, or NotFound.
    pub fn log_inventory_adjustment(&mut self, payload: InventoryAdjustment) -> (r: Result<
        InventoryAdjustment,
        Message,
    >)
        requires
            old(self).wf(),
        ensures
            final(self).wf(),
            final(self).counter() == old(self).counter(),
            final(self).users_map() == old(self).users_map(),
            final(self).sales_map() == old(self).sales_map(),
            final(self).events_map() == old(self).events_map(),
            !old(self).products_map().dom().contains(payload@.liquor_product_id) ==> (
            r matches Err(m) && m matches Message::NotFound(t) && t@ == "Product not found"@
                && final(self).products_map() == old(self).products_map() && final(self).adjustments_map() == old(self).adjustments_map()),
            old(self).products_map().dom().contains(payload@.liquor_product_id)
                && !fits_ceiling::<InventoryAdjustment>(payload@) ==> (r matches Err(m)
                && m matches Message::InvalidPayload(t) && t@
                == "Record exceeds its maximum encoded size"@ && final(self).products_map() == old(
                self,
            ).products_map() && final(self).adjustments_map() == old(self).adjustments_map()),
            old(self).products_map().dom().contains(payload@.liquor_product_id)
                && fits_ceiling::<InventoryAdjustment>(payload@) ==> (r matches Ok(
                a,
            ) && a@ == payload@ && final(self).products_map() == old(self).products_map().insert(
                payload@.liquor_product_id,
                with_stock(
                    old(self).products_map()[payload@.liquor_product_id],
                    wrap_add(
                        old(self).products_map()[payload@.liquor_product_id].current_stock,
                        payload@.quantity_changed,
                    ),
                ),
            ) && final(self).adjustments_map() == old(self).adjustments_map().insert(
                payload@.id,
                payload@,
            )),
    {
        match self.products.get(payload.liquor_product_id) {
            None => Err(Message::NotFound("Product not found".to_owned())),
            Some(p) => {
                if !within_ceiling(&payload) {
                    return Err(
                        Message::InvalidPayload(
                            "Record exceeds its maximum encoded size".to_owned(),
                        ),
                    );
                }
                let stock = p.current_stock;
                let delta = payload.quantity_changed;
                let new_stock: u64 = if delta >= 0 {
                    let d = delta as u64;
                    if stock <= u64::MAX - d {
                        stock + d
                    } else {
                        stock - (u64::MAX - d) - 1
                    }
                } else {
                    let d: u64 = if delta == i64::MIN {
                        0x8000_0000_0000_0000u64
                    } else {
                        (-delta) as u64
                    };
                    if stock >= d {
                        stock - d
                    } else {
                        stock + (u64::MAX - d) + 1
                    }
                };
                proof {
                    assert(new_stock == wrap_add(stock, delta));
                }
                let ghost pv = p@;
                let mut updated = p;
                updated.current_stock = new_stock;
                proof {
                    lemma_with_stock_len(pv, new_stock);
                }
                let key = updated.id;
                self.products.insert(key, &updated);
                let adj_key = payload.id;
                self.adjustments.insert(adj_key, &payload);
                Ok(payload)
            },
        }
    }

    /// Records a supply-chain event unconditionally: the referenced product
    /// is not checked for existence.
    pub fn log_supply_chain_event(&mut self, payload: SupplyChainEvent) -> (r: Result<
        SupplyChainEvent,
        Message,
    >)
        requires
            old(self).wf(),
        ensures
            final(self).wf(),
            final(self).counter() == old(self).counter(),
            final(self).users_map() == old(self).users_map(),
            final(self).products_map() == old(self).products_map(),
            final(self).sales_map() == old(self).sales_map(),
            final(self).adjustments_map() == old(self).adjustments_map(),
            !fits_ceiling::<SupplyChainEvent>(payload@) ==> (r matches Err(m)
                && m matches Message::InvalidPayload(t) && t@
                == "Record exceeds its maximum encoded size"@ && final(self).events_map() == old(
                self,
            ).events_map()),
            fits_ceiling::<SupplyChainEvent>(payload@) ==> (r matches Ok(e) && e@ == payload@
                && final(self).events_map() == old(self).events_map().insert(
                payload@.id,
                payload@,
            )),
    {
        if !within_ceiling(&payload) {
            return Err(
                Message::InvalidPayload("Record exceeds its maximum encoded size".to_owned()),
            );
        }
        let key = payload.id;
        self.events.insert(key, &payload);
        Ok(payload)
    }

    /// Accumulates points onto a user's balance; an addition that would not
    /// fit the balance is reported as an error instead of wrapping.
    pub fn update_user_points(&mut self, user_id: u64, points: u64) -> (r: Result<User, Message>)
        requires
            old(self).wf(),
        ensures
            final(self).wf(),
            final(self).counter() == old(self).counter(),
            final(self).same_but_users(*old(self)),
            !old(self).users_map().dom().contains(user_id) ==> (r matches Err(m)
                && m matches Message::NotFound(t) && t@ == "User not found"@ && final(self).users_map() == old(self).users_map()),
            old(self).users_map().dom().contains(user_id) && old(self).users_map()[user_id].points
                + points > u64::MAX ==> (r matches Err(m) && m matches Message::Error(_) && final(self).users_map() == old(self).users_map()),
            old(self).users_map().dom().contains(user_id) && old(self).users_map()[user_id].points
                + points <= u64::MAX ==> (r matches Ok(u) && u@ == with_points(
                old(self).users_map()[user_id],
                (old(self).users_map()[user_id].points + points) as u64,
            ) && final(self).users_map() == old(self).users_map().insert(user_id, u@)),
    {
        match self.users.get(user_id) {
            None => Err(Message::NotFound("User not found".to_owned())),
            Some(u) => {
                if points > u64::MAX - u.points {
                    return Err(Message::Error("points balance would overflow".to_owned()));
                }
                let ghost uv = u@;
                let mut updated = u;
                updated.points = updated.points + points;
                proof {
                    lemma_with_points_len(uv, updated.points);
                }
                let key = updated.id;
                self.users.insert(key, &updated);
                Ok(updated)
            },
        }
    }

    /// Deletes a product by identifier; related sales, adjustments and
    /// events are kept.
    pub fn delete_liquor_product(&mut self, product_id: u64) -> (r: Result<String, Message>)
        requires
            old(self).wf(),
        ensures
            final(self).wf(),
            final(self).counter() == old(self).counter(),
            final(self).same_but_products(*old(self)),
            final(self).products_map() == old(self).products_map().remove(product_id),
            old(self).products_map().dom().contains(product_id) ==> (r matches Ok(s) && s@
                == "Product deleted successfully"@),
            !old(self).products_map().dom().contains(product_id) ==> (r matches Err(m)
                && m matches Message::NotFound(t) && t@ == "Product not found"@),
    {
        match self.products.remove(product_id) {
            Some(_) => Ok("Product deleted successfully".to_owned()),
            None => Err(Message::NotFound("Product not found".to_owned())),
        }
    }

    /// A user looked up by identifier, or NotFound.
    pub fn get_user_by_id(&self, user_id: u64) -> (r: Result<User, Message>)
        requires
            self.wf(),
        ensures
            self.users_map().dom().contains(user_id) ==> (r matches Ok(u) && u@
                == self.users_map()[user_id]),
            !self.users_map().dom().contains(user_id) ==> (r matches Err(m)
                && m matches Message::NotFound(t) && t@ == "User not found"@),
    {
        match self.users.get(user_id) {
            Some(u) => Ok(u),
            None => Err(Message::NotFound("User not found".to_owned())),
        }
    }
}

/// The views of a sequence of records.
pub open spec fn views_of<T: Record>(s: Seq<T>) -> Seq<T::V> {
    s.map_values(|x: T| x@)
}

/// The products whose name contains the query.
pub open spec fn filter_by_name(s: Seq<LiquorProductV>, q: Seq<char>) -> Seq<LiquorProductV> {
    s.filter(|p: LiquorProductV| is_substring(p.name, q))
}

/// The products whose stock sits below the threshold.
pub open spec fn filter_low_stock(s: Seq<LiquorProductV>, threshold: u64) -> Seq<
    LiquorProductV,
> {
    s.filter(|p: LiquorProductV| p.current_stock < threshold)
}

/// The views of the name/price pairs of a report.
pub open spec fn pair_views(q: Seq<(String, u64)>) -> Seq<(Seq<char>, u64)> {
    q.map_values(|p: (String, u64)| (p.0@, p.1))
}

/// One sale's contribution to the report: its product's name and the sale's
/// total price, or nothing when the product is gone.
pub open spec fn report_entry(x: SaleRecordV, prods: Map<u64, LiquorProductV>) -> Seq<
    (Seq<char>, u64),
> {
    if prods.dom().contains(x.liquor_product_id) {
        seq![(prods[x.liquor_product_id].name, x.total_price)]
    } else {
        Seq::empty()
    }
}

/// The sales report: every sale joined against the product collection, in
/// sale order; sales whose product is missing are dropped.
pub open spec fn report_spec(sales: Seq<SaleRecordV>, prods: Map<u64, LiquorProductV>) -> Seq<
    (Seq<char>, u64),
>
    decreases sales.len(),
{
    if sales.len() == 0 {
        Seq::empty()
    } else {
        report_entry(sales[0], prods) + report_spec(sales.drop_first(), prods)
    }
}

/// Appending one sale appends its contribution to the report.
pub proof fn lemma_report_snoc(t: Seq<SaleRecordV>, x: SaleRecordV, m: Map<u64, LiquorProductV>)
    ensures
        report_spec(t.push(x), m) == report_spec(t, m) + report_entry(x, m),
    decreases t.len(),
{
    if t.len() == 0 {
        assert(t.push(x).len() == 1);
        assert(t.push(x)[0] == x);
        assert(t.push(x).drop_first() =~= t);
        assert(report_spec(t, m) == Seq::<(Seq<char>, u64)>::empty());
        assert(report_spec(t.push(x), m) =~= report_spec(t, m) + report_entry(x, m));
    } else {
        assert(t.push(x).drop_first() =~= t.drop_first().push(x));
        lemma_report_snoc(t.drop_first(), x, m);
        assert(t.push(x)[0] == t[0]);
        assert(report_spec(t.push(x), m) == report_entry(t[0], m) + (report_spec(t.drop_first(), m)
            + report_entry(x, m)));
        assert(report_entry(t[0], m) + (report_spec(t.drop_first(), m) + report_entry(x, m)) =~= (
        report_entry(t[0], m) + report_spec(t.drop_first(), m)) + report_entry(x, m));
    }
}

/// A sale whose product has been deleted contributes nothing: the report of
/// the sales with that sale removed is the same report.
pub proof fn lemma_report_excludes_missing(
    sales: Seq<SaleRecordV>,
    prods: Map<u64, LiquorProductV>,
    i: int,
)
    requires
        0 <= i < sales.len(),
        !prods.dom().contains(sales[i].liquor_product_id),
    ensures
        report_spec(sales, prods) == report_spec(sales.remove(i), prods),
    decreases i,
{
    if i == 0 {
        assert(report_entry(sales[0], prods) =~= Seq::<(Seq<char>, u64)>::empty());
        assert(report_entry(sales[0], prods) + report_spec(sales.drop_first(), prods)
            =~= report_spec(sales.drop_first(), prods));
        assert(sales.remove(0) =~= sales.drop_first());
    } else {
        lemma_report_excludes_missing(sales.drop_first(), prods, i - 1);
        assert(sales.remove(i).drop_first() =~= sales.drop_first().remove(i - 1));
        assert(sales.remove(i)[0] == sales[0]);
    }
}

/// Two listings of the same map are the same sequence: the contracts that
/// promise "some listing" determine the result completely.
pub proof fn lemma_listing_unique<T: Record>(a: Seq<T::V>, b: Seq<T::V>, m: Map<u64, T::V>)
    requires
        listing::<T>(a, m),
        listing::<T>(b, m),
    ensures
        a == b,
    decreases a.len(),
{
    if a.len() == 0 {
        if b.len() > 0 {
            let k = T::vid(b[0]);
            assert(m.dom().contains(k));
            assert(false);
        }
        assert(a =~= b);
    } else {
        let ka = T::vid(a[0]);
        let kb = T::vid(b[0]);
        assert(m.dom().contains(ka) && m.dom().contains(kb));
        assert(ka <= kb) by {
            let j = choose|j: int| 0 <= j < a.len() && T::vid(#[trigger] a[j]) == kb;
            if j > 0 {
                assert(T::vid(a[0]) < T::vid(a[j]));
            }
        }
        assert(kb <= ka) by {
            let j = choose|j: int| 0 <= j < b.len() && T::vid(#[trigger] b[j]) == ka;
            if j > 0 {
                assert(T::vid(b[0]) < T::vid(b[j]));
            }
        }
        assert(a[0] == m[ka] && b[0] == m[ka]);
        let m2 = m.remove(ka);
        assert(listing::<T>(a.drop_first(), m2)) by {
            assert forall|i: int| 0 <= i < a.drop_first().len() implies m2.dom().contains(
                T::vid(#[trigger] a.drop_first()[i]),
            ) && m2[T::vid(a.drop_first()[i])] == a.drop_first()[i] by {
                assert(a.drop_first()[i] == a[i + 1]);
                assert(T::vid(a[0]) < T::vid(a[i + 1]));
            }
            assert forall|k: u64| #[trigger] m2.dom().contains(k) implies exists|i: int|
                0 <= i < a.drop_first().len() && T::vid(#[trigger] a.drop_first()[i]) == k by {
                let j = choose|j: int| 0 <= j < a.len() && T::vid(#[trigger] a[j]) == k;
                assert(j != 0);
                assert(a.drop_first()[j - 1] == a[j]);
            }
        }
        assert(listing::<T>(b.drop_first(), m2)) by {
            assert forall|i: int| 0 <= i < b.drop_first().len() implies m2.dom().contains(
                T::vid(#[trigger] b.drop_first()[i]),
            ) && m2[T::vid(b.drop_first()[i])] == b.drop_first()[i] by {
                assert(b.drop_first()[i] == b[i + 1]);
                assert(T::vid(b[0]) < T::vid(b[i + 1]));
            }
            assert forall|k: u64| #[trigger] m2.dom().contains(k) implies exists|i: int|
                0 <= i < b.drop_first().len() && T::vid(#[trigger] b.drop_first()[i]) == k by {
                let j = choose|j: int| 0 <= j < b.len() && T::vid(#[trigger] b[j]) == k;
                assert(j != 0);
                assert(b.drop_first()[j - 1] == b[j]);
            }
        }
        lemma_listing_unique::<T>(a.drop_first(), b.drop_first(), m2);
        assert(a =~= b) by {
            assert forall|i: int| 0 <= i < a.len() implies a[i] == b[i] by {
                if i > 0 {
                    assert(a.drop_first()[i - 1] == b.drop_first()[i - 1]);
                }
            }
        }
    }
}

/// Identifiers are handed out strictly increasing: a later call, made once
/// the counter has moved past an earlier one, returns a strictly greater id.
pub proof fn lemma_generated_ids_strictly_increase(
    counter_at_first: u64,
    counter_at_second: u64,
    first_id: u64,
    second_id: u64,
)
    requires
        first_id == counter_at_first,
        counter_at_first < u64::MAX,
        counter_at_second >= counter_at_first + 1,
        second_id == counter_at_second,
    ensures
        second_id > first_id,
{
}

/// Strips the keys from a key/record listing.
fn values_of<T: Record>(pairs: Vec<(u64, T)>) -> (r: Vec<T>)
    ensures
        r@.len() == pairs@.len(),
        forall|i: int| 0 <= i < r@.len() ==> r@[i] == pairs@[i].1,
{
    let ghost orig = pairs@;
    let mut rest = pairs;
    let mut out: Vec<T> = Vec::new();
    while rest.len() > 0
        invariant
            out@.len() + rest@.len() == orig.len(),
            forall|i: int| 0 <= i < rest@.len() ==> rest@[i] == orig[out@.len() + i],
            forall|i: int| 0 <= i < out@.len() ==> out@[i] == orig[i].1,
        decreases rest@.len(),
    {
        let p = rest.remove(0);
        out.push(p.1);
    }
    out
}

/// Scans one collection into the ascending listing of its records.
fn list_collection<T: Record>(c: &Collection<T>) -> (r: Vec<T>)
    requires
        c.wf(),
        keyed_by_id::<T>(c.view_map()),
    ensures
        listing::<T>(views_of(r@), c.view_map()),
        views_of(r@).len() == r@.len(),
{
    let es = c.entries();
    let vals = values_of(es);
    proof {
        let s = views_of(vals@);
        assert(s.len() == vals@.len());
        assert forall|i: int| 0 <= i < s.len() implies c.view_map().dom().contains(
            T::vid(#[trigger] s[i]),
        ) && c.view_map()[T::vid(s[i])] == s[i] by {
            assert(s[i] == vals@[i]@);
            assert(vals@[i] == es@[i].1);
            assert(c.view_map().dom().contains(es@[i].0));
            assert(es@[i].1@ == c.view_map()[es@[i].0]);
        }
        assert forall|i: int, j: int| 0 <= i < j < s.len() implies T::vid(s[i]) < T::vid(
            s[j],
        ) by {
            assert(s[i] == es@[i].1@ && s[j] == es@[j].1@);
            assert(es@[i].0 < es@[j].0);
        }
        assert forall|k: u64| #[trigger] c.view_map().dom().contains(k) implies exists|i: int|
            0 <= i < s.len() && T::vid(#[trigger] s[i]) == k by {
            let i = choose|i: int| 0 <= i < es@.len() && #[trigger] es@[i].0 == k;
            assert(s[i] == es@[i].1@);
            assert(T::vid(s[i]) == k);
        }
    }
    vals
}

impl LiquorService {
    /// Every user, in ascending identifier order.
    pub fn list_all_users(&self) -> (r: Vec<User>)
        requires
            self.wf(),
        ensures
            listing::<User>(views_of(r@), self.users_map()),
    {
        list_collection(&self.users)
    }

    /// Every product, in ascending identifier order.
    pub fn list_all_products(&self) -> (r: Vec<LiquorProduct>)
        requires
            self.wf(),
        ensures
            listing::<LiquorProduct>(views_of(r@), self.products_map()),
    {
        list_collection(&self.products)
    }

    /// Every sale record, in ascending identifier order.
    pub fn list_all_sales(&self) -> (r: Vec<SaleRecord>)
        requires
            self.wf(),
        ensures
            listing::<SaleRecord>(views_of(r@), self.sales_map()),
    {
        list_collection(&self.sales)
    }

    /// Every inventory adjustment, in ascending identifier order.
    pub fn list_all_inventory_adjustments(&self) -> (r: Vec<InventoryAdjustment>)
        requires
            self.wf(),
        ensures
            listing::<InventoryAdjustment>(views_of(r@), self.adjustments_map()),
    {
        list_collection(&self.adjustments)
    }

    /// Every supply-chain event, in ascending identifier order.
    pub fn list_all_supply_chain_events(&self) -> (r: Vec<SupplyChainEvent>)
        requires
            self.wf(),
        ensures
            listing::<SupplyChainEvent>(views_of(r@), self.events_map()),
    {
        list_collection(&self.events)
    }

    /// The user with the exactly matching username of least identifier, or
    /// NotFound when no username matches.
    pub fn search_user_by_username(&self, username: String) -> (r: Result<User, Message>)
        requires
            self.wf(),
        ensures
            r matches Ok(u) ==> self.users_map().dom().contains(u@.id)
                && self.users_map()[u@.id] == u@ && u@.username == username@ && (forall|k: u64|
                #[trigger] self.users_map().dom().contains(k) && k < u@.id
                    ==> self.users_map()[k].username != username@),
            r matches Err(m) ==> (m matches Message::NotFound(t) && t@ == "User not found"@) && (
            forall|k: u64|
                #[trigger] self.users_map().dom().contains(k) ==> self.users_map()[k].username
                    != username@),
    {
        let vals = list_collection(&self.users);
        let ghost orig = views_of(vals@);
        let mut rest = vals;
        while rest.len() > 0
            invariant
                self.wf(),
                listing::<User>(orig, self.users_map()),
                rest@.len() <= orig.len(),
                forall|i: int|
                    0 <= i < rest@.len() ==> (#[trigger] rest@[i])@ == orig[orig.len()
                        - rest@.len() + i],
                forall|j: int|
                    0 <= j < orig.len() - rest@.len() ==> (#[trigger] orig[j]).username
                        != username@,
            decreases rest@.len(),
        {
            let ghost pos = orig.len() - rest@.len();
            let u = rest.remove(0);
            proof {
                assert(u@ == orig[pos]);
            }
            if u.username == username {
                proof {
                    assert(User::vid(orig[pos]) == u@.id);
                    assert forall|k: u64|
                        #[trigger] self.users_map().dom().contains(k) && k < u@.id implies
                        self.users_map()[k].username != username@ by {
                        let j = choose|j: int|
                            0 <= j < orig.len() && User::vid(#[trigger] orig[j]) == k;
                        if j >= pos {
                            if j > pos {
                                assert(User::vid(orig[pos]) < User::vid(orig[j]));
                            }
                            assert(false);
                        }
                        assert(self.users_map()[k] == orig[j]);
                    }
                }
                return Ok(u);
            }
        }
        proof {
            assert forall|k: u64| #[trigger] self.users_map().dom().contains(k) implies
                self.users_map()[k].username != username@ by {
                let j = choose|j: int| 0 <= j < orig.len() && User::vid(#[trigger] orig[j]) == k;
                assert(self.users_map()[k] == orig[j]);
            }
        }
        Err(Message::NotFound("User not found".to_owned()))
    }

    /// The products whose name contains the query, in ascending identifier
    /// order.
    pub fn search_products_by_name(&self, name: String) -> (r: Vec<LiquorProduct>)
        requires
            self.wf(),
        ensures
            exists|s: Seq<LiquorProductV>|
                #[trigger] listing::<LiquorProduct>(s, self.products_map()) && views_of(r@)
                    == filter_by_name(s, name@),
    {
        let vals = list_collection(&self.products);
        let ghost orig = views_of(vals@);
        let mut rest = vals;
        let mut out: Vec<LiquorProduct> = Vec::new();
        proof {
            reveal(Seq::filter);
            assert(orig.take(0) =~= Seq::<LiquorProductV>::empty());
        }
        while rest.len() > 0
            invariant
                rest@.len() <= orig.len(),
                forall|i: int|
                    0 <= i < rest@.len() ==> (#[trigger] rest@[i])@ == orig[orig.len()
                        - rest@.len() + i],
                views_of(out@) == filter_by_name(orig.take(orig.len() - rest@.len()), name@),
            decreases rest@.len(),
        {
            let ghost pos = orig.len() - rest@.len();
            let p = rest.remove(0);
            proof {
                reveal(Seq::filter);
                assert(p@ == orig[pos]);
                assert(orig.take(pos + 1).drop_last() =~= orig.take(pos));
                assert(orig.take(pos + 1).last() == orig[pos]);
            }
            if str_contains_sub(p.name.as_str(), name.as_str()) {
                out.push(p);
                proof {
                    reveal(Seq::filter);
                    assert(views_of(out@) =~= filter_by_name(orig.take(pos + 1), name@));
                }
            } else {
                proof {
                    reveal(Seq::filter);
                    assert(views_of(out@) =~= filter_by_name(orig.take(pos + 1), name@));
                }
            }
        }
        proof {
            assert(orig.take(orig.len() as int) =~= orig);
        }
        out
    }

    /// The products with stock strictly below the threshold, in ascending
    /// identifier order.
    pub fn list_low_stock_products(&self, threshold: u64) -> (r: Vec<LiquorProduct>)
        requires
            self.wf(),
        ensures
            exists|s: Seq<LiquorProductV>|
                #[trigger] listing::<LiquorProduct>(s, self.products_map()) && views_of(r@)
                    == filter_low_stock(s, threshold),
    {
        let vals = list_collection(&self.products);
        let ghost orig = views_of(vals@);
        let mut rest = vals;
        let mut out: Vec<LiquorProduct> = Vec::new();
        proof {
            reveal(Seq::filter);
            assert(orig.take(0) =~= Seq::<LiquorProductV>::empty());
        }
        while rest.len() > 0
            invariant
                rest@.len() <= orig.len(),
                forall|i: int|
                    0 <= i < rest@.len() ==> (#[trigger] rest@[i])@ == orig[orig.len()
                        - rest@.len() + i],
                views_of(out@) == filter_low_stock(orig.take(orig.len() - rest@.len()), threshold),
            decreases rest@.len(),
        {
            let ghost pos = orig.len() - rest@.len();
            let p = rest.remove(0);
            proof {
                reveal(Seq::filter);
                assert(p@ == orig[pos]);
                assert(orig.take(pos + 1).drop_last() =~= orig.take(pos));
                assert(orig.take(pos + 1).last() == orig[pos]);
            }
            if p.current_stock < threshold {
                out.push(p);
                proof {
                    reveal(Seq::filter);
                    assert(views_of(out@) =~= filter_low_stock(orig.take(pos + 1), threshold));
                }
            } else {
                proof {
                    reveal(Seq::filter);
                    assert(views_of(out@) =~= filter_low_stock(orig.take(pos + 1), threshold));
                }
            }
        }
        proof {
            assert(orig.take(orig.len() as int) =~= orig);
        }
        out
    }

    /// Joins every sale against the product collection: one name/price pair
    /// per sale whose product still exists, in sale order.
    pub fn generate_sales_report(&self) -> (r: Vec<(String, u64)>)
        requires
            self.wf(),
        ensures
            exists|s: Seq<SaleRecordV>|
                #[trigger] listing::<SaleRecord>(s, self.sales_map()) && pair_views(r@)
                    == report_spec(s, self.products_map()),
    {
        let vals = list_collection(&self.sales);
        let ghost orig = views_of(vals@);
        let mut rest = vals;
        let mut out: Vec<(String, u64)> = Vec::new();
        while rest.len() > 0
            invariant
                self.wf(),
                rest@.len() <= orig.len(),
                forall|i: int|
                    0 <= i < rest@.len() ==> (#[trigger] rest@[i])@ == orig[orig.len()
                        - rest@.len() + i],
                pair_views(out@) == report_spec(
                    orig.take(orig.len() - rest@.len()),
                    self.products_map(),
                ),
            decreases rest@.len(),
        {
            let ghost pos = orig.len() - rest@.len();
            let sale = rest.remove(0);
            proof {
                assert(sale@ == orig[pos]);
                assert(orig.take(pos + 1) =~= orig.take(pos).push(orig[pos]));
                lemma_report_snoc(orig.take(pos), orig[pos], self.products_map());
            }
            match self.products.get(sale.liquor_product_id) {
                Some(product) => {
                    out.push((product.name, sale.total_price));
                    proof {
                        assert(pair_views(out@) =~= report_spec(
                            orig.take(pos + 1),
                            self.products_map(),
                        ));
                    }
                },
                None => {
                    proof {
                        assert(pair_views(out@) =~= report_spec(
                            orig.take(pos + 1),
                            self.products_map(),
                        ));
                    }
                },
            }
        }
        proof {
            assert(orig.take(orig.len() as int) =~= orig);
        }
        out
    }
}

} // verus!
