//! The entity records, their mathematical views, and their byte codecs.
//!
//! Each record type carries a ghost view struct whose string fields are
//! character sequences.  The codec is specified against the view: `enc_v`
//! gives the exact byte string a view encodes to, `encode` produces it, and
//! `decode` recovers any encoded view, which proves the round trip.

use vstd::prelude::*;

verus! {

use vstd::bytes::{spec_u64_to_le_bytes, u64_to_le_bytes, lemma_auto_spec_u64_to_from_le_bytes};
use crate::codec::{
    enc_u64, enc_i64, enc_str, enc_opt_str, opt_view, starts_with, push_u64, push_i64,
    push_str_field, push_opt_str, read_u64, read_i64, read_str, read_opt_str, lemma_parts_at,
    lemma_segment_starts, lemma_join,
};

/// The closed set of outcome messages every fallible operation reports.
#[derive(Debug, Clone, PartialEq)]
pub enum Message {
    Success(String),
    Error(String),
    NotFound(String),
    InvalidPayload(String),
    InsufficientStock(String),
    AgeRestriction(String),
}

/// A record that can be persisted in a keyed collection.
pub trait Record: View + Sized {
    /// The byte string a view encodes to.
    spec fn enc_v(m: Self::V) -> Seq<u8>;

    /// The synthetic identifier carried by the record.
    spec fn vid(m: Self::V) -> u64;

    /// Serializes the record.
    fn encode(&self) -> (b: Vec<u8>)
        ensures
            b@ == Self::enc_v(self@);

    /// Deserializes a record: recovers every encoded view exactly, and
    /// accepts nothing that is not an exact encoding.
    fn decode(b: &[u8]) -> (r: Option<Self>)
        ensures
            forall|m: Self::V|
                b@ == #[trigger] Self::enc_v(m) ==> (r matches Some(u) && u@ == m),
            r matches Some(u) ==> b@ == Self::enc_v(u@),
    ;

    /// The declared ceiling on a record's encoded size; storing a larger
    /// record is a defect, so the operations reject one before it enters.
    spec fn max_enc() -> nat;

    /// The ceiling as a runtime value.
    fn max_bytes() -> (n: u64)
        ensures
            n as nat == Self::max_enc(),
    ;
}

/// Whether a record's encoding stays within its type's declared ceiling.
pub open spec fn fits_ceiling<T: Record>(m: T::V) -> bool {
    T::enc_v(m).len() <= T::max_enc()
}

/// Runtime test of the encoded-size ceiling.
pub fn within_ceiling<T: Record>(rec: &T) -> (b: bool)
    ensures
        b == fits_ceiling::<T>(rec@),
{
    let bytes = rec.encode();
    let cap = T::max_bytes();
    bytes.len() as u64 <= cap
}

/// A registered user.
#[derive(Debug, Clone, PartialEq)]
pub struct User {
    pub id: u64,
    pub username: String,
    pub role: String,
    pub points: u64,
    pub contact_info: String,
}

/// The mathematical view of a user record.
pub ghost struct UserV {
    pub id: u64,
    pub username: Seq<char>,
    pub role: Seq<char>,
    pub points: u64,
    pub contact_info: Seq<char>,
}

impl View for User {
    type V = UserV;

    open spec fn view(&self) -> UserV {
        UserV {
            id: self.id,
            username: self.username@,
            role: self.role@,
            points: self.points,
            contact_info: self.contact_info@,
        }
    }
}

/// Field offsets inside an encoded user record.
pub open spec fn user_off_role(m: UserV) -> int {
    8 + enc_str(m.username).len() as int
}

pub open spec fn user_off_points(m: UserV) -> int {
    user_off_role(m) + enc_str(m.role).len() as int
}

pub open spec fn user_off_contact(m: UserV) -> int {
    user_off_points(m) + 8
}

/// Where each field of an encoded user record sits.
proof fn peel_user(b: Seq<u8>, m: UserV)
    requires
        b == User::enc_v(m),
    ensures
        8 <= user_off_role(m) <= user_off_points(m) <= user_off_contact(m) <= b.len(),
        b.subrange(0, 8) == spec_u64_to_le_bytes(m.id),
        starts_with(b.subrange(8, b.len() as int), enc_str(m.username)),
        starts_with(b.subrange(user_off_role(m), b.len() as int), enc_str(m.role)),
        b.subrange(user_off_points(m), user_off_points(m) + 8) == spec_u64_to_le_bytes(m.points),
        starts_with(b.subrange(user_off_contact(m), b.len() as int), enc_str(m.contact_info)),
        user_off_contact(m) + enc_str(m.contact_info).len() == b.len(),
{
    lemma_auto_spec_u64_to_from_le_bytes();
    let e1 = enc_u64(m.id);
    let e2 = enc_str(m.username);
    let e3 = enc_str(m.role);
    let e4 = enc_u64(m.points);
    let e5 = enc_str(m.contact_info);
    assert(b.subrange(0, b.len() as int) =~= b);
    lemma_parts_at(b, 0, b.len() as int, (((e1 + e2) + e3) + e4), e5);
    let l4 = (((e1 + e2) + e3) + e4).len() as int;
    lemma_parts_at(b, 0, l4, ((e1 + e2) + e3), e4);
    let l3 = ((e1 + e2) + e3).len() as int;
    lemma_parts_at(b, 0, l3, (e1 + e2), e3);
    let l2 = (e1 + e2).len() as int;
    lemma_parts_at(b, 0, l2, e1, e2);
    lemma_segment_starts(b, 8, e2);
    lemma_segment_starts(b, user_off_role(m), e3);
    lemma_segment_starts(b, user_off_contact(m), e5);
}

impl Record for User {
    open spec fn enc_v(m: UserV) -> Seq<u8> {
        enc_u64(m.id) + enc_str(m.username) + enc_str(m.role) + enc_u64(m.points) + enc_str(
            m.contact_info,
        )
    }

    open spec fn vid(m: UserV) -> u64 {
        m.id
    }

    open spec fn max_enc() -> nat {
        512
    }

    fn max_bytes() -> (n: u64) {
        512
    }

    fn encode(&self) -> (b: Vec<u8>) {
        let mut out = u64_to_le_bytes(self.id);
        push_str_field(&mut out, self.username.as_str());
        push_str_field(&mut out, self.role.as_str());
        push_u64(&mut out, self.points);
        push_str_field(&mut out, self.contact_info.as_str());
        out
    }

    fn decode(b: &[u8]) -> (r: Option<Self>) {
        match read_u64(b, 0) {
            None => {
                proof {
                    assert forall|m: UserV| b@ == Self::enc_v(m) implies false by {
                        peel_user(b@, m);
                    }
                }
                None
            },
            Some((id, o2)) => match read_str(b, o2) {
                None => {
                    proof {
                        assert forall|m: UserV| b@ == Self::enc_v(m) implies false by {
                            peel_user(b@, m);
                        }
                    }
                    None
                },
                Some((username, o3)) => match read_str(b, o3) {
                    None => {
                        proof {
                            assert forall|m: UserV| b@ == Self::enc_v(m) implies false by {
                                peel_user(b@, m);
                            }
                        }
                        None
                    },
                    Some((role, o4)) => match read_u64(b, o4) {
                        None => {
                            proof {
                                assert forall|m: UserV| b@ == Self::enc_v(m) implies false by {
                                    peel_user(b@, m);
                                }
                            }
                            None
                        },
                        Some((points, o5)) => match read_str(b, o5) {
                            None => {
                                proof {
                                    assert forall|m: UserV| b@ == Self::enc_v(m) implies false by {
                                        peel_user(b@, m);
                                    }
                                }
                                None
                            },
                            Some((contact_info, o6)) => {
                                if o6 != b.len() {
                                    proof {
                                        assert forall|m: UserV|
                                            b@ == Self::enc_v(m) implies false by {
                                            peel_user(b@, m);
                                        }
                                    }
                                    return None;
                                }
                                let u = User { id, username, role, points, contact_info };
                                proof {
                                    lemma_auto_spec_u64_to_from_le_bytes();
                                    assert forall|m: UserV| b@ == Self::enc_v(m) implies u@
                                        == m by {
                                        peel_user(b@, m);
                                    }
                                    lemma_join(b@, 8, o3 as int, enc_u64(id), enc_str(username@));
                                    lemma_join(
                                        b@,
                                        o3 as int,
                                        o4 as int,
                                        enc_u64(id) + enc_str(username@),
                                        enc_str(role@),
                                    );
                                    lemma_join(
                                        b@,
                                        o4 as int,
                                        o5 as int,
                                        enc_u64(id) + enc_str(username@) + enc_str(role@),
                                        enc_u64(points),
                                    );
                                    lemma_join(
                                        b@,
                                        o5 as int,
                                        o6 as int,
                                        enc_u64(id) + enc_str(username@) + enc_str(role@)
                                            + enc_u64(points),
                                        enc_str(contact_info@),
                                    );
                                    assert(b@.subrange(0, b@.len() as int) =~= b@);
                                    assert(b@ == Self::enc_v(u@));
                                }
                                Some(u)
                            },
                        },
                    },
                },
            },
        }
    }
}

/// A sale of a product to a customer.
#[derive(Debug, Clone, PartialEq)]
pub struct SaleRecord {
    pub id: u64,
    pub liquor_product_id: u64,
    pub quantity: u64,
    pub total_price: u64,
    pub sale_date: u64,
    pub sales_staff_id: u64,
    pub customer_age: u64,
}

/// The mathematical view of a sale record.
pub ghost struct SaleRecordV {
    pub id: u64,
    pub liquor_product_id: u64,
    pub quantity: u64,
    pub total_price: u64,
    pub sale_date: u64,
    pub sales_staff_id: u64,
    pub customer_age: u64,
}

impl View for SaleRecord {
    type V = SaleRecordV;

    open spec fn view(&self) -> SaleRecordV {
        SaleRecordV {
            id: self.id,
            liquor_product_id: self.liquor_product_id,
            quantity: self.quantity,
            total_price: self.total_price,
            sale_date: self.sale_date,
            sales_staff_id: self.sales_staff_id,
            customer_age: self.customer_age,
        }
    }
}

/// Where each field of an encoded sale record sits.
proof fn peel_sale(b: Seq<u8>, m: SaleRecordV)
    requires
        b == SaleRecord::enc_v(m),
    ensures
        b.len() == 56,
        b.subrange(0, 8) == spec_u64_to_le_bytes(m.id),
        b.subrange(8, 16) == spec_u64_to_le_bytes(m.liquor_product_id),
        b.subrange(16, 24) == spec_u64_to_le_bytes(m.quantity),
        b.subrange(24, 32) == spec_u64_to_le_bytes(m.total_price),
        b.subrange(32, 40) == spec_u64_to_le_bytes(m.sale_date),
        b.subrange(40, 48) == spec_u64_to_le_bytes(m.sales_staff_id),
        b.subrange(48, 56) == spec_u64_to_le_bytes(m.customer_age),
{
    lemma_auto_spec_u64_to_from_le_bytes();
    let e1 = enc_u64(m.id);
    let e2 = enc_u64(m.liquor_product_id);
    let e3 = enc_u64(m.quantity);
    let e4 = enc_u64(m.total_price);
    let e5 = enc_u64(m.sale_date);
    let e6 = enc_u64(m.sales_staff_id);
    let e7 = enc_u64(m.customer_age);
    assert(b.subrange(0, b.len() as int) =~= b);
    lemma_parts_at(b, 0, b.len() as int, (((((e1 + e2) + e3) + e4) + e5) + e6), e7);
    lemma_parts_at(b, 0, 48, ((((e1 + e2) + e3) + e4) + e5), e6);
    lemma_parts_at(b, 0, 40, (((e1 + e2) + e3) + e4), e5);
    lemma_parts_at(b, 0, 32, ((e1 + e2) + e3), e4);
    lemma_parts_at(b, 0, 24, (e1 + e2), e3);
    lemma_parts_at(b, 0, 16, e1, e2);
}

impl Record for SaleRecord {
    open spec fn enc_v(m: SaleRecordV) -> Seq<u8> {
        enc_u64(m.id) + enc_u64(m.liquor_product_id) + enc_u64(m.quantity) + enc_u64(m.total_price)
            + enc_u64(m.sale_date) + enc_u64(m.sales_staff_id) + enc_u64(m.customer_age)
    }

    open spec fn vid(m: SaleRecordV) -> u64 {
        m.id
    }

    open spec fn max_enc() -> nat {
        512
    }

    fn max_bytes() -> (n: u64) {
        512
    }

    fn encode(&self) -> (b: Vec<u8>) {
        let mut out = u64_to_le_bytes(self.id);
        push_u64(&mut out, self.liquor_product_id);
        push_u64(&mut out, self.quantity);
        push_u64(&mut out, self.total_price);
        push_u64(&mut out, self.sale_date);
        push_u64(&mut out, self.sales_staff_id);
        push_u64(&mut out, self.customer_age);
        out
    }

    fn decode(b: &[u8]) -> (r: Option<Self>) {
        proof {
            lemma_auto_spec_u64_to_from_le_bytes();
        }
        let r1 = read_u64(b, 0);
        let r2 = read_u64(b, 8);
        let r3 = read_u64(b, 16);
        let r4 = read_u64(b, 24);
        let r5 = read_u64(b, 32);
        let r6 = read_u64(b, 40);
        let r7 = read_u64(b, 48);
        match (r1, r2, r3, r4, r5, r6, r7) {
            (
                Some((id, _)),
                Some((liquor_product_id, _)),
                Some((quantity, _)),
                Some((total_price, _)),
                Some((sale_date, _)),
                Some((sales_staff_id, _)),
                Some((customer_age, _)),
            ) => {
                if b.len() != 56 {
                    proof {
                        assert forall|m: SaleRecordV| b@ == Self::enc_v(m) implies false by {
                            peel_sale(b@, m);
                        }
                    }
                    return None;
                }
                let s = SaleRecord {
                    id,
                    liquor_product_id,
                    quantity,
                    total_price,
                    sale_date,
                    sales_staff_id,
                    customer_age,
                };
                proof {
                    assert forall|m: SaleRecordV| b@ == Self::enc_v(m) implies s@ == m by {
                        peel_sale(b@, m);
                    }
                    lemma_join(b@, 8, 16, enc_u64(id), enc_u64(liquor_product_id));
                    lemma_join(
                        b@,
                        16,
                        24,
                        enc_u64(id) + enc_u64(liquor_product_id),
                        enc_u64(quantity),
                    );
                    lemma_join(
                        b@,
                        24,
                        32,
                        enc_u64(id) + enc_u64(liquor_product_id) + enc_u64(quantity),
                        enc_u64(total_price),
                    );
                    lemma_join(
                        b@,
                        32,
                        40,
                        enc_u64(id) + enc_u64(liquor_product_id) + enc_u64(quantity) + enc_u64(
                            total_price,
                        ),
                        enc_u64(sale_date),
                    );
                    lemma_join(
                        b@,
                        40,
                        48,
                        enc_u64(id) + enc_u64(liquor_product_id) + enc_u64(quantity) + enc_u64(
                            total_price,
                        ) + enc_u64(sale_date),
                        enc_u64(sales_staff_id),
                    );
                    lemma_join(
                        b@,
                        48,
                        56,
                        enc_u64(id) + enc_u64(liquor_product_id) + enc_u64(quantity) + enc_u64(
                            total_price,
                        ) + enc_u64(sale_date) + enc_u64(sales_staff_id),
                        enc_u64(customer_age),
                    );
                    assert(b@.subrange(0, b@.len() as int) =~= b@);
                    assert(b@ == Self::enc_v(s@));
                }
                Some(s)
            },
            _ => {
                proof {
                    assert forall|m: SaleRecordV| b@ == Self::enc_v(m) implies false by {
                        peel_sale(b@, m);
                    }
                }
                None
            },
        }
    }
}

/// A manual correction applied to a product's stock level.
#[derive(Debug, Clone, PartialEq)]
pub struct InventoryAdjustment {
    pub id: u64,
    pub liquor_product_id: u64,
    pub quantity_changed: i64,
    pub reason: String,
    pub adjusted_by: u64,
    pub adjustment_date: u64,
}

/// The mathematical view of an inventory adjustment.
pub ghost struct InventoryAdjustmentV {
    pub id: u64,
    pub liquor_product_id: u64,
    pub quantity_changed: i64,
    pub reason: Seq<char>,
    pub adjusted_by: u64,
    pub adjustment_date: u64,
}

impl View for InventoryAdjustment {
    type V = InventoryAdjustmentV;

    open spec fn view(&self) -> InventoryAdjustmentV {
        InventoryAdjustmentV {
            id: self.id,
            liquor_product_id: self.liquor_product_id,
            quantity_changed: self.quantity_changed,
            reason: self.reason@,
            adjusted_by: self.adjusted_by,
            adjustment_date: self.adjustment_date,
        }
    }
}

/// Field offsets inside an encoded inventory adjustment.
pub open spec fn adj_off_by(m: InventoryAdjustmentV) -> int {
    24 + enc_str(m.reason).len() as int
}

/// Where each field of an encoded inventory adjustment sits.
proof fn peel_adjustment(b: Seq<u8>, m: InventoryAdjustmentV)
    requires
        b == InventoryAdjustment::enc_v(m),
    ensures
        24 <= adj_off_by(m),
        adj_off_by(m) + 16 == b.len(),
        b.subrange(0, 8) == spec_u64_to_le_bytes(m.id),
        b.subrange(8, 16) == spec_u64_to_le_bytes(m.liquor_product_id),
        b.subrange(16, 24) == enc_i64(m.quantity_changed),
        starts_with(b.subrange(24, b.len() as int), enc_str(m.reason)),
        b.subrange(adj_off_by(m), adj_off_by(m) + 8) == spec_u64_to_le_bytes(m.adjusted_by),
        b.subrange(adj_off_by(m) + 8, adj_off_by(m) + 16) == spec_u64_to_le_bytes(
            m.adjustment_date,
        ),
{
    lemma_auto_spec_u64_to_from_le_bytes();
    let e1 = enc_u64(m.id);
    let e2 = enc_u64(m.liquor_product_id);
    let e3 = enc_i64(m.quantity_changed);
    let e4 = enc_str(m.reason);
    let e5 = enc_u64(m.adjusted_by);
    let e6 = enc_u64(m.adjustment_date);
    assert(b.subrange(0, b.len() as int) =~= b);
    lemma_parts_at(b, 0, b.len() as int, ((((e1 + e2) + e3) + e4) + e5), e6);
    lemma_parts_at(b, 0, adj_off_by(m) + 8, (((e1 + e2) + e3) + e4), e5);
    lemma_parts_at(b, 0, adj_off_by(m), ((e1 + e2) + e3), e4);
    lemma_parts_at(b, 0, 24, (e1 + e2), e3);
    lemma_parts_at(b, 0, 16, e1, e2);
    lemma_segment_starts(b, 24, e4);
}

impl Record for InventoryAdjustment {
    open spec fn enc_v(m: InventoryAdjustmentV) -> Seq<u8> {
        enc_u64(m.id) + enc_u64(m.liquor_product_id) + enc_i64(m.quantity_changed) + enc_str(
            m.reason,
        ) + enc_u64(m.adjusted_by) + enc_u64(m.adjustment_date)
    }

    open spec fn vid(m: InventoryAdjustmentV) -> u64 {
        m.id
    }

    open spec fn max_enc() -> nat {
        512
    }

    fn max_bytes() -> (n: u64) {
        512
    }

    fn encode(&self) -> (b: Vec<u8>) {
        let mut out = u64_to_le_bytes(self.id);
        push_u64(&mut out, self.liquor_product_id);
        push_i64(&mut out, self.quantity_changed);
        push_str_field(&mut out, self.reason.as_str());
        push_u64(&mut out, self.adjusted_by);
        push_u64(&mut out, self.adjustment_date);
        out
    }

    fn decode(b: &[u8]) -> (r: Option<Self>) {
        proof {
            lemma_auto_spec_u64_to_from_le_bytes();
        }
        match (read_u64(b, 0), read_u64(b, 8), read_i64(b, 16)) {
            (Some((id, _)), Some((liquor_product_id, _)), Some((quantity_changed, _))) => {
                match read_str(b, 24) {
                    None => {
                        proof {
                            assert forall|m: InventoryAdjustmentV|
                                b@ == Self::enc_v(m) implies false by {
                                peel_adjustment(b@, m);
                            }
                        }
                        None
                    },
                    Some((reason, o5)) => match read_u64(b, o5) {
                        Some((adjusted_by, o6)) => match read_u64(b, o6) {
                            Some((adjustment_date, o7)) => {
                                if o7 != b.len() {
                                    proof {
                                        assert forall|m: InventoryAdjustmentV|
                                            b@ == Self::enc_v(m) implies false by {
                                            peel_adjustment(b@, m);
                                        }
                                    }
                                    return None;
                                }
                                let a = InventoryAdjustment {
                                    id,
                                    liquor_product_id,
                                    quantity_changed,
                                    reason,
                                    adjusted_by,
                                    adjustment_date,
                                };
                                proof {
                                    assert forall|m: InventoryAdjustmentV|
                                        b@ == Self::enc_v(m) implies a@ == m by {
                                        peel_adjustment(b@, m);
                                    }
                                    lemma_join(b@, 8, 16, enc_u64(id), enc_u64(liquor_product_id));
                                    lemma_join(
                                        b@,
                                        16,
                                        24,
                                        enc_u64(id) + enc_u64(liquor_product_id),
                                        enc_i64(quantity_changed),
                                    );
                                    lemma_join(
                                        b@,
                                        24,
                                        o5 as int,
                                        enc_u64(id) + enc_u64(liquor_product_id) + enc_i64(
                                            quantity_changed,
                                        ),
                                        enc_str(reason@),
                                    );
                                    lemma_join(
                                        b@,
                                        o5 as int,
                                        o6 as int,
                                        enc_u64(id) + enc_u64(liquor_product_id) + enc_i64(
                                            quantity_changed,
                                        ) + enc_str(reason@),
                                        enc_u64(adjusted_by),
                                    );
                                    lemma_join(
                                        b@,
                                        o6 as int,
                                        o7 as int,
                                        enc_u64(id) + enc_u64(liquor_product_id) + enc_i64(
                                            quantity_changed,
                                        ) + enc_str(reason@) + enc_u64(adjusted_by),
                                        enc_u64(adjustment_date),
                                    );
                                    assert(b@.subrange(0, b@.len() as int) =~= b@);
                                    assert(b@ == Self::enc_v(a@));
                                }
                                Some(a)
                            },
                            None => {
                                proof {
                                    assert forall|m: InventoryAdjustmentV|
                                        b@ == Self::enc_v(m) implies false by {
                                        peel_adjustment(b@, m);
                                    }
                                }
                                None
                            },
                        },
                        None => {
                            proof {
                                assert forall|m: InventoryAdjustmentV|
                                    b@ == Self::enc_v(m) implies false by {
                                    peel_adjustment(b@, m);
                                }
                            }
                            None
                        },
                    },
                }
            },
            _ => {
                proof {
                    assert forall|m: InventoryAdjustmentV| b@ == Self::enc_v(m) implies false by {
                        peel_adjustment(b@, m);
                    }
                }
                None
            },
        }
    }
}

/// A movement of product through the supply chain.
#[derive(Debug, Clone, PartialEq)]
pub struct SupplyChainEvent {
    pub id: u64,
    pub liquor_product_id: u64,
    pub event_type: String,
    pub location: String,
    pub quantity: u64,
    pub date: u64,
    pub participant_id: u64,
}

/// The mathematical view of a supply-chain event.
pub ghost struct SupplyChainEventV {
    pub id: u64,
    pub liquor_product_id: u64,
    pub event_type: Seq<char>,
    pub location: Seq<char>,
    pub quantity: u64,
    pub date: u64,
    pub participant_id: u64,
}

impl View for SupplyChainEvent {
    type V = SupplyChainEventV;

    open spec fn view(&self) -> SupplyChainEventV {
        SupplyChainEventV {
            id: self.id,
            liquor_product_id: self.liquor_product_id,
            event_type: self.event_type@,
            location: self.location@,
            quantity: self.quantity,
            date: self.date,
            participant_id: self.participant_id,
        }
    }
}

/// Field offsets inside an encoded supply-chain event.
pub open spec fn ev_off_location(m: SupplyChainEventV) -> int {
    16 + enc_str(m.event_type).len() as int
}

pub open spec fn ev_off_quantity(m: SupplyChainEventV) -> int {
    ev_off_location(m) + enc_str(m.location).len() as int
}

/// Where each field of an encoded supply-chain event sits.
proof fn peel_event(b: Seq<u8>, m: SupplyChainEventV)
    requires
        b == SupplyChainEvent::enc_v(m),
    ensures
        16 <= ev_off_location(m) <= ev_off_quantity(m),
        ev_off_quantity(m) + 24 == b.len(),
        b.subrange(0, 8) == spec_u64_to_le_bytes(m.id),
        b.subrange(8, 16) == spec_u64_to_le_bytes(m.liquor_product_id),
        starts_with(b.subrange(16, b.len() as int), enc_str(m.event_type)),
        starts_with(b.subrange(ev_off_location(m), b.len() as int), enc_str(m.location)),
        b.subrange(ev_off_quantity(m), ev_off_quantity(m) + 8) == spec_u64_to_le_bytes(m.quantity),
        b.subrange(ev_off_quantity(m) + 8, ev_off_quantity(m) + 16) == spec_u64_to_le_bytes(m.date),
        b.subrange(ev_off_quantity(m) + 16, ev_off_quantity(m) + 24) == spec_u64_to_le_bytes(
            m.participant_id,
        ),
{
    lemma_auto_spec_u64_to_from_le_bytes();
    let e1 = enc_u64(m.id);
    let e2 = enc_u64(m.liquor_product_id);
    let e3 = enc_str(m.event_type);
    let e4 = enc_str(m.location);
    let e5 = enc_u64(m.quantity);
    let e6 = enc_u64(m.date);
    let e7 = enc_u64(m.participant_id);
    assert(b.subrange(0, b.len() as int) =~= b);
    lemma_parts_at(b, 0, b.len() as int, (((((e1 + e2) + e3) + e4) + e5) + e6), e7);
    lemma_parts_at(b, 0, ev_off_quantity(m) + 16, ((((e1 + e2) + e3) + e4) + e5), e6);
    lemma_parts_at(b, 0, ev_off_quantity(m) + 8, (((e1 + e2) + e3) + e4), e5);
    lemma_parts_at(b, 0, ev_off_quantity(m), ((e1 + e2) + e3), e4);
    lemma_parts_at(b, 0, ev_off_location(m), (e1 + e2), e3);
    lemma_parts_at(b, 0, 16, e1, e2);
    lemma_segment_starts(b, 16, e3);
    lemma_segment_starts(b, ev_off_location(m), e4);
}

impl Record for SupplyChainEvent {
    open spec fn enc_v(m: SupplyChainEventV) -> Seq<u8> {
        enc_u64(m.id) + enc_u64(m.liquor_product_id) + enc_str(m.event_type) + enc_str(m.location)
            + enc_u64(m.quantity) + enc_u64(m.date) + enc_u64(m.participant_id)
    }

    open spec fn vid(m: SupplyChainEventV) -> u64 {
        m.id
    }

    open spec fn max_enc() -> nat {
        512
    }

    fn max_bytes() -> (n: u64) {
        512
    }

    fn encode(&self) -> (b: Vec<u8>) {
        let mut out = u64_to_le_bytes(self.id);
        push_u64(&mut out, self.liquor_product_id);
        push_str_field(&mut out, self.event_type.as_str());
        push_str_field(&mut out, self.location.as_str());
        push_u64(&mut out, self.quantity);
        push_u64(&mut out, self.date);
        push_u64(&mut out, self.participant_id);
        out
    }

    fn decode(b: &[u8]) -> (r: Option<Self>) {
        proof {
            lemma_auto_spec_u64_to_from_le_bytes();
        }
        match (read_u64(b, 0), read_u64(b, 8)) {
            (Some((id, _)), Some((liquor_product_id, _))) => match read_str(b, 16) {
                None => {
                    proof {
                        assert forall|m: SupplyChainEventV| b@ == Self::enc_v(m) implies false by {
                            peel_event(b@, m);
                        }
                    }
                    None
                },
                Some((event_type, o4)) => match read_str(b, o4) {
                    None => {
                        proof {
                            assert forall|m: SupplyChainEventV|
                                b@ == Self::enc_v(m) implies false by {
                                peel_event(b@, m);
                            }
                        }
                        None
                    },
                    Some((location, o5)) => {
                        match read_u64(b, o5) {
                            Some((quantity, o6)) => match read_u64(b, o6) {
                                Some((date, o7)) => match read_u64(b, o7) {
                                    Some((participant_id, o8)) => {
                                        if o8 != b.len() {
                                            proof {
                                                assert forall|m: SupplyChainEventV|
                                                    b@ == Self::enc_v(m) implies false by {
                                                    peel_event(b@, m);
                                                }
                                            }
                                            return None;
                                        }
                                        let e = SupplyChainEvent {
                                            id,
                                            liquor_product_id,
                                            event_type,
                                            location,
                                            quantity,
                                            date,
                                            participant_id,
                                        };
                                        proof {
                                            assert forall|m: SupplyChainEventV|
                                                b@ == Self::enc_v(m) implies e@ == m by {
                                                peel_event(b@, m);
                                            }
                                            lemma_join(
                                                b@,
                                                8,
                                                16,
                                                enc_u64(id),
                                                enc_u64(liquor_product_id),
                                            );
                                            lemma_join(
                                                b@,
                                                16,
                                                o4 as int,
                                                enc_u64(id) + enc_u64(liquor_product_id),
                                                enc_str(event_type@),
                                            );
                                            lemma_join(
                                                b@,
                                                o4 as int,
                                                o5 as int,
                                                enc_u64(id) + enc_u64(liquor_product_id) + enc_str(
                                                    event_type@,
                                                ),
                                                enc_str(location@),
                                            );
                                            lemma_join(
                                                b@,
                                                o5 as int,
                                                o6 as int,
                                                enc_u64(id) + enc_u64(liquor_product_id) + enc_str(
                                                    event_type@,
                                                ) + enc_str(location@),
                                                enc_u64(quantity),
                                            );
                                            lemma_join(
                                                b@,
                                                o6 as int,
                                                o7 as int,
                                                enc_u64(id) + enc_u64(liquor_product_id) + enc_str(
                                                    event_type@,
                                                ) + enc_str(location@) + enc_u64(quantity),
                                                enc_u64(date),
                                            );
                                            lemma_join(
                                                b@,
                                                o7 as int,
                                                o8 as int,
                                                enc_u64(id) + enc_u64(liquor_product_id) + enc_str(
                                                    event_type@,
                                                ) + enc_str(location@) + enc_u64(quantity)
                                                    + enc_u64(date),
                                                enc_u64(participant_id),
                                            );
                                            assert(b@.subrange(0, b@.len() as int) =~= b@);
                                            assert(b@ == Self::enc_v(e@));
                                        }
                                        Some(e)
                                    },
                                    None => {
                                        proof {
                                            assert forall|m: SupplyChainEventV|
                                                b@ == Self::enc_v(m) implies false by {
                                                peel_event(b@, m);
                                            }
                                        }
                                        None
                                    },
                                },
                                None => {
                                    proof {
                                        assert forall|m: SupplyChainEventV|
                                            b@ == Self::enc_v(m) implies false by {
                                            peel_event(b@, m);
                                        }
                                    }
                                    None
                                },
                            },
                            None => {
                                proof {
                                    assert forall|m: SupplyChainEventV|
                                        b@ == Self::enc_v(m) implies false by {
                                        peel_event(b@, m);
                                    }
                                }
                                None
                            },
                        }
                    },
                },
            },
            _ => {
                proof {
                    assert forall|m: SupplyChainEventV| b@ == Self::enc_v(m) implies false by {
                        peel_event(b@, m);
                    }
                }
                None
            },
        }
    }
}

/// A liquor product and its stock level.
#[derive(Debug, Clone, PartialEq)]
pub struct LiquorProduct {
    pub id: u64,
    pub user_id: u64,
    pub name: String,
    pub product_type: String,
    pub brand: String,
    pub alcohol_content: u64,
    pub batch_number: String,
    pub vintage_year: Option<String>,
    pub bottle_size: String,
    pub cost_price: u64,
    pub retail_price: u64,
    pub current_stock: u64,
    pub expiry_date: Option<String>,
}

/// The mathematical view of a liquor product.
pub ghost struct LiquorProductV {
    pub id: u64,
    pub user_id: u64,
    pub name: Seq<char>,
    pub product_type: Seq<char>,
    pub brand: Seq<char>,
    pub alcohol_content: u64,
    pub batch_number: Seq<char>,
    pub vintage_year: Option<Seq<char>>,
    pub bottle_size: Seq<char>,
    pub cost_price: u64,
    pub retail_price: u64,
    pub current_stock: u64,
    pub expiry_date: Option<Seq<char>>,
}

impl View for LiquorProduct {
    type V = LiquorProductV;

    open spec fn view(&self) -> LiquorProductV {
        LiquorProductV {
            id: self.id,
            user_id: self.user_id,
            name: self.name@,
            product_type: self.product_type@,
            brand: self.brand@,
            alcohol_content: self.alcohol_content,
            batch_number: self.batch_number@,
            vintage_year: opt_view(self.vintage_year),
            bottle_size: self.bottle_size@,
            cost_price: self.cost_price,
            retail_price: self.retail_price,
            current_stock: self.current_stock,
            expiry_date: opt_view(self.expiry_date),
        }
    }
}

/// Field offsets inside an encoded liquor product.
pub open spec fn prod_off_ptype(m: LiquorProductV) -> int {
    16 + enc_str(m.name).len() as int
}

pub open spec fn prod_off_brand(m: LiquorProductV) -> int {
    prod_off_ptype(m) + enc_str(m.product_type).len() as int
}

pub open spec fn prod_off_alcohol(m: LiquorProductV) -> int {
    prod_off_brand(m) + enc_str(m.brand).len() as int
}

pub open spec fn prod_off_batch(m: LiquorProductV) -> int {
    prod_off_alcohol(m) + 8
}

pub open spec fn prod_off_vintage(m: LiquorProductV) -> int {
    prod_off_batch(m) + enc_str(m.batch_number).len() as int
}

pub open spec fn prod_off_bottle(m: LiquorProductV) -> int {
    prod_off_vintage(m) + enc_opt_str(m.vintage_year).len() as int
}

pub open spec fn prod_off_cost(m: LiquorProductV) -> int {
    prod_off_bottle(m) + enc_str(m.bottle_size).len() as int
}

pub open spec fn prod_off_expiry(m: LiquorProductV) -> int {
    prod_off_cost(m) + 24
}

/// Where each field of an encoded liquor product sits.
proof fn peel_product(b: Seq<u8>, m: LiquorProductV)
    requires
        b == LiquorProduct::enc_v(m),
    ensures
        16 <= prod_off_ptype(m) <= prod_off_brand(m) <= prod_off_alcohol(m),
        prod_off_batch(m) <= prod_off_vintage(m) <= prod_off_bottle(m) <= prod_off_cost(m),
        prod_off_expiry(m) + enc_opt_str(m.expiry_date).len() == b.len(),
        b.subrange(0, 8) == spec_u64_to_le_bytes(m.id),
        b.subrange(8, 16) == spec_u64_to_le_bytes(m.user_id),
        starts_with(b.subrange(16, b.len() as int), enc_str(m.name)),
        starts_with(b.subrange(prod_off_ptype(m), b.len() as int), enc_str(m.product_type)),
        starts_with(b.subrange(prod_off_brand(m), b.len() as int), enc_str(m.brand)),
        b.subrange(prod_off_alcohol(m), prod_off_alcohol(m) + 8) == spec_u64_to_le_bytes(
            m.alcohol_content,
        ),
        starts_with(b.subrange(prod_off_batch(m), b.len() as int), enc_str(m.batch_number)),
        starts_with(b.subrange(prod_off_vintage(m), b.len() as int), enc_opt_str(m.vintage_year)),
        starts_with(b.subrange(prod_off_bottle(m), b.len() as int), enc_str(m.bottle_size)),
        b.subrange(prod_off_cost(m), prod_off_cost(m) + 8) == spec_u64_to_le_bytes(m.cost_price),
        b.subrange(prod_off_cost(m) + 8, prod_off_cost(m) + 16) == spec_u64_to_le_bytes(
            m.retail_price,
        ),
        b.subrange(prod_off_cost(m) + 16, prod_off_cost(m) + 24) == spec_u64_to_le_bytes(
            m.current_stock,
        ),
        starts_with(b.subrange(prod_off_expiry(m), b.len() as int), enc_opt_str(m.expiry_date)),
{
    lemma_auto_spec_u64_to_from_le_bytes();
    let e1 = enc_u64(m.id);
    let e2 = enc_u64(m.user_id);
    let e3 = enc_str(m.name);
    let e4 = enc_str(m.product_type);
    let e5 = enc_str(m.brand);
    let e6 = enc_u64(m.alcohol_content);
    let e7 = enc_str(m.batch_number);
    let e8 = enc_opt_str(m.vintage_year);
    let e9 = enc_str(m.bottle_size);
    let e10 = enc_u64(m.cost_price);
    let e11 = enc_u64(m.retail_price);
    let e12 = enc_u64(m.current_stock);
    let e13 = enc_opt_str(m.expiry_date);
    let x2 = e1 + e2;
    let x3 = x2 + e3;
    let x4 = x3 + e4;
    let x5 = x4 + e5;
    let x6 = x5 + e6;
    let x7 = x6 + e7;
    let x8 = x7 + e8;
    let x9 = x8 + e9;
    let x10 = x9 + e10;
    let x11 = x10 + e11;
    let x12 = x11 + e12;
    assert(b.subrange(0, b.len() as int) =~= b);
    lemma_parts_at(b, 0, b.len() as int, x12, e13);
    lemma_parts_at(b, 0, x12.len() as int, x11, e12);
    lemma_parts_at(b, 0, x11.len() as int, x10, e11);
    lemma_parts_at(b, 0, x10.len() as int, x9, e10);
    lemma_parts_at(b, 0, x9.len() as int, x8, e9);
    lemma_parts_at(b, 0, x8.len() as int, x7, e8);
    lemma_parts_at(b, 0, x7.len() as int, x6, e7);
    lemma_parts_at(b, 0, x6.len() as int, x5, e6);
    lemma_parts_at(b, 0, x5.len() as int, x4, e5);
    lemma_parts_at(b, 0, x4.len() as int, x3, e4);
    lemma_parts_at(b, 0, x3.len() as int, x2, e3);
    lemma_parts_at(b, 0, x2.len() as int, e1, e2);
    lemma_segment_starts(b, 16, e3);
    lemma_segment_starts(b, prod_off_ptype(m), e4);
    lemma_segment_starts(b, prod_off_brand(m), e5);
    lemma_segment_starts(b, prod_off_batch(m), e7);
    lemma_segment_starts(b, prod_off_vintage(m), e8);
    lemma_segment_starts(b, prod_off_bottle(m), e9);
    lemma_segment_starts(b, prod_off_expiry(m), e13);
}

impl Record for LiquorProduct {
    open spec fn enc_v(m: LiquorProductV) -> Seq<u8> {
        enc_u64(m.id) + enc_u64(m.user_id) + enc_str(m.name) + enc_str(m.product_type) + enc_str(
            m.brand,
        ) + enc_u64(m.alcohol_content) + enc_str(m.batch_number) + enc_opt_str(m.vintage_year)
            + enc_str(m.bottle_size) + enc_u64(m.cost_price) + enc_u64(m.retail_price) + enc_u64(
            m.current_stock,
        ) + enc_opt_str(m.expiry_date)
    }

    open spec fn vid(m: LiquorProductV) -> u64 {
        m.id
    }

    open spec fn max_enc() -> nat {
        1024
    }

    fn max_bytes() -> (n: u64) {
        1024
    }

    fn encode(&self) -> (b: Vec<u8>) {
        let mut out = u64_to_le_bytes(self.id);
        push_u64(&mut out, self.user_id);
        push_str_field(&mut out, self.name.as_str());
        push_str_field(&mut out, self.product_type.as_str());
        push_str_field(&mut out, self.brand.as_str());
        push_u64(&mut out, self.alcohol_content);
        push_str_field(&mut out, self.batch_number.as_str());
        push_opt_str(&mut out, &self.vintage_year);
        push_str_field(&mut out, self.bottle_size.as_str());
        push_u64(&mut out, self.cost_price);
        push_u64(&mut out, self.retail_price);
        push_u64(&mut out, self.current_stock);
        push_opt_str(&mut out, &self.expiry_date);
        out
    }

    #[verifier::rlimit(80)]
    fn decode(b: &[u8]) -> (r: Option<Self>) {
        proof {
            lemma_auto_spec_u64_to_from_le_bytes();
        }
        let header = (read_u64(b, 0), read_u64(b, 8));
        if let (Some((id, _)), Some((user_id, _))) = header {
            if let Some((name, o4)) = read_str(b, 16) {
                if let Some((product_type, o5)) = read_str(b, o4) {
                    if let Some((brand, o6)) = read_str(b, o5) {
                        if let Some((alcohol_content, o7)) = read_u64(b, o6) {
                            if let Some((batch_number, o8)) = read_str(b, o7) {
                                if let Some((vintage_year, o9)) = read_opt_str(b, o8) {
                                    if let Some((bottle_size, o10)) = read_str(b, o9) {
                                        if let Some((cost_price, o11)) = read_u64(b, o10) {
                                            if let Some((retail_price, o12)) = read_u64(b, o11) {
                                                if let Some((current_stock, o13)) = read_u64(
                                                    b,
                                                    o12,
                                                ) {
                                                    if let Some((expiry_date, o14)) = read_opt_str(
                                                        b,
                                                        o13,
                                                    ) {
                                                        if o14 == b.len() {
                                                            let p = LiquorProduct {
                                                                id,
                                                                user_id,
                                                                name,
                                                                product_type,
                                                                brand,
                                                                alcohol_content,
                                                                batch_number,
                                                                vintage_year,
                                                                bottle_size,
                                                                cost_price,
                                                                retail_price,
                                                                current_stock,
                                                                expiry_date,
                                                            };
                                                            proof {
                                                                assert forall|m: LiquorProductV|
                                                                    b@ == Self::enc_v(m) implies p@
                                                                    == m by {
                                                                    peel_product(b@, m);
                                                                }
                                                                let f1 = enc_u64(id);
                                                                let f2 = enc_u64(user_id);
                                                                let f3 = enc_str(name@);
                                                                let f4 = enc_str(product_type@);
                                                                let f5 = enc_str(brand@);
                                                                let f6 = enc_u64(alcohol_content);
                                                                let f7 = enc_str(batch_number@);
                                                                let f8 = enc_opt_str(
                                                                    opt_view(vintage_year),
                                                                );
                                                                let f9 = enc_str(bottle_size@);
                                                                let f10 = enc_u64(cost_price);
                                                                let f11 = enc_u64(retail_price);
                                                                let f12 = enc_u64(current_stock);
                                                                let f13 = enc_opt_str(
                                                                    opt_view(expiry_date),
                                                                );
                                                                lemma_join(b@, 8, 16, f1, f2);
                                                                lemma_join(
                                                                    b@,
                                                                    16,
                                                                    o4 as int,
                                                                    f1 + f2,
                                                                    f3,
                                                                );
                                                                lemma_join(
                                                                    b@,
                                                                    o4 as int,
                                                                    o5 as int,
                                                                    f1 + f2 + f3,
                                                                    f4,
                                                                );
                                                                lemma_join(
                                                                    b@,
                                                                    o5 as int,
                                                                    o6 as int,
                                                                    f1 + f2 + f3 + f4,
                                                                    f5,
                                                                );
                                                                lemma_join(
                                                                    b@,
                                                                    o6 as int,
                                                                    o7 as int,
                                                                    f1 + f2 + f3 + f4 + f5,
                                                                    f6,
                                                                );
                                                                lemma_join(
                                                                    b@,
                                                                    o7 as int,
                                                                    o8 as int,
                                                                    f1 + f2 + f3 + f4 + f5 + f6,
                                                                    f7,
                                                                );
                                                                lemma_join(
                                                                    b@,
                                                                    o8 as int,
                                                                    o9 as int,
                                                                    f1 + f2 + f3 + f4 + f5 + f6
                                                                        + f7,
                                                                    f8,
                                                                );
                                                                lemma_join(
                                                                    b@,
                                                                    o9 as int,
                                                                    o10 as int,
                                                                    f1 + f2 + f3 + f4 + f5 + f6
                                                                        + f7 + f8,
                                                                    f9,
                                                                );
                                                                lemma_join(
                                                                    b@,
                                                                    o10 as int,
                                                                    o11 as int,
                                                                    f1 + f2 + f3 + f4 + f5 + f6
                                                                        + f7 + f8 + f9,
                                                                    f10,
                                                                );
                                                                lemma_join(
                                                                    b@,
                                                                    o11 as int,
                                                                    o12 as int,
                                                                    f1 + f2 + f3 + f4 + f5 + f6
                                                                        + f7 + f8 + f9 + f10,
                                                                    f11,
                                                                );
                                                                lemma_join(
                                                                    b@,
                                                                    o12 as int,
                                                                    o13 as int,
                                                                    f1 + f2 + f3 + f4 + f5 + f6
                                                                        + f7 + f8 + f9 + f10 + f11,
                                                                    f12,
                                                                );
                                                                lemma_join(
                                                                    b@,
                                                                    o13 as int,
                                                                    o14 as int,
                                                                    f1 + f2 + f3 + f4 + f5 + f6
                                                                        + f7 + f8 + f9 + f10 + f11
                                                                        + f12,
                                                                    f13,
                                                                );
                                                                assert(b@.subrange(
                                                                    0,
                                                                    b@.len() as int,
                                                                ) =~= b@);
                                                                assert(b@ == Self::enc_v(p@));
                                                            }
                                                            return Some(p);
                                                        }
                                                    }
                                                }
                                            }
                                        }
                                    }
                                }
                            }
                        }
                    }
                }
            }
        }
        proof {
            assert forall|m: LiquorProductV| b@ == Self::enc_v(m) implies false by {
                peel_product(b@, m);
            }
        }
        None
    }
}

} // verus!
