//! The order, balance and credential value types exchanged across the
//! library's boundary, and their wire tokens.

use crate::decimal::Decimal;
use vstd::prelude::*;

verus! {

/// Order kind: a resting limit order or an immediate market order.
#[derive(Debug, Clone, Copy, PartialEq, Eq, Structural)]
pub enum OrderType {
    Limit,
    Market,
}

/// Trade direction.
#[derive(Debug, Clone, Copy, PartialEq, Eq, Structural)]
pub enum Side {
    Buy,
    Sell,
}

/// Order lifetime policy.
#[derive(Debug, Clone, Copy, PartialEq, Eq, Structural)]
pub enum TimeInForce {
    GoodTillCancel,
    FillOrKill,
    ImmediateOrCancel,
}

/// The wire token of a side.
pub open spec fn spec_side_token(s: Side) -> Seq<char> {
    match s {
        Side::Buy => "Buy"@,
        Side::Sell => "Sell"@,
    }
}

/// The wire token of an order type.
pub open spec fn spec_order_type_token(t: OrderType) -> Seq<char> {
    match t {
        OrderType::Limit => "Limit"@,
        OrderType::Market => "Market"@,
    }
}

/// The wire token of a time-in-force policy.
pub open spec fn spec_tif_token(t: TimeInForce) -> Seq<char> {
    match t {
        TimeInForce::GoodTillCancel => "GoodTillCancel"@,
        TimeInForce::FillOrKill => "FillOrKill"@,
        TimeInForce::ImmediateOrCancel => "ImmediateOrCancel"@,
    }
}

/// The wire token of a side, executable.
pub fn side_token(s: &Side) -> (r: &'static str)
    ensures
        r@ == spec_side_token(*s),
{
    match s {
        Side::Buy => "Buy",
        Side::Sell => "Sell",
    }
}

/// The wire token of an order type, executable.
pub fn order_type_token(t: &OrderType) -> (r: &'static str)
    ensures
        r@ == spec_order_type_token(*t),
{
    match t {
        OrderType::Limit => "Limit",
        OrderType::Market => "Market",
    }
}

/// The wire token of a time-in-force policy, executable.
pub fn tif_token(t: &TimeInForce) -> (r: &'static str)
    ensures
        r@ == spec_tif_token(*t),
{
    match t {
        TimeInForce::GoodTillCancel => "GoodTillCancel",
        TimeInForce::FillOrKill => "FillOrKill",
        TimeInForce::ImmediateOrCancel => "ImmediateOrCancel",
    }
}

/// The side a wire token names, if any.
pub open spec fn spec_side_of_token(s: Seq<char>) -> Option<Side> {
    if s == "Buy"@ {
        Some(Side::Buy)
    } else if s == "Sell"@ {
        Some(Side::Sell)
    } else {
        None
    }
}

/// The order type a wire token names, if any.
pub open spec fn spec_order_type_of_token(s: Seq<char>) -> Option<OrderType> {
    if s == "Limit"@ {
        Some(OrderType::Limit)
    } else if s == "Market"@ {
        Some(OrderType::Market)
    } else {
        None
    }
}

/// Reads a side from its wire token.
pub fn side_of_token(s: &str) -> (r: Option<Side>)
    ensures
        r == spec_side_of_token(s@),
{
    if crate::json::str_eq(s, "Buy") {
        Some(Side::Buy)
    } else if crate::json::str_eq(s, "Sell") {
        Some(Side::Sell)
    } else {
        None
    }
}

/// Reads an order type from its wire token.
pub fn order_type_of_token(s: &str) -> (r: Option<OrderType>)
    ensures
        r == spec_order_type_of_token(s@),
{
    if crate::json::str_eq(s, "Limit") {
        Some(OrderType::Limit)
    } else if crate::json::str_eq(s, "Market") {
        Some(OrderType::Market)
    } else {
        None
    }
}

/// An outbound order request.
#[derive(Debug, Clone)]
pub struct PlaceOrder {
    pub side: Side,
    pub symbol: String,
    pub order_type: OrderType,
    pub qty: Decimal,
    pub price: Option<i32>,
    pub time_in_force: TimeInForce,
    pub reduce_only: bool,
    pub close_on_trigger: bool,
}

impl PlaceOrder {
    /// Well-formedness: the quantity stays in the supported range.
    pub open spec fn wf(self) -> bool {
        self.qty.wf()
    }
}

impl PartialEq for PlaceOrder {
    fn eq(&self, other: &Self) -> (r: bool) {
        self.side == other.side && self.symbol == other.symbol && self.order_type
            == other.order_type && self.qty == other.qty && (match (self.price, other.price) {
            (Some(a), Some(b)) => a == b,
            (None, None) => true,
            _ => false,
        }) && self.time_in_force == other.time_in_force && self.reduce_only == other.reduce_only
            && self.close_on_trigger == other.close_on_trigger
    }
}

impl vstd::std_specs::cmp::PartialEqSpecImpl for PlaceOrder {
    open spec fn obeys_eq_spec() -> bool {
        true
    }

    open spec fn eq_spec(&self, other: &Self) -> bool {
        self.side == other.side && self.symbol@ == other.symbol@ && self.order_type
            == other.order_type && self.qty == other.qty && self.price == other.price
            && self.time_in_force == other.time_in_force && self.reduce_only == other.reduce_only
            && self.close_on_trigger == other.close_on_trigger
    }
}

impl Eq for PlaceOrder {

}

/// An exchange-acknowledged order.
#[derive(Debug, Clone)]
pub struct Order {
    pub user_id: i32,
    pub order_id: String,
    pub symbol: String,
    pub side: Side,
    pub order_type: OrderType,
    pub price: i32,
    pub qty: Decimal,
    pub order_status: String,
}

impl PartialEq for Order {
    fn eq(&self, other: &Self) -> (r: bool) {
        self.user_id == other.user_id && self.order_id == other.order_id && self.symbol
            == other.symbol && self.side == other.side && self.order_type == other.order_type
            && self.price == other.price && self.qty == other.qty && self.order_status
            == other.order_status
    }
}

impl vstd::std_specs::cmp::PartialEqSpecImpl for Order {
    open spec fn obeys_eq_spec() -> bool {
        true
    }

    open spec fn eq_spec(&self, other: &Self) -> bool {
        self.user_id == other.user_id && self.order_id@ == other.order_id@ && self.symbol@
            == other.symbol@ && self.side == other.side && self.order_type == other.order_type
            && self.price == other.price && self.qty == other.qty && self.order_status@
            == other.order_status@
    }
}

impl Eq for Order {

}

/// A single-asset balance.
#[derive(Debug, Clone, Copy, PartialEq, Eq, Structural)]
pub struct ExchangeBalance {
    pub balance: Decimal,
}

/// An account snapshot: asset symbol to balance, in the order the
/// exchange returned them, plus optional derivatives position data for
/// exchanges that have it.
#[derive(Debug, Clone)]
pub struct ExchangeBalancesAndPositions {
    pub balances: Vec<(String, ExchangeBalance)>,
    pub positions: Option<Vec<(String, ExchangeBalance)>>,
}

/// A cancel acknowledgment.
#[derive(Debug, Clone)]
pub struct OrderCanceledId {
    pub order_id: String,
}

impl PartialEq for OrderCanceledId {
    fn eq(&self, other: &Self) -> (r: bool) {
        self.order_id == other.order_id
    }
}

impl vstd::std_specs::cmp::PartialEqSpecImpl for OrderCanceledId {
    open spec fn obeys_eq_spec() -> bool {
        true
    }

    open spec fn eq_spec(&self, other: &Self) -> bool {
        self.order_id@ == other.order_id@
    }
}

impl Eq for OrderCanceledId {

}

/// One exchange account's auth material, loaded once at start and
/// read-only thereafter. The secret key is never serialized outward by
/// this library: no wire builder writes it, only the signer reads it.
#[derive(Debug, Clone)]
pub struct Credentials {
    pub secret_key: String,
    pub api_key: String,
    pub exchange_account_id: String,
}

} // verus!
