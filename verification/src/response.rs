//! Parsing the exchange's responses: the HTTP status check, the JSON
//! envelope `{ret_code, ret_msg, result, time_now}`, and the reshaping of
//! each endpoint's payload into its domain type.
//!
//! A non-2xx status is a `RequestError` carrying the status code. A body
//! that does not parse, or an envelope of the wrong shape, is a
//! `ParsingError` whose message always carries the original body text. A
//! parsable envelope with a non-zero `ret_code` is an application-level
//! failure carrying the exchange's message and code.

use crate::decimal::{spec_parse_dec, Decimal};
use crate::domain::{
    spec_order_type_of_token, spec_side_of_token, order_type_of_token, side_of_token,
    ExchangeBalance, ExchangeBalancesAndPositions, Order, OrderCanceledId, OrderType, Side,
};
use crate::error::{ExchangeError, ExchangeErrorType};
use crate::jparse::{parse_json, spec_parse_json};
use crate::json::{jview, jview_els, jview_mems, obj_get, obj_lookup, Json, JsonVal};
use crate::text::{chars_to_string, dec_digits, u64_to_digits};
use vstd::prelude::*;

verus! {

/// Whether an HTTP status is a success.
pub open spec fn spec_http_ok(status: u16) -> bool {
    200 <= status < 300
}

/// What the envelope of a response amounts to.
pub enum EnvOutcome {
    /// The transport failed: a non-2xx status.
    Transport,
    /// The body is not a well-formed envelope.
    Malformed,
    /// The exchange reported an application-level failure: its message
    /// and its result code.
    AppFailure(Seq<char>, Decimal),
    /// A zero result code: the payload under `result`.
    Payload(JsonVal),
}

/// The exchange's message in an envelope; empty when absent.
pub open spec fn spec_ret_msg(ms: Seq<(Seq<char>, JsonVal)>) -> Seq<char> {
    match obj_get(ms, "ret_msg"@) {
        Some(JsonVal::StrV(m)) => m,
        _ => ""@,
    }
}

/// Reads a response's envelope.
pub open spec fn spec_envelope(status: u16, body: Seq<char>) -> EnvOutcome {
    if !spec_http_ok(status) {
        EnvOutcome::Transport
    } else {
        match spec_parse_json(body) {
            None => EnvOutcome::Malformed,
            Some(v) => match v {
                JsonVal::ObjV(ms) => match obj_get(ms, "ret_code"@) {
                    Some(JsonVal::NumV(code)) => {
                        if code.mantissa == 0 {
                            match obj_get(ms, "result"@) {
                                Some(res) => EnvOutcome::Payload(res),
                                None => EnvOutcome::Malformed,
                            }
                        } else {
                            EnvOutcome::AppFailure(spec_ret_msg(ms), code)
                        }
                    },
                    _ => EnvOutcome::Malformed,
                },
                _ => EnvOutcome::Malformed,
            },
        }
    }
}

/// The `i32` a zero-scale decimal denotes, if it fits.
pub open spec fn spec_dec_to_i32(d: Decimal) -> Option<i32> {
    if d.scale != 0 {
        None
    } else if !d.negative && d.mantissa <= 0x7fffffff {
        Some(d.mantissa as i32)
    } else if d.negative && d.mantissa <= 0x80000000 {
        Some((-(d.mantissa as int)) as i32)
    } else {
        None
    }
}

fn dec_to_i32(d: &Decimal) -> (r: Option<i32>)
    ensures
        r == spec_dec_to_i32(*d),
{
    if d.scale != 0 {
        None
    } else if !d.negative && d.mantissa <= 0x7fffffff {
        Some(d.mantissa as i32)
    } else if d.negative && d.mantissa <= 0x80000000 {
        let m = d.mantissa as i64;
        Some((-m) as i32)
    } else {
        None
    }
}

/// A transport failure as an error value: `RequestError` with the HTTP
/// status attached.
pub open spec fn is_transport_err(e: ExchangeError, status: u16) -> bool {
    e.error_type == ExchangeErrorType::RequestError && e.code == Some(status as i32) && e.message@
        == "HTTP status "@ + dec_digits(status as nat)
}

/// A malformed response as an error value: `ParsingError` whose message
/// carries the original body text.
pub open spec fn is_parse_err(e: ExchangeError, body: Seq<char>) -> bool {
    e.error_type == ExchangeErrorType::ParsingError && e.code == None::<i32> && e.message@
        == "could not parse response body: "@ + body
}

/// An application-level failure as an error value: kind `Unknown`, the
/// exchange's message, and its code where it fits an `i32`.
pub open spec fn is_app_err(e: ExchangeError, m: Seq<char>, c: Decimal) -> bool {
    e.error_type == ExchangeErrorType::Unknown && e.message@ == m && e.code == spec_dec_to_i32(c)
}

fn parse_err(body: &str) -> (e: ExchangeError)
    ensures
        is_parse_err(e, body@),
{
    let mut m = "could not parse response body: ".to_owned();
    m.append(body);
    ExchangeError::parsing_error(m)
}

fn transport_err(status: u16) -> (e: ExchangeError)
    ensures
        is_transport_err(e, status),
{
    let ds = u64_to_digits(status as u64);
    let dstr = chars_to_string(&ds);
    let mut m = "HTTP status ".to_owned();
    m.append(dstr.as_str());
    ExchangeError::request_error(m, status as i32)
}

/// Removes and returns the first value bound to `key`.
fn obj_take(ms: Vec<(String, Json)>, key: &str) -> (r: Option<Json>)
    ensures
        match r {
            Some(j) => obj_get(jview_mems(ms@), key@) == Some(jview(j)),
            None => obj_get(jview_mems(ms@), key@) == None::<JsonVal>,
        },
{
    let ghost mv = jview_mems(ms@);
    proof {
        crate::json::lemma_jview_mems(ms@);
        assert(mv.skip(0) =~= mv);
    }
    let mut rest = ms;
    let mut i: usize = 0;
    while i < rest.len()
        invariant
            i <= rest.len(),
            mv == jview_mems(rest@),
            mv == jview_mems(ms@),
            mv.len() == rest@.len(),
            forall|k: int|
                0 <= k < rest@.len() ==> mv[k] == ((#[trigger] rest@[k]).0@, jview(rest@[k].1)),
            obj_get(mv, key@) == obj_get(mv.skip(i as int), key@),
        decreases rest.len() - i,
    {
        proof {
            assert(mv.skip(i as int)[0] == mv[i as int]);
            assert(mv.skip(i as int).drop_first() =~= mv.skip(i + 1));
        }
        if crate::json::str_eq(rest[i].0.as_str(), key) {
            proof {
                assert(mv[i as int].0 == key@);
                assert(obj_get(mv.skip(i as int), key@) == Some(mv[i as int].1));
            }
            let ghost pre = rest@;
            let kv = rest.remove(i);
            proof {
                assert(kv == pre[i as int]);
                assert(jview(kv.1) == mv[i as int].1);
            }
            return Some(kv.1);
        }
        i = i + 1;
    }
    proof {
        assert(mv.skip(rest@.len() as int).len() == 0);
    }
    None
}

/// Checks the status and unwraps one envelope layer: the payload under
/// `result` when the exchange reports success, a typed error otherwise.
pub fn parse_envelope(status: u16, body: &str) -> (r: Result<Json, ExchangeError>)
    ensures
        match r {
            Ok(res) => spec_envelope(status, body@) == EnvOutcome::Payload(jview(res)),
            Err(e) => match spec_envelope(status, body@) {
                EnvOutcome::Transport => is_transport_err(e, status),
                EnvOutcome::Malformed => is_parse_err(e, body@),
                EnvOutcome::AppFailure(m, c) => is_app_err(e, m, c),
                EnvOutcome::Payload(_) => false,
            },
        },
{
    if !(200 <= status && status < 300) {
        return Err(transport_err(status));
    }
    let parsed = match parse_json(body) {
        Some(j) => j,
        None => {
            return Err(parse_err(body));
        },
    };
    let ms = match parsed {
        Json::Obj(ms) => ms,
        _ => {
            return Err(parse_err(body));
        },
    };
    let code = match obj_lookup(&ms, "ret_code") {
        Some(Json::Num(d)) => *d,
        _ => {
            return Err(parse_err(body));
        },
    };
    if code.mantissa != 0 {
        let msg = match obj_lookup(&ms, "ret_msg") {
            Some(Json::Str(m)) => m.clone(),
            _ => "".to_owned(),
        };
        let c = dec_to_i32(&code);
        return Err(ExchangeError::new(ExchangeErrorType::Unknown, msg, c));
    }
    match obj_take(ms, "result") {
        Some(res) => Ok(res),
        None => Err(parse_err(body)),
    }
}

/// The balance a coin's payload object carries: its `wallet_balance`
/// field, as a decimal string or a plain number.
pub open spec fn spec_wallet_balance(v: JsonVal) -> Option<Decimal> {
    match v {
        JsonVal::ObjV(fs) => match obj_get(fs, "wallet_balance"@) {
            Some(JsonVal::StrV(s)) => spec_parse_dec(s),
            Some(JsonVal::NumV(d)) => Some(d),
            _ => None,
        },
        _ => None,
    }
}

/// The asset-to-balance pairs a balance payload carries, in order.
pub open spec fn spec_balances_of(ms: Seq<(Seq<char>, JsonVal)>) -> Option<
    Seq<(Seq<char>, Decimal)>,
>
    decreases ms.len(),
{
    if ms.len() == 0 {
        Some(Seq::empty())
    } else {
        match spec_wallet_balance(ms[0].1) {
            Some(d) => match spec_balances_of(ms.drop_first()) {
                Some(rest) => Some(seq![(ms[0].0, d)] + rest),
                None => None,
            },
            None => None,
        }
    }
}

/// What a whole balance payload yields.
pub open spec fn spec_balances_payload(v: JsonVal) -> Option<Seq<(Seq<char>, Decimal)>> {
    match v {
        JsonVal::ObjV(coins) => spec_balances_of(coins),
        _ => None,
    }
}

/// The model of an executable balance list.
pub open spec fn balances_view(v: Seq<(String, ExchangeBalance)>) -> Seq<(Seq<char>, Decimal)> {
    Seq::new(v.len(), |i: int| (v[i].0@, v[i].1.balance))
}

fn wallet_balance_of(j: &Json) -> (r: Option<Decimal>)
    ensures
        r == spec_wallet_balance(jview(*j)),
{
    let fs = match j {
        Json::Obj(fs) => fs,
        _ => {
            return None;
        },
    };
    match obj_lookup(fs, "wallet_balance") {
        Some(Json::Str(s)) => crate::decimal::parse_decimal(s.as_str()),
        Some(Json::Num(d)) => Some(*d),
        _ => None,
    }
}

fn balances_of_members(ms: &Vec<(String, Json)>) -> (r: Option<Vec<(String, ExchangeBalance)>>)
    ensures
        match r {
            Some(v) => spec_balances_of(jview_mems(ms@)) == Some(balances_view(v@)),
            None => spec_balances_of(jview_mems(ms@)) == None::<Seq<(Seq<char>, Decimal)>>,
        },
{
    let ghost mv = jview_mems(ms@);
    proof {
        crate::json::lemma_jview_mems(ms@);
        assert(mv.skip(0) =~= mv);
    }
    let mut out: Vec<(String, ExchangeBalance)> = Vec::new();
    let mut i: usize = 0;
    while i < ms.len()
        invariant
            i <= ms.len(),
            mv == jview_mems(ms@),
            mv.len() == ms@.len(),
            forall|k: int| 0 <= k < ms@.len() ==> mv[k] == ((#[trigger] ms@[k]).0@, jview(ms@[k].1)),
            spec_balances_of(mv) == (match spec_balances_of(mv.skip(i as int)) {
                Some(rest) => Some(balances_view(out@) + rest),
                None => None::<Seq<(Seq<char>, Decimal)>>,
            }),
        decreases ms.len() - i,
    {
        proof {
            assert(mv.skip(i as int)[0] == mv[i as int]);
            assert(mv.skip(i as int).drop_first() =~= mv.skip(i + 1));
        }
        let d = match wallet_balance_of(&ms[i].1) {
            Some(d) => d,
            None => {
                return None;
            },
        };
        out.push((ms[i].0.clone(), ExchangeBalance { balance: d }));
        proof {
            let tail = mv.skip(i as int);
            let next = spec_balances_of(mv.skip(i + 1));
            if next is Some {
                let rest = next->Some_0;
                assert(spec_balances_of(tail) == Some(seq![(mv[i as int].0, d)] + rest));
                assert(balances_view(out@) =~= balances_view(out@.drop_last()) + seq![
                    (mv[i as int].0, d),
                ]);
                assert(balances_view(out@.drop_last()) + (seq![(mv[i as int].0, d)] + rest)
                    =~= balances_view(out@) + rest);
            }
        }
        i = i + 1;
    }
    proof {
        assert(mv.skip(ms@.len() as int).len() == 0);
        assert(balances_view(out@) + Seq::<(Seq<char>, Decimal)>::empty() =~= balances_view(out@));
    }
    Some(out)
}

/// Parses a balance response: on success the exchange's asset map,
/// reshaped key by key, with `positions` always absent.
pub fn parse_balance_response(status: u16, body: &str) -> (r: Result<
    ExchangeBalancesAndPositions,
    ExchangeError,
>)
    ensures
        match r {
            Ok(b) => spec_envelope(status, body@) matches EnvOutcome::Payload(pv)
                && spec_balances_payload(pv) == Some(balances_view(b.balances@)) && b.positions
                is None,
            Err(e) => match spec_envelope(status, body@) {
                EnvOutcome::Transport => is_transport_err(e, status),
                EnvOutcome::Malformed => is_parse_err(e, body@),
                EnvOutcome::AppFailure(m, c) => is_app_err(e, m, c),
                EnvOutcome::Payload(pv) => spec_balances_payload(pv) == None::<
                    Seq<(Seq<char>, Decimal)>,
                > && is_parse_err(e, body@),
            },
        },
{
    let res = match parse_envelope(status, body) {
        Ok(res) => res,
        Err(e) => {
            return Err(e);
        },
    };
    let coins = match res {
        Json::Obj(coins) => coins,
        _ => {
            return Err(parse_err(body));
        },
    };
    match balances_of_members(&coins) {
        Some(balances) => Ok(ExchangeBalancesAndPositions { balances, positions: None }),
        None => Err(parse_err(body)),
    }
}

/// The model of an order, for contracts.
pub struct OrderV {
    pub user_id: i32,
    pub order_id: Seq<char>,
    pub symbol: Seq<char>,
    pub side: Side,
    pub order_type: OrderType,
    pub price: i32,
    pub qty: Decimal,
    pub order_status: Seq<char>,
}

/// The model of an executable order.
pub open spec fn order_view(o: Order) -> OrderV {
    OrderV {
        user_id: o.user_id,
        order_id: o.order_id@,
        symbol: o.symbol@,
        side: o.side,
        order_type: o.order_type,
        price: o.price,
        qty: o.qty,
        order_status: o.order_status@,
    }
}

/// The quantity a payload value carries: a number, or a decimal string.
pub open spec fn spec_qty_of(v: JsonVal) -> Option<Decimal> {
    match v {
        JsonVal::NumV(d) => Some(d),
        JsonVal::StrV(s) => spec_parse_dec(s),
        _ => None,
    }
}

/// The order an acknowledged-order payload object carries, if it has
/// every field in the expected shape.
pub open spec fn spec_order_of(v: JsonVal) -> Option<OrderV> {
    match v {
        JsonVal::ObjV(fs) => {
            match obj_get(fs, "user_id"@) {
                Some(JsonVal::NumV(uid)) => match spec_dec_to_i32(uid) {
                    Some(user_id) => match obj_get(fs, "order_id"@) {
                        Some(JsonVal::StrV(oid)) => match obj_get(fs, "symbol"@) {
                            Some(JsonVal::StrV(sym)) => match obj_get(fs, "side"@) {
                                Some(JsonVal::StrV(sd)) => match spec_side_of_token(sd) {
                                    Some(side) => match obj_get(fs, "order_type"@) {
                                        Some(JsonVal::StrV(ot)) => match spec_order_type_of_token(
                                            ot,
                                        ) {
                                            Some(order_type) => match obj_get(fs, "price"@) {
                                                Some(JsonVal::NumV(pd)) => match spec_dec_to_i32(
                                                    pd,
                                                ) {
                                                    Some(price) => match obj_get(fs, "qty"@) {
                                                        Some(qv) => match spec_qty_of(qv) {
                                                            Some(qty) => match obj_get(
                                                                fs,
                                                                "order_status"@,
                                                            ) {
                                                                Some(JsonVal::StrV(st)) => Some(
                                                                    OrderV {
                                                                        user_id,
                                                                        order_id: oid,
                                                                        symbol: sym,
                                                                        side,
                                                                        order_type,
                                                                        price,
                                                                        qty,
                                                                        order_status: st,
                                                                    },
                                                                ),
                                                                _ => None,
                                                            },
                                                            None => None,
                                                        },
                                                        None => None,
                                                    },
                                                    None => None,
                                                },
                                                _ => None,
                                            },
                                            None => None,
                                        },
                                        _ => None,
                                    },
                                    None => None,
                                },
                                _ => None,
                            },
                            _ => None,
                        },
                        _ => None,
                    },
                    None => None,
                },
                _ => None,
            }
        },
        _ => None,
    }
}

fn qty_of(j: &Json) -> (r: Option<Decimal>)
    ensures
        r == spec_qty_of(jview(*j)),
{
    match j {
        Json::Num(d) => Some(*d),
        Json::Str(s) => crate::decimal::parse_decimal(s.as_str()),
        _ => None,
    }
}

/// Reads an acknowledged order from its payload object.
pub fn order_of_json(j: &Json) -> (r: Option<Order>)
    ensures
        match r {
            Some(o) => spec_order_of(jview(*j)) == Some(order_view(o)),
            None => spec_order_of(jview(*j)) == None::<OrderV>,
        },
{
    let fs = match j {
        Json::Obj(fs) => fs,
        _ => {
            return None;
        },
    };
    let user_id = match obj_lookup(fs, "user_id") {
        Some(Json::Num(d)) => match dec_to_i32(d) {
            Some(u) => u,
            None => {
                return None;
            },
        },
        _ => {
            return None;
        },
    };
    let order_id = match obj_lookup(fs, "order_id") {
        Some(Json::Str(s)) => s.clone(),
        _ => {
            return None;
        },
    };
    let symbol = match obj_lookup(fs, "symbol") {
        Some(Json::Str(s)) => s.clone(),
        _ => {
            return None;
        },
    };
    let side = match obj_lookup(fs, "side") {
        Some(Json::Str(s)) => match side_of_token(s.as_str()) {
            Some(sd) => sd,
            None => {
                return None;
            },
        },
        _ => {
            return None;
        },
    };
    let order_type = match obj_lookup(fs, "order_type") {
        Some(Json::Str(s)) => match order_type_of_token(s.as_str()) {
            Some(ot) => ot,
            None => {
                return None;
            },
        },
        _ => {
            return None;
        },
    };
    let price = match obj_lookup(fs, "price") {
        Some(Json::Num(d)) => match dec_to_i32(d) {
            Some(p) => p,
            None => {
                return None;
            },
        },
        _ => {
            return None;
        },
    };
    let qty = match obj_lookup(fs, "qty") {
        Some(q) => match qty_of(q) {
            Some(d) => d,
            None => {
                return None;
            },
        },
        None => {
            return None;
        },
    };
    let order_status = match obj_lookup(fs, "order_status") {
        Some(Json::Str(s)) => s.clone(),
        _ => {
            return None;
        },
    };
    Some(Order { user_id, order_id, symbol, side, order_type, price, qty, order_status })
}

/// Parses a place-order response: on success the acknowledged order.
pub fn parse_place_order_response(status: u16, body: &str) -> (r: Result<Order, ExchangeError>)
    ensures
        match r {
            Ok(o) => spec_envelope(status, body@) matches EnvOutcome::Payload(pv) && spec_order_of(
                pv,
            ) == Some(order_view(o)),
            Err(e) => match spec_envelope(status, body@) {
                EnvOutcome::Transport => is_transport_err(e, status),
                EnvOutcome::Malformed => is_parse_err(e, body@),
                EnvOutcome::AppFailure(m, c) => is_app_err(e, m, c),
                EnvOutcome::Payload(pv) => spec_order_of(pv) == None::<OrderV> && is_parse_err(
                    e,
                    body@,
                ),
            },
        },
{
    let res = match parse_envelope(status, body) {
        Ok(res) => res,
        Err(e) => {
            return Err(e);
        },
    };
    match order_of_json(&res) {
        Some(o) => Ok(o),
        None => Err(parse_err(body)),
    }
}

/// The orders an order-list payload carries, in order.
pub open spec fn spec_orders_of(els: Seq<JsonVal>) -> Option<Seq<OrderV>>
    decreases els.len(),
{
    if els.len() == 0 {
        Some(Seq::empty())
    } else {
        match spec_order_of(els[0]) {
            Some(o) => match spec_orders_of(els.drop_first()) {
                Some(rest) => Some(seq![o] + rest),
                None => None,
            },
            None => None,
        }
    }
}

/// What a whole order-list payload yields: the response is taken as a
/// single page, the payload being the array of orders.
pub open spec fn spec_orders_payload(v: JsonVal) -> Option<Seq<OrderV>> {
    match v {
        JsonVal::ArrV(els) => spec_orders_of(els),
        _ => None,
    }
}

/// The models of an executable order list.
pub open spec fn orders_view(v: Seq<Order>) -> Seq<OrderV> {
    Seq::new(v.len(), |i: int| order_view(v[i]))
}

/// Reads a page of orders from the payload's elements.
fn orders_of_elements(els: &Vec<Json>) -> (r: Option<Vec<Order>>)
    ensures
        match r {
            Some(os) => spec_orders_of(jview_els(els@)) == Some(orders_view(os@)),
            None => spec_orders_of(jview_els(els@)) == None::<Seq<OrderV>>,
        },
{
    let ghost ev = jview_els(els@);
    proof {
        crate::json::lemma_jview_els(els@);
        assert(ev.skip(0) =~= ev);
    }
    let mut out: Vec<Order> = Vec::new();
    let mut i: usize = 0;
    while i < els.len()
        invariant
            i <= els.len(),
            ev == jview_els(els@),
            ev.len() == els@.len(),
            forall|k: int| 0 <= k < els@.len() ==> ev[k] == jview(#[trigger] els@[k]),
            spec_orders_of(ev) == (match spec_orders_of(ev.skip(i as int)) {
                Some(rest) => Some(orders_view(out@) + rest),
                None => None::<Seq<OrderV>>,
            }),
        decreases els.len() - i,
    {
        proof {
            assert(ev.skip(i as int)[0] == ev[i as int]);
            assert(ev.skip(i as int).drop_first() =~= ev.skip(i + 1));
        }
        let o = match order_of_json(&els[i]) {
            Some(o) => o,
            None => {
                proof {
                    assert(spec_orders_of(ev.skip(i as int)) == None::<Seq<OrderV>>);
                }
                return None;
            },
        };
        let ghost ov = order_view(o);
        out.push(o);
        proof {
            let next = spec_orders_of(ev.skip(i + 1));
            if next is Some {
                let rest = next->Some_0;
                assert(spec_orders_of(ev.skip(i as int)) == Some(seq![ov] + rest));
                assert(orders_view(out@) =~= orders_view(out@.drop_last()) + seq![ov]);
                assert(orders_view(out@.drop_last()) + (seq![ov] + rest) =~= orders_view(out@)
                    + rest);
            }
        }
        i = i + 1;
    }
    proof {
        assert(ev.skip(els@.len() as int).len() == 0);
        assert(orders_view(out@) + Seq::<OrderV>::empty() =~= orders_view(out@));
    }
    Some(out)
}

/// Parses an order-list response: on success the (single) page of orders.
pub fn parse_get_order_response(status: u16, body: &str) -> (r: Result<Vec<Order>, ExchangeError>)
    ensures
        match r {
            Ok(os) => spec_envelope(status, body@) matches EnvOutcome::Payload(pv)
                && spec_orders_payload(pv) == Some(orders_view(os@)),
            Err(e) => match spec_envelope(status, body@) {
                EnvOutcome::Transport => is_transport_err(e, status),
                EnvOutcome::Malformed => is_parse_err(e, body@),
                EnvOutcome::AppFailure(m, c) => is_app_err(e, m, c),
                EnvOutcome::Payload(pv) => spec_orders_payload(pv) == None::<Seq<OrderV>>
                    && is_parse_err(e, body@),
            },
        },
{
    let res = match parse_envelope(status, body) {
        Ok(res) => res,
        Err(e) => {
            return Err(e);
        },
    };
    let ghost pv = jview(res);
    let els = match res {
        Json::Arr(els) => els,
        _ => {
            return Err(parse_err(body));
        },
    };
    proof {
        assert(pv == JsonVal::ArrV(jview_els(els@)));
    }
    match orders_of_elements(&els) {
        Some(os) => Ok(os),
        None => Err(parse_err(body)),
    }
}

/// The canceled order id a cancel payload object carries.
pub open spec fn spec_cancel_of(v: JsonVal) -> Option<Seq<char>> {
    match v {
        JsonVal::ObjV(fs) => match obj_get(fs, "order_id"@) {
            Some(JsonVal::StrV(oid)) => Some(oid),
            _ => None,
        },
        _ => None,
    }
}

/// Parses a cancel-order response: on success the canceled order's id.
pub fn parse_cancel_order_response(status: u16, body: &str) -> (r: Result<
    OrderCanceledId,
    ExchangeError,
>)
    ensures
        match r {
            Ok(c) => spec_envelope(status, body@) matches EnvOutcome::Payload(pv) && spec_cancel_of(
                pv,
            ) == Some(c.order_id@),
            Err(e) => match spec_envelope(status, body@) {
                EnvOutcome::Transport => is_transport_err(e, status),
                EnvOutcome::Malformed => is_parse_err(e, body@),
                EnvOutcome::AppFailure(m, c) => is_app_err(e, m, c),
                EnvOutcome::Payload(pv) => spec_cancel_of(pv) == None::<Seq<char>> && is_parse_err(
                    e,
                    body@,
                ),
            },
        },
{
    let res = match parse_envelope(status, body) {
        Ok(res) => res,
        Err(e) => {
            return Err(e);
        },
    };
    let fs = match res {
        Json::Obj(fs) => fs,
        _ => {
            return Err(parse_err(body));
        },
    };
    match obj_lookup(&fs, "order_id") {
        Some(Json::Str(oid)) => Ok(OrderCanceledId { order_id: oid.clone() }),
        _ => Err(parse_err(body)),
    }
}

} // verus!
