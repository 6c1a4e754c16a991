//! The Bybit client: assembling each trading primitive's authenticated
//! HTTP request against its fixed endpoint path. The requests are plain
//! values; sending them is the caller's concern.

use crate::decimal::{dec_of_i32, spec_dec_of_i32};
use crate::domain::{
    order_type_token, side_token, spec_order_type_token, spec_side_token, spec_tif_token,
    tif_token, Credentials, PlaceOrder,
};
use crate::json::{jview, jview_mems, jwf_mems, lemma_jview_mems, lemma_jwf_mems, Json, JsonVal};
use crate::signer::{
    join_amp, plain_query_chars, signed_get_query, signed_post_body, spec_signed_post_body,
    spec_signed_query,
};
use crate::text::{chars_to_string, dec_digits, u64_to_digits};
use vstd::prelude::*;

verus! {

/// HTTP method of a built request.
#[derive(Debug, Clone, Copy, PartialEq, Eq, Structural)]
pub enum HttpMethod {
    Get,
    Post,
}

/// A fully-formed request: ready to send, with every auth field and
/// signature already in place.
#[derive(Debug)]
pub struct HttpRequest {
    pub method: HttpMethod,
    pub url: String,
    pub body: Option<String>,
}

/// A client for one Bybit account: its auth material, the fixed base URL,
/// and the configured receive window. Read-only after construction; each
/// request is built afresh from it.
#[derive(Debug)]
pub struct BybitClient {
    pub api_key: String,
    pub secret_key: String,
    pub base_url: String,
    pub recv_window: i32,
}

/// The query parameters of a balance request: the coin filter, when one
/// is given.
pub open spec fn spec_balance_params(coin: Option<Seq<char>>) -> Seq<(Seq<char>, Seq<char>)> {
    match coin {
        Some(c) => seq![("coin"@, c)],
        None => Seq::empty(),
    }
}

/// The query parameters of an order-list request.
pub open spec fn spec_order_list_params(symbol: Seq<char>) -> Seq<(Seq<char>, Seq<char>)> {
    seq![("symbol"@, symbol)]
}

/// The members of a signed place-order body, before the `sign` member:
/// the auth fields merged with the order's fields, in ascending key
/// order, exactly as the canonical projection signs them.
pub open spec fn spec_order_members(o: PlaceOrder, api_key: Seq<char>, timestamp_ms: nat) -> Seq<
    (Seq<char>, JsonVal),
> {
    seq![
        ("api_key"@, JsonVal::StrV(api_key)),
        ("close_on_trigger"@, JsonVal::BoolV(o.close_on_trigger)),
        ("order_type"@, JsonVal::StrV(spec_order_type_token(o.order_type))),
        (
            "price"@,
            match o.price {
                Some(p) => JsonVal::NumV(spec_dec_of_i32(p)),
                None => JsonVal::NullV,
            },
        ),
        ("qty"@, JsonVal::NumV(o.qty)),
        ("reduce_only"@, JsonVal::BoolV(o.reduce_only)),
        ("side"@, JsonVal::StrV(spec_side_token(o.side))),
        ("symbol"@, JsonVal::StrV(o.symbol@)),
        ("time_in_force"@, JsonVal::StrV(spec_tif_token(o.time_in_force))),
        ("timestamp"@, JsonVal::StrV(dec_digits(timestamp_ms))),
    ]
}

/// The members of a signed cancel-order body, before the `sign` member,
/// in ascending key order.
pub open spec fn spec_cancel_members(
    api_key: Seq<char>,
    order_id: Seq<char>,
    symbol: Seq<char>,
    timestamp_ms: nat,
) -> Seq<(Seq<char>, JsonVal)> {
    seq![
        ("api_key"@, JsonVal::StrV(api_key)),
        ("order_id"@, JsonVal::StrV(order_id)),
        ("symbol"@, JsonVal::StrV(symbol)),
        ("timestamp"@, JsonVal::StrV(dec_digits(timestamp_ms))),
    ]
}

impl BybitClient {
    /// Builds a client from one account's credentials.
    pub fn new(credentials: Credentials, recv_window: i32) -> (r: Self)
        ensures
            r.api_key@ == credentials.api_key@,
            r.secret_key@ == credentials.secret_key@,
            r.base_url@ == "https://api.bybit.com"@,
            r.recv_window == recv_window,
    {
        Self {
            api_key: credentials.api_key,
            secret_key: credentials.secret_key,
            base_url: "https://api.bybit.com".to_owned(),
            recv_window,
        }
    }

    /// Builds a GET request. Authenticated, the endpoint's path carries
    /// the signed query string; unauthenticated, the parameters as they
    /// were given, with no auth fields and no signature.
    pub fn get_request(
        &self,
        endpoint: &str,
        params: &Vec<(String, String)>,
        auth: bool,
        timestamp_ms: u64,
    ) -> (r: HttpRequest)
        ensures
            r.method == HttpMethod::Get,
            r.body is None,
            auth ==> r.url@ == self.base_url@ + endpoint@ + "?"@ + spec_signed_query(
                params.deep_view(),
                self.api_key@,
                self.secret_key@,
                timestamp_ms as nat,
            ),
            !auth && params@.len() > 0 ==> r.url@ == self.base_url@ + endpoint@ + "?"@ + join_amp(
                params.deep_view(),
            ),
            !auth && params@.len() == 0 ==> r.url@ == self.base_url@ + endpoint@,
    {
        let mut url = self.base_url.clone();
        url.append(endpoint);
        if auth {
            let q = signed_get_query(
                params,
                self.api_key.as_str(),
                self.secret_key.as_str(),
                timestamp_ms,
            );
            url.append("?");
            url.append(q.as_str());
        } else if params.len() > 0 {
            let q = plain_query_chars(params);
            let qs = chars_to_string(&q);
            url.append("?");
            url.append(qs.as_str());
        }
        HttpRequest { method: HttpMethod::Get, url, body: None }
    }

    /// Builds a POST request. Authenticated, the body is the signed body
    /// of the given members; unauthenticated, their plain serialization,
    /// with no auth fields and no signature.
    pub fn post_request(&self, endpoint: &str, members: Vec<(String, Json)>, auth: bool) -> (r:
        HttpRequest)
        requires
            jwf_mems(jview_mems(members@)),
        ensures
            r.method == HttpMethod::Post,
            r.url@ == self.base_url@ + endpoint@,
            auth ==> (r.body matches Some(b) && b@ == spec_signed_post_body(
                jview_mems(members@),
                self.secret_key@,
            )),
            !auth ==> (r.body matches Some(b) && b@ == crate::json::jser(
                JsonVal::ObjV(jview_mems(members@)),
            )),
    {
        let body: String;
        if auth {
            body = signed_post_body(members, self.secret_key.as_str());
        } else {
            let jv = Json::Obj(members);
            proof {
                assert(crate::json::jwf(jview(jv)));
            }
            let bc = crate::json::json_to_chars(&jv);
            body = chars_to_string(&bc);
        }
        let mut url = self.base_url.clone();
        url.append(endpoint);
        HttpRequest { method: HttpMethod::Post, url, body: Some(body) }
    }

    /// Builds the balance request: authenticated GET against the wallet
    /// balance endpoint, with the coin filter when one is given.
    pub fn get_balance_request(&self, coin: Option<&str>, timestamp_ms: u64) -> (r: HttpRequest)
        ensures
            r.method == HttpMethod::Get,
            r.body is None,
            r.url@ == self.base_url@ + "/v2/private/wallet/balance"@ + "?"@ + spec_signed_query(
                spec_balance_params(
                    match coin {
                        Some(c) => Some(c@),
                        None => None,
                    },
                ),
                self.api_key@,
                self.secret_key@,
                timestamp_ms as nat,
            ),
    {
        let mut params: Vec<(String, String)> = Vec::new();
        match coin {
            Some(c) => {
                params.push(("coin".to_owned(), c.to_owned()));
                proof {
                    assert(params.deep_view() =~= spec_balance_params(Some(c@)));
                }
            },
            None => {
                proof {
                    assert(params.deep_view() =~= spec_balance_params(None::<Seq<char>>));
                }
            },
        }
        self.get_request("/v2/private/wallet/balance", &params, true, timestamp_ms)
    }

    /// Builds the order-list request: authenticated GET against the order
    /// list endpoint, filtered to one symbol.
    pub fn get_order_request(&self, symbol: &str, timestamp_ms: u64) -> (r: HttpRequest)
        ensures
            r.method == HttpMethod::Get,
            r.body is None,
            r.url@ == self.base_url@ + "/private/linear/order/list"@ + "?"@ + spec_signed_query(
                spec_order_list_params(symbol@),
                self.api_key@,
                self.secret_key@,
                timestamp_ms as nat,
            ),
    {
        let mut params: Vec<(String, String)> = Vec::new();
        params.push(("symbol".to_owned(), symbol.to_owned()));
        proof {
            assert(params.deep_view() =~= spec_order_list_params(symbol@));
        }
        self.get_request("/private/linear/order/list", &params, true, timestamp_ms)
    }

    /// Builds the place-order request: authenticated POST against the
    /// order creation endpoint, the body holding the auth fields, the
    /// order's fields and the signature over their canonical projection.
    pub fn place_order_request(&self, order: &PlaceOrder, timestamp_ms: u64) -> (r: HttpRequest)
        requires
            order.wf(),
        ensures
            r.method == HttpMethod::Post,
            r.url@ == self.base_url@ + "/private/linear/order/create"@,
            r.body matches Some(b) && b@ == spec_signed_post_body(
                spec_order_members(*order, self.api_key@, timestamp_ms as nat),
                self.secret_key@,
            ),
    {
        let ghost omv = spec_order_members(*order, self.api_key@, timestamp_ms as nat);
        let mut members: Vec<(String, Json)> = Vec::new();
        members.push(("api_key".to_owned(), Json::Str(self.api_key.clone())));
        members.push(("close_on_trigger".to_owned(), Json::Bool(order.close_on_trigger)));
        members.push(
            ("order_type".to_owned(), Json::Str(order_type_token(&order.order_type).to_owned())),
        );
        let price_val = match order.price {
            Some(p) => Json::Num(dec_of_i32(p)),
            None => Json::Null,
        };
        members.push(("price".to_owned(), price_val));
        members.push(("qty".to_owned(), Json::Num(order.qty)));
        members.push(("reduce_only".to_owned(), Json::Bool(order.reduce_only)));
        members.push(("side".to_owned(), Json::Str(side_token(&order.side).to_owned())));
        members.push(("symbol".to_owned(), Json::Str(order.symbol.clone())));
        members.push(
            ("time_in_force".to_owned(), Json::Str(tif_token(&order.time_in_force).to_owned())),
        );
        let ts = u64_to_digits(timestamp_ms);
        members.push(("timestamp".to_owned(), Json::Str(chars_to_string(&ts))));
        proof {
            lemma_jview_mems(members@);
            let mv = jview_mems(members@);
            assert(members@.len() == 10);
            assert forall|k: int| 0 <= k < 10 implies #[trigger] mv[k] == (members@[k].0@, jview(
                members@[k].1,
            )) by {
                assert(mv[k] == ((#[trigger] members@[k]).0@, jview(members@[k].1)));
            }
            assert(mv[0] == omv[0]);
            assert(mv[1] == omv[1]);
            assert(mv[2] == omv[2]);
            assert(mv[3] == omv[3]);
            assert(mv[4] == omv[4]);
            assert(mv[5] == omv[5]);
            assert(mv[6] == omv[6]);
            assert(mv[7] == omv[7]);
            assert(mv[8] == omv[8]);
            assert(mv[9] == omv[9]);
            assert(mv =~= omv);
            lemma_jwf_mems(mv);
            assert forall|k: int| 0 <= k < mv.len() implies crate::json::jwf(
                (#[trigger] mv[k]).1,
            ) by {
                assert(mv[k] == omv[k]);
            }
        }
        self.post_request("/private/linear/order/create", members, true)
    }

    /// Builds the cancel-order request: authenticated POST against the
    /// order cancellation endpoint.
    pub fn cancel_order_request(&self, symbol: &str, order_id: &str, timestamp_ms: u64) -> (r:
        HttpRequest)
        ensures
            r.method == HttpMethod::Post,
            r.url@ == self.base_url@ + "/private/linear/order/cancel"@,
            r.body matches Some(b) && b@ == spec_signed_post_body(
                spec_cancel_members(self.api_key@, order_id@, symbol@, timestamp_ms as nat),
                self.secret_key@,
            ),
    {
        let ghost cmv = spec_cancel_members(
            self.api_key@,
            order_id@,
            symbol@,
            timestamp_ms as nat,
        );
        let mut members: Vec<(String, Json)> = Vec::new();
        members.push(("api_key".to_owned(), Json::Str(self.api_key.clone())));
        members.push(("order_id".to_owned(), Json::Str(order_id.to_owned())));
        members.push(("symbol".to_owned(), Json::Str(symbol.to_owned())));
        let ts = u64_to_digits(timestamp_ms);
        members.push(("timestamp".to_owned(), Json::Str(chars_to_string(&ts))));
        proof {
            lemma_jview_mems(members@);
            let mv = jview_mems(members@);
            assert(members@.len() == 4);
            assert forall|k: int| 0 <= k < 4 implies #[trigger] mv[k] == (members@[k].0@, jview(
                members@[k].1,
            )) by {
                assert(mv[k] == ((#[trigger] members@[k]).0@, jview(members@[k].1)));
            }
            assert(mv[0] == cmv[0]);
            assert(mv[1] == cmv[1]);
            assert(mv[2] == cmv[2]);
            assert(mv[3] == cmv[3]);
            assert(mv =~= cmv);
            lemma_jwf_mems(mv);
            assert forall|k: int| 0 <= k < mv.len() implies crate::json::jwf(
                (#[trigger] mv[k]).1,
            ) by {
                assert(mv[k] == cmv[k]);
            }
        }
        self.post_request("/private/linear/order/cancel", members, true)
    }
}

} // verus!
