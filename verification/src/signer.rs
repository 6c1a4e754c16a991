//! The Signer: pure construction of the canonical message for an
//! authenticated GET request and of its HMAC-SHA256 signature.
//!
//! The caller's query parameters are combined with the two injected auth
//! parameters (`api_key`, and `timestamp` in Unix milliseconds), sorted by
//! byte-wise ascending key, percent-encoded and joined as `key=value`
//! pairs with `&`. That exact string is signed; the hex signature is then
//! appended as one more `sign` parameter, which is never itself part of
//! the signed message.

use crate::encode::{hex_encode, hex_of_bytes, pct_encode, pct_encode_bytes};
use crate::json::{json_to_chars, jser, jview, jview_mems, jwf, jwf_mems, lemma_jview_mems, Json, JsonVal};
use crate::text::{
    chars_to_string, dec_digits, lemma_lex_le_antisym, lemma_lex_le_refl, lemma_lex_le_total,
    lemma_lex_le_trans, lex_le, str_to_chars, u64_to_digits,
};
use vstd::prelude::*;
use vstd::relations::{sorted_by, total_ordering};
use vstd::seq_lib::lemma_sorted_unique;
use vstd::utf8::encode_utf8;

verus! {

broadcast use vstd::seq_lib::group_to_multiset_ensures;

/// What the HMAC-SHA256 tag of a key and a message is. The tag depends on
/// the two arguments alone; nothing further is assumed about its value.
pub uninterp spec fn hmac_sha256_of(key: Seq<char>, msg: Seq<char>) -> Seq<u8>;

/// Relies on `hmac::Hmac<sha2::Sha256>` (HMAC per RFC 2104 over SHA-256):
/// the 32-byte tag is a pure function of the key and message bytes, and
/// keys of any length are accepted.
#[verifier::external_body]
fn hmac_sha256(key: &str, msg: &str) -> (r: Vec<u8>)
    ensures
        r@ == hmac_sha256_of(key@, msg@),
        r@.len() == 32,
{
    let mut mac = <hmac::Hmac<sha2::Sha256> as hmac::digest::KeyInit>::new_from_slice(
        key.as_bytes(),
    ).expect("HMAC accepts keys of any length");
    hmac::Mac::update(&mut mac, msg.as_bytes());
    hmac::Mac::finalize(mac).into_bytes().to_vec()
}

/// Order on `(key, value)` pairs: by key, then by value, each byte-wise
/// ascending.
pub open spec fn pair_le(x: (Seq<char>, Seq<char>), y: (Seq<char>, Seq<char>)) -> bool {
    if x.0 != y.0 {
        lex_le(x.0, y.0)
    } else {
        lex_le(x.1, y.1)
    }
}

/// The pair order as a relation value, for sorting.
pub open spec fn param_leq() -> spec_fn((Seq<char>, Seq<char>), (Seq<char>, Seq<char>)) -> bool {
    |x: (Seq<char>, Seq<char>), y: (Seq<char>, Seq<char>)| pair_le(x, y)
}

pub proof fn lemma_pair_le_total(x: (Seq<char>, Seq<char>), y: (Seq<char>, Seq<char>))
    ensures
        pair_le(x, y) || pair_le(y, x),
{
    lemma_lex_le_total(x.0, y.0);
    lemma_lex_le_total(x.1, y.1);
}

pub proof fn lemma_pair_le_antisym(x: (Seq<char>, Seq<char>), y: (Seq<char>, Seq<char>))
    requires
        pair_le(x, y),
        pair_le(y, x),
    ensures
        x == y,
{
    if x.0 != y.0 {
        lemma_lex_le_antisym(x.0, y.0);
    } else {
        lemma_lex_le_antisym(x.1, y.1);
    }
}

pub proof fn lemma_pair_le_trans(
    x: (Seq<char>, Seq<char>),
    y: (Seq<char>, Seq<char>),
    z: (Seq<char>, Seq<char>),
)
    requires
        pair_le(x, y),
        pair_le(y, z),
    ensures
        pair_le(x, z),
{
    if x.0 != y.0 && y.0 != z.0 {
        lemma_lex_le_trans(x.0, y.0, z.0);
        if x.0 == z.0 {
            lemma_lex_le_antisym(x.0, y.0);
        }
    } else if x.0 == y.0 && y.0 == z.0 {
        lemma_lex_le_trans(x.1, y.1, z.1);
    }
}

pub proof fn lemma_param_leq_total_ordering()
    ensures
        total_ordering(param_leq()),
{
    let leq = param_leq();
    assert forall|x: (Seq<char>, Seq<char>)| #[trigger] leq(x, x) by {
        lemma_lex_le_refl(x.1);
    }
    assert forall|x: (Seq<char>, Seq<char>), y: (Seq<char>, Seq<char>)|
        #[trigger] leq(x, y) && #[trigger] leq(y, x) implies x == y by {
        lemma_pair_le_antisym(x, y);
    }
    assert forall|x: (Seq<char>, Seq<char>), y: (Seq<char>, Seq<char>), z: (Seq<char>, Seq<char>)|
        #[trigger] leq(x, y) && #[trigger] leq(y, z) implies leq(x, z) by {
        lemma_pair_le_trans(x, y, z);
    }
    assert forall|x: (Seq<char>, Seq<char>), y: (Seq<char>, Seq<char>)| #[trigger] leq(x, y) || #[trigger] leq(
        y,
        x,
    ) by {
        lemma_pair_le_total(x, y);
    }
}

/// Byte-wise lexicographic "less than or equal" on string slices.
fn str_lex_le(a: &str, b: &str) -> (r: bool)
    ensures
        r == lex_le(a@, b@),
{
    let an = a.unicode_len();
    let bn = b.unicode_len();
    let mut i: usize = 0;
    proof {
        assert(a@.skip(0) =~= a@);
        assert(b@.skip(0) =~= b@);
    }
    while i < an && i < bn
        invariant
            i <= an,
            i <= bn,
            an == a@.len(),
            bn == b@.len(),
            lex_le(a@, b@) == lex_le(a@.skip(i as int), b@.skip(i as int)),
        decreases an - i,
    {
        let ca = a.get_char(i);
        let cb = b.get_char(i);
        proof {
            assert(a@.skip(i as int)[0] == a@[i as int]);
            assert(b@.skip(i as int)[0] == b@[i as int]);
        }
        if ca != cb {
            return (ca as u32) < (cb as u32);
        }
        proof {
            assert(a@.skip(i as int).drop_first() =~= a@.skip(i + 1));
            assert(b@.skip(i as int).drop_first() =~= b@.skip(i + 1));
        }
        i = i + 1;
    }
    i == an
}

/// Order on parameter pairs, executable.
fn param_pair_le(a: &(String, String), b: &(String, String)) -> (r: bool)
    ensures
        r == pair_le(a.deep_view(), b.deep_view()),
{
    if a.0 == b.0 {
        str_lex_le(a.1.as_str(), b.1.as_str())
    } else {
        str_lex_le(a.0.as_str(), b.0.as_str())
    }
}

/// Sorts parameters by byte-wise ascending key (then value): the canonical
/// order the exchange requires for the signed query string.
pub fn sort_params(ps: &Vec<(String, String)>) -> (r: Vec<(String, String)>)
    ensures
        r.deep_view() == ps.deep_view().sort_by(param_leq()),
{
    proof {
        lemma_param_leq_total_ordering();
    }
    let mut r: Vec<(String, String)> = Vec::new();
    let mut idx: usize = 0;
    while idx < ps.len()
        invariant
            idx <= ps.len(),
            sorted_by(r.deep_view(), param_leq()),
            r.deep_view().to_multiset() == ps.deep_view().subrange(0, idx as int).to_multiset(),
        decreases ps.len() - idx,
    {
        let x = (ps[idx].0.clone(), ps[idx].1.clone());
        let ghost xv = x.deep_view();
        proof {
            assert(xv == ps.deep_view()[idx as int]);
        }
        let ghost old_dv = r.deep_view();
        let mut j: usize = 0;
        while j < r.len() && param_pair_le(&r[j], &x)
            invariant
                j <= r.len(),
                r.deep_view() == old_dv,
                x.deep_view() == xv,
                forall|i: int| 0 <= i < j ==> pair_le(#[trigger] old_dv[i], xv),
            decreases r.len() - j,
        {
            proof {
                assert(r.deep_view()[j as int] == (r@[j as int].0@, r@[j as int].1@));
            }
            j = j + 1;
        }
        proof {
            let leq = param_leq();
            assert forall|p: int, q: int| 0 <= p < q < old_dv.len() implies pair_le(
                #[trigger] old_dv[p],
                #[trigger] old_dv[q],
            ) by {
                assert(leq(old_dv[p], old_dv[q]));
            }
            if j < r.len() {
                assert(r.deep_view()[j as int] == old_dv[j as int]);
            }
        }
        r.insert(j, x);
        proof {
            lemma_param_leq_total_ordering();
            let leq = param_leq();
            let dv = r.deep_view();
            assert(dv =~= old_dv.insert(j as int, xv));
            // the inserted sequence is still sorted
            if j < old_dv.len() {
                lemma_pair_le_total(old_dv[j as int], xv);
            }
            assert forall|m: int, n: int| 0 <= m < n < dv.len() implies pair_le(
                #[trigger] dv[m],
                #[trigger] dv[n],
            ) by {
                let jj = j as int;
                if m < jj && n < jj {
                    assert(pair_le(old_dv[m], old_dv[n]));
                } else if m < jj && n == jj {
                    assert(pair_le(old_dv[m], xv));
                } else if m < jj && n > jj {
                    assert(pair_le(old_dv[m], old_dv[n - 1]));
                } else if m == jj && n > jj {
                    assert(!pair_le(old_dv[jj], xv));
                    assert(pair_le(xv, old_dv[jj]));
                    if n - 1 > jj {
                        assert(pair_le(old_dv[jj], old_dv[n - 1]));
                        lemma_pair_le_trans(xv, old_dv[jj], old_dv[n - 1]);
                    }
                } else {
                    assert(m > jj);
                    assert(pair_le(old_dv[m - 1], old_dv[n - 1]));
                }
            }
            assert forall|p: int, q: int| 0 <= p < q < dv.len() implies #[trigger] leq(
                dv[p],
                dv[q],
            ) by {
                assert(pair_le(dv[p], dv[q]));
            }
            assert(sorted_by(dv, param_leq()));
            // the multiset grows by exactly the inserted pair
            assert(dv.remove(j as int) =~= old_dv);
            assert(dv.remove(j as int).to_multiset() =~= dv.to_multiset().remove(dv[j as int]));
            assert(dv.contains(xv));
            assert(dv.to_multiset().count(xv) > 0);
            assert(dv.to_multiset() =~= old_dv.to_multiset().insert(xv));
            // and the processed prefix grows by the same pair
            let pre = ps.deep_view().subrange(0, idx as int);
            let pre1 = ps.deep_view().subrange(0, idx + 1);
            assert(pre1 =~= pre.push(xv));
            assert(pre1.to_multiset() =~= pre.to_multiset().insert(xv));
        }
        idx = idx + 1;
    }
    proof {
        assert(ps.deep_view().subrange(0, ps.len() as int) =~= ps.deep_view());
        ps.deep_view().lemma_sort_by_ensures(param_leq());
        lemma_param_leq_total_ordering();
        lemma_sorted_unique(r.deep_view(), ps.deep_view().sort_by(param_leq()), param_leq());
    }
    r
}

/// How one `(key, value)` pair is written in the query string.
pub open spec fn enc_pair(p: (Seq<char>, Seq<char>)) -> Seq<char> {
    pct_encode_bytes(encode_utf8(p.0)) + seq!['='] + pct_encode_bytes(encode_utf8(p.1))
}

/// Encoded pairs joined with `&`.
pub open spec fn join_amp(ps: Seq<(Seq<char>, Seq<char>)>) -> Seq<char>
    decreases ps.len(),
{
    if ps.len() == 0 {
        Seq::empty()
    } else if ps.len() == 1 {
        enc_pair(ps[0])
    } else {
        join_amp(ps.drop_last()) + seq!['&'] + enc_pair(ps.last())
    }
}

/// The canonical query string of a parameter list: pairs sorted by
/// byte-wise ascending key, percent-encoded, joined `key=value` with `&`.
pub open spec fn spec_canonical_query(ps: Seq<(Seq<char>, Seq<char>)>) -> Seq<char> {
    join_amp(ps.sort_by(param_leq()))
}

/// Builds the canonical query string of `ps`.
pub fn canonical_query_chars(ps: &Vec<(String, String)>) -> (r: Vec<char>)
    ensures
        r@ == spec_canonical_query(ps.deep_view()),
{
    let sorted = sort_params(ps);
    let ghost sdv = ps.deep_view().sort_by(param_leq());
    let mut r: Vec<char> = Vec::new();
    let mut i: usize = 0;
    while i < sorted.len()
        invariant
            i <= sorted.len(),
            sorted.deep_view() == sdv,
            r@ == join_amp(sdv.subrange(0, i as int)),
        decreases sorted.len() - i,
    {
        if i > 0 {
            r.push('&');
        }
        let mut k = pct_encode(sorted[i].0.as_str());
        r.append(&mut k);
        r.push('=');
        let mut v = pct_encode(sorted[i].1.as_str());
        r.append(&mut v);
        proof {
            assert(sdv[i as int] == (sorted@[i as int].0@, sorted@[i as int].1@));
            assert(sdv.subrange(0, i + 1).drop_last() =~= sdv.subrange(0, i as int));
            assert(sdv.subrange(0, i + 1).last() == sdv[i as int]);
            assert(sdv.subrange(0, i + 1)[0] == sdv[0]);
            assert(r@ =~= join_amp(sdv.subrange(0, i + 1)));
        }
        i = i + 1;
    }
    proof {
        assert(sdv.subrange(0, sdv.len() as int) =~= sdv);
    }
    r
}

/// Writes the parameters as an unsigned query string, in the order they
/// were given: percent-encoded `key=value` pairs joined with `&`.
pub fn plain_query_chars(ps: &Vec<(String, String)>) -> (r: Vec<char>)
    ensures
        r@ == join_amp(ps.deep_view()),
{
    let ghost dv = ps.deep_view();
    let mut r: Vec<char> = Vec::new();
    let mut i: usize = 0;
    while i < ps.len()
        invariant
            i <= ps.len(),
            ps.deep_view() == dv,
            r@ == join_amp(dv.subrange(0, i as int)),
        decreases ps.len() - i,
    {
        if i > 0 {
            r.push('&');
        }
        let mut k = pct_encode(ps[i].0.as_str());
        r.append(&mut k);
        r.push('=');
        let mut v = pct_encode(ps[i].1.as_str());
        r.append(&mut v);
        proof {
            assert(dv[i as int] == (ps@[i as int].0@, ps@[i as int].1@));
            assert(dv.subrange(0, i + 1).drop_last() =~= dv.subrange(0, i as int));
            assert(dv.subrange(0, i + 1).last() == dv[i as int]);
            assert(dv.subrange(0, i + 1)[0] == dv[0]);
            assert(r@ =~= join_amp(dv.subrange(0, i + 1)));
        }
        i = i + 1;
    }
    proof {
        assert(dv.subrange(0, dv.len() as int) =~= dv);
    }
    r
}

/// The two auth parameters injected into every authenticated GET request.
pub open spec fn spec_auth_params(api_key: Seq<char>, timestamp_ms: nat) -> Seq<
    (Seq<char>, Seq<char>),
> {
    seq![("api_key"@, api_key), ("timestamp"@, dec_digits(timestamp_ms))]
}

/// The canonical message an authenticated GET signs: the caller's
/// parameters plus the auth parameters, in canonical query form.
pub open spec fn spec_message(
    params: Seq<(Seq<char>, Seq<char>)>,
    api_key: Seq<char>,
    timestamp_ms: nat,
) -> Seq<char> {
    spec_canonical_query(params + spec_auth_params(api_key, timestamp_ms))
}

/// The signature of a message under a secret: lowercase hex of the
/// HMAC-SHA256 tag.
pub open spec fn spec_signature(secret: Seq<char>, msg: Seq<char>) -> Seq<char> {
    hex_of_bytes(hmac_sha256_of(secret, msg))
}

/// The full signed query string: the canonical message followed by the
/// appended `sign` parameter.
pub open spec fn spec_signed_query(
    params: Seq<(Seq<char>, Seq<char>)>,
    api_key: Seq<char>,
    secret: Seq<char>,
    timestamp_ms: nat,
) -> Seq<char> {
    spec_message(params, api_key, timestamp_ms) + "&sign="@ + spec_signature(
        secret,
        spec_message(params, api_key, timestamp_ms),
    )
}

/// Computes the signature of `msg` under `secret`.
pub fn sign(secret: &str, msg: &str) -> (r: Vec<char>)
    ensures
        r@ == spec_signature(secret@, msg@),
        r@.len() == 64,
{
    let tag = hmac_sha256(secret, msg);
    let r = hex_encode(&tag);
    proof {
        lemma_hex_len(tag@);
    }
    r
}

proof fn lemma_hex_len(bs: Seq<u8>)
    ensures
        hex_of_bytes(bs).len() == 2 * bs.len(),
    decreases bs.len(),
{
    if bs.len() > 0 {
        lemma_hex_len(bs.drop_last());
    }
}

/// Builds the signed query string of an authenticated GET request from the
/// caller's parameters, the account's key material and the timestamp.
pub fn signed_get_query(
    params: &Vec<(String, String)>,
    api_key: &str,
    secret: &str,
    timestamp_ms: u64,
) -> (r: String)
    ensures
        r@ == spec_signed_query(params.deep_view(), api_key@, secret@, timestamp_ms as nat),
{
    let mut all: Vec<(String, String)> = Vec::new();
    let mut i: usize = 0;
    while i < params.len()
        invariant
            i <= params.len(),
            all@.len() == i,
            all.deep_view() == params.deep_view().subrange(0, i as int),
        decreases params.len() - i,
    {
        all.push((params[i].0.clone(), params[i].1.clone()));
        proof {
            let v = all@[i as int];
            assert(v.0@ == params@[i as int].0@);
            assert(v.1@ == params@[i as int].1@);
            assert(v.deep_view() == (v.0@, v.1@));
            assert(params.deep_view()[i as int] == (params@[i as int].0@, params@[i as int].1@));
            assert(all.deep_view() =~= params.deep_view().subrange(0, i + 1));
        }
        i = i + 1;
    }
    let ts = u64_to_digits(timestamp_ms);
    all.push(("api_key".to_owned(), api_key.to_owned()));
    all.push(("timestamp".to_owned(), chars_to_string(&ts)));
    proof {
        assert(params.deep_view().subrange(0, params.len() as int) =~= params.deep_view());
        assert(all.deep_view() =~= params.deep_view() + spec_auth_params(
            api_key@,
            timestamp_ms as nat,
        ));
    }
    let msg_chars = canonical_query_chars(&all);
    let msg = chars_to_string(&msg_chars);
    let sig = sign(secret, msg.as_str());
    let sig_str = chars_to_string(&sig);
    let mut out = msg;
    out.append("&sign=");
    out.append(sig_str.as_str());
    out
}

/// `s` with every double-quote character removed: the projection the
/// signed POST message applies to the serialized values.
pub open spec fn strip_quotes(s: Seq<char>) -> Seq<char>
    decreases s.len(),
{
    if s.len() == 0 {
        Seq::empty()
    } else if s.last() == '"' {
        strip_quotes(s.drop_last())
    } else {
        strip_quotes(s.drop_last()).push(s.last())
    }
}

/// Object members written `key=value` and joined with `&`, the value as
/// its serialized JSON text.
pub open spec fn join_amp_kv(ms: Seq<(Seq<char>, JsonVal)>) -> Seq<char>
    decreases ms.len(),
{
    if ms.len() == 0 {
        Seq::empty()
    } else if ms.len() == 1 {
        ms[0].0 + seq!['='] + jser(ms[0].1)
    } else {
        join_amp_kv(ms.drop_last()) + seq!['&'] + ms.last().0 + seq!['='] + jser(ms.last().1)
    }
}

/// The canonical message an authenticated POST signs: the body's members
/// as `key=value` pairs joined with `&`, with all quote characters
/// stripped. This is the one canonical JSON-to-string projection the
/// library uses, held fixed.
pub open spec fn spec_post_message(ms: Seq<(Seq<char>, JsonVal)>) -> Seq<char> {
    strip_quotes(join_amp_kv(ms))
}

/// The full signed POST body: the members plus a final `sign` member
/// carrying the signature of the canonical message of the members alone.
pub open spec fn spec_signed_post_body(ms: Seq<(Seq<char>, JsonVal)>, secret: Seq<char>) -> Seq<
    char,
> {
    jser(
        JsonVal::ObjV(
            ms.push(("sign"@, JsonVal::StrV(spec_signature(secret, spec_post_message(ms))))),
        ),
    )
}

fn strip_quotes_exec(s: &Vec<char>) -> (r: Vec<char>)
    ensures
        r@ == strip_quotes(s@),
{
    let mut r: Vec<char> = Vec::new();
    let mut i: usize = 0;
    while i < s.len()
        invariant
            i <= s.len(),
            r@ == strip_quotes(s@.subrange(0, i as int)),
        decreases s.len() - i,
    {
        let c = s[i];
        if c != '"' {
            r.push(c);
        }
        proof {
            let cur = s@.subrange(0, i + 1);
            assert(cur.drop_last() =~= s@.subrange(0, i as int));
            assert(cur.last() == s@[i as int]);
        }
        i = i + 1;
    }
    proof {
        assert(s@.subrange(0, s@.len() as int) =~= s@);
    }
    r
}

/// Builds the signed body of an authenticated POST request: signs the
/// members' canonical message and appends the `sign` member, which is
/// never part of what was signed.
pub fn signed_post_body(members: Vec<(String, Json)>, secret: &str) -> (r: String)
    requires
        jwf_mems(jview_mems(members@)),
    ensures
        r@ == spec_signed_post_body(jview_mems(members@), secret@),
{
    let ghost mv = jview_mems(members@);
    proof {
        lemma_jview_mems(members@);
        crate::json::lemma_jwf_mems(mv);
    }
    let mut msg: Vec<char> = Vec::new();
    let mut i: usize = 0;
    while i < members.len()
        invariant
            i <= members.len(),
            mv == jview_mems(members@),
            mv.len() == members@.len(),
            forall|k: int|
                0 <= k < members@.len() ==> mv[k] == ((#[trigger] members@[k]).0@, jview(
                    members@[k].1,
                )),
            forall|k: int| 0 <= k < mv.len() ==> jwf((#[trigger] mv[k]).1),
            msg@ == join_amp_kv(mv.subrange(0, i as int)),
        decreases members.len() - i,
    {
        if i > 0 {
            msg.push('&');
        }
        let mut kc = str_to_chars(members[i].0.as_str());
        msg.append(&mut kc);
        msg.push('=');
        proof {
            assert(jwf(jview(members@[i as int].1)));
        }
        let mut vc = json_to_chars(&members[i].1);
        msg.append(&mut vc);
        proof {
            let cur = mv.subrange(0, i + 1);
            assert(cur.drop_last() =~= mv.subrange(0, i as int));
            assert(cur.last() == mv[i as int]);
            assert(cur[0] == mv[0]);
            assert(msg@ =~= join_amp_kv(cur));
        }
        i = i + 1;
    }
    proof {
        assert(mv.subrange(0, mv.len() as int) =~= mv);
    }
    let stripped = strip_quotes_exec(&msg);
    let msg_str = chars_to_string(&stripped);
    let sig = sign(secret, msg_str.as_str());
    let sig_str = chars_to_string(&sig);
    let mut members = members;
    members.push(("sign".to_owned(), Json::Str(sig_str)));
    proof {
        lemma_jview_mems(members@);
        let nmv = jview_mems(members@);
        assert forall|k: int| 0 <= k < nmv.len() implies #[trigger] nmv[k] == mv.push(
            ("sign"@, JsonVal::StrV(spec_signature(secret@, spec_post_message(mv)))),
        )[k] by {
            if k < mv.len() {
                assert(nmv[k] == (members@[k].0@, jview(members@[k].1)));
            }
        }
        assert(nmv =~= mv.push(
            ("sign"@, JsonVal::StrV(spec_signature(secret@, spec_post_message(mv)))),
        ));
        crate::json::lemma_jwf_mems(nmv);
        assert forall|k: int| 0 <= k < nmv.len() implies jwf((#[trigger] nmv[k]).1) by {
            if k < mv.len() {
                assert(jwf(mv[k].1));
            }
        }
    }
    let body_chars = json_to_chars(&Json::Obj(members));
    chars_to_string(&body_chars)
}

/// Law: signing is deterministic. Any two signed query strings computed
/// from the same parameters, key, secret and timestamp are equal.
pub proof fn lemma_signer_deterministic(
    r1: Seq<char>,
    r2: Seq<char>,
    params: Seq<(Seq<char>, Seq<char>)>,
    api_key: Seq<char>,
    secret: Seq<char>,
    timestamp_ms: nat,
)
    requires
        r1 == spec_signed_query(params, api_key, secret, timestamp_ms),
        r2 == spec_signed_query(params, api_key, secret, timestamp_ms),
    ensures
        r1 == r2,
{
}

/// Law: the canonical query string is emitted in byte-wise ascending key
/// order, regardless of the order the parameters arrive in: the sorted
/// pair sequence is ordered by key, holds exactly the input pairs, and any
/// two inputs that hold the same pairs canonicalize identically.
pub proof fn lemma_canonical_query_sorted(
    ps: Seq<(Seq<char>, Seq<char>)>,
    qs: Seq<(Seq<char>, Seq<char>)>,
)
    requires
        ps.to_multiset() == qs.to_multiset(),
    ensures
        sorted_by(ps.sort_by(param_leq()), param_leq()),
        ps.sort_by(param_leq()).to_multiset() == ps.to_multiset(),
        forall|i: int, j: int|
            0 <= i < j < ps.sort_by(param_leq()).len() ==> lex_le(
                #[trigger] ps.sort_by(param_leq())[i].0,
                #[trigger] ps.sort_by(param_leq())[j].0,
            ),
        spec_canonical_query(ps) == spec_canonical_query(qs),
{
    lemma_param_leq_total_ordering();
    ps.lemma_sort_by_ensures(param_leq());
    qs.lemma_sort_by_ensures(param_leq());
    let s = ps.sort_by(param_leq());
    assert forall|i: int, j: int| 0 <= i < j < s.len() implies lex_le(
        #[trigger] s[i].0,
        #[trigger] s[j].0,
    ) by {
        assert(param_leq()(s[i], s[j]));
        assert(pair_le(s[i], s[j]));
        if s[i].0 == s[j].0 {
            lemma_lex_le_refl(s[i].0);
        }
    }
    lemma_sorted_unique(s, qs.sort_by(param_leq()), param_leq());
}

/// Law: the `sign` parameter is never part of its own signed message. The
/// signed query string is the canonical message followed by `&sign=` and
/// the signature of that message alone, and — provided the caller passed
/// no `sign` parameter — no pair of the message carries the key `sign`.
pub proof fn lemma_sign_not_self_included(
    params: Seq<(Seq<char>, Seq<char>)>,
    api_key: Seq<char>,
    secret: Seq<char>,
    timestamp_ms: nat,
)
    requires
        forall|i: int| 0 <= i < params.len() ==> (#[trigger] params[i]).0 != "sign"@,
    ensures
        spec_signed_query(params, api_key, secret, timestamp_ms) == spec_message(
            params,
            api_key,
            timestamp_ms,
        ) + "&sign="@ + spec_signature(secret, spec_message(params, api_key, timestamp_ms)),
        forall|i: int|
            0 <= i < (params + spec_auth_params(api_key, timestamp_ms)).sort_by(
                param_leq(),
            ).len() ==> (#[trigger] (params + spec_auth_params(api_key, timestamp_ms)).sort_by(
                param_leq(),
            )[i]).0 != "sign"@,
{
    lemma_param_leq_total_ordering();
    let all = params + spec_auth_params(api_key, timestamp_ms);
    all.lemma_sort_by_ensures(param_leq());
    let s = all.sort_by(param_leq());
    reveal_strlit("sign");
    reveal_strlit("api_key");
    reveal_strlit("timestamp");
    assert forall|i: int| 0 <= i < s.len() implies (#[trigger] s[i]).0 != "sign"@ by {
        assert(s.contains(s[i]));
        assert(s.to_multiset().count(s[i]) > 0);
        assert(all.to_multiset().count(s[i]) > 0);
        assert(all.contains(s[i]));
        let k = choose|k: int| 0 <= k < all.len() && all[k] == s[i];
        if k < params.len() {
            assert(all[k] == params[k]);
        } else {
            assert(("api_key"@).len() == 7);
            assert(("timestamp"@).len() == 9);
            assert(("sign"@).len() == 4);
        }
    }
}

} // verus!

