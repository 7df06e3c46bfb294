//! The signed request/response protocol of the authenticated trading
//! endpoint: request envelopes, reply correlation, and response
//! interpretation.  The transport itself lives outside this crate; it
//! hands frames in and out as plain strings.

use vstd::prelude::*;
use crate::auth::{
    augmented_views, query_of, signature_of, sorted_insert_v, BinanceAuth, ParamMap,
    lemma_hex_format, hmac_sha256_of,
};
use crate::text::{dec_chars, lemma_dec_bytes_ascii, u64_to_dec};

verus! {

broadcast use vstd::string::group_string_axioms;

/// Details of a successful order operation, as the venue reports them.
#[derive(Clone, Debug)]
pub struct BinanceOrderResult {
    pub order_id: u64,
    pub symbol: String,
    pub status: String,
    pub client_order_id: String,
    pub price: String,
    pub avg_price: Option<String>,
    pub orig_qty: String,
    pub executed_qty: String,
    pub cum_qty: Option<String>,
    pub cum_quote: Option<String>,
    pub time_in_force: String,
    pub order_type: String,
    pub reduce_only: bool,
    pub close_position: bool,
    pub side: String,
    pub position_side: String,
    pub stop_price: String,
    pub working_type: String,
    pub price_protect: bool,
    pub orig_type: String,
    pub price_match: String,
    pub self_trade_prevention_mode: String,
    pub good_till_date: u64,
    pub update_time: u64,
}

/// Error details in a reply.
#[derive(Clone, Debug)]
pub struct WsError {
    pub code: i32,
    pub msg: String,
}

/// One correlated reply frame.
#[derive(Clone, Debug)]
pub struct BinanceOrderResponse {
    pub id: String,
    pub status: u16,
    pub result: Option<BinanceOrderResult>,
    pub error: Option<WsError>,
}

/// How a signed request can fail.
#[derive(Clone, Debug)]
pub enum TradingError {
    /// The venue answered with an error object.
    Api { code: i32, msg: String },
    /// The reply carried neither a result nor an error.
    MissingResult,
    /// The transport closed before the matching reply arrived.
    ConnectionClosed,
}

/// A reply is for us exactly when its id matches the request's.
pub fn is_matching_reply(frame_id: &String, expected_id: &String) -> (r: bool)
    ensures
        r == (frame_id@ == expected_id@),
{
    *frame_id == *expected_id
}

/// Interprets a correlated reply: a missing `result` is an error even
/// when the status looks successful, and the venue's error is handed
/// through verbatim.
pub fn handle_order_response(resp: BinanceOrderResponse) -> (r: Result<
    BinanceOrderResult,
    TradingError,
>)
    ensures
        resp.result is Some ==> r == Ok::<BinanceOrderResult, TradingError>(
            resp.result->Some_0,
        ),
        resp.result is None && resp.error is Some ==> r == Err::<BinanceOrderResult, TradingError>(
            TradingError::Api { code: resp.error->Some_0.code, msg: resp.error->Some_0.msg },
        ),
        resp.result is None && resp.error is None ==> r == Err::<BinanceOrderResult, TradingError>(
            TradingError::MissingResult,
        ),
{
    match resp.result {
        Some(result) => Ok(result),
        None => match resp.error {
            Some(e) => Err(TradingError::Api { code: e.code, msg: e.msg }),
            None => Err(TradingError::MissingResult),
        },
    }
}

/// Characters that can sit inside a JSON string without escaping.
pub open spec fn json_safe(s: Seq<char>) -> bool {
    forall|i: int| 0 <= i < s.len() ==> s[i] != '"' && s[i] != '\\' && (#[trigger] s[i] as u32) >= 32
}

/// Every key and value can sit inside a JSON string unescaped.
pub open spec fn all_json_safe(vs: Seq<(Seq<char>, Seq<char>)>) -> bool {
    forall|i: int| 0 <= i < vs.len() ==> json_safe((#[trigger] vs[i]).0) && json_safe(vs[i].1)
}

pub open spec fn quoted(s: Seq<char>) -> Seq<char> {
    seq!['"'] + s + seq!['"']
}

/// The members of a JSON object of string fields, in list order.
pub open spec fn obj_chars(vs: Seq<(Seq<char>, Seq<char>)>) -> Seq<char>
    decreases vs.len(),
{
    if vs.len() == 0 {
        Seq::empty()
    } else if vs.len() == 1 {
        quoted(vs[0].0) + seq![':'] + quoted(vs[0].1)
    } else {
        quoted(vs[0].0) + seq![':'] + quoted(vs[0].1) + seq![','] + obj_chars(vs.drop_first())
    }
}

/// The request envelope: `{"id":...,"method":...,"params":{...}}`.
pub open spec fn request_envelope(
    id: Seq<char>,
    method: Seq<char>,
    vs: Seq<(Seq<char>, Seq<char>)>,
) -> Seq<char> {
    seq!['{'] + quoted("id"@) + seq![':'] + quoted(id) + seq![','] + quoted("method"@) + seq![':']
        + quoted(method) + seq![','] + quoted("params"@) + seq![':'] + seq!['{'] + obj_chars(vs)
        + seq!['}'] + seq!['}']
}

proof fn lemma_obj_push(vs: Seq<(Seq<char>, Seq<char>)>, e: (Seq<char>, Seq<char>))
    ensures
        vs.len() == 0 ==> obj_chars(vs.push(e)) == quoted(e.0) + seq![':'] + quoted(e.1),
        vs.len() > 0 ==> obj_chars(vs.push(e)) == obj_chars(vs) + seq![','] + quoted(e.0)
            + seq![':'] + quoted(e.1),
    decreases vs.len(),
{
    if vs.len() == 0 {
        assert(vs.push(e)[0] == e);
        assert(obj_chars(vs.push(e)) =~= quoted(e.0) + seq![':'] + quoted(e.1));
    } else {
        lemma_obj_push(vs.drop_first(), e);
        assert(vs.push(e)[0] == vs[0]);
        assert(vs.push(e).drop_first() =~= vs.drop_first().push(e));
        assert(obj_chars(vs.push(e)) =~= obj_chars(vs) + seq![','] + quoted(e.0) + seq![':']
            + quoted(e.1));
    }
}

/// Renders the request envelope as a text frame.
pub fn render_request(id: &str, method: &str, params: &ParamMap) -> (r: String)
    ensures
        r@ == request_envelope(id@, method@, params.views()),
{
    let mut r = String::new();
    r.append("{\"id\":\"");
    r.append(id);
    r.append("\",\"method\":\"");
    r.append(method);
    r.append("\",\"params\":{");
    proof {
        reveal_strlit("{\"id\":\"");
        reveal_strlit("\",\"method\":\"");
        reveal_strlit("\",\"params\":{");
        reveal_strlit("id");
        reveal_strlit("method");
        reveal_strlit("params");
        assert(r@ =~= seq!['{'] + quoted("id"@) + seq![':'] + quoted(id@) + seq![','] + quoted(
            "method"@,
        ) + seq![':'] + quoted(method@) + seq![','] + quoted("params"@) + seq![':'] + seq!['{']
            + obj_chars(params.views().take(0)));
    }
    let ghost prefix = r@;
    let n = params.entries.len();
    let mut i: usize = 0;
    while i < n
        invariant
            n == params.entries@.len(),
            i <= n,
            r@ == prefix + obj_chars(params.views().take(i as int)),
        decreases n - i,
    {
        if i > 0 {
            r.append(",");
        }
        r.append("\"");
        r.append(params.entries[i].0.as_str());
        r.append("\":\"");
        r.append(params.entries[i].1.as_str());
        r.append("\"");
        proof {
            reveal_strlit(",");
            reveal_strlit("\"");
            reveal_strlit("\":\"");
            let vs = params.views();
            lemma_obj_push(vs.take(i as int), vs[i as int]);
            assert(vs.take(i as int + 1) =~= vs.take(i as int).push(vs[i as int]));
            assert(r@ =~= prefix + obj_chars(vs.take(i as int + 1)));
        }
        i += 1;
    }
    r.append("}}");
    proof {
        reveal_strlit("}}");
        assert(params.views().take(n as int) =~= params.views());
        assert(r@ =~= request_envelope(id@, method@, params.views()));
    }
    r
}

/// Relies on uuid's `Uuid::new_v4` and its `Display` rendering: the
/// hyphenated form is 36 characters of lowercase hex and hyphens.  The
/// value is random; nothing else is promised.
#[verifier::external_body]
fn new_request_id() -> (r: String)
    ensures
        r@.len() == 36,
        forall|i: int|
            0 <= i < r@.len() ==> ((#[trigger] r@[i] as u32) == 45 || 48 <= (r@[i] as u32) <= 57
                || 97 <= (r@[i] as u32) <= 102),
{
    uuid::Uuid::new_v4().to_string()
}

/// Safety of inserted parameters is preserved by sorted insertion.
proof fn lemma_all_safe_insert(vs: Seq<(Seq<char>, Seq<char>)>, kv: (Seq<char>, Seq<char>))
    requires
        all_json_safe(vs),
        json_safe(kv.0),
        json_safe(kv.1),
    ensures
        all_json_safe(sorted_insert_v(vs, kv)),
    decreases vs.len(),
{
    if vs.len() == 0 {
        assert forall|i: int|
            0 <= i < sorted_insert_v(vs, kv).len() implies json_safe(
            (#[trigger] sorted_insert_v(vs, kv)[i]).0,
        ) && json_safe(sorted_insert_v(vs, kv)[i].1) by {
            assert(sorted_insert_v(vs, kv)[i] == kv);
        }
    } else if vs[0].0 == kv.0 {
        assert forall|i: int|
            0 <= i < sorted_insert_v(vs, kv).len() implies json_safe(
            (#[trigger] sorted_insert_v(vs, kv)[i]).0,
        ) && json_safe(sorted_insert_v(vs, kv)[i].1) by {
            if i > 0 {
                assert(sorted_insert_v(vs, kv)[i] == vs[i]);
            }
        }
    } else if crate::text::lex_le(kv.0, vs[0].0) {
        assert forall|i: int|
            0 <= i < sorted_insert_v(vs, kv).len() implies json_safe(
            (#[trigger] sorted_insert_v(vs, kv)[i]).0,
        ) && json_safe(sorted_insert_v(vs, kv)[i].1) by {
            if i > 0 {
                assert(sorted_insert_v(vs, kv)[i] == vs[i - 1]);
            }
        }
    } else {
        assert forall|i: int|
            0 <= i < vs.drop_first().len() implies json_safe(
            (#[trigger] vs.drop_first()[i]).0,
        ) && json_safe(vs.drop_first()[i].1) by {
            assert(vs.drop_first()[i] == vs[i + 1]);
        }
        lemma_all_safe_insert(vs.drop_first(), kv);
        assert forall|i: int|
            0 <= i < sorted_insert_v(vs, kv).len() implies json_safe(
            (#[trigger] sorted_insert_v(vs, kv)[i]).0,
        ) && json_safe(sorted_insert_v(vs, kv)[i].1) by {
            if i > 0 {
                assert(sorted_insert_v(vs, kv)[i] == sorted_insert_v(vs.drop_first(), kv)[i - 1]);
            }
        }
    }
}

/// Decimal renderings are JSON-safe.
proof fn lemma_dec_chars_safe(n: nat)
    ensures
        json_safe(dec_chars(n)),
{
    lemma_dec_bytes_ascii(n);
}

/// Hex renderings are JSON-safe.
proof fn lemma_hex_safe(b: Seq<u8>)
    ensures
        json_safe(crate::auth::hex_of(b)),
{
    lemma_hex_format(b);
}

/// Builds the parameter bundle that refers to one existing order.
pub fn order_ref_params(symbol: String, order_id: u64) -> (r: ParamMap)
    ensures
        r.wf(),
        r.views() == sorted_insert_v(
            sorted_insert_v(Seq::empty(), ("symbol"@, symbol@)),
            ("orderId"@, dec_chars(order_id as nat)),
        ),
{
    proof {
        reveal_strlit("symbol");
        reveal_strlit("orderId");
    }
    let mut params = ParamMap::new();
    params.insert(String::from_str("symbol"), symbol);
    params.insert(String::from_str("orderId"), u64_to_dec(order_id));
    params
}

/// Signs the parameters at the given timestamp and renders the complete
/// request envelope under the given request id.
pub fn build_signed_request(
    auth: &BinanceAuth,
    request_id: &str,
    method: &str,
    params: ParamMap,
    timestamp_ms: u64,
) -> (r: String)
    requires
        auth.wf(),
        params.wf(),
        all_json_safe(params.views()),
        json_safe(request_id@),
        json_safe(method@),
        json_safe(auth.api_key@),
    ensures
        ({
            let vs3 = augmented_views(params.views(), auth.api_key@, timestamp_ms);
            let signed = sorted_insert_v(
                vs3,
                ("signature"@, signature_of(auth.api_secret@, query_of(vs3))),
            );
            r@ == request_envelope(request_id@, method@, signed)
        }),
{
    let ghost vs0 = params.views();
    let signed = auth.augment_and_sign_params(params, timestamp_ms);
    proof {
        reveal_strlit("apiKey");
        reveal_strlit("timestamp");
        reveal_strlit("recvWindow");
        reveal_strlit("signature");
        reveal_strlit("5000");
        assert(json_safe("apiKey"@));
        assert(json_safe("timestamp"@));
        assert(json_safe("recvWindow"@));
        assert(json_safe("signature"@));
        assert(json_safe("5000"@));
        lemma_dec_chars_safe(timestamp_ms as nat);
        lemma_all_safe_insert(vs0, ("apiKey"@, auth.api_key@));
        lemma_all_safe_insert(
            sorted_insert_v(vs0, ("apiKey"@, auth.api_key@)),
            ("timestamp"@, dec_chars(timestamp_ms as nat)),
        );
        lemma_all_safe_insert(
            sorted_insert_v(
                sorted_insert_v(vs0, ("apiKey"@, auth.api_key@)),
                ("timestamp"@, dec_chars(timestamp_ms as nat)),
            ),
            ("recvWindow"@, "5000"@),
        );
        let vs3 = augmented_views(vs0, auth.api_key@, timestamp_ms);
        lemma_hex_safe(
            hmac_sha256_of(
                vstd::utf8::encode_utf8(auth.api_secret@),
                vstd::utf8::encode_utf8(query_of(vs3)),
            ),
        );
        lemma_all_safe_insert(
            vs3,
            ("signature"@, signature_of(auth.api_secret@, query_of(vs3))),
        );
    }
    render_request(request_id, method, &signed)
}

/// Draws a fresh request id and renders the signed envelope under it;
/// the caller correlates the reply against the returned id.
pub fn signed_request_with_fresh_id(
    auth: &BinanceAuth,
    method: &str,
    params: ParamMap,
    timestamp_ms: u64,
) -> (r: (String, String))
    requires
        auth.wf(),
        params.wf(),
        all_json_safe(params.views()),
        json_safe(method@),
        json_safe(auth.api_key@),
    ensures
        ({
            let vs3 = augmented_views(params.views(), auth.api_key@, timestamp_ms);
            let signed = sorted_insert_v(
                vs3,
                ("signature"@, signature_of(auth.api_secret@, query_of(vs3))),
            );
            r.1@ == request_envelope(r.0@, method@, signed)
        }),
        r.0@.len() == 36,
{
    let id = new_request_id();
    proof {
        assert forall|i: int| 0 <= i < id@.len() implies id@[i] != '"' && id@[i] != '\\' && (
        #[trigger] id@[i] as u32) >= 32 by {
            assert(('"' as u32) == 34);
            assert(('\\' as u32) == 92);
        }
    }
    let envelope = build_signed_request(auth, id.as_str(), method, params, timestamp_ms);
    (id, envelope)
}

} // verus!
