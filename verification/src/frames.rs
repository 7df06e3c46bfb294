//! Depth-frame handling: the decoded message shapes of both venues, the
//! top-of-book extraction rule, and the subscription frames.
//!
//! JSON transport decoding happens outside this crate; it hands in the
//! already-shaped messages below.  The extraction rule itself — take the
//! first bid and ask, discard a frame whose price is absent, malformed,
//! zero or out of range — lives here.

use vstd::prelude::*;
use crate::alert_gate::AppAlert;
use crate::orderbook::{update_rel, MarketTracker, MarketType};
use crate::price::{dec_string_value, parse_price, MAX_PRICE};
use crate::text::{lower_chars, to_lower_ascii};
use crate::trading::quoted;

verus! {

broadcast use vstd::string::group_string_axioms;

/// One orderbook level: price and size, as the venue quotes them.
pub type Level = (String, String);

/// Venue-B depth payload.
#[derive(Clone, Debug)]
pub struct OrderBookData {
    /// Symbol.
    pub s: String,
    /// Bids, best first.
    pub b: Vec<Level>,
    /// Asks, best first.
    pub a: Vec<Level>,
    /// Update id.
    pub u: u64,
    /// Sequence number.
    pub seq: u64,
    pub market_type: MarketType,
}

/// Venue-B depth frame.
#[derive(Clone, Debug)]
pub struct OrderBookMsg {
    pub topic: String,
    pub msg_type: String,
    pub data: OrderBookData,
}

/// Venue-A spot depth frame.
#[derive(Clone, Debug)]
pub struct BinanceOrderBookMsg {
    pub event_type: String,
    pub symbol: String,
    pub bids: Vec<Level>,
    pub asks: Vec<Level>,
    pub market_type: MarketType,
}

/// Venue-A futures depth frame; it additionally carries transaction
/// time and the previous update id, which is how the two are told apart.
#[derive(Clone, Debug)]
pub struct BinanceFuturesOrderBookMsg {
    pub event_type: String,
    pub event_time: u64,
    pub transaction_time: u64,
    pub symbol: String,
    pub first_update_id: u64,
    pub final_update_id: u64,
    pub prev_final_update_id: u64,
    pub bids: Vec<Level>,
    pub asks: Vec<Level>,
    pub market_type: MarketType,
}

/// A venue-A depth update of either market kind.
#[derive(Clone, Debug)]
pub enum BinanceDepthUpdate {
    Spot(BinanceOrderBookMsg),
    Futures(BinanceFuturesOrderBookMsg),
}

/// The price a quoted decimal string contributes: it must denote a
/// value, be positive, and fit the price range.
pub open spec fn parsed_positive(s: Seq<char>) -> Option<u64> {
    match dec_string_value(s) {
        Option::Some(v) => if 1 <= v && v <= MAX_PRICE as int {
            Option::Some(v as u64)
        } else {
            Option::None
        },
        Option::None => Option::None,
    }
}

/// The frame's top of book: the first bid and first ask, both present,
/// ASCII, and denoting positive in-range prices; anything else discards
/// the frame.
pub open spec fn spec_top_of_book(bids: Seq<Level>, asks: Seq<Level>) -> Option<(u64, u64)> {
    if bids.len() == 0 || asks.len() == 0 {
        Option::None
    } else if !vstd::utf8::is_ascii_chars(bids[0].0@) || !vstd::utf8::is_ascii_chars(asks[0].0@) {
        Option::None
    } else {
        match (parsed_positive(bids[0].0@), parsed_positive(asks[0].0@)) {
            (Option::Some(b), Option::Some(a)) => Option::Some((b, a)),
            _ => Option::None,
        }
    }
}

/// Extracts the top of book of one frame.
pub fn extract_top_of_book(bids: &Vec<Level>, asks: &Vec<Level>) -> (r: Option<(u64, u64)>)
    ensures
        r == spec_top_of_book(bids@, asks@),
{
    if bids.len() == 0 || asks.len() == 0 {
        return None;
    }
    let bid_str: &String = &bids[0].0;
    let ask_str: &String = &asks[0].0;
    if !bid_str.as_str().is_ascii() || !ask_str.as_str().is_ascii() {
        return None;
    }
    let bid = match parse_price(bid_str.as_str()) {
        Some(v) => v,
        None => {
            return None;
        },
    };
    let ask = match parse_price(ask_str.as_str()) {
        Some(v) => v,
        None => {
            return None;
        },
    };
    proof {
        crate::price::lemma_dec_value_nonneg(bid_str@);
        crate::price::lemma_dec_value_nonneg(ask_str@);
    }
    if bid == 0 || ask == 0 {
        return None;
    }
    Some((bid, ask))
}

/// Feeds one decoded depth frame into the tracker: the top of book is
/// extracted by the discard rule above, and an accepted frame becomes a
/// tracker update (which itself drives the comparator and alert gate).
pub fn apply_depth_frame(
    tracker: &mut MarketTracker,
    exchange: &str,
    symbol: &str,
    bids: &Vec<Level>,
    asks: &Vec<Level>,
    kind: MarketType,
    now_ms: u64,
    tx: &tokio::sync::mpsc::Sender<AppAlert>,
) -> (emitted: bool)
    requires
        old(tracker).wf(),
        exchange.is_ascii(),
    ensures
        final(tracker).wf(),
        final(tracker).comparator.threshold == old(tracker).comparator.threshold,
        emitted == (vstd::utf8::is_ascii_chars(symbol@) && spec_top_of_book(bids@, asks@) is Some),
        !emitted ==> *final(tracker) == *old(tracker),
        emitted ==> update_rel(
            *old(tracker),
            *final(tracker),
            exchange@,
            symbol@,
            (spec_top_of_book(bids@, asks@)->Some_0).0,
            (spec_top_of_book(bids@, asks@)->Some_0).1,
            kind,
            now_ms,
        ),
{
    if !symbol.is_ascii() {
        return false;
    }
    match extract_top_of_book(bids, asks) {
        Some((bid, ask)) => {
            tracker.update(exchange, symbol, bid, ask, kind, now_ms, tx);
            true
        },
        None => false,
    }
}

/// Feeds one venue-B frame into the tracker.
pub fn process_bybit_frame(
    tracker: &mut MarketTracker,
    exchange: &str,
    msg: &OrderBookMsg,
    now_ms: u64,
    tx: &tokio::sync::mpsc::Sender<AppAlert>,
) -> (emitted: bool)
    requires
        old(tracker).wf(),
        exchange.is_ascii(),
    ensures
        final(tracker).wf(),
        final(tracker).comparator.threshold == old(tracker).comparator.threshold,
        emitted == (vstd::utf8::is_ascii_chars(msg.data.s@) && spec_top_of_book(
            msg.data.b@,
            msg.data.a@,
        ) is Some),
        !emitted ==> *final(tracker) == *old(tracker),
        emitted ==> update_rel(
            *old(tracker),
            *final(tracker),
            exchange@,
            msg.data.s@,
            (spec_top_of_book(msg.data.b@, msg.data.a@)->Some_0).0,
            (spec_top_of_book(msg.data.b@, msg.data.a@)->Some_0).1,
            msg.data.market_type,
            now_ms,
        ),
{
    apply_depth_frame(
        tracker,
        exchange,
        msg.data.s.as_str(),
        &msg.data.b,
        &msg.data.a,
        msg.data.market_type,
        now_ms,
        tx,
    )
}

/// Feeds one venue-A frame of either market kind into the tracker.
pub fn process_binance_update(
    tracker: &mut MarketTracker,
    exchange: &str,
    update: &BinanceDepthUpdate,
    now_ms: u64,
    tx: &tokio::sync::mpsc::Sender<AppAlert>,
) -> (emitted: bool)
    requires
        old(tracker).wf(),
        exchange.is_ascii(),
    ensures
        final(tracker).wf(),
        final(tracker).comparator.threshold == old(tracker).comparator.threshold,
        !emitted ==> *final(tracker) == *old(tracker),
        match update {
            BinanceDepthUpdate::Spot(ob) => emitted == (vstd::utf8::is_ascii_chars(ob.symbol@)
                && spec_top_of_book(ob.bids@, ob.asks@) is Some) && (emitted ==> update_rel(
                *old(tracker),
                *final(tracker),
                exchange@,
                ob.symbol@,
                (spec_top_of_book(ob.bids@, ob.asks@)->Some_0).0,
                (spec_top_of_book(ob.bids@, ob.asks@)->Some_0).1,
                ob.market_type,
                now_ms,
            )),
            BinanceDepthUpdate::Futures(ob) => emitted == (vstd::utf8::is_ascii_chars(ob.symbol@)
                && spec_top_of_book(ob.bids@, ob.asks@) is Some) && (emitted ==> update_rel(
                *old(tracker),
                *final(tracker),
                exchange@,
                ob.symbol@,
                (spec_top_of_book(ob.bids@, ob.asks@)->Some_0).0,
                (spec_top_of_book(ob.bids@, ob.asks@)->Some_0).1,
                ob.market_type,
                now_ms,
            )),
        },
{
    match update {
        BinanceDepthUpdate::Spot(ob) => apply_depth_frame(
            tracker,
            exchange,
            ob.symbol.as_str(),
            &ob.bids,
            &ob.asks,
            ob.market_type,
            now_ms,
            tx,
        ),
        BinanceDepthUpdate::Futures(ob) => apply_depth_frame(
            tracker,
            exchange,
            ob.symbol.as_str(),
            &ob.bids,
            &ob.asks,
            ob.market_type,
            now_ms,
            tx,
        ),
    }
}

/// The venue-A stream name for one instrument: its lower-cased symbol
/// with the depth suffix.
pub fn depth_stream_name(symbol: &str) -> (r: String)
    requires
        symbol.is_ascii(),
    ensures
        r@ == lower_chars(symbol@) + "@depth"@,
{
    let mut r = to_lower_ascii(symbol);
    r.append("@depth");
    r
}

/// The comma-separated quoted stream names.
pub open spec fn quoted_list(streams: Seq<String>) -> Seq<char>
    decreases streams.len(),
{
    if streams.len() == 0 {
        Seq::empty()
    } else if streams.len() == 1 {
        quoted(streams[0]@)
    } else {
        quoted(streams[0]@) + seq![','] + quoted_list(streams.drop_first())
    }
}

proof fn lemma_quoted_list_push(streams: Seq<String>, e: String)
    ensures
        streams.len() == 0 ==> quoted_list(streams.push(e)) == quoted(e@),
        streams.len() > 0 ==> quoted_list(streams.push(e)) == quoted_list(streams) + seq![',']
            + quoted(e@),
    decreases streams.len(),
{
    if streams.len() == 0 {
        assert(streams.push(e)[0] == e);
        assert(quoted_list(streams.push(e)) =~= quoted(e@));
    } else {
        lemma_quoted_list_push(streams.drop_first(), e);
        assert(streams.push(e)[0] == streams[0]);
        assert(streams.push(e).drop_first() =~= streams.drop_first().push(e));
        assert(quoted_list(streams.push(e)) =~= quoted_list(streams) + seq![','] + quoted(e@));
    }
}

/// The venue-A subscription frame for a list of streams.
pub fn binance_subscribe_msg(streams: &Vec<String>) -> (r: String)
    ensures
        r@ == "{\"method\":\"SUBSCRIBE\",\"params\":["@ + quoted_list(streams@) + "],\"id\":1}"@,
{
    let mut r = String::from_str("{\"method\":\"SUBSCRIBE\",\"params\":[");
    let ghost prefix = r@;
    let n = streams.len();
    let mut i: usize = 0;
    proof {
        assert(streams@.take(0) =~= Seq::<String>::empty());
        assert(r@ =~= prefix + quoted_list(streams@.take(0)));
    }
    while i < n
        invariant
            n == streams@.len(),
            i <= n,
            r@ == prefix + quoted_list(streams@.take(i as int)),
        decreases n - i,
    {
        if i > 0 {
            r.append(",");
        }
        r.append("\"");
        r.append(streams[i].as_str());
        r.append("\"");
        proof {
            reveal_strlit(",");
            reveal_strlit("\"");
            lemma_quoted_list_push(streams@.take(i as int), streams@[i as int]);
            assert(streams@.take(i as int + 1) =~= streams@.take(i as int).push(
                streams@[i as int],
            ));
            assert(r@ =~= prefix + quoted_list(streams@.take(i as int + 1)));
        }
        i += 1;
    }
    r.append("],\"id\":1}");
    proof {
        assert(streams@.take(n as int) =~= streams@);
        assert(r@ =~= "{\"method\":\"SUBSCRIBE\",\"params\":["@ + quoted_list(streams@)
            + "],\"id\":1}"@);
    }
    r
}

/// The venue-B subscription frame for one instrument's level-1 book.
pub fn bybit_subscribe_msg(symbol: &str) -> (r: String)
    ensures
        r@ == "{\"op\":\"subscribe\",\"args\":[\"orderbook.1."@ + symbol@ + "\"]}"@,
{
    let mut r = String::from_str("{\"op\":\"subscribe\",\"args\":[\"orderbook.1.");
    r.append(symbol);
    r.append("\"]}");
    r
}

} // verus!
