//! Order records for the authenticated trading endpoint, and the
//! opportunity scan run over the latest per-venue prices.
//!
//! Numeric order fields (quantity, prices, rates) are carried in their
//! decimal string form, which is what the endpoint receives.

use vstd::prelude::*;
use crate::auth::{sorted_insert_v, ParamMap};
use crate::price::MAX_PRICE;

verus! {

broadcast use vstd::string::group_string_axioms;

#[allow(non_camel_case_types)]
#[derive(Clone, Copy, Debug, PartialEq, Eq, Structural)]
pub enum BinanceOrderSide {
    BUY,
    SELL,
}

impl BinanceOrderSide {
    pub open spec fn chars(self) -> Seq<char> {
        match self {
            BinanceOrderSide::BUY => "BUY"@,
            BinanceOrderSide::SELL => "SELL"@,
        }
    }

    pub fn as_str(&self) -> (r: &'static str)
        ensures
            r@ == self.chars(),
    {
        match self {
            BinanceOrderSide::BUY => "BUY",
            BinanceOrderSide::SELL => "SELL",
        }
    }
}

#[allow(non_camel_case_types)]
#[derive(Clone, Copy, Debug, PartialEq, Eq, Structural)]
pub enum OrderType {
    LIMIT,
    MARKET,
    STOP,
    STOP_MARKET,
    TAKE_PROFIT,
    TAKE_PROFIT_MARKET,
    TRAILING_STOP_MARKET,
}

impl OrderType {
    pub open spec fn chars(self) -> Seq<char> {
        match self {
            OrderType::LIMIT => "LIMIT"@,
            OrderType::MARKET => "MARKET"@,
            OrderType::STOP => "STOP"@,
            OrderType::STOP_MARKET => "STOP_MARKET"@,
            OrderType::TAKE_PROFIT => "TAKE_PROFIT"@,
            OrderType::TAKE_PROFIT_MARKET => "TAKE_PROFIT_MARKET"@,
            OrderType::TRAILING_STOP_MARKET => "TRAILING_STOP_MARKET"@,
        }
    }

    pub fn as_str(&self) -> (r: &'static str)
        ensures
            r@ == self.chars(),
    {
        match self {
            OrderType::LIMIT => "LIMIT",
            OrderType::MARKET => "MARKET",
            OrderType::STOP => "STOP",
            OrderType::STOP_MARKET => "STOP_MARKET",
            OrderType::TAKE_PROFIT => "TAKE_PROFIT",
            OrderType::TAKE_PROFIT_MARKET => "TAKE_PROFIT_MARKET",
            OrderType::TRAILING_STOP_MARKET => "TRAILING_STOP_MARKET",
        }
    }
}

#[allow(non_camel_case_types)]
#[derive(Clone, Copy, Debug, PartialEq, Eq, Structural)]
pub enum TimeInForce {
    GTC,
    IOC,
    FOK,
    GTX,
    GTD,
}

impl TimeInForce {
    pub open spec fn chars(self) -> Seq<char> {
        match self {
            TimeInForce::GTC => "GTC"@,
            TimeInForce::IOC => "IOC"@,
            TimeInForce::FOK => "FOK"@,
            TimeInForce::GTX => "GTX"@,
            TimeInForce::GTD => "GTD"@,
        }
    }

    pub fn as_str(&self) -> (r: &'static str)
        ensures
            r@ == self.chars(),
    {
        match self {
            TimeInForce::GTC => "GTC",
            TimeInForce::IOC => "IOC",
            TimeInForce::FOK => "FOK",
            TimeInForce::GTX => "GTX",
            TimeInForce::GTD => "GTD",
        }
    }
}

#[allow(non_camel_case_types)]
#[derive(Clone, Copy, Debug, PartialEq, Eq, Structural)]
pub enum PositionSide {
    BOTH,
    LONG,
    SHORT,
}

impl PositionSide {
    pub open spec fn chars(self) -> Seq<char> {
        match self {
            PositionSide::BOTH => "BOTH"@,
            PositionSide::LONG => "LONG"@,
            PositionSide::SHORT => "SHORT"@,
        }
    }

    pub fn as_str(&self) -> (r: &'static str)
        ensures
            r@ == self.chars(),
    {
        match self {
            PositionSide::BOTH => "BOTH",
            PositionSide::LONG => "LONG",
            PositionSide::SHORT => "SHORT",
        }
    }
}

#[allow(non_camel_case_types)]
#[derive(Clone, Copy, Debug, PartialEq, Eq, Structural)]
pub enum WorkingType {
    MARK_PRICE,
    CONTRACT_PRICE,
}

impl WorkingType {
    pub open spec fn chars(self) -> Seq<char> {
        match self {
            WorkingType::MARK_PRICE => "MARK_PRICE"@,
            WorkingType::CONTRACT_PRICE => "CONTRACT_PRICE"@,
        }
    }

    pub fn as_str(&self) -> (r: &'static str)
        ensures
            r@ == self.chars(),
    {
        match self {
            WorkingType::MARK_PRICE => "MARK_PRICE",
            WorkingType::CONTRACT_PRICE => "CONTRACT_PRICE",
        }
    }
}

#[allow(non_camel_case_types)]
#[derive(Clone, Copy, Debug, PartialEq, Eq, Structural)]
pub enum NewOrderRespType {
    ACK,
    RESULT,
}

impl NewOrderRespType {
    pub open spec fn chars(self) -> Seq<char> {
        match self {
            NewOrderRespType::ACK => "ACK"@,
            NewOrderRespType::RESULT => "RESULT"@,
        }
    }

    pub fn as_str(&self) -> (r: &'static str)
        ensures
            r@ == self.chars(),
    {
        match self {
            NewOrderRespType::ACK => "ACK",
            NewOrderRespType::RESULT => "RESULT",
        }
    }
}

pub open spec fn bool_chars(b: bool) -> Seq<char> {
    if b {
        "true"@
    } else {
        "false"@
    }
}

fn bool_str(b: bool) -> (r: &'static str)
    ensures
        r@ == bool_chars(b),
{
    if b {
        "true"
    } else {
        "false"
    }
}

/// A futures order request.  Optional fields are sent only when set.
#[derive(Clone, Debug)]
pub struct BinanceOrder {
    pub symbol: String,
    pub side: BinanceOrderSide,
    pub position_side: Option<PositionSide>,
    pub order_type: OrderType,
    pub time_in_force: Option<TimeInForce>,
    pub quantity: Option<String>,
    pub reduce_only: Option<bool>,
    pub price: Option<String>,
    pub stop_price: Option<String>,
    pub close_position: Option<bool>,
    pub activation_price: Option<String>,
    pub callback_rate: Option<String>,
    pub working_type: Option<WorkingType>,
    pub price_protect: Option<bool>,
    pub new_order_resp_type: Option<NewOrderRespType>,
    pub client_order_id: Option<String>,
}

pub open spec fn opt_str_param(
    vs: Seq<(Seq<char>, Seq<char>)>,
    key: Seq<char>,
    v: Option<String>,
) -> Seq<(Seq<char>, Seq<char>)> {
    match v {
        Option::None => vs,
        Option::Some(s) => sorted_insert_v(vs, (key, s@)),
    }
}

pub open spec fn opt_chars_param(
    vs: Seq<(Seq<char>, Seq<char>)>,
    key: Seq<char>,
    v: Option<Seq<char>>,
) -> Seq<(Seq<char>, Seq<char>)> {
    match v {
        Option::None => vs,
        Option::Some(c) => sorted_insert_v(vs, (key, c)),
    }
}

/// The exact parameter bundle an order serialises to, in the insertion
/// order of `to_params`.
pub open spec fn order_params_views(o: BinanceOrder) -> Seq<(Seq<char>, Seq<char>)> {
    let vs = sorted_insert_v(
        sorted_insert_v(
            sorted_insert_v(Seq::empty(), ("symbol"@, o.symbol@)),
            ("side"@, o.side.chars()),
        ),
        ("type"@, o.order_type.chars()),
    );
    let vs = opt_chars_param(
        vs,
        "positionSide"@,
        match o.position_side {
            Option::None => Option::None,
            Option::Some(p) => Option::Some(p.chars()),
        },
    );
    let vs = opt_chars_param(
        vs,
        "timeInForce"@,
        match o.time_in_force {
            Option::None => Option::None,
            Option::Some(t) => Option::Some(t.chars()),
        },
    );
    let vs = opt_str_param(vs, "quantity"@, o.quantity);
    let vs = opt_chars_param(
        vs,
        "reduceOnly"@,
        match o.reduce_only {
            Option::None => Option::None,
            Option::Some(b) => Option::Some(bool_chars(b)),
        },
    );
    let vs = opt_str_param(vs, "price"@, o.price);
    let vs = opt_str_param(vs, "stopPrice"@, o.stop_price);
    let vs = opt_chars_param(
        vs,
        "closePosition"@,
        match o.close_position {
            Option::None => Option::None,
            Option::Some(b) => Option::Some(bool_chars(b)),
        },
    );
    let vs = opt_str_param(vs, "activationPrice"@, o.activation_price);
    let vs = opt_str_param(vs, "callbackRate"@, o.callback_rate);
    let vs = opt_chars_param(
        vs,
        "workingType"@,
        match o.working_type {
            Option::None => Option::None,
            Option::Some(w) => Option::Some(w.chars()),
        },
    );
    let vs = opt_chars_param(
        vs,
        "priceProtect"@,
        match o.price_protect {
            Option::None => Option::None,
            Option::Some(b) => Option::Some(bool_chars(b)),
        },
    );
    let vs = opt_chars_param(
        vs,
        "newOrderRespType"@,
        match o.new_order_resp_type {
            Option::None => Option::None,
            Option::Some(t) => Option::Some(t.chars()),
        },
    );
    opt_str_param(vs, "newClientOrderId"@, o.client_order_id)
}

impl BinanceOrder {
    /// Serialises the order's own parameters (no authentication fields).
    #[verifier::rlimit(100)]
    pub fn to_params(&self) -> (r: ParamMap)
        ensures
            r.wf(),
            r.views() == order_params_views(*self),
    {
        proof {
            reveal_strlit("symbol");
            reveal_strlit("side");
            reveal_strlit("type");
            reveal_strlit("positionSide");
            reveal_strlit("timeInForce");
            reveal_strlit("quantity");
            reveal_strlit("reduceOnly");
            reveal_strlit("price");
            reveal_strlit("stopPrice");
            reveal_strlit("closePosition");
            reveal_strlit("activationPrice");
            reveal_strlit("callbackRate");
            reveal_strlit("workingType");
            reveal_strlit("priceProtect");
            reveal_strlit("newOrderRespType");
            reveal_strlit("newClientOrderId");
        }
        let mut params = ParamMap::new();
        params.insert(String::from_str("symbol"), self.symbol.clone());
        params.insert(String::from_str("side"), String::from_str(self.side.as_str()));
        params.insert(String::from_str("type"), String::from_str(self.order_type.as_str()));
        match &self.position_side {
            Some(p) => params.insert(
                String::from_str("positionSide"),
                String::from_str(p.as_str()),
            ),
            None => (),
        }
        match &self.time_in_force {
            Some(t) => params.insert(String::from_str("timeInForce"), String::from_str(t.as_str())),
            None => (),
        }
        match &self.quantity {
            Some(q) => params.insert(String::from_str("quantity"), q.clone()),
            None => (),
        }
        match self.reduce_only {
            Some(b) => params.insert(String::from_str("reduceOnly"), String::from_str(bool_str(b))),
            None => (),
        }
        match &self.price {
            Some(p) => params.insert(String::from_str("price"), p.clone()),
            None => (),
        }
        match &self.stop_price {
            Some(p) => params.insert(String::from_str("stopPrice"), p.clone()),
            None => (),
        }
        match self.close_position {
            Some(b) => params.insert(
                String::from_str("closePosition"),
                String::from_str(bool_str(b)),
            ),
            None => (),
        }
        match &self.activation_price {
            Some(p) => params.insert(String::from_str("activationPrice"), p.clone()),
            None => (),
        }
        match &self.callback_rate {
            Some(r) => params.insert(String::from_str("callbackRate"), r.clone()),
            None => (),
        }
        match &self.working_type {
            Some(w) => params.insert(String::from_str("workingType"), String::from_str(w.as_str())),
            None => (),
        }
        match self.price_protect {
            Some(b) => params.insert(
                String::from_str("priceProtect"),
                String::from_str(bool_str(b)),
            ),
            None => (),
        }
        match &self.new_order_resp_type {
            Some(t) => params.insert(
                String::from_str("newOrderRespType"),
                String::from_str(t.as_str()),
            ),
            None => (),
        }
        match &self.client_order_id {
            Some(c) => params.insert(String::from_str("newClientOrderId"), c.clone()),
            None => (),
        }
        params
    }
}

/// A GTC limit order with a RESULT acknowledgement, as the helper the
/// strategy code uses.
pub fn create_limit_order(
    symbol: String,
    side: BinanceOrderSide,
    quantity: String,
    price: String,
) -> (r: BinanceOrder)
    ensures
        r.symbol == symbol,
        r.side == side,
        r.order_type == OrderType::LIMIT,
        r.time_in_force == Some(TimeInForce::GTC),
        r.quantity == Some(quantity),
        r.price == Some(price),
        r.new_order_resp_type == Some(NewOrderRespType::RESULT),
        r.position_side is None,
        r.reduce_only is None,
        r.stop_price is None,
        r.close_position is None,
        r.activation_price is None,
        r.callback_rate is None,
        r.working_type is None,
        r.price_protect is None,
        r.client_order_id is None,
{
    BinanceOrder {
        symbol,
        side,
        position_side: None,
        order_type: OrderType::LIMIT,
        time_in_force: Some(TimeInForce::GTC),
        quantity: Some(quantity),
        reduce_only: None,
        price: Some(price),
        stop_price: None,
        close_position: None,
        activation_price: None,
        callback_rate: None,
        working_type: None,
        price_protect: None,
        new_order_resp_type: Some(NewOrderRespType::RESULT),
        client_order_id: None,
    }
}

#[derive(Clone, Copy, Debug, PartialEq, Eq, Structural, Hash)]
pub enum ExchangeId {
    Binance,
    Bybit,
}

impl ExchangeId {
    pub open spec fn chars(self) -> Seq<char> {
        match self {
            ExchangeId::Binance => "Binance"@,
            ExchangeId::Bybit => "Bybit"@,
        }
    }

    pub fn as_str(&self) -> (r: &'static str)
        ensures
            r@ == self.chars(),
    {
        match self {
            ExchangeId::Binance => "Binance",
            ExchangeId::Bybit => "Bybit",
        }
    }
}

#[derive(Clone, Copy, Debug, PartialEq, Eq, Structural)]
pub enum OrderSide {
    Buy,
    Sell,
}

/// Maps the engine's side onto the venue's order side.
pub fn map_order_side(side: OrderSide) -> (r: BinanceOrderSide)
    ensures
        side == OrderSide::Buy ==> r == BinanceOrderSide::BUY,
        side == OrderSide::Sell ==> r == BinanceOrderSide::SELL,
{
    match side {
        OrderSide::Buy => BinanceOrderSide::BUY,
        OrderSide::Sell => BinanceOrderSide::SELL,
    }
}

#[derive(Debug)]
pub enum ExchangeError {
    ConnectionFailed(String),
    OrderFailed(String),
    WebSocketError(String),
}

/// The latest top of book one venue reported, in fixed-point units.
#[derive(Clone, Debug)]
pub struct PriceData {
    pub exchange: ExchangeId,
    pub symbol: String,
    pub bid: u64,
    pub ask: u64,
}

impl PriceData {
    pub open spec fn wf(&self) -> bool {
        0 < self.bid <= MAX_PRICE && 0 < self.ask <= MAX_PRICE
    }
}

/// A planned two-legged trade.
#[derive(Clone, Copy, Debug, PartialEq, Eq, Structural)]
pub struct TradePlan {
    pub buy_exchange: ExchangeId,
    pub sell_exchange: ExchangeId,
    pub buy_price: u64,
    pub sell_price: u64,
}

/// Buying at `buy_ask` and selling at `sell_bid` clears the threshold
/// (hundredths of a percent of the buy price).
pub open spec fn gain_exceeds(buy_ask: int, sell_bid: int, threshold_cp: int) -> bool {
    (sell_bid - buy_ask) * 10000 > threshold_cp * buy_ask
}

/// The first venue in scan order that forms a profitable pair with the
/// updated venue, preferring buying on the updated venue.
pub open spec fn opportunity_from(
    a: PriceData,
    s: Seq<PriceData>,
    from: int,
    threshold_cp: u64,
) -> Option<TradePlan>
    decreases s.len() - from,
{
    if from < 0 || from >= s.len() {
        None
    } else if s[from].exchange == a.exchange {
        opportunity_from(a, s, from + 1, threshold_cp)
    } else if gain_exceeds(a.ask as int, s[from].bid as int, threshold_cp as int) {
        Some(
            TradePlan {
                buy_exchange: a.exchange,
                sell_exchange: s[from].exchange,
                buy_price: a.ask,
                sell_price: s[from].bid,
            },
        )
    } else if gain_exceeds(s[from].ask as int, a.bid as int, threshold_cp as int) {
        Some(
            TradePlan {
                buy_exchange: s[from].exchange,
                sell_exchange: a.exchange,
                buy_price: s[from].ask,
                sell_price: a.bid,
            },
        )
    } else {
        opportunity_from(a, s, from + 1, threshold_cp)
    }
}

fn gain_check(buy_ask: u64, sell_bid: u64, threshold_cp: u64) -> (r: bool)
    requires
        buy_ask <= MAX_PRICE,
        sell_bid <= MAX_PRICE,
    ensures
        r == gain_exceeds(buy_ask as int, sell_bid as int, threshold_cp as int),
{
    proof {
        assert(threshold_cp as int * buy_ask as int <= u128::MAX as int) by (nonlinear_arith)
            requires
                threshold_cp as int <= u64::MAX as int,
                buy_ask as int <= MAX_PRICE as int,
        ;
    }
    if sell_bid <= buy_ask {
        proof {
            assert((sell_bid as int - buy_ask as int) * 10000 <= 0) by (nonlinear_arith)
                requires
                    sell_bid as int <= buy_ask as int,
            ;
            assert(threshold_cp as int * buy_ask as int >= 0) by (nonlinear_arith);
        }
        false
    } else {
        let gain: u128 = (sell_bid - buy_ask) as u128 * 10000;
        let bar: u128 = threshold_cp as u128 * buy_ask as u128;
        gain > bar
    }
}

/// Scans the other venues' latest prices for a dislocation against the
/// venue that just updated, in list order, and plans the first
/// profitable trade found.
pub fn check_for_opportunity(
    updated: &PriceData,
    state: &Vec<PriceData>,
    threshold_cp: u64,
) -> (r: Option<TradePlan>)
    requires
        updated.wf(),
        forall|i: int| 0 <= i < state@.len() ==> (#[trigger] state@[i]).wf(),
    ensures
        r == opportunity_from(*updated, state@, 0, threshold_cp),
{
    let n = state.len();
    let mut i: usize = 0;
    while i < n
        invariant
            updated.wf(),
            forall|k: int| 0 <= k < state@.len() ==> (#[trigger] state@[k]).wf(),
            n == state@.len(),
            i <= n,
            opportunity_from(*updated, state@, 0, threshold_cp) == opportunity_from(
                *updated,
                state@,
                i as int,
                threshold_cp,
            ),
        decreases n - i,
    {
        let b = &state[i];
        if !(b.exchange == updated.exchange) {
            if gain_check(updated.ask, b.bid, threshold_cp) {
                return Some(
                    TradePlan {
                        buy_exchange: updated.exchange,
                        sell_exchange: b.exchange,
                        buy_price: updated.ask,
                        sell_price: b.bid,
                    },
                );
            }
            if gain_check(b.ask, updated.bid, threshold_cp) {
                return Some(
                    TradePlan {
                        buy_exchange: b.exchange,
                        sell_exchange: updated.exchange,
                        buy_price: b.ask,
                        sell_price: updated.bid,
                    },
                );
            }
        }
        i += 1;
    }
    None
}

} // verus!
