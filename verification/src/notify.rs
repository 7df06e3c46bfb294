//! Human-readable alert formatting for the operator channel.
//!
//! Fixed-point prices print with four fractional digits, dislocations
//! with two; the transport that posts the text lives outside the crate.

use vstd::prelude::*;
use crate::alert_gate::AppAlert;
use crate::price::PRICE_SCALE;
use crate::text::{dec_chars, u64_to_dec};

verus! {

broadcast use vstd::string::group_string_axioms;

/// A fraction of a quote unit, zero-padded to four digits.
pub open spec fn frac4_chars(frac: nat) -> Seq<char> {
    if frac < 10 {
        seq!['0', '0', '0'] + dec_chars(frac)
    } else if frac < 100 {
        seq!['0', '0'] + dec_chars(frac)
    } else if frac < 1000 {
        seq!['0'] + dec_chars(frac)
    } else {
        dec_chars(frac)
    }
}

/// A fixed-point price as `<units>.<4 digits>`.
pub open spec fn price_chars(v: nat) -> Seq<char> {
    dec_chars(v / (PRICE_SCALE as nat)) + seq!['.'] + frac4_chars(v % (PRICE_SCALE as nat))
}

/// Renders a fixed-point price.
pub fn format_price(v: u64) -> (r: String)
    ensures
        r@ == price_chars(v as nat),
{
    let mut r = u64_to_dec(v / PRICE_SCALE);
    r.append(".");
    let frac = v % PRICE_SCALE;
    if frac < 10 {
        r.append("000");
    } else if frac < 100 {
        r.append("00");
    } else if frac < 1000 {
        r.append("0");
    }
    let frac_str = u64_to_dec(frac);
    r.append(frac_str.as_str());
    proof {
        reveal_strlit(".");
        reveal_strlit("000");
        reveal_strlit("00");
        reveal_strlit("0");
        assert("."@ =~= seq!['.']);
        assert("000"@ =~= seq!['0', '0', '0']);
        assert("00"@ =~= seq!['0', '0']);
        assert("0"@ =~= seq!['0']);
        assert(r@ =~= price_chars(v as nat));
    }
    r
}

/// A dislocation in hundredths of a percent, zero-padded to two digits.
pub open spec fn frac2_chars(frac: nat) -> Seq<char> {
    if frac < 10 {
        seq!['0'] + dec_chars(frac)
    } else {
        dec_chars(frac)
    }
}

/// A dislocation as `<percent>.<2 digits>`.
pub open spec fn percent_chars(cp: nat) -> Seq<char> {
    dec_chars(cp / 100) + seq!['.'] + frac2_chars(cp % 100)
}

/// Renders a dislocation given in hundredths of a percent.
pub fn format_percent_cp(cp: u64) -> (r: String)
    ensures
        r@ == percent_chars(cp as nat),
{
    let mut r = u64_to_dec(cp / 100);
    r.append(".");
    let frac = cp % 100;
    if frac < 10 {
        r.append("0");
    }
    let frac_str = u64_to_dec(frac);
    r.append(frac_str.as_str());
    proof {
        reveal_strlit(".");
        reveal_strlit("0");
        assert("."@ =~= seq!['.']);
        assert("0"@ =~= seq!['0']);
        assert(r@ =~= percent_chars(cp as nat));
    }
    r
}

/// The operator message for one alert: symbol, both venues with bid,
/// ask and mid, and the dislocation.  The mid is half of the exact
/// `mid2`; an odd `mid2` floors the half-unit below the fourth decimal.
pub open spec fn alert_text_chars(a: AppAlert) -> Seq<char> {
    "Arbitrage alert | "@ + a.symbol@ + " | "@ + a.exchange_a@ + " bid "@ + price_chars(
        a.bid_a as nat,
    ) + " ask "@ + price_chars(a.ask_a as nat) + " mid "@ + price_chars((a.mid2_a / 2) as nat)
        + " | "@ + a.exchange_b@ + " bid "@ + price_chars(a.bid_b as nat) + " ask "@ + price_chars(
        a.ask_b as nat,
    ) + " mid "@ + price_chars((a.mid2_b / 2) as nat) + " | diff "@ + percent_chars(
        a.diff_cp as nat,
    ) + "%"@
}

/// Renders the operator message for one alert.
pub fn alert_text(a: &AppAlert) -> (r: String)
    ensures
        r@ == alert_text_chars(*a),
{
    let mut r = String::from_str("Arbitrage alert | ");
    r.append(a.symbol.as_str());
    r.append(" | ");
    r.append(a.exchange_a.as_str());
    r.append(" bid ");
    r.append(format_price(a.bid_a).as_str());
    r.append(" ask ");
    r.append(format_price(a.ask_a).as_str());
    r.append(" mid ");
    r.append(format_price(a.mid2_a / 2).as_str());
    r.append(" | ");
    r.append(a.exchange_b.as_str());
    r.append(" bid ");
    r.append(format_price(a.bid_b).as_str());
    r.append(" ask ");
    r.append(format_price(a.ask_b).as_str());
    r.append(" mid ");
    r.append(format_price(a.mid2_b / 2).as_str());
    r.append(" | diff ");
    r.append(format_percent_cp(a.diff_cp).as_str());
    r.append("%");
    proof {
        assert(r@ =~= alert_text_chars(*a));
    }
    r
}

} // verus!
