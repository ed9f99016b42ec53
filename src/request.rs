//! What callers send: defaults of a request, the labels of sides and order
//! types, and a decision turned into an action.

use vstd::prelude::*;
use vstd::string::*;
use crate::fixed::SCALE;
use crate::model::{Action, ActionSide, OrderType, Symbol, ValidationError};

verus! {

pub fn default_symbol() -> (r: String)
    ensures
        r@ == "BTCUSDT"@,
{
    String::from_str("BTCUSDT")
}

/// 10 000 of cash.
pub fn default_cash() -> (r: i64)
    ensures
        r == 10_000 * SCALE,
{
    1_000_000_000_000
}

/// Bars in a backtest window when no range is given.
pub fn default_window() -> (r: usize)
    ensures
        r == 500,
{
    500
}

/// The upper-case form of text, as Rust's Unicode case mapping gives it.
pub uninterp spec fn upper_of(s: Seq<char>) -> Seq<char>;

/// Relies on `str::to_uppercase`: the result depends on the characters
/// alone.
#[verifier::external_body]
fn uppercase(s: &str) -> (r: String)
    ensures
        r@ == upper_of(s@),
{
    s.to_uppercase()
}

pub open spec fn side_named(u: Seq<char>) -> ActionSide {
    if u == "BUY"@ {
        ActionSide::Buy
    } else if u == "SELL"@ {
        ActionSide::Sell
    } else {
        ActionSide::Hold
    }
}

/// The side an upper-case label names; any other label holds.
pub fn side_from_upper(u: &str) -> (r: ActionSide)
    ensures
        r == side_named(u@),
{
    proof {
        reveal_strlit("BUY");
        reveal_strlit("SELL");
    }
    let s = String::from_str(u);
    if s == String::from_str("BUY") {
        ActionSide::Buy
    } else if s == String::from_str("SELL") {
        ActionSide::Sell
    } else {
        ActionSide::Hold
    }
}

/// The side a label names, in any case.
pub fn side_from_label(label: &str) -> (r: ActionSide)
    ensures
        r == side_named(upper_of(label@)),
{
    let u = uppercase(label);
    side_from_upper(u.as_str())
}

pub open spec fn order_type_named(u: Seq<char>) -> OrderType {
    if u == "LIMIT"@ {
        OrderType::Limit
    } else {
        OrderType::Market
    }
}

/// The order type an upper-case label names; any other is a market order.
pub fn order_type_from_upper(u: &str) -> (r: OrderType)
    ensures
        r == order_type_named(u@),
{
    proof {
        reveal_strlit("LIMIT");
    }
    if String::from_str(u) == String::from_str("LIMIT") {
        OrderType::Limit
    } else {
        OrderType::Market
    }
}

/// The order type a label names, in any case.
pub fn order_type_from_label(label: &str) -> (r: OrderType)
    ensures
        r == order_type_named(upper_of(label@)),
{
    let u = uppercase(label);
    order_type_from_upper(u.as_str())
}

/// A decision as a model returns it: a side label, a fraction that may lie
/// outside `[0, 1]`, and a note.
#[derive(Clone, Debug)]
pub struct LlmDecision {
    pub action: String,
    pub size_pct: i64,
    pub note: Option<String>,
}

pub open spec fn clamped_fraction(x: int) -> int {
    if x < 0 {
        0
    } else if x > SCALE {
        SCALE as int
    } else {
        x
    }
}

/// The action a decision asks for: the side its label names, its fraction
/// clamped to `[0, 1]`.
pub fn parse_decision(symbol: Symbol, decision: LlmDecision) -> (r: Result<Action, ValidationError>)
    ensures
        r matches Ok(a) && a.symbol == symbol && a.side == side_named(upper_of(decision.action@))
            && a.size_pct == clamped_fraction(decision.size_pct as int) && a.note == decision.note,
{
    let side = side_from_label(decision.action.as_str());
    let size_pct: u64 = if decision.size_pct < 0 {
        0
    } else if decision.size_pct as u64 > SCALE {
        SCALE
    } else {
        decision.size_pct as u64
    };
    let action = Action::new(symbol, side, size_pct, decision.note);
    action.validate()?;
    Ok(action)
}

} // verus!
