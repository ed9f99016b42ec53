//! The data model shared by the engines: bars, actions, accounts, trades.
//!
//! Timestamps are milliseconds since the Unix epoch; prices, volumes,
//! amounts and fractions are fixed-point values (see [`crate::fixed`]).

use vstd::prelude::*;
use crate::fixed::SCALE;
use crate::outside::fresh_uuid;

verus! {

/// A trading pair, such as `BTCUSDT`.
pub type Symbol = String;

/// One OHLCV sample for a fixed time interval.
#[derive(Clone, Copy, Debug, PartialEq, Eq)]
pub struct Bar {
    pub open_time: i64,
    pub close_time: i64,
    pub open: u64,
    pub high: u64,
    pub low: u64,
    pub close: u64,
    pub volume: u64,
    pub trades: u64,
}

/// A bar with its indicator values, each empty until enough history exists.
#[derive(Clone, Copy, Debug, PartialEq, Eq)]
pub struct FeatureBar {
    pub bar: Bar,
    pub ema_fast: Option<u64>,
    pub ema_slow: Option<u64>,
    pub rsi: Option<u64>,
    pub cmf: Option<i64>,
}

impl FeatureBar {
    /// A bar with no indicator values.
    pub fn plain(bar: Bar) -> (r: FeatureBar)
        ensures
            r == (FeatureBar { bar, ema_fast: None, ema_slow: None, rsi: None, cmf: None }),
    {
        FeatureBar { bar, ema_fast: None, ema_slow: None, rsi: None, cmf: None }
    }
}

/// A symbol with its time-ordered indicator bars.
#[derive(Clone, Debug)]
pub struct FeatureFrame {
    pub symbol: Symbol,
    pub rows: Vec<FeatureBar>,
}

impl FeatureFrame {
    /// The last `n` rows, or all of them where there are fewer.
    pub fn latest_window(&self, n: usize) -> (r: Self)
        ensures
            r.symbol@ == self.symbol@,
            r.rows@ == self.rows@.subrange(
                if n >= self.rows@.len() { 0 } else { self.rows@.len() - n },
                self.rows@.len() as int,
            ),
    {
        let total = self.rows.len();
        let start: usize = if n >= total { 0 } else { total - n };
        let mut rows: Vec<FeatureBar> = Vec::new();
        let mut i: usize = start;
        while i < total
            invariant
                start <= i <= total,
                total == self.rows@.len(),
                rows@ == self.rows@.subrange(start as int, i as int),
            decreases total - i,
        {
            rows.push(self.rows[i]);
            i = i + 1;
            proof {
                assert(rows@ =~= self.rows@.subrange(start as int, i as int));
            }
        }
        FeatureFrame { symbol: self.symbol.clone(), rows }
    }
}

#[derive(Clone, Copy, Debug, PartialEq, Eq, Structural)]
pub enum ActionSide {
    Buy,
    Sell,
    Hold,
}

/// A trading intent: `size_pct` is the fraction of cash (buy) or of the
/// position (sell) to use, in `[0, SCALE]`.
#[derive(Clone, Debug)]
pub struct Action {
    pub id: u128,
    pub symbol: Symbol,
    pub side: ActionSide,
    pub size_pct: u64,
    pub note: Option<String>,
}

/// A fraction lies in `[0, 1]`.
pub open spec fn valid_fraction(f: u64) -> bool {
    f <= SCALE
}

/// Checks that a fraction lies in `[0, 1]`.
pub fn validate_fraction(f: u64) -> (r: Result<(), ValidationError>)
    ensures
        r is Ok <==> valid_fraction(f),
        r is Err ==> r == Err::<(), ValidationError>(ValidationError::SizeOutOfRange(f)),
{
    if f > SCALE {
        Err(ValidationError::SizeOutOfRange(f))
    } else {
        Ok(())
    }
}

impl Action {
    /// An action with a fresh random identifier.
    pub fn new(symbol: Symbol, side: ActionSide, size_pct: u64, note: Option<String>) -> (r: Self)
        ensures
            r.symbol == symbol,
            r.side == side,
            r.size_pct == size_pct,
            r.note == note,
    {
        Action { id: fresh_uuid(), symbol, side, size_pct, note }
    }

    /// Accepts the action only where `size_pct` lies in `[0, 1]`.
    pub fn validate(&self) -> (r: Result<(), ValidationError>)
        ensures
            r is Ok <==> valid_fraction(self.size_pct),
            r is Err ==> r == Err::<(), ValidationError>(
                ValidationError::SizeOutOfRange(self.size_pct),
            ),
    {
        validate_fraction(self.size_pct)
    }
}

/// Cash, position, and the running account figures.
///
/// `max_drawdown` is a fraction of the initial cash.
#[derive(Clone, Copy, Debug, PartialEq, Eq)]
pub struct AccountState {
    pub cash: i64,
    pub position_qty: u64,
    pub position_avg_price: u64,
    pub equity: i64,
    pub max_drawdown: u64,
}

impl AccountState {
    /// An account holding only cash.
    pub fn flat(cash: i64) -> (r: Self)
        ensures
            r == (AccountState {
                cash,
                position_qty: 0,
                position_avg_price: 0,
                equity: cash,
                max_drawdown: 0,
            }),
    {
        AccountState { cash, position_qty: 0, position_avg_price: 0, equity: cash, max_drawdown: 0 }
    }
}

/// A realised fill of the backtest, with the account as it stood after it.
///
/// `notional` is the principal that moved: what a buy spent, what a sell
/// brought in, before the fee.
#[derive(Clone, Copy, Debug, PartialEq, Eq)]
pub struct TradeEvent {
    pub bar_time: i64,
    pub action: ActionSide,
    pub fill_price: i64,
    pub qty: u64,
    pub notional: u64,
    pub fee_paid: u64,
    pub slippage_bps: u64,
    pub resulting_state: AccountState,
}

/// The outcome of a backtest run.
#[derive(Clone, Debug)]
pub struct BacktestResult {
    pub symbol: Symbol,
    pub start: i64,
    pub end: i64,
    pub initial_cash: i64,
    pub final_state: AccountState,
    pub trades: Vec<TradeEvent>,
}

/// A span of history: its length in milliseconds and in bars.
#[derive(Clone, Copy, Debug, PartialEq, Eq)]
pub struct WindowSpec {
    pub duration_ms: i64,
    pub bars: usize,
}

/// What a decision maker is shown: recent features and the account.
#[derive(Clone, Debug)]
pub struct LlmInput {
    pub features: FeatureFrame,
    pub recent_account: AccountState,
}

/// Failures at the boundary of the historical data store.
#[derive(Clone, Debug)]
pub enum DataSourceError {
    Io(String),
    DataGap { start: i64, end: i64 },
    InvalidRange,
    Other(String),
}

/// Why an action was refused.
#[derive(Clone, Copy, Debug, PartialEq, Eq, Structural)]
pub enum ValidationError {
    /// The fraction lies outside `[0, 1]`.
    SizeOutOfRange(u64),
    /// A limit order came without a price.
    MissingLimitPrice,
    /// An amount would leave the range of its integer type.
    AmountOverflow,
    /// The id drawn for a new order is already held by an open order.
    OrderIdTaken,
}

#[derive(Clone, Copy, Debug, PartialEq, Eq, Structural)]
pub enum OrderType {
    Market,
    Limit,
}

/// A resting limit order. `reserved` is what was set aside when it was
/// placed: cash for a buy, units for a sell.
#[derive(Clone, Copy, Debug, PartialEq, Eq)]
pub struct Order {
    pub id: u128,
    pub side: ActionSide,
    pub order_type: OrderType,
    pub price: u64,
    pub quantity: u64,
    pub reserved: u64,
    pub created_at: i64,
}

} // verus!
