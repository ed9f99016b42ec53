//! Deterministic replay of an action sequence over indicator bars, with
//! fees, slippage and drawdown accounting.

use vstd::prelude::*;
use crate::fixed::{in_i64, in_u64, fx_mul, fx_div, mul_fx, div_fx, mul_div, narrow_i64, add_u64, lemma_fraction_le, SCALE, BPS};
use crate::model::{AccountState, Action, ActionSide, Bar, BacktestResult, FeatureBar, FeatureFrame, TradeEvent, ValidationError, valid_fraction};
use crate::outside::now_millis;

verus! {

/// Starting cash and the costs charged on each trade.
///
/// `fee_rate` is a fixed-point fraction of the traded notional;
/// `slippage_bps` is in basis points.
#[derive(Clone, Copy, Debug, PartialEq, Eq)]
pub struct BacktestConfig {
    pub initial_cash: i64,
    pub fee_rate: u64,
    pub slippage_bps: u64,
}

impl Default for BacktestConfig {
    /// 10 000 of cash, a fee of 0.05 %, a slippage of 5 basis points.
    fn default() -> (r: Self)
        ensures
            r.initial_cash == 10_000 * SCALE,
            r.fee_rate == SCALE / 2000,
            r.slippage_bps == 5,
    {
        BacktestConfig { initial_cash: 1_000_000_000_000, fee_rate: 50_000, slippage_bps: 5 }
    }
}

/// The slippage on `price`: `price × bps / 10 000`, rounded down.
pub open spec fn slippage_of(price: int, bps: int) -> int {
    price * bps / (BPS as int)
}

/// What buying `pct` of the cash at `price` does, as the trade it records;
/// `Ok(None)` where nothing is spent.
pub open spec fn buy_outcome(
    s: AccountState,
    pct: int,
    price: int,
    bar_time: i64,
    cfg: BacktestConfig,
) -> Result<Option<TradeEvent>, ValidationError> {
    let spend = if s.cash > 0 { fx_mul(s.cash as int, pct) } else { 0 };
    let qty = fx_div(spend, price);
    let fee = fx_mul(spend, cfg.fee_rate as int);
    let cash = s.cash - spend - fee;
    let held = fx_mul(s.position_qty as int, s.position_avg_price as int);
    let total = held + spend;
    let pos = s.position_qty + qty;
    let avg = if pos > 0 { fx_div(total, pos) } else { 0 };
    let fill = price + slippage_of(price, cfg.slippage_bps as int);
    let equity = cash + fx_mul(pos, price);
    if !(spend > 0 && price > 0) {
        Ok(None)
    } else if in_u64(spend) && in_u64(qty) && in_u64(fee) && in_i64(cash) && in_u64(held)
        && in_u64(total) && in_u64(pos) && in_u64(avg) && in_u64(
        slippage_of(price, cfg.slippage_bps as int),
    ) && in_i64(fill) && in_i64(equity) {
        let st = AccountState {
            cash: cash as i64,
            position_qty: pos as u64,
            position_avg_price: avg as u64,
            equity: equity as i64,
            ..s
        };
        Ok(
            Some(
                TradeEvent {
                    bar_time,
                    action: ActionSide::Buy,
                    fill_price: fill as i64,
                    qty: qty as u64,
                    notional: spend as u64,
                    fee_paid: fee as u64,
                    slippage_bps: cfg.slippage_bps,
                    resulting_state: st,
                },
            ),
        )
    } else {
        Err(ValidationError::AmountOverflow)
    }
}

/// What selling `pct` of the position at `price` does, as the trade it
/// records; `Ok(None)` where nothing is sold.
pub open spec fn sell_outcome(
    s: AccountState,
    pct: int,
    price: int,
    bar_time: i64,
    cfg: BacktestConfig,
) -> Result<Option<TradeEvent>, ValidationError> {
    let qty = fx_mul(s.position_qty as int, pct);
    let proceeds = fx_mul(qty, price);
    let fee = fx_mul(proceeds, cfg.fee_rate as int);
    let cash = s.cash + proceeds - fee;
    let pos = s.position_qty - qty;
    let avg = if pos == 0 { 0 } else { s.position_avg_price as int };
    let fill = price - slippage_of(price, cfg.slippage_bps as int);
    let equity = cash + fx_mul(pos, price);
    if !(qty > 0) {
        Ok(None)
    } else if in_u64(qty) && in_u64(proceeds) && in_u64(fee) && in_i64(cash) && in_u64(pos)
        && in_u64(slippage_of(price, cfg.slippage_bps as int)) && in_i64(fill) && in_i64(equity) {
        let st = AccountState {
            cash: cash as i64,
            position_qty: pos as u64,
            position_avg_price: avg as u64,
            equity: equity as i64,
            ..s
        };
        Ok(
            Some(
                TradeEvent {
                    bar_time,
                    action: ActionSide::Sell,
                    fill_price: fill as i64,
                    qty: qty as u64,
                    notional: proceeds as u64,
                    fee_paid: fee as u64,
                    slippage_bps: cfg.slippage_bps,
                    resulting_state: st,
                },
            ),
        )
    } else {
        Err(ValidationError::AmountOverflow)
    }
}

/// The trade an action makes on one bar, after validating it.
pub open spec fn trade_outcome(
    s: AccountState,
    a: Action,
    bar: Bar,
    cfg: BacktestConfig,
) -> Result<Option<TradeEvent>, ValidationError> {
    if !valid_fraction(a.size_pct) {
        Err(ValidationError::SizeOutOfRange(a.size_pct))
    } else {
        match a.side {
            ActionSide::Buy => buy_outcome(s, a.size_pct as int, bar.close as int, bar.close_time, cfg),
            ActionSide::Sell => sell_outcome(s, a.size_pct as int, bar.close as int, bar.close_time, cfg),
            ActionSide::Hold => Ok(None),
        }
    }
}

/// The drawdown of `equity` against the initial cash, as a fraction.
pub open spec fn drawdown_of(initial: int, equity: int) -> int {
    if equity >= initial { 0 } else { (initial - equity) * (SCALE as int) / initial }
}

/// The account marked to `price` at the end of a bar: its equity, and the
/// running maximum of the drawdown against a positive initial cash. `None`
/// where the equity leaves `i64` or the drawdown leaves `u64`.
pub open spec fn marked(s: AccountState, price: int, initial: i64) -> Option<AccountState> {
    let equity = s.cash + fx_mul(s.position_qty as int, price);
    let dd = drawdown_of(initial as int, equity);
    if !in_i64(equity) {
        None
    } else if initial > 0 {
        if in_u64(dd) {
            Some(
                AccountState {
                    equity: equity as i64,
                    max_drawdown: if dd > s.max_drawdown { dd as u64 } else { s.max_drawdown },
                    ..s
                },
            )
        } else {
            None
        }
    } else {
        Some(AccountState { equity: equity as i64, ..s })
    }
}

/// One bar of the replay: the action at that index, if any, then the mark.
pub open spec fn bar_step(
    s: AccountState,
    trades: Seq<TradeEvent>,
    action: Option<Action>,
    row: FeatureBar,
    cfg: BacktestConfig,
) -> Result<(AccountState, Seq<TradeEvent>), ValidationError> {
    let traded: Result<(AccountState, Seq<TradeEvent>), ValidationError> = match action {
        None => Ok((s, trades)),
        Some(a) => match trade_outcome(s, a, row.bar, cfg) {
            Err(e) => Err(e),
            Ok(None) => Ok((s, trades)),
            Ok(Some(t)) => Ok((t.resulting_state, trades.push(t))),
        },
    };
    match traded {
        Err(e) => Err(e),
        Ok((s1, ts)) => match marked(s1, row.bar.close as int, cfg.initial_cash) {
            None => Err(ValidationError::AmountOverflow),
            Some(s2) => Ok((s2, ts)),
        },
    }
}

/// The action at index `i`: a missing one counts as holding.
pub open spec fn action_at(actions: Seq<Action>, i: int) -> Option<Action> {
    if 0 <= i < actions.len() { Some(actions[i]) } else { None }
}

/// The account and the ledger after the first `n` bars; the first error
/// ends the run.
pub open spec fn replay(
    actions: Seq<Action>,
    rows: Seq<FeatureBar>,
    cfg: BacktestConfig,
    n: nat,
) -> Result<(AccountState, Seq<TradeEvent>), ValidationError>
    decreases n,
{
    if n == 0 {
        Ok(
            (
                AccountState {
                    cash: cfg.initial_cash,
                    position_qty: 0,
                    position_avg_price: 0,
                    equity: cfg.initial_cash,
                    max_drawdown: 0,
                },
                Seq::empty(),
            ),
        )
    } else {
        match replay(actions, rows, cfg, (n - 1) as nat) {
            Err(e) => Err(e),
            Ok((s, ts)) => bar_step(s, ts, action_at(actions, n - 1), rows[n - 1], cfg),
        }
    }
}

/// The cash a recorded trade moved: a buy pays notional and fee, a sell
/// receives notional less fee.
pub open spec fn cash_flow(t: TradeEvent) -> int {
    match t.action {
        ActionSide::Buy => -(t.notional + t.fee_paid),
        ActionSide::Sell => t.notional - t.fee_paid,
        ActionSide::Hold => 0,
    }
}

pub open spec fn total_cash_flow(ts: Seq<TradeEvent>) -> int
    decreases ts.len(),
{
    if ts.len() == 0 {
        0
    } else {
        total_cash_flow(ts.drop_last()) + cash_flow(ts.last())
    }
}

fn slippage(price: u64, bps: u64) -> (r: Option<u64>)
    ensures
        r == (if in_u64(slippage_of(price as int, bps as int)) {
            Some(slippage_of(price as int, bps as int) as u64)
        } else {
            None::<u64>
        }),
{
    mul_div(price, bps, BPS)
}

fn buy_trade(s: &AccountState, pct: u64, price: u64, bar_time: i64, cfg: &BacktestConfig) -> (r:
    Result<Option<TradeEvent>, ValidationError>)
    requires
        pct <= SCALE,
    ensures
        r == buy_outcome(*s, pct as int, price as int, bar_time, *cfg),
{
    let overflow = ValidationError::AmountOverflow;
    let spend: u64 = if s.cash > 0 {
        proof {
            lemma_fraction_le(s.cash as int, pct as int);
        }
        match mul_fx(s.cash as u64, pct) {
            Some(v) => v,
            None => return Err(overflow),
        }
    } else {
        0
    };
    if !(spend > 0 && price > 0) {
        return Ok(None);
    }
    let qty = match div_fx(spend, price) {
        Some(v) => v,
        None => return Err(overflow),
    };
    let fee = match mul_fx(spend, cfg.fee_rate) {
        Some(v) => v,
        None => return Err(overflow),
    };
    let cash = match narrow_i64(s.cash as i128 - spend as i128 - fee as i128) {
        Some(v) => v,
        None => return Err(overflow),
    };
    let held = match mul_fx(s.position_qty, s.position_avg_price) {
        Some(v) => v,
        None => return Err(overflow),
    };
    let total = match add_u64(held, spend) {
        Some(v) => v,
        None => return Err(overflow),
    };
    let pos = match add_u64(s.position_qty, qty) {
        Some(v) => v,
        None => return Err(overflow),
    };
    let avg = if pos > 0 {
        match div_fx(total, pos) {
            Some(v) => v,
            None => return Err(overflow),
        }
    } else {
        0
    };
    let slip = match slippage(price, cfg.slippage_bps) {
        Some(v) => v,
        None => return Err(overflow),
    };
    let fill = match narrow_i64(price as i128 + slip as i128) {
        Some(v) => v,
        None => return Err(overflow),
    };
    let value = match mul_fx(pos, price) {
        Some(v) => v,
        None => return Err(overflow),
    };
    let equity = match narrow_i64(cash as i128 + value as i128) {
        Some(v) => v,
        None => return Err(overflow),
    };
    let st = AccountState { cash, position_qty: pos, position_avg_price: avg, equity, ..*s };
    Ok(
        Some(
            TradeEvent {
                bar_time,
                action: ActionSide::Buy,
                fill_price: fill,
                qty,
                notional: spend,
                fee_paid: fee,
                slippage_bps: cfg.slippage_bps,
                resulting_state: st,
            },
        ),
    )
}

fn sell_trade(s: &AccountState, pct: u64, price: u64, bar_time: i64, cfg: &BacktestConfig) -> (r:
    Result<Option<TradeEvent>, ValidationError>)
    requires
        pct <= SCALE,
    ensures
        r == sell_outcome(*s, pct as int, price as int, bar_time, *cfg),
{
    let overflow = ValidationError::AmountOverflow;
    proof {
        lemma_fraction_le(s.position_qty as int, pct as int);
    }
    let qty = match mul_fx(s.position_qty, pct) {
        Some(v) => v,
        None => return Err(overflow),
    };
    if !(qty > 0) {
        return Ok(None);
    }
    let proceeds = match mul_fx(qty, price) {
        Some(v) => v,
        None => return Err(overflow),
    };
    let fee = match mul_fx(proceeds, cfg.fee_rate) {
        Some(v) => v,
        None => return Err(overflow),
    };
    let cash = match narrow_i64(s.cash as i128 + proceeds as i128 - fee as i128) {
        Some(v) => v,
        None => return Err(overflow),
    };
    let pos = s.position_qty - qty;
    let avg = if pos == 0 { 0 } else { s.position_avg_price };
    let slip = match slippage(price, cfg.slippage_bps) {
        Some(v) => v,
        None => return Err(overflow),
    };
    let fill = match narrow_i64(price as i128 - slip as i128) {
        Some(v) => v,
        None => return Err(overflow),
    };
    let value = match mul_fx(pos, price) {
        Some(v) => v,
        None => return Err(overflow),
    };
    let equity = match narrow_i64(cash as i128 + value as i128) {
        Some(v) => v,
        None => return Err(overflow),
    };
    let st = AccountState { cash, position_qty: pos, position_avg_price: avg, equity, ..*s };
    Ok(
        Some(
            TradeEvent {
                bar_time,
                action: ActionSide::Sell,
                fill_price: fill,
                qty,
                notional: proceeds,
                fee_paid: fee,
                slippage_bps: cfg.slippage_bps,
                resulting_state: st,
            },
        ),
    )
}

fn trade_step(s: &AccountState, a: &Action, bar: &Bar, cfg: &BacktestConfig) -> (r: Result<
    Option<TradeEvent>,
    ValidationError,
>)
    ensures
        r == trade_outcome(*s, *a, *bar, *cfg),
{
    a.validate()?;
    match a.side {
        ActionSide::Buy => buy_trade(s, a.size_pct, bar.close, bar.close_time, cfg),
        ActionSide::Sell => sell_trade(s, a.size_pct, bar.close, bar.close_time, cfg),
        ActionSide::Hold => Ok(None),
    }
}

fn mark_bar(s: &AccountState, price: u64, initial: i64) -> (r: Option<AccountState>)
    ensures
        r == marked(*s, price as int, initial),
{
    let value = match mul_fx(s.position_qty, price) {
        Some(v) => v,
        None => return None,
    };
    let equity = match narrow_i64(s.cash as i128 + value as i128) {
        Some(v) => v,
        None => return None,
    };
    let mut mdd = s.max_drawdown;
    if initial > 0 {
        let dd: u64 = if equity >= initial {
            0
        } else {
            let q: i128 = (initial as i128 - equity as i128) * (SCALE as i128) / (initial as i128);
            if q > u64::MAX as i128 {
                return None;
            }
            proof {
                vstd::arithmetic::div_mod::lemma_div_pos_is_pos(
                    (initial - equity) * (SCALE as int),
                    initial as int,
                );
            }
            q as u64
        };
        if dd > mdd {
            mdd = dd;
        }
    }
    Some(AccountState { equity, max_drawdown: mdd, ..*s })
}

/// Once the replay has failed, later bars do not change the error.
proof fn lemma_replay_error_stays(
    actions: Seq<Action>,
    rows: Seq<FeatureBar>,
    cfg: BacktestConfig,
    i: nat,
    n: nat,
)
    requires
        i <= n,
        replay(actions, rows, cfg, i) is Err,
    ensures
        replay(actions, rows, cfg, n) == replay(actions, rows, cfg, i),
    decreases n - i,
{
    if i < n {
        lemma_replay_error_stays(actions, rows, cfg, i, (n - 1) as nat);
    }
}

/// Replays `actions` against `features.rows`, index by index: a missing
/// action holds, an invalid one ends the run with its error and no ledger.
pub fn run_backtest(actions: &[Action], features: &FeatureFrame, cfg: BacktestConfig) -> (r: Result<
    BacktestResult,
    ValidationError,
>)
    ensures
        match r {
            Ok(res) => {
                &&& replay(actions@, features.rows@, cfg, features.rows@.len()) == Ok::<
                    (AccountState, Seq<TradeEvent>),
                    ValidationError,
                >((res.final_state, res.trades@))
                &&& res.symbol@ == features.symbol@
                &&& res.initial_cash == cfg.initial_cash
                &&& features.rows@.len() > 0 ==> {
                    &&& res.start == features.rows@[0].bar.open_time
                    &&& res.end == features.rows@.last().bar.close_time
                }
            },
            Err(e) => replay(actions@, features.rows@, cfg, features.rows@.len()) == Err::<
                (AccountState, Seq<TradeEvent>),
                ValidationError,
            >(e),
        },
{
    let mut state = AccountState::flat(cfg.initial_cash);
    let mut trades: Vec<TradeEvent> = Vec::new();
    let n = features.rows.len();
    let mut idx: usize = 0;
    while idx < n
        invariant
            n == features.rows@.len(),
            idx <= n,
            replay(actions@, features.rows@, cfg, idx as nat) == Ok::<
                (AccountState, Seq<TradeEvent>),
                ValidationError,
            >((state, trades@)),
        decreases n - idx,
    {
        let row = features.rows[idx];
        if idx < actions.len() {
            match trade_step(&state, &actions[idx], &row.bar, &cfg) {
                Err(e) => {
                    proof {
                        lemma_replay_error_stays(
                            actions@,
                            features.rows@,
                            cfg,
                            (idx + 1) as nat,
                            n as nat,
                        );
                    }
                    return Err(e);
                },
                Ok(None) => {},
                Ok(Some(t)) => {
                    state = t.resulting_state;
                    trades.push(t);
                },
            }
        }
        match mark_bar(&state, row.bar.close, cfg.initial_cash) {
            None => {
                proof {
                    lemma_replay_error_stays(
                        actions@,
                        features.rows@,
                        cfg,
                        (idx + 1) as nat,
                        n as nat,
                    );
                }
                return Err(ValidationError::AmountOverflow);
            },
            Some(s2) => {
                state = s2;
            },
        }
        idx = idx + 1;
    }
    let start = if n > 0 {
        features.rows[0].bar.open_time
    } else {
        now_millis()
    };
    let end = if n > 0 {
        features.rows[n - 1].bar.close_time
    } else {
        now_millis()
    };
    Ok(
        BacktestResult {
            symbol: features.symbol.clone(),
            start,
            end,
            initial_cash: cfg.initial_cash,
            final_state: state,
            trades,
        },
    )
}

/// The account and ledger of a run that has not failed.
pub open spec fn replay_state(
    actions: Seq<Action>,
    rows: Seq<FeatureBar>,
    cfg: BacktestConfig,
    n: nat,
) -> (AccountState, Seq<TradeEvent>)
    recommends
        replay(actions, rows, cfg, n) is Ok,
{
    replay(actions, rows, cfg, n)->Ok_0
}

/// No cash leaks and none is counted twice: after every bar of a run that
/// has not failed, the cash is the initial cash less what the buys paid
/// (notional and fee) plus what the sells received (notional less fee).
pub proof fn lemma_cash_reconciles(
    actions: Seq<Action>,
    rows: Seq<FeatureBar>,
    cfg: BacktestConfig,
    n: nat,
)
    requires
        replay(actions, rows, cfg, n) is Ok,
    ensures
        replay_state(actions, rows, cfg, n).0.cash == cfg.initial_cash + total_cash_flow(
            replay_state(actions, rows, cfg, n).1,
        ),
    decreases n,
{
    if n > 0 {
        let m = (n - 1) as nat;
        lemma_cash_reconciles(actions, rows, cfg, m);
        let (s, ts) = replay_state(actions, rows, cfg, m);
        match action_at(actions, n - 1) {
            None => {},
            Some(a) => match trade_outcome(s, a, rows[n - 1].bar, cfg) {
                Ok(Some(t)) => {
                    assert(ts.push(t).drop_last() == ts);
                },
                _ => {},
            },
        }
    }
}

/// Trade by trade, the ledger accounts for the cash: each trade charges its
/// fee at the configured rate on its notional, and leaves the cash where
/// the previous trade (or the initial cash) left it, moved by its cash flow.
pub open spec fn ledger_chained(initial: int, fee_rate: int, ts: Seq<TradeEvent>) -> bool {
    forall|k: int|
        0 <= k < ts.len() ==> {
            &&& #[trigger] ts[k].fee_paid == fx_mul(ts[k].notional as int, fee_rate)
            &&& ts[k].resulting_state.cash == (if k == 0 {
                initial
            } else {
                ts[k - 1].resulting_state.cash as int
            }) + cash_flow(ts[k])
        }
}

/// No cash leaks between trades either: along any run that has not failed,
/// every trade moves the cash from where the previous one left it by
/// exactly `notional + fee` (buy) or `notional − fee` (sell), and the
/// account holds the cash of the last trade.
pub proof fn lemma_trade_cash_chain(
    actions: Seq<Action>,
    rows: Seq<FeatureBar>,
    cfg: BacktestConfig,
    n: nat,
)
    requires
        replay(actions, rows, cfg, n) is Ok,
    ensures
        ledger_chained(
            cfg.initial_cash as int,
            cfg.fee_rate as int,
            replay_state(actions, rows, cfg, n).1,
        ),
        replay_state(actions, rows, cfg, n).0.cash == (if replay_state(actions, rows, cfg, n).1.len()
            == 0 {
            cfg.initial_cash as int
        } else {
            replay_state(actions, rows, cfg, n).1.last().resulting_state.cash as int
        }),
    decreases n,
{
    if n > 0 {
        let m = (n - 1) as nat;
        lemma_trade_cash_chain(actions, rows, cfg, m);
        let (s, ts) = replay_state(actions, rows, cfg, m);
        match action_at(actions, n - 1) {
            None => {},
            Some(a) => match trade_outcome(s, a, rows[n - 1].bar, cfg) {
                Ok(Some(t)) => {
                    let ts2 = ts.push(t);
                    assert forall|k: int| 0 <= k < ts2.len() implies {
                        &&& #[trigger] ts2[k].fee_paid == fx_mul(ts2[k].notional as int, cfg.fee_rate as int)
                        &&& ts2[k].resulting_state.cash == (if k == 0 {
                            cfg.initial_cash as int
                        } else {
                            ts2[k - 1].resulting_state.cash as int
                        }) + cash_flow(ts2[k])
                    } by {
                        if k < ts.len() {
                            assert(ts2[k] == ts[k]);
                            if k > 0 {
                                assert(ts2[k - 1] == ts[k - 1]);
                            }
                        } else {
                            assert(ts2[k] == t);
                            if k > 0 {
                                assert(ts2[k - 1] == ts.last());
                            }
                        }
                    }
                },
                _ => {},
            },
        }
    }
}

/// The running maximum drawdown never decreases from one bar to a later
/// one of the same run.
pub proof fn lemma_max_drawdown_monotone(
    actions: Seq<Action>,
    rows: Seq<FeatureBar>,
    cfg: BacktestConfig,
    i: nat,
    j: nat,
)
    requires
        i <= j,
        replay(actions, rows, cfg, j) is Ok,
    ensures
        replay(actions, rows, cfg, i) is Ok,
        replay_state(actions, rows, cfg, i).0.max_drawdown <= replay_state(
            actions,
            rows,
            cfg,
            j,
        ).0.max_drawdown,
    decreases j - i,
{
    if i < j {
        let m = (j - 1) as nat;
        assert(replay(actions, rows, cfg, m) is Ok);
        lemma_max_drawdown_monotone(actions, rows, cfg, i, m);
        let (s, ts) = replay_state(actions, rows, cfg, m);
        let s1 = match action_at(actions, j - 1) {
            None => s,
            Some(a) => match trade_outcome(s, a, rows[j - 1].bar, cfg) {
                Ok(Some(t)) => t.resulting_state,
                _ => s,
            },
        };
        assert(s1.max_drawdown == s.max_drawdown);
    }
}

} // verus!
