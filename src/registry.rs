//! The registry of sessions, keyed by a random identifier. It is the only
//! way to reach a session; callers that share it across tasks hold it
//! behind one lock, which serialises the operations on each session.

use vstd::prelude::*;
use std::collections::HashMap;
use crate::feed::{BacktestSource, LiveSource, MarketFeed};
use crate::indicators::{compute_features, feature_at, IndicatorConfig};
use crate::model::{AccountState, Bar, FeatureBar};
use crate::outside::fresh_uuid;
use crate::session::Session;

verus! {

broadcast use vstd::std_specs::hash::group_hash_axioms;

#[derive(Clone, Copy, Debug, PartialEq, Eq, Structural)]
pub enum SessionError {
    /// No session has this id.
    NotFound,
    /// The id is already taken; nothing was registered.
    IdCollision,
}

/// The window lengths a backtest session computes its indicators with.
pub open spec fn session_indicators() -> IndicatorConfig {
    IndicatorConfig { ema_fast: 12, ema_slow: 26, rsi_period: 14, cmf_period: 20 }
}

/// `after` is `before` with one new session under `id`: a flat account of
/// `initial_cash`, no open orders.
pub open spec fn registered_with(
    before: Map<u128, Session>,
    after: Map<u128, Session>,
    id: u128,
    initial_cash: i64,
) -> bool {
    &&& !before.contains_key(id)
    &&& after.dom() == before.dom().insert(id)
    &&& forall|k: u128| k != id && before.contains_key(k) ==> after[k] == before[k]
    &&& after[id].id == id
    &&& after[id].wallet == AccountState {
        cash: initial_cash,
        position_qty: 0,
        position_avg_price: 0,
        equity: initial_cash,
        max_drawdown: 0,
    }
    &&& after[id].open_orders@.len() == 0
    &&& after[id].history@.len() == 0
}

/// As [`registered_with`], the new session reading from `source`.
pub open spec fn registered(
    before: Map<u128, Session>,
    after: Map<u128, Session>,
    id: u128,
    source: MarketFeed,
    initial_cash: i64,
) -> bool {
    registered_with(before, after, id, initial_cash) && after[id].source == source
}

pub struct SessionManager {
    inner: HashMap<u128, Session>,
}

impl View for SessionManager {
    type V = Map<u128, Session>;

    closed spec fn view(&self) -> Map<u128, Session> {
        self.inner@
    }
}

impl SessionManager {
    pub fn new() -> (r: Self)
        ensures
            r@ == Map::<u128, Session>::empty(),
    {
        SessionManager { inner: HashMap::new() }
    }

    /// Registers a new session over `source` under `id`, unless `id` is
    /// taken.
    pub fn register_with_id(&mut self, id: u128, source: MarketFeed, initial_cash: i64) -> (r: Result<
        u128,
        SessionError,
    >)
        ensures
            old(self)@.contains_key(id) ==> r == Err::<u128, SessionError>(SessionError::IdCollision)
                && final(self)@ == old(self)@,
            !old(self)@.contains_key(id) ==> r == Ok::<u128, SessionError>(id) && registered(
                old(self)@,
                final(self)@,
                id,
                source,
                initial_cash,
            ),
    {
        if self.inner.contains_key(&id) {
            return Err(SessionError::IdCollision);
        }
        let s = Session::new(id, source, initial_cash);
        self.inner.insert(id, s);
        Ok(id)
    }

    /// Registers a new session over `source` under a freshly drawn id. Only
    /// a registry that already holds a session can refuse the id.
    pub fn register(&mut self, source: MarketFeed, initial_cash: i64) -> (r: Result<u128, SessionError>)
        ensures
            r matches Ok(id) ==> registered(old(self)@, final(self)@, id, source, initial_cash),
            r is Err ==> r == Err::<u128, SessionError>(SessionError::IdCollision) && final(self)@
                == old(self)@ && exists|k: u128| old(self)@.contains_key(k),
    {
        let id = fresh_uuid();
        self.register_with_id(id, source, initial_cash)
    }

    /// Registers a backtest session that replays `bars`, with indicators
    /// computed once over all of them.
    pub fn create_backtest(&mut self, symbol: &str, bars: &Vec<Bar>, initial_cash: i64) -> (r:
        Result<u128, SessionError>)
        ensures
            r matches Ok(id) ==> {
                &&& registered_with(old(self)@, final(self)@, id, initial_cash)
                &&& final(self)@[id].source is Backtest
                &&& final(self)@[id].source->Backtest_0@.0 == 0
                &&& final(self)@[id].source->Backtest_0@.1.len() == bars@.len()
                &&& forall|i: int|
                    0 <= i < bars@.len() ==> final(self)@[id].source->Backtest_0@.1[i]
                        == feature_at(bars@, session_indicators(), i)
            },
            r is Err ==> r == Err::<u128, SessionError>(SessionError::IdCollision) && final(self)@
                == old(self)@ && exists|k: u128| old(self)@.contains_key(k),
    {
        let frame = compute_features(symbol.to_owned(), bars, IndicatorConfig::default());
        let source = MarketFeed::Backtest(BacktestSource::new(frame.rows));
        self.register(source, initial_cash)
    }

    /// Registers a live session for `symbol`, holding `seed` until the
    /// first bar arrives.
    pub fn create_live(&mut self, initial_cash: i64, symbol: &str, seed: Option<FeatureBar>) -> (r:
        Result<u128, SessionError>)
        ensures
            r matches Ok(id) ==> {
                &&& registered_with(old(self)@, final(self)@, id, initial_cash)
                &&& final(self)@[id].source is Live
                &&& final(self)@[id].source->Live_0@ == (symbol@, seed)
            },
            r is Err ==> r == Err::<u128, SessionError>(SessionError::IdCollision) && final(self)@
                == old(self)@ && exists|k: u128| old(self)@.contains_key(k),
    {
        let source = MarketFeed::Live(LiveSource::new(symbol, seed));
        self.register(source, initial_cash)
    }

    /// Runs `op` with sole access to the session `id` and puts back the
    /// session it returns. An unknown id fails with `NotFound` and changes
    /// no session.
    pub fn with_session<F, R>(&mut self, id: u128, op: F) -> (r: Result<R, SessionError>) where
        F: FnOnce(Session) -> (Session, R),

        requires
            forall|s: Session| op.requires((s,)),
        ensures
            !old(self)@.contains_key(id) ==> r == Err::<R, SessionError>(SessionError::NotFound)
                && final(self)@ == old(self)@,
            old(self)@.contains_key(id) ==> (r matches Ok(v) && exists|s2: Session|
                op.ensures((old(self)@[id],), (s2, v)) && final(self)@ == old(self)@.insert(id, s2)),
    {
        match self.inner.remove(&id) {
            None => Err(SessionError::NotFound),
            Some(s) => {
                let (s2, v) = op(s);
                self.inner.insert(id, s2);
                proof {
                    assert(self.inner@ == old(self)@.insert(id, s2));
                }
                Ok(v)
            },
        }
    }

    pub fn contains(&self, id: u128) -> (r: bool)
        ensures
            r == self@.contains_key(id),
    {
        self.inner.contains_key(&id)
    }
}

} // verus!
