//! Market feeds: a cursor over precomputed bars for a backtest, and the
//! latest observed bar for a live session, with the decisions of the live
//! ingestion loop as a state machine.

use vstd::prelude::*;
use crate::model::{Bar, FeatureBar};

verus! {

#[derive(Clone, Copy, Debug, PartialEq, Eq, Structural)]
pub enum MarketMode {
    Backtest,
    Live,
}

/// A finite sequence of bars handed out one at a time.
#[derive(Clone, Debug)]
pub struct BacktestSource {
    cursor: usize,
    frames: Vec<FeatureBar>,
}

impl View for BacktestSource {
    /// The position of the next bar, and all the bars.
    type V = (nat, Seq<FeatureBar>);

    closed spec fn view(&self) -> (nat, Seq<FeatureBar>) {
        (self.cursor as nat, self.frames@)
    }
}

impl BacktestSource {
    pub fn new(frames: Vec<FeatureBar>) -> (r: Self)
        ensures
            r@ == (0nat, frames@),
    {
        BacktestSource { cursor: 0, frames }
    }

    /// The next bar, advancing past it; empty for good once all were given.
    pub fn next_candle(&mut self) -> (r: Option<FeatureBar>)
        ensures
            old(self)@.0 < old(self)@.1.len() ==> {
                &&& r == Some(old(self)@.1[old(self)@.0 as int])
                &&& final(self)@ == (old(self)@.0 + 1, old(self)@.1)
            },
            old(self)@.0 >= old(self)@.1.len() ==> r is None && final(self)@ == old(self)@,
    {
        if self.cursor >= self.frames.len() {
            return None;
        }
        let item = self.frames[self.cursor];
        self.cursor = self.cursor + 1;
        Some(item)
    }

    pub fn mode(&self) -> (r: MarketMode)
        ensures
            r == MarketMode::Backtest,
    {
        MarketMode::Backtest
    }
}

/// The most recent bar observed on a live market: each new one replaces
/// the last.
#[derive(Clone, Debug)]
pub struct LiveSource {
    symbol: String,
    latest: Option<FeatureBar>,
}

impl View for LiveSource {
    /// The symbol followed, and the latest bar if one has arrived.
    type V = (Seq<char>, Option<FeatureBar>);

    closed spec fn view(&self) -> (Seq<char>, Option<FeatureBar>) {
        (self.symbol@, self.latest)
    }
}

impl LiveSource {
    /// A live feed for `symbol`, holding `seed` until a bar arrives.
    pub fn new(symbol: &str, seed: Option<FeatureBar>) -> (r: Self)
        ensures
            r@ == (symbol@, seed),
    {
        LiveSource { symbol: symbol.to_owned(), latest: seed }
    }

    /// Replaces the latest bar: the last value wins.
    pub fn publish(&mut self, bar: FeatureBar)
        ensures
            final(self)@ == (old(self)@.0, Some(bar)),
    {
        self.latest = Some(bar);
    }

    pub fn symbol(&self) -> (r: &str)
        ensures
            r@ == self@.0,
    {
        self.symbol.as_str()
    }

    /// A copy of the latest bar; never waits for a new one.
    pub fn next_candle(&self) -> (r: Option<FeatureBar>)
        ensures
            r == self@.1,
    {
        self.latest
    }

    pub fn mode(&self) -> (r: MarketMode)
        ensures
            r == MarketMode::Live,
    {
        MarketMode::Live
    }
}

/// The feed of a session: one of the two kinds.
#[derive(Clone, Debug)]
pub enum MarketFeed {
    Backtest(BacktestSource),
    Live(LiveSource),
}

impl MarketFeed {
    /// The next bar: the backtest cursor advances, the live feed gives its
    /// latest bar and stays as it is.
    pub fn next_candle(&mut self) -> (r: Option<FeatureBar>)
        ensures
            match *old(self) {
                MarketFeed::Backtest(b) => {
                    &&& *final(self) is Backtest
                    &&& b@.0 < b@.1.len() ==> {
                        &&& r == Some(b@.1[b@.0 as int])
                        &&& (*final(self))->Backtest_0@ == (b@.0 + 1, b@.1)
                    }
                    &&& b@.0 >= b@.1.len() ==> r is None && (*final(self))->Backtest_0@ == b@
                },
                MarketFeed::Live(l) => {
                    &&& *final(self) is Live
                    &&& (*final(self))->Live_0@ == l@
                    &&& r == l@.1
                },
            },
    {
        match self {
            MarketFeed::Backtest(b) => b.next_candle(),
            MarketFeed::Live(l) => l.next_candle(),
        }
    }

    pub fn mode(&self) -> (r: MarketMode)
        ensures
            self is Backtest ==> r == MarketMode::Backtest,
            self is Live ==> r == MarketMode::Live,
    {
        match self {
            MarketFeed::Backtest(b) => b.mode(),
            MarketFeed::Live(l) => l.mode(),
        }
    }
}

/// Wait before reconnecting, in milliseconds.
pub const RECONNECT_DELAY_MS: u64 = 5_000;

/// Interval between keepalive pings on an open stream, in milliseconds.
pub const KEEPALIVE_INTERVAL_MS: u64 = 15_000;

/// Where the live ingestion loop stands.
#[derive(Clone, Copy, Debug, PartialEq, Eq, Structural)]
pub enum LinkState {
    /// Opening the candle stream.
    Connecting,
    /// Reading from an open stream, with keepalive pings running.
    Streaming,
    /// The stream could not be opened: fetching the latest bar once.
    Polling,
    /// Waiting before the next attempt.
    Backoff,
}

/// What the outside world reports to the ingestion loop.
#[derive(Clone, Copy, Debug, PartialEq, Eq)]
pub enum LinkEvent {
    Connected,
    ConnectFailed,
    /// A message arrived; it held a bar or it did not.
    Message(Option<Bar>),
    /// The stream failed or closed.
    StreamEnded,
    /// The one-off fetch finished; it found a bar or it did not.
    PollFinished(Option<Bar>),
    BackoffElapsed,
}

/// What the ingestion loop asks the outside world to do, in order.
#[derive(Clone, Copy, Debug, PartialEq, Eq)]
pub enum LinkAction {
    OpenStream,
    StartKeepalive,
    StopKeepalive,
    ReadNext,
    PollOnce,
    /// Replace the latest bar of the feed.
    Publish(Bar),
    Sleep(u64),
}

/// The transition of the ingestion loop on one event. Events that do not
/// belong to the current state change nothing.
pub open spec fn link_transition(s: LinkState, e: LinkEvent) -> (LinkState, Seq<LinkAction>) {
    match (s, e) {
        (LinkState::Connecting, LinkEvent::Connected) => (
            LinkState::Streaming,
            seq![LinkAction::StartKeepalive, LinkAction::ReadNext],
        ),
        (LinkState::Connecting, LinkEvent::ConnectFailed) => (
            LinkState::Polling,
            seq![LinkAction::PollOnce],
        ),
        (LinkState::Streaming, LinkEvent::Message(Some(bar))) => (
            LinkState::Streaming,
            seq![LinkAction::Publish(bar), LinkAction::ReadNext],
        ),
        (LinkState::Streaming, LinkEvent::Message(None)) => (
            LinkState::Streaming,
            seq![LinkAction::ReadNext],
        ),
        (LinkState::Streaming, LinkEvent::StreamEnded) => (
            LinkState::Backoff,
            seq![LinkAction::StopKeepalive, LinkAction::Sleep(RECONNECT_DELAY_MS)],
        ),
        (LinkState::Polling, LinkEvent::PollFinished(Some(bar))) => (
            LinkState::Backoff,
            seq![LinkAction::Publish(bar), LinkAction::Sleep(RECONNECT_DELAY_MS)],
        ),
        (LinkState::Polling, LinkEvent::PollFinished(None)) => (
            LinkState::Backoff,
            seq![LinkAction::Sleep(RECONNECT_DELAY_MS)],
        ),
        (LinkState::Backoff, LinkEvent::BackoffElapsed) => (
            LinkState::Connecting,
            seq![LinkAction::OpenStream],
        ),
        _ => (s, Seq::empty()),
    }
}

/// The ingestion loop begins by opening the stream.
pub fn link_start() -> (r: (LinkState, Vec<LinkAction>))
    ensures
        r.0 == LinkState::Connecting,
        r.1@ == seq![LinkAction::OpenStream],
{
    let mut acts: Vec<LinkAction> = Vec::new();
    acts.push(LinkAction::OpenStream);
    (LinkState::Connecting, acts)
}

/// The next state and the actions to perform, in order. Leaving the
/// stream always stops its keepalive, and only entering it starts one.
pub fn link_step(s: LinkState, e: LinkEvent) -> (r: (LinkState, Vec<LinkAction>))
    ensures
        (r.0, r.1@) == link_transition(s, e),
        s == LinkState::Streaming && r.0 != LinkState::Streaming ==> r.1@.contains(
            LinkAction::StopKeepalive,
        ),
        r.1@.contains(LinkAction::StartKeepalive) ==> s != LinkState::Streaming && r.0
            == LinkState::Streaming,
{
    let mut acts: Vec<LinkAction> = Vec::new();
    let next = match (s, e) {
        (LinkState::Connecting, LinkEvent::Connected) => {
            acts.push(LinkAction::StartKeepalive);
            acts.push(LinkAction::ReadNext);
            LinkState::Streaming
        },
        (LinkState::Connecting, LinkEvent::ConnectFailed) => {
            acts.push(LinkAction::PollOnce);
            LinkState::Polling
        },
        (LinkState::Streaming, LinkEvent::Message(Some(bar))) => {
            acts.push(LinkAction::Publish(bar));
            acts.push(LinkAction::ReadNext);
            LinkState::Streaming
        },
        (LinkState::Streaming, LinkEvent::Message(None)) => {
            acts.push(LinkAction::ReadNext);
            LinkState::Streaming
        },
        (LinkState::Streaming, LinkEvent::StreamEnded) => {
            acts.push(LinkAction::StopKeepalive);
            acts.push(LinkAction::Sleep(RECONNECT_DELAY_MS));
            LinkState::Backoff
        },
        (LinkState::Polling, LinkEvent::PollFinished(Some(bar))) => {
            acts.push(LinkAction::Publish(bar));
            acts.push(LinkAction::Sleep(RECONNECT_DELAY_MS));
            LinkState::Backoff
        },
        (LinkState::Polling, LinkEvent::PollFinished(None)) => {
            acts.push(LinkAction::Sleep(RECONNECT_DELAY_MS));
            LinkState::Backoff
        },
        (LinkState::Backoff, LinkEvent::BackoffElapsed) => {
            acts.push(LinkAction::OpenStream);
            LinkState::Connecting
        },
        _ => s,
    };
    proof {
        let t = link_transition(s, e);
        assert(acts@ =~= t.1);
        if s == LinkState::Streaming && next != LinkState::Streaming {
            assert(acts@[0] == LinkAction::StopKeepalive);
        }
    }
    (next, acts)
}

} // verus!
