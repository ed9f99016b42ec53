//! One trader's paper-trading session: its account, its resting limit
//! orders with escrow, and the matching of those orders against new bars.

use vstd::prelude::*;
use crate::feed::MarketFeed;
use crate::fixed::{add_u64, div_fx, fx_div, fx_mul, in_i64, in_u64, lemma_fraction_le, mul_fx, narrow_i64, SCALE};
use crate::model::{valid_fraction, validate_fraction, AccountState, ActionSide, Bar, FeatureBar, Order, OrderType, ValidationError};
use crate::outside::{fresh_uuid, now_millis};

verus! {

/// The fee charged on every session fill: 0.1 % of the notional.
pub const FEE_RATE: u64 = 100_000;

pub struct Session {
    pub id: u128,
    pub source: MarketFeed,
    pub wallet: AccountState,
    pub open_orders: Vec<Order>,
    pub history: Vec<String>,
}

/// A resting order is crossed by a bar: a buy once the low reaches its
/// price, a sell once the high does.
pub open spec fn crosses(o: Order, bar: Bar) -> bool {
    match o.side {
        ActionSide::Buy => bar.low <= o.price,
        ActionSide::Sell => bar.high >= o.price,
        ActionSide::Hold => false,
    }
}

/// The account after `o` fills at its price. The principal was set aside
/// when the order was placed, so a buy pays only the fee.
pub open spec fn fill_account(w: AccountState, o: Order) -> Option<AccountState> {
    let notional = fx_mul(o.price as int, o.quantity as int);
    let fee = fx_mul(notional, FEE_RATE as int);
    match o.side {
        ActionSide::Buy => {
            let cash = w.cash - fee;
            let existing = fx_mul(w.position_avg_price as int, w.position_qty as int);
            let qty = w.position_qty + o.quantity;
            let avg = if qty > 0 { fx_div(existing + notional, qty) } else { 0 };
            if in_u64(notional) && in_u64(fee) && in_i64(cash) && in_u64(existing) && in_u64(
                existing + notional,
            ) && in_u64(qty) && in_u64(avg) {
                Some(
                    AccountState {
                        cash: cash as i64,
                        position_qty: qty as u64,
                        position_avg_price: avg as u64,
                        ..w
                    },
                )
            } else {
                None
            }
        },
        ActionSide::Sell => {
            let cash = w.cash + notional - fee;
            if in_u64(notional) && in_u64(fee) && in_i64(cash) {
                Some(AccountState { cash: cash as i64, ..w })
            } else {
                None
            }
        },
        ActionSide::Hold => Some(w),
    }
}

/// The account after every order of `orders` that `bar` crosses has filled,
/// in order; `None` where an amount leaves its range.
pub open spec fn fills(w: AccountState, orders: Seq<Order>, bar: Bar) -> Option<AccountState>
    decreases orders.len(),
{
    if orders.len() == 0 {
        Some(w)
    } else {
        match fills(w, orders.drop_last(), bar) {
            None => None,
            Some(w1) => if crosses(orders.last(), bar) {
                fill_account(w1, orders.last())
            } else {
                Some(w1)
            },
        }
    }
}

/// The orders that `bar` does not cross, in their order.
pub open spec fn resting(orders: Seq<Order>, bar: Bar) -> Seq<Order>
    decreases orders.len(),
{
    if orders.len() == 0 {
        orders
    } else if crosses(orders.last(), bar) {
        resting(orders.drop_last(), bar)
    } else {
        resting(orders.drop_last(), bar).push(orders.last())
    }
}

/// The account with its equity marked to `price`.
pub open spec fn with_equity(w: AccountState, price: int) -> Option<AccountState> {
    let equity = w.cash + fx_mul(w.position_qty as int, price);
    if in_i64(equity) {
        Some(AccountState { equity: equity as i64, ..w })
    } else {
        None
    }
}

/// The account after a fill pass over `orders` on `bar`.
pub open spec fn fill_pass(w: AccountState, orders: Seq<Order>, bar: Bar) -> Option<AccountState> {
    match fills(w, orders, bar) {
        None => None,
        Some(w1) => with_equity(w1, bar.close as int),
    }
}

/// The account after a market buy of `pct` of the cash at `price`.
pub open spec fn market_buy(w: AccountState, pct: int, price: int) -> Option<AccountState> {
    let spend = if w.cash > 0 { fx_mul(w.cash as int, pct) } else { 0 };
    let qty = fx_div(spend, price);
    let fee = fx_mul(spend, FEE_RATE as int);
    let cash = w.cash - spend - fee;
    let existing = fx_mul(w.position_avg_price as int, w.position_qty as int);
    let new_qty = w.position_qty + qty;
    let avg = if new_qty > 0 { fx_div(existing + spend, new_qty) } else { 0 };
    if !(spend > 0 && price > 0) {
        Some(w)
    } else if in_u64(spend) && in_u64(qty) && in_u64(fee) && in_i64(cash) && in_u64(existing)
        && in_u64(existing + spend) && in_u64(new_qty) && in_u64(avg) {
        Some(
            AccountState {
                cash: cash as i64,
                position_qty: new_qty as u64,
                position_avg_price: avg as u64,
                ..w
            },
        )
    } else {
        None
    }
}

/// The account after a market sell of `pct` of the position at `price`.
pub open spec fn market_sell(w: AccountState, pct: int, price: int) -> Option<AccountState> {
    let qty = fx_mul(w.position_qty as int, pct);
    let proceeds = fx_mul(qty, price);
    let fee = fx_mul(proceeds, FEE_RATE as int);
    let cash = w.cash + proceeds - fee;
    let pos = w.position_qty - qty;
    let avg = if pos == 0 { 0 } else { w.position_avg_price as int };
    if !(qty > 0) {
        Some(w)
    } else if in_u64(qty) && in_u64(proceeds) && in_u64(fee) && in_i64(cash) && in_u64(pos) {
        Some(
            AccountState {
                cash: cash as i64,
                position_qty: pos as u64,
                position_avg_price: avg as u64,
                ..w
            },
        )
    } else {
        None
    }
}

/// The account after a market order, marked to the reference price.
pub open spec fn market_outcome(w: AccountState, side: ActionSide, pct: int, price: int) -> Option<
    AccountState,
> {
    let traded = match side {
        ActionSide::Buy => market_buy(w, pct, price),
        ActionSide::Sell => market_sell(w, pct, price),
        ActionSide::Hold => Some(w),
    };
    match traded {
        None => None,
        Some(w1) => with_equity(w1, price),
    }
}

/// A limit order at `price`: the account after its escrow, and the order
/// booked (its id and time left at zero), or no order where nothing would
/// be set aside.
pub open spec fn limit_outcome(w: AccountState, side: ActionSide, pct: int, price: int) -> Option<
    (AccountState, Option<Order>),
> {
    match side {
        ActionSide::Buy => {
            let spend = if w.cash > 0 { fx_mul(w.cash as int, pct) } else { 0 };
            let qty = fx_div(spend, price);
            if !(spend > 0 && price > 0) {
                Some((w, None))
            } else if in_u64(spend) && in_u64(qty) && in_i64(w.cash - spend) {
                Some(
                    (
                        AccountState { cash: (w.cash - spend) as i64, ..w },
                        Some(
                            Order {
                                id: 0,
                                side,
                                order_type: OrderType::Limit,
                                price: price as u64,
                                quantity: qty as u64,
                                reserved: spend as u64,
                                created_at: 0,
                            },
                        ),
                    ),
                )
            } else {
                None
            }
        },
        ActionSide::Sell => {
            let qty = fx_mul(w.position_qty as int, pct);
            if !(qty > 0) {
                Some((w, None))
            } else if in_u64(qty) && in_u64(w.position_qty - qty) {
                Some(
                    (
                        AccountState { position_qty: (w.position_qty - qty) as u64, ..w },
                        Some(
                            Order {
                                id: 0,
                                side,
                                order_type: OrderType::Limit,
                                price: price as u64,
                                quantity: qty as u64,
                                reserved: qty as u64,
                                created_at: 0,
                            },
                        ),
                    ),
                )
            } else {
                None
            }
        },
        ActionSide::Hold => Some((w, None)),
    }
}

/// Two orders agree on everything but their id and creation time.
pub open spec fn same_terms(a: Order, b: Order) -> bool {
    &&& a.side == b.side
    &&& a.order_type == b.order_type
    &&& a.price == b.price
    &&& a.quantity == b.quantity
    &&& a.reserved == b.reserved
}

/// `i` is the first position of an order with this id.
pub open spec fn first_with_id(orders: Seq<Order>, id: u128, i: int) -> bool {
    &&& 0 <= i < orders.len()
    &&& orders[i].id == id
    &&& forall|j: int| 0 <= j < i ==> orders[j].id != id
}

/// The account after cancelling `o`: its escrow comes back, no fee.
pub open spec fn refund(w: AccountState, o: Order) -> Option<AccountState> {
    match o.side {
        ActionSide::Buy => if in_i64(w.cash + o.reserved) {
            Some(AccountState { cash: (w.cash + o.reserved) as i64, ..w })
        } else {
            None
        },
        ActionSide::Sell => if in_u64(w.position_qty + o.reserved) {
            Some(AccountState { position_qty: (w.position_qty + o.reserved) as u64, ..w })
        } else {
            None
        },
        ActionSide::Hold => Some(w),
    }
}

fn fill_order(w: &AccountState, o: &Order) -> (r: Option<AccountState>)
    ensures
        r == fill_account(*w, *o),
{
    if o.side == ActionSide::Hold {
        return Some(*w);
    }
    let notional = mul_fx(o.price, o.quantity)?;
    let fee = mul_fx(notional, FEE_RATE)?;
    match o.side {
        ActionSide::Buy => {
            let cash = narrow_i64(w.cash as i128 - fee as i128)?;
            let existing = mul_fx(w.position_avg_price, w.position_qty)?;
            let qty = add_u64(w.position_qty, o.quantity)?;
            let total = add_u64(existing, notional)?;
            let avg = if qty > 0 {
                div_fx(total, qty)?
            } else {
                0
            };
            Some(AccountState { cash, position_qty: qty, position_avg_price: avg, ..*w })
        },
        ActionSide::Sell => {
            let cash = narrow_i64(w.cash as i128 + notional as i128 - fee as i128)?;
            Some(AccountState { cash, ..*w })
        },
        ActionSide::Hold => Some(*w),
    }
}

fn mark_equity(w: &AccountState, price: u64) -> (r: Option<AccountState>)
    ensures
        r == with_equity(*w, price as int),
{
    let value = mul_fx(w.position_qty, price)?;
    let equity = narrow_i64(w.cash as i128 + value as i128)?;
    Some(AccountState { equity, ..*w })
}

fn market_buy_exec(w: &AccountState, pct: u64, price: u64) -> (r: Option<AccountState>)
    requires
        pct <= SCALE,
    ensures
        r == market_buy(*w, pct as int, price as int),
{
    let spend: u64 = if w.cash > 0 {
        proof {
            lemma_fraction_le(w.cash as int, pct as int);
        }
        mul_fx(w.cash as u64, pct)?
    } else {
        0
    };
    if !(spend > 0 && price > 0) {
        return Some(*w);
    }
    let qty = div_fx(spend, price)?;
    let fee = mul_fx(spend, FEE_RATE)?;
    let cash = narrow_i64(w.cash as i128 - spend as i128 - fee as i128)?;
    let existing = mul_fx(w.position_avg_price, w.position_qty)?;
    let total = add_u64(existing, spend)?;
    let new_qty = add_u64(w.position_qty, qty)?;
    let avg = if new_qty > 0 {
        div_fx(total, new_qty)?
    } else {
        0
    };
    Some(AccountState { cash, position_qty: new_qty, position_avg_price: avg, ..*w })
}

fn market_sell_exec(w: &AccountState, pct: u64, price: u64) -> (r: Option<AccountState>)
    requires
        pct <= SCALE,
    ensures
        r == market_sell(*w, pct as int, price as int),
{
    proof {
        lemma_fraction_le(w.position_qty as int, pct as int);
    }
    let qty = mul_fx(w.position_qty, pct)?;
    if !(qty > 0) {
        return Some(*w);
    }
    let proceeds = mul_fx(qty, price)?;
    let fee = mul_fx(proceeds, FEE_RATE)?;
    let cash = narrow_i64(w.cash as i128 + proceeds as i128 - fee as i128)?;
    let pos = w.position_qty - qty;
    let avg = if pos == 0 { 0 } else { w.position_avg_price };
    Some(AccountState { cash, position_qty: pos, position_avg_price: avg, ..*w })
}

fn refund_exec(w: &AccountState, o: &Order) -> (r: Option<AccountState>)
    ensures
        r == refund(*w, *o),
{
    match o.side {
        ActionSide::Buy => {
            let cash = narrow_i64(w.cash as i128 + o.reserved as i128)?;
            Some(AccountState { cash, ..*w })
        },
        ActionSide::Sell => {
            let qty = add_u64(w.position_qty, o.reserved)?;
            Some(AccountState { position_qty: qty, ..*w })
        },
        ActionSide::Hold => Some(*w),
    }
}

fn limit_exec(w: &AccountState, side: ActionSide, pct: u64, price: u64) -> (r: Option<
    (AccountState, Option<Order>),
>)
    requires
        pct <= SCALE,
    ensures
        r == limit_outcome(*w, side, pct as int, price as int),
{
    match side {
        ActionSide::Buy => {
            let spend: u64 = if w.cash > 0 {
                proof {
                    lemma_fraction_le(w.cash as int, pct as int);
                }
                mul_fx(w.cash as u64, pct)?
            } else {
                0
            };
            if !(spend > 0 && price > 0) {
                return Some((*w, None));
            }
            let qty = div_fx(spend, price)?;
            let cash = narrow_i64(w.cash as i128 - spend as i128)?;
            let o = Order {
                id: 0,
                side,
                order_type: OrderType::Limit,
                price,
                quantity: qty,
                reserved: spend,
                created_at: 0,
            };
            Some((AccountState { cash, ..*w }, Some(o)))
        },
        ActionSide::Sell => {
            proof {
                lemma_fraction_le(w.position_qty as int, pct as int);
            }
            let qty = mul_fx(w.position_qty, pct)?;
            if !(qty > 0) {
                return Some((*w, None));
            }
            let o = Order {
                id: 0,
                side,
                order_type: OrderType::Limit,
                price,
                quantity: qty,
                reserved: qty,
                created_at: 0,
            };
            Some((AccountState { position_qty: w.position_qty - qty, ..*w }, Some(o)))
        },
        ActionSide::Hold => Some((*w, None)),
    }
}

fn crosses_now(o: &Order, bar: &Bar) -> (r: bool)
    ensures
        r == crosses(*o, *bar),
{
    match o.side {
        ActionSide::Buy => bar.low <= o.price,
        ActionSide::Sell => bar.high >= o.price,
        ActionSide::Hold => false,
    }
}

/// The first position of an order with this id, if any.
fn find_order(orders: &Vec<Order>, id: u128) -> (r: Option<usize>)
    ensures
        match r {
            Some(i) => first_with_id(orders@, id, i as int),
            None => forall|j: int| 0 <= j < orders@.len() ==> orders@[j].id != id,
        },
{
    let mut i: usize = 0;
    while i < orders.len()
        invariant
            i <= orders@.len(),
            forall|j: int| 0 <= j < i ==> orders@[j].id != id,
        decreases orders@.len() - i,
    {
        if orders[i].id == id {
            return Some(i);
        }
        i = i + 1;
    }
    None
}

proof fn lemma_fills_failure_stays(w: AccountState, orders: Seq<Order>, bar: Bar, i: nat)
    requires
        i <= orders.len(),
        fills(w, orders.take(i as int), bar) is None,
    ensures
        fills(w, orders, bar) is None,
    decreases orders.len() - i,
{
    if i < orders.len() {
        assert(orders.take(i + 1int).drop_last() == orders.take(i as int));
        lemma_fills_failure_stays(w, orders, bar, (i + 1) as nat);
    } else {
        assert(orders.take(i as int) == orders);
    }
}

/// The wallet and the book of `a` and `b` agree.
pub open spec fn same_book(a: &Session, b: &Session) -> bool {
    a.wallet == b.wallet && a.open_orders@ == b.open_orders@
}

/// Marks the account after a limit order where a reference price is known.
pub open spec fn limit_mark(w: AccountState, last_price: Option<u64>) -> Option<AccountState> {
    match last_price {
        None => Some(w),
        Some(p) => with_equity(w, p as int),
    }
}

impl Session {
    pub fn new(id: u128, source: MarketFeed, initial_cash: i64) -> (r: Self)
        ensures
            r.id == id,
            r.source == source,
            r.wallet == (AccountState {
                cash: initial_cash,
                position_qty: 0,
                position_avg_price: 0,
                equity: initial_cash,
                max_drawdown: 0,
            }),
            r.open_orders@.len() == 0,
            r.history@.len() == 0,
    {
        Session {
            id,
            source,
            wallet: AccountState::flat(initial_cash),
            open_orders: Vec::new(),
            history: Vec::new(),
        }
    }

    /// Fills every resting order that `candle` crosses, in order, removes
    /// them from the book, and marks the equity to the close. Where an
    /// amount would leave its range nothing changes.
    pub fn check_fills(&mut self, candle: &FeatureBar) -> (r: Result<(), ValidationError>)
        ensures
            final(self).id == old(self).id,
            final(self).source == old(self).source,
            final(self).history == old(self).history,
            r is Ok <==> fill_pass(old(self).wallet, old(self).open_orders@, candle.bar) is Some,
            r is Ok ==> {
                &&& final(self).wallet == fill_pass(
                    old(self).wallet,
                    old(self).open_orders@,
                    candle.bar,
                )->Some_0
                &&& final(self).open_orders@ == resting(old(self).open_orders@, candle.bar)
            },
            r is Err ==> r == Err::<(), ValidationError>(ValidationError::AmountOverflow)
                && same_book(final(self), old(self)),
            forall|o: Order|
                old(self).open_orders@.contains(o) && !crosses(o, candle.bar) ==> #[trigger] (*final(
                    self)).open_orders@.contains(o),
            r is Ok ==> forall|o: Order| #[trigger]
                final(self).open_orders@.contains(o) <==> old(self).open_orders@.contains(o)
                    && !crosses(o, candle.bar),
    {
        proof {
            lemma_fill_rule(self.open_orders@, candle.bar);
        }
        let bar = candle.bar;
        let mut w = self.wallet;
        let mut kept: Vec<Order> = Vec::new();
        let n = self.open_orders.len();
        let mut i: usize = 0;
        while i < n
            invariant
                n == self.open_orders@.len(),
                i <= n,
                self.open_orders@ == old(self).open_orders@,
                self.wallet == old(self).wallet,
                bar == candle.bar,
                fills(self.wallet, self.open_orders@.take(i as int), bar) == Some(w),
                kept@ == resting(self.open_orders@.take(i as int), bar),
            decreases n - i,
        {
            let o = self.open_orders[i];
            proof {
                assert(self.open_orders@.take(i + 1).drop_last() == self.open_orders@.take(
                    i as int,
                ));
                assert(self.open_orders@.take(i + 1).last() == o);
            }
            if crosses_now(&o, &bar) {
                match fill_order(&w, &o) {
                    None => {
                        proof {
                            lemma_fills_failure_stays(
                                self.wallet,
                                self.open_orders@,
                                bar,
                                (i + 1) as nat,
                            );
                        }
                        return Err(ValidationError::AmountOverflow);
                    },
                    Some(w1) => {
                        w = w1;
                    },
                }
            } else {
                kept.push(o);
            }
            i = i + 1;
        }
        proof {
            assert(self.open_orders@.take(n as int) == self.open_orders@);
        }
        match mark_equity(&w, bar.close) {
            None => Err(ValidationError::AmountOverflow),
            Some(w2) => {
                self.wallet = w2;
                self.open_orders = kept;
                Ok(())
            },
        }
    }

    /// Cancels an order, places a market or limit order, or does nothing.
    ///
    /// With `order_id`, the first open order with that id is removed and
    /// its escrow refunded (cash for a buy, units for a sell), with no fee;
    /// an unknown id changes nothing. Otherwise `size_pct` must lie in
    /// `[0, 1]`. A market order trades at `last_price` at once, and is
    /// skipped without one. A limit order needs `price`: it sets aside the
    /// cash or the units now and rests until a bar crosses it. Every error
    /// leaves the wallet and the book as they were.
    pub fn apply_action(
        &mut self,
        side: ActionSide,
        size_pct: u64,
        order_type: OrderType,
        price: Option<u64>,
        order_id: Option<u128>,
        last_price: Option<u64>,
    ) -> (r: Result<(), ValidationError>)
        ensures
            final(self).id == old(self).id,
            final(self).source == old(self).source,
            final(self).history == old(self).history,
            r is Err ==> same_book(final(self), old(self)),
            order_id matches Some(cid) ==> {
                &&& (forall|j: int|
                    0 <= j < old(self).open_orders@.len() ==> old(self).open_orders@[j].id != cid)
                    ==> r is Ok && same_book(final(self), old(self))
                &&& forall|i: int|
                    first_with_id(old(self).open_orders@, cid, i) ==> match refund(
                        old(self).wallet,
                        old(self).open_orders@[i],
                    ) {
                        None => r == Err::<(), ValidationError>(ValidationError::AmountOverflow),
                        Some(w) => {
                            &&& r is Ok
                            &&& final(self).wallet == w
                            &&& final(self).open_orders@ == old(self).open_orders@.remove(i)
                        },
                    }
            },
            order_id is None && !valid_fraction(size_pct) ==> r == Err::<(), ValidationError>(
                ValidationError::SizeOutOfRange(size_pct),
            ),
            order_id is None && valid_fraction(size_pct) && order_type == OrderType::Market
                ==> match last_price {
                None => r is Ok && same_book(final(self), old(self)),
                Some(p) => match market_outcome(old(self).wallet, side, size_pct as int, p as int) {
                    None => r == Err::<(), ValidationError>(ValidationError::AmountOverflow),
                    Some(w) => {
                        &&& r is Ok
                        &&& final(self).wallet == w
                        &&& final(self).open_orders@ == old(self).open_orders@
                    },
                },
            },
            order_id is None && valid_fraction(size_pct) && order_type == OrderType::Limit
                ==> match price {
                None => r == Err::<(), ValidationError>(ValidationError::MissingLimitPrice),
                Some(p) => match limit_outcome(old(self).wallet, side, size_pct as int, p as int) {
                    None => r == Err::<(), ValidationError>(ValidationError::AmountOverflow),
                    Some((w1, placed)) => match limit_mark(w1, last_price) {
                        None => r == Err::<(), ValidationError>(ValidationError::AmountOverflow),
                        Some(w2) => (r is Err && placed is Some ==> r == Err::<(), ValidationError>(
                            ValidationError::OrderIdTaken,
                        ) && old(self).open_orders@.len() > 0) && (r is Ok || placed is Some) && (
                        r is Ok ==> {
                            &&& final(self).wallet == w2
                            &&& match placed {
                                None => final(self).open_orders@ == old(self).open_orders@,
                                Some(t) => {
                                    &&& final(self).open_orders@.len() == old(
                                        self,
                                    ).open_orders@.len() + 1
                                    &&& final(self).open_orders@.drop_last()
                                        == old(self).open_orders@
                                    &&& same_terms(final(self).open_orders@.last(), t)
                                    &&& forall|j: int|
                                        0 <= j < old(self).open_orders@.len() ==> old(
                                            self,
                                        ).open_orders@[j].id != final(self).open_orders@.last().id
                                },
                            }
                        }),
                    },
                },
            },
    {
        if let Some(cancel_id) = order_id {
            if let Some(pos) = find_order(&self.open_orders, cancel_id) {
                let order = self.open_orders[pos];
                match refund_exec(&self.wallet, &order) {
                    None => return Err(ValidationError::AmountOverflow),
                    Some(w) => {
                        self.open_orders.remove(pos);
                        self.wallet = w;
                    },
                }
            }
            return Ok(());
        }
        validate_fraction(size_pct)?;
        match order_type {
            OrderType::Market => {
                if let Some(ref_price) = last_price {
                    let traded = match side {
                        ActionSide::Buy => market_buy_exec(&self.wallet, size_pct, ref_price),
                        ActionSide::Sell => market_sell_exec(&self.wallet, size_pct, ref_price),
                        ActionSide::Hold => Some(self.wallet),
                    };
                    let w1 = match traded {
                        None => return Err(ValidationError::AmountOverflow),
                        Some(w1) => w1,
                    };
                    match mark_equity(&w1, ref_price) {
                        None => return Err(ValidationError::AmountOverflow),
                        Some(w2) => {
                            self.wallet = w2;
                        },
                    }
                }
                Ok(())
            },
            OrderType::Limit => {
                let p = match price {
                    Some(p) => p,
                    None => return Err(ValidationError::MissingLimitPrice),
                };
                let (w1, placed) = match limit_exec(&self.wallet, side, size_pct, p) {
                    None => return Err(ValidationError::AmountOverflow),
                    Some(x) => x,
                };
                let w2 = match last_price {
                    None => w1,
                    Some(lp) => match mark_equity(&w1, lp) {
                        None => return Err(ValidationError::AmountOverflow),
                        Some(w2) => w2,
                    },
                };
                if let Some(t) = placed {
                    let id = fresh_uuid();
                    if find_order(&self.open_orders, id).is_some() {
                        return Err(ValidationError::OrderIdTaken);
                    }
                    let o = Order { id, created_at: now_millis(), ..t };
                    self.open_orders.push(o);
                    proof {
                        assert(self.open_orders@.drop_last() == old(self).open_orders@);
                    }
                }
                self.wallet = w2;
                Ok(())
            },
        }
    }

    /// Marks the equity to `mark_price`; where it would leave its range the
    /// account is left as it was and `false` comes back.
    pub fn recalc_equity(&mut self, mark_price: u64) -> (r: bool)
        ensures
            final(self).id == old(self).id,
            final(self).source == old(self).source,
            final(self).history == old(self).history,
            final(self).open_orders == old(self).open_orders,
            r == with_equity(old(self).wallet, mark_price as int) is Some,
            r ==> final(self).wallet == with_equity(old(self).wallet, mark_price as int)->Some_0,
            !r ==> final(self).wallet == old(self).wallet,
    {
        match mark_equity(&self.wallet, mark_price) {
            None => false,
            Some(w) => {
                self.wallet = w;
                true
            },
        }
    }
}

/// A limit buy fills exactly when the bar's low reaches its price, a limit
/// sell exactly when the bar's high does; every other order rests, in its
/// place, however many passes it goes through.
pub proof fn lemma_fill_rule(orders: Seq<Order>, bar: Bar)
    ensures
        forall|o: Order| #[trigger]
            resting(orders, bar).contains(o) <==> orders.contains(o) && !crosses(o, bar),
        resting(resting(orders, bar), bar) == resting(orders, bar),
    decreases orders.len(),
{
    if orders.len() > 0 {
        let init = orders.drop_last();
        lemma_fill_rule(init, bar);
        assert(orders == init.push(orders.last()));
        assert forall|o: Order| #[trigger]
            resting(orders, bar).contains(o) <==> orders.contains(o) && !crosses(o, bar) by {
            if orders.contains(o) {
                let k = choose|k: int| 0 <= k < orders.len() && orders[k] == o;
                if k < orders.len() - 1 {
                    assert(init[k] == o);
                }
            }
            if init.contains(o) {
                let k = choose|k: int| 0 <= k < init.len() && init[k] == o;
                assert(orders[k] == o);
            }
            if !crosses(orders.last(), bar) {
                let rest = resting(init, bar);
                if rest.push(orders.last()).contains(o) {
                    let k = choose|k: int| 0 <= k < rest.len() + 1 && rest.push(orders.last())[k]
                        == o;
                    if k < rest.len() {
                        assert(rest[k] == o);
                    }
                }
                if rest.contains(o) {
                    let k = choose|k: int| 0 <= k < rest.len() && rest[k] == o;
                    assert(rest.push(orders.last())[k] == o);
                }
                assert(rest.push(orders.last())[rest.len() as int] == orders.last());
            }
            assert(orders[orders.len() - 1] == orders.last());
        }
        lemma_resting_idempotent(orders, bar);
    }
}

/// Cancelling a limit order gives back exactly what placing it set aside:
/// the wallet returns to what it was before the order, with no fee.
pub proof fn lemma_cancel_restores_escrow(w: AccountState, side: ActionSide, pct: int, price: int)
    requires
        0 <= pct <= SCALE,
        limit_outcome(w, side, pct, price) matches Some((_, Some(_))),
    ensures
        ({
            let (w1, placed) = limit_outcome(w, side, pct, price)->Some_0;
            refund(w1, placed->Some_0) == Some(w)
        }),
{
}

proof fn lemma_resting_idempotent(orders: Seq<Order>, bar: Bar)
    ensures
        resting(resting(orders, bar), bar) == resting(orders, bar),
    decreases orders.len(),
{
    if orders.len() > 0 {
        let init = orders.drop_last();
        lemma_resting_idempotent(init, bar);
        if !crosses(orders.last(), bar) {
            let rest = resting(init, bar);
            assert(rest.push(orders.last()).drop_last() == rest);
        }
    }
}

} // verus!
