//! Trading a market: what is bought on a snapshot, what is held, and what a
//! market that closed has earned.
use crate::binary64::{
    at_most, difference, equals, less, maximum, product, quotient, ratio, rounded, sum, whole,
    Binary64,
};
use crate::models::{
    any_won, has_won, is_resolved, price_view, price_wf, token_views, token_won, MarketDetails,
    PriceView, TokenPrice, TokenView,
};
use crate::monitor::MarketSnapshot;
use crate::strategy::{
    decide, decision, history_after, look_at, min_order_notional, min_order_notional_usdc, opposite,
    order_amount, order_size, other_side, outlook, read_trend, size_of_order, trend_of, wave_after,
    zero, zero_value, Decision, Outlook, Position, Settings, Side, Tick, Trend, WaveState,
    PRICE_HISTORY_LEN,
};
use crate::table::Table;
use crate::text::{contains, decimal, decimal_of, holds, optional, to_uppercase, uppercase};
use vstd::prelude::*;
use vstd::string::StringExecFns;

verus! {

/// When a market was last bought, and in which period.
#[derive(Debug, Clone, Copy, PartialEq, Eq, Structural)]
pub struct LastBuy {
    pub time: u64,
    pub period: u64,
}

impl View for LastBuy {
    type V = LastBuy;

    open spec fn view(&self) -> LastBuy {
        *self
    }
}

/// The last prices of a market.
pub struct History {
    pub ticks: Vec<Tick>,
}

impl View for History {
    type V = Seq<Tick>;

    open spec fn view(&self) -> Seq<Tick> {
        self.ticks@
    }
}

/// What was bought of a market in one period.
pub struct CycleTrade {
    pub condition_id: String,
    pub period_timestamp: u64,
    pub market_duration_secs: u64,
    pub up_token_id: Option<String>,
    pub down_token_id: Option<String>,
    pub position: Position,
}

/// What a trade holds.
pub struct TradeView {
    pub condition_id: Seq<char>,
    pub period_timestamp: u64,
    pub market_duration_secs: u64,
    pub up_token_id: Option<Seq<char>>,
    pub down_token_id: Option<Seq<char>>,
    pub position: Position,
}

impl View for CycleTrade {
    type V = TradeView;

    open spec fn view(&self) -> TradeView {
        TradeView {
            condition_id: self.condition_id@,
            period_timestamp: self.period_timestamp,
            market_duration_secs: self.market_duration_secs,
            up_token_id: optional(self.up_token_id),
            down_token_id: optional(self.down_token_id),
            position: self.position,
        }
    }
}

impl TradeView {
    /// The market has an end that can be told.
    pub open spec fn wf(self) -> bool {
        self.period_timestamp + self.market_duration_secs <= u64::MAX
    }

    /// The market has ended.
    pub open spec fn ended(self, now: u64) -> bool {
        now >= self.period_timestamp + self.market_duration_secs
    }

    pub open spec fn token_id(self, side: Side) -> Option<Seq<char>> {
        match side {
            Side::Up => self.up_token_id,
            Side::Down => self.down_token_id,
        }
    }
}

/// A snapshot as the trader reads it.
pub struct SnapshotView {
    pub market_name: Seq<char>,
    pub condition_id: Seq<char>,
    pub up: Option<PriceView>,
    pub down: Option<PriceView>,
    pub time_remaining: u64,
    pub period: u64,
    pub duration: u64,
}

impl View for MarketSnapshot {
    type V = SnapshotView;

    open spec fn view(&self) -> SnapshotView {
        SnapshotView {
            market_name: self.market_name@,
            condition_id: self.btc_market_15m.condition_id@,
            up: price_view(self.btc_market_15m.up_token),
            down: price_view(self.btc_market_15m.down_token),
            time_remaining: self.btc_15m_time_remaining,
            period: self.btc_15m_period_timestamp,
            duration: self.market_duration_secs,
        }
    }
}

impl SnapshotView {
    /// The prices are decimal numbers of the exchange, and the period has an end
    /// that can be told.
    pub open spec fn wf(self) -> bool {
        price_wf(self.up) && price_wf(self.down) && self.period + self.duration <= u64::MAX
    }

    /// The ask of a side, zero where there is none.
    pub open spec fn ask(self, side: Side) -> Binary64 {
        let price = match side {
            Side::Up => self.up,
            Side::Down => self.down,
        };
        match price {
            Some(p) => p.ask_price().nearest_binary64(),
            None => zero(),
        }
    }

    /// The token of a side.
    pub open spec fn token_id(self, side: Side) -> Seq<char> {
        let price = match side {
            Side::Up => self.up,
            Side::Down => self.down,
        };
        match price {
            Some(p) => p.token_id,
            None => Seq::empty(),
        }
    }

    /// The market and its period.
    pub open spec fn key(self) -> Seq<char> {
        market_key(self.condition_id, self.period)
    }

    /// A market of an hour, by its length or by its name.
    pub open spec fn is_hourly(self) -> bool {
        self.duration >= 3600 || contains(uppercase(self.market_name), "1H"@)
    }
}

/// The text under which a market and a period are kept.
pub open spec fn market_key(condition_id: Seq<char>, period: u64) -> Seq<char> {
    condition_id + ":"@ + decimal(period as nat)
}

/// What a purchase makes of a position.
#[derive(Debug, Clone, Copy, PartialEq, Eq, Structural)]
pub struct BuyReport {
    /// The amount that was called for, and the one that is ordered.
    pub order_amount_raw: Binary64,
    pub order_amount: Binary64,
    /// What a pair costs, the ask where there is none.
    pub cost_per_pair: Binary64,
    pub up_shares: Binary64,
    pub up_avg: Binary64,
    pub down_shares: Binary64,
    pub down_avg: Binary64,
    pub invest_up: Binary64,
    pub invest_down: Binary64,
    pub total_invest: Binary64,
    pub pnl_if_up_wins: Binary64,
    pub pnl_if_down_wins: Binary64,
}

/// A purchase that is to be made.
pub struct PendingBuy {
    pub market_name: String,
    pub condition_id: String,
    pub period_timestamp: u64,
    pub market_duration_secs: u64,
    pub side: Side,
    pub token_id: String,
    pub size: Binary64,
    pub price: Binary64,
    pub lock: bool,
    pub trend: Trend,
    /// Nothing was held before.
    pub no_position: bool,
    /// The shares to order, unless purchases are only simulated.
    pub order_shares: Option<Binary64>,
    pub report: BuyReport,
}

/// What a purchase holds.
pub struct BuyView {
    pub market_name: Seq<char>,
    pub condition_id: Seq<char>,
    pub period_timestamp: u64,
    pub market_duration_secs: u64,
    pub side: Side,
    pub token_id: Seq<char>,
    pub size: Binary64,
    pub price: Binary64,
    pub lock: bool,
    pub trend: Trend,
    pub no_position: bool,
    pub order_shares: Option<Binary64>,
    pub report: BuyReport,
}

impl View for PendingBuy {
    type V = BuyView;

    open spec fn view(&self) -> BuyView {
        BuyView {
            market_name: self.market_name@,
            condition_id: self.condition_id@,
            period_timestamp: self.period_timestamp,
            market_duration_secs: self.market_duration_secs,
            side: self.side,
            token_id: self.token_id@,
            size: self.size,
            price: self.price,
            lock: self.lock,
            trend: self.trend,
            no_position: self.no_position,
            order_shares: self.order_shares,
            report: self.report,
        }
    }
}

impl BuyView {
    /// The market has an end that can be told.
    pub open spec fn wf(self) -> bool {
        self.period_timestamp + self.market_duration_secs <= u64::MAX
    }
}

/// What a purchase of a side makes of a position.
pub open spec fn report(
    p: Position,
    side: Side,
    own: Outlook,
    order_amount_raw: Binary64,
    order_amount: Binary64,
) -> BuyReport {
    let own_avg = quotient(own.cost_after, own.shares_after);
    let other = opposite(side);
    let other_avg = if less(zero(), p.shares(other)) {
        p.avg_price(other)
    } else {
        zero()
    };
    let up = side == Side::Up;
    let invest_up = if up {
        own.cost_after
    } else {
        p.cost(Side::Up)
    };
    let invest_down = if up {
        p.cost(Side::Down)
    } else {
        own.cost_after
    };
    let up_shares = if up {
        own.shares_after
    } else {
        p.up_shares
    };
    let down_shares = if up {
        p.down_shares
    } else {
        own.shares_after
    };
    let total = sum(invest_up, invest_down);
    BuyReport {
        order_amount_raw,
        order_amount,
        cost_per_pair: if less(zero(), own.pairs_after) {
            own.cost_per_pair
        } else {
            own.ask
        },
        up_shares,
        up_avg: if up {
            own_avg
        } else {
            other_avg
        },
        down_shares,
        down_avg: if up {
            other_avg
        } else {
            own_avg
        },
        invest_up,
        invest_down,
        total_invest: total,
        pnl_if_up_wins: difference(up_shares, total),
        pnl_if_down_wins: difference(down_shares, total),
    }
}

/// The shares that are ordered, in ten-thousandths of a share.
pub open spec fn ordered_shares(size: Binary64) -> Binary64 {
    quotient(rounded(product(size, whole(10000))), whole(10000))
}

/// The purchase that is there, if any.
pub open spec fn buy_view(b: Option<PendingBuy>) -> Option<BuyView> {
    match b {
        Some(b) => Some(b@),
        None => None,
    }
}

/// A trader: what it is set to, and what it remembers of each market.
pub struct Trader {
    pub simulation_mode: bool,
    pub settings: Settings,
    pub last_buy: Table<LastBuy>,
    pub trades: Table<CycleTrade>,
    pub total_profit: Binary64,
    pub period_profit: Binary64,
    pub closure_checked: Table<bool>,
    pub price_history: Table<History>,
    pub wave_state: Table<WaveState>,
}

/// What a trader remembers.
#[verifier::ext_equal]
pub struct TraderView {
    pub simulation_mode: bool,
    pub settings: Settings,
    pub last_buy: Map<Seq<char>, LastBuy>,
    pub trades: Map<Seq<char>, TradeView>,
    pub total_profit: Binary64,
    pub period_profit: Binary64,
    pub closure_checked: Map<Seq<char>, bool>,
    pub price_history: Map<Seq<char>, Seq<Tick>>,
    pub wave_state: Map<Seq<char>, WaveState>,
}

impl View for Trader {
    type V = TraderView;

    open spec fn view(&self) -> TraderView {
        TraderView {
            simulation_mode: self.simulation_mode,
            settings: self.settings,
            last_buy: self.last_buy@,
            trades: self.trades@,
            total_profit: self.total_profit,
            period_profit: self.period_profit,
            closure_checked: self.closure_checked@,
            price_history: self.price_history@,
            wave_state: self.wave_state@,
        }
    }
}

impl TraderView {
    /// Nothing is held and nothing is remembered.
    pub open spec fn start(simulation_mode: bool, settings: Settings) -> TraderView {
        TraderView {
            simulation_mode,
            settings,
            last_buy: Map::empty(),
            trades: Map::empty(),
            total_profit: zero(),
            period_profit: zero(),
            closure_checked: Map::empty(),
            price_history: Map::empty(),
            wave_state: Map::empty(),
        }
    }

    /// What a trader keeps: no more prices than are looked back on, counts
    /// within their limits, markets whose end can be told, and one profit.
    pub open spec fn wf(self) -> bool {
        &&& forall|k: Seq<char>| #[trigger]
            self.price_history.contains_key(k) ==> self.price_history[k].len() <= PRICE_HISTORY_LEN
        &&& forall|k: Seq<char>| #[trigger]
            self.wave_state.contains_key(k) ==> self.wave_state[k].wf()
        &&& forall|k: Seq<char>| #[trigger] self.trades.contains_key(k) ==> self.trades[k].wf()
        &&& self.total_profit == self.period_profit
    }

    /// What is held of a market in a period.
    pub open spec fn position(self, key: Seq<char>) -> Position {
        if self.trades.contains_key(key) {
            self.trades[key].position
        } else {
            Position::empty()
        }
    }

    /// The counts of a market in a period.
    pub open spec fn wave(self, key: Seq<char>) -> WaveState {
        if self.wave_state.contains_key(key) {
            self.wave_state[key]
        } else {
            WaveState::start()
        }
    }

    /// The last prices of a market in a period.
    pub open spec fn history(self, key: Seq<char>) -> Seq<Tick> {
        if self.price_history.contains_key(key) {
            self.price_history[key]
        } else {
            Seq::empty()
        }
    }

    /// The amount of an order on a snapshot.
    pub open spec fn amount(self, s: SnapshotView) -> Binary64 {
        maximum(order_amount(self.settings, s.time_remaining), min_order_notional())
    }

    /// The shares of a side that are ordered on a snapshot.
    pub open spec fn size(self, s: SnapshotView, side: Side) -> Binary64 {
        order_size(self.amount(s), s.ask(side))
    }

    /// A snapshot can be traded on: the market is open, both sides have an ask,
    /// and there is something to order; and nothing is held yet, where one
    /// purchase in a period is enough.
    pub open spec fn tradable(self, s: SnapshotView, one_shot: bool) -> bool {
        &&& s.time_remaining != 0
        &&& !at_most(s.ask(Side::Up), zero())
        &&& !at_most(s.ask(Side::Down), zero())
        &&& !(one_shot && self.position(s.key()).is_held())
        &&& !at_most(self.size(s, Side::Up), zero())
        &&& !at_most(self.size(s, Side::Down), zero())
    }

    /// The trader after prices were added to those under a key.
    pub open spec fn ticked(self, key: Seq<char>, tick: Tick) -> TraderView {
        TraderView {
            price_history: self.price_history.insert(key, history_after(self.history(key), tick)),
            ..self
        }
    }

    /// The trader after it has seen the prices of a snapshot.
    pub open spec fn seen(self, s: SnapshotView, now: u64) -> TraderView {
        self.ticked(
            s.key(),
            Tick { time: now, up: s.ask(Side::Up), down: s.ask(Side::Down) },
        )
    }

    /// A side as the decision on a snapshot sees it.
    pub open spec fn outlook(self, s: SnapshotView, side: Side) -> Outlook {
        outlook(self.settings, self.position(s.key()), side, s.ask(side), self.size(s, side))
    }

    /// What is decided on a snapshot whose prices have been seen.
    pub open spec fn decision(self, s: SnapshotView) -> Decision {
        decision(
            self.outlook(s, Side::Up),
            self.outlook(s, Side::Down),
            trend_of(self.history(s.key())),
            self.wave(s.key()),
        )
    }

    /// The seconds that are to pass between two purchases.
    pub open spec fn cooldown(self, s: SnapshotView) -> u64 {
        if s.is_hourly() {
            self.settings.cooldown_seconds_1h
        } else {
            self.settings.cooldown_seconds
        }
    }

    /// The market was last bought in this period.
    pub open spec fn bought_in_period(self, s: SnapshotView) -> bool {
        self.last_buy.contains_key(s.condition_id) && self.last_buy[s.condition_id].period
            == s.period
    }

    /// The last purchase of the market in this period is too recent.
    pub open spec fn cooling(self, s: SnapshotView, now: u64) -> bool {
        self.bought_in_period(s) && now < self.last_buy[s.condition_id].time + self.cooldown(s)
    }

    /// The trader after a purchase was set out. With the first one of a period
    /// the purchases of other markets are forgotten.
    pub open spec fn marked(self, s: SnapshotView, now: u64) -> TraderView {
        let known = if self.bought_in_period(s) {
            self.last_buy
        } else {
            Map::empty()
        };
        TraderView {
            last_buy: known.insert(s.condition_id, LastBuy { time: now, period: s.period }),
            ..self
        }
    }

    /// The purchase of a side on a snapshot whose prices have been seen.
    pub open spec fn buy(self, s: SnapshotView, side: Side, lock: bool) -> BuyView {
        BuyView {
            market_name: s.market_name,
            condition_id: s.condition_id,
            period_timestamp: s.period,
            market_duration_secs: s.duration,
            side,
            token_id: s.token_id(side),
            size: self.size(s, side),
            price: s.ask(side),
            lock,
            trend: trend_of(self.history(s.key())),
            no_position: self.position(s.key()).is_empty(),
            order_shares: if self.simulation_mode {
                None
            } else {
                Some(ordered_shares(self.size(s, side)))
            },
            report: report(
                self.position(s.key()),
                side,
                self.outlook(s, side),
                order_amount(self.settings, s.time_remaining),
                self.amount(s),
            ),
        }
    }

    /// What a snapshot makes of the trader, and the purchase it calls for.
    pub open spec fn plan(self, s: SnapshotView, now: u64, one_shot: bool) -> (
        TraderView,
        Option<BuyView>,
    ) {
        if !self.tradable(s, one_shot) {
            (self, None)
        } else {
            let t = self.seen(s, now);
            match t.decision(s) {
                Decision::Hold => (t, None),
                Decision::Buy { side, lock } => if t.cooling(s, now) {
                    (t, None)
                } else {
                    (t.marked(s, now), Some(t.buy(s, side, lock)))
                },
            }
        }
    }

    /// The trade of a market in a period with more shares.
    pub open spec fn traded(
        self,
        condition_id: Seq<char>,
        period: u64,
        duration: u64,
        side: Side,
        token_id: Seq<char>,
        shares: Binary64,
        price: Binary64,
    ) -> TradeView {
        let key = market_key(condition_id, period);
        let trade = if self.trades.contains_key(key) {
            self.trades[key]
        } else {
            TradeView {
                condition_id,
                period_timestamp: period,
                market_duration_secs: duration,
                up_token_id: None,
                down_token_id: None,
                position: Position::empty(),
            }
        };
        let position = trade.position.bought(side, shares, price);
        match side {
            Side::Up => TradeView { up_token_id: Some(token_id), position, ..trade },
            Side::Down => TradeView { down_token_id: Some(token_id), position, ..trade },
        }
    }

    /// The trader after shares were added to a trade.
    pub open spec fn recorded(
        self,
        condition_id: Seq<char>,
        period: u64,
        duration: u64,
        side: Side,
        token_id: Seq<char>,
        shares: Binary64,
        price: Binary64,
    ) -> TraderView {
        TraderView {
            trades: self.trades.insert(
                market_key(condition_id, period),
                self.traded(condition_id, period, duration, side, token_id, shares, price),
            ),
            ..self
        }
    }

    /// The trader after a purchase was made and counted.
    pub open spec fn finished(self, b: BuyView) -> TraderView {
        let key = market_key(b.condition_id, b.period_timestamp);
        TraderView {
            wave_state: self.wave_state.insert(
                key,
                wave_after(self.wave(key), b.side, b.lock, b.trend, b.no_position),
            ),
            ..self.recorded(
                b.condition_id,
                b.period_timestamp,
                b.market_duration_secs,
                b.side,
                b.token_id,
                b.size,
                b.price,
            )
        }
    }

    /// The condition has been settled since the period began.
    pub open spec fn is_checked(self, condition_id: Seq<char>) -> bool {
        self.closure_checked.contains_key(condition_id) && self.closure_checked[condition_id]
    }

    /// The trade is to be settled if its market has closed.
    pub open spec fn due(self, key: Seq<char>, now: u64) -> bool {
        self.trades.contains_key(key) && self.trades[key].ended(now) && !self.is_checked(
            self.trades[key].condition_id,
        )
    }

    /// The trader after a trade was settled with a profit.
    pub open spec fn settled(self, key: Seq<char>, pnl: Binary64) -> TraderView {
        TraderView {
            total_profit: sum(self.total_profit, pnl),
            period_profit: sum(self.period_profit, pnl),
            closure_checked: self.closure_checked.insert(self.trades[key].condition_id, true),
            trades: self.trades.remove(key),
            ..self
        }
    }
}

/// The side that won, as far as a trade knows its token.
pub open spec fn winner(trade: TradeView, tokens: Seq<TokenView>) -> Option<Side> {
    if trade.up_token_id is Some && has_won(tokens, trade.up_token_id->0) {
        Some(Side::Up)
    } else if trade.down_token_id is Some && has_won(tokens, trade.down_token_id->0) {
        Some(Side::Down)
    } else {
        None
    }
}

/// What a trade pays: 1 for each share of the side that won.
pub open spec fn payout(trade: TradeView, winner: Option<Side>) -> Binary64 {
    match winner {
        Some(side) => trade.position.shares(side),
        None => zero(),
    }
}

/// What a trade has earned: what it pays less what it cost.
pub open spec fn actual_pnl(trade: TradeView, winner: Option<Side>) -> Binary64 {
    difference(payout(trade, winner), trade.position.total_cost())
}

/// The side whose token is redeemed: the one that won, but down where hardly
/// any share of up is held.
pub open spec fn redeemed_side(trade: TradeView, winner: Side) -> Side {
    if winner == Side::Up && less(ratio(1, 1000), trade.position.up_shares) {
        Side::Up
    } else {
        Side::Down
    }
}

/// A trade that was settled.
pub struct Settlement {
    pub condition_id: String,
    pub winner: Option<Side>,
    pub position: Position,
    pub total_cost: Binary64,
    pub payout: Binary64,
    pub pnl: Binary64,
    /// The token to redeem, and its side.
    pub redeem: Option<(String, Side)>,
}

/// What a settled trade tells.
pub struct SettlementView {
    pub condition_id: Seq<char>,
    pub winner: Option<Side>,
    pub position: Position,
    pub total_cost: Binary64,
    pub payout: Binary64,
    pub pnl: Binary64,
    pub redeem: Option<(Seq<char>, Side)>,
}

impl View for Settlement {
    type V = SettlementView;

    open spec fn view(&self) -> SettlementView {
        SettlementView {
            condition_id: self.condition_id@,
            winner: self.winner,
            position: self.position,
            total_cost: self.total_cost,
            payout: self.payout,
            pnl: self.pnl,
            redeem: match self.redeem {
                Some(r) => Some((r.0@, r.1)),
                None => None,
            },
        }
    }
}

/// What is told of a trade once its market has closed. A token is redeemed where
/// one has won and orders are placed in earnest.
pub open spec fn settlement(
    trade: TradeView,
    tokens: Seq<TokenView>,
    simulation_mode: bool,
) -> SettlementView {
    let winner = winner(trade, tokens);
    SettlementView {
        condition_id: trade.condition_id,
        winner,
        position: trade.position,
        total_cost: trade.position.total_cost(),
        payout: payout(trade, winner),
        pnl: actual_pnl(trade, winner),
        redeem: if !simulation_mode && winner is Some {
            let side = redeemed_side(trade, winner->0);
            Some((
                match trade.token_id(side) {
                    Some(id) => id,
                    None => Seq::empty(),
                },
                side,
            ))
        } else {
            None
        },
    }
}

/// The same text again, if any.
fn copied_text(s: &Option<String>) -> (r: Option<String>)
    ensures
        optional(r) == optional(*s),
{
    match s {
        Some(s) => Some(s.clone()),
        None => None,
    }
}

/// The text, empty where there is none.
fn given(s: &Option<String>) -> (r: String)
    ensures
        r@ == (match optional(*s) {
            Some(s) => s,
            None => Seq::empty(),
        }),
{
    match s {
        Some(s) => s.clone(),
        None => String::new(),
    }
}

impl CycleTrade {
    /// The same trade again.
    pub fn copied(&self) -> (r: CycleTrade)
        ensures
            r@ == self@,
    {
        CycleTrade {
            condition_id: self.condition_id.clone(),
            period_timestamp: self.period_timestamp,
            market_duration_secs: self.market_duration_secs,
            up_token_id: copied_text(&self.up_token_id),
            down_token_id: copied_text(&self.down_token_id),
            position: self.position,
        }
    }
}

/// The shares to order, in ten-thousandths of a share.
fn round_shares(size: Binary64) -> (r: Binary64)
    ensures
        r == ordered_shares(size),
{
    let parts: Binary64 = Binary64::from_u64(10000);
    size.times(parts).round().over(parts)
}

/// The ask of a token, zero where there is none.
fn asked(token: &Option<TokenPrice>) -> (r: Binary64)
    requires
        price_wf(price_view(*token)),
    ensures
        r == (match price_view(*token) {
            Some(p) => p.ask_price().nearest_binary64(),
            None => zero(),
        }),
{
    match token {
        Some(t) => t.ask_price().to_binary64(),
        None => zero_value(),
    }
}

/// The id of a token, empty where there is none.
fn named(token: &Option<TokenPrice>) -> (r: String)
    ensures
        r@ == (match price_view(*token) {
            Some(p) => p.token_id,
            None => Seq::empty(),
        }),
{
    match token {
        Some(t) => t.token_id.clone(),
        None => String::new(),
    }
}

/// The text under which a market and a period are kept.
pub fn key_of(condition_id: &str, period: u64) -> (r: String)
    ensures
        r@ == market_key(condition_id@, period),
{
    let mut r: String = String::from_str(condition_id);
    r.append(":");
    r.append(decimal_of(period).as_str());
    r
}

/// A run of prices with one more at its end.
fn longer_history(ticks: &Vec<Tick>, tick: Tick) -> (r: Vec<Tick>)
    ensures
        r@ == history_after(ticks@, tick),
{
    let n: usize = ticks.len();
    let start: usize = if n >= PRICE_HISTORY_LEN {
        n - PRICE_HISTORY_LEN + 1
    } else {
        0
    };
    let mut r: Vec<Tick> = Vec::new();
    let mut i: usize = start;
    while i < n
        invariant
            start <= i <= n,
            n == ticks@.len(),
            r@ == ticks@.subrange(start as int, i as int),
        decreases n - i,
    {
        r.push(ticks[i]);
        i = i + 1;
        proof {
            assert(r@ =~= ticks@.subrange(start as int, i as int));
        }
    }
    r.push(tick);
    proof {
        assert(r@ =~= history_after(ticks@, tick));
    }
    r
}

impl Trader {
    /// The tables hold each key once, and what they hold keeps to its limits.
    pub open spec fn wf(&self) -> bool {
        &&& self.last_buy.wf()
        &&& self.trades.wf()
        &&& self.closure_checked.wf()
        &&& self.price_history.wf()
        &&& self.wave_state.wf()
        &&& self@.wf()
    }

    /// A trader that holds nothing.
    pub fn new(
        simulation_mode: bool,
        cost_per_pair_max: Binary64,
        min_side_price: Binary64,
        max_side_price: Binary64,
        cooldown_seconds: u64,
        cooldown_seconds_1h: u64,
        order_amount_usdc: Option<Binary64>,
        size_reduce_after_secs: u64,
        size_min_ratio: Binary64,
        size_min_amount_usdc: Binary64,
    ) -> (r: Trader)
        ensures
            r.wf(),
            r@ == TraderView::start(
                simulation_mode,
                (Settings {
                    cost_per_pair_max,
                    min_side_price,
                    max_side_price,
                    cooldown_seconds,
                    cooldown_seconds_1h,
                    order_amount_usdc,
                    size_reduce_after_secs,
                    size_min_ratio,
                    size_min_amount_usdc,
                }),
            ),
    {
        let settings: Settings = Settings {
            cost_per_pair_max,
            min_side_price,
            max_side_price,
            cooldown_seconds,
            cooldown_seconds_1h,
            order_amount_usdc,
            size_reduce_after_secs,
            size_min_ratio,
            size_min_amount_usdc,
        };
        Trader {
            simulation_mode,
            settings,
            last_buy: Table::new(),
            trades: Table::new(),
            total_profit: zero_value(),
            period_profit: zero_value(),
            closure_checked: Table::new(),
            price_history: Table::new(),
            wave_state: Table::new(),
        }
    }

    /// What is held under a key.
    pub fn position_under(&self, key: &str) -> (r: Position)
        requires
            self.wf(),
        ensures
            r == self@.position(key@),
    {
        match self.trades.get(key) {
            Some(t) => t.position,
            None => Position::none(),
        }
    }

    /// The counts under a key.
    pub fn wave_under(&self, key: &str) -> (r: WaveState)
        requires
            self.wf(),
        ensures
            r == self@.wave(key@),
            r.wf(),
    {
        match self.wave_state.get(key) {
            Some(w) => *w,
            None => WaveState::new(),
        }
    }

    /// Adds prices to those of a market, and tells where they are going.
    pub fn update_trend(
        &mut self,
        market_key: &str,
        current_time: u64,
        up_ask: Binary64,
        down_ask: Binary64,
    ) -> (r: Trend)
        requires
            old(self).wf(),
        ensures
            final(self).wf(),
            final(self)@ == old(self)@.ticked(
                market_key@,
                (Tick { time: current_time, up: up_ask, down: down_ask }),
            ),
            r == trend_of(final(self)@.history(market_key@)),
    {
        let tick: Tick = Tick { time: current_time, up: up_ask, down: down_ask };
        let ticks: Vec<Tick> = match self.price_history.get(market_key) {
            Some(h) => longer_history(&h.ticks, tick),
            None => {
                let none: Vec<Tick> = Vec::new();
                longer_history(&none, tick)
            },
        };
        proof {
            assert(ticks@ == history_after(old(self)@.history(market_key@), tick));
        }
        let trend: Trend = read_trend(&ticks);
        self.price_history.insert(market_key, History { ticks });
        trend
    }

    /// The seconds that are to pass between two purchases.
    fn cooldown_for(&self, snapshot: &MarketSnapshot) -> (r: u64)
        ensures
            r == self@.cooldown(snapshot@),
    {
        if snapshot.market_duration_secs >= 3600 || holds(
            to_uppercase(snapshot.market_name.as_str()).as_str(),
            "1H",
        ) {
            self.settings.cooldown_seconds_1h
        } else {
            self.settings.cooldown_seconds
        }
    }

    /// Sets the time of a purchase, unless the last one in this period is too
    /// recent; tells whether it did.
    fn mark_buy(&mut self, snapshot: &MarketSnapshot, current_time: u64) -> (r: bool)
        requires
            old(self).wf(),
        ensures
            final(self).wf(),
            r == !old(self)@.cooling(snapshot@, current_time),
            r ==> final(self)@ == old(self)@.marked(snapshot@, current_time),
            !r ==> final(self)@ == old(self)@,
    {
        let condition_id: &str = snapshot.btc_market_15m.condition_id.as_str();
        let period: u64 = snapshot.btc_15m_period_timestamp;
        let cooldown: u64 = self.cooldown_for(snapshot);
        let same_period: bool = match self.last_buy.get(condition_id) {
            Some(last) => {
                if last.period == period && (current_time < last.time || current_time - last.time
                    < cooldown) {
                    return false;
                }
                last.period == period
            },
            None => false,
        };
        if !same_period {
            self.last_buy.clear();
        }
        self.last_buy.insert(condition_id, LastBuy { time: current_time, period });
        true
    }

    /// What a purchase of a side makes of a position.
    fn report_on(
        position: &Position,
        side: Side,
        own: &Outlook,
        order_amount_raw: Binary64,
        order_amount: Binary64,
    ) -> (r: BuyReport)
        ensures
            r == report(*position, side, *own, order_amount_raw, order_amount),
    {
        let zero: Binary64 = zero_value();
        let own_avg: Binary64 = own.cost_after.over(own.shares_after);
        let other: Side = other_side(side);
        let other_avg: Binary64 = if zero.lt(position.shares_of(other)) {
            position.avg_price_of(other)
        } else {
            zero
        };
        let cost_per_pair: Binary64 = if zero.lt(own.pairs_after) {
            own.cost_per_pair
        } else {
            own.ask
        };
        match side {
            Side::Up => {
                let invest_down: Binary64 = position.cost_of(Side::Down);
                let total: Binary64 = own.cost_after.plus(invest_down);
                BuyReport {
                    order_amount_raw,
                    order_amount,
                    cost_per_pair,
                    up_shares: own.shares_after,
                    up_avg: own_avg,
                    down_shares: position.down_shares,
                    down_avg: other_avg,
                    invest_up: own.cost_after,
                    invest_down,
                    total_invest: total,
                    pnl_if_up_wins: own.shares_after.minus(total),
                    pnl_if_down_wins: position.down_shares.minus(total),
                }
            },
            Side::Down => {
                let invest_up: Binary64 = position.cost_of(Side::Up);
                let total: Binary64 = invest_up.plus(own.cost_after);
                BuyReport {
                    order_amount_raw,
                    order_amount,
                    cost_per_pair,
                    up_shares: position.up_shares,
                    up_avg: other_avg,
                    down_shares: own.shares_after,
                    down_avg: own_avg,
                    invest_up,
                    invest_down: own.cost_after,
                    total_invest: total,
                    pnl_if_up_wins: position.up_shares.minus(total),
                    pnl_if_down_wins: own.shares_after.minus(total),
                }
            },
        }
    }

    /// Takes a snapshot in, and tells what to buy on it, if anything. Where one
    /// purchase in a period is enough, nothing more is bought once something is
    /// held.
    pub fn process_snapshot(
        &mut self,
        snapshot: &MarketSnapshot,
        current_time: u64,
        one_shot: bool,
    ) -> (r: Option<PendingBuy>)
        requires
            old(self).wf(),
            snapshot@.wf(),
        ensures
            final(self).wf(),
            (final(self)@, buy_view(r)) == old(self)@.plan(snapshot@, current_time, one_shot),
            r matches Some(buy) ==> buy@.wf(),
    {
        let time_remaining: u64 = snapshot.btc_15m_time_remaining;
        if time_remaining == 0 {
            return None;
        }
        let zero: Binary64 = zero_value();
        let up_ask: Binary64 = asked(&snapshot.btc_market_15m.up_token);
        let down_ask: Binary64 = asked(&snapshot.btc_market_15m.down_token);
        if up_ask.le(zero) || down_ask.le(zero) {
            return None;
        }
        let period: u64 = snapshot.btc_15m_period_timestamp;
        let market_key: String = key_of(snapshot.btc_market_15m.condition_id.as_str(), period);
        let position: Position = self.position_under(market_key.as_str());
        if one_shot && position.held() {
            return None;
        }
        let amount_raw: Binary64 = self.settings.order_amount_usdc_with_time(time_remaining);
        let amount: Binary64 = amount_raw.larger(min_order_notional_usdc());
        let size_up: Binary64 = size_of_order(amount, up_ask);
        let size_down: Binary64 = size_of_order(amount, down_ask);
        if size_up.le(zero) || size_down.le(zero) {
            return None;
        }
        let trend: Trend = self.update_trend(market_key.as_str(), current_time, up_ask, down_ask);
        let ghost seen = self@;
        let wave: WaveState = self.wave_under(market_key.as_str());
        let up: Outlook = look_at(&self.settings, &position, Side::Up, up_ask, size_up);
        let down: Outlook = look_at(&self.settings, &position, Side::Down, down_ask, size_down);
        proof {
            assert(seen == old(self)@.seen(snapshot@, current_time));
            assert(position == seen.position(snapshot@.key()));
            assert(up == seen.outlook(snapshot@, Side::Up));
            assert(down == seen.outlook(snapshot@, Side::Down));
        }
        match decide(&up, &down, trend, &wave) {
            Decision::Hold => None,
            Decision::Buy { side, lock } => {
                if !self.mark_buy(snapshot, current_time) {
                    return None;
                }
                let (own, size, token_id): (Outlook, Binary64, String) = match side {
                    Side::Up => (up, size_up, named(&snapshot.btc_market_15m.up_token)),
                    Side::Down => (down, size_down, named(&snapshot.btc_market_15m.down_token)),
                };
                Some(
                    PendingBuy {
                        market_name: snapshot.market_name.clone(),
                        condition_id: snapshot.btc_market_15m.condition_id.clone(),
                        period_timestamp: period,
                        market_duration_secs: snapshot.market_duration_secs,
                        side,
                        token_id,
                        size,
                        price: own.ask,
                        lock,
                        trend,
                        no_position: position.nothing(),
                        order_shares: if self.simulation_mode {
                            None
                        } else {
                            Some(round_shares(size))
                        },
                        report: Self::report_on(&position, side, &own, amount_raw, amount),
                    },
                )
            },
        }
    }

    /// Adds shares to the trade of a market in a period.
    pub fn record_trade(
        &mut self,
        condition_id: &str,
        period_timestamp: u64,
        market_duration_secs: u64,
        side: Side,
        token_id: &str,
        shares: Binary64,
        price: Binary64,
    )
        requires
            old(self).wf(),
            period_timestamp + market_duration_secs <= u64::MAX,
        ensures
            final(self).wf(),
            final(self)@ == old(self)@.recorded(
                condition_id@,
                period_timestamp,
                market_duration_secs,
                side,
                token_id@,
                shares,
                price,
            ),
    {
        let market_key: String = key_of(condition_id, period_timestamp);
        let mut trade: CycleTrade = match self.trades.get(market_key.as_str()) {
            Some(t) => t.copied(),
            None => CycleTrade {
                condition_id: String::from_str(condition_id),
                period_timestamp,
                market_duration_secs,
                up_token_id: None,
                down_token_id: None,
                position: Position::none(),
            },
        };
        trade.position = trade.position.with_bought(side, shares, price);
        match side {
            Side::Up => {
                trade.up_token_id = Some(String::from_str(token_id));
            },
            Side::Down => {
                trade.down_token_id = Some(String::from_str(token_id));
            },
        }
        self.trades.insert(market_key.as_str(), trade);
    }

    /// Takes note of a purchase that was made.
    pub fn finish_buy(&mut self, buy: &PendingBuy)
        requires
            old(self).wf(),
            buy@.wf(),
        ensures
            final(self).wf(),
            final(self)@ == old(self)@.finished(buy@),
    {
        self.record_trade(
            buy.condition_id.as_str(),
            buy.period_timestamp,
            buy.market_duration_secs,
            buy.side,
            buy.token_id.as_str(),
            buy.size,
            buy.price,
        );
        let market_key: String = key_of(buy.condition_id.as_str(), buy.period_timestamp);
        let wave: WaveState = self.wave_under(market_key.as_str());
        let after: WaveState = wave.after_buy(buy.side, buy.lock, buy.trend, buy.no_position);
        self.wave_state.insert(market_key.as_str(), after);
    }

    /// Whether the condition has been settled since the period began.
    fn checked(&self, condition_id: &str) -> (r: bool)
        requires
            self.wf(),
        ensures
            r == self@.is_checked(condition_id@),
    {
        match self.closure_checked.get(condition_id) {
            Some(c) => *c,
            None => false,
        }
    }

    /// The condition of a trade that is to be settled if its market has closed.
    pub fn closure_due(&self, market_key: &str, current_time: u64) -> (r: Option<String>)
        requires
            self.wf(),
        ensures
            r is Some <==> self@.due(market_key@, current_time),
            r matches Some(id) ==> id@ == self@.trades[market_key@].condition_id,
    {
        match self.trades.get(market_key) {
            Some(trade) => {
                let end: u64 = trade.period_timestamp + trade.market_duration_secs;
                if current_time < end || self.checked(trade.condition_id.as_str()) {
                    None
                } else {
                    Some(trade.condition_id.clone())
                }
            },
            None => None,
        }
    }

    /// The keys of the trades that are to be settled if their markets have closed.
    pub fn check_market_closure(&self, current_time: u64) -> (r: Vec<String>)
        requires
            self.wf(),
        ensures
            forall|key: Seq<char>|
                self@.due(key, current_time) <==> exists|i: int|
                    0 <= i < r@.len() && (#[trigger] r@[i])@ == key,
            forall|i: int, j: int|
                0 <= i < j < r@.len() ==> (#[trigger] r@[i])@ != (#[trigger] r@[j])@,
    {
        let keys: Vec<String> = self.trades.keys();
        let mut r: Vec<String> = Vec::new();
        let mut i: usize = 0;
        while i < keys.len()
            invariant
                i <= keys@.len(),
                self.wf(),
                forall|j: int, k: int|
                    0 <= j < k < keys@.len() ==> (#[trigger] keys@[j])@ != (#[trigger] keys@[k])@,
                forall|j: int|
                    0 <= j < r@.len() ==> self@.due((#[trigger] r@[j])@, current_time) && exists|
                        k: int,
                    |
                        0 <= k < i && (#[trigger] keys@[k])@ == r@[j]@,
                forall|k: int|
                    0 <= k < i && self@.due((#[trigger] keys@[k])@, current_time) ==> exists|j: int|
                        0 <= j < r@.len() && (#[trigger] r@[j])@ == keys@[k]@,
                forall|j: int, k: int|
                    0 <= j < k < r@.len() ==> (#[trigger] r@[j])@ != (#[trigger] r@[k])@,
            decreases keys@.len() - i,
        {
            let ghost before = r@;
            if self.closure_due(keys[i].as_str(), current_time).is_some() {
                r.push(keys[i].clone());
                proof {
                    assert forall|j: int| 0 <= j < before.len() implies (#[trigger] r@[j])@
                        != keys@[i as int]@ by {
                        assert(r@[j] == before[j]);
                        let k = choose|k: int| 0 <= k < i && (#[trigger] keys@[k])@ == before[j]@;
                        assert(keys@[k]@ != keys@[i as int]@);
                    }
                    assert forall|j: int| 0 <= j < r@.len() implies exists|k: int|
                        0 <= k < i + 1 && (#[trigger] keys@[k])@ == (#[trigger] r@[j])@ by {
                        if j < before.len() {
                            let k = choose|k: int|
                                0 <= k < i && (#[trigger] keys@[k])@ == before[j]@;
                            assert(keys@[k]@ == r@[j]@);
                        } else {
                            assert(keys@[i as int]@ == r@[j]@);
                        }
                    }
                    assert forall|k: int|
                        0 <= k < i + 1 && self@.due(
                            (#[trigger] keys@[k])@,
                            current_time,
                        ) implies exists|j: int|
                        0 <= j < r@.len() && (#[trigger] r@[j])@ == keys@[k]@ by {
                        if k < i {
                            let j = choose|j: int|
                                0 <= j < before.len() && (#[trigger] before[j])@ == keys@[k]@;
                            assert(r@[j]@ == keys@[k]@);
                        } else {
                            assert(r@[r@.len() - 1]@ == keys@[k]@);
                        }
                    }
                }
            }
            i = i + 1;
        }
        proof {
            assert forall|key: Seq<char>|
                self@.due(key, current_time) <==> exists|i: int|
                    0 <= i < r@.len() && (#[trigger] r@[i])@ == key by {
                if self@.due(key, current_time) {
                    assert(self.trades@.contains_key(key));
                    let k = choose|k: int| 0 <= k < keys@.len() && (#[trigger] keys@[k])@ == key;
                    assert(self@.due(keys@[k]@, current_time));
                }
            }
        }
        r
    }

    /// Settles a trade of a market that has closed and whose winning token is
    /// known: tells what it has earned, adds that to the profits, and puts the
    /// trade away. Nothing happens where the trade is not to be settled, the market
    /// is still open or no token has won yet.
    pub fn settle(&mut self, market_key: &str, market: &MarketDetails, current_time: u64) -> (r:
        Option<Settlement>)
        requires
            old(self).wf(),
        ensures
            final(self).wf(),
            r is Some <==> old(self)@.due(market_key@, current_time) && market.closed
                && is_resolved(token_views(market.tokens@)),
            r is None ==> final(self)@ == old(self)@,
            r matches Some(s) ==> {
                let trade = old(self)@.trades[market_key@];
                &&& s@ == settlement(trade, token_views(market.tokens@), old(self)@.simulation_mode)
                &&& final(self)@ == old(self)@.settled(market_key@, s.pnl)
            },
    {
        if self.closure_due(market_key, current_time).is_none() || !market.closed || !any_won(
            &market.tokens,
        ) {
            return None;
        }
        let trade: CycleTrade = match self.trades.get(market_key) {
            Some(t) => t.copied(),
            None => {
                return None;
            },
        };
        let up_wins: bool = match &trade.up_token_id {
            Some(id) => token_won(&market.tokens, id.as_str()),
            None => false,
        };
        let down_wins: bool = match &trade.down_token_id {
            Some(id) => token_won(&market.tokens, id.as_str()),
            None => false,
        };
        let total_cost: Binary64 = trade.position.cost_of_all();
        let (winner, payout): (Option<Side>, Binary64) = if up_wins {
            (Some(Side::Up), trade.position.up_shares)
        } else if down_wins {
            (Some(Side::Down), trade.position.down_shares)
        } else {
            (None, zero_value())
        };
        let pnl: Binary64 = payout.minus(total_cost);
        let redeem: Option<(String, Side)> = if !self.simulation_mode && (up_wins || down_wins) {
            let least: Binary64 = Binary64::from_ratio(false, 1, 1000);
            if up_wins && least.lt(trade.position.up_shares) {
                Some((given(&trade.up_token_id), Side::Up))
            } else {
                Some((given(&trade.down_token_id), Side::Down))
            }
        } else {
            None
        };
        self.total_profit = self.total_profit.plus(pnl);
        self.period_profit = self.period_profit.plus(pnl);
        self.closure_checked.insert(trade.condition_id.as_str(), true);
        self.trades.remove(market_key);
        Some(
            Settlement {
                condition_id: trade.condition_id,
                winner,
                position: trade.position,
                total_cost,
                payout,
                pnl,
                redeem,
            },
        )
    }

    /// Forgets when markets were bought and which conditions were settled.
    pub fn reset_period(&mut self)
        requires
            old(self).wf(),
        ensures
            final(self).wf(),
            final(self)@ == (TraderView {
                last_buy: Map::empty(),
                closure_checked: Map::empty(),
                ..old(self)@
            }),
    {
        self.last_buy.clear();
        self.closure_checked.clear();
    }

    /// What all settled trades have earned.
    pub fn get_total_profit(&self) -> (r: Binary64)
        ensures
            r == self@.total_profit,
    {
        self.total_profit
    }

    /// What the trades settled in this period have earned.
    pub fn get_period_profit(&self) -> (r: Binary64)
        ensures
            r == self@.period_profit,
    {
        self.period_profit
    }

    /// The profits of this period and of all time, where there are any to tell.
    pub fn profits_to_tell(&self) -> (r: Option<(Binary64, Binary64)>)
        ensures
            r == (if equals(self@.total_profit, zero()) && equals(self@.period_profit, zero()) {
                None
            } else {
                Some((self@.period_profit, self@.total_profit))
            }),
    {
        let zero: Binary64 = zero_value();
        if self.total_profit.same(zero) && self.period_profit.same(zero) {
            None
        } else {
            Some((self.period_profit, self.total_profit))
        }
    }
}

} // verus!
