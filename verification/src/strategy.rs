//! The rules by which one side of a market is bought.
use crate::binary64::{
    at_most, difference, equals, floored, less, maximum, minimum, negation, product, quotient,
    ratio, rounded, sum, whole, Binary64,
};
use vstd::prelude::*;

verus! {

/// How many prices are looked back on.
pub const PRICE_HISTORY_LEN: usize = 5;

/// How often a rising side is bought between two locks.
pub const MAX_RISING_BUYS_PER_WAVE: u32 = 3;

/// How often the rising side is bought without a position.
pub const MAX_RISING_BUYS_NO_POSITION: u32 = 2;

/// How often the higher-priced side is bought without a position and a trend.
pub const MAX_FLAT_BUYS_NO_POSITION: u32 = 4;

/// How often a side is bought between two locks to better the worse outcome.
pub const MAX_REBALANCE_BUYS: u32 = 8;

/// The side of a market that a token pays on.
#[derive(Debug, Clone, Copy, PartialEq, Eq, Structural)]
pub enum Side {
    Up,
    Down,
}

/// Where the prices are going.
#[derive(Debug, Clone, Copy, PartialEq, Eq, Structural)]
pub enum Trend {
    UpRising,
    DownRising,
    Flat,
    /// The price of down is falling.
    DownFalling,
    /// The price of up is falling.
    UpFalling,
}

/// How often each side was bought since the last lock.
#[derive(Debug, Clone, Copy, PartialEq, Eq, Structural)]
pub struct WaveState {
    pub buys_up_since_lock: u32,
    pub buys_down_since_lock: u32,
    /// How often the higher-priced side was bought without a position and a trend.
    pub flat_buys_since_lock: u32,
}

impl View for WaveState {
    type V = WaveState;

    open spec fn view(&self) -> WaveState {
        *self
    }
}

/// The asks of the two sides at a moment.
#[derive(Debug, Clone, Copy, PartialEq, Eq, Structural)]
pub struct Tick {
    pub time: u64,
    pub up: Binary64,
    pub down: Binary64,
}

/// What is held of a market.
#[derive(Debug, Clone, Copy, PartialEq, Eq, Structural)]
pub struct Position {
    pub up_shares: Binary64,
    pub down_shares: Binary64,
    pub up_avg_price: Binary64,
    pub down_avg_price: Binary64,
}

/// What the strategy is set to.
#[derive(Debug, Clone, Copy, PartialEq, Eq, Structural)]
pub struct Settings {
    pub cost_per_pair_max: Binary64,
    pub min_side_price: Binary64,
    pub max_side_price: Binary64,
    pub cooldown_seconds: u64,
    pub cooldown_seconds_1h: u64,
    pub order_amount_usdc: Option<Binary64>,
    pub size_reduce_after_secs: u64,
    pub size_min_ratio: Binary64,
    pub size_min_amount_usdc: Binary64,
}

/// A side as the decision sees it: its ask, whether that is within the limits,
/// what is held of it, and what buying it would make of the position.
#[derive(Debug, Clone, Copy, PartialEq, Eq, Structural)]
pub struct Outlook {
    pub ask: Binary64,
    pub price_ok: bool,
    pub shares: Binary64,
    /// The shares held after the purchase.
    pub shares_after: Binary64,
    /// What the shares held after the purchase cost.
    pub cost_after: Binary64,
    /// The pairs held after the purchase.
    pub pairs_after: Binary64,
    /// What a pair costs after the purchase.
    pub cost_per_pair: Binary64,
    /// The purchase completes pairs at an accepted cost.
    pub can_lock: bool,
    /// The profit if this side wins, before the purchase.
    pub pnl_if_wins: Binary64,
}

/// What to buy.
#[derive(Debug, Clone, Copy, PartialEq, Eq, Structural)]
pub enum Decision {
    Hold,
    Buy { side: Side, lock: bool },
}

pub open spec fn zero() -> Binary64 {
    whole(0)
}

/// The largest finite number: what a pair costs where there is none.
pub open spec fn no_pair_cost() -> Binary64 {
    Binary64 { bits: 0x7fef_ffff_ffff_ffff }
}

/// The smallest amount that the exchange takes an order for, 1.1.
pub open spec fn min_order_notional() -> Binary64 {
    ratio(11, 10)
}

/// How far a price must move to count as a trend, 0.005.
pub open spec fn trend_threshold() -> Binary64 {
    ratio(5, 1000)
}

/// What a pair may cost when the worse outcome is bettered, 1.02.
pub open spec fn rebalance_cost_max() -> Binary64 {
    ratio(102, 100)
}

/// `cost / shares` of a side after a purchase, counted per pair.
pub open spec fn pair_cost(
    cost_after: Binary64,
    shares_after: Binary64,
    pairs_after: Binary64,
    other_shares: Binary64,
    other_avg: Binary64,
) -> Binary64 {
    if less(zero(), pairs_after) {
        if at_most(shares_after, other_shares) {
            // Only the shares of the other side that are paired count.
            quotient(sum(product(pairs_after, other_avg), cost_after), pairs_after)
        } else {
            quotient(sum(cost_after, product(other_shares, other_avg)), pairs_after)
        }
    } else {
        no_pair_cost()
    }
}

impl Position {
    pub open spec fn empty() -> Position {
        Position {
            up_shares: zero(),
            down_shares: zero(),
            up_avg_price: zero(),
            down_avg_price: zero(),
        }
    }

    pub open spec fn shares(self, side: Side) -> Binary64 {
        match side {
            Side::Up => self.up_shares,
            Side::Down => self.down_shares,
        }
    }

    pub open spec fn avg_price(self, side: Side) -> Binary64 {
        match side {
            Side::Up => self.up_avg_price,
            Side::Down => self.down_avg_price,
        }
    }

    /// What the shares of a side cost.
    pub open spec fn cost(self, side: Side) -> Binary64 {
        product(self.shares(side), self.avg_price(side))
    }

    /// What all shares cost.
    pub open spec fn total_cost(self) -> Binary64 {
        sum(self.cost(Side::Up), self.cost(Side::Down))
    }

    /// The profit if a side wins: a share of it then pays 1, the rest nothing.
    pub open spec fn pnl_if_wins(self, side: Side) -> Binary64 {
        difference(self.shares(side), self.total_cost())
    }

    /// Nothing is held.
    pub open spec fn is_empty(self) -> bool {
        equals(self.up_shares, zero()) && equals(self.down_shares, zero())
    }

    /// Something is held.
    pub open spec fn is_held(self) -> bool {
        less(zero(), self.up_shares) || less(zero(), self.down_shares)
    }

    /// The position with `size` more shares of a side at `price`. The average
    /// price is that of all shares of the side.
    pub open spec fn bought(self, side: Side, size: Binary64, price: Binary64) -> Position {
        let shares = sum(self.shares(side), size);
        let avg = if less(zero(), shares) {
            quotient(sum(self.cost(side), product(size, price)), shares)
        } else {
            price
        };
        match side {
            Side::Up => Position { up_shares: shares, up_avg_price: avg, ..self },
            Side::Down => Position { down_shares: shares, down_avg_price: avg, ..self },
        }
    }
}

pub open spec fn opposite(side: Side) -> Side {
    match side {
        Side::Up => Side::Down,
        Side::Down => Side::Up,
    }
}

/// A side as the decision sees it.
pub open spec fn outlook(
    settings: Settings,
    position: Position,
    side: Side,
    ask: Binary64,
    size: Binary64,
) -> Outlook {
    let other = position.shares(opposite(side));
    let shares_after = sum(position.shares(side), size);
    let cost_after = sum(position.cost(side), product(size, ask));
    let pairs_after = minimum(shares_after, other);
    let cost_per_pair = pair_cost(
        cost_after,
        shares_after,
        pairs_after,
        other,
        position.avg_price(opposite(side)),
    );
    Outlook {
        ask,
        price_ok: at_most(settings.min_side_price, ask) && at_most(ask, settings.max_side_price),
        shares: position.shares(side),
        shares_after,
        cost_after,
        pairs_after,
        cost_per_pair,
        can_lock: less(zero(), other) && less(zero(), pairs_after) && at_most(
            cost_per_pair,
            settings.cost_per_pair_max,
        ),
        pnl_if_wins: position.pnl_if_wins(side),
    }
}

/// The trend that a rising side makes.
pub open spec fn rising(side: Side) -> Trend {
    match side {
        Side::Up => Trend::UpRising,
        Side::Down => Trend::DownRising,
    }
}

impl WaveState {
    pub open spec fn start() -> WaveState {
        WaveState { buys_up_since_lock: 0, buys_down_since_lock: 0, flat_buys_since_lock: 0 }
    }

    pub open spec fn buys(self, side: Side) -> u32 {
        match side {
            Side::Up => self.buys_up_since_lock,
            Side::Down => self.buys_down_since_lock,
        }
    }

    /// What every count keeps to.
    pub open spec fn wf(self) -> bool {
        self.buys_up_since_lock <= MAX_RISING_BUYS_PER_WAVE && self.buys_down_since_lock
            <= MAX_RISING_BUYS_PER_WAVE && self.flat_buys_since_lock <= MAX_FLAT_BUYS_NO_POSITION
    }
}

/// A side is bought to open it: it cannot be locked, it is rising, and its
/// outcome is the worse one.
pub open spec fn expands(
    side: Side,
    own: Outlook,
    other: Outlook,
    trend: Trend,
    wave: WaveState,
) -> bool {
    !own.can_lock && trend == rising(side) && less(own.pnl_if_wins, other.pnl_if_wins)
        && own.price_ok && wave.buys(side) < MAX_REBALANCE_BUYS
}

/// What to buy without a position: the rising side, or the higher-priced one
/// where none is rising. Nothing is bought where the price of that side is not
/// within the limits.
pub open spec fn decide_empty(up: Outlook, down: Outlook, trend: Trend, wave: WaveState) -> Decision {
    match trend {
        Trend::UpRising => if up.price_ok && wave.buys_up_since_lock
            < MAX_RISING_BUYS_NO_POSITION {
            Decision::Buy { side: Side::Up, lock: false }
        } else {
            Decision::Hold
        },
        Trend::DownRising => if down.price_ok && wave.buys_down_since_lock
            < MAX_RISING_BUYS_NO_POSITION {
            Decision::Buy { side: Side::Down, lock: false }
        } else {
            Decision::Hold
        },
        _ => if wave.flat_buys_since_lock >= MAX_FLAT_BUYS_NO_POSITION {
            Decision::Hold
        } else if at_most(down.ask, up.ask) {
            if up.price_ok {
                Decision::Buy { side: Side::Up, lock: false }
            } else {
                Decision::Hold
            }
        } else if down.price_ok {
            Decision::Buy { side: Side::Down, lock: false }
        } else {
            Decision::Hold
        },
    }
}

/// What to buy while only one side is held: lock with the other side, open the
/// other side, or ride the one that is held.
pub open spec fn decide_one_sided(
    held: Side,
    own: Outlook,
    other: Outlook,
    trend: Trend,
    wave: WaveState,
) -> Decision {
    if other.can_lock && other.price_ok {
        Decision::Buy { side: opposite(held), lock: true }
    } else if expands(opposite(held), other, own, trend, wave) {
        Decision::Buy { side: opposite(held), lock: false }
    } else if trend == rising(held) && own.price_ok && wave.buys(held)
        < MAX_RISING_BUYS_PER_WAVE {
        Decision::Buy { side: held, lock: false }
    } else {
        Decision::Hold
    }
}

/// The rising side is bought to grow its outcome.
pub open spec fn rides(side: Side, own: Outlook, trend: Trend, wave: WaveState) -> bool {
    trend == rising(side) && own.price_ok && at_most(own.cost_per_pair, rebalance_cost_max())
        && wave.buys(side) < MAX_REBALANCE_BUYS
}

/// A side is bought because its outcome is a loss and the worse one, unless the
/// other side is rising.
pub open spec fn rebalances(
    side: Side,
    own: Outlook,
    other: Outlook,
    trend: Trend,
    wave: WaveState,
) -> bool {
    trend != Trend::Flat && less(own.pnl_if_wins, zero()) && less(
        own.pnl_if_wins,
        other.pnl_if_wins,
    ) && trend != rising(opposite(side)) && own.price_ok && at_most(
        own.cost_per_pair,
        rebalance_cost_max(),
    ) && wave.buys(side) < MAX_REBALANCE_BUYS
}

/// What to buy while both sides are held: lock the smaller side, open the side
/// whose outcome is worse, ride the rising side, better a loss, or follow a
/// falling price.
pub open spec fn decide_two_sided(
    up: Outlook,
    down: Outlook,
    trend: Trend,
    wave: WaveState,
) -> Decision {
    if less(down.shares, up.shares) && down.can_lock && down.price_ok {
        Decision::Buy { side: Side::Down, lock: true }
    } else if less(up.shares, down.shares) && up.can_lock && up.price_ok {
        Decision::Buy { side: Side::Up, lock: true }
    } else if expands(Side::Down, down, up, trend, wave) {
        Decision::Buy { side: Side::Down, lock: false }
    } else if expands(Side::Up, up, down, trend, wave) {
        Decision::Buy { side: Side::Up, lock: false }
    } else if rides(Side::Up, up, trend, wave) {
        Decision::Buy { side: Side::Up, lock: false }
    } else if rides(Side::Down, down, trend, wave) {
        Decision::Buy { side: Side::Down, lock: false }
    } else if rebalances(Side::Down, down, up, trend, wave) {
        Decision::Buy { side: Side::Down, lock: false }
    } else if rebalances(Side::Up, up, down, trend, wave) {
        Decision::Buy { side: Side::Up, lock: false }
    } else if trend == Trend::DownFalling && up.price_ok && wave.buys_up_since_lock
        < MAX_RISING_BUYS_PER_WAVE {
        Decision::Buy { side: Side::Up, lock: false }
    } else if trend == Trend::UpFalling && down.price_ok && wave.buys_down_since_lock
        < MAX_RISING_BUYS_PER_WAVE {
        Decision::Buy { side: Side::Down, lock: false }
    } else {
        Decision::Hold
    }
}

/// What to buy.
pub open spec fn decision(up: Outlook, down: Outlook, trend: Trend, wave: WaveState) -> Decision {
    if !up.price_ok && !down.price_ok {
        Decision::Hold
    } else if equals(up.shares, zero()) && equals(down.shares, zero()) {
        decide_empty(up, down, trend, wave)
    } else if less(zero(), down.shares) && equals(up.shares, zero()) {
        decide_one_sided(Side::Down, down, up, trend, wave)
    } else if less(zero(), up.shares) && equals(down.shares, zero()) {
        decide_one_sided(Side::Up, up, down, trend, wave)
    } else {
        decide_two_sided(up, down, trend, wave)
    }
}

/// A count one higher, but at most `max`.
pub open spec fn counted(n: u32, max: u32) -> u32 {
    if n < max {
        (n + 1) as u32
    } else {
        max
    }
}

/// The counts after a purchase: a lock starts them anew.
pub open spec fn wave_after(
    wave: WaveState,
    side: Side,
    lock: bool,
    trend: Trend,
    no_position: bool,
) -> WaveState {
    if lock {
        WaveState::start()
    } else {
        let flat = if no_position && trend != Trend::UpRising && trend != Trend::DownRising {
            counted(wave.flat_buys_since_lock, MAX_FLAT_BUYS_NO_POSITION)
        } else {
            wave.flat_buys_since_lock
        };
        match side {
            Side::Up => WaveState {
                buys_up_since_lock: counted(wave.buys_up_since_lock, MAX_RISING_BUYS_PER_WAVE),
                flat_buys_since_lock: flat,
                ..wave
            },
            Side::Down => WaveState {
                buys_down_since_lock: counted(wave.buys_down_since_lock, MAX_RISING_BUYS_PER_WAVE),
                flat_buys_since_lock: flat,
                ..wave
            },
        }
    }
}

/// The trend of two moves.
pub open spec fn trend_of_moves(up: Binary64, down: Binary64) -> Trend {
    let t = trend_threshold();
    if at_most(t, up) && at_most(down, up) {
        Trend::UpRising
    } else if at_most(t, down) && at_most(up, down) {
        Trend::DownRising
    } else if at_most(down, negation(t)) && at_most(down, up) {
        Trend::DownFalling
    } else if at_most(up, negation(t)) && at_most(up, down) {
        Trend::UpFalling
    } else {
        Trend::Flat
    }
}

/// The trend of a run of prices; it takes four to make one.
pub open spec fn trend_of(history: Seq<Tick>) -> Trend {
    if history.len() < 4 {
        Trend::Flat
    } else {
        trend_of_moves(
            difference(history.last().up, history[0].up),
            difference(history.last().down, history[0].down),
        )
    }
}

/// A run of prices with one more at its end, the oldest left out past five.
pub open spec fn history_after(history: Seq<Tick>, tick: Tick) -> Seq<Tick> {
    let longer = history.push(tick);
    if longer.len() > PRICE_HISTORY_LEN {
        longer.skip(longer.len() - PRICE_HISTORY_LEN)
    } else {
        longer
    }
}

/// The amount of an order before the end of the market is near.
pub open spec fn base_amount(settings: Settings) -> Binary64 {
    match settings.order_amount_usdc {
        Some(v) => if less(zero(), v) {
            maximum(v, min_order_notional())
        } else {
            min_order_notional()
        },
        None => min_order_notional(),
    }
}

/// The part of the base amount that is ordered with `secs` seconds left.
pub open spec fn amount_part(settings: Settings, secs: u64) -> Binary64 {
    sum(
        settings.size_min_ratio,
        product(
            difference(whole(1), settings.size_min_ratio),
            quotient(whole(secs as int), whole(settings.size_reduce_after_secs as int)),
        ),
    )
}

/// The amount of an order with `secs` seconds left: less towards the end of the
/// market, rounded to cents, and not below the least amounts.
pub open spec fn order_amount(settings: Settings, secs: u64) -> Binary64 {
    if settings.size_reduce_after_secs == 0 || secs >= settings.size_reduce_after_secs {
        base_amount(settings)
    } else {
        let part = product(base_amount(settings), amount_part(settings, secs));
        let amount = quotient(rounded(product(part, whole(100))), whole(100));
        maximum(maximum(amount, settings.size_min_amount_usdc), min_order_notional())
    }
}

/// How many shares an amount buys at an ask, in hundredths of a share.
pub open spec fn order_size(amount: Binary64, ask: Binary64) -> Binary64 {
    quotient(floored(product(quotient(amount, ask), whole(100))), whole(100))
}

/// The number 0.
pub fn zero_value() -> (r: Binary64)
    ensures
        r == zero(),
{
    Binary64::from_u64(0)
}

/// 1.1, the smallest amount that the exchange takes an order for.
pub fn min_order_notional_usdc() -> (r: Binary64)
    ensures
        r == min_order_notional(),
{
    Binary64::from_ratio(false, 11, 10)
}

impl Position {
    /// Nothing.
    pub fn none() -> (r: Position)
        ensures
            r == Position::empty(),
    {
        Position {
            up_shares: zero_value(),
            down_shares: zero_value(),
            up_avg_price: zero_value(),
            down_avg_price: zero_value(),
        }
    }

    pub fn shares_of(&self, side: Side) -> (r: Binary64)
        ensures
            r == self.shares(side),
    {
        match side {
            Side::Up => self.up_shares,
            Side::Down => self.down_shares,
        }
    }

    pub fn avg_price_of(&self, side: Side) -> (r: Binary64)
        ensures
            r == self.avg_price(side),
    {
        match side {
            Side::Up => self.up_avg_price,
            Side::Down => self.down_avg_price,
        }
    }

    /// What the shares of a side cost.
    pub fn cost_of(&self, side: Side) -> (r: Binary64)
        ensures
            r == self.cost(side),
    {
        self.shares_of(side).times(self.avg_price_of(side))
    }

    /// What all shares cost.
    pub fn cost_of_all(&self) -> (r: Binary64)
        ensures
            r == self.total_cost(),
    {
        self.cost_of(Side::Up).plus(self.cost_of(Side::Down))
    }

    /// The profit if a side wins.
    pub fn pnl_if(&self, side: Side) -> (r: Binary64)
        ensures
            r == self.pnl_if_wins(side),
    {
        self.shares_of(side).minus(self.cost_of_all())
    }

    /// Whether something is held.
    pub fn held(&self) -> (r: bool)
        ensures
            r == self.is_held(),
    {
        let zero: Binary64 = zero_value();
        zero.lt(self.up_shares) || zero.lt(self.down_shares)
    }

    /// Whether nothing is held.
    pub fn nothing(&self) -> (r: bool)
        ensures
            r == self.is_empty(),
    {
        let zero: Binary64 = zero_value();
        self.up_shares.same(zero) && self.down_shares.same(zero)
    }

    /// The position with `size` more shares of a side at `price`.
    pub fn with_bought(&self, side: Side, size: Binary64, price: Binary64) -> (r: Position)
        ensures
            r == self.bought(side, size, price),
    {
        let cost: Binary64 = self.cost_of(side);
        let shares: Binary64 = self.shares_of(side).plus(size);
        let avg: Binary64 = if zero_value().lt(shares) {
            cost.plus(size.times(price)).over(shares)
        } else {
            price
        };
        match side {
            Side::Up => Position {
                up_shares: shares,
                down_shares: self.down_shares,
                up_avg_price: avg,
                down_avg_price: self.down_avg_price,
            },
            Side::Down => Position {
                up_shares: self.up_shares,
                down_shares: shares,
                up_avg_price: self.up_avg_price,
                down_avg_price: avg,
            },
        }
    }
}

/// The other side.
pub fn other_side(side: Side) -> (r: Side)
    ensures
        r == opposite(side),
{
    match side {
        Side::Up => Side::Down,
        Side::Down => Side::Up,
    }
}

/// A side as the decision sees it.
pub fn look_at(
    settings: &Settings,
    position: &Position,
    side: Side,
    ask: Binary64,
    size: Binary64,
) -> (r: Outlook)
    ensures
        r == outlook(*settings, *position, side, ask, size),
{
    let zero: Binary64 = zero_value();
    let other_side: Side = other_side(side);
    let other: Binary64 = position.shares_of(other_side);
    let other_avg: Binary64 = position.avg_price_of(other_side);
    let shares_after: Binary64 = position.shares_of(side).plus(size);
    let cost_after: Binary64 = position.cost_of(side).plus(size.times(ask));
    let pairs_after: Binary64 = shares_after.smaller(other);
    let cost_per_pair: Binary64 = if zero.lt(pairs_after) {
        if shares_after.le(other) {
            pairs_after.times(other_avg).plus(cost_after).over(pairs_after)
        } else {
            cost_after.plus(other.times(other_avg)).over(pairs_after)
        }
    } else {
        Binary64 { bits: 0x7fef_ffff_ffff_ffff }
    };
    Outlook {
        ask,
        price_ok: settings.min_side_price.le(ask) && ask.le(settings.max_side_price),
        shares: position.shares_of(side),
        shares_after,
        cost_after,
        pairs_after,
        cost_per_pair,
        can_lock: zero.lt(other) && zero.lt(pairs_after) && cost_per_pair.le(
            settings.cost_per_pair_max,
        ),
        pnl_if_wins: position.pnl_if(side),
    }
}

impl WaveState {
    /// No purchase yet.
    pub fn new() -> (r: WaveState)
        ensures
            r == WaveState::start(),
            r.wf(),
    {
        WaveState { buys_up_since_lock: 0, buys_down_since_lock: 0, flat_buys_since_lock: 0 }
    }

    fn buys_of(&self, side: Side) -> (r: u32)
        ensures
            r == self.buys(side),
    {
        match side {
            Side::Up => self.buys_up_since_lock,
            Side::Down => self.buys_down_since_lock,
        }
    }

    /// The counts after a purchase.
    pub fn after_buy(&self, side: Side, lock: bool, trend: Trend, no_position: bool) -> (r:
        WaveState)
        ensures
            r == wave_after(*self, side, lock, trend, no_position),
            r.wf() || !self.wf(),
    {
        if lock {
            return WaveState::new();
        }
        let flat: u32 = if no_position && trend != Trend::UpRising && trend != Trend::DownRising {
            count_up(self.flat_buys_since_lock, MAX_FLAT_BUYS_NO_POSITION)
        } else {
            self.flat_buys_since_lock
        };
        match side {
            Side::Up => WaveState {
                buys_up_since_lock: count_up(self.buys_up_since_lock, MAX_RISING_BUYS_PER_WAVE),
                buys_down_since_lock: self.buys_down_since_lock,
                flat_buys_since_lock: flat,
            },
            Side::Down => WaveState {
                buys_up_since_lock: self.buys_up_since_lock,
                buys_down_since_lock: count_up(self.buys_down_since_lock, MAX_RISING_BUYS_PER_WAVE),
                flat_buys_since_lock: flat,
            },
        }
    }
}

/// A count one higher, but at most `max`.
fn count_up(n: u32, max: u32) -> (r: u32)
    ensures
        r == counted(n, max),
{
    if n < max {
        n + 1
    } else {
        max
    }
}

fn is_rising(trend: Trend, side: Side) -> (r: bool)
    ensures
        r == (trend == rising(side)),
{
    match side {
        Side::Up => trend == Trend::UpRising,
        Side::Down => trend == Trend::DownRising,
    }
}

fn should_expand(side: Side, own: &Outlook, other: &Outlook, trend: Trend, wave: &WaveState) -> (r:
    bool)
    ensures
        r == expands(side, *own, *other, trend, *wave),
{
    !own.can_lock && is_rising(trend, side) && own.pnl_if_wins.lt(other.pnl_if_wins)
        && own.price_ok && wave.buys_of(side) < MAX_REBALANCE_BUYS
}

fn within_rebalance_cost(own: &Outlook) -> (r: bool)
    ensures
        r == at_most(own.cost_per_pair, rebalance_cost_max()),
{
    own.cost_per_pair.le(Binary64::from_ratio(false, 102, 100))
}

fn should_ride(side: Side, own: &Outlook, trend: Trend, wave: &WaveState) -> (r: bool)
    ensures
        r == rides(side, *own, trend, *wave),
{
    is_rising(trend, side) && own.price_ok && within_rebalance_cost(own) && wave.buys_of(side)
        < MAX_REBALANCE_BUYS
}

fn should_rebalance(
    side: Side,
    own: &Outlook,
    other: &Outlook,
    trend: Trend,
    wave: &WaveState,
) -> (r: bool)
    ensures
        r == rebalances(side, *own, *other, trend, *wave),
{
    trend != Trend::Flat && own.pnl_if_wins.lt(zero_value()) && own.pnl_if_wins.lt(
        other.pnl_if_wins,
    ) && !is_rising(trend, other_side(side)) && own.price_ok && within_rebalance_cost(own)
        && wave.buys_of(side) < MAX_REBALANCE_BUYS
}

fn choose_empty(up: &Outlook, down: &Outlook, trend: Trend, wave: &WaveState) -> (r: Decision)
    ensures
        r == decide_empty(*up, *down, trend, *wave),
{
    match trend {
        Trend::UpRising => if up.price_ok && wave.buys_up_since_lock
            < MAX_RISING_BUYS_NO_POSITION {
            Decision::Buy { side: Side::Up, lock: false }
        } else {
            Decision::Hold
        },
        Trend::DownRising => if down.price_ok && wave.buys_down_since_lock
            < MAX_RISING_BUYS_NO_POSITION {
            Decision::Buy { side: Side::Down, lock: false }
        } else {
            Decision::Hold
        },
        _ => if wave.flat_buys_since_lock >= MAX_FLAT_BUYS_NO_POSITION {
            Decision::Hold
        } else if down.ask.le(up.ask) {
            if up.price_ok {
                Decision::Buy { side: Side::Up, lock: false }
            } else {
                Decision::Hold
            }
        } else if down.price_ok {
            Decision::Buy { side: Side::Down, lock: false }
        } else {
            Decision::Hold
        },
    }
}

fn choose_one_sided(
    held: Side,
    own: &Outlook,
    other: &Outlook,
    trend: Trend,
    wave: &WaveState,
) -> (r: Decision)
    ensures
        r == decide_one_sided(held, *own, *other, trend, *wave),
{
    if other.can_lock && other.price_ok {
        Decision::Buy { side: other_side(held), lock: true }
    } else if should_expand(other_side(held), other, own, trend, wave) {
        Decision::Buy { side: other_side(held), lock: false }
    } else if is_rising(trend, held) && own.price_ok && wave.buys_of(held)
        < MAX_RISING_BUYS_PER_WAVE {
        Decision::Buy { side: held, lock: false }
    } else {
        Decision::Hold
    }
}

fn choose_two_sided(up: &Outlook, down: &Outlook, trend: Trend, wave: &WaveState) -> (r: Decision)
    ensures
        r == decide_two_sided(*up, *down, trend, *wave),
{
    if down.shares.lt(up.shares) && down.can_lock && down.price_ok {
        Decision::Buy { side: Side::Down, lock: true }
    } else if up.shares.lt(down.shares) && up.can_lock && up.price_ok {
        Decision::Buy { side: Side::Up, lock: true }
    } else if should_expand(Side::Down, down, up, trend, wave) {
        Decision::Buy { side: Side::Down, lock: false }
    } else if should_expand(Side::Up, up, down, trend, wave) {
        Decision::Buy { side: Side::Up, lock: false }
    } else if should_ride(Side::Up, up, trend, wave) {
        Decision::Buy { side: Side::Up, lock: false }
    } else if should_ride(Side::Down, down, trend, wave) {
        Decision::Buy { side: Side::Down, lock: false }
    } else if should_rebalance(Side::Down, down, up, trend, wave) {
        Decision::Buy { side: Side::Down, lock: false }
    } else if should_rebalance(Side::Up, up, down, trend, wave) {
        Decision::Buy { side: Side::Up, lock: false }
    } else if trend == Trend::DownFalling && up.price_ok && wave.buys_up_since_lock
        < MAX_RISING_BUYS_PER_WAVE {
        Decision::Buy { side: Side::Up, lock: false }
    } else if trend == Trend::UpFalling && down.price_ok && wave.buys_down_since_lock
        < MAX_RISING_BUYS_PER_WAVE {
        Decision::Buy { side: Side::Down, lock: false }
    } else {
        Decision::Hold
    }
}

/// What to buy.
pub fn decide(up: &Outlook, down: &Outlook, trend: Trend, wave: &WaveState) -> (r: Decision)
    ensures
        r == decision(*up, *down, trend, *wave),
{
    let zero: Binary64 = zero_value();
    if !up.price_ok && !down.price_ok {
        Decision::Hold
    } else if up.shares.same(zero) && down.shares.same(zero) {
        choose_empty(up, down, trend, wave)
    } else if zero.lt(down.shares) && up.shares.same(zero) {
        choose_one_sided(Side::Down, down, up, trend, wave)
    } else if zero.lt(up.shares) && down.shares.same(zero) {
        choose_one_sided(Side::Up, up, down, trend, wave)
    } else {
        choose_two_sided(up, down, trend, wave)
    }
}

/// The trend of a run of prices.
pub fn read_trend(history: &Vec<Tick>) -> (r: Trend)
    ensures
        r == trend_of(history@),
{
    let n: usize = history.len();
    if n < 4 {
        return Trend::Flat;
    }
    let t: Binary64 = Binary64::from_ratio(false, 5, 1000);
    let down_t: Binary64 = t.negated();
    let up: Binary64 = history[n - 1].up.minus(history[0].up);
    let down: Binary64 = history[n - 1].down.minus(history[0].down);
    if t.le(up) && down.le(up) {
        Trend::UpRising
    } else if t.le(down) && up.le(down) {
        Trend::DownRising
    } else if down.le(down_t) && down.le(up) {
        Trend::DownFalling
    } else if up.le(down_t) && up.le(down) {
        Trend::UpFalling
    } else {
        Trend::Flat
    }
}

impl Settings {
    /// The amount of an order before the end of the market is near.
    pub fn base_order_amount_usdc(&self) -> (r: Binary64)
        ensures
            r == base_amount(*self),
    {
        if let Some(v) = self.order_amount_usdc {
            if zero_value().lt(v) {
                return v.larger(min_order_notional_usdc());
            }
        }
        min_order_notional_usdc()
    }

    /// The amount of an order with `time_remaining_secs` seconds left.
    pub fn order_amount_usdc_with_time(&self, time_remaining_secs: u64) -> (r: Binary64)
        ensures
            r == order_amount(*self, time_remaining_secs),
    {
        let base: Binary64 = self.base_order_amount_usdc();
        if self.size_reduce_after_secs == 0 || time_remaining_secs >= self.size_reduce_after_secs {
            return base;
        }
        let left: Binary64 = Binary64::from_u64(time_remaining_secs).over(
            Binary64::from_u64(self.size_reduce_after_secs),
        );
        let part: Binary64 = self.size_min_ratio.plus(
            Binary64::from_u64(1).minus(self.size_min_ratio).times(left),
        );
        let hundred: Binary64 = Binary64::from_u64(100);
        let amount: Binary64 = base.times(part).times(hundred).round().over(hundred);
        amount.larger(self.size_min_amount_usdc).larger(min_order_notional_usdc())
    }
}

/// How many shares an amount buys at an ask, in hundredths of a share.
pub fn size_of_order(amount: Binary64, ask: Binary64) -> (r: Binary64)
    ensures
        r == order_size(amount, ask),
{
    let hundred: Binary64 = Binary64::from_u64(100);
    amount.over(ask).times(hundred).floor().over(hundred)
}

} // verus!
