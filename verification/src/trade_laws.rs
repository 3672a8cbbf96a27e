//! What a snapshot, a purchase and a closed market each make of a trader.
use crate::binary64::{
    abs, difference, equals, floored, lemma_zero, less, nearest, product, quotient, ratio, rounded,
    sum, unit, whole, Binary64,
};
use crate::models::{has_won, is_resolved, PriceView, TokenView};
use crate::strategy::{
    decision, history_after, order_amount, order_size, outlook, trend_of, wave_after, Decision,
    Position, Settings, Side, Tick, WaveState,
};
use crate::strategy_laws::law_order_amount_is_enough;
use crate::text::{contains, decimal, uppercase};
use crate::trader::{
    market_key, ordered_shares, settlement, BuyView, LastBuy, SnapshotView, TradeView, TraderView,
};
use crate::trader_laws::{law_order_is_not_empty, lemma_ask_is_finite};
use vstd::arithmetic::power::{lemma_pow0, pow};
use vstd::prelude::*;

verus! {

/// The binary64 number nearest to a price that is asked, zero where none is.
pub open spec fn asked(p: Option<PriceView>) -> Binary64 {
    match p {
        Some(p) => match p.ask {
            Some(d) => nearest(
                d.mantissa < 0,
                abs(d.mantissa as int) * unit(),
                pow(10, d.scale as nat),
            ),
            None => whole(0),
        },
        None => whole(0),
    }
}

/// Each side has the ask of its own token.
pub proof fn law_ask_is_of_its_side(s: SnapshotView)
    ensures
        s.ask(Side::Up) == asked(s.up),
        s.ask(Side::Down) == asked(s.down),
{
    lemma_pow0(10);
    assert(0 * unit() == 0);
}

/// Each side has its own token.
pub proof fn law_token_is_of_its_side(s: SnapshotView)
    ensures
        s.up matches Some(p) ==> s.token_id(Side::Up) == p.token_id,
        s.down matches Some(p) ==> s.token_id(Side::Down) == p.token_id,
{
}

/// A trader begins with nothing held, nothing noted and nothing earned, in the mode and
/// with the settings it is given.
pub proof fn law_trader_begins_with_nothing(
    simulation_mode: bool,
    settings: Settings,
    key: Seq<char>,
)
    ensures
        ({
            let t = TraderView::start(simulation_mode, settings);
            &&& t.simulation_mode == simulation_mode
            &&& t.settings == settings
            &&& !t.last_buy.contains_key(key)
            &&& !t.trades.contains_key(key)
            &&& !t.closure_checked.contains_key(key)
            &&& !t.price_history.contains_key(key)
            &&& !t.wave_state.contains_key(key)
            &&& t.total_profit == whole(0)
            &&& t.period_profit == whole(0)
        }),
{
}

/// What is known of a market in a period that was not met yet is nothing.
pub proof fn law_unknown_market_is_empty(t: TraderView, key: Seq<char>)
    ensures
        t.trades.contains_key(key) ==> t.position(key) == t.trades[key].position,
        !t.trades.contains_key(key) ==> t.position(key) == (Position {
            up_shares: whole(0),
            down_shares: whole(0),
            up_avg_price: whole(0),
            down_avg_price: whole(0),
        }),
        t.wave_state.contains_key(key) ==> t.wave(key) == t.wave_state[key],
        !t.wave_state.contains_key(key) ==> t.wave(key) == (WaveState {
            buys_up_since_lock: 0,
            buys_down_since_lock: 0,
            flat_buys_since_lock: 0,
        }),
        t.price_history.contains_key(key) ==> t.history(key) == t.price_history[key],
        !t.price_history.contains_key(key) ==> t.history(key) == Seq::<Tick>::empty(),
{
}

/// The amount of an order depends on the settings and the time that is left alone, and
/// each side is ordered for that amount at its own ask.
pub proof fn law_order_is_for_its_side(t: TraderView, s: SnapshotView, side: Side)
    ensures
        equals(t.amount(s), order_amount(t.settings, s.time_remaining)),
        t.size(s, Side::Up) == order_size(t.amount(s), asked(s.up)),
        t.size(s, Side::Down) == order_size(t.amount(s), asked(s.down)),
{
    law_ask_is_of_its_side(s);
    law_order_amount_is_enough(t.settings, s.time_remaining);
}

/// Shares are counted down to whole hundredths, and what is ordered of them is counted in
/// ten-thousandths.
pub proof fn law_shares_are_counted(amount: Binary64, ask: Binary64, size: Binary64)
    ensures
        ({
            let shares = quotient(amount, ask);
            order_size(amount, ask) == quotient(floored(product(shares, whole(100))), whole(100))
        }),
        ordered_shares(size) == quotient(rounded(product(size, whole(10000))), whole(10000)),
{
}

/// A snapshot can be traded on: the market is open, both sides are asked for, something
/// of both can be ordered, and nothing is held where one purchase is enough.
pub open spec fn can_trade(t: TraderView, s: SnapshotView, one_shot: bool) -> bool {
    let p = t.position(s.key());
    &&& s.time_remaining > 0
    &&& less(whole(0), asked(s.up))
    &&& less(whole(0), asked(s.down))
    &&& less(whole(0), t.size(s, Side::Up))
    &&& less(whole(0), t.size(s, Side::Down))
    &&& !one_shot || !(less(whole(0), p.up_shares) || less(whole(0), p.down_shares))
}

/// The prices of a snapshot.
pub open spec fn tick_of(s: SnapshotView, now: u64) -> Tick {
    Tick { time: now, up: asked(s.up), down: asked(s.down) }
}

/// What is decided on a snapshot: by what is held, both asks, the prices up to these
/// ones and what was bought since the last lock.
pub open spec fn decided(t: TraderView, s: SnapshotView, now: u64) -> Decision {
    let key = s.key();
    let p = t.position(key);
    decision(
        outlook(t.settings, p, Side::Up, asked(s.up), t.size(s, Side::Up)),
        outlook(t.settings, p, Side::Down, asked(s.down), t.size(s, Side::Down)),
        trend_of(history_after(t.history(key), tick_of(s, now))),
        t.wave(key),
    )
}

/// The market was bought in this period, and less than the cooldown ago: that of an hour
/// for markets of an hour and for those whose name tells of `1H`, in any case.
pub open spec fn too_soon(t: TraderView, s: SnapshotView, now: u64) -> bool {
    let cooldown = if s.duration >= 3600 || contains(uppercase(s.market_name), "1H"@) {
        t.settings.cooldown_seconds_1h
    } else {
        t.settings.cooldown_seconds
    };
    let last = t.last_buy[s.condition_id];
    t.last_buy.contains_key(s.condition_id) && last.period == s.period && now < last.time + cooldown
}

proof fn lemma_can_trade(t: TraderView, s: SnapshotView, one_shot: bool)
    requires
        s.wf(),
    ensures
        can_trade(t, s, one_shot) <==> t.tradable(s, one_shot),
{
    law_ask_is_of_its_side(s);
    lemma_zero();
    lemma_ask_is_finite(s, Side::Up);
    lemma_ask_is_finite(s, Side::Down);
    if t.tradable(s, one_shot) {
        law_order_is_not_empty(t, s, Side::Up, one_shot);
        law_order_is_not_empty(t, s, Side::Down, one_shot);
    }
}

/// A snapshot that cannot be traded on changes nothing. The prices of one that can are
/// added to those of its market. It calls for a purchase exactly where one is decided
/// and the cooldown is over, and then for the one that was decided.
pub proof fn law_snapshot_is_acted_on(t: TraderView, s: SnapshotView, now: u64, one_shot: bool)
    requires
        s.wf(),
    ensures
        ({
            let (after, buy) = t.plan(s, now, one_shot);
            let key = s.key();
            let can = can_trade(t, s, one_shot);
            &&& !can ==> after == t && buy is None
            &&& can ==> after.price_history == t.price_history.insert(
                key,
                history_after(t.history(key), tick_of(s, now)),
            )
            &&& buy is Some <==> can && decided(t, s, now) is Buy && !too_soon(t, s, now)
            &&& buy matches Some(b) ==> decided(t, s, now) == (Decision::Buy {
                side: b.side,
                lock: b.lock,
            })
        }),
{
    law_ask_is_of_its_side(s);
    lemma_can_trade(t, s, one_shot);
    let t2 = t.seen(s, now);
    assert(t2.history(s.key()) == history_after(t.history(s.key()), tick_of(s, now)));
    assert(t2.position(s.key()) == t.position(s.key()));
    assert(t2.wave(s.key()) == t.wave(s.key()));
    assert(t2.decision(s) == decided(t, s, now));
    assert(t2.cooling(s, now) == too_soon(t, s, now));
}

/// A purchase is of the market and the period of its snapshot, of the token of the side
/// that is bought, at the ask and for the size of that side, and it is that size that is
/// ordered. It tells the trend it was made on and whether nothing was held before.
pub proof fn law_purchase_is_of_its_snapshot(
    t: TraderView,
    s: SnapshotView,
    now: u64,
    one_shot: bool,
)
    requires
        s.wf(),
    ensures
        t.plan(s, now, one_shot).1 matches Some(b) ==> {
            let p = t.position(s.key());
            let price = match b.side {
                Side::Up => s.up,
                Side::Down => s.down,
            };
            &&& b.market_name == s.market_name
            &&& b.condition_id == s.condition_id
            &&& b.period_timestamp == s.period
            &&& b.market_duration_secs == s.duration
            &&& price is Some
            &&& b.token_id == (price->0).token_id
            &&& b.price == asked(price)
            &&& b.size == order_size(t.amount(s), asked(price))
            &&& b.trend == trend_of(history_after(t.history(s.key()), tick_of(s, now)))
            &&& b.no_position <==> equals(p.up_shares, whole(0)) && equals(p.down_shares, whole(0))
            &&& b.order_shares is None <==> t.simulation_mode
            &&& b.order_shares matches Some(n) ==> n == ordered_shares(b.size)
        },
{
    law_ask_is_of_its_side(s);
    law_token_is_of_its_side(s);
    lemma_can_trade(t, s, one_shot);
    lemma_zero();
    let t2 = t.seen(s, now);
    assert(t2.history(s.key()) == history_after(t.history(s.key()), tick_of(s, now)));
    assert(t2.position(s.key()) == t.position(s.key()));
}

/// Setting out a purchase notes its time and period for its market. With the first one
/// of a period what was noted of other markets is forgotten, else it stays. Nothing that
/// is held, counted or earned changes, and without a purchase nothing is noted.
pub proof fn law_purchase_is_noted(
    t: TraderView,
    s: SnapshotView,
    now: u64,
    one_shot: bool,
    other: Seq<char>,
)
    ensures
        ({
            let (after, buy) = t.plan(s, now, one_shot);
            let cid = s.condition_id;
            let again = t.last_buy.contains_key(cid) && t.last_buy[cid].period == s.period;
            &&& buy is None ==> after.last_buy == t.last_buy
            &&& buy is Some ==> {
                &&& after.last_buy.contains_key(cid)
                &&& after.last_buy[cid] == (LastBuy { time: now, period: s.period })
                &&& other != cid && again ==> (after.last_buy.contains_key(other)
                    <==> t.last_buy.contains_key(other)) && after.last_buy[other]
                    == t.last_buy[other]
                &&& other != cid && !again ==> !after.last_buy.contains_key(other)
            }
            &&& after.simulation_mode == t.simulation_mode
            &&& after.settings == t.settings
            &&& after.trades == t.trades
            &&& after.wave_state == t.wave_state
            &&& after.closure_checked == t.closure_checked
            &&& after.total_profit == t.total_profit
            &&& after.period_profit == t.period_profit
        }),
{
}

/// The report of a purchase tells what the position is once it is made: the shares and
/// the average price of each side, what each has cost, and what is earned if one wins.
pub proof fn law_report_tells_position_after(
    t: TraderView,
    s: SnapshotView,
    now: u64,
    one_shot: bool,
)
    requires
        s.wf(),
    ensures
        t.plan(s, now, one_shot).1 matches Some(b) ==> {
            let p = t.position(s.key());
            let after = p.bought(b.side, b.size, b.price);
            let r = b.report;
            let paid = product(b.size, b.price);
            let up_cost = product(p.up_shares, p.up_avg_price);
            let down_cost = product(p.down_shares, p.down_avg_price);
            &&& r.up_shares == after.up_shares
            &&& r.down_shares == after.down_shares
            &&& r.invest_up == (if b.side == Side::Up {
                sum(up_cost, paid)
            } else {
                up_cost
            })
            &&& r.invest_down == (if b.side == Side::Down {
                sum(down_cost, paid)
            } else {
                down_cost
            })
            &&& r.total_invest == sum(r.invest_up, r.invest_down)
            &&& r.pnl_if_up_wins == difference(r.up_shares, r.total_invest)
            &&& r.pnl_if_down_wins == difference(r.down_shares, r.total_invest)
            &&& b.side == Side::Up && less(whole(0), after.up_shares) ==> r.up_avg
                == after.up_avg_price
            &&& b.side == Side::Down && less(whole(0), after.down_shares) ==> r.down_avg
                == after.down_avg_price
            &&& b.side == Side::Up ==> r.down_avg == (if less(whole(0), p.down_shares) {
                p.down_avg_price
            } else {
                whole(0)
            })
            &&& b.side == Side::Down ==> r.up_avg == (if less(whole(0), p.up_shares) {
                p.up_avg_price
            } else {
                whole(0)
            })
            &&& r.order_amount_raw == order_amount(t.settings, s.time_remaining)
            &&& equals(r.order_amount, r.order_amount_raw)
        },
{
    law_order_is_for_its_side(t, s, Side::Up);
    lemma_zero();
    let t2 = t.seen(s, now);
    assert(t2.position(s.key()) == t.position(s.key()));
}

/// The report of a purchase tells what a pair costs, and the price where there is none.
pub proof fn law_report_tells_cost_per_pair(
    t: TraderView,
    s: SnapshotView,
    now: u64,
    one_shot: bool,
)
    requires
        s.wf(),
    ensures
        t.plan(s, now, one_shot).1 matches Some(b) ==> {
            let o = outlook(t.settings, t.position(s.key()), b.side, b.price, b.size);
            b.report.cost_per_pair == (if less(whole(0), o.pairs_after) {
                o.cost_per_pair
            } else {
                b.price
            })
        },
{
    let t2 = t.seen(s, now);
    assert(t2.position(s.key()) == t.position(s.key()));
}

/// A purchase that is made is added to the trade of its market and period, with the token
/// of its side; the first one opens that trade. It is counted by its side, its trend and
/// what was held. Nothing else changes.
pub proof fn law_purchase_is_recorded(t: TraderView, b: BuyView, other: Seq<char>)
    ensures
        ({
            let key = market_key(b.condition_id, b.period_timestamp);
            let after = t.finished(b);
            let trade = after.trades[key];
            let known = t.trades.contains_key(key);
            &&& after.trades.contains_key(key)
            &&& trade.position == t.position(key).bought(b.side, b.size, b.price)
            &&& b.side == Side::Up ==> trade.up_token_id == Some(b.token_id) && trade.down_token_id
                == (if known {
                t.trades[key].down_token_id
            } else {
                None
            })
            &&& b.side == Side::Down ==> trade.down_token_id == Some(b.token_id)
                && trade.up_token_id == (if known {
                t.trades[key].up_token_id
            } else {
                None
            })
            &&& trade.condition_id == (if known {
                t.trades[key].condition_id
            } else {
                b.condition_id
            })
            &&& trade.period_timestamp == (if known {
                t.trades[key].period_timestamp
            } else {
                b.period_timestamp
            })
            &&& trade.market_duration_secs == (if known {
                t.trades[key].market_duration_secs
            } else {
                b.market_duration_secs
            })
            &&& after.wave(key) == wave_after(t.wave(key), b.side, b.lock, b.trend, b.no_position)
            &&& other != key ==> after.wave(other) == t.wave(other) && after.position(other)
                == t.position(other) && (after.trades.contains_key(other)
                <==> t.trades.contains_key(other)) && after.trades[other] == t.trades[other]
            &&& after.last_buy == t.last_buy
            &&& after.price_history == t.price_history
            &&& after.closure_checked == t.closure_checked
            &&& after.total_profit == t.total_profit
            &&& after.period_profit == t.period_profit
            &&& after.settings == t.settings
            &&& after.simulation_mode == t.simulation_mode
        }),
{
}

/// A purchase adds its shares to its side, whose average price then is what all its
/// shares have cost, by the share. The other side stays.
pub proof fn law_position_grows(p: Position, size: Binary64, price: Binary64)
    ensures
        ({
            let up = p.bought(Side::Up, size, price);
            let down = p.bought(Side::Down, size, price);
            let up_cost = sum(product(p.up_shares, p.up_avg_price), product(size, price));
            let down_cost = sum(product(p.down_shares, p.down_avg_price), product(size, price));
            &&& up.up_shares == sum(p.up_shares, size)
            &&& less(whole(0), up.up_shares) ==> up.up_avg_price == quotient(up_cost, up.up_shares)
            &&& !less(whole(0), up.up_shares) ==> up.up_avg_price == price
            &&& up.down_shares == p.down_shares
            &&& up.down_avg_price == p.down_avg_price
            &&& down.down_shares == sum(p.down_shares, size)
            &&& less(whole(0), down.down_shares) ==> down.down_avg_price == quotient(
                down_cost,
                down.down_shares,
            )
            &&& !less(whole(0), down.down_shares) ==> down.down_avg_price == price
            &&& down.up_shares == p.up_shares
            &&& down.up_avg_price == p.up_avg_price
        }),
{
}

/// A trade is to be settled from the end of its period on, once for its market.
pub proof fn law_trade_is_due_from_its_end(t: TraderView, key: Seq<char>, now: u64)
    ensures
        ({
            let trade = t.trades[key];
            let cid = trade.condition_id;
            t.due(key, now) <==> t.trades.contains_key(key) && trade.period_timestamp
                + trade.market_duration_secs <= now && !(t.closure_checked.contains_key(cid)
                && t.closure_checked[cid])
        }),
{
}

/// Some token of the given id is a winner.
pub open spec fn is_winner(tokens: Seq<TokenView>, id: Option<Seq<char>>) -> bool {
    id matches Some(id) && exists|i: int|
        0 <= i < tokens.len() && (#[trigger] tokens[i]).token_id == id && tokens[i].winner
}

/// A settled trade pays a dollar for each share of the side whose token won, and nothing
/// where neither did. It has earned that less what both sides cost.
pub proof fn law_settlement_pays_winner(
    trade: TradeView,
    tokens: Seq<TokenView>,
    simulation_mode: bool,
)
    ensures
        ({
            let r = settlement(trade, tokens, simulation_mode);
            let p = trade.position;
            let up = is_winner(tokens, trade.up_token_id);
            let down = is_winner(tokens, trade.down_token_id);
            let cost = sum(
                product(p.up_shares, p.up_avg_price),
                product(p.down_shares, p.down_avg_price),
            );
            &&& r.condition_id == trade.condition_id
            &&& r.position == p
            &&& r.total_cost == cost
            &&& up ==> r.winner == Some(Side::Up) && r.payout == p.up_shares && r.pnl == difference(
                p.up_shares,
                cost,
            )
            &&& down && !up ==> r.winner == Some(Side::Down) && r.payout == p.down_shares && r.pnl
                == difference(p.down_shares, cost)
            &&& !up && !down ==> r.winner is None && r.payout == whole(0) && r.pnl == difference(
                whole(0),
                cost,
            )
        }),
{
}

/// A token is redeemed where one of the trade has won and orders are placed in earnest:
/// that of up where up has won and more than 0.001 of its shares are held, else that of
/// down.
pub proof fn law_winner_is_redeemed(
    trade: TradeView,
    tokens: Seq<TokenView>,
    simulation_mode: bool,
)
    ensures
        ({
            let r = settlement(trade, tokens, simulation_mode).redeem;
            let up = is_winner(tokens, trade.up_token_id);
            let down = is_winner(tokens, trade.down_token_id);
            let held = less(ratio(1, 1000), trade.position.up_shares);
            &&& r is Some <==> !simulation_mode && (up || down)
            &&& r matches Some((id, side)) ==> {
                &&& side == Side::Up <==> up && held
                &&& up && held ==> Some(id) == trade.up_token_id
                &&& !(up && held) && trade.down_token_id is Some ==> Some(id) == trade.down_token_id
                &&& !(up && held) && trade.down_token_id is None ==> id == Seq::<char>::empty()
            }
        }),
{
}

/// Settling adds the profit to both sums, takes the trade out and notes its market, so
/// that it is not settled again. Nothing else changes.
pub proof fn law_settling(t: TraderView, key: Seq<char>, pnl: Binary64, other: Seq<char>)
    requires
        t.trades.contains_key(key),
    ensures
        ({
            let after = t.settled(key, pnl);
            let cid = t.trades[key].condition_id;
            &&& after.total_profit == sum(t.total_profit, pnl)
            &&& after.period_profit == sum(t.period_profit, pnl)
            &&& !after.trades.contains_key(key)
            &&& other != key ==> (after.trades.contains_key(other) <==> t.trades.contains_key(
                other,
            )) && after.trades[other] == t.trades[other]
            &&& after.closure_checked.contains_key(cid) && after.closure_checked[cid]
            &&& other != cid ==> (after.closure_checked.contains_key(other)
                <==> t.closure_checked.contains_key(other)) && after.closure_checked[other]
                == t.closure_checked[other]
            &&& after.last_buy == t.last_buy
            &&& after.price_history == t.price_history
            &&& after.wave_state == t.wave_state
            &&& after.settings == t.settings
            &&& after.simulation_mode == t.simulation_mode
        }),
{
}

/// A market is resolved exactly where one of its tokens is a winner, and a trade has a
/// winner only in a resolved market.
pub proof fn law_resolved_market_has_winner(tokens: Seq<TokenView>, id: Seq<char>)
    ensures
        is_resolved(tokens) <==> exists|i: int|
            0 <= i < tokens.len() && (#[trigger] tokens[i]).winner,
        has_won(tokens, id) <==> is_winner(tokens, Some(id)),
        has_won(tokens, id) ==> is_resolved(tokens),
{
}

/// The text under which a market is kept is its condition, a colon and its period.
pub proof fn law_market_is_kept_by_period(condition_id: Seq<char>, period: u64, s: SnapshotView)
    ensures
        market_key(condition_id, period) == condition_id + ":"@ + decimal(period as nat),
        s.key() == s.condition_id + ":"@ + decimal(s.period as nat),
{
}

} // verus!
