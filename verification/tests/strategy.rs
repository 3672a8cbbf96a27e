use updown::binary64::Binary64;
use updown::strategy::{
    decide, look_at, min_order_notional_usdc, other_side, read_trend, size_of_order, Decision,
    Outlook, Position, Settings, Side, Tick, Trend, WaveState,
};

fn of(x: f64) -> Binary64 {
    Binary64 { bits: x.to_bits() }
}

fn float(b: Binary64) -> f64 {
    f64::from_bits(b.bits)
}

fn settings() -> Settings {
    Settings {
        cost_per_pair_max: of(0.99),
        min_side_price: of(0.05),
        max_side_price: of(0.99),
        cooldown_seconds: 0,
        cooldown_seconds_1h: 45,
        order_amount_usdc: Some(of(10.0)),
        size_reduce_after_secs: 300,
        size_min_ratio: of(0.5),
        size_min_amount_usdc: of(2.0),
    }
}

fn position(up: f64, up_avg: f64, down: f64, down_avg: f64) -> Position {
    Position {
        up_shares: of(up),
        down_shares: of(down),
        up_avg_price: of(up_avg),
        down_avg_price: of(down_avg),
    }
}

/// What is bought with 24 shares of either side on offer.
fn choice(p: Position, up_ask: f64, down_ask: f64, trend: Trend, wave: WaveState) -> Decision {
    let s: Settings = settings();
    let up: Outlook = look_at(&s, &p, Side::Up, of(up_ask), of(24.0));
    let down: Outlook = look_at(&s, &p, Side::Down, of(down_ask), of(24.0));
    decide(&up, &down, trend, &wave)
}

fn buy(side: Side, lock: bool) -> Decision {
    Decision::Buy { side, lock }
}

fn wave(up: u32, down: u32, flat: u32) -> WaveState {
    WaveState { buys_up_since_lock: up, buys_down_since_lock: down, flat_buys_since_lock: flat }
}

fn ticks(prices: &[(f64, f64)]) -> Vec<Tick> {
    let mut r: Vec<Tick> = Vec::new();
    for (up, down) in prices {
        r.push(Tick { time: r.len() as u64, up: of(*up), down: of(*down) });
    }
    r
}

#[test]
fn without_a_position_the_rising_side_is_bought_twice() {
    let none: Position = Position::none();
    assert_eq!(choice(none, 0.52, 0.49, Trend::UpRising, wave(0, 0, 0)), buy(Side::Up, false));
    assert_eq!(choice(none, 0.52, 0.49, Trend::UpRising, wave(1, 0, 0)), buy(Side::Up, false));
    assert_eq!(choice(none, 0.52, 0.49, Trend::UpRising, wave(2, 0, 0)), Decision::Hold);
    assert_eq!(choice(none, 0.52, 0.49, Trend::DownRising, wave(2, 1, 0)), buy(Side::Down, false));
    assert_eq!(choice(none, 0.52, 0.49, Trend::DownRising, wave(0, 2, 0)), Decision::Hold);
}

#[test]
fn without_a_trend_the_higher_side_is_bought_four_times() {
    let none: Position = Position::none();
    for trend in [Trend::Flat, Trend::UpFalling, Trend::DownFalling] {
        assert_eq!(choice(none, 0.52, 0.49, trend, wave(0, 0, 3)), buy(Side::Up, false));
        assert_eq!(choice(none, 0.5, 0.5, trend, wave(0, 0, 0)), buy(Side::Up, false));
        assert_eq!(choice(none, 0.49, 0.52, trend, wave(0, 0, 0)), buy(Side::Down, false));
        assert_eq!(choice(none, 0.52, 0.49, trend, wave(0, 0, 4)), Decision::Hold);
    }
}

#[test]
fn prices_past_the_limits_are_not_paid() {
    let none: Position = Position::none();
    let w: WaveState = WaveState::new();
    assert_eq!(choice(none, 0.995, 0.01, Trend::UpRising, w), Decision::Hold);
    assert_eq!(choice(none, 0.995, 0.06, Trend::UpRising, w), Decision::Hold);
    // The higher side is too dear, and the lower one is not bought in its place.
    assert_eq!(choice(none, 0.995, 0.06, Trend::Flat, w), Decision::Hold);
    assert_eq!(choice(none, 0.06, 0.995, Trend::Flat, w), Decision::Hold);
    // The limits themselves are within.
    assert_eq!(choice(none, 0.99, 0.01, Trend::UpRising, w), buy(Side::Up, false));
    assert_eq!(choice(none, 0.01, 0.05, Trend::DownRising, w), buy(Side::Down, false));
}

#[test]
fn a_cheap_other_side_is_locked() {
    let p: Position = position(48.0, 0.52, 0.0, 0.0);
    for trend in [Trend::UpRising, Trend::Flat, Trend::DownRising] {
        assert_eq!(choice(p, 0.57, 0.44, trend, wave(2, 0, 0)), buy(Side::Down, true));
    }
    let q: Position = position(0.0, 0.0, 48.0, 0.52);
    assert_eq!(choice(q, 0.44, 0.57, Trend::DownRising, wave(0, 2, 0)), buy(Side::Up, true));
}

#[test]
fn a_dear_other_side_is_opened_when_it_rises() {
    let p: Position = position(48.0, 0.52, 0.0, 0.0);
    assert_eq!(choice(p, 0.47, 0.54, Trend::DownRising, wave(2, 0, 0)), buy(Side::Down, false));
    assert_eq!(choice(p, 0.47, 0.54, Trend::Flat, wave(2, 0, 0)), Decision::Hold);
    // The side that is held is ridden three times at most.
    assert_eq!(choice(p, 0.47, 0.54, Trend::UpRising, wave(2, 0, 0)), buy(Side::Up, false));
    assert_eq!(choice(p, 0.47, 0.54, Trend::UpRising, wave(3, 0, 0)), Decision::Hold);
    let q: Position = position(0.0, 0.0, 48.0, 0.52);
    assert_eq!(choice(q, 0.54, 0.47, Trend::UpRising, wave(0, 2, 0)), buy(Side::Up, false));
    assert_eq!(choice(q, 0.54, 0.47, Trend::DownRising, wave(0, 2, 0)), buy(Side::Down, false));
}

#[test]
fn with_both_sides_the_smaller_one_is_locked() {
    let p: Position = position(48.0, 0.52, 24.0, 0.54);
    // (48 * 0.52 + 24 * 0.54 + 24 * 0.40) / 48 is a last digit above 0.99.
    assert_eq!(choice(p, 0.61, 0.40, Trend::Flat, wave(0, 0, 0)), Decision::Hold);
    assert_eq!(choice(p, 0.62, 0.39, Trend::UpRising, wave(0, 0, 0)), buy(Side::Down, true));
    let q: Position = position(24.0, 0.54, 48.0, 0.52);
    assert_eq!(choice(q, 0.39, 0.62, Trend::Flat, wave(0, 0, 0)), buy(Side::Up, true));
}

#[test]
fn with_both_sides_the_worse_one_is_opened_when_it_rises() {
    let p: Position = position(48.0, 0.52, 24.0, 0.54);
    assert_eq!(choice(p, 0.41, 0.60, Trend::DownRising, wave(0, 0, 0)), buy(Side::Down, false));
    let q: Position = position(24.0, 0.54, 48.0, 0.52);
    assert_eq!(choice(q, 0.60, 0.41, Trend::UpRising, wave(0, 0, 0)), buy(Side::Up, false));
}

#[test]
fn with_both_sides_nothing_is_bought_while_prices_stand() {
    let p: Position = position(48.0, 0.52, 72.0, 0.58);
    assert_eq!(choice(p, 0.41, 0.60, Trend::Flat, wave(0, 0, 0)), Decision::Hold);
}

#[test]
fn with_both_sides_the_winner_is_ridden() {
    // A pair costs less than 1.02, so the rising side is bought though it leads.
    let p: Position = position(100.0, 0.50, 100.0, 0.50);
    assert_eq!(choice(p, 0.50, 0.55, Trend::UpRising, wave(0, 0, 0)), Decision::Hold);
    let q: Position = position(100.0, 0.40, 100.0, 0.40);
    assert_eq!(choice(q, 0.60, 0.45, Trend::UpRising, wave(3, 3, 0)), buy(Side::Up, false));
    assert_eq!(choice(q, 0.45, 0.60, Trend::DownRising, wave(3, 3, 0)), buy(Side::Down, false));
    assert_eq!(choice(q, 0.60, 0.45, Trend::UpRising, wave(8, 3, 0)), Decision::Hold);
}

#[test]
fn with_both_sides_a_falling_price_is_followed() {
    let q: Position = position(100.0, 0.40, 100.0, 0.40);
    assert_eq!(choice(q, 0.55, 0.44, Trend::DownFalling, wave(0, 0, 0)), buy(Side::Up, false));
    assert_eq!(choice(q, 0.55, 0.44, Trend::DownFalling, wave(3, 0, 0)), Decision::Hold);
    assert_eq!(choice(q, 0.44, 0.55, Trend::UpFalling, wave(0, 0, 0)), buy(Side::Down, false));
    assert_eq!(choice(q, 0.44, 0.55, Trend::UpFalling, wave(0, 3, 0)), Decision::Hold);
}

#[test]
fn with_both_sides_a_loss_is_bettered() {
    // Down would lose, and a pair still costs no more than 1.02.
    let p: Position = position(40.0, 0.60, 10.0, 0.40);
    let s: Settings = Settings { cost_per_pair_max: of(0.5), ..settings() };
    let up: Outlook = look_at(&s, &p, Side::Up, of(0.55), of(24.0));
    let down: Outlook = look_at(&s, &p, Side::Down, of(0.30), of(24.0));
    assert!(float(down.pnl_if_wins) < 0.0);
    assert!(float(down.cost_per_pair) <= 1.02);
    for trend in [Trend::UpFalling, Trend::DownFalling] {
        assert_eq!(decide(&up, &down, trend, &wave(0, 7, 0)), buy(Side::Down, false));
    }
    assert_eq!(decide(&up, &down, Trend::Flat, &wave(0, 0, 0)), Decision::Hold);
    assert_eq!(decide(&up, &down, Trend::UpFalling, &wave(0, 8, 0)), Decision::Hold);
}

#[test]
fn an_outlook_tells_what_a_purchase_makes_of_the_position() {
    let s: Settings = settings();
    let p: Position = position(48.0, 0.52, 24.0, 0.54);
    let down: Outlook = look_at(&s, &p, Side::Down, of(0.45), of(24.0));
    assert_eq!(float(down.shares_after), 48.0);
    assert_eq!(float(down.cost_after), 24.0 * 0.54 + 24.0 * 0.45);
    assert_eq!(float(down.pairs_after), 48.0);
    assert_eq!(
        float(down.cost_per_pair),
        (48.0 * 0.52 + (24.0 * 0.54 + 24.0 * 0.45)) / 48.0
    );
    assert_eq!(float(down.pnl_if_wins), 24.0 - (48.0 * 0.52 + 24.0 * 0.54));
    // With more of the other side held, only the paired part of it counts.
    let small: Outlook = look_at(&s, &p, Side::Down, of(0.45), of(6.0));
    assert_eq!(
        float(small.cost_per_pair),
        (30.0 * 0.52 + (24.0 * 0.54 + 6.0 * 0.45)) / 30.0
    );
    let up: Outlook = look_at(&s, &p, Side::Up, of(0.56), of(24.0));
    assert_eq!(
        float(up.cost_per_pair),
        ((48.0 * 0.52 + 24.0 * 0.56) + 24.0 * 0.54) / 24.0
    );
    let alone: Outlook = look_at(&s, &Position::none(), Side::Up, of(0.56), of(24.0));
    assert_eq!(float(alone.cost_per_pair), f64::MAX);
    assert!(!alone.can_lock);
}

#[test]
fn a_purchase_changes_shares_and_average_price_of_its_side() {
    let p: Position = Position::none().with_bought(Side::Up, of(24.0), of(0.52));
    assert_eq!(p, position(24.0, (0.0 + 24.0 * 0.52) / 24.0, 0.0, 0.0));
    let q: Position = p.with_bought(Side::Down, of(10.0), of(0.4));
    assert_eq!(q.up_shares, p.up_shares);
    assert_eq!(q.up_avg_price, p.up_avg_price);
    assert_eq!(float(q.down_avg_price), (10.0 * 0.4) / 10.0);
    let r: Position = q.with_bought(Side::Down, of(30.0), of(0.6));
    assert_eq!(float(r.down_shares), 40.0);
    assert_eq!(
        float(r.down_avg_price),
        (10.0 * float(q.down_avg_price) + 30.0 * 0.6) / 40.0
    );
    assert!(Position::none().nothing());
    assert!(!Position::none().held());
    assert!(r.held());
    assert!(!r.nothing());
    let n: Position = Position::none().with_bought(Side::Up, of(-1.0), of(0.3));
    assert_eq!(float(n.up_avg_price), 0.3);
    assert_eq!(other_side(Side::Up), Side::Down);
    assert_eq!(other_side(Side::Down), Side::Up);
}

#[test]
fn a_position_tells_its_costs_and_profits() {
    let p: Position = position(48.0, 0.52, 24.0, 0.54);
    assert_eq!(float(p.cost_of(Side::Up)), 48.0 * 0.52);
    assert_eq!(float(p.cost_of_all()), 48.0 * 0.52 + 24.0 * 0.54);
    assert_eq!(float(p.pnl_if(Side::Up)), 48.0 - (48.0 * 0.52 + 24.0 * 0.54));
    assert_eq!(float(p.pnl_if(Side::Down)), 24.0 - (48.0 * 0.52 + 24.0 * 0.54));
}

#[test]
fn trends_are_read_from_the_first_and_the_last_price() {
    let flat = [(0.5, 0.5), (0.6, 0.4), (0.7, 0.3)];
    assert_eq!(read_trend(&ticks(&flat)), Trend::Flat);
    let up = [(0.50, 0.51), (0.1, 0.1), (0.9, 0.9), (0.52, 0.49)];
    assert_eq!(read_trend(&ticks(&up)), Trend::UpRising);
    let down = [(0.52, 0.49), (0.5, 0.5), (0.5, 0.5), (0.50, 0.51)];
    assert_eq!(read_trend(&ticks(&down)), Trend::DownRising);
    let down_falls = [(0.5, 0.5), (0.5, 0.5), (0.5, 0.5), (0.5, 0.48)];
    assert_eq!(read_trend(&ticks(&down_falls)), Trend::DownFalling);
    let up_falls = [(0.5, 0.5), (0.5, 0.5), (0.5, 0.5), (0.48, 0.5)];
    assert_eq!(read_trend(&ticks(&up_falls)), Trend::UpFalling);
    let small = [(0.5, 0.5), (0.5, 0.5), (0.5, 0.5), (0.504, 0.496)];
    assert_eq!(read_trend(&ticks(&small)), Trend::Flat);
    let same = [(0.3, 0.7), (0.5, 0.5), (0.5, 0.5), (0.3, 0.7)];
    assert_eq!(read_trend(&ticks(&same)), Trend::Flat);
    let both = [(0.4, 0.4), (0.5, 0.5), (0.5, 0.5), (0.6, 0.6)];
    assert_eq!(read_trend(&ticks(&both)), Trend::UpRising);
}

#[test]
fn purchases_are_counted_up_to_their_limits() {
    let w: WaveState = WaveState::new();
    let one: WaveState = w.after_buy(Side::Up, false, Trend::UpRising, true);
    assert_eq!(one, wave(1, 0, 0));
    assert_eq!(one.after_buy(Side::Down, false, Trend::Flat, true), wave(1, 1, 1));
    assert_eq!(one.after_buy(Side::Down, false, Trend::Flat, false), wave(1, 1, 0));
    assert_eq!(one.after_buy(Side::Down, false, Trend::UpFalling, true), wave(1, 1, 1));
    assert_eq!(one.after_buy(Side::Down, true, Trend::Flat, true), wave(0, 0, 0));
    assert_eq!(wave(3, 0, 4).after_buy(Side::Up, false, Trend::Flat, true), wave(3, 0, 4));
}

#[test]
fn the_whole_amount_is_ordered_before_the_end() {
    let s: Settings = settings();
    assert_eq!(float(s.base_order_amount_usdc()), 10.0);
    assert_eq!(float(s.order_amount_usdc_with_time(300)), 10.0);
    assert_eq!(float(s.order_amount_usdc_with_time(5000)), 10.0);
    let off: Settings = Settings { size_reduce_after_secs: 0, ..s };
    assert_eq!(float(off.order_amount_usdc_with_time(1)), 10.0);
}

#[test]
fn less_is_ordered_towards_the_end() {
    let s: Settings = settings();
    assert_eq!(float(s.order_amount_usdc_with_time(0)), 5.0);
    assert_eq!(float(s.order_amount_usdc_with_time(150)), 7.5);
    let third: f64 = (10.0 * (0.5 + (1.0 - 0.5) * (100.0 / 300.0)) * 100.0f64).round() / 100.0;
    assert_eq!(float(s.order_amount_usdc_with_time(100)), third);
    for secs in 1..300u64 {
        let less: f64 = float(s.order_amount_usdc_with_time(secs - 1));
        assert!(less <= float(s.order_amount_usdc_with_time(secs)));
    }
    // Across the moment from which amounts are reduced, and never above the whole.
    for secs in 0..400u64 {
        assert!(float(s.order_amount_usdc_with_time(secs)) <= 10.0);
    }
    let least: Settings = Settings { size_min_amount_usdc: of(6.0), ..s };
    assert_eq!(float(least.order_amount_usdc_with_time(0)), 6.0);
}

#[test]
fn an_order_is_never_below_the_least_amount() {
    assert_eq!(float(min_order_notional_usdc()), 1.1);
    for amount in [None, Some(0.0), Some(-3.0), Some(0.5), Some(f64::NAN)] {
        let s: Settings = Settings {
            order_amount_usdc: amount.map(of),
            size_min_amount_usdc: of(0.0),
            ..settings()
        };
        assert_eq!(float(s.base_order_amount_usdc()), 1.1);
        for secs in [0, 100, 300, 1000] {
            assert_eq!(float(s.order_amount_usdc_with_time(secs)), 1.1);
        }
    }
}

#[test]
fn sizes_are_hundredths_of_a_share() {
    assert_eq!(float(size_of_order(of(10.0), of(0.52))), 19.23);
    assert_eq!(float(size_of_order(of(1.1), of(0.99))), 1.11);
    for cent in 1..=99u32 {
        let ask: f64 = cent as f64 / 100.0;
        let expected: f64 = ((10.0 / ask) * 100.0).floor() / 100.0;
        assert_eq!(float(size_of_order(of(10.0), of(ask))), expected);
    }
}
