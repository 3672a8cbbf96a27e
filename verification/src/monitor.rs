//! Following a market: which period it is in, which tokens it has, and what
//! they cost.
use crate::calendar::{current_year, is_clock_year, read_new_york_hour, read_rfc3339, rfc3339_secs};
use crate::decimal::{decimal_in, read_decimal, Decimal};
use crate::json::{json_of_text, json_string, read_json, write_json_string, Json, JsonView};
use crate::models::{
    copied_price, price_view, price_wf, token_views, Market, MarketData, MarketDetails, PriceView,
    TokenPrice, TokenView,
};
use crate::slug::{
    hourly_end, hourly_start, read_duration, read_hourly_slug, read_timestamp, slug_duration,
    slug_timestamp,
};
use crate::text::{
    contains, decimal, decimal_of, holds, lowercase, optional, same_text, to_lowercase,
    to_uppercase, uppercase,
};
use vstd::prelude::*;
use vstd::string::StringExecFns;

verus! {

#[verifier::external_type_specification]
#[verifier::external_body]
pub struct ExInstant(std::time::Instant);

/// A market that is followed.
pub struct MarketMonitor {
    pub market_name: String,
    pub btc_market_15m: Market,
    pub check_interval_ms: u64,
    pub data_source: String,
    pub btc_15m_up_token_id: Option<String>,
    pub btc_15m_down_token_id: Option<String>,
    pub last_market_refresh: Option<std::time::Instant>,
    pub current_period_timestamp: u64,
    pub period_duration_secs: u64,
    pub clob_url: String,
    /// Period end (unix secs) from the exchange; used when the slug has no timestamp.
    pub cached_period_end_timestamp: Option<u64>,
}

/// The prices of a market at a moment, and how much of its period is left.
pub struct MarketSnapshot {
    pub market_name: String,
    pub btc_market_15m: MarketData,
    pub timestamp: std::time::Instant,
    pub btc_15m_time_remaining: u64,
    pub btc_15m_period_timestamp: u64,
    /// Market duration in seconds (300 for 5m, 900 for 15m, 3600 for 1h).
    pub market_duration_secs: u64,
}

/// `a - b`, and 0 where `b` is larger.
pub open spec fn monus(a: int, b: int) -> int {
    if a > b {
        a - b
    } else {
        0
    }
}

/// The start of the period that holds an instant.
pub open spec fn period_start(now: int, duration: int) -> int {
    now / duration * duration
}

/// The start of a market's period: what the slug tells, else an hour before the
/// end that an hourly slug tells, else one duration before the cached end.
pub open spec fn market_start(slug: Seq<char>, cached: Option<u64>, hourly: Option<u64>) -> int {
    let duration = slug_duration(slug);
    if slug_timestamp(slug) != 0 {
        slug_timestamp(slug)
    } else if duration == 3600 && hourly is Some {
        monus(hourly->0 as int, duration)
    } else if cached is Some {
        monus(cached->0 as int, duration)
    } else {
        0
    }
}

/// The start of the period of a snapshot, which passes over a start of 0.
pub open spec fn snapshot_start(slug: Seq<char>, cached: Option<u64>, hourly: Option<u64>) -> int {
    let duration = slug_duration(slug);
    let told = if duration == 3600 && hourly is Some {
        monus(hourly->0 as int, duration)
    } else {
        0
    };
    if slug_timestamp(slug) != 0 {
        slug_timestamp(slug)
    } else if told != 0 {
        told
    } else if cached is Some {
        monus(cached->0 as int, duration)
    } else {
        0
    }
}

/// A snapshot begins where its market begins, told by the same hourly end. (Where
/// an hourly end is told that is within the first hour of 1970, the snapshot turns
/// to the cached end and the market does not.)
pub proof fn law_snapshot_begins_with_its_market(
    slug: Seq<char>,
    cached: Option<u64>,
    hourly: Option<u64>,
)
    requires
        !(slug_timestamp(slug) == 0 && slug_duration(slug) == 3600 && (hourly matches Some(end)
            && end <= 3600) && (cached matches Some(end) && end > 3600)),
    ensures
        snapshot_start(slug, cached, hourly) == market_start(slug, cached, hourly),
{
}

/// The side that the outcome of a token names: `Some(true)` is up.
pub open spec fn outcome_side(outcome: Seq<char>) -> Option<bool> {
    let upper = uppercase(outcome);
    if contains(upper, "UP"@) || upper == "1"@ {
        Some(true)
    } else if contains(upper, "DOWN"@) || upper == "0"@ {
        Some(false)
    } else {
        None
    }
}

/// The id of the last token of a side, `known` where there is none.
pub open spec fn last_token(tokens: Seq<TokenView>, side: bool, known: Option<Seq<char>>) -> Option<
    Seq<char>,
>
    decreases tokens.len(),
{
    if tokens.len() == 0 {
        known
    } else if outcome_side(tokens.last().outcome) == Some(side) {
        Some(tokens.last().token_id)
    } else {
        last_token(tokens.drop_last(), side, known)
    }
}

/// The instant of an RFC 3339 text, where it is not before 1970.
pub open spec fn iso_to_unix(s: Seq<char>) -> Option<u64> {
    match rfc3339_secs(s) {
        Some(t) => if t >= 0 {
            Some(t as u64)
        } else {
            None
        },
        None => None,
    }
}

/// The prices of a token: the bid is the price at which it is bought, the ask the
/// one at which it is sold. There are none where the token is not known or both
/// prices are missing.
pub open spec fn token_price(
    token_id: Option<Seq<char>>,
    buy_price: Option<Decimal>,
    sell_price: Option<Decimal>,
) -> Option<PriceView> {
    if token_id is Some && (buy_price is Some || sell_price is Some) {
        Some(PriceView { token_id: token_id->0, bid: buy_price, ask: sell_price })
    } else {
        None
    }
}

/// What `secs` seconds are written as.
pub open spec fn remaining_text(secs: nat) -> Seq<char> {
    if secs / 60 > 0 {
        decimal(secs / 60) + "m "@ + decimal(secs % 60) + "s"@
    } else {
        decimal(secs % 60) + "s"@
    }
}

/// What `secs` seconds are written as, such as `4m 7s`.
pub fn format_remaining_time(secs: u64) -> (r: String)
    ensures
        r@ == remaining_text(secs as nat),
{
    if secs == 0 {
        proof {
            reveal_strlit("0s");
            reveal_strlit("s");
            assert("0s"@ =~= decimal(0) + "s"@);
        }
        String::from_str("0s")
    } else {
        let minutes: u64 = secs / 60;
        let seconds: u64 = secs % 60;
        if minutes > 0 {
            let tail: String = decimal_of(seconds).concat("s");
            proof {
                let a = decimal(minutes as nat);
                assert(a + "m "@ + (decimal(seconds as nat) + "s"@) =~= a + "m "@ + decimal(
                    seconds as nat,
                ) + "s"@);
            }
            decimal_of(minutes).concat("m ").concat(tail.as_str())
        } else {
            decimal_of(seconds).concat("s")
        }
    }
}

impl MarketMonitor {
    /// A monitor of `btc_market_15m`, `now` being the seconds since 1970.
    pub fn new(
        market_name: String,
        btc_market_15m: Market,
        check_interval_ms: u64,
        data_source: String,
        clob_url: String,
        now: u64,
    ) -> (r: Self)
        ensures
            r.market_name == market_name,
            r.btc_market_15m == btc_market_15m,
            r.check_interval_ms == check_interval_ms,
            r.data_source@ == lowercase(data_source@),
            r.btc_15m_up_token_id is None,
            r.btc_15m_down_token_id is None,
            r.last_market_refresh is None,
            r.period_duration_secs == slug_duration(btc_market_15m.slug@),
            r.current_period_timestamp == period_start(
                now as int,
                slug_duration(btc_market_15m.slug@),
            ),
            r.clob_url == clob_url,
            r.cached_period_end_timestamp is None,
    {
        let period_duration_secs: u64 = Self::extract_duration_from_slug(
            btc_market_15m.slug.as_str(),
        );
        let current_period: u64 = Self::period_of(now, period_duration_secs);
        MarketMonitor {
            market_name,
            btc_market_15m,
            check_interval_ms,
            data_source: to_lowercase(data_source.as_str()),
            btc_15m_up_token_id: None,
            btc_15m_down_token_id: None,
            last_market_refresh: None,
            current_period_timestamp: current_period,
            period_duration_secs,
            clob_url,
            cached_period_end_timestamp: None,
        }
    }

    /// The start of the period that holds `now`.
    pub fn period_of(now: u64, duration: u64) -> (r: u64)
        requires
            duration > 0,
        ensures
            r == period_start(now as int, duration as int),
            r <= now < r + duration,
            r as int % duration as int == 0,
    {
        proof {
            vstd::arithmetic::div_mod::lemma_fundamental_div_mod(now as int, duration as int);
            vstd::arithmetic::div_mod::lemma_mod_bound(now as int, duration as int);
            assert(now / duration * duration == duration * (now / duration)) by (nonlinear_arith);
            vstd::arithmetic::div_mod::lemma_mod_multiples_basic(
                now as int / duration as int,
                duration as int,
            );
        }
        now / duration * duration
    }

    /// Turns to another market: its tokens and its period end are to be asked
    /// for anew.
    pub fn update_market(&mut self, btc_market_15m: Market, now: u64)
        ensures
            final(self).btc_market_15m == btc_market_15m,
            final(self).btc_15m_up_token_id is None,
            final(self).btc_15m_down_token_id is None,
            final(self).last_market_refresh is None,
            final(self).cached_period_end_timestamp is None,
            final(self).current_period_timestamp == period_start(
                now as int,
                slug_duration(btc_market_15m.slug@),
            ),
            final(self).market_name == old(self).market_name,
            final(self).check_interval_ms == old(self).check_interval_ms,
            final(self).data_source == old(self).data_source,
            final(self).period_duration_secs == old(self).period_duration_secs,
            final(self).clob_url == old(self).clob_url,
    {
        let period_duration_secs: u64 = Self::extract_duration_from_slug(
            btc_market_15m.slug.as_str(),
        );
        self.btc_market_15m = btc_market_15m;
        self.btc_15m_up_token_id = None;
        self.btc_15m_down_token_id = None;
        self.last_market_refresh = None;
        self.cached_period_end_timestamp = None;
        self.current_period_timestamp = Self::period_of(now, period_duration_secs);
    }

    /// The condition id of the market that is followed.
    pub fn get_current_condition_id(&self) -> (r: String)
        ensures
            r@ == self.btc_market_15m.condition_id@,
    {
        self.btc_market_15m.condition_id.clone()
    }

    /// The start of the market's period, `hourly` being the end that an hourly
    /// slug tells.
    pub fn market_timestamp(&self, hourly: Option<u64>) -> (r: u64)
        ensures
            r == market_start(
                self.btc_market_15m.slug@,
                self.cached_period_end_timestamp,
                hourly,
            ),
    {
        let duration: u64 = Self::extract_duration_from_slug(self.btc_market_15m.slug.as_str());
        let from_slug: u64 = Self::extract_timestamp_from_slug(self.btc_market_15m.slug.as_str());
        if from_slug != 0 {
            return from_slug;
        }
        if duration == 3600 {
            if let Some(end) = hourly {
                return end.saturating_sub(duration);
            }
        }
        match self.cached_period_end_timestamp {
            Some(end) => end.saturating_sub(duration),
            None => 0,
        }
    }

    /// The start of the market's period (unix seconds), an hourly slug being
    /// read in the present year.
    pub fn get_current_market_timestamp(&self) -> (r: u64)
        ensures
            exists|year: i32|
                is_clock_year(year) && r == market_start(
                    self.btc_market_15m.slug@,
                    self.cached_period_end_timestamp,
                    #[trigger] hourly_end(self.btc_market_15m.slug@, year),
                ),
    {
        let hourly: Option<u64> = Self::period_end_from_1h_slug(self.btc_market_15m.slug.as_str());
        self.market_timestamp(hourly)
    }

    /// Whether the tokens are to be asked for, `elapsed_secs` after they last were.
    pub fn token_refresh_due(&self, elapsed_secs: u64) -> (r: bool)
        ensures
            r == (self.last_market_refresh is None || elapsed_secs >= 900),
    {
        match self.last_market_refresh {
            Some(_) => elapsed_secs >= 900,
            None => true,
        }
    }

    /// Takes over what the exchange tells of the market, nothing where it could
    /// not be asked. It is asked again soon unless both tokens are known.
    pub fn refresh_market_tokens(
        &mut self,
        details: Option<&MarketDetails>,
        now: std::time::Instant,
    )
        ensures
            optional(final(self).btc_15m_up_token_id) == match details {
                Some(d) => last_token(
                    token_views(d.tokens@),
                    true,
                    optional(old(self).btc_15m_up_token_id),
                ),
                None => optional(old(self).btc_15m_up_token_id),
            },
            optional(final(self).btc_15m_down_token_id) == match details {
                Some(d) => last_token(
                    token_views(d.tokens@),
                    false,
                    optional(old(self).btc_15m_down_token_id),
                ),
                None => optional(old(self).btc_15m_down_token_id),
            },
            final(self).cached_period_end_timestamp == match details {
                Some(d) => match iso_to_unix(d.end_date_iso@) {
                    Some(end) => Some(end),
                    None => old(self).cached_period_end_timestamp,
                },
                None => old(self).cached_period_end_timestamp,
            },
            final(self).last_market_refresh == if final(self).btc_15m_up_token_id is Some
                && final(self).btc_15m_down_token_id is Some {
                Some(now)
            } else {
                old(self).last_market_refresh
            },
            final(self).market_name == old(self).market_name,
            final(self).btc_market_15m == old(self).btc_market_15m,
            final(self).check_interval_ms == old(self).check_interval_ms,
            final(self).data_source == old(self).data_source,
            final(self).current_period_timestamp == old(self).current_period_timestamp,
            final(self).period_duration_secs == old(self).period_duration_secs,
            final(self).clob_url == old(self).clob_url,
    {
        if let Some(d) = details {
            if let Some(end) = Self::parse_iso_to_unix(d.end_date_iso.as_str()) {
                self.cached_period_end_timestamp = Some(end);
            }
            let ghost views = token_views(d.tokens@);
            let ghost up = optional(self.btc_15m_up_token_id);
            let ghost down = optional(self.btc_15m_down_token_id);
            let ghost start = *self;
            let mut i: usize = 0;
            while i < d.tokens.len()
                invariant
                    i <= d.tokens@.len(),
                    views == token_views(d.tokens@),
                    optional(self.btc_15m_up_token_id) == last_token(
                        views.take(i as int),
                        true,
                        up,
                    ),
                    optional(self.btc_15m_down_token_id) == last_token(
                        views.take(i as int),
                        false,
                        down,
                    ),
                    self.market_name == start.market_name,
                    self.btc_market_15m == start.btc_market_15m,
                    self.check_interval_ms == start.check_interval_ms,
                    self.data_source == start.data_source,
                    self.last_market_refresh == start.last_market_refresh,
                    self.current_period_timestamp == start.current_period_timestamp,
                    self.period_duration_secs == start.period_duration_secs,
                    self.clob_url == start.clob_url,
                    self.cached_period_end_timestamp == start.cached_period_end_timestamp,
                decreases d.tokens@.len() - i,
            {
                proof {
                    assert(views.take(i + 1).drop_last() =~= views.take(i as int));
                    assert(views.take(i + 1).last() == d.tokens@[i as int]@);
                }
                let upper: String = to_uppercase(d.tokens[i].outcome.as_str());
                if holds(upper.as_str(), "UP") || same_text(upper.as_str(), "1") {
                    self.btc_15m_up_token_id = Some(d.tokens[i].token_id.clone());
                } else if holds(upper.as_str(), "DOWN") || same_text(upper.as_str(), "0") {
                    self.btc_15m_down_token_id = Some(d.tokens[i].token_id.clone());
                }
                i = i + 1;
            }
            proof {
                assert(views.take(i as int) == views);
            }
        }
        if self.btc_15m_up_token_id.is_some() && self.btc_15m_down_token_id.is_some() {
            self.last_market_refresh = Some(now);
        }
    }

    /// The prices of a token, from the price at which it is bought and the one
    /// at which it is sold; nothing where both are missing.
    pub fn fetch_token_price(
        token_id: &Option<String>,
        buy_price: Option<Decimal>,
        sell_price: Option<Decimal>,
    ) -> (r: Option<TokenPrice>)
        ensures
            price_view(r) == token_price(optional(*token_id), buy_price, sell_price),
    {
        match token_id {
            Some(id) => if buy_price.is_some() || sell_price.is_some() {
                Some(TokenPrice { token_id: id.clone(), bid: buy_price, ask: sell_price })
            } else {
                None
            },
            None => None,
        }
    }

    /// The number behind the last dash of a slug, 0 where there is none.
    pub fn extract_timestamp_from_slug(slug: &str) -> (r: u64)
        ensures
            r == slug_timestamp(slug@),
    {
        read_timestamp(slug)
    }

    /// The instant of an RFC 3339 text, in seconds since 1970.
    pub fn parse_iso_to_unix(s: &str) -> (r: Option<u64>)
        ensures
            r == iso_to_unix(s@),
    {
        match read_rfc3339(s) {
            Some(t) => if t >= 0 {
                Some(t as u64)
            } else {
                None
            },
            None => None,
        }
    }

    /// How long the market of a slug lasts, in seconds.
    pub fn extract_duration_from_slug(slug: &str) -> (r: u64)
        ensures
            r == slug_duration(slug@),
            r == 300 || r == 900 || r == 3600,
    {
        read_duration(slug)
    }

    /// When the market of an hourly slug ends in the given year.
    pub fn period_end_in_year(slug: &str, year: i32) -> (r: Option<u64>)
        ensures
            r == hourly_end(slug@, year),
    {
        match read_hourly_slug(slug) {
            Some((month, day, hour)) => {
                if hour >= 24 {
                    return None;
                }
                match read_new_york_hour(year, month, day, hour as u32) {
                    Some(t) => {
                        let end: i64 = t + 3600;
                        if end < 0 {
                            None
                        } else {
                            Some(end as u64)
                        }
                    },
                    None => None,
                }
            },
            None => None,
        }
    }

    /// When the market of an hourly slug (e.g. bitcoin-up-or-down-february-3-11am-et)
    /// ends in the present year. The slug tells when the period starts, by the
    /// clock of New York; it ends an hour later.
    pub fn period_end_from_1h_slug(slug: &str) -> (r: Option<u64>)
        ensures
            exists|year: i32| is_clock_year(year) && r == #[trigger] hourly_end(slug@, year),
            hourly_start(slug@) is None ==> r is None,
    {
        let year: i32 = current_year();
        Self::period_end_in_year(slug, year)
    }

    /// Whether the market is followed over a socket rather than by polling.
    pub fn uses_websocket(&self) -> (r: bool)
        ensures
            r == (self.data_source@ == "websocket"@),
    {
        same_text(self.data_source.as_str(), "websocket")
    }
}

/// The decimal number under `key`.
pub open spec fn decimal_member(j: JsonView, key: Seq<char>) -> Option<Decimal> {
    match j.text_member(key) {
        Some(s) => decimal_in(s),
        None => None,
    }
}

/// The prices that a message, or an entry of one, tells of the token `id`.
pub open spec fn told_price(j: JsonView, id: Seq<char>) -> PriceView {
    PriceView {
        token_id: id,
        bid: decimal_member(j, "best_bid"@),
        ask: decimal_member(j, "best_ask"@),
    }
}

/// The side that a message, or an entry of one, is about: `Some(true)` is up.
pub open spec fn told_side(j: JsonView, up_id: Seq<char>, down_id: Seq<char>) -> Option<bool> {
    match j.text_member("asset_id"@) {
        Some(id) => if id == up_id {
            Some(true)
        } else if id == down_id {
            Some(false)
        } else {
            None
        },
        None => None,
    }
}

/// The prices that the last entry about a side tells.
pub open spec fn last_change(
    entries: Seq<JsonView>,
    side: bool,
    up_id: Seq<char>,
    down_id: Seq<char>,
) -> Option<PriceView>
    decreases entries.len(),
{
    if entries.len() == 0 {
        None
    } else if told_side(entries.last(), up_id, down_id) == Some(side) {
        Some(
            told_price(
                entries.last(),
                if side {
                    up_id
                } else {
                    down_id
                },
            ),
        )
    } else {
        last_change(entries.drop_last(), side, up_id, down_id)
    }
}

/// The prices of the up and of the down token that a message tells; nothing
/// where it is about neither.
pub open spec fn told_prices(j: JsonView, up_id: Seq<char>, down_id: Seq<char>) -> Option<
    (Option<PriceView>, Option<PriceView>),
> {
    let event = j.text_member("event_type"@);
    if event == Some("best_bid_ask"@) {
        match told_side(j, up_id, down_id) {
            Some(side) => if side {
                Some((Some(told_price(j, up_id)), None))
            } else {
                Some((None, Some(told_price(j, down_id))))
            },
            None => None,
        }
    } else if event == Some("price_change"@) {
        match j.list_member("price_changes"@) {
            Some(entries) => {
                let up = last_change(entries, true, up_id, down_id);
                let down = last_change(entries, false, up_id, down_id);
                if up is Some || down is Some {
                    Some((up, down))
                } else {
                    None
                }
            },
            None => None,
        }
    } else {
        None
    }
}

/// The decimal number under `key`.
fn read_decimal_member(j: &Json, key: &str) -> (r: Option<Decimal>)
    ensures
        r == decimal_member(j@, key@),
        r matches Some(d) ==> d.wf(),
{
    match j.get_text(key) {
        Some(s) => read_decimal(s),
        None => None,
    }
}

/// The prices that a message, or an entry of one, tells of the token `id`.
fn read_told_price(j: &Json, id: &str) -> (r: TokenPrice)
    ensures
        r@ == told_price(j@, id@),
        r@.wf(),
{
    TokenPrice {
        token_id: String::from_str(id),
        bid: read_decimal_member(j, "best_bid"),
        ask: read_decimal_member(j, "best_ask"),
    }
}

/// The side that a message, or an entry of one, is about.
fn read_told_side(j: &Json, up_id: &str, down_id: &str) -> (r: Option<bool>)
    ensures
        r == told_side(j@, up_id@, down_id@),
{
    match j.get_text("asset_id") {
        Some(id) => if same_text(id, up_id) {
            Some(true)
        } else if same_text(id, down_id) {
            Some(false)
        } else {
            None
        },
        None => None,
    }
}

/// The prices of two tokens.
pub open spec fn pair_view(p: Option<(Option<TokenPrice>, Option<TokenPrice>)>) -> Option<
    (Option<PriceView>, Option<PriceView>),
> {
    match p {
        Some((up, down)) => Some((price_view(up), price_view(down))),
        None => None,
    }
}

impl MarketMonitor {
    /// The prices of the up and of the down token that a message tells. A message
    /// may tell of both; what it tells of order books is passed over.
    pub fn parse_websocket_message(json: &Json, up_token_id: &str, down_token_id: &str) -> (r:
        Option<(Option<TokenPrice>, Option<TokenPrice>)>)
        ensures
            pair_view(r) == told_prices(json@, up_token_id@, down_token_id@),
            r matches Some((up, down)) ==> price_wf(price_view(up)) && price_wf(price_view(down)),
    {
        let event: &str = match json.get_text("event_type") {
            Some(s) => s,
            None => {
                return None;
            },
        };
        if same_text(event, "best_bid_ask") {
            match read_told_side(json, up_token_id, down_token_id) {
                Some(side) => if side {
                    Some((Some(read_told_price(json, up_token_id)), None))
                } else {
                    Some((None, Some(read_told_price(json, down_token_id))))
                },
                None => None,
            }
        } else if same_text(event, "price_change") {
            let entries: &Vec<Json> = match json.get_list("price_changes") {
                Some(v) => v,
                None => {
                    return None;
                },
            };
            let ghost views = entries@.map_values(|j: Json| j@);
            let mut up: Option<TokenPrice> = None;
            let mut down: Option<TokenPrice> = None;
            let mut i: usize = 0;
            while i < entries.len()
                invariant
                    i <= entries@.len(),
                    views == entries@.map_values(|j: Json| j@),
                    price_view(up) == last_change(
                        views.take(i as int),
                        true,
                        up_token_id@,
                        down_token_id@,
                    ),
                    price_view(down) == last_change(
                        views.take(i as int),
                        false,
                        up_token_id@,
                        down_token_id@,
                    ),
                    price_wf(price_view(up)),
                    price_wf(price_view(down)),
                decreases entries@.len() - i,
            {
                proof {
                    assert(views.take(i + 1).drop_last() =~= views.take(i as int));
                    assert(views.take(i + 1).last() == entries@[i as int]@);
                }
                match read_told_side(&entries[i], up_token_id, down_token_id) {
                    Some(side) => if side {
                        up = Some(read_told_price(&entries[i], up_token_id));
                    } else {
                        down = Some(read_told_price(&entries[i], down_token_id));
                    },
                    None => {},
                }
                i = i + 1;
            }
            proof {
                assert(views.take(i as int) == views);
            }
            if up.is_some() || down.is_some() {
                Some((up, down))
            } else {
                None
            }
        } else {
            None
        }
    }

    /// A snapshot of the given prices, `now` being the seconds since 1970 and
    /// `hourly` the end that an hourly slug tells.
    pub fn snapshot_of(
        &self,
        up_price: Option<TokenPrice>,
        down_price: Option<TokenPrice>,
        now: u64,
        timestamp: std::time::Instant,
        hourly: Option<u64>,
    ) -> (r: MarketSnapshot)
        requires
            slug_timestamp(self.btc_market_15m.slug@) + slug_duration(self.btc_market_15m.slug@)
                <= u64::MAX,
        ensures
            r.market_name == self.market_name,
            r.btc_market_15m.condition_id == self.btc_market_15m.condition_id,
            r.btc_market_15m.market_name == self.market_name,
            r.btc_market_15m.up_token == up_price,
            r.btc_market_15m.down_token == down_price,
            r.timestamp == timestamp,
            r.market_duration_secs == slug_duration(self.btc_market_15m.slug@),
            r.btc_15m_period_timestamp == snapshot_start(
                self.btc_market_15m.slug@,
                self.cached_period_end_timestamp,
                hourly,
            ),
            r.btc_15m_time_remaining == monus(
                r.btc_15m_period_timestamp + r.market_duration_secs,
                now as int,
            ),
            r.btc_15m_period_timestamp + r.market_duration_secs <= u64::MAX,
    {
        let slug: &str = self.btc_market_15m.slug.as_str();
        let duration: u64 = Self::extract_duration_from_slug(slug);
        let mut start: u64 = Self::extract_timestamp_from_slug(slug);
        if start == 0 {
            if duration == 3600 {
                if let Some(end) = hourly {
                    start = end.saturating_sub(duration);
                }
            }
            if start == 0 {
                if let Some(end) = self.cached_period_end_timestamp {
                    start = end.saturating_sub(duration);
                }
            }
        }
        let period_end: u64 = start + duration;
        let remaining: u64 = if period_end > now {
            period_end - now
        } else {
            0
        };
        MarketSnapshot {
            market_name: self.market_name.clone(),
            btc_market_15m: MarketData {
                condition_id: self.btc_market_15m.condition_id.clone(),
                market_name: self.market_name.clone(),
                up_token: up_price,
                down_token: down_price,
            },
            timestamp,
            btc_15m_time_remaining: remaining,
            btc_15m_period_timestamp: start,
            market_duration_secs: duration,
        }
    }

    /// A snapshot of the given prices, an hourly slug being read in the present
    /// year.
    pub fn create_snapshot_from_prices(
        &self,
        up_price: Option<TokenPrice>,
        down_price: Option<TokenPrice>,
        now: u64,
        timestamp: std::time::Instant,
    ) -> (r: MarketSnapshot)
        requires
            slug_timestamp(self.btc_market_15m.slug@) + slug_duration(self.btc_market_15m.slug@)
                <= u64::MAX,
        ensures
            r.market_name == self.market_name,
            r.btc_market_15m.condition_id == self.btc_market_15m.condition_id,
            r.btc_market_15m.market_name == self.market_name,
            r.btc_market_15m.up_token == up_price,
            r.btc_market_15m.down_token == down_price,
            r.timestamp == timestamp,
            r.market_duration_secs == slug_duration(self.btc_market_15m.slug@),
            exists|year: i32|
                is_clock_year(year) && r.btc_15m_period_timestamp == snapshot_start(
                    self.btc_market_15m.slug@,
                    self.cached_period_end_timestamp,
                    #[trigger] hourly_end(self.btc_market_15m.slug@, year),
                ),
            r.btc_15m_time_remaining == monus(
                r.btc_15m_period_timestamp + r.market_duration_secs,
                now as int,
            ),
            r.btc_15m_period_timestamp + r.market_duration_secs <= u64::MAX,
    {
        let hourly: Option<u64> = Self::period_end_from_1h_slug(self.btc_market_15m.slug.as_str());
        self.snapshot_of(up_price, down_price, now, timestamp, hourly)
    }

    /// A snapshot of the prices at which the exchange buys and sells the two
    /// tokens, an hourly slug being read in the present year.
    pub fn fetch_market_data(
        &self,
        up_prices: (Option<Decimal>, Option<Decimal>),
        down_prices: (Option<Decimal>, Option<Decimal>),
        now: u64,
        timestamp: std::time::Instant,
    ) -> (r: MarketSnapshot)
        requires
            slug_timestamp(self.btc_market_15m.slug@) + slug_duration(self.btc_market_15m.slug@)
                <= u64::MAX,
        ensures
            r.market_name == self.market_name,
            r.btc_market_15m.condition_id == self.btc_market_15m.condition_id,
            r.btc_market_15m.market_name == self.market_name,
            price_view(r.btc_market_15m.up_token) == token_price(
                optional(self.btc_15m_up_token_id),
                up_prices.0,
                up_prices.1,
            ),
            price_view(r.btc_market_15m.down_token) == token_price(
                optional(self.btc_15m_down_token_id),
                down_prices.0,
                down_prices.1,
            ),
            r.timestamp == timestamp,
            r.market_duration_secs == slug_duration(self.btc_market_15m.slug@),
            exists|year: i32|
                is_clock_year(year) && r.btc_15m_period_timestamp == snapshot_start(
                    self.btc_market_15m.slug@,
                    self.cached_period_end_timestamp,
                    #[trigger] hourly_end(self.btc_market_15m.slug@, year),
                ),
            r.btc_15m_time_remaining == monus(
                r.btc_15m_period_timestamp + r.market_duration_secs,
                now as int,
            ),
            r.btc_15m_period_timestamp + r.market_duration_secs <= u64::MAX,
    {
        let up: Option<TokenPrice> = Self::fetch_token_price(
            &self.btc_15m_up_token_id,
            up_prices.0,
            up_prices.1,
        );
        let down: Option<TokenPrice> = Self::fetch_token_price(
            &self.btc_15m_down_token_id,
            down_prices.0,
            down_prices.1,
        );
        self.create_snapshot_from_prices(up, down, now, timestamp)
    }

    /// A feed over a socket, where both tokens are known.
    pub fn open_feed(&self) -> (r: Option<PriceFeed>)
        ensures
            r is Some <==> self.btc_15m_up_token_id is Some && self.btc_15m_down_token_id is Some,
            r matches Some(f) ==> {
                &&& f.wf()
                &&& f.condition_id@ == self.btc_market_15m.condition_id@
                &&& f.up_id@ == self.btc_15m_up_token_id->0@
                &&& f.down_id@ == self.btc_15m_down_token_id->0@
                &&& f.up_price is None
                &&& f.down_price is None
            },
    {
        match (&self.btc_15m_up_token_id, &self.btc_15m_down_token_id) {
            (Some(up), Some(down)) => Some(
                PriceFeed {
                    condition_id: self.btc_market_15m.condition_id.clone(),
                    up_id: up.clone(),
                    down_id: down.clone(),
                    up_price: None,
                    down_price: None,
                },
            ),
            _ => None,
        }
    }
}

/// A subscription to the prices of a market's two tokens, and the last prices
/// that came over it.
pub struct PriceFeed {
    pub condition_id: String,
    pub up_id: String,
    pub down_id: String,
    pub up_price: Option<TokenPrice>,
    pub down_price: Option<TokenPrice>,
}

/// What is to be done about a message.
#[derive(Debug, Clone, Copy, PartialEq, Eq, Structural)]
pub enum FeedAction {
    /// Another market is followed now: the subscription is to be made anew.
    Reconnect,
    /// The prices changed, and it is time for a snapshot.
    Snapshot,
    /// Nothing.
    Wait,
}

/// What is to be done when a second has passed without a message.
#[derive(Debug, Clone, Copy, PartialEq, Eq, Structural)]
pub enum IdleAction {
    Reconnect,
    /// The socket is to be kept alive.
    Ping,
    Wait,
}

/// The prices a message tells to a feed: none where it is no message of prices.
pub open spec fn fed_prices(text: Seq<char>, up_id: Seq<char>, down_id: Seq<char>) -> Option<
    (Option<PriceView>, Option<PriceView>),
> {
    if text == "PONG"@ {
        None
    } else {
        match json_of_text(text) {
            Some(j) => told_prices(j, up_id, down_id),
            None => None,
        }
    }
}

/// The first that is there.
pub open spec fn first_of(a: Option<PriceView>, b: Option<PriceView>) -> Option<PriceView> {
    if a is Some {
        a
    } else {
        b
    }
}

impl PriceFeed {
    /// The prices, where there are any, are decimal numbers of the exchange.
    pub open spec fn wf(&self) -> bool {
        price_wf(price_view(self.up_price)) && price_wf(price_view(self.down_price))
    }

    /// The text that subscribes to the two tokens.
    pub fn subscribe_message(&self) -> (r: String)
        ensures
            r@ == "{\"assets_ids\":["@ + json_string(self.up_id@) + ","@ + json_string(
                self.down_id@,
            ) + "],\"type\":\"market\"}"@,
    {
        let up: String = write_json_string(self.up_id.as_str());
        let down: String = write_json_string(self.down_id.as_str());
        let mut r: String = String::from_str("{\"assets_ids\":[");
        r.append(up.as_str());
        r.append(",");
        r.append(down.as_str());
        r.append("],\"type\":\"market\"}");
        r
    }

    /// Takes in the prices that a message told.
    pub fn take_prices(&mut self, prices: (Option<TokenPrice>, Option<TokenPrice>))
        requires
            old(self).wf(),
            price_wf(price_view(prices.0)),
            price_wf(price_view(prices.1)),
        ensures
            final(self).wf(),
            price_view(final(self).up_price) == first_of(
                price_view(prices.0),
                price_view(old(self).up_price),
            ),
            price_view(final(self).down_price) == first_of(
                price_view(prices.1),
                price_view(old(self).down_price),
            ),
            price_view(prices.0) is Some ==> price_view(final(self).up_price) == price_view(
                prices.0,
            ),
            price_view(prices.0) is None ==> price_view(final(self).up_price) == price_view(
                old(self).up_price,
            ),
            price_view(prices.1) is Some ==> price_view(final(self).down_price) == price_view(
                prices.1,
            ),
            price_view(prices.1) is None ==> price_view(final(self).down_price) == price_view(
                old(self).down_price,
            ),
            final(self).condition_id == old(self).condition_id,
            final(self).up_id == old(self).up_id,
            final(self).down_id == old(self).down_id,
    {
        if let Some(up) = prices.0 {
            self.up_price = Some(up);
        }
        if let Some(down) = prices.1 {
            self.down_price = Some(down);
        }
    }

    /// Takes in a message, `elapsed_ms` after the last snapshot, while the market
    /// `current_condition_id` is followed.
    pub fn on_text(
        &mut self,
        text: &str,
        current_condition_id: &str,
        elapsed_ms: u64,
        interval_ms: u64,
    ) -> (r: FeedAction)
        requires
            old(self).wf(),
        ensures
            final(self).wf(),
            final(self).condition_id == old(self).condition_id,
            final(self).up_id == old(self).up_id,
            final(self).down_id == old(self).down_id,
            ({
                let changed = current_condition_id@ != old(self).condition_id@;
                let told = fed_prices(text@, old(self).up_id@, old(self).down_id@);
                &&& r == if changed {
                    FeedAction::Reconnect
                } else if told is Some && elapsed_ms >= interval_ms {
                    FeedAction::Snapshot
                } else {
                    FeedAction::Wait
                }
                &&& price_view(final(self).up_price) == if !changed && told is Some {
                    first_of((told->0).0, price_view(old(self).up_price))
                } else {
                    price_view(old(self).up_price)
                }
                &&& price_view(final(self).down_price) == if !changed && told is Some {
                    first_of((told->0).1, price_view(old(self).down_price))
                } else {
                    price_view(old(self).down_price)
                }
            }),
            // A price that is told replaces the one that was known, and one that is not
            // told stays.
            current_condition_id@ == old(self).condition_id@ ==> match fed_prices(
                text@,
                old(self).up_id@,
                old(self).down_id@,
            ) {
                Some((up, down)) => {
                    &&& up is Some ==> price_view(final(self).up_price) == up
                    &&& up is None ==> price_view(final(self).up_price) == price_view(
                        old(self).up_price,
                    )
                    &&& down is Some ==> price_view(final(self).down_price) == down
                    &&& down is None ==> price_view(final(self).down_price) == price_view(
                        old(self).down_price,
                    )
                },
                None => price_view(final(self).up_price) == price_view(old(self).up_price)
                    && price_view(final(self).down_price) == price_view(old(self).down_price),
            },
            current_condition_id@ != old(self).condition_id@ ==> price_view(final(self).up_price)
                == price_view(old(self).up_price) && price_view(final(self).down_price)
                == price_view(old(self).down_price),
    {
        if !same_text(current_condition_id, self.condition_id.as_str()) {
            return FeedAction::Reconnect;
        }
        if same_text(text, "PONG") {
            return FeedAction::Wait;
        }
        let json: Json = match read_json(text) {
            Some(j) => j,
            None => {
                return FeedAction::Wait;
            },
        };
        match MarketMonitor::parse_websocket_message(
            &json,
            self.up_id.as_str(),
            self.down_id.as_str(),
        ) {
            Some(prices) => {
                self.take_prices(prices);
                if elapsed_ms >= interval_ms {
                    FeedAction::Snapshot
                } else {
                    FeedAction::Wait
                }
            },
            None => FeedAction::Wait,
        }
    }

    /// What is to be done when a second has passed without a message, `ping_secs`
    /// after the socket was last kept alive.
    pub fn on_idle(&self, current_condition_id: &str, ping_secs: u64) -> (r: IdleAction)
        ensures
            r == if current_condition_id@ != self.condition_id@ {
                IdleAction::Reconnect
            } else if ping_secs >= 5 {
                IdleAction::Ping
            } else {
                IdleAction::Wait
            },
    {
        if !same_text(current_condition_id, self.condition_id.as_str()) {
            IdleAction::Reconnect
        } else if ping_secs >= 5 {
            IdleAction::Ping
        } else {
            IdleAction::Wait
        }
    }

    /// The last prices that came over the feed.
    pub fn prices(&self) -> (r: (Option<TokenPrice>, Option<TokenPrice>))
        requires
            self.wf(),
        ensures
            price_wf(price_view(r.0)),
            price_wf(price_view(r.1)),
            price_view(r.0) == price_view(self.up_price),
            price_view(r.1) == price_view(self.down_price),
    {
        (copied_price(&self.up_price), copied_price(&self.down_price))
    }
}

} // verus!
