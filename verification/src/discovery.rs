//! Finding the market of an asset that is open now, and noticing when its period
//! is over.
use crate::calendar::{in_calendar, new_york_clock};
use crate::models::{Market, MarketView};
use crate::slug::{
    hour_slug, minute_slug, slug_1h_human_readable, slug_duration, slug_timestamp,
    write_minute_slug,
};
use crate::slug_laws::{
    law_fifteen_minute_slug_duration, law_five_minute_slug_duration, law_minute_slug_timestamp,
};
use crate::text::{
    chars_of, contains, decimal, decimal_of, lowercase, same_text, text_of, to_lowercase,
    to_uppercase, trim, trimmed, uppercase,
};
use vstd::prelude::*;
use vstd::string::StringExecFns;

verus! {

/// Why no market was found.
#[derive(Debug)]
pub enum DiscoveryError {
    UnsupportedAsset { asset: String },
    UnsupportedDuration { minutes: u64 },
    NotFound { market_name: String, minutes: u64 },
}

/// What an error holds.
pub enum DiscoveryErrorView {
    UnsupportedAsset { asset: Seq<char> },
    UnsupportedDuration { minutes: u64 },
    NotFound { market_name: Seq<char>, minutes: u64 },
}

impl View for DiscoveryError {
    type V = DiscoveryErrorView;

    open spec fn view(&self) -> DiscoveryErrorView {
        match self {
            DiscoveryError::UnsupportedAsset { asset } => DiscoveryErrorView::UnsupportedAsset {
                asset: asset@,
            },
            DiscoveryError::UnsupportedDuration {
                minutes,
            } => DiscoveryErrorView::UnsupportedDuration { minutes: *minutes },
            DiscoveryError::NotFound { market_name, minutes } => DiscoveryErrorView::NotFound {
                market_name: market_name@,
                minutes: *minutes,
            },
        }
    }
}

/// How long a market of so many minutes lasts, in seconds, where there are such
/// markets.
pub open spec fn period_secs(minutes: u64) -> Option<u64> {
    if minutes == 60 {
        Some(3600)
    } else if minutes == 15 {
        Some(900)
    } else if minutes == 5 {
        Some(300)
    } else {
        None
    }
}

/// The short name of a length.
pub open spec fn timeframe_text(minutes: u64) -> Seq<char> {
    if minutes == 60 {
        "1h"@
    } else if minutes == 5 {
        "5m"@
    } else {
        "15m"@
    }
}

/// The minutes that a short name stands for.
pub open spec fn timeframe_minutes(s: Seq<char>) -> u64 {
    let name = lowercase(trim(s));
    if name == "1h"@ {
        60
    } else if name == "5m"@ {
        5
    } else {
        15
    }
}

/// What is told of an error.
pub open spec fn error_text(e: DiscoveryErrorView) -> Seq<char> {
    match e {
        DiscoveryErrorView::UnsupportedAsset { asset } => "Unsupported asset: "@ + asset
            + ". This bot supports BTC only (5m market)."@,
        DiscoveryErrorView::UnsupportedDuration {
            minutes,
        } => "Only 5m, 15m and 1h markets are supported, got "@ + decimal(minutes as nat) + "m"@,
        DiscoveryErrorView::NotFound { market_name, minutes } => "Could not find active "@
            + market_name + " "@ + timeframe_text(minutes)
            + " up/down market. Set condition_id in config if needed."@,
    }
}

/// The slug of the market of a length whose period begins at an instant.
pub open spec fn market_slug(prefix: Seq<char>, minutes: u64, start: u64) -> Seq<char> {
    if minutes == 60 {
        let clock = new_york_clock(start as i64);
        hour_slug(prefix, clock.1 as int, clock.2 as int, clock.3 as int)
    } else {
        minute_slug(prefix, timeframe_text(minutes), start as nat)
    }
}

/// The search for markets of this length can go back three periods, and the
/// slugs of its hours can be told.
pub open spec fn searchable(minutes: u64, now: u64) -> bool {
    period_secs(minutes) matches Some(secs) ==> 3 * secs <= now && (minutes == 60 ==> in_calendar(
        now as int,
    ))
}

/// A market that can be traded, and that is not known yet.
pub open spec fn acceptable(m: MarketView, seen: Seq<Seq<char>>) -> bool {
    !seen.contains(m.condition_id) && m.active && !m.closed
}

/// A search for a market: that of the current period first, then those of the
/// three periods before.
pub struct MarketSearch {
    pub market_name: String,
    pub slug_prefix: String,
    pub minutes: u64,
    pub period_secs: u64,
    /// When the current period began.
    pub rounded_time: u64,
    /// How many periods the search has gone back.
    pub offset: u64,
}

/// What a search holds.
pub struct SearchView {
    pub market_name: Seq<char>,
    pub slug_prefix: Seq<char>,
    pub minutes: u64,
    pub period_secs: u64,
    pub rounded_time: u64,
    pub offset: u64,
}

impl View for MarketSearch {
    type V = SearchView;

    open spec fn view(&self) -> SearchView {
        SearchView {
            market_name: self.market_name@,
            slug_prefix: self.slug_prefix@,
            minutes: self.minutes,
            period_secs: self.period_secs,
            rounded_time: self.rounded_time,
            offset: self.offset,
        }
    }
}

impl SearchView {
    /// The search has gone back three periods at most, or is over.
    pub open spec fn wf(self) -> bool {
        &&& period_secs(self.minutes) == Some(self.period_secs)
        &&& 3 * self.period_secs <= self.rounded_time
        &&& self.minutes == 60 ==> in_calendar(self.rounded_time as int)
        &&& self.offset <= 4
    }

    /// A search at an instant.
    pub open spec fn start(
        market_name: Seq<char>,
        slug_prefix: Seq<char>,
        minutes: u64,
        now: u64,
    ) -> SearchView {
        let secs = period_secs(minutes)->0;
        SearchView {
            market_name,
            slug_prefix,
            minutes,
            period_secs: secs,
            rounded_time: (now / secs * secs) as u64,
            offset: 0,
        }
    }

    /// When the period that is looked at began.
    pub open spec fn period_start(self) -> int {
        self.rounded_time - self.offset * self.period_secs
    }

    /// The slug to look up, unless the search is over.
    pub open spec fn slug(self) -> Option<Seq<char>> {
        if self.offset <= 3 {
            Some(market_slug(self.slug_prefix, self.minutes, self.period_start() as u64))
        } else {
            None
        }
    }

    /// The search after a market was found or not, and the market it ends with.
    pub open spec fn answered(self, found: Option<MarketView>, seen: Seq<Seq<char>>) -> (
        SearchView,
        Option<MarketView>,
    ) {
        if found is Some && acceptable(found->0, seen) {
            (self, found)
        } else {
            (SearchView { offset: (self.offset + 1) as u64, ..self }, None)
        }
    }
}

/// The market that is there, if any.
pub open spec fn market_view(m: Option<Market>) -> Option<MarketView> {
    match m {
        Some(m) => Some(m@),
        None => None,
    }
}

/// The short name of a length.
pub fn write_timeframe(minutes: u64) -> (r: &'static str)
    ensures
        r@ == timeframe_text(minutes),
{
    if minutes == 60 {
        "1h"
    } else if minutes == 5 {
        "5m"
    } else {
        "15m"
    }
}

/// The minutes that a short name stands for.
pub fn read_timeframe(timeframe: &str) -> (r: u64)
    ensures
        r == timeframe_minutes(timeframe@),
        period_secs(r) == Some((60 * r) as u64),
{
    let chars: Vec<char> = chars_of(timeframe);
    let name: String = to_lowercase(text_of(trimmed(chars.as_slice())).as_str());
    if same_text(name.as_str(), "1h") {
        60
    } else if same_text(name.as_str(), "5m") {
        5
    } else {
        15
    }
}

/// What a market is called: its asset and the short name of its length.
pub fn write_market_name(asset: &str, timeframe: &str) -> (r: String)
    ensures
        r@ == uppercase(asset@) + " "@ + timeframe@,
{
    let mut r: String = to_uppercase(asset);
    r.append(" ");
    r.append(timeframe);
    r
}

impl DiscoveryError {
    /// What is told of the error.
    pub fn message(&self) -> (r: String)
        ensures
            r@ == error_text(self@),
    {
        match self {
            DiscoveryError::UnsupportedAsset { asset } => {
                let mut r: String = String::from_str("Unsupported asset: ");
                r.append(asset.as_str());
                r.append(". This bot supports BTC only (5m market).");
                r
            },
            DiscoveryError::UnsupportedDuration { minutes } => {
                let mut r: String = String::from_str(
                    "Only 5m, 15m and 1h markets are supported, got ",
                );
                r.append(decimal_of(*minutes).as_str());
                r.append("m");
                r
            },
            DiscoveryError::NotFound { market_name, minutes } => {
                let mut r: String = String::from_str("Could not find active ");
                r.append(market_name.as_str());
                r.append(" ");
                r.append(write_timeframe(*minutes));
                r.append(" up/down market. Set condition_id in config if needed.");
                r
            },
        }
    }
}

/// Begins the search for a market of so many minutes.
pub fn discover_market(
    market_name: &str,
    slug_prefix: &str,
    market_duration_minutes: u64,
    current_time: u64,
) -> (r: Result<MarketSearch, DiscoveryError>)
    requires
        searchable(market_duration_minutes, current_time),
    ensures
        r is Ok <==> period_secs(market_duration_minutes) is Some,
        r matches Ok(search) ==> search@.wf() && search@ == SearchView::start(
            market_name@,
            slug_prefix@,
            market_duration_minutes,
            current_time,
        ),
        r matches Err(e) ==> e@ == (DiscoveryErrorView::UnsupportedDuration {
            minutes: market_duration_minutes,
        }),
{
    let secs: u64 = if market_duration_minutes == 60 {
        3600
    } else if market_duration_minutes == 15 {
        900
    } else if market_duration_minutes == 5 {
        300
    } else {
        return Err(DiscoveryError::UnsupportedDuration { minutes: market_duration_minutes });
    };
    proof {
        lemma_period_begins(secs, current_time);
        assert(3 * secs <= current_time / secs * secs) by {
            vstd::arithmetic::div_mod::lemma_div_is_ordered(
                3 * secs,
                current_time as int,
                secs as int,
            );
            vstd::arithmetic::div_mod::lemma_div_multiples_vanish(3, secs as int);
            assert(3 * secs <= current_time / secs * secs) by (nonlinear_arith)
                requires
                    3 <= current_time / secs,
                    secs > 0,
            ;
        }
    }
    let rounded_time: u64 = (current_time / secs) * secs;
    Ok(
        MarketSearch {
            market_name: String::from_str(market_name),
            slug_prefix: String::from_str(slug_prefix),
            minutes: market_duration_minutes,
            period_secs: secs,
            rounded_time,
            offset: 0,
        },
    )
}

/// Begins the search for a market of an asset. Markets of bitcoin alone are
/// traded.
pub fn discover_market_for_asset_timeframe(
    asset: &str,
    market_duration_minutes: u64,
    current_time: u64,
) -> (r: Result<MarketSearch, DiscoveryError>)
    requires
        searchable(market_duration_minutes, current_time),
    ensures
        r is Ok <==> lowercase(asset@) == "btc"@ && period_secs(market_duration_minutes) is Some,
        r matches Ok(search) ==> search@.wf() && search@ == SearchView::start(
            asset@,
            "btc"@,
            market_duration_minutes,
            current_time,
        ),
        r matches Err(e) ==> e@ == (if lowercase(asset@) != "btc"@ {
            DiscoveryErrorView::UnsupportedAsset { asset: asset@ }
        } else {
            DiscoveryErrorView::UnsupportedDuration { minutes: market_duration_minutes }
        }),
{
    let lower: String = to_lowercase(asset);
    if !same_text(lower.as_str(), "btc") {
        return Err(DiscoveryError::UnsupportedAsset { asset: String::from_str(asset) });
    }
    discover_market(asset, "btc", market_duration_minutes, current_time)
}

/// Whether a text stands in a list.
fn listed(list: &Vec<String>, text: &str) -> (r: bool)
    ensures
        r == list@.map_values(|s: String| s@).contains(text@),
{
    let ghost texts = list@.map_values(|s: String| s@);
    let mut i: usize = 0;
    while i < list.len()
        invariant
            i <= list@.len(),
            texts == list@.map_values(|s: String| s@),
            forall|j: int| 0 <= j < i ==> #[trigger] texts[j] != text@,
        decreases list@.len() - i,
    {
        if same_text(list[i].as_str(), text) {
            proof {
                assert(texts[i as int] == text@);
            }
            return true;
        }
        i = i + 1;
    }
    false
}

impl MarketSearch {
    /// The slug to look up, unless the search is over.
    pub fn next_slug(&self) -> (r: Option<String>)
        requires
            self@.wf(),
        ensures
            match r {
                Some(slug) => self@.slug() == Some(slug@),
                None => self@.slug() is None,
            },
    {
        if self.offset > 3 {
            return None;
        }
        proof {
            assert(self.offset * self.period_secs <= 3 * self.period_secs) by (nonlinear_arith)
                requires
                    self.offset <= 3,
            ;
        }
        let start: u64 = self.rounded_time - self.offset * self.period_secs;
        let slug: String = if self.minutes == 60 {
            slug_1h_human_readable(start, self.slug_prefix.as_str())
        } else {
            write_minute_slug(self.slug_prefix.as_str(), write_timeframe(self.minutes), start)
        };
        Some(slug)
    }

    /// Takes in what was found under the slug. The market is handed back where
    /// it ends the search; otherwise the search goes back one more period.
    pub fn take_answer(&mut self, found: Option<Market>, seen_ids: &Vec<String>) -> (r: Option<
        Market,
    >)
        requires
            old(self)@.wf(),
            old(self)@.offset <= 3,
        ensures
            final(self)@.wf(),
            (final(self)@, market_view(r)) == old(self)@.answered(
                market_view(found),
                seen_ids@.map_values(|s: String| s@),
            ),
    {
        if let Some(market) = found {
            if !listed(seen_ids, market.condition_id.as_str()) && market.active && !market.closed {
                return Some(market);
            }
        }
        self.offset = self.offset + 1;
        None
    }

    /// Why the search found nothing.
    pub fn not_found(&self) -> (r: DiscoveryError)
        ensures
            r@ == (DiscoveryErrorView::NotFound {
                market_name: self@.market_name,
                minutes: self@.minutes,
            }),
    {
        DiscoveryError::NotFound { market_name: self.market_name.clone(), minutes: self.minutes }
    }
}

proof fn lemma_period_begins(secs: u64, now: u64)
    requires
        secs > 0,
    ensures
        now / secs * secs <= now < now / secs * secs + secs,
{
    vstd::arithmetic::div_mod::lemma_fundamental_div_mod(now as int, secs as int);
    vstd::arithmetic::div_mod::lemma_mod_bound(now as int, secs as int);
    assert(now / secs * secs == secs * (now / secs)) by (nonlinear_arith);
}

/// A search begins with the period that is running.
pub proof fn law_search_begins_with_current_period(
    market_name: Seq<char>,
    slug_prefix: Seq<char>,
    minutes: u64,
    now: u64,
)
    requires
        period_secs(minutes) is Some,
    ensures
        ({
            let search = SearchView::start(market_name, slug_prefix, minutes, now);
            &&& search.period_start() <= now < search.period_start() + search.period_secs
            &&& search.period_start() % search.period_secs as int == 0
        }),
{
    let secs = period_secs(minutes)->0;
    lemma_period_begins(secs, now);
    vstd::arithmetic::div_mod::lemma_mod_multiples_basic((now / secs) as int, secs as int);
}

/// The slug that a search looks up tells the period it is meant for and how long
/// that lasts, unless its prefix tells another length.
pub proof fn law_search_slug_tells_its_period(search: SearchView)
    requires
        search.wf(),
        search.offset <= 3,
        search.minutes != 60,
        search.minutes == 15 ==> !contains(search.slug_prefix + "-"@, "-5m-"@),
    ensures
        slug_timestamp(search.slug()->0) == search.period_start(),
        slug_duration(search.slug()->0) == search.period_secs,
{
    assert(0 <= search.offset * search.period_secs <= 3 * search.period_secs) by (nonlinear_arith)
        requires
            search.offset <= 3,
    ;
    let start = search.period_start() as nat;
    law_minute_slug_timestamp(search.slug_prefix, timeframe_text(search.minutes), start);
    law_five_minute_slug_duration(search.slug_prefix, start);
    if search.minutes == 15 {
        law_fifteen_minute_slug_duration(search.slug_prefix, start);
    }
}

/// The answers to a search, one after the other: where it ends, and with which
/// market.
pub open spec fn search_result(
    search: SearchView,
    answers: Seq<Option<MarketView>>,
    seen: Seq<Seq<char>>,
) -> Option<MarketView>
    decreases answers.len(),
{
    if answers.len() == 0 || search.slug() is None {
        None
    } else {
        let (after, found) = search.answered(answers[0], seen);
        if found is Some {
            found
        } else {
            search_result(after, answers.skip(1), seen)
        }
    }
}

/// A search ends with the first market that can be traded, of those of the
/// current period and the three before.
pub proof fn law_search_takes_first_acceptable(
    search: SearchView,
    answers: Seq<Option<MarketView>>,
    seen: Seq<Seq<char>>,
    i: int,
)
    requires
        search.offset <= 4,
        0 <= i < answers.len(),
        search.offset + i <= 3,
        answers[i] is Some,
        acceptable(answers[i]->0, seen),
        forall|j: int|
            0 <= j < i ==> !((#[trigger] answers[j]) is Some && acceptable(answers[j]->0, seen)),
    ensures
        search_result(search, answers, seen) == answers[i],
    decreases i,
{
    if i > 0 {
        let after = search.answered(answers[0], seen).0;
        let rest = answers.skip(1);
        assert(rest[i - 1] == answers[i]);
        assert forall|j: int| 0 <= j < i - 1 implies !((#[trigger] rest[j]) is Some && acceptable(
            rest[j]->0,
            seen,
        )) by {
            assert(rest[j] == answers[j + 1]);
        }
        law_search_takes_first_acceptable(after, rest, seen, i - 1);
    }
}

/// A search finds nothing where no market of its four periods can be traded.
pub proof fn law_search_finds_nothing(
    search: SearchView,
    answers: Seq<Option<MarketView>>,
    seen: Seq<Seq<char>>,
)
    requires
        search.offset <= 4,
        forall|j: int|
            0 <= j < answers.len() && search.offset + j <= 3 ==> !((#[trigger] answers[j]) is Some
                && acceptable(answers[j]->0, seen)),
    ensures
        search_result(search, answers, seen) is None,
    decreases answers.len(),
{
    if answers.len() > 0 && search.slug() is Some {
        let after = search.answered(answers[0], seen).0;
        let rest = answers.skip(1);
        assert forall|j: int| 0 <= j < rest.len() && after.offset + j <= 3 implies !((
        #[trigger] rest[j]) is Some && acceptable(rest[j]->0, seen)) by {
            assert(rest[j] == answers[j + 1]);
        }
        law_search_finds_nothing(after, rest, seen);
    }
}

/// A watch on the periods of a market.
pub struct PeriodWatch {
    pub period_secs: u64,
    /// The last period that was noticed.
    pub last_period: Option<u64>,
}

/// When the period began that is running at an instant.
pub open spec fn running_period(now: u64, period_secs: u64) -> u64 {
    (now / period_secs * period_secs) as u64
}

impl PeriodWatch {
    /// No period has been noticed.
    pub fn new(period_secs: u64) -> (r: PeriodWatch)
        ensures
            r.period_secs == period_secs,
            r.last_period is None,
    {
        PeriodWatch { period_secs, last_period: None }
    }

    /// The seconds until the period of a market is over.
    pub fn sleep_secs(&self, market_timestamp: u64, current_time: u64) -> (r: u64)
        requires
            market_timestamp + self.period_secs <= u64::MAX,
        ensures
            r == (if market_timestamp + self.period_secs > current_time {
                market_timestamp + self.period_secs - current_time
            } else {
                0
            }),
    {
        let next: u64 = market_timestamp + self.period_secs;
        if next > current_time {
            next - current_time
        } else {
            0
        }
    }

    /// The period that is running, where it is not the one that was noticed last.
    pub fn notice(&mut self, current_time: u64) -> (r: Option<u64>)
        requires
            old(self).period_secs > 0,
        ensures
            final(self).period_secs == old(self).period_secs,
            final(self).last_period == Some(running_period(current_time, old(self).period_secs)),
            r == (if old(self).last_period == final(self).last_period {
                None
            } else {
                final(self).last_period
            }),
    {
        proof {
            lemma_period_begins(self.period_secs, current_time);
        }
        let current: u64 = (current_time / self.period_secs) * self.period_secs;
        if let Some(last) = self.last_period {
            if last == current {
                return None;
            }
        }
        self.last_period = Some(current);
        Some(current)
    }
}

} // verus!
