//! What holds of the messages about prices, and of what is told of a market.
use crate::decimal::{decimal_in, Decimal};
use crate::json::{json_of_text, JsonView};
use crate::models::{PriceView, TokenView};
use crate::monitor::{
    fed_prices, first_of, iso_to_unix, last_change, last_token, market_start, monus, outcome_side,
    period_start, remaining_text, snapshot_start, told_prices, token_price,
};
use crate::slug::{slug_duration, slug_timestamp};
use crate::text::{contains, decimal, uppercase};
use vstd::prelude::*;

verus! {

/// A price that is told stands in place of the one that was known, whatever that was;
/// where none is told, the known one stays.
pub proof fn law_told_price_stands(told: Option<PriceView>, known: Option<PriceView>)
    ensures
        told is Some ==> first_of(told, known) == told,
        told is None ==> first_of(told, known) == known,
{
}

/// Of two messages, the price in the later one stands.
pub proof fn law_later_price_stands(
    first: Option<PriceView>,
    second: Option<PriceView>,
    known: Option<PriceView>,
)
    ensures
        second is Some ==> first_of(second, first_of(first, known)) == second,
        second is None && first is Some ==> first_of(second, first_of(first, known)) == first,
        second is None && first is None ==> first_of(second, first_of(first, known)) == known,
{
}

/// The decimal number that a message writes under a key, if any.
pub open spec fn written(j: JsonView, key: Seq<char>, price: Option<Decimal>) -> bool {
    match j.text_member(key) {
        Some(s) => price == decimal_in(s),
        None => price is None,
    }
}

/// The prices of a token are those that a message writes: its best bid as the bid, its
/// best ask as the ask.
pub open spec fn prices_of(p: Option<PriceView>, j: JsonView, id: Seq<char>) -> bool {
    p matches Some(p) && p.token_id == id && written(j, "best_bid"@, p.bid) && written(
        j,
        "best_ask"@,
        p.ask,
    )
}

/// A message of best prices tells the prices of the token it names, and of no other.
pub proof fn law_best_prices_are_told(j: JsonView, up_id: Seq<char>, down_id: Seq<char>)
    requires
        j.text_member("event_type"@) == Some("best_bid_ask"@),
    ensures
        ({
            let told = told_prices(j, up_id, down_id);
            let id = j.text_member("asset_id"@);
            &&& id == Some(up_id) ==> told is Some && prices_of((told->0).0, j, up_id)
                && (told->0).1 is None
            &&& id == Some(down_id) && up_id != down_id ==> told is Some && prices_of(
                (told->0).1,
                j,
                down_id,
            ) && (told->0).0 is None
            &&& id != Some(up_id) && id != Some(down_id) ==> told is None
        }),
{
    reveal_strlit("best_bid_ask");
    reveal_strlit("price_change");
}

/// The last entry about a token stands.
proof fn lemma_last_change(
    entries: Seq<JsonView>,
    side: bool,
    up_id: Seq<char>,
    down_id: Seq<char>,
    i: int,
)
    requires
        up_id != down_id,
        0 <= i < entries.len(),
        entries[i].text_member("asset_id"@) == Some(
            if side {
                up_id
            } else {
                down_id
            },
        ),
        forall|k: int|
            i < k < entries.len() ==> (#[trigger] entries[k]).text_member("asset_id"@) != Some(
                if side {
                    up_id
                } else {
                    down_id
                },
            ),
    ensures
        prices_of(
            last_change(entries, side, up_id, down_id),
            entries[i],
            if side {
                up_id
            } else {
                down_id
            },
        ),
    decreases entries.len(),
{
    if i < entries.len() - 1 {
        assert(entries[entries.len() - 1].text_member("asset_id"@) != Some(
            if side {
                up_id
            } else {
                down_id
            },
        ));
        assert forall|k: int| i < k < entries.len() - 1 implies (
        #[trigger] entries.drop_last()[k]).text_member("asset_id"@) != Some(
            if side {
                up_id
            } else {
                down_id
            },
        ) by {
            assert(entries.drop_last()[k] == entries[k]);
        }
        lemma_last_change(entries.drop_last(), side, up_id, down_id, i);
    }
}

proof fn lemma_no_change(entries: Seq<JsonView>, side: bool, up_id: Seq<char>, down_id: Seq<char>)
    requires
        forall|k: int|
            0 <= k < entries.len() ==> (#[trigger] entries[k]).text_member("asset_id"@) != Some(
                if side {
                    up_id
                } else {
                    down_id
                },
            ),
    ensures
        last_change(entries, side, up_id, down_id) is None,
    decreases entries.len(),
{
    if entries.len() > 0 {
        assert(entries[entries.len() - 1].text_member("asset_id"@) != Some(
            if side {
                up_id
            } else {
                down_id
            },
        ));
        assert forall|k: int| 0 <= k < entries.len() - 1 implies (
        #[trigger] entries.drop_last()[k]).text_member("asset_id"@) != Some(
            if side {
                up_id
            } else {
                down_id
            },
        ) by {
            assert(entries.drop_last()[k] == entries[k]);
        }
        lemma_no_change(entries.drop_last(), side, up_id, down_id);
    }
}

/// A message of changes tells of a token what the last entry about it writes, and
/// nothing of a token that no entry is about.
pub proof fn law_last_change_is_told(
    j: JsonView,
    entries: Seq<JsonView>,
    up_id: Seq<char>,
    down_id: Seq<char>,
    side: bool,
    i: int,
)
    requires
        up_id != down_id,
        j.text_member("event_type"@) == Some("price_change"@),
        j.list_member("price_changes"@) == Some(entries),
    ensures
        ({
            let told = told_prices(j, up_id, down_id);
            let id = if side {
                up_id
            } else {
                down_id
            };
            let price = if side {
                (told->0).0
            } else {
                (told->0).1
            };
            let later = forall|k: int|
                i < k < entries.len() ==> (#[trigger] entries[k]).text_member("asset_id"@) != Some(
                    id,
                );
            &&& 0 <= i < entries.len() && entries[i].text_member("asset_id"@) == Some(id) && later
                ==> told is Some && prices_of(price, entries[i], id)
            &&& i == -1 && later ==> told is None || price is None
        }),
{
    reveal_strlit("best_bid_ask");
    reveal_strlit("price_change");
    assert("best_bid_ask"@.len() != "price_change"@.len() || "best_bid_ask"@[0]
        != "price_change"@[0]);
    let id = if side {
        up_id
    } else {
        down_id
    };
    let later = forall|k: int|
        i < k < entries.len() ==> (#[trigger] entries[k]).text_member("asset_id"@) != Some(id);
    if 0 <= i < entries.len() && entries[i].text_member("asset_id"@) == Some(id) && later {
        lemma_last_change(entries, side, up_id, down_id, i);
    }
    if i == -1 && later {
        lemma_no_change(entries, side, up_id, down_id);
    }
}

/// Nothing is told by another kind of message, by a message of changes without a list
/// of them, by an answer to a ping, or by what is not JSON. A message that tells
/// something tells a price.
pub proof fn law_other_messages_tell_nothing(
    text: Seq<char>,
    j: JsonView,
    up_id: Seq<char>,
    down_id: Seq<char>,
)
    ensures
        j.text_member("event_type"@) != Some("best_bid_ask"@) && j.text_member("event_type"@)
            != Some("price_change"@) ==> told_prices(j, up_id, down_id) is None,
        j.text_member("event_type"@) == Some("price_change"@) && j.list_member("price_changes"@)
            is None ==> told_prices(j, up_id, down_id) is None,
        told_prices(j, up_id, down_id) matches Some((up, down)) ==> up is Some || down is Some,
        text == "PONG"@ ==> fed_prices(text, up_id, down_id) is None,
        json_of_text(text) is None ==> fed_prices(text, up_id, down_id) is None,
        text != "PONG"@ && json_of_text(text) == Some(j) ==> fed_prices(text, up_id, down_id)
            == told_prices(j, up_id, down_id),
{
    reveal_strlit("best_bid_ask");
    reveal_strlit("price_change");
    assert("best_bid_ask"@.len() != "price_change"@.len() || "best_bid_ask"@[0]
        != "price_change"@[0]);
}

/// The price at which a token is bought is its bid, the one at which it is sold its ask.
/// One of them is enough, and without a token there is none.
pub proof fn law_bid_and_ask(
    id: Option<Seq<char>>,
    buy_price: Option<Decimal>,
    sell_price: Option<Decimal>,
)
    ensures
        ({
            let p = token_price(id, buy_price, sell_price);
            &&& p is Some <==> id is Some && !(buy_price is None && sell_price is None)
            &&& p matches Some(p) ==> Some(p.token_id) == id && p.bid == buy_price && p.ask
                == sell_price
        }),
{
}

/// A token pays on up where its outcome, in any case, tells of UP or is 1, on down where
/// it does not and tells of DOWN or is 0, and on neither elsewhere.
pub proof fn law_outcome_tells_side(outcome: Seq<char>)
    ensures
        ({
            let upper = uppercase(outcome);
            let up = contains(upper, "UP"@) || upper == "1"@;
            let down = contains(upper, "DOWN"@) || upper == "0"@;
            &&& outcome_side(outcome) == Some(true) <==> up
            &&& outcome_side(outcome) == Some(false) <==> down && !up
        }),
{
}

/// Of the tokens of a side the last one is taken, and where there is none the one that
/// was known stays.
pub proof fn law_last_token_is_taken(
    tokens: Seq<TokenView>,
    side: bool,
    known: Option<Seq<char>>,
    i: int,
)
    ensures
        ({
            let later = forall|k: int|
                i < k < tokens.len() ==> outcome_side((#[trigger] tokens[k]).outcome) != Some(side);
            &&& 0 <= i < tokens.len() && outcome_side(tokens[i].outcome) == Some(side) && later
                ==> last_token(tokens, side, known) == Some(tokens[i].token_id)
            &&& i == -1 && later ==> last_token(tokens, side, known) == known
        }),
    decreases tokens.len(),
{
    let later = forall|k: int|
        i < k < tokens.len() ==> outcome_side((#[trigger] tokens[k]).outcome) != Some(side);
    if later && -1 <= i < tokens.len() - 1 {
        let front = tokens.drop_last();
        assert(outcome_side(tokens[tokens.len() - 1].outcome) != Some(side));
        assert forall|k: int| i < k < front.len() implies outcome_side(
            (#[trigger] front[k]).outcome,
        ) != Some(side) by {
            assert(front[k] == tokens[k]);
        }
        law_last_token_is_taken(front, side, known, i);
    }
}

/// The period of a market begins where its slug says. A slug that does not say it
/// leaves it to the end that is known: an hourly market that of its slug, another one
/// the cached end. It begins one duration before, and at 0 where no end is known.
pub proof fn law_market_begins(slug: Seq<char>, cached: Option<u64>, hourly: Option<u64>)
    ensures
        ({
            let start = market_start(slug, cached, hourly);
            let told = slug_timestamp(slug);
            let hour = slug_duration(slug) == 3600 && hourly is Some;
            &&& told != 0 ==> start == told && snapshot_start(slug, cached, hourly) == told
            &&& told == 0 && hour && hourly->0 >= 3600 ==> start + 3600 == hourly->0
            &&& told == 0 && hour && hourly->0 > 3600 ==> snapshot_start(slug, cached, hourly)
                + 3600 == hourly->0
            &&& told == 0 && hour && hourly->0 < 3600 ==> start == 0
            &&& told == 0 && !hour && cached is Some && cached->0 >= slug_duration(slug) ==> start
                + slug_duration(slug) == cached->0
            &&& told == 0 && !hour && cached is Some && cached->0 < slug_duration(slug) ==> start
                == 0
            &&& told == 0 && !hour && cached is None ==> start == 0
            &&& told == 0 && !hour ==> snapshot_start(slug, cached, hourly) == start
            &&& told == 0 && hour && hourly->0 <= 3600 && cached is None ==> snapshot_start(
                slug,
                cached,
                hourly,
            ) == 0
            &&& told == 0 && hour && hourly->0 <= 3600 && cached is Some && cached->0 >= 3600
                ==> snapshot_start(slug, cached, hourly) + 3600 == cached->0
        }),
{
}

/// The time that is left runs from one instant to the other, and is none once the end
/// has come.
pub proof fn law_time_left(end: int, now: int)
    ensures
        now <= end ==> now + monus(end, now) == end,
        now >= end ==> monus(end, now) == 0,
{
}

/// The period that holds an instant began at a multiple of its length, less than that
/// before.
pub proof fn law_period_holds_instant(now: int, duration: int)
    requires
        duration > 0,
    ensures
        period_start(now, duration) <= now < period_start(now, duration) + duration,
        period_start(now, duration) % duration == 0,
{
    vstd::arithmetic::div_mod::lemma_fundamental_div_mod(now, duration);
    vstd::arithmetic::div_mod::lemma_mod_bound(now, duration);
    vstd::arithmetic::div_mod::lemma_mod_multiples_basic(now / duration, duration);
    assert(now / duration * duration == duration * (now / duration)) by (nonlinear_arith);
}

/// The time that is left is written in minutes and seconds, in seconds alone below a
/// minute; there are fewer than 60 seconds beside the minutes.
pub proof fn law_remaining_time_is_written(minutes: nat, seconds: nat)
    requires
        seconds < 60,
    ensures
        minutes > 0 ==> remaining_text(60 * minutes + seconds) == decimal(minutes) + "m "@
            + decimal(seconds) + "s"@,
        minutes == 0 ==> remaining_text(seconds) == decimal(seconds) + "s"@,
{
    vstd::arithmetic::div_mod::lemma_fundamental_div_mod_converse(
        (60 * minutes + seconds) as int,
        60,
        minutes as int,
        seconds as int,
    );
}

/// An instant is told exactly where the text tells one that is not before 1970.
pub proof fn law_instant_is_told(s: Seq<char>)
    ensures
        match crate::calendar::rfc3339_secs(s) {
            Some(t) => if t >= 0 {
                iso_to_unix(s) is Some && iso_to_unix(s)->0 == t
            } else {
                iso_to_unix(s) is None
            },
            None => iso_to_unix(s) is None,
        },
{
}

} // verus!
