//! What the exchange tells of its markets.
use crate::decimal::Decimal;
use crate::text::same_text;
use vstd::prelude::*;

verus! {

/// A market, as the listing of markets shows it.
pub struct Market {
    pub condition_id: String,
    pub slug: String,
    pub active: bool,
    pub closed: bool,
}

/// What a market holds.
pub struct MarketView {
    pub condition_id: Seq<char>,
    pub slug: Seq<char>,
    pub active: bool,
    pub closed: bool,
}

impl View for Market {
    type V = MarketView;

    open spec fn view(&self) -> MarketView {
        MarketView {
            condition_id: self.condition_id@,
            slug: self.slug@,
            active: self.active,
            closed: self.closed,
        }
    }
}

/// One of the tokens of a market: which outcome it pays on, and whether it won.
pub struct MarketToken {
    pub token_id: String,
    pub outcome: String,
    pub winner: bool,
}

/// What a token holds.
pub struct TokenView {
    pub token_id: Seq<char>,
    pub outcome: Seq<char>,
    pub winner: bool,
}

impl View for MarketToken {
    type V = TokenView;

    open spec fn view(&self) -> TokenView {
        TokenView { token_id: self.token_id@, outcome: self.outcome@, winner: self.winner }
    }
}

/// The details of a market, as the order book shows them.
pub struct MarketDetails {
    pub closed: bool,
    pub end_date_iso: String,
    pub tokens: Vec<MarketToken>,
}

/// The tokens as they are read.
pub open spec fn token_views(tokens: Seq<MarketToken>) -> Seq<TokenView> {
    tokens.map_values(|t: MarketToken| t@)
}

/// Some token of the given id has won.
pub open spec fn has_won(tokens: Seq<TokenView>, token_id: Seq<char>) -> bool {
    exists|i: int| 0 <= i < tokens.len() && (#[trigger] tokens[i]).token_id == token_id
        && tokens[i].winner
}

/// Whether some token of the given id has won.
pub fn token_won(tokens: &Vec<MarketToken>, token_id: &str) -> (r: bool)
    ensures
        r == has_won(token_views(tokens@), token_id@),
{
    let ghost views = token_views(tokens@);
    let mut i: usize = 0;
    while i < tokens.len()
        invariant
            i <= tokens@.len(),
            views == token_views(tokens@),
            forall|j: int|
                0 <= j < i ==> !((#[trigger] views[j]).token_id == token_id@ && views[j].winner),
        decreases tokens@.len() - i,
    {
        proof {
            assert(views[i as int] == tokens@[i as int]@);
        }
        if same_text(tokens[i].token_id.as_str(), token_id) && tokens[i].winner {
            return true;
        }
        i = i + 1;
    }
    false
}

/// Some token has won: the market is resolved.
pub open spec fn is_resolved(tokens: Seq<TokenView>) -> bool {
    exists|i: int| 0 <= i < tokens.len() && (#[trigger] tokens[i]).winner
}

/// Whether some token has won.
pub fn any_won(tokens: &Vec<MarketToken>) -> (r: bool)
    ensures
        r == is_resolved(token_views(tokens@)),
{
    let ghost views = token_views(tokens@);
    let mut i: usize = 0;
    while i < tokens.len()
        invariant
            i <= tokens@.len(),
            views == token_views(tokens@),
            forall|j: int| 0 <= j < i ==> !(#[trigger] views[j]).winner,
        decreases tokens@.len() - i,
    {
        proof {
            assert(views[i as int] == tokens@[i as int]@);
        }
        if tokens[i].winner {
            return true;
        }
        i = i + 1;
    }
    false
}

/// The best prices of a token.
pub struct TokenPrice {
    pub token_id: String,
    pub bid: Option<Decimal>,
    pub ask: Option<Decimal>,
}

/// What the prices of a token hold.
pub struct PriceView {
    pub token_id: Seq<char>,
    pub bid: Option<Decimal>,
    pub ask: Option<Decimal>,
}

impl View for TokenPrice {
    type V = PriceView;

    open spec fn view(&self) -> PriceView {
        PriceView { token_id: self.token_id@, bid: self.bid, ask: self.ask }
    }
}

impl PriceView {
    /// The prices are decimal numbers of the exchange.
    pub open spec fn wf(self) -> bool {
        (self.bid matches Some(d) ==> d.wf()) && (self.ask matches Some(d) ==> d.wf())
    }

    /// The ask, zero where there is none.
    pub open spec fn ask_price(self) -> Decimal {
        match self.ask {
            Some(d) => d,
            None => Decimal::zero(),
        }
    }
}

/// The prices that are there, if any.
pub open spec fn price_view(p: Option<TokenPrice>) -> Option<PriceView> {
    match p {
        Some(p) => Some(p@),
        None => None,
    }
}

/// The prices, where there are any, are decimal numbers of the exchange.
pub open spec fn price_wf(p: Option<PriceView>) -> bool {
    p matches Some(p) ==> p.wf()
}

impl TokenPrice {
    /// The ask, zero where there is none.
    pub fn ask_price(&self) -> (r: Decimal)
        ensures
            r == self@.ask_price(),
    {
        match self.ask {
            Some(d) => d,
            None => Decimal { mantissa: 0, scale: 0 },
        }
    }

    /// The same prices again.
    pub fn copied(&self) -> (r: TokenPrice)
        ensures
            r@ == self@,
    {
        TokenPrice { token_id: self.token_id.clone(), bid: self.bid, ask: self.ask }
    }
}

/// The same prices again, if any.
pub fn copied_price(p: &Option<TokenPrice>) -> (r: Option<TokenPrice>)
    ensures
        price_view(r) == price_view(*p),
{
    match p {
        Some(p) => Some(p.copied()),
        None => None,
    }
}

/// The prices of the two tokens of a market.
pub struct MarketData {
    pub condition_id: String,
    pub market_name: String,
    pub up_token: Option<TokenPrice>,
    pub down_token: Option<TokenPrice>,
}

} // verus!
