//! Plain data of the trading model: event kinds, order kinds, venues, tickers.

use vstd::prelude::*;

verus! {

/// The kinds of event that the market stream sends.
#[derive(Debug, Clone, Copy, PartialEq, Eq, Structural)]
pub enum MsgType {
    Trade,
    Quote,
    Summary,
    TimeSale,
}

/// Which side an order opens or closes.
#[derive(Debug, Clone, Copy, PartialEq, Eq, Structural)]
pub enum OrderType {
    BuyToOpen,
    SellToClose,
    BuyToClose,
    SellToOpen,
}

/// How an order is priced or worked.
#[derive(Debug, Clone, Copy, PartialEq, Eq, Structural)]
pub enum OrderAttribute {
    LimitSell,
    LimitBuy,
    MarketSell,
    MarketBuy,
    Vwap,
    Twap,
    Custom,
}

/// A trading venue.
#[derive(Debug)]
pub struct Venue {
    pub code: String,
    pub name: String,
    pub description: String,
}

/// A symbol and the venue it trades on.
#[derive(Debug)]
pub struct Ticker {
    pub symbol: String,
    pub venue: Venue,
}

} // verus!
