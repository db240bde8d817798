//! Verified core of a client for a brokerage's market-event stream:
//! the subscription payload, the session-id extraction, the ticker-line
//! splitting, and the plain data types of the trading model.

pub mod json;
pub mod payload;
pub mod primitives;
pub mod session;
pub mod tickers;
pub mod trading;

pub use payload::{create_payload, MarketPayload};
pub use primitives::{MsgType, OrderAttribute, OrderType, Ticker, Venue};
pub use session::{bearer_header, SessionDataL1, SessionDataL2};
pub use tickers::split_tickers;
pub use trading::{Rule, RuleType, Strategy};
