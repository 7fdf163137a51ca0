//! An in-memory limit order matching engine.
//!
//! [`exchange::Exchange`] owns the three parts and is the way in:
//! - the order book ([`book`], [`queue`], [`slots`]): resting buy and sell
//!   orders under price priority, earlier arrival first among equal prices;
//! - the trade history ([`history`]): the newest trades, up to a capacity;
//! - the change-event broker ([`broker`]): fan-out of added orders, removed
//!   orders and trades to subscribers.
//!
//! [`matcher`] holds the matching algorithm and its contract, [`laws`] what
//! follows from that contract, [`price`] the arbitrary-precision prices,
//! [`model`] the orders and trades, [`reporter`] a synthetic order source,
//! and [`text`] and [`slice_display`] how orders read as text.

pub mod book;
pub mod broker;
pub mod exchange;
pub mod history;
pub mod laws;
pub mod matcher;
pub mod model;
pub mod price;
pub mod queue;
pub mod reporter;
pub mod slice_display;
pub mod slots;
pub mod text;
