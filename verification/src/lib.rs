//! The settlement core of a binary-outcome prediction market.
//!
//! Two complementary claim tokens, yes and no, are together worth 100 units
//! of collateral. The market keeps a book of limit orders by price, matches
//! incoming orders against it, and queues what is owed for later payment. Book
//! and ledger live in one flat data buffer of fixed layout, on which every
//! operation works in place.

pub mod book;
pub mod consistency;
pub mod error;
pub mod fifo;
pub mod fills;
pub mod instruction;
pub mod ledger;
pub mod matching;
pub mod pda;
pub mod processor;
pub mod pubkey;
pub mod settlement;
pub mod state;
pub mod token;
