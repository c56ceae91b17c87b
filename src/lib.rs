//! Extraction of normalized swap transactions from webhook event payloads.
//!
//! A payload carries a free-text description (`<party> swapped <amount>
//! <SYMBOL> for <amount> <SYMBOL>`) and a list of token transfers. The
//! library matches the description, resolves both amounts to token mints by
//! looking them up among the transfers, and merges the payload's metadata
//! into a [`parser::Transaction`].
pub mod text;
pub mod description;
pub mod quantity;
pub mod json;
pub mod parser;

pub use parser::{
    find_mint_by_token_amount, parse_description, parse_transaction, TokenTransfer, Transaction,
    TransactionMeta,
};
