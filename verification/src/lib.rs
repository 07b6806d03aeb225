//! A minimal on-chain style mail ledger.
//!
//! Accounts exchange short "mail" items identified by a caller-chosen unique
//! id. Every send derives an obfuscation mask (a deterministic splice of the
//! stringified timestamp, the caller's phrase, and a rolling contract-level
//! state string) together with a three-element classifier, and records them
//! under the mail id. The mask and classifier of a mail are readable only by
//! its sender and recipient. Accounts can also keep a contact list and tip
//! value to a contact.
//!
//! The hosting ledger (caller identity, block timestamp, balances and the
//! value-transfer primitive) is outside this library; operations take those
//! host-provided values as plain arguments and return the decisions the host
//! must carry out.

pub mod account;
pub mod derivation;
pub mod laws;
pub mod ledger;
pub mod tables;

pub use account::AccountId;
pub use ledger::Mail;
