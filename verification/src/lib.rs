//! Verified core of the additional-accounts interface: paging of requested
//! accounts, the discovery loop that collects them page by page, the bytes of
//! the instructions sent to an interface program, and the decoding and
//! resolution of the accounts that a preflight call hands back.
pub mod keys;
pub mod accounts;
pub mod instruction;
pub mod return_data;
pub mod matching;
pub mod discovery;
