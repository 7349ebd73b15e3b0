//! What is particular to one provider.
pub mod autoclaw_credentials;
pub mod catalog;
pub mod catpaw_balance;
pub mod router;
pub mod credential_laws;
pub mod provider_laws;
