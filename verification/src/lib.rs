//! Credential verification and token issuance.
//!
//! The library derives and verifies salted password hashes, mints signed
//! expiring identity tokens, and orchestrates sign-up and sign-in over an
//! abstract user store. Every contract is stated over mathematical views of
//! the data; the cryptographic primitives themselves are called through
//! narrow trusted declarations and everything around them is verified.
pub mod encoding;
pub mod password;
pub mod service;
pub mod store;
pub mod token;
