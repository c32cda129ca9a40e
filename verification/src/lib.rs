//! A safety layer over a platform credential store.
//!
//! The library exposes cryptographic identities (a certificate paired with
//! its private key), wraps native reference-counted objects in
//! ownership-tracked handles, and unifies two underlying failure
//! representations into a single reportable error surface.
//!
//! The native framework itself (reference counting, the identity accessors,
//! and the passphrase-protected container decoder) is an external
//! collaborator; it is represented here by an explicit, fully specified
//! counting model ([`handle::RefTable`] and [`store::CredStore`]) so that the
//! ownership discipline and the error contracts can be stated and proved for
//! every sequence of acquisitions and releases.

pub mod base;
pub mod certificate;
pub mod handle;
pub mod identity;
pub mod import_export;
pub mod key;
pub mod store;
