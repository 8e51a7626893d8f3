//! Hardware-backed custody of signing keys: an encrypted, capacity-bounded
//! catalog of entries kept in an authenticator's large-blob area, the sealed
//! byte layout of each entry, and the request policy of a remote signer.

pub mod bunker;
pub mod catalog;
pub mod codec;
pub mod keys;
pub mod sealed;
