//! A payment-channel operator: metered content, bearer capabilities, stream
//! sessions and open-channel verification.

pub mod capability;
pub mod content;
pub mod stream;
pub mod verify;
