//! One-time-password authenticator library: HOTP/TOTP code generation
//! (RFC 4226 / RFC 6238) over a durable store of named accounts.

pub mod codec;
pub mod command;
pub mod error;
pub mod otp;
pub mod parse;
pub mod persist;
pub mod store;
pub mod text;

pub use error::OtpError;
pub use otp::Algorithm;
pub use otp::Otp;
