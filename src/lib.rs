//! Login handshake of a school-management web portal: token scraping,
//! credential form building, failure detection and embedded payload decoding.
pub mod credentials;
pub mod error;
pub mod extract;
pub mod session;
pub mod text;
