pub mod channels;
pub mod error_codes;
pub mod messages;
