//! Wire-level encoding and decoding of DNS messages: the fixed header,
//! domain names, questions, answer records and whole messages.

pub mod answer;
pub mod common;
pub mod error;
pub mod header;
pub mod packet;
pub mod question;
