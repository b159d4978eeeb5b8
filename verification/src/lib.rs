//! Teleprinter current-loop logic: ITA-2 encoding and decoding, the bit-level
//! framing of characters on the current loop, and line-end translation for text
//! coming from a computer.

pub mod baudot;
pub mod stream;
pub mod translate;
pub mod transmission;

pub use baudot::{BaudotChar, BaudotShift};
pub use stream::BaudotStream;
pub use translate::translate;
