//! What the operations are for, stated on what goes in and what comes out.
pub mod daemon;
pub mod inputs;
pub mod pages;
pub mod wallet;
pub mod words_and_numbers;
