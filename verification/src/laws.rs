//! What the operations of the library are for: promises that are stated of what goes in and
//! what comes out, whatever happens in between.
pub mod announcing;
pub mod asking;
pub mod configuring;
pub mod delivering;
pub mod discovery;
pub mod keeping;
pub mod links;
pub mod listening;
pub mod passing_on;
pub mod picturing;
pub mod posting;
pub mod reading;
pub mod surveying;
pub mod wording;
