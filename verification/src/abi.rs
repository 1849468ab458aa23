//! The events of each marketplace protocol.
//!
//! An event declares how many topics a record of it has, and where each of its fields
//! stands: in a topic, or in the payload. Every event is decoded by one rule.
//!
//! - A record that is not of the event is a mismatch.
//! - A field in the payload, or in a topic that a record of the event has, must be
//!   there: a payload or a record that falls short of it is truncated.
//! - A field in a topic beyond those that a record of the event has is without a
//!   source in every such record. In an event that holds other fields it is absent,
//!   `None`. An event that would hold nothing else is not made: the record is
//!   truncated.

pub mod blur;
pub mod cryptopunks;
pub mod looksrarev1;
pub mod looksrarev2;
pub mod seaport;
pub mod wyvern;
