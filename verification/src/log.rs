//! Log records, event signatures, and the matching of one against the other.

use crate::error::DecodeError;
use crate::word::copy_bytes;
use vstd::prelude::*;

verus! {

/// A log record: its topic words in order, and its payload.
#[derive(Clone, Debug, PartialEq, Eq)]
pub struct LogRecord {
    pub topics: Vec<[u8; 32]>,
    pub data: Vec<u8>,
}

/// What identifies an event: the hash in its first topic, and the number of topics that
/// a record of it has.
#[derive(Clone, Copy, Debug, PartialEq, Eq)]
pub struct EventSignature {
    pub hash: [u8; 32],
    pub topic_count: usize,
}

/// Whether a record with these topics is of the event with this hash and topic count:
/// it has exactly as many topics, and its first topic is the hash. A record without
/// topics is of no event.
pub open spec fn recognized(topics: Seq<[u8; 32]>, hash: Seq<u8>, topic_count: nat) -> bool {
    topics.len() == topic_count && topics.len() > 0 && topics[0]@ == hash
}

/// An optional byte string as a mathematical value.
pub open spec fn optional_bytes_view(bytes: Option<Vec<u8>>) -> Option<Seq<u8>> {
    match bytes {
        Some(bytes) => Some(bytes@),
        None => None,
    }
}

/// The bytes of the topic at `index`, where a record with these topics has one.
pub open spec fn topic_bytes(topics: Seq<[u8; 32]>, index: int) -> Option<Seq<u8>> {
    if 0 <= index < topics.len() {
        Some(topics[index]@)
    } else {
        None
    }
}

/// Whether two words hold the same bytes.
pub fn words_equal(left: &[u8; 32], right: &[u8; 32]) -> (equal: bool)
    ensures
        equal == (left@ == right@),
{
    let mut i: usize = 0;
    while i < 32
        invariant
            i <= 32,
            forall|k: int| 0 <= k < i ==> left@[k] == right@[k],
        decreases 32 - i,
    {
        if left[i] != right[i] {
            return false;
        }
        i += 1;
    }
    assert(left@ =~= right@);
    true
}

impl EventSignature {
    /// Whether `log` is a record of this event.
    pub fn recognizes(&self, log: &LogRecord) -> (matched: bool)
        ensures
            matched == recognized(log.topics@, self.hash@, self.topic_count as nat),
    {
        log.topics.len() == self.topic_count && log.topics.len() > 0 && words_equal(
            &log.topics[0],
            &self.hash,
        )
    }
}

impl LogRecord {
    /// The bytes of the topic at `index`, where the record has one. This reads a field
    /// that may be absent from its event; `topic` reads one that the event cannot do
    /// without.
    pub fn topic_bytes(&self, index: usize) -> (bytes: Option<Vec<u8>>)
        ensures
            optional_bytes_view(bytes) == topic_bytes(self.topics@, index as int),
    {
        if index < self.topics.len() {
            Some(copy_bytes(self.topics[index].as_slice()))
        } else {
            None
        }
    }

    /// The topic at `index`; a record without one is truncated.
    pub fn topic(&self, index: usize) -> (word: Result<[u8; 32], DecodeError>)
        ensures
            index < self.topics@.len() ==> word == Ok::<[u8; 32], DecodeError>(
                self.topics@[index as int],
            ),
            index >= self.topics@.len() ==> word == Err::<[u8; 32], DecodeError>(
                DecodeError::TruncatedPayload,
            ),
    {
        if index < self.topics.len() {
            Ok(self.topics[index])
        } else {
            Err(DecodeError::TruncatedPayload)
        }
    }
}

/// The first signature of `table` that `log` is a record of.
pub fn match_signature(log: &LogRecord, table: &Vec<EventSignature>) -> (found: Option<
    EventSignature,
>)
    ensures
        match found {
            Some(signature) => exists|i: int|
                0 <= i < table@.len() && table@[i] == signature && first_match(
                    log.topics@,
                    table@,
                    i,
                ),
            None => forall|i: int|
                0 <= i < table@.len() ==> !recognized(
                    log.topics@,
                    (#[trigger] table@[i]).hash@,
                    table@[i].topic_count as nat,
                ),
        },
{
    let mut i: usize = 0;
    while i < table.len()
        invariant
            i <= table.len(),
            forall|k: int|
                0 <= k < i ==> !recognized(
                    log.topics@,
                    (#[trigger] table@[k]).hash@,
                    table@[k].topic_count as nat,
                ),
        decreases table.len() - i,
    {
        if table[i].recognizes(log) {
            return Some(table[i]);
        }
        i += 1;
    }
    None
}

/// Whether the signature at `i` is the first of `table` to match a record with these
/// topics.
pub open spec fn first_match(topics: Seq<[u8; 32]>, table: Seq<EventSignature>, i: int) -> bool {
    &&& 0 <= i < table.len()
    &&& recognized(topics, table[i].hash@, table[i].topic_count as nat)
    &&& forall|k: int|
        0 <= k < i ==> !recognized(topics, (#[trigger] table[k]).hash@, table[k].topic_count as nat)
}

/// A record is of at most one of two events that differ in hash or in topic count.
pub proof fn lemma_signatures_exclusive(
    topics: Seq<[u8; 32]>,
    first: EventSignature,
    second: EventSignature,
)
    requires
        first.hash@ != second.hash@ || first.topic_count != second.topic_count,
    ensures
        !(recognized(topics, first.hash@, first.topic_count as nat) && recognized(
            topics,
            second.hash@,
            second.topic_count as nat,
        )),
{
}

} // verus!
