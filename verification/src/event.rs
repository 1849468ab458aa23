//! Decoding of a log record as whichever event it is a record of.

use crate::abi::blur;
use crate::abi::cryptopunks::{
    PunkBidEnteredEvent, PunkBidEnteredEventView, PunkBidWithdrawnEvent,
    PunkBidWithdrawnEventView, PunkBoughtEvent, PunkBoughtEventView, PunkNoLongerForSaleEvent,
    PunkNoLongerForSaleEventView, PunkOfferedEvent, PunkOfferedEventView,
};
use crate::abi::looksrarev1::{TakerEvent, TakerEventView};
use crate::abi::looksrarev2::{
    TakerAskV2Event, TakerAskV2EventView, TakerBidV2Event, TakerBidV2EventView,
};
use crate::abi::seaport::{OrderFulfilledEvent, OrderFulfilledEventView};
use crate::abi::wyvern;
use crate::error::{view_result, DecodeError};
use crate::log::LogRecord;
use vstd::prelude::*;

verus! {

/// An event of one of the protocols.
#[derive(Clone, Debug, PartialEq, Eq)]
pub enum ProtocolEvent {
    BlurOrdersMatched(blur::OrdersMatchedEvent),
    BlurOrderCancelled(blur::OrderCancelledEvent),
    PunkOffered(PunkOfferedEvent),
    PunkBidEntered(PunkBidEnteredEvent),
    PunkBidWithdrawn(PunkBidWithdrawnEvent),
    PunkBought(PunkBoughtEvent),
    PunkNoLongerForSale(PunkNoLongerForSaleEvent),
    Taker(TakerEvent),
    TakerAskV2(TakerAskV2Event),
    TakerBidV2(TakerBidV2Event),
    OrderFulfilled(OrderFulfilledEvent),
    WyvernOrdersMatched(wyvern::OrdersMatchedEvent),
}

/// A `ProtocolEvent` as a mathematical value.
pub enum ProtocolEventView {
    BlurOrdersMatched(blur::OrdersMatchedEventView),
    BlurOrderCancelled(blur::OrderCancelledEventView),
    PunkOffered(PunkOfferedEventView),
    PunkBidEntered(PunkBidEnteredEventView),
    PunkBidWithdrawn(PunkBidWithdrawnEventView),
    PunkBought(PunkBoughtEventView),
    PunkNoLongerForSale(PunkNoLongerForSaleEventView),
    Taker(TakerEventView),
    TakerAskV2(TakerAskV2EventView),
    TakerBidV2(TakerBidV2EventView),
    OrderFulfilled(OrderFulfilledEventView),
    WyvernOrdersMatched(wyvern::OrdersMatchedEventView),
}

impl View for ProtocolEvent {
    type V = ProtocolEventView;

    open spec fn view(&self) -> ProtocolEventView {
        match self {
            ProtocolEvent::BlurOrdersMatched(event) => ProtocolEventView::BlurOrdersMatched(event@),
            ProtocolEvent::BlurOrderCancelled(event) => ProtocolEventView::BlurOrderCancelled(
                event@,
            ),
            ProtocolEvent::PunkOffered(event) => ProtocolEventView::PunkOffered(event@),
            ProtocolEvent::PunkBidEntered(event) => ProtocolEventView::PunkBidEntered(event@),
            ProtocolEvent::PunkBidWithdrawn(event) => ProtocolEventView::PunkBidWithdrawn(event@),
            ProtocolEvent::PunkBought(event) => ProtocolEventView::PunkBought(event@),
            ProtocolEvent::PunkNoLongerForSale(event) => ProtocolEventView::PunkNoLongerForSale(
                event@,
            ),
            ProtocolEvent::Taker(event) => ProtocolEventView::Taker(event@),
            ProtocolEvent::TakerAskV2(event) => ProtocolEventView::TakerAskV2(event@),
            ProtocolEvent::TakerBidV2(event) => ProtocolEventView::TakerBidV2(event@),
            ProtocolEvent::OrderFulfilled(event) => ProtocolEventView::OrderFulfilled(event@),
            ProtocolEvent::WyvernOrdersMatched(event) => ProtocolEventView::WyvernOrdersMatched(
                event@,
            ),
        }
    }
}

/// The outcome of decoding an event, with the event under the tag that `tag` puts on
/// it.
pub open spec fn under<V>(
    outcome: Result<V, DecodeError>,
    tag: spec_fn(V) -> ProtocolEventView,
) -> Result<ProtocolEventView, DecodeError> {
    match outcome {
        Ok(event) => Ok(tag(event)),
        Err(error) => Err(error),
    }
}

/// What decoding a record with these topics and this payload gives: what the event
/// that the record is of makes of it, under that event's tag; a mismatch where the
/// record is of no event.
pub open spec fn decoded_log(topics: Seq<[u8; 32]>, data: Seq<u8>) -> Result<
    ProtocolEventView,
    DecodeError,
> {
    if blur::OrdersMatchedEvent::recognizes(topics) {
        under(
            blur::OrdersMatchedEvent::decoded(topics, data),
            |event| ProtocolEventView::BlurOrdersMatched(event),
        )
    } else if blur::OrderCancelledEvent::recognizes(topics) {
        under(
            blur::OrderCancelledEvent::decoded(topics),
            |event| ProtocolEventView::BlurOrderCancelled(event),
        )
    } else if PunkOfferedEvent::recognizes(topics) {
        under(
            PunkOfferedEvent::decoded(topics),
            |event| ProtocolEventView::PunkOffered(event),
        )
    } else if PunkBidEnteredEvent::recognizes(topics) {
        under(
            PunkBidEnteredEvent::decoded(topics),
            |event| ProtocolEventView::PunkBidEntered(event),
        )
    } else if PunkBidWithdrawnEvent::recognizes(topics) {
        under(
            PunkBidWithdrawnEvent::decoded(topics),
            |event| ProtocolEventView::PunkBidWithdrawn(event),
        )
    } else if PunkBoughtEvent::recognizes(topics) {
        under(
            PunkBoughtEvent::decoded(topics),
            |event| ProtocolEventView::PunkBought(event),
        )
    } else if PunkNoLongerForSaleEvent::recognizes(topics) {
        under(
            PunkNoLongerForSaleEvent::decoded(topics),
            |event| ProtocolEventView::PunkNoLongerForSale(event),
        )
    } else if TakerEvent::matched(topics) is Some {
        under(
            TakerEvent::decoded(TakerEvent::matched(topics)->Some_0, topics, data),
            |event| ProtocolEventView::Taker(event),
        )
    } else if TakerAskV2Event::recognizes(topics) {
        under(
            TakerAskV2Event::decoded(topics, data),
            |event| ProtocolEventView::TakerAskV2(event),
        )
    } else if TakerBidV2Event::recognizes(topics) {
        under(
            TakerBidV2Event::decoded(topics, data),
            |event| ProtocolEventView::TakerBidV2(event),
        )
    } else if OrderFulfilledEvent::recognizes(topics) {
        under(
            OrderFulfilledEvent::decoded(topics, data),
            |event| ProtocolEventView::OrderFulfilled(event),
        )
    } else if wyvern::OrdersMatchedEvent::recognizes(topics) {
        under(
            wyvern::OrdersMatchedEvent::decoded(topics),
            |event| ProtocolEventView::WyvernOrdersMatched(event),
        )
    } else {
        Err(DecodeError::SignatureMismatch)
    }
}

/// One where `holds`, else none.
pub open spec fn one_if(holds: bool) -> nat {
    if holds {
        1
    } else {
        0
    }
}

/// The number of events that a record with these topics is a record of, the two taker
/// events of the first order-book version counted as one.
pub open spec fn events_recognizing(topics: Seq<[u8; 32]>) -> nat {
    one_if(TakerEvent::matched(topics) is Some)
        + one_if(blur::OrdersMatchedEvent::recognizes(topics))
        + one_if(blur::OrderCancelledEvent::recognizes(topics))
        + one_if(PunkOfferedEvent::recognizes(topics))
        + one_if(PunkBidEnteredEvent::recognizes(topics))
        + one_if(PunkBidWithdrawnEvent::recognizes(topics))
        + one_if(PunkBoughtEvent::recognizes(topics))
        + one_if(PunkNoLongerForSaleEvent::recognizes(topics))
        + one_if(TakerAskV2Event::recognizes(topics))
        + one_if(TakerBidV2Event::recognizes(topics))
        + one_if(OrderFulfilledEvent::recognizes(topics))
        + one_if(wyvern::OrdersMatchedEvent::recognizes(topics))
}

/// A record is of one event at most: no two events have the same hash.
pub proof fn lemma_one_event_at_most(topics: Seq<[u8; 32]>)
    ensures
        events_recognizing(topics) <= 1,
{
}

/// The order in which the events are tried is of no account: a record of an event
/// decodes to what that event makes of it.
pub proof fn lemma_decoded_log_of_event(topics: Seq<[u8; 32]>, data: Seq<u8>)
    ensures
        blur::OrdersMatchedEvent::recognizes(topics) ==> decoded_log(topics, data) == under(
            blur::OrdersMatchedEvent::decoded(topics, data),
            |event| ProtocolEventView::BlurOrdersMatched(event),
        ),
        blur::OrderCancelledEvent::recognizes(topics) ==> decoded_log(topics, data) == under(
            blur::OrderCancelledEvent::decoded(topics),
            |event| ProtocolEventView::BlurOrderCancelled(event),
        ),
        PunkOfferedEvent::recognizes(topics) ==> decoded_log(topics, data) == under(
            PunkOfferedEvent::decoded(topics),
            |event| ProtocolEventView::PunkOffered(event),
        ),
        PunkBidEnteredEvent::recognizes(topics) ==> decoded_log(topics, data) == under(
            PunkBidEnteredEvent::decoded(topics),
            |event| ProtocolEventView::PunkBidEntered(event),
        ),
        PunkBidWithdrawnEvent::recognizes(topics) ==> decoded_log(topics, data) == under(
            PunkBidWithdrawnEvent::decoded(topics),
            |event| ProtocolEventView::PunkBidWithdrawn(event),
        ),
        PunkBoughtEvent::recognizes(topics) ==> decoded_log(topics, data) == under(
            PunkBoughtEvent::decoded(topics),
            |event| ProtocolEventView::PunkBought(event),
        ),
        PunkNoLongerForSaleEvent::recognizes(topics) ==> decoded_log(topics, data) == under(
            PunkNoLongerForSaleEvent::decoded(topics),
            |event| ProtocolEventView::PunkNoLongerForSale(event),
        ),
        TakerEvent::matched(topics) matches Some(event_type) ==> decoded_log(topics, data)
            == under(
            TakerEvent::decoded(event_type, topics, data),
            |event| ProtocolEventView::Taker(event),
        ),
        TakerAskV2Event::recognizes(topics) ==> decoded_log(topics, data) == under(
            TakerAskV2Event::decoded(topics, data),
            |event| ProtocolEventView::TakerAskV2(event),
        ),
        TakerBidV2Event::recognizes(topics) ==> decoded_log(topics, data) == under(
            TakerBidV2Event::decoded(topics, data),
            |event| ProtocolEventView::TakerBidV2(event),
        ),
        OrderFulfilledEvent::recognizes(topics) ==> decoded_log(topics, data) == under(
            OrderFulfilledEvent::decoded(topics, data),
            |event| ProtocolEventView::OrderFulfilled(event),
        ),
        wyvern::OrdersMatchedEvent::recognizes(topics) ==> decoded_log(topics, data) == under(
            wyvern::OrdersMatchedEvent::decoded(topics),
            |event| ProtocolEventView::WyvernOrdersMatched(event),
        ),
{
}

/// Decodes `log` as a record of whichever event it is a record of.
pub fn decode_log(log: &LogRecord) -> (result: Result<ProtocolEvent, DecodeError>)
    ensures
        view_result(result) == decoded_log(log.topics@, log.data@),
{
    if blur::OrdersMatchedEvent::match_log(log) {
        return match blur::OrdersMatchedEvent::decode(log) {
            Ok(event) => Ok(ProtocolEvent::BlurOrdersMatched(event)),
            Err(error) => Err(error),
        };
    }
    if blur::OrderCancelledEvent::match_log(log) {
        return match blur::OrderCancelledEvent::decode(log) {
            Ok(event) => Ok(ProtocolEvent::BlurOrderCancelled(event)),
            Err(error) => Err(error),
        };
    }
    if PunkOfferedEvent::match_log(log) {
        return match PunkOfferedEvent::decode(log) {
            Ok(event) => Ok(ProtocolEvent::PunkOffered(event)),
            Err(error) => Err(error),
        };
    }
    if PunkBidEnteredEvent::match_log(log) {
        return match PunkBidEnteredEvent::decode(log) {
            Ok(event) => Ok(ProtocolEvent::PunkBidEntered(event)),
            Err(error) => Err(error),
        };
    }
    if PunkBidWithdrawnEvent::match_log(log) {
        return match PunkBidWithdrawnEvent::decode(log) {
            Ok(event) => Ok(ProtocolEvent::PunkBidWithdrawn(event)),
            Err(error) => Err(error),
        };
    }
    if PunkBoughtEvent::match_log(log) {
        return match PunkBoughtEvent::decode(log) {
            Ok(event) => Ok(ProtocolEvent::PunkBought(event)),
            Err(error) => Err(error),
        };
    }
    if PunkNoLongerForSaleEvent::match_log(log) {
        return match PunkNoLongerForSaleEvent::decode(log) {
            Ok(event) => Ok(ProtocolEvent::PunkNoLongerForSale(event)),
            Err(error) => Err(error),
        };
    }
    if let Some(event_type) = TakerEvent::match_log(log) {
        return match TakerEvent::decode(event_type, log) {
            Ok(event) => Ok(ProtocolEvent::Taker(event)),
            Err(error) => Err(error),
        };
    }
    if TakerAskV2Event::match_log(log) {
        return match TakerAskV2Event::decode(log) {
            Ok(event) => Ok(ProtocolEvent::TakerAskV2(event)),
            Err(error) => Err(error),
        };
    }
    if TakerBidV2Event::match_log(log) {
        return match TakerBidV2Event::decode(log) {
            Ok(event) => Ok(ProtocolEvent::TakerBidV2(event)),
            Err(error) => Err(error),
        };
    }
    if OrderFulfilledEvent::match_log(log) {
        return match OrderFulfilledEvent::decode(log) {
            Ok(event) => Ok(ProtocolEvent::OrderFulfilled(event)),
            Err(error) => Err(error),
        };
    }
    if wyvern::OrdersMatchedEvent::match_log(log) {
        return match wyvern::OrdersMatchedEvent::decode(log) {
            Ok(event) => Ok(ProtocolEvent::WyvernOrdersMatched(event)),
            Err(error) => Err(error),
        };
    }
    Err(DecodeError::SignatureMismatch)
}

} // verus!
