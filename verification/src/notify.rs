//! Typed payloads of the events handed to the front-end-facing notifier.
//!
//! The notifier itself is an external collaborator; the engine only decides
//! when an event is due and what it carries.  These are the carried shapes.

use vstd::prelude::*;

verus! {

/// One card-presence status event: the card identity, the reader it sits
/// in, the observed state label, the resolved card number, and — when the
/// messaging task reports — whether its broker connection is online and
/// whether an authentication exchange is running.
pub struct CardSyncEvent {
    pub iccid: String,
    pub reader_name: String,
    pub card_state: String,
    pub card_number: String,
    pub online: Option<bool>,
    pub authentication: Option<bool>,
}

/// A free-form notification shown by the front end.
pub struct NotificationPayload {
    pub notification_type: String,
    pub message: String,
}

} // verus!
