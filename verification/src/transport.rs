//! What every way to reach the daemon has in common.

use vstd::prelude::*;
use crate::api::ApiEvent;
use crate::ids::FileId;
use crate::state::Change;

verus! {

/// What a subscription yields.
#[derive(Debug)]
pub enum Received<T> {
    Item(T),
    /// The subscriber was too slow and missed some.
    Lagged,
    Closed,
}

/// The event that a change applied within this process shows as.
pub open spec fn shown_change(received: Received<Change>) -> Option<ApiEvent> {
    match received {
        Received::Item(change) => Some(ApiEvent::Changed(change)),
        Received::Lagged => Some(ApiEvent::Resynced),
        Received::Closed => None,
    }
}

/// The event that an event of the control socket shows as.
pub open spec fn shown_event(received: Received<ApiEvent>) -> Option<ApiEvent> {
    match received {
        Received::Item(event) => Some(event),
        Received::Lagged => Some(ApiEvent::Resynced),
        Received::Closed => None,
    }
}

/// Whether an event ends the wait for a provided file to be handed on.
pub open spec fn is_released(received: Received<ApiEvent>, file_id: FileId) -> bool {
    match received {
        Received::Item(ApiEvent::ProviderReleased { file_id: released }) => released == file_id,
        Received::Closed => true,
        _ => false,
    }
}

/// The event that a change applied within this process shows as. A subscriber that
/// missed some is asked to fetch the current state; `None` ends the stream.
pub fn change_event(received: Received<Change>) -> (r: Option<ApiEvent>)
    ensures
        r == shown_change(received),
        r == match received {
            Received::Item(change) => Some(ApiEvent::Changed(change)),
            Received::Lagged => Some(ApiEvent::Resynced),
            Received::Closed => None,
        },
{
    match received {
        Received::Item(change) => Some(ApiEvent::Changed(change)),
        Received::Lagged => Some(ApiEvent::Resynced),
        Received::Closed => None,
    }
}

/// The event that an event of the control socket shows as.
pub fn relayed_event(received: Received<ApiEvent>) -> (r: Option<ApiEvent>)
    ensures
        r == shown_event(received),
        r == match received {
            Received::Item(event) => Some(event),
            Received::Lagged => Some(ApiEvent::Resynced),
            Received::Closed => None,
        },
{
    match received {
        Received::Item(event) => Some(event),
        Received::Lagged => Some(ApiEvent::Resynced),
        Received::Closed => None,
    }
}

/// Whether whoever waits for a provided file to be handed on can go on: it was, or no
/// event will come any more.
pub fn ends_wait_for_release(received: &Received<ApiEvent>, file_id: FileId) -> (r: bool)
    ensures
        r == is_released(*received, file_id),
        r == match *received {
            Received::Item(ApiEvent::ProviderReleased { file_id: released }) => released
                == file_id,
            Received::Closed => true,
            _ => false,
        },
{
    match received {
        Received::Item(ApiEvent::ProviderReleased { file_id: released }) => released.value
            == file_id.value,
        Received::Closed => true,
        _ => false,
    }
}

/// A subscriber sees every change and every event as it is; one that missed some is asked to
/// fetch the current state, and only a closed subscription ends.
pub proof fn law_subscribers_miss_nothing(
    changes: Received<Change>,
    events: Received<ApiEvent>,
)
    ensures
        changes matches Received::Item(change) ==> (shown_change(changes) matches Some(
            ApiEvent::Changed(shown),
        ) && shown == change),
        events matches Received::Item(event) ==> shown_event(events) == Some(event),
        changes is Lagged ==> shown_change(changes) == Some(ApiEvent::Resynced),
        events is Lagged ==> shown_event(events) == Some(ApiEvent::Resynced),
        shown_change(changes) is None <==> changes is Closed,
        shown_event(events) is None <==> events is Closed,
{
}

/// Whoever waits for a provided file to be handed on waits until it is, or until no event
/// will come any more; events on other files, and missed ones, end no wait.
pub proof fn law_a_provider_waits_for_its_own_file(
    received: Received<ApiEvent>,
    file_id: FileId,
)
    ensures
        is_released(received, file_id) <==> received is Closed || received == Received::Item(
            ApiEvent::ProviderReleased { file_id },
        ),
{
}

} // verus!
