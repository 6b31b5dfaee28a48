use vstd::prelude::*;
use crate::error_data::ErrorData;
use crate::subscription_type::{debug_text, SubscriptionType};
use crate::text::concat3;

verus! {

/// Why the server refused a subscription.
#[derive(Clone, Copy, Debug, PartialEq, Eq, Structural)]
pub enum SubscriptionFailure {
    /// The server's database failed.
    DatabaseError,
    /// The server failed otherwise.
    ServerError,
    /// There is nothing to subscribe to.
    NoTarget,
    /// The user may not subscribe.
    NotAllowed,
}

/// The end of the message for each reason of refusal.
pub open spec fn failure_suffix(failure: SubscriptionFailure) -> Seq<char> {
    match failure {
        SubscriptionFailure::DatabaseError => " failed; a database error occurred"@,
        SubscriptionFailure::ServerError => " failed; a server error occurred"@,
        SubscriptionFailure::NoTarget => " failed; not a valid subscription target"@,
        SubscriptionFailure::NotAllowed => " failed; subscription not allowed"@,
    }
}

/// The error shown when the server refuses a subscription.
pub fn subscription_failure_error(subscription_type: &SubscriptionType, failure: SubscriptionFailure) -> (error: ErrorData)
    ensures
        error@.message == "Subscription to "@ + debug_text(subscription_type@) + failure_suffix(failure),
        error@.error is None,
{
    let suffix = match failure {
        SubscriptionFailure::DatabaseError => " failed; a database error occurred",
        SubscriptionFailure::ServerError => " failed; a server error occurred",
        SubscriptionFailure::NoTarget => " failed; not a valid subscription target",
        SubscriptionFailure::NotAllowed => " failed; subscription not allowed",
    };
    let text = subscription_type.debug_text();
    ErrorData::new_from_string(concat3("Subscription to ", text.as_str(), suffix))
}

/// The error shown when the connection with the server breaks.
pub fn connection_lost_error() -> (error: ErrorData)
    ensures
        error@.message == "The connection with the server has broken. If this wasn't expected, refresh the page."@,
        error@.error is None,
{
    ErrorData::new("The connection with the server has broken. If this wasn't expected, refresh the page.")
}

} // verus!
