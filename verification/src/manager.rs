//! The topic and subscription lifecycle: the request values the gateway sends
//! to the provider, the idempotency scan over the provider's paginated
//! subscription listing, and the reading of each operation's outcome into the
//! error taxonomy.
//!
//! The network calls themselves happen outside this library; the caller hands
//! in the listing pages it fetched, and each operation's raw outcome, as plain
//! values.

use vstd::prelude::*;
use vstd::string::StringExecFns;
use crate::errors::ApiError;
use crate::text::str_eq;

verus! {

/// What a topic-creation request carries, as read from the caller.
pub struct CreateTopicParams {
    pub name: String,
    pub tags: Option<Vec<(String, String)>>,
    pub attributes: Option<Vec<(String, String)>>,
}

/// What an email-subscription request carries, as read from the caller.
pub struct EmailSubscriptionParams {
    pub email: String,
    pub arn: String,
    pub attributes: Option<Vec<(String, String)>>,
}

/// A deletion request: the identifier of the topic or subscription to remove.
pub struct DeleteItemParams {
    pub arn: String,
}

/// What a publication request carries, as read from the caller.
pub struct PublishMessageParams {
    pub arn: String,
    pub message: String,
    pub subject: String,
}

/// One entry of the provider's subscription listing. The provider may leave
/// any of the fields unset.
pub struct SubscriptionRecord {
    pub subscription_arn: Option<String>,
    pub topic_arn: Option<String>,
    pub protocol: Option<String>,
    pub endpoint: Option<String>,
}

/// Whether a listed subscription binds exactly this endpoint to this topic.
/// A record missing either field matches nothing.
pub open spec fn record_matches(rec: SubscriptionRecord, endpoint: Seq<char>, topic_arn: Seq<char>) -> bool {
    &&& rec.endpoint matches Some(e) && e@ == endpoint
    &&& rec.topic_arn matches Some(t) && t@ == topic_arn
}

/// Whether one page of the listing holds a matching subscription.
pub open spec fn page_has_match(page: Seq<SubscriptionRecord>, endpoint: Seq<char>, topic_arn: Seq<char>) -> bool {
    exists|i: int| 0 <= i < page.len() && record_matches(page[i], endpoint, topic_arn)
}

/// Whether any page of the whole listing holds a matching subscription.
pub open spec fn listing_has_match(
    pages: Seq<Vec<SubscriptionRecord>>,
    endpoint: Seq<char>,
    topic_arn: Seq<char>,
) -> bool {
    exists|p: int| 0 <= p < pages.len() && page_has_match(pages[p]@, endpoint, topic_arn)
}

/// Scans one page of the listing for a subscription binding this endpoint to
/// this topic.
pub fn page_contains(page: &Vec<SubscriptionRecord>, endpoint: &str, topic_arn: &str) -> (r: bool)
    ensures
        r == page_has_match(page@, endpoint@, topic_arn@),
{
    let n = page.len();
    let mut i: usize = 0;
    while i < n
        invariant
            n == page@.len(),
            i <= n,
            forall|t: int| 0 <= t < i ==> !record_matches(page@[t], endpoint@, topic_arn@),
        decreases n - i,
    {
        let rec = &page[i];
        let endpoint_matches = match &rec.endpoint {
            Some(e) => str_eq(e.as_str(), endpoint),
            None => false,
        };
        let topic_matches = match &rec.topic_arn {
            Some(t) => str_eq(t.as_str(), topic_arn),
            None => false,
        };
        if endpoint_matches && topic_matches {
            return true;
        }
        i = i + 1;
    }
    false
}

/// One step of the scan: carries forward what earlier pages found and adds
/// this page. Folding it over the pages in any order decides the whole
/// listing.
pub fn scan_page(found: bool, page: &Vec<SubscriptionRecord>, endpoint: &str, topic_arn: &str) -> (r:
    bool)
    ensures
        r == (found || page_has_match(page@, endpoint@, topic_arn@)),
{
    found || page_contains(page, endpoint, topic_arn)
}

/// Whether some subscription across the entire listing binds this endpoint to
/// this topic — true exactly when some record of some page matches both. The
/// caller must hand in every page the provider reports, following its
/// continuation tokens until the listing is exhausted; a truncated listing
/// would silently miss subscriptions beyond it.
pub fn subscription_exists(pages: &Vec<Vec<SubscriptionRecord>>, endpoint: &str, topic_arn: &str) -> (r:
    bool)
    ensures
        r == listing_has_match(pages@, endpoint@, topic_arn@),
{
    let n = pages.len();
    let mut p: usize = 0;
    while p < n
        invariant
            n == pages@.len(),
            p <= n,
            forall|t: int| 0 <= t < p ==> !page_has_match(pages@[t]@, endpoint@, topic_arn@),
        decreases n - p,
    {
        if page_contains(&pages[p], endpoint, topic_arn) {
            return true;
        }
        p = p + 1;
    }
    false
}

/// The subscription request the gateway sends: a protocol, an endpoint, the
/// topic to bind it to, and optional attributes.
pub struct SubscribeRequest {
    pub protocol: String,
    pub endpoint: String,
    pub topic_arn: String,
    pub attributes: Option<Vec<(String, String)>>,
}

impl SubscribeRequest {
    /// The request binding an email address to a topic under the `email`
    /// protocol.
    pub fn email(params: EmailSubscriptionParams) -> (r: SubscribeRequest)
        ensures
            r.protocol@ == "email"@,
            r.endpoint == params.email,
            r.topic_arn == params.arn,
            r.attributes == params.attributes,
    {
        SubscribeRequest {
            protocol: String::from_str("email"),
            endpoint: params.email,
            topic_arn: params.arn,
            attributes: params.attributes,
        }
    }

    /// The request binding a webhook URL to a topic under the `https`
    /// protocol.
    pub fn https(endpoint: String, topic_arn: String) -> (r: SubscribeRequest)
        ensures
            r.protocol@ == "https"@,
            r.endpoint == endpoint,
            r.topic_arn == topic_arn,
            r.attributes is None,
    {
        SubscribeRequest {
            protocol: String::from_str("https"),
            endpoint,
            topic_arn,
            attributes: None,
        }
    }
}

/// Reads a topic creation outcome: the provider either assigned an identifier,
/// answered without one, or rejected the request with a message.
pub fn create_topic_outcome(outcome: Result<Option<String>, String>) -> (r: Result<String, ApiError>)
    ensures
        outcome matches Ok(Some(arn)) ==> r == Ok::<String, ApiError>(arn),
        outcome matches Ok(None) ==> (r matches Err(e) && e matches ApiError::CreateTopic(m)
            && m@ == "the provider answered without a topic identifier"@),
        outcome matches Err(m) ==> r == Err::<String, ApiError>(ApiError::CreateTopic(m)),
{
    match outcome {
        Ok(Some(arn)) => Ok(arn),
        Ok(None) => Err(
            ApiError::CreateTopic(
                String::from_str("the provider answered without a topic identifier"),
            ),
        ),
        Err(m) => Err(ApiError::CreateTopic(m)),
    }
}

/// Reads a subscription outcome: on success the provider assigns the new
/// subscription's identifier.
pub fn subscribe_outcome(outcome: Result<Option<String>, String>) -> (r: Result<String, ApiError>)
    ensures
        outcome matches Ok(Some(arn)) ==> r == Ok::<String, ApiError>(arn),
        outcome matches Ok(None) ==> (r matches Err(e) && e matches ApiError::SubscribeToTopic(m)
            && m@ == "the provider answered without a subscription identifier"@),
        outcome matches Err(m) ==> r == Err::<String, ApiError>(ApiError::SubscribeToTopic(m)),
{
    match outcome {
        Ok(Some(arn)) => Ok(arn),
        Ok(None) => Err(
            ApiError::SubscribeToTopic(
                String::from_str("the provider answered without a subscription identifier"),
            ),
        ),
        Err(m) => Err(ApiError::SubscribeToTopic(m)),
    }
}

/// Two subscription creations for one endpoint and topic, run in immediate
/// sequence without an existence check between them, stand afterwards as two
/// subscriptions: `subscribe_outcome` hands each accepted identifier through
/// unchanged and deduplicates nothing, so results built from identifiers the
/// provider made distinct are themselves distinct. That the provider assigns
/// distinct identifiers is its own doing and stands here as an assumption;
/// the race is thereby documented, not fixed.
pub proof fn lemma_unchecked_double_subscribe_distinct(
    r1: Result<String, ApiError>,
    r2: Result<String, ApiError>,
    s1: String,
    s2: String,
)
    requires
        r1 == Ok::<String, ApiError>(s1),
        r2 == Ok::<String, ApiError>(s2),
        s1@ != s2@,
    ensures
        r1 != r2,
{
}

/// Reads a publication outcome: on success the provider assigns the
/// message's identifier.
pub fn publish_outcome(outcome: Result<Option<String>, String>) -> (r: Result<String, ApiError>)
    ensures
        outcome matches Ok(Some(id)) ==> r == Ok::<String, ApiError>(id),
        outcome matches Ok(None) ==> (r matches Err(e) && e matches ApiError::PublishMessage(m)
            && m@ == "the provider answered without a message identifier"@),
        outcome matches Err(m) ==> r == Err::<String, ApiError>(ApiError::PublishMessage(m)),
{
    match outcome {
        Ok(Some(id)) => Ok(id),
        Ok(None) => Err(
            ApiError::PublishMessage(
                String::from_str("the provider answered without a message identifier"),
            ),
        ),
        Err(m) => Err(ApiError::PublishMessage(m)),
    }
}

/// Reads a topic deletion outcome.
pub fn delete_topic_outcome(outcome: Result<(), String>) -> (r: Result<(), ApiError>)
    ensures
        outcome is Ok ==> r is Ok,
        outcome matches Err(m) ==> r == Err::<(), ApiError>(ApiError::DeleteTopic(m)),
{
    match outcome {
        Ok(()) => Ok(()),
        Err(m) => Err(ApiError::DeleteTopic(m)),
    }
}

/// Reads an unsubscription outcome. A failure here — an unknown or already
/// removed identifier — is reported but is non-fatal to the caller.
pub fn unsubscribe_outcome(outcome: Result<(), String>) -> (r: Result<(), ApiError>)
    ensures
        outcome is Ok ==> r is Ok,
        outcome matches Err(m) ==> r == Err::<(), ApiError>(ApiError::UnsubscribeFromTopic(m)),
{
    match outcome {
        Ok(()) => Ok(()),
        Err(m) => Err(ApiError::UnsubscribeFromTopic(m)),
    }
}

} // verus!
