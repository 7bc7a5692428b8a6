use sns_gateway::errors::ApiError;
use sns_gateway::manager::{
    create_topic_outcome, delete_topic_outcome, page_contains, publish_outcome, scan_page,
    subscribe_outcome, subscription_exists, unsubscribe_outcome, EmailSubscriptionParams,
    SubscribeRequest, SubscriptionRecord,
};

fn record(endpoint: Option<&str>, topic_arn: Option<&str>) -> SubscriptionRecord {
    SubscriptionRecord {
        subscription_arn: Some(String::from("arn:sub:any")),
        topic_arn: topic_arn.map(String::from),
        protocol: Some(String::from("https")),
        endpoint: endpoint.map(String::from),
    }
}

#[test]
fn subscription_found_only_beyond_the_first_page() {
    let page1 = vec![
        record(Some("https://other.example/sns"), Some("arn:topic:1")),
        record(Some("https://app.example/sns"), Some("arn:topic:2")),
    ];
    let page2 = vec![record(None, Some("arn:topic:1")), record(Some("https://app.example/sns"), None)];
    let page3 = vec![record(Some("https://app.example/sns"), Some("arn:topic:1"))];
    let pages = vec![page1, page2, page3];
    assert!(subscription_exists(&pages, "https://app.example/sns", "arn:topic:1"));
}

#[test]
fn subscription_absent_across_all_pages() {
    let page1 = vec![record(Some("https://app.example/sns"), Some("arn:topic:2"))];
    let page2 = vec![
        record(Some("https://other.example/sns"), Some("arn:topic:1")),
        record(None, None),
    ];
    let pages = vec![page1, page2];
    assert!(!subscription_exists(&pages, "https://app.example/sns", "arn:topic:1"));
}

#[test]
fn empty_listing_has_no_subscription() {
    let pages: Vec<Vec<SubscriptionRecord>> = vec![];
    assert!(!subscription_exists(&pages, "anyone@example.com", "arn:topic:fresh"));
}

#[test]
fn records_missing_fields_never_match() {
    let page = vec![record(None, Some("arn:topic:1")), record(Some("e"), None), record(None, None)];
    assert!(!page_contains(&page, "e", "arn:topic:1"));
}

#[test]
fn match_requires_both_endpoint_and_topic() {
    let page = vec![record(Some("e"), Some("t"))];
    assert!(page_contains(&page, "e", "t"));
    assert!(!page_contains(&page, "e", "other"));
    assert!(!page_contains(&page, "other", "t"));
}

#[test]
fn scan_carries_earlier_finding_forward() {
    let empty: Vec<SubscriptionRecord> = vec![];
    let hit = vec![record(Some("e"), Some("t"))];
    assert!(!scan_page(false, &empty, "e", "t"));
    assert!(scan_page(false, &hit, "e", "t"));
    assert!(scan_page(true, &empty, "e", "t"));
}

#[test]
fn created_topic_starts_without_subscriptions() {
    let arn = create_topic_outcome(Ok(Some(String::from("arn:topic:orders")))).unwrap();
    assert_eq!(arn, "arn:topic:orders");
    let pages: Vec<Vec<SubscriptionRecord>> = vec![];
    assert!(!subscription_exists(&pages, "https://app.example/sns", &arn));
}

#[test]
fn create_topic_failure_is_tagged_and_reported() {
    let r = create_topic_outcome(Err(String::from("name not allowed")));
    match r {
        Err(ApiError::CreateTopic(m)) => assert_eq!(m, "name not allowed"),
        _ => panic!("wrong error"),
    }
}

#[test]
fn email_subscription_uses_email_protocol() {
    let req = SubscribeRequest::email(EmailSubscriptionParams {
        email: String::from("user@example.com"),
        arn: String::from("arn:topic:1"),
        attributes: None,
    });
    assert_eq!(req.protocol, "email");
    assert_eq!(req.endpoint, "user@example.com");
    assert_eq!(req.topic_arn, "arn:topic:1");
    assert!(req.attributes.is_none());
}

#[test]
fn https_subscription_uses_https_protocol() {
    let req = SubscribeRequest::https(
        String::from("https://app.example/sns"),
        String::from("arn:topic:1"),
    );
    assert_eq!(req.protocol, "https");
    assert_eq!(req.endpoint, "https://app.example/sns");
}

#[test]
fn unchecked_double_subscribe_yields_two_subscriptions() {
    // the check-then-act race documented for subscription creation: two
    // creations for the same endpoint and topic, run without an intervening
    // existence check, each succeed and hand back distinct identifiers
    let first = subscribe_outcome(Ok(Some(String::from("arn:sub:1")))).unwrap();
    let second = subscribe_outcome(Ok(Some(String::from("arn:sub:2")))).unwrap();
    assert_ne!(first, second);
}

#[test]
fn publish_to_unknown_topic_reports_the_reason() {
    let r = publish_outcome(Err(String::from("Topic does not exist")));
    let e = match r {
        Err(e) => e,
        Ok(_) => panic!("expected an error"),
    };
    assert!(matches!(e, ApiError::PublishMessage(_)));
    let resp = e.into_response();
    assert_eq!(resp.status, 500);
    assert_eq!(resp.body, "Topic does not exist");
}

#[test]
fn publish_success_hands_back_the_message_id() {
    let id = publish_outcome(Ok(Some(String::from("mid-7")))).unwrap();
    assert_eq!(id, "mid-7");
}

#[test]
fn every_provider_failure_maps_to_500_with_its_message() {
    let cases = vec![
        ApiError::SQL(String::from("connection reset")),
        ApiError::CreateTopic(String::from("quota exceeded")),
        ApiError::DeleteTopic(String::from("unknown topic")),
        ApiError::SubscribeToTopic(String::from("bad endpoint")),
        ApiError::UnsubscribeFromTopic(String::from("already removed")),
        ApiError::PublishMessage(String::from("message too large")),
    ];
    let texts = vec![
        "connection reset",
        "quota exceeded",
        "unknown topic",
        "bad endpoint",
        "already removed",
        "message too large",
    ];
    for (e, t) in cases.into_iter().zip(texts) {
        let resp = e.into_response();
        assert_eq!(resp.status, 500);
        assert_eq!(resp.body, t);
    }
}

#[test]
fn delete_and_unsubscribe_outcomes_are_tagged() {
    assert!(delete_topic_outcome(Ok(())).is_ok());
    assert!(matches!(
        delete_topic_outcome(Err(String::from("x"))),
        Err(ApiError::DeleteTopic(_))
    ));
    assert!(unsubscribe_outcome(Ok(())).is_ok());
    assert!(matches!(
        unsubscribe_outcome(Err(String::from("gone"))),
        Err(ApiError::UnsubscribeFromTopic(_))
    ));
}
