use sns_gateway::errors::ValidationError;
use sns_gateway::notification::{receive_sns, SnsMessage};

fn h(name: &str, value: &str) -> (String, String) {
    (String::from(name), String::from(value))
}

fn full_headers() -> Vec<(String, String)> {
    vec![
        h("x-amz-sns-message-type", "Notification"),
        h("x-amz-message-id", "abc-1"),
        h("x-amz-topic-arn", "arn:topic:1"),
        h("x-amz-subscription-arn", "arn:sub:1"),
    ]
}

fn full_body() -> String {
    String::from(
        "{\"Type\":\"Notification\",\"MessageId\":\"abc-1\",\"TopicArn\":\"arn:topic:1\",\
         \"Subject\":\"greeting\",\"Message\":\"hello there\",\"Timestamp\":\"2024-01-01T00:00:00Z\",\
         \"SignatureVersion\":\"1\",\"Signature\":\"c2ln\",\"SigningCertUrl\":\"https://cert.example/pem\",\
         \"UnsubscribeUrl\":\"https://unsub.example/u\"}",
    )
}

#[test]
fn missing_kind_header_rejected() {
    let headers: Vec<(String, String)> = full_headers()
        .into_iter()
        .filter(|p| p.0 != "x-amz-sns-message-type")
        .collect();
    let r = SnsMessage::from_request(&headers, &full_body());
    assert!(matches!(r, Err(ValidationError::MissingHeader)));
    let out = receive_sns(&headers, &full_body());
    assert_eq!(out.status, 400);
    assert!(out.message.is_none());
}

#[test]
fn missing_message_id_header_rejected() {
    let headers: Vec<(String, String)> = full_headers()
        .into_iter()
        .filter(|p| p.0 != "x-amz-message-id")
        .collect();
    let out = receive_sns(&headers, &full_body());
    assert_eq!(out.status, 400);
}

#[test]
fn missing_topic_header_rejected() {
    let headers: Vec<(String, String)> = full_headers()
        .into_iter()
        .filter(|p| p.0 != "x-amz-topic-arn")
        .collect();
    let out = receive_sns(&headers, &full_body());
    assert_eq!(out.status, 400);
}

#[test]
fn missing_subscription_header_rejected() {
    let headers: Vec<(String, String)> = full_headers()
        .into_iter()
        .filter(|p| p.0 != "x-amz-subscription-arn")
        .collect();
    let out = receive_sns(&headers, &full_body());
    assert_eq!(out.status, 400);
}

#[test]
fn missing_header_rejected_whatever_the_body() {
    let headers: Vec<(String, String)> = vec![];
    for body in ["", "not json at all", "{\"Type\":\"Notification\"}"] {
        let out = receive_sns(&headers, body);
        assert_eq!(out.status, 400);
        assert!(out.message.is_none());
    }
}

#[test]
fn header_names_are_case_insensitive() {
    let headers = vec![
        h("X-Amz-Sns-Message-Type", "Notification"),
        h("X-AMZ-MESSAGE-ID", "abc-1"),
        h("X-Amz-Topic-Arn", "arn:topic:1"),
        h("x-AMZ-subscription-ARN", "arn:sub:1"),
    ];
    let out = receive_sns(&headers, &full_body());
    assert_eq!(out.status, 200);
}

#[test]
fn parsed_fields_equal_json_values() {
    let r = SnsMessage::from_request(&full_headers(), &full_body()).unwrap();
    assert_eq!(r.kind, "Notification");
    assert_eq!(r.message_id, "abc-1");
    assert_eq!(r.topic_arn, "arn:topic:1");
    assert_eq!(r.subject, "greeting");
    assert_eq!(r.message, "hello there");
    assert_eq!(r.timestamp, "2024-01-01T00:00:00Z");
    assert_eq!(r.signature_version, "1");
    assert_eq!(r.signature, "c2ln");
    assert_eq!(r.signing_cert_url, "https://cert.example/pem");
    assert_eq!(r.unsubscribe_url, "https://unsub.example/u");
}

#[test]
fn webhook_delivers_message_exactly_as_sent() {
    let out = receive_sns(&full_headers(), &full_body());
    assert_eq!(out.status, 200);
    assert_eq!(out.message.unwrap(), "hello there");
}

#[test]
fn escaped_characters_are_decoded() {
    let body = "{\"Type\":\"Notification\",\"MessageId\":\"m\",\"TopicArn\":\"t\",\
                \"Subject\":\"s\",\"Message\":\"a \\\"quoted\\\" word, a back\\\\slash, a line\\nbreak\",\
                \"Timestamp\":\"ts\",\"SignatureVersion\":\"1\",\"Signature\":\"sg\",\
                \"SigningCertUrl\":\"cu\",\"UnsubscribeUrl\":\"uu\"}";
    let r = SnsMessage::from_request(&full_headers(), body).unwrap();
    assert_eq!(r.message, "a \"quoted\" word, a back\\slash, a line\nbreak");
}

#[test]
fn whitespace_between_tokens_is_allowed() {
    let body = "  {\n  \"Type\" : \"Notification\",\t\"MessageId\": \"m\",\r\n\"TopicArn\":\"t\",\
                \"Subject\":\"s\", \"Message\":\"payload\", \"Timestamp\":\"ts\",\
                \"SignatureVersion\":\"1\", \"Signature\":\"sg\", \"SigningCertUrl\":\"cu\",\
                \"UnsubscribeUrl\":\"uu\" }  ";
    let out = receive_sns(&full_headers(), body);
    assert_eq!(out.status, 200);
    assert_eq!(out.message.unwrap(), "payload");
}

#[test]
fn extra_members_of_any_type_are_ignored() {
    let body = "{\"Type\":\"Notification\",\"MessageId\":\"m\",\"TopicArn\":\"t\",\
                \"Subject\":\"s\",\"Message\":\"payload\",\"Timestamp\":\"ts\",\
                \"SignatureVersion\":\"1\",\"Signature\":\"sg\",\"SigningCertUrl\":\"cu\",\
                \"UnsubscribeUrl\":\"uu\",\"SequenceNumber\":10000000000000066000,\
                \"Token\":null,\"Attributes\":{\"Raw\":true,\"List\":[1,\"two\"]}}";
    let out = receive_sns(&full_headers(), body);
    assert_eq!(out.status, 200);
    assert_eq!(out.message.unwrap(), "payload");
}

#[test]
fn unicode_escapes_reach_the_message_intact() {
    let body = "{\"Type\":\"Notification\",\"MessageId\":\"m\",\"TopicArn\":\"t\",\
                \"Subject\":\"s\",\"Message\":\"caf\\u00e9 \\uD83D\\uDE00\",\"Timestamp\":\"ts\",\
                \"SignatureVersion\":\"1\",\"Signature\":\"sg\",\"SigningCertUrl\":\"cu\",\
                \"UnsubscribeUrl\":\"uu\"}";
    let out = receive_sns(&full_headers(), body);
    assert_eq!(out.status, 200);
    assert_eq!(out.message.unwrap(), "café \u{1F600}");
}

#[test]
fn body_that_is_not_json_rejected() {
    let r = SnsMessage::from_request(&full_headers(), "plainly not a document");
    assert!(matches!(r, Err(ValidationError::MalformedBody)));
}

#[test]
fn body_missing_required_field_rejected() {
    // no Message member
    let body = "{\"Type\":\"Notification\",\"MessageId\":\"m\",\"TopicArn\":\"t\",\
                \"Subject\":\"s\",\"Timestamp\":\"ts\",\"SignatureVersion\":\"1\",\
                \"Signature\":\"sg\",\"SigningCertUrl\":\"cu\",\"UnsubscribeUrl\":\"uu\"}";
    let r = SnsMessage::from_request(&full_headers(), body);
    assert!(matches!(r, Err(ValidationError::MalformedBody)));
}

#[test]
fn body_with_mistyped_field_rejected() {
    // Message is a number, not a string
    let body = "{\"Type\":\"Notification\",\"MessageId\":\"m\",\"TopicArn\":\"t\",\
                \"Subject\":\"s\",\"Message\":7,\"Timestamp\":\"ts\",\"SignatureVersion\":\"1\",\
                \"Signature\":\"sg\",\"SigningCertUrl\":\"cu\",\"UnsubscribeUrl\":\"uu\"}";
    let r = SnsMessage::from_request(&full_headers(), body);
    assert!(matches!(r, Err(ValidationError::MalformedBody)));
}

#[test]
fn body_with_trailing_text_rejected() {
    let mut body = full_body();
    body.push_str("trailing");
    let r = SnsMessage::from_request(&full_headers(), &body);
    assert!(matches!(r, Err(ValidationError::MalformedBody)));
}

#[test]
fn validation_failure_maps_to_400_without_detail() {
    let resp = ValidationError::MissingHeader.into_response();
    assert_eq!(resp.status, 400);
    assert_eq!(resp.body, "");
    let resp = ValidationError::MalformedBody.into_response();
    assert_eq!(resp.status, 400);
    assert_eq!(resp.body, "");
}
