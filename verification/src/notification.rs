//! Validation and parsing of inbound webhook notifications: the four required
//! transport headers are checked first, and only then is the body parsed into
//! a structured notification.

use vstd::prelude::*;
use crate::errors::ValidationError;
use crate::json::{kv_views, parse_object, spec_parse_object};
use crate::text::{chars_of, eq_ignore_case, str_eq, str_eq_ignore_case};

verus! {

/// An inbound notification, as delivered by the provider's webhook. A value
/// exists only after the required headers were seen and the body parsed. The
/// signature, its version and the signing-certificate URL are carried through
/// as received; this gateway does not verify them cryptographically.
pub struct SnsMessage {
    pub kind: String,
    pub message_id: String,
    pub topic_arn: String,
    pub subject: String,
    pub message: String,
    pub timestamp: String,
    pub signature_version: String,
    pub signature: String,
    pub signing_cert_url: String,
    pub unsubscribe_url: String,
}

/// The mathematical content of a notification: each field as its characters.
pub struct SnsMessageView {
    pub kind: Seq<char>,
    pub message_id: Seq<char>,
    pub topic_arn: Seq<char>,
    pub subject: Seq<char>,
    pub message: Seq<char>,
    pub timestamp: Seq<char>,
    pub signature_version: Seq<char>,
    pub signature: Seq<char>,
    pub signing_cert_url: Seq<char>,
    pub unsubscribe_url: Seq<char>,
}

impl View for SnsMessage {
    type V = SnsMessageView;

    open spec fn view(&self) -> SnsMessageView {
        SnsMessageView {
            kind: self.kind@,
            message_id: self.message_id@,
            topic_arn: self.topic_arn@,
            subject: self.subject@,
            message: self.message@,
            timestamp: self.timestamp@,
            signature_version: self.signature_version@,
            signature: self.signature@,
            signing_cert_url: self.signing_cert_url@,
            unsubscribe_url: self.unsubscribe_url@,
        }
    }
}

/// The value under the first member whose key is `key`, if any: `Some(None)`
/// for a member whose value is not a string.
pub open spec fn spec_lookup(
    kvs: Seq<(Seq<char>, Option<Seq<char>>)>,
    key: Seq<char>,
) -> Option<Option<Seq<char>>>
    decreases kvs.len(),
{
    if kvs.len() == 0 {
        None
    } else if kvs[0].0 == key {
        Some(kvs[0].1)
    } else {
        spec_lookup(kvs.drop_first(), key)
    }
}

/// Finds the first member of `kvs` whose key is `key`.
pub fn lookup(kvs: &Vec<(String, Option<String>)>, key: &str) -> (r: Option<Option<String>>)
    ensures
        r matches Some(v) ==> spec_lookup(kv_views(kvs@), key@) == Some(
            match v {
                Some(vv) => Some(vv@),
                None => None,
            },
        ),
        r is None ==> spec_lookup(kv_views(kvs@), key@) is None,
{
    let n = kvs.len();
    let mut i: usize = 0;
    proof {
        assert(kv_views(kvs@).skip(0) =~= kv_views(kvs@));
    }
    while i < n
        invariant
            n == kvs@.len(),
            i <= n,
            spec_lookup(kv_views(kvs@), key@) == spec_lookup(
                kv_views(kvs@).skip(i as int),
                key@,
            ),
        decreases n - i,
    {
        if str_eq(kvs[i].0.as_str(), key) {
            proof {
                assert(kv_views(kvs@).skip(i as int)[0] == kv_views(kvs@)[i as int]);
            }
            match &kvs[i].1 {
                Some(v) => {
                    return Some(Some(v.clone()));
                },
                None => {
                    return Some(None);
                },
            }
        }
        proof {
            assert(kv_views(kvs@).skip(i as int)[0] == kv_views(kvs@)[i as int]);
            assert(kv_views(kvs@).skip(i as int).drop_first() =~= kv_views(kvs@).skip(i + 1));
        }
        i = i + 1;
    }
    proof {
        assert(kv_views(kvs@).skip(i as int) =~= Seq::<(Seq<char>, Option<Seq<char>>)>::empty());
    }
    None
}

/// Whether some header of the request bears this name, up to ASCII case.
pub open spec fn spec_has_header(headers: Seq<(String, String)>, name: Seq<char>) -> bool {
    exists|i: int| 0 <= i < headers.len() && eq_ignore_case(headers[i].0@, name)
}

/// Scans the request headers for one bearing this name, up to ASCII case.
pub fn has_header(headers: &Vec<(String, String)>, name: &str) -> (r: bool)
    ensures
        r == spec_has_header(headers@, name@),
{
    let n = headers.len();
    let mut i: usize = 0;
    while i < n
        invariant
            n == headers@.len(),
            i <= n,
            forall|t: int| 0 <= t < i ==> !eq_ignore_case(headers@[t].0@, name@),
        decreases n - i,
    {
        if str_eq_ignore_case(headers[i].0.as_str(), name) {
            return true;
        }
        i = i + 1;
    }
    false
}

/// Whether all four required transport headers are present: the notification
/// kind, the message id, the topic identifier and the subscription identifier.
pub open spec fn spec_headers_present(headers: Seq<(String, String)>) -> bool {
    &&& spec_has_header(headers, "x-amz-sns-message-type"@)
    &&& spec_has_header(headers, "x-amz-message-id"@)
    &&& spec_has_header(headers, "x-amz-topic-arn"@)
    &&& spec_has_header(headers, "x-amz-subscription-arn"@)
}

/// Checks the four required transport headers.
pub fn headers_present(headers: &Vec<(String, String)>) -> (r: bool)
    ensures
        r == spec_headers_present(headers@),
{
    has_header(headers, "x-amz-sns-message-type") && has_header(headers, "x-amz-message-id")
        && has_header(headers, "x-amz-topic-arn") && has_header(
        headers,
        "x-amz-subscription-arn",
    )
}

/// The notification carried by these members: the wire key for the kind is
/// the one capitalized word `Type`, the other keys follow the provider's
/// word-joined convention. Every required field must be there as a string: absent and non-string required fields alike yield
/// nothing, while members under other keys are ignored.
pub open spec fn spec_notification_of(kvs: Seq<(Seq<char>, Option<Seq<char>>)>) -> Option<
    SnsMessageView,
> {
    if ({
        &&& spec_lookup(kvs, "Type"@) matches Some(Some(_))
        &&& spec_lookup(kvs, "MessageId"@) matches Some(Some(_))
        &&& spec_lookup(kvs, "TopicArn"@) matches Some(Some(_))
        &&& spec_lookup(kvs, "Subject"@) matches Some(Some(_))
        &&& spec_lookup(kvs, "Message"@) matches Some(Some(_))
        &&& spec_lookup(kvs, "Timestamp"@) matches Some(Some(_))
        &&& spec_lookup(kvs, "SignatureVersion"@) matches Some(Some(_))
        &&& spec_lookup(kvs, "Signature"@) matches Some(Some(_))
        &&& spec_lookup(kvs, "SigningCertUrl"@) matches Some(Some(_))
        &&& spec_lookup(kvs, "UnsubscribeUrl"@) matches Some(Some(_))
    }) {
        Some(
            (SnsMessageView {
                kind: spec_lookup(kvs, "Type"@)->0->0,
                message_id: spec_lookup(kvs, "MessageId"@)->0->0,
                topic_arn: spec_lookup(kvs, "TopicArn"@)->0->0,
                subject: spec_lookup(kvs, "Subject"@)->0->0,
                message: spec_lookup(kvs, "Message"@)->0->0,
                timestamp: spec_lookup(kvs, "Timestamp"@)->0->0,
                signature_version: spec_lookup(kvs, "SignatureVersion"@)->0->0,
                signature: spec_lookup(kvs, "Signature"@)->0->0,
                signing_cert_url: spec_lookup(kvs, "SigningCertUrl"@)->0->0,
                unsubscribe_url: spec_lookup(kvs, "UnsubscribeUrl"@)->0->0,
            }),
        )
    } else {
        None
    }
}

/// The notification a body stands for: the body must lie in the object
/// grammar and carry every required field as a string.
pub open spec fn spec_parse_notification(body: Seq<char>) -> Option<SnsMessageView> {
    match spec_parse_object(body) {
        Some(kvs) => spec_notification_of(kvs),
        None => None,
    }
}

/// The members of a notification's canonical body, in wire order.
pub open spec fn notification_members(nv: SnsMessageView) -> Seq<(Seq<char>, Seq<char>)> {
    seq![
        ("Type"@, nv.kind),
        ("MessageId"@, nv.message_id),
        ("TopicArn"@, nv.topic_arn),
        ("Subject"@, nv.subject),
        ("Message"@, nv.message),
        ("Timestamp"@, nv.timestamp),
        ("SignatureVersion"@, nv.signature_version),
        ("Signature"@, nv.signature),
        ("SigningCertUrl"@, nv.signing_cert_url),
        ("UnsubscribeUrl"@, nv.unsubscribe_url),
    ]
}

/// The canonical writing of a notification's body.
pub open spec fn serialize_notification(nv: SnsMessageView) -> Seq<char> {
    crate::json::ser_object(notification_members(nv))
}

/// The round trip: whatever a notification's fields hold, writing its
/// canonical body and parsing that body back yields the notification
/// unchanged, field for field.
pub proof fn lemma_notification_round_trip(nv: SnsMessageView)
    ensures
        spec_parse_notification(serialize_notification(nv)) == Some(nv),
{
    crate::json::lemma_object_round_trip(notification_members(nv));
    let kvs = crate::json::string_members(notification_members(nv));
    reveal_strlit("Type");
    reveal_strlit("MessageId");
    reveal_strlit("TopicArn");
    reveal_strlit("Subject");
    reveal_strlit("Message");
    reveal_strlit("Timestamp");
    reveal_strlit("SignatureVersion");
    reveal_strlit("Signature");
    reveal_strlit("SigningCertUrl");
    reveal_strlit("UnsubscribeUrl");
    reveal_with_fuel(spec_lookup, 2);
    // the keys differ in length or in their first character
    assert("Type"@.len() == 4);
    assert("MessageId"@.len() == 9);
    assert("TopicArn"@.len() == 8);
    assert("Subject"@.len() == 7);
    assert("Message"@.len() == 7);
    assert("Timestamp"@.len() == 9);
    assert("SignatureVersion"@.len() == 16);
    assert("Signature"@.len() == 9);
    assert("SigningCertUrl"@.len() == 14);
    assert("UnsubscribeUrl"@.len() == 14);
    assert("MessageId"@[0] == 'M');
    assert("Timestamp"@[0] == 'T');
    assert("Signature"@[0] == 'S');
    assert("Subject"@[0] == 'S');
    assert("Message"@[0] == 'M');
    assert("SigningCertUrl"@[0] == 'S');
    assert("UnsubscribeUrl"@[0] == 'U');
    let s0 = kvs;
    // walk the member list once, key by key
    let s1 = s0.drop_first();
    let s2 = s1.drop_first();
    let s3 = s2.drop_first();
    let s4 = s3.drop_first();
    let s5 = s4.drop_first();
    let s6 = s5.drop_first();
    let s7 = s6.drop_first();
    let s8 = s7.drop_first();
    let s9 = s8.drop_first();
    assert(spec_lookup(s0, "Type"@) == Some(Some(nv.kind)));
    assert(spec_lookup(s0, "MessageId"@) == spec_lookup(s1, "MessageId"@));
    assert(spec_lookup(s1, "MessageId"@) == Some(Some(nv.message_id)));
    assert(spec_lookup(s0, "TopicArn"@) == spec_lookup(s1, "TopicArn"@));
    assert(spec_lookup(s1, "TopicArn"@) == spec_lookup(s2, "TopicArn"@));
    assert(spec_lookup(s2, "TopicArn"@) == Some(Some(nv.topic_arn)));
    assert(spec_lookup(s0, "Subject"@) == spec_lookup(s1, "Subject"@));
    assert(spec_lookup(s1, "Subject"@) == spec_lookup(s2, "Subject"@));
    assert(spec_lookup(s2, "Subject"@) == spec_lookup(s3, "Subject"@));
    assert(spec_lookup(s3, "Subject"@) == Some(Some(nv.subject)));
    assert(spec_lookup(s0, "Message"@) == spec_lookup(s1, "Message"@));
    assert(spec_lookup(s1, "Message"@) == spec_lookup(s2, "Message"@));
    assert(spec_lookup(s2, "Message"@) == spec_lookup(s3, "Message"@));
    assert(spec_lookup(s3, "Message"@) == spec_lookup(s4, "Message"@));
    assert(spec_lookup(s4, "Message"@) == Some(Some(nv.message)));
    assert(spec_lookup(s0, "Timestamp"@) == spec_lookup(s1, "Timestamp"@));
    assert(spec_lookup(s1, "Timestamp"@) == spec_lookup(s2, "Timestamp"@));
    assert(spec_lookup(s2, "Timestamp"@) == spec_lookup(s3, "Timestamp"@));
    assert(spec_lookup(s3, "Timestamp"@) == spec_lookup(s4, "Timestamp"@));
    assert(spec_lookup(s4, "Timestamp"@) == spec_lookup(s5, "Timestamp"@));
    assert(spec_lookup(s5, "Timestamp"@) == Some(Some(nv.timestamp)));
    assert(spec_lookup(s0, "SignatureVersion"@) == spec_lookup(s1, "SignatureVersion"@));
    assert(spec_lookup(s1, "SignatureVersion"@) == spec_lookup(s2, "SignatureVersion"@));
    assert(spec_lookup(s2, "SignatureVersion"@) == spec_lookup(s3, "SignatureVersion"@));
    assert(spec_lookup(s3, "SignatureVersion"@) == spec_lookup(s4, "SignatureVersion"@));
    assert(spec_lookup(s4, "SignatureVersion"@) == spec_lookup(s5, "SignatureVersion"@));
    assert(spec_lookup(s5, "SignatureVersion"@) == spec_lookup(s6, "SignatureVersion"@));
    assert(spec_lookup(s6, "SignatureVersion"@) == Some(Some(nv.signature_version)));
    assert(spec_lookup(s0, "Signature"@) == spec_lookup(s1, "Signature"@));
    assert(spec_lookup(s1, "Signature"@) == spec_lookup(s2, "Signature"@));
    assert(spec_lookup(s2, "Signature"@) == spec_lookup(s3, "Signature"@));
    assert(spec_lookup(s3, "Signature"@) == spec_lookup(s4, "Signature"@));
    assert(spec_lookup(s4, "Signature"@) == spec_lookup(s5, "Signature"@));
    assert(spec_lookup(s5, "Signature"@) == spec_lookup(s6, "Signature"@));
    assert(spec_lookup(s6, "Signature"@) == spec_lookup(s7, "Signature"@));
    assert(spec_lookup(s7, "Signature"@) == Some(Some(nv.signature)));
    assert(spec_lookup(s0, "SigningCertUrl"@) == spec_lookup(s1, "SigningCertUrl"@));
    assert(spec_lookup(s1, "SigningCertUrl"@) == spec_lookup(s2, "SigningCertUrl"@));
    assert(spec_lookup(s2, "SigningCertUrl"@) == spec_lookup(s3, "SigningCertUrl"@));
    assert(spec_lookup(s3, "SigningCertUrl"@) == spec_lookup(s4, "SigningCertUrl"@));
    assert(spec_lookup(s4, "SigningCertUrl"@) == spec_lookup(s5, "SigningCertUrl"@));
    assert(spec_lookup(s5, "SigningCertUrl"@) == spec_lookup(s6, "SigningCertUrl"@));
    assert(spec_lookup(s6, "SigningCertUrl"@) == spec_lookup(s7, "SigningCertUrl"@));
    assert(spec_lookup(s7, "SigningCertUrl"@) == spec_lookup(s8, "SigningCertUrl"@));
    assert(spec_lookup(s8, "SigningCertUrl"@) == Some(Some(nv.signing_cert_url)));
    assert(spec_lookup(s0, "UnsubscribeUrl"@) == spec_lookup(s1, "UnsubscribeUrl"@));
    assert(spec_lookup(s1, "UnsubscribeUrl"@) == spec_lookup(s2, "UnsubscribeUrl"@));
    assert(spec_lookup(s2, "UnsubscribeUrl"@) == spec_lookup(s3, "UnsubscribeUrl"@));
    assert(spec_lookup(s3, "UnsubscribeUrl"@) == spec_lookup(s4, "UnsubscribeUrl"@));
    assert(spec_lookup(s4, "UnsubscribeUrl"@) == spec_lookup(s5, "UnsubscribeUrl"@));
    assert(spec_lookup(s5, "UnsubscribeUrl"@) == spec_lookup(s6, "UnsubscribeUrl"@));
    assert(spec_lookup(s6, "UnsubscribeUrl"@) == spec_lookup(s7, "UnsubscribeUrl"@));
    assert(spec_lookup(s7, "UnsubscribeUrl"@) == spec_lookup(s8, "UnsubscribeUrl"@));
    assert(spec_lookup(s8, "UnsubscribeUrl"@) == spec_lookup(s9, "UnsubscribeUrl"@));
    assert(spec_lookup(s9, "UnsubscribeUrl"@) == Some(Some(nv.unsubscribe_url)));
}

impl SnsMessage {
    /// Validates and parses an inbound webhook request. The four required
    /// headers are checked before the body is read at all; a request with all
    /// of them present is then parsed, and the fields of the result are
    /// exactly the values the body carries under the wire keys.
    pub fn from_request(headers: &Vec<(String, String)>, body: &str) -> (r: Result<
        SnsMessage,
        ValidationError,
    >)
        ensures
            !spec_headers_present(headers@) ==> r == Err::<SnsMessage, ValidationError>(
                ValidationError::MissingHeader,
            ),
            spec_headers_present(headers@) ==> match spec_parse_notification(body@) {
                Some(nv) => r is Ok && r->Ok_0@ == nv,
                None => r == Err::<SnsMessage, ValidationError>(ValidationError::MalformedBody),
            },
    {
        if !headers_present(headers) {
            return Err(ValidationError::MissingHeader);
        }
        let cs = chars_of(body);
        let kvs = match parse_object(&cs) {
            None => {
                return Err(ValidationError::MalformedBody);
            },
            Some(k) => k,
        };
        // a required field that is absent, or present with a non-string value,
        // makes the body malformed; members under other keys are ignored
        let kind = match lookup(&kvs, "Type") {
            Some(Some(v)) => v,
            _ => {
                return Err(ValidationError::MalformedBody);
            },
        };
        let message_id = match lookup(&kvs, "MessageId") {
            Some(Some(v)) => v,
            _ => {
                return Err(ValidationError::MalformedBody);
            },
        };
        let topic_arn = match lookup(&kvs, "TopicArn") {
            Some(Some(v)) => v,
            _ => {
                return Err(ValidationError::MalformedBody);
            },
        };
        let subject = match lookup(&kvs, "Subject") {
            Some(Some(v)) => v,
            _ => {
                return Err(ValidationError::MalformedBody);
            },
        };
        let message = match lookup(&kvs, "Message") {
            Some(Some(v)) => v,
            _ => {
                return Err(ValidationError::MalformedBody);
            },
        };
        let timestamp = match lookup(&kvs, "Timestamp") {
            Some(Some(v)) => v,
            _ => {
                return Err(ValidationError::MalformedBody);
            },
        };
        let signature_version = match lookup(&kvs, "SignatureVersion") {
            Some(Some(v)) => v,
            _ => {
                return Err(ValidationError::MalformedBody);
            },
        };
        let signature = match lookup(&kvs, "Signature") {
            Some(Some(v)) => v,
            _ => {
                return Err(ValidationError::MalformedBody);
            },
        };
        let signing_cert_url = match lookup(&kvs, "SigningCertUrl") {
            Some(Some(v)) => v,
            _ => {
                return Err(ValidationError::MalformedBody);
            },
        };
        let unsubscribe_url = match lookup(&kvs, "UnsubscribeUrl") {
            Some(Some(v)) => v,
            _ => {
                return Err(ValidationError::MalformedBody);
            },
        };
        Ok(
            SnsMessage {
                kind,
                message_id,
                topic_arn,
                subject,
                message,
                timestamp,
                signature_version,
                signature,
                signing_cert_url,
                unsubscribe_url,
            },
        )
    }
}

/// What the webhook handler hands back: a status, and on success the
/// notification's message for the downstream consumer.
pub struct ReceiveOutcome {
    pub status: u16,
    pub message: Option<String>,
}

/// The webhook handler's decision. A request missing any required header, or
/// whose body does not parse, is answered 400 whatever the rest of it holds; a
/// valid request is answered 200 and its message is passed on exactly as sent.
pub fn receive_sns(headers: &Vec<(String, String)>, body: &str) -> (r: ReceiveOutcome)
    ensures
        !spec_headers_present(headers@) ==> r.status == 400 && r.message is None,
        spec_headers_present(headers@) ==> match spec_parse_notification(body@) {
            Some(nv) => r.status == 200 && (r.message matches Some(m) && m@ == nv.message),
            None => r.status == 400 && r.message is None,
        },
{
    match SnsMessage::from_request(headers, body) {
        Ok(sns) => ReceiveOutcome { status: 200, message: Some(sns.message) },
        Err(_) => ReceiveOutcome { status: 400, message: None },
    }
}

} // verus!
