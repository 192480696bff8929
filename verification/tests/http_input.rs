use realtime::broadcast::{batch_refusal_message, submitted_message, BroadcastMessage, BroadcastMessages};
use realtime::credentials::{basic_key_name, split_ascii_words, BasicAuthError};
use realtime::{
    is_valid_encoding_segment, is_valid_encoding_token, validate_encoding, validate_message_data,
    ApplicationKeyName, ConfigError, OneOrMany, RealtimeConfig,
};

fn message(data: serde_json::Value) -> BroadcastMessage {
    BroadcastMessage {
        name: Some("greeting".to_owned()),
        data,
        encoding: None,
        client_id: None,
        connection_key: None,
        id: None,
        extras: None,
    }
}

fn codes(message: &BroadcastMessage) -> Vec<String> {
    message.validate().into_iter().map(|f| f.code).collect()
}

#[test]
fn api_keys_split_at_the_first_colon() {
    let config = RealtimeConfig::parse("app-1.key-1:secret:with:colons").unwrap();
    assert_eq!(config.application_id.as_str(), "app-1");
    assert_eq!(config.key_name, "app-1.key-1");
    assert_eq!(config.key_secret, "secret:with:colons");
    for bad in ["app-1.key-1", "app-1.key-1:", "app-1:secret", ".key:secret", "app.:secret"] {
        assert!(matches!(RealtimeConfig::parse(bad), Err(ConfigError::InvalidApiKeyFormat)), "{bad}");
    }
}

#[test]
fn key_names_split_at_the_first_dot() {
    let name = ApplicationKeyName::parse("app-1.key.v2").unwrap();
    assert_eq!(name.application_id().as_str(), "app-1");
    assert!(ApplicationKeyName::parse("no-dot").is_none());
}

#[test]
fn basic_credentials_select_the_key_name() {
    let name = basic_key_name(Some("Basic YXBwLTEua2V5LTE6c2VjcmV0")).unwrap();
    assert_eq!(name.application_id().as_str(), "app-1");
    let name = basic_key_name(Some("  bAsIc \t YXBwLTEua2V5LTE6c2VjcmV0  ")).unwrap();
    assert_eq!(name.application_id().as_str(), "app-1");
}

#[test]
fn basic_credentials_refusals() {
    assert_eq!(basic_key_name(None).unwrap_err(), BasicAuthError::Missing);
    assert_eq!(BasicAuthError::Missing.message(), "Missing Basic credentials");
    for header in [
        "",
        "Basic",
        "Bearer YXBwLTEua2V5LTE6c2VjcmV0",
        "Basic YXBwLTEua2V5LTE6c2VjcmV0 extra",
        "Basic !!!",
        "Basic YXBwLTE=",
        "Basic bm9kb3Q6c2VjcmV0",
    ] {
        assert_eq!(basic_key_name(Some(header)).unwrap_err(), BasicAuthError::Invalid, "{header}");
    }
    assert_eq!(BasicAuthError::Invalid.message(), "Invalid Basic credentials");
}

#[test]
fn words_are_split_on_ascii_whitespace() {
    assert_eq!(split_ascii_words(" a\tbc \n d\r"), vec!["a", "bc", "d"]);
    assert!(split_ascii_words(" \t ").is_empty());
}

#[test]
fn encoding_chains_of_tokens_are_accepted() {
    assert!(validate_encoding("").is_ok());
    assert!(validate_encoding("json/utf-8/base64").is_ok());
    assert!(validate_encoding("cipher+aes-128-cbc/base64").is_ok());
    for bad in ["json//base64", "/json", "json/", "a+", "+b", "a+b+c", "a b", "é"] {
        let failure = validate_encoding(bad).unwrap_err();
        assert_eq!(failure.code, "invalid_encoding", "{bad}");
        assert_eq!(failure.message, "encoding contains an invalid transformation chain");
    }
    assert!(is_valid_encoding_token("utf-8"));
    assert!(!is_valid_encoding_token(""));
    assert!(is_valid_encoding_segment("cipher+aes_256"));
    assert!(!is_valid_encoding_segment("cipher+"));
}

#[test]
fn message_data_may_not_be_a_boolean_or_number() {
    assert!(validate_message_data(&serde_json::Value::Null).is_ok());
    assert!(validate_message_data(&serde_json::Value::String("x".to_owned())).is_ok());
    assert!(validate_message_data(&serde_json::Value::Array(Vec::new())).is_ok());
    let failure = validate_message_data(&serde_json::Value::Bool(true)).unwrap_err();
    assert_eq!(failure.code, "unsupported_data_type");
    assert_eq!(failure.message, "message data must be a string, array, object, or null");
    assert!(validate_message_data(&serde_json::Value::from(3)).is_err());
}

#[test]
fn broadcast_messages_report_each_refused_field() {
    assert!(codes(&message(serde_json::Value::Null)).is_empty());
    let mut bad = message(serde_json::Value::Bool(false));
    bad.encoding = Some("a//b".to_owned());
    bad.client_id = Some(String::new());
    bad.connection_key = Some(String::new());
    bad.id = Some(String::new());
    assert_eq!(
        codes(&bad),
        vec![
            "unsupported_data_type",
            "invalid_encoding",
            "empty_client_id",
            "empty_connection_key",
            "empty_message_id",
        ]
    );
}

#[test]
fn broadcast_batches_need_a_valid_message() {
    assert!(BroadcastMessages::validated(Vec::new()).unwrap_err().is_empty());
    let refused = BroadcastMessages::validated(vec![
        message(serde_json::Value::Null),
        message(serde_json::Value::from(1)),
    ])
    .unwrap_err();
    assert_eq!(refused.len(), 1);
    assert_eq!(batch_refusal_message(), "message batch must not be empty");

    let one = OneOrMany::One(message(serde_json::Value::String("hi".to_owned()))).into_vec();
    let batch = BroadcastMessages::validated(one).unwrap();
    let messages = batch.into_inner();
    assert_eq!(messages.len(), 1);
    let submitted = submitted_message(messages.into_iter().next().unwrap());
    assert_eq!(submitted.name.as_deref(), Some("greeting"));
    assert!(submitted.client_id.is_none());
}

#[test]
fn accepted_data_adds_no_refusal_to_the_other_fields() {
    let mut object = message(serde_json::Value::Object(serde_json::Map::new()));
    object.encoding = Some("/".to_owned());
    assert_eq!(codes(&object), vec!["invalid_encoding"]);
    assert_eq!(codes(&message(serde_json::Value::from(2.5))), vec!["unsupported_data_type"]);
    assert!(codes(&message(serde_json::Value::String(String::new()))).is_empty());
}
