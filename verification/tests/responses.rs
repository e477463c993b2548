use pinata_client::json::JsonValue;
use pinata_client::response::{
    decode_pin_response, handle_pin_file_response, handle_pin_json_response,
    handle_unpin_response, PinResponse,
};
use pinata_client::ser::to_json_string;
use pinata_client::parse::parse_json_text;
use pinata_client::PinataError;

const MINIMAL_BODY: &str =
    "{\"IpfsHash\":\"QmTestHash\",\"PinSize\":1234,\"Timestamp\":\"2024-01-01T00:00:00Z\"}";

#[test]
fn decodes_successful_pin_body() {
    let r = handle_pin_json_response(200, MINIMAL_BODY).unwrap();
    assert!(!r.ipfs_hash.is_empty());
    assert!(r.pin_size > 0);
    assert!(!r.timestamp.is_empty());
    assert_eq!(r.ipfs_hash, "QmTestHash");
    assert_eq!(r.pin_size, 1234);
    assert_eq!(r.timestamp, "2024-01-01T00:00:00Z");
    assert_eq!(r.id, "");
    assert_eq!(r.name, None);
    assert_eq!(r.number_of_files, 0);
}

#[test]
fn decodes_extended_pin_body() {
    let body = "{\"IpfsHash\":\"QmX\",\"PinSize\":9,\"Timestamp\":\"t\",\"ID\":\"abc\",\
                \"Name\":\"file.txt\",\"NumberOfFiles\":3,\"MimeType\":\"text/plain\",\
                \"GroupId\":null,\"Keyvalues\":{\"k\":\"v\"}}";
    let r = handle_pin_file_response(201, body).unwrap();
    assert_eq!(r.id, "abc");
    assert_eq!(r.name, Some("file.txt".to_string()));
    assert_eq!(r.number_of_files, 3);
    assert_eq!(r.mime_type, Some(JsonValue::Str("text/plain".to_string())));
    assert_eq!(r.group_id, None);
    assert_eq!(
        r.keyvalues,
        Some(JsonValue::Obj(vec![(
            "k".to_string(),
            JsonValue::Str("v".to_string())
        )]))
    );
}

#[test]
fn accepts_lower_camel_keys() {
    let body = "{\"ipfsHash\":\"QmY\",\"pinSize\":5,\"timestamp\":\"t2\"}";
    let r = handle_pin_json_response(200, body).unwrap();
    assert_eq!(r.ipfs_hash, "QmY");
    assert_eq!(r.pin_size, 5);
    assert_eq!(r.timestamp, "t2");
}

#[test]
fn http_500_is_operation_error_for_every_operation() {
    match handle_pin_file_response(500, "") {
        Err(PinataError::PinFileError(m)) => assert_eq!(m, "HTTP error: 500"),
        other => panic!("expected a pin-file error, got {:?}", other),
    }
    match handle_pin_json_response(500, "") {
        Err(PinataError::PinJsonError(m)) => assert_eq!(m, "HTTP error: 500"),
        other => panic!("expected a pin-JSON error, got {:?}", other),
    }
    match handle_unpin_response(500) {
        Err(PinataError::UnpinError(m)) => assert_eq!(m, "HTTP error: 500"),
        other => panic!("expected an unpin error, got {:?}", other),
    }
}

#[test]
fn http_404_carries_its_status() {
    match handle_pin_file_response(404, MINIMAL_BODY) {
        Err(PinataError::PinFileError(m)) => assert_eq!(m, "HTTP error: 404"),
        other => panic!("expected a pin-file error, got {:?}", other),
    }
}

#[test]
fn invalid_json_body_is_deserialization_error() {
    match handle_pin_json_response(200, "not json at all") {
        Err(PinataError::DeserializationError(m)) => {
            assert_eq!(m, "response body is not valid JSON")
        },
        other => panic!("expected a deserialization error, got {:?}", other),
    }
}

#[test]
fn wrong_shape_body_is_deserialization_error() {
    match handle_pin_json_response(200, "{\"PinSize\":3}") {
        Err(PinataError::DeserializationError(m)) => {
            assert_eq!(m, "response body lacks the pin response fields")
        },
        other => panic!("expected a deserialization error, got {:?}", other),
    }
    match handle_pin_json_response(200, "[1,2]") {
        Err(PinataError::DeserializationError(_)) => (),
        other => panic!("expected a deserialization error, got {:?}", other),
    }
}

#[test]
fn unpin_succeeds_on_2xx_only() {
    assert!(handle_unpin_response(200).is_ok());
    assert!(handle_unpin_response(299).is_ok());
    assert!(handle_unpin_response(199).is_err());
    assert!(handle_unpin_response(300).is_err());
}

#[test]
fn error_constructors_pick_the_right_category() {
    match PinataError::file_read("No such file or directory (os error 2)") {
        PinataError::PinFileError(m) => assert_eq!(m, "No such file or directory (os error 2)"),
        other => panic!("expected a pin-file error, got {:?}", other),
    }
    match PinataError::network("connection refused") {
        PinataError::NetworkError(m) => assert_eq!(m, "connection refused"),
        other => panic!("expected a network error, got {:?}", other),
    }
    match PinataError::serialization("non-finite number") {
        PinataError::SerializationError(m) => assert_eq!(m, "non-finite number"),
        other => panic!("expected a serialization error, got {:?}", other),
    }
}

#[test]
fn error_messages_follow_the_fixed_phrases() {
    assert_eq!(
        PinataError::InvalidCredentials.message(),
        "Invalid API key or secret"
    );
    assert_eq!(
        PinataError::PinFileError("x".to_string()).message(),
        "Failed to pin file: x"
    );
    assert_eq!(
        PinataError::PinJsonError("y".to_string()).message(),
        "Failed to pin JSON: y"
    );
    assert_eq!(
        PinataError::UnpinError("z".to_string()).message(),
        "Failed to unpin: z"
    );
    assert_eq!(
        PinataError::NetworkError("n".to_string()).message(),
        "Network error: n"
    );
    assert_eq!(
        PinataError::SerializationError("s".to_string()).message(),
        "Serialization error: s"
    );
    assert_eq!(
        PinataError::DeserializationError("d".to_string()).message(),
        "Deserialization error: d"
    );
}

#[test]
fn pin_response_round_trips_through_wire_json() {
    let original = PinResponse {
        ipfs_hash: "QmRoundTrip".to_string(),
        pin_size: 77,
        timestamp: "2024-06-01T12:00:00Z".to_string(),
        id: "rec-1".to_string(),
        name: Some("payload.json".to_string()),
        number_of_files: 2,
        mime_type: Some(JsonValue::Str("application/json".to_string())),
        group_id: Some("grp-9".to_string()),
        keyvalues: Some(JsonValue::Obj(vec![(
            "env".to_string(),
            JsonValue::Str("prod".to_string()),
        )])),
    };
    let text = to_json_string(&original.to_wire_json());
    let doc = parse_json_text(&text).unwrap();
    let decoded = decode_pin_response(&doc).unwrap();
    assert_eq!(decoded, original);
}

#[test]
fn pin_response_round_trips_with_absent_optional_fields() {
    let original = PinResponse {
        ipfs_hash: "QmBare".to_string(),
        pin_size: 1,
        timestamp: "t".to_string(),
        id: "".to_string(),
        name: None,
        number_of_files: 0,
        mime_type: None,
        group_id: None,
        keyvalues: None,
    };
    let text = to_json_string(&original.to_wire_json());
    let doc = parse_json_text(&text).unwrap();
    let decoded = decode_pin_response(&doc).unwrap();
    assert_eq!(decoded, original);
}

#[test]
fn passes_fractional_numbers_through_untouched() {
    let body = "{\"IpfsHash\":\"QmF\",\"PinSize\":7,\"Timestamp\":\"t\",\
                \"Keyvalues\":{\"score\":99.5,\"big\":1e100}}";
    let r = handle_pin_json_response(200, body).unwrap();
    assert_eq!(
        r.keyvalues,
        Some(JsonValue::Obj(vec![
            ("score".to_string(), JsonValue::Num("99.5".to_string())),
            ("big".to_string(), JsonValue::Num("1e100".to_string())),
        ]))
    );
}

#[test]
fn fractional_pin_size_is_a_shape_error() {
    let body = "{\"IpfsHash\":\"QmF\",\"PinSize\":7.5,\"Timestamp\":\"t\"}";
    match handle_pin_json_response(200, body) {
        Err(PinataError::DeserializationError(m)) => {
            assert_eq!(m, "response body lacks the pin response fields")
        },
        other => panic!("expected a deserialization error, got {:?}", other),
    }
}
