use pinata_client::json::JsonValue;
use pinata_client::{HttpMethod, PinataClient, RequestBody};

fn client() -> PinataClient {
    PinataClient::new("my-key".to_string(), "my-secret".to_string())
}

#[test]
fn builds_pin_file_request() {
    let r = client().pin_file_request("notes.txt");
    assert_eq!(r.method, HttpMethod::Post);
    assert_eq!(r.url, "https://api.pinata.cloud/pinning/pinFileToIPFS");
    assert_eq!(
        r.headers,
        vec![
            ("pinata_api_key".to_string(), "my-key".to_string()),
            ("pinata_secret_api_key".to_string(), "my-secret".to_string()),
        ]
    );
    assert_eq!(r.body, RequestBody::FilePart("notes.txt".to_string()));
}

#[test]
fn builds_pin_json_request() {
    let data = JsonValue::Obj(vec![
        ("name".to_string(), JsonValue::Str("test".to_string())),
        ("value".to_string(), JsonValue::Num("42".to_string())),
    ]);
    let r = client().pin_json_request(&data);
    assert_eq!(r.method, HttpMethod::Post);
    assert_eq!(r.url, "https://api.pinata.cloud/pinning/pinJSONToIPFS");
    assert_eq!(
        r.headers,
        vec![
            ("pinata_api_key".to_string(), "my-key".to_string()),
            ("pinata_secret_api_key".to_string(), "my-secret".to_string()),
            ("Content-Type".to_string(), "application/json".to_string()),
        ]
    );
    assert_eq!(r.body, RequestBody::JsonText("{\"name\":\"test\",\"value\":42}".to_string()));
}

#[test]
fn builds_unpin_request() {
    let r = client().unpin_request("QmHash123");
    assert_eq!(r.method, HttpMethod::Delete);
    assert_eq!(r.url, "https://api.pinata.cloud/pinning/unpin/QmHash123");
    assert_eq!(r.headers.len(), 2);
    assert_eq!(r.body, RequestBody::Empty);
}

#[test]
fn keeps_credentials_out_of_url_and_body() {
    let r = client().unpin_request("QmHash123");
    assert!(!r.url.contains("my-key"));
    assert!(!r.url.contains("my-secret"));
    let data = JsonValue::Null;
    let r2 = client().pin_json_request(&data);
    if let RequestBody::JsonText(t) = &r2.body {
        assert!(!t.contains("my-key"));
        assert!(!t.contains("my-secret"));
    } else {
        panic!("expected a JSON body");
    }
}

#[test]
fn builds_pin_json_request_with_fractional_numbers() {
    let data = JsonValue::Obj(vec![
        ("price".to_string(), JsonValue::Num("1.5".to_string())),
        ("qty".to_string(), JsonValue::Num("2e3".to_string())),
    ]);
    let r = client().pin_json_request(&data);
    assert_eq!(r.body, RequestBody::JsonText("{\"price\":1.5,\"qty\":2e3}".to_string()));
}
