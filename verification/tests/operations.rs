use pinata_client::json::JsonValue;
use pinata_client::response::{handle_pin_file_response, handle_pin_json_response, handle_unpin_response};
use pinata_client::{HttpMethod, HttpRequest, PinataClient, RequestBody};

// A stand-in transport: answers every request with HTTP 200 and the
// service's usual pin body, and counts how often it was called.
struct MockTransport {
    calls: usize,
    status: u16,
    body: String,
}

impl MockTransport {
    fn ok() -> Self {
        MockTransport {
            calls: 0,
            status: 200,
            body: "{\"IpfsHash\":\"QmMocked\",\"PinSize\":12,\"Timestamp\":\"2024-01-01T00:00:00Z\"}"
                .to_string(),
        }
    }

    fn failing(status: u16) -> Self {
        MockTransport { calls: 0, status, body: String::new() }
    }

    fn send(&mut self, _request: &HttpRequest) -> (u16, String) {
        self.calls += 1;
        (self.status, self.body.clone())
    }
}

fn client() -> PinataClient {
    PinataClient::new("PINATA_API_KEY".to_string(), "PINATA_SECRET_KEY".to_string())
}

#[test]
fn test_pin_json() {
    let client = client();
    let json_data = JsonValue::Obj(vec![
        ("name".to_string(), JsonValue::Str("test".to_string())),
        ("value".to_string(), JsonValue::Num("42".to_string())),
    ]);
    let mut transport = MockTransport::ok();
    let request = client.pin_json_request(&json_data);
    let (status, body) = transport.send(&request);
    let result = handle_pin_json_response(status, &body);
    assert!(result.is_ok());

    let response = result.unwrap();
    assert!(!response.ipfs_hash.is_empty());
    assert!(response.pin_size > 0);
    assert!(!response.timestamp.is_empty());
}

#[test]
fn test_pin_file() {
    let client = client();
    let temp_file = "test.txt";
    let mut transport = MockTransport::ok();
    let request = client.pin_file_request(temp_file);
    assert_eq!(request.body, RequestBody::FilePart(temp_file.to_string()));
    let (status, body) = transport.send(&request);
    let result = handle_pin_file_response(status, &body);
    assert!(result.is_ok());

    let response = result.unwrap();
    assert!(!response.ipfs_hash.is_empty());
    assert!(response.pin_size > 0);
    assert!(!response.timestamp.is_empty());
}

#[test]
fn test_unpin() {
    let client = client();
    let json_data = JsonValue::Obj(vec![
        ("name".to_string(), JsonValue::Str("test".to_string())),
        ("value".to_string(), JsonValue::Num("42".to_string())),
    ]);
    let mut transport = MockTransport::ok();
    let pin_request = client.pin_json_request(&json_data);
    let (status, body) = transport.send(&pin_request);
    let pin_result = handle_pin_json_response(status, &body).unwrap();

    let request = client.unpin_request(&pin_result.ipfs_hash);
    assert_eq!(request.method, HttpMethod::Delete);
    let (status, _) = transport.send(&request);
    let result = handle_unpin_response(status);
    assert!(result.is_ok());
}

#[test]
fn failing_transport_yields_the_operation_error_and_no_result() {
    let client = client();
    let mut transport = MockTransport::failing(500);
    let request = client.pin_json_request(&JsonValue::Null);
    let (status, body) = transport.send(&request);
    let result = handle_pin_json_response(status, &body);
    assert!(result.is_err());
    assert_eq!(transport.calls, 1);
}
