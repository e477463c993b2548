use vstd::prelude::*;
use crate::json::JsonValue;
use crate::ser::{ser, to_json_string};

verus! {

/// The HTTP method of a pinning request.
#[derive(Debug, PartialEq, Eq, Clone, Copy)]
pub enum HttpMethod {
    Post,
    Delete,
}

/// The body of a pinning request.
///
/// `FilePart` names the file content to send as the one part `file` of a
/// multipart form: a filesystem path for a native transport, or the name
/// of a host-held blob for a browser transport. The transport resolves
/// the reference; the library never reads it.
#[derive(Debug, PartialEq, Eq)]
pub enum RequestBody {
    Empty,
    JsonText(String),
    FilePart(String),
}

/// One HTTP request, fully described: what a transport must send for an
/// operation, bit for bit — method, absolute URL, header list in order,
/// and body.
#[derive(Debug, PartialEq, Eq)]
pub struct HttpRequest {
    pub method: HttpMethod,
    pub url: String,
    pub headers: Vec<(String, String)>,
    pub body: RequestBody,
}

/// The fixed service base URL.
pub open spec fn base_url() -> Seq<char> {
    "https://api.pinata.cloud"@
}

/// The URL of the pin-file endpoint.
pub open spec fn pin_file_url() -> Seq<char> {
    "https://api.pinata.cloud/pinning/pinFileToIPFS"@
}

/// The URL of the pin-JSON endpoint.
pub open spec fn pin_json_url() -> Seq<char> {
    "https://api.pinata.cloud/pinning/pinJSONToIPFS"@
}

/// The URL of the unpin endpoint for a given content hash.
pub open spec fn unpin_url(hash: Seq<char>) -> Seq<char> {
    "https://api.pinata.cloud/pinning/unpin/"@ + hash
}

/// The two credential headers every request carries, in order.
pub open spec fn credential_headers(key: Seq<char>, secret: Seq<char>) -> Seq<
    (Seq<char>, Seq<char>),
> {
    seq![("pinata_api_key"@, key), ("pinata_secret_api_key"@, secret)]
}

/// The header list as a sequence of viewed pairs.
pub open spec fn headers_view(hs: Seq<(String, String)>) -> Seq<(Seq<char>, Seq<char>)> {
    Seq::new(hs.len(), |i: int| (hs[i].0@, hs[i].1@))
}

/// The client: it holds the two API credentials for its whole lifetime
/// and builds the requests of the three operations. It performs no
/// validation and no retries; a transport around the library sends what
/// it builds.
pub struct PinataClient {
    api_key: String,
    secret_key: String,
}

impl PinataClient {
    /// The stored API key.
    pub closed spec fn api_key_spec(&self) -> Seq<char> {
        self.api_key@
    }

    /// The stored API secret.
    pub closed spec fn secret_key_spec(&self) -> Seq<char> {
        self.secret_key@
    }

    /// Builds a client holding the two credentials.
    pub fn new(api_key: String, secret_key: String) -> (r: Self)
        ensures
            r.api_key_spec() == api_key@,
            r.secret_key_spec() == secret_key@,
    {
        PinataClient { api_key, secret_key }
    }

    fn credential_header_vec(&self) -> (r: Vec<(String, String)>)
        ensures
            headers_view(r@) == credential_headers(self.api_key_spec(), self.secret_key_spec()),
    {
        let mut hs: Vec<(String, String)> = Vec::new();
        hs.push((String::from_str("pinata_api_key"), self.api_key.clone()));
        hs.push((String::from_str("pinata_secret_api_key"), self.secret_key.clone()));
        proof {
            assert(headers_view(hs@) =~= credential_headers(
                self.api_key_spec(),
                self.secret_key_spec(),
            ));
        }
        hs
    }

    /// Builds the pin-file request: a POST to the pin-file endpoint with
    /// the two credential headers and a multipart body of one part
    /// `file`, whose content the transport reads from `file_ref`.
    pub fn pin_file_request(&self, file_ref: &str) -> (r: HttpRequest)
        ensures
            r.method is Post,
            r.url@ == pin_file_url(),
            headers_view(r.headers@) == credential_headers(
                self.api_key_spec(),
                self.secret_key_spec(),
            ),
            r.body matches RequestBody::FilePart(f) && f@ == file_ref@,
    {
        HttpRequest {
            method: HttpMethod::Post,
            url: String::from_str("https://api.pinata.cloud/pinning/pinFileToIPFS"),
            headers: self.credential_header_vec(),
            body: RequestBody::FilePart(String::from_str(file_ref)),
        }
    }

    /// Builds the pin-JSON request: a POST to the pin-JSON endpoint with
    /// the two credential headers, a `Content-Type: application/json`
    /// header, and the serialized document as its body.
    pub fn pin_json_request(&self, data: &JsonValue) -> (r: HttpRequest)
        ensures
            r.method is Post,
            r.url@ == pin_json_url(),
            headers_view(r.headers@) == credential_headers(
                self.api_key_spec(),
                self.secret_key_spec(),
            ).push(("Content-Type"@, "application/json"@)),
            r.body matches RequestBody::JsonText(t) && t@ == ser(data@),
    {
        let mut hs = self.credential_header_vec();
        hs.push((String::from_str("Content-Type"), String::from_str("application/json")));
        proof {
            assert(headers_view(hs@) =~= credential_headers(
                self.api_key_spec(),
                self.secret_key_spec(),
            ).push(("Content-Type"@, "application/json"@)));
        }
        HttpRequest {
            method: HttpMethod::Post,
            url: String::from_str("https://api.pinata.cloud/pinning/pinJSONToIPFS"),
            headers: hs,
            body: RequestBody::JsonText(to_json_string(data)),
        }
    }

    /// Builds the unpin request: a DELETE of the unpin endpoint extended
    /// by the content hash, with the two credential headers and no body.
    /// The hash is not validated, as the service applies its own rules.
    pub fn unpin_request(&self, hash: &str) -> (r: HttpRequest)
        ensures
            r.method is Delete,
            r.url@ == unpin_url(hash@),
            headers_view(r.headers@) == credential_headers(
                self.api_key_spec(),
                self.secret_key_spec(),
            ),
            r.body is Empty,
    {
        HttpRequest {
            method: HttpMethod::Delete,
            url: String::from_str("https://api.pinata.cloud/pinning/unpin/").concat(hash),
            headers: self.credential_header_vec(),
            body: RequestBody::Empty,
        }
    }
}

} // verus!
