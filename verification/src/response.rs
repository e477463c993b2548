use vstd::prelude::*;
use crate::error::PinataError;
use crate::json::{jv, jv_fields, lemma_jv_fields_index, JsonData, JsonValue};
use crate::parse::{digits_val, is_digit, parse_json_text, parse_spec};
use crate::ser::{dec_str, push_dec};

verus! {

/// A successful pin, as the service reports it: the assigned content
/// hash, the pinned size in bytes, and the creation timestamp, plus the
/// extended fields some service versions return. The extended values are
/// passed through untouched; the library does not interpret them.
#[derive(Debug, PartialEq, Eq)]
pub struct PinResponse {
    pub ipfs_hash: String,
    pub pin_size: u64,
    pub timestamp: String,
    pub id: String,
    pub name: Option<String>,
    pub number_of_files: u64,
    pub mime_type: Option<JsonValue>,
    pub group_id: Option<String>,
    pub keyvalues: Option<JsonValue>,
}

/// The mathematical model of a pin response.
pub struct PinData {
    pub ipfs_hash: Seq<char>,
    pub pin_size: u64,
    pub timestamp: Seq<char>,
    pub id: Seq<char>,
    pub name: Option<Seq<char>>,
    pub number_of_files: u64,
    pub mime_type: Option<JsonData>,
    pub group_id: Option<Seq<char>>,
    pub keyvalues: Option<JsonData>,
}

impl View for PinResponse {
    type V = PinData;

    open spec fn view(&self) -> PinData {
        PinData {
            ipfs_hash: self.ipfs_hash@,
            pin_size: self.pin_size,
            timestamp: self.timestamp@,
            id: self.id@,
            name: match self.name {
                Some(n) => Some(n@),
                None => None,
            },
            number_of_files: self.number_of_files,
            mime_type: match self.mime_type {
                Some(m) => Some(m@),
                None => None,
            },
            group_id: match self.group_id {
                Some(g) => Some(g@),
                None => None,
            },
            keyvalues: match self.keyvalues {
                Some(k) => Some(k@),
                None => None,
            },
        }
    }
}

/// The value of the first member named `key` at or after `i`.
pub open spec fn obj_get_from(
    fields: Seq<(Seq<char>, JsonData)>,
    key: Seq<char>,
    i: int,
) -> Option<JsonData>
    decreases fields.len() - i,
{
    if 0 <= i && i < fields.len() {
        if fields[i].0 == key {
            Some(fields[i].1)
        } else {
            obj_get_from(fields, key, i + 1)
        }
    } else {
        None
    }
}

/// The value of the first member named `a`, else of the first named `b`:
/// the decoder accepts the capitalized wire key and its lower-camel
/// variant.
pub open spec fn get_field(
    fields: Seq<(Seq<char>, JsonData)>,
    a: Seq<char>,
    b: Seq<char>,
) -> Option<JsonData> {
    match obj_get_from(fields, a, 0) {
        Some(v) => Some(v),
        None => obj_get_from(fields, b, 0),
    }
}

/// A required string field.
pub open spec fn as_str_field(v: Option<JsonData>) -> Option<Seq<char>> {
    match v {
        Some(JsonData::Str(s)) => Some(s),
        _ => None,
    }
}

/// The value of a number lexeme that is a plain digit run fitting in
/// `u64`; any other lexeme — signed, fractional, exponential, or too
/// large — has no such value.
pub open spec fn lexeme_u64(t: Seq<char>) -> Option<u64> {
    if t.len() >= 1 && (forall|k: int| 0 <= k < t.len() ==> is_digit(#[trigger] t[k]))
        && digits_val(t, 0, t.len() as int) <= u64::MAX {
        Some(digits_val(t, 0, t.len() as int) as u64)
    } else {
        None
    }
}

/// A required non-negative integer field.
pub open spec fn as_u64_field(v: Option<JsonData>) -> Option<u64> {
    match v {
        Some(JsonData::Num(t)) => lexeme_u64(t),
        _ => None,
    }
}

/// An optional string field: absent or null decodes to `None`.
pub open spec fn as_opt_str_field(v: Option<JsonData>) -> Option<Option<Seq<char>>> {
    match v {
        None => Some(None),
        Some(JsonData::Null) => Some(None),
        Some(JsonData::Str(s)) => Some(Some(s)),
        _ => None,
    }
}

/// A string field that defaults to empty when absent or null.
pub open spec fn as_str_or_default(v: Option<JsonData>) -> Option<Seq<char>> {
    match v {
        None => Some(Seq::empty()),
        Some(JsonData::Null) => Some(Seq::empty()),
        Some(JsonData::Str(s)) => Some(s),
        _ => None,
    }
}

/// An integer field that defaults to zero when absent or null.
pub open spec fn as_u64_or_default(v: Option<JsonData>) -> Option<u64> {
    match v {
        None => Some(0),
        Some(JsonData::Null) => Some(0),
        Some(JsonData::Num(t)) => lexeme_u64(t),
        _ => None,
    }
}

/// A pass-through field: kept as it stands, absent or null decoding to
/// `None`.
pub open spec fn as_pass_field(v: Option<JsonData>) -> Option<JsonData> {
    match v {
        None => None,
        Some(JsonData::Null) => None,
        Some(x) => Some(x),
    }
}

/// Decodes a JSON document into a pin response: the document must be an
/// object holding the string fields `IpfsHash` and `Timestamp` and the
/// non-negative integer `PinSize` (each also accepted in lower-camel
/// case); the extended fields are optional, with `ID` defaulting to the
/// empty string and `NumberOfFiles` to zero.
pub open spec fn pin_response_of(d: JsonData) -> Option<PinData> {
    match d {
        JsonData::Obj(fields) => {
            match (
                as_str_field(get_field(fields, "IpfsHash"@, "ipfsHash"@)),
                as_u64_field(get_field(fields, "PinSize"@, "pinSize"@)),
                as_str_field(get_field(fields, "Timestamp"@, "timestamp"@)),
                as_str_or_default(get_field(fields, "ID"@, "id"@)),
                as_opt_str_field(get_field(fields, "Name"@, "name"@)),
                as_u64_or_default(get_field(fields, "NumberOfFiles"@, "numberOfFiles"@)),
                as_opt_str_field(get_field(fields, "GroupId"@, "groupId"@)),
            ) {
                (
                    Some(hash),
                    Some(size),
                    Some(ts),
                    Some(id),
                    Some(name),
                    Some(files),
                    Some(group),
                ) => Some(
                    PinData {
                        ipfs_hash: hash,
                        pin_size: size,
                        timestamp: ts,
                        id: id,
                        name: name,
                        number_of_files: files,
                        mime_type: as_pass_field(get_field(fields, "MimeType"@, "mimeType"@)),
                        group_id: group,
                        keyvalues: as_pass_field(get_field(fields, "Keyvalues"@, "keyvalues"@)),
                    },
                ),
                _ => None,
            }
        },
        _ => None,
    }
}

/// Reads a number lexeme as an unsigned integer, exactly as
/// `lexeme_u64` says.
fn parse_u64_lexeme(t: &str) -> (r: Option<u64>)
    ensures
        r == lexeme_u64(t@),
{
    let n = t.unicode_len();
    if n == 0 {
        return None;
    }
    let mut k: usize = 0;
    let mut acc: u64 = 0;
    let mut over: bool = false;
    while k < n
        invariant
            n == t@.len(),
            k <= n,
            forall|j: int| 0 <= j < k as int ==> is_digit(#[trigger] t@[j]),
            !over ==> digits_val(t@, 0, k as int) == acc as int,
            over ==> digits_val(t@, 0, k as int) > u64::MAX,
        decreases n - k,
    {
        let c = t.get_char(k);
        let u = c as u32;
        if u < 48 || u > 57 {
            return None;
        }
        let d: u64 = (u - 48) as u64;
        let ghost prev = digits_val(t@, 0, k as int);
        proof {
            assert(is_digit(t@[k as int]));
            assert(d as int == (c as u32) as int - 48);
        }
        if over {
            proof {
                assert(prev * 10 + (d as int) > u64::MAX) by (nonlinear_arith)
                    requires
                        prev > u64::MAX,
                        d >= 0,
                ;
            }
        } else if acc > (u64::MAX - d) / 10 {
            over = true;
            proof {
                assert(prev * 10 + (d as int) > u64::MAX) by (nonlinear_arith)
                    requires
                        prev == acc as int,
                        acc > (u64::MAX - d) / 10,
                        0 <= d <= 9,
                ;
            }
        } else {
            proof {
                assert(acc * 10 + d <= u64::MAX) by (nonlinear_arith)
                    requires
                        acc <= (u64::MAX - d) / 10,
                        0 <= d <= 9,
                ;
            }
            acc = acc * 10 + d;
        }
        k = k + 1;
        proof {
            assert(digits_val(t@, 0, k as int) == prev * 10 + ((t@[k as int - 1] as u32) as int
                - 48));
        }
    }
    if over {
        return None;
    }
    Some(acc)
}

/// Finds the first member named `a`, else the first named `b`.
fn find_field(fields: &Vec<(String, JsonValue)>, a: &str, b: &str) -> (r: Option<usize>)
    ensures
        ({
            let m = jv_fields(fields@);
            match r {
                Some(ix) => ix < fields@.len() && get_field(m, a@, b@) == Some(
                    jv(fields@[ix as int].1),
                ),
                None => get_field(m, a@, b@) is None,
            }
        }),
{
    proof {
        lemma_jv_fields_index(fields@);
    }
    let ka = String::from_str(a);
    let kb = String::from_str(b);
    let ghost m = jv_fields(fields@);
    let mut i: usize = 0;
    while i < fields.len()
        invariant
            i <= fields@.len(),
            m == jv_fields(fields@),
            m.len() == fields@.len(),
            forall|k: int| 0 <= k < fields@.len()
                ==> m[k] == ((#[trigger] fields@[k]).0@, jv(fields@[k].1)),
            ka@ == a@,
            obj_get_from(m, a@, 0) == obj_get_from(m, a@, i as int),
        decreases fields@.len() - i,
    {
        if fields[i].0.eq(&ka) {
            proof {
                assert(obj_get_from(m, a@, i as int) == Some(m[i as int].1));
            }
            return Some(i);
        }
        i = i + 1;
        proof {
            assert(obj_get_from(m, a@, i as int - 1) == obj_get_from(m, a@, i as int));
        }
    }
    proof {
        assert(obj_get_from(m, a@, 0) is None);
    }
    let mut j: usize = 0;
    while j < fields.len()
        invariant
            j <= fields@.len(),
            m == jv_fields(fields@),
            m.len() == fields@.len(),
            forall|k: int| 0 <= k < fields@.len()
                ==> m[k] == ((#[trigger] fields@[k]).0@, jv(fields@[k].1)),
            kb@ == b@,
            obj_get_from(m, a@, 0) is None,
            obj_get_from(m, b@, 0) == obj_get_from(m, b@, j as int),
        decreases fields@.len() - j,
    {
        if fields[j].0.eq(&kb) {
            proof {
                assert(obj_get_from(m, b@, j as int) == Some(m[j as int].1));
            }
            return Some(j);
        }
        j = j + 1;
        proof {
            assert(obj_get_from(m, b@, j as int - 1) == obj_get_from(m, b@, j as int));
        }
    }
    proof {
        assert(obj_get_from(m, b@, 0) is None);
    }
    None
}

/// Decodes a parsed JSON document into a pin response, exactly as
/// `pin_response_of` says.
pub fn decode_pin_response(v: &JsonValue) -> (r: Option<PinResponse>)
    ensures
        r matches Some(p) ==> pin_response_of(v@) == Some(p@),
        r is None ==> pin_response_of(v@) is None,
{
    let fields = match v {
        JsonValue::Obj(fs) => fs,
        _ => {
            return None;
        },
    };
    let ghost m = jv_fields(fields@);
    let hash = match find_field(fields, "IpfsHash", "ipfsHash") {
        Some(ix) => match &fields[ix].1 {
            JsonValue::Str(s) => s.clone(),
            _ => {
                return None;
            },
        },
        None => {
            return None;
        },
    };
    let size = match find_field(fields, "PinSize", "pinSize") {
        Some(ix) => match &fields[ix].1 {
            JsonValue::Num(t) => match parse_u64_lexeme(t.as_str()) {
                Some(u) => u,
                None => {
                    return None;
                },
            },
            _ => {
                return None;
            },
        },
        None => {
            return None;
        },
    };
    let ts = match find_field(fields, "Timestamp", "timestamp") {
        Some(ix) => match &fields[ix].1 {
            JsonValue::Str(s) => s.clone(),
            _ => {
                return None;
            },
        },
        None => {
            return None;
        },
    };
    let id = match find_field(fields, "ID", "id") {
        Some(ix) => match &fields[ix].1 {
            JsonValue::Str(s) => s.clone(),
            JsonValue::Null => String::new(),
            _ => {
                return None;
            },
        },
        None => String::new(),
    };
    let name = match find_field(fields, "Name", "name") {
        Some(ix) => match &fields[ix].1 {
            JsonValue::Str(s) => Some(s.clone()),
            JsonValue::Null => None,
            _ => {
                return None;
            },
        },
        None => None,
    };
    let files = match find_field(fields, "NumberOfFiles", "numberOfFiles") {
        Some(ix) => match &fields[ix].1 {
            JsonValue::Num(t) => match parse_u64_lexeme(t.as_str()) {
                Some(u) => u,
                None => {
                    return None;
                },
            },
            JsonValue::Null => 0,
            _ => {
                return None;
            },
        },
        None => 0,
    };
    let group = match find_field(fields, "GroupId", "groupId") {
        Some(ix) => match &fields[ix].1 {
            JsonValue::Str(s) => Some(s.clone()),
            JsonValue::Null => None,
            _ => {
                return None;
            },
        },
        None => None,
    };
    let mime = match find_field(fields, "MimeType", "mimeType") {
        Some(ix) => match &fields[ix].1 {
            JsonValue::Null => None,
            other => Some(other.duplicate()),
        },
        None => None,
    };
    let keyvalues = match find_field(fields, "Keyvalues", "keyvalues") {
        Some(ix) => match &fields[ix].1 {
            JsonValue::Null => None,
            other => Some(other.duplicate()),
        },
        None => None,
    };
    Some(
        PinResponse {
            ipfs_hash: hash,
            pin_size: size,
            timestamp: ts,
            id,
            name,
            number_of_files: files,
            mime_type: mime,
            group_id: group,
            keyvalues,
        },
    )
}


/// A successful HTTP status: the 2xx range.
pub open spec fn status_ok(status: u16) -> bool {
    200 <= status && status <= 299
}

/// The diagnostic carried by an HTTP failure: the fixed phrase and the
/// decimal status code.
pub open spec fn http_error_msg(status: u16) -> Seq<char> {
    "HTTP error: "@ + dec_str(status as u64)
}

/// The pin response a body decodes to: the body parsed as JSON, the
/// document decoded as `pin_response_of` says.
pub open spec fn decoded_pin_of(s: Seq<char>) -> Option<PinData> {
    match parse_spec(s) {
        None => None,
        Some(d) => pin_response_of(d),
    }
}

/// Renders the diagnostic for an HTTP failure.
fn http_error_message(status: u16) -> (r: String)
    ensures
        r@ == http_error_msg(status),
{
    let mut out = crate::parse::str_to_chars("HTTP error: ");
    push_dec(status as u64, &mut out);
    crate::ser::chars_to_string(&out)
}

/// Decodes a 2xx response body into a pin response, or the
/// deserialization error that says what failed.
fn decode_pin_body(body: &str) -> (r: Result<PinResponse, PinataError>)
    ensures
        parse_spec(body@) is None ==> (r matches Err(e)
            && e matches PinataError::DeserializationError(m)
            && m@ == "response body is not valid JSON"@),
        (parse_spec(body@) matches Some(d) && pin_response_of(d) is None) ==> (r matches Err(e)
            && e matches PinataError::DeserializationError(m)
            && m@ == "response body lacks the pin response fields"@),
        decoded_pin_of(body@) matches Some(pd) ==> (r matches Ok(p) && p@ == pd),
{
    match parse_json_text(body) {
        None => Err(
            PinataError::DeserializationError(String::from_str("response body is not valid JSON")),
        ),
        Some(doc) => match decode_pin_response(&doc) {
            None => Err(
                PinataError::DeserializationError(
                    String::from_str("response body lacks the pin response fields"),
                ),
            ),
            Some(p) => Ok(p),
        },
    }
}

/// Interprets the response of a pin-file exchange: a status outside 2xx
/// is a pin-file error carrying the status; a 2xx body is decoded into
/// the response, a body that does not decode is a deserialization error.
/// No partial result is ever returned.
pub fn handle_pin_file_response(status: u16, body: &str) -> (r: Result<PinResponse, PinataError>)
    ensures
        !status_ok(status) ==> (r matches Err(e) && e matches PinataError::PinFileError(m)
            && m@ == http_error_msg(status)),
        status_ok(status) ==> ({
            &&& parse_spec(body@) is None ==> (r matches Err(e)
                && e matches PinataError::DeserializationError(m)
                && m@ == "response body is not valid JSON"@)
            &&& (parse_spec(body@) matches Some(d) && pin_response_of(d) is None) ==> (r matches Err(
                e,
            ) && e matches PinataError::DeserializationError(m)
                && m@ == "response body lacks the pin response fields"@)
            &&& decoded_pin_of(body@) matches Some(pd) ==> (r matches Ok(p) && p@ == pd)
        }),
{
    if !(200 <= status && status <= 299) {
        return Err(PinataError::PinFileError(http_error_message(status)));
    }
    decode_pin_body(body)
}

/// Interprets the response of a pin-JSON exchange, as
/// `handle_pin_file_response` does, with the pin-JSON error kind.
pub fn handle_pin_json_response(status: u16, body: &str) -> (r: Result<PinResponse, PinataError>)
    ensures
        !status_ok(status) ==> (r matches Err(e) && e matches PinataError::PinJsonError(m)
            && m@ == http_error_msg(status)),
        status_ok(status) ==> ({
            &&& parse_spec(body@) is None ==> (r matches Err(e)
                && e matches PinataError::DeserializationError(m)
                && m@ == "response body is not valid JSON"@)
            &&& (parse_spec(body@) matches Some(d) && pin_response_of(d) is None) ==> (r matches Err(
                e,
            ) && e matches PinataError::DeserializationError(m)
                && m@ == "response body lacks the pin response fields"@)
            &&& decoded_pin_of(body@) matches Some(pd) ==> (r matches Ok(p) && p@ == pd)
        }),
{
    if !(200 <= status && status <= 299) {
        return Err(PinataError::PinJsonError(http_error_message(status)));
    }
    decode_pin_body(body)
}

/// Interprets the response of an unpin exchange: success exactly on a
/// 2xx status, whose body is discarded; any other status is an unpin
/// error carrying the status.
pub fn handle_unpin_response(status: u16) -> (r: Result<(), PinataError>)
    ensures
        status_ok(status) <==> r is Ok,
        !status_ok(status) ==> (r matches Err(e) && e matches PinataError::UnpinError(m)
            && m@ == http_error_msg(status)),
{
    if 200 <= status && status <= 299 {
        Ok(())
    } else {
        Err(PinataError::UnpinError(http_error_message(status)))
    }
}


/// The wire-shape members of a pin response, capitalized keys, in order;
/// an absent optional field contributes no member.
pub open spec fn wire_fields_of(p: PinData) -> Seq<(Seq<char>, JsonData)> {
    seq![
        ("IpfsHash"@, JsonData::Str(p.ipfs_hash)),
        ("PinSize"@, JsonData::Num(dec_str(p.pin_size))),
        ("Timestamp"@, JsonData::Str(p.timestamp)),
        ("ID"@, JsonData::Str(p.id)),
    ] + (match p.name {
        Some(n) => seq![("Name"@, JsonData::Str(n))],
        None => Seq::empty(),
    }) + seq![("NumberOfFiles"@, JsonData::Num(dec_str(p.number_of_files)))] + (
    match p.mime_type {
        Some(m) => seq![("MimeType"@, m)],
        None => Seq::empty(),
    }) + (match p.group_id {
        Some(g) => seq![("GroupId"@, JsonData::Str(g))],
        None => Seq::empty(),
    }) + (match p.keyvalues {
        Some(k) => seq![("Keyvalues"@, k)],
        None => Seq::empty(),
    })
}

/// The wire shape of a pin response: the JSON object the service returns
/// for it.
pub open spec fn wire_json_of(p: PinData) -> JsonData {
    JsonData::Obj(wire_fields_of(p))
}

/// Renders an unsigned integer as its decimal lexeme.
fn u64_string(n: u64) -> (r: String)
    ensures
        r@ == dec_str(n),
{
    let mut out: Vec<char> = Vec::new();
    push_dec(n, &mut out);
    crate::ser::chars_to_string(&out)
}

impl PinResponse {
    /// Builds the wire-shape JSON object of this response.
    #[verifier::rlimit(60)]
    pub fn to_wire_json(&self) -> (r: JsonValue)
        ensures
            r@ == wire_json_of(self@),
    {
        let mut out: Vec<(String, JsonValue)> = Vec::new();
        out.push((String::from_str("IpfsHash"), JsonValue::Str(self.ipfs_hash.clone())));
        out.push(
            (String::from_str("PinSize"), JsonValue::Num(u64_string(self.pin_size))),
        );
        out.push((String::from_str("Timestamp"), JsonValue::Str(self.timestamp.clone())));
        out.push((String::from_str("ID"), JsonValue::Str(self.id.clone())));
        match &self.name {
            Some(n) => out.push((String::from_str("Name"), JsonValue::Str(n.clone()))),
            None => (),
        }
        out.push(
            (
                String::from_str("NumberOfFiles"),
                JsonValue::Num(u64_string(self.number_of_files)),
            ),
        );
        match &self.mime_type {
            Some(m) => out.push((String::from_str("MimeType"), m.duplicate())),
            None => (),
        }
        match &self.group_id {
            Some(g) => out.push((String::from_str("GroupId"), JsonValue::Str(g.clone()))),
            None => (),
        }
        match &self.keyvalues {
            Some(k) => out.push((String::from_str("Keyvalues"), k.duplicate())),
            None => (),
        }
        let r = JsonValue::Obj(out);
        proof {
            lemma_jv_fields_index(r->Obj_0@);
            assert forall|k: int| 0 <= k < r->Obj_0@.len() implies jv_fields(r->Obj_0@)[k] == (
                (r->Obj_0@[k]).0@,
                jv(r->Obj_0@[k].1),
            ) by {}
            assert(jv_fields(r->Obj_0@) =~= wire_fields_of(self@));
        }
        r
    }
}


/// Decoding the wire shape of a pin response yields the response again,
/// field for field. The two pass-through fields may not hold a bare JSON
/// null: on the wire, a null member and an absent member both decode to
/// an absent field, so such a value cannot survive the trip.
#[verifier::rlimit(100)]
pub proof fn lemma_wire_round_trip(p: PinData)
    requires
        p.mime_type != Some(JsonData::Null),
        p.keyvalues != Some(JsonData::Null),
    ensures
        pin_response_of(wire_json_of(p)) == Some(p),
{
    reveal_strlit("IpfsHash");
    reveal_strlit("ipfsHash");
    reveal_strlit("PinSize");
    reveal_strlit("pinSize");
    reveal_strlit("Timestamp");
    reveal_strlit("timestamp");
    reveal_strlit("ID");
    reveal_strlit("id");
    reveal_strlit("Name");
    reveal_strlit("name");
    reveal_strlit("NumberOfFiles");
    reveal_strlit("numberOfFiles");
    reveal_strlit("MimeType");
    reveal_strlit("mimeType");
    reveal_strlit("GroupId");
    reveal_strlit("groupId");
    reveal_strlit("Keyvalues");
    reveal_strlit("keyvalues");
    reveal_with_fuel(obj_get_from, 12);
    assert("IpfsHash"@.len() == 8);
    assert("IpfsHash"@[0] == 'I');
    assert("ipfsHash"@.len() == 8);
    assert("ipfsHash"@[0] == 'i');
    assert("PinSize"@.len() == 7);
    assert("PinSize"@[0] == 'P');
    assert("pinSize"@.len() == 7);
    assert("pinSize"@[0] == 'p');
    assert("Timestamp"@.len() == 9);
    assert("Timestamp"@[0] == 'T');
    assert("timestamp"@.len() == 9);
    assert("timestamp"@[0] == 't');
    assert("ID"@.len() == 2);
    assert("ID"@[0] == 'I');
    assert("id"@.len() == 2);
    assert("id"@[0] == 'i');
    assert("Name"@.len() == 4);
    assert("Name"@[0] == 'N');
    assert("name"@.len() == 4);
    assert("name"@[0] == 'n');
    assert("NumberOfFiles"@.len() == 13);
    assert("NumberOfFiles"@[0] == 'N');
    assert("numberOfFiles"@.len() == 13);
    assert("numberOfFiles"@[0] == 'n');
    assert("MimeType"@.len() == 8);
    assert("MimeType"@[0] == 'M');
    assert("mimeType"@.len() == 8);
    assert("mimeType"@[0] == 'm');
    assert("GroupId"@.len() == 7);
    assert("GroupId"@[0] == 'G');
    assert("groupId"@.len() == 7);
    assert("groupId"@[0] == 'g');
    assert("Keyvalues"@.len() == 9);
    assert("Keyvalues"@[0] == 'K');
    assert("keyvalues"@.len() == 9);
    assert("keyvalues"@[0] == 'k');
    let f = wire_fields_of(p);
    assert(get_field(f, "IpfsHash"@, "ipfsHash"@) == Some(JsonData::Str(p.ipfs_hash)));
    crate::laws::lemma_dec_str_digits(p.pin_size);
    crate::laws::lemma_dec_val(dec_str(p.pin_size), 0, p.pin_size);
    assert(get_field(f, "PinSize"@, "pinSize"@) == Some(JsonData::Num(dec_str(p.pin_size))));
    assert(lexeme_u64(dec_str(p.pin_size)) == Some(p.pin_size));
    assert(get_field(f, "Timestamp"@, "timestamp"@) == Some(JsonData::Str(p.timestamp)));
    assert(get_field(f, "ID"@, "id"@) == Some(JsonData::Str(p.id)));
    assert(get_field(f, "Name"@, "name"@) == match p.name {
        Some(n) => Some(JsonData::Str(n)),
        None => None,
    });
    crate::laws::lemma_dec_str_digits(p.number_of_files);
    crate::laws::lemma_dec_val(dec_str(p.number_of_files), 0, p.number_of_files);
    assert(get_field(f, "NumberOfFiles"@, "numberOfFiles"@) == Some(
        JsonData::Num(dec_str(p.number_of_files)),
    ));
    assert(lexeme_u64(dec_str(p.number_of_files)) == Some(p.number_of_files));
    assert(get_field(f, "MimeType"@, "mimeType"@) == p.mime_type);
    assert(get_field(f, "GroupId"@, "groupId"@) == match p.group_id {
        Some(g) => Some(JsonData::Str(g)),
        None => None,
    });
    assert(get_field(f, "Keyvalues"@, "keyvalues"@) == p.keyvalues);
}


/// The full round trip of a pin response: the canonical text of its wire
/// shape parses and decodes back to the response, field for field. The
/// pass-through fields must be well-formed documents and not a bare JSON
/// null, which the wire cannot distinguish from an absent member.
pub proof fn lemma_response_round_trip(p: PinData)
    requires
        (match p.mime_type {
            Some(m) => m.wf() && !(m is Null),
            None => true,
        }),
        (match p.keyvalues {
            Some(k) => k.wf() && !(k is Null),
            None => true,
        }),
    ensures
        decoded_pin_of(crate::ser::ser(wire_json_of(p))) == Some(p),
{
    let f = wire_fields_of(p);
    crate::laws::lemma_dec_str_lexeme(p.pin_size);
    crate::laws::lemma_dec_str_lexeme(p.number_of_files);
    assert forall|i: int| 0 <= i < f.len() implies (#[trigger] f[i]).1.wf() by {}
    assert(wire_json_of(p).wf());
    crate::laws::lemma_text_round_trip(wire_json_of(p));
    lemma_wire_round_trip(p);
}

} // verus!
