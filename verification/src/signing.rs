//! Signed requests to the exchanges.

use crate::failure::{Failure, Reason};
use crate::text::{chars_of, contains, decimal, digits, int_text, join, occurs, text_of};
use hmac::Mac;
use vstd::prelude::*;
use vstd::string::StringExecFns;

verus! {

/// The HMAC-SHA256 code of a message under a key.
pub uninterp spec fn hmac_sha256_code(key: Seq<u8>, message: Seq<u8>) -> Seq<u8>;

/// `hmac::Hmac<sha2::Sha256>`, keyed with `key` and fed with `message`: the
/// code is a function of the two, and has thirty-two bytes. A key of any length
/// is taken.
#[verifier::external_body]
fn hmac_sha256(key: &[u8], message: &[u8]) -> (code: Vec<u8>)
    ensures
        code@ == hmac_sha256_code(key@, message@),
        code@.len() == 32,
{
    let mut mac = hmac::Hmac::<sha2::Sha256>::new_from_slice(key).expect("HMAC accepts any key");
    mac.update(message);
    mac.finalize().into_bytes().to_vec()
}

/// The lower-case hexadecimal digit of a number below sixteen.
pub open spec fn hex_digit(n: int) -> char {
    if n < 10 {
        (48 + n) as char
    } else {
        (87 + n) as char
    }
}

/// Two lower-case hexadecimal digits for every byte, the high one first.
pub open spec fn hex_text(bytes: Seq<u8>) -> Seq<char> {
    Seq::new(
        2 * bytes.len(),
        |i: int|
            if i % 2 == 0 {
                hex_digit(bytes[i / 2] as int / 16)
            } else {
                hex_digit(bytes[i / 2] as int % 16)
            },
    )
}

/// `hex::encode`: two lower-case hexadecimal digits for every byte.
#[verifier::external_body]
fn hex_encode(bytes: &Vec<u8>) -> (text: String)
    ensures
        text@ == hex_text(bytes@),
{
    hex::encode(bytes)
}

/// The signature of a message: the HMAC-SHA256 code in hexadecimal.
pub open spec fn signature(secret: Seq<char>, message: Seq<char>) -> Seq<char> {
    hex_text(hmac_sha256_code(vstd::utf8::encode_utf8(secret), vstd::utf8::encode_utf8(message)))
}

/// Signs a message.
pub fn sign(secret: &str, message: &str) -> (s: String)
    ensures
        s@ == signature(secret@, message@),
        s@.len() == 64,
{
    let code = hmac_sha256(secret.as_bytes(), message.as_bytes());
    hex_encode(&code)
}

/// Signs a message.
pub fn hmac_sign(secret: &str, message: &str) -> (s: String)
    ensures
        s@ == signature(secret@, message@),
        s@.len() == 64,
{
    sign(secret, message)
}

/// A query with a receive window: ten seconds where it names none.
pub open spec fn with_window(query: Seq<char>) -> Seq<char> {
    if occurs(query, "recvWindow="@) {
        query
    } else {
        query + "&recvWindow=10000"@
    }
}

/// A signed request to Binance.
pub open spec fn binance_url(host: Seq<char>, path: Seq<char>, query: Seq<char>, secret: Seq<char>) -> Seq<char> {
    "https://"@ + host + path + "?"@ + with_window(query) + "&signature="@ + signature(
        secret,
        with_window(query),
    )
}

pub fn signed_url(host: &str, path: &str, query: &str, secret: &str) -> (url: String)
    ensures
        url@ == binance_url(host@, path@, query@, secret@),
{
    let signed = if contains(query, "recvWindow=") {
        query.to_owned()
    } else {
        join(query, "&recvWindow=10000")
    };
    let mut url = "https://".to_owned();
    url.append(host);
    url.append(path);
    url.append("?");
    url.append(signed.as_str());
    url.append("&signature=");
    url.append(sign(secret, signed.as_str()).as_str());
    url
}

/// What follows the first question mark of a path; nothing where there is none.
pub open spec fn after_question(path: Seq<char>) -> Seq<char>
    decreases path.len(),
{
    if path.len() == 0 {
        Seq::empty()
    } else if path[0] == '?' {
        path.drop_first()
    } else {
        after_question(path.drop_first())
    }
}

/// The query of a path.
pub fn query_of(path: &str) -> (query: String)
    ensures
        query@ == after_question(path@),
{
    let v = chars_of(path);
    let mut i: usize = 0;
    proof {
        assert(v@.skip(0) =~= v@);
    }
    while i < v.len()
        invariant
            i <= v@.len(),
            v@ == path@,
            after_question(path@) == after_question(v@.skip(i as int)),
        decreases v@.len() - i,
    {
        proof {
            assert(v@.skip(i as int)[0] == v@[i as int]);
            assert(v@.skip(i as int).drop_first() =~= v@.skip(i as int + 1));
            assert(v@.skip(i as int + 1) =~= v@.subrange(i as int + 1, v@.len() as int));
        }
        if v[i] == '?' {
            let n: usize = v.len();
            return text_of(&v, i + 1, n);
        }
        i = i + 1;
    }
    proof {
        assert(v@.skip(v@.len() as int) =~= Seq::<char>::empty());
    }
    String::new()
}

/// The signature of a request to Bybit: of the timestamp, the key, the receive
/// window of five seconds and the payload, one after the other.
pub open spec fn bybit_signature(
    secret: Seq<char>,
    api_key: Seq<char>,
    timestamp: i64,
    payload: Seq<char>,
) -> Seq<char> {
    signature(secret, decimal(timestamp as int) + api_key + "5000"@ + payload)
}

/// Signs a request to Bybit: the timestamp, the key, the receive window and the
/// payload, which is the query of a GET and the body of a POST.
pub fn sign_bybit(secret: &str, api_key: &str, timestamp: i64, payload: &str) -> (s: String)
    ensures
        s@ == bybit_signature(secret@, api_key@, timestamp, payload@),
{
    let mut message = int_text(timestamp);
    message.append(api_key);
    message.append("5000");
    message.append(payload);
    sign(secret, message.as_str())
}

/// What the private Bybit stream is authenticated with.
pub fn sign_bybit_stream(secret: &str, expires: i64) -> (s: String)
    ensures
        s@ == signature(secret@, "GET/realtime"@ + decimal(expires as int)),
{
    hmac_sign(secret, join("GET/realtime", int_text(expires).as_str()).as_str())
}

/// One member of a JSON body.
pub enum Field {
    Text(String),
    Flag(bool),
    Int(i64),
}

/// One member of a JSON body, with its text.
pub enum FieldView {
    Text(Seq<char>),
    Flag(bool),
    Int(i64),
}

impl View for Field {
    type V = FieldView;

    open spec fn view(&self) -> FieldView {
        match self {
            Field::Text(s) => FieldView::Text(s@),
            Field::Flag(b) => FieldView::Flag(*b),
            Field::Int(k) => FieldView::Int(*k),
        }
    }
}

/// The members of a JSON body with their names.
pub open spec fn members(fields: Seq<(String, Field)>) -> Seq<(Seq<char>, FieldView)> {
    fields.map_values(|f: (String, Field)| (f.0@, f.1@))
}

/// The text of a JSON object with the given members.
pub uninterp spec fn json_object_text(members: Seq<(Seq<char>, FieldView)>) -> Seq<char>;

/// `serde_json::to_string` of a `serde_json::Value::Object` with the given
/// members: a function of their names and values.
#[verifier::external_body]
pub(crate) fn encode_object(fields: Vec<(String, Field)>) -> (text: String)
    ensures
        text@ == json_object_text(members(fields@)),
{
    let object = fields.into_iter().map(|(key, field)| match field {
        Field::Text(text) => (key, serde_json::Value::String(text)),
        Field::Flag(flag) => (key, serde_json::Value::Bool(flag)),
        Field::Int(number) => (key, serde_json::Value::from(number)),
    }).collect();
    serde_json::to_string(&serde_json::Value::Object(object)).expect("a JSON value is serialized")
}

/// The text of one member of the object that a body spells; none where the body
/// is no JSON, no object, or holds no such text.
pub uninterp spec fn json_text_field(body: Seq<char>, key: Seq<char>) -> Option<Seq<char>>;

/// `serde_json::from_str` of a body, and the text of one member of it.
#[verifier::external_body]
fn text_field(body: &str, key: &str) -> (text: Option<String>)
    ensures
        text is Some == json_text_field(body@, key@) is Some,
        text matches Some(t) ==> t@ == json_text_field(body@, key@)->0,
{
    serde_json::from_str::<serde_json::Value>(body).ok().and_then(
        |json| json[key].as_str().map(|text| text.to_owned()),
    )
}

/// What an exchange said of a request that it refused.
pub open spec fn refusal_detail(detail: Option<Seq<char>>) -> Seq<char> {
    match detail {
        Some(text) => text,
        None => "request rejected"@,
    }
}

/// The failure of a request that was answered with an error status, from what
/// the answer says of it.
pub fn rejected(venue: &str, status: &str, detail: Option<String>) -> (failure: Failure)
    ensures
        failure.cause is None,
        failure.reason matches Reason::RequestRejected { venue: v, status: s, detail: d } && v@ == venue@ && s@
            == status@ && d@ == refusal_detail(
            match detail {
                Some(text) => Some(text@),
                None => None,
            },
        ),
{
    let detail = match detail {
        Some(text) => text,
        None => "request rejected".to_owned(),
    };
    Failure::new(
        Reason::RequestRejected { venue: venue.to_owned(), status: status.to_owned(), detail },
    )
}

/// The failure of a request that was answered with an error status and a body.
pub fn rejected_body(venue: &str, status: &str, body: &str, key: &str) -> (failure: Failure)
    ensures
        failure.cause is None,
        failure.reason matches Reason::RequestRejected { venue: v, status: s, detail: d } && v@ == venue@ && s@
            == status@ && d@ == refusal_detail(json_text_field(body@, key@)),
{
    rejected(venue, status, text_field(body, key))
}

/// The failure of a request whose answer could not be read.
pub fn invalid_response(venue: &str, error: String) -> (failure: Failure)
    ensures
        failure.reason matches Reason::InvalidResponse { venue: v } && v@ == venue@,
        failure.cause == Some(error),
{
    Failure::because(Reason::InvalidResponse { venue: venue.to_owned() }, error)
}

/// Whether a character is a lower-case hexadecimal digit.
pub open spec fn is_hex_digit(c: char) -> bool {
    ('0' <= c && c <= '9') || ('a' <= c && c <= 'f')
}

/// Whether every character is a lower-case hexadecimal digit.
pub open spec fn all_hex(s: Seq<char>) -> bool {
    forall|i: int| 0 <= i < s.len() ==> is_hex_digit(#[trigger] s[i])
}

/// Whether a text is a hyphenated random identifier: groups of eight, four,
/// four, four and twelve digits, of which one tells the version.
pub open spec fn is_hyphenated(s: Seq<char>) -> bool {
    &&& s.len() == 36
    &&& forall|i: int|
        0 <= i < 36 ==> if i == 8 || i == 13 || i == 18 || i == 23 {
            #[trigger] s[i] == '-'
        } else {
            is_hex_digit(s[i])
        }
    &&& s[14] == '4'
    &&& is_variant_digit(s[19])
}

/// Whether a digit tells that the layout of an identifier is the common one.
pub open spec fn is_variant_digit(c: char) -> bool {
    c == '8' || c == '9' || c == 'a' || c == 'b'
}

/// `uuid::Uuid::new_v4` in its simple form: thirty-two lower-case hexadecimal
/// digits, picked at random but for the one that tells the version and the one
/// that tells the layout, which is one of four. It panics where the machine has
/// no randomness.
#[verifier::external_body]
fn random_digits() -> (digits: String)
    ensures
        digits@.len() == 32,
        all_hex(digits@),
        digits@[12] == '4',
        is_variant_digit(digits@[16]),
{
    uuid::Uuid::new_v4().simple().to_string()
}

/// The client order identifier made from random digits.
pub fn client_order_id(random: &str) -> (id: String)
    ensures
        id@ == "av"@ + random@,
{
    join("av", random)
}

/// A client order identifier: the mark of this desk and random digits.
pub fn new_client_order_id() -> (id: String)
    ensures
        id@.len() == 34,
        id@.take(2) == "av"@,
        all_hex(id@.skip(2)),
        id@[14] == '4',
        is_variant_digit(id@[18]),
{
    let random = random_digits();
    let id = client_order_id(random.as_str());
    proof {
        reveal_strlit("av");
        assert(id@.take(2) =~= "av"@);
        assert(id@.skip(2) =~= random@);
    }
    id
}

/// `uuid::Uuid::new_v4` in its hyphenated form: thirty-two lower-case
/// hexadecimal digits in five groups, picked at random but for the one that
/// tells the version and the one that tells the layout, which is one of four. It
/// panics where the machine has no randomness.
#[verifier::external_body]
fn random_id() -> (id: String)
    ensures
        is_hyphenated(id@),
{
    uuid::Uuid::new_v4().to_string()
}

/// An identifier for a task, a rule, an event or a simulated position.
pub fn new_id() -> (id: String)
    ensures
        is_hyphenated(id@),
{
    random_id()
}

} // verus!
