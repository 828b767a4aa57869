//! The session request layer's verified half: building an authenticated
//! request description from credentials, and classifying a response body
//! into a parsed envelope or a typed failure. The blocking HTTP transport
//! itself lives outside the library and works from these plain values.

use vstd::prelude::*;
use vstd::string::*;

use crate::doc::{json_i64, parse_json, spec_get, spec_json_i64, DocValue, DocView};
use crate::model::KakaoCredentials;
use crate::text::{i64_to_dec, spec_i64_dec, spec_u64_dec, u64_to_dec};

verus! {

/// The two HTTP methods the service is spoken to with. Anything else is a
/// caller bug the type rules out.
#[derive(Clone, Copy, Debug, PartialEq, Eq, Structural)]
pub enum Method {
    Get,
    Post,
}

/// The label a method carries in request lines and error messages.
pub open spec fn spec_method_label(m: Method) -> Seq<char> {
    match m {
        Method::Get => "GET"@,
        Method::Post => "POST"@,
    }
}

/// Render a method's label.
pub fn method_label(m: Method) -> (r: &'static str)
    ensures
        r@ == spec_method_label(m),
{
    match m {
        Method::Get => "GET",
        Method::Post => "POST",
    }
}

/// A failure of the request layer.
#[derive(Debug)]
pub enum KakaoError {
    /// A derived header value cannot be carried in an HTTP header.
    InvalidHeader { name: String },
    /// The response body was not a JSON document.
    BadJson { http_status: u16, snippet: String },
    /// A checked call's envelope carried a nonzero status.
    Api { status: i64, message: String, method: Method, url: String },
    /// Candidate selection was started with no candidates at all.
    NoCandidates,
}

/// The message a failure describes itself with.
pub open spec fn spec_error_message(e: KakaoError) -> Seq<char> {
    match e {
        KakaoError::InvalidHeader { name } => "Invalid "@ + name@ + " header"@,
        KakaoError::BadJson { http_status, snippet } => "Failed to parse JSON response (HTTP "@
            + spec_u64_dec(http_status as nat) + "): "@ + snippet@,
        KakaoError::Api { status, message, method, url } => {
            let details = if message@.len() == 0 {
                Seq::<char>::empty()
            } else {
                " ("@ + message@ + ")"@
            };
            "Kakao API returned status "@ + spec_i64_dec(status as int) + details + " for "@
                + spec_method_label(method) + " "@ + url@
        },
        KakaoError::NoCandidates => "No credentials candidate"@,
    }
}

impl KakaoError {
    /// Render the failure for display.
    pub fn describe(&self) -> (r: String)
        ensures
            r@ == spec_error_message(*self),
    {
        match self {
            KakaoError::InvalidHeader { name } => {
                let mut s = String::from_str("Invalid ");
                s.append(name.as_str());
                s.append(" header");
                proof {
                    assert(s@ =~= spec_error_message(*self));
                }
                s
            },
            KakaoError::BadJson { http_status, snippet } => {
                let mut s = String::from_str("Failed to parse JSON response (HTTP ");
                s.append(u64_to_dec(*http_status as u64).as_str());
                s.append("): ");
                s.append(snippet.as_str());
                proof {
                    assert(s@ =~= spec_error_message(*self));
                }
                s
            },
            KakaoError::Api { status, message, method, url } => {
                let mut s = String::from_str("Kakao API returned status ");
                s.append(i64_to_dec(*status).as_str());
                if !message.as_str().is_empty() {
                    s.append(" (");
                    s.append(message.as_str());
                    s.append(")");
                }
                s.append(" for ");
                s.append(method_label(*method));
                s.append(" ");
                s.append(url.as_str());
                proof {
                    assert(s@ =~= spec_error_message(*self));
                }
                s
            },
            KakaoError::NoCandidates => String::from_str("No credentials candidate"),
        }
    }
}

// ---------------------------------------------------------------------------
// Header validity
// ---------------------------------------------------------------------------

/// A character every byte of which an HTTP header value may carry:
/// horizontal tab, or anything at or above the space that is not delete.
pub open spec fn spec_valid_header_char(c: char) -> bool {
    c == '\t' || (c as u32 >= 32 && c as u32 != 127)
}

/// A string that can be carried as an HTTP header value.
pub open spec fn spec_valid_header_value(s: Seq<char>) -> bool {
    forall|i: int| 0 <= i < s.len() ==> spec_valid_header_char(#[trigger] s[i])
}

/// Check that a string can be carried as an HTTP header value.
#[verifier::loop_isolation(false)]
pub fn valid_header_value(s: &str) -> (r: bool)
    ensures
        r == spec_valid_header_value(s@),
{
    let len = s.unicode_len();
    let mut i: usize = 0;
    while i < len
        invariant
            i <= len,
            forall|j: int| 0 <= j < i ==> spec_valid_header_char(#[trigger] s@[j]),
        decreases len - i,
    {
        let c = s.get_char(i);
        let v = c as u32;
        if !(c == '\t' || (v >= 32 && v != 127)) {
            return false;
        }
        i += 1;
    }
    true
}

// ---------------------------------------------------------------------------
// Request building
// ---------------------------------------------------------------------------

/// The `A` header to send: the recovered one verbatim, or one derived from
/// the app version.
pub open spec fn spec_a_header_value(a_header: Seq<char>, app_version: Seq<char>) -> Seq<
    char,
> {
    if a_header.len() == 0 {
        "mac/"@ + app_version + "/ko"@
    } else {
        a_header
    }
}

/// The User-Agent to send: the recovered one verbatim, or one derived from
/// the app version.
pub open spec fn spec_user_agent_value(user_agent: Seq<char>, app_version: Seq<char>) -> Seq<
    char,
> {
    if user_agent.len() == 0 {
        "KT/"@ + app_version + " Mc/26.1.0 ko"@
    } else {
        user_agent
    }
}

/// The headers every request carries, in order: the three fixed ones, then
/// the bearer token verbatim, then the two derived ones.
pub open spec fn spec_request_headers(c: crate::candidates::CredView) -> Seq<
    (Seq<char>, Seq<char>),
> {
    seq![
        ("Content-Type"@, "application/x-www-form-urlencoded"@),
        ("Accept"@, "application/json"@),
        ("Accept-Language"@, "ko"@),
        ("Authorization"@, c.oauth_token),
        ("A"@, spec_a_header_value(c.a_header, c.app_version)),
        ("User-Agent"@, spec_user_agent_value(c.user_agent, c.app_version)),
    ]
}

/// A fully described request, ready for a transport to execute.
pub struct PreparedRequest {
    pub method: Method,
    pub url: String,
    pub headers: Vec<(String, String)>,
    pub body: Option<String>,
}

/// View of a prepared request's header list.
pub open spec fn spec_headers_view(headers: Seq<(String, String)>) -> Seq<
    (Seq<char>, Seq<char>),
> {
    headers.map_values(|h: (String, String)| (h.0@, h.1@))
}

/// Build an authenticated request description. Fails, naming the header,
/// exactly when the bearer token or a derived header value cannot be
/// carried in an HTTP header; the token is checked first, then the `A`
/// header, then the User-Agent.
pub fn build_request(
    creds: &KakaoCredentials,
    method: Method,
    url: String,
    body: Option<String>,
) -> (r: Result<PreparedRequest, KakaoError>)
    ensures
        match r {
            Ok(req) => {
                &&& spec_valid_header_value(creds.oauth_token@)
                &&& spec_valid_header_value(
                    spec_a_header_value(creds.a_header@, creds.app_version@),
                )
                &&& spec_valid_header_value(
                    spec_user_agent_value(creds.user_agent@, creds.app_version@),
                )
                &&& req.method == method
                &&& req.url@ == url@
                &&& spec_headers_view(req.headers@) == spec_request_headers(creds@)
                &&& match (req.body, body) {
                    (Some(b), Some(given)) => b@ == given@,
                    (None, None) => true,
                    _ => false,
                }
            },
            Err(e) => match e {
                KakaoError::InvalidHeader { name } => {
                    ||| name@ == "Authorization"@ && !spec_valid_header_value(
                        creds.oauth_token@,
                    )
                    ||| name@ == "A"@ && spec_valid_header_value(creds.oauth_token@)
                        && !spec_valid_header_value(
                        spec_a_header_value(creds.a_header@, creds.app_version@),
                    )
                    ||| name@ == "User-Agent"@ && spec_valid_header_value(creds.oauth_token@)
                        && spec_valid_header_value(
                        spec_a_header_value(creds.a_header@, creds.app_version@),
                    ) && !spec_valid_header_value(
                        spec_user_agent_value(creds.user_agent@, creds.app_version@),
                    )
                },
                _ => false,
            },
        },
{
    if !valid_header_value(creds.oauth_token.as_str()) {
        return Err(KakaoError::InvalidHeader { name: String::from_str("Authorization") });
    }
    let a_value = if creds.a_header.as_str().is_empty() {
        let mut a = String::from_str("mac/");
        a.append(creds.app_version.as_str());
        a.append("/ko");
        a
    } else {
        creds.a_header.clone()
    };
    if !valid_header_value(a_value.as_str()) {
        return Err(KakaoError::InvalidHeader { name: String::from_str("A") });
    }
    let ua_value = if creds.user_agent.as_str().is_empty() {
        let mut ua = String::from_str("KT/");
        ua.append(creds.app_version.as_str());
        ua.append(" Mc/26.1.0 ko");
        ua
    } else {
        creds.user_agent.clone()
    };
    if !valid_header_value(ua_value.as_str()) {
        return Err(KakaoError::InvalidHeader { name: String::from_str("User-Agent") });
    }
    let mut headers: Vec<(String, String)> = Vec::new();
    headers.push(
        (
            String::from_str("Content-Type"),
            String::from_str("application/x-www-form-urlencoded"),
        ),
    );
    headers.push((String::from_str("Accept"), String::from_str("application/json")));
    headers.push((String::from_str("Accept-Language"), String::from_str("ko")));
    headers.push((String::from_str("Authorization"), creds.oauth_token.clone()));
    headers.push((String::from_str("A"), a_value));
    headers.push((String::from_str("User-Agent"), ua_value));
    proof {
        assert(spec_headers_view(headers@) =~= spec_request_headers(creds@));
    }
    Ok(PreparedRequest { method, url, headers, body })
}

// ---------------------------------------------------------------------------
// Response classification
// ---------------------------------------------------------------------------

/// The diagnostic snippet kept of an unparsable body: its first 200
/// characters.
pub open spec fn spec_body_snippet(text: Seq<char>) -> Seq<char> {
    if text.len() <= 200 {
        text
    } else {
        text.take(200)
    }
}

/// Parse a response body as JSON. Succeeds exactly when the text is a JSON
/// document; otherwise the failure carries the HTTP status and a
/// bounded-length snippet of the offending body.
pub fn parse_response(http_status: u16, text: &str) -> (r: Result<DocValue, KakaoError>)
    ensures
        match r {
            Ok(d) => crate::doc::json_doc_of(text@) == Some(d@),
            Err(e) => {
                &&& crate::doc::json_doc_of(text@) is None
                &&& e matches KakaoError::BadJson { http_status: hs, snippet } && hs
                    == http_status && snippet@ == spec_body_snippet(text@)
            },
        },
{
    match parse_json(text) {
        Some(d) => Ok(d),
        None => {
            let len = text.unicode_len();
            let snippet = if len <= 200 {
                text.to_owned()
            } else {
                text.substring_char(0, 200).to_owned()
            };
            Err(KakaoError::BadJson { http_status, snippet })
        },
    }
}

/// The envelope status a checked call inspects: the integer `status` field
/// when it is carried as an integer.
pub open spec fn spec_envelope_status(doc: DocView) -> Option<i64> {
    match spec_get(doc, "status"@) {
        Some(DocView::Int(n)) => Some(n),
        _ => None,
    }
}

/// The message a failing envelope carries: the string under `message`,
/// else under `msg`, else empty.
pub open spec fn spec_envelope_message(doc: DocView) -> Seq<char> {
    match spec_get(doc, "message"@) {
        Some(v) => match v {
            DocView::Str(s) => s,
            _ => Seq::empty(),
        },
        None => match spec_get(doc, "msg"@) {
            Some(v) => match v {
                DocView::Str(s) => s,
                _ => Seq::empty(),
            },
            None => Seq::empty(),
        },
    }
}

/// Inspect a checked call's envelope: a nonzero integer `status` becomes a
/// typed failure carrying the status, the server's message and the request
/// that produced it; anything else passes.
pub fn check_envelope(doc: &DocValue, method: Method, url: &str) -> (r: Result<
    (),
    KakaoError,
>)
    ensures
        match r {
            Ok(_) => match spec_envelope_status(doc@) {
                Some(st) => st == 0,
                None => true,
            },
            Err(e) => {
                &&& e matches KakaoError::Api { status, message, method: m, url: u }
                    && spec_envelope_status(doc@) == Some(status) && status != 0 && message@
                    == spec_envelope_message(doc@) && m == method && u@ == url@
            },
        },
{
    let status = match crate::doc::doc_get(doc, "status") {
        Some(DocValue::Int(n)) => Some(*n),
        _ => None,
    };
    match status {
        Some(st) if st != 0 => {
            let message = match crate::doc::doc_get(doc, "message") {
                Some(v) => match v {
                    DocValue::Str(s) => s.clone(),
                    _ => String::new(),
                },
                None => match crate::doc::doc_get(doc, "msg") {
                    Some(v) => match v {
                        DocValue::Str(s) => s.clone(),
                        _ => String::new(),
                    },
                    None => String::new(),
                },
            };
            Err(
                KakaoError::Api {
                    status: st,
                    message,
                    method,
                    url: url.to_owned(),
                },
            )
        },
        _ => Ok(()),
    }
}

/// Token verification's reading of a raw settings response: the token is
/// valid exactly when the envelope status equals 0.
pub fn token_status_ok(doc: &DocValue) -> (r: bool)
    ensures
        r == (spec_json_i64(doc@, "status"@) == 0),
{
    json_i64(doc, "status") == 0
}

} // verus!
