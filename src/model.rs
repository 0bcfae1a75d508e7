//! The values that a bin holds and the replies built from them.
use vstd::prelude::*;
use crate::ext::{
    is_json_text, json_quote, json_string_literal, parses_as_json, rfc3339_of_millis,
    rfc3339_text, status_code_valid, writable_millis, beyond_chrono_millis,
};

verus! {

/// What a bin answers to every captured request: a status code and a body
/// held as JSON text. Any code is stored; the reply clamps it.
pub struct ResponseConfig {
    pub status: u16,
    pub body: String,
}

/// The body of a captured request: the raw text where it parses as JSON,
/// else the same text kept as an opaque string.
pub enum EntryBody {
    Json(String),
    Text(String),
}

/// One captured request.
pub struct LogEntry {
    pub millis: i64,
    pub timestamp: String,
    pub method: String,
    pub headers: Vec<(String, String)>,
    pub body: EntryBody,
}

impl ResponseConfig {
    pub open spec fn view(&self) -> (u16, Seq<char>) {
        (self.status, self.body@)
    }

    pub fn duplicate(&self) -> (r: ResponseConfig)
        ensures
            r == *self,
    {
        ResponseConfig { status: self.status, body: self.body.clone() }
    }
}

impl EntryBody {
    pub open spec fn view(&self) -> (bool, Seq<char>) {
        match self {
            EntryBody::Json(t) => (true, t@),
            EntryBody::Text(t) => (false, t@),
        }
    }

    pub fn duplicate(&self) -> (r: EntryBody)
        ensures
            r@ == self@,
    {
        match self {
            EntryBody::Json(t) => EntryBody::Json(t.clone()),
            EntryBody::Text(t) => EntryBody::Text(t.clone()),
        }
    }
}

/// The headers of an entry as pairs of texts.
pub open spec fn headers_view(h: Seq<(String, String)>) -> Seq<(Seq<char>, Seq<char>)> {
    h.map_values(|p: (String, String)| (p.0@, p.1@))
}

/// An entry as plain values: time, timestamp text, method, headers, body.
pub type EntryView = (int, Seq<char>, Seq<char>, Seq<(Seq<char>, Seq<char>)>, (bool, Seq<char>));

impl LogEntry {
    pub open spec fn view(&self) -> EntryView {
        (
            self.millis as int,
            self.timestamp@,
            self.method@,
            headers_view(self.headers@),
            self.body@,
        )
    }

    pub fn duplicate(&self) -> (r: LogEntry)
        ensures
            r@ == self@,
    {
        let mut headers: Vec<(String, String)> = Vec::new();
        let mut i: usize = 0;
        while i < self.headers.len()
            invariant
                0 <= i <= self.headers@.len(),
                headers@.len() == i,
                forall|k: int| 0 <= k < i ==> #[trigger] headers@[k].0@ == self.headers@[k].0@
                    && headers@[k].1@ == self.headers@[k].1@,
            decreases self.headers@.len() - i,
        {
            headers.push((self.headers[i].0.clone(), self.headers[i].1.clone()));
            i = i + 1;
        }
        assert(headers_view(headers@) =~= headers_view(self.headers@));
        LogEntry {
            millis: self.millis,
            timestamp: self.timestamp.clone(),
            method: self.method.clone(),
            headers,
            body: self.body.duplicate(),
        }
    }
}

/// The body of the descriptor that stands for a bin's own where it is
/// missing: shown in its detail and sent in reply to its captures.
pub open spec fn fallback_body() -> Seq<char> {
    "{\"status\":\"ok\"}"@
}

/// The body that a new bin answers with, naming the bin.
pub open spec fn creation_body(id: Seq<char>) -> Seq<char> {
    "{\"status\":\"captured_by_rust\",\"bin_id\":"@ + json_string_literal(id) + "}"@
}

/// The path under which a bin receives requests.
pub open spec fn url_of(id: Seq<char>) -> Seq<char> {
    "/bin/"@ + id
}

/// The text handed back when a bin is made.
pub open spec fn creation_text(id: Seq<char>) -> Seq<char> {
    "Bin ID: "@ + id + "\nURL: "@ + url_of(id)
}

/// The status a reply carries: the configured code where it is a valid
/// HTTP code (100 to 999), else 200.
pub open spec fn reply_status_of(code: u16) -> u16 {
    if 100 <= code && code <= 999 {
        code
    } else {
        200
    }
}

/// The text shown for an instant: its RFC 3339 text wherever the instant
/// is writable, "unknown" beyond chrono's range, and one of the two in the
/// narrow band between.
pub open spec fn time_text_of(millis: int, text: Seq<char>) -> bool {
    &&& text == rfc3339_text(millis) || text == "unknown"@
    &&& writable_millis(millis) ==> text == rfc3339_text(millis)
    &&& beyond_chrono_millis(millis) ==> text == "unknown"@
}

/// The stored form of an inbound body.
pub open spec fn body_of(raw: Seq<char>) -> (bool, Seq<char>) {
    (is_json_text(raw), raw)
}

/// The descriptor shown for a bin whose own is missing or unreadable.
pub fn fallback_config() -> (r: ResponseConfig)
    ensures
        r@ == (200u16, fallback_body()),
{
    proof {
        reveal_strlit("{\"status\":\"ok\"}");
    }
    ResponseConfig { status: 200, body: String::from_str("{\"status\":\"ok\"}") }
}

/// The descriptor that a bin gets when it is made: status 200 and a body
/// that names the bin.
pub fn creation_config(id: &str) -> (r: ResponseConfig)
    ensures
        r@ == (200u16, creation_body(id@)),
{
    let quoted = json_quote(id);
    let body = String::from_str("{\"status\":\"captured_by_rust\",\"bin_id\":");
    let body = body.concat(quoted.as_str());
    let body = body.concat("}");
    ResponseConfig { status: 200, body }
}

/// The reply to a capture: the bin's descriptor where it has one, else the
/// fallback descriptor.
pub fn reply_for(config: Option<&ResponseConfig>) -> (r: (u16, String))
    ensures
        config matches Some(c) ==> r.0 == c.status && r.1@ == c.body@,
        config is None ==> r.0 == 200 && r.1@ == fallback_body(),
{
    match config {
        Some(c) => (c.status, c.body.clone()),
        None => {
            let f = fallback_config();
            (f.status, f.body)
        },
    }
}

/// The status that goes out over HTTP for a configured code: the code
/// itself where it is valid, else 200.
pub fn reply_status(code: u16) -> (r: u16)
    ensures
        r == reply_status_of(code),
{
    if status_code_valid(code) {
        code
    } else {
        200
    }
}

/// The stored form of an inbound body: JSON where it parses, else text.
pub fn entry_body(raw: String) -> (r: EntryBody)
    ensures
        r@ == body_of(raw@),
{
    if parses_as_json(raw.as_str()) {
        EntryBody::Json(raw)
    } else {
        EntryBody::Text(raw)
    }
}

/// The path under which a bin receives requests.
pub fn bin_url(id: &str) -> (r: String)
    ensures
        r@ == url_of(id@),
{
    String::from_str("/bin/").concat(id)
}

/// The text handed back when a bin is made: its identifier and its path.
pub fn creation_message(id: &str) -> (r: String)
    ensures
        r@ == creation_text(id@),
{
    let url = bin_url(id);
    String::from_str("Bin ID: ").concat(id).concat("\nURL: ").concat(url.as_str())
}

/// An instant as RFC 3339 text, or "unknown" where chrono cannot write it.
pub fn time_text(millis: i64) -> (r: String)
    ensures
        time_text_of(millis as int, r@),
{
    match rfc3339_of_millis(millis) {
        Some(t) => t,
        None => String::from_str("unknown"),
    }
}

} // verus!
