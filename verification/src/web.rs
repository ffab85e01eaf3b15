//! The bridging collaborator's wire shapes: parsing its line-oriented
//! request text, mapping its decoded key/value bodies onto inbound messages,
//! and rendering its responses as bytes.

use crate::protocol::{Endpoint, ServerMessage, Tunables};
use crate::text::{spec_split, split_char, str_eq, u64_to_dec};
use vstd::prelude::*;
use vstd::utf8::encode_utf8;

verus! {

/// The first position at or after `i` holding the lone carriage return that
/// separates headers from body; the length when there is none.
pub open spec fn spec_blank_line(lines: Seq<Seq<char>>, i: int) -> int
    decreases lines.len() - i,
{
    if i < 0 || i >= lines.len() {
        lines.len() as int
    } else if lines[i] == "\r"@ {
        i
    } else {
        spec_blank_line(lines, i + 1)
    }
}

/// The pieces from position `i` on, joined with nothing between them.
pub open spec fn spec_concat_from(lines: Seq<Seq<char>>, i: int) -> Seq<char>
    decreases lines.len() - i,
{
    if i < 0 || i >= lines.len() {
        Seq::empty()
    } else {
        lines[i] + spec_concat_from(lines, i + 1)
    }
}

/// What `WebRequest::build` yields: the request line's method selects the
/// variant, a `GET` carries its second token, a `POST` carries the body (the
/// lines past the blank separator, joined); anything else, a method line
/// without a path, or a request without a blank separator line is `Invalid`.
pub open spec fn spec_build_request(raw: Seq<char>) -> WebRequestV {
    let lines = spec_split(raw, '\n');
    let cmd = spec_split(lines[0], ' ');
    let k = spec_blank_line(lines, 0);
    if k == lines.len() {
        WebRequestV::Invalid
    } else if cmd[0] == "GET"@ {
        if cmd.len() >= 2 {
            WebRequestV::Get(cmd[1])
        } else {
            WebRequestV::Invalid
        }
    } else if cmd[0] == "POST"@ {
        WebRequestV::Post(spec_concat_from(lines, k + 1))
    } else {
        WebRequestV::Invalid
    }
}

/// The view of a parsed bridge request.
#[verifier::ext_equal]
pub enum WebRequestV {
    Invalid,
    Get(Seq<char>),
    Post(Seq<char>),
}

/// A request read off the bridging collaborator's connection: a resource
/// fetch, a body-carrying post, or noise.
pub enum WebRequest {
    Invalid,
    Get(String),
    Post(String),
}

impl View for WebRequest {
    type V = WebRequestV;

    open spec fn view(&self) -> WebRequestV {
        match self {
            WebRequest::Invalid => WebRequestV::Invalid,
            WebRequest::Get(p) => WebRequestV::Get(p@),
            WebRequest::Post(b) => WebRequestV::Post(b@),
        }
    }
}

impl WebRequest {
    /// Parses one raw request text. Total: malformed text yields `Invalid`.
    #[verifier::loop_isolation(false)]
    pub fn build(raw: String) -> (r: Self)
        ensures
            r@ == spec_build_request(raw@),
    {
        let lines = split_char(raw.as_str(), '\n');
        let ghost linesv = spec_split(raw@, '\n');
        proof {
            assert(lines@[0]@ == linesv[0]);
        }
        let cmd = split_char(lines[0].as_str(), ' ');
        let ghost cmdv = spec_split(linesv[0], ' ');
        proof {
            assert(cmd@[0]@ == cmdv[0]);
        }
        let mut k: usize = 0;
        while k < lines.len() && !str_eq(lines[k].as_str(), "\r")
            invariant
                0 <= k <= lines@.len(),
                spec_blank_line(linesv, 0) == spec_blank_line(linesv, k as int),
                forall|j: int| 0 <= j < k ==> #[trigger] linesv[j] != "\r"@,
            decreases lines@.len() - k,
        {
            proof {
                assert(lines@[k as int]@ == linesv[k as int]);
            }
            k = k + 1;
        }
        proof {
            if k < lines.len() {
                assert(lines@[k as int]@ == linesv[k as int]);
            }
            assert(spec_blank_line(linesv, 0) == if k < lines@.len() {
                k as int
            } else {
                linesv.len() as int
            });
        }
        if k == lines.len() {
            return WebRequest::Invalid;
        }
        if str_eq(cmd[0].as_str(), "GET") {
            if cmd.len() >= 2 {
                proof {
                    assert(cmd@[1]@ == cmdv[1]);
                }
                return WebRequest::Get(cmd[1].clone());
            }
            return WebRequest::Invalid;
        }
        if str_eq(cmd[0].as_str(), "POST") {
            let mut body = String::new();
            let mut i: usize = k + 1;
            proof {
                assert(body@ + spec_concat_from(linesv, i as int) =~= spec_concat_from(
                    linesv,
                    k + 1,
                ));
            }
            while i < lines.len()
                invariant
                    k + 1 <= i <= lines@.len(),
                    spec_concat_from(linesv, k + 1) == body@ + spec_concat_from(linesv, i as int),
                decreases lines@.len() - i,
            {
                proof {
                    assert(lines@[i as int]@ == linesv[i as int]);
                }
                body.append(lines[i].as_str());
                i = i + 1;
            }
            return WebRequest::Post(body);
        }
        WebRequest::Invalid
    }
}

/// The view of a bridge response.
#[verifier::ext_equal]
pub enum WebResponseV {
    Text(Seq<char>, Seq<char>),
    Raw(Seq<u8>, Seq<char>),
    MovedPermanently(Seq<char>),
    NotFound,
}

/// A response for the bridging collaborator's clients: a text document with
/// its content type, raw bytes with theirs, a redirect, or a miss.
pub enum WebResponse {
    Text(String, String),
    Raw(Vec<u8>, String),
    MovedPermanently(String),
    NotFound,
}

impl View for WebResponse {
    type V = WebResponseV;

    open spec fn view(&self) -> WebResponseV {
        match self {
            WebResponse::Text(d, t) => WebResponseV::Text(d@, t@),
            WebResponse::Raw(d, t) => WebResponseV::Raw(d@, t@),
            WebResponse::MovedPermanently(p) => WebResponseV::MovedPermanently(p@),
            WebResponse::NotFound => WebResponseV::NotFound,
        }
    }
}

/// The bytes a response is sent as: a status line, the content headers where
/// the variant carries a document (the length counted in bytes), and the
/// body.
pub open spec fn spec_build_response(r: WebResponseV) -> Seq<u8> {
    match r {
        WebResponseV::Text(data, filetype) => encode_utf8(
            "HTTP/1.1 200 OK"@ + "\r\nContent-Type: "@ + filetype + "; charset=UTF-8"@
                + "\r\nContent-Length: "@ + crate::text::spec_udec(
                encode_utf8(data).len() as int,
            ) + "\r\n\r\n"@ + data,
        ),
        WebResponseV::Raw(data, filetype) => encode_utf8(
            "HTTP/1.1 200 OK"@ + "\r\nContent-Type: "@ + filetype + "\r\nContent-Length: "@
                + crate::text::spec_udec(data.len() as int) + "\r\n\r\n"@,
        ) + data,
        WebResponseV::MovedPermanently(path) => encode_utf8(
            "HTTP/1.1 301 Moved Permanently"@ + "\r\nLocation: "@ + path,
        ),
        WebResponseV::NotFound => encode_utf8("HTTP/1.1 404 Not Found"@),
    }
}

impl WebResponse {
    /// Renders the response as wire bytes.
    pub fn build(self) -> (r: Vec<u8>)
        ensures
            r@ == spec_build_response(self@),
    {
        match self {
            WebResponse::Text(data, filetype) => {
                let mut h = "HTTP/1.1 200 OK".to_owned();
                h.append("\r\nContent-Type: ");
                h.append(filetype.as_str());
                h.append("; charset=UTF-8");
                h.append("\r\nContent-Length: ");
                h.append(u64_to_dec(data.as_str().as_bytes().len() as u64).as_str());
                h.append("\r\n\r\n");
                h.append(data.as_str());
                proof {
                    assert(h@ =~= "HTTP/1.1 200 OK"@ + "\r\nContent-Type: "@ + filetype@
                        + "; charset=UTF-8"@ + "\r\nContent-Length: "@ + crate::text::spec_udec(
                        encode_utf8(data@).len() as int,
                    ) + "\r\n\r\n"@ + data@);
                }
                vstd::string::StrSliceExecFns::as_bytes_vec(h.as_str())
            },
            WebResponse::Raw(data, filetype) => {
                let mut h = "HTTP/1.1 200 OK".to_owned();
                h.append("\r\nContent-Type: ");
                h.append(filetype.as_str());
                h.append("\r\nContent-Length: ");
                h.append(u64_to_dec(data.len() as u64).as_str());
                h.append("\r\n\r\n");
                proof {
                    assert(h@ =~= "HTTP/1.1 200 OK"@ + "\r\nContent-Type: "@ + filetype@
                        + "\r\nContent-Length: "@ + crate::text::spec_udec(data@.len() as int)
                        + "\r\n\r\n"@);
                }
                let mut out = vstd::string::StrSliceExecFns::as_bytes_vec(h.as_str());
                crate::protocol::push_bytes(&mut out, data.as_slice());
                out
            },
            WebResponse::MovedPermanently(path) => {
                let mut h = "HTTP/1.1 301 Moved Permanently".to_owned();
                h.append("\r\nLocation: ");
                h.append(path.as_str());
                proof {
                    assert(h@ =~= "HTTP/1.1 301 Moved Permanently"@ + "\r\nLocation: "@ + path@);
                }
                vstd::string::StrSliceExecFns::as_bytes_vec(h.as_str())
            },
            WebResponse::NotFound => {
                vstd::string::StrSliceExecFns::as_bytes_vec("HTTP/1.1 404 Not Found")
            },
        }
    }
}

/// The view of a decoded body field.
#[verifier::ext_equal]
pub enum FieldV {
    Text(Seq<char>),
    Num(u64),
}

/// A field of a decoded key/value request body: the bridging collaborator's
/// clients send strings and numbers.
pub enum FieldValue {
    Text(String),
    Num(u64),
}

impl View for FieldValue {
    type V = FieldV;

    open spec fn view(&self) -> FieldV {
        match self {
            FieldValue::Text(t) => FieldV::Text(t@),
            FieldValue::Num(n) => FieldV::Num(*n),
        }
    }
}

/// A field read as an eight-bit number, with a fixed fallback for anything
/// else, as the document format prescribes.
pub open spec fn spec_field_u8(f: FieldV, dflt: u8) -> u8 {
    match f {
        FieldV::Num(v) => if v <= 255 {
            v as u8
        } else {
            dflt
        },
        FieldV::Text(_) => dflt,
    }
}

/// A field read as a sixteen-bit number, with its fallback.
pub open spec fn spec_field_u16(f: FieldV, dflt: u16) -> u16 {
    match f {
        FieldV::Num(v) => if v <= 65535 {
            v as u16
        } else {
            dflt
        },
        FieldV::Text(_) => dflt,
    }
}

/// The first field under a key, from position `i` on.
pub open spec fn spec_find_field(
    fields: Seq<(Seq<char>, FieldV)>,
    key: Seq<char>,
    i: int,
) -> Option<FieldV>
    decreases fields.len() - i,
{
    if i < 0 || i >= fields.len() {
        None
    } else if fields[i].0 == key {
        Some(fields[i].1)
    } else {
        spec_find_field(fields, key, i + 1)
    }
}

/// The settings patch a `saveSettings` body carries, read from position `i`
/// on; when a key repeats, the last occurrence stands.
pub open spec fn spec_tunables_from(fields: Seq<(Seq<char>, FieldV)>, i: int) -> Tunables
    decreases fields.len() - i,
{
    if i < 0 || i >= fields.len() {
        Tunables { maxPlayersCount: None, port: None, tickRate: None }
    } else {
        let rest = spec_tunables_from(fields, i + 1);
        Tunables {
            maxPlayersCount: if rest.maxPlayersCount is Some {
                rest.maxPlayersCount
            } else if fields[i].0 == "maxPlayersCount"@ {
                Some(spec_field_u8(fields[i].1, 1))
            } else {
                None
            },
            port: if rest.port is Some {
                rest.port
            } else if fields[i].0 == "port"@ {
                Some(spec_field_u16(fields[i].1, 2018))
            } else {
                None
            },
            tickRate: if rest.tickRate is Some {
                rest.tickRate
            } else if fields[i].0 == "tickRate"@ {
                Some(spec_field_u8(fields[i].1, 1))
            } else {
                None
            },
        }
    }
}

/// Which inbound message a decoded post body means: the command word selects
/// the variant, the named field supplies its argument with the prescribed
/// fallback, and a body that is no key/value document, misses its required
/// field or names an unknown command is `Invalid`.
pub open spec fn spec_parse_post(
    sink: Endpoint,
    cmd: Seq<char>,
    fields: Option<Seq<(Seq<char>, FieldV)>>,
) -> crate::protocol::MsgV {
    match fields {
        None => crate::protocol::MsgV::Invalid(sink),
        Some(fs) => if cmd == "players"@ {
            crate::protocol::MsgV::PlayersList(sink)
        } else if cmd == "chat"@ {
            match spec_find_field(fs, "msg"@, 0) {
                Some(FieldV::Text(v)) => crate::protocol::MsgV::Chat(v, sink),
                Some(FieldV::Num(_)) => crate::protocol::MsgV::Chat(Seq::empty(), sink),
                None => crate::protocol::MsgV::Invalid(sink),
            }
        } else if cmd == "getChat"@ {
            match spec_find_field(fs, "messagesLength"@, 0) {
                Some(FieldV::Num(v)) => crate::protocol::MsgV::ChatHistory(
                    if v <= usize::MAX as u64 {
                        v as usize
                    } else {
                        0
                    },
                    sink,
                ),
                Some(FieldV::Text(_)) => crate::protocol::MsgV::ChatHistory(0, sink),
                None => crate::protocol::MsgV::Invalid(sink),
            }
        } else if cmd == "state"@ {
            crate::protocol::MsgV::GameState(sink)
        } else if cmd == "chatLength"@ {
            crate::protocol::MsgV::ChatLength(sink)
        } else if cmd == "getSettings"@ {
            crate::protocol::MsgV::GetSettings(sink)
        } else if cmd == "saveSettings"@ {
            crate::protocol::MsgV::SaveSettings(spec_tunables_from(fs, 0), sink)
        } else {
            crate::protocol::MsgV::Invalid(sink)
        },
    }
}

/// Maps one decoded post body onto an inbound message. The body arrives as
/// plain fields, already freed of its document syntax; `None` stands for a
/// body that was no key/value document at all.
#[verifier::loop_isolation(false)]
pub fn parsePost(sink: Endpoint, cmd: String, fields: Option<Vec<(String, FieldValue)>>) -> (r:
    ServerMessage)
    ensures
        r@ == spec_parse_post(
            sink,
            cmd@,
            match fields {
                Option::None => None,
                Option::Some(v) => Some(
                    v@.map_values(|e: (String, FieldValue)| (e.0@, e.1@)),
                ),
            },
        ),
{
    let fs = match fields {
        Option::None => {
            return ServerMessage::Invalid(sink);
        },
        Option::Some(v) => v,
    };
    let ghost fsv = fs@.map_values(|e: (String, FieldValue)| (e.0@, e.1@));
    if str_eq(cmd.as_str(), "players") {
        return ServerMessage::PlayersList(sink);
    }
    if str_eq(cmd.as_str(), "chat") {
        match find_field(&fs, "msg") {
            Option::Some(FieldValue::Text(v)) => {
                return ServerMessage::Chat(v, sink);
            },
            Option::Some(FieldValue::Num(_)) => {
                return ServerMessage::Chat(String::new(), sink);
            },
            Option::None => {
                return ServerMessage::Invalid(sink);
            },
        }
    }
    if str_eq(cmd.as_str(), "getChat") {
        match find_field(&fs, "messagesLength") {
            Option::Some(FieldValue::Num(v)) => {
                let n: usize = if v <= usize::MAX as u64 {
                    v as usize
                } else {
                    0
                };
                return ServerMessage::ChatHistory(n, sink);
            },
            Option::Some(FieldValue::Text(_)) => {
                return ServerMessage::ChatHistory(0, sink);
            },
            Option::None => {
                return ServerMessage::Invalid(sink);
            },
        }
    }
    if str_eq(cmd.as_str(), "state") {
        return ServerMessage::GameState(sink);
    }
    if str_eq(cmd.as_str(), "chatLength") {
        return ServerMessage::ChatLength(sink);
    }
    if str_eq(cmd.as_str(), "getSettings") {
        return ServerMessage::GetSettings(sink);
    }
    if str_eq(cmd.as_str(), "saveSettings") {
        let mut t = Tunables { maxPlayersCount: None, port: None, tickRate: None };
        let mut i: usize = fs.len();
        while i > 0
            invariant
                0 <= i <= fs@.len(),
                t == spec_tunables_from(fsv, i as int),
            decreases i,
        {
            i = i - 1;
            proof {
                assert(fsv[i as int] == (fs@[i as int].0@, fs@[i as int].1@));
            }
            if t.maxPlayersCount.is_none() && str_eq(fs[i].0.as_str(), "maxPlayersCount") {
                t.maxPlayersCount = Some(field_u8(&fs[i].1, 1));
            }
            if t.port.is_none() && str_eq(fs[i].0.as_str(), "port") {
                t.port = Some(field_u16(&fs[i].1, 2018));
            }
            if t.tickRate.is_none() && str_eq(fs[i].0.as_str(), "tickRate") {
                t.tickRate = Some(field_u8(&fs[i].1, 1));
            }
        }
        return ServerMessage::SaveSettings(t, sink);
    }
    ServerMessage::Invalid(sink)
}

/// A field read as an eight-bit number.
fn field_u8(f: &FieldValue, dflt: u8) -> (r: u8)
    ensures
        r == spec_field_u8(f@, dflt),
{
    match f {
        FieldValue::Num(v) => if *v <= 255 {
            *v as u8
        } else {
            dflt
        },
        FieldValue::Text(_) => dflt,
    }
}

/// A field read as a sixteen-bit number.
fn field_u16(f: &FieldValue, dflt: u16) -> (r: u16)
    ensures
        r == spec_field_u16(f@, dflt),
{
    match f {
        FieldValue::Num(v) => if *v <= 65535 {
            *v as u16
        } else {
            dflt
        },
        FieldValue::Text(_) => dflt,
    }
}

/// The first field stored under a key.
#[verifier::loop_isolation(false)]
fn find_field(fields: &Vec<(String, FieldValue)>, key: &str) -> (r: Option<FieldValue>)
    ensures
        ({
            let fsv = fields@.map_values(|e: (String, FieldValue)| (e.0@, e.1@));
            match r {
                Some(f) => spec_find_field(fsv, key@, 0) == Some(f@),
                None => spec_find_field(fsv, key@, 0) is None,
            }
        }),
{
    let ghost fsv = fields@.map_values(|e: (String, FieldValue)| (e.0@, e.1@));
    let mut i: usize = 0;
    while i < fields.len()
        invariant
            0 <= i <= fields@.len(),
            spec_find_field(fsv, key@, 0) == spec_find_field(fsv, key@, i as int),
        decreases fields@.len() - i,
    {
        proof {
            assert(fsv[i as int] == (fields@[i as int].0@, fields@[i as int].1@));
        }
        if str_eq(fields[i].0.as_str(), key) {
            return Some(clone_field(&fields[i].1));
        }
        i = i + 1;
    }
    None
}

/// A copy of one field.
fn clone_field(f: &FieldValue) -> (r: FieldValue)
    ensures
        r@ == f@,
{
    match f {
        FieldValue::Text(t) => FieldValue::Text(t.clone()),
        FieldValue::Num(n) => FieldValue::Num(*n),
    }
}

} // verus!
