//! The binary protocol of the control channel: inbound messages decoded from
//! client bytes, outbound messages encoded to client bytes. Every message is
//! one opcode byte followed by an opcode-specific payload; text payloads are
//! UTF-8, numeric fields are little-endian.

use crate::text::{bytes_to_text, lossy_utf8};
use vstd::prelude::*;
use vstd::utf8::{decode_utf8, encode_utf8, valid_utf8};

verus! {

/// A network peer as plain data: the address bytes widened to one integer,
/// and the port. Stands for both the bridging collaborator's response sinks
/// and the state channel's learned return addresses.
#[derive(Clone, Copy, PartialEq, Eq, Structural, Debug)]
pub struct Endpoint {
    pub ip: u128,
    pub port: u16,
}

impl Endpoint {
    /// The sentinel used where a message has no real sink.
    pub fn none() -> (r: Endpoint)
        ensures
            r == (Endpoint { ip: 0, port: 0 }),
    {
        Endpoint { ip: 0, port: 0 }
    }
}

/// Settings the bridging collaborator may patch at run time; absent fields
/// stay as they are.
#[derive(Clone, Copy, PartialEq, Eq, Structural, Debug)]
pub struct Tunables {
    pub maxPlayersCount: Option<u8>,
    pub port: Option<u16>,
    pub tickRate: Option<u8>,
}

/// An inbound message: decoded control-channel bytes, or a request injected
/// by the bridging collaborator, which then carries its response sink.
pub enum ServerMessage {
    Invalid(Endpoint),
    Register(String),
    Chat(String, Endpoint),
    Disconnected,
    PlayersList(Endpoint),
    SaveGame(String),
    ChatHistory(usize, Endpoint),
    GameState(Endpoint),
    ChatLength(Endpoint),
    GetSettings(Endpoint),
    SaveSettings(Tunables, Endpoint),
}

/// The view of an inbound message: the same shape over character sequences.
#[verifier::ext_equal]
pub enum MsgV {
    Invalid(Endpoint),
    Register(Seq<char>),
    Chat(Seq<char>, Endpoint),
    Disconnected,
    PlayersList(Endpoint),
    SaveGame(Seq<char>),
    ChatHistory(usize, Endpoint),
    GameState(Endpoint),
    ChatLength(Endpoint),
    GetSettings(Endpoint),
    SaveSettings(Tunables, Endpoint),
}

impl View for ServerMessage {
    type V = MsgV;

    open spec fn view(&self) -> MsgV {
        match self {
            ServerMessage::Invalid(w) => MsgV::Invalid(*w),
            ServerMessage::Register(n) => MsgV::Register(n@),
            ServerMessage::Chat(t, w) => MsgV::Chat(t@, *w),
            ServerMessage::Disconnected => MsgV::Disconnected,
            ServerMessage::PlayersList(w) => MsgV::PlayersList(*w),
            ServerMessage::SaveGame(c) => MsgV::SaveGame(c@),
            ServerMessage::ChatHistory(s, w) => MsgV::ChatHistory(*s, *w),
            ServerMessage::GameState(w) => MsgV::GameState(*w),
            ServerMessage::ChatLength(w) => MsgV::ChatLength(*w),
            ServerMessage::GetSettings(w) => MsgV::GetSettings(*w),
            ServerMessage::SaveSettings(t, w) => MsgV::SaveSettings(*t, *w),
        }
    }
}

/// What decoding control-channel bytes yields: opcode 1 registers a name,
/// opcode 2 is chat, opcode 3 saves a checkpoint; anything else, including a
/// payload that is not valid UTF-8 only in that the characters are replaced,
/// degrades without failing. Slot-originated messages carry the sentinel sink.
pub open spec fn spec_from_raw(data: Seq<u8>) -> MsgV
    recommends
        data.len() >= 1,
{
    let rest = data.skip(1);
    if data[0] == 1 {
        MsgV::Register(lossy_utf8(rest))
    } else if data[0] == 2 {
        MsgV::Chat(lossy_utf8(rest), Endpoint { ip: 0, port: 0 })
    } else if data[0] == 3 {
        MsgV::SaveGame(lossy_utf8(rest))
    } else {
        MsgV::Invalid(Endpoint { ip: 0, port: 0 })
    }
}

impl ServerMessage {
    /// Decodes one control-channel read. Decoding is total: every non-empty
    /// byte sequence yields a message, unknown opcodes yield `Invalid`.
    pub fn fromRaw(data: &[u8]) -> (r: Self)
        requires
            data@.len() >= 1,
        ensures
            r@ == spec_from_raw(data@),
            valid_utf8(data@.skip(1)) ==> match r@ {
                MsgV::Register(s) => s == decode_utf8(data@.skip(1)),
                MsgV::Chat(s, _) => s == decode_utf8(data@.skip(1)),
                MsgV::SaveGame(s) => s == decode_utf8(data@.skip(1)),
                MsgV::Invalid(_) => true,
                _ => false,
            },
    {
        let code = data[0];
        let rest = vstd::slice::slice_subrange(data, 1, data.len());
        proof {
            assert(rest@ =~= data@.skip(1));
        }
        match code {
            1 => ServerMessage::Register(bytes_to_text(rest)),
            2 => ServerMessage::Chat(bytes_to_text(rest), Endpoint::none()),
            3 => ServerMessage::SaveGame(bytes_to_text(rest)),
            _ => ServerMessage::Invalid(Endpoint::none()),
        }
    }
}

/// An outbound control-channel message, encoded with `toRaw`.
pub enum ClientMessage {
    Login(u8, String, String),
    Disconnected(u8),
    Chat(String),
    SetPosition(u16, u16),
    GetInfo(u16, u8, String, u8),
}

/// The view of an outbound message.
#[verifier::ext_equal]
pub enum OutV {
    Login(u8, Seq<char>, Seq<char>),
    Disconnected(u8),
    Chat(Seq<char>),
    SetPosition(u16, u16),
    GetInfo(u16, u8, Seq<char>, u8),
}

impl View for ClientMessage {
    type V = OutV;

    open spec fn view(&self) -> OutV {
        match self {
            ClientMessage::Login(id, n, c) => OutV::Login(*id, n@, c@),
            ClientMessage::Disconnected(id) => OutV::Disconnected(*id),
            ClientMessage::Chat(t) => OutV::Chat(t@),
            ClientMessage::SetPosition(x, y) => OutV::SetPosition(*x, *y),
            ClientMessage::GetInfo(p, t, c, n) => OutV::GetInfo(*p, *t, c@, *n),
        }
    }
}

/// The two bytes of a 16-bit value, least significant first.
pub open spec fn spec_u16_le(x: u16) -> Seq<u8> {
    seq![(x & 0xff) as u8, ((x >> 8) & 0xff) as u8]
}

/// The 16-bit value two little-endian bytes spell.
pub open spec fn spec_u16_from_le(b0: u8, b1: u8) -> u16 {
    (b0 as u16) | ((b1 as u16) << 8)
}

/// The encoding of an outbound message: one opcode byte, then the payload.
/// `Login` separates the two UTF-8 texts with a single zero byte.
pub open spec fn spec_to_raw(m: OutV) -> Seq<u8> {
    match m {
        OutV::Login(id, name, class) => seq![1u8, id] + encode_utf8(name) + seq![0u8]
            + encode_utf8(class),
        OutV::Disconnected(id) => seq![2u8, id],
        OutV::Chat(text) => seq![3u8] + encode_utf8(text),
        OutV::SetPosition(x, y) => seq![4u8] + spec_u16_le(x) + spec_u16_le(y),
        OutV::GetInfo(udp, tickRate, checkpoint, playersCount) => seq![5u8] + spec_u16_le(udp)
            + seq![tickRate, playersCount] + encode_utf8(checkpoint),
    }
}

/// Appends a byte slice to a buffer.
pub(crate) fn push_bytes(dst: &mut Vec<u8>, src: &[u8])
    ensures
        final(dst)@ == old(dst)@ + src@,
{
    let mut i: usize = 0;
    proof {
        assert(dst@ =~= old(dst)@ + src@.take(0));
    }
    while i < src.len()
        invariant
            i <= src@.len(),
            dst@ == old(dst)@ + src@.take(i as int),
        decreases src@.len() - i,
    {
        dst.push(src[i]);
        proof {
            assert(old(dst)@ + src@.take(i as int) + seq![src@[i as int]] =~= old(dst)@
                + src@.take(i + 1));
        }
        i = i + 1;
    }
    proof {
        assert(src@.take(src@.len() as int) =~= src@);
    }
}

/// Appends a 16-bit value as two little-endian bytes.
fn push_u16_le(dst: &mut Vec<u8>, x: u16)
    ensures
        final(dst)@ == old(dst)@ + spec_u16_le(x),
{
    proof {
        assert(x & 0xff < 256 && (x >> 8) & 0xff < 256 && x >> 8 == (x >> 8) & 0xff)
            by (bit_vector);
    }
    dst.push((x & 0xff) as u8);
    dst.push((x >> 8) as u8);
    proof {
        assert(old(dst)@.push((x & 0xff) as u8).push(((x >> 8) & 0xff) as u8) =~= old(dst)@
            + spec_u16_le(x));
    }
}

impl ClientMessage {
    /// Encodes the message for the control channel.
    pub fn toRaw(self) -> (r: Vec<u8>)
        ensures
            r@ == spec_to_raw(self@),
    {
        let mut out: Vec<u8> = Vec::new();
        match self {
            ClientMessage::Login(id, name, class) => {
                out.push(1);
                out.push(id);
                push_bytes(&mut out, name.as_str().as_bytes());
                out.push(0);
                push_bytes(&mut out, class.as_str().as_bytes());
                proof {
                    assert(out@ =~= spec_to_raw(OutV::Login(id, name@, class@)));
                }
            },
            ClientMessage::Disconnected(id) => {
                out.push(2);
                out.push(id);
                proof {
                    assert(out@ =~= spec_to_raw(OutV::Disconnected(id)));
                }
            },
            ClientMessage::Chat(text) => {
                out.push(3);
                push_bytes(&mut out, text.as_str().as_bytes());
                proof {
                    assert(out@ =~= spec_to_raw(OutV::Chat(text@)));
                }
            },
            ClientMessage::SetPosition(x, y) => {
                out.push(4);
                push_u16_le(&mut out, x);
                push_u16_le(&mut out, y);
                proof {
                    assert(out@ =~= spec_to_raw(OutV::SetPosition(x, y)));
                }
            },
            ClientMessage::GetInfo(udp, tickRate, checkpoint, playersCount) => {
                out.push(5);
                push_u16_le(&mut out, udp);
                out.push(tickRate);
                out.push(playersCount);
                push_bytes(&mut out, checkpoint.as_str().as_bytes());
                proof {
                    assert(out@ =~= spec_to_raw(
                        OutV::GetInfo(udp, tickRate, checkpoint@, playersCount),
                    ));
                }
            },
        }
        out
    }
}

/// The request codes of the older single-shot protocol; kept so that
/// clients that still speak it can be told apart from noise.
pub enum Request {
    NewPlayer,
    Disconnected,
    CharSelected,
    PlayersList,
    Chat,
    Ready,
    Update,
    Invalid,
}

impl Request {
    /// Whether a raw code is one this server ever acts on: the five request
    /// codes of the older single-shot protocol, or its explicit invalid
    /// marker.
    pub fn isValid(code: u8) -> (r: bool)
        ensures
            r == (code <= 4 || code == 255),
    {
        code == 255u8 || code <= 4u8
    }
}

/// Encoding distributes over concatenation of character sequences.
pub proof fn lemma_encode_utf8_concat(a: Seq<char>, b: Seq<char>)
    ensures
        encode_utf8(a + b) == encode_utf8(a) + encode_utf8(b),
    decreases a.len(),
{
    if a.len() == 0 {
        assert(a + b =~= b);
        assert(encode_utf8(a) =~= Seq::<u8>::empty());
        assert(encode_utf8(a) + encode_utf8(b) =~= encode_utf8(b));
    } else {
        assert((a + b)[0] == a[0]);
        assert((a + b).drop_first() =~= a.drop_first() + b);
        lemma_encode_utf8_concat(a.drop_first(), b);
        assert(encode_utf8(a + b) =~= encode_utf8(a) + encode_utf8(b));
    }
}

/// Round trip of a `Login`: its encoding starts with the `Register` opcode,
/// its payload is valid UTF-8, and decoding that payload recovers the slot id
/// as one character, the name, the separator and the class — so `fromRaw` on
/// the encoding yields exactly those fields. Holds whenever the id byte is
/// itself a valid one-byte encoding.
pub proof fn lemma_login_round_trip(id: u8, name: Seq<char>, class: Seq<char>)
    requires
        id < 128,
    ensures
        spec_to_raw(OutV::Login(id, name, class))[0] == 1,
        valid_utf8(spec_to_raw(OutV::Login(id, name, class)).skip(1)),
        decode_utf8(spec_to_raw(OutV::Login(id, name, class)).skip(1)) == seq![id as char] + name
            + seq![0 as char] + class,
{
    let chars = seq![id as char] + name + seq![0 as char] + class;
    let payload = spec_to_raw(OutV::Login(id, name, class)).skip(1);
    assert(encode_utf8(seq![id as char]) =~= seq![id]) by {
        vstd::utf8::is_ascii_chars_encode_utf8(seq![id as char]);
    }
    assert(encode_utf8(seq![0 as char]) =~= seq![0u8]) by {
        vstd::utf8::is_ascii_chars_encode_utf8(seq![0 as char]);
    }
    lemma_encode_utf8_concat(seq![id as char], name);
    lemma_encode_utf8_concat(seq![id as char] + name, seq![0 as char]);
    lemma_encode_utf8_concat(seq![id as char] + name + seq![0 as char], class);
    assert(payload =~= encode_utf8(chars));
    vstd::utf8::encode_utf8_valid_utf8(chars);
    vstd::utf8::encode_utf8_decode_utf8(chars);
    assert(spec_to_raw(OutV::Login(id, name, class))[0] == 1);
}

} // verus!
