//! The server context and its per-tick phases: slot allocation on accept,
//! classification of control-channel reads, state-channel demultiplexing,
//! request dispatch, the control-channel flush, and the state broadcast.
//!
//! All socket, file and clock work stays with the caller; each phase here is
//! a plain function from values to values and the effects it cannot perform
//! itself come back as data.

use crate::config::{
    spec_get_permission, spec_rank, Config, ConfigV, Permission,
};
use crate::protocol::{ClientMessage, Endpoint, MsgV, OutV, ServerMessage, spec_to_raw};
use crate::session::{Client, SlotV};
use crate::state::{State, StateV};
use crate::text::lower_of;
use vstd::prelude::*;

verus! {

/// The view of the server: everything the dispatch of one tick may read or
/// write, over plain mathematical values.
#[verifier::ext_equal]
pub struct ServerV {
    pub slots: Seq<SlotV>,
    pub records: Seq<Seq<u8>>,
    pub broadcast: Seq<OutV>,
    pub config: ConfigV,
    pub state: StateV,
}

/// The root object: the session table, the per-slot state records, the two
/// tick-scoped queues, the configuration and the world state.
pub struct Server {
    pub clients: Vec<Client>,
    pub playersState: Vec<Vec<u8>>,
    pub requests: Vec<(u8, ServerMessage)>,
    pub broadcast: Vec<ClientMessage>,
    pub config: Config,
    pub state: State,
}

impl View for Server {
    type V = ServerV;

    open spec fn view(&self) -> ServerV {
        ServerV {
            slots: self.clients@.map_values(|c: Client| c@),
            records: self.playersState@.map_values(|r: Vec<u8>| r@),
            broadcast: self.broadcast@.map_values(|m: ClientMessage| m@),
            config: self.config@,
            state: self.state@,
        }
    }
}

/// Well-formedness of a server view: one record per slot, records are nine
/// bytes, a slot is empty or carries the id its position dictates, and the
/// table is small enough for ids to fit a byte.
pub open spec fn wf_server(s: ServerV) -> bool {
    &&& s.records.len() == s.slots.len()
    &&& s.slots.len() <= 255
    &&& forall|i: int|
        0 <= i < s.slots.len() ==> (#[trigger] s.slots[i]).id == 0 || s.slots[i].id as int == i + 1
    &&& forall|i: int| 0 <= i < s.records.len() ==> (#[trigger] s.records[i]).len() == 9
}

impl Server {
    /// Well-formedness, as a predicate on the server itself.
    pub open spec fn wf(&self) -> bool {
        wf_server(self@)
    }

    /// The pending requests, as origin/view pairs.
    pub open spec fn reqsv(&self) -> Seq<(u8, MsgV)> {
        self.requests@.map_values(|r: (u8, ServerMessage)| (r.0, r.1@))
    }

    /// Builds the context around a loaded configuration and world state: a
    /// table of `maxPlayersCount` empty slots, zeroed records, empty queues.
    #[verifier::loop_isolation(false)]
    pub fn init(config: Config, state: State) -> (r: Server)
        ensures
            r.wf(),
            r@.slots.len() == config.maxPlayersCount as int,
            forall|i: int| 0 <= i < r@.slots.len() ==> #[trigger] r@.slots[i] == SlotV::empty(),
            forall|i: int|
                0 <= i < r@.records.len() ==> #[trigger] r@.records[i] =~= Seq::new(9, |k| 0u8),
            r@.broadcast.len() == 0,
            r.reqsv().len() == 0,
            r@.config == config@,
            r@.state == state@,
    {
        let capacity: usize = config.maxPlayersCount as usize;
        let mut clients: Vec<Client> = Vec::new();
        let mut playersState: Vec<Vec<u8>> = Vec::new();
        let mut i: usize = 0;
        while i < capacity
            invariant
                i <= capacity,
                clients@.len() == i,
                playersState@.len() == i,
                forall|k: int| 0 <= k < i ==> #[trigger] clients@[k]@ == SlotV::empty(),
                forall|k: int| 0 <= k < i ==> (#[trigger] playersState@[k])@ =~= Seq::new(9, |j| 0u8),
            decreases capacity - i,
        {
            clients.push(Client::default());
            let mut rec: Vec<u8> = Vec::new();
            let mut k: usize = 0;
            while k < 9
                invariant
                    k <= 9,
                    rec@.len() == k,
                    forall|j: int| 0 <= j < k ==> rec@[j] == 0u8,
                decreases 9 - k,
            {
                rec.push(0);
                k = k + 1;
            }
            proof {
                assert(rec@ =~= Seq::new(9, |j| 0u8));
            }
            playersState.push(rec);
            i = i + 1;
        }
        let r = Server {
            clients,
            playersState,
            requests: Vec::new(),
            broadcast: Vec::new(),
            config,
            state,
        };
        r
    }

    /// The id the next accepted connection would get: the lowest-index empty
    /// slot's one-based id, or the zero sentinel when the table is full.
    #[verifier::loop_isolation(false)]
    pub fn getAvailablePlayerID(&self) -> (r: u8)
        requires
            self.wf(),
        ensures
            r != 0 ==> 1 <= r as int <= self@.slots.len() && self@.slots[r as int - 1].id == 0
                && (forall|k: int| 0 <= k < r as int - 1 ==> (#[trigger] self@.slots[k]).id != 0),
            r == 0 ==> forall|k: int|
                0 <= k < self@.slots.len() ==> (#[trigger] self@.slots[k]).id != 0,
    {
        let mut i: usize = 0;
        while i < self.clients.len()
            invariant
                i <= self@.slots.len(),
                forall|k: int| 0 <= k < i ==> (#[trigger] self@.slots[k]).id != 0,
            decreases self@.slots.len() - i,
        {
            if self.clients[i].id == 0 {
                return (i + 1) as u8;
            }
            i = i + 1;
        }
        0
    }

    /// The id of the first slot whose name matches, case-insensitively,
    /// starting at position `i`; zero when none does.
    pub open spec fn spec_player_id_from(slots: Seq<SlotV>, name: Seq<char>, i: int) -> u8
        decreases slots.len() - i,
    {
        if i < 0 || i >= slots.len() {
            0
        } else if lower_of(slots[i].name) == lower_of(name) {
            (i + 1) as u8
        } else {
            Self::spec_player_id_from(slots, name, i + 1)
        }
    }

    /// The id of the first slot whose name matches, case-insensitively.
    pub open spec fn spec_player_id(slots: Seq<SlotV>, name: Seq<char>) -> u8 {
        Self::spec_player_id_from(slots, name, 0)
    }

    /// Finds a player by display name, case-insensitively; empty slots have
    /// the empty name and can be found by it.
    #[verifier::loop_isolation(false)]
    pub fn getPlayerID(&self, name: &str) -> (r: u8)
        requires
            self.wf(),
        ensures
            r == Self::spec_player_id(self@.slots, name@),
    {
        let target = crate::text::lowercase(name);
        let mut i: usize = 0;
        while i < self.clients.len()
            invariant
                i <= self@.slots.len(),
                Self::spec_player_id_from(self@.slots, name@, 0) == Self::spec_player_id_from(
                    self@.slots,
                    name@,
                    i as int,
                ),
            decreases self@.slots.len() - i,
        {
            let lowered = crate::text::lowercase(self.clients[i].name.as_str());
            if lowered == target {
                return (i + 1) as u8;
            }
            i = i + 1;
        }
        0
    }

    /// Admits one accepted connection: allocates the lowest free slot, loads
    /// the peer's stored identity, and yields the slot id with the `Login`
    /// bytes to send on that one connection. Yields nothing, and changes
    /// nothing, when the table is full — the caller then drops the raw
    /// connection with no protocol bytes exchanged.
    pub fn admitConnection(&mut self, ip: u128) -> (r: Option<(u8, Vec<u8>)>)
        requires
            old(self).wf(),
        ensures
            final(self).wf(),
            final(self).reqsv() == old(self).reqsv(),
            match r {
                None => final(self)@ == old(self)@ && (forall|k: int|
                    0 <= k < old(self)@.slots.len() ==> (#[trigger] old(self)@.slots[k]).id != 0),
                Some((id, bytes)) => {
                    let looked = crate::state::spec_player_lookup(old(self)@.state.players, ip);
                    let slot = SlotV {
                        id,
                        ip,
                        name: looked.0,
                        class: looked.1,
                        udp: None,
                    };
                    &&& 1 <= id as int <= old(self)@.slots.len()
                    &&& old(self)@.slots[id as int - 1].id == 0
                    &&& forall|k: int|
                        0 <= k < id as int - 1 ==> (#[trigger] old(self)@.slots[k]).id != 0
                    &&& final(self)@ == (ServerV {
                        slots: old(self)@.slots.update(id as int - 1, slot),
                        ..old(self)@
                    })
                    &&& bytes@ == spec_to_raw(OutV::Login(id, looked.0, looked.1))
                },
            },
    {
        let id = self.getAvailablePlayerID();
        if id == 0 {
            return None;
        }
        let (name, class) = self.state.getPlayerInfo(ip);
        let login = ClientMessage::Login(id, name.clone(), class.clone());
        let bytes = login.toRaw();
        let idx = (id - 1) as usize;
        self.clients[idx] = Client::connect(id, ip, name, class);
        proof {
            assert(self@.slots =~= old(self)@.slots.update(
                id as int - 1,
                self@.slots[id as int - 1],
            ));
            assert(self@ =~= (ServerV {
                slots: old(self)@.slots.update(id as int - 1, self@.slots[id as int - 1]),
                ..old(self)@
            }));
        }
        Some((id, bytes))
    }

    /// Queues one inbound message under its origin: slot ids for sessions,
    /// zero for the bridging collaborator.
    pub fn pushRequest(&mut self, origin: u8, msg: ServerMessage)
        ensures
            final(self)@ == old(self)@,
            final(self).reqsv() == old(self).reqsv().push((origin, msg@)),
            final(self).wf() == old(self).wf(),
    {
        let ghost m: MsgV = msg@;
        self.requests.push((origin, msg));
        proof {
            assert(final(self).reqsv() =~= old(self).reqsv().push((origin, m)));
            assert(final(self)@ =~= old(self)@);
        }
    }
    /// Classifies the outcome of one non-blocking control-channel read and
    /// queues what it means: a zero-length read, a closed stream or a fatal
    /// error all mean the session disconnected; data is decoded. A read that
    /// would block produces no event and is not given to this function.
    pub fn onControlRead(&mut self, slot: u8, event: ReadEvent)
        ensures
            final(self)@ == old(self)@,
            final(self).wf() == old(self).wf(),
            match event {
                ReadEvent::Data(d) => if d@.len() == 0 {
                    final(self).reqsv() == old(self).reqsv().push((slot, MsgV::Disconnected))
                } else {
                    final(self).reqsv() == old(self).reqsv().push(
                        (slot, crate::protocol::spec_from_raw(d@)),
                    )
                },
                ReadEvent::Closed => final(self).reqsv() == old(self).reqsv().push(
                    (slot, MsgV::Disconnected),
                ),
                ReadEvent::Fatal => final(self).reqsv() == old(self).reqsv().push(
                    (slot, MsgV::Disconnected),
                ),
            },
    {
        match event {
            ReadEvent::Data(d) => {
                if d.len() == 0 {
                    self.pushRequest(slot, ServerMessage::Disconnected);
                } else {
                    let msg = ServerMessage::fromRaw(d.as_slice());
                    self.pushRequest(slot, msg);
                }
            },
            ReadEvent::Closed => {
                self.pushRequest(slot, ServerMessage::Disconnected);
            },
            ReadEvent::Fatal => {
                self.pushRequest(slot, ServerMessage::Disconnected);
            },
        }
    }

    /// Applies one state-channel datagram. A datagram of any length other
    /// than nine bytes, or addressing the zero slot or one beyond the table,
    /// changes nothing. A valid one overwrites its slot's record and, when
    /// the slot has no learned return address yet, binds it to the packet's
    /// source.
    pub fn handleDatagram(&mut self, data: &[u8], source: Endpoint)
        requires
            old(self).wf(),
        ensures
            final(self).wf(),
            final(self).reqsv() == old(self).reqsv(),
            ({
                let id = (data@[0] & 7) as int;
                if data@.len() != 9 || id == 0 || id > old(self)@.slots.len() {
                    final(self)@ == old(self)@
                } else {
                    let slot = old(self)@.slots[id - 1];
                    final(self)@ == (ServerV {
                        records: old(self)@.records.update(id - 1, data@),
                        slots: old(self)@.slots.update(
                            id - 1,
                            SlotV {
                                udp: if slot.udp is None {
                                    Some(source)
                                } else {
                                    slot.udp
                                },
                                ..slot
                            },
                        ),
                        ..old(self)@
                    })
                }
            }),
    {
        if data.len() != 9 {
            return;
        }
        let id: u8 = data[0] & 7;
        if id == 0 {
            return;
        }
        let idx = (id - 1) as usize;
        if idx >= self.clients.len() {
            return;
        }
        self.playersState[idx] = vstd::slice::slice_to_vec(data);
        if self.clients[idx].udp.is_none() {
            self.clients[idx].udp = Some(source);
        }
        proof {
            assert(self@.records =~= old(self)@.records.update(idx as int, data@));
            assert(self@.slots =~= old(self)@.slots.update(idx as int, self@.slots[idx as int]));
            assert(self@ =~= (ServerV {
                records: old(self)@.records.update(idx as int, data@),
                slots: old(self)@.slots.update(idx as int, self@.slots[idx as int]),
                ..old(self)@
            }));
        }
    }

    /// Drains the outbound queue, in order, into encoded messages; the caller
    /// writes each one to every active session's control channel.
    #[verifier::loop_isolation(false)]
    pub fn broadcastTCP(&mut self) -> (r: Vec<Vec<u8>>)
        ensures
            r@.len() == old(self)@.broadcast.len(),
            forall|k: int|
                0 <= k < r@.len() ==> (#[trigger] r@[k])@ == spec_to_raw(old(self)@.broadcast[k]),
            final(self)@ == (ServerV { broadcast: Seq::empty(), ..old(self)@ }),
            final(self).reqsv() == old(self).reqsv(),
            final(self).wf() == old(self).wf(),
    {
        let mut out: Vec<Vec<u8>> = Vec::new();
        while self.broadcast.len() > 0
            invariant
                out@.len() + self@.broadcast.len() == old(self)@.broadcast.len(),
                self@.broadcast =~= old(self)@.broadcast.skip(out@.len() as int),
                forall|k: int|
                    0 <= k < out@.len() ==> (#[trigger] out@[k])@ == spec_to_raw(
                        old(self)@.broadcast[k],
                    ),
                self.clients == old(self).clients,
                self.playersState == old(self).playersState,
                self.requests == old(self).requests,
                self.config == old(self).config,
                self.state == old(self).state,
            decreases self@.broadcast.len(),
        {
            let ghost done = out@.len() as int;
            let ghost pre = self@.broadcast;
            let msg = self.broadcast.remove(0);
            proof {
                assert(pre[0] == old(self)@.broadcast[done]);
                assert(msg@ == pre[0]);
                assert(self@.broadcast =~= pre.drop_first());
                assert(pre.drop_first() =~= old(self)@.broadcast.skip(done + 1));
            }
            let bytes = msg.toRaw();
            out.push(bytes);
        }
        proof {
            assert(final(self)@ =~= (ServerV { broadcast: Seq::empty(), ..old(self)@ }));
        }
        out
    }

    /// Whether slot `j`'s record belongs in the packet built for slot `i`:
    /// only another, active, address-known slot contributes.
    pub open spec fn spec_include(s: ServerV, i: int, j: int) -> bool {
        s.slots[j].id != 0 && s.slots[j].udp is Some && j != i
    }

    /// The packet payload for slot `i`: the records of the contributing
    /// slots, in ascending slot order, starting at position `j`.
    pub open spec fn spec_payload_from(s: ServerV, i: int, j: int) -> Seq<u8>
        decreases s.slots.len() - j,
    {
        if j < 0 || j >= s.slots.len() {
            Seq::empty()
        } else {
            (if Self::spec_include(s, i, j) {
                s.records[j]
            } else {
                Seq::empty()
            }) + Self::spec_payload_from(s, i, j + 1)
        }
    }

    /// The datagrams one broadcast phase sends, from slot position `i` on:
    /// one per active, address-known slot, addressed to its learned return
    /// address, holding every other contributing slot's record; a slot whose
    /// packet would be empty is skipped.
    pub open spec fn spec_packets_from(s: ServerV, i: int) -> Seq<(Endpoint, Seq<u8>)>
        decreases s.slots.len() - i,
    {
        if i < 0 || i >= s.slots.len() {
            Seq::empty()
        } else {
            let rest = Self::spec_packets_from(s, i + 1);
            if s.slots[i].id != 0 && s.slots[i].udp is Some && Self::spec_payload_from(
                s,
                i,
                0,
            ).len() > 0 {
                seq![(s.slots[i].udp->0, Self::spec_payload_from(s, i, 0))] + rest
            } else {
                rest
            }
        }
    }

    /// Builds the broadcast-phase datagrams: for each active slot with a
    /// learned address, the concatenation of every other active,
    /// address-known slot's current record — never the receiver's own record,
    /// never a record of a slot without a learned address. The caller sends
    /// each payload to its endpoint over the state channel.
    #[verifier::loop_isolation(false)]
    pub fn broadcastState(&self) -> (r: Vec<(Endpoint, Vec<u8>)>)
        requires
            self.wf(),
        ensures
            r@.map_values(|p: (Endpoint, Vec<u8>)| (p.0, p.1@)) == Self::spec_packets_from(
                self@,
                0,
            ),
    {
        let mut out: Vec<(Endpoint, Vec<u8>)> = Vec::new();
        let mut i: usize = 0;
        proof {
            assert(out@.map_values(|p: (Endpoint, Vec<u8>)| (p.0, p.1@)) + Self::spec_packets_from(
                self@,
                0,
            ) =~= Self::spec_packets_from(self@, 0));
        }
        while i < self.clients.len()
            invariant
                i <= self@.slots.len(),
                Self::spec_packets_from(self@, 0) == out@.map_values(
                    |p: (Endpoint, Vec<u8>)| (p.0, p.1@),
                ) + Self::spec_packets_from(self@, i as int),
            decreases self@.slots.len() - i,
        {
            let ghost done = out@.map_values(|p: (Endpoint, Vec<u8>)| (p.0, p.1@));
            if self.clients[i].id != 0 {
                if let Some(addr) = self.clients[i].udp {
                    let mut payload: Vec<u8> = Vec::new();
                    let mut j: usize = 0;
                    while j < self.clients.len()
                        invariant
                            j <= self@.slots.len(),
                            Self::spec_payload_from(self@, i as int, 0) == payload@
                                + Self::spec_payload_from(self@, i as int, j as int),
                        decreases self@.slots.len() - j,
                    {
                        if self.clients[j].id != 0 && self.clients[j].udp.is_some() && j != i {
                            crate::protocol::push_bytes(
                                &mut payload,
                                self.playersState[j].as_slice(),
                            );
                        }
                        j = j + 1;
                    }
                    if payload.len() > 0 {
                        out.push((addr, payload));
                        proof {
                            assert(out@.map_values(|p: (Endpoint, Vec<u8>)| (p.0, p.1@)) =~= done
                                + seq![
                                (self@.slots[i as int].udp->0, Self::spec_payload_from(self@, i as int, 0)),
                            ]);
                        }
                    }
                }
            }
            i = i + 1;
        }
        out
    }
}

/// The view of a reply handed to the bridging collaborator.
#[verifier::ext_equal]
pub enum ReplyV {
    Error,
    ChatEcho(Seq<char>),
    CmdEcho(Seq<char>),
    Roster(Seq<(u8, Seq<char>, Seq<char>)>),
    History(Seq<(Seq<char>, Seq<char>)>),
    Info(Seq<char>, Seq<char>),
    ChatLen(usize),
    Settings(u8, u16, u8, Seq<(Seq<char>, Permission)>),
    Ack,
}

/// A structured reply for the bridging collaborator; the caller renders it
/// in whatever wire shape its clients expect.
pub enum WebReply {
    /// The request was invalid or unknown.
    Error,
    /// Echo of a chat line, as broadcast.
    ChatEcho(String),
    /// Echo of an issued command.
    CmdEcho(String),
    /// The roster of active slots: id, class, name.
    Roster(Vec<(u8, String, String)>),
    /// Chat history entries, as the `ChatHistory` request orders them.
    History(Vec<(String, String)>),
    /// The last saved checkpoint label and save date.
    Info(String, String),
    /// The chat history length.
    ChatLen(usize),
    /// Current tunables and the permission table.
    Settings(u8, u16, u8, Vec<(String, Permission)>),
    /// A plain acknowledgement.
    Ack,
}

impl View for WebReply {
    type V = ReplyV;

    open spec fn view(&self) -> ReplyV {
        match self {
            WebReply::Error => ReplyV::Error,
            WebReply::ChatEcho(t) => ReplyV::ChatEcho(t@),
            WebReply::CmdEcho(t) => ReplyV::CmdEcho(t@),
            WebReply::Roster(v) => ReplyV::Roster(
                v@.map_values(|e: (u8, String, String)| (e.0, e.1@, e.2@)),
            ),
            WebReply::History(v) => ReplyV::History(
                v@.map_values(|e: (String, String)| (e.0@, e.1@)),
            ),
            WebReply::Info(c, d) => ReplyV::Info(c@, d@),
            WebReply::ChatLen(n) => ReplyV::ChatLen(*n),
            WebReply::Settings(m, p, t, perms) => ReplyV::Settings(
                *m,
                *p,
                *t,
                perms@.map_values(|e: (String, Permission)| (e.0@, e.1)),
            ),
            WebReply::Ack => ReplyV::Ack,
        }
    }
}

/// The view of one dispatch effect.
#[verifier::ext_equal]
pub enum EffectV {
    Reply(Endpoint, ReplyV),
    SendTo(u8, OutV),
    Save(Seq<char>),
}

/// One effect the dispatch phase asks its caller to perform: deliver a reply
/// to a bridging sink, send a control message to one session, or persist the
/// configuration and world state under a checkpoint label.
pub enum ServerEffect {
    Reply(Endpoint, WebReply),
    SendTo(u8, ClientMessage),
    Save(String),
}

impl View for ServerEffect {
    type V = EffectV;

    open spec fn view(&self) -> EffectV {
        match self {
            ServerEffect::Reply(w, r) => EffectV::Reply(*w, r@),
            ServerEffect::SendTo(id, m) => EffectV::SendTo(*id, m@),
            ServerEffect::Save(c) => EffectV::Save(c@),
        }
    }
}

/// The views of a list of effects.
pub open spec fn effsv(v: Seq<ServerEffect>) -> Seq<EffectV> {
    v.map_values(|e: ServerEffect| e@)
}

/// A matching position never lies outside the table.
pub proof fn lemma_player_id_bounds(slots: Seq<SlotV>, name: Seq<char>, i: int)
    requires
        0 <= i,
        slots.len() <= 255,
    ensures
        0 <= Server::spec_player_id_from(slots, name, i) as int <= slots.len(),
    decreases slots.len() - i,
{
    if i < slots.len() && lower_of(slots[i].name) != lower_of(name) {
        lemma_player_id_bounds(slots, name, i + 1);
    }
}

/// The display name of a command's or chat line's author: the bridging
/// collaborator's fixed name for origin zero, the slot's name otherwise.
pub open spec fn spec_author(s: ServerV, origin: u8) -> Seq<char> {
    if origin == 0 {
        "WebClient"@
    } else {
        s.slots[origin as int - 1].name
    }
}

/// What one chat-prefixed command does. The caller's permission gates the
/// two admin commands; an unknown first token, a denied command or a
/// malformed coordinate changes nothing. `txt` is the text after the slash,
/// `now` the clock reading used by `gettime`.
pub open spec fn spec_cmd(s: ServerV, origin: u8, w: Endpoint, txt: Seq<char>, now: u64) -> (
    ServerV,
    Seq<EffectV>,
) {
    let lowered = lower_of(txt);
    let echo: Seq<EffectV> = if origin == 0 {
        seq![EffectV::Reply(w, ReplyV::CmdEcho(lowered))]
    } else {
        Seq::empty()
    };
    let name = spec_author(s, origin);
    let p = spec_get_permission(s.config.permissions, name);
    let tokens = crate::text::spec_split(lowered, ' ');
    let c = tokens[0];
    if c == "getposition"@ && spec_rank(p) >= spec_rank(Permission::Admin) {
        let n = if tokens.len() >= 2 {
            tokens[1]
        } else {
            name
        };
        let id = Server::spec_player_id(s.slots, n) as int;
        let pos = if id == 0 {
            "not found"@
        } else {
            let rec = s.records[id - 1];
            crate::text::spec_udec(
                crate::protocol::spec_u16_from_le(rec[1], rec[2]) as int,
            ) + " "@ + crate::text::spec_udec(
                crate::protocol::spec_u16_from_le(rec[3], rec[4]) as int,
            )
        };
        let msg = "[Player "@ + name + " requested position of "@ + n + "] "@ + pos;
        let s1 = ServerV {
            broadcast: s.broadcast.push(OutV::Chat(msg)),
            state: StateV { chatHistory: s.state.chatHistory.push((name, msg)), ..s.state },
            ..s
        };
        (s1, echo)
    } else if c == "setposition"@ && spec_rank(p) >= spec_rank(Permission::Admin) {
        let n = if tokens.len() >= 2 {
            tokens[1]
        } else {
            name
        };
        let id = Server::spec_player_id(s.slots, n) as int;
        if id == 0 {
            let msg = "[Player "@ + n + " not moved: not found]"@;
            let s1 = ServerV {
                state: StateV { chatHistory: s.state.chatHistory.push((name, msg)), ..s.state },
                ..s
            };
            (s1, echo)
        } else {
            let xs = if tokens.len() >= 3 {
                tokens[2]
            } else {
                "0"@
            };
            let ys = if tokens.len() >= 4 {
                tokens[3]
            } else {
                "0"@
            };
            match (crate::text::spec_parse_u16(xs), crate::text::spec_parse_u16(ys)) {
                (Some(x), Some(y)) => {
                    let msg = "[Player "@ + n + " moved to ("@ + crate::text::spec_udec(x as int)
                        + ";"@ + crate::text::spec_udec(y as int) + ")]"@;
                    let s1 = ServerV {
                        state: StateV {
                            chatHistory: s.state.chatHistory.push((name, msg)),
                            ..s.state
                        },
                        ..s
                    };
                    (s1, echo + seq![EffectV::SendTo(id as u8, OutV::SetPosition(x, y))])
                },
                _ => (s, echo),
            }
        }
    } else if c == "gettime"@ {
        let msg = "Current server time: "@ + crate::state::spec_date_time(now as int);
        let s1 = ServerV {
            state: StateV { chatHistory: s.state.chatHistory.push((name, msg)), ..s.state },
            ..s
        };
        (s1, echo)
    } else {
        (s, echo)
    }
}

/// The packet built for slot `i` never draws on the receiver's own record,
/// nor on the record of an empty or address-unknown slot: replacing such a
/// record leaves the packet unchanged.
pub proof fn lemma_broadcast_ignores_excluded_record(s1: ServerV, s2: ServerV, i: int, k: int)
    requires
        s1.slots == s2.slots,
        s1.records.len() == s1.slots.len(),
        s1.records.len() == s2.records.len(),
        forall|m: int| 0 <= m < s1.records.len() && m != k ==> s1.records[m] == s2.records[m],
        !Server::spec_include(s1, i, k),
    ensures
        Server::spec_payload_from(s1, i, 0) == Server::spec_payload_from(s2, i, 0),
{
    lemma_payload_from_agrees(s1, s2, i, k, 0);
}

/// The induction behind `lemma_broadcast_ignores_excluded_record`, walking
/// the table from position `j`.
proof fn lemma_payload_from_agrees(s1: ServerV, s2: ServerV, i: int, k: int, j: int)
    requires
        s1.slots == s2.slots,
        s1.records.len() == s1.slots.len(),
        s1.records.len() == s2.records.len(),
        forall|m: int| 0 <= m < s1.records.len() && m != k ==> s1.records[m] == s2.records[m],
        !Server::spec_include(s1, i, k),
    ensures
        Server::spec_payload_from(s1, i, j) == Server::spec_payload_from(s2, i, j),
    decreases s1.slots.len() - j,
{
    if 0 <= j && j < s1.slots.len() {
        lemma_payload_from_agrees(s1, s2, i, k, j + 1);
    }
}

impl Server {
    /// Runs one chat-prefixed command on behalf of a caller: permission
    /// lookup, case-insensitive command selection, and the mutations and
    /// effects `spec_cmd` states. The text is the chat line after the slash.
    #[verifier::loop_isolation(false)]
    #[verifier::rlimit(100)]
    pub fn cmd(&mut self, executor: u8, webID: Endpoint, txt: String, now: u64) -> (r: Vec<
        ServerEffect,
    >)
        requires
            old(self).wf(),
            executor == 0 || 1 <= executor as int <= old(self)@.slots.len(),
        ensures
            final(self).wf(),
            final(self).reqsv() == old(self).reqsv(),
            final(self)@ == spec_cmd(old(self)@, executor, webID, txt@, now).0,
            effsv(r@) == spec_cmd(old(self)@, executor, webID, txt@, now).1,
    {
        let ghost spec_result = spec_cmd(old(self)@, executor, webID, txt@, now);
        let lowered = crate::text::lowercase(txt.as_str());
        let mut out: Vec<ServerEffect> = Vec::new();
        if executor == 0 {
            out.push(ServerEffect::Reply(webID, WebReply::CmdEcho(lowered.clone())));
        }
        proof {
            if executor == 0 {
                assert(effsv(out@) =~= seq![
                    EffectV::Reply(webID, ReplyV::CmdEcho(lower_of(txt@))),
                ]);
            } else {
                assert(effsv(out@) =~= Seq::<EffectV>::empty());
            }
        }
        let name: String = if executor == 0 {
            proof {
                reveal_strlit("WebClient");
            }
            "WebClient".to_owned()
        } else {
            self.clients[(executor - 1) as usize].name.clone()
        };
        proof {
            assert(name@ == spec_author(self@, executor));
        }
        let p = self.config.getPermission(name.as_str());
        proof {
            crate::config::lemma_perm_lookup_view(self.config.permissions@, name@);
            assert(p == spec_get_permission(self@.config.permissions, name@));
        }
        let admin = p.check(Permission::Admin);
        let tokens = crate::text::split_char(lowered.as_str(), ' ');
        let ghost toks = crate::text::spec_split(lower_of(txt@), ' ');
        proof {
            assert(tokens@[0]@ == toks[0]);
        }
        if crate::text::str_eq(tokens[0].as_str(), "getposition") && admin {
            let n: String = if tokens.len() >= 2 {
                proof {
                    assert(tokens@[1]@ == toks[1]);
                }
                tokens[1].clone()
            } else {
                name.clone()
            };
            let id = self.getPlayerID(n.as_str());
            proof {
                lemma_player_id_bounds(self@.slots, n@, 0);
            }
            let pos: String = if id == 0 {
                proof {
                    reveal_strlit("not found");
                }
                "not found".to_owned()
            } else {
                let idx = (id - 1) as usize;
                proof {
                    assert(self@.records[idx as int].len() == 9);
                    assert(self.playersState@[idx as int]@ == self@.records[idx as int]);
                }
                let b1 = self.playersState[idx][1];
                let b2 = self.playersState[idx][2];
                let b3 = self.playersState[idx][3];
                let b4 = self.playersState[idx][4];
                let x: u16 = (b1 as u16) | ((b2 as u16) << 8);
                let y: u16 = (b3 as u16) | ((b4 as u16) << 8);
                let mut ptxt = crate::text::u64_to_dec(x as u64);
                ptxt.append(" ");
                ptxt.append(crate::text::u64_to_dec(y as u64).as_str());
                ptxt
            };
            let mut msg = "[Player ".to_owned();
            msg.append(name.as_str());
            msg.append(" requested position of ");
            msg.append(n.as_str());
            msg.append("] ");
            msg.append(pos.as_str());
            self.broadcast.push(ClientMessage::Chat(msg.clone()));
            self.state.chatHistory.push((name, msg));
            proof {
                assert(self@.broadcast =~= old(self)@.broadcast.push(spec_result.0.broadcast.last()));
                assert(self@.state.chatHistory =~= old(self)@.state.chatHistory.push(
                    spec_result.0.state.chatHistory.last(),
                ));
                assert(self@ =~= spec_result.0);
                assert(effsv(out@) =~= spec_result.1);
            }
            return out;
        }
        if crate::text::str_eq(tokens[0].as_str(), "setposition") && admin {
            let n: String = if tokens.len() >= 2 {
                proof {
                    assert(tokens@[1]@ == toks[1]);
                }
                tokens[1].clone()
            } else {
                name.clone()
            };
            let id = self.getPlayerID(n.as_str());
            proof {
                lemma_player_id_bounds(self@.slots, n@, 0);
            }
            if id == 0 {
                let mut msg = "[Player ".to_owned();
                msg.append(n.as_str());
                msg.append(" not moved: not found]");
                self.state.chatHistory.push((name, msg));
                proof {
                    assert(self@.state.chatHistory =~= old(self)@.state.chatHistory.push(
                        spec_result.0.state.chatHistory.last(),
                    ));
                    assert(self@ =~= spec_result.0);
                    assert(effsv(out@) =~= spec_result.1);
                }
                return out;
            }
            let xs: String = if tokens.len() >= 3 {
                proof {
                    assert(tokens@[2]@ == toks[2]);
                }
                tokens[2].clone()
            } else {
                proof {
                    reveal_strlit("0");
                }
                "0".to_owned()
            };
            let ys: String = if tokens.len() >= 4 {
                proof {
                    assert(tokens@[3]@ == toks[3]);
                }
                tokens[3].clone()
            } else {
                proof {
                    reveal_strlit("0");
                }
                "0".to_owned()
            };
            let xr = crate::text::parse_u16(xs.as_str());
            let yr = crate::text::parse_u16(ys.as_str());
            if let (Some(x), Some(y)) = (xr, yr) {
                let mut msg = "[Player ".to_owned();
                msg.append(n.as_str());
                msg.append(" moved to (");
                msg.append(crate::text::u64_to_dec(x as u64).as_str());
                msg.append(";");
                msg.append(crate::text::u64_to_dec(y as u64).as_str());
                msg.append(")]");
                self.state.chatHistory.push((name, msg));
                out.push(ServerEffect::SendTo(id, ClientMessage::SetPosition(x, y)));
                proof {
                    assert(self@.state.chatHistory =~= old(self)@.state.chatHistory.push(
                        spec_result.0.state.chatHistory.last(),
                    ));
                    assert(self@ =~= spec_result.0);
                    assert(effsv(out@) =~= spec_result.1);
                }
                return out;
            }
            proof {
                assert(self@ =~= spec_result.0);
                assert(effsv(out@) =~= spec_result.1);
            }
            return out;
        }
        if crate::text::str_eq(tokens[0].as_str(), "gettime") {
            let date = crate::state::formatDateTime(now);
            let mut msg = "Current server time: ".to_owned();
            msg.append(date.as_str());
            self.state.chatHistory.push((name, msg));
            proof {
                assert(self@.state.chatHistory =~= old(self)@.state.chatHistory.push(
                    spec_result.0.state.chatHistory.last(),
                ));
                assert(self@ =~= spec_result.0);
                assert(effsv(out@) =~= spec_result.1);
            }
            return out;
        }
        proof {
            assert(self@ =~= spec_result.0);
            assert(effsv(out@) =~= spec_result.1);
        }
        out
    }
}

impl Server {
    /// The roster of active slots, for the `PlayersList` reply.
    #[verifier::loop_isolation(false)]
    fn roster(&self) -> (r: Vec<(u8, String, String)>)
        ensures
            r@.map_values(|e: (u8, String, String)| (e.0, e.1@, e.2@)) == spec_roster_from(
                self@.slots,
                0,
            ),
    {
        let mut out: Vec<(u8, String, String)> = Vec::new();
        let mut i: usize = 0;
        proof {
            assert(out@.map_values(|e: (u8, String, String)| (e.0, e.1@, e.2@))
                + spec_roster_from(self@.slots, 0) =~= spec_roster_from(self@.slots, 0));
        }
        while i < self.clients.len()
            invariant
                i <= self@.slots.len(),
                spec_roster_from(self@.slots, 0) == out@.map_values(
                    |e: (u8, String, String)| (e.0, e.1@, e.2@),
                ) + spec_roster_from(self@.slots, i as int),
            decreases self@.slots.len() - i,
        {
            let ghost done = out@.map_values(|e: (u8, String, String)| (e.0, e.1@, e.2@));
            if self.clients[i].id != 0 {
                out.push(
                    (self.clients[i].id, self.clients[i].class.clone(), self.clients[i].name.clone()),
                );
                proof {
                    assert(out@.map_values(|e: (u8, String, String)| (e.0, e.1@, e.2@)) =~= done
                        + seq![
                        (self@.slots[i as int].id, self@.slots[i as int].class, self@.slots[i as int].name),
                    ]);
                }
            }
            i = i + 1;
        }
        out
    }

    /// The chat history entries a `ChatHistory` request reports: everything
    /// from `start` onward, newest first.
    #[verifier::loop_isolation(false)]
    fn history_slice(&self, start: usize) -> (r: Vec<(String, String)>)
        ensures
            r@.map_values(|e: (String, String)| (e.0@, e.1@)) == spec_history_slice(
                self@.state.chatHistory,
                start,
            ),
    {
        let len = self.state.chatHistory.len();
        let st: usize = if start > len {
            0
        } else {
            start
        };
        let count = len - st;
        let mut out: Vec<(String, String)> = Vec::new();
        let mut k: usize = 0;
        while k < count
            invariant
                0 <= k <= count,
                out@.len() == k,
                forall|j: int|
                    0 <= j < k ==> (#[trigger] out@[j]).0@ == self@.state.chatHistory[len - 1 - j].0
                        && out@[j].1@ == self@.state.chatHistory[len - 1 - j].1,
            decreases count - k,
        {
            let idx: usize = len - 1 - k;
            out.push(
                (self.state.chatHistory[idx].0.clone(), self.state.chatHistory[idx].1.clone()),
            );
            k = k + 1;
        }
        proof {
            assert(out@.map_values(|e: (String, String)| (e.0@, e.1@)) =~= spec_history_slice(
                self@.state.chatHistory,
                start,
            ));
        }
        out
    }

    /// A copy of the permission table, for the `GetSettings` reply.
    #[verifier::loop_isolation(false)]
    fn permissions_snapshot(&self) -> (r: Vec<(String, Permission)>)
        ensures
            r@.map_values(|e: (String, Permission)| (e.0@, e.1)) == self@.config.permissions,
    {
        let mut out: Vec<(String, Permission)> = Vec::new();
        let mut i: usize = 0;
        while i < self.config.permissions.len()
            invariant
                i <= self.config.permissions@.len(),
                out@.len() == i,
                forall|k: int|
                    0 <= k < i ==> (#[trigger] out@[k]).0@ == self@.config.permissions[k].0
                        && out@[k].1 == self@.config.permissions[k].1,
            decreases self.config.permissions@.len() - i,
        {
            out.push((self.config.permissions[i].0.clone(), self.config.permissions[i].1));
            i = i + 1;
        }
        proof {
            assert(out@.map_values(|e: (String, Permission)| (e.0@, e.1))
                =~= self@.config.permissions);
        }
        out
    }

    /// Dispatches one inbound message: the mutation and the effects that
    /// `spec_dispatch` states for it.
    #[verifier::loop_isolation(false)]
    #[verifier::rlimit(100)]
    pub fn dispatchOne(&mut self, origin: u8, msg: ServerMessage, now: u64) -> (r: Vec<
        ServerEffect,
    >)
        requires
            old(self).wf(),
        ensures
            final(self).wf(),
            final(self).reqsv() == old(self).reqsv(),
            final(self)@ == spec_dispatch(old(self)@, origin, msg@, now).0,
            effsv(r@) == spec_dispatch(old(self)@, origin, msg@, now).1,
    {
        let ghost expect = spec_dispatch(old(self)@, origin, msg@, now);
        let mut out: Vec<ServerEffect> = Vec::new();
        proof {
            assert(effsv(out@) =~= Seq::<EffectV>::empty());
        }
        match msg {
            ServerMessage::Invalid(w) => {
                if origin == 0 {
                    out.push(ServerEffect::Reply(w, WebReply::Error));
                    proof {
                        assert(effsv(out@) =~= seq![EffectV::Reply(w, ReplyV::Error)]);
                    }
                }
            },
            ServerMessage::Register(name) => {
                if origin >= 1 && (origin as usize) <= self.clients.len() {
                    let idx = (origin - 1) as usize;
                    let ip = self.clients[idx].ip;
                    self.clients[idx].name = name.clone();
                    out.push(
                        ServerEffect::SendTo(
                            origin,
                            ClientMessage::Login(origin, name.clone(), "unknown".to_owned()),
                        ),
                    );
                    self.state.setPlayerInfo(ip, name, "unknown".to_owned());
                    proof {
                        assert(self@.slots =~= old(self)@.slots.update(
                            idx as int,
                            self@.slots[idx as int],
                        ));
                        assert(self@ =~= expect.0);
                        assert(effsv(out@) =~= expect.1);
                    }
                }
            },
            ServerMessage::Disconnected => {
                if origin >= 1 && (origin as usize) <= self.clients.len() {
                    let idx = (origin - 1) as usize;
                    self.clients[idx] = Client::default();
                    self.broadcast.push(ClientMessage::Disconnected(origin));
                    proof {
                        assert(self@.slots =~= old(self)@.slots.update(idx as int, SlotV::empty()));
                        assert(self@.broadcast =~= old(self)@.broadcast.push(
                            OutV::Disconnected(origin),
                        ));
                        assert(self@ =~= expect.0);
                    }
                }
            },
            ServerMessage::Chat(text, w) => {
                let tlen = text.as_str().unicode_len();
                if tlen == 0 || !(origin == 0 || (origin as usize) <= self.clients.len()) {
                    // a malformed or misaddressed line changes nothing
                } else if text.as_str().get_char(0) == '/' {
                    let rest = text.as_str().substring_char(1, tlen).to_owned();
                    let mut effects = self.cmd(origin, w, rest, now);
                    out.append(&mut effects);
                    proof {
                        assert(effsv(out@) =~= expect.1);
                    }
                } else {
                    let name: String = if origin == 0 {
                        proof {
                            reveal_strlit("WebClient");
                        }
                        "WebClient".to_owned()
                    } else {
                        self.clients[(origin - 1) as usize].name.clone()
                    };
                    let mut full = name.clone();
                    full.append(": ");
                    full.append(text.as_str());
                    self.broadcast.push(ClientMessage::Chat(full.clone()));
                    self.state.chatHistory.push((name, text));
                    if origin == 0 {
                        out.push(ServerEffect::Reply(w, WebReply::ChatEcho(full)));
                    }
                    proof {
                        assert(self@.broadcast =~= old(self)@.broadcast.push(
                            expect.0.broadcast.last(),
                        ));
                        assert(self@.state.chatHistory =~= old(self)@.state.chatHistory.push(
                            expect.0.state.chatHistory.last(),
                        ));
                        assert(self@ =~= expect.0);
                        assert(effsv(out@) =~= expect.1);
                    }
                }
            },
            ServerMessage::PlayersList(w) => {
                let roster = self.roster();
                out.push(ServerEffect::Reply(w, WebReply::Roster(roster)));
                proof {
                    assert(effsv(out@) =~= expect.1);
                }
            },
            ServerMessage::SaveGame(cp) => {
                self.state.date = crate::state::formatDateTime(now);
                out.push(ServerEffect::Save(cp));
                proof {
                    assert(self@ =~= expect.0);
                    assert(effsv(out@) =~= expect.1);
                }
            },
            ServerMessage::ChatHistory(start, w) => {
                let entries = self.history_slice(start);
                out.push(ServerEffect::Reply(w, WebReply::History(entries)));
                proof {
                    assert(effsv(out@) =~= expect.1);
                }
            },
            ServerMessage::GameState(w) => {
                out.push(
                    ServerEffect::Reply(
                        w,
                        WebReply::Info(self.state.checkpoint.clone(), self.state.date.clone()),
                    ),
                );
                proof {
                    assert(effsv(out@) =~= expect.1);
                }
            },
            ServerMessage::ChatLength(w) => {
                out.push(ServerEffect::Reply(w, WebReply::ChatLen(self.state.chatHistory.len())));
                proof {
                    assert(effsv(out@) =~= expect.1);
                }
            },
            ServerMessage::GetSettings(w) => {
                let perms = self.permissions_snapshot();
                out.push(
                    ServerEffect::Reply(
                        w,
                        WebReply::Settings(
                            self.config.maxPlayersCount,
                            self.config.port,
                            self.config.tickRate,
                            perms,
                        ),
                    ),
                );
                proof {
                    assert(effsv(out@) =~= expect.1);
                }
            },
            ServerMessage::SaveSettings(t, w) => {
                if let Some(m) = t.maxPlayersCount {
                    self.config.maxPlayersCount = m;
                }
                if let Some(p) = t.port {
                    self.config.port = p;
                }
                if let Some(tr) = t.tickRate {
                    self.config.tickRate = tr;
                    if tr > 0 {
                        self.config.sendTime = 1000 / (tr as u64);
                        self.config.recvTime = 500 / (tr as u64);
                    }
                }
                out.push(ServerEffect::Reply(w, WebReply::Ack));
                proof {
                    assert(self@.config =~= spec_apply_settings(old(self)@.config, t));
                    assert(self@ =~= expect.0);
                    assert(effsv(out@) =~= expect.1);
                }
            },
        }
        out
    }

    /// Drains the pending-request queue once, in order, dispatching each
    /// message exactly once; yields the effects for the caller to perform,
    /// in dispatch order.
    #[verifier::loop_isolation(false)]
    pub fn handleRequests(&mut self, now: u64) -> (r: Vec<ServerEffect>)
        requires
            old(self).wf(),
        ensures
            final(self).wf(),
            final(self).reqsv().len() == 0,
            final(self)@ == spec_drain(old(self)@, old(self).reqsv(), now).0,
            effsv(r@) == spec_drain(old(self)@, old(self).reqsv(), now).1,
    {
        let ghost all = old(self).reqsv();
        let mut out: Vec<ServerEffect> = Vec::new();
        proof {
            assert(effsv(out@) =~= Seq::<EffectV>::empty());
        }
        while self.requests.len() > 0
            invariant
                self.wf(),
                spec_drain(old(self)@, all, now).0 == spec_drain(self@, self.reqsv(), now).0,
                spec_drain(old(self)@, all, now).1 == effsv(out@) + spec_drain(
                    self@,
                    self.reqsv(),
                    now,
                ).1,
            decreases self.reqsv().len(),
        {
            let ghost reqs_pre = self.reqsv();
            let (origin, msg) = self.requests.remove(0);
            let ghost m = msg@;
            proof {
                assert((origin, m) == reqs_pre[0]);
                assert(self.reqsv() =~= reqs_pre.drop_first());
            }
            let mut effects = self.dispatchOne(origin, msg, now);
            let ghost done = effsv(out@);
            let ghost step = effsv(effects@);
            out.append(&mut effects);
            proof {
                assert(effsv(out@) =~= done + step);
            }
        }
        proof {
            assert(effsv(out@) + Seq::<EffectV>::empty() =~= effsv(out@));
        }
        out
    }
}

/// The roster the `PlayersList` request reports, from slot position `i` on:
/// the id, class and name of every active slot, in table order.
pub open spec fn spec_roster_from(slots: Seq<SlotV>, i: int) -> Seq<(u8, Seq<char>, Seq<char>)>
    decreases slots.len() - i,
{
    if i < 0 || i >= slots.len() {
        Seq::empty()
    } else {
        (if slots[i].id != 0 {
            seq![(slots[i].id, slots[i].class, slots[i].name)]
        } else {
            Seq::empty()
        }) + spec_roster_from(slots, i + 1)
    }
}

/// The history entries a `ChatHistory` request yields: the entries from
/// `start` onward, newest first — the reply's position `k` holds the entry
/// at `len - 1 - k`; a start past the end is read as zero and yields the
/// whole history.
pub open spec fn spec_history_slice(chat: Seq<(Seq<char>, Seq<char>)>, start: usize) -> Seq<
    (Seq<char>, Seq<char>),
> {
    let st: int = if start > chat.len() {
        0
    } else {
        start as int
    };
    Seq::new((chat.len() - st) as nat, |k: int| chat[chat.len() - 1 - k])
}

/// The configuration after applying a settings patch: provided fields
/// replace the running values, and a positive tick rate recomputes the two
/// cadence intervals as its fractions of a second.
pub open spec fn spec_apply_settings(cfg: ConfigV, t: crate::protocol::Tunables) -> ConfigV {
    let c1 = ConfigV {
        maxPlayersCount: if t.maxPlayersCount is Some {
            t.maxPlayersCount->0
        } else {
            cfg.maxPlayersCount
        },
        port: if t.port is Some {
            t.port->0
        } else {
            cfg.port
        },
        ..cfg
    };
    match t.tickRate {
        Some(tr) => if tr > 0 {
            ConfigV { tickRate: tr, sendTime: 1000u64 / (tr as u64), recvTime: 500u64 / (tr as u64), ..c1 }
        } else {
            ConfigV { tickRate: tr, ..c1 }
        },
        None => c1,
    }
}

/// The dispatch table: what one inbound message, under its origin, does to
/// the server and which effects it hands the caller. A message whose origin
/// is neither the bridging collaborator nor a slot of the table does nothing.
pub open spec fn spec_dispatch(s: ServerV, origin: u8, m: MsgV, now: u64) -> (
    ServerV,
    Seq<EffectV>,
) {
    match m {
        MsgV::Invalid(w) => (
            s,
            if origin == 0 {
                seq![EffectV::Reply(w, ReplyV::Error)]
            } else {
                Seq::empty()
            },
        ),
        MsgV::Register(name) => {
            if 1 <= origin as int && origin as int <= s.slots.len() {
                let slot = s.slots[origin as int - 1];
                let s1 = ServerV {
                    slots: s.slots.update(origin as int - 1, SlotV { name: name, ..slot }),
                    state: StateV {
                        players: crate::state::spec_players_store(
                            s.state.players,
                            slot.ip,
                            name,
                            "unknown"@,
                        ),
                        ..s.state
                    },
                    ..s
                };
                (s1, seq![EffectV::SendTo(origin, OutV::Login(origin, name, "unknown"@))])
            } else {
                (s, Seq::empty())
            }
        },
        MsgV::Disconnected => {
            if 1 <= origin as int && origin as int <= s.slots.len() {
                let s1 = ServerV {
                    slots: s.slots.update(origin as int - 1, SlotV::empty()),
                    broadcast: s.broadcast.push(OutV::Disconnected(origin)),
                    ..s
                };
                (s1, Seq::empty())
            } else {
                (s, Seq::empty())
            }
        },
        MsgV::Chat(text, w) => {
            if text.len() == 0 || !(origin == 0 || origin as int <= s.slots.len()) {
                (s, Seq::empty())
            } else if text[0] == '/' {
                spec_cmd(s, origin, w, text.skip(1), now)
            } else {
                let name = spec_author(s, origin);
                let full = name + ": "@ + text;
                let s1 = ServerV {
                    broadcast: s.broadcast.push(OutV::Chat(full)),
                    state: StateV {
                        chatHistory: s.state.chatHistory.push((name, text)),
                        ..s.state
                    },
                    ..s
                };
                (
                    s1,
                    if origin == 0 {
                        seq![EffectV::Reply(w, ReplyV::ChatEcho(full))]
                    } else {
                        Seq::empty()
                    },
                )
            }
        },
        MsgV::PlayersList(w) => (
            s,
            seq![EffectV::Reply(w, ReplyV::Roster(spec_roster_from(s.slots, 0)))],
        ),
        MsgV::SaveGame(cp) => (
            ServerV {
                state: StateV { date: crate::state::spec_date_time(now as int), ..s.state },
                ..s
            },
            seq![EffectV::Save(cp)],
        ),
        MsgV::ChatHistory(start, w) => (
            s,
            seq![
                EffectV::Reply(w, ReplyV::History(spec_history_slice(s.state.chatHistory, start))),
            ],
        ),
        MsgV::GameState(w) => (
            s,
            seq![EffectV::Reply(w, ReplyV::Info(s.state.checkpoint, s.state.date))],
        ),
        MsgV::ChatLength(w) => (
            s,
            seq![EffectV::Reply(w, ReplyV::ChatLen(s.state.chatHistory.len() as usize))],
        ),
        MsgV::GetSettings(w) => (
            s,
            seq![
                EffectV::Reply(
                    w,
                    ReplyV::Settings(
                        s.config.maxPlayersCount,
                        s.config.port,
                        s.config.tickRate,
                        s.config.permissions,
                    ),
                ),
            ],
        ),
        MsgV::SaveSettings(t, w) => (
            ServerV { config: spec_apply_settings(s.config, t), ..s },
            seq![EffectV::Reply(w, ReplyV::Ack)],
        ),
    }
}

/// The dispatch phase as a whole: the requests folded through
/// `spec_dispatch` in order, with the effects concatenated.
pub open spec fn spec_drain(s: ServerV, reqs: Seq<(u8, MsgV)>, now: u64) -> (ServerV, Seq<EffectV>)
    decreases reqs.len(),
{
    if reqs.len() == 0 {
        (s, Seq::empty())
    } else {
        let stepped = spec_dispatch(s, reqs[0].0, reqs[0].1, now);
        let rest = spec_drain(stepped.0, reqs.drop_first(), now);
        (rest.0, stepped.1 + rest.1)
    }
}

/// A chat line opening with a slash is a command: dispatching it queues no
/// broadcast and touches no history by itself — it hands the remainder after
/// the slash to the command dispatcher, exactly once.
pub proof fn lemma_slash_routes_to_command(
    s: ServerV,
    origin: u8,
    text: Seq<char>,
    w: Endpoint,
    now: u64,
)
    requires
        text.len() > 0,
        text[0] == '/',
        origin == 0 || origin as int <= s.slots.len(),
    ensures
        spec_dispatch(s, origin, MsgV::Chat(text, w), now) == spec_cmd(
            s,
            origin,
            w,
            text.skip(1),
            now,
        ),
{
}

/// The `gettime` command is read-only chatter: dispatching `Chat("/gettime")`
/// queues no outbound message, sends nothing to any session, and appends
/// exactly one chat-history entry, holding the formatted server time. Proved
/// under the one fact about `str::to_lowercase` the command word needs:
/// lowering `"gettime"` yields `"gettime"`.
pub proof fn lemma_gettime_appends_time_only(s: ServerV, origin: u8, w: Endpoint, now: u64)
    requires
        origin == 0 || 1 <= origin as int <= s.slots.len(),
        lower_of("gettime"@) == "gettime"@,
    ensures
        spec_dispatch(s, origin, MsgV::Chat("/gettime"@, w), now).0 == (ServerV {
            state: StateV {
                chatHistory: s.state.chatHistory.push(
                    (
                        spec_author(s, origin),
                        "Current server time: "@ + crate::state::spec_date_time(now as int),
                    ),
                ),
                ..s.state
            },
            ..s
        }),
        origin != 0 ==> spec_dispatch(s, origin, MsgV::Chat("/gettime"@, w), now).1
            == Seq::<EffectV>::empty(),
{
    reveal_strlit("/gettime");
    reveal_strlit("gettime");
    reveal_strlit("getposition");
    reveal_strlit("setposition");
    assert("/gettime"@.len() == 8);
    assert("gettime"@.len() == 7);
    assert("getposition"@.len() == 11);
    assert("setposition"@.len() == 11);
    assert("/gettime"@[0] == '/');
    assert("/gettime"@.skip(1) =~= "gettime"@);
    assert(forall|k: int| 0 <= k < "gettime"@.len() ==> #[trigger] "gettime"@[k] != ' ');
    crate::text::lemma_split_whole("gettime"@, ' ');
    let stepped = spec_dispatch(s, origin, MsgV::Chat("/gettime"@, w), now);
    assert(stepped.0 =~= (ServerV {
        state: StateV {
            chatHistory: s.state.chatHistory.push(
                (
                    spec_author(s, origin),
                    "Current server time: "@ + crate::state::spec_date_time(now as int),
                ),
            ),
            ..s.state
        },
        ..s
    }));
}

/// A `setposition` issued by an identity below `Admin` is silently ignored:
/// the command changes nothing and produces no effect, so the caller cannot
/// even tell that the command exists. Proved under the one fact about
/// `str::to_lowercase` the proof needs: the lowered command line's first
/// token is `"setposition"`.
pub proof fn lemma_setposition_denied_is_silent(
    s: ServerV,
    origin: u8,
    w: Endpoint,
    txt: Seq<char>,
    now: u64,
)
    requires
        1 <= origin as int <= s.slots.len(),
        crate::text::spec_split(lower_of(txt), ' ')[0] == "setposition"@,
        spec_rank(
            spec_get_permission(s.config.permissions, s.slots[origin as int - 1].name),
        ) < spec_rank(Permission::Admin),
    ensures
        spec_cmd(s, origin, w, txt, now).0 == s,
        spec_cmd(s, origin, w, txt, now).1 == Seq::<EffectV>::empty(),
{
    reveal_strlit("setposition");
    reveal_strlit("getposition");
    reveal_strlit("gettime");
    assert("setposition"@.len() == 11);
    assert("getposition"@.len() == 11);
    assert("gettime"@.len() == 7);
    assert("setposition"@[0] == 's' && "getposition"@[0] == 'g');
    assert("setposition"@ != "getposition"@);
}

/// What one non-blocking read of a session's control channel produced.
pub enum ReadEvent {
    /// Bytes arrived; a zero-length read stands for an orderly shutdown.
    Data(Vec<u8>),
    /// The stream reported end of data.
    Closed,
    /// A fatal transport error; not a would-block condition.
    Fatal,
}

} // verus!
