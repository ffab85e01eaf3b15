//! One session slot: the stable id, the claimed identity, the peer address
//! the reliable connection came from, and the state channel's learned return
//! address. The connection handle itself lives with the caller; a slot is
//! `Active` exactly when its id is not the zero sentinel.

use crate::protocol::Endpoint;
use vstd::prelude::*;

verus! {

/// The view of a slot.
#[verifier::ext_equal]
pub struct SlotV {
    pub id: u8,
    pub ip: u128,
    pub name: Seq<char>,
    pub class: Seq<char>,
    pub udp: Option<Endpoint>,
}

impl SlotV {
    /// The empty slot.
    pub open spec fn empty() -> SlotV {
        SlotV { id: 0, ip: 0, name: Seq::empty(), class: Seq::empty(), udp: None }
    }
}

/// A session slot.
pub struct Client {
    pub id: u8,
    pub ip: u128,
    pub name: String,
    pub class: String,
    pub udp: Option<Endpoint>,
}

impl View for Client {
    type V = SlotV;

    open spec fn view(&self) -> SlotV {
        SlotV { id: self.id, ip: self.ip, name: self.name@, class: self.class@, udp: self.udp }
    }
}

impl Client {
    /// An empty slot: the zero id, no identity, no addresses.
    pub fn default() -> (r: Self)
        ensures
            r@ == SlotV::empty(),
    {
        let r = Client { id: 0, ip: 0, name: String::new(), class: String::new(), udp: None };
        proof {
            assert(r@ =~= SlotV::empty());
        }
        r
    }

    /// A freshly connected session: the assigned id, the peer address the
    /// connection came from, the directory-stored identity, and no learned
    /// state-channel address yet.
    pub fn connect(id: u8, ip: u128, name: String, class: String) -> (r: Self)
        ensures
            r@ == (SlotV { id, ip, name: name@, class: class@, udp: None }),
    {
        Client { id, ip, name, class, udp: None }
    }
}

} // verus!
