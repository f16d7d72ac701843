use vstd::prelude::*;

use crate::network_message::Ipv4Addr;
use crate::relay::messages::Guid;
use crate::utils;

verus! {

/// A connected client. Before it is admitted it passes through phases that
/// differ only in which of these fields is filled; only what it does after
/// admission needs a role.
#[derive(Debug)]
pub struct Session {
    pub addr: Ipv4Addr,
    /// None until the handshake is accepted.
    pub uuid: Option<Guid>,
    /// Only ever set in lobby mode, by the lobby's word on who this is.
    pub lobby_name: Option<String>,
    pub admitted: Option<Admitted>,
    /// In milliseconds.
    pub mean_rtt: i64,
    /// In milliseconds.
    pub since_last_received: i64,
}

#[derive(Debug)]
pub struct Admitted {
    /// 16 bits because that is the whole width the wire carries.
    pub client_id: u16,
    /// Sanitized, and deduplicated where duplicates are allowed.
    pub name: String,
    pub role: Role,
}

#[derive(Debug, Clone, Copy, PartialEq, Eq, Structural)]
pub enum Role {
    Setup,
    /// A joiner fetching a snapshot. It receives no in-game traffic and never
    /// holds up turn release.
    Syncing,
    InGame,
}

/// What [`Session`] is.
pub struct SessionView {
    pub addr: Ipv4Addr,
    pub uuid: Option<Seq<char>>,
    pub lobby_name: Option<Seq<char>>,
    pub admitted: Option<AdmittedView>,
    pub mean_rtt: i64,
    pub since_last_received: i64,
}

/// What [`Admitted`] is.
pub struct AdmittedView {
    pub client_id: u16,
    pub name: Seq<char>,
    pub role: Role,
}

impl View for Admitted {
    type V = AdmittedView;

    open spec fn view(&self) -> AdmittedView {
        AdmittedView { client_id: self.client_id, name: self.name@, role: self.role }
    }
}

impl View for Session {
    type V = SessionView;

    open spec fn view(&self) -> SessionView {
        SessionView {
            addr: self.addr,
            uuid: match self.uuid {
                Some(u) => Some(u@),
                None => None,
            },
            lobby_name: match self.lobby_name {
                Some(n) => Some(n@),
                None => None,
            },
            admitted: match self.admitted {
                Some(a) => Some(a@),
                None => None,
            },
            mean_rtt: self.mean_rtt,
            since_last_received: self.since_last_received,
        }
    }
}

impl SessionView {
    pub open spec fn role(self) -> Option<Role> {
        match self.admitted {
            Some(a) => Some(a.role),
            None => None,
        }
    }

    pub open spec fn is_setup(self) -> bool {
        self.role() == Some(Role::Setup)
    }

    pub open spec fn is_syncing(self) -> bool {
        self.role() == Some(Role::Syncing)
    }

    pub open spec fn is_in_game(self) -> bool {
        self.role() == Some(Role::InGame)
    }

    pub open spec fn name(self) -> Option<Seq<char>> {
        match self.admitted {
            Some(a) => Some(a.name),
            None => None,
        }
    }

    pub open spec fn client_id(self) -> Option<u16> {
        match self.admitted {
            Some(a) => Some(a.client_id),
            None => None,
        }
    }

    /// The role changed; before admission there is none to change.
    pub open spec fn with_role(self, role: Role) -> SessionView {
        match self.admitted {
            Some(a) => SessionView { admitted: Some(AdmittedView { role, ..a }), ..self },
            None => self,
        }
    }

    /// A client that has just connected.
    pub open spec fn fresh(addr: Ipv4Addr) -> SessionView {
        SessionView {
            addr,
            uuid: None,
            lobby_name: None,
            admitted: None,
            mean_rtt: 0,
            since_last_received: 0,
        }
    }
}

impl Session {
    pub fn new(addr: Ipv4Addr) -> (r: Self)
        ensures
            r@ == SessionView::fresh(addr),
    {
        Session {
            addr,
            uuid: None,
            lobby_name: None,
            admitted: None,
            mean_rtt: 0,
            since_last_received: 0,
        }
    }

    pub fn role(&self) -> (r: Option<Role>)
        ensures
            r == self@.role(),
    {
        match &self.admitted {
            Some(a) => Some(a.role),
            None => None,
        }
    }

    pub fn is_setup(&self) -> (r: bool)
        ensures
            r == self@.is_setup(),
    {
        match &self.admitted {
            Some(a) => a.role == Role::Setup,
            None => false,
        }
    }

    pub fn is_syncing(&self) -> (r: bool)
        ensures
            r == self@.is_syncing(),
    {
        match &self.admitted {
            Some(a) => a.role == Role::Syncing,
            None => false,
        }
    }

    pub fn is_in_game(&self) -> (r: bool)
        ensures
            r == self@.is_in_game(),
    {
        match &self.admitted {
            Some(a) => a.role == Role::InGame,
            None => false,
        }
    }

    /// Whether the client has not been admitted, whatever it is waiting on.
    pub fn is_unauthenticated(&self) -> (r: bool)
        ensures
            r == (self@.admitted is None),
    {
        self.admitted.is_none()
    }

    pub fn name(&self) -> (r: Option<&str>)
        ensures
            match r {
                Some(n) => self@.name() == Some(n@),
                None => self@.name() is None,
            },
    {
        match &self.admitted {
            Some(a) => Some(a.name.as_str()),
            None => None,
        }
    }

    pub fn client_id(&self) -> (r: Option<u16>)
        ensures
            r == self@.client_id(),
    {
        match &self.admitted {
            Some(a) => Some(a.client_id),
            None => None,
        }
    }

    pub fn set_role(&mut self, role: Role)
        ensures
            final(self)@ == old(self)@.with_role(role),
    {
        if let Some(mut a) = self.admitted.take() {
            a.role = role;
            self.admitted = Some(a);
        }
    }

    /// Whether the client is admitted under this name.
    pub fn is_named(&self, name: &str) -> (r: bool)
        ensures
            r == (self@.name() == Some(name@)),
    {
        match &self.admitted {
            Some(a) => utils::same_text(a.name.as_str(), name),
            None => false,
        }
    }

    /// Whether the client was given this identity.
    pub fn has_uuid(&self, uuid: &Guid) -> (r: bool)
        ensures
            r == (self@.uuid == Some(uuid@)),
    {
        match &self.uuid {
            Some(u) => u.same(uuid),
            None => false,
        }
    }
}

} // verus!
