//! What is accepted in every phase.

use vstd::prelude::*;

use crate::network_message::PeerID;
use crate::relay::messages::Guid;
use crate::relay::messages::WireMessage;
use crate::relay::messages::WireMessageView;
use crate::relay::server_fsm::context::Context;
use crate::relay::server_fsm::context::Ctx;
use crate::relay::server_fsm::event::Input;
use crate::relay::server_fsm::event::InputView;
use crate::relay::server_fsm::event::Phase;
use crate::relay::server_fsm::settings::Frozen;
use crate::relay::server_fsm::settings::FrozenSettings;
use crate::relay::server_fsm::snapshot;
use crate::utils;

verus! {

impl Ctx {
    /// A message that every phase takes. Anything else is not accepted and is
    /// dropped with the connection kept open.
    #[verifier::opaque]
    pub open spec fn common_message(
        self,
        phase: Phase,
        settings: Option<Frozen>,
        peer: PeerID,
        msg: WireMessageView,
        issued: Option<Seq<char>>,
    ) -> Ctx {
        match msg {
            WireMessageView::SynAck(m) => self.handshaken(phase, peer, m, issued),
            WireMessageView::Authenticate(m) => self.authenticated(phase, settings, peer, m),
            WireMessageView::Chat(m) => self.chatted(peer, m),
            WireMessageView::Kicked(m) => self.kicked(phase, peer, m),
            WireMessageView::GamestateRequest(m) => self.state_asked_for(peer, m),
            WireMessageView::GamestateResponse(m) => self.state_promised(peer, m),
            WireMessageView::GamestateChunk(m) => self.chunk_taken(peer, m),
            WireMessageView::GamestateChunkAck(m) => self.chunks_acked(peer, m),
            _ => self,
        }
    }

    /// An event that every phase handles alike. Only a running match waits on
    /// dumps and checkpoints; everywhere else the result arrives for a game
    /// that has moved on. Only a held start acts on the AI host's exit.
    #[verifier::opaque]
    pub open spec fn common_input(
        self,
        phase: Phase,
        settings: Option<Frozen>,
        input: InputView,
        issued: Option<Seq<char>>,
    ) -> Ctx {
        match input {
            InputView::Connected { peer, addr } => self.connected(peer, addr),
            InputView::Received { peer, msg } => self.common_message(
                phase,
                settings,
                peer,
                msg,
                issued,
            ),
            InputView::Disconnected { peer } => self.departed(phase, settings, peer),
            InputView::LobbyAuth { username, token } => self.lobby_vouched(username, token),
            InputView::Tick { now, stats } => self.ticked(phase, now, stats),
            _ => self,
        }
    }
}

impl Context {
    pub fn on_common_message(
        &mut self,
        phase: Phase,
        settings: Option<&FrozenSettings>,
        peer: PeerID,
        msg: WireMessage,
        issued: Option<Guid>,
    )
        requires
            old(self).wf(),
        ensures
            final(self)@ == old(self)@.common_message(
                phase,
                snapshot::frozen(settings),
                peer,
                msg@,
                utils::seen(issued),
            ),
            final(self).wf(),
    {
        proof {
            reveal(Ctx::common_message);
        }
        match msg {
            WireMessage::SynAck(m) => self.on_syn_ack(phase, peer, &m, issued),
            WireMessage::Authenticate(m) => self.on_authenticate(phase, settings, peer, &m),
            WireMessage::Chat(m) => self.on_chat(peer, &m),
            WireMessage::Kicked(m) => self.on_kicked(phase, peer, m),
            WireMessage::GamestateRequest(m) => self.on_gamestate_request(peer, m),
            WireMessage::GamestateResponse(m) => self.on_gamestate_response(peer, m),
            WireMessage::GamestateChunk(m) => {
                let _ = self.on_gamestate_chunk(peer, &m);
            },
            WireMessage::GamestateChunkAck(m) => self.on_gamestate_chunk_ack(peer, m),
            _ => {},
        }
    }

    pub fn on_common_input(
        &mut self,
        phase: Phase,
        settings: Option<&FrozenSettings>,
        input: Input,
        issued: Option<Guid>,
    )
        requires
            old(self).wf(),
        ensures
            final(self)@ == old(self)@.common_input(
                phase,
                snapshot::frozen(settings),
                input@,
                utils::seen(issued),
            ),
            final(self).wf(),
    {
        proof {
            reveal(Ctx::common_input);
        }
        match input {
            Input::Connected { peer, addr } => self.on_connected(peer, addr),
            Input::Received { peer, msg } => self.on_common_message(
                phase,
                settings,
                peer,
                msg,
                issued,
            ),
            Input::Disconnected { peer } => self.on_disconnected(phase, settings, peer),
            Input::LobbyAuth { username, token } => self.on_lobby_auth(username, token),
            Input::Tick { now, stats } => self.on_tick(phase, now, &stats),
            _ => {},
        }
    }
}

} // verus!
