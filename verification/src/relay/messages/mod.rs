use vstd::prelude::*;

use crate::relay::fault::ParseError;
use crate::utils;

pub mod ack;
pub mod authenticate;
pub mod authenticate_result;
pub mod authenticate_result_code;
pub mod chat;
pub mod enabled_mod;
pub mod flare;
pub mod game_settings;
pub mod gamestate_chunk;
pub mod gamestate_chunk_ack;
pub mod gamestate_request;
pub mod gamestate_response;
pub mod guid;
pub mod host;
pub mod items;
pub mod join;
pub mod joined;
pub mod kicked;
pub mod lagging_clients;
pub mod last_seen;
pub mod loaded_game;
pub mod map_player_id_to_slot;
pub mod performance_entry;
pub mod player_command;
pub mod player_pause;
pub mod player_slots;
pub mod players_loading;
pub mod pre_game_status;
pub mod start_savegame_settings;
pub mod start_settings;
pub mod state_hash;
pub mod syn;
pub mod syn_ack;
pub mod turn_sealed;
pub mod wrong_hash_players;

pub use crate::relay::messages::ack::Ack;
pub use crate::relay::messages::authenticate::Authenticate;
pub use crate::relay::messages::authenticate_result::AuthenticateResult;
pub use crate::relay::messages::authenticate_result_code::AuthenticateResultCode;
pub use crate::relay::messages::chat::Chat;
pub use crate::relay::messages::enabled_mod::EnabledMod;
pub use crate::relay::messages::flare::Flare;
pub use crate::relay::messages::game_settings::GameSettings;
pub use crate::relay::messages::gamestate_chunk::GamestateChunk;
pub use crate::relay::messages::gamestate_chunk_ack::GamestateChunkAck;
pub use crate::relay::messages::gamestate_request::GamestateRequest;
pub use crate::relay::messages::gamestate_response::GamestateResponse;
pub use crate::relay::messages::guid::Guid;
pub use crate::relay::messages::host::Host;
pub use crate::relay::messages::join::Join;
pub use crate::relay::messages::joined::Joined;
pub use crate::relay::messages::kicked::Kicked;
pub use crate::relay::messages::lagging_clients::LaggingClients;
pub use crate::relay::messages::last_seen::LastSeen;
pub use crate::relay::messages::loaded_game::LoadedGame;
pub use crate::relay::messages::map_player_id_to_slot::MapPlayerIdToSlot;
pub use crate::relay::messages::performance_entry::PerformanceEntry;
pub use crate::relay::messages::player_command::PlayerCommand;
pub use crate::relay::messages::player_pause::PlayerPause;
pub use crate::relay::messages::player_slots::PlayerSlots;
pub use crate::relay::messages::players_loading::PlayersLoading;
pub use crate::relay::messages::pre_game_status::PreGameStatus;
pub use crate::relay::messages::start_savegame_settings::StartSavegameSettings;
pub use crate::relay::messages::start_settings::StartSettings;
pub use crate::relay::messages::state_hash::StateHash;
pub use crate::relay::messages::syn::Syn;
pub use crate::relay::messages::syn_ack::SynAck;
pub use crate::relay::messages::turn_sealed::TurnSealed;
pub use crate::relay::messages::wrong_hash_players::WrongHashPlayers;
pub use crate::relay::messages::ack::AckView;
pub use crate::relay::messages::authenticate::AuthenticateView;
pub use crate::relay::messages::authenticate_result::AuthenticateResultView;
pub use crate::relay::messages::chat::ChatView;
pub use crate::relay::messages::enabled_mod::EnabledModView;
pub use crate::relay::messages::flare::FlareView;
pub use crate::relay::messages::game_settings::GameSettingsView;
pub use crate::relay::messages::gamestate_chunk::GamestateChunkView;
pub use crate::relay::messages::host::HostView;
pub use crate::relay::messages::join::JoinView;
pub use crate::relay::messages::joined::JoinedView;
pub use crate::relay::messages::kicked::KickedView;
pub use crate::relay::messages::lagging_clients::LaggingClientsView;
pub use crate::relay::messages::last_seen::LastSeenView;
pub use crate::relay::messages::map_player_id_to_slot::MapPlayerIdToSlotView;
pub use crate::relay::messages::performance_entry::PerformanceEntryView;
pub use crate::relay::messages::player_command::PlayerCommandView;
pub use crate::relay::messages::player_pause::PlayerPauseView;
pub use crate::relay::messages::player_slots::PlayerSlotsView;
pub use crate::relay::messages::players_loading::PlayersLoadingView;
pub use crate::relay::messages::pre_game_status::PreGameStatusView;
pub use crate::relay::messages::start_savegame_settings::StartSavegameSettingsView;
pub use crate::relay::messages::start_settings::StartSettingsView;
pub use crate::relay::messages::state_hash::StateHashView;
pub use crate::relay::messages::syn::SynView;
pub use crate::relay::messages::syn_ack::SynAckView;
pub use crate::relay::messages::wrong_hash_players::WrongHashPlayersView;

verus! {

/// Every message of the protocol.
#[derive(Debug, PartialEq)]
pub enum WireMessage {
    Syn(Syn),
    SynAck(SynAck),
    Ack(Ack),
    Authenticate(Authenticate),
    AuthenticateResult(AuthenticateResult),
    Chat(Chat),
    PreGameStatus(PreGameStatus),
    ResetPregameStatus,
    GameSettings(GameSettings),
    MapPlayerIdToSlot(MapPlayerIdToSlot),
    PlayerSlots(PlayerSlots),
    GamestateRequest(GamestateRequest),
    GamestateResponse(GamestateResponse),
    GamestateChunk(GamestateChunk),
    GamestateChunkAck(GamestateChunkAck),
    Join(Join),
    Joined(Joined),
    Kicked(Kicked),
    LastSeen(LastSeen),
    LaggingClients(LaggingClients),
    PlayersLoading(PlayersLoading),
    PlayerPause(PlayerPause),
    LoadedGame(LoadedGame),
    StartSettings(StartSettings),
    StartSavegameSettings(StartSavegameSettings),
    TurnSealed(TurnSealed),
    StateHash(StateHash),
    WrongHashPlayers(WrongHashPlayers),
    PlayerCommand(PlayerCommand),
    Flare(Flare),
}

/// What a [`WireMessage`] says.
pub enum WireMessageView {
    Syn(SynView),
    SynAck(SynAckView),
    Ack(AckView),
    Authenticate(AuthenticateView),
    AuthenticateResult(AuthenticateResultView),
    Chat(ChatView),
    PreGameStatus(PreGameStatusView),
    ResetPregameStatus,
    GameSettings(GameSettingsView),
    MapPlayerIdToSlot(MapPlayerIdToSlotView),
    PlayerSlots(PlayerSlotsView),
    GamestateRequest(GamestateRequest),
    GamestateResponse(GamestateResponse),
    GamestateChunk(GamestateChunkView),
    GamestateChunkAck(GamestateChunkAck),
    Join(JoinView),
    Joined(JoinedView),
    Kicked(KickedView),
    LastSeen(LastSeenView),
    LaggingClients(LaggingClientsView),
    PlayersLoading(PlayersLoadingView),
    PlayerPause(PlayerPauseView),
    LoadedGame(LoadedGame),
    StartSettings(StartSettingsView),
    StartSavegameSettings(StartSavegameSettingsView),
    TurnSealed(TurnSealed),
    StateHash(StateHashView),
    WrongHashPlayers(WrongHashPlayersView),
    PlayerCommand(PlayerCommandView),
    Flare(FlareView),
}

impl View for WireMessage {
    type V = WireMessageView;

    open spec fn view(&self) -> WireMessageView {
        match *self {
            WireMessage::Syn(m) => WireMessageView::Syn(m@),
            WireMessage::SynAck(m) => WireMessageView::SynAck(m@),
            WireMessage::Ack(m) => WireMessageView::Ack(m@),
            WireMessage::Authenticate(m) => WireMessageView::Authenticate(m@),
            WireMessage::AuthenticateResult(m) => WireMessageView::AuthenticateResult(m@),
            WireMessage::Chat(m) => WireMessageView::Chat(m@),
            WireMessage::PreGameStatus(m) => WireMessageView::PreGameStatus(m@),
            WireMessage::ResetPregameStatus => WireMessageView::ResetPregameStatus,
            WireMessage::GameSettings(m) => WireMessageView::GameSettings(m@),
            WireMessage::MapPlayerIdToSlot(m) => WireMessageView::MapPlayerIdToSlot(m@),
            WireMessage::PlayerSlots(m) => WireMessageView::PlayerSlots(m@),
            WireMessage::GamestateRequest(m) => WireMessageView::GamestateRequest(m@),
            WireMessage::GamestateResponse(m) => WireMessageView::GamestateResponse(m@),
            WireMessage::GamestateChunk(m) => WireMessageView::GamestateChunk(m@),
            WireMessage::GamestateChunkAck(m) => WireMessageView::GamestateChunkAck(m@),
            WireMessage::Join(m) => WireMessageView::Join(m@),
            WireMessage::Joined(m) => WireMessageView::Joined(m@),
            WireMessage::Kicked(m) => WireMessageView::Kicked(m@),
            WireMessage::LastSeen(m) => WireMessageView::LastSeen(m@),
            WireMessage::LaggingClients(m) => WireMessageView::LaggingClients(m@),
            WireMessage::PlayersLoading(m) => WireMessageView::PlayersLoading(m@),
            WireMessage::PlayerPause(m) => WireMessageView::PlayerPause(m@),
            WireMessage::LoadedGame(m) => WireMessageView::LoadedGame(m@),
            WireMessage::StartSettings(m) => WireMessageView::StartSettings(m@),
            WireMessage::StartSavegameSettings(m) => WireMessageView::StartSavegameSettings(m@),
            WireMessage::TurnSealed(m) => WireMessageView::TurnSealed(m@),
            WireMessage::StateHash(m) => WireMessageView::StateHash(m@),
            WireMessage::WrongHashPlayers(m) => WireMessageView::WrongHashPlayers(m@),
            WireMessage::PlayerCommand(m) => WireMessageView::PlayerCommand(m@),
            WireMessage::Flare(m) => WireMessageView::Flare(m@),
        }
    }
}

impl Clone for WireMessage {
    fn clone(&self) -> (r: Self)
        ensures
            r@ == self@,
    {
        match self {
            WireMessage::Syn(m) => WireMessage::Syn(m.clone()),
            WireMessage::SynAck(m) => WireMessage::SynAck(m.clone()),
            WireMessage::Ack(m) => WireMessage::Ack(m.clone()),
            WireMessage::Authenticate(m) => WireMessage::Authenticate(m.clone()),
            WireMessage::AuthenticateResult(m) => WireMessage::AuthenticateResult(m.clone()),
            WireMessage::Chat(m) => WireMessage::Chat(m.clone()),
            WireMessage::PreGameStatus(m) => WireMessage::PreGameStatus(m.clone()),
            WireMessage::ResetPregameStatus => WireMessage::ResetPregameStatus,
            WireMessage::GameSettings(m) => WireMessage::GameSettings(m.clone()),
            WireMessage::MapPlayerIdToSlot(m) => WireMessage::MapPlayerIdToSlot(m.clone()),
            WireMessage::PlayerSlots(m) => WireMessage::PlayerSlots(m.clone()),
            WireMessage::GamestateRequest(m) => WireMessage::GamestateRequest(*m),
            WireMessage::GamestateResponse(m) => WireMessage::GamestateResponse(*m),
            WireMessage::GamestateChunk(m) => WireMessage::GamestateChunk(m.clone()),
            WireMessage::GamestateChunkAck(m) => WireMessage::GamestateChunkAck(*m),
            WireMessage::Join(m) => WireMessage::Join(m.clone()),
            WireMessage::Joined(m) => WireMessage::Joined(m.clone()),
            WireMessage::Kicked(m) => WireMessage::Kicked(m.clone()),
            WireMessage::LastSeen(m) => WireMessage::LastSeen(m.clone()),
            WireMessage::LaggingClients(m) => WireMessage::LaggingClients(m.clone()),
            WireMessage::PlayersLoading(m) => WireMessage::PlayersLoading(m.clone()),
            WireMessage::PlayerPause(m) => WireMessage::PlayerPause(m.clone()),
            WireMessage::LoadedGame(m) => WireMessage::LoadedGame(*m),
            WireMessage::StartSettings(m) => WireMessage::StartSettings(m.clone()),
            WireMessage::StartSavegameSettings(m) => WireMessage::StartSavegameSettings(m.clone()),
            WireMessage::TurnSealed(m) => WireMessage::TurnSealed(*m),
            WireMessage::StateHash(m) => WireMessage::StateHash(m.clone()),
            WireMessage::WrongHashPlayers(m) => WireMessage::WrongHashPlayers(m.clone()),
            WireMessage::PlayerCommand(m) => WireMessage::PlayerCommand(m.clone()),
            WireMessage::Flare(m) => WireMessage::Flare(m.clone()),
        }
    }
}

/// The name of each message, in the order of their numbers, and of the events a
/// client counts as messages.
pub const ALL_NAMES: [&'static str; 33] = [
    "Syn",
    "SynAck",
    "Ack",
    "Authenticate",
    "AuthenticateResult",
    "Chat",
    "PreGameStatus",
    "ResetPregameStatus",
    "GameSettings",
    "MapPlayerIdToSlot",
    "PlayerSlots",
    "GamestateRequest",
    "GamestateResponse",
    "GamestateChunk",
    "GamestateChunkAck",
    "Join",
    "Joined",
    "Kicked",
    "LastSeen",
    "LaggingClients",
    "PlayersLoading",
    "PlayerPause",
    "LoadedGame",
    "StartSettings",
    "StartSavegameSettings",
    "TurnSealed",
    "StateHash",
    "WrongHashPlayers",
    "PlayerCommand",
    "Flare",
    "ConnectComplete",
    "ConnectionLost",
    "Invalid",
];

/// The bytes of a packet: the type, the packet's size in 16 bits and the body.
pub open spec fn framed(id: u8, body: Seq<u8>) -> Seq<u8> {
    seq![id] + utils::be16_bytes(((body.len() + 3) % 0x1_0000) as u16) + body
}

proof fn lemma_framed(id: u8, body: Seq<u8>)
    requires
        body.len() + 3 < 0x1_0000,
    ensures
        framed(id, body).len() == body.len() + 3,
        framed(id, body)[0] == id,
        utils::be16_at(framed(id, body), 1) == body.len() + 3,
        framed(id, body).skip(3) == body,
{
    let size = utils::be16_bytes((body.len() + 3) as u16);
    utils::lemma_occurs(seq![id], size, body);
    utils::lemma_be16(framed(id, body), 1, (body.len() + 3) as u16);
    assert(framed(id, body).skip(3) =~= body);
}

fn frame(id: u8, body: &Vec<u8>) -> (r: Vec<u8>)
    ensures
        r@ == framed(id, body@),
{
    let size: u16 = ((body.len() % 0x1_0000 + 3) % 0x1_0000) as u16;
    let mut bytes: Vec<u8> = Vec::new();
    bytes.push(id);
    utils::put_be16(&mut bytes, size);
    utils::put_bytes(&mut bytes, body.as_slice());
    assert(bytes@ =~= framed(id, body@));
    bytes
}

impl WireMessageView {
    /// The number that tells a message's type on the wire.
    pub open spec fn id(self) -> u8 {
        match self {
            WireMessageView::Syn(_) => 1,
            WireMessageView::SynAck(_) => 2,
            WireMessageView::Ack(_) => 3,
            WireMessageView::Authenticate(_) => 4,
            WireMessageView::AuthenticateResult(_) => 5,
            WireMessageView::Chat(_) => 6,
            WireMessageView::PreGameStatus(_) => 7,
            WireMessageView::ResetPregameStatus => 8,
            WireMessageView::GameSettings(_) => 9,
            WireMessageView::MapPlayerIdToSlot(_) => 10,
            WireMessageView::PlayerSlots(_) => 11,
            WireMessageView::GamestateRequest(_) => 12,
            WireMessageView::GamestateResponse(_) => 13,
            WireMessageView::GamestateChunk(_) => 14,
            WireMessageView::GamestateChunkAck(_) => 15,
            WireMessageView::Join(_) => 16,
            WireMessageView::Joined(_) => 17,
            WireMessageView::Kicked(_) => 18,
            WireMessageView::LastSeen(_) => 19,
            WireMessageView::LaggingClients(_) => 20,
            WireMessageView::PlayersLoading(_) => 21,
            WireMessageView::PlayerPause(_) => 22,
            WireMessageView::LoadedGame(_) => 23,
            WireMessageView::StartSettings(_) => 24,
            WireMessageView::StartSavegameSettings(_) => 25,
            WireMessageView::TurnSealed(_) => 26,
            WireMessageView::StateHash(_) => 27,
            WireMessageView::WrongHashPlayers(_) => 28,
            WireMessageView::PlayerCommand(_) => 29,
            WireMessageView::Flare(_) => 30,
        }
    }

    /// The name of a message's type.
    pub open spec fn name(self) -> &'static str {
        match self {
            WireMessageView::Syn(_) => "Syn",
            WireMessageView::SynAck(_) => "SynAck",
            WireMessageView::Ack(_) => "Ack",
            WireMessageView::Authenticate(_) => "Authenticate",
            WireMessageView::AuthenticateResult(_) => "AuthenticateResult",
            WireMessageView::Chat(_) => "Chat",
            WireMessageView::PreGameStatus(_) => "PreGameStatus",
            WireMessageView::ResetPregameStatus => "ResetPregameStatus",
            WireMessageView::GameSettings(_) => "GameSettings",
            WireMessageView::MapPlayerIdToSlot(_) => "MapPlayerIdToSlot",
            WireMessageView::PlayerSlots(_) => "PlayerSlots",
            WireMessageView::GamestateRequest(_) => "GamestateRequest",
            WireMessageView::GamestateResponse(_) => "GamestateResponse",
            WireMessageView::GamestateChunk(_) => "GamestateChunk",
            WireMessageView::GamestateChunkAck(_) => "GamestateChunkAck",
            WireMessageView::Join(_) => "Join",
            WireMessageView::Joined(_) => "Joined",
            WireMessageView::Kicked(_) => "Kicked",
            WireMessageView::LastSeen(_) => "LastSeen",
            WireMessageView::LaggingClients(_) => "LaggingClients",
            WireMessageView::PlayersLoading(_) => "PlayersLoading",
            WireMessageView::PlayerPause(_) => "PlayerPause",
            WireMessageView::LoadedGame(_) => "LoadedGame",
            WireMessageView::StartSettings(_) => "StartSettings",
            WireMessageView::StartSavegameSettings(_) => "StartSavegameSettings",
            WireMessageView::TurnSealed(_) => "TurnSealed",
            WireMessageView::StateHash(_) => "StateHash",
            WireMessageView::WrongHashPlayers(_) => "WrongHashPlayers",
            WireMessageView::PlayerCommand(_) => "PlayerCommand",
            WireMessageView::Flare(_) => "Flare",
        }
    }

    /// The bytes of a message's body.
    pub open spec fn body(self) -> Seq<u8> {
        match self {
            WireMessageView::Syn(m) => m.bytes(),
            WireMessageView::SynAck(m) => m.bytes(),
            WireMessageView::Ack(m) => m.bytes(),
            WireMessageView::Authenticate(m) => m.bytes(),
            WireMessageView::AuthenticateResult(m) => m.bytes(),
            WireMessageView::Chat(m) => m.bytes(),
            WireMessageView::PreGameStatus(m) => m.bytes(),
            WireMessageView::ResetPregameStatus => Seq::empty(),
            WireMessageView::GameSettings(m) => m.bytes(),
            WireMessageView::MapPlayerIdToSlot(m) => m.bytes(),
            WireMessageView::PlayerSlots(m) => m.bytes(),
            WireMessageView::GamestateRequest(m) => m.bytes(),
            WireMessageView::GamestateResponse(m) => m.bytes(),
            WireMessageView::GamestateChunk(m) => m.bytes(),
            WireMessageView::GamestateChunkAck(m) => m.bytes(),
            WireMessageView::Join(m) => m.bytes(),
            WireMessageView::Joined(m) => m.bytes(),
            WireMessageView::Kicked(m) => m.bytes(),
            WireMessageView::LastSeen(m) => m.bytes(),
            WireMessageView::LaggingClients(m) => m.bytes(),
            WireMessageView::PlayersLoading(m) => m.bytes(),
            WireMessageView::PlayerPause(m) => m.bytes(),
            WireMessageView::LoadedGame(m) => m.bytes(),
            WireMessageView::StartSettings(m) => m.bytes(),
            WireMessageView::StartSavegameSettings(m) => m.bytes(),
            WireMessageView::TurnSealed(m) => m.bytes(),
            WireMessageView::StateHash(m) => m.bytes(),
            WireMessageView::WrongHashPlayers(m) => m.bytes(),
            WireMessageView::PlayerCommand(m) => m.bytes(),
            WireMessageView::Flare(m) => m.bytes(),
        }
    }

    /// The bytes of a whole packet: the type, the packet's size in 16 bits and
    /// the body. A longer packet's size is cut to its low 16 bits.
    pub open spec fn bytes(self) -> Seq<u8> {
        framed(self.id(), self.body())
    }

    /// Whether the wire can carry it: what reads back is what was written.
    pub open spec fn fits(self) -> bool {
        &&& self.body().len() + 3 < 0x1_0000
        &&& match self {
            WireMessageView::Syn(m) => m.fits(),
            WireMessageView::SynAck(m) => m.fits(),
            WireMessageView::Ack(m) => m.fits(),
            WireMessageView::Authenticate(m) => m.fits(),
            WireMessageView::AuthenticateResult(m) => m.fits(),
            WireMessageView::Chat(m) => m.fits(),
            WireMessageView::PreGameStatus(m) => m.fits(),
            WireMessageView::ResetPregameStatus => true,
            WireMessageView::GameSettings(m) => m.fits(),
            WireMessageView::MapPlayerIdToSlot(m) => m.fits(),
            WireMessageView::PlayerSlots(m) => m.fits(),
            WireMessageView::GamestateRequest(_) => true,
            WireMessageView::GamestateResponse(_) => true,
            WireMessageView::GamestateChunk(m) => m.fits(),
            WireMessageView::GamestateChunkAck(_) => true,
            WireMessageView::Join(m) => m.fits(),
            WireMessageView::Joined(m) => m.fits(),
            WireMessageView::Kicked(m) => m.fits(),
            WireMessageView::LastSeen(m) => m.fits(),
            WireMessageView::LaggingClients(m) => m.fits(),
            WireMessageView::PlayersLoading(m) => m.fits(),
            WireMessageView::PlayerPause(m) => m.fits(),
            WireMessageView::LoadedGame(_) => true,
            WireMessageView::StartSettings(m) => m.fits(),
            WireMessageView::StartSavegameSettings(m) => m.fits(),
            WireMessageView::TurnSealed(_) => true,
            WireMessageView::StateHash(m) => m.fits(),
            WireMessageView::WrongHashPlayers(m) => m.fits(),
            WireMessageView::PlayerCommand(m) => m.fits(),
            WireMessageView::Flare(m) => m.fits(),
        }
    }

    /// The message of the given type that a body holds.
    pub open spec fn parse_body(msg_type: u8, b: Seq<u8>) -> Result<WireMessageView, ParseError> {
        if msg_type == 1 {
            match SynView::parse(b) {
                Ok(m) => Ok(WireMessageView::Syn(m)),
                Err(e) => Err(e),
            }
        } else if msg_type == 2 {
            match SynAckView::parse(b) {
                Ok(m) => Ok(WireMessageView::SynAck(m)),
                Err(e) => Err(e),
            }
        } else if msg_type == 3 {
            match AckView::parse(b) {
                Ok(m) => Ok(WireMessageView::Ack(m)),
                Err(e) => Err(e),
            }
        } else if msg_type == 4 {
            match AuthenticateView::parse(b) {
                Ok(m) => Ok(WireMessageView::Authenticate(m)),
                Err(e) => Err(e),
            }
        } else if msg_type == 5 {
            match AuthenticateResultView::parse(b) {
                Ok(m) => Ok(WireMessageView::AuthenticateResult(m)),
                Err(e) => Err(e),
            }
        } else if msg_type == 6 {
            match ChatView::parse(b) {
                Ok(m) => Ok(WireMessageView::Chat(m)),
                Err(e) => Err(e),
            }
        } else if msg_type == 7 {
            match PreGameStatusView::parse(b) {
                Ok(m) => Ok(WireMessageView::PreGameStatus(m)),
                Err(e) => Err(e),
            }
        } else if msg_type == 8 {
            Ok(WireMessageView::ResetPregameStatus)
        } else if msg_type == 9 {
            match GameSettingsView::parse(b) {
                Ok(m) => Ok(WireMessageView::GameSettings(m)),
                Err(e) => Err(e),
            }
        } else if msg_type == 10 {
            match MapPlayerIdToSlotView::parse(b) {
                Ok(m) => Ok(WireMessageView::MapPlayerIdToSlot(m)),
                Err(e) => Err(e),
            }
        } else if msg_type == 11 {
            match PlayerSlotsView::parse(b) {
                Ok(m) => Ok(WireMessageView::PlayerSlots(m)),
                Err(e) => Err(e),
            }
        } else if msg_type == 12 {
            match GamestateRequest::parse(b) {
                Ok(m) => Ok(WireMessageView::GamestateRequest(m)),
                Err(e) => Err(e),
            }
        } else if msg_type == 13 {
            match GamestateResponse::parse(b) {
                Ok(m) => Ok(WireMessageView::GamestateResponse(m)),
                Err(e) => Err(e),
            }
        } else if msg_type == 14 {
            match GamestateChunkView::parse(b) {
                Ok(m) => Ok(WireMessageView::GamestateChunk(m)),
                Err(e) => Err(e),
            }
        } else if msg_type == 15 {
            match GamestateChunkAck::parse(b) {
                Ok(m) => Ok(WireMessageView::GamestateChunkAck(m)),
                Err(e) => Err(e),
            }
        } else if msg_type == 16 {
            match JoinView::parse(b) {
                Ok(m) => Ok(WireMessageView::Join(m)),
                Err(e) => Err(e),
            }
        } else if msg_type == 17 {
            match JoinedView::parse(b) {
                Ok(m) => Ok(WireMessageView::Joined(m)),
                Err(e) => Err(e),
            }
        } else if msg_type == 18 {
            match KickedView::parse(b) {
                Ok(m) => Ok(WireMessageView::Kicked(m)),
                Err(e) => Err(e),
            }
        } else if msg_type == 19 {
            match LastSeenView::parse(b) {
                Ok(m) => Ok(WireMessageView::LastSeen(m)),
                Err(e) => Err(e),
            }
        } else if msg_type == 20 {
            match LaggingClientsView::parse(b) {
                Ok(m) => Ok(WireMessageView::LaggingClients(m)),
                Err(e) => Err(e),
            }
        } else if msg_type == 21 {
            match PlayersLoadingView::parse(b) {
                Ok(m) => Ok(WireMessageView::PlayersLoading(m)),
                Err(e) => Err(e),
            }
        } else if msg_type == 22 {
            match PlayerPauseView::parse(b) {
                Ok(m) => Ok(WireMessageView::PlayerPause(m)),
                Err(e) => Err(e),
            }
        } else if msg_type == 23 {
            match LoadedGame::parse(b) {
                Ok(m) => Ok(WireMessageView::LoadedGame(m)),
                Err(e) => Err(e),
            }
        } else if msg_type == 24 {
            match StartSettingsView::parse(b) {
                Ok(m) => Ok(WireMessageView::StartSettings(m)),
                Err(e) => Err(e),
            }
        } else if msg_type == 25 {
            match StartSavegameSettingsView::parse(b) {
                Ok(m) => Ok(WireMessageView::StartSavegameSettings(m)),
                Err(e) => Err(e),
            }
        } else if msg_type == 26 {
            match TurnSealed::parse(b) {
                Ok(m) => Ok(WireMessageView::TurnSealed(m)),
                Err(e) => Err(e),
            }
        } else if msg_type == 27 {
            match StateHashView::parse(b) {
                Ok(m) => Ok(WireMessageView::StateHash(m)),
                Err(e) => Err(e),
            }
        } else if msg_type == 28 {
            match WrongHashPlayersView::parse(b) {
                Ok(m) => Ok(WireMessageView::WrongHashPlayers(m)),
                Err(e) => Err(e),
            }
        } else if msg_type == 29 {
            match PlayerCommandView::parse(b) {
                Ok(m) => Ok(WireMessageView::PlayerCommand(m)),
                Err(e) => Err(e),
            }
        } else if msg_type == 30 {
            match FlareView::parse(b) {
                Ok(m) => Ok(WireMessageView::Flare(m)),
                Err(e) => Err(e),
            }
        } else {
            Err(ParseError::UnknownType(msg_type))
        }
    }

    /// The message a packet holds. One packet is one message, so a declared
    /// size that is not the packet's length means it is not one whole message.
    pub open spec fn parse(b: Seq<u8>) -> Result<WireMessageView, ParseError> {
        if b.len() < 3 {
            Err(ParseError::Truncated { field: "header" })
        } else if b.len() != utils::be16_at(b, 1) {
            Err(
                ParseError::SizeMismatch {
                    declared: utils::be16_at(b, 1) as usize,
                    actual: b.len() as usize,
                },
            )
        } else {
            Self::parse_body(b[0], b.skip(3))
        }
    }

    /// A body reads back as the message it was written from.
    #[verifier::rlimit(60)]
    #[verifier::spinoff_prover]
    proof fn body_round_trip(self)
        requires
            self.fits(),
        ensures
            Self::parse_body(self.id(), self.body()) == Ok::<WireMessageView, ParseError>(self),
    {
        match self {
            WireMessageView::Syn(m) => m.round_trip(),
            WireMessageView::SynAck(m) => m.round_trip(),
            WireMessageView::Ack(m) => m.round_trip(),
            WireMessageView::Authenticate(m) => m.round_trip(),
            WireMessageView::AuthenticateResult(m) => m.round_trip(),
            WireMessageView::Chat(m) => m.round_trip(),
            WireMessageView::PreGameStatus(m) => m.round_trip(),
            WireMessageView::ResetPregameStatus => {},
            WireMessageView::GameSettings(m) => m.round_trip(),
            WireMessageView::MapPlayerIdToSlot(m) => m.round_trip(),
            WireMessageView::PlayerSlots(m) => m.round_trip(),
            WireMessageView::GamestateRequest(m) => m.round_trip(),
            WireMessageView::GamestateResponse(m) => m.round_trip(),
            WireMessageView::GamestateChunk(m) => m.round_trip(),
            WireMessageView::GamestateChunkAck(m) => m.round_trip(),
            WireMessageView::Join(m) => m.round_trip(),
            WireMessageView::Joined(m) => m.round_trip(),
            WireMessageView::Kicked(m) => m.round_trip(),
            WireMessageView::LastSeen(m) => m.round_trip(),
            WireMessageView::LaggingClients(m) => m.round_trip(),
            WireMessageView::PlayersLoading(m) => m.round_trip(),
            WireMessageView::PlayerPause(m) => m.round_trip(),
            WireMessageView::LoadedGame(m) => m.round_trip(),
            WireMessageView::StartSettings(m) => m.round_trip(),
            WireMessageView::StartSavegameSettings(m) => m.round_trip(),
            WireMessageView::TurnSealed(m) => m.round_trip(),
            WireMessageView::StateHash(m) => m.round_trip(),
            WireMessageView::WrongHashPlayers(m) => m.round_trip(),
            WireMessageView::PlayerCommand(m) => m.round_trip(),
            WireMessageView::Flare(m) => m.round_trip(),
        }
    }

    /// A packet reads back as the message it was written from.
    pub proof fn round_trip(self)
        requires
            self.fits(),
        ensures
            Self::parse(self.bytes()) == Ok::<WireMessageView, ParseError>(self),
    {
        lemma_framed(self.id(), self.body());
        self.body_round_trip();
    }
}

impl WireMessage {
    pub fn id(&self) -> (r: u8)
        ensures
            r == self@.id(),
    {
        match self {
            WireMessage::Syn(_) => 1,
            WireMessage::SynAck(_) => 2,
            WireMessage::Ack(_) => 3,
            WireMessage::Authenticate(_) => 4,
            WireMessage::AuthenticateResult(_) => 5,
            WireMessage::Chat(_) => 6,
            WireMessage::PreGameStatus(_) => 7,
            WireMessage::ResetPregameStatus => 8,
            WireMessage::GameSettings(_) => 9,
            WireMessage::MapPlayerIdToSlot(_) => 10,
            WireMessage::PlayerSlots(_) => 11,
            WireMessage::GamestateRequest(_) => 12,
            WireMessage::GamestateResponse(_) => 13,
            WireMessage::GamestateChunk(_) => 14,
            WireMessage::GamestateChunkAck(_) => 15,
            WireMessage::Join(_) => 16,
            WireMessage::Joined(_) => 17,
            WireMessage::Kicked(_) => 18,
            WireMessage::LastSeen(_) => 19,
            WireMessage::LaggingClients(_) => 20,
            WireMessage::PlayersLoading(_) => 21,
            WireMessage::PlayerPause(_) => 22,
            WireMessage::LoadedGame(_) => 23,
            WireMessage::StartSettings(_) => 24,
            WireMessage::StartSavegameSettings(_) => 25,
            WireMessage::TurnSealed(_) => 26,
            WireMessage::StateHash(_) => 27,
            WireMessage::WrongHashPlayers(_) => 28,
            WireMessage::PlayerCommand(_) => 29,
            WireMessage::Flare(_) => 30,
        }
    }

    pub fn name(&self) -> (r: &'static str)
        ensures
            r == self@.name(),
    {
        match self {
            WireMessage::Syn(_) => "Syn",
            WireMessage::SynAck(_) => "SynAck",
            WireMessage::Ack(_) => "Ack",
            WireMessage::Authenticate(_) => "Authenticate",
            WireMessage::AuthenticateResult(_) => "AuthenticateResult",
            WireMessage::Chat(_) => "Chat",
            WireMessage::PreGameStatus(_) => "PreGameStatus",
            WireMessage::ResetPregameStatus => "ResetPregameStatus",
            WireMessage::GameSettings(_) => "GameSettings",
            WireMessage::MapPlayerIdToSlot(_) => "MapPlayerIdToSlot",
            WireMessage::PlayerSlots(_) => "PlayerSlots",
            WireMessage::GamestateRequest(_) => "GamestateRequest",
            WireMessage::GamestateResponse(_) => "GamestateResponse",
            WireMessage::GamestateChunk(_) => "GamestateChunk",
            WireMessage::GamestateChunkAck(_) => "GamestateChunkAck",
            WireMessage::Join(_) => "Join",
            WireMessage::Joined(_) => "Joined",
            WireMessage::Kicked(_) => "Kicked",
            WireMessage::LastSeen(_) => "LastSeen",
            WireMessage::LaggingClients(_) => "LaggingClients",
            WireMessage::PlayersLoading(_) => "PlayersLoading",
            WireMessage::PlayerPause(_) => "PlayerPause",
            WireMessage::LoadedGame(_) => "LoadedGame",
            WireMessage::StartSettings(_) => "StartSettings",
            WireMessage::StartSavegameSettings(_) => "StartSavegameSettings",
            WireMessage::TurnSealed(_) => "TurnSealed",
            WireMessage::StateHash(_) => "StateHash",
            WireMessage::WrongHashPlayers(_) => "WrongHashPlayers",
            WireMessage::PlayerCommand(_) => "PlayerCommand",
            WireMessage::Flare(_) => "Flare",
        }
    }

    /// The bytes of the body.
    #[verifier::rlimit(60)]
    #[verifier::spinoff_prover]
    fn body_bytes(&self) -> (r: Vec<u8>)
        ensures
            r@ == self@.body(),
    {
        match self {
            WireMessage::Syn(m) => m.to_bytes(),
            WireMessage::SynAck(m) => m.to_bytes(),
            WireMessage::Ack(m) => m.to_bytes(),
            WireMessage::Authenticate(m) => m.to_bytes(),
            WireMessage::AuthenticateResult(m) => m.to_bytes(),
            WireMessage::Chat(m) => m.to_bytes(),
            WireMessage::PreGameStatus(m) => m.to_bytes(),
            WireMessage::ResetPregameStatus => Vec::new(),
            WireMessage::GameSettings(m) => m.to_bytes(),
            WireMessage::MapPlayerIdToSlot(m) => m.to_bytes(),
            WireMessage::PlayerSlots(m) => m.to_bytes(),
            WireMessage::GamestateRequest(m) => m.to_bytes(),
            WireMessage::GamestateResponse(m) => m.to_bytes(),
            WireMessage::GamestateChunk(m) => m.to_bytes(),
            WireMessage::GamestateChunkAck(m) => m.to_bytes(),
            WireMessage::Join(m) => m.to_bytes(),
            WireMessage::Joined(m) => m.to_bytes(),
            WireMessage::Kicked(m) => m.to_bytes(),
            WireMessage::LastSeen(m) => m.to_bytes(),
            WireMessage::LaggingClients(m) => m.to_bytes(),
            WireMessage::PlayersLoading(m) => m.to_bytes(),
            WireMessage::PlayerPause(m) => m.to_bytes(),
            WireMessage::LoadedGame(m) => m.to_bytes(),
            WireMessage::StartSettings(m) => m.to_bytes(),
            WireMessage::StartSavegameSettings(m) => m.to_bytes(),
            WireMessage::TurnSealed(m) => m.to_bytes(),
            WireMessage::StateHash(m) => m.to_bytes(),
            WireMessage::WrongHashPlayers(m) => m.to_bytes(),
            WireMessage::PlayerCommand(m) => m.to_bytes(),
            WireMessage::Flare(m) => m.to_bytes(),
        }
    }

    pub fn to_bytes(&self) -> (r: Vec<u8>)
        ensures
            r@ == self@.bytes(),
    {
        frame(self.id(), &self.body_bytes())
    }

    pub fn from_bytes(buffer: &[u8]) -> (r: Result<Self, ParseError>)
        ensures
            utils::viewed(r) == WireMessageView::parse(buffer@),
    {
        if buffer.len() < 3 {
            return Err(ParseError::Truncated { field: "header" });
        }
        let msg_type: u8 = buffer[0];
        let declared: usize = buffer[1] as usize * 0x100 + buffer[2] as usize;
        if buffer.len() != declared {
            return Err(ParseError::SizeMismatch { declared, actual: buffer.len() });
        }
        let body = utils::tail(buffer, 3);
        match msg_type {
            1 => Ok(WireMessage::Syn(Syn::from_bytes(body)?)),
            2 => Ok(WireMessage::SynAck(SynAck::from_bytes(body)?)),
            3 => Ok(WireMessage::Ack(Ack::from_bytes(body)?)),
            4 => Ok(WireMessage::Authenticate(Authenticate::from_bytes(body)?)),
            5 => Ok(WireMessage::AuthenticateResult(AuthenticateResult::from_bytes(body)?)),
            6 => Ok(WireMessage::Chat(Chat::from_bytes(body)?)),
            7 => Ok(WireMessage::PreGameStatus(PreGameStatus::from_bytes(body)?)),
            8 => Ok(WireMessage::ResetPregameStatus),
            9 => Ok(WireMessage::GameSettings(GameSettings::from_bytes(body)?)),
            10 => Ok(WireMessage::MapPlayerIdToSlot(MapPlayerIdToSlot::from_bytes(body)?)),
            11 => Ok(WireMessage::PlayerSlots(PlayerSlots::from_bytes(body)?)),
            12 => Ok(WireMessage::GamestateRequest(GamestateRequest::from_bytes(body)?)),
            13 => Ok(WireMessage::GamestateResponse(GamestateResponse::from_bytes(body)?)),
            14 => Ok(WireMessage::GamestateChunk(GamestateChunk::from_bytes(body)?)),
            15 => Ok(WireMessage::GamestateChunkAck(GamestateChunkAck::from_bytes(body)?)),
            16 => Ok(WireMessage::Join(Join::from_bytes(body)?)),
            17 => Ok(WireMessage::Joined(Joined::from_bytes(body)?)),
            18 => Ok(WireMessage::Kicked(Kicked::from_bytes(body)?)),
            19 => Ok(WireMessage::LastSeen(LastSeen::from_bytes(body)?)),
            20 => Ok(WireMessage::LaggingClients(LaggingClients::from_bytes(body)?)),
            21 => Ok(WireMessage::PlayersLoading(PlayersLoading::from_bytes(body)?)),
            22 => Ok(WireMessage::PlayerPause(PlayerPause::from_bytes(body)?)),
            23 => Ok(WireMessage::LoadedGame(LoadedGame::from_bytes(body)?)),
            24 => Ok(WireMessage::StartSettings(StartSettings::from_bytes(body)?)),
            25 => Ok(WireMessage::StartSavegameSettings(StartSavegameSettings::from_bytes(body)?)),
            26 => Ok(WireMessage::TurnSealed(TurnSealed::from_bytes(body)?)),
            27 => Ok(WireMessage::StateHash(StateHash::from_bytes(body)?)),
            28 => Ok(WireMessage::WrongHashPlayers(WrongHashPlayers::from_bytes(body)?)),
            29 => Ok(WireMessage::PlayerCommand(PlayerCommand::from_bytes(body)?)),
            30 => Ok(WireMessage::Flare(Flare::from_bytes(body)?)),
            _ => Err(ParseError::UnknownType(msg_type)),
        }
    }
}

} // verus!
