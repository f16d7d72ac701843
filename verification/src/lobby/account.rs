//! One lobby account as it runs: what it does about everything that happens to
//! it. Connections and timers are outside.

use vstd::prelude::*;

use crate::lobby::connection_data;
use crate::lobby::connection_data::Assignment;
use crate::lobby::connection_data::AssignmentView;
use crate::lobby::connection_data::Reply;
use crate::lobby::gamelist;
use crate::lobby::gamelist::Pairs;
use crate::lobby::gamelist::Query;
use crate::lobby::gamelist::QueryView;
use crate::lobby::gamelist::RegisterAttrs;
use crate::lobby::gamelist::RegisterView;
use crate::lobby::link::GameReport;
use crate::lobby::link::GameToLobby;
use crate::lobby::link::GameToLobbyView;
use crate::lobby::link::LobbyMap;
use crate::lobby::link::LobbyMapView;
use crate::lobby::manager::LobbyEvent;
use crate::lobby::manager::LobbyEventView;
use crate::lobby::rating;
use crate::relay::messages::items;
use crate::relay::messages::EnabledMod;
use crate::relay::messages::EnabledModView;
use crate::table::Table;
use crate::utils;

verus! {

/// Milliseconds for which changes to a listing are gathered. A burst of slot
/// changes (a player joining, picking a civilisation, readying up) should cost
/// the game bot one register, not one per change.
pub const REGISTER_DEBOUNCE: u64 = 500;

/// What someone goes by in the room whose name is not known.
pub const UNKNOWN_SENDER: &'static str = "unknown";

/// The nickname of an account whose JID has no name.
pub const FALLBACK_NICK: &'static str = "dedicated";

pub const HOSTME: &'static str = "hostme";

/// How an account goes about it.
#[derive(Debug)]
pub struct AccountConfig {
    pub account: usize,
    /// The full JID the account asks for, which the session will be bound to.
    pub jid: String,
    pub muc_room: String,
    /// The room, as the lobby server writes it.
    pub muc_bare: String,
    pub server_name: String,
    pub has_password: bool,
    /// The nickname where the account is one player's own.
    pub personal: Option<String>,
}

/// What [`AccountConfig`] is.
pub struct AccountConfigView {
    pub account: usize,
    pub jid: Seq<char>,
    pub muc_room: Seq<char>,
    pub muc_bare: Seq<char>,
    pub server_name: Seq<char>,
    pub has_password: bool,
    pub personal: Option<Seq<char>>,
}

impl View for AccountConfig {
    type V = AccountConfigView;

    open spec fn view(&self) -> AccountConfigView {
        AccountConfigView {
            account: self.account,
            jid: self.jid@,
            muc_room: self.muc_room@,
            muc_bare: self.muc_bare@,
            server_name: self.server_name@,
            has_password: self.has_password,
            personal: utils::seen(self.personal),
        }
    }
}

impl AccountConfigView {
    /// What the account goes by in the room.
    pub open spec fn nickname(self, node: Option<Seq<char>>) -> Seq<char> {
        match (self.personal, node) {
            (Some(nick), _) => nick,
            (None, Some(node)) => node,
            (None, None) => FALLBACK_NICK@,
        }
    }

    /// The name that salts the login password. The stock client takes a
    /// player's own as typed, which the JID may not keep.
    pub open spec fn login_name(self, node: Option<Seq<char>>) -> Seq<char> {
        match (self.personal, node) {
            (Some(name), _) => name,
            (None, Some(node)) => node,
            (None, None) => Seq::empty(),
        }
    }

    /// The account in the room.
    pub open spec fn occupant(self, node: Option<Seq<char>>) -> Seq<char> {
        self.muc_room + "/"@ + self.nickname(node)
    }
}

impl AccountConfig {
    /// The account in the room, given the name its session is bound to.
    pub fn muc_occupant(&self, node: Option<&str>) -> (r: String)
        ensures
            r@ == self@.occupant(
                match node {
                    Some(n) => Some(n@),
                    None => None,
                },
            ),
    {
        let mut out = utils::copy_text(self.muc_room.as_str());
        out.append("/");
        match (&self.personal, node) {
            (Some(nick), _) => out.append(nick.as_str()),
            (None, Some(node)) => out.append(node),
            (None, None) => out.append(FALLBACK_NICK),
        }
        out
    }

    /// The name that salts the login password, given the one in the JID.
    pub fn login_name(&self, node: Option<&str>) -> (r: String)
        ensures
            r@ == self@.login_name(
                match node {
                    Some(n) => Some(n@),
                    None => None,
                },
            ),
    {
        match (&self.personal, node) {
            (Some(name), _) => utils::copy_text(name.as_str()),
            (None, Some(node)) => utils::copy_text(node),
            (None, None) => String::new(),
        }
    }
}

/// The game an account hosts.
#[derive(Debug)]
pub struct Assigned {
    pub assignment: Assignment,
    /// Wrong passwords by name, for this game alone.
    pub failures: Table<String, u32>,
    /// The listing has been withdrawn, so it is not withdrawn a second time.
    pub unlisted: bool,
}

/// What [`Assigned`] is.
pub struct AssignedView {
    pub assignment: AssignmentView,
    pub failures: Seq<(Seq<char>, u32)>,
    pub unlisted: bool,
}

impl View for Assigned {
    type V = AssignedView;

    open spec fn view(&self) -> AssignedView {
        AssignedView {
            assignment: self.assignment@,
            failures: self.failures@,
            unlisted: self.unlisted,
        }
    }
}

/// What one account owes the game bot. A window opens on the first change and
/// whatever is newest when it closes is sent.
#[derive(Debug)]
pub struct Registration {
    pub last_sent: Option<Vec<(String, String)>>,
    pub pending: Option<Vec<(String, String)>>,
    pub gathering: bool,
    /// The last change of state sent, kept because a match in progress sends
    /// no further listings that could restore it after a reconnect.
    pub started: Option<(u32, String)>,
}

/// What [`Registration`] is.
pub struct RegistrationView {
    pub last_sent: Option<Pairs>,
    pub pending: Option<Pairs>,
    pub gathering: bool,
    pub started: Option<(u32, Seq<char>)>,
}

pub open spec fn some_pairs(o: Option<Vec<(String, String)>>) -> Option<Pairs> {
    match o {
        Some(v) => Some(gamelist::pairs(v@)),
        None => None,
    }
}

impl View for Registration {
    type V = RegistrationView;

    open spec fn view(&self) -> RegistrationView {
        RegistrationView {
            last_sent: some_pairs(self.last_sent),
            pending: some_pairs(self.pending),
            gathering: self.gathering,
            started: match self.started {
                Some((nbp, players)) => Some((nbp, players@)),
                None => None,
            },
        }
    }
}

/// What an account is to do.
#[derive(Debug)]
pub enum AccountAction {
    /// To the game bot.
    Gamelist(Query),
    /// To the rating bot.
    Rating(Query),
    /// Asks the rating bot.
    Leaderboard(Query),
    JoinRoom,
    /// Shows the player as playing, or not.
    Show { playing: bool },
    /// The window for changes opens.
    Gather,
    Tell(LobbyEvent),
}

/// What [`AccountAction`] is.
pub enum AccountActionView {
    Gamelist(QueryView),
    Rating(QueryView),
    Leaderboard(QueryView),
    JoinRoom,
    Show { playing: bool },
    Gather,
    Tell(LobbyEventView),
}

impl View for AccountAction {
    type V = AccountActionView;

    open spec fn view(&self) -> AccountActionView {
        match *self {
            AccountAction::Gamelist(q) => AccountActionView::Gamelist(q@),
            AccountAction::Rating(q) => AccountActionView::Rating(q@),
            AccountAction::Leaderboard(q) => AccountActionView::Leaderboard(q@),
            AccountAction::JoinRoom => AccountActionView::JoinRoom,
            AccountAction::Show { playing } => AccountActionView::Show { playing },
            AccountAction::Gather => AccountActionView::Gather,
            AccountAction::Tell(e) => AccountActionView::Tell(e@),
        }
    }
}

pub open spec fn registering(attrs: Pairs) -> AccountActionView {
    AccountActionView::Gamelist(gamelist::gamelist_query("register"@, attrs))
}

pub open spec fn changing(nbp: u32, players: Seq<char>) -> AccountActionView {
    AccountActionView::Gamelist(
        gamelist::gamelist_query("changestate"@, gamelist::state_pairs(nbp, players)),
    )
}

pub open spec fn unregistering() -> AccountActionView {
    AccountActionView::Gamelist(gamelist::gamelist_query("unregister"@, Seq::empty()))
}

pub open spec fn reporting(attrs: Pairs) -> AccountActionView {
    AccountActionView::Rating(rating::report_query(attrs))
}

pub open spec fn asking_leaderboard() -> AccountActionView {
    AccountActionView::Leaderboard(
        QueryView {
            root: "query"@,
            ns: rating::NS_BOARDLIST@,
            command: Some("getleaderboard"@),
            game: None,
        },
    )
}

impl RegistrationView {
    /// Nothing is owed.
    pub open spec fn clear() -> RegistrationView {
        RegistrationView { last_sent: None, pending: None, gathering: false, started: None }
    }

    /// A listing is offered; one the bot has already is not sent again.
    pub open spec fn offered(self, attrs: Pairs) -> RegistrationView {
        if self.pending is None && self.last_sent == Some(attrs) {
            self
        } else {
            RegistrationView { pending: Some(attrs), gathering: true, ..self }
        }
    }

    pub open spec fn offer_actions(self, attrs: Pairs) -> Seq<AccountActionView> {
        if (self.pending is None && self.last_sent == Some(attrs)) || self.gathering {
            Seq::empty()
        } else {
            seq![AccountActionView::Gather]
        }
    }

    /// The window closes.
    pub open spec fn flushed(self) -> RegistrationView {
        RegistrationView {
            gathering: false,
            pending: None,
            last_sent: match self.pending {
                Some(attrs) => Some(attrs),
                None => self.last_sent,
            },
            ..self
        }
    }

    pub open spec fn flush_actions(self) -> Seq<AccountActionView> {
        match self.pending {
            Some(attrs) => if self.last_sent == Some(attrs) {
                Seq::empty()
            } else {
                seq![registering(attrs)]
            },
            None => Seq::empty(),
        }
    }

    /// What is listed, newest first.
    pub open spec fn newest(self) -> Option<Pairs> {
        match self.pending {
            Some(attrs) => Some(attrs),
            None => self.last_sent,
        }
    }

    /// The bot forgets a host's game when its session leaves the room, so a
    /// new session has to list it again. The change of state goes after the
    /// register, which resets it.
    pub open spec fn resent(self) -> RegistrationView {
        RegistrationView { gathering: false, pending: None, last_sent: self.newest(), ..self }
    }

    pub open spec fn resend_actions(self) -> Seq<AccountActionView> {
        match self.newest() {
            None => Seq::empty(),
            Some(attrs) => match self.started {
                Some((nbp, players)) => seq![registering(attrs), changing(nbp, players)],
                None => seq![registering(attrs)],
            },
        }
    }
}

/// An account as it runs.
#[derive(Debug)]
pub struct Account {
    pub config: AccountConfig,
    pub assigned: Option<Assigned>,
    pub registration: Registration,
    /// The full JID of the session, while there is one.
    pub bound: Option<String>,
    pub playing: bool,
    pub boardlist_sent: bool,
    pub unsent_reports: Vec<GameReport>,
}

/// What [`Account`] is.
pub struct AccountView {
    pub config: AccountConfigView,
    pub assigned: Option<AssignedView>,
    pub registration: RegistrationView,
    pub bound: Option<Seq<char>>,
    pub playing: bool,
    pub boardlist_sent: bool,
    pub unsent_reports: Seq<Pairs>,
}

impl View for GameReport {
    type V = Pairs;

    open spec fn view(&self) -> Pairs {
        gamelist::pairs(self.attrs@)
    }
}

impl View for Account {
    type V = AccountView;

    open spec fn view(&self) -> AccountView {
        AccountView {
            config: self.config@,
            assigned: utils::seen(self.assigned),
            registration: self.registration@,
            bound: utils::seen(self.bound),
            playing: self.playing,
            boardlist_sent: self.boardlist_sent,
            unsent_reports: items::views(self.unsent_reports@),
        }
    }
}

/// What happens to an account.
#[derive(Debug)]
pub enum AccountEvent {
    Assign { port: u16, password_hash: String },
    Release,
    Game(GameToLobby),
    /// The game is gone: the match has ended.
    GameGone,
    Report(GameReport),
    /// The window for changes is over.
    Gathered,
    /// The connection is up, as a session that was kept or a new one.
    Online { bound: String, resumed: bool },
    /// The stream ended for good; a new connection takes its place.
    StreamEnded,
    Shutdown,
}

/// What [`AccountEvent`] is.
pub enum AccountEventView {
    Assign { port: u16, password_hash: Seq<char> },
    Release,
    Game(GameToLobbyView),
    GameGone,
    Report(Pairs),
    Gathered,
    Online { bound: Seq<char>, resumed: bool },
    StreamEnded,
    Shutdown,
}

impl View for AccountEvent {
    type V = AccountEventView;

    open spec fn view(&self) -> AccountEventView {
        match *self {
            AccountEvent::Assign { port, password_hash } => AccountEventView::Assign {
                port,
                password_hash: password_hash@,
            },
            AccountEvent::Release => AccountEventView::Release,
            AccountEvent::Game(m) => AccountEventView::Game(m@),
            AccountEvent::GameGone => AccountEventView::GameGone,
            AccountEvent::Report(report) => AccountEventView::Report(report@),
            AccountEvent::Gathered => AccountEventView::Gathered,
            AccountEvent::Online { bound, resumed } => AccountEventView::Online {
                bound: bound@,
                resumed,
            },
            AccountEvent::StreamEnded => AccountEventView::StreamEnded,
            AccountEvent::Shutdown => AccountEventView::Shutdown,
        }
    }
}

/// A message in the room, as far as an account looks at it.
#[derive(Debug)]
pub struct RoomMessage {
    pub groupchat: bool,
    /// Whom it is from, without and only the part behind the slash.
    pub from_bare: Option<String>,
    pub from_resource: Option<String>,
    /// History replayed after a reconnect, not a live command.
    pub delayed: bool,
    pub body: Option<String>,
}

/// What [`RoomMessage`] is.
pub struct RoomMessageView {
    pub groupchat: bool,
    pub from_bare: Option<Seq<char>>,
    pub from_resource: Option<Seq<char>>,
    pub delayed: bool,
    pub body: Option<Seq<char>>,
}

impl View for RoomMessage {
    type V = RoomMessageView;

    open spec fn view(&self) -> RoomMessageView {
        RoomMessageView {
            groupchat: self.groupchat,
            from_bare: utils::seen(self.from_bare),
            from_resource: utils::seen(self.from_resource),
            delayed: self.delayed,
            body: utils::seen(self.body),
        }
    }
}

impl AccountView {
    /// A fresh account.
    pub open spec fn fresh(config: AccountConfigView) -> AccountView {
        AccountView {
            config,
            assigned: None,
            registration: RegistrationView::clear(),
            bound: None,
            playing: false,
            boardlist_sent: false,
            unsent_reports: Seq::empty(),
        }
    }

    pub open spec fn wf(self) -> bool {
        self.assigned matches Some(a) ==> a.assignment.wf()
    }

    /// The player shown as playing, or not. Only a change counts, and only
    /// where the account is a player's own.
    pub open spec fn showing(self, playing: bool) -> AccountView {
        if self.config.personal is None {
            self
        } else {
            AccountView { playing, ..self }
        }
    }

    pub open spec fn show_actions(self, playing: bool) -> Seq<AccountActionView> {
        if self.config.personal is None || self.playing == playing || self.bound is None {
            Seq::empty()
        } else {
            seq![AccountActionView::Show { playing }]
        }
    }

    pub open spec fn with_unlisted(self, unlisted: bool) -> AccountView {
        AccountView {
            assigned: match self.assigned {
                Some(a) => Some(AssignedView { unlisted, ..a }),
                None => None,
            },
            ..self
        }
    }

    pub open spec fn is_unlisted(self) -> bool {
        self.assigned matches Some(a) && a.unlisted
    }

    /// What the game is listed as.
    pub open spec fn listing(
        self,
        host_username: Seq<char>,
        nbp: u32,
        players: Seq<char>,
        map: Option<LobbyMapView>,
        mods: Seq<EnabledModView>,
    ) -> Pairs {
        gamelist::listed_as(
            RegisterView {
                server_name: self.config.server_name,
                mods,
                host_username,
                host_jid: match self.bound {
                    Some(jid) => jid,
                    None => self.config.jid,
                },
                nbp,
                players,
                has_password: self.config.has_password,
                map,
            },
        )
    }

    pub open spec fn after_game(self, message: GameToLobbyView) -> AccountView {
        match message {
            GameToLobbyView::Listing { host_username, nbp, players, map, mods } => AccountView {
                registration: self.registration.offered(
                    self.listing(host_username, nbp, players, map, mods),
                ),
                ..self
            }.with_unlisted(false).showing(true),
            GameToLobbyView::Started { nbp, players } => {
                let registration = if self.bound is Some {
                    self.registration.flushed()
                } else {
                    self.registration
                };
                AccountView {
                    registration: RegistrationView {
                        started: Some((nbp, players)),
                        ..registration
                    },
                    ..self
                }
            },
            GameToLobbyView::Ended => AccountView {
                registration: RegistrationView::clear(),
                ..self
            }.with_unlisted(true),
            GameToLobbyView::Unlisted => AccountView {
                registration: RegistrationView::clear(),
                ..self
            }.with_unlisted(true).showing(false),
        }
    }

    /// What comes of what the game says. A listing is kept even while there is
    /// no session, and only the sending waits.
    pub open spec fn game_actions(self, message: GameToLobbyView) -> Seq<AccountActionView> {
        match message {
            GameToLobbyView::Listing { host_username, nbp, players, map, mods } => {
                self.registration.offer_actions(
                    self.listing(host_username, nbp, players, map, mods),
                ) + self.show_actions(true)
            },
            GameToLobbyView::Started { nbp, players } => if self.bound is Some {
                self.registration.flush_actions() + seq![changing(nbp, players)]
            } else {
                Seq::empty()
            },
            GameToLobbyView::Ended => self.withdrawing(false),
            GameToLobbyView::Unlisted => self.withdrawing(self.is_unlisted()) + self.show_actions(
                false,
            ),
        }
    }

    pub open spec fn withdrawing(self, already: bool) -> Seq<AccountActionView> {
        if self.bound is Some && !already {
            seq![unregistering()]
        } else {
            Seq::empty()
        }
    }

    /// The account after something happened to it.
    pub open spec fn after(self, event: AccountEventView) -> AccountView {
        match event {
            AccountEventView::Assign { port, password_hash } => AccountView {
                assigned: Some(
                    AssignedView {
                        assignment: AssignmentView { port, password_hash },
                        failures: Seq::empty(),
                        unlisted: false,
                    },
                ),
                registration: RegistrationView::clear(),
                ..self
            },
            AccountEventView::Release => AccountView {
                assigned: None,
                registration: RegistrationView::clear(),
                ..self
            }.showing(false),
            AccountEventView::Game(message) => self.after_game(message),
            AccountEventView::GameGone => AccountView {
                assigned: None,
                registration: RegistrationView::clear(),
                ..self
            }.showing(false),
            AccountEventView::Report(report) => if self.bound is Some {
                self
            } else {
                AccountView { unsent_reports: self.unsent_reports.push(report), ..self }
            },
            AccountEventView::Gathered => AccountView {
                registration: if self.bound is Some {
                    self.registration.flushed()
                } else {
                    RegistrationView { gathering: false, ..self.registration }
                },
                ..self
            },
            AccountEventView::Online { bound, resumed } => {
                let online = AccountView {
                    bound: Some(bound),
                    registration: if resumed {
                        self.registration
                    } else {
                        self.registration.resent()
                    },
                    ..self
                };
                if self.config.personal is Some {
                    AccountView {
                        boardlist_sent: true,
                        unsent_reports: Seq::empty(),
                        ..online
                    }
                } else {
                    online
                }
            },
            AccountEventView::StreamEnded => AccountView { bound: None, ..self },
            AccountEventView::Shutdown => self,
        }
    }

    /// Reports sent, for a player's own account.
    pub open spec fn report_actions(self, reports: Seq<Pairs>) -> Seq<AccountActionView> {
        if self.config.personal is Some {
            reports.map_values(|attrs: Pairs| reporting(attrs))
        } else {
            Seq::empty()
        }
    }

    /// What a player's own account does first. The leaderboard is asked for
    /// once, as the stock client does from its login page.
    pub open spec fn greeting(self) -> Seq<AccountActionView> {
        if self.config.personal is None {
            Seq::empty()
        } else {
            (if self.playing {
                seq![AccountActionView::Show { playing: true }]
            } else {
                Seq::empty()
            }) + (if self.boardlist_sent {
                Seq::empty()
            } else {
                seq![asking_leaderboard()]
            }) + self.report_actions(self.unsent_reports)
        }
    }

    /// What is done about something that happened.
    pub open spec fn actions(self, event: AccountEventView) -> Seq<AccountActionView> {
        match event {
            AccountEventView::Assign { .. } => Seq::empty(),
            AccountEventView::Release => self.show_actions(false),
            AccountEventView::Game(message) => self.game_actions(message),
            AccountEventView::GameGone => self.withdrawing(self.is_unlisted())
                + self.show_actions(false) + seq![
                AccountActionView::Tell(
                    LobbyEventView::GameEnded { account: self.config.account },
                ),
            ],
            AccountEventView::Report(report) => if self.bound is Some {
                self.report_actions(seq![report])
            } else {
                Seq::empty()
            },
            AccountEventView::Gathered => if self.bound is Some {
                self.registration.flush_actions()
            } else {
                Seq::empty()
            },
            AccountEventView::Online { bound, resumed } => seq![AccountActionView::JoinRoom]
                + self.greeting() + (if resumed {
                Seq::empty()
            } else {
                self.registration.resend_actions()
            }),
            AccountEventView::StreamEnded => Seq::empty(),
            AccountEventView::Shutdown => if self.assigned is Some {
                self.withdrawing(false)
            } else {
                Seq::empty()
            },
        }
    }

    /// What a message in the room asks for: only someone asking for a game, in
    /// the room itself, of an account that is no player's own and hosts none.
    pub open spec fn request(self, m: RoomMessageView) -> Option<LobbyEventView> {
        let body = match m.body {
            Some(b) => utils::trimmed(b),
            None => Seq::empty(),
        };
        if self.config.personal is Some || !m.groupchat || m.from_bare != Some(
            self.config.muc_bare,
        ) || m.delayed || body != HOSTME@ || self.assigned is Some {
            None
        } else {
            match self.bound {
                None => None,
                Some(jid) => Some(
                    LobbyEventView::HostRequested {
                        account: self.config.account,
                        sender: match m.from_resource {
                            Some(r) => r,
                            None => UNKNOWN_SENDER@,
                        },
                        host_jid: jid,
                    },
                ),
            }
        }
    }

    /// A burst of changes costs one register: while the window is open, no
    /// listing sends anything, and the newest goes out when it closes, unless
    /// the bot has it already.
    pub proof fn bursts_cost_one_register(self, first: Pairs, newest: Pairs)
        ensures
            self.registration.offered(first).gathering ==> self.registration.offered(
                first,
            ).offer_actions(newest) == Seq::<AccountActionView>::empty(),
            self.registration.offered(first).gathering ==> self.registration.offered(
                first,
            ).offered(newest).flush_actions() == (if self.registration.last_sent == Some(newest) {
                Seq::empty()
            } else {
                seq![registering(newest)]
            }),
    {
    }

    /// A new session lists the game as it was: what is sent is the newest
    /// listing, and where the match had started, that it has.
    pub proof fn new_sessions_list_again(self, bound: Seq<char>, attrs: Pairs)
        requires
            self.registration.newest() == Some(attrs),
        ensures
            self.actions(AccountEventView::Online { bound, resumed: false }).contains(
                registering(attrs),
            ),
            self.registration.started matches Some((nbp, players)) ==> self.actions(
                AccountEventView::Online { bound, resumed: false },
            ).last() == changing(nbp, players),
            self.after(
                AccountEventView::Online { bound, resumed: false },
            ).registration.newest() == Some(attrs),
    {
        let head = seq![AccountActionView::JoinRoom] + self.greeting();
        let tail = self.registration.resend_actions();
        assert(tail[0] == registering(attrs));
        assert((head + tail)[head.len() as int] == registering(attrs));
    }

    /// A game is withdrawn once: after it has been taken off the list, its end
    /// withdraws nothing more.
    pub proof fn withdrawn_once(self, message: GameToLobbyView)
        requires
            self.assigned is Some,
            message is Ended || message is Unlisted,
        ensures
            !self.after(AccountEventView::Game(message)).actions(
                AccountEventView::GameGone,
            ).contains(unregistering()),
    {
        let later = self.after(AccountEventView::Game(message));
        let all = later.actions(AccountEventView::GameGone);
        assert(later.is_unlisted());
        assert forall|i: int| 0 <= i < all.len() implies #[trigger] all[i]
            != unregistering() by {}
    }
}

/// The account's place in what a listing says of the host.
pub open spec fn hosted_by(attrs: Pairs, jid: Seq<char>) -> bool {
    attrs.contains(("hostJID"@, jid))
}

impl AccountView {
    /// A listing that differs from what the bot has goes out once the window
    /// closes, while there is a session: it says who plays, as the game told
    /// it, and names the session as the host.
    pub proof fn listings_go_out(
        self,
        host_username: Seq<char>,
        nbp: u32,
        players: Seq<char>,
        map: Option<LobbyMapView>,
        mods: Seq<EnabledModView>,
        jid: Seq<char>,
    )
        requires
            self.bound == Some(jid),
        ensures
            ({
                let told = GameToLobbyView::Listing { host_username, nbp, players, map, mods };
                let later = self.after(AccountEventView::Game(told));
                let sent = later.actions(AccountEventView::Gathered);
                let attrs = self.listing(host_username, nbp, players, map, mods);
                &&& attrs.contains(("players"@, players))
                &&& attrs.contains(("nbp"@, utils::decimal(nbp as nat)))
                &&& attrs.contains(("hostUsername"@, host_username))
                &&& attrs.contains(("name"@, self.config.server_name))
                &&& hosted_by(attrs, jid)
                &&& self.registration.last_sent != Some(attrs) ==> sent == seq![
                    AccountActionView::Gamelist(
                        gamelist::gamelist_query("register"@, attrs),
                    ),
                ]
                &&& self.registration.last_sent == Some(attrs) ==> sent.len() == 0
                &&& later.after(AccountEventView::Gathered).registration.last_sent == Some(attrs)
            }),
    {
        gamelist::listings_say_what_is_played(
            RegisterView {
                server_name: self.config.server_name,
                mods,
                host_username,
                host_jid: jid,
                nbp,
                players,
                has_password: self.config.has_password,
                map,
            },
        );
    }

    /// That a match has started is told while there is a session, behind any
    /// listing that is still to go out; without one it is kept for the next.
    pub proof fn starts_are_announced(self, nbp: u32, players: Seq<char>)
        ensures
            ({
                let event = AccountEventView::Game(GameToLobbyView::Started { nbp, players });
                let did = self.actions(event);
                &&& self.bound is Some ==> did.len() > 0 && did.last() == changing(nbp, players)
                &&& self.bound is Some && self.registration.pending is Some
                    && self.registration.pending != self.registration.last_sent ==> did == seq![
                    registering(self.registration.pending->0),
                    changing(nbp, players),
                ]
                &&& self.bound is None ==> did.len() == 0
                &&& self.after(event).registration.started == Some((nbp, players))
            }),
    {
        let event = AccountEventView::Game(GameToLobbyView::Started { nbp, players });
        let did = self.actions(event);
        if self.bound is Some && self.registration.pending is Some && self.registration.pending
            != self.registration.last_sent {
            assert(did =~= seq![
                registering(self.registration.pending->0),
                changing(nbp, players),
            ]);
        }
    }

    /// A game that ends is taken off the list, if there is a session and it was
    /// not taken off before; and whatever was listed, that it has gone is told.
    pub proof fn endings_withdraw(self)
        ensures
            self.bound is Some ==> self.actions(
                AccountEventView::Game(GameToLobbyView::Ended),
            ).contains(unregistering()),
            self.bound is Some && !(self.assigned matches Some(a) && a.unlisted) ==> self.actions(
                AccountEventView::Game(GameToLobbyView::Unlisted),
            ).contains(unregistering()) && self.actions(AccountEventView::GameGone).contains(
                unregistering(),
            ),
            self.actions(AccountEventView::GameGone).last() == AccountActionView::Tell(
                LobbyEventView::GameEnded { account: self.config.account },
            ),
            self.after(AccountEventView::GameGone).assigned is None,
            self.after(AccountEventView::GameGone).registration.newest() is None,
    {
        if self.bound is Some {
            assert(self.actions(AccountEventView::Game(GameToLobbyView::Ended))[0]
                == unregistering());
            if !(self.assigned matches Some(a) && a.unlisted) {
                assert(self.actions(AccountEventView::Game(GameToLobbyView::Unlisted))[0]
                    == unregistering());
                assert(self.actions(AccountEventView::GameGone)[0] == unregistering());
            }
        }
    }

    /// A player's own account passes a report on to the rating bot: at once
    /// while there is a session, else as soon as there is one, and then not
    /// again.
    pub proof fn reports_reach_the_bot(
        self,
        report: Pairs,
        bound: Seq<char>,
        resumed: bool,
    )
        requires
            self.config.personal is Some,
        ensures
            ({
                let event = AccountEventView::Report(report);
                let online = AccountEventView::Online { bound, resumed };
                let kept = self.after(event);
                &&& self.bound is Some ==> self.actions(event) == seq![reporting(report)] && kept
                    == self
                &&& self.bound is None ==> self.actions(event).len() == 0 && kept.actions(
                    online,
                ).contains(reporting(report)) && kept.after(online).unsent_reports.len() == 0
            }),
    {
        let event = AccountEventView::Report(report);
        let online = AccountEventView::Online { bound, resumed };
        let kept = self.after(event);
        if self.bound is Some {
            assert(self.actions(event) =~= seq![reporting(report)]);
        } else {
            let all = kept.unsent_reports;
            let n = all.len() - 1;
            assert(all[n] == report);
            let sent = kept.report_actions(all);
            assert(sent[n] == reporting(report));
            let hello = kept.greeting();
            let before = hello.len() - sent.len();
            assert(hello[before + n] == reporting(report));
            let did = kept.actions(online);
            assert(did[1 + before + n] == reporting(report));
        }
    }

    /// A player's own account shows the player as playing from the first
    /// listing on, and no longer once the game is gone.
    pub proof fn players_show_as_playing(self, told: GameToLobbyView)
        requires
            self.config.personal is Some,
            self.bound is Some,
            told is Listing,
        ensures
            ({
                let event = AccountEventView::Game(told);
                let later = self.after(event);
                &&& later.playing
                &&& !self.playing ==> self.actions(event).last() == (AccountActionView::Show {
                    playing: true,
                })
                &&& later.actions(AccountEventView::GameGone).contains(
                    AccountActionView::Show { playing: false },
                )
                &&& !later.after(AccountEventView::GameGone).playing
            }),
    {
        let later = self.after(AccountEventView::Game(told));
        let did = later.actions(AccountEventView::GameGone);
        let k = did.len() - 2;
        assert(did[k] == (AccountActionView::Show { playing: false }));
    }

    /// Whoever says in the room that they want a game is passed on with the
    /// name they have there, by an account that is no player's own, hosts
    /// nothing and has a session; nothing else is taken for a request.
    pub proof fn requests_are_passed_on(self, m: RoomMessageView)
        ensures
            ({
                let asks = m.groupchat && !m.delayed && m.from_bare == Some(self.config.muc_bare)
                    && (m.body matches Some(b) && utils::trimmed(b) == HOSTME@);
                let idle = self.config.personal is None && self.assigned is None && self.bound
                    is Some;
                &&& self.request(m) is Some ==> idle && m.groupchat && !m.delayed
                &&& asks && idle ==> {
                    &&& self.request(m) matches Some(
                        LobbyEventView::HostRequested { account, sender, host_jid },
                    )
                    &&& account == self.config.account
                    &&& Some(host_jid) == self.bound
                    &&& m.from_resource matches Some(name) ==> sender == name
                }
            }),
    {
    }
}

impl Registration {
    pub fn new() -> (r: Self)
        ensures
            r@ == RegistrationView::clear(),
    {
        Registration { last_sent: None, pending: None, gathering: false, started: None }
    }

    /// The bot's view is gone or belongs to another game, so the next listing
    /// is never held back as unchanged.
    pub fn clear(&mut self)
        ensures
            final(self)@ == RegistrationView::clear(),
    {
        *self = Registration::new();
    }

    pub fn offer(&mut self, attrs: Vec<(String, String)>, out: &mut Vec<AccountAction>)
        ensures
            final(self)@ == old(self)@.offered(gamelist::pairs(attrs@)),
            items::views(final(out)@) == items::views(old(out)@) + old(self)@.offer_actions(
                gamelist::pairs(attrs@),
            ),
    {
        let ghost before = items::views(out@);
        if self.pending.is_none() {
            if let Some(sent) = &self.last_sent {
                if gamelist::same_pairs(sent, &attrs) {
                    assert(items::views(out@) =~= before + Seq::<AccountActionView>::empty());
                    return ;
                }
            }
        }
        self.pending = Some(attrs);
        if !self.gathering {
            self.gathering = true;
            out.push(AccountAction::Gather);
            assert(items::views(out@) =~= before + seq![AccountActionView::Gather]);
        } else {
            assert(items::views(out@) =~= before + Seq::<AccountActionView>::empty());
        }
    }

    pub fn flush(&mut self, out: &mut Vec<AccountAction>)
        ensures
            final(self)@ == old(self)@.flushed(),
            items::views(final(out)@) == items::views(old(out)@) + old(self)@.flush_actions(),
    {
        let ghost before = items::views(out@);
        self.gathering = false;
        let mut pending: Option<Vec<(String, String)>> = None;
        std::mem::swap(&mut pending, &mut self.pending);
        let attrs = match pending {
            Some(attrs) => attrs,
            None => {
                assert(items::views(out@) =~= before + Seq::<AccountActionView>::empty());
                return ;
            },
        };
        if let Some(sent) = &self.last_sent {
            if gamelist::same_pairs(sent, &attrs) {
                assert(items::views(out@) =~= before + Seq::<AccountActionView>::empty());
                return ;
            }
        }
        let ghost a = gamelist::pairs(attrs@);
        let query = gamelist::register(gamelist::copy_pairs(&attrs));
        out.push(AccountAction::Gamelist(query));
        assert(items::views(out@) =~= before + seq![registering(a)]);
        self.last_sent = Some(attrs);
    }

    pub fn resend(&mut self, out: &mut Vec<AccountAction>)
        ensures
            final(self)@ == old(self)@.resent(),
            items::views(final(out)@) == items::views(old(out)@) + old(self)@.resend_actions(),
    {
        let ghost before = items::views(out@);
        self.gathering = false;
        let mut attrs: Option<Vec<(String, String)>> = None;
        std::mem::swap(&mut attrs, &mut self.pending);
        if attrs.is_none() {
            std::mem::swap(&mut attrs, &mut self.last_sent);
        }
        let attrs = match attrs {
            Some(attrs) => attrs,
            None => {
                assert(items::views(out@) =~= before + Seq::<AccountActionView>::empty());
                return ;
            },
        };
        let ghost a = gamelist::pairs(attrs@);
        let query = gamelist::register(gamelist::copy_pairs(&attrs));
        out.push(AccountAction::Gamelist(query));
        assert(items::views(out@) =~= before + seq![registering(a)]);
        self.last_sent = Some(attrs);
        if let Some((nbp, players)) = &self.started {
            let ghost change = changing(*nbp, players@);
            out.push(AccountAction::Gamelist(gamelist::changestate(*nbp, players.as_str())));
            assert(items::views(out@) =~= before + seq![registering(a), change]);
        }
    }
}

impl Account {
    pub open spec fn wf(self) -> bool {
        self@.wf()
    }

    pub fn new(config: AccountConfig) -> (r: Self)
        ensures
            r@ == AccountView::fresh(config@),
            r.wf(),
    {
        let unsent_reports: Vec<GameReport> = Vec::new();
        assert(items::views(unsent_reports@) =~= Seq::empty());
        Account {
            config,
            assigned: None,
            registration: Registration::new(),
            bound: None,
            playing: false,
            boardlist_sent: false,
            unsent_reports,
        }
    }

    fn set_playing(&mut self, playing: bool, out: &mut Vec<AccountAction>)
        ensures
            final(self)@ == old(self)@.showing(playing),
            items::views(final(out)@) == items::views(old(out)@) + old(self)@.show_actions(playing),
    {
        let ghost before = items::views(out@);
        if self.config.personal.is_none() || self.playing == playing {
            assert(items::views(out@) =~= before + Seq::<AccountActionView>::empty());
            return ;
        }
        self.playing = playing;
        if self.bound.is_some() {
            out.push(AccountAction::Show { playing });
            assert(items::views(out@) =~= before + seq![AccountActionView::Show { playing }]);
        } else {
            assert(items::views(out@) =~= before + Seq::<AccountActionView>::empty());
        }
    }

    fn set_unlisted(&mut self, unlisted: bool)
        ensures
            final(self)@ == old(self)@.with_unlisted(unlisted),
    {
        if let Some(a) = &mut self.assigned {
            a.unlisted = unlisted;
        }
    }

    fn withdraw(&self, already: bool, out: &mut Vec<AccountAction>)
        ensures
            items::views(final(out)@) == items::views(old(out)@) + self@.withdrawing(already),
    {
        let ghost before = items::views(out@);
        if self.bound.is_some() && !already {
            out.push(AccountAction::Gamelist(gamelist::unregister()));
            assert(items::views(out@) =~= before + seq![unregistering()]);
        } else {
            assert(items::views(out@) =~= before + Seq::<AccountActionView>::empty());
        }
    }

    fn unlisted(&self) -> (r: bool)
        ensures
            r == self@.is_unlisted(),
    {
        match &self.assigned {
            Some(a) => a.unlisted,
            None => false,
        }
    }

    fn on_listing(
        &mut self,
        host_username: String,
        nbp: u32,
        players: String,
        map: Option<LobbyMap>,
        mods: Vec<EnabledMod>,
        out: &mut Vec<AccountAction>,
    )
        ensures
            ({
                let message = GameToLobbyView::Listing {
                    host_username: host_username@,
                    nbp,
                    players: players@,
                    map: utils::seen(map),
                    mods: items::views(mods@),
                };
                &&& final(self)@ == old(self)@.after_game(message)
                &&& items::views(final(out)@) == items::views(old(out)@)
                    + old(self)@.game_actions(message)
            }),
    {
        let ghost before = items::views(out@);
        let ghost was = self@;
        let host_jid = match &self.bound {
            Some(jid) => jid,
            None => &self.config.jid,
        };
        let attrs = gamelist::register_attrs(
            RegisterAttrs {
                server_name: self.config.server_name.as_str(),
                mods: &mods,
                host_username: host_username.as_str(),
                host_jid: host_jid.as_str(),
                nbp,
                players: players.as_str(),
                has_password: self.config.has_password,
                map: map.as_ref(),
            },
        );
        let ghost a = gamelist::pairs(attrs@);
        assert(a == was.listing(
            host_username@,
            nbp,
            players@,
            utils::seen(map),
            items::views(mods@),
        ));
        self.registration.offer(attrs, out);
        self.set_unlisted(false);
        let ghost mid = self@;
        self.set_playing(true, out);
        proof {
            assert(mid.show_actions(true) == was.show_actions(true));
            assert(before + was.registration.offer_actions(a) + was.show_actions(true) =~= before
                + (was.registration.offer_actions(a) + was.show_actions(true)));
        }
    }

    fn on_started(&mut self, nbp: u32, players: String, out: &mut Vec<AccountAction>)
        ensures
            final(self)@ == old(self)@.after_game(
                GameToLobbyView::Started { nbp, players: players@ },
            ),
            items::views(final(out)@) == items::views(old(out)@) + old(self)@.game_actions(
                GameToLobbyView::Started { nbp, players: players@ },
            ),
    {
        let ghost before = items::views(out@);
        let ghost was = self@;
        if self.bound.is_some() {
            self.registration.flush(out);
            let ghost mid = items::views(out@);
            out.push(AccountAction::Gamelist(gamelist::changestate(nbp, players.as_str())));
            proof {
                assert(items::views(out@) =~= mid.push(changing(nbp, players@)));
                assert(items::views(out@) =~= before + (was.registration.flush_actions() + seq![
                    changing(nbp, players@),
                ]));
            }
        } else {
            assert(items::views(out@) =~= before + Seq::<AccountActionView>::empty());
        }
        self.registration.started = Some((nbp, players));
    }

    fn on_game(&mut self, message: GameToLobby, out: &mut Vec<AccountAction>)
        ensures
            final(self)@ == old(self)@.after_game(message@),
            items::views(final(out)@) == items::views(old(out)@) + old(self)@.game_actions(
                message@,
            ),
    {
        let ghost before = items::views(out@);
        let ghost was = self@;
        match message {
            GameToLobby::Listing { host_username, nbp, players, map, mods } => {
                self.on_listing(host_username, nbp, players, map, mods, out);
            },
            GameToLobby::Started { nbp, players } => {
                self.on_started(nbp, players, out);
            },
            GameToLobby::Ended => {
                self.registration.clear();
                self.withdraw(false, out);
                self.set_unlisted(true);
            },
            GameToLobby::Unlisted => {
                let already = self.unlisted();
                self.registration.clear();
                self.withdraw(already, out);
                self.set_unlisted(true);
                let ghost mid = self@;
                self.set_playing(false, out);
                proof {
                    assert(mid.show_actions(false) == was.show_actions(false));
                    assert(before + was.withdrawing(already) + was.show_actions(false) =~= before
                        + (was.withdrawing(already) + was.show_actions(false)));
                }
            },
        }
    }

    fn on_game_gone(&mut self, out: &mut Vec<AccountAction>)
        ensures
            final(self)@ == old(self)@.after(AccountEventView::GameGone),
            items::views(final(out)@) == items::views(old(out)@) + old(self)@.actions(
                AccountEventView::GameGone,
            ),
    {
        let ghost before = items::views(out@);
        let ghost was = self@;
        let unlisted = self.unlisted();
        self.assigned = None;
        self.registration.clear();
        self.withdraw(unlisted, out);
        let ghost mid = self@;
        self.set_playing(false, out);
        let ghost told = items::views(out@);
        let event = LobbyEvent::GameEnded { account: self.config.account };
        let ghost e = AccountActionView::Tell(event@);
        out.push(AccountAction::Tell(event));
        proof {
            assert(mid.show_actions(false) == was.show_actions(false));
            assert(mid.withdrawing(unlisted) == was.withdrawing(unlisted));
            assert(items::views(out@) =~= told.push(e));
            assert(items::views(out@) =~= before + was.actions(AccountEventView::GameGone));
        }
    }

    fn send_reports(&self, reports: &Vec<GameReport>, out: &mut Vec<AccountAction>)
        ensures
            items::views(final(out)@) == items::views(old(out)@) + self@.report_actions(
                items::views(reports@),
            ),
    {
        let ghost before = items::views(out@);
        if self.config.personal.is_none() {
            assert(items::views(out@) =~= before + Seq::<AccountActionView>::empty());
            return ;
        }
        let ghost all = items::views(reports@);
        let ghost each = |attrs: Pairs| reporting(attrs);
        let mut i: usize = 0;
        assert(items::views(out@) =~= before + all.take(0).map_values(each));
        while i < reports.len()
            invariant
                all == items::views(reports@),
                each == (|attrs: Pairs| reporting(attrs)),
                i <= reports@.len(),
                items::views(out@) == before + all.take(i as int).map_values(each),
            decreases reports@.len() - i,
        {
            let ghost mid = items::views(out@);
            out.push(AccountAction::Rating(rating::report(&reports[i])));
            proof {
                assert(all[i as int] == reports@[i as int]@);
                assert(items::views(out@) =~= mid.push(reporting(all[i as int])));
                assert(items::views(out@) =~= before + all.take(i + 1).map_values(each));
            }
            i += 1;
        }
        assert(all.take(i as int) =~= all);
    }

    fn on_report(&mut self, report: GameReport, out: &mut Vec<AccountAction>)
        ensures
            final(self)@ == old(self)@.after(AccountEventView::Report(report@)),
            items::views(final(out)@) == items::views(old(out)@) + old(self)@.actions(
                AccountEventView::Report(report@),
            ),
    {
        let ghost before = items::views(out@);
        let ghost r = report@;
        if self.bound.is_some() {
            let mut one: Vec<GameReport> = Vec::new();
            one.push(report);
            assert(items::views(one@) =~= seq![r]);
            self.send_reports(&one, out);
        } else {
            let ghost unsent = items::views(self.unsent_reports@);
            self.unsent_reports.push(report);
            assert(items::views(self.unsent_reports@) =~= unsent.push(r));
            assert(items::views(out@) =~= before + Seq::<AccountActionView>::empty());
        }
    }

    fn greet(&mut self, out: &mut Vec<AccountAction>)
        ensures
            final(self)@ == (if old(self)@.config.personal is Some {
                AccountView {
                    boardlist_sent: true,
                    unsent_reports: Seq::empty(),
                    ..old(self)@
                }
            } else {
                old(self)@
            }),
            items::views(final(out)@) == items::views(old(out)@) + old(self)@.greeting(),
    {
        let ghost before = items::views(out@);
        let ghost was = self@;
        if self.config.personal.is_none() {
            assert(items::views(out@) =~= before + Seq::<AccountActionView>::empty());
            return ;
        }
        let ghost show = if was.playing {
            seq![AccountActionView::Show { playing: true }]
        } else {
            Seq::empty()
        };
        if self.playing {
            out.push(AccountAction::Show { playing: true });
        }
        assert(items::views(out@) =~= before + show);
        let ghost board = if was.boardlist_sent {
            Seq::empty()
        } else {
            seq![asking_leaderboard()]
        };
        if !self.boardlist_sent {
            self.boardlist_sent = true;
            let ghost mid = items::views(out@);
            out.push(AccountAction::Leaderboard(rating::get_leaderboard()));
            assert(items::views(out@) =~= mid.push(asking_leaderboard()));
        }
        assert(items::views(out@) =~= before + show + board);
        let mut unsent: Vec<GameReport> = Vec::new();
        std::mem::swap(&mut unsent, &mut self.unsent_reports);
        assert(items::views(self.unsent_reports@) =~= Seq::empty());
        self.send_reports(&unsent, out);
        assert(items::views(out@) =~= before + was.greeting());
    }

    fn on_online(&mut self, bound: String, resumed: bool, out: &mut Vec<AccountAction>)
        ensures
            final(self)@ == old(self)@.after(AccountEventView::Online { bound: bound@, resumed }),
            items::views(final(out)@) == items::views(old(out)@) + old(self)@.actions(
                AccountEventView::Online { bound: bound@, resumed },
            ),
    {
        let ghost before = items::views(out@);
        let ghost was = self@;
        let ghost b = bound@;
        self.bound = Some(bound);
        out.push(AccountAction::JoinRoom);
        assert(items::views(out@) =~= before + seq![AccountActionView::JoinRoom]);
        let ghost mid = self@;
        self.greet(out);
        assert(mid.greeting() == was.greeting());
        if !resumed {
            self.registration.resend(out);
        }
        assert(items::views(out@) =~= before + was.actions(
            AccountEventView::Online { bound: b, resumed },
        ));
    }

    /// What is done about something that happened.
    pub fn step(&mut self, event: AccountEvent) -> (r: Vec<AccountAction>)
        requires
            old(self).wf(),
            event@ matches AccountEventView::Assign { port, password_hash } ==> (AssignmentView {
                port,
                password_hash,
            }).wf(),
        ensures
            final(self)@ == old(self)@.after(event@),
            items::views(r@) == old(self)@.actions(event@),
            final(self).wf(),
    {
        let mut out: Vec<AccountAction> = Vec::new();
        let ghost none = items::views(out@);
        assert(none =~= Seq::empty());
        let ghost was = self@;
        let ghost e = event@;
        match event {
            AccountEvent::Assign { port, password_hash } => {
                self.assigned = Some(
                    Assigned {
                        assignment: Assignment { port, password_hash },
                        failures: Table::new(),
                        unlisted: false,
                    },
                );
                self.registration.clear();
            },
            AccountEvent::Release => {
                self.assigned = None;
                self.registration.clear();
                self.set_playing(false, &mut out);
            },
            AccountEvent::Game(message) => {
                self.on_game(message, &mut out);
            },
            AccountEvent::GameGone => {
                self.on_game_gone(&mut out);
            },
            AccountEvent::Report(report) => {
                self.on_report(report, &mut out);
            },
            AccountEvent::Gathered => {
                if self.bound.is_some() {
                    self.registration.flush(&mut out);
                } else {
                    self.registration.gathering = false;
                }
            },
            AccountEvent::Online { bound, resumed } => {
                self.on_online(bound, resumed, &mut out);
            },
            AccountEvent::StreamEnded => {
                self.bound = None;
            },
            AccountEvent::Shutdown => {
                if self.assigned.is_some() {
                    self.withdraw(false, &mut out);
                }
            },
        }
        assert(items::views(out@) =~= was.actions(e));
        out
    }

    /// What a client that asks where the game is is told. Whoever is given the
    /// address is about to connect.
    pub fn on_connection_data(&mut self, username: &str, given: &str, salt: &str) -> (r: Reply)
        requires
            old(self).wf(),
        ensures
            r == match old(self)@.assigned {
                None => Reply::NotServer,
                Some(a) => connection_data::answer(
                    a.assignment,
                    a.failures,
                    username@,
                    given@,
                    connection_data::expected_of(a.assignment, salt@),
                ),
            },
            final(self)@ == (AccountView {
                assigned: match old(self)@.assigned {
                    None => None,
                    Some(a) => Some(
                        AssignedView {
                            failures: connection_data::struck(
                                a.failures,
                                username@,
                                given@,
                                connection_data::expected_of(a.assignment, salt@),
                            ),
                            ..a
                        },
                    ),
                },
                ..old(self)@
            }),
            final(self).wf(),
    {
        let mut assigned: Option<Assigned> = None;
        std::mem::swap(&mut assigned, &mut self.assigned);
        match assigned {
            None => Reply::NotServer,
            Some(a) => {
                let mut a = a;
                let reply = connection_data::handle(
                    &a.assignment,
                    &mut a.failures,
                    username,
                    given,
                    salt,
                );
                self.assigned = Some(a);
                reply
            },
        }
    }

    /// What a message in the room asks for.
    pub fn on_room_message(&self, m: &RoomMessage) -> (r: Option<LobbyEvent>)
        ensures
            utils::seen(r) == self@.request(m@),
    {
        if self.config.personal.is_some() || !m.groupchat {
            return None;
        }
        // One sent straight to the account would otherwise let its sender pick
        // any name to host under, a new one each time.
        match &m.from_bare {
            Some(from) => if !utils::same_text(from.as_str(), self.config.muc_bare.as_str()) {
                return None;
            },
            None => return None,
        }
        if m.delayed {
            return None;
        }
        let asked = match &m.body {
            Some(body) => {
                let chars = utils::chars_of(body.as_str());
                let text = utils::text_of(utils::trim_chars(chars.as_slice()));
                utils::same_text(text.as_str(), HOSTME)
            },
            None => {
                proof {
                    reveal_strlit("hostme");
                    assert(HOSTME@.len() == 6);
                }
                false
            },
        };
        if !asked || self.assigned.is_some() {
            return None;
        }
        match &self.bound {
            None => None,
            Some(jid) => Some(
                LobbyEvent::HostRequested {
                    account: self.config.account,
                    sender: match &m.from_resource {
                        Some(name) => utils::copy_text(name.as_str()),
                        None => utils::copy_text(UNKNOWN_SENDER),
                    },
                    host_jid: utils::copy_text(jid.as_str()),
                },
            ),
        }
    }
}

} // verus!
