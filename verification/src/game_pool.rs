//! The games of one process: which ports they hold and what they are called.

use vstd::prelude::*;

use crate::network_message::Ipv4Addr;
use crate::relay::enet_task::EnetLimits;
use crate::relay::messages::guid;
use crate::table;
use crate::table::Key;
use crate::table::Table;
use crate::utils;

verus! {

/// The first of the ports a process hosts games on. A window above the default
/// port lets one process host several games without asking for a range.
pub const FIRST_PORT: u16 = 20595;

/// The last of them.
pub const LAST_PORT: u16 = 20695;

/// The address of this machine, from this machine.
pub const LOCALHOST: u32 = 0x7f00_0001;

/// What a game is called.
#[derive(Debug, PartialEq, Eq, Hash)]
pub struct GameId(pub String);

impl View for GameId {
    type V = Seq<char>;

    open spec fn view(&self) -> Seq<char> {
        self.0@
    }
}

impl Clone for GameId {
    fn clone(&self) -> (r: Self)
        ensures
            r@ == self@,
    {
        GameId(utils::copy_text(self.0.as_str()))
    }
}

impl Key for GameId {
    fn same(&self, other: &Self) -> (r: bool) {
        utils::same_text(self.0.as_str(), other.0.as_str())
    }
}

/// The shape of a version 7 UUID: five groups of lower-case hexadecimal digits
/// with hyphens between them, the third group starting with the version.
pub open spec fn v7_shaped(s: Seq<char>) -> bool {
    &&& s.len() == 36
    &&& s[14] == '7'
    &&& forall|i: int|
        0 <= i < 36 ==> if i == 8 || i == 13 || i == 18 || i == 23 {
            #[trigger] s[i] == '-'
        } else {
            guid::hex_digit(s[i])
        }
}

/// `uuid::Uuid::now_v7`, written out as `Uuid` displays itself: hyphenated
/// lower-case hexadecimal. The digits are the time and chance, so only the
/// shape is known.
#[verifier::external_body]
fn fresh_v7() -> (r: String)
    ensures
        v7_shaped(r@),
{
    uuid::Uuid::now_v7().to_string()
}

pub const ID_PREFIX: &'static str = "gid_";

impl GameId {
    /// A name no game has had, ordered by when it was made.
    pub fn new() -> (r: Self)
        ensures
            exists|uuid: Seq<char>| v7_shaped(uuid) && r@ == #[trigger] (ID_PREFIX@ + uuid),
    {
        let uuid = fresh_v7();
        let mut name = utils::copy_text(ID_PREFIX);
        name.append(uuid.as_str());
        assert(name@ == ID_PREFIX@ + uuid@);
        GameId(name)
    }

    /// The file a game's outcome is written to.
    pub fn outcome_file(&self) -> (r: String)
        ensures
            r@ == self@ + ".json"@,
    {
        let mut name = utils::copy_text(self.0.as_str());
        name.append(".json");
        name
    }
}

/// The games and the ports they hold.
#[derive(Debug)]
pub struct GamePool {
    pub bind_ip: Ipv4Addr,
    pub enet_limits: EnetLimits,
    pub games: Table<GameId, u16>,
}

/// What [`GamePool`] is.
pub struct PoolView {
    pub bind_ip: Ipv4Addr,
    pub enet_limits: EnetLimits,
    pub games: Seq<(Seq<char>, u16)>,
}

impl View for GamePool {
    type V = PoolView;

    open spec fn view(&self) -> PoolView {
        PoolView {
            bind_ip: self.bind_ip,
            enet_limits: self.enet_limits,
            games: self.games@,
        }
    }
}

/// The ports from `from` on that no game holds, in their order.
pub open spec fn free_from(games: Seq<(Seq<char>, u16)>, from: int) -> Seq<u16>
    decreases LAST_PORT + 1 - from,
{
    if from > LAST_PORT || from < FIRST_PORT {
        Seq::empty()
    } else if held(games, from as u16) {
        free_from(games, from + 1)
    } else {
        seq![from as u16] + free_from(games, from + 1)
    }
}

/// Whether a game holds a port.
pub open spec fn held(games: Seq<(Seq<char>, u16)>, port: u16) -> bool {
    exists|i: int| 0 <= i < games.len() && (#[trigger] games[i]).1 == port
}

pub open spec fn in_use_text(port: u16) -> Seq<char> {
    "port "@ + utils::decimal(port as nat) + " is already in use"@
}

pub open spec fn none_left_text() -> Seq<char> {
    "no bindable port in "@ + utils::decimal(FIRST_PORT as nat) + "..="@ + utils::decimal(
        LAST_PORT as nat,
    )
}

impl PoolView {
    /// No two games share a port.
    pub open spec fn wf(self) -> bool {
        forall|i: int, j: int|
            0 <= i < j < self.games.len() ==> (#[trigger] self.games[i]).1 != (#[trigger]
            self.games[j]).1
    }

    /// The ports to try for a game: the one asked for, or every free one in
    /// turn rather than just the first, since one held by another process
    /// would otherwise fail every game after it.
    pub open spec fn ports_for(self, port: Option<u16>) -> Result<Seq<u16>, Seq<char>> {
        match port {
            Some(p) => if held(self.games, p) {
                Err(in_use_text(p))
            } else {
                Ok(seq![p])
            },
            None => Ok(free_from(self.games, FIRST_PORT as int)),
        }
    }

    /// Where the AI host dials in: it runs on this machine and is only
    /// recognised from loopback, so a socket bound elsewhere cannot host one.
    pub open spec fn ai_host_connect(self, port: u16) -> Option<(u32, u16)> {
        if self.bind_ip.0 == 0 || self.bind_ip.loopback() {
            Some((LOCALHOST, port))
        } else {
            None
        }
    }

    pub open spec fn with_game(self, id: Seq<char>, port: u16) -> PoolView {
        PoolView { games: table::with_row(self.games, id, port), ..self }
    }

    pub open spec fn without_game(self, id: Seq<char>) -> PoolView {
        PoolView { games: table::without_row(self.games, id), ..self }
    }

    /// No port is handed out twice: one that is to be tried is held by no
    /// game, and where it is taken no two games share one.
    pub proof fn ports_are_not_shared(self, port: Option<u16>, i: int, id: Seq<char>)
        requires
            self.wf(),
            self.ports_for(port) matches Ok(ports) && 0 <= i < ports.len(),
        ensures
            !held(self.games, self.ports_for(port)->Ok_0[i]),
            self.with_game(id, self.ports_for(port)->Ok_0[i]).wf(),
    {
        if port is None {
            lemma_free(self.games, FIRST_PORT as int);
        }
        let p = self.ports_for(port)->Ok_0[i];
        assert(self.ports_for(port)->Ok_0.contains(p));
        let after = self.with_game(id, p);
        table::lemma_index_of(self.games, id);
        assert forall|a: int, b: int| 0 <= a < b < after.games.len() implies (#[trigger]
        after.games[a]).1 != (#[trigger] after.games[b]).1 by {
            if a < self.games.len() && after.games[a] != (id, p) {
                assert(after.games[a] == self.games[a]);
            }
            if b < self.games.len() && after.games[b] != (id, p) {
                assert(after.games[b] == self.games[b]);
            }
        }
    }

    /// A port comes back with its game: once destroyed, nobody holds it.
    pub proof fn ports_come_back(self, id: Seq<char>)
        requires
            self.wf(),
            table::lookup(self.games, id) is Some,
        ensures
            self.without_game(id).wf(),
            !held(self.without_game(id).games, table::lookup(self.games, id)->0),
    {
        table::lemma_index_of(self.games, id);
        let at = table::index_of(self.games, id)->0;
        let after = self.games.remove(at);
        assert forall|a: int| 0 <= a < after.len() implies (#[trigger] after[a]).1
            != self.games[at].1 by {
            if a < at {
                assert(after[a] == self.games[a]);
            } else {
                assert(after[a] == self.games[a + 1]);
            }
        }
        assert forall|a: int, b: int| 0 <= a < b < after.len() implies (#[trigger] after[a]).1 != (
        #[trigger] after[b]).1 by {
            let x = if a < at {
                a
            } else {
                a + 1
            };
            let y = if b < at {
                b
            } else {
                b + 1
            };
            assert(after[a] == self.games[x]);
            assert(after[b] == self.games[y]);
        }
    }
}

/// Every port of the range that no game holds is tried.
pub proof fn free_ports_are_tried(games: Seq<(Seq<char>, u16)>, from: int, port: u16)
    requires
        FIRST_PORT <= from <= port <= LAST_PORT,
        !held(games, port),
    ensures
        free_from(games, from).contains(port),
    decreases LAST_PORT + 1 - from,
{
    let all = free_from(games, from);
    if from == port {
        assert(all[0] == port);
    } else {
        free_ports_are_tried(games, from + 1, port);
        let rest = free_from(games, from + 1);
        let k = choose|k: int| 0 <= k < rest.len() && rest[k] == port;
        if held(games, from as u16) {
            assert(all[k] == port);
        } else {
            assert(all[k + 1] == port);
        }
    }
}

proof fn lemma_free(games: Seq<(Seq<char>, u16)>, from: int)
    ensures
        forall|p: u16| #[trigger] free_from(games, from).contains(p) ==> !held(games, p),
    decreases LAST_PORT + 1 - from,
{
    if FIRST_PORT <= from <= LAST_PORT {
        lemma_free(games, from + 1);
        let rest = free_from(games, from + 1);
        let all = free_from(games, from);
        if !held(games, from as u16) {
            assert forall|p: u16| #[trigger] all.contains(p) implies !held(games, p) by {
                let k = all.index_of(p);
                if k > 0 {
                    assert(rest[k - 1] == p);
                    assert(rest.contains(p));
                }
            }
        }
    }
}

impl GamePool {
    pub open spec fn wf(self) -> bool {
        self@.wf()
    }

    pub fn new(bind_ip: Ipv4Addr, enet_limits: EnetLimits) -> (r: Self)
        ensures
            r@ == (PoolView { bind_ip, enet_limits, games: Seq::empty() }),
            r.wf(),
    {
        GamePool { bind_ip, enet_limits, games: Table::new() }
    }

    fn holds(&self, port: u16) -> (r: bool)
        ensures
            r == held(self@.games, port),
    {
        let mut i: usize = 0;
        while i < self.games.rows.len()
            invariant
                i <= self.games.rows@.len(),
                self@.games == self.games@,
                forall|j: int| 0 <= j < i ==> (#[trigger] self@.games[j]).1 != port,
            decreases self.games.rows@.len() - i,
        {
            assert(self.games@[i as int] == table::row_view(self.games.rows@[i as int]));
            if self.games.rows[i].1 == port {
                assert(self@.games[i as int].1 == port);
                return true;
            }
            i += 1;
        }
        false
    }

    fn free_ports(&self) -> (r: Vec<u16>)
        ensures
            r@ == free_from(self@.games, FIRST_PORT as int),
    {
        let mut out: Vec<u16> = Vec::new();
        let mut port: u16 = FIRST_PORT;
        assert(Seq::<u16>::empty() + free_from(self@.games, FIRST_PORT as int) =~= free_from(
            self@.games,
            FIRST_PORT as int,
        ));
        while port <= LAST_PORT
            invariant
                FIRST_PORT <= port <= LAST_PORT + 1,
                out@ + free_from(self@.games, port as int) == free_from(
                    self@.games,
                    FIRST_PORT as int,
                ),
            decreases LAST_PORT + 1 - port,
        {
            if !self.holds(port) {
                let ghost before = out@;
                let ghost rest = free_from(self@.games, port + 1);
                out.push(port);
                assert(before + (seq![port] + rest) =~= out@ + rest);
            }
            port = port + 1;
        }
        assert(out@ + free_from(self@.games, port as int) =~= out@);
        out
    }

    /// The ports to try for a game, or why there is none.
    pub fn ports(&self, port: Option<u16>) -> (r: Result<Vec<u16>, String>)
        ensures
            match r {
                Ok(ports) => self@.ports_for(port) == Ok::<Seq<u16>, Seq<char>>(ports@),
                Err(e) => self@.ports_for(port) == Err::<Seq<u16>, Seq<char>>(e@),
            },
    {
        match port {
            Some(port) => {
                if self.holds(port) {
                    let mut out = utils::copy_text("port ");
                    let number = utils::decimal_text(port as u64);
                    out.append(number.as_str());
                    out.append(" is already in use");
                    return Err(out);
                }
                let mut one: Vec<u16> = Vec::new();
                one.push(port);
                assert(one@ =~= seq![port]);
                Ok(one)
            },
            None => Ok(self.free_ports()),
        }
    }

    /// What is said when none of them could be had.
    pub fn none_left() -> (r: String)
        ensures
            r@ == none_left_text(),
    {
        let mut out = utils::copy_text("no bindable port in ");
        let first = utils::decimal_text(FIRST_PORT as u64);
        let last = utils::decimal_text(LAST_PORT as u64);
        out.append(first.as_str());
        out.append("..=");
        out.append(last.as_str());
        out
    }

    /// Where a game's AI host dials in.
    pub fn ai_host_connect(&self, port: u16) -> (r: Option<(Ipv4Addr, u16)>)
        ensures
            match r {
                Some((ip, p)) => self@.ai_host_connect(port) == Some((ip.0, p)),
                None => self@.ai_host_connect(port) is None,
            },
    {
        if self.bind_ip.is_unspecified() || self.bind_ip.is_loopback() {
            Some((Ipv4Addr(LOCALHOST), port))
        } else {
            None
        }
    }

    /// A game on a port that was bound for it.
    pub fn create_game(&mut self, id: GameId, port: u16)
        requires
            old(self).wf(),
            !held(old(self)@.games, port),
        ensures
            final(self)@ == old(self)@.with_game(id@, port),
            final(self).wf(),
    {
        proof {
            let p = PoolView { games: old(self)@.games, ..old(self)@ };
            p.ports_are_not_shared(Some(port), 0, id@);
        }
        self.games.put(id, port);
    }

    /// A game is gone, and its port free. None for one that is not there.
    pub fn destroy_game(&mut self, id: &GameId) -> (r: Option<u16>)
        requires
            old(self).wf(),
        ensures
            r == table::lookup(old(self)@.games, id@),
            final(self)@ == old(self)@.without_game(id@),
            final(self).wf(),
    {
        proof {
            table::lemma_index_of(old(self)@.games, id@);
            if table::lookup(old(self)@.games, id@) is Some {
                old(self)@.ports_come_back(id@);
            }
        }
        self.games.take(id)
    }
}

} // verus!
