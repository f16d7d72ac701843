//! Who holds which player of the match.

use vstd::prelude::*;

use crate::relay::messages::items;
use crate::relay::messages::Guid;
use crate::relay::messages::Host;
use crate::relay::messages::HostView;
use crate::relay::messages::PlayerSlots;
use crate::relay::messages::PlayerSlotsView;
use crate::table;
use crate::table::Table;
use crate::utils;

verus! {

/// The slot of someone who plays no player.
pub const UNASSIGNED: i8 = -1;

pub const STATUS_NOT_READY: u8 = 0;

pub const STATUS_READY: u8 = 1;

/// Ready whatever the settings become, so a reset leaves it alone.
pub const STATUS_STAY_READY: u8 = 2;

/// What is known of one client. It outlives the client's session, so a player
/// who left keeps a place to come back to.
#[derive(Debug)]
pub struct Slot {
    pub name: String,
    pub slot: i8,
    pub status: u8,
    pub connected: bool,
}

/// What [`Slot`] is.
pub struct SlotView {
    pub name: Seq<char>,
    pub slot: i8,
    pub status: u8,
    pub connected: bool,
}

impl View for Slot {
    type V = SlotView;

    open spec fn view(&self) -> SlotView {
        SlotView {
            name: self.name@,
            slot: self.slot,
            status: self.status,
            connected: self.connected,
        }
    }
}

/// Everyone of a match by identity, in the order in which they came.
#[derive(Debug)]
pub struct Slots {
    pub entries: Table<Guid, Slot>,
}

/// What [`Slots`] is: a row for everyone.
pub type SlotRows = Seq<(Seq<char>, SlotView)>;

impl View for Slots {
    type V = SlotRows;

    open spec fn view(&self) -> SlotRows {
        self.entries@
    }
}

/// Whether a row is of a player rather than of an observer.
pub open spec fn plays(row: (Seq<char>, SlotView)) -> bool {
    row.1.slot != UNASSIGNED
}

/// The rows of the players who are here.
pub open spec fn players_here(rows: SlotRows) -> SlotRows {
    rows.filter(|row: (Seq<char>, SlotView)| row.1.connected && plays(row))
}

/// The rows of the players who have left.
pub open spec fn players_gone(rows: SlotRows) -> SlotRows {
    rows.filter(|row: (Seq<char>, SlotView)| !row.1.connected && plays(row))
}

/// A row as clients are told it.
pub open spec fn host(row: (Seq<char>, SlotView)) -> HostView {
    HostView { guid: row.0, name: row.1.name, player_id: row.1.slot, status: row.1.status }
}

/// What clients are told of everyone who is here.
pub open spec fn listed(rows: SlotRows) -> PlayerSlotsView {
    PlayerSlotsView {
        hosts: rows.filter(|row: (Seq<char>, SlotView)| row.1.connected).map_values(
            |row: (Seq<char>, SlotView)| host(row),
        ),
    }
}

/// The first row that someone of this name left behind.
pub open spec fn left_by(rows: SlotRows, name: Seq<char>) -> Option<int>
    decreases rows.len(),
{
    if rows.len() == 0 {
        None
    } else if left_by(rows.drop_last(), name) is Some {
        left_by(rows.drop_last(), name)
    } else if !rows.last().1.connected && rows.last().1.name == name {
        Some(rows.len() - 1)
    } else {
        None
    }
}

/// Someone new, who plays nobody yet.
pub open spec fn fresh(name: Seq<char>) -> SlotView {
    SlotView { name, slot: UNASSIGNED, status: STATUS_NOT_READY, connected: true }
}

/// Everyone with a newcomer. Where rows are taken over, the newcomer has the
/// place that someone of the same name left.
pub open spec fn with_newcomer(
    rows: SlotRows,
    uuid: Seq<char>,
    name: Seq<char>,
    reclaim: bool,
) -> SlotRows {
    match left_by(rows, name) {
        Some(i) if reclaim => rows.update(
            i,
            (uuid, SlotView { connected: true, ..rows[i].1 }),
        ),
        _ => table::with_row(rows, uuid, fresh(name)),
    }
}

/// Whose place a newcomer takes.
pub open spec fn displaced_by(rows: SlotRows, name: Seq<char>, reclaim: bool) -> Option<Seq<char>> {
    match left_by(rows, name) {
        Some(i) if reclaim => Some(rows[i].0),
        _ => None,
    }
}

pub open spec fn with_status(rows: SlotRows, uuid: Seq<char>, status: u8) -> SlotRows {
    match table::lookup(rows, uuid) {
        Some(e) => table::with_row(rows, uuid, SlotView { status, ..e }),
        None => rows,
    }
}

pub open spec fn with_departure(rows: SlotRows, uuid: Seq<char>) -> SlotRows {
    match table::lookup(rows, uuid) {
        Some(e) => table::with_row(rows, uuid, SlotView { connected: false, ..e }),
        None => rows,
    }
}

/// Nobody is ready but those who stay ready.
pub open spec fn with_reset(rows: SlotRows) -> SlotRows {
    rows.map_values(
        |row: (Seq<char>, SlotView)|
            (
                row.0,
                SlotView {
                    status: if row.1.status == STATUS_STAY_READY {
                        STATUS_STAY_READY
                    } else {
                        STATUS_NOT_READY
                    },
                    ..row.1
                },
            ),
    )
}

/// One row after a player was given to someone.
pub open spec fn given(
    row: (Seq<char>, SlotView),
    player: i8,
    uuid: Seq<char>,
) -> (Seq<char>, SlotView) {
    if row.0 == uuid {
        (row.0, SlotView { slot: player, ..row.1 })
    } else if player != UNASSIGNED && row.1.slot == player {
        (row.0, SlotView { slot: UNASSIGNED, ..row.1 })
    } else {
        row
    }
}

/// A player belongs to one client at a time. A player given to someone unknown
/// goes to nobody and stays with whoever had it.
pub open spec fn with_player(rows: SlotRows, player: i8, uuid: Seq<char>) -> SlotRows {
    if table::has_key(rows, uuid) {
        rows.map_values(|row: (Seq<char>, SlotView)| given(row, player, uuid))
    } else {
        rows
    }
}

/// Whether every player who is here is ready.
pub open spec fn everyone_ready(rows: SlotRows) -> bool {
    forall|i: int|
        0 <= i < rows.len() && rows[i].1.connected && plays(#[trigger] rows[i])
            ==> rows[i].1.status != STATUS_NOT_READY
}

pub open spec fn slot_of(rows: SlotRows, uuid: Seq<char>) -> Option<i8> {
    match table::lookup(rows, uuid) {
        Some(e) => Some(e.slot),
        None => None,
    }
}

pub open spec fn name_of(rows: SlotRows, uuid: Seq<char>) -> Option<Seq<char>> {
    match table::lookup(rows, uuid) {
        Some(e) => Some(e.name),
        None => None,
    }
}

/// The names of the players who are here.
pub open spec fn player_names(rows: SlotRows) -> Seq<Seq<char>> {
    players_here(rows).map_values(|row: (Seq<char>, SlotView)| row.1.name)
}

pub proof fn lemma_left_by(rows: SlotRows, name: Seq<char>)
    ensures
        match left_by(rows, name) {
            Some(i) => {
                &&& 0 <= i < rows.len()
                &&& !rows[i].1.connected
                &&& rows[i].1.name == name
                &&& forall|j: int|
                    0 <= j < i ==> (#[trigger] rows[j]).1.connected || rows[j].1.name != name
            },
            None => forall|j: int|
                0 <= j < rows.len() ==> (#[trigger] rows[j]).1.connected || rows[j].1.name
                    != name,
        },
    decreases rows.len(),
{
    if rows.len() > 0 {
        let rest = rows.drop_last();
        lemma_left_by(rest, name);
        assert forall|j: int| 0 <= j < rest.len() implies #[trigger] rows[j] == rest[j] by {}
        match left_by(rest, name) {
            Some(i) => {
                assert(rows[i] == rest[i]);
            },
            None => {},
        }
    }
}

impl Slots {
    pub fn new() -> (r: Self)
        ensures
            r@ == SlotRows::empty(),
    {
        Slots { entries: Table::new() }
    }

    /// What clients are told of everyone who is here.
    pub fn to_message(&self) -> (r: PlayerSlots)
        ensures
            r@ == listed(self@),
    {
        let ghost all = self@;
        let ghost here = |row: (Seq<char>, SlotView)| row.1.connected;
        let ghost as_host = |row: (Seq<char>, SlotView)| host(row);
        let mut hosts: Vec<Host> = Vec::new();
        let mut i: usize = 0;
        proof {
            utils::lemma_filter_ends(all, here);
            assert(items::views(hosts@) =~= all.take(0).filter(here).map_values(as_host));
        }
        while i < self.entries.rows.len()
            invariant
                all == self@,
                here == (|row: (Seq<char>, SlotView)| row.1.connected),
                as_host == (|row: (Seq<char>, SlotView)| host(row)),
                i <= self.entries.rows@.len(),
                items::views(hosts@) == all.take(i as int).filter(here).map_values(as_host),
            decreases self.entries.rows@.len() - i,
        {
            let ghost so_far = items::views(hosts@);
            let ghost before = all.take(i as int).filter(here);
            proof {
                utils::lemma_filter_step(all, i as int, here);
                assert(all[i as int] == table::row_view(self.entries.rows@[i as int]));
            }
            let e = &self.entries.rows[i].1;
            if e.connected {
                let h = Host {
                    guid: self.entries.rows[i].0.clone(),
                    name: utils::copy_text(e.name.as_str()),
                    player_id: e.slot,
                    status: e.status,
                };
                let ghost v = h@;
                hosts.push(h);
                proof {
                    assert(items::views(hosts@) =~= so_far.push(v));
                    assert(before.push(all[i as int]).map_values(as_host) =~= before.map_values(
                        as_host,
                    ).push(as_host(all[i as int])));
                }
            }
            i += 1;
        }
        PlayerSlots { hosts }
    }

    pub fn connected_player_names(&self) -> (r: Vec<String>)
        ensures
            items::views(r@) == player_names(self@),
    {
        let ghost all = self@;
        let ghost here = |row: (Seq<char>, SlotView)| row.1.connected && plays(row);
        let ghost as_name = |row: (Seq<char>, SlotView)| row.1.name;
        let mut names: Vec<String> = Vec::new();
        let mut i: usize = 0;
        proof {
            utils::lemma_filter_ends(all, here);
            assert(items::views(names@) =~= all.take(0).filter(here).map_values(as_name));
        }
        while i < self.entries.rows.len()
            invariant
                all == self@,
                here == (|row: (Seq<char>, SlotView)| row.1.connected && plays(row)),
                as_name == (|row: (Seq<char>, SlotView)| row.1.name),
                i <= self.entries.rows@.len(),
                items::views(names@) == all.take(i as int).filter(here).map_values(as_name),
            decreases self.entries.rows@.len() - i,
        {
            let ghost so_far = items::views(names@);
            let ghost before = all.take(i as int).filter(here);
            proof {
                utils::lemma_filter_step(all, i as int, here);
                assert(all[i as int] == table::row_view(self.entries.rows@[i as int]));
            }
            let e = &self.entries.rows[i].1;
            if e.connected && e.slot != UNASSIGNED {
                let name = utils::copy_text(e.name.as_str());
                let ghost v = name@;
                names.push(name);
                proof {
                    assert(items::views(names@) =~= so_far.push(v));
                    assert(before.push(all[i as int]).map_values(as_name) =~= before.map_values(
                        as_name,
                    ).push(as_name(all[i as int])));
                }
            }
            i += 1;
        }
        names
    }

    fn count_players(&self, connected: bool) -> (r: usize)
        ensures
            r == if connected {
                players_here(self@).len()
            } else {
                players_gone(self@).len()
            },
    {
        let ghost all = self@;
        let ghost here = |row: (Seq<char>, SlotView)| row.1.connected && plays(row);
        let ghost gone = |row: (Seq<char>, SlotView)| !row.1.connected && plays(row);
        let mut n: usize = 0;
        let mut i: usize = 0;
        proof {
            utils::lemma_filter_ends(all, here);
            utils::lemma_filter_ends(all, gone);
        }
        while i < self.entries.rows.len()
            invariant
                all == self@,
                here == (|row: (Seq<char>, SlotView)| row.1.connected && plays(row)),
                gone == (|row: (Seq<char>, SlotView)| !row.1.connected && plays(row)),
                n <= i <= self.entries.rows@.len(),
                n == if connected {
                    all.take(i as int).filter(here).len()
                } else {
                    all.take(i as int).filter(gone).len()
                },
            decreases self.entries.rows@.len() - i,
        {
            proof {
                utils::lemma_filter_step(all, i as int, here);
                utils::lemma_filter_step(all, i as int, gone);
                assert(all[i as int] == table::row_view(self.entries.rows@[i as int]));
            }
            let e = &self.entries.rows[i].1;
            if e.connected == connected && e.slot != UNASSIGNED {
                n += 1;
            }
            i += 1;
        }
        n
    }

    pub fn connected_players(&self) -> (r: usize)
        ensures
            r == players_here(self@).len(),
    {
        self.count_players(true)
    }

    pub fn disconnected_players(&self) -> (r: usize)
        ensures
            r == players_gone(self@).len(),
    {
        self.count_players(false)
    }

    fn find_left(&self, name: &str) -> (r: Option<usize>)
        ensures
            match r {
                Some(i) => left_by(self@, name@) == Some(i as int) && i < self@.len(),
                None => left_by(self@, name@) is None,
            },
    {
        proof {
            lemma_left_by(self@, name@);
        }
        let mut i: usize = 0;
        while i < self.entries.rows.len()
            invariant
                i <= self.entries.rows@.len(),
                match left_by(self@, name@) {
                    Some(k) => {
                        &&& i <= k < self@.len()
                        &&& !self@[k].1.connected
                        &&& self@[k].1.name == name@
                        &&& forall|j: int|
                            0 <= j < k ==> (#[trigger] self@[j]).1.connected || self@[j].1.name
                                != name@
                    },
                    None => forall|j: int|
                        0 <= j < self@.len() ==> (#[trigger] self@[j]).1.connected
                            || self@[j].1.name != name@,
                },
            decreases self.entries.rows@.len() - i,
        {
            assert(self@[i as int] == table::row_view(self.entries.rows@[i as int]));
            let e = &self.entries.rows[i].1;
            if !e.connected && utils::same_text(e.name.as_str(), name) {
                return Some(i);
            }
            i += 1;
        }
        None
    }

    pub fn has_disconnected_named(&self, name: &str) -> (r: bool)
        ensures
            r == (left_by(self@, name@) is Some),
    {
        self.find_left(name).is_some()
    }

    pub fn slot_of(&self, uuid: &Guid) -> (r: Option<i8>)
        ensures
            r == slot_of(self@, uuid@),
    {
        match self.entries.get(uuid) {
            Some(e) => Some(e.slot),
            None => None,
        }
    }

    pub fn name_of(&self, uuid: &Guid) -> (r: Option<&str>)
        ensures
            match r {
                Some(n) => name_of(self@, uuid@) == Some(n@),
                None => name_of(self@, uuid@) is None,
            },
    {
        match self.entries.get(uuid) {
            Some(e) => Some(e.name.as_str()),
            None => None,
        }
    }

    /// Takes a newcomer in. Returns whose place they took.
    pub fn add(&mut self, uuid: Guid, name: String, reclaim: bool) -> (r: Option<Guid>)
        ensures
            final(self)@ == with_newcomer(old(self)@, uuid@, name@, reclaim),
            match r {
                Some(u) => displaced_by(old(self)@, name@, reclaim) == Some(u@),
                None => displaced_by(old(self)@, name@, reclaim) is None,
            },
    {
        let found = self.find_left(name.as_str());
        if reclaim {
            if let Some(i) = found {
                let ghost u = uuid@;
                let row = &self.entries.rows[i];
                assert(self@[i as int] == table::row_view(*row));
                let old_uuid = row.0.clone();
                let e = Slot {
                    name: utils::copy_text(row.1.name.as_str()),
                    slot: row.1.slot,
                    status: row.1.status,
                    connected: true,
                };
                let ghost v = e@;
                self.entries.rows.set(i, (uuid, e));
                assert(self@ =~= old(self)@.update(i as int, (u, v)));
                return Some(old_uuid);
            }
        }
        let e = Slot { name, slot: UNASSIGNED, status: STATUS_NOT_READY, connected: true };
        self.entries.put(uuid, e);
        None
    }

    fn update(&mut self, uuid: &Guid, status: Option<u8>)
        ensures
            final(self)@ == match status {
                Some(s) => with_status(old(self)@, uuid@, s),
                None => with_departure(old(self)@, uuid@),
            },
    {
        let e = match self.entries.get(uuid) {
            Some(e) => Slot {
                name: utils::copy_text(e.name.as_str()),
                slot: e.slot,
                status: match status {
                    Some(s) => s,
                    None => e.status,
                },
                connected: match status {
                    Some(_) => e.connected,
                    None => false,
                },
            },
            None => return ,
        };
        self.entries.put(uuid.clone(), e);
    }

    pub fn set_status(&mut self, uuid: &Guid, status: u8)
        ensures
            final(self)@ == with_status(old(self)@, uuid@, status),
    {
        self.update(uuid, Some(status));
    }

    pub fn mark_disconnected(&mut self, uuid: &Guid)
        ensures
            final(self)@ == with_departure(old(self)@, uuid@),
    {
        self.update(uuid, None);
    }

    pub fn reset_pregame(&mut self)
        ensures
            final(self)@ == with_reset(old(self)@),
    {
        let ghost all = self@;
        let ghost wanted = with_reset(all);
        let mut i: usize = 0;
        while i < self.entries.rows.len()
            invariant
                all == old(self)@,
                wanted == with_reset(all),
                i <= self.entries.rows@.len() == all.len(),
                forall|j: int| 0 <= j < i ==> #[trigger] self@[j] == wanted[j],
                forall|j: int| i <= j < all.len() ==> #[trigger] self@[j] == all[j],
            decreases self.entries.rows@.len() - i,
        {
            let ghost before = self@;
            assert(self@[i as int] == table::row_view(self.entries.rows@[i as int]));
            if self.entries.rows[i].1.status != STATUS_STAY_READY {
                let row = &mut self.entries.rows[i];
                row.1.status = STATUS_NOT_READY;
            }
            assert(self@[i as int] == table::row_view(self.entries.rows@[i as int]));
            assert(self@ =~= before.update(i as int, wanted[i as int]));
            i += 1;
        }
        assert(self@ =~= wanted);
    }

    pub fn assign(&mut self, player: i8, uuid: &Guid)
        ensures
            final(self)@ == with_player(old(self)@, player, uuid@),
    {
        if !self.entries.has(uuid) {
            return ;
        }
        let ghost all = self@;
        let ghost wanted = with_player(all, player, uuid@);
        let mut i: usize = 0;
        while i < self.entries.rows.len()
            invariant
                all == old(self)@,
                wanted == all.map_values(
                    |row: (Seq<char>, SlotView)| given(row, player, uuid@),
                ),
                i <= self.entries.rows@.len() == all.len(),
                forall|j: int| 0 <= j < i ==> #[trigger] self@[j] == wanted[j],
                forall|j: int| i <= j < all.len() ==> #[trigger] self@[j] == all[j],
            decreases self.entries.rows@.len() - i,
        {
            let ghost before = self@;
            assert(self@[i as int] == table::row_view(self.entries.rows@[i as int]));
            let theirs = self.entries.rows[i].0.same(uuid);
            let same = self.entries.rows[i].1.slot == player;
            if theirs {
                let row = &mut self.entries.rows[i];
                row.1.slot = player;
            } else if player != UNASSIGNED && same {
                let row = &mut self.entries.rows[i];
                row.1.slot = UNASSIGNED;
            }
            assert(self@[i as int] == table::row_view(self.entries.rows@[i as int]));
            assert(self@ =~= before.update(i as int, wanted[i as int]));
            i += 1;
        }
        assert(self@ =~= wanted);
    }

    /// Whether every player who is here is ready.
    pub fn all_ready(&self) -> (r: bool)
        ensures
            r == everyone_ready(self@),
    {
        let mut i: usize = 0;
        while i < self.entries.rows.len()
            invariant
                i <= self.entries.rows@.len(),
                forall|j: int|
                    0 <= j < i && self@[j].1.connected && plays(#[trigger] self@[j])
                        ==> self@[j].1.status != STATUS_NOT_READY,
            decreases self.entries.rows@.len() - i,
        {
            let e = &self.entries.rows[i].1;
            assert(self@[i as int] == table::row_view(self.entries.rows@[i as int]));
            if e.connected && e.slot != UNASSIGNED && e.status == STATUS_NOT_READY {
                assert(plays(self@[i as int]));
                return false;
            }
            i += 1;
        }
        true
    }
}

impl Default for Slots {
    fn default() -> (r: Self)
        ensures
            r@ == SlotRows::empty(),
    {
        Slots::new()
    }
}

/// Nobody shares a player: once a player was given to someone, nobody else
/// has it.
pub proof fn players_are_not_shared(rows: SlotRows, player: i8, uuid: Seq<char>)
    requires
        player != UNASSIGNED,
        table::has_key(rows, uuid),
    ensures
        slot_of(with_player(rows, player, uuid), uuid) == Some(player),
        forall|i: int|
            0 <= i < rows.len() && rows[i].0 != uuid ==> (#[trigger] with_player(
                rows,
                player,
                uuid,
            )[i]).1.slot != player,
{
    let after = with_player(rows, player, uuid);
    table::lemma_index_of(rows, uuid);
    let k = table::index_of(rows, uuid)->0;
    assert forall|j: int| 0 <= j < k implies #[trigger] after[j].0 != uuid by {
        assert(rows[j].0 != uuid);
    }
    assert(after[k].0 == uuid);
    table::lemma_index_is(after, uuid, k);
}

/// Someone who returns under their name has the player they left, and nobody
/// else's row changes.
pub proof fn returning_keeps_the_player(rows: SlotRows, uuid: Seq<char>, name: Seq<char>)
    requires
        left_by(rows, name) is Some,
    ensures
        ({
            let i = left_by(rows, name)->0;
            let after = with_newcomer(rows, uuid, name, true);
            &&& after.len() == rows.len()
            &&& after[i].0 == uuid
            &&& after[i].1.slot == rows[i].1.slot
            &&& after[i].1.connected
            &&& forall|j: int| 0 <= j < rows.len() && j != i ==> #[trigger] after[j] == rows[j]
        }),
{
    lemma_left_by(rows, name);
}

} // verus!
