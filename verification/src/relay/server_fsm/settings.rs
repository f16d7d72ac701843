//! What the server reads out of the settings a match is started with.

use vstd::prelude::*;

use crate::json;
use crate::json::Node;
use crate::json::NodeView;
use crate::table;
use crate::utils;

verus! {

/// What a match is played with, once it has started.
#[derive(Debug)]
pub struct FrozenSettings {
    /// Kept verbatim because late joiners are told the same text.
    pub json: Vec<u8>,
    pub cheats_enabled: bool,
    pub turn_length_ms: u32,
    /// Every player of the match, AI included. Empty when the settings could
    /// not be read, which keeps resigning from ever ending it.
    pub player_ids: Vec<i32>,
    /// With no victory condition the engine never declares anyone the winner,
    /// so running out of opponents does not end the match.
    pub endless: bool,
}

/// What [`FrozenSettings`] is.
pub struct Frozen {
    pub json: Seq<u8>,
    pub cheats_enabled: bool,
    pub turn_length_ms: u32,
    pub player_ids: Seq<i32>,
    pub endless: bool,
}

impl View for FrozenSettings {
    type V = Frozen;

    open spec fn view(&self) -> Frozen {
        Frozen {
            json: self.json@,
            cheats_enabled: self.cheats_enabled,
            turn_length_ms: self.turn_length_ms,
            player_ids: self.player_ids@,
            endless: self.endless,
        }
    }
}

// ---------------------------------------------------------------------------
// Cheats. Found by its name alone: the relay needs no more of the settings
// before it can relay commands.

pub const CHEATS_KEY: [u8; 15] = [
    34, 67, 104, 101, 97, 116, 115, 69, 110, 97, 98, 108, 101, 100, 34,
];

pub const TRUE_TEXT: [u8; 4] = [116, 114, 117, 101];

/// Whether a piece of text stands at `at`.
pub open spec fn stands(b: Seq<u8>, at: int, piece: Seq<u8>) -> bool {
    at + piece.len() <= b.len() && b.subrange(at, at + piece.len()) == piece
}

/// Where a piece of text first stands, from `from` on.
pub open spec fn first_at(b: Seq<u8>, from: int, piece: Seq<u8>) -> Option<int>
    decreases b.len() + 1 - from,
{
    if from + piece.len() > b.len() {
        None
    } else if stands(b, from, piece) {
        Some(from)
    } else {
        first_at(b, from + 1, piece)
    }
}

/// What may stand between a name and its value.
pub open spec fn between(c: u8) -> bool {
    c == 9 || c == 10 || c == 12 || c == 13 || c == 32 || c == 58
}

/// Where a value begins, from `from` on.
pub open spec fn value_at(b: Seq<u8>, from: int) -> int
    decreases b.len() - from,
{
    if from < b.len() && between(b[from]) {
        value_at(b, from + 1)
    } else {
        from
    }
}

/// Whether settings allow cheats.
pub open spec fn allows_cheats(b: Seq<u8>) -> bool {
    match first_at(b, 0, CHEATS_KEY@) {
        Some(at) => stands(b, value_at(b, at + CHEATS_KEY@.len()), TRUE_TEXT@),
        None => false,
    }
}

fn stands_at(b: &[u8], at: usize, piece: &[u8]) -> (r: bool)
    requires
        at <= b@.len(),
    ensures
        r == stands(b@, at as int, piece@),
{
    let size: usize = b.len();
    if size - at < piece.len() {
        return false;
    }
    let mut i: usize = 0;
    while i < piece.len()
        invariant
            size == b@.len(),
            at + piece@.len() <= size,
            i <= piece@.len(),
            forall|j: int| 0 <= j < i ==> b@[at + j] == piece@[j],
        decreases piece@.len() - i,
    {
        if b[at + i] != piece[i] {
            proof {
                let there = b@.subrange(at as int, at + piece@.len());
                assert(there[i as int] == b@[at + i]);
            }
            return false;
        }
        i += 1;
    }
    assert(b@.subrange(at as int, at + piece@.len()) =~= piece@);
    true
}

/// Whether settings allow cheats.
pub fn cheats_enabled(json: &[u8]) -> (r: bool)
    ensures
        r == allows_cheats(json@),
{
    let size: usize = json.len();
    let key_size: usize = 15;
    assert(CHEATS_KEY@.len() == key_size);
    let mut at: usize = 0;
    while at <= size && size - at >= key_size && !stands_at(json, at, CHEATS_KEY.as_slice())
        invariant
            size == json@.len(),
            at <= size,
            key_size == 15,
            CHEATS_KEY@.len() == key_size,
            first_at(json@, 0, CHEATS_KEY@) == first_at(json@, at as int, CHEATS_KEY@),
        decreases size - at,
    {
        at += 1;
    }
    if size - at < key_size {
        return false;
    }
    let ghost start = at + key_size;
    let mut i: usize = at + key_size;
    while i < size && (json[i] == 9 || json[i] == 10 || json[i] == 12 || json[i] == 13 || json[i]
        == 32 || json[i] == 58)
        invariant
            size == json@.len(),
            start <= i <= size,
            value_at(json@, start) == value_at(json@, i as int),
        decreases size - i,
    {
        i += 1;
    }
    stands_at(json, i, TRUE_TEXT.as_slice())
}

// ---------------------------------------------------------------------------
// The players, and whether the match can be won.

/// How many players the settings list.
pub open spec fn listed_players(settings: serde_json::Value) -> nat {
    match json::member(settings, "PlayerData"@) {
        Some(data) => match json::list(data) {
            Some(players) => players.len(),
            None => 0,
        },
        None => 0,
    }
}

/// Whether the settings name nothing to win by.
pub open spec fn nothing_to_win(settings: serde_json::Value) -> bool {
    match json::member(settings, "VictoryConditions"@) {
        Some(conditions) => match json::list(conditions) {
            Some(items) => items.len() == 0,
            None => true,
        },
        None => true,
    }
}

/// The players of a match are numbered from one: the engine puts gaia in front
/// of them itself. More than there are numbers for cannot be.
pub open spec fn numbered_players(n: nat) -> Seq<i32> {
    Seq::new(
        if n <= i32::MAX {
            n
        } else {
            i32::MAX as nat
        },
        |i: int| (i + 1) as i32,
    )
}

/// The players a match is played between, and whether it can end at all, from
/// its attributes.
pub open spec fn players_in(attribs: Option<serde_json::Value>) -> (Seq<i32>, bool) {
    match attribs {
        None => (Seq::empty(), true),
        Some(attribs) => match json::member(attribs, "settings"@) {
            None => (Seq::empty(), true),
            Some(settings) => (
                numbered_players(listed_players(settings)),
                nothing_to_win(settings),
            ),
        },
    }
}

/// The players a match is played between, and whether it can end at all.
/// Attributes that cannot be read give no players and an endless match, so
/// resigning never ends a match the relay cannot see.
pub fn players_of(attribs: &Option<serde_json::Value>) -> (r: (Vec<i32>, bool))
    ensures
        (r.0@, r.1) == players_in(*attribs),
{
    let empty: Vec<i32> = Vec::new();
    let attribs = match attribs {
        Some(a) => a,
        None => return (empty, true),
    };
    let settings = match json::get_member(attribs, "settings") {
        Some(s) => s,
        None => return (empty, true),
    };
    let count: usize = match json::get_member(&settings, "PlayerData") {
        Some(data) => match json::get_list(&data) {
            Some(players) => players.len(),
            None => 0,
        },
        None => 0,
    };
    let top: usize = if count <= 0x7fff_ffff {
        count
    } else {
        0x7fff_ffff
    };
    let mut ids: Vec<i32> = Vec::new();
    let mut i: usize = 0;
    while i < top
        invariant
            i <= top <= 0x7fff_ffff,
            ids@.len() == i,
            forall|j: int| 0 <= j < i ==> ids@[j] == j + 1,
        decreases top - i,
    {
        ids.push((i + 1) as i32);
        i += 1;
    }
    let endless = match json::get_member(&settings, "VictoryConditions") {
        Some(conditions) => match json::get_list(&conditions) {
            Some(items) => items.len() == 0,
            None => true,
        },
        None => true,
    };
    assert(ids@ =~= numbered_players(listed_players(settings)));
    (ids, endless)
}

/// The players a match is played between, and whether it can end at all.
pub fn match_players(json: &[u8]) -> (r: (Vec<i32>, bool))
    ensures
        (r.0@, r.1) == players_in(json::json_read(json@)),
{
    players_of(&json::read_json(json))
}

// ---------------------------------------------------------------------------
// AI slots.

/// What becomes of settings with AI slots: every stock client gets `stock` and
/// the AI host gets `ai_host`.
#[derive(Debug)]
pub struct AiSettingsSplit {
    pub stock: Vec<u8>,
    pub ai_host: Vec<u8>,
    pub players: Vec<i32>,
}

/// What [`AiSettingsSplit`] is.
pub struct AiSplit {
    pub stock: Seq<u8>,
    pub ai_host: Seq<u8>,
    pub players: Seq<i32>,
}

/// Whether a slot is played by an AI.
pub open spec fn is_ai(slot: serde_json::Value) -> bool {
    match json::member(slot, "AI"@) {
        Some(ai) => match json::text(ai) {
            Some(name) => name.len() > 0,
            None => false,
        },
        None => false,
    }
}

/// The players of the AI slots.
pub open spec fn ai_players(slots: Seq<serde_json::Value>) -> Seq<i32>
    decreases slots.len(),
{
    if slots.len() == 0 {
        Seq::empty()
    } else {
        let before = ai_players(slots.drop_last());
        if is_ai(slots.last()) && slots.len() <= i32::MAX {
            before.push(slots.len() as i32)
        } else {
            before
        }
    }
}

/// A slot without what makes a stock client register and run an AI.
pub open spec fn without_ai(slot: serde_json::Value) -> serde_json::Value {
    match json::node_of(slot) {
        NodeView::Object(members) => json::value_with(
            NodeView::Object(
                table::without_row(
                    table::without_row(table::without_row(members, "AI"@), "AIDiff"@),
                    "AIBehavior"@,
                ),
            ),
        ),
        _ => slot,
    }
}

/// The slots with every AI slot stripped.
pub open spec fn stripped(slots: Seq<serde_json::Value>) -> Seq<serde_json::Value> {
    Seq::new(
        slots.len(),
        |i: int|
            if is_ai(slots[i]) && i < i32::MAX {
                without_ai(slots[i])
            } else {
                slots[i]
            },
    )
}

/// An object with one member set.
pub open spec fn with_set(
    members: Seq<(Seq<char>, serde_json::Value)>,
    key: Seq<char>,
    to: serde_json::Value,
) -> serde_json::Value {
    json::value_with(NodeView::Object(json::with_member(members, key, to)))
}

/// The members of an object.
pub open spec fn members_of(value: serde_json::Value) -> Option<
    Seq<(Seq<char>, serde_json::Value)>,
> {
    match json::node_of(value) {
        NodeView::Object(members) => Some(members),
        _ => None,
    }
}

/// What is made of the settings a match is started with: the ones for stock
/// clients, the ones for the AI host, and the players it plays. None when there
/// is no AI slot, or the settings are not what they should be.
pub open spec fn values_of(attribs: serde_json::Value) -> Option<
    (serde_json::Value, serde_json::Value, Seq<i32>),
> {
    match members_of(attribs) {
        None => None,
        Some(outer) => match table::lookup(outer, "settings"@) {
            None => None,
            Some(settings) => match members_of(settings) {
                None => None,
                Some(inner) => match table::lookup(inner, "PlayerData"@) {
                    None => None,
                    Some(data) => match json::list(data) {
                        None => None,
                        Some(slots) => if ai_players(slots).len() == 0 {
                            None
                        } else {
                            Some(values_with(outer, inner, slots))
                        },
                    },
                },
            },
        },
    }
}

/// The settings with the map explored.
pub open spec fn explored(inner: Seq<(Seq<char>, serde_json::Value)>) -> Seq<
    (Seq<char>, serde_json::Value),
> {
    json::with_member(inner, "ExploreMap"@, json::value_with(NodeView::Bool(true)))
}

/// Both with the map explored, and the stock one without the AI slots.
pub open spec fn values_with(
    outer: Seq<(Seq<char>, serde_json::Value)>,
    inner: Seq<(Seq<char>, serde_json::Value)>,
    slots: Seq<serde_json::Value>,
) -> (serde_json::Value, serde_json::Value, Seq<i32>) {
    let for_ai = with_set(
        outer,
        "settings"@,
        json::value_with(NodeView::Object(explored(inner))),
    );
    let for_stock = with_set(
        outer,
        "settings"@,
        with_set(
            explored(inner),
            "PlayerData"@,
            json::value_with(NodeView::List(stripped(slots))),
        ),
    );
    (for_stock, for_ai, ai_players(slots))
}

/// The settings a match is started with, split and written out. None when there
/// is no AI slot, or the settings cannot be read.
pub open spec fn split_of(attribs: serde_json::Value) -> Option<AiSplit> {
    match values_of(attribs) {
        None => None,
        Some((for_stock, for_ai, players)) => match (
            json::json_written(for_stock),
            json::json_written(for_ai),
        ) {
            (Some(stock), Some(ai_host)) => Some(AiSplit { stock, ai_host, players }),
            _ => None,
        },
    }
}

/// One of the settings a match is started with.
pub open spec fn setting(attribs: serde_json::Value, key: Seq<char>) -> Option<serde_json::Value> {
    match json::member(attribs, "settings"@) {
        Some(settings) => json::member(settings, key),
        None => None,
    }
}

/// The slots a match is started with.
pub open spec fn slots_in(attribs: serde_json::Value) -> Option<Seq<serde_json::Value>> {
    match setting(attribs, "PlayerData"@) {
        Some(data) => json::list(data),
        None => None,
    }
}

/// What makes a stock client register and run an AI.
pub open spec fn ai_field(key: Seq<char>) -> bool {
    key == "AI"@ || key == "AIDiff"@ || key == "AIBehavior"@
}

/// A slot as another, but for what makes it an AI's.
pub open spec fn same_slot(a: serde_json::Value, b: serde_json::Value) -> bool {
    forall|key: Seq<char>|
        !ai_field(key) ==> #[trigger] json::member(a, key) == json::member(b, key)
}

/// That stock clients are shown no AI, that the AI host is shown every slot as
/// it is, that the map is explored for both, and that nothing else differs.
/// There is no telling of more slots than players can be numbered.
pub open spec fn only_ai_differs(
    attribs: serde_json::Value,
    stock: serde_json::Value,
    ai_host: serde_json::Value,
) -> bool {
    &&& setting(stock, "ExploreMap"@) matches Some(e) && json::flag(e) == Some(true)
    &&& setting(ai_host, "ExploreMap"@) matches Some(e) && json::flag(e) == Some(true)
    &&& slots_in(attribs) matches Some(slots) && slots_in(stock) matches Some(shown) && {
        &&& shown.len() == slots.len()
        &&& forall|i: int| 0 <= i < shown.len() ==> same_slot(#[trigger] shown[i], slots[i])
        &&& slots.len() <= i32::MAX ==> forall|i: int|
            0 <= i < shown.len() ==> !is_ai(#[trigger] shown[i])
    }
    &&& forall|key: Seq<char>|
        key != "ExploreMap"@ && key != "PlayerData"@ ==> #[trigger] setting(stock, key)
            == setting(attribs, key)
    &&& forall|key: Seq<char>|
        key != "ExploreMap"@ ==> #[trigger] setting(ai_host, key) == setting(attribs, key)
    &&& forall|key: Seq<char>|
        key != "settings"@ ==> #[trigger] json::member(stock, key) == json::member(attribs, key)
    &&& forall|key: Seq<char>|
        key != "settings"@ ==> #[trigger] json::member(ai_host, key) == json::member(attribs, key)
}

proof fn lemma_with_member(
    members: Seq<(Seq<char>, serde_json::Value)>,
    key: Seq<char>,
    to: serde_json::Value,
)
    requires
        table::distinct(members),
    ensures
        table::distinct(json::with_member(members, key, to)),
        table::lookup(json::with_member(members, key, to), key) == Some(to),
        forall|other: Seq<char>|
            other != key ==> #[trigger] table::lookup(json::with_member(members, key, to), other)
                == table::lookup(members, other),
{
    table::lemma_with_row_distinct(members, key, to);
    table::lemma_with_row_lookup(members, key, to, key);
    assert forall|other: Seq<char>| other != key implies #[trigger] table::lookup(
        json::with_member(members, key, to),
        other,
    ) == table::lookup(members, other) by {
        table::lemma_with_row_lookup(members, key, to, other);
    }
}

/// What a split is.
pub open spec fn split_view(r: Option<AiSettingsSplit>) -> Option<AiSplit> {
    match r {
        Some(s) => Some(
            AiSplit { stock: s.stock@, ai_host: s.ai_host@, players: s.players@ },
        ),
        None => None,
    }
}

fn slot_is_ai(slot: &serde_json::Value) -> (r: bool)
    ensures
        r == is_ai(*slot),
{
    match json::get_member(slot, "AI") {
        Some(ai) => match json::get_text(&ai) {
            Some(name) => utils::chars_of(name.as_str()).len() > 0,
            None => false,
        },
        None => false,
    }
}

fn find_ai_players(slots: &Vec<serde_json::Value>) -> (r: Vec<i32>)
    ensures
        r@ == ai_players(slots@),
{
    let mut out: Vec<i32> = Vec::new();
    let mut i: usize = 0;
    assert(slots@.take(0) =~= Seq::empty());
    while i < slots.len()
        invariant
            i <= slots@.len(),
            out@ == ai_players(slots@.take(i as int)),
        decreases slots@.len() - i,
    {
        proof {
            assert(slots@.take(i + 1).drop_last() =~= slots@.take(i as int));
            assert(slots@.take(i + 1).last() == slots@[i as int]);
        }
        if slot_is_ai(&slots[i]) && i < 0x7fff_ffff {
            out.push((i + 1) as i32);
        }
        i += 1;
    }
    assert(slots@.take(i as int) =~= slots@);
    out
}

fn strip_slot(slot: &serde_json::Value) -> (r: serde_json::Value)
    ensures
        r == without_ai(*slot),
        same_slot(r, *slot),
        !is_ai(r),
{
    match json::node(slot) {
        Node::Object(members) => {
            let mut members = members;
            let ghost all = json::members_view(members@);
            json::drop_member(&mut members, "AI");
            json::drop_member(&mut members, "AIDiff");
            json::drop_member(&mut members, "AIBehavior");
            proof {
                let a = table::without_row(all, "AI"@);
                let b = table::without_row(a, "AIDiff"@);
                let c = table::without_row(b, "AIBehavior"@);
                table::lemma_without_row_distinct(all, "AI"@);
                table::lemma_without_row_distinct(a, "AIDiff"@);
                table::lemma_without_row_distinct(b, "AIBehavior"@);
                assert forall|key: Seq<char>| !ai_field(key) implies #[trigger] table::lookup(
                    c,
                    key,
                ) == table::lookup(all, key) by {
                    table::lemma_without_row_lookup(all, "AI"@, key);
                    table::lemma_without_row_lookup(a, "AIDiff"@, key);
                    table::lemma_without_row_lookup(b, "AIBehavior"@, key);
                }
                reveal_strlit("AI");
                reveal_strlit("AIDiff");
                reveal_strlit("AIBehavior");
                assert("AI"@.len() == 2 && "AIDiff"@.len() == 6 && "AIBehavior"@.len() == 10);
                table::lemma_without_row_lookup(a, "AIDiff"@, "AI"@);
                table::lemma_without_row_lookup(b, "AIBehavior"@, "AI"@);
                assert(table::lookup(c, "AI"@) is None);
            }
            json::value(Node::Object(members))
        },
        _ => slot.clone(),
    }
}

fn strip_slots(slots: &Vec<serde_json::Value>) -> (r: Vec<serde_json::Value>)
    ensures
        r@ == stripped(slots@),
        forall|i: int| 0 <= i < r@.len() ==> same_slot(#[trigger] r@[i], slots@[i]),
        forall|i: int| 0 <= i < r@.len() && i < i32::MAX ==> !is_ai(#[trigger] r@[i]),
{
    let mut out: Vec<serde_json::Value> = Vec::new();
    let mut i: usize = 0;
    while i < slots.len()
        invariant
            i <= slots@.len(),
            out@.len() == i,
            forall|j: int| 0 <= j < i ==> out@[j] == stripped(slots@)[j],
            forall|j: int| 0 <= j < i ==> same_slot(#[trigger] out@[j], slots@[j]),
            forall|j: int| 0 <= j < i && j < i32::MAX ==> !is_ai(#[trigger] out@[j]),
        decreases slots@.len() - i,
    {
        if slot_is_ai(&slots[i]) && i < 0x7fff_ffff {
            out.push(strip_slot(&slots[i]));
        } else {
            out.push(slots[i].clone());
        }
        i += 1;
    }
    assert(out@ =~= stripped(slots@));
    out
}

/// The members of an object that stands under a name.
fn object_in(members: &Vec<(String, serde_json::Value)>, key: &str) -> (r: Option<
    Vec<(String, serde_json::Value)>,
>)
    ensures
        match r {
            Some(m) => table::lookup(json::members_view(members@), key@) matches Some(v)
                && members_of(v) == Some(json::members_view(m@)) && table::distinct(
                json::members_view(m@),
            ),
            None => match table::lookup(json::members_view(members@), key@) {
                Some(v) => members_of(v) is None,
                None => true,
            },
        },
{
    match json::find_member(members, key) {
        Some(v) => match json::node(&v) {
            Node::Object(m) => Some(m),
            _ => None,
        },
        None => None,
    }
}

/// The attributes of a match, for stock clients and for the AI host. The AI
/// slots are taken out of what stock clients receive: a client that sees a slot
/// as AI computes it locally and flags the player as AI, and that flag changes
/// how commands are processed, so it has to read the same on every client. The
/// map is also forced explored, because an unflagged AI no longer skips the fog
/// check when it places buildings, and it has no scouting of its own. The AI
/// host keeps the AI fields so it still registers the bots.
pub fn split_values(attribs: &serde_json::Value) -> (r: Option<
    (serde_json::Value, serde_json::Value, Vec<i32>),
>)
    ensures
        match r {
            Some((stock, ai_host, players)) => {
                &&& values_of(*attribs) == Some((stock, ai_host, players@))
                &&& only_ai_differs(*attribs, stock, ai_host)
            },
            None => values_of(*attribs) is None,
        },
{
    let mut outer = match json::node(attribs) {
        Node::Object(members) => members,
        _ => return None,
    };
    let ghost outside = json::members_view(outer@);
    let mut inner = match object_in(&outer, "settings") {
        Some(members) => members,
        None => return None,
    };
    let ghost inside = json::members_view(inner@);
    let data = match json::find_member(&inner, "PlayerData") {
        Some(d) => d,
        None => return None,
    };
    let slots = match json::get_list(&data) {
        Some(items) => items,
        None => return None,
    };
    let players = find_ai_players(&slots);
    if players.len() == 0 {
        return None;
    }
    let explore = json::value(Node::Bool(true));
    json::set_member(&mut inner, "ExploreMap", explore);
    let mut stock_inner = json::copy_members(&inner);
    let mut stock_outer = json::copy_members(&outer);
    proof {
        lemma_with_member(inside, "ExploreMap"@, json::value_with(NodeView::Bool(true)));
    }
    let ai_settings = json::value(Node::Object(inner));
    json::set_member(&mut outer, "settings", ai_settings);
    proof {
        lemma_with_member(outside, "settings"@, ai_settings);
    }
    let ai_host = json::value(Node::Object(outer));
    let shown = strip_slots(&slots);
    let ghost shown_view = shown@;
    let listed = json::value(Node::List(shown));
    json::set_member(&mut stock_inner, "PlayerData", listed);
    proof {
        lemma_with_member(explored(inside), "PlayerData"@, listed);
    }
    let stock_settings = json::value(Node::Object(stock_inner));
    json::set_member(&mut stock_outer, "settings", stock_settings);
    proof {
        lemma_with_member(outside, "settings"@, stock_settings);
    }
    let stock = json::value(Node::Object(stock_outer));
    proof {
        reveal_strlit("ExploreMap");
        reveal_strlit("PlayerData");
        assert("ExploreMap"@[0] == 'E' && "PlayerData"@[0] == 'P');
        assert(slots_in(stock) == Some(shown_view));
        assert(slots_in(*attribs) == Some(slots@));
    }
    Some((stock, ai_host, players))
}

/// The attributes of a match, split for the AI host and written out.
pub fn split_attributes(attribs: &serde_json::Value) -> (r: Option<AiSettingsSplit>)
    ensures
        split_view(r) == split_of(*attribs),
{
    match split_values(attribs) {
        Some((stock, ai_host, players)) => match (
            json::write_json(&stock),
            json::write_json(&ai_host),
        ) {
            (Some(stock), Some(ai_host)) => Some(AiSettingsSplit { stock, ai_host, players }),
            _ => None,
        },
        None => None,
    }
}

/// What settings are split into, from their text. None when there is no AI
/// slot, or the settings cannot be read: the match then starts the stock way
/// with every client running its own AI.
pub open spec fn split_text(text: Seq<u8>) -> Option<AiSplit> {
    match json::json_read(text) {
        Some(attribs) => split_of(attribs),
        None => None,
    }
}

/// What settings are split into.
pub fn split_ai_settings(json: &[u8]) -> (r: Option<AiSettingsSplit>)
    ensures
        split_view(r) == split_text(json@),
{
    match json::read_json(json) {
        Some(attribs) => split_attributes(&attribs),
        None => None,
    }
}

// ---------------------------------------------------------------------------

/// A duration as the chat line announcing it reads it, from whole seconds.
pub open spec fn span_text(secs: nat) -> Seq<char> {
    if secs == 60 {
        "1 minute"@
    } else if secs > 60 && secs % 60 == 0 {
        utils::decimal((secs / 60) as nat) + " minutes"@
    } else {
        utils::decimal(secs) + " seconds"@
    }
}

/// The whole seconds of a span in milliseconds; none of one that is over.
pub open spec fn shown_secs(span: i64) -> nat {
    if span > 0 {
        (span / 1000) as nat
    } else {
        0
    }
}

/// A duration as the chat line announcing it reads it.
pub fn describe_span(span: i64) -> (r: String)
    ensures
        r@ == span_text(shown_secs(span)),
{
    let secs: u64 = if span > 0 {
        (span / 1000) as u64
    } else {
        0
    };
    if secs == 60 {
        utils::copy_text("1 minute")
    } else if secs > 60 && secs % 60 == 0 {
        let mut out = utils::decimal_text(secs / 60);
        out.append(" minutes");
        out
    } else {
        let mut out = utils::decimal_text(secs);
        out.append(" seconds");
        out
    }
}

} // verus!
