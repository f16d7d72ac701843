//! What a game and the lobby tell each other.

use vstd::arithmetic::power2;
use vstd::prelude::*;

use crate::relay::messages::items;
use crate::relay::messages::EnabledMod;
use crate::relay::messages::EnabledModView;
use crate::relay::script_value;
use crate::relay::script_value::Script;
use crate::relay::script_value::ScriptNumber;
use crate::relay::script_value::ScriptValue;
use crate::utils;

verus! {

/// The lobby's word on who a session belongs to.
#[derive(Debug)]
pub struct LobbyAuthToken {
    pub username: String,
    pub token: String,
}

/// What the lobby account tells a game.
#[derive(Debug)]
pub enum LobbyToGame {
    Auth(LobbyAuthToken),
    /// A lobby player was just handed the game's address, so its connection is
    /// about to arrive. Personal mode uses this to tell a lobby player on a
    /// trusted network from the initiator while the game is unlisted.
    JoinerExpected,
}

/// What the controller's settings say of the map. None of it is known until
/// they have arrived: a hosted game is listed before any settings exist.
#[derive(Debug)]
pub struct LobbyMap {
    pub map_name: String,
    pub nice_map_name: String,
    pub map_type: String,
    pub map_size: String,
    pub victory_conditions: String,
    pub max_players: u32,
}

/// What [`LobbyMap`] is.
pub struct LobbyMapView {
    pub map_name: Seq<char>,
    pub nice_map_name: Seq<char>,
    pub map_type: Seq<char>,
    pub map_size: Seq<char>,
    pub victory_conditions: Seq<char>,
    pub max_players: u32,
}

impl View for LobbyMap {
    type V = LobbyMapView;

    open spec fn view(&self) -> LobbyMapView {
        LobbyMapView {
            map_name: self.map_name@,
            nice_map_name: self.nice_map_name@,
            map_type: self.map_type@,
            map_size: self.map_size@,
            victory_conditions: self.victory_conditions@,
            max_players: self.max_players,
        }
    }
}

impl Clone for LobbyMap {
    fn clone(&self) -> (r: Self)
        ensures
            r@ == self@,
    {
        LobbyMap {
            map_name: utils::copy_text(self.map_name.as_str()),
            nice_map_name: utils::copy_text(self.nice_map_name.as_str()),
            map_type: utils::copy_text(self.map_type.as_str()),
            map_size: utils::copy_text(self.map_size.as_str()),
            victory_conditions: utils::copy_text(self.victory_conditions.as_str()),
            max_players: self.max_players,
        }
    }
}

// The listing is built from settings the controller supplies, so the work it
// takes must be bounded by what was actually decoded, never by a length field
// inside the decoded value: a hostile array can claim any length while
// carrying almost nothing, and looping up to that length would stall the game.
pub const MAX_VICTORY_CONDITIONS: usize = 64;

pub const MIN_LISTED_PLAYERS: u32 = 2;

pub const MAX_LISTED_PLAYERS: u32 = 64;

/// The whole part of a double-precision number, cut towards zero and held
/// within 64 bits; what is no number is zero.
pub open spec fn whole(bits: u64) -> int {
    let negative = bits >= 0x8000_0000_0000_0000;
    let exponent = (bits / 0x10_0000_0000_0000) % 0x800;
    let fraction = bits % 0x10_0000_0000_0000;
    let mantissa = 0x10_0000_0000_0000 + fraction;
    if exponent == 0x7ff && fraction != 0 {
        0
    } else if exponent >= 1075 + 11 {
        if negative {
            i64::MIN as int
        } else {
            i64::MAX as int
        }
    } else {
        let size = if exponent >= 1075 {
            mantissa * power2::pow2((exponent - 1075) as nat) as int
        } else if exponent >= 1023 {
            mantissa / power2::pow2((1075 - exponent) as nat) as int
        } else {
            0
        };
        if negative {
            -size
        } else {
            size
        }
    }
}

fn whole_part(bits: u64) -> (r: i64)
    ensures
        r == whole(bits),
{
    let negative = bits >= 0x8000_0000_0000_0000;
    let exponent: u64 = (bits / 0x10_0000_0000_0000) % 0x800;
    let fraction: u64 = bits % 0x10_0000_0000_0000;
    let mantissa: u64 = 0x10_0000_0000_0000 + fraction;
    if exponent == 0x7ff && fraction != 0 {
        return 0;
    }
    if exponent >= 1086 {
        return if negative {
            i64::MIN
        } else {
            i64::MAX
        };
    }
    let size: u64 = if exponent >= 1075 {
        let by: u64 = exponent - 1075;
        proof {
            power2::lemma2_to64();
            if by < 10 {
                power2::lemma_pow2_strictly_increases(by as nat, 10);
            }
            assert(mantissa * power2::pow2(by as nat) <= 0x1f_ffff_ffff_ffff * 1024)
                by (nonlinear_arith)
                requires
                    mantissa <= 0x1f_ffff_ffff_ffff,
                    power2::pow2(by as nat) <= 1024,
            ;
            vstd::bits::lemma_u64_shl_is_mul(mantissa, by);
        }
        mantissa << by
    } else if exponent >= 1023 {
        let by: u64 = 1075 - exponent;
        proof {
            vstd::bits::lemma_u64_shr_is_div(mantissa, by);
            power2::lemma_pow2_pos(by as nat);
            assert(mantissa as nat / power2::pow2(by as nat) <= mantissa) by (nonlinear_arith)
                requires
                    power2::pow2(by as nat) > 0,
                    mantissa >= 0,
            ;
        }
        mantissa >> by
    } else {
        0
    };
    if negative {
        -(size as i64)
    } else {
        size as i64
    }
}

/// A number's whole part.
pub open spec fn whole_number(n: ScriptNumber) -> int {
    match n {
        ScriptNumber::Int(i) => i as int,
        ScriptNumber::Bits(bits) => whole(bits),
    }
}

/// The texts among the first properties of an array.
pub open spec fn texts(props: Seq<(Seq<char>, Script)>) -> Seq<Seq<char>>
    decreases props.len(),
{
    if props.len() == 0 {
        Seq::empty()
    } else {
        let before = texts(props.drop_last());
        match props.last().1.text() {
            Some(t) => before.push(t),
            None => before,
        }
    }
}

/// Texts with a separator between every two.
pub open spec fn separated(parts: Seq<Seq<char>>, by: Seq<char>) -> Seq<char>
    decreases parts.len(),
{
    if parts.len() == 0 {
        Seq::empty()
    } else if parts.len() == 1 {
        parts[0]
    } else {
        separated(parts.drop_last(), by) + by + parts.last()
    }
}

/// Joins texts with a separator between every two.
pub fn join_texts(parts: &Vec<String>, by: &str) -> (r: String)
    ensures
        r@ == separated(items::views(parts@), by@),
{
    let ghost all = items::views(parts@);
    let mut out = utils::copy_text("");
    let mut i: usize = 0;
    proof {
        reveal_strlit("");
        assert(all.take(0) =~= Seq::empty());
        assert(out@ =~= separated(all.take(0), by@));
    }
    while i < parts.len()
        invariant
            all == items::views(parts@),
            i <= parts@.len(),
            out@ == separated(all.take(i as int), by@),
        decreases parts@.len() - i,
    {
        proof {
            assert(all.take(i + 1).drop_last() =~= all.take(i as int));
            assert(all.take(i + 1).last() == parts@[i as int]@);
            if i == 0 {
                assert(out@ =~= Seq::empty());
            }
        }
        let ghost before = out@;
        if i > 0 {
            out.append(by);
        }
        out.append(parts[i].as_str());
        assert(out@ =~= separated(all.take(i + 1), by@));
        i += 1;
    }
    assert(all.take(i as int) =~= all);
    out
}

/// A member of the settings, where there are any.
pub open spec fn setting(settings: Option<Script>, key: Seq<char>) -> Option<Script> {
    match settings {
        Some(s) => s.get(key),
        None => None,
    }
}

/// The properties of an array.
pub open spec fn elements(value: Option<Script>) -> Option<Seq<(Seq<char>, Script)>> {
    match value {
        Some(Script::Array { props, .. }) => Some(props),
        _ => None,
    }
}

/// The first few of a sequence.
pub open spec fn at_most<A>(s: Seq<A>, n: int) -> Seq<A> {
    if s.len() > n {
        s.take(n)
    } else {
        s
    }
}

/// What a listing says of the size: only a random map has one to choose.
pub open spec fn listed_size(map_type: Seq<char>, settings: Option<Script>) -> Seq<char> {
    if map_type == "random"@ {
        match setting(settings, "Size"@) {
            Some(v) => match v.number() {
                Some(n) => utils::signed_decimal(whole_number(n)),
                None => "0"@,
            },
            None => "0"@,
        }
    } else {
        "Default"@
    }
}

pub open spec fn listed_victory(settings: Option<Script>) -> Seq<char> {
    match elements(setting(settings, "VictoryConditions"@)) {
        Some(props) => separated(texts(at_most(props, MAX_VICTORY_CONDITIONS as int)), ","@),
        None => Seq::empty(),
    }
}

pub open spec fn listed_players(settings: Option<Script>) -> u32 {
    match elements(setting(settings, "PlayerData"@)) {
        Some(props) => if props.len() < MIN_LISTED_PLAYERS {
            MIN_LISTED_PLAYERS
        } else if props.len() > MAX_LISTED_PLAYERS {
            MAX_LISTED_PLAYERS
        } else {
            props.len() as u32
        },
        None => 0,
    }
}

pub open spec fn listed_name(map_name: Seq<char>, settings: Option<Script>) -> Seq<char> {
    match setting(settings, "mapName"@) {
        Some(v) => match v.text() {
            Some(t) => t,
            None => map_name,
        },
        None => map_name,
    }
}

/// The text of a member.
pub open spec fn text_member(value: Script, key: Seq<char>) -> Option<Seq<char>> {
    match value.get(key) {
        Some(v) => v.text(),
        None => None,
    }
}

/// What settings say of the map. None means no map is selected yet.
pub open spec fn map_in(root: Script) -> Option<LobbyMapView> {
    match root.get("initAttribs"@) {
        None => None,
        Some(attribs) => match (text_member(attribs, "map"@), text_member(attribs, "mapType"@)) {
            (Some(map_name), Some(map_type)) if map_name.len() > 0 => {
                let settings = attribs.get("settings"@);
                Some(
                    LobbyMapView {
                        map_name,
                        nice_map_name: listed_name(map_name, settings),
                        map_type,
                        map_size: listed_size(map_type, settings),
                        victory_conditions: listed_victory(settings),
                        max_players: listed_players(settings),
                    },
                )
            },
            _ => None,
        },
    }
}

fn member<'a>(settings: Option<&'a ScriptValue>, key: &str) -> (r: Option<&'a ScriptValue>)
    ensures
        match r {
            Some(v) => setting(
                match settings {
                    Some(s) => Some(s@),
                    None => None,
                },
                key@,
            ) == Some(v@),
            None => setting(
                match settings {
                    Some(s) => Some(s@),
                    None => None,
                },
                key@,
            ) is None,
        },
{
    match settings {
        Some(s) => s.get(key),
        None => None,
    }
}

fn text_of_member<'a>(value: &'a ScriptValue, key: &str) -> (r: Option<&'a str>)
    ensures
        match r {
            Some(t) => text_member(value@, key@) == Some(t@),
            None => text_member(value@, key@) is None,
        },
{
    match value.get(key) {
        Some(v) => v.as_str(),
        None => None,
    }
}

fn first_texts(props: &Vec<(String, ScriptValue)>) -> (r: Vec<String>)
    ensures
        items::views(r@) == texts(
            at_most(script_value::script_props(props@), MAX_VICTORY_CONDITIONS as int),
        ),
{
    let ghost all = script_value::script_props(props@);
    proof {
        script_value::lemma_props_len(props@);
    }
    let n: usize = if props.len() > MAX_VICTORY_CONDITIONS {
        MAX_VICTORY_CONDITIONS
    } else {
        props.len()
    };
    let mut out: Vec<String> = Vec::new();
    let mut i: usize = 0;
    proof {
        assert(all.take(0) =~= Seq::empty());
        assert(items::views(out@) =~= Seq::empty());
    }
    while i < n
        invariant
            all == script_value::script_props(props@),
            all.len() == props@.len(),
            forall|j: int|
                0 <= j < all.len() ==> #[trigger] all[j] == (
                    props@[j].0@,
                    script_value::script(props@[j].1),
                ),
            i <= n <= props@.len(),
            items::views(out@) == texts(all.take(i as int)),
        decreases n - i,
    {
        let ghost so_far = items::views(out@);
        proof {
            assert(all.take(i + 1).drop_last() =~= all.take(i as int));
            assert(all.take(i + 1).last() == all[i as int]);
        }
        if let Some(t) = props[i].1.as_str() {
            let text = utils::copy_text(t);
            let ghost v = text@;
            out.push(text);
            assert(items::views(out@) =~= so_far.push(v));
        }
        i += 1;
    }
    assert(at_most(all, MAX_VICTORY_CONDITIONS as int) =~= all.take(n as int));
    out
}

impl LobbyMap {
    /// What the stock client itself would list for these settings. None means
    /// no map is selected yet, and then the game is not listed by its map.
    pub fn from_settings(root: &ScriptValue) -> (r: Option<LobbyMap>)
        ensures
            match r {
                Some(map) => map_in(root@) == Some(map@),
                None => map_in(root@) is None,
            },
    {
        let attribs = match root.get("initAttribs") {
            Some(a) => a,
            None => return None,
        };
        let map_name = match text_of_member(attribs, "map") {
            Some(t) => utils::copy_text(t),
            None => return None,
        };
        if utils::chars_of(map_name.as_str()).len() == 0 {
            return None;
        }
        let map_type = match text_of_member(attribs, "mapType") {
            Some(t) => utils::copy_text(t),
            None => return None,
        };
        let settings = attribs.get("settings");
        let nice_map_name = match member(settings, "mapName") {
            Some(v) => match v.as_str() {
                Some(t) => utils::copy_text(t),
                None => utils::copy_text(map_name.as_str()),
            },
            None => utils::copy_text(map_name.as_str()),
        };
        let map_size = if utils::same_text(map_type.as_str(), "random") {
            match member(settings, "Size") {
                Some(v) => match v.as_number() {
                    Some(ScriptNumber::Int(n)) => utils::signed_text(n as i64),
                    Some(ScriptNumber::Bits(bits)) => utils::signed_text(whole_part(bits)),
                    None => utils::copy_text("0"),
                },
                None => utils::copy_text("0"),
            }
        } else {
            utils::copy_text("Default")
        };
        let victory_conditions = match member(settings, "VictoryConditions") {
            Some(ScriptValue::Array { props, .. }) => join_texts(&first_texts(props), ","),
            _ => {
                proof {
                    reveal_strlit("");
                    assert(""@ =~= Seq::empty());
                }
                utils::copy_text("")
            },
        };
        let max_players: u32 = match member(settings, "PlayerData") {
            Some(ScriptValue::Array { props, .. }) => {
                proof {
                    script_value::lemma_props_len(props@);
                }
                if props.len() < MIN_LISTED_PLAYERS as usize {
                    MIN_LISTED_PLAYERS
                } else if props.len() > MAX_LISTED_PLAYERS as usize {
                    MAX_LISTED_PLAYERS
                } else {
                    props.len() as u32
                }
            },
            _ => 0,
        };
        Some(
            LobbyMap {
                map_name,
                nice_map_name,
                map_type,
                map_size,
                victory_conditions,
                max_players,
            },
        )
    }

    /// Whether both say the same.
    pub fn same(&self, other: &LobbyMap) -> (r: bool)
        ensures
            r == (self@ == other@),
    {
        utils::same_text(self.map_name.as_str(), other.map_name.as_str()) && utils::same_text(
            self.nice_map_name.as_str(),
            other.nice_map_name.as_str(),
        ) && utils::same_text(self.map_type.as_str(), other.map_type.as_str())
            && utils::same_text(self.map_size.as_str(), other.map_size.as_str())
            && utils::same_text(
            self.victory_conditions.as_str(),
            other.victory_conditions.as_str(),
        ) && self.max_players == other.max_players
    }
}

/// The result of a rated match, as the attributes the rating bot takes, sent
/// on behalf of the player the account belongs to.
#[derive(Debug)]
pub struct GameReport {
    pub attrs: Vec<(String, String)>,
}

/// What a game tells the lobby account.
#[derive(Debug)]
pub enum GameToLobby {
    Listing {
        host_username: String,
        nbp: u32,
        players: String,
        map: Option<LobbyMap>,
        mods: Vec<EnabledMod>,
    },
    Started { nbp: u32, players: String },
    /// The match has been decided. The game keeps running for whoever stays,
    /// but it is no longer one to list.
    Ended,
    /// Personal mode: the player the account belongs to has left, so the game
    /// is taken off the list until they are back. The account keeps answering
    /// for it, so players who know it can still come back.
    Unlisted,
}

/// What [`LobbyAuthToken`] is.
pub struct LobbyAuthTokenView {
    pub username: Seq<char>,
    pub token: Seq<char>,
}

impl View for LobbyAuthToken {
    type V = LobbyAuthTokenView;

    open spec fn view(&self) -> LobbyAuthTokenView {
        LobbyAuthTokenView { username: self.username@, token: self.token@ }
    }
}

/// What [`LobbyToGame`] is.
pub enum LobbyToGameView {
    Auth(LobbyAuthTokenView),
    JoinerExpected,
}

impl View for LobbyToGame {
    type V = LobbyToGameView;

    open spec fn view(&self) -> LobbyToGameView {
        match *self {
            LobbyToGame::Auth(token) => LobbyToGameView::Auth(token@),
            LobbyToGame::JoinerExpected => LobbyToGameView::JoinerExpected,
        }
    }
}

/// What [`GameToLobby`] is.
pub enum GameToLobbyView {
    Listing {
        host_username: Seq<char>,
        nbp: u32,
        players: Seq<char>,
        map: Option<LobbyMapView>,
        mods: Seq<EnabledModView>,
    },
    Started { nbp: u32, players: Seq<char> },
    Ended,
    Unlisted,
}

impl View for GameToLobby {
    type V = GameToLobbyView;

    open spec fn view(&self) -> GameToLobbyView {
        match *self {
            GameToLobby::Listing { host_username, nbp, players, map, mods } => {
                GameToLobbyView::Listing {
                    host_username: host_username@,
                    nbp,
                    players: players@,
                    map: utils::seen(map),
                    mods: items::views(mods@),
                }
            },
            GameToLobby::Started { nbp, players } => GameToLobbyView::Started {
                nbp,
                players: players@,
            },
            GameToLobby::Ended => GameToLobbyView::Ended,
            GameToLobby::Unlisted => GameToLobbyView::Unlisted,
        }
    }
}

} // verus!
