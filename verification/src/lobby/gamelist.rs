//! The queries a host sends the game bot.

use vstd::prelude::*;

use crate::json;
use crate::json::Node;
use crate::json::NodeView;
use crate::lobby::link::LobbyMap;
use crate::lobby::link::LobbyMapView;
use crate::relay::messages::items;
use crate::relay::messages::EnabledMod;
use crate::relay::messages::EnabledModView;
use crate::sidecar;
use crate::utils;

verus! {

pub const NS_GAMELIST: &'static str = "jabber:iq:gamelist";

// A hosted game is listed as soon as an account is assigned, before the
// controller has sent any settings, so there is a moment with nothing real to
// advertise. These fill that moment; the first settings replace them.
pub const FIXED_MAP_NAME: &'static str = "maps/skirmishes/alpine_valleys_2p";

pub const FIXED_NICE_MAP_NAME: &'static str = "Alpine Valleys (2)";

pub const FIXED_MAP_SIZE: &'static str = "0";

pub const FIXED_MAP_TYPE: &'static str = "skirmish";

pub const FIXED_VICTORY_CONDITIONS: &'static str = "conquest";

pub const FIXED_MAX_PLAYERS: &'static str = "2";

/// Names with what they are set to.
pub type Pairs = Seq<(Seq<char>, Seq<char>)>;

/// What pairs of texts are.
pub open spec fn pairs(s: Seq<(String, String)>) -> Pairs {
    s.map_values(|p: (String, String)| (p.0@, p.1@))
}

/// A query to a bot: an element with, in it, perhaps a command and perhaps a
/// game with its attributes, all in one name space.
#[derive(Debug)]
pub struct Query {
    pub root: &'static str,
    pub ns: &'static str,
    pub command: Option<&'static str>,
    pub game: Option<Vec<(String, String)>>,
}

/// What [`Query`] is.
pub struct QueryView {
    pub root: Seq<char>,
    pub ns: Seq<char>,
    pub command: Option<Seq<char>>,
    pub game: Option<Pairs>,
}

impl View for Query {
    type V = QueryView;

    open spec fn view(&self) -> QueryView {
        QueryView {
            root: self.root@,
            ns: self.ns@,
            command: match self.command {
                Some(c) => Some(c@),
                None => None,
            },
            game: match self.game {
                Some(g) => Some(pairs(g@)),
                None => None,
            },
        }
    }
}

pub open spec fn gamelist_query(command: Seq<char>, game: Pairs) -> QueryView {
    QueryView { root: "query"@, ns: NS_GAMELIST@, command: Some(command), game: Some(game) }
}

/// The game is listed anew.
pub fn register(attrs: Vec<(String, String)>) -> (r: Query)
    ensures
        r@ == gamelist_query("register"@, pairs(attrs@)),
{
    Query { root: "query", ns: NS_GAMELIST, command: Some("register"), game: Some(attrs) }
}

/// What a started match is listed with.
pub open spec fn state_pairs(nbp: u32, players: Seq<char>) -> Pairs {
    seq![("nbp"@, utils::decimal(nbp as nat)), ("players"@, players)]
}

/// The match has started.
pub fn changestate(nbp: u32, players: &str) -> (r: Query)
    ensures
        r@ == gamelist_query("changestate"@, state_pairs(nbp, players@)),
{
    let mut attrs: Vec<(String, String)> = Vec::new();
    set_attr(&mut attrs, "nbp", utils::decimal_text(nbp as u64));
    set_attr(&mut attrs, "players", utils::copy_text(players));
    assert(pairs(attrs@) =~= state_pairs(nbp, players@));
    Query { root: "query", ns: NS_GAMELIST, command: Some("changestate"), game: Some(attrs) }
}

/// The game is taken off the list.
pub fn unregister() -> (r: Query)
    ensures
        r@ == gamelist_query("unregister"@, Seq::empty()),
{
    let attrs: Vec<(String, String)> = Vec::new();
    assert(pairs(attrs@) =~= Seq::empty());
    Query { root: "query", ns: NS_GAMELIST, command: Some("unregister"), game: Some(attrs) }
}

pub fn set_attr(attrs: &mut Vec<(String, String)>, name: &str, value: String)
    ensures
        pairs(final(attrs)@) == pairs(old(attrs)@).push((name@, value@)),
{
    let ghost before = pairs(attrs@);
    attrs.push((utils::copy_text(name), value));
    assert(pairs(attrs@) =~= before.push((name@, value@)));
}

pub fn copy_pairs(attrs: &Vec<(String, String)>) -> (r: Vec<(String, String)>)
    ensures
        pairs(r@) == pairs(attrs@),
{
    let mut out: Vec<(String, String)> = Vec::new();
    let mut i: usize = 0;
    assert(pairs(out@) =~= pairs(attrs@).take(0));
    while i < attrs.len()
        invariant
            i <= attrs@.len(),
            pairs(out@) == pairs(attrs@).take(i as int),
        decreases attrs@.len() - i,
    {
        let value = utils::copy_text(attrs[i].1.as_str());
        set_attr(&mut out, attrs[i].0.as_str(), value);
        proof {
            assert(pairs(attrs@)[i as int] == (attrs@[i as int].0@, attrs@[i as int].1@));
            assert(pairs(attrs@).take(i + 1) =~= pairs(attrs@).take(i as int).push(
                pairs(attrs@)[i as int],
            ));
        }
        i += 1;
    }
    assert(pairs(attrs@).take(i as int) =~= pairs(attrs@));
    out
}

/// Whether two lists of attributes are the same.
pub fn same_pairs(a: &Vec<(String, String)>, b: &Vec<(String, String)>) -> (r: bool)
    ensures
        r == (pairs(a@) == pairs(b@)),
{
    if a.len() != b.len() {
        assert(pairs(a@).len() != pairs(b@).len());
        return false;
    }
    let mut i: usize = 0;
    while i < a.len()
        invariant
            a@.len() == b@.len(),
            i <= a@.len(),
            forall|j: int| 0 <= j < i ==> #[trigger] pairs(a@)[j] == pairs(b@)[j],
        decreases a@.len() - i,
    {
        proof {
            assert(pairs(a@)[i as int] == (a@[i as int].0@, a@[i as int].1@));
            assert(pairs(b@)[i as int] == (b@[i as int].0@, b@[i as int].1@));
        }
        if !utils::same_text(a[i].0.as_str(), b[i].0.as_str()) || !utils::same_text(
            a[i].1.as_str(),
            b[i].1.as_str(),
        ) {
            return false;
        }
        i += 1;
    }
    assert(pairs(a@) =~= pairs(b@));
    true
}

/// One mod as the list carries it. It names the directory where that can be
/// told from the name.
pub open spec fn mod_value(m: EnabledModView) -> serde_json::Value {
    let rest = seq![
        ("name"@, json::value_with(NodeView::Text(m.name))),
        ("version"@, json::value_with(NodeView::Text(m.version))),
        ("ignoreInCompatibilityChecks"@, json::value_with(NodeView::Bool(false))),
    ];
    json::value_with(
        NodeView::Object(
            match sidecar::pathname(m.name) {
                Some(path) => seq![("mod"@, json::value_with(NodeView::Text(path)))] + rest,
                None => rest,
            },
        ),
    )
}

/// The mods as the stock lobby client expects them: the list admission holds
/// every client to, so this is what everyone in the game runs.
pub open spec fn mods_text(mods: Seq<EnabledModView>) -> Seq<char> {
    json::json_shown(
        json::value_with(NodeView::List(mods.map_values(|m: EnabledModView| mod_value(m)))),
    )
}

fn add_member(members: &mut Vec<(String, serde_json::Value)>, name: &str, value: serde_json::Value)
    ensures
        json::members_view(final(members)@) == json::members_view(old(members)@).push(
            (name@, value),
        ),
{
    let ghost before = json::members_view(members@);
    members.push((utils::copy_text(name), value));
    assert(json::members_view(members@) =~= before.push((name@, value)));
}

fn mod_json(m: &EnabledMod) -> (r: serde_json::Value)
    ensures
        r == mod_value(m@),
{
    let mut members: Vec<(String, serde_json::Value)> = Vec::new();
    assert(json::members_view(members@) =~= Seq::empty());
    if let Some(path) = sidecar::mod_pathname(m.name.as_str()) {
        add_member(&mut members, "mod", json::value(Node::Text(utils::copy_text(path))));
    }
    add_member(&mut members, "name", json::value(Node::Text(utils::copy_text(m.name.as_str()))));
    add_member(
        &mut members,
        "version",
        json::value(Node::Text(utils::copy_text(m.version.as_str()))),
    );
    add_member(&mut members, "ignoreInCompatibilityChecks", json::value(Node::Bool(false)));
    proof {
        let rest = seq![
            ("name"@, json::value_with(NodeView::Text(m@.name))),
            ("version"@, json::value_with(NodeView::Text(m@.version))),
            ("ignoreInCompatibilityChecks"@, json::value_with(NodeView::Bool(false))),
        ];
        match sidecar::pathname(m@.name) {
            Some(path) => {
                assert(json::members_view(members@) =~= seq![
                    ("mod"@, json::value_with(NodeView::Text(path))),
                ] + rest);
            },
            None => {
                assert(json::members_view(members@) =~= rest);
            },
        }
    }
    json::value(Node::Object(members))
}

fn mods_json(mods: &Vec<EnabledMod>) -> (r: String)
    ensures
        r@ == mods_text(items::views(mods@)),
{
    let ghost all = items::views(mods@);
    let ghost each = |m: EnabledModView| mod_value(m);
    let mut out: Vec<serde_json::Value> = Vec::new();
    let mut i: usize = 0;
    assert(out@ =~= all.take(0).map_values(each));
    while i < mods.len()
        invariant
            all == items::views(mods@),
            each == (|m: EnabledModView| mod_value(m)),
            i <= mods@.len(),
            out@ == all.take(i as int).map_values(each),
        decreases mods@.len() - i,
    {
        let ghost before = out@;
        out.push(mod_json(&mods[i]));
        proof {
            assert(all[i as int] == mods@[i as int]@);
            assert(out@ =~= all.take(i + 1).map_values(each));
        }
        i += 1;
    }
    assert(all.take(i as int) =~= all);
    json::show_json(&json::value(Node::List(out)))
}

/// What a game is listed with.
#[derive(Debug)]
pub struct RegisterAttrs<'a> {
    pub server_name: &'a str,
    pub mods: &'a Vec<EnabledMod>,
    pub host_username: &'a str,
    /// Joining clients salt the game password with this exact full JID, and
    /// the game bot stores it as it is rather than filling it in.
    pub host_jid: &'a str,
    pub nbp: u32,
    pub players: &'a str,
    pub has_password: bool,
    pub map: Option<&'a LobbyMap>,
}

/// What [`RegisterAttrs`] is.
pub struct RegisterView {
    pub server_name: Seq<char>,
    pub mods: Seq<EnabledModView>,
    pub host_username: Seq<char>,
    pub host_jid: Seq<char>,
    pub nbp: u32,
    pub players: Seq<char>,
    pub has_password: bool,
    pub map: Option<LobbyMapView>,
}

impl<'a> View for RegisterAttrs<'a> {
    type V = RegisterView;

    open spec fn view(&self) -> RegisterView {
        RegisterView {
            server_name: self.server_name@,
            mods: items::views(self.mods@),
            host_username: self.host_username@,
            host_jid: self.host_jid@,
            nbp: self.nbp,
            players: self.players@,
            has_password: self.has_password,
            map: match self.map {
                Some(m) => Some(m@),
                None => None,
            },
        }
    }
}

/// What the map is listed as.
pub open spec fn map_pairs(map: Option<LobbyMapView>) -> Pairs {
    match map {
        Some(m) => seq![
            ("mapName"@, m.map_name),
            ("niceMapName"@, m.nice_map_name),
            ("mapSize"@, m.map_size),
            ("mapType"@, m.map_type),
            ("victoryConditions"@, m.victory_conditions),
            ("maxnbp"@, utils::decimal(m.max_players as nat)),
        ],
        None => seq![
            ("mapName"@, FIXED_MAP_NAME@),
            ("niceMapName"@, FIXED_NICE_MAP_NAME@),
            ("mapSize"@, FIXED_MAP_SIZE@),
            ("mapType"@, FIXED_MAP_TYPE@),
            ("victoryConditions"@, FIXED_VICTORY_CONDITIONS@),
            ("maxnbp"@, FIXED_MAX_PLAYERS@),
        ],
    }
}

pub open spec fn game_pairs(a: RegisterView) -> Pairs {
    seq![
        ("name"@, a.server_name),
        ("hostUsername"@, a.host_username),
        ("hostJID"@, a.host_jid),
        ("nbp"@, utils::decimal(a.nbp as nat)),
        ("players"@, a.players),
        (
            "hasPassword"@,
            if a.has_password {
                "true"@
            } else {
                ""@
            },
        ),
        ("mods"@, mods_text(a.mods)),
    ]
}

/// What a game is listed as.
pub open spec fn listed_as(a: RegisterView) -> Pairs {
    game_pairs(a) + map_pairs(a.map)
}

/// A listing says what is played: every attribute carries what it is named
/// after, and the map's are those of the map that is selected, if one is.
pub proof fn listings_say_what_is_played(a: RegisterView)
    ensures
        ({
            let all = listed_as(a);
            &&& all.contains(("name"@, a.server_name))
            &&& all.contains(("hostUsername"@, a.host_username))
            &&& all.contains(("hostJID"@, a.host_jid))
            &&& all.contains(("nbp"@, utils::decimal(a.nbp as nat)))
            &&& all.contains(("players"@, a.players))
            &&& a.has_password ==> all.contains(("hasPassword"@, "true"@))
            &&& !a.has_password ==> all.contains(("hasPassword"@, ""@))
            &&& all.contains(("mods"@, mods_text(a.mods)))
            &&& a.map matches Some(m) ==> {
                &&& all.contains(("mapName"@, m.map_name))
                &&& all.contains(("niceMapName"@, m.nice_map_name))
                &&& all.contains(("mapSize"@, m.map_size))
                &&& all.contains(("mapType"@, m.map_type))
                &&& all.contains(("victoryConditions"@, m.victory_conditions))
                &&& all.contains(("maxnbp"@, utils::decimal(m.max_players as nat)))
            }
        }),
{
    let all = listed_as(a);
    let own = game_pairs(a);
    let map = map_pairs(a.map);
    assert forall|i: int| 0 <= i < own.len() implies all.contains(#[trigger] own[i]) by {
        assert(all[i] == own[i]);
    }
    assert forall|i: int| 0 <= i < map.len() implies all.contains(#[trigger] map[i]) by {
        assert(all[own.len() + i] == map[i]);
    }
    assert(own[0] == ("name"@, a.server_name));
    assert(own[1] == ("hostUsername"@, a.host_username));
    assert(own[2] == ("hostJID"@, a.host_jid));
    assert(own[3] == ("nbp"@, utils::decimal(a.nbp as nat)));
    assert(own[4] == ("players"@, a.players));
    assert(own[5].0 == "hasPassword"@);
    assert(own[6] == ("mods"@, mods_text(a.mods)));
    if let Some(m) = a.map {
        assert(map[0] == ("mapName"@, m.map_name));
        assert(map[1] == ("niceMapName"@, m.nice_map_name));
        assert(map[2] == ("mapSize"@, m.map_size));
        assert(map[3] == ("mapType"@, m.map_type));
        assert(map[4] == ("victoryConditions"@, m.victory_conditions));
        assert(map[5] == ("maxnbp"@, utils::decimal(m.max_players as nat)));
    }
}

/// Every attribute is listed once.
pub proof fn listed_once(a: RegisterView)
    ensures
        crate::table::distinct(listed_as(a)),
{
    reveal_strlit("name");
    reveal_strlit("hostUsername");
    reveal_strlit("hostJID");
    reveal_strlit("nbp");
    reveal_strlit("players");
    reveal_strlit("hasPassword");
    reveal_strlit("mods");
    reveal_strlit("mapName");
    reveal_strlit("niceMapName");
    reveal_strlit("mapSize");
    reveal_strlit("mapType");
    reveal_strlit("victoryConditions");
    reveal_strlit("maxnbp");
    let all = listed_as(a);
    assert(all.len() == 13);
    // Names of one length differ in their first letters.
    assert(all[0].0.len() == 4 && all[0].0[0] == 'n');
    assert(all[1].0.len() == 12);
    assert(all[2].0.len() == 7 && all[2].0[0] == 'h');
    assert(all[3].0.len() == 3);
    assert(all[4].0.len() == 7 && all[4].0[0] == 'p');
    assert(all[5].0.len() == 11 && all[5].0[0] == 'h');
    assert(all[6].0.len() == 4 && all[6].0[0] == 'm');
    assert(all[7].0.len() == 7 && all[7].0[0] == 'm' && all[7].0[3] == 'N');
    assert(all[8].0.len() == 11 && all[8].0[0] == 'n');
    assert(all[9].0.len() == 7 && all[9].0[0] == 'm' && all[9].0[3] == 'S');
    assert(all[10].0.len() == 7 && all[10].0[0] == 'm' && all[10].0[3] == 'T');
    assert(all[11].0.len() == 17);
    assert(all[12].0.len() == 6);
}

fn map_attrs(out: &mut Vec<(String, String)>, map: Option<&LobbyMap>)
    ensures
        pairs(final(out)@) == pairs(old(out)@) + map_pairs(
            match map {
                Some(m) => Some(m@),
                None => None,
            },
        ),
{
    let ghost before = pairs(out@);
    match map {
        Some(m) => {
            set_attr(out, "mapName", utils::copy_text(m.map_name.as_str()));
            set_attr(out, "niceMapName", utils::copy_text(m.nice_map_name.as_str()));
            set_attr(out, "mapSize", utils::copy_text(m.map_size.as_str()));
            set_attr(out, "mapType", utils::copy_text(m.map_type.as_str()));
            set_attr(out, "victoryConditions", utils::copy_text(m.victory_conditions.as_str()));
            set_attr(out, "maxnbp", utils::decimal_text(m.max_players as u64));
            assert(pairs(out@) =~= before + map_pairs(Some(m@)));
        },
        None => {
            set_attr(out, "mapName", utils::copy_text(FIXED_MAP_NAME));
            set_attr(out, "niceMapName", utils::copy_text(FIXED_NICE_MAP_NAME));
            set_attr(out, "mapSize", utils::copy_text(FIXED_MAP_SIZE));
            set_attr(out, "mapType", utils::copy_text(FIXED_MAP_TYPE));
            set_attr(out, "victoryConditions", utils::copy_text(FIXED_VICTORY_CONDITIONS));
            set_attr(out, "maxnbp", utils::copy_text(FIXED_MAX_PLAYERS));
            assert(pairs(out@) =~= before + map_pairs(None));
        },
    }
}

pub fn register_attrs(attrs: RegisterAttrs<'_>) -> (r: Vec<(String, String)>)
    ensures
        pairs(r@) == listed_as(attrs@),
{
    let mut out: Vec<(String, String)> = Vec::new();
    assert(pairs(out@) =~= Seq::empty());
    set_attr(&mut out, "name", utils::copy_text(attrs.server_name));
    set_attr(&mut out, "hostUsername", utils::copy_text(attrs.host_username));
    set_attr(&mut out, "hostJID", utils::copy_text(attrs.host_jid));
    set_attr(&mut out, "nbp", utils::decimal_text(attrs.nbp as u64));
    set_attr(&mut out, "players", utils::copy_text(attrs.players));
    set_attr(
        &mut out,
        "hasPassword",
        utils::copy_text(
            if attrs.has_password {
                "true"
            } else {
                ""
            },
        ),
    );
    set_attr(&mut out, "mods", mods_json(attrs.mods));
    assert(pairs(out@) =~= game_pairs(attrs@));
    map_attrs(&mut out, attrs.map);
    out
}

} // verus!
