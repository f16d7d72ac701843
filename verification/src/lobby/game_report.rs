//! The report of a rated match. The engine builds it and prints it next to a
//! replay's result; what is decided here is whether it is sent, and for whom.
//! The checks follow what the rating bot accepts.

use vstd::prelude::*;

use crate::json;
use crate::json::Node;
use crate::json::NodeView;
use crate::lobby::gamelist;
use crate::lobby::gamelist::Pairs;
use crate::lobby::link::GameReport;
use crate::table;
use crate::utils;

verus! {

/// The rating bot rates matches of two players only.
pub const RATED_PLAYERS: usize = 2;

/// A player state the rating bot refuses a whole report over.
pub const UNFINISHED: &'static str = "active";

/// Whether settings ask for a rated match: rating switched on, and a match the
/// bot would rate. The settings list the players without gaia.
pub open spec fn asks_rating(attribs: serde_json::Value) -> bool {
    match json::member(attribs, "settings"@) {
        None => false,
        Some(settings) => {
            &&& json::member(settings, "RatingEnabled"@) matches Some(v) && json::flag(v)
                == Some(true)
            &&& json::member(settings, "PlayerData"@) matches Some(v) && json::list(v) matches Some(
                players,
            ) && players.len() == RATED_PLAYERS
        },
    }
}

/// Whether a start asks for a rated match.
pub open spec fn rated(init_attributes: Seq<u8>) -> bool {
    match json::json_read(init_attributes) {
        Some(attribs) => asks_rating(attribs),
        None => false,
    }
}

/// Whether settings ask for a rated match.
pub fn settings_ask_rating(attribs: &serde_json::Value) -> (r: bool)
    ensures
        r == asks_rating(*attribs),
{
    let settings = match json::get_member(attribs, "settings") {
        Some(settings) => settings,
        None => return false,
    };
    let rating = match json::get_member(&settings, "RatingEnabled") {
        Some(v) => match json::get_flag(&v) {
            Some(on) => on,
            None => false,
        },
        None => false,
    };
    let players: usize = match json::get_member(&settings, "PlayerData") {
        Some(v) => match json::get_list(&v) {
            Some(players) => players.len(),
            None => 0,
        },
        None => 0,
    };
    rating && players == RATED_PLAYERS
}

/// Whether a start asks for a rated match.
pub fn is_rated(init_attributes: &[u8]) -> (r: bool)
    ensures
        r == rated(init_attributes@),
{
    match json::read_json(init_attributes) {
        Some(attribs) => settings_ask_rating(&attribs),
        None => false,
    }
}

/// Members that are all texts, as attributes.
pub open spec fn all_texts(members: Seq<(Seq<char>, serde_json::Value)>) -> Option<Pairs>
    decreases members.len(),
{
    if members.len() == 0 {
        Some(Seq::empty())
    } else {
        match (all_texts(members.drop_last()), json::text(members.last().1)) {
            (Some(before), Some(t)) => Some(before.push((members.last().0, t))),
            _ => None,
        }
    }
}

/// Whether one of the parts between commas is this word.
pub open spec fn has_part(list: Seq<char>, word: Seq<char>) -> bool {
    exists|from: int, to: int| is_part(list, from, to) && list.subrange(from, to) == word
}

/// Whether the text between two places is a part: no comma is in it, and
/// commas or the ends are around it.
pub open spec fn is_part(list: Seq<char>, from: int, to: int) -> bool {
    &&& 0 <= from <= to <= list.len()
    &&& from == 0 || list[from - 1] == ','
    &&& to == list.len() || list[to] == ','
    &&& forall|i: int| from <= i < to ==> #[trigger] list[i] != ','
}

/// The report for a player. None when the bot would refuse it: it drops one in
/// which anyone is still unfinished, which is what an operator's stop leaves.
pub open spec fn report_of(
    members: Seq<(Seq<char>, serde_json::Value)>,
    player_id: i32,
) -> Option<Pairs> {
    match (all_texts(members), table::lookup(members, "playerStates"@)) {
        (Some(attrs), Some(states)) => match json::text(states) {
            Some(s) if !has_part(s, UNFINISHED@) => Some(
                seq![("playerID"@, utils::signed_decimal(player_id as int))] + attrs,
            ),
            _ => None,
        },
        _ => None,
    }
}

/// The report for a player, of what the engine printed.
pub open spec fn report_in(text: Seq<u8>, player_id: i32) -> Option<Pairs> {
    match json::json_read(text) {
        None => None,
        Some(value) => match json::node_of(value) {
            NodeView::Object(members) => report_of(members, player_id),
            _ => None,
        },
    }
}

fn part_ends(chars: &Vec<char>, word: &Vec<char>, from: usize, to: usize) -> (r: bool)
    requires
        from <= to <= chars@.len(),
    ensures
        r == (chars@.subrange(from as int, to as int) == word@),
{
    if to - from != word.len() {
        assert(chars@.subrange(from as int, to as int).len() != word@.len());
        return false;
    }
    let mut i: usize = 0;
    while i < word.len()
        invariant
            from <= to <= chars@.len(),
            to - from == word@.len(),
            i <= word@.len(),
            forall|j: int| 0 <= j < i ==> chars@[from + j] == word@[j],
        decreases word@.len() - i,
    {
        if chars[from + i] != word[i] {
            assert(chars@.subrange(from as int, to as int)[i as int] != word@[i as int]);
            return false;
        }
        i += 1;
    }
    assert(chars@.subrange(from as int, to as int) =~= word@);
    true
}

/// Whether one of the parts between commas is this word.
pub fn any_part(list: &str, word: &str) -> (r: bool)
    ensures
        r == has_part(list@, word@),
{
    let chars = utils::chars_of(list);
    let wanted = utils::chars_of(word);
    let mut from: usize = 0;
    let mut to: usize = 0;
    loop
        invariant
            chars@ == list@,
            wanted@ == word@,
            from <= to <= chars@.len(),
            from == 0 || chars@[from - 1] == ',',
            forall|i: int| from <= i < to ==> #[trigger] chars@[i] != ',',
            forall|f: int, t: int|
                is_part(list@, f, t) && f < from ==> #[trigger] list@.subrange(f, t) != word@,
        decreases chars@.len() - to,
    {
        if to == chars.len() || chars[to] == ',' {
            assert(is_part(list@, from as int, to as int));
            if part_ends(&chars, &wanted, from, to) {
                return true;
            }
            proof {
                assert forall|f: int, t: int| is_part(list@, f, t) && f <= to implies #[trigger]
                    list@.subrange(f, t) != word@ by {
                    if f == from {
                        if t < to {
                            assert(list@[t] != ',');
                        } else if t > to {
                            assert(list@[to as int] == ',');
                        }
                        assert(t == to);
                    } else if f > from {
                        assert(list@[f - 1] == ',');
                        assert(chars@[f - 1] != ',');
                    }
                }
            }
            if to == chars.len() {
                proof {
                    assert forall|f: int, t: int| is_part(list@, f, t) implies #[trigger]
                        list@.subrange(f, t) != word@ by {
                        assert(f <= to);
                    }
                }
                return false;
            }
            to = to + 1;
            from = to;
        } else {
            to = to + 1;
        }
    }
}

fn text_attrs(members: &Vec<(String, serde_json::Value)>, attrs: &mut Vec<(String, String)>) -> (r:
    bool)
    ensures
        match all_texts(json::members_view(members@)) {
            Some(found) => r && gamelist::pairs(final(attrs)@) == gamelist::pairs(old(attrs)@)
                + found,
            None => !r,
        },
{
    let ghost all = json::members_view(members@);
    let ghost before = gamelist::pairs(attrs@);
    let mut i: usize = 0;
    proof {
        assert(all.take(0) =~= Seq::empty());
        assert(before + Seq::<(Seq<char>, Seq<char>)>::empty() =~= before);
    }
    while i < members.len()
        invariant
            all == json::members_view(members@),
            i <= members@.len(),
            all_texts(all.take(i as int)) matches Some(found) && gamelist::pairs(attrs@) == before
                + found,
        decreases members@.len() - i,
    {
        proof {
            assert(all.take(i + 1).drop_last() =~= all.take(i as int));
            assert(all.take(i + 1).last() == (members@[i as int].0@, members@[i as int].1));
        }
        let ghost found = all_texts(all.take(i as int))->0;
        match json::get_text(&members[i].1) {
            Some(text) => {
                let ghost pair = (members@[i as int].0@, text@);
                gamelist::set_attr(attrs, members[i].0.as_str(), text);
                assert((before + found).push(pair) =~= before + found.push(pair));
            },
            None => {
                proof {
                    lemma_not_texts(all, i as int + 1);
                }
                return false;
            },
        }
        i += 1;
    }
    assert(all.take(i as int) =~= all);
    true
}

proof fn lemma_not_texts(members: Seq<(Seq<char>, serde_json::Value)>, n: int)
    requires
        0 <= n <= members.len(),
        all_texts(members.take(n)) is None,
    ensures
        all_texts(members) is None,
    decreases members.len() - n,
{
    if n == members.len() {
        assert(members.take(n) =~= members);
    } else {
        assert(members.take(n + 1).drop_last() =~= members.take(n));
        lemma_not_texts(members, n + 1);
    }
}

proof fn lemma_all_texts(members: Seq<(Seq<char>, serde_json::Value)>, i: int)
    requires
        all_texts(members) is Some,
        0 <= i < members.len(),
    ensures
        all_texts(members)->0.len() == members.len(),
        json::text(members[i].1) matches Some(t) && all_texts(members)->0[i] == (members[i].0, t),
    decreases members.len(),
{
    let rest = members.drop_last();
    if i < rest.len() {
        lemma_all_texts(rest, i);
        assert(rest[i] == members[i]);
    } else if rest.len() > 0 {
        lemma_all_texts(rest, 0);
    }
}

/// A report that is sent says whose it is and holds everything the engine put
/// in it, in order; and nobody in it is still unfinished.
pub proof fn reports_are_whole(
    members: Seq<(Seq<char>, serde_json::Value)>,
    player_id: i32,
    i: int,
)
    requires
        report_of(members, player_id) is Some,
        0 <= i < members.len(),
    ensures
        ({
            let r = report_of(members, player_id)->0;
            &&& r.len() == members.len() + 1
            &&& r[0] == ("playerID"@, utils::signed_decimal(player_id as int))
            &&& json::text(members[i].1) matches Some(t) && r[i + 1] == (members[i].0, t)
            &&& forall|from: int, to: int|
                #![trigger is_part((json::text(
                    table::lookup(members, "playerStates"@)->0,
                )->0), from, to)]
                is_part(
                    (json::text(table::lookup(members, "playerStates"@)->0)->0),
                    from,
                    to,
                ) ==> (json::text(
                    table::lookup(members, "playerStates"@)->0,
                )->0).subrange(from, to) != "active"@
        }),
{
    lemma_all_texts(members, i);
}

/// The report for a player, of what the engine's report holds.
pub fn report_from(members: &Vec<(String, serde_json::Value)>, player_id: i32) -> (r: Option<
    GameReport,
>)
    ensures
        match r {
            Some(report) => report_of(json::members_view(members@), player_id) == Some(
                gamelist::pairs(report.attrs@),
            ),
            None => report_of(json::members_view(members@), player_id) is None,
        },
{
    let mut attrs: Vec<(String, String)> = Vec::new();
    assert(gamelist::pairs(attrs@) =~= Seq::empty());
    gamelist::set_attr(&mut attrs, "playerID", utils::signed_text(player_id as i64));
    assert(gamelist::pairs(attrs@) =~= seq![
        ("playerID"@, utils::signed_decimal(player_id as int)),
    ]);
    if !text_attrs(members, &mut attrs) {
        return None;
    }
    let states = match json::find_member(members, "playerStates") {
        Some(states) => states,
        None => return None,
    };
    match json::get_text(&states) {
        Some(text) => if any_part(text.as_str(), UNFINISHED) {
            None
        } else {
            Some(GameReport { attrs })
        },
        None => None,
    }
}

/// The report for a player, of what the engine printed: one object of texts.
pub fn for_player(report_json: &str, player_id: i32) -> (r: Option<GameReport>)
    ensures
        match r {
            Some(report) => report_in(vstd::utf8::encode_utf8(report_json@), player_id) == Some(
                gamelist::pairs(report.attrs@),
            ),
            None => report_in(vstd::utf8::encode_utf8(report_json@), player_id) is None,
        },
{
    let value = match json::read_json(report_json.as_bytes()) {
        Some(value) => value,
        None => return None,
    };
    match json::node(&value) {
        Node::Object(members) => report_from(&members, player_id),
        _ => None,
    }
}

} // verus!
