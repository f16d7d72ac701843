//! The queries a stock client sends the rating bot.

use tokio_xmpp::minidom::rxml::NcName;
use vstd::prelude::*;

use crate::lobby::gamelist;
use crate::lobby::gamelist::Query;
use crate::lobby::gamelist::QueryView;
use crate::lobby::link::GameReport;
use crate::utils;

verus! {

pub const NS_GAMEREPORT: &'static str = "jabber:iq:gamereport";

pub const NS_BOARDLIST: &'static str = "jabber:iq:boardlist";

/// Whether a text can name an attribute.
pub uninterp spec fn names_attribute(text: Seq<char>) -> bool;

/// `rxml::NcName::try_from`: whether a text is a name without a colon, as XML
/// has them, is decided by the text alone.
#[verifier::external_body]
fn is_name(text: &str) -> (r: bool)
    ensures
        r == names_attribute(text@),
{
    NcName::try_from(text).is_ok()
}

/// The leaderboard, which a client asks for once it has logged in.
pub fn get_leaderboard() -> (r: Query)
    ensures
        r@ == (QueryView {
            root: "query"@,
            ns: NS_BOARDLIST@,
            command: Some("getleaderboard"@),
            game: None,
        }),
{
    Query { root: "query", ns: NS_BOARDLIST, command: Some("getleaderboard"), game: None }
}

/// Attributes whose names are names.
pub open spec fn named(attrs: gamelist::Pairs) -> gamelist::Pairs {
    attrs.filter(|p: (Seq<char>, Seq<char>)| names_attribute(p.0))
}

pub open spec fn report_query(attrs: gamelist::Pairs) -> QueryView {
    QueryView { root: "report"@, ns: NS_GAMEREPORT@, command: None, game: Some(named(attrs)) }
}

/// A rated match's report. Unit and structure class names come from the game's
/// data, so one that is no valid attribute name is dropped rather than trusted.
pub fn report(game_report: &GameReport) -> (r: Query)
    ensures
        r@ == report_query(gamelist::pairs(game_report.attrs@)),
{
    let ghost all = gamelist::pairs(game_report.attrs@);
    let ghost keep = |p: (Seq<char>, Seq<char>)| names_attribute(p.0);
    let mut game: Vec<(String, String)> = Vec::new();
    let mut i: usize = 0;
    proof {
        utils::lemma_filter_ends(all, keep);
        assert(gamelist::pairs(game@) =~= Seq::empty());
    }
    while i < game_report.attrs.len()
        invariant
            all == gamelist::pairs(game_report.attrs@),
            keep == (|p: (Seq<char>, Seq<char>)| names_attribute(p.0)),
            i <= game_report.attrs@.len(),
            gamelist::pairs(game@) == all.take(i as int).filter(keep),
        decreases game_report.attrs@.len() - i,
    {
        proof {
            utils::lemma_filter_step(all, i as int, keep);
            assert(all[i as int] == (game_report.attrs@[i as int].0@, game_report.attrs@[i as int].1@));
        }
        if is_name(game_report.attrs[i].0.as_str()) {
            let value = utils::copy_text(game_report.attrs[i].1.as_str());
            gamelist::set_attr(&mut game, game_report.attrs[i].0.as_str(), value);
        }
        i += 1;
    }
    assert(all.take(i as int) =~= all);
    Query { root: "report", ns: NS_GAMEREPORT, command: None, game: Some(game) }
}

} // verus!
