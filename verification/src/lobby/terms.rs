//! The lobby's terms. Personal mode logs in to the lobby as a player, and the
//! stock client has a player accept them first; the server asks the same once,
//! at startup.

use vstd::prelude::*;

use crate::lobby::link;
use crate::utils;

verus! {

/// The copies the game ships and shows at its lobby login, as plain text.
pub const TERMS_BASE_URL: &'static str =
    "https://gitea.wildfiregames.com/0ad/0ad/raw/tag/v0.28.0/binaries/data/mods/public/gui/prelobby/common/terms/";

pub const ACCEPTANCE_KEY: &'static str =
    "i_accept_terms_of_service_and_terms_of_use_and_privacy_policy";

pub const ACCEPT_ANSWER: &'static str = "YES";

pub const TERMS_OF_SERVICE: &'static str = "Terms_of_Service.txt";

pub const TERMS_OF_USE: &'static str = "Terms_of_Use.txt";

pub const PRIVACY_POLICY: &'static str = "Privacy_Policy.txt";

/// Where the documents are.
pub open spec fn addresses() -> Seq<Seq<char>> {
    seq![
        TERMS_BASE_URL@ + TERMS_OF_SERVICE@,
        TERMS_BASE_URL@ + TERMS_OF_USE@,
        TERMS_BASE_URL@ + PRIVACY_POLICY@,
    ]
}

fn address_of(file: &str) -> (r: String)
    ensures
        r@ == TERMS_BASE_URL@ + file@,
{
    let mut out = utils::copy_text(TERMS_BASE_URL);
    out.append(file);
    out
}

pub fn urls() -> (r: Vec<String>)
    ensures
        crate::relay::messages::items::views(r@) == addresses(),
{
    let mut out: Vec<String> = Vec::new();
    out.push(address_of(TERMS_OF_SERVICE));
    out.push(address_of(TERMS_OF_USE));
    out.push(address_of(PRIVACY_POLICY));
    assert(crate::relay::messages::items::views(out@) =~= addresses());
    out
}

/// Whether an answer accepts.
pub fn is_accepting(answer: &str) -> (r: bool)
    ensures
        r == (utils::trimmed(answer@) == ACCEPT_ANSWER@),
{
    let chars = utils::chars_of(answer);
    let text = utils::text_of(utils::trim_chars(chars.as_slice()));
    utils::same_text(text.as_str(), ACCEPT_ANSWER)
}

/// What an operator is told who cannot be asked.
pub open spec fn must_accept_line(config_name: Seq<char>) -> Seq<char> {
    "personal mode logs in to the lobby as you, which needs its terms accepted. Read "@
        + link::separated(addresses(), ", "@) + " and then set [personal] "@ + ACCEPTANCE_KEY@
        + " = true in "@ + config_name
}

pub fn must_accept(config_name: &str) -> (r: String)
    ensures
        r@ == must_accept_line(config_name@),
{
    let mut out = utils::copy_text(
        "personal mode logs in to the lobby as you, which needs its terms accepted. Read ",
    );
    let list = link::join_texts(&urls(), ", ");
    out.append(list.as_str());
    out.append(" and then set [personal] ");
    out.append(ACCEPTANCE_KEY);
    out.append(" = true in ");
    out.append(config_name);
    out
}

/// The place of the first such character from a place on.
pub open spec fn first_from(s: Seq<char>, c: char, from: int) -> Option<int>
    decreases s.len() - from,
{
    if from < 0 || from >= s.len() {
        None
    } else if s[from] == c {
        Some(from)
    } else {
        first_from(s, c, from + 1)
    }
}

/// Whether markup changes the font.
pub open spec fn font_tag(tag: Seq<char>) -> bool {
    "[font="@.is_prefix_of(tag) || tag == "[/font]"@
}

/// Where the font markup that begins at a place ends.
pub open spec fn tag_end(s: Seq<char>, at: int) -> Option<int> {
    match first_from(s, ']', at) {
        Some(end) => if font_tag(s.subrange(at, end + 1)) {
            Some(end + 1)
        } else {
            None
        },
        None => None,
    }
}

/// A text from a place on, without the markup that changes the font. The terms
/// use no other, so any other bracket is left as written.
pub open spec fn plain_from(s: Seq<char>, at: int) -> Seq<char>
    decreases s.len() - at,
    via plain_from_ends
{
    if at < 0 || at >= s.len() {
        Seq::empty()
    } else if s[at] == '[' && tag_end(s, at) is Some {
        plain_from(s, tag_end(s, at)->0)
    } else {
        seq![s[at]] + plain_from(s, at + 1)
    }
}

#[via_fn]
proof fn plain_from_ends(s: Seq<char>, at: int) {
    if 0 <= at < s.len() && s[at] == '[' {
        lemma_first_from(s, ']', at);
    }
}

proof fn lemma_first_from(s: Seq<char>, c: char, from: int)
    requires
        0 <= from,
    ensures
        match first_from(s, c, from) {
            Some(i) => from <= i < s.len() && s[i] == c,
            None => true,
        },
    decreases s.len() - from,
{
    if from < s.len() && s[from] != c {
        lemma_first_from(s, c, from + 1);
    }
}

/// A text without the markup that changes the font.
pub open spec fn plain(s: Seq<char>) -> Seq<char> {
    plain_from(s, 0)
}

fn find_from(chars: &Vec<char>, c: char, from: usize) -> (r: Option<usize>)
    requires
        from <= chars@.len(),
    ensures
        match r {
            Some(i) => first_from(chars@, c, from as int) == Some(i as int) && from <= i
                < chars@.len(),
            None => first_from(chars@, c, from as int) is None,
        },
{
    let mut i: usize = from;
    while i < chars.len()
        invariant
            from <= i <= chars@.len(),
            first_from(chars@, c, from as int) == first_from(chars@, c, i as int),
        decreases chars@.len() - i,
    {
        if chars[i] == c {
            return Some(i);
        }
        i += 1;
    }
    None
}

/// Whether markup changes the font.
pub fn is_font_tag(tag: &[char]) -> (r: bool)
    ensures
        r == font_tag(tag@),
{
    let opening = utils::chars_of("[font=");
    let closing = utils::chars_of("[/font]");
    starts_with(tag, &opening) || (tag.len() == closing.len() && starts_with(tag, &closing))
}

fn starts_with(text: &[char], prefix: &Vec<char>) -> (r: bool)
    ensures
        r == prefix@.is_prefix_of(text@),
        r && text@.len() == prefix@.len() ==> text@ == prefix@,
        text@ == prefix@ ==> r,
{
    if text.len() < prefix.len() {
        return false;
    }
    let mut i: usize = 0;
    while i < prefix.len()
        invariant
            prefix@.len() <= text@.len(),
            i <= prefix@.len(),
            forall|j: int| 0 <= j < i ==> text@[j] == prefix@[j],
        decreases prefix@.len() - i,
    {
        if text[i] != prefix[i] {
            assert(text@.take(prefix@.len() as int)[i as int] != prefix@[i as int]);
            return false;
        }
        i += 1;
    }
    assert(text@.take(prefix@.len() as int) =~= prefix@);
    assert(text@.len() == prefix@.len() ==> text@ =~= prefix@);
    true
}

fn end_of_tag(chars: &Vec<char>, at: usize) -> (r: Option<usize>)
    requires
        at < chars@.len(),
    ensures
        match r {
            Some(i) => tag_end(chars@, at as int) == Some(i as int) && at < i <= chars@.len(),
            None => tag_end(chars@, at as int) is None,
        },
{
    let len: usize = chars.len();
    match find_from(chars, ']', at) {
        Some(end) => if end < len && is_font_tag(
            vstd::slice::slice_subrange(chars.as_slice(), at, end + 1),
        ) {
            Some(end + 1)
        } else {
            None
        },
        None => None,
    }
}

/// A text without the markup that changes the font.
pub fn strip_markup(text: &str) -> (r: String)
    ensures
        r@ == plain(text@),
{
    let chars = utils::chars_of(text);
    let mut out: Vec<char> = Vec::new();
    let mut at: usize = 0;
    assert(Seq::<char>::empty() + plain_from(text@, 0) =~= plain(text@));
    while at < chars.len()
        invariant
            chars@ == text@,
            at <= chars@.len(),
            out@ + plain_from(text@, at as int) == plain(text@),
        decreases chars@.len() - at,
    {
        let skip = if chars[at] == '[' {
            end_of_tag(&chars, at)
        } else {
            None
        };
        match skip {
            Some(next) => {
                at = next;
            },
            None => {
                let ghost before = out@;
                out.push(chars[at]);
                assert(before + (seq![chars@[at as int]] + plain_from(text@, at + 1)) =~= out@
                    + plain_from(text@, at + 1));
                at = at + 1;
            },
        }
    }
    assert(out@ + plain_from(text@, at as int) =~= out@);
    utils::text_of(out.as_slice())
}

/// A text without any opening bracket is left as it is.
pub proof fn plain_text_is_kept(s: Seq<char>)
    requires
        forall|i: int| 0 <= i < s.len() ==> #[trigger] s[i] != '[',
    ensures
        plain(s) == s,
{
    lemma_kept(s, 0);
    assert(s.skip(0) =~= s);
}

proof fn lemma_kept(s: Seq<char>, at: int)
    requires
        0 <= at <= s.len(),
        forall|i: int| 0 <= i < s.len() ==> #[trigger] s[i] != '[',
    ensures
        plain_from(s, at) == s.skip(at),
    decreases s.len() - at,
{
    if at < s.len() {
        lemma_kept(s, at + 1);
        assert(s.skip(at) =~= seq![s[at]] + s.skip(at + 1));
    } else {
        assert(s.skip(at) =~= Seq::empty());
    }
}

} // verus!
