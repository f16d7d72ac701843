use vstd::prelude::*;

use crate::relay::messages::EnabledMod;
use crate::relay::messages::EnabledModView;
use crate::relay::messages::items;
use crate::utils;

verus! {

pub const MAX_NAME_LEN: usize = 32;

pub const ANONYMOUS: &'static str = "Anonymous";

/// The separator a deduplicated name is cut at. Lobby authentication recovers
/// the lobby name by cutting here, so any other separator breaks lobby mode.
pub const SUFFIX_MARKER: &'static str = " (";

/// What the relay's own name in the slot list starts with, and no client's may.
pub const RESERVED_PREFIX: &'static str = "* ";

/// Who may watch a match already in progress.
#[derive(Debug, Clone, Copy, PartialEq, Eq, Structural)]
pub enum LateObserverPolicy {
    Everyone,
    Buddies,
    Deny,
}

impl Default for LateObserverPolicy {
    fn default() -> (r: Self)
        ensures
            r == LateObserverPolicy::Everyone,
    {
        LateObserverPolicy::Everyone
    }
}

/// Brackets are markup to the client, so a name shows braces instead.
pub open spec fn plain_char(c: char) -> char {
    if c == '[' {
        '{'
    } else if c == ']' {
        '}'
    } else {
        c
    }
}

/// The name a client is shown under.
pub open spec fn sanitized(raw: Seq<char>) -> Seq<char> {
    let shown = raw.map_values(|c: char| plain_char(c));
    let cut = if shown.len() > MAX_NAME_LEN {
        shown.take(MAX_NAME_LEN as int)
    } else {
        shown
    };
    let trimmed = utils::trimmed(cut);
    if trimmed.len() == 0 {
        ANONYMOUS@
    } else {
        trimmed
    }
}

pub fn sanitize(raw: &str) -> (r: String)
    ensures
        r@ == sanitized(raw@),
{
    let chars = utils::chars_of(raw);
    let ghost shown = raw@.map_values(|c: char| plain_char(c));
    let mut cut: Vec<char> = Vec::new();
    let mut i: usize = 0;
    while i < chars.len() && i < MAX_NAME_LEN
        invariant
            chars@ == raw@,
            shown == raw@.map_values(|c: char| plain_char(c)),
            i <= chars@.len(),
            i <= MAX_NAME_LEN,
            cut@ == shown.take(i as int),
        decreases chars@.len() - i,
    {
        let c = chars[i];
        let plain = if c == '[' {
            '{'
        } else if c == ']' {
            '}'
        } else {
            c
        };
        cut.push(plain);
        assert(cut@ =~= shown.take(i + 1));
        i += 1;
    }
    assert(shown.take(shown.len() as int) =~= shown);
    let trimmed = utils::trim_chars(cut.as_slice());
    if trimmed.len() == 0 {
        utils::copy_text(ANONYMOUS)
    } else {
        utils::text_of(trimmed)
    }
}

/// Where the suffix of a deduplicated name starts, at the first marker.
pub open spec fn suffix_at(name: Seq<char>, from: int) -> Option<int>
    decreases name.len() - from,
{
    if from + 2 > name.len() {
        None
    } else if name[from] == ' ' && name[from + 1] == '(' {
        Some(from)
    } else {
        suffix_at(name, from + 1)
    }
}

/// A name without the suffix that deduplication gave it.
pub open spec fn without_suffix(name: Seq<char>) -> Seq<char> {
    match suffix_at(name, 0) {
        Some(at) => name.take(at),
        None => name,
    }
}

pub fn suffix_stripped(name: &str) -> (r: &str)
    ensures
        r@ == without_suffix(name@),
{
    let chars = utils::chars_of(name);
    let mut i: usize = 0;
    while chars.len() - i >= 2
        invariant
            chars@ == name@,
            i <= chars@.len(),
            suffix_at(name@, 0) == suffix_at(name@, i as int),
        decreases chars@.len() - i,
    {
        if chars[i] == ' ' && chars[i + 1] == '(' {
            assert(name@.subrange(0, i as int) =~= name@.take(i as int));
            return name.substring_char(0, i);
        }
        i += 1;
    }
    name
}

/// A name with a number behind it.
pub open spec fn numbered(candidate: Seq<char>, n: nat) -> Seq<char> {
    candidate + SUFFIX_MARKER@ + utils::decimal(n) + seq![')']
}

/// Whether `n` is the first number from 2 up that nobody has.
pub open spec fn first_free(candidate: Seq<char>, taken: Seq<Seq<char>>, n: nat) -> bool {
    &&& n >= 2
    &&& !taken.contains(numbered(candidate, n))
    &&& forall|k: nat| 2 <= k < n ==> taken.contains(#[trigger] numbered(candidate, k))
}

proof fn lemma_numbered_injective(candidate: Seq<char>, a: nat, b: nat)
    requires
        numbered(candidate, a) == numbered(candidate, b),
    ensures
        a == b,
{
    let head = candidate + SUFFIX_MARKER@;
    let x = numbered(candidate, a);
    let y = numbered(candidate, b);
    assert(x.subrange(head.len() as int, x.len() - 1) =~= utils::decimal(a));
    assert(y.subrange(head.len() as int, y.len() - 1) =~= utils::decimal(b));
    utils::lemma_decimal_injective(a, b);
}

/// If every number up to `n` is taken, that many names are.
proof fn lemma_taken_numbers(candidate: Seq<char>, taken: Seq<Seq<char>>, n: nat) -> (held: Set<
    Seq<char>,
>)
    requires
        n >= 2,
        forall|k: nat| 2 <= k < n ==> taken.contains(#[trigger] numbered(candidate, k)),
    ensures
        held.finite(),
        held.len() == n - 2,
        held.subset_of(taken.to_set()),
        forall|s: Seq<char>| held.contains(s) ==> exists|k: nat|
            2 <= k < n && s == #[trigger] numbered(candidate, k),
    decreases n,
{
    if n == 2 {
        Set::empty()
    } else {
        let smaller = lemma_taken_numbers(candidate, taken, (n - 1) as nat);
        let last = numbered(candidate, (n - 1) as nat);
        assert(!smaller.contains(last)) by {
            if smaller.contains(last) {
                let k = choose|k: nat| 2 <= k < n - 1 && last == #[trigger] numbered(candidate, k);
                lemma_numbered_injective(candidate, (n - 1) as nat, k);
            }
        }
        assert(taken.to_set().contains(last));
        smaller.insert(last)
    }
}

/// The candidate itself if nobody has it, else with the first number behind it
/// that is free.
pub open spec fn unique_name(candidate: Seq<char>, taken: Seq<Seq<char>>) -> Seq<char> {
    if !taken.contains(candidate) {
        candidate
    } else {
        numbered(candidate, choose|n: nat| first_free(candidate, taken, n))
    }
}

/// Whether a number that a name can carry is free.
pub open spec fn number_left(candidate: Seq<char>, taken: Seq<Seq<char>>) -> bool {
    exists|n: nat| n <= u32::MAX && #[trigger] first_free(candidate, taken, n)
}

/// The name that can be given for a candidate; none where it is taken and so
/// is every number it could carry.
pub open spec fn name_left(candidate: Seq<char>, taken: Seq<Seq<char>>) -> Option<Seq<char>> {
    if !taken.contains(candidate) || number_left(candidate, taken) {
        Some(unique_name(candidate, taken))
    } else {
        None
    }
}

/// The name that can be given for a candidate.
pub fn free_name(candidate: &str, taken: &Vec<String>) -> (r: Option<String>)
    ensures
        utils::seen(r) == name_left(candidate@, items::views(taken@)),
{
    let ghost names = taken@.map_values(|s: String| s@);
    assert(names =~= items::views(taken@));
    if !utils::is_among(taken, candidate) {
        return Some(utils::copy_text(candidate));
    }
    let mut counter: u32 = 2;
    loop
        invariant
            names == taken@.map_values(|s: String| s@),
            names == items::views(taken@),
            names.contains(candidate@),
            counter >= 2,
            forall|k: nat| 2 <= k < counter ==> names.contains(#[trigger] numbered(candidate@, k)),
        decreases u32::MAX - counter,
    {
        let mut next = utils::copy_text(candidate);
        next.append(SUFFIX_MARKER);
        let digits = utils::decimal_text(counter as u64);
        next.append(digits.as_str());
        next.append(")");
        proof {
            reveal_strlit(")");
            assert(")"@ =~= seq![')']);
        }
        assert(next@ == numbered(candidate@, counter as nat));
        if !utils::is_among(taken, next.as_str()) {
            proof {
                assert(first_free(candidate@, names, counter as nat));
                lemma_first_free_once(candidate@, names, counter as nat);
            }
            return Some(next);
        }
        if counter == u32::MAX {
            proof {
                assert(!number_left(candidate@, names)) by {
                    if number_left(candidate@, names) {
                        let n = choose|n: nat|
                            n <= u32::MAX && #[trigger] first_free(candidate@, names, n);
                        assert(names.contains(numbered(candidate@, n)));
                    }
                }
            }
            return None;
        }
        counter += 1;
    }
}

/// There is one first free number.
proof fn lemma_first_free_once(candidate: Seq<char>, taken: Seq<Seq<char>>, n: nat)
    requires
        first_free(candidate, taken, n),
    ensures
        (choose|m: nat| first_free(candidate, taken, m)) == n,
{
    let m = choose|m: nat| first_free(candidate, taken, m);
    if m < n {
        assert(taken.contains(numbered(candidate, m)));
    } else if n < m {
        assert(taken.contains(numbered(candidate, n)));
    }
}

/// The candidate itself if nobody has it, else with the first number behind it
/// that is free.
pub fn deduplicate(candidate: &str, taken: &Vec<String>) -> (r: String)
    requires
        items::views(taken@).contains(candidate@) ==> number_left(
            candidate@,
            items::views(taken@),
        ),
    ensures
        r@ == unique_name(candidate@, items::views(taken@)),
        !items::views(taken@).contains(r@),
{
    proof {
        found_names(candidate@, items::views(taken@));
    }
    match free_name(candidate, taken) {
        Some(name) => name,
        None => utils::copy_text(candidate),
    }
}

proof fn lemma_some_number_free(candidate: Seq<char>, taken: Seq<Seq<char>>, n: nat)
    requires
        n >= 2,
        forall|k: nat| 2 <= k < n ==> taken.contains(#[trigger] numbered(candidate, k)),
    ensures
        exists|m: nat| first_free(candidate, taken, m),
    decreases taken.len() + 2 - n,
{
    let held = lemma_taken_numbers(candidate, taken, n);
    taken.lemma_cardinality_of_set();
    vstd::set_lib::lemma_len_subset(held, taken.to_set());
    if taken.contains(numbered(candidate, n)) {
        let more = lemma_taken_numbers(candidate, taken, n + 1);
        vstd::set_lib::lemma_len_subset(more, taken.to_set());
        lemma_some_number_free(candidate, taken, n + 1);
    } else {
        assert(first_free(candidate, taken, n));
    }
}

/// A name without brackets or blanks around it that is not too long is shown
/// as it is; no name is shown with brackets, longer than that, or empty.
pub proof fn plain_names_are_kept(raw: Seq<char>)
    ensures
        ({
            let shown = sanitized(raw);
            &&& 0 < raw.len() <= MAX_NAME_LEN && !utils::white_space(raw[0])
                && !utils::white_space(raw.last()) && !raw.contains('[') && !raw.contains(']')
                ==> shown == raw
            &&& 0 < shown.len() <= MAX_NAME_LEN
            &&& !shown.contains('[')
            &&& !shown.contains(']')
        }),
{
    let plain = raw.map_values(|c: char| plain_char(c));
    let cut = if plain.len() > MAX_NAME_LEN {
        plain.take(MAX_NAME_LEN as int)
    } else {
        plain
    };
    reveal_strlit("Anonymous");
    lemma_trim_start(cut);
    lemma_trim_end(utils::trim_start(cut));
    assert forall|i: int| 0 <= i < cut.len() implies #[trigger] cut[i] != '[' && cut[i] != ']' by {
        assert(cut[i] == plain_char(raw[i]));
    }
    if 0 < raw.len() <= MAX_NAME_LEN && !raw.contains('[') && !raw.contains(']') {
        assert forall|i: int| 0 <= i < raw.len() implies plain[i] == #[trigger] raw[i] by {
            assert(raw.contains(raw[i]));
        }
        assert(plain =~= raw);
    }
}

proof fn lemma_trim_start(s: Seq<char>)
    ensures
        utils::trim_start(s).len() <= s.len(),
        forall|c: char| #[trigger] utils::trim_start(s).contains(c) ==> s.contains(c),
    decreases s.len(),
{
    if s.len() > 0 && utils::white_space(s[0]) {
        let rest = s.drop_first();
        lemma_trim_start(rest);
        assert forall|c: char| #[trigger] utils::trim_start(s).contains(c) implies s.contains(
            c,
        ) by {
            assert(rest.contains(c));
            let k = choose|k: int| 0 <= k < rest.len() && rest[k] == c;
            assert(s[k + 1] == c);
        }
    }
}

proof fn lemma_trim_end(s: Seq<char>)
    ensures
        utils::trim_end(s).len() <= s.len(),
        forall|c: char| #[trigger] utils::trim_end(s).contains(c) ==> s.contains(c),
    decreases s.len(),
{
    if s.len() > 0 && utils::white_space(s.last()) {
        let rest = s.drop_last();
        lemma_trim_end(rest);
        assert forall|c: char| #[trigger] utils::trim_end(s).contains(c) implies s.contains(c) by {
            assert(rest.contains(c));
            let k = choose|k: int| 0 <= k < rest.len() && rest[k] == c;
            assert(s[k] == c);
        }
    }
}

/// The name that is found for someone is never one that is taken. It is the
/// candidate itself exactly where that is free, and else the candidate with the
/// least number behind it that nobody has; taking the number off leads back.
pub proof fn found_names(candidate: Seq<char>, taken: Seq<Seq<char>>)
    ensures
        !taken.contains(unique_name(candidate, taken)),
        unique_name(candidate, taken) == candidate <==> !taken.contains(candidate),
        taken.contains(candidate) ==> exists|n: nat| #[trigger]
            first_free(candidate, taken, n) && unique_name(candidate, taken) == numbered(
                candidate,
                n,
            ),
        suffix_at(candidate, 0) is None ==> without_suffix(unique_name(candidate, taken))
            == candidate,
{
    if suffix_at(candidate, 0) is None {
        assert(without_suffix(candidate) == candidate);
    }
    if taken.contains(candidate) {
        lemma_some_number_free(candidate, taken, 2);
        let n = choose|n: nat| first_free(candidate, taken, n);
        assert(first_free(candidate, taken, n));
        if suffix_at(candidate, 0) is None {
            suffix_comes_off(candidate, n);
        }
    }
}

/// Numbers do not run out before there are as many names as there are numbers.
pub proof fn numbers_do_not_run_out(candidate: Seq<char>, taken: Seq<Seq<char>>)
    requires
        taken.len() < u32::MAX - 1,
    ensures
        name_left(candidate, taken) == Some(unique_name(candidate, taken)),
{
    if taken.contains(candidate) {
        lemma_some_number_free(candidate, taken, 2);
        let n = choose|n: nat| first_free(candidate, taken, n);
        assert(first_free(candidate, taken, n));
        let held = lemma_taken_numbers(candidate, taken, n);
        taken.lemma_cardinality_of_set();
        vstd::set_lib::lemma_len_subset(held, taken.to_set());
        assert(n <= u32::MAX && first_free(candidate, taken, n));
    }
}

/// A mod as the client compares it.
pub open spec fn mod_label(m: EnabledModView) -> Seq<char> {
    m.name + "-"@ + m.version
}

fn label(m: &EnabledMod) -> (r: String)
    ensures
        r@ == mod_label(m@),
{
    let mut out = m.name.clone();
    out.append("-");
    out.append(m.version.as_str());
    out
}

/// Whether a client runs exactly what the server runs: the same version and
/// the same mods, in the same order.
pub open spec fn same_setup(
    server_version: Seq<char>,
    server_mods: Seq<EnabledModView>,
    client_version: Seq<char>,
    client_mods: Seq<EnabledModView>,
) -> bool {
    &&& server_version == client_version
    &&& server_mods.len() == client_mods.len()
    &&& forall|i: int|
        0 <= i < server_mods.len() ==> mod_label(#[trigger] server_mods[i]) == mod_label(
            client_mods[i],
        )
}

pub fn compatible(
    server_version: &str,
    server_mods: &Vec<EnabledMod>,
    client_version: &str,
    client_mods: &Vec<EnabledMod>,
) -> (r: bool)
    ensures
        r == same_setup(
            server_version@,
            items::views(server_mods@),
            client_version@,
            items::views(client_mods@),
        ),
{
    if !utils::same_text(server_version, client_version) || server_mods.len() != client_mods.len() {
        return false;
    }
    let ghost ours = items::views(server_mods@);
    let ghost theirs = items::views(client_mods@);
    let mut i: usize = 0;
    while i < server_mods.len()
        invariant
            ours == items::views(server_mods@),
            theirs == items::views(client_mods@),
            ours.len() == theirs.len(),
            i <= server_mods@.len(),
            forall|j: int| 0 <= j < i ==> mod_label(#[trigger] ours[j]) == mod_label(theirs[j]),
        decreases server_mods@.len() - i,
    {
        let a = label(&server_mods[i]);
        let b = label(&client_mods[i]);
        if !utils::same_text(a.as_str(), b.as_str()) {
            assert(mod_label(ours[i as int]) != mod_label(theirs[i as int]));
            return false;
        }
        i += 1;
    }
    true
}

/// Whether a name is the relay's alone.
pub open spec fn is_reserved(name: Seq<char>) -> bool {
    RESERVED_PREFIX@.len() <= name.len() && name.take(RESERVED_PREFIX@.len() as int)
        == RESERVED_PREFIX@
}

pub fn reserved(name: &str) -> (r: bool)
    ensures
        r == is_reserved(name@),
{
    let chars = utils::chars_of(name);
    proof {
        reveal_strlit("* ");
    }
    if chars.len() >= 2 && chars[0] == '*' && chars[1] == ' ' {
        assert(name@.take(2) =~= "* "@);
        true
    } else {
        assert(name@.len() >= 2 && name@.take(2) == "* "@ ==> name@[0] == name@.take(2)[0] && name@[1]
            == name@.take(2)[1]);
        false
    }
}

/// The name the relay speaks under.
pub open spec fn display_name(name: Seq<char>) -> Seq<char> {
    RESERVED_PREFIX@ + name
}

pub fn server_display_name(name: &str) -> (r: String)
    ensures
        r@ == display_name(name@),
{
    let mut out = utils::copy_text(RESERVED_PREFIX);
    out.append(name);
    out
}

/// A client that passes the reserved-name check is never shown under the
/// relay's own name.
pub proof fn relay_name_is_its_own(server_name: Seq<char>, name: Seq<char>)
    requires
        !is_reserved(name),
    ensures
        name != display_name(server_name),
{
    assert(display_name(server_name).take(RESERVED_PREFIX@.len() as int) =~= RESERVED_PREFIX@);
}

/// A deduplicated name leads back to the candidate it came from, as long as
/// that has no suffix of its own.
pub proof fn suffix_comes_off(candidate: Seq<char>, n: nat)
    requires
        suffix_at(candidate, 0) is None,
    ensures
        without_suffix(numbered(candidate, n)) == candidate,
{
    reveal_strlit(" (");
    let name = numbered(candidate, n);
    assert(name.take(candidate.len() as int) =~= candidate);
    lemma_suffix_at(candidate, name, 0);
}

proof fn lemma_suffix_at(candidate: Seq<char>, name: Seq<char>, from: int)
    requires
        0 <= from <= candidate.len(),
        candidate.len() + 2 <= name.len(),
        name.take(candidate.len() as int) == candidate,
        name[candidate.len() as int] == ' ',
        name[candidate.len() as int + 1] == '(',
        suffix_at(candidate, from) is None,
    ensures
        suffix_at(name, from) == Some(candidate.len() as int),
    decreases candidate.len() - from,
{
    if from < candidate.len() {
        assert(name[from] == name.take(candidate.len() as int)[from]);
        if from + 1 < candidate.len() {
            assert(name[from + 1] == name.take(candidate.len() as int)[from + 1]);
        }
        lemma_suffix_at(candidate, name, from + 1);
    }
}

} // verus!
