//! Small tables of rows by key. Rows keep the order in which their keys first
//! came in, and no key has two rows.

use vstd::prelude::*;

use crate::network_message::Ipv4Addr;
use crate::network_message::PeerID;
use crate::relay::messages::Guid;
use crate::utils;

verus! {

/// What rows are found by.
pub trait Key: View + Sized {
    fn same(&self, other: &Self) -> (r: bool)
        ensures
            r == (self@ == other@),
    ;
}

/// The row of a key.
pub open spec fn index_of<A, B>(s: Seq<(A, B)>, key: A) -> Option<int>
    decreases s.len(),
{
    if s.len() == 0 {
        None
    } else if s[0].0 == key {
        Some(0)
    } else {
        match index_of(s.drop_first(), key) {
            Some(i) => Some(i + 1),
            None => None,
        }
    }
}

/// What a key's row holds.
pub open spec fn lookup<A, B>(s: Seq<(A, B)>, key: A) -> Option<B> {
    match index_of(s, key) {
        Some(i) => Some(s[i].1),
        None => None,
    }
}

/// Whether a key has a row.
pub open spec fn has_key<A, B>(s: Seq<(A, B)>, key: A) -> bool {
    index_of(s, key) is Some
}

/// The key's row holds the value; a key without a row gets one at the end.
pub open spec fn with_row<A, B>(s: Seq<(A, B)>, key: A, value: B) -> Seq<(A, B)> {
    match index_of(s, key) {
        Some(i) => s.update(i, (key, value)),
        None => s.push((key, value)),
    }
}

/// The key has no row.
pub open spec fn without_row<A, B>(s: Seq<(A, B)>, key: A) -> Seq<(A, B)> {
    match index_of(s, key) {
        Some(i) => s.remove(i),
        None => s,
    }
}

/// No key has two rows.
pub open spec fn distinct<A, B>(s: Seq<(A, B)>) -> bool {
    forall|i: int, j: int| 0 <= i < j < s.len() ==> #[trigger] s[i].0 != #[trigger] s[j].0
}

pub proof fn lemma_index_of<A, B>(s: Seq<(A, B)>, key: A)
    ensures
        match index_of(s, key) {
            Some(i) => 0 <= i < s.len() && s[i].0 == key && forall|j: int|
                0 <= j < i ==> #[trigger] s[j].0 != key,
            None => forall|j: int| 0 <= j < s.len() ==> #[trigger] s[j].0 != key,
        },
    decreases s.len(),
{
    if s.len() > 0 && s[0].0 != key {
        let rest = s.drop_first();
        lemma_index_of(rest, key);
        match index_of(rest, key) {
            Some(i) => {
                assert(s[i + 1] == rest[i]);
                assert forall|j: int| 0 <= j < i + 1 implies #[trigger] s[j].0 != key by {
                    if j > 0 {
                        assert(rest[j - 1] == s[j]);
                    }
                }
            },
            None => {
                assert forall|j: int| 0 <= j < s.len() implies #[trigger] s[j].0 != key by {
                    if j > 0 {
                        assert(rest[j - 1] == s[j]);
                    }
                }
            },
        }
    }
}

/// The first row with a key is the key's row.
pub proof fn lemma_index_is<A, B>(s: Seq<(A, B)>, key: A, i: int)
    requires
        0 <= i < s.len(),
        s[i].0 == key,
        forall|j: int| 0 <= j < i ==> #[trigger] s[j].0 != key,
    ensures
        index_of(s, key) == Some(i),
{
    lemma_index_of(s, key);
}

/// A key that is on no row has none.
pub proof fn lemma_index_none<A, B>(s: Seq<(A, B)>, key: A)
    requires
        forall|j: int| 0 <= j < s.len() ==> #[trigger] s[j].0 != key,
    ensures
        index_of(s, key) is None,
{
    lemma_index_of(s, key);
}

/// Adding a row keeps keys apart.
pub proof fn lemma_with_row_distinct<A, B>(s: Seq<(A, B)>, key: A, value: B)
    requires
        distinct(s),
    ensures
        distinct(with_row(s, key, value)),
{
    lemma_index_of(s, key);
}

/// Dropping a row keeps keys apart, and the key is gone.
pub proof fn lemma_without_row_distinct<A, B>(s: Seq<(A, B)>, key: A)
    requires
        distinct(s),
    ensures
        distinct(without_row(s, key)),
        !has_key(without_row(s, key), key),
{
    lemma_index_of(s, key);
    lemma_index_of(without_row(s, key), key);
    if let Some(i) = index_of(s, key) {
        let t = s.remove(i);
        assert forall|j: int| 0 <= j < t.len() implies #[trigger] t[j].0 != key by {
            if j < i {
                assert(t[j] == s[j]);
            } else {
                assert(t[j] == s[j + 1]);
            }
        }
        assert forall|a: int, b: int| 0 <= a < b < t.len() implies #[trigger] t[a].0
            != #[trigger] t[b].0 by {
            let x = if a < i { a } else { a + 1 };
            let y = if b < i { b } else { b + 1 };
            assert(t[a] == s[x]);
            assert(t[b] == s[y]);
        }
    }
}

/// What was put under a key is what is found under it, and what stands under
/// every other key stays.
pub proof fn lemma_with_row_lookup<A, B>(s: Seq<(A, B)>, key: A, value: B, other: A)
    ensures
        lookup(with_row(s, key, value), key) == Some(value),
        other != key ==> lookup(with_row(s, key, value), other) == lookup(s, other),
{
    lemma_index_of(s, key);
    lemma_index_of(s, other);
    let t = with_row(s, key, value);
    lemma_index_of(t, key);
    lemma_index_of(t, other);
    if other != key {
        match index_of(s, other) {
            Some(i) => {
                assert(t[i] == s[i]);
                assert forall|j: int| 0 <= j < i implies #[trigger] t[j].0 != other by {
                    assert(t[j].0 == s[j].0);
                }
                lemma_index_is(t, other, i);
            },
            None => {
                assert forall|j: int| 0 <= j < t.len() implies #[trigger] t[j].0 != other by {
                    if j < s.len() {
                        assert(t[j].0 == s[j].0);
                    }
                }
            },
        }
    }
    match index_of(s, key) {
        Some(i) => {
            assert forall|j: int| 0 <= j < i implies #[trigger] t[j].0 != key by {
                assert(t[j] == s[j]);
            }
            lemma_index_is(t, key, i);
        },
        None => {
            assert forall|j: int| 0 <= j < s.len() implies #[trigger] t[j].0 != key by {
                assert(t[j] == s[j]);
            }
            lemma_index_is(t, key, s.len() as int);
        },
    }
}

/// What stands under other keys stays when a row is dropped.
pub proof fn lemma_without_row_lookup<A, B>(s: Seq<(A, B)>, key: A, other: A)
    requires
        other != key,
    ensures
        lookup(without_row(s, key), other) == lookup(s, other),
{
    lemma_index_of(s, key);
    lemma_index_of(s, other);
    if let Some(i) = index_of(s, key) {
        let t = s.remove(i);
        match index_of(s, other) {
            Some(k) => {
                let at = if k < i { k } else { k - 1 };
                assert(t[at] == s[k]);
                assert forall|j: int| 0 <= j < at implies #[trigger] t[j].0 != other by {
                    if j < i {
                        assert(t[j] == s[j]);
                    } else {
                        assert(t[j] == s[j + 1]);
                    }
                }
                lemma_index_is(t, other, at);
            },
            None => {
                assert forall|j: int| 0 <= j < t.len() implies #[trigger] t[j].0 != other by {
                    if j < i {
                        assert(t[j] == s[j]);
                    } else {
                        assert(t[j] == s[j + 1]);
                    }
                }
                lemma_index_none(t, other);
            },
        }
    }
}

/// The last row's key is on no row before it.
pub proof fn lemma_last_row<A, B>(s: Seq<(A, B)>, other: A)
    requires
        distinct(s),
        s.len() > 0,
    ensures
        distinct(s.drop_last()),
        !has_key(s.drop_last(), s.last().0),
        has_key(s, s.last().0),
        has_key(s.drop_last(), other) ==> has_key(s, other),
{
    let rest = s.drop_last();
    lemma_index_of(rest, s.last().0);
    lemma_index_of(s, s.last().0);
    lemma_index_of(rest, other);
    lemma_index_of(s, other);
    assert(s.last() == s[s.len() - 1]);
    if let Some(i) = index_of(rest, s.last().0) {
        assert(rest[i] == s[i]);
    }
    if let Some(i) = index_of(rest, other) {
        assert(rest[i] == s[i]);
    }
}

/// Leaving rows out keeps keys apart and adds none.
pub proof fn lemma_filter_distinct<A, B>(
    s: Seq<(A, B)>,
    pick: spec_fn((A, B)) -> bool,
    other: A,
)
    requires
        distinct(s),
    ensures
        distinct(s.filter(pick)),
        has_key(s.filter(pick), other) ==> has_key(s, other),
    decreases s.len(),
{
    reveal(Seq::filter);
    if s.len() > 0 {
        let rest = s.drop_last();
        let (key, value) = s.last();
        lemma_last_row(s, other);
        lemma_filter_distinct(rest, pick, other);
        lemma_filter_distinct(rest, pick, key);
        let kept = rest.filter(pick);
        lemma_with_row_distinct(kept, key, value);
        lemma_with_row_lookup(kept, key, value, other);
    }
}

/// A table of rows by key.
#[derive(Debug)]
pub struct Table<K: Key, T: View> {
    pub rows: Vec<(K, T)>,
}

/// A row with its parts replaced by their views.
pub open spec fn row_view<K: Key, T: View>(row: (K, T)) -> (K::V, T::V) {
    (row.0@, row.1@)
}

impl<K: Key, T: View> View for Table<K, T> {
    type V = Seq<(K::V, T::V)>;

    open spec fn view(&self) -> Seq<(K::V, T::V)> {
        self.rows@.map_values(|row: (K, T)| row_view(row))
    }
}

impl<K: Key, T: View> Table<K, T> {
    pub fn new() -> (r: Self)
        ensures
            r@ == Seq::<(K::V, T::V)>::empty(),
    {
        let r = Table { rows: Vec::new() };
        assert(r@ =~= Seq::<(K::V, T::V)>::empty());
        r
    }

    pub fn len(&self) -> (r: usize)
        ensures
            r == self@.len(),
    {
        self.rows.len()
    }

    /// The index of the key's row.
    pub fn position(&self, key: &K) -> (r: Option<usize>)
        ensures
            match r {
                Some(i) => index_of(self@, key@) == Some(i as int) && i < self@.len() && self@[i as int].0
                    == key@,
                None => index_of(self@, key@) is None,
            },
    {
        let mut i: usize = 0;
        while i < self.rows.len()
            invariant
                i <= self.rows@.len(),
                forall|j: int| 0 <= j < i ==> #[trigger] self@[j].0 != key@,
            decreases self.rows@.len() - i,
        {
            assert(self@[i as int] == row_view(self.rows@[i as int]));
            if self.rows[i].0.same(key) {
                proof {
                    lemma_index_is(self@, key@, i as int);
                }
                return Some(i);
            }
            i += 1;
        }
        proof {
            lemma_index_none(self@, key@);
        }
        None
    }

    pub fn has(&self, key: &K) -> (r: bool)
        ensures
            r == has_key(self@, key@),
    {
        self.position(key).is_some()
    }

    pub fn get(&self, key: &K) -> (r: Option<&T>)
        ensures
            match r {
                Some(v) => lookup(self@, key@) == Some(v@),
                None => lookup(self@, key@) is None,
            },
    {
        match self.position(key) {
            Some(i) => {
                assert(self@[i as int] == row_view(self.rows@[i as int]));
                Some(&self.rows[i].1)
            },
            None => None,
        }
    }

    pub fn put(&mut self, key: K, value: T)
        ensures
            final(self)@ == with_row(old(self)@, key@, value@),
    {
        let ghost k = key@;
        let ghost v = value@;
        match self.position(&key) {
            Some(i) => {
                self.rows.set(i, (key, value));
                assert(self@ =~= old(self)@.update(i as int, (k, v)));
            },
            None => {
                self.rows.push((key, value));
                assert(self@ =~= old(self)@.push((k, v)));
            },
        }
    }

    pub fn take(&mut self, key: &K) -> (r: Option<T>)
        ensures
            final(self)@ == without_row(old(self)@, key@),
            match r {
                Some(v) => lookup(old(self)@, key@) == Some(v@),
                None => lookup(old(self)@, key@) is None,
            },
    {
        match self.position(key) {
            Some(i) => {
                assert(self@[i as int] == row_view(self.rows@[i as int]));
                let row = self.rows.remove(i);
                assert(self@ =~= old(self)@.remove(i as int));
                Some(row.1)
            },
            None => None,
        }
    }
}

impl Key for Guid {
    fn same(&self, other: &Self) -> (r: bool) {
        utils::same_text(self.0.as_str(), other.0.as_str())
    }
}

impl Key for String {
    fn same(&self, other: &Self) -> (r: bool) {
        utils::same_text(self.as_str(), other.as_str())
    }
}

impl View for PeerID {
    type V = PeerID;

    open spec fn view(&self) -> PeerID {
        *self
    }
}

impl Key for PeerID {
    fn same(&self, other: &Self) -> (r: bool) {
        self.0 == other.0
    }
}

impl View for Ipv4Addr {
    type V = Ipv4Addr;

    open spec fn view(&self) -> Ipv4Addr {
        *self
    }
}

impl Key for Ipv4Addr {
    fn same(&self, other: &Self) -> (r: bool) {
        self.0 == other.0
    }
}

/// A peer's transfer, by the number its requester gave it.
#[derive(Debug, Clone, Copy, PartialEq, Eq, Structural)]
pub struct TransferKey {
    pub peer: PeerID,
    pub request_id: u32,
}

impl View for TransferKey {
    type V = TransferKey;

    open spec fn view(&self) -> TransferKey {
        *self
    }
}

impl Key for TransferKey {
    fn same(&self, other: &Self) -> (r: bool) {
        self.peer.0 == other.peer.0 && self.request_id == other.request_id
    }
}

} // verus!
