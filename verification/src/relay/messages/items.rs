//! Messages that end in a list: entries one after another to the end of the
//! packet, with no count before them.

use vstd::prelude::*;

use crate::relay::fault::ParseError;
use crate::utils;

verus! {

/// An entry of such a list.
pub trait WireItem: Sized + View {
    /// The bytes of an entry.
    spec fn item_bytes(v: Self::V) -> Seq<u8>;

    /// Whether the wire can carry an entry.
    spec fn item_fits(v: Self::V) -> bool;

    /// The entry at `pos`, and where it ends.
    spec fn item_at(b: Seq<u8>, pos: int) -> Result<(Self::V, int), ParseError>;

    proof fn item_advances(b: Seq<u8>, pos: int)
        requires
            0 <= pos,
        ensures
            Self::item_at(b, pos) matches Ok((_, next)) ==> pos < next <= b.len(),
    ;

    proof fn item_round_trip(v: Self::V, b: Seq<u8>, pos: int)
        requires
            Self::item_fits(v),
            utils::occurs(b, pos, Self::item_bytes(v)),
        ensures
            Self::item_at(b, pos) == Ok::<(Self::V, int), ParseError>(
                (v, pos + Self::item_bytes(v).len()),
            ),
    ;

    /// An entry does not depend on the bytes in front of it.
    proof fn item_moves(a: Seq<u8>, b: Seq<u8>, pos: int)
        requires
            0 <= pos,
        ensures
            Self::item_at(a + b, a.len() + pos) == utils::moved(
                Self::item_at(b, pos),
                a.len() as int,
            ),
    ;

    fn write_item(&self, out: &mut Vec<u8>)
        ensures
            final(out)@ == old(out)@ + Self::item_bytes(self@),
    ;

    fn read_item(buffer: &[u8], pos: usize) -> (r: Result<(Self, usize), ParseError>)
        ensures
            utils::viewed_at(r) == Self::item_at(buffer@, pos as int),
    ;

    fn copy_item(&self) -> (r: Self)
        ensures
            r@ == self@,
    ;
}

/// The view of every entry.
pub open spec fn views<T: View>(s: Seq<T>) -> Seq<T::V> {
    s.map_values(|x: T| x@)
}

/// The bytes of a list.
pub open spec fn items_bytes<T: WireItem>(s: Seq<T::V>) -> Seq<u8>
    decreases s.len(),
{
    if s.len() == 0 {
        Seq::empty()
    } else {
        T::item_bytes(s[0]) + items_bytes::<T>(s.drop_first())
    }
}

/// Whether the wire can carry every entry.
pub open spec fn items_fit<T: WireItem>(s: Seq<T::V>) -> bool {
    forall|i: int| 0 <= i < s.len() ==> T::item_fits(#[trigger] s[i])
}

/// The list that starts at `pos` and runs to the end.
pub open spec fn items_at<T: WireItem>(b: Seq<u8>, pos: int) -> Result<Seq<T::V>, ParseError>
    decreases b.len() - pos,
    when 0 <= pos
{
    if pos >= b.len() {
        Ok(Seq::empty())
    } else {
        proof {
            T::item_advances(b, pos);
        }
        match T::item_at(b, pos) {
            Err(e) => Err(e),
            Ok((v, next)) => match items_at::<T>(b, next) {
                Err(e) => Err(e),
                Ok(rest) => Ok(seq![v] + rest),
            },
        }
    }
}

/// A list to the end of the packet reads back as it was written, as long as
/// every entry takes some bytes.
pub proof fn lemma_items<T: WireItem>(s: Seq<T::V>, b: Seq<u8>, pos: int)
    requires
        items_fit::<T>(s),
        utils::occurs(b, pos, items_bytes::<T>(s)),
        pos + items_bytes::<T>(s).len() == b.len(),
    ensures
        items_at::<T>(b, pos) == Ok::<Seq<T::V>, ParseError>(s),
    decreases s.len(),
{
    if s.len() == 0 {
        assert(s =~= Seq::empty());
    } else {
        let head = T::item_bytes(s[0]);
        let tail = items_bytes::<T>(s.drop_first());
        assert(head + tail =~= Seq::<u8>::empty() + head + tail);
        assert(head + tail =~= head + tail + Seq::<u8>::empty());
        utils::lemma_occurs_within(b, pos, Seq::<u8>::empty(), head, tail);
        utils::lemma_occurs_within(b, pos, head, tail, Seq::<u8>::empty());
        T::item_round_trip(s[0], b, pos);
        T::item_advances(b, pos);
        assert forall|i: int| 0 <= i < s.drop_first().len() implies T::item_fits(
            #[trigger] s.drop_first()[i],
        ) by {
            assert(T::item_fits(s[i + 1]));
        }
        lemma_items::<T>(s.drop_first(), b, pos + head.len());
        assert(seq![s[0]] + s.drop_first() =~= s);
    }
}

/// A list does not depend on the bytes in front of it.
pub proof fn lemma_items_move<T: WireItem>(a: Seq<u8>, b: Seq<u8>, pos: int)
    requires
        0 <= pos,
    ensures
        items_at::<T>(a + b, a.len() + pos) == items_at::<T>(b, pos),
    decreases b.len() - pos,
{
    if pos < b.len() {
        T::item_moves(a, b, pos);
        T::item_advances(b, pos);
        T::item_advances(a + b, a.len() + pos);
        if let Ok((_, next)) = T::item_at(b, pos) {
            lemma_items_move::<T>(a, b, next);
        }
    }
}

/// What follows well-formed entries is read as it would be alone: its error is
/// the list's error, and its entries come behind theirs.
pub proof fn lemma_items_then<T: WireItem>(s: Seq<T::V>, tail: Seq<u8>)
    requires
        items_fit::<T>(s),
    ensures
        items_at::<T>(items_bytes::<T>(s) + tail, 0) == match items_at::<T>(tail, 0) {
            Ok(rest) => Ok::<Seq<T::V>, ParseError>(s + rest),
            Err(e) => Err(e),
        },
    decreases s.len(),
{
    if s.len() == 0 {
        assert(items_bytes::<T>(s) + tail =~= tail);
        if let Ok(rest) = items_at::<T>(tail, 0) {
            assert(s + rest =~= rest);
        }
    } else {
        let head = T::item_bytes(s[0]);
        let others = s.drop_first();
        let more = items_bytes::<T>(others) + tail;
        let b = items_bytes::<T>(s) + tail;
        assert(b =~= head + more);
        assert(b.subrange(0, head.len() as int) =~= head);
        T::item_round_trip(s[0], b, 0);
        T::item_advances(b, 0);
        assert forall|i: int| 0 <= i < others.len() implies T::item_fits(
            #[trigger] others[i],
        ) by {
            assert(T::item_fits(s[i + 1]));
        }
        lemma_items_then::<T>(others, tail);
        lemma_items_move::<T>(head, more, 0);
        if let Ok(rest) = items_at::<T>(tail, 0) {
            assert(seq![s[0]] + (others + rest) =~= s + rest);
        }
    }
}

proof fn lemma_items_bytes_snoc<T: WireItem>(s: Seq<T::V>, v: T::V)
    ensures
        items_bytes::<T>(s.push(v)) == items_bytes::<T>(s) + T::item_bytes(v),
    decreases s.len(),
{
    if s.len() == 0 {
        assert(s.push(v).drop_first() =~= Seq::<T::V>::empty());
        assert(items_bytes::<T>(Seq::<T::V>::empty()) =~= Seq::<u8>::empty());
        assert(items_bytes::<T>(s.push(v)) =~= T::item_bytes(v));
    } else {
        assert(s.push(v).drop_first() =~= s.drop_first().push(v));
        lemma_items_bytes_snoc::<T>(s.drop_first(), v);
        assert(items_bytes::<T>(s.push(v)) =~= items_bytes::<T>(s) + T::item_bytes(v));
    }
}

/// Appends every entry.
pub fn write_items<T: WireItem>(items: &Vec<T>, out: &mut Vec<u8>)
    ensures
        final(out)@ == old(out)@ + items_bytes::<T>(views(items@)),
{
    let mut i: usize = 0;
    assert(views(items@).take(0) =~= Seq::<T::V>::empty());
    assert(out@ =~= old(out)@ + items_bytes::<T>(views(items@).take(0)));
    while i < items.len()
        invariant
            i <= items@.len(),
            out@ == old(out)@ + items_bytes::<T>(views(items@).take(i as int)),
        decreases items@.len() - i,
    {
        items[i].write_item(out);
        proof {
            let all = views(items@);
            lemma_items_bytes_snoc::<T>(all.take(i as int), all[i as int]);
            assert(all.take(i + 1) =~= all.take(i as int).push(all[i as int]));
            assert(out@ =~= old(out)@ + items_bytes::<T>(all.take(i + 1)));
        }
        i += 1;
    }
    assert(views(items@).take(i as int) =~= views(items@));
}

/// The list that starts at `pos` and runs to the end.
pub fn read_items<T: WireItem>(buffer: &[u8], pos: usize) -> (r: Result<Vec<T>, ParseError>)
    ensures
        match r {
            Ok(items) => items_at::<T>(buffer@, pos as int) == Ok::<Seq<T::V>, ParseError>(
                views(items@),
            ),
            Err(e) => items_at::<T>(buffer@, pos as int) == Err::<Seq<T::V>, ParseError>(e),
        },
{
    let mut out: Vec<T> = Vec::new();
    let mut at: usize = pos;
    while at < buffer.len()
        invariant
            pos <= at,
            items_at::<T>(buffer@, pos as int) == match items_at::<T>(buffer@, at as int) {
                Ok(rest) => Ok::<Seq<T::V>, ParseError>(views(out@) + rest),
                Err(e) => Err(e),
            },
        decreases buffer@.len() - at,
    {
        proof {
            T::item_advances(buffer@, at as int);
        }
        let ghost before = views(out@);
        let (item, next) = T::read_item(buffer, at)?;
        let ghost v = item@;
        out.push(item);
        at = next;
        proof {
            assert(views(out@) =~= before.push(v));
            if let Ok(rest) = items_at::<T>(buffer@, at as int) {
                assert(before + (seq![v] + rest) =~= views(out@) + rest);
            }
        }
    }
    assert(views(out@) + Seq::<T::V>::empty() =~= views(out@));
    Ok(out)
}

/// A copy of every entry.
pub fn copy_items<T: WireItem>(items: &Vec<T>) -> (r: Vec<T>)
    ensures
        views(r@) == views(items@),
{
    let mut out: Vec<T> = Vec::new();
    let mut i: usize = 0;
    while i < items.len()
        invariant
            i <= items@.len(),
            out@.len() == i,
            forall|j: int| 0 <= j < i ==> #[trigger] out@[j]@ == items@[j]@,
        decreases items@.len() - i,
    {
        out.push(items[i].copy_item());
        i += 1;
    }
    assert(views(out@) =~= views(items@));
    out
}

impl WireItem for String {
    open spec fn item_bytes(v: Seq<char>) -> Seq<u8> {
        utils::wide_bytes(v)
    }

    open spec fn item_fits(v: Seq<char>) -> bool {
        utils::wide_fits(v)
    }

    open spec fn item_at(b: Seq<u8>, pos: int) -> Result<(Seq<char>, int), ParseError> {
        utils::wide_at(b, pos)
    }

    proof fn item_advances(b: Seq<u8>, pos: int) {
        utils::lemma_wide_advances(b, pos);
    }

    proof fn item_round_trip(v: Seq<char>, b: Seq<u8>, pos: int) {
        utils::lemma_wide(b, pos, v);
    }

    proof fn item_moves(a: Seq<u8>, b: Seq<u8>, pos: int) {
        utils::lemma_wide_moves(a, b, pos);
    }

    fn write_item(&self, out: &mut Vec<u8>) {
        utils::put_wide(out, self.as_str());
    }

    fn read_item(buffer: &[u8], pos: usize) -> (r: Result<(Self, usize), ParseError>) {
        utils::read_wide_string(buffer, pos)
    }

    fn copy_item(&self) -> (r: Self) {
        self.clone()
    }
}

} // verus!
