//! Match states and savegames on their way to and from clients.

use std::sync::Arc;

use vstd::prelude::*;

use crate::clock;
use crate::clock::Time;
use crate::network_message::PeerID;
use crate::relay::fault::PeerFault;
use crate::relay::messages::gamestate_chunk::GamestateChunkView;
use crate::relay::messages::items;
use crate::relay::messages::GamestateChunk;
use crate::table;
use crate::table::Table;
use crate::table::TransferKey;
use crate::utils;

verus! {

// Chunks stay well under the transport's packet size, and the window bounds how
// much of a transfer is in flight at once.
pub const CHUNK_SIZE: usize = 1024;

pub const WINDOW: u32 = 32;

pub const MAX_TRANSFER: u32 = 8_388_608;

pub const KIND_SAVEGAME: i8 = 0;

pub const KIND_RUNNING_GAME: i8 = 1;

/// Why the server asked a client for state, so the completed bytes can be
/// routed without a second lookup.
#[derive(Debug, Clone, Copy, PartialEq, Eq, Structural)]
pub enum Purpose {
    /// A snapshot pulled from a playing client on behalf of a joiner.
    JoinSnapshot { joiner: PeerID },
    Savegame,
}

#[derive(Debug)]
pub struct Outgoing {
    pub data: Arc<Vec<u8>>,
    pub offset: usize,
    pub in_flight: u32,
}

/// What [`Outgoing`] is.
pub struct OutgoingView {
    pub data: Seq<u8>,
    pub offset: int,
    pub in_flight: int,
}

impl View for Outgoing {
    type V = OutgoingView;

    open spec fn view(&self) -> OutgoingView {
        OutgoingView {
            data: self.data@,
            offset: self.offset as int,
            in_flight: self.in_flight as int,
        }
    }
}

#[derive(Debug)]
pub struct Incoming {
    pub purpose: Purpose,
    pub declared: usize,
    pub buf: Vec<u8>,
    /// When the stall clock last started. Only a tick brings the time, so
    /// progress clears it and the next tick restarts it.
    pub last_progress: Option<Time>,
}

/// What [`Incoming`] is.
pub struct IncomingView {
    pub purpose: Purpose,
    pub declared: int,
    pub buf: Seq<u8>,
    pub last_progress: Option<Time>,
}

impl View for Incoming {
    type V = IncomingView;

    open spec fn view(&self) -> IncomingView {
        IncomingView {
            purpose: self.purpose,
            declared: self.declared as int,
            buf: self.buf@,
            last_progress: self.last_progress,
        }
    }
}

/// Bytes handed to one peer, once.
#[derive(Debug)]
pub struct Grant {
    pub data: Arc<Vec<u8>>,
}

impl View for Grant {
    type V = Seq<u8>;

    open spec fn view(&self) -> Seq<u8> {
        self.data@
    }
}

/// Every transfer under way.
#[derive(Debug)]
pub struct Transfers {
    /// This endpoint's own request numbers. The peer numbers its requests
    /// independently, so the two never need to agree.
    pub next_request_id: u32,
    pub outgoing: Table<TransferKey, Outgoing>,
    pub incoming: Table<TransferKey, Incoming>,
    /// A peer may download only the snapshot its own join was built for, and
    /// only once. Anything else would hand the match state to whoever asks,
    /// and let a delayed observer fetch state its feed has not reached yet.
    pub granted: Table<PeerID, Grant>,
}

/// What [`Transfers`] is.
pub struct TransfersView {
    pub next_request_id: u32,
    pub outgoing: Seq<(TransferKey, OutgoingView)>,
    pub incoming: Seq<(TransferKey, IncomingView)>,
    pub granted: Seq<(PeerID, Seq<u8>)>,
}

impl View for Transfers {
    type V = TransfersView;

    open spec fn view(&self) -> TransfersView {
        TransfersView {
            next_request_id: self.next_request_id,
            outgoing: self.outgoing@,
            incoming: self.incoming@,
            granted: self.granted@,
        }
    }
}

/// Where the chunk that begins at `offset` ends.
pub open spec fn chunk_end(len: int, offset: int) -> int {
    if offset + CHUNK_SIZE < len {
        offset + CHUNK_SIZE
    } else {
        len
    }
}

/// The next chunks of the data, at most `room` of them.
pub open spec fn chunks_from(data: Seq<u8>, offset: int, room: int) -> Seq<Seq<u8>>
    decreases room,
{
    if room <= 0 || offset >= data.len() {
        Seq::empty()
    } else {
        let end = chunk_end(data.len() as int, offset);
        seq![data.subrange(offset, end)] + chunks_from(data, end, room - 1)
    }
}

/// Where those chunks end.
pub open spec fn offset_after(len: int, offset: int, room: int) -> int
    decreases room,
{
    if room <= 0 || offset >= len {
        offset
    } else {
        offset_after(len, chunk_end(len, offset), room - 1)
    }
}

/// Pieces put together again.
pub open spec fn joined(pieces: Seq<Seq<u8>>) -> Seq<u8>
    decreases pieces.len(),
{
    if pieces.len() == 0 {
        Seq::empty()
    } else {
        joined(pieces.drop_last()) + pieces.last()
    }
}

/// The messages that carry pieces.
pub open spec fn carried(request_id: u32, pieces: Seq<Seq<u8>>) -> Seq<GamestateChunkView> {
    pieces.map_values(|data: Seq<u8>| GamestateChunkView { request_id, data })
}

impl OutgoingView {
    pub open spec fn wf(self) -> bool {
        &&& 0 <= self.offset <= self.data.len() <= MAX_TRANSFER
        &&& 0 <= self.in_flight <= WINDOW
    }

    pub open spec fn room(self) -> int {
        WINDOW - self.in_flight
    }

    /// The chunks that fill the window.
    pub open spec fn pieces(self) -> Seq<Seq<u8>> {
        chunks_from(self.data, self.offset, self.room())
    }

    /// The transfer once they are on their way.
    pub open spec fn pumped(self) -> OutgoingView {
        OutgoingView {
            offset: offset_after(self.data.len() as int, self.offset, self.room()),
            in_flight: self.in_flight + self.pieces().len(),
            ..self
        }
    }

    pub open spec fn done(self) -> bool {
        self.offset >= self.data.len() && self.in_flight == 0
    }
}

impl IncomingView {
    pub open spec fn wf(self) -> bool {
        self.buf.len() <= self.declared <= MAX_TRANSFER
    }
}

/// Whether a join snapshot has been idle too long, and when the wait for it
/// began. Anything else is never idle.
pub open spec fn idle(rx: IncomingView, now: Time, limit: int) -> (bool, IncomingView) {
    match rx.purpose {
        Purpose::JoinSnapshot { .. } => {
            let (over, since) = clock::waited(rx.last_progress, now, limit);
            (over, IncomingView { last_progress: Some(since), ..rx })
        },
        Purpose::Savegame => (false, rx),
    }
}

/// A source that went quiet, and the joiner that waits for it.
#[derive(Debug, Clone, Copy, PartialEq, Eq, Structural)]
pub struct Stall {
    pub source: PeerID,
    pub joiner: PeerID,
}

impl View for Stall {
    type V = Stall;

    open spec fn view(&self) -> Stall {
        *self
    }
}

/// What is left of the transfers once the idle ones are dropped, and which
/// those were.
pub open spec fn without_idle(
    rows: Seq<(TransferKey, IncomingView)>,
    now: Time,
    limit: int,
) -> (Seq<(TransferKey, IncomingView)>, Seq<Stall>)
    decreases rows.len(),
{
    if rows.len() == 0 {
        (Seq::empty(), Seq::empty())
    } else {
        let (kept, dropped) = without_idle(rows.drop_last(), now, limit);
        let (key, rx) = rows.last();
        let (over, rx) = idle(rx, now, limit);
        match rx.purpose {
            Purpose::JoinSnapshot { joiner } if over => (
                kept,
                dropped.push(Stall { source: key.peer, joiner }),
            ),
            _ => (kept.push((key, rx)), dropped),
        }
    }
}

/// Whether a transfer ends with the departure of a peer.
pub open spec fn ends_with(row: (TransferKey, IncomingView), peer: PeerID) -> bool {
    row.0.peer == peer || row.1.purpose == (Purpose::JoinSnapshot { joiner: peer })
}

/// The joiners, other than the peer itself, whose snapshot a peer was sending.
pub open spec fn orphans(rows: Seq<(TransferKey, IncomingView)>, peer: PeerID) -> Seq<PeerID>
    decreases rows.len(),
{
    if rows.len() == 0 {
        Seq::empty()
    } else {
        let before = orphans(rows.drop_last(), peer);
        let (key, rx) = rows.last();
        match rx.purpose {
            Purpose::JoinSnapshot { joiner } if joiner != peer && key.peer == peer => before.push(
                joiner,
            ),
            _ => before,
        }
    }
}

pub open spec fn all_out_wf(s: Seq<(TransferKey, OutgoingView)>) -> bool {
    forall|i: int| 0 <= i < s.len() ==> (#[trigger] s[i]).1.wf()
}

pub open spec fn all_in_wf(s: Seq<(TransferKey, IncomingView)>) -> bool {
    forall|i: int| 0 <= i < s.len() ==> (#[trigger] s[i]).1.wf()
}

/// What comes of a chunk.
pub enum Received {
    Refused(PeerFault),
    More,
    Done { purpose: Purpose, data: Seq<u8> },
}

impl TransfersView {
    pub open spec fn none() -> TransfersView {
        TransfersView {
            next_request_id: 0,
            outgoing: Seq::empty(),
            incoming: Seq::empty(),
            granted: Seq::empty(),
        }
    }

    pub open spec fn wf(self) -> bool {
        &&& all_out_wf(self.outgoing)
        &&& all_in_wf(self.incoming)
        &&& table::distinct(self.outgoing)
        &&& table::distinct(self.incoming)
        &&& table::distinct(self.granted)
    }

    /// The next request number; after the largest the numbers begin anew.
    pub open spec fn next_id(self) -> u32 {
        if self.next_request_id == u32::MAX {
            0
        } else {
            (self.next_request_id + 1) as u32
        }
    }

    pub open spec fn allocated(self) -> TransfersView {
        TransfersView { next_request_id: self.next_id(), ..self }
    }

    pub open spec fn expecting(self, key: TransferKey, purpose: Purpose) -> TransfersView {
        TransfersView {
            incoming: table::with_row(
                self.incoming,
                key,
                IncomingView {
                    purpose,
                    declared: 0,
                    buf: Seq::empty(),
                    last_progress: None,
                },
            ),
            ..self
        }
    }

    /// A transfer of this data can begin. A client rejects a zero length and
    /// then hangs, so an empty payload is refused.
    pub open spec fn can_send(data: Seq<u8>) -> bool {
        0 < data.len() <= MAX_TRANSFER
    }

    pub open spec fn begun(data: Seq<u8>) -> OutgoingView {
        OutgoingView { data, offset: 0, in_flight: 0 }
    }

    pub open spec fn sending(self, key: TransferKey, data: Seq<u8>) -> TransfersView {
        TransfersView {
            outgoing: table::with_row(self.outgoing, key, Self::begun(data).pumped()),
            ..self
        }
    }

    /// An acknowledgement of an unknown transfer, of nothing or of more than
    /// is in flight is the peer's error and is dropped.
    pub open spec fn takes_ack(self, key: TransferKey, count: u32) -> bool {
        match table::lookup(self.outgoing, key) {
            Some(tx) => 0 < count <= tx.in_flight,
            None => false,
        }
    }

    /// The transfer with the acknowledged chunks out of flight.
    pub open spec fn freed(self, key: TransferKey, count: u32) -> OutgoingView {
        let tx = table::lookup(self.outgoing, key)->0;
        OutgoingView { in_flight: tx.in_flight - count, ..tx }
    }

    pub open spec fn acked(self, key: TransferKey, count: u32) -> TransfersView {
        if !self.takes_ack(key, count) {
            self
        } else if self.freed(key, count).done() {
            TransfersView { outgoing: table::without_row(self.outgoing, key), ..self }
        } else {
            TransfersView {
                outgoing: table::with_row(self.outgoing, key, self.freed(key, count).pumped()),
                ..self
            }
        }
    }

    /// What an acknowledgement lets go.
    pub open spec fn acked_pieces(self, key: TransferKey, count: u32) -> Seq<Seq<u8>> {
        if self.takes_ack(key, count) && !self.freed(key, count).done() {
            self.freed(key, count).pieces()
        } else {
            Seq::empty()
        }
    }

    pub open spec fn response_fault(self, key: TransferKey, length: u32) -> Option<PeerFault> {
        if !table::has_key(self.incoming, key) {
            Some(PeerFault::WrongPhase)
        } else if length == 0 || length > MAX_TRANSFER {
            Some(PeerFault::TransferOverrun)
        } else {
            None
        }
    }

    pub open spec fn declared(self, key: TransferKey, length: u32) -> TransfersView {
        if self.response_fault(key, length) is Some {
            self
        } else {
            TransfersView {
                incoming: table::with_row(
                    self.incoming,
                    key,
                    IncomingView {
                        purpose: (table::lookup(self.incoming, key)->0).purpose,
                        declared: length as int,
                        buf: Seq::empty(),
                        last_progress: None,
                    },
                ),
                ..self
            }
        }
    }

    /// What comes of a chunk: the payload once the total is exactly what was
    /// declared, and never more than that.
    pub open spec fn chunk_result(self, key: TransferKey, data: Seq<u8>) -> Received {
        match table::lookup(self.incoming, key) {
            None => Received::Refused(PeerFault::WrongPhase),
            Some(rx) => {
                let buf = rx.buf + data;
                if buf.len() > rx.declared {
                    Received::Refused(PeerFault::TransferOverrun)
                } else if buf.len() < rx.declared {
                    Received::More
                } else {
                    Received::Done { purpose: rx.purpose, data: buf }
                }
            },
        }
    }

    pub open spec fn chunked(self, key: TransferKey, data: Seq<u8>) -> TransfersView {
        match table::lookup(self.incoming, key) {
            None => self,
            Some(rx) => TransfersView {
                incoming: if self.chunk_result(key, data) is More {
                    table::with_row(
                        self.incoming,
                        key,
                        IncomingView { buf: rx.buf + data, last_progress: None, ..rx },
                    )
                } else {
                    table::without_row(self.incoming, key)
                },
                ..self
            },
        }
    }

    pub open spec fn stalled(self, now: Time, limit: i64) -> TransfersView {
        TransfersView {
            incoming: without_idle(self.incoming, now, clock::ms(limit)).0,
            ..self
        }
    }

    pub open spec fn granting(self, peer: PeerID, data: Seq<u8>) -> TransfersView {
        TransfersView { granted: table::with_row(self.granted, peer, data), ..self }
    }

    pub open spec fn grant_taken(self, peer: PeerID) -> TransfersView {
        TransfersView { granted: table::without_row(self.granted, peer), ..self }
    }

    pub open spec fn forgotten(self, peer: PeerID) -> TransfersView {
        TransfersView {
            outgoing: self.outgoing.filter(|row: (TransferKey, OutgoingView)| row.0.peer != peer),
            incoming: self.incoming.filter(
                |row: (TransferKey, IncomingView)| !ends_with(row, peer),
            ),
            granted: table::without_row(self.granted, peer),
            ..self
        }
    }
}

proof fn lemma_out_row(s: Seq<(TransferKey, OutgoingView)>, key: TransferKey, tx: OutgoingView)
    requires
        all_out_wf(s),
        table::distinct(s),
        tx.wf(),
    ensures
        table::distinct(table::with_row(s, key, tx)),
        table::distinct(table::without_row(s, key)),
        all_out_wf(table::with_row(s, key, tx)),
        all_out_wf(table::without_row(s, key)),
        table::lookup(s, key) matches Some(x) ==> x.wf(),
{
    table::lemma_with_row_distinct(s, key, tx);
    table::lemma_without_row_distinct(s, key);
    table::lemma_index_of(s, key);
    if let Some(k) = table::index_of(s, key) {
        let t = s.remove(k);
        assert forall|i: int| 0 <= i < t.len() implies (#[trigger] t[i]).1.wf() by {
            if i < k {
                assert(t[i] == s[i]);
            } else {
                assert(t[i] == s[i + 1]);
            }
        }
    }
}

proof fn lemma_in_row(s: Seq<(TransferKey, IncomingView)>, key: TransferKey, rx: IncomingView)
    requires
        all_in_wf(s),
        table::distinct(s),
        rx.wf(),
    ensures
        table::distinct(table::with_row(s, key, rx)),
        table::distinct(table::without_row(s, key)),
        all_in_wf(table::with_row(s, key, rx)),
        all_in_wf(table::without_row(s, key)),
        table::lookup(s, key) matches Some(x) ==> x.wf(),
{
    table::lemma_with_row_distinct(s, key, rx);
    table::lemma_without_row_distinct(s, key);
    table::lemma_index_of(s, key);
    if let Some(k) = table::index_of(s, key) {
        let t = s.remove(k);
        assert forall|i: int| 0 <= i < t.len() implies (#[trigger] t[i]).1.wf() by {
            if i < k {
                assert(t[i] == s[i]);
            } else {
                assert(t[i] == s[i + 1]);
            }
        }
    }
}

proof fn lemma_idle_distinct(
    rows: Seq<(TransferKey, IncomingView)>,
    now: Time,
    limit: int,
    other: TransferKey,
)
    requires
        table::distinct(rows),
    ensures
        table::distinct(without_idle(rows, now, limit).0),
        table::has_key(without_idle(rows, now, limit).0, other) ==> table::has_key(rows, other),
    decreases rows.len(),
{
    if rows.len() > 0 {
        let rest = rows.drop_last();
        let (key, rx) = rows.last();
        let next = idle(rx, now, limit).1;
        table::lemma_last_row(rows, other);
        lemma_idle_distinct(rest, now, limit, other);
        lemma_idle_distinct(rest, now, limit, key);
        let kept = without_idle(rest, now, limit).0;
        table::lemma_with_row_distinct(kept, key, next);
        table::lemma_with_row_lookup(kept, key, next, other);
    }
}

proof fn lemma_joined_add(a: Seq<Seq<u8>>, b: Seq<Seq<u8>>)
    ensures
        joined(a + b) == joined(a) + joined(b),
    decreases b.len(),
{
    if b.len() == 0 {
        assert(a + b =~= a);
        assert(joined(a) + joined(b) =~= joined(a));
    } else {
        lemma_joined_add(a, b.drop_last());
        assert((a + b).drop_last() =~= a + b.drop_last());
        assert(joined(a) + (joined(b.drop_last()) + b.last()) =~= (joined(a) + joined(
            b.drop_last(),
        )) + b.last());
    }
}

/// The chunks of a window are the data itself, from where the window began,
/// cut into pieces no larger than a chunk; and there are no more of them than
/// there was room for.
pub proof fn chunks_are_the_data(data: Seq<u8>, offset: int, room: int)
    requires
        0 <= offset <= data.len(),
        room >= 0,
    ensures
        offset <= offset_after(data.len() as int, offset, room) <= data.len(),
        joined(chunks_from(data, offset, room)) == data.subrange(
            offset,
            offset_after(data.len() as int, offset, room),
        ),
        chunks_from(data, offset, room).len() <= room,
        forall|i: int|
            0 <= i < chunks_from(data, offset, room).len() ==> 0 < (#[trigger] chunks_from(
                data,
                offset,
                room,
            )[i]).len() <= CHUNK_SIZE,
        forall|i: int|
            0 <= i < chunks_from(data, offset, room).len() && (i + 1 < chunks_from(
                data,
                offset,
                room,
            ).len() || offset_after(data.len() as int, offset, room) < data.len()) ==> (
            #[trigger] chunks_from(data, offset, room)[i]).len() == CHUNK_SIZE,
        room > 0 && offset < data.len() ==> chunks_from(data, offset, room).len() > 0,
        chunks_from(data, offset, room).len() < room ==> offset_after(
            data.len() as int,
            offset,
            room,
        ) == data.len(),
    decreases room,
{
    let after = offset_after(data.len() as int, offset, room);
    if room <= 0 || offset >= data.len() {
        assert(data.subrange(offset, after) =~= Seq::empty());
    } else {
        let end = chunk_end(data.len() as int, offset);
        chunks_are_the_data(data, end, room - 1);
        let first = seq![data.subrange(offset, end)];
        let rest = chunks_from(data, end, room - 1);
        lemma_joined_add(first, rest);
        assert(first.drop_last() =~= Seq::empty());
        assert(joined(first) =~= data.subrange(offset, end)) by {
            assert(joined(first.drop_last()) =~= Seq::empty());
        }
        assert(data.subrange(offset, end) + data.subrange(end, after) =~= data.subrange(
            offset,
            after,
        ));
        assert forall|i: int| 0 <= i < (first + rest).len() implies 0 < (#[trigger] (first
            + rest)[i]).len() <= CHUNK_SIZE by {
            if i > 0 {
                assert((first + rest)[i] == rest[i - 1]);
            }
        }
        assert forall|i: int|
            0 <= i < (first + rest).len() && (i + 1 < (first + rest).len() || after
                < data.len()) implies (#[trigger] (first + rest)[i]).len() == CHUNK_SIZE by {
            if i > 0 {
                assert((first + rest)[i] == rest[i - 1]);
            }
        }
    }
}

proof fn lemma_pumped_wf(tx: OutgoingView)
    requires
        tx.wf(),
    ensures
        tx.pumped().wf(),
{
    chunks_are_the_data(tx.data, tx.offset, tx.room());
}

impl Outgoing {
    /// Fills the window with whatever is left to send.
    fn pump(&mut self, request_id: u32) -> (r: Vec<GamestateChunk>)
        requires
            old(self)@.wf(),
        ensures
            final(self)@ == old(self)@.pumped(),
            items::views(r@) == carried(request_id, old(self)@.pieces()),
            final(self)@.wf(),
    {
        let ghost tx = self@;
        let ghost data = self@.data;
        let size: usize = self.data.len();
        let mut chunks: Vec<GamestateChunk> = Vec::new();
        let ghost mut sent: Seq<Seq<u8>> = Seq::empty();
        proof {
            lemma_pumped_wf(tx);
            assert(items::views(chunks@) =~= carried(request_id, sent));
            assert(sent + chunks_from(data, tx.offset, tx.room()) =~= tx.pieces());
        }
        while self.in_flight < WINDOW && self.offset < size
            invariant
                tx == old(self)@,
                data == tx.data,
                self.data@ == data,
                size == data.len(),
                self@.wf(),
                self.in_flight == tx.in_flight + sent.len(),
                items::views(chunks@) == carried(request_id, sent),
                tx.pieces() == sent + chunks_from(data, self.offset as int, self@.room()),
                tx.pumped().offset == offset_after(size as int, self.offset as int, self@.room()),
            decreases WINDOW - self.in_flight,
        {
            let ghost offset = self.offset as int;
            let ghost room = self@.room();
            let ghost so_far = items::views(chunks@);
            let end: usize = if size - self.offset > CHUNK_SIZE {
                self.offset + CHUNK_SIZE
            } else {
                size
            };
            let piece = vstd::slice::slice_to_vec(
                vstd::slice::slice_subrange(self.data.as_slice(), self.offset, end),
            );
            assert(piece@ =~= data.subrange(offset, end as int));
            let chunk = GamestateChunk { request_id, data: piece };
            let ghost c = chunk@;
            chunks.push(chunk);
            self.offset = end;
            self.in_flight = self.in_flight + 1;
            proof {
                let first = seq![data.subrange(offset, end as int)];
                let rest = chunks_from(data, end as int, room - 1);
                assert(chunks_from(data, offset, room) == first + rest);
                assert(sent + (first + rest) =~= (sent + first) + rest);
                assert(carried(request_id, sent + first) =~= so_far.push(c));
                sent = sent + first;
                assert(items::views(chunks@) =~= so_far.push(c));
                assert(items::views(chunks@) =~= carried(request_id, sent));
            }
        }
        proof {
            assert(chunks_from(data, self.offset as int, self@.room()) =~= Seq::empty());
            assert(tx.pieces() =~= sent);
        }
        chunks
    }
}

impl Transfers {
    pub open spec fn wf(self) -> bool {
        self@.wf()
    }

    pub fn new() -> (r: Self)
        ensures
            r@ == TransfersView::none(),
            r.wf(),
    {
        Transfers {
            next_request_id: 0,
            outgoing: Table::new(),
            incoming: Table::new(),
            granted: Table::new(),
        }
    }

    pub fn allocate(&mut self) -> (r: u32)
        requires
            old(self).wf(),
        ensures
            r == old(self)@.next_id(),
            final(self)@ == old(self)@.allocated(),
            final(self).wf(),
    {
        self.next_request_id = if self.next_request_id == u32::MAX {
            0
        } else {
            self.next_request_id + 1
        };
        self.next_request_id
    }

    pub fn expect(&mut self, peer: PeerID, request_id: u32, purpose: Purpose)
        requires
            old(self).wf(),
        ensures
            final(self)@ == old(self)@.expecting(TransferKey { peer, request_id }, purpose),
            final(self).wf(),
    {
        let key = TransferKey { peer, request_id };
        let rx = Incoming { purpose, declared: 0, buf: Vec::new(), last_progress: None };
        proof {
            lemma_in_row(self.incoming@, key, rx@);
        }
        self.incoming.put(key, rx);
    }

    pub fn purpose(&self, peer: PeerID, request_id: u32) -> (r: Option<Purpose>)
        ensures
            r == match table::lookup(self@.incoming, TransferKey { peer, request_id }) {
                Some(rx) => Some(rx.purpose),
                None => None,
            },
    {
        match self.incoming.get(&TransferKey { peer, request_id }) {
            Some(rx) => Some(rx.purpose),
            None => None,
        }
    }

    /// A source may take as long as it likes overall, but not sit idle: nothing
    /// on the wire would ever tell the joiner it was abandoned. Returns the
    /// join snapshots dropped here.
    pub fn stalled(&mut self, now: Time, limit: i64) -> (r: Vec<Stall>)
        requires
            old(self).wf(),
        ensures
            final(self)@ == old(self)@.stalled(now, limit),
            r@ == without_idle(old(self)@.incoming, now, clock::ms(limit)).1,
            final(self).wf(),
    {
        let ghost all = self.incoming@;
        let ghost span = clock::ms(limit);
        let mut kept: Table<TransferKey, Incoming> = Table::new();
        let mut dropped: Vec<Stall> = Vec::new();
        let mut i: usize = 0;
        assert(all.take(0) =~= Seq::empty());
        while i < self.incoming.rows.len()
            invariant
                self == old(self),
                all == self.incoming@,
                span == clock::ms(limit),
                i <= self.incoming.rows@.len(),
                kept@ == without_idle(all.take(i as int), now, span).0,
                dropped@ == without_idle(all.take(i as int), now, span).1,
                all_in_wf(all),
                all_in_wf(kept@),
            decreases self.incoming.rows@.len() - i,
        {
            let ghost so_far = kept@;
            let key = self.incoming.rows[i].0;
            let rx = &self.incoming.rows[i].1;
            proof {
                assert(all[i as int] == table::row_view(self.incoming.rows@[i as int]));
                assert(all.take(i + 1).drop_last() =~= all.take(i as int));
                assert(all.take(i + 1).last() == all[i as int]);
                assert(all[i as int].1.wf());
            }
            let mut last_progress = rx.last_progress;
            let mut over = false;
            if let Purpose::JoinSnapshot { joiner } = rx.purpose {
                let (is_over, since) = clock::wait_over(rx.last_progress, now, limit);
                last_progress = Some(since);
                over = is_over;
                if over {
                    dropped.push(Stall { source: key.peer, joiner });
                }
            }
            if !over {
                let same = Incoming {
                    purpose: rx.purpose,
                    declared: rx.declared,
                    buf: vstd::slice::slice_to_vec(rx.buf.as_slice()),
                    last_progress,
                };
                let ghost v = same@;
                kept.rows.push((key, same));
                assert(kept@ =~= so_far.push((key, v)));
            }
            i += 1;
        }
        assert(all.take(i as int) =~= all);
        proof {
            lemma_idle_distinct(all, now, span, TransferKey { peer: PeerID(0), request_id: 0 });
        }
        self.incoming = kept;
        dropped
    }

    pub fn grant(&mut self, peer: PeerID, data: Arc<Vec<u8>>)
        requires
            old(self).wf(),
        ensures
            final(self)@ == old(self)@.granting(peer, data@),
            final(self).wf(),
    {
        proof {
            table::lemma_with_row_distinct(self.granted@, peer, data@);
        }
        self.granted.put(peer, Grant { data });
    }

    pub fn take_grant(&mut self, peer: PeerID) -> (r: Option<Arc<Vec<u8>>>)
        requires
            old(self).wf(),
        ensures
            final(self).wf(),
            final(self)@ == old(self)@.grant_taken(peer),
            match r {
                Some(data) => table::lookup(old(self)@.granted, peer) == Some(data@),
                None => table::lookup(old(self)@.granted, peer) is None,
            },
    {
        proof {
            table::lemma_without_row_distinct(self.granted@, peer);
        }
        match self.granted.take(&peer) {
            Some(g) => Some(g.data),
            None => None,
        }
    }

    /// Returns the length and the chunks that fit the window straight away.
    pub fn begin_send(&mut self, peer: PeerID, request_id: u32, data: Arc<Vec<u8>>) -> (r: Option<
        (u32, Vec<GamestateChunk>),
    >)
        requires
            old(self).wf(),
        ensures
            match r {
                Some((length, chunks)) => {
                    &&& TransfersView::can_send(data@)
                    &&& length == data@.len()
                    &&& items::views(chunks@) == carried(
                        request_id,
                        TransfersView::begun(data@).pieces(),
                    )
                    &&& final(self)@ == old(self)@.sending(
                        TransferKey { peer, request_id },
                        data@,
                    )
                },
                None => !TransfersView::can_send(data@) && final(self)@ == old(self)@,
            },
            final(self).wf(),
    {
        let size: usize = data.len();
        if size == 0 || size > MAX_TRANSFER as usize {
            return None;
        }
        let key = TransferKey { peer, request_id };
        let mut tx = Outgoing { data, offset: 0, in_flight: 0 };
        let chunks = tx.pump(request_id);
        proof {
            lemma_out_row(self.outgoing@, key, tx@);
        }
        self.outgoing.put(key, tx);
        Some((size as u32, chunks))
    }

    /// Returns the chunks an acknowledgement lets go.
    pub fn on_ack(&mut self, peer: PeerID, request_id: u32, count: u32) -> (r: Vec<GamestateChunk>)
        requires
            old(self).wf(),
        ensures
            final(self)@ == old(self)@.acked(TransferKey { peer, request_id }, count),
            items::views(r@) == carried(
                request_id,
                old(self)@.acked_pieces(TransferKey { peer, request_id }, count),
            ),
            final(self).wf(),
    {
        let key = TransferKey { peer, request_id };
        let empty: Vec<GamestateChunk> = Vec::new();
        assert(items::views(empty@) =~= carried(request_id, Seq::empty()));
        let (data, offset, in_flight) = match self.outgoing.get(&key) {
            Some(tx) => (tx.data.clone(), tx.offset, tx.in_flight),
            None => return empty,
        };
        if count == 0 || count > in_flight {
            return empty;
        }
        let size: usize = data.len();
        let left: u32 = in_flight - count;
        let mut tx = Outgoing { data, offset, in_flight: left };
        proof {
            lemma_out_row(self.outgoing@, key, TransfersView::begun(Seq::empty()));
            assert(tx@ == self@.freed(key, count));
        }
        if offset >= size && left == 0 {
            let _ = self.outgoing.take(&key);
            return empty;
        }
        let chunks = tx.pump(request_id);
        proof {
            lemma_out_row(self.outgoing@, key, tx@);
        }
        self.outgoing.put(key, tx);
        chunks
    }

    pub fn on_response(&mut self, peer: PeerID, request_id: u32, length: u32) -> (r: Result<
        (),
        PeerFault,
    >)
        requires
            old(self).wf(),
        ensures
            match r {
                Ok(_) => old(self)@.response_fault(TransferKey { peer, request_id }, length)
                    is None,
                Err(e) => old(self)@.response_fault(TransferKey { peer, request_id }, length)
                    == Some(e),
            },
            final(self)@ == old(self)@.declared(TransferKey { peer, request_id }, length),
            final(self).wf(),
    {
        let key = TransferKey { peer, request_id };
        let purpose = match self.incoming.get(&key) {
            Some(rx) => rx.purpose,
            None => return Err(PeerFault::WrongPhase),
        };
        if length == 0 || length > MAX_TRANSFER {
            return Err(PeerFault::TransferOverrun);
        }
        let rx = Incoming {
            purpose,
            declared: length as usize,
            buf: Vec::new(),
            last_progress: None,
        };
        proof {
            lemma_in_row(self.incoming@, key, rx@);
        }
        self.incoming.put(key, rx);
        Ok(())
    }

    pub fn knows_incoming(&self, peer: PeerID, request_id: u32) -> (r: bool)
        ensures
            r == table::has_key(self@.incoming, TransferKey { peer, request_id }),
    {
        self.incoming.has(&TransferKey { peer, request_id })
    }

    /// Returns the finished payload and why it was requested, once the total
    /// is exactly what was declared.
    pub fn on_chunk(&mut self, peer: PeerID, request_id: u32, data: &[u8]) -> (r: Result<
        Option<(Purpose, Vec<u8>)>,
        PeerFault,
    >)
        requires
            old(self).wf(),
        ensures
            match r {
                Err(e) => old(self)@.chunk_result(TransferKey { peer, request_id }, data@)
                    == Received::Refused(e),
                Ok(None) => old(self)@.chunk_result(TransferKey { peer, request_id }, data@)
                    is More,
                Ok(Some((purpose, bytes))) => old(self)@.chunk_result(
                    TransferKey { peer, request_id },
                    data@,
                ) == (Received::Done { purpose, data: bytes@ }),
            },
            final(self)@ == old(self)@.chunked(TransferKey { peer, request_id }, data@),
            final(self).wf(),
    {
        let key = TransferKey { peer, request_id };
        proof {
            table::lemma_index_of(self.incoming@, key);
            lemma_in_row(
                self.incoming@,
                key,
                IncomingView {
                    purpose: Purpose::Savegame,
                    declared: 0,
                    buf: Seq::empty(),
                    last_progress: None,
                },
            );
        }
        let mut rx = match self.incoming.position(&key) {
            Some(i) => {
                let row = &self.incoming.rows[i].1;
                assert(self.incoming@[i as int] == table::row_view(self.incoming.rows@[i as int]));
                Incoming {
                    purpose: row.purpose,
                    declared: row.declared,
                    buf: vstd::slice::slice_to_vec(row.buf.as_slice()),
                    last_progress: None,
                }
            },
            None => return Err(PeerFault::WrongPhase),
        };
        utils::put_bytes(&mut rx.buf, data);
        if rx.buf.len() > rx.declared {
            let _ = self.incoming.take(&key);
            return Err(PeerFault::TransferOverrun);
        }
        if rx.buf.len() < rx.declared {
            proof {
                lemma_in_row(self.incoming@, key, rx@);
            }
            self.incoming.put(key, rx);
            return Ok(None);
        }
        let _ = self.incoming.take(&key);
        Ok(Some((rx.purpose, rx.buf)))
    }

    /// A departing peer takes both directions of its transfers, and any
    /// download it was granted, with it. A snapshot fetched for it is dropped
    /// too, or a later peer handed the same number would be served it. Returns
    /// the joiners whose snapshot this peer was sending, so they can be served
    /// by another.
    pub fn forget(&mut self, peer: PeerID) -> (r: Vec<PeerID>)
        requires
            old(self).wf(),
        ensures
            final(self)@ == old(self)@.forgotten(peer),
            r@ == orphans(old(self)@.incoming, peer),
            final(self).wf(),
    {
        self.forget_outgoing(peer);
        let orphaned = self.forget_incoming(peer);
        proof {
            table::lemma_without_row_distinct(self.granted@, peer);
        }
        let _ = self.granted.take(&peer);
        orphaned
    }

    fn forget_outgoing(&mut self, peer: PeerID)
        requires
            old(self).wf(),
        ensures
            final(self)@ == (TransfersView {
                outgoing: old(self)@.outgoing.filter(
                    |row: (TransferKey, OutgoingView)| row.0.peer != peer,
                ),
                ..old(self)@
            }),
            final(self).wf(),
    {
        let ghost all = self.outgoing@;
        let ghost others = |row: (TransferKey, OutgoingView)| row.0.peer != peer;
        let mut kept: Table<TransferKey, Outgoing> = Table::new();
        let mut i: usize = 0;
        proof {
            utils::lemma_filter_ends(all, others);
        }
        while i < self.outgoing.rows.len()
            invariant
                self == old(self),
                all == self.outgoing@,
                others == (|row: (TransferKey, OutgoingView)| row.0.peer != peer),
                i <= self.outgoing.rows@.len(),
                kept@ == all.take(i as int).filter(others),
                all_out_wf(all),
                all_out_wf(kept@),
            decreases self.outgoing.rows@.len() - i,
        {
            let ghost so_far = kept@;
            let key = self.outgoing.rows[i].0;
            let tx = &self.outgoing.rows[i].1;
            proof {
                utils::lemma_filter_step(all, i as int, others);
                assert(all[i as int] == table::row_view(self.outgoing.rows@[i as int]));
                assert(all[i as int].1.wf());
            }
            if key.peer.0 != peer.0 {
                let same = Outgoing {
                    data: tx.data.clone(),
                    offset: tx.offset,
                    in_flight: tx.in_flight,
                };
                let ghost v = same@;
                kept.rows.push((key, same));
                assert(kept@ =~= so_far.push((key, v)));
            }
            i += 1;
        }
        proof {
            table::lemma_filter_distinct(all, others, TransferKey { peer, request_id: 0 });
        }
        self.outgoing = kept;
    }

    fn forget_incoming(&mut self, peer: PeerID) -> (r: Vec<PeerID>)
        requires
            old(self).wf(),
        ensures
            final(self)@ == (TransfersView {
                incoming: old(self)@.incoming.filter(
                    |row: (TransferKey, IncomingView)| !ends_with(row, peer),
                ),
                ..old(self)@
            }),
            r@ == orphans(old(self)@.incoming, peer),
            final(self).wf(),
    {
        let ghost all = self.incoming@;
        let ghost others = |row: (TransferKey, IncomingView)| !ends_with(row, peer);
        let mut kept: Table<TransferKey, Incoming> = Table::new();
        let mut orphaned: Vec<PeerID> = Vec::new();
        let mut i: usize = 0;
        proof {
            utils::lemma_filter_ends(all, others);
            assert(all.take(0) =~= Seq::empty());
        }
        while i < self.incoming.rows.len()
            invariant
                self == old(self),
                all == self.incoming@,
                others == (|row: (TransferKey, IncomingView)| !ends_with(row, peer)),
                i <= self.incoming.rows@.len(),
                kept@ == all.take(i as int).filter(others),
                orphaned@ == orphans(all.take(i as int), peer),
                all_in_wf(all),
                all_in_wf(kept@),
            decreases self.incoming.rows@.len() - i,
        {
            let ghost so_far = kept@;
            let key = self.incoming.rows[i].0;
            let rx = &self.incoming.rows[i].1;
            proof {
                utils::lemma_filter_step(all, i as int, others);
                assert(all.take(i + 1).drop_last() =~= all.take(i as int));
                assert(all.take(i + 1).last() == all[i as int]);
                assert(all[i as int] == table::row_view(self.incoming.rows@[i as int]));
                assert(all[i as int].1.wf());
            }
            let from_peer = key.peer.0 == peer.0;
            let mut for_peer = false;
            if let Purpose::JoinSnapshot { joiner } = rx.purpose {
                for_peer = joiner.0 == peer.0;
                if from_peer && !for_peer {
                    orphaned.push(joiner);
                }
            }
            if !from_peer && !for_peer {
                let same = Incoming {
                    purpose: rx.purpose,
                    declared: rx.declared,
                    buf: vstd::slice::slice_to_vec(rx.buf.as_slice()),
                    last_progress: rx.last_progress,
                };
                let ghost v = same@;
                kept.rows.push((key, same));
                assert(kept@ =~= so_far.push((key, v)));
            }
            i += 1;
        }
        assert(all.take(i as int) =~= all);
        proof {
            table::lemma_filter_distinct(all, others, TransferKey { peer, request_id: 0 });
        }
        self.incoming = kept;
        orphaned
    }
}

impl Default for Transfers {
    fn default() -> (r: Self)
        ensures
            r@ == TransfersView::none(),
            r.wf(),
    {
        Transfers::new()
    }
}

/// Chunks taken in one after another.
pub open spec fn fed(t: TransfersView, key: TransferKey, pieces: Seq<Seq<u8>>) -> TransfersView
    decreases pieces.len(),
{
    if pieces.len() == 0 {
        t
    } else {
        fed(t, key, pieces.drop_last()).chunked(key, pieces.last())
    }
}

proof fn lemma_fed(
    t: TransfersView,
    key: TransferKey,
    rx: IncomingView,
    pieces: Seq<Seq<u8>>,
    rest: Seq<u8>,
)
    requires
        table::lookup(t.incoming, key) == Some(rx),
        rx.buf.len() == 0,
        rest.len() > 0,
        rx.declared == joined(pieces).len() + rest.len(),
    ensures
        table::lookup(fed(t, key, pieces).incoming, key) matches Some(got) && got.buf == joined(
            pieces,
        ) && got.declared == rx.declared && got.purpose == rx.purpose,
    decreases pieces.len(),
{
    if pieces.len() == 0 {
        assert(rx.buf =~= joined(pieces));
    } else {
        let before = fed(t, key, pieces.drop_last());
        lemma_fed(t, key, rx, pieces.drop_last(), pieces.last() + rest);
        let got = table::lookup(before.incoming, key)->0;
        let next = IncomingView {
            buf: got.buf + pieces.last(),
            last_progress: None,
            ..got
        };
        table::lemma_with_row_lookup(before.incoming, key, next, key);
    }
}

proof fn lemma_fed_distinct(t: TransfersView, key: TransferKey, pieces: Seq<Seq<u8>>)
    requires
        table::distinct(t.incoming),
    ensures
        table::distinct(fed(t, key, pieces).incoming),
    decreases pieces.len(),
{
    if pieces.len() > 0 {
        let before = fed(t, key, pieces.drop_last());
        lemma_fed_distinct(t, key, pieces.drop_last());
        if let Some(rx) = table::lookup(before.incoming, key) {
            let next = IncomingView { buf: rx.buf + pieces.last(), last_progress: None, ..rx };
            table::lemma_with_row_distinct(before.incoming, key, next);
            table::lemma_without_row_distinct(before.incoming, key);
        }
    }
}

impl TransfersView {
    /// What is sent arrives: a requester that is told the length and fed the
    /// pieces of a payload in order has exactly that payload when the last
    /// piece is in, and not before.
    pub proof fn what_is_sent_arrives(
        self,
        key: TransferKey,
        pieces: Seq<Seq<u8>>,
        length: u32,
    )
        requires
            table::has_key(self.incoming, key),
            pieces.len() > 0,
            forall|i: int| 0 <= i < pieces.len() ==> (#[trigger] pieces[i]).len() > 0,
            joined(pieces).len() == length,
            0 < length <= MAX_TRANSFER,
        ensures
            ({
                let told = self.declared(key, length);
                let purpose = (table::lookup(self.incoming, key)->0).purpose;
                &&& self.response_fault(key, length) is None
                &&& fed(told, key, pieces.drop_last()).chunk_result(key, pieces.last())
                    == (Received::Done { purpose, data: joined(pieces) })
                &&& forall|k: int|
                    0 <= k < pieces.len() - 1 ==> #[trigger] fed(told, key, pieces.take(
                        k,
                    )).chunk_result(key, pieces[k]) is More
            }),
    {
        let told = self.declared(key, length);
        let rx = IncomingView {
            purpose: (table::lookup(self.incoming, key)->0).purpose,
            declared: length as int,
            buf: Seq::empty(),
            last_progress: None,
        };
        table::lemma_with_row_lookup(self.incoming, key, rx, key);
        assert(pieces.last().len() > 0);
        lemma_fed(told, key, rx, pieces.drop_last(), pieces.last());
        assert forall|k: int| 0 <= k < pieces.len() - 1 implies #[trigger] fed(
            told,
            key,
            pieces.take(k),
        ).chunk_result(key, pieces[k]) is More by {
            let rest = pieces.skip(k);
            assert(pieces =~= pieces.take(k) + rest);
            lemma_joined_add(pieces.take(k), rest);
            let first = seq![pieces[k]];
            let tail = pieces.skip(k + 1);
            assert(rest =~= first + tail);
            lemma_joined_add(first, tail);
            assert(joined(first.drop_last()) =~= Seq::empty());
            assert(joined(first) =~= pieces[k]);
            assert(tail.last() == pieces.last());
            assert(joined(tail).len() >= tail.last().len());
            lemma_fed(told, key, rx, pieces.take(k), joined(rest));
        }
    }

    /// Acknowledgements taken one after another.
    pub open spec fn after_acks(self, key: TransferKey, counts: Seq<u32>) -> TransfersView
        decreases counts.len(),
    {
        if counts.len() == 0 {
            self
        } else {
            self.after_acks(key, counts.drop_last()).acked(key, counts.last())
        }
    }

    /// Everything that they let go, in order.
    pub open spec fn let_go(self, key: TransferKey, counts: Seq<u32>) -> Seq<Seq<u8>>
        decreases counts.len(),
    {
        if counts.len() == 0 {
            Seq::empty()
        } else {
            self.let_go(key, counts.drop_last()) + self.after_acks(
                key,
                counts.drop_last(),
            ).acked_pieces(key, counts.last())
        }
    }

    /// How many chunks they acknowledged.
    pub open spec fn acknowledged(self, key: TransferKey, counts: Seq<u32>) -> int
        decreases counts.len(),
    {
        if counts.len() == 0 {
            0
        } else {
            self.acknowledged(key, counts.drop_last()) + if self.after_acks(
                key,
                counts.drop_last(),
            ).takes_ack(key, counts.last()) {
                counts.last() as int
            } else {
                0
            }
        }
    }

    /// An acknowledgement of nothing, of more than is in flight or of a
    /// transfer that is not under way draws no chunk and changes nothing.
    pub proof fn bad_acks_change_nothing(self, key: TransferKey, count: u32)
        requires
            match table::lookup(self.outgoing, key) {
                Some(tx) => count == 0 || count > tx.in_flight,
                None => true,
            },
        ensures
            self.acked(key, count) == self,
            self.acked_pieces(key, count) == Seq::<Seq<u8>>::empty(),
    {
    }

    /// Acknowledgements draw out the data: the chunks sent so far, joined in
    /// order, are the data up to where the transfer stands, and all of it once
    /// none is unacknowledged. Every chunk but the last of the data is full,
    /// the last is not empty, and the window is never exceeded.
    pub proof fn acks_draw_out_the_data(
        self,
        key: TransferKey,
        data: Seq<u8>,
        counts: Seq<u32>,
    )
        requires
            self.wf(),
            Self::can_send(data),
        ensures
            ({
                let sent = self.sending(key, data);
                let now = sent.after_acks(key, counts);
                let out = Self::begun(data).pieces() + sent.let_go(key, counts);
                let unacked = out.len() - sent.acknowledged(key, counts);
                &&& now.wf()
                &&& 0 <= unacked <= WINDOW
                &&& match table::lookup(now.outgoing, key) {
                    Some(tx) => {
                        &&& unacked > 0
                        &&& tx.data == data
                        &&& tx.in_flight == unacked
                        &&& joined(out) == data.take(tx.offset)
                        &&& unacked < WINDOW ==> tx.offset == data.len()
                    },
                    None => unacked == 0 && joined(out) == data,
                }
                &&& forall|i: int|
                    0 <= i < out.len() ==> 0 < (#[trigger] out[i]).len() <= CHUNK_SIZE
                &&& forall|i: int|
                    0 <= i < out.len() && (i + 1 < out.len() || joined(out).len() < data.len())
                        ==> (#[trigger] out[i]).len() == CHUNK_SIZE
                &&& forall|i: int|
                    0 <= i < out.len() ==> #[trigger] carried(key.request_id, out)[i] == (
                    GamestateChunkView { request_id: key.request_id, data: out[i] })
            }),
        decreases counts.len(),
    {
        let sent = self.sending(key, data);
        let first = Self::begun(data).pieces();
        let begun = Self::begun(data).pumped();
        chunks_are_the_data(data, 0, WINDOW as int);
        if counts.len() == 0 {
            assert(first + sent.let_go(key, counts) =~= first);
            lemma_out_row(self.outgoing, key, begun);
            table::lemma_with_row_lookup(self.outgoing, key, begun, key);
            assert(data.subrange(0, begun.offset) =~= data.take(begun.offset));
        } else {
            let before = counts.drop_last();
            let count = counts.last();
            self.acks_draw_out_the_data(key, data, before);
            let was = sent.after_acks(key, before);
            let had = first + sent.let_go(key, before);
            let new = was.acked_pieces(key, count);
            let out = first + sent.let_go(key, counts);
            assert(out =~= had + new);
            if was.takes_ack(key, count) {
                let tx = table::lookup(was.outgoing, key)->0;
                let freed = was.freed(key, count);
                lemma_out_row(was.outgoing, key, Self::begun(Seq::empty()));
                if freed.done() {
                    table::lemma_without_row_distinct(was.outgoing, key);
                    assert(out =~= had);
                    assert(data.take(tx.offset) =~= data);
                } else {
                    let next = freed.pumped();
                    lemma_pumped_wf(freed);
                    chunks_are_the_data(data, freed.offset, freed.room());
                    lemma_out_row(was.outgoing, key, next);
                    table::lemma_with_row_lookup(was.outgoing, key, next, key);
                    lemma_joined_add(had, new);
                    assert(data.take(tx.offset) + data.subrange(tx.offset, next.offset)
                        =~= data.take(next.offset));
                    assert forall|i: int| 0 <= i < out.len() implies 0 < (#[trigger] out[i]).len()
                        <= CHUNK_SIZE by {
                        if i < had.len() {
                            assert(out[i] == had[i]);
                        } else {
                            assert(out[i] == new[i - had.len()]);
                        }
                    }
                    assert forall|i: int|
                        0 <= i < out.len() && (i + 1 < out.len() || joined(out).len()
                            < data.len()) implies (#[trigger] out[i]).len() == CHUNK_SIZE by {
                        if i < had.len() {
                            assert(out[i] == had[i]);
                        } else {
                            assert(out[i] == new[i - had.len()]);
                        }
                    }
                }
            } else {
                assert(out =~= had);
            }
        }
    }

    /// What comes of a chunk rests on the total alone, however the bytes were
    /// cut: below the declared length the transfer goes on, at it the bytes
    /// come out in order with the purpose they were asked for, and above it
    /// they are refused. After either of the last two the transfer is unknown
    /// and takes no chunk.
    pub proof fn totals_decide(
        self,
        key: TransferKey,
        purpose: Purpose,
        length: u32,
        pieces: Seq<Seq<u8>>,
        last: Seq<u8>,
        more: Seq<u8>,
    )
        requires
            self.wf(),
            0 < length <= MAX_TRANSFER,
            joined(pieces).len() < length,
        ensures
            ({
                let asked = self.expecting(key, purpose);
                let before = fed(asked.declared(key, length), key, pieces);
                let after = before.chunked(key, last);
                let all = joined(pieces) + last;
                &&& asked.response_fault(key, length) is None
                &&& all.len() < length ==> before.chunk_result(key, last) is More
                    && table::has_key(after.incoming, key)
                &&& all.len() == length ==> before.chunk_result(key, last) == (Received::Done {
                    purpose,
                    data: all,
                })
                &&& all.len() > length ==> before.chunk_result(key, last) == Received::Refused(
                    PeerFault::TransferOverrun,
                )
                &&& all.len() >= length ==> !table::has_key(after.incoming, key)
                    && after.chunk_result(key, more) == Received::Refused(PeerFault::WrongPhase)
            }),
    {
        let asked = self.expecting(key, purpose);
        let fresh = IncomingView {
            purpose,
            declared: 0,
            buf: Seq::empty(),
            last_progress: None,
        };
        let rx = IncomingView { declared: length as int, ..fresh };
        table::lemma_with_row_lookup(self.incoming, key, fresh, key);
        table::lemma_with_row_lookup(asked.incoming, key, rx, key);
        table::lemma_with_row_distinct(self.incoming, key, fresh);
        table::lemma_with_row_distinct(asked.incoming, key, rx);
        let told = asked.declared(key, length);
        let rest = Seq::new((length - joined(pieces).len()) as nat, |i: int| 0u8);
        lemma_fed(told, key, rx, pieces, rest);
        lemma_fed_distinct(told, key, pieces);
        let before = fed(told, key, pieces);
        let got = table::lookup(before.incoming, key)->0;
        table::lemma_without_row_distinct(before.incoming, key);
        table::lemma_with_row_lookup(
            before.incoming,
            key,
            IncomingView { buf: got.buf + last, last_progress: None, ..got },
            key,
        );
    }

    /// A granted snapshot is downloaded once: after it was taken, or its peer
    /// has gone, there is nothing to take.
    pub proof fn grants_are_used_once(self, peer: PeerID, data: Seq<u8>)
        requires
            self.wf(),
        ensures
            table::lookup(self.granting(peer, data).granted, peer) == Some(data),
            table::lookup(self.grant_taken(peer).granted, peer) is None,
            table::lookup(self.forgotten(peer).granted, peer) is None,
    {
        table::lemma_with_row_lookup(self.granted, peer, data, peer);
        table::lemma_without_row_distinct(self.granted, peer);
    }

    /// A peer that has gone sends nothing and is sent nothing, and nothing is
    /// fetched for it.
    pub proof fn departures_leave_nothing(self, peer: PeerID)
        ensures
            forall|i: int|
                0 <= i < self.forgotten(peer).outgoing.len() ==> (#[trigger] self.forgotten(
                    peer,
                ).outgoing[i]).0.peer != peer,
            forall|i: int|
                0 <= i < self.forgotten(peer).incoming.len() ==> !ends_with(
                    #[trigger] self.forgotten(peer).incoming[i],
                    peer,
                ),
    {
        let others = |row: (TransferKey, OutgoingView)| row.0.peer != peer;
        assert forall|i: int| 0 <= i < self.forgotten(peer).outgoing.len() implies (
        #[trigger] self.forgotten(peer).outgoing[i]).0.peer != peer by {
            assert(others(self.outgoing.filter(others)[i]));
        }
        let lasting = |row: (TransferKey, IncomingView)| !ends_with(row, peer);
        assert forall|i: int| 0 <= i < self.forgotten(peer).incoming.len() implies !ends_with(
            #[trigger] self.forgotten(peer).incoming[i],
            peer,
        ) by {
            assert(lasting(self.incoming.filter(lasting)[i]));
        }
    }
}

} // verus!
