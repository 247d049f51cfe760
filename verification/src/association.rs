//! What an SCTP association has sent and not yet seen acknowledged, and scenarios of it for
//! studying loss recovery.
//!
//! Times are milliseconds on a clock that the caller reads.

use std::collections::HashMap;
use vstd::prelude::*;

verus! {

broadcast use vstd::std_specs::hash::group_hash_axioms;

/// How much one message may hold where nothing else is configured.
pub const DEFAULT_MAX_MESSAGE_SIZE: u32 = 65536;

/// How long before the present the send times of a scenario begin.
pub const EPOCH_AGE: u64 = 1000;

/// A DATA chunk and what is known of its transmissions.
#[derive(Debug)]
pub struct ChunkPayloadData {
    pub beginning_fragment: bool,
    pub ending_fragment: bool,
    pub tsn: u32,
    pub stream_identifier: u16,
    pub stream_sequence_number: u16,
    pub user_data: Vec<u8>,
    /// How often the chunk was sent.
    pub nsent: u32,
    /// How many acknowledgements count as evidence that the latest transmission is lost.
    pub miss_indicator: u32,
    /// The chunk is marked for retransmission.
    pub retransmit: bool,
    /// The latest transmission's place in the order of all transmissions.
    pub sent_seq: u64,
    /// The latest transmission's time.
    pub sent_at: u128,
}

/// A [`ChunkPayloadData`] with its data as a sequence.
pub struct ChunkView {
    pub beginning_fragment: bool,
    pub ending_fragment: bool,
    pub tsn: u32,
    pub stream_identifier: u16,
    pub stream_sequence_number: u16,
    pub user_data: Seq<u8>,
    pub nsent: u32,
    pub miss_indicator: u32,
    pub retransmit: bool,
    pub sent_seq: u64,
    pub sent_at: u128,
}

impl View for ChunkPayloadData {
    type V = ChunkView;

    open spec fn view(&self) -> ChunkView {
        ChunkView {
            beginning_fragment: self.beginning_fragment,
            ending_fragment: self.ending_fragment,
            tsn: self.tsn,
            stream_identifier: self.stream_identifier,
            stream_sequence_number: self.stream_sequence_number,
            user_data: self.user_data@,
            nsent: self.nsent,
            miss_indicator: self.miss_indicator,
            retransmit: self.retransmit,
            sent_seq: self.sent_seq,
            sent_at: self.sent_at,
        }
    }
}

/// So many zero bytes.
pub open spec fn zeros(n: nat) -> Seq<u8> {
    Seq::new(n, |i: int| 0u8)
}

/// A chunk that was never sent, with nothing set but the TSN and `size` zero bytes.
pub open spec fn blank(tsn: u32, size: nat) -> ChunkView {
    ChunkView {
        beginning_fragment: false,
        ending_fragment: false,
        tsn,
        stream_identifier: 0,
        stream_sequence_number: 0,
        user_data: zeros(size),
        nsent: 0,
        miss_indicator: 0,
        retransmit: false,
        sent_seq: 0,
        sent_at: 0,
    }
}

impl ChunkPayloadData {
    /// A chunk that was never sent, with nothing set but the TSN and `size` zero bytes.
    pub fn new(tsn: u32, size: usize) -> (r: ChunkPayloadData)
        ensures
            r@ == blank(tsn, size as nat),
            r.tsn == tsn,
            r.user_data@.len() == size,
            forall|i: int| 0 <= i < size ==> #[trigger] r.user_data@[i] == 0,
            !r.beginning_fragment && !r.ending_fragment && !r.retransmit,
            r.stream_identifier == 0 && r.stream_sequence_number == 0,
            r.nsent == 0 && r.miss_indicator == 0 && r.sent_seq == 0 && r.sent_at == 0,
    {
        let user_data: Vec<u8> = vec![0u8; size];
        assert(user_data@ =~= zeros(size as nat));
        ChunkPayloadData {
            beginning_fragment: false,
            ending_fragment: false,
            tsn,
            stream_identifier: 0,
            stream_sequence_number: 0,
            user_data,
            nsent: 0,
            miss_indicator: 0,
            retransmit: false,
            sent_seq: 0,
            sent_at: 0,
        }
    }
}

/// Chunks by their TSN.
#[derive(Debug)]
pub struct PayloadQueue {
    chunks: HashMap<u32, ChunkPayloadData>,
}

impl View for PayloadQueue {
    type V = Map<u32, ChunkView>;

    closed spec fn view(&self) -> Map<u32, ChunkView> {
        self.chunks@.map_values(|c: ChunkPayloadData| c@)
    }
}

impl PayloadQueue {
    /// An empty queue.
    pub fn new() -> (r: PayloadQueue)
        ensures
            r@ == Map::<u32, ChunkView>::empty(),
    {
        let r = PayloadQueue { chunks: HashMap::new() };
        assert(r@ =~= Map::<u32, ChunkView>::empty());
        r
    }

    fn put(&mut self, tsn: u32, chunk: ChunkPayloadData)
        ensures
            final(self)@ == old(self)@.insert(tsn, chunk@),
    {
        let ghost view = chunk@;
        self.chunks.insert(tsn, chunk);
        assert(self@ =~= old(self)@.insert(tsn, view));
    }

    /// Puts a chunk in, in place of one with the same TSN.
    pub fn push_no_check(&mut self, chunk: ChunkPayloadData)
        ensures
            final(self)@ == old(self)@.insert(chunk.tsn, chunk@),
    {
        let tsn: u32 = chunk.tsn;
        self.put(tsn, chunk);
    }

    pub fn get(&self, tsn: u32) -> (r: Option<&ChunkPayloadData>)
        ensures
            r is Some == self@.contains_key(tsn),
            r matches Some(chunk) ==> chunk@ == self@[tsn],
    {
        self.chunks.get(&tsn)
    }

    fn take(&mut self, tsn: u32) -> (r: Option<ChunkPayloadData>)
        ensures
            r is Some == old(self)@.contains_key(tsn),
            r matches Some(chunk) ==> chunk@ == old(self)@[tsn],
            final(self)@ == old(self)@.remove(tsn),
    {
        let r = self.chunks.remove(&tsn);
        assert(self@ =~= old(self)@.remove(tsn));
        r
    }
}

/// How an association is set up.
#[derive(Debug)]
pub struct Config {
    /// Zero stands for [`DEFAULT_MAX_MESSAGE_SIZE`].
    pub max_message_size: u32,
    pub name: String,
}

/// The sending side of an association.
#[derive(Debug)]
pub struct AssociationInternal {
    pub name: String,
    pub max_message_size: u32,
    /// Everything up to this TSN is acknowledged.
    pub cumulative_tsn_ack_point: u32,
    pub my_next_tsn: u32,
    /// The next transmission's place in the order of all transmissions.
    pub send_seq: u64,
    /// The peer's receiver window.
    pub rwnd: u32,
    /// Chunks that wait for their first transmission, first in first out.
    pub pending_queue: Vec<ChunkPayloadData>,
    pub inflight_queue: PayloadQueue,
}

impl AssociationInternal {
    /// What is in flight apart, nothing but the counters differs from `other`.
    pub open spec fn set_up_as(self, other: AssociationInternal) -> bool {
        &&& self.name == other.name
        &&& self.max_message_size == other.max_message_size
        &&& self.rwnd == other.rwnd
        &&& self.pending_queue == other.pending_queue
    }

    /// The counters are those of `other`.
    pub open spec fn counts_as(self, other: AssociationInternal) -> bool {
        &&& self.cumulative_tsn_ack_point == other.cumulative_tsn_ack_point
        &&& self.my_next_tsn == other.my_next_tsn
        &&& self.send_seq == other.send_seq
    }
}

/// The view of each chunk.
pub open spec fn views(chunks: Seq<ChunkPayloadData>) -> Seq<ChunkView> {
    chunks.map_values(|c: ChunkPayloadData| c@)
}

/// An association that has sent nothing. Its counters stand at zero until a handshake or a
/// scenario sets them.
pub fn create_association_internal(config: Config) -> (r: AssociationInternal)
    ensures
        r.name@ == config.name@,
        r.max_message_size == if config.max_message_size == 0 {
            DEFAULT_MAX_MESSAGE_SIZE
        } else {
            config.max_message_size
        },
        config.max_message_size == 0 ==> r.max_message_size == 65536,
        config.max_message_size != 0 ==> r.max_message_size == config.max_message_size,
        r.cumulative_tsn_ack_point == 0,
        r.my_next_tsn == 0,
        r.send_seq == 0,
        r.rwnd == 0,
        r.pending_queue@.len() == 0,
        r.inflight_queue@ == Map::<u32, ChunkView>::empty(),
{
    let max_message_size: u32 = if config.max_message_size == 0 {
        DEFAULT_MAX_MESSAGE_SIZE
    } else {
        config.max_message_size
    };
    AssociationInternal {
        name: config.name,
        max_message_size,
        cumulative_tsn_ack_point: 0,
        my_next_tsn: 0,
        send_seq: 0,
        rwnd: 0,
        pending_queue: Vec::new(),
        inflight_queue: PayloadQueue::new(),
    }
}

/// An association named "client", with the sizes that apply where none are given.
pub fn create_client_association_internal() -> (r: AssociationInternal)
    ensures
        r.name@ == "client"@,
        r.max_message_size == DEFAULT_MAX_MESSAGE_SIZE,
        r.max_message_size == 65536,
        r.cumulative_tsn_ack_point == 0,
        r.my_next_tsn == 0,
        r.send_seq == 0,
        r.rwnd == 0,
        r.pending_queue@.len() == 0,
        r.inflight_queue@ == Map::<u32, ChunkView>::empty(),
{
    create_association_internal(Config { max_message_size: 0, name: "client".to_owned() })
}

/// When the send times of a scenario begin, once that is fixed.
#[derive(Clone, Copy, Debug, PartialEq, Eq, Structural)]
pub struct SendClock {
    pub epoch: Option<u64>,
}

impl SendClock {
    /// When the send times begin for whoever asks at `now`: when they were fixed to begin, or else
    /// a second before `now`, so that what is really sent comes after them.
    pub open spec fn epoch_at(self, now: u64) -> u64 {
        match self.epoch {
            Some(epoch) => epoch,
            None => (now - EPOCH_AGE) as u64,
        }
    }

    /// `now` is late enough for the send times to begin before it.
    pub open spec fn started(self, now: u64) -> bool {
        self.epoch is None ==> now >= EPOCH_AGE
    }

    /// A clock whose beginning is not fixed.
    pub fn new() -> (r: SendClock)
        ensures
            r.epoch is None,
    {
        SendClock { epoch: None }
    }
}

/// The send time of the transmission with place `seq`.
pub open spec fn sent_at(epoch: u64, seq: u64) -> int {
    epoch + seq
}

/// The send time of the transmission with place `seq`, a millisecond apart from the clock's
/// beginning on. Who asks first fixes the beginning.
pub fn at(clock: &mut SendClock, now: u64, seq: u64) -> (r: u128)
    requires
        old(clock).started(now),
    ensures
        r == sent_at(old(clock).epoch_at(now), seq),
        final(clock).epoch == Some(old(clock).epoch_at(now)),
        old(clock).epoch is None ==> r == now - 1000 + seq,
        old(clock).epoch matches Some(epoch) ==> r == epoch + seq,
{
    let epoch: u64 = match clock.epoch {
        Some(epoch) => epoch,
        None => now - EPOCH_AGE,
    };
    clock.epoch = Some(epoch);
    epoch as u128 + seq as u128
}

/// A chunk of 100 bytes, sent once, as the transmission whose place is its TSN.
pub open spec fn sent_once(tsn: u32, epoch: u64) -> ChunkView {
    ChunkView {
        nsent: 1,
        sent_seq: tsn as u64,
        sent_at: sent_at(epoch, tsn as u64) as u128,
        ..blank(tsn, 100)
    }
}

/// `queue` with the chunks of TSN `from` to `to` put in, each made by `make`.
pub open spec fn filled(
    queue: Map<u32, ChunkView>,
    from: int,
    to: int,
    make: spec_fn(u32) -> ChunkView,
) -> Map<u32, ChunkView> {
    queue.union_prefer_right(Map::new(|tsn: u32| from <= tsn <= to, |tsn: u32| make(tsn)))
}

proof fn lemma_filled_step(
    queue: Map<u32, ChunkView>,
    from: int,
    tsn: u32,
    make: spec_fn(u32) -> ChunkView,
)
    requires
        from <= tsn,
    ensures
        filled(queue, from, tsn - 1, make).insert(tsn, make(tsn)) == filled(
            queue,
            from,
            tsn as int,
            make,
        ),
{
    assert(filled(queue, from, tsn - 1, make).insert(tsn, make(tsn)) =~= filled(
        queue,
        from,
        tsn as int,
        make,
    ));
}

/// Puts TSN 10 to 16 in flight, sent in the order of their TSNs.
pub fn inflight_10_to_16(a: &mut AssociationInternal, clock: &mut SendClock, now: u64)
    requires
        old(clock).started(now),
    ensures
        final(clock).epoch == Some(old(clock).epoch_at(now)),
        final(a).cumulative_tsn_ack_point == 9,
        final(a).my_next_tsn == 17,
        final(a).send_seq == 17,
        final(a).inflight_queue@ == filled(
            old(a).inflight_queue@,
            10,
            16,
            |tsn: u32| sent_once(tsn, old(clock).epoch_at(now)),
        ),
        final(a).set_up_as(*old(a)),
        forall|tsn: u32|
            10 <= tsn <= 16 ==> {
                &&& #[trigger] final(a).inflight_queue@.contains_key(tsn)
                &&& final(a).inflight_queue@[tsn].tsn == tsn
                &&& final(a).inflight_queue@[tsn].nsent == 1
                &&& final(a).inflight_queue@[tsn].sent_seq == tsn
                &&& final(a).inflight_queue@[tsn].sent_at == old(clock).epoch_at(now) + tsn
                &&& final(a).inflight_queue@[tsn].miss_indicator == 0
                &&& final(a).inflight_queue@[tsn].user_data.len() == 100
                &&& final(a).inflight_queue@[tsn].retransmit == false
            },
        forall|tsn: u32|
            !(10 <= tsn <= 16) ==> (#[trigger] final(a).inflight_queue@.contains_key(tsn)
                == old(a).inflight_queue@.contains_key(tsn)),
        forall|tsn: u32|
            !(10 <= tsn <= 16) && old(a).inflight_queue@.contains_key(tsn)
                ==> #[trigger] final(a).inflight_queue@[tsn] == old(a).inflight_queue@[tsn],
{
    a.cumulative_tsn_ack_point = 9;
    a.my_next_tsn = 17;
    a.send_seq = 17;
    let ghost epoch = clock.epoch_at(now);
    let ghost make = |tsn: u32| sent_once(tsn, epoch);
    assert(filled(old(a).inflight_queue@, 10, 9, make) =~= old(a).inflight_queue@);
    let mut tsn: u32 = 10;
    while tsn < 17
        invariant
            10 <= tsn <= 17,
            clock.started(now),
            clock.epoch_at(now) == epoch,
            tsn > 10 ==> clock.epoch == Some(epoch),
            make == |tsn: u32| sent_once(tsn, epoch),
            a.cumulative_tsn_ack_point == 9,
            a.my_next_tsn == 17,
            a.send_seq == 17,
            a.inflight_queue@ == filled(old(a).inflight_queue@, 10, tsn - 1, make),
            a.set_up_as(*old(a)),
        decreases 17 - tsn,
    {
        let mut chunk = ChunkPayloadData::new(tsn, 100);
        chunk.nsent = 1;
        chunk.sent_seq = tsn as u64;
        chunk.sent_at = at(clock, now, tsn as u64);
        assert(chunk@ == make(tsn));
        a.inflight_queue.push_no_check(chunk);
        proof {
            lemma_filled_step(old(a).inflight_queue@, 10, tsn, make);
        }
        tsn = tsn + 1;
    }
}

/// `chunk` sent a second time, as the transmission with place `seq`.
pub open spec fn sent_again(chunk: ChunkView, seq: u64, epoch: u64) -> ChunkView {
    ChunkView { nsent: 2, sent_seq: seq, sent_at: sent_at(epoch, seq) as u128, ..chunk }
}

/// Sends the chunk `tsn` again, as the transmission with place `seq`. Nothing happens where it is
/// not in flight.
pub fn resent(a: &mut AssociationInternal, tsn: u32, seq: u64, clock: &mut SendClock, now: u64)
    requires
        old(a).inflight_queue@.contains_key(tsn) ==> old(clock).started(now),
    ensures
        final(clock).epoch == if old(a).inflight_queue@.contains_key(tsn) {
            Some(old(clock).epoch_at(now))
        } else {
            old(clock).epoch
        },
        final(a).inflight_queue@ == if old(a).inflight_queue@.contains_key(tsn) {
            old(a).inflight_queue@.insert(
                tsn,
                sent_again(old(a).inflight_queue@[tsn], seq, old(clock).epoch_at(now)),
            )
        } else {
            old(a).inflight_queue@
        },
        final(a).counts_as(*old(a)),
        final(a).set_up_as(*old(a)),
        forall|t: u32| #[trigger]
            final(a).inflight_queue@.contains_key(t) == old(a).inflight_queue@.contains_key(t),
        forall|t: u32|
            t != tsn && old(a).inflight_queue@.contains_key(t)
                ==> #[trigger] final(a).inflight_queue@[t] == old(a).inflight_queue@[t],
        old(a).inflight_queue@.contains_key(tsn) ==> {
            let (before, after) = (old(a).inflight_queue@[tsn], final(a).inflight_queue@[tsn]);
            &&& after.nsent == 2
            &&& after.sent_seq == seq
            &&& after.sent_at == old(clock).epoch_at(now) + seq
            &&& after.tsn == before.tsn
            &&& after.miss_indicator == before.miss_indicator
            &&& after.user_data == before.user_data
            &&& after.retransmit == before.retransmit
        },
{
    if let Some(chunk) = a.inflight_queue.take(tsn) {
        let mut chunk = chunk;
        chunk.nsent = 2;
        chunk.sent_seq = seq;
        chunk.sent_at = at(clock, now, seq);
        a.inflight_queue.put(tsn, chunk);
        assert(a.inflight_queue@ =~= old(a).inflight_queue@.insert(
            tsn,
            sent_again(old(a).inflight_queue@[tsn], seq, old(clock).epoch_at(now)),
        ));
    } else {
        assert(a.inflight_queue@ =~= old(a).inflight_queue@);
    }
}

/// How much evidence there is that the latest transmission of `tsn` is lost.
pub fn miss_indicator(a: &AssociationInternal, tsn: u32) -> (r: Option<u32>)
    ensures
        r == if a.inflight_queue@.contains_key(tsn) {
            Some(a.inflight_queue@[tsn].miss_indicator)
        } else {
            None
        },
{
    match a.inflight_queue.get(tsn) {
        Some(chunk) => Some(chunk.miss_indicator),
        None => None,
    }
}

/// A whole message of 100 bytes on stream 1, sent once and marked for retransmission.
pub open spec fn marked(tsn: u32) -> ChunkView {
    ChunkView {
        beginning_fragment: true,
        ending_fragment: true,
        stream_identifier: 1,
        stream_sequence_number: (tsn - 10) as u16,
        nsent: 1,
        retransmit: true,
        ..blank(tsn, 100)
    }
}

/// Puts TSN 10 to 12 in flight, each marked for retransmission, with the peer's window used up.
pub fn marked_10_to_12(a: &mut AssociationInternal)
    ensures
        final(a).cumulative_tsn_ack_point == 9,
        final(a).rwnd == 0,
        final(a).inflight_queue@ == filled(
            old(a).inflight_queue@,
            10,
            12,
            |tsn: u32| marked(tsn),
        ),
        final(a).my_next_tsn == old(a).my_next_tsn,
        final(a).send_seq == old(a).send_seq,
        final(a).name == old(a).name,
        final(a).max_message_size == old(a).max_message_size,
        final(a).pending_queue == old(a).pending_queue,
        forall|tsn: u32|
            10 <= tsn <= 12 ==> {
                &&& #[trigger] final(a).inflight_queue@.contains_key(tsn)
                &&& final(a).inflight_queue@[tsn].tsn == tsn
                &&& final(a).inflight_queue@[tsn].nsent == 1
                &&& final(a).inflight_queue@[tsn].retransmit == true
                &&& final(a).inflight_queue@[tsn].beginning_fragment == true
                &&& final(a).inflight_queue@[tsn].ending_fragment == true
                &&& final(a).inflight_queue@[tsn].stream_identifier == 1
                &&& final(a).inflight_queue@[tsn].stream_sequence_number == tsn - 10
                &&& final(a).inflight_queue@[tsn].user_data.len() == 100
            },
        forall|tsn: u32|
            !(10 <= tsn <= 12) ==> (#[trigger] final(a).inflight_queue@.contains_key(tsn)
                == old(a).inflight_queue@.contains_key(tsn)),
        forall|tsn: u32|
            !(10 <= tsn <= 12) && old(a).inflight_queue@.contains_key(tsn)
                ==> #[trigger] final(a).inflight_queue@[tsn] == old(a).inflight_queue@[tsn],
{
    a.cumulative_tsn_ack_point = 9;
    a.rwnd = 0;
    let ghost make = |tsn: u32| marked(tsn);
    assert(filled(old(a).inflight_queue@, 10, 9, make) =~= old(a).inflight_queue@);
    let mut tsn: u32 = 10;
    while tsn < 13
        invariant
            10 <= tsn <= 13,
            make == |tsn: u32| marked(tsn),
            a.cumulative_tsn_ack_point == 9,
            a.rwnd == 0,
            a.inflight_queue@ == filled(old(a).inflight_queue@, 10, tsn - 1, make),
            a.my_next_tsn == old(a).my_next_tsn,
            a.send_seq == old(a).send_seq,
            a.name == old(a).name,
            a.max_message_size == old(a).max_message_size,
            a.pending_queue == old(a).pending_queue,
        decreases 13 - tsn,
    {
        let mut chunk = ChunkPayloadData::new(tsn, 100);
        chunk.beginning_fragment = true;
        chunk.ending_fragment = true;
        chunk.stream_identifier = 1;
        chunk.stream_sequence_number = (tsn - 10) as u16;
        chunk.nsent = 1;
        chunk.retransmit = true;
        assert(chunk@ == make(tsn));
        a.inflight_queue.push_no_check(chunk);
        proof {
            lemma_filled_step(old(a).inflight_queue@, 10, tsn, make);
        }
        tsn = tsn + 1;
    }
}

/// A chunk of 1000 bytes, sent once, with evidence enough that it is lost.
pub open spec fn lost(tsn: u32) -> ChunkView {
    ChunkView { nsent: 1, miss_indicator: 3, ..blank(tsn, 1000) }
}

/// Puts TSN 10 to 14 in flight, each found lost.
pub fn lost_10_to_14(a: &mut AssociationInternal)
    ensures
        final(a).cumulative_tsn_ack_point == 9,
        final(a).inflight_queue@ == filled(
            old(a).inflight_queue@,
            10,
            14,
            |tsn: u32| lost(tsn),
        ),
        final(a).my_next_tsn == old(a).my_next_tsn,
        final(a).send_seq == old(a).send_seq,
        final(a).set_up_as(*old(a)),
        forall|tsn: u32|
            10 <= tsn <= 14 ==> {
                &&& #[trigger] final(a).inflight_queue@.contains_key(tsn)
                &&& final(a).inflight_queue@[tsn].tsn == tsn
                &&& final(a).inflight_queue@[tsn].nsent == 1
                &&& final(a).inflight_queue@[tsn].miss_indicator == 3
                &&& final(a).inflight_queue@[tsn].user_data.len() == 1000
            },
        forall|tsn: u32|
            !(10 <= tsn <= 14) ==> (#[trigger] final(a).inflight_queue@.contains_key(tsn)
                == old(a).inflight_queue@.contains_key(tsn)),
        forall|tsn: u32|
            !(10 <= tsn <= 14) && old(a).inflight_queue@.contains_key(tsn)
                ==> #[trigger] final(a).inflight_queue@[tsn] == old(a).inflight_queue@[tsn],
{
    a.cumulative_tsn_ack_point = 9;
    let ghost make = |tsn: u32| lost(tsn);
    assert(filled(old(a).inflight_queue@, 10, 9, make) =~= old(a).inflight_queue@);
    let mut tsn: u32 = 10;
    while tsn < 15
        invariant
            10 <= tsn <= 15,
            make == |tsn: u32| lost(tsn),
            a.cumulative_tsn_ack_point == 9,
            a.inflight_queue@ == filled(old(a).inflight_queue@, 10, tsn - 1, make),
            a.my_next_tsn == old(a).my_next_tsn,
            a.send_seq == old(a).send_seq,
            a.set_up_as(*old(a)),
        decreases 15 - tsn,
    {
        let mut chunk = ChunkPayloadData::new(tsn, 1000);
        chunk.nsent = 1;
        chunk.miss_indicator = 3;
        assert(chunk@ == make(tsn));
        a.inflight_queue.push_no_check(chunk);
        proof {
            lemma_filled_step(old(a).inflight_queue@, 10, tsn, make);
        }
        tsn = tsn + 1;
    }
}

/// The `i`-th whole message of `size` bytes on stream 1, not yet sent.
pub open spec fn message(i: int, size: nat) -> ChunkView {
    ChunkView {
        beginning_fragment: true,
        ending_fragment: true,
        stream_identifier: 1,
        stream_sequence_number: (i % 0x10000) as u16,
        ..blank(0, size)
    }
}

/// Queues `n` messages of one chunk and `size` bytes each.
pub fn queue_messages(a: &mut AssociationInternal, n: usize, size: usize)
    ensures
        views(final(a).pending_queue@) == views(old(a).pending_queue@) + Seq::new(
            n as nat,
            |i: int| message(i, size as nat),
        ),
        final(a).inflight_queue == old(a).inflight_queue,
        final(a).counts_as(*old(a)),
        final(a).name == old(a).name,
        final(a).max_message_size == old(a).max_message_size,
        final(a).rwnd == old(a).rwnd,
        final(a).pending_queue@.len() == old(a).pending_queue@.len() + n,
        forall|i: int|
            0 <= i < n ==> {
                let chunk = #[trigger] views(final(a).pending_queue@)[old(a).pending_queue@.len()
                    + i];
                &&& chunk.user_data.len() == size
                &&& chunk.stream_sequence_number == i % 0x10000
                &&& chunk.stream_identifier == 1
                &&& chunk.beginning_fragment
                &&& chunk.ending_fragment
                &&& chunk.nsent == 0
            },
{
    let ghost before = views(a.pending_queue@);
    assert(before + Seq::new(0, |i: int| message(i, size as nat)) =~= before);
    for i in 0..n
        invariant
            before == views(old(a).pending_queue@),
            views(a.pending_queue@) == before + Seq::new(
                i as nat,
                |i: int| message(i, size as nat),
            ),
            a.inflight_queue == old(a).inflight_queue,
            a.counts_as(*old(a)),
            a.name == old(a).name,
            a.max_message_size == old(a).max_message_size,
            a.rwnd == old(a).rwnd,
    {
        let mut chunk = ChunkPayloadData::new(0, size);
        chunk.beginning_fragment = true;
        chunk.ending_fragment = true;
        chunk.stream_identifier = 1;
        chunk.stream_sequence_number = (i % 0x10000) as u16;
        assert(chunk@ == message(i as int, size as nat));
        let ghost queued = views(a.pending_queue@);
        let ghost view = chunk@;
        a.pending_queue.push(chunk);
        assert(views(a.pending_queue@) =~= queued.push(view));
        assert(queued.push(view) =~= before + Seq::new(
            (i + 1) as nat,
            |i: int| message(i, size as nat),
        ));
    }
}

/// How much data the chunks hold together.
pub open spec fn data_len(chunks: Seq<ChunkView>) -> nat
    decreases chunks.len(),
{
    if chunks.len() == 0 {
        0
    } else {
        data_len(chunks.drop_last()) + chunks.last().user_data.len()
    }
}

proof fn lemma_data_len_grows(chunks: Seq<ChunkView>, n: int)
    requires
        0 <= n <= chunks.len(),
    ensures
        data_len(chunks.take(n)) <= data_len(chunks),
    decreases chunks.len() - n,
{
    if n < chunks.len() {
        lemma_data_len_grows(chunks, n + 1);
        assert(chunks.take(n + 1).drop_last() =~= chunks.take(n));
    } else {
        assert(chunks.take(n) =~= chunks);
    }
}

/// How much data the chunks hold together.
pub fn total_data_len(chunks: &[ChunkPayloadData]) -> (r: usize)
    requires
        data_len(views(chunks@)) <= usize::MAX,
    ensures
        r == data_len(views(chunks@)),
{
    let mut total: usize = 0;
    for i in 0..chunks.len()
        invariant
            data_len(views(chunks@)) <= usize::MAX,
            total == data_len(views(chunks@).take(i as int)),
    {
        proof {
            lemma_data_len_grows(views(chunks@), i + 1);
            assert(views(chunks@).take(i + 1).drop_last() =~= views(chunks@).take(i as int));
        }
        total = total + chunks[i].user_data.len();
    }
    assert(views(chunks@).take(chunks@.len() as int) =~= views(chunks@));
    total
}

/// Chunks hold together what each holds: nothing where there are none, one its own data, and two
/// parts what the two hold.
pub proof fn law_data_adds_up(a: Seq<ChunkView>, b: Seq<ChunkView>, chunk: ChunkView)
    ensures
        data_len(Seq::empty()) == 0,
        data_len(seq![chunk]) == chunk.user_data.len(),
        data_len(a + b) == data_len(a) + data_len(b),
    decreases b.len(),
{
    assert(seq![chunk].drop_last() =~= Seq::<ChunkView>::empty());
    assert(data_len(Seq::<ChunkView>::empty()) == 0);
    if b.len() == 0 {
        assert(a + b =~= a);
    } else {
        law_data_adds_up(a, b.drop_last(), chunk);
        assert((a + b).drop_last() =~= a + b.drop_last());
    }
}

/// A run of received TSNs, as offsets from the cumulative one.
#[derive(Clone, Copy, Debug, PartialEq, Eq, Structural)]
pub struct GapAckBlock {
    pub start: u16,
    pub end: u16,
}

/// A SACK chunk.
#[derive(Debug)]
pub struct ChunkSelectiveAck {
    pub cumulative_tsn_ack: u32,
    pub advertised_receiver_window_credit: u32,
    pub gap_ack_blocks: Vec<GapAckBlock>,
    pub duplicate_tsn: Vec<u32>,
}

/// The SACK that acknowledges everything up to `cum` and the runs `gaps`, reports the duplicates
/// `dups`, and leaves the peer's window as it is.
pub fn selective_ack(
    a: &AssociationInternal,
    cum: u32,
    gaps: &[(u16, u16)],
    dups: &[u32],
) -> (r: ChunkSelectiveAck)
    ensures
        r.cumulative_tsn_ack == cum,
        r.advertised_receiver_window_credit == a.rwnd,
        r.gap_ack_blocks@ == gaps@.map_values(
            |g: (u16, u16)| GapAckBlock { start: g.0, end: g.1 },
        ),
        r.duplicate_tsn@ == dups@,
{
    let mut blocks: Vec<GapAckBlock> = Vec::new();
    for i in 0..gaps.len()
        invariant
            blocks@ == gaps@.take(i as int).map_values(
                |g: (u16, u16)| GapAckBlock { start: g.0, end: g.1 },
            ),
    {
        let (start, end): (u16, u16) = gaps[i];
        blocks.push(GapAckBlock { start, end });
        assert(blocks@ =~= gaps@.take(i + 1).map_values(
            |g: (u16, u16)| GapAckBlock { start: g.0, end: g.1 },
        ));
    }
    assert(gaps@.take(gaps@.len() as int) =~= gaps@);
    let mut duplicate_tsn: Vec<u32> = Vec::new();
    duplicate_tsn.extend_from_slice(dups);
    assert(duplicate_tsn@ =~= dups@);
    ChunkSelectiveAck {
        cumulative_tsn_ack: cum,
        advertised_receiver_window_credit: a.rwnd,
        gap_ack_blocks: blocks,
        duplicate_tsn,
    }
}

/// The TSN that counts as received last when the peer's first one is `initial_tsn`: the one
/// before it.
pub fn tsn_before(initial_tsn: u32) -> (r: u32)
    ensures
        (r + 1) % 0x1_0000_0000 == initial_tsn,
{
    if initial_tsn == 0 {
        u32::MAX
    } else {
        initial_tsn - 1
    }
}

/// Every chunk's send time is the one that goes with its place in the send order.
pub open spec fn stamped(queue: Map<u32, ChunkView>, epoch: u64) -> bool {
    forall|tsn: u32| #[trigger]
        queue.contains_key(tsn) ==> queue[tsn].sent_at == sent_at(epoch, queue[tsn].sent_seq)
}

/// One beginning holds for all: whoever asks first, at `first`, the times given then and at any
/// `now` afterwards lie as many milliseconds apart as their places, and equal places have equal
/// times. The times of the first thousand transmissions lie before every moment after the
/// beginning was fixed.
pub proof fn law_send_times_follow_send_order(
    clock: SendClock,
    first: u64,
    now: u64,
    later: u64,
    seq: u64,
    other: u64,
)
    requires
        clock.started(first),
        clock.epoch is None ==> later >= first,
        clock.epoch matches Some(epoch) ==> later >= epoch + EPOCH_AGE,
    ensures
        ({
            let fixed = SendClock { epoch: Some(clock.epoch_at(first)) };
            let early = sent_at(clock.epoch_at(first), seq);
            &&& fixed.started(now)
            &&& sent_at(fixed.epoch_at(now), other) - early == other - seq
            &&& seq < 1000 ==> early < later
        }),
{
}

/// Putting chunks in flight and sending one again keep send times and send order in agreement: of
/// any two chunks, the one sent later has the later time.
pub proof fn law_sends_stay_ordered(
    queue: Map<u32, ChunkView>,
    epoch: u64,
    tsn: u32,
    seq: u64,
    x: u32,
    y: u32,
)
    requires
        stamped(queue, epoch),
        queue.contains_key(tsn),
    ensures
        stamped(filled(queue, 10, 16, |tsn: u32| sent_once(tsn, epoch)), epoch),
        stamped(queue.insert(tsn, sent_again(queue[tsn], seq, epoch)), epoch),
        queue.contains_key(x) && queue.contains_key(y) ==> (queue[x].sent_seq
            < queue[y].sent_seq <==> queue[x].sent_at < queue[y].sent_at),
{
}

/// A resend leaves the evidence against the chunk as it is, and every other chunk too.
pub proof fn law_resend_keeps_evidence(
    queue: Map<u32, ChunkView>,
    tsn: u32,
    seq: u64,
    epoch: u64,
    other: u32,
)
    requires
        queue.contains_key(tsn),
        queue.contains_key(other),
    ensures
        ({
            let after = queue.insert(tsn, sent_again(queue[tsn], seq, epoch));
            &&& after.dom() == queue.dom()
            &&& after[tsn].miss_indicator == queue[tsn].miss_indicator
            &&& after[tsn].user_data == queue[tsn].user_data
            &&& other != tsn ==> after[other] == queue[other]
        }),
{
    assert(queue.insert(tsn, sent_again(queue[tsn], seq, epoch)).dom() =~= queue.dom());
}

/// The chunks of the scenarios, field by field, for every TSN, size and send time.
pub proof fn law_chunks_field_by_field(tsn: u32, size: nat, epoch: u64, i: int)
    requires
        0 <= i < 0x10000,
    ensures
        ({
            let c = blank(tsn, size);
            &&& c.tsn == tsn
            &&& c.user_data.len() == size
            &&& forall|k: int| 0 <= k < size ==> #[trigger] c.user_data[k] == 0
            &&& !c.beginning_fragment && !c.ending_fragment && !c.retransmit
            &&& c.stream_identifier == 0 && c.stream_sequence_number == 0
            &&& c.nsent == 0 && c.miss_indicator == 0 && c.sent_seq == 0 && c.sent_at == 0
        }),
        sent_once(tsn, epoch) == (ChunkView {
            nsent: 1,
            sent_seq: tsn as u64,
            sent_at: (epoch + tsn) as u128,
            ..blank(tsn, 100)
        }),
        lost(tsn) == (ChunkView { nsent: 1, miss_indicator: 3, ..blank(tsn, 1000) }),
        10 <= tsn < 0x10000 ==> marked(tsn) == (ChunkView {
            beginning_fragment: true,
            ending_fragment: true,
            stream_identifier: 1,
            stream_sequence_number: (tsn - 10) as u16,
            nsent: 1,
            retransmit: true,
            ..blank(tsn, 100)
        }),
        message(i, size) == (ChunkView {
            beginning_fragment: true,
            ending_fragment: true,
            stream_identifier: 1,
            stream_sequence_number: i as u16,
            ..blank(0, size)
        }),
        message(i + 0x10000, size) == message(i, size),
{
}

/// A resend changes the count, the place and the time, and nothing else.
pub proof fn law_resend_changes_three_fields(chunk: ChunkView, seq: u64, epoch: u64)
    ensures
        ({
            let again = sent_again(chunk, seq, epoch);
            &&& again.nsent == 2
            &&& again.sent_seq == seq
            &&& again.sent_at == epoch + seq
            &&& chunk == (ChunkView {
                nsent: chunk.nsent,
                sent_seq: chunk.sent_seq,
                sent_at: chunk.sent_at,
                ..again
            })
        }),
{
}

/// A run of TSNs put in holds what is made for each of them, and leaves every other TSN as it was.
pub proof fn law_filled_tsn_by_tsn(
    queue: Map<u32, ChunkView>,
    from: int,
    to: int,
    make: spec_fn(u32) -> ChunkView,
    tsn: u32,
)
    ensures
        from <= tsn <= to ==> filled(queue, from, to, make).contains_key(tsn) && filled(
            queue,
            from,
            to,
            make,
        )[tsn] == make(tsn),
        !(from <= tsn <= to) ==> filled(queue, from, to, make).contains_key(tsn)
            == queue.contains_key(tsn),
        !(from <= tsn <= to) && queue.contains_key(tsn) ==> filled(queue, from, to, make)[tsn]
            == queue[tsn],
{
}

/// Two associations that are set up alike and count alike differ in nothing but what is in flight.
pub proof fn law_alike_but_for_what_is_in_flight(a: AssociationInternal, b: AssociationInternal)
    requires
        a.set_up_as(b),
        a.counts_as(b),
    ensures
        a == (AssociationInternal { inflight_queue: a.inflight_queue, ..b }),
{
}

/// The chunks are seen one by one, in their order.
pub proof fn law_views_one_by_one(chunks: Seq<ChunkPayloadData>, i: int)
    requires
        0 <= i < chunks.len(),
    ensures
        views(chunks).len() == chunks.len(),
        views(chunks)[i].tsn == chunks[i].tsn,
        views(chunks)[i].user_data == chunks[i].user_data@,
        views(chunks)[i].nsent == chunks[i].nsent,
        views(chunks)[i].miss_indicator == chunks[i].miss_indicator,
        views(chunks)[i].retransmit == chunks[i].retransmit,
        views(chunks)[i].sent_seq == chunks[i].sent_seq,
        views(chunks)[i].sent_at == chunks[i].sent_at,
        views(chunks)[i].beginning_fragment == chunks[i].beginning_fragment,
        views(chunks)[i].ending_fragment == chunks[i].ending_fragment,
        views(chunks)[i].stream_identifier == chunks[i].stream_identifier,
        views(chunks)[i].stream_sequence_number == chunks[i].stream_sequence_number,
{
}

/// The TSN before comes just before: the next one after it is the one asked about, and around the
/// end of the numbers the last one comes before the first. No two TSNs have the same before them.
pub proof fn law_tsn_before_is_one_less(tsn: u32, r: u32, other: u32, s: u32)
    requires
        call_ensures(tsn_before, (tsn,), r),
        call_ensures(tsn_before, (other,), s),
    ensures
        tsn > 0 ==> r == tsn - 1,
        tsn == 0 ==> r == 0xffff_ffff,
        r == s ==> tsn == other,
{
}

/// A SACK says what it is given, run by run and in order, and the window as it is.
pub proof fn law_sack_says_what_it_is_given(
    a: &AssociationInternal,
    cum: u32,
    gaps: &[(u16, u16)],
    dups: &[u32],
    r: ChunkSelectiveAck,
    i: int,
)
    requires
        call_ensures(selective_ack, (a, cum, gaps, dups), r),
    ensures
        r.cumulative_tsn_ack == cum,
        r.advertised_receiver_window_credit == a.rwnd,
        r.gap_ack_blocks@.len() == gaps@.len(),
        0 <= i < gaps@.len() ==> r.gap_ack_blocks@[i].start == gaps@[i].0
            && r.gap_ack_blocks@[i].end == gaps@[i].1,
        r.duplicate_tsn@ == dups@,
{
}

} // verus!
