//! Log lines: the bounded history and the hub that hands every published line
//! to each subscriber on its own.

use std::collections::VecDeque;
use vstd::prelude::*;

verus! {

/// One line of output of one service.
pub struct LogEntry {
    pub service: String,
    pub line: String,
}

/// What a log entry holds.
pub struct LogLine {
    pub service: Seq<char>,
    pub line: Seq<char>,
}

impl View for LogEntry {
    type V = LogLine;

    open spec fn view(&self) -> LogLine {
        LogLine { service: self.service@, line: self.line@ }
    }
}

impl LogEntry {
    /// An entry of the given service and text.
    pub fn new(service: &str, line: &str) -> (e: LogEntry)
        ensures
            e@ == (LogLine { service: service@, line: line@ }),
    {
        LogEntry { service: service.to_owned(), line: line.to_owned() }
    }

    /// An entry with the same service and text.
    pub fn copy(&self) -> (e: LogEntry)
        ensures
            e@ == self@,
    {
        LogEntry { service: self.service.clone(), line: self.line.clone() }
    }
}

/// What the entries hold, in order.
pub open spec fn lines(entries: Seq<LogEntry>) -> Seq<LogLine> {
    Seq::new(entries.len(), |i: int| entries[i]@)
}

/// The last `n` items of `s`, or all of `s` where it has no more than `n`.
pub open spec fn last_n<T>(s: Seq<T>, n: nat) -> Seq<T> {
    if s.len() <= n {
        s
    } else {
        s.skip(s.len() - n)
    }
}

/// The lines of `all` that belong to `service`, in order; all of them where no
/// service is named.
pub open spec fn matching(all: Seq<LogLine>, service: Option<Seq<char>>) -> Seq<LogLine> {
    match service {
        None => all,
        Some(name) => all.filter(|l: LogLine| l.service == name),
    }
}

/// The text of an optional name.
pub open spec fn name_of(service: Option<&str>) -> Option<Seq<char>> {
    match service {
        None => None,
        Some(s) => Some(s@),
    }
}

/// The history after the lines of `all` were pushed, first to last, onto a
/// history that held `held`.
pub open spec fn pushed_all<T>(held: Seq<T>, all: Seq<T>, capacity: nat) -> Seq<T>
    decreases all.len(),
{
    if all.len() == 0 {
        held
    } else {
        last_n(pushed_all(held, all.drop_last(), capacity).push(all.last()), capacity)
    }
}

/// However many lines were ever produced, the history holds the most recent
/// ones, as many as its capacity allows, in the order in which they came.
pub proof fn law_history_is_latest_window<T>(all: Seq<T>, capacity: nat)
    ensures
        pushed_all(Seq::<T>::empty(), all, capacity) == last_n(all, capacity),
        pushed_all(Seq::<T>::empty(), all, capacity).len() <= capacity,
    decreases all.len(),
{
    if all.len() > 0 {
        law_history_is_latest_window(all.drop_last(), capacity);
        let before = last_n(all.drop_last(), capacity);
        assert(last_n(before.push(all.last()), capacity) =~= last_n(all, capacity));
    } else {
        assert(pushed_all(Seq::<T>::empty(), all, capacity) =~= last_n(all, capacity));
    }
}

/// The last `limit` of the retained lines are never more than `limit`, and
/// they stand as they stood in the history: oldest first.
pub proof fn law_recent_is_bounded_and_ordered<T>(held: Seq<T>, limit: nat)
    ensures
        last_n(held, limit).len() <= limit,
        last_n(held, limit).len() <= held.len(),
        forall|i: int|
            0 <= i < last_n(held, limit).len() ==> #[trigger] last_n(held, limit)[i] == held[held.len()
                - last_n(held, limit).len() + i],
{
}

/// The most recent log lines, up to a fixed number of them.
pub struct LogHistory {
    pub capacity: usize,
    pub entries: VecDeque<LogEntry>,
}

impl View for LogHistory {
    type V = Seq<LogLine>;

    open spec fn view(&self) -> Seq<LogLine> {
        lines(self.entries@)
    }
}

impl LogHistory {
    /// The history never holds more than its capacity.
    pub open spec fn wf(&self) -> bool {
        self.entries@.len() <= self.capacity
    }

    /// An empty history that will keep the last `capacity` lines.
    pub fn new(capacity: usize) -> (h: LogHistory)
        ensures
            h.wf(),
            h.capacity == capacity,
            h@ == Seq::<LogLine>::empty(),
    {
        let h = LogHistory { capacity, entries: VecDeque::new() };
        assert(h@ =~= Seq::<LogLine>::empty());
        h
    }

    /// The number of lines held.
    pub fn len(&self) -> (n: usize)
        ensures
            n == self@.len(),
    {
        self.entries.len()
    }

    /// Takes in a line; the oldest one leaves where the history is full.
    pub fn push(&mut self, entry: LogEntry)
        requires
            old(self).wf(),
        ensures
            final(self).wf(),
            final(self).capacity == old(self).capacity,
            final(self)@ == last_n(old(self)@.push(entry@), old(self).capacity as nat),
    {
        let ghost before = self@;
        self.entries.push_back(entry);
        assert(self@ =~= before.push(entry@));
        if self.entries.len() > self.capacity {
            let _ = self.entries.pop_front();
        }
        assert(self@ =~= last_n(before.push(entry@), self.capacity as nat));
    }

    /// Up to `limit` of the most recent lines, of one service where one is
    /// named, oldest first.
    pub fn recent(&self, service: Option<&str>, limit: usize) -> (out: Vec<LogEntry>)
        ensures
            lines(out@) == last_n(matching(self@, name_of(service)), limit as nat),
    {
        let mut found: Vec<LogEntry> = Vec::new();
        let n = self.entries.len();
        let ghost held = self@;
        match service {
            None => {
                let mut i: usize = 0;
                while i < n
                    invariant
                        n == self.entries@.len(),
                        held == self@,
                        i <= n,
                        lines(found@) == held.take(i as int),
                    decreases n - i,
                {
                    let ghost so_far = lines(found@);
                    let e = self.entries[i].copy();
                    assert(e@ == held[i as int]);
                    found.push(e);
                    assert(lines(found@) =~= so_far.push(held[i as int]));
                    assert(lines(found@) =~= held.take(i + 1));
                    i += 1;
                }
                assert(held.take(n as int) =~= held);
            },
            Some(name) => {
                let want = name.to_owned();
                let ghost pred = |l: LogLine| l.service == name@;
                let mut i: usize = 0;
                while i < n
                    invariant
                        n == self.entries@.len(),
                        held == self@,
                        i <= n,
                        want@ == name@,
                        pred == |l: LogLine| l.service == name@,
                        lines(found@) == held.take(i as int).filter(pred),
                    decreases n - i,
                {
                    let ghost so_far = lines(found@);
                    proof {
                        assert(held.take(i + 1) =~= held.take(i as int).push(held[i as int]));
                        held.take(i as int).lemma_filter_push(held[i as int], pred);
                    }
                    assert(held[i as int] == self.entries@[i as int]@);
                    if self.entries[i].service == want {
                        let e = self.entries[i].copy();
                        found.push(e);
                        assert(lines(found@) =~= so_far.push(held[i as int]));
                    }
                    i += 1;
                }
                assert(held.take(n as int) =~= held);
            },
        }
        let total = found.len();
        if total <= limit {
            found
        } else {
            let mut out: Vec<LogEntry> = Vec::new();
            let skip = total - limit;
            let mut j: usize = skip;
            while j < total
                invariant
                    total == found@.len(),
                    skip <= j <= total,
                    lines(out@) == lines(found@).subrange(skip as int, j as int),
                decreases total - j,
            {
                let ghost so_far = lines(out@);
                let e = found[j].copy();
                assert(e@ == lines(found@)[j as int]);
                out.push(e);
                assert(lines(out@) =~= so_far.push(lines(found@)[j as int]));
                assert(lines(out@) =~= lines(found@).subrange(skip as int, j + 1));
                j += 1;
            }
            assert(lines(out@) =~= lines(found@).skip(skip as int));
            out
        }
    }
}

/// What a subscriber has been offered and how far it has got.
pub struct SubscriberModel {
    /// Whether the subscription is still held.
    pub open: bool,
    /// Every line published since it subscribed, in order.
    pub offered: Seq<LogLine>,
    /// How many of the offered lines it has received or lost.
    pub cursor: nat,
    /// Lines lost since it was last told of a loss.
    pub missed: u64,
}

/// One subscriber of the hub: the lines waiting for it and the count of those
/// it lost because it fell behind.
pub struct Subscriber {
    pub open: bool,
    pub queue: VecDeque<LogEntry>,
    pub missed: u64,
    pub offered: Ghost<Seq<LogLine>>,
    pub cursor: Ghost<nat>,
}

impl View for Subscriber {
    type V = SubscriberModel;

    open spec fn view(&self) -> SubscriberModel {
        SubscriberModel {
            open: self.open,
            offered: self.offered@,
            cursor: self.cursor@,
            missed: self.missed,
        }
    }
}

/// What a subscriber gets when it asks for the next line.
pub enum Delivery {
    /// The next line.
    Entry(LogEntry),
    /// This many lines were lost; the next call resumes with what is left.
    Lagged(u64),
    /// Nothing is waiting.
    Empty,
    /// The subscription is not held.
    Closed,
}

/// What a delivery holds.
pub enum DeliveryModel {
    Entry(LogLine),
    Lagged(u64),
    Empty,
    Closed,
}

impl View for Delivery {
    type V = DeliveryModel;

    open spec fn view(&self) -> DeliveryModel {
        match self {
            Delivery::Entry(e) => DeliveryModel::Entry(e@),
            Delivery::Lagged(n) => DeliveryModel::Lagged(*n),
            Delivery::Empty => DeliveryModel::Empty,
            Delivery::Closed => DeliveryModel::Closed,
        }
    }
}

/// The hub as its users see it.
pub struct HubModel {
    pub history: Seq<LogLine>,
    pub capacity: nat,
    pub buffer: nat,
    pub subscribers: Seq<SubscriberModel>,
}

/// A subscription that has just been taken out.
pub open spec fn fresh_subscriber() -> SubscriberModel {
    SubscriberModel { open: true, offered: Seq::empty(), cursor: 0, missed: 0 }
}

/// A slot whose subscription was given up.
pub open spec fn closed_subscriber() -> SubscriberModel {
    SubscriberModel { open: false, offered: Seq::empty(), cursor: 0, missed: 0 }
}

/// The count of lost lines after one more loss.
pub open spec fn one_more_missed(missed: u64) -> u64 {
    if missed < u64::MAX {
        (missed + 1) as u64
    } else {
        missed
    }
}

/// A subscriber after `e` was published: the line is offered to it; where its
/// buffer was full, the oldest waiting line is lost and counted.
pub open spec fn subscriber_offered(s: SubscriberModel, buffer: nat, e: LogLine) -> SubscriberModel {
    if !s.open {
        s
    } else if s.offered.len() - s.cursor + 1 > buffer {
        SubscriberModel {
            open: true,
            offered: s.offered.push(e),
            cursor: s.cursor + 1,
            missed: one_more_missed(s.missed),
        }
    } else {
        SubscriberModel { open: true, offered: s.offered.push(e), cursor: s.cursor, missed: s.missed }
    }
}

/// The hub after `e` was published: the history takes it in and every
/// subscriber is offered it.
pub open spec fn published(h: HubModel, e: LogLine) -> HubModel {
    HubModel {
        history: last_n(h.history.push(e), h.capacity),
        capacity: h.capacity,
        buffer: h.buffer,
        subscribers: Seq::new(
            h.subscribers.len(),
            |i: int| subscriber_offered(h.subscribers[i], h.buffer, e),
        ),
    }
}

/// A subscriber after it asked for the next line, and what it got. A loss is
/// reported first, once; then the waiting lines come in the order in which
/// they were published.
pub open spec fn subscriber_received(s: SubscriberModel) -> (SubscriberModel, DeliveryModel) {
    if !s.open {
        (s, DeliveryModel::Closed)
    } else if s.missed > 0 {
        (
            SubscriberModel { open: true, offered: s.offered, cursor: s.cursor, missed: 0 },
            DeliveryModel::Lagged(s.missed),
        )
    } else if s.cursor < s.offered.len() {
        (
            SubscriberModel { open: true, offered: s.offered, cursor: s.cursor + 1, missed: 0 },
            DeliveryModel::Entry(s.offered[s.cursor as int]),
        )
    } else {
        (s, DeliveryModel::Empty)
    }
}

/// The hub after subscriber `id` asked for its next line, and what it got.
pub open spec fn received(h: HubModel, id: int) -> (HubModel, DeliveryModel) {
    if 0 <= id < h.subscribers.len() {
        let (s, d) = subscriber_received(h.subscribers[id]);
        (
            HubModel {
                history: h.history,
                capacity: h.capacity,
                buffer: h.buffer,
                subscribers: h.subscribers.update(id, s),
            },
            d,
        )
    } else {
        (h, DeliveryModel::Closed)
    }
}

/// The first slot that holds no subscription, or the number of slots.
pub open spec fn free_slot(subscribers: Seq<SubscriberModel>) -> int
    decreases subscribers.len(),
{
    if subscribers.len() == 0 {
        0
    } else if free_slot(subscribers.drop_last()) < subscribers.len() - 1 {
        free_slot(subscribers.drop_last())
    } else if !subscribers.last().open {
        subscribers.len() - 1
    } else {
        subscribers.len() as int
    }
}

/// The hub after a subscription was taken out, in the first free slot.
pub open spec fn subscribed(h: HubModel) -> HubModel {
    let id = free_slot(h.subscribers);
    HubModel {
        history: h.history,
        capacity: h.capacity,
        buffer: h.buffer,
        subscribers: if id < h.subscribers.len() {
            h.subscribers.update(id, fresh_subscriber())
        } else {
            h.subscribers.push(fresh_subscriber())
        },
    }
}

/// The hub after subscription `id` was given up.
pub open spec fn unsubscribed(h: HubModel, id: int) -> HubModel {
    if 0 <= id < h.subscribers.len() {
        HubModel {
            history: h.history,
            capacity: h.capacity,
            buffer: h.buffer,
            subscribers: h.subscribers.update(id, closed_subscriber()),
        }
    } else {
        h
    }
}

/// The free slot is in range, holds no subscription, and every slot before it
/// holds one.
pub proof fn lemma_free_slot(subscribers: Seq<SubscriberModel>)
    ensures
        0 <= free_slot(subscribers) <= subscribers.len(),
        free_slot(subscribers) < subscribers.len() ==> !subscribers[free_slot(subscribers)].open,
        forall|i: int| 0 <= i < free_slot(subscribers) ==> (#[trigger] subscribers[i]).open,
    decreases subscribers.len(),
{
    if subscribers.len() > 0 {
        lemma_free_slot(subscribers.drop_last());
        let before = subscribers.drop_last();
        assert forall|i: int| 0 <= i < free_slot(subscribers) implies (#[trigger] subscribers[i]).open by {
            if i < before.len() {
                assert(before[i].open);
            }
        }
    }
}

impl Subscriber {
    /// The waiting lines are the offered ones from the cursor on, and never
    /// more than the buffer holds.
    pub open spec fn wf(&self, buffer: nat) -> bool {
        &&& self.cursor@ <= self.offered@.len()
        &&& lines(self.queue@) == self.offered@.skip(self.cursor@ as int)
        &&& self.queue@.len() <= buffer
    }

    /// Offers the subscriber a published line.
    fn offer(&mut self, buffer: usize, entry: LogEntry)
        requires
            old(self).wf(buffer as nat),
        ensures
            final(self).wf(buffer as nat),
            final(self)@ == subscriber_offered(old(self)@, buffer as nat, entry@),
    {
        if !self.open {
            return ;
        }
        let ghost waiting = lines(self.queue@);
        let ghost offered = self.offered@;
        let ghost cursor = self.cursor@;
        self.queue.push_back(entry);
        self.offered = Ghost(offered.push(entry@));
        assert(lines(self.queue@) =~= waiting.push(entry@));
        assert(self.offered@.skip(cursor as int) =~= waiting.push(entry@));
        if self.queue.len() > buffer {
            let _ = self.queue.pop_front();
            self.cursor = Ghost(cursor + 1);
            if self.missed < u64::MAX {
                self.missed = self.missed + 1;
            }
            assert(lines(self.queue@) =~= waiting.push(entry@).skip(1));
            assert(self.offered@.skip(cursor as int + 1) =~= waiting.push(entry@).skip(1));
        }
    }

    /// Hands out what the subscriber gets next.
    fn next(&mut self) -> (d: Delivery)
        requires
            old(self).cursor@ <= old(self).offered@.len(),
            lines(old(self).queue@) == old(self).offered@.skip(old(self).cursor@ as int),
        ensures
            forall|buffer: nat| old(self).wf(buffer) ==> final(self).wf(buffer),
            (final(self)@, d@) == subscriber_received(old(self)@),
    {
        if !self.open {
            return Delivery::Closed;
        }
        if self.missed > 0 {
            let lost = self.missed;
            self.missed = 0;
            return Delivery::Lagged(lost);
        }
        let ghost waiting = lines(self.queue@);
        let ghost cursor = self.cursor@;
        match self.queue.pop_front() {
            Some(e) => {
                self.cursor = Ghost(cursor + 1);
                assert(e@ == waiting[0]);
                assert(lines(self.queue@) =~= waiting.skip(1));
                assert(self.offered@.skip(cursor as int + 1) =~= waiting.skip(1));
                Delivery::Entry(e)
            },
            None => {
                assert(waiting.len() == 0);
                Delivery::Empty
            },
        }
    }

    /// Gives the subscription up.
    fn close(&mut self)
        ensures
            final(self)@ == closed_subscriber(),
            forall|buffer: nat| final(self).wf(buffer),
    {
        self.open = false;
        self.queue = VecDeque::new();
        self.missed = 0;
        self.offered = Ghost(Seq::empty());
        self.cursor = Ghost(0);
        assert(lines(self.queue@) =~= self.offered@.skip(0));
    }
}

/// A slot that holds no subscription, behind slots that all hold one, is the
/// free slot; where every slot holds one, it is their number.
pub proof fn lemma_free_slot_is(subscribers: Seq<SubscriberModel>, id: int)
    requires
        0 <= id <= subscribers.len(),
        forall|i: int| 0 <= i < id ==> (#[trigger] subscribers[i]).open,
        id < subscribers.len() ==> !subscribers[id].open,
    ensures
        free_slot(subscribers) == id,
{
    lemma_free_slot(subscribers);
    let found = free_slot(subscribers);
    if found < id {
        assert(subscribers[found].open);
    } else if found > id {
        assert(subscribers[id].open);
    }
}

/// The fan-out log bus: a bounded history and any number of subscribers, each
/// with a bounded buffer of its own.
pub struct LogHub {
    pub history: LogHistory,
    pub buffer: usize,
    pub subscribers: Vec<Subscriber>,
}

impl View for LogHub {
    type V = HubModel;

    open spec fn view(&self) -> HubModel {
        HubModel {
            history: self.history@,
            capacity: self.history.capacity as nat,
            buffer: self.buffer as nat,
            subscribers: Seq::new(self.subscribers@.len(), |i: int| self.subscribers@[i]@),
        }
    }
}

impl LogHub {
    /// The history and every subscriber keep within their bounds.
    pub open spec fn wf(&self) -> bool {
        &&& self.history.wf()
        &&& forall|i: int|
            0 <= i < self.subscribers@.len() ==> (#[trigger] self.subscribers@[i]).wf(
                self.buffer as nat,
            )
    }

    /// A hub without subscribers that keeps the last `capacity` lines and lets
    /// each subscriber fall behind by up to `buffer` lines.
    pub fn new(capacity: usize, buffer: usize) -> (hub: LogHub)
        ensures
            hub.wf(),
            hub@ == (HubModel {
                history: Seq::empty(),
                capacity: capacity as nat,
                buffer: buffer as nat,
                subscribers: Seq::empty(),
            }),
    {
        let hub = LogHub { history: LogHistory::new(capacity), buffer, subscribers: Vec::new() };
        assert(hub@.subscribers =~= Seq::<SubscriberModel>::empty());
        hub
    }

    /// Takes out a subscription and returns its number. From now on every
    /// published line is offered to it.
    pub fn subscribe(&mut self) -> (id: usize)
        requires
            old(self).wf(),
        ensures
            final(self).wf(),
            id == free_slot(old(self)@.subscribers),
            final(self)@ == subscribed(old(self)@),
    {
        proof {
            lemma_free_slot(self@.subscribers);
        }
        let fresh = Subscriber {
            open: true,
            queue: VecDeque::new(),
            missed: 0,
            offered: Ghost(Seq::empty()),
            cursor: Ghost(0),
        };
        assert(lines(fresh.queue@) =~= fresh.offered@.skip(0));
        let ghost before = self@.subscribers;
        let mut i: usize = 0;
        while i < self.subscribers.len()
            invariant
                self.wf(),
                before == self@.subscribers,
                *self == *old(self),
                fresh@ == fresh_subscriber(),
                fresh.wf(self.buffer as nat),
                i <= self.subscribers@.len(),
                forall|a: int| 0 <= a < i ==> (#[trigger] before[a]).open,
            decreases self.subscribers@.len() - i,
        {
            if !self.subscribers[i].open {
                proof {
                    lemma_free_slot_is(before, i as int);
                }
                self.subscribers.set(i, fresh);
                assert(self@.subscribers =~= before.update(i as int, fresh_subscriber()));
                return i;
            }
            i += 1;
        }
        proof {
            lemma_free_slot_is(before, i as int);
        }
        self.subscribers.push(fresh);
        assert(self@.subscribers =~= before.push(fresh_subscriber()));
        i
    }

    /// Publishes a line: the history takes it in and every subscriber is
    /// offered it. A subscriber that has fallen behind loses its oldest
    /// waiting line; the publisher never waits.
    pub fn publish(&mut self, entry: LogEntry)
        requires
            old(self).wf(),
        ensures
            final(self).wf(),
            final(self)@ == published(old(self)@, entry@),
    {
        let ghost before = self@;
        let n = self.subscribers.len();
        let mut i: usize = 0;
        while i < n
            invariant
                self.wf(),
                n == self.subscribers@.len(),
                i <= n,
                self.history == old(self).history,
                self.buffer == old(self).buffer,
                before == old(self)@,
                before.subscribers.len() == n,
                forall|a: int|
                    0 <= a < i ==> (#[trigger] self.subscribers@[a])@ == subscriber_offered(
                        before.subscribers[a],
                        before.buffer,
                        entry@,
                    ),
                forall|a: int|
                    i <= a < n ==> (#[trigger] self.subscribers@[a])@ == before.subscribers[a],
            decreases n - i,
        {
            let buffer = self.buffer;
            self.subscribers[i].offer(buffer, entry.copy());
            i += 1;
        }
        self.history.push(entry);
        assert(self@.subscribers =~= published(before, entry@).subscribers);
    }

    /// Hands subscriber `id` its next line, or tells it what it lost or that
    /// nothing waits. No other subscriber is touched.
    pub fn receive(&mut self, id: usize) -> (d: Delivery)
        requires
            old(self).wf(),
        ensures
            final(self).wf(),
            (final(self)@, d@) == received(old(self)@, id as int),
    {
        if id >= self.subscribers.len() {
            return Delivery::Closed;
        }
        let ghost before = self@;
        let d = self.subscribers[id].next();
        assert(self@.subscribers =~= received(before, id as int).0.subscribers);
        d
    }

    /// Gives subscription `id` up. Its slot is free for the next subscriber.
    pub fn unsubscribe(&mut self, id: usize)
        requires
            old(self).wf(),
        ensures
            final(self).wf(),
            final(self)@ == unsubscribed(old(self)@, id as int),
    {
        if id < self.subscribers.len() {
            let ghost before = self@;
            self.subscribers[id].close();
            assert(self@.subscribers =~= before.subscribers.update(id as int, closed_subscriber()));
        }
    }

    /// Up to `limit` of the most recent retained lines, of one service where
    /// one is named, oldest first.
    pub fn log_history(&self, service: Option<&str>, limit: usize) -> (out: Vec<LogEntry>)
        ensures
            lines(out@) == last_n(matching(self@.history, name_of(service)), limit as nat),
            lines(out@).len() <= limit,
    {
        self.history.recent(service, limit)
    }
}

/// Something that happens at the hub.
pub enum HubOp {
    /// A line is published.
    Publish(LogLine),
    /// The subscriber of this number asks for its next line.
    Receive(int),
}

/// The hub after `op`.
pub open spec fn applied(h: HubModel, op: HubOp) -> HubModel {
    match op {
        HubOp::Publish(e) => published(h, e),
        HubOp::Receive(id) => received(h, id).0,
    }
}

/// The hub after `ops`, first to last.
pub open spec fn run(h: HubModel, ops: Seq<HubOp>) -> HubModel
    decreases ops.len(),
{
    if ops.len() == 0 {
        h
    } else {
        applied(run(h, ops.drop_last()), ops.last())
    }
}

/// The lines that `ops` publish, in order.
pub open spec fn sent(ops: Seq<HubOp>) -> Seq<LogLine>
    decreases ops.len(),
{
    if ops.len() == 0 {
        Seq::empty()
    } else {
        match ops.last() {
            HubOp::Publish(e) => sent(ops.drop_last()).push(e),
            HubOp::Receive(_) => sent(ops.drop_last()),
        }
    }
}

/// `ops` without what other subscribers than `id` do.
pub open spec fn without_others(ops: Seq<HubOp>, id: int) -> Seq<HubOp>
    decreases ops.len(),
{
    if ops.len() == 0 {
        Seq::empty()
    } else {
        match ops.last() {
            HubOp::Receive(other) if other != id => without_others(ops.drop_last(), id),
            _ => without_others(ops.drop_last(), id).push(ops.last()),
        }
    }
}

/// Every subscriber is offered every line that is published after it
/// subscribed, in the order of publication, whatever any subscriber receives
/// in the meantime.
pub proof fn law_every_line_is_offered(h: HubModel, id: int, ops: Seq<HubOp>)
    requires
        0 <= id < h.subscribers.len(),
        h.subscribers[id].open,
    ensures
        run(h, ops).subscribers.len() == h.subscribers.len(),
        run(h, ops).buffer == h.buffer,
        run(h, ops).subscribers[id].open,
        run(h, ops).subscribers[id].offered == h.subscribers[id].offered + sent(ops),
    decreases ops.len(),
{
    if ops.len() > 0 {
        law_every_line_is_offered(h, id, ops.drop_last());
        let before = run(h, ops.drop_last());
        match ops.last() {
            HubOp::Publish(e) => {
                assert(run(h, ops).subscribers[id].offered =~= h.subscribers[id].offered + sent(
                    ops,
                ));
            },
            HubOp::Receive(_) => {},
        }
    } else {
        assert(h.subscribers[id].offered =~= h.subscribers[id].offered + sent(ops));
    }
}

/// What a subscriber is offered, has received and has lost does not depend on
/// how fast the other subscribers consume: their requests can be left out
/// without any change to it.
pub proof fn law_subscribers_are_independent(h: HubModel, id: int, ops: Seq<HubOp>)
    requires
        0 <= id < h.subscribers.len(),
    ensures
        run(h, ops).subscribers.len() == h.subscribers.len(),
        run(h, without_others(ops, id)).subscribers.len() == h.subscribers.len(),
        run(h, ops).buffer == h.buffer,
        run(h, without_others(ops, id)).buffer == h.buffer,
        run(h, ops).subscribers[id] == run(h, without_others(ops, id)).subscribers[id],
    decreases ops.len(),
{
    if ops.len() > 0 {
        law_subscribers_are_independent(h, id, ops.drop_last());
        let kept = without_others(ops.drop_last(), id);
        match ops.last() {
            HubOp::Receive(other) if other != id => {},
            _ => {
                assert(without_others(ops, id).drop_last() =~= kept);
            },
        }
    }
}

/// The history keeps the latest lines whether or not anyone subscribes or
/// receives: it is what it would be had the published lines been pushed onto
/// it one after the other.
pub proof fn law_history_ignores_subscribers(h: HubModel, ops: Seq<HubOp>)
    ensures
        run(h, ops).capacity == h.capacity,
        run(h, ops).history == pushed_all(h.history, sent(ops), h.capacity),
    decreases ops.len(),
{
    if ops.len() > 0 {
        law_history_ignores_subscribers(h, ops.drop_last());
        match ops.last() {
            HubOp::Publish(e) => {
                assert(sent(ops).drop_last() =~= sent(ops.drop_last()));
            },
            HubOp::Receive(_) => {},
        }
    }
}

/// A request of one subscriber leaves every other subscriber, and the
/// history, as they were.
pub proof fn law_receive_touches_one(h: HubModel, id: int, other: int)
    requires
        0 <= other < h.subscribers.len(),
        other != id,
    ensures
        received(h, id).0.subscribers[other] == h.subscribers[other],
        received(h, id).0.history == h.history,
{
}

/// A subscriber that has not fallen behind by more than its buffer loses
/// nothing, and what it receives next is the oldest line it has not yet
/// received.
pub proof fn law_keeping_up_loses_nothing(s: SubscriberModel, buffer: nat, e: LogLine)
    requires
        s.open,
        s.missed == 0,
        s.cursor <= s.offered.len(),
        s.offered.len() - s.cursor < buffer,
    ensures
        subscriber_offered(s, buffer, e).missed == 0,
        subscriber_offered(s, buffer, e).cursor == s.cursor,
        subscriber_received(subscriber_offered(s, buffer, e)).1 == DeliveryModel::Entry(
            s.offered.push(e)[s.cursor as int],
        ),
        subscriber_received(subscriber_offered(s, buffer, e)).0.cursor == s.cursor + 1,
{
}

} // verus!
