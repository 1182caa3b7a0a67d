use vstd::prelude::*;
use crate::wire::push_bytes;

verus! {

/// What one read of a subscription yields, as a mathematical value.
pub enum ReadView {
    Message(Seq<u8>),
    Lagged(nat),
    Empty,
    Closed,
}

/// The state of a fan-out channel: every message published while someone was
/// subscribed, in publish order, and where each subscription stands in it.
pub struct BroadcastView {
    pub history: Seq<Seq<u8>>,
    /// Position in `history` of the oldest message still kept.
    pub base: nat,
    /// For each subscription slot, the position of its next unread message.
    pub cursors: Seq<Option<nat>>,
    pub capacity: nat,
    pub closed: bool,
}

/// How many slots hold a live subscription.
pub open spec fn live_count(cursors: Seq<Option<nat>>) -> nat
    decreases cursors.len(),
{
    if cursors.len() == 0 {
        0
    } else {
        live_count(cursors.drop_last()) + if cursors.last() is Some {
            1nat
        } else {
            0nat
        }
    }
}

impl BroadcastView {
    pub open spec fn well_formed(self) -> bool {
        &&& self.capacity > 0
        &&& self.base <= self.history.len()
        &&& self.history.len() - self.base <= self.capacity
        &&& self.base > 0 ==> self.history.len() - self.base == self.capacity
        &&& forall|id: int|
            0 <= id < self.cursors.len() && #[trigger] self.cursors[id] is Some ==> self.cursors[id]->Some_0
                <= self.history.len()
    }

    pub open spec fn cursor(self, id: nat) -> Option<nat> {
        if id < self.cursors.len() {
            self.cursors[id as int]
        } else {
            None
        }
    }

    /// Publishing: with no live subscription, or once closed, nothing happens;
    /// otherwise the message joins the history and, past the capacity, the
    /// oldest kept message is let go.
    pub open spec fn publish(self, msg: Seq<u8>) -> BroadcastView {
        if self.closed || live_count(self.cursors) == 0 {
            self
        } else {
            let h = self.history.push(msg);
            BroadcastView {
                history: h,
                base: if h.len() - self.base > self.capacity {
                    (h.len() - self.capacity) as nat
                } else {
                    self.base
                },
                ..self
            }
        }
    }

    /// Reading a subscription: a cursor behind the oldest kept message jumps to
    /// it and reports how many it skipped; otherwise the next message is handed
    /// out, or nothing is there yet, or the channel is closed.
    pub open spec fn read(self, id: nat) -> (BroadcastView, ReadView) {
        match self.cursor(id) {
            None => (self, ReadView::Closed),
            Some(c) => if c < self.base {
                (
                    BroadcastView { cursors: self.cursors.update(id as int, Some(self.base)), ..self },
                    ReadView::Lagged((self.base - c) as nat),
                )
            } else if c < self.history.len() {
                (
                    BroadcastView { cursors: self.cursors.update(id as int, Some(c + 1)), ..self },
                    ReadView::Message(self.history[c as int]),
                )
            } else if self.closed {
                (self, ReadView::Closed)
            } else {
                (self, ReadView::Empty)
            },
        }
    }
}

/// One call on a channel, for reasoning about runs of calls.
pub enum ChannelOp {
    Publish(Seq<u8>),
    Read(nat),
}

pub open spec fn step(v: BroadcastView, op: ChannelOp) -> BroadcastView {
    match op {
        ChannelOp::Publish(m) => v.publish(m),
        ChannelOp::Read(id) => v.read(id).0,
    }
}

/// The state after a run of calls.
pub open spec fn run(v: BroadcastView, ops: Seq<ChannelOp>) -> BroadcastView
    decreases ops.len(),
{
    if ops.len() == 0 {
        v
    } else {
        run(step(v, ops[0]), ops.skip(1))
    }
}

/// The messages that the reads of subscription `id` hand out during a run.
pub open spec fn delivered(v: BroadcastView, ops: Seq<ChannelOp>, id: nat) -> Seq<Seq<u8>>
    decreases ops.len(),
{
    if ops.len() == 0 {
        Seq::empty()
    } else {
        let first = match ops[0] {
            ChannelOp::Read(j) => if j == id {
                match v.read(id).1 {
                    ReadView::Message(m) => seq![m],
                    _ => Seq::empty(),
                }
            } else {
                Seq::empty()
            },
            ChannelOp::Publish(_) => Seq::empty(),
        };
        first + delivered(step(v, ops[0]), ops.skip(1), id)
    }
}

/// Whether some read of subscription `id` during a run reports lag.
pub open spec fn lags(v: BroadcastView, ops: Seq<ChannelOp>, id: nat) -> bool
    decreases ops.len(),
{
    if ops.len() == 0 {
        false
    } else {
        (ops[0] == ChannelOp::Read(id) && v.read(id).1 is Lagged) || lags(step(v, ops[0]), ops.skip(1), id)
    }
}

/// Order is kept: over any run of publishes and reads in which subscription
/// `id` is never told of lag, what it receives is exactly the published
/// messages from its starting point on, consecutive and in publish order.
pub proof fn lemma_in_publish_order(v: BroadcastView, ops: Seq<ChannelOp>, id: nat)
    requires
        v.cursor(id) is Some,
        v.cursor(id)->Some_0 <= v.history.len(),
        !lags(v, ops, id),
    ensures
        ({
            let c = v.cursor(id)->Some_0;
            let d = delivered(v, ops, id);
            let f = run(v, ops);
            &&& f.cursor(id) == Some(c + d.len())
            &&& f.history.len() >= v.history.len()
            &&& forall|i: int| 0 <= i < v.history.len() ==> #[trigger] f.history[i] == v.history[i]
            &&& c + d.len() <= f.history.len()
            &&& d == f.history.subrange(c as int, (c + d.len()) as int)
        }),
    decreases ops.len(),
{
    let c = v.cursor(id)->Some_0;
    if ops.len() == 0 {
        assert(Seq::<Seq<u8>>::empty() =~= v.history.subrange(c as int, c as int));
    } else {
        let v1 = step(v, ops[0]);
        let rest = ops.skip(1);
        assert(v1.cursor(id) is Some);
        assert(v1.history.len() >= v.history.len());
        assert(v1.cursor(id)->Some_0 <= v1.history.len());
        lemma_in_publish_order(v1, rest, id);
        let c1 = v1.cursor(id)->Some_0;
        let d1 = delivered(v1, rest, id);
        let f = run(v, ops);
        assert(f == run(v1, rest));
        assert(v1.history.len() >= v.history.len());
        assert(forall|i: int| 0 <= i < v.history.len() ==> #[trigger] v1.history[i] == v.history[i]);
        match ops[0] {
            ChannelOp::Publish(m) => {
                assert(c1 == c);
            },
            ChannelOp::Read(j) => {
                if j == id {
                    match v.read(id).1 {
                        ReadView::Message(m) => {
                            assert(c1 == c + 1);
                            assert(m == v.history[c as int]);
                            assert(delivered(v, ops, id) =~= seq![m] + d1);
                            assert(delivered(v, ops, id) =~= f.history.subrange(c as int, (c + 1 + d1.len()) as int));
                        },
                        _ => {
                            assert(c1 == c);
                        },
                    }
                } else {
                    assert(c1 == c);
                }
            },
        }
    }
}

/// Lag is reported once and exactly: a subscription whose cursor fell `k`
/// messages behind the oldest kept one reads `Lagged(k)`, and its next read is
/// the (k+1)-th message it had not read.
pub proof fn lemma_lag_reported(v: BroadcastView, id: nat)
    requires
        v.well_formed(),
        v.cursor(id) is Some,
        v.cursor(id)->Some_0 < v.base,
    ensures
        ({
            let c = v.cursor(id)->Some_0;
            let k = (v.base - c) as nat;
            let (v1, r1) = v.read(id);
            &&& r1 == ReadView::Lagged(k)
            &&& v1.read(id).1 == ReadView::Message(v.history[(c + k) as int])
        }),
{
}

/// Publishing with no subscription does nothing at all.
pub proof fn lemma_idle_publish(v: BroadcastView, msg: Seq<u8>)
    requires
        live_count(v.cursors) == 0,
    ensures
        v.publish(msg) == v,
{
}

/// What one read of a subscription yields.
#[derive(Debug)]
pub enum Received {
    /// The next message in publish order.
    Message(Vec<u8>),
    /// This many messages were dropped before they were read.
    Lagged(u64),
    /// Nothing new yet.
    Empty,
    /// The channel was shut down and everything was read.
    Closed,
}

impl View for Received {
    type V = ReadView;

    open spec fn view(&self) -> ReadView {
        match self {
            Received::Message(m) => ReadView::Message(m@),
            Received::Lagged(n) => ReadView::Lagged(*n as nat),
            Received::Empty => ReadView::Empty,
            Received::Closed => ReadView::Closed,
        }
    }
}

pub open spec fn cursor_view(c: Option<u64>) -> Option<nat> {
    match c {
        Some(x) => Some(x as nat),
        None => None,
    }
}

/// A single-writer, many-reader fan-out channel. Each subscription sees the
/// messages published after it joined, in order; a subscription that falls
/// more than `capacity` messages behind loses the oldest ones and is told how
/// many. The publisher never waits for a reader.
pub struct Broadcaster {
    capacity: usize,
    base: u64,
    kept: Vec<Vec<u8>>,
    cursors: Vec<Option<u64>>,
    closed: bool,
    history: Ghost<Seq<Seq<u8>>>,
}

impl View for Broadcaster {
    type V = BroadcastView;

    closed spec fn view(&self) -> BroadcastView {
        BroadcastView {
            history: self.history@,
            base: self.base as nat,
            cursors: self.cursors@.map_values(|c: Option<u64>| cursor_view(c)),
            capacity: self.capacity as nat,
            closed: self.closed,
        }
    }
}

impl Broadcaster {
    pub closed spec fn wf(&self) -> bool {
        &&& self@.well_formed()
        &&& self.history@.len() <= u64::MAX
        &&& self.base + self.kept@.len() == self.history@.len()
        &&& forall|i: int| 0 <= i < self.kept@.len() ==> #[trigger] self.kept@[i]@ == self.history@[self.base + i]
    }

    proof fn lemma_cursors(&self)
        ensures
            self@.cursors.len() == self.cursors@.len(),
            forall|id: int| 0 <= id < self.cursors@.len() ==> #[trigger] self@.cursors[id] == cursor_view(self.cursors@[id]),
    {
    }

    pub proof fn lemma_wf(&self)
        requires
            self.wf(),
        ensures
            self@.well_formed(),
            self@.history.len() <= u64::MAX,
    {
    }

    pub fn new(capacity: usize) -> (r: Broadcaster)
        requires
            capacity > 0,
        ensures
            r.wf(),
            r@ == (BroadcastView {
                history: Seq::empty(),
                base: 0,
                cursors: Seq::empty(),
                capacity: capacity as nat,
                closed: false,
            }),
    {
        let r = Broadcaster {
            capacity,
            base: 0,
            kept: Vec::new(),
            cursors: Vec::new(),
            closed: false,
            history: Ghost(Seq::empty()),
        };
        assert(r@.cursors =~= Seq::empty());
        r
    }

    /// How many messages were ever published to a live subscription.
    pub fn published(&self) -> (r: u64)
        requires
            self.wf(),
        ensures
            r == self@.history.len(),
    {
        self.base + self.kept.len() as u64
    }

    pub fn subscriber_count(&self) -> (r: usize)
        requires
            self.wf(),
        ensures
            r == live_count(self@.cursors),
    {
        let mut n: usize = 0;
        let mut i: usize = 0;
        proof {
            self.lemma_cursors();
        }
        while i < self.cursors.len()
            invariant
                i <= self.cursors@.len(),
                self@.cursors.len() == self.cursors@.len(),
                forall|id: int| 0 <= id < self.cursors@.len() ==> #[trigger] self@.cursors[id] == cursor_view(self.cursors@[id]),
                n == live_count(self@.cursors.take(i as int)),
                n <= i,
            decreases self.cursors.len() - i,
        {
            assert(self@.cursors.take(i + 1).drop_last() =~= self@.cursors.take(i as int));
            if self.cursors[i].is_some() {
                n = n + 1;
            }
            i = i + 1;
        }
        assert(self@.cursors.take(i as int) =~= self@.cursors);
        n
    }

    /// Joins the channel: the new subscription reads only what is published
    /// from now on. A slot let go by an earlier subscription is used again.
    pub fn subscribe(&mut self) -> (id: usize)
        requires
            old(self).wf(),
        ensures
            final(self).wf(),
            id <= old(self)@.cursors.len(),
            id < old(self)@.cursors.len() ==> old(self)@.cursors[id as int] is None,
            final(self)@ == (BroadcastView {
                cursors: if id < old(self)@.cursors.len() {
                    old(self)@.cursors.update(id as int, Some(old(self)@.history.len()))
                } else {
                    old(self)@.cursors.push(Some(old(self)@.history.len()))
                },
                ..old(self)@
            }),
    {
        proof {
            self.lemma_cursors();
        }
        let next = self.base + self.kept.len() as u64;
        let mut i: usize = 0;
        while i < self.cursors.len() && self.cursors[i].is_some()
            invariant
                i <= self.cursors@.len(),
            decreases self.cursors.len() - i,
        {
            i = i + 1;
        }
        if i < self.cursors.len() {
            self.cursors.set(i, Some(next));
        } else {
            self.cursors.push(Some(next));
        }
        assert(self@.cursors =~= if i < old(self)@.cursors.len() {
            old(self)@.cursors.update(i as int, Some(old(self)@.history.len()))
        } else {
            old(self)@.cursors.push(Some(old(self)@.history.len()))
        });
        i
    }

    /// Leaves the channel; the slot may serve a later subscription.
    pub fn unsubscribe(&mut self, id: usize)
        requires
            old(self).wf(),
            id < old(self)@.cursors.len(),
        ensures
            final(self).wf(),
            final(self)@ == (BroadcastView { cursors: old(self)@.cursors.update(id as int, None), ..old(self)@ }),
    {
        proof {
            self.lemma_cursors();
        }
        self.cursors.set(id, None);
        assert(self@.cursors =~= old(self)@.cursors.update(id as int, None));
    }

    pub fn is_closed(&self) -> (r: bool)
        ensures
            r == self@.closed,
    {
        self.closed
    }

    /// Shuts the channel down: readers get `Closed` once they have read what is
    /// kept.
    pub fn close(&mut self)
        requires
            old(self).wf(),
        ensures
            final(self).wf(),
            final(self)@ == (BroadcastView { closed: true, ..old(self)@ }),
    {
        self.closed = true;
    }

    /// Hands `msg` to every live subscription. Returns whether anyone was
    /// there to take it; with nobody, nothing is stored.
    pub fn publish(&mut self, msg: Vec<u8>) -> (r: bool)
        requires
            old(self).wf(),
            old(self)@.history.len() < u64::MAX,
        ensures
            final(self).wf(),
            final(self)@ == old(self)@.publish(msg@),
            r == (!old(self)@.closed && live_count(old(self)@.cursors) > 0),
    {
        if self.closed || self.subscriber_count() == 0 {
            return false;
        }
        proof {
            self.lemma_cursors();
        }
        let ghost m = msg@;
        self.kept.push(msg);
        self.history = Ghost(self.history@.push(m));
        if self.kept.len() > self.capacity {
            self.kept.remove(0);
            self.base = self.base + 1;
        }
        assert forall|i: int| 0 <= i < self.kept@.len() implies #[trigger] self.kept@[i]@ == self.history@[self.base + i] by {
        }
        assert(self@.cursors =~= old(self)@.cursors);
        true
    }

    /// Reads the next item of subscription `id`.
    pub fn read(&mut self, id: usize) -> (r: Received)
        requires
            old(self).wf(),
            old(self)@.cursor(id as nat) is Some,
        ensures
            final(self).wf(),
            (final(self)@, r@) == old(self)@.read(id as nat),
    {
        proof {
            self.lemma_cursors();
        }
        let c = match self.cursors[id] {
            Some(c) => c,
            None => {
                return Received::Closed;
            },
        };
        let next = self.base + self.kept.len() as u64;
        if c < self.base {
            self.cursors.set(id, Some(self.base));
            assert(self@.cursors =~= old(self)@.cursors.update(id as int, Some(old(self)@.base)));
            Received::Lagged(self.base - c)
        } else if c < next {
            let k = (c - self.base) as usize;
            let mut out: Vec<u8> = Vec::new();
            push_bytes(&mut out, self.kept[k].as_slice());
            assert(out@ =~= old(self)@.history[c as int]);
            self.cursors.set(id, Some(c + 1));
            assert(self@.cursors =~= old(self)@.cursors.update(id as int, Some((c + 1) as nat)));
            Received::Message(out)
        } else if self.closed {
            Received::Closed
        } else {
            Received::Empty
        }
    }
}

} // verus!
