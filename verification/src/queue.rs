//! The chat output queue: one lazily created, strictly FIFO lane per
//! conversation, with one operation in flight at a time per lane. Lanes
//! are independent: work on one conversation never touches another's.
//! A full lane sheds its oldest pending progress edit; sends and deletes
//! are never dropped.

use vstd::prelude::*;

verus! {

/// One outgoing message operation.
pub enum ChatOperation {
    /// Send a new message.
    Send { text: String },
    /// Edit an existing message; `progress` marks the idempotent progress
    /// edits that backpressure may shed.
    Edit { message_id: i32, text: String, progress: bool },
    /// Delete a message.
    Delete { message_id: i32 },
}

pub open spec fn is_progress_edit(op: ChatOperation) -> bool {
    match op {
        ChatOperation::Edit { progress, .. } => progress,
        _ => false,
    }
}

/// The model of one conversation's lane.
pub struct LaneModel {
    /// Pending operations, front first.
    pub ops: Seq<ChatOperation>,
    /// Whether an operation is in flight.
    pub busy: bool,
}

struct Lane {
    conversation_id: i64,
    busy: bool,
    pending: Vec<ChatOperation>,
}

/// The queue over all conversations. The view maps each conversation with
/// a live lane to that lane's model.
pub struct OutputQueue {
    lanes: Vec<Lane>,
    cap: usize,
}

spec fn lane_model(l: Lane) -> LaneModel {
    LaneModel { ops: l.pending@, busy: l.busy }
}

pub open spec fn first_progress_idx(s: Seq<ChatOperation>) -> int
    decreases s.len(),
{
    if s.len() == 0 {
        -1
    } else if is_progress_edit(s[0]) {
        0
    } else {
        let r = first_progress_idx(s.skip(1));
        if r < 0 {
            -1
        } else {
            1 + r
        }
    }
}

pub proof fn lemma_first_progress_idx(s: Seq<ChatOperation>)
    ensures
        first_progress_idx(s) == -1 ==> forall|i: int|
            0 <= i < s.len() ==> !is_progress_edit(#[trigger] s[i]),
        first_progress_idx(s) >= 0 ==> first_progress_idx(s) < s.len() && is_progress_edit(
            s[first_progress_idx(s)],
        ) && forall|i: int| 0 <= i < first_progress_idx(s) ==> !is_progress_edit(#[trigger] s[i]),
    decreases s.len(),
{
    if s.len() > 0 && !is_progress_edit(s[0]) {
        lemma_first_progress_idx(s.skip(1));
        assert(forall|i: int| 1 <= i < s.len() ==> s[i] == s.skip(1)[i - 1]);
    }
}

/// What a lane holds after an enqueue: the operation appended; when the
/// lane is full, the oldest pending progress edit is shed first, and a
/// lane holding no progress edit grows past the bound rather than lose a
/// send or delete.
pub open spec fn enqueue_lane(s: Seq<ChatOperation>, op: ChatOperation, cap: nat) -> Seq<
    ChatOperation,
> {
    if s.len() < cap {
        s.push(op)
    } else {
        let j = first_progress_idx(s);
        if j >= 0 {
            s.remove(j).push(op)
        } else {
            s.push(op)
        }
    }
}

spec fn lanes_view(s: Seq<Lane>) -> Map<int, LaneModel>
    decreases s.len(),
{
    if s.len() == 0 {
        Map::empty()
    } else {
        lanes_view(s.drop_last()).insert(s.last().conversation_id as int, lane_model(s.last()))
    }
}

spec fn lanes_wf(s: Seq<Lane>) -> bool {
    forall|i: int, j: int|
        0 <= i < j < s.len() ==> (#[trigger] s[i]).conversation_id != (
        #[trigger] s[j]).conversation_id
}

proof fn lemma_lanes_characterize(s: Seq<Lane>)
    requires
        lanes_wf(s),
    ensures
        forall|k: int|
            lanes_view(s).contains_key(k) <==> exists|i: int|
                0 <= i < s.len() && (#[trigger] s[i]).conversation_id == k,
        forall|i: int|
            0 <= i < s.len() ==> lanes_view(s).contains_key((#[trigger] s[i]).conversation_id as int)
                && lanes_view(s)[s[i].conversation_id as int] == lane_model(s[i]),
    decreases s.len(),
{
    if s.len() > 0 {
        assert(lanes_wf(s.drop_last()));
        lemma_lanes_characterize(s.drop_last());
        assert(forall|i: int| 0 <= i < s.len() - 1 ==> s.drop_last()[i] == s[i]);
        assert forall|i: int| 0 <= i < s.len() implies lanes_view(s).contains_key(
            (#[trigger] s[i]).conversation_id as int,
        ) && lanes_view(s)[s[i].conversation_id as int] == lane_model(s[i]) by {
            if i < s.len() - 1 {
                assert(s[i].conversation_id != s.last().conversation_id);
            }
        }
        assert forall|k: int| lanes_view(s).contains_key(k) implies exists|i: int|
            0 <= i < s.len() && (#[trigger] s[i]).conversation_id == k by {
            if k == s.last().conversation_id as int {
                assert((s[s.len() - 1]).conversation_id as int == k);
            } else {
                assert(lanes_view(s.drop_last()).contains_key(k));
                let i = choose|i: int|
                    0 <= i < s.drop_last().len() && (#[trigger] s.drop_last()[i]).conversation_id
                        == k;
                assert((s[i]).conversation_id as int == k);
            }
        }
        assert forall|k: int|
            (exists|i: int| 0 <= i < s.len() && (#[trigger] s[i]).conversation_id == k) implies
            lanes_view(s).contains_key(k) by {
            let i = choose|i: int| 0 <= i < s.len() && (#[trigger] s[i]).conversation_id == k;
            assert(lanes_view(s).contains_key(s[i].conversation_id as int));
        }
    }
}

proof fn lemma_lanes_remove(s: Seq<Lane>, j: int)
    requires
        lanes_wf(s),
        0 <= j < s.len(),
    ensures
        lanes_view(s.remove(j)) =~= lanes_view(s).remove(s[j].conversation_id as int),
        lanes_wf(s.remove(j)),
    decreases s.len(),
{
    lemma_lanes_characterize(s);
    assert forall|a: int, b: int| 0 <= a < b < s.remove(j).len() implies (
    #[trigger] s.remove(j)[a]).conversation_id != (#[trigger] s.remove(j)[b]).conversation_id by {
        let a0 = if a < j {
            a
        } else {
            a + 1
        };
        let b0 = if b < j {
            b
        } else {
            b + 1
        };
        assert(s.remove(j)[a] == s[a0]);
        assert(s.remove(j)[b] == s[b0]);
    }
    if j == s.len() - 1 {
        assert(s.remove(j) =~= s.drop_last());
        assert(lanes_wf(s.drop_last()));
        lemma_lanes_characterize(s.drop_last());
        assert(!lanes_view(s.drop_last()).contains_key(s.last().conversation_id as int)) by {
            if lanes_view(s.drop_last()).contains_key(s.last().conversation_id as int) {
                let i = choose|i: int|
                    0 <= i < s.drop_last().len() && (#[trigger] s.drop_last()[i]).conversation_id
                        == s.last().conversation_id;
                assert(s.drop_last()[i] == s[i]);
            }
        }
        assert(lanes_view(s.remove(j)) =~= lanes_view(s).remove(s[j].conversation_id as int));
    } else {
        assert(s.remove(j).last() == s.last());
        assert(s.remove(j).drop_last() =~= s.drop_last().remove(j));
        assert(lanes_wf(s.drop_last()));
        lemma_lanes_remove(s.drop_last(), j);
        assert(s.drop_last()[j] == s[j]);
        assert(s[j].conversation_id != s.last().conversation_id);
        assert(lanes_view(s.remove(j)) =~= lanes_view(s).remove(s[j].conversation_id as int));
    }
}

impl OutputQueue {
    pub closed spec fn view(&self) -> Map<int, LaneModel> {
        lanes_view(self.lanes@)
    }

    pub closed spec fn wf(&self) -> bool {
        lanes_wf(self.lanes@)
    }

    /// The bound on a lane's pending depth before shedding sets in.
    pub closed spec fn cap_spec(&self) -> nat {
        self.cap as nat
    }

    /// An empty queue with the given per-conversation depth bound.
    pub fn new(cap: usize) -> (r: Self)
        ensures
            r.wf(),
            r@ == Map::<int, LaneModel>::empty(),
            r.cap_spec() == cap as nat,
    {
        OutputQueue { lanes: Vec::new(), cap }
    }

    fn find_lane(&self, conversation_id: i64) -> (r: Option<usize>)
        requires
            self.wf(),
        ensures
            match r {
                Some(j) => j < self.lanes@.len() && self.lanes@[j as int].conversation_id
                    == conversation_id,
                None => !self@.contains_key(conversation_id as int),
            },
    {
        let n = self.lanes.len();
        let mut i: usize = 0;
        while i < n
            invariant
                n == self.lanes@.len(),
                i <= n,
                lanes_wf(self.lanes@),
                forall|k: int|
                    0 <= k < i ==> (#[trigger] self.lanes@[k]).conversation_id != conversation_id,
            decreases n - i,
        {
            if self.lanes[i].conversation_id == conversation_id {
                return Some(i);
            }
            i = i + 1;
        }
        proof {
            lemma_lanes_characterize(self.lanes@);
        }
        None
    }

    /// The pending operations of a conversation, front first; empty when
    /// it has no lane.
    pub open spec fn pending_of(&self, conversation_id: int) -> Seq<ChatOperation> {
        if self@.contains_key(conversation_id) {
            self@[conversation_id].ops
        } else {
            Seq::empty()
        }
    }

    /// Queues an operation for a conversation, creating its lane on first
    /// use. Only that conversation's lane changes; every other key of the
    /// view keeps its model.
    pub fn enqueue(&mut self, conversation_id: i64, op: ChatOperation)
        requires
            old(self).wf(),
        ensures
            final(self).wf(),
            final(self).cap_spec() == old(self).cap_spec(),
            final(self)@ == old(self)@.insert(
                conversation_id as int,
                LaneModel {
                    ops: enqueue_lane(
                        old(self).pending_of(conversation_id as int),
                        op,
                        old(self).cap_spec(),
                    ),
                    busy: if old(self)@.contains_key(conversation_id as int) {
                        old(self)@[conversation_id as int].busy
                    } else {
                        false
                    },
                },
            ),
    {
        proof {
            lemma_lanes_characterize(self.lanes@);
        }
        match self.find_lane(conversation_id) {
            Some(j) => {
                let ghost s0 = self.lanes@;
                let mut lane = self.lanes.remove(j);
                proof {
                    lemma_lanes_remove(s0, j as int);
                }
                if lane.pending.len() < self.cap {
                    lane.pending.push(op);
                } else {
                    let ghost p0 = lane.pending@;
                    let n = lane.pending.len();
                    let mut k: usize = 0;
                    let mut shed: Option<usize> = None;
                    while k < n && shed.is_none()
                        invariant
                            n == lane.pending@.len(),
                            k <= n,
                            lane.pending@ == p0,
                            match shed {
                                Some(d) => d == first_progress_idx(p0) && d < n,
                                None => forall|m: int|
                                    0 <= m < k ==> !is_progress_edit(#[trigger] p0[m]),
                            },
                        decreases n - k + (if shed is None { 1int } else { 0int }),
                    {
                        let is_prog = match &lane.pending[k] {
                            ChatOperation::Edit { progress, .. } => *progress,
                            _ => false,
                        };
                        if is_prog {
                            proof {
                                assert(is_progress_edit(p0[k as int]));
                                lemma_first_progress_idx(p0);
                                let f = first_progress_idx(p0);
                                if f < 0 {
                                    assert(false);
                                } else if f < k {
                                    assert(!is_progress_edit(p0[f]));
                                    assert(false);
                                } else if f > k {
                                    assert(!is_progress_edit(p0[k as int]));
                                    assert(false);
                                }
                            }
                            shed = Some(k);
                        } else {
                            k = k + 1;
                        }
                    }
                    proof {
                        if shed is None {
                            lemma_first_progress_idx(p0);
                        }
                    }
                    match shed {
                        Some(d) => {
                            lane.pending.remove(d);
                            lane.pending.push(op);
                        },
                        None => {
                            lane.pending.push(op);
                        },
                    }
                }
                let ghost s1 = self.lanes@;
                self.lanes.push(lane);
                proof {
                    assert(self.lanes@.drop_last() =~= s1);
                    lemma_lanes_characterize(s1);
                    assert forall|a: int, b: int| 0 <= a < b < self.lanes@.len() implies (
                    #[trigger] self.lanes@[a]).conversation_id != (
                    #[trigger] self.lanes@[b]).conversation_id by {
                        if b == self.lanes@.len() - 1 {
                            assert(self.lanes@[a] == s1[a]);
                            assert(!lanes_view(s1).contains_key(conversation_id as int));
                        }
                    }
                    assert(final(self)@ =~= old(self)@.insert(
                        conversation_id as int,
                        LaneModel {
                            ops: enqueue_lane(
                                old(self).pending_of(conversation_id as int),
                                op,
                                old(self).cap_spec(),
                            ),
                            busy: old(self)@[conversation_id as int].busy,
                        },
                    ));
                }
            },
            None => {
                let mut pending: Vec<ChatOperation> = Vec::new();
                pending.push(op);
                let ghost s0 = self.lanes@;
                self.lanes.push(Lane { conversation_id, busy: false, pending });
                proof {
                    assert(self.lanes@.drop_last() =~= s0);
                    lemma_lanes_characterize(s0);
                    assert forall|a: int, b: int| 0 <= a < b < self.lanes@.len() implies (
                    #[trigger] self.lanes@[a]).conversation_id != (
                    #[trigger] self.lanes@[b]).conversation_id by {
                        if b == self.lanes@.len() - 1 {
                            assert(self.lanes@[a] == s0[a]);
                        }
                    }
                    assert(Seq::<ChatOperation>::empty().push(op) =~= enqueue_lane(
                        old(self).pending_of(conversation_id as int),
                        op,
                        old(self).cap_spec(),
                    ));
                    assert(final(self)@ =~= old(self)@.insert(
                        conversation_id as int,
                        LaneModel {
                            ops: enqueue_lane(
                                old(self).pending_of(conversation_id as int),
                                op,
                                old(self).cap_spec(),
                            ),
                            busy: false,
                        },
                    ));
                }
            },
        }
    }

    /// Hands out the front operation of a conversation's lane when the
    /// lane is idle and non-empty, marking it busy: strictly one at a
    /// time, in submission order, and independent of every other lane.
    pub fn start_next(&mut self, conversation_id: i64) -> (r: Option<ChatOperation>)
        requires
            old(self).wf(),
        ensures
            final(self).wf(),
            final(self).cap_spec() == old(self).cap_spec(),
            match r {
                Some(op) => {
                    &&& old(self)@.contains_key(conversation_id as int)
                    &&& !old(self)@[conversation_id as int].busy
                    &&& old(self)@[conversation_id as int].ops.len() > 0
                    &&& op == old(self)@[conversation_id as int].ops[0]
                    &&& final(self)@ == old(self)@.insert(
                        conversation_id as int,
                        LaneModel {
                            ops: old(self)@[conversation_id as int].ops.skip(1),
                            busy: true,
                        },
                    )
                },
                None => {
                    &&& final(self)@ == old(self)@
                    &&& (old(self)@.contains_key(conversation_id as int) ==> (old(
                        self,
                    )@[conversation_id as int].busy || old(
                        self,
                    )@[conversation_id as int].ops.len() == 0))
                },
            },
    {
        proof {
            lemma_lanes_characterize(self.lanes@);
        }
        match self.find_lane(conversation_id) {
            Some(j) => {
                if self.lanes[j].busy {
                    return None;
                }
                if self.lanes[j].pending.len() == 0 {
                    return None;
                }
                let ghost s0 = self.lanes@;
                let mut lane = self.lanes.remove(j);
                proof {
                    lemma_lanes_remove(s0, j as int);
                }
                let op = lane.pending.remove(0);
                lane.busy = true;
                let ghost s1 = self.lanes@;
                self.lanes.push(lane);
                proof {
                    assert(self.lanes@.drop_last() =~= s1);
                    lemma_lanes_characterize(s1);
                    assert forall|a: int, b: int| 0 <= a < b < self.lanes@.len() implies (
                    #[trigger] self.lanes@[a]).conversation_id != (
                    #[trigger] self.lanes@[b]).conversation_id by {
                        if b == self.lanes@.len() - 1 {
                            assert(self.lanes@[a] == s1[a]);
                            assert(!lanes_view(s1).contains_key(conversation_id as int));
                        }
                    }
                    assert(old(self)@[conversation_id as int].ops.remove(0) =~= old(
                        self,
                    )@[conversation_id as int].ops.skip(1));
                    assert(final(self)@ =~= old(self)@.insert(
                        conversation_id as int,
                        LaneModel {
                            ops: old(self)@[conversation_id as int].ops.skip(1),
                            busy: true,
                        },
                    ));
                }
                Some(op)
            },
            None => None,
        }
    }

    /// Marks the in-flight operation of a conversation as finished; an
    /// idle lane with nothing pending is torn down.
    pub fn complete(&mut self, conversation_id: i64)
        requires
            old(self).wf(),
        ensures
            final(self).wf(),
            final(self).cap_spec() == old(self).cap_spec(),
            !old(self)@.contains_key(conversation_id as int) ==> final(self)@ == old(self)@,
            old(self)@.contains_key(conversation_id as int) ==> final(self)@ == (if old(
                self,
            )@[conversation_id as int].ops.len() == 0 {
                old(self)@.remove(conversation_id as int)
            } else {
                old(self)@.insert(
                    conversation_id as int,
                    LaneModel { ops: old(self)@[conversation_id as int].ops, busy: false },
                )
            }),
    {
        proof {
            lemma_lanes_characterize(self.lanes@);
        }
        match self.find_lane(conversation_id) {
            Some(j) => {
                let ghost s0 = self.lanes@;
                let mut lane = self.lanes.remove(j);
                proof {
                    lemma_lanes_remove(s0, j as int);
                }
                if lane.pending.len() == 0 {
                    // lane torn down when idle
                } else {
                    lane.busy = false;
                    let ghost s1 = self.lanes@;
                    self.lanes.push(lane);
                    proof {
                        assert(self.lanes@.drop_last() =~= s1);
                        lemma_lanes_characterize(s1);
                        assert forall|a: int, b: int| 0 <= a < b < self.lanes@.len() implies (
                        #[trigger] self.lanes@[a]).conversation_id != (
                        #[trigger] self.lanes@[b]).conversation_id by {
                            if b == self.lanes@.len() - 1 {
                                assert(self.lanes@[a] == s1[a]);
                                assert(!lanes_view(s1).contains_key(conversation_id as int));
                            }
                        }
                        assert(final(self)@ =~= old(self)@.insert(
                            conversation_id as int,
                            LaneModel {
                                ops: old(self)@[conversation_id as int].ops,
                                busy: false,
                            },
                        ));
                    }
                }
            },
            None => {},
        }
    }
}

/// Work on one conversation never touches another: after any operation
/// that rewrites conversation `c`'s lane, every other conversation holds
/// exactly the model it held before.
pub proof fn lemma_lane_independence(m: Map<int, LaneModel>, c: int, l: LaneModel, d: int)
    requires
        d != c,
    ensures
        m.insert(c, l).contains_key(d) == m.contains_key(d),
        m.contains_key(d) ==> m.insert(c, l)[d] == m[d],
        m.remove(c).contains_key(d) == m.contains_key(d),
        m.contains_key(d) ==> m.remove(c)[d] == m[d],
{
}

/// Submission order is completion order: the operation handed out after
/// `i` earlier hand-outs of a lane holding `ops` is exactly `ops[i]`.
pub proof fn lemma_fifo_order(ops: Seq<ChatOperation>, i: int)
    requires
        0 <= i < ops.len(),
    ensures
        ops.skip(i)[0] == ops[i],
{
}

} // verus!
