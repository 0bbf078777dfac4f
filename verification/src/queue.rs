//! The download queue ("Download Later") and the table of running sessions.
//!
//! The queue holds waiting downloads and releases them, oldest first, while
//! it is running and fewer than `max` of its downloads are active. The
//! caller starts what it releases and reports back when each one ends.

use vstd::prelude::*;
use std::collections::VecDeque;

verus! {

/// A download handed over by the browser bridge or a dialog.
#[derive(Debug, Clone, Default)]
pub struct DownloadAddParams {
    pub url: String,
    pub filename: Option<String>,
    /// Skip TLS certificate verification.
    pub insecure: bool,
    pub referrer: Option<String>,
    pub user_agent: Option<String>,
    pub cookies: Option<String>,
}

pub type QueueItem = (u64, DownloadAddParams);

/// `ids` with `id` added unless already present.
pub open spec fn add_id(ids: Seq<u64>, id: u64) -> Seq<u64> {
    if ids.contains(id) {
        ids
    } else {
        ids.push(id)
    }
}

/// One pump: while the queue runs, fewer than `max` items are active and
/// something waits, the oldest waiting item is started. Gives the active ids
/// afterwards, the items started (in order) and those still waiting.
pub open spec fn pump_spec(running: bool, max: nat, active: Seq<u64>, pending: Seq<QueueItem>) -> (
    Seq<u64>,
    Seq<QueueItem>,
    Seq<QueueItem>,
)
    decreases pending.len(),
{
    if !running || active.len() >= max || pending.len() == 0 {
        (active, seq![], pending)
    } else {
        let (a, s, p) = pump_spec(running, max, add_id(active, pending[0].0), pending.drop_first());
        (a, seq![pending[0]] + s, p)
    }
}

/// Queue of downloads waiting for a free slot.
pub struct QueueState {
    running: bool,
    max: usize,
    pending: VecDeque<QueueItem>,
    running_ids: Vec<u64>,
}

impl QueueState {
    /// Whether the queue releases items.
    pub closed spec fn is_running(&self) -> bool {
        self.running
    }

    /// Most items of the queue that may be active at once.
    pub closed spec fn max_active(&self) -> nat {
        self.max as nat
    }

    /// Waiting items, oldest first.
    pub closed spec fn waiting(&self) -> Seq<QueueItem> {
        self.pending@
    }

    /// Ids of queue items that are active, each once.
    pub closed spec fn active(&self) -> Seq<u64> {
        self.running_ids@
    }

    pub closed spec fn wf(&self) -> bool {
        self.max >= 1 && self.running_ids@.no_duplicates()
    }

    /// A stopped, empty queue releasing one item at a time.
    pub fn new() -> (r: QueueState)
        ensures
            r.wf(),
            !r.is_running(),
            r.max_active() == 1,
            r.waiting().len() == 0,
            r.active().len() == 0,
    {
        QueueState { running: false, max: 1, pending: VecDeque::new(), running_ids: Vec::new() }
    }

    fn contains_running(&self, id: u64) -> (r: bool)
        ensures
            r == self.running_ids@.contains(id),
    {
        let mut i: usize = 0;
        while i < self.running_ids.len()
            invariant
                i <= self.running_ids@.len(),
                forall|j: int| 0 <= j < i ==> self.running_ids@[j] != id,
            decreases self.running_ids.len() - i,
        {
            if self.running_ids[i] == id {
                return true;
            }
            i = i + 1;
        }
        false
    }

    /// Releases items (see `pump_spec`); the caller starts each returned item.
    pub fn pump(&mut self) -> (started: Vec<QueueItem>)
        requires
            old(self).wf(),
        ensures
            final(self).wf(),
            final(self).is_running() == old(self).is_running(),
            final(self).max_active() == old(self).max_active(),
            (final(self).active(), started@, final(self).waiting()) == pump_spec(
                old(self).is_running(),
                old(self).max_active(),
                old(self).active(),
                old(self).waiting(),
            ),
    {
        let mut started: Vec<QueueItem> = Vec::new();
        let ghost total = pump_spec(self.running, self.max as nat, self.running_ids@, self.pending@);
        loop
            invariant
                self.wf(),
                self.running == old(self).running,
                self.max == old(self).max,
                total == pump_spec(old(self).running, old(self).max as nat, old(self).running_ids@, old(self).pending@),
                ({
                    let (a, s, p) = pump_spec(self.running, self.max as nat, self.running_ids@, self.pending@);
                    a == total.0 && started@ + s == total.1 && p == total.2
                }),
            decreases self.pending@.len(),
        {
            if !self.running || self.running_ids.len() >= self.max {
                assert(started@ + seq![] =~= started@);
                return started;
            }
            match self.pending.pop_front() {
                Some(item) => {
                    let ghost before = self.running_ids@;
                    let ghost old_pending = seq![item] + self.pending@;
                    assert(old_pending.drop_first() =~= self.pending@);
                    if !self.contains_running(item.0) {
                        self.running_ids.push(item.0);
                        proof {
                            assert forall|i: int, j: int|
                                0 <= i < self.running_ids@.len() && 0 <= j < self.running_ids@.len()
                                    && i != j implies self.running_ids@[i] != self.running_ids@[j] by {
                                if i < before.len() && j < before.len() {
                                    assert(before[i] != before[j]);
                                } else if i == before.len() {
                                    assert(self.running_ids@[j] == before[j]);
                                } else {
                                    assert(self.running_ids@[i] == before[i]);
                                }
                            }
                        }
                    }
                    assert(self.running_ids@ == add_id(before, item.0));
                    let ghost s_rest = pump_spec(self.running, self.max as nat, self.running_ids@, self.pending@).1;
                    started.push(item);
                    assert(started@ + s_rest =~= (started@.drop_last()) + (seq![item] + s_rest));
                },
                None => {
                    assert(started@ + seq![] =~= started@);
                    return started;
                },
            }
        }
    }

    /// Adds an item at the end of the queue, then pumps.
    pub fn push(&mut self, id: u64, params: DownloadAddParams) -> (started: Vec<QueueItem>)
        requires
            old(self).wf(),
        ensures
            final(self).wf(),
            final(self).is_running() == old(self).is_running(),
            final(self).max_active() == old(self).max_active(),
            (final(self).active(), started@, final(self).waiting()) == pump_spec(
                old(self).is_running(),
                old(self).max_active(),
                old(self).active(),
                old(self).waiting().push((id, params)),
            ),
    {
        self.pending.push_back((id, params));
        self.pump()
    }

    /// Changes the limit (at least 1), then pumps: a higher limit fills the
    /// new slots at once.
    pub fn set_max(&mut self, max: usize) -> (started: Vec<QueueItem>)
        requires
            old(self).wf(),
        ensures
            final(self).wf(),
            final(self).is_running() == old(self).is_running(),
            final(self).max_active() == if max >= 1 {
                max as nat
            } else {
                1
            },
            (final(self).active(), started@, final(self).waiting()) == pump_spec(
                old(self).is_running(),
                final(self).max_active(),
                old(self).active(),
                old(self).waiting(),
            ),
    {
        self.max = if max >= 1 {
            max
        } else {
            1
        };
        self.pump()
    }

    /// Starts the queue, then pumps.
    pub fn start(&mut self) -> (started: Vec<QueueItem>)
        requires
            old(self).wf(),
        ensures
            final(self).wf(),
            final(self).is_running(),
            final(self).max_active() == old(self).max_active(),
            (final(self).active(), started@, final(self).waiting()) == pump_spec(
                true,
                old(self).max_active(),
                old(self).active(),
                old(self).waiting(),
            ),
    {
        self.running = true;
        self.pump()
    }

    /// Stops the queue; returns the active ids, which the caller cancels.
    pub fn stop(&mut self) -> (to_cancel: Vec<u64>)
        requires
            old(self).wf(),
        ensures
            final(self).wf(),
            !final(self).is_running(),
            final(self).max_active() == old(self).max_active(),
            final(self).waiting() == old(self).waiting(),
            final(self).active() == old(self).active(),
            to_cancel@ == old(self).active(),
    {
        self.running = false;
        let mut out: Vec<u64> = Vec::new();
        let mut i: usize = 0;
        while i < self.running_ids.len()
            invariant
                i <= self.running_ids@.len(),
                out@ =~= self.running_ids@.take(i as int),
            decreases self.running_ids.len() - i,
        {
            out.push(self.running_ids[i]);
            i = i + 1;
            assert(out@ =~= self.running_ids@.take(i as int));
        }
        assert(self.running_ids@.take(i as int) =~= self.running_ids@);
        out
    }

    /// Takes every waiting item with this id out of the queue; tells whether
    /// there was one.
    pub fn remove_waiting(&mut self, id: u64) -> (was_waiting: bool)
        requires
            old(self).wf(),
        ensures
            final(self).wf(),
            final(self).is_running() == old(self).is_running(),
            final(self).max_active() == old(self).max_active(),
            final(self).active() == old(self).active(),
            final(self).waiting() == without_id(old(self).waiting(), id),
            forall|i: int| 0 <= i < final(self).waiting().len() ==> (#[trigger] final(self).waiting()[i]).0 != id,
            was_waiting == exists|i: int| 0 <= i < old(self).waiting().len() && (#[trigger] old(self).waiting()[i]).0 == id,
    {
        let mut kept: VecDeque<QueueItem> = VecDeque::new();
        let mut found: bool = false;
        let ghost orig = self.pending@;
        let ghost mut seen: Seq<QueueItem> = seq![];
        while self.pending.len() > 0
            invariant
                seen + self.pending@ == orig,
                kept@ == without_id(seen, id),
                found == exists|i: int| 0 <= i < seen.len() && (#[trigger] seen[i]).0 == id,
                self.running == old(self).running,
                self.max == old(self).max,
                self.running_ids == old(self).running_ids,
                old(self).wf(),
            decreases self.pending@.len(),
        {
            let ghost before = self.pending@;
            match self.pending.pop_front() {
                Some(item) => {
                    proof {
                        let ns = seen.push(item);
                        assert(ns.drop_last() =~= seen);
                        reveal_with_fuel(Seq::<_>::filter, 1);
                        assert(ns + self.pending@ =~= orig);
                        if item.0 == id {
                            assert(ns[seen.len() as int].0 == id);
                        }
                        assert forall|i: int| 0 <= i < seen.len() implies ns[i] == seen[i] by {}
                        seen = ns;
                    }
                    if item.0 == id {
                        found = true;
                    } else {
                        kept.push_back(item);
                    }
                },
                None => {},
            }
        }
        assert(seen =~= orig);
        self.pending = kept;
        proof {
            assert forall|i: int| 0 <= i < self.pending@.len() implies (#[trigger] self.pending@[i]).0 != id by {
                old(self).pending@.lemma_filter_pred(keeps(id), i);
            }
        }
        found
    }

    /// An item ended: frees its slot, then pumps.
    pub fn finished(&mut self, id: u64) -> (started: Vec<QueueItem>)
        requires
            old(self).wf(),
        ensures
            final(self).wf(),
            final(self).is_running() == old(self).is_running(),
            final(self).max_active() == old(self).max_active(),
            (final(self).active(), started@, final(self).waiting()) == pump_spec(
                old(self).is_running(),
                old(self).max_active(),
                old(self).active().filter(|x: u64| x != id),
                old(self).waiting(),
            ),
    {
        let mut kept: Vec<u64> = Vec::new();
        let mut i: usize = 0;
        while i < self.running_ids.len()
            invariant
                i <= self.running_ids@.len(),
                self.running_ids@.no_duplicates(),
                kept@ == self.running_ids@.take(i as int).filter(|x: u64| x != id),
                kept@.no_duplicates(),
                forall|x: u64| kept@.contains(x) ==> self.running_ids@.take(i as int).contains(x),
            decreases self.running_ids.len() - i,
        {
            let x = self.running_ids[i];
            proof {
                reveal_with_fuel(Seq::<_>::filter, 1);
                assert(self.running_ids@.take(i + 1).drop_last() =~= self.running_ids@.take(i as int));
            }
            if x != id {
                proof {
                    assert(!kept@.contains(x)) by {
                        if kept@.contains(x) {
                            let k = choose|k: int| 0 <= k < i && self.running_ids@.take(i as int)[k] == x;
                            assert(self.running_ids@[k] == self.running_ids@[i as int]);
                        }
                    }
                }
                let ghost before = kept@;
                kept.push(x);
                proof {
                    assert forall|a: int, b: int| 0 <= a < kept@.len() && 0 <= b < kept@.len() && a != b
                        implies kept@[a] != kept@[b] by {
                        if a < before.len() && b < before.len() {
                        } else if a == before.len() {
                            assert(before.contains(kept@[b]));
                        } else {
                            assert(before.contains(kept@[a]));
                        }
                    }
                    assert forall|y: u64| kept@.contains(y) implies self.running_ids@.take(i + 1).contains(y) by {
                        if before.contains(y) {
                            let k = choose|k: int| 0 <= k < before.len() && before[k] == y;
                            let m = choose|m: int| 0 <= m < i && self.running_ids@.take(i as int)[m] == y;
                            assert(self.running_ids@.take(i + 1)[m] == y);
                        } else {
                            assert(self.running_ids@.take(i + 1)[i as int] == y);
                        }
                    }
                }
            } else {
                proof {
                    assert forall|y: u64| kept@.contains(y) implies self.running_ids@.take(i + 1).contains(y) by {
                        let m = choose|m: int| 0 <= m < i && self.running_ids@.take(i as int)[m] == y;
                        assert(self.running_ids@.take(i + 1)[m] == y);
                    }
                }
            }
            i = i + 1;
        }
        assert(self.running_ids@.take(i as int) =~= self.running_ids@);
        self.running_ids = kept;
        self.pump()
    }
}

/// The queue never runs more than its limit: a pump that starts anything
/// leaves at most `max` items active, and a pump from within the limit stays
/// within it.
pub proof fn law_pump_respects_max(running: bool, max: nat, active: Seq<u64>, pending: Seq<QueueItem>)
    ensures
        pump_spec(running, max, active, pending).1.len() > 0 ==> pump_spec(running, max, active, pending).0.len() <= max,
        active.len() <= max ==> pump_spec(running, max, active, pending).0.len() <= max,
    decreases pending.len(),
{
    if !running || active.len() >= max || pending.len() == 0 {
    } else {
        let na = add_id(active, pending[0].0);
        law_pump_respects_max(running, max, na, pending.drop_first());
    }
}

/// Waiting items start oldest first: the started items are a prefix of the
/// waiting ones, and the rest keep waiting in order.
pub proof fn law_pump_is_fifo(running: bool, max: nat, active: Seq<u64>, pending: Seq<QueueItem>)
    ensures
        ({
            let (a, s, p) = pump_spec(running, max, active, pending);
            s.len() <= pending.len() && s == pending.take(s.len() as int) && p == pending.skip(s.len() as int)
        }),
    decreases pending.len(),
{
    if !running || active.len() >= max || pending.len() == 0 {
        assert(pending.take(0) =~= Seq::<QueueItem>::empty());
        assert(pending.skip(0) =~= pending);
    } else {
        let na = add_id(active, pending[0].0);
        law_pump_is_fifo(running, max, na, pending.drop_first());
        let (a, s, p) = pump_spec(running, max, na, pending.drop_first());
        assert(seq![pending[0]] + s =~= pending.take(s.len() as int + 1));
        assert(p =~= pending.skip(s.len() as int + 1));
    }
}

/// A pump leaves nothing waiting that could run: afterwards the queue is
/// stopped, full, or empty.
pub proof fn law_pump_fills_slots(running: bool, max: nat, active: Seq<u64>, pending: Seq<QueueItem>)
    ensures
        ({
            let (a, s, p) = pump_spec(running, max, active, pending);
            !running || a.len() >= max || p.len() == 0
        }),
    decreases pending.len(),
{
    if !running || active.len() >= max || pending.len() == 0 {
    } else {
        law_pump_fills_slots(running, max, add_id(active, pending[0].0), pending.drop_first());
    }
}

/// A stopped queue starts nothing.
pub proof fn law_stopped_queue_starts_nothing(max: nat, active: Seq<u64>, pending: Seq<QueueItem>)
    ensures
        pump_spec(false, max, active, pending) == (active, Seq::<QueueItem>::empty(), pending),
{
}

/// An item whose id waits nowhere in the queue is never started by a pump,
/// and none with that id is left waiting.
pub proof fn law_absent_item_never_starts(
    running: bool,
    max: nat,
    active: Seq<u64>,
    pending: Seq<QueueItem>,
    id: u64,
)
    requires
        forall|i: int| 0 <= i < pending.len() ==> (#[trigger] pending[i]).0 != id,
    ensures
        ({
            let (a, s, p) = pump_spec(running, max, active, pending);
            &&& forall|i: int| 0 <= i < s.len() ==> (#[trigger] s[i]).0 != id
            &&& forall|i: int| 0 <= i < p.len() ==> (#[trigger] p[i]).0 != id
        }),
{
    law_pump_is_fifo(running, max, active, pending);
    let (a, s, p) = pump_spec(running, max, active, pending);
    assert forall|i: int| 0 <= i < s.len() implies (#[trigger] s[i]).0 != id by {
        assert(s[i] == pending[i]);
    }
    assert forall|i: int| 0 <= i < p.len() implies (#[trigger] p[i]).0 != id by {
        assert(p[i] == pending[i + s.len()]);
    }
}

/// The waiting items without those of download `id` (what `remove_waiting`
/// leaves).
pub open spec fn without_id(pending: Seq<QueueItem>, id: u64) -> Seq<QueueItem> {
    pending.filter(keeps(id))
}

/// Whether an item is not one of download `id`.
pub open spec fn keeps(id: u64) -> spec_fn(QueueItem) -> bool {
    |it: QueueItem| it.0 != id
}

/// Cancelling a waiting download for good: once its id is taken out of
/// the waiting items (as `remove_waiting` does), no pump starts it.
pub proof fn law_cancelled_waiting_never_starts(
    running: bool,
    max: nat,
    active: Seq<u64>,
    pending: Seq<QueueItem>,
    id: u64,
)
    ensures
        forall|i: int|
            0 <= i < pump_spec(running, max, active, without_id(pending, id)).1.len() ==> (
            #[trigger] pump_spec(running, max, active, without_id(pending, id)).1[i]).0 != id,
{
    let kept = without_id(pending, id);
    assert forall|i: int| 0 <= i < kept.len() implies (#[trigger] kept[i]).0 != id by {
        pending.lemma_filter_pred(keeps(id), i);
    }
    law_absent_item_never_starts(running, max, active, kept, id);
}

// ------------------------------------------------------------------
// Sessions
// ------------------------------------------------------------------

/// Running downloads: id → (session number, payload such as the
/// cancellation token). The session number tells an old session of an id
/// from a newer one that replaced it.
pub struct Sessions<T> {
    entries: Vec<(u64, u64, T)>,
}

pub open spec fn entries_map<T>(e: Seq<(u64, u64, T)>) -> Map<u64, (u64, T)>
    decreases e.len(),
{
    if e.len() == 0 {
        Map::empty()
    } else {
        entries_map(e.drop_last()).insert(e.last().0, (e.last().1, e.last().2))
    }
}

pub open spec fn ids_unique<T>(e: Seq<(u64, u64, T)>) -> bool {
    forall|i: int, j: int| 0 <= i < e.len() && 0 <= j < e.len() && i != j ==> e[i].0 != e[j].0
}

impl<T> Sessions<T> {
    /// id → (session, payload).
    pub closed spec fn view(&self) -> Map<u64, (u64, T)> {
        entries_map(self.entries@)
    }

    pub closed spec fn wf(&self) -> bool {
        ids_unique(self.entries@)
    }

    pub fn new() -> (r: Sessions<T>)
        ensures
            r.wf(),
            r.view() == Map::<u64, (u64, T)>::empty(),
    {
        Sessions { entries: Vec::new() }
    }

    pub fn len(&self) -> (r: usize)
        requires
            self.wf(),
        ensures
            r == self.view().dom().len(),
    {
        proof {
            lemma_entries_dom(self.entries@);
        }
        self.entries.len()
    }

    fn find(&self, id: u64) -> (r: Option<usize>)
        requires
            self.wf(),
        ensures
            r matches Some(i) ==> i < self.entries@.len() && self.entries@[i as int].0 == id,
            r is None ==> !self.view().contains_key(id),
    {
        let mut i: usize = 0;
        while i < self.entries.len()
            invariant
                i <= self.entries@.len(),
                forall|j: int| 0 <= j < i ==> self.entries@[j].0 != id,
            decreases self.entries.len() - i,
        {
            if self.entries[i].0 == id {
                return Some(i);
            }
            i = i + 1;
        }
        proof {
            lemma_entries_map_lookup(self.entries@, id);
        }
        None
    }

    /// The payload of the session running for `id`.
    pub fn get(&self, id: u64) -> (r: Option<&T>)
        requires
            self.wf(),
        ensures
            r matches Some(p) ==> self.view().contains_key(id) && self.view()[id].1 == *p,
            r is None ==> !self.view().contains_key(id),
    {
        match self.find(id) {
            Some(i) => {
                proof {
                    lemma_entries_map_at(self.entries@, i as int);
                }
                Some(&self.entries[i].2)
            },
            None => None,
        }
    }

    /// Records a new session for `id`; hands back the payload of the session
    /// it replaces, which the caller cancels.
    pub fn begin(&mut self, id: u64, session: u64, payload: T) -> (replaced: Option<T>)
        requires
            old(self).wf(),
        ensures
            final(self).wf(),
            final(self).view() == old(self).view().insert(id, (session, payload)),
            replaced matches Some(p) ==> old(self).view().contains_key(id) && old(self).view()[id].1 == p,
            replaced is None ==> !old(self).view().contains_key(id),
    {
        let old_payload = self.remove_entry(id);
        let ghost mid = self.entries@;
        self.entries.push((id, session, payload));
        proof {
            assert(self.entries@.drop_last() =~= mid);
            assert forall|i: int, j: int| 0 <= i < self.entries@.len() && 0 <= j < self.entries@.len() && i != j
                implies self.entries@[i].0 != self.entries@[j].0 by {
                if i < mid.len() && j < mid.len() {
                } else if i == mid.len() {
                    lemma_entries_map_at(mid, j);
                } else {
                    lemma_entries_map_at(mid, i);
                }
            }
            assert(entries_map(self.entries@) =~= old(self).view().insert(id, (session, payload)));
        }
        match old_payload {
            Some((_, p)) => Some(p),
            None => None,
        }
    }

    /// Removes the entry of `id`, whatever its session.
    pub fn remove_entry(&mut self, id: u64) -> (r: Option<(u64, T)>)
        requires
            old(self).wf(),
        ensures
            final(self).wf(),
            final(self).view() == old(self).view().remove(id),
            r matches Some(e) ==> old(self).view().contains_key(id) && old(self).view()[id] == e,
            r is None ==> !old(self).view().contains_key(id),
    {
        match self.find(id) {
            Some(i) => {
                proof {
                    lemma_entries_map_at(self.entries@, i as int);
                    lemma_entries_remove(self.entries@, i as int);
                }
                let (_, s, p) = self.entries.remove(i);
                Some((s, p))
            },
            None => {
                assert(old(self).view().remove(id) =~= old(self).view());
                None
            },
        }
    }

    /// A session ended: removes the entry of `id` only when it still belongs
    /// to that session (a newer session may have replaced it). Tells whether
    /// it did.
    pub fn end(&mut self, id: u64, session: u64) -> (removed: bool)
        requires
            old(self).wf(),
        ensures
            final(self).wf(),
            removed == (old(self).view().contains_key(id) && old(self).view()[id].0 == session),
            removed ==> final(self).view() == old(self).view().remove(id),
            !removed ==> final(self).view() == old(self).view(),
    {
        match self.find(id) {
            Some(i) => {
                proof {
                    lemma_entries_map_at(self.entries@, i as int);
                }
                if self.entries[i].1 == session {
                    proof {
                        lemma_entries_remove(self.entries@, i as int);
                    }
                    let _ = self.entries.remove(i);
                    true
                } else {
                    false
                }
            },
            None => false,
        }
    }

    /// The ids that have a session.
    pub fn ids(&self) -> (r: Vec<u64>)
        requires
            self.wf(),
        ensures
            forall|id: u64| r@.contains(id) <==> self.view().contains_key(id),
            r@.no_duplicates(),
    {
        let mut out: Vec<u64> = Vec::new();
        let mut i: usize = 0;
        while i < self.entries.len()
            invariant
                i <= self.entries@.len(),
                ids_unique(self.entries@),
                out@.len() == i,
                forall|k: int| 0 <= k < i ==> out@[k] == self.entries@[k].0,
            decreases self.entries.len() - i,
        {
            out.push(self.entries[i].0);
            i = i + 1;
        }
        proof {
            assert forall|id: u64| out@.contains(id) <==> self.view().contains_key(id) by {
                if out@.contains(id) {
                    let k = choose|k: int| 0 <= k < out@.len() && out@[k] == id;
                    lemma_entries_map_at(self.entries@, k);
                }
                if self.view().contains_key(id) {
                    if !out@.contains(id) {
                        assert forall|j: int| 0 <= j < self.entries@.len() implies self.entries@[j].0 != id by {
                            assert(out@[j] == self.entries@[j].0);
                        }
                        lemma_entries_map_lookup(self.entries@, id);
                    }
                }
            }
            assert forall|a: int, b: int| 0 <= a < out@.len() && 0 <= b < out@.len() && a != b
                implies out@[a] != out@[b] by {
                assert(out@[a] == self.entries@[a].0 && out@[b] == self.entries@[b].0);
            }
        }
        out
    }

}

pub proof fn lemma_entries_map_lookup<T>(e: Seq<(u64, u64, T)>, id: u64)
    requires
        forall|j: int| 0 <= j < e.len() ==> e[j].0 != id,
    ensures
        !entries_map(e).contains_key(id),
    decreases e.len(),
{
    if e.len() > 0 {
        lemma_entries_map_lookup(e.drop_last(), id);
    }
}

pub proof fn lemma_entries_map_at<T>(e: Seq<(u64, u64, T)>, i: int)
    requires
        ids_unique(e),
        0 <= i < e.len(),
    ensures
        entries_map(e).contains_key(e[i].0),
        entries_map(e)[e[i].0] == (e[i].1, e[i].2),
    decreases e.len(),
{
    if i < e.len() - 1 {
        lemma_entries_map_at(e.drop_last(), i);
    }
}

pub proof fn lemma_entries_dom<T>(e: Seq<(u64, u64, T)>)
    requires
        ids_unique(e),
    ensures
        entries_map(e).dom().finite(),
        entries_map(e).dom().len() == e.len(),
    decreases e.len(),
{
    if e.len() > 0 {
        let d = e.drop_last();
        lemma_entries_dom(d);
        assert forall|j: int| 0 <= j < d.len() implies d[j].0 != e.last().0 by {}
        lemma_entries_map_lookup(d, e.last().0);
    }
}

pub proof fn lemma_entries_remove<T>(e: Seq<(u64, u64, T)>, i: int)
    requires
        ids_unique(e),
        0 <= i < e.len(),
    ensures
        ids_unique(e.remove(i)),
        entries_map(e.remove(i)) == entries_map(e).remove(e[i].0),
    decreases e.len(),
{
    let r = e.remove(i);
    assert forall|a: int, b: int| 0 <= a < r.len() && 0 <= b < r.len() && a != b implies r[a].0 != r[b].0 by {
        let ia = if a < i { a } else { a + 1 };
        let ib = if b < i { b } else { b + 1 };
        assert(r[a] == e[ia]);
        assert(r[b] == e[ib]);
    }
    if i == e.len() - 1 {
        assert(r =~= e.drop_last());
        assert forall|j: int| 0 <= j < r.len() implies r[j].0 != e[i].0 by {}
        lemma_entries_map_lookup(r, e[i].0);
        assert(entries_map(r) =~= entries_map(e).remove(e[i].0));
    } else {
        let d = e.drop_last();
        lemma_entries_remove(d, i);
        assert(r.drop_last() =~= d.remove(i));
        assert(r.last() == e.last());
        assert(entries_map(r) =~= entries_map(e).remove(e[i].0));
    }
}

/// A session that was replaced cannot end its replacement: ending the old
/// session number leaves the entry alone.
pub proof fn law_stale_session_keeps_new<T>(
    before: Map<u64, (u64, T)>,
    id: u64,
    old_session: u64,
    new_session: u64,
    payload: T,
)
    requires
        old_session != new_session,
    ensures
        ({
            let after = before.insert(id, (new_session, payload));
            !(after.contains_key(id) && after[id].0 == old_session)
        }),
{
}

} // verus!
