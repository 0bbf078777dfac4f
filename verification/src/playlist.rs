//! Playlist downloads: one item per video, processed one after another. The
//! item list, its status transitions, and the single aggregate row that the
//! main list shows for the whole playlist.

use vstd::prelude::*;
use crate::download::CancelToken;
use crate::text::{append_chars, chars_of, decimal, push_decimal, string_of};

verus! {

#[derive(Debug, Clone, Copy, PartialEq, Eq, Structural)]
pub enum ItemStatus {
    Pending,
    Downloading,
    Done,
    Error,
    Stopped,
    Removed,
}

impl ItemStatus {
    pub fn label(self) -> (r: &'static str)
        ensures
            r@ == match self {
                ItemStatus::Pending => "Pending"@,
                ItemStatus::Downloading => "Downloading"@,
                ItemStatus::Done => "Done"@,
                ItemStatus::Error => "Error"@,
                ItemStatus::Stopped => "Stopped"@,
                ItemStatus::Removed => "Removed"@,
            },
    {
        match self {
            ItemStatus::Pending => "Pending",
            ItemStatus::Downloading => "Downloading",
            ItemStatus::Done => "Done",
            ItemStatus::Error => "Error",
            ItemStatus::Stopped => "Stopped",
            ItemStatus::Removed => "Removed",
        }
    }
}

/// One video of a playlist.
pub struct PlItem {
    pub url: String,
    pub title: String,
    pub status: ItemStatus,
    pub error: String,
    pub downloaded: u64,
    pub total: Option<u64>,
    pub speed: u64,
    pub output: Option<String>,
    pub cancel: CancelToken,
}


/// Items still part of the playlist.
pub open spec fn count_status(items: Seq<PlItem>, st: ItemStatus) -> nat
    decreases items.len(),
{
    if items.len() == 0 {
        0
    } else {
        count_status(items.drop_last(), st) + if items.last().status == st {
            1nat
        } else {
            0nat
        }
    }
}

pub open spec fn count_active(items: Seq<PlItem>) -> nat
    decreases items.len(),
{
    if items.len() == 0 {
        0
    } else {
        count_active(items.drop_last()) + if items.last().status != ItemStatus::Removed {
            1nat
        } else {
            0nat
        }
    }
}

pub open spec fn speed_sum(items: Seq<PlItem>) -> nat
    decreases items.len(),
{
    if items.len() == 0 {
        0
    } else {
        speed_sum(items.drop_last()) + if items.last().status == ItemStatus::Downloading {
            items.last().speed as nat
        } else {
            0nat
        }
    }
}

/// Known sizes of the items that are not removed.
pub open spec fn bytes_sum(items: Seq<PlItem>) -> nat
    decreases items.len(),
{
    if items.len() == 0 {
        0
    } else {
        bytes_sum(items.drop_last()) + if items.last().status != ItemStatus::Removed
            && items.last().total is Some {
            items.last().total->0 as nat
        } else {
            0nat
        }
    }
}

/// The aggregate row: (done, items not removed, speed of those downloading).
pub fn aggregate(items: &Vec<PlItem>) -> (r: (u64, u64, u64))
    requires
        speed_sum(items@) <= u64::MAX,
    ensures
        r.0 == count_status(items@, ItemStatus::Done),
        r.1 == count_active(items@),
        r.2 == speed_sum(items@),
{
    let mut done: u64 = 0;
    let mut total: u64 = 0;
    let mut speed: u64 = 0;
    let mut i: usize = 0;
    while i < items.len()
        invariant
            i <= items@.len(),
            speed_sum(items@) <= u64::MAX,
            done == count_status(items@.take(i as int), ItemStatus::Done),
            total == count_active(items@.take(i as int)),
            speed == speed_sum(items@.take(i as int)),
            done <= i,
            total <= i,
        decreases items.len() - i,
    {
        assert(items@.take(i + 1).drop_last() =~= items@.take(i as int));
        proof {
            lemma_speed_prefix(items@, i + 1);
        }
        let st = items[i].status;
        if st == ItemStatus::Done {
            done = done + 1;
        }
        if st != ItemStatus::Removed {
            total = total + 1;
        }
        if st == ItemStatus::Downloading {
            speed = speed + items[i].speed;
        }
        i = i + 1;
    }
    assert(items@.take(i as int) =~= items@);
    (done, total, speed)
}

proof fn lemma_speed_prefix(items: Seq<PlItem>, k: int)
    requires
        0 <= k <= items.len(),
    ensures
        speed_sum(items.take(k)) <= speed_sum(items),
    decreases items.len() - k,
{
    if k < items.len() {
        lemma_speed_prefix(items, k + 1);
        assert(items.take(k + 1).drop_last() =~= items.take(k));
    } else {
        assert(items.take(k) =~= items);
    }
}

proof fn lemma_bytes_prefix(items: Seq<PlItem>, k: int)
    requires
        0 <= k <= items.len(),
    ensures
        bytes_sum(items.take(k)) <= bytes_sum(items),
    decreases items.len() - k,
{
    if k < items.len() {
        lemma_bytes_prefix(items, k + 1);
        assert(items.take(k + 1).drop_last() =~= items.take(k));
    } else {
        assert(items.take(k) =~= items);
    }
}

/// How a playlist run ends.
#[derive(Debug, Clone, Copy, PartialEq, Eq, Structural)]
pub enum PlaylistEnd {
    /// Paused or partly stopped: resumable; `done` items are finished.
    Paused { done: u64 },
    Completed { bytes: u64 },
    /// Some video failed.
    Failed,
}

/// End state of a playlist: paused while it is paused or something is
/// still pending or stopped; complete when every remaining item is done (or
/// nothing remains); failed when an item failed.
pub open spec fn playlist_end_spec(items: Seq<PlItem>, paused: bool) -> PlaylistEnd {
    let active = count_active(items);
    let done = count_status(items, ItemStatus::Done);
    let pending = count_status(items, ItemStatus::Pending) + count_status(items, ItemStatus::Stopped);
    if paused || pending > 0 {
        PlaylistEnd::Paused { done: done as u64 }
    } else if active > 0 && done == active {
        PlaylistEnd::Completed { bytes: bytes_sum(items) as u64 }
    } else if count_status(items, ItemStatus::Error) > 0 {
        PlaylistEnd::Failed
    } else {
        PlaylistEnd::Completed { bytes: 0 }
    }
}

pub fn playlist_end(items: &Vec<PlItem>, paused: bool) -> (r: PlaylistEnd)
    requires
        bytes_sum(items@) <= u64::MAX,
    ensures
        r == playlist_end_spec(items@, paused),
{
    let mut active: u64 = 0;
    let mut done: u64 = 0;
    let mut pending: u64 = 0;
    let mut errors: u64 = 0;
    let mut bytes: u64 = 0;
    let mut i: usize = 0;
    while i < items.len()
        invariant
            i <= items@.len(),
            bytes_sum(items@) <= u64::MAX,
            active == count_active(items@.take(i as int)),
            done == count_status(items@.take(i as int), ItemStatus::Done),
            pending == count_status(items@.take(i as int), ItemStatus::Pending) + count_status(
                items@.take(i as int),
                ItemStatus::Stopped,
            ),
            errors == count_status(items@.take(i as int), ItemStatus::Error),
            bytes == bytes_sum(items@.take(i as int)),
            active <= i && done <= i && pending <= i && errors <= i,
        decreases items.len() - i,
    {
        assert(items@.take(i + 1).drop_last() =~= items@.take(i as int));
        proof {
            lemma_bytes_prefix(items@, i + 1);
        }
        let st = items[i].status;
        if st != ItemStatus::Removed {
            active = active + 1;
            if let Some(b) = items[i].total {
                bytes = bytes + b;
            }
        }
        if st == ItemStatus::Done {
            done = done + 1;
        }
        if st == ItemStatus::Pending || st == ItemStatus::Stopped {
            pending = pending + 1;
        }
        if st == ItemStatus::Error {
            errors = errors + 1;
        }
        i = i + 1;
    }
    assert(items@.take(i as int) =~= items@);
    if paused || pending > 0 {
        PlaylistEnd::Paused { done }
    } else if active > 0 && done == active {
        PlaylistEnd::Completed { bytes }
    } else if errors > 0 {
        PlaylistEnd::Failed
    } else {
        PlaylistEnd::Completed { bytes: 0 }
    }
}

/// Indices of the items shown in the playlist window (not removed).
pub fn visible_map(items: &Vec<PlItem>) -> (r: Vec<usize>)
    ensures
        forall|k: int| 0 <= k < r@.len() ==> r@[k] < items@.len() && items@[r@[k] as int].status
            != ItemStatus::Removed,
        forall|i: int|
            0 <= i < items@.len() && items@[i].status != ItemStatus::Removed ==> r@.contains(
                i as usize,
            ),
        forall|a: int, b: int| 0 <= a < b < r@.len() ==> r@[a] < r@[b],
{
    let mut out: Vec<usize> = Vec::new();
    let mut i: usize = 0;
    while i < items.len()
        invariant
            i <= items@.len(),
            forall|k: int| 0 <= k < out@.len() ==> out@[k] < i && items@[out@[k] as int].status
                != ItemStatus::Removed,
            forall|j: int|
                0 <= j < i && items@[j].status != ItemStatus::Removed ==> out@.contains(j as usize),
            forall|a: int, b: int| 0 <= a < b < out@.len() ==> out@[a] < out@[b],
        decreases items.len() - i,
    {
        if items[i].status != ItemStatus::Removed {
            let ghost before = out@;
            out.push(i);
            proof {
                assert forall|j: int|
                    0 <= j < i + 1 && items@[j].status != ItemStatus::Removed implies out@.contains(
                    j as usize,
                ) by {
                    if j < i {
                        let k = choose|k: int| 0 <= k < before.len() && before[k] == j as usize;
                        assert(out@[k] == j as usize);
                    } else {
                        assert(out@[before.len() as int] == j as usize);
                    }
                }
            }
        }
        i = i + 1;
    }
    out
}

/// The first pending item, the next one the worker runs.
pub fn next_pending(items: &Vec<PlItem>) -> (r: Option<usize>)
    ensures
        r matches Some(i) ==> i < items@.len() && items@[i as int].status == ItemStatus::Pending
            && forall|j: int| 0 <= j < i ==> items@[j].status != ItemStatus::Pending,
        r is None ==> forall|j: int| 0 <= j < items@.len() ==> items@[j].status != ItemStatus::Pending,
{
    let mut i: usize = 0;
    while i < items.len()
        invariant
            i <= items@.len(),
            forall|j: int| 0 <= j < i ==> items@[j].status != ItemStatus::Pending,
        decreases items.len() - i,
    {
        if items[i].status == ItemStatus::Pending {
            return Some(i);
        }
        i = i + 1;
    }
    None
}

/// Statuses from which an item can be resumed.
pub open spec fn resumable(st: ItemStatus) -> bool {
    st == ItemStatus::Error || st == ItemStatus::Stopped || st == ItemStatus::Pending
}

/// `now` is `was` made pending again, its error cleared and nothing else
/// changed.
pub open spec fn pending_again(now: PlItem, was: PlItem) -> bool {
    &&& now.status == ItemStatus::Pending
    &&& now.error@.len() == 0
    &&& now.url == was.url
    &&& now.title == was.title
    &&& now.downloaded == was.downloaded
    &&& now.total == was.total
    &&& now.speed == was.speed
    &&& now.output == was.output
    &&& now.cancel == was.cancel
}

/// Resumes the chosen items: an error, stopped or pending item becomes
/// pending again with its error cleared; others are left as they are.
pub fn resume_items(items: &mut Vec<PlItem>, chosen: &Vec<usize>)
    ensures
        final(items)@.len() == old(items)@.len(),
        forall|i: int|
            #![trigger final(items)@[i]]
            0 <= i < old(items)@.len() ==> {
                let was = old(items)@[i];
                let now = final(items)@[i];
                if chosen@.contains(i as usize) && resumable(was.status) {
                    pending_again(now, was)
                } else {
                    now == was
                }
            },
{
    let mut k: usize = 0;
    while k < chosen.len()
        invariant
            k <= chosen@.len(),
            items@.len() == old(items)@.len(),
            forall|i: int|
                #![trigger items@[i]]
                0 <= i < old(items)@.len() ==> {
                    let was = old(items)@[i];
                    let now = items@[i];
                    if chosen@.take(k as int).contains(i as usize) && resumable(was.status) {
                        pending_again(now, was)
                    } else {
                        now == was
                    }
                },
        decreases chosen.len() - k,
    {
        let idx = chosen[k];
        let ghost before = items@;
        if idx < items.len() {
            let st = items[idx].status;
            if st == ItemStatus::Error || st == ItemStatus::Stopped || st == ItemStatus::Pending {
                let mut it = items.remove(idx);
                it.status = ItemStatus::Pending;
                it.error = String::new();
                items.insert(idx, it);
            }
        }
        proof {
            assert forall|i: int| #![trigger items@[i]] 0 <= i < old(items)@.len() implies {
                let was = old(items)@[i];
                let now = items@[i];
                if chosen@.take(k + 1).contains(i as usize) && resumable(was.status) {
                    pending_again(now, was)
                } else {
                    now == was
                }
            } by {
                let was = old(items)@[i];
                if i == idx as int {
                    assert(chosen@.take(k + 1)[k as int] == idx);
                    if chosen@.take(k as int).contains(i as usize) && resumable(was.status) {
                        let m = choose|m: int| 0 <= m < k && #[trigger] chosen@.take(k as int)[m] == i as usize;
                        assert(chosen@.take(k + 1)[m] == i as usize);
                    }
                } else {
                    if chosen@.take(k + 1).contains(i as usize) {
                        let m = choose|m: int| 0 <= m < k + 1 && #[trigger] chosen@.take(k + 1)[m] == i as usize;
                        assert(m != k);
                        assert(chosen@.take(k as int)[m] == i as usize);
                    }
                    if chosen@.take(k as int).contains(i as usize) {
                        let m = choose|m: int| 0 <= m < k && #[trigger] chosen@.take(k as int)[m] == i as usize;
                        assert(chosen@.take(k + 1)[m] == i as usize);
                    }
                }
            }
        }
        k = k + 1;
    }
    assert(chosen@.take(k as int) =~= chosen@);
}

/// Indices of the items that "Resume all" picks up: failed or stopped ones.
pub fn resumable_indices(items: &Vec<PlItem>) -> (r: Vec<usize>)
    ensures
        forall|i: int|
            0 <= i < items@.len() ==> (r@.contains(i as usize) <==> (items@[i].status
                == ItemStatus::Error || items@[i].status == ItemStatus::Stopped)),
        forall|k: int| 0 <= k < r@.len() ==> r@[k] < items@.len(),
        forall|a: int, b: int| 0 <= a < b < r@.len() ==> r@[a] < r@[b],
{
    let mut out: Vec<usize> = Vec::new();
    let mut i: usize = 0;
    while i < items.len()
        invariant
            i <= items@.len(),
            forall|k: int| 0 <= k < out@.len() ==> out@[k] < i,
            forall|a: int, b: int| 0 <= a < b < out@.len() ==> out@[a] < out@[b],
            forall|j: int|
                0 <= j < i ==> (out@.contains(j as usize) <==> (items@[j].status
                    == ItemStatus::Error || items@[j].status == ItemStatus::Stopped)),
        decreases items.len() - i,
    {
        let st = items[i].status;
        let ghost before = out@;
        if st == ItemStatus::Error || st == ItemStatus::Stopped {
            out.push(i);
        }
        proof {
            assert forall|j: int| 0 <= j < i + 1 implies (out@.contains(j as usize) <==> (
            items@[j].status == ItemStatus::Error || items@[j].status == ItemStatus::Stopped)) by {
                if j < i {
                    if out@.contains(j as usize) {
                        let k = choose|k: int| 0 <= k < out@.len() && out@[k] == j as usize;
                        if k < before.len() {
                            assert(before.contains(j as usize));
                        }
                    }
                    if before.contains(j as usize) {
                        let k = choose|k: int| 0 <= k < before.len() && before[k] == j as usize;
                        assert(out@[k] == j as usize);
                    }
                } else {
                    if out@.contains(j as usize) {
                        let k = choose|k: int| 0 <= k < out@.len() && out@[k] == j as usize;
                        if k < before.len() {
                            assert(before[k] < i);
                        }
                    }
                    if st == ItemStatus::Error || st == ItemStatus::Stopped {
                        assert(out@[before.len() as int] == j as usize);
                    }
                }
            }
        }
        i = i + 1;
    }
    out
}

/// Marks the chosen items removed and cancels them.
pub fn delete_items(items: &mut Vec<PlItem>, chosen: &Vec<usize>)
    ensures
        final(items)@.len() == old(items)@.len(),
        forall|i: int|
            #![trigger final(items)@[i]]
            0 <= i < old(items)@.len() ==> if chosen@.contains(i as usize) {
                final(items)@[i] == (PlItem { status: ItemStatus::Removed, ..old(items)@[i] })
            } else {
                final(items)@[i] == old(items)@[i]
            },
{
    let mut k: usize = 0;
    while k < chosen.len()
        invariant
            k <= chosen@.len(),
            items@.len() == old(items)@.len(),
            forall|i: int|
                #![trigger items@[i]]
                0 <= i < old(items)@.len() ==> if chosen@.take(k as int).contains(i as usize) {
                    items@[i] == (PlItem { status: ItemStatus::Removed, ..old(items)@[i] })
                } else {
                    items@[i] == old(items)@[i]
                },
        decreases chosen.len() - k,
    {
        let idx = chosen[k];
        if idx < items.len() {
            let mut it = items.remove(idx);
            it.status = ItemStatus::Removed;
            it.cancel.cancel();
            items.insert(idx, it);
        }
        proof {
            assert forall|i: int| #![trigger items@[i]] 0 <= i < old(items)@.len() implies if chosen@.take(k + 1).contains(
                i as usize,
            ) {
                items@[i] == (PlItem { status: ItemStatus::Removed, ..old(items)@[i] })
            } else {
                items@[i] == old(items)@[i]
            } by {
                if i == idx as int {
                    assert(chosen@.take(k + 1)[k as int] == idx);
                } else {
                    if chosen@.take(k + 1).contains(i as usize) {
                        let m = choose|m: int| 0 <= m < k + 1 && #[trigger] chosen@.take(k + 1)[m] == i as usize;
                        assert(m != k);
                        assert(chosen@.take(k as int)[m] == i as usize);
                    }
                    if chosen@.take(k as int).contains(i as usize) {
                        let m = choose|m: int| 0 <= m < k && #[trigger] chosen@.take(k as int)[m] == i as usize;
                        assert(chosen@.take(k + 1)[m] == i as usize);
                    }
                }
            }
        }
        k = k + 1;
    }
    assert(chosen@.take(k as int) =~= chosen@);
}

/// Pausing a playlist: running items are cancelled and stopped (their speed
/// cleared), waiting ones stopped; the others stay as they are.
pub open spec fn paused_item(was: PlItem) -> PlItem {
    if was.status == ItemStatus::Downloading {
        PlItem { status: ItemStatus::Stopped, speed: 0, ..was }
    } else if was.status == ItemStatus::Pending {
        PlItem { status: ItemStatus::Stopped, ..was }
    } else {
        was
    }
}

pub fn pause_items(items: &mut Vec<PlItem>)
    ensures
        final(items)@.len() == old(items)@.len(),
        forall|i: int|
            0 <= i < old(items)@.len() ==> #[trigger] final(items)@[i] == paused_item(old(items)@[i]),
{
    let mut k: usize = 0;
    while k < items.len()
        invariant
            k <= items@.len(),
            items@.len() == old(items)@.len(),
            forall|i: int| 0 <= i < k ==> #[trigger] items@[i] == paused_item(old(items)@[i]),
            forall|i: int| k <= i < items@.len() ==> #[trigger] items@[i] == old(items)@[i],
        decreases items.len() - k,
    {
        let st = items[k].status;
        if st == ItemStatus::Downloading {
            let mut it = items.remove(k);
            it.cancel.cancel();
            it.status = ItemStatus::Stopped;
            it.speed = 0;
            items.insert(k, it);
        } else if st == ItemStatus::Pending {
            let mut it = items.remove(k);
            it.status = ItemStatus::Stopped;
            items.insert(k, it);
        }
        k = k + 1;
    }
}

/// Starts the run of an item: a removed item is left alone (`false`);
/// otherwise it becomes downloading with a fresh cancel token and its
/// progress, speed and error cleared.
pub fn begin_item(it: &mut PlItem) -> (started: bool)
    ensures
        started == (old(it).status != ItemStatus::Removed),
        !started ==> *final(it) == *old(it),
        started ==> {
            &&& final(it).status == ItemStatus::Downloading
            &&& final(it).downloaded == 0
            &&& final(it).total is None
            &&& final(it).speed == 0
            &&& final(it).error@.len() == 0
            &&& final(it).url == old(it).url
            &&& final(it).title == old(it).title
            &&& final(it).output == old(it).output
        },
{
    if it.status == ItemStatus::Removed {
        return false;
    }
    it.status = ItemStatus::Downloading;
    it.cancel = CancelToken::new();
    it.downloaded = 0;
    it.total = None;
    it.speed = 0;
    it.error = String::new();
    true
}

/// An item after its run ended: its speed is cleared; a removed item stays
/// removed; a cancelled run leaves a downloading item stopped (one resumed
/// meanwhile stays pending); a successful one is done, with its final file
/// and that file's size when known; otherwise it failed with `error`.
pub open spec fn ended_item(
    was: PlItem,
    cancelled: bool,
    success: bool,
    error: String,
    final_path: Option<String>,
    final_len: Option<u64>,
) -> PlItem {
    if was.status == ItemStatus::Removed {
        PlItem { speed: 0, ..was }
    } else if cancelled {
        PlItem {
            speed: 0,
            status: if was.status == ItemStatus::Downloading {
                ItemStatus::Stopped
            } else {
                was.status
            },
            ..was
        }
    } else if success {
        match final_path {
            Some(p) => match final_len {
                Some(n) => PlItem {
                    speed: 0,
                    status: ItemStatus::Done,
                    output: Some(p),
                    total: Some(n),
                    downloaded: n,
                    ..was
                },
                None => PlItem { speed: 0, status: ItemStatus::Done, output: Some(p), ..was },
            },
            None => PlItem { speed: 0, status: ItemStatus::Done, ..was },
        }
    } else {
        PlItem { speed: 0, status: ItemStatus::Error, error: error, ..was }
    }
}

/// Records how the run of an item ended (see `ended_item`); `final_len` is
/// the size of `final_path` on disk, when it could be read.
pub fn end_item(
    it: &mut PlItem,
    cancelled: bool,
    success: bool,
    error: String,
    final_path: Option<String>,
    final_len: Option<u64>,
)
    ensures
        *final(it) == ended_item(*old(it), cancelled, success, error, final_path, final_len),
{
    it.speed = 0;
    if it.status == ItemStatus::Removed {
    } else if cancelled {
        if it.status == ItemStatus::Downloading {
            it.status = ItemStatus::Stopped;
        }
    } else if success {
        it.status = ItemStatus::Done;
        if let Some(p) = final_path {
            it.output = Some(p);
            if let Some(n) = final_len {
                it.total = Some(n);
                it.downloaded = n;
            }
        }
    } else {
        it.status = ItemStatus::Error;
        it.error = error;
    }
}

/// Name of the aggregate row: `Playlist: <name> (<done>/<total>)`.
pub fn aggregate_title(name: &str, done: u64, total: u64) -> (r: String)
    ensures
        r@ == "Playlist: "@ + name@ + " ("@ + decimal(done as nat) + "/"@ + decimal(total as nat)
            + ")"@,
{
    let mut v = chars_of("Playlist: ");
    let n = chars_of(name);
    append_chars(&mut v, &n);
    let open = chars_of(" (");
    append_chars(&mut v, &open);
    push_decimal(&mut v, done);
    let slash = chars_of("/");
    append_chars(&mut v, &slash);
    push_decimal(&mut v, total);
    let close = chars_of(")");
    append_chars(&mut v, &close);
    string_of(v.as_slice())
}

/// `s` cut to `n` characters, with `…` appended when it was longer.
pub open spec fn trunc_spec(s: Seq<char>, n: nat) -> Seq<char> {
    if s.len() > n {
        s.take(n as int).push('…')
    } else {
        s
    }
}

pub fn trunc(s: &str, n: usize) -> (r: String)
    ensures
        r@ == trunc_spec(s@, n as nat),
{
    let v = chars_of(s);
    if v.len() > n {
        let mut t = crate::text::slice_vec(&v, 0, n);
        t.push('…');
        assert(t@ =~= v@.take(n as int).push('…'));
        string_of(t.as_slice())
    } else {
        string_of(v.as_slice())
    }
}

/// Percentage of a download, capped at 100.
pub fn percent(downloaded: u64, total: u64) -> (r: u64)
    requires
        total > 0,
    ensures
        r == if (if downloaded * 100 > u64::MAX {
            u64::MAX as int
        } else {
            downloaded * 100
        }) / (total as int) > 100 {
            100
        } else {
            (if downloaded * 100 > u64::MAX {
                u64::MAX as int
            } else {
                downloaded * 100
            }) / (total as int)
        },
{
    let m: u64 = if downloaded > u64::MAX / 100 {
        u64::MAX
    } else {
        downloaded * 100
    };
    let p = m / total;
    if p > 100 {
        100
    } else {
        p
    }
}

/// Done items in thousandths of the total, 0 for an empty playlist.
pub fn permille(done: usize, total: usize) -> (r: usize)
    requires
        done * 1000 <= usize::MAX,
    ensures
        r == if total == 0 {
            0
        } else {
            (done * 1000) / (total as int)
        },
{
    match (done * 1000).checked_div(total) {
        Some(v) => v,
        None => 0,
    }
}

} // verus!
