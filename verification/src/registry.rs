//! The master's registry of workers, fed by heartbeats, pruned of the
//! silent ones, and searched for the worker with the most free capacity.
use vstd::prelude::*;

verus! {

/// Capacity keys are the IEEE-754 single-precision bit patterns of the
/// non-negative capacity scores that the caller computes from telemetry;
/// such patterns order exactly as the scores do. A worker is given work only
/// when its score is above 30, whose key this is.
pub const MIN_SCHEDULABLE_CAPACITY: u32 = 0x41F0_0000;

/// A worker that has not reported for more than this many whole seconds is
/// taken out of the registry.
pub const STALE_AFTER_SECS: u64 = 6;

/// What the master knows of a worker: where to reach it, when it last
/// reported (milliseconds on the master's clock), and the key of its free
/// capacity.
pub struct WorkerState {
    pub ip_address: String,
    pub port: u32,
    pub last_seen_ms: u64,
    pub capacidade: u32,
}

/// The mathematical value of a worker's state.
pub struct WorkerView {
    pub ip_address: Seq<char>,
    pub port: u32,
    pub last_seen_ms: u64,
    pub capacidade: u32,
}

impl View for WorkerState {
    type V = WorkerView;

    open spec fn view(&self) -> WorkerView {
        WorkerView {
            ip_address: self.ip_address@,
            port: self.port,
            last_seen_ms: self.last_seen_ms,
            capacidade: self.capacidade,
        }
    }
}

/// A registry entry: the worker's id and its state.
pub type EntryView = (Seq<char>, WorkerView);

/// The worker may be given work.
pub open spec fn schedulable(w: WorkerView) -> bool {
    w.capacidade > MIN_SCHEDULABLE_CAPACITY
}

/// At time `now_ms` the worker has been silent for more than
/// `STALE_AFTER_SECS` whole seconds (a report from the future counts as fresh).
pub open spec fn is_stale(w: WorkerView, now_ms: u64) -> bool {
    now_ms >= w.last_seen_ms && (now_ms - w.last_seen_ms) / 1000 > STALE_AFTER_SECS
}

/// No two entries share an id.
pub open spec fn ids_unique(ws: Seq<EntryView>) -> bool {
    forall|i: int, j: int| 0 <= i < j < ws.len() ==> #[trigger] ws[i].0 != #[trigger] ws[j].0
}

/// Some entry has id `id`.
pub open spec fn has_id(ws: Seq<EntryView>, id: Seq<char>) -> bool {
    exists|i: int| 0 <= i < ws.len() && #[trigger] ws[i].0 == id
}

/// The position of an entry with id `id` (meaningful when `has_id`).
pub open spec fn position_of(ws: Seq<EntryView>, id: Seq<char>) -> int {
    choose|i: int| 0 <= i < ws.len() && #[trigger] ws[i].0 == id
}

/// The registry as a map from worker id to state.
pub open spec fn registry_map(ws: Seq<EntryView>) -> Map<Seq<char>, WorkerView> {
    Map::new(|id: Seq<char>| has_id(ws, id), |id: Seq<char>| ws[position_of(ws, id)].1)
}

/// The entries after a heartbeat of worker `id` with state `w`: its entry is
/// replaced in place, or added at the end when the worker is new.
pub open spec fn upserted(ws: Seq<EntryView>, id: Seq<char>, w: WorkerView) -> Seq<EntryView> {
    if has_id(ws, id) {
        ws.update(position_of(ws, id), (id, w))
    } else {
        ws.push((id, w))
    }
}

/// Worker `i` is the one given work among the first `n` entries: it is
/// schedulable, no schedulable one has more capacity, and every schedulable
/// one before it has less (the first of equals wins).
pub open spec fn is_best_among(ws: Seq<EntryView>, n: int, i: int) -> bool {
    &&& 0 <= i < n <= ws.len()
    &&& schedulable(ws[i].1)
    &&& forall|j: int|
        0 <= j < n && schedulable(#[trigger] ws[j].1) ==> ws[j].1.capacidade <= ws[i].1.capacidade
    &&& forall|j: int|
        0 <= j < i && schedulable(#[trigger] ws[j].1) ==> ws[j].1.capacidade < ws[i].1.capacidade
}

/// Worker `i` is the one given work.
pub open spec fn is_best(ws: Seq<EntryView>, i: int) -> bool {
    is_best_among(ws, ws.len() as int, i)
}

/// The position of the worker given work, if any.
pub open spec fn best_worker(ws: Seq<EntryView>) -> Option<int> {
    if exists|i: int| is_best(ws, i) {
        Some(choose|i: int| is_best(ws, i))
    } else {
        None
    }
}

/// Keeps the entries that are not stale at `now_ms`.
pub open spec fn fresh_at(now_ms: u64) -> spec_fn(EntryView) -> bool {
    |e: EntryView| !is_stale(e.1, now_ms)
}

/// Keeps the entries that are stale at `now_ms`.
pub open spec fn stale_at(now_ms: u64) -> spec_fn(EntryView) -> bool {
    |e: EntryView| is_stale(e.1, now_ms)
}

/// The id of an entry.
pub open spec fn entry_id() -> spec_fn(EntryView) -> Seq<char> {
    |e: EntryView| e.0
}

/// The registry once the workers stale at `now_ms` are taken out.
pub open spec fn reaped(ws: Seq<EntryView>, now_ms: u64) -> Seq<EntryView> {
    ws.filter(fresh_at(now_ms))
}

/// The ids of the workers stale at `now_ms`, in registry order.
pub open spec fn stale_ids(ws: Seq<EntryView>, now_ms: u64) -> Seq<Seq<char>> {
    ws.filter(stale_at(now_ms)).map_values(entry_id())
}

/// With unique ids, the entry with a given id is the one `position_of` names.
pub proof fn lemma_position_unique(ws: Seq<EntryView>, id: Seq<char>, k: int)
    requires
        ids_unique(ws),
        0 <= k < ws.len(),
        ws[k].0 == id,
    ensures
        has_id(ws, id),
        position_of(ws, id) == k,
{
    assert(has_id(ws, id));
    let p = position_of(ws, id);
    if p < k {
        assert(ws[p].0 != ws[k].0);
    } else if p > k {
        assert(ws[k].0 != ws[p].0);
    }
}

/// A heartbeat updates the registry as a map insert does, and keeps ids unique.
pub proof fn lemma_upsert_is_map_insert(ws: Seq<EntryView>, id: Seq<char>, w: WorkerView)
    requires
        ids_unique(ws),
    ensures
        ids_unique(upserted(ws, id, w)),
        registry_map(upserted(ws, id, w)) == registry_map(ws).insert(id, w),
        registry_map(upserted(ws, id, w)).len() == registry_map(ws).len()
            + (if has_id(ws, id) { 0int } else { 1int }),
{
    let nw = upserted(ws, id, w);
    if has_id(ws, id) {
        let k = position_of(ws, id);
        assert forall|i: int, j: int| 0 <= i < j < nw.len() implies #[trigger] nw[i].0
            != #[trigger] nw[j].0 by {
            assert(ws[i].0 != ws[j].0);
        }
    } else {
        assert forall|i: int, j: int| 0 <= i < j < nw.len() implies #[trigger] nw[i].0
            != #[trigger] nw[j].0 by {
            if j == ws.len() {
                assert(ws[i].0 == nw[i].0);
            } else {
                assert(ws[i].0 != ws[j].0);
            }
        }
    }
    assert forall|key: Seq<char>| #[trigger] registry_map(nw).dom().contains(key)
        <==> registry_map(ws).insert(id, w).dom().contains(key) by {
        if key == id {
            if has_id(ws, id) {
                let k = position_of(ws, id);
                assert(nw[k].0 == id);
            } else {
                assert(nw[ws.len() as int].0 == id);
            }
        } else {
            if has_id(ws, key) {
                let k = position_of(ws, key);
                assert(nw[k].0 == key);
            }
            if has_id(nw, key) {
                let k = position_of(nw, key);
                assert(ws[k].0 == key);
            }
        }
    }
    assert forall|key: Seq<char>| #[trigger] registry_map(nw).dom().contains(key) implies
        registry_map(nw)[key] == registry_map(ws).insert(id, w)[key] by {
        if key == id {
            if has_id(ws, id) {
                let k = position_of(ws, id);
                lemma_position_unique(nw, id, k);
            } else {
                lemma_position_unique(nw, id, ws.len() as int);
            }
        } else {
            let k = position_of(nw, key);
            assert(ws[k].0 == key);
            lemma_position_unique(ws, key, k);
        }
    }
    assert(registry_map(nw) =~= registry_map(ws).insert(id, w));
    lemma_registry_map_finite(ws);
}

/// The registry's map has finitely many workers.
pub proof fn lemma_registry_map_finite(ws: Seq<EntryView>)
    ensures
        registry_map(ws).dom().finite(),
{
    let ids = ws.map_values(entry_id()).to_set();
    assert forall|key: Seq<char>| #[trigger] registry_map(ws).dom().contains(key) implies ids.contains(
        key,
    ) by {
        let k = position_of(ws, key);
        assert(ws.map_values(entry_id())[k] == key);
    }
    ws.map_values(entry_id()).lemma_cardinality_of_set();
    vstd::set_lib::lemma_len_subset(registry_map(ws).dom(), ids);
}

/// Once a worker has reported, it is registered: a second heartbeat from it
/// finds it (and so queues nothing new), and its recorded state is the one it
/// reported last.
pub proof fn lemma_registered_after_heartbeat(ws: Seq<EntryView>, id: Seq<char>, w: WorkerView)
    requires
        ids_unique(ws),
    ensures
        has_id(upserted(ws, id, w), id),
        registry_map(upserted(ws, id, w))[id] == w,
{
    lemma_upsert_is_map_insert(ws, id, w);
    assert(registry_map(upserted(ws, id, w)).dom().contains(id));
}

/// A worker survives pruning until it has been silent for more than
/// `STALE_AFTER_SECS` whole seconds: after a heartbeat at `w.last_seen_ms`,
/// pruning at any time before 7 seconds have passed keeps it.
pub proof fn lemma_fresh_heartbeat_survives(
    ws: Seq<EntryView>,
    id: Seq<char>,
    w: WorkerView,
    now_ms: u64,
)
    requires
        ids_unique(ws),
        now_ms < w.last_seen_ms + (STALE_AFTER_SECS + 1) * 1000,
    ensures
        has_id(reaped(upserted(ws, id, w), now_ms), id),
{
    let nw = upserted(ws, id, w);
    lemma_registered_after_heartbeat(ws, id, w);
    let k = position_of(nw, id);
    lemma_upsert_is_map_insert(ws, id, w);
    lemma_position_unique(nw, id, k);
    assert(nw[k].1 == registry_map(nw)[id]);
    assert(!is_stale(nw[k].1, now_ms));
    lemma_reap_exact(nw, now_ms);
    assert(reaped(nw, now_ms).contains(nw[k]));
    let j = choose|j: int| 0 <= j < reaped(nw, now_ms).len() && reaped(nw, now_ms)[j] == nw[k];
    assert(reaped(nw, now_ms)[j].0 == id);
}

/// Taking entries out keeps ids unique.
pub proof fn lemma_filter_keeps_ids_unique(ws: Seq<EntryView>, p: spec_fn(EntryView) -> bool)
    requires
        ids_unique(ws),
    ensures
        ids_unique(ws.filter(p)),
    decreases ws.len(),
{
    reveal(Seq::filter);
    if ws.len() > 0 {
        let rest = ws.drop_last();
        assert(ids_unique(rest)) by {
            assert forall|i: int, j: int| 0 <= i < j < rest.len() implies #[trigger] rest[i].0
                != #[trigger] rest[j].0 by {
                assert(ws[i].0 != ws[j].0);
            }
        }
        lemma_filter_keeps_ids_unique(rest, p);
        let f = rest.filter(p);
        if p(ws.last()) {
            assert forall|i: int| 0 <= i < f.len() implies #[trigger] f[i].0 != ws.last().0 by {
                assert(f.contains(f[i]));
                rest.lemma_filter_contains_rev(p, f[i]);
                let j = choose|j: int| 0 <= j < rest.len() && rest[j] == f[i];
                assert(ws[j] == rest[j]);
                assert(ws[j].0 != ws[ws.len() - 1].0);
            }
            let g = f.push(ws.last());
            assert forall|i: int, j: int| 0 <= i < j < g.len() implies #[trigger] g[i].0
                != #[trigger] g[j].0 by {
                if j == f.len() {
                    assert(f[i].0 != ws.last().0);
                } else {
                    assert(f[i].0 != f[j].0);
                }
            }
        }
    }
}

/// Filtering with a predicate that every element meets changes nothing.
pub proof fn lemma_filter_all_pass(ws: Seq<EntryView>, p: spec_fn(EntryView) -> bool)
    requires
        forall|i: int| 0 <= i < ws.len() ==> p(#[trigger] ws[i]),
    ensures
        ws.filter(p) == ws,
    decreases ws.len(),
{
    reveal(Seq::filter);
    if ws.len() > 0 {
        let rest = ws.drop_last();
        assert forall|i: int| 0 <= i < rest.len() implies p(#[trigger] rest[i]) by {
            assert(ws[i] == rest[i]);
        }
        lemma_filter_all_pass(rest, p);
        assert(p(ws[ws.len() - 1]));
        assert(rest.push(ws.last()) =~= ws);
    }
}

/// Pruning leaves exactly the workers that are not stale: none of those left
/// is stale, every one that is not stale stays, and pruning again at the same
/// time changes nothing.
pub proof fn lemma_reap_exact(ws: Seq<EntryView>, now_ms: u64)
    ensures
        forall|i: int| 0 <= i < reaped(ws, now_ms).len() ==> !is_stale(
            #[trigger] reaped(ws, now_ms)[i].1,
            now_ms,
        ),
        forall|i: int| 0 <= i < ws.len() && !is_stale(#[trigger] ws[i].1, now_ms) ==> reaped(
            ws,
            now_ms,
        ).contains(ws[i]),
        reaped(reaped(ws, now_ms), now_ms) == reaped(ws, now_ms),
{
    let r = reaped(ws, now_ms);
    assert forall|i: int| 0 <= i < r.len() implies !is_stale(#[trigger] r[i].1, now_ms) by {
        ws.lemma_filter_pred(fresh_at(now_ms), i);
    }
    assert forall|i: int| 0 <= i < ws.len() && !is_stale(#[trigger] ws[i].1, now_ms) implies r.contains(
        ws[i],
    ) by {
        ws.lemma_filter_contains(fresh_at(now_ms), i);
    }
    assert forall|i: int| 0 <= i < r.len() implies (fresh_at(now_ms))(#[trigger] r[i]) by {
        ws.lemma_filter_pred(fresh_at(now_ms), i);
    }
    lemma_filter_all_pass(r, fresh_at(now_ms));
}

/// At most one worker is the one given work.
pub proof fn lemma_best_unique(ws: Seq<EntryView>, i: int, j: int)
    requires
        is_best(ws, i),
        is_best(ws, j),
    ensures
        i == j,
{
    if i < j {
        assert(ws[i].1.capacidade < ws[j].1.capacidade);
        assert(ws[i].1.capacidade <= ws[j].1.capacidade);
        assert(ws[j].1.capacidade <= ws[i].1.capacidade);
    } else if j < i {
        assert(ws[j].1.capacidade < ws[i].1.capacidade);
        assert(ws[i].1.capacidade <= ws[j].1.capacidade);
    }
}

/// Some worker is given work exactly when some worker is schedulable.
pub proof fn lemma_best_exists(ws: Seq<EntryView>)
    ensures
        best_worker(ws) is Some <==> exists|j: int| 0 <= j < ws.len() && schedulable(#[trigger] ws[j].1),
        best_worker(ws) matches Some(i) ==> is_best(ws, i),
{
    if exists|j: int| 0 <= j < ws.len() && schedulable(#[trigger] ws[j].1) {
        let b = lemma_best_among_exists(ws, ws.len() as int);
        assert(is_best(ws, b));
    }
}

/// Work goes to a worker exactly when some worker's capacity key is above
/// `MIN_SCHEDULABLE_CAPACITY` (a score above 30); the worker chosen has such a
/// key, and no worker with such a key has a higher one.
pub proof fn lemma_best_threshold(ws: Seq<EntryView>)
    ensures
        (exists|j: int| 0 <= j < ws.len() && #[trigger] ws[j].1.capacidade > MIN_SCHEDULABLE_CAPACITY)
            <==> best_worker(ws) is Some,
        best_worker(ws) matches Some(i) ==> {
            &&& 0 <= i < ws.len()
            &&& ws[i].1.capacidade > MIN_SCHEDULABLE_CAPACITY
            &&& forall|j: int|
                0 <= j < ws.len() && #[trigger] ws[j].1.capacidade > MIN_SCHEDULABLE_CAPACITY
                    ==> ws[j].1.capacidade <= ws[i].1.capacidade
        },
{
    lemma_best_exists(ws);
    if best_worker(ws) is Some {
        let i = best_worker(ws)->0;
        assert forall|j: int|
            0 <= j < ws.len() && #[trigger] ws[j].1.capacidade > MIN_SCHEDULABLE_CAPACITY implies ws[j].1.capacidade
            <= ws[i].1.capacidade by {
            assert(schedulable(ws[j].1));
        }
        assert(ws[i].1.capacidade > MIN_SCHEDULABLE_CAPACITY);
    }
    if exists|j: int| 0 <= j < ws.len() && #[trigger] ws[j].1.capacidade > MIN_SCHEDULABLE_CAPACITY {
        let j = choose|j: int| 0 <= j < ws.len() && #[trigger] ws[j].1.capacidade > MIN_SCHEDULABLE_CAPACITY;
        assert(schedulable(ws[j].1));
    }
}

/// A worker is stale exactly when at least `STALE_AFTER_SECS + 1` whole
/// seconds (7000 ms) have passed since it last reported, however long ago that was.
pub proof fn lemma_stale_exactly_after(w: WorkerView, now_ms: u64)
    ensures
        is_stale(w, now_ms) <==> now_ms as int >= w.last_seen_ms as int + (STALE_AFTER_SECS + 1)
            * 1000,
{
    if now_ms >= w.last_seen_ms {
        let d = (now_ms - w.last_seen_ms) as int;
        assert(d / 1000 > 6 <==> d >= 7000) by (nonlinear_arith)
            requires
                d >= 0,
        ;
    }
}

/// Pruning at `now_ms` keeps exactly the workers heard from in the last
/// 7 seconds, and answers the id of every worker silent for longer.
pub proof fn lemma_reap_by_silence(ws: Seq<EntryView>, now_ms: u64)
    ensures
        forall|i: int|
            0 <= i < reaped(ws, now_ms).len() ==> (now_ms as int) < #[trigger] reaped(
                ws,
                now_ms,
            )[i].1.last_seen_ms as int + 7000,
        forall|i: int|
            0 <= i < ws.len() && (now_ms as int) < #[trigger] ws[i].1.last_seen_ms as int + 7000
                ==> reaped(ws, now_ms).contains(ws[i]),
        forall|i: int|
            0 <= i < ws.len() && now_ms as int >= #[trigger] ws[i].1.last_seen_ms as int + 7000
                ==> !reaped(ws, now_ms).contains(ws[i]) && stale_ids(ws, now_ms).contains(ws[i].0),
{
    lemma_reap_exact(ws, now_ms);
    let r = reaped(ws, now_ms);
    assert forall|i: int| 0 <= i < r.len() implies (now_ms as int) < #[trigger] r[i].1.last_seen_ms as int
        + 7000 by {
        lemma_stale_exactly_after(r[i].1, now_ms);
    }
    assert forall|i: int|
        0 <= i < ws.len() && (now_ms as int) < #[trigger] ws[i].1.last_seen_ms as int + 7000 implies r.contains(
        ws[i],
    ) by {
        lemma_stale_exactly_after(ws[i].1, now_ms);
    }
    assert forall|i: int|
        0 <= i < ws.len() && now_ms as int >= #[trigger] ws[i].1.last_seen_ms as int + 7000 implies !r.contains(
        ws[i],
    ) && stale_ids(ws, now_ms).contains(ws[i].0) by {
        lemma_stale_exactly_after(ws[i].1, now_ms);
        if r.contains(ws[i]) {
            let k = choose|k: int| 0 <= k < r.len() && r[k] == ws[i];
            lemma_stale_exactly_after(r[k].1, now_ms);
        }
        ws.lemma_filter_contains(stale_at(now_ms), i);
        let g = ws.filter(stale_at(now_ms));
        let k = choose|k: int| 0 <= k < g.len() && g[k] == ws[i];
        assert(g.map_values(entry_id())[k] == ws[i].0);
    }
}

/// Among the first `n` entries, when one is schedulable, one is given work.
proof fn lemma_best_among_exists(ws: Seq<EntryView>, n: int) -> (b: int)
    requires
        0 <= n <= ws.len(),
        exists|j: int| 0 <= j < n && schedulable(#[trigger] ws[j].1),
    ensures
        is_best_among(ws, n, b),
    decreases n,
{
    let last = n - 1;
    if exists|j: int| 0 <= j < last && schedulable(#[trigger] ws[j].1) {
        let p = lemma_best_among_exists(ws, last);
        if schedulable(ws[last].1) && ws[last].1.capacidade > ws[p].1.capacidade {
            last
        } else {
            p
        }
    } else {
        assert(schedulable(ws[last].1));
        last
    }
}

/// The workers the master knows, one entry per worker id, in the order they
/// first reported.
pub struct WorkerRegistry {
    workers: Vec<(String, WorkerState)>,
}

impl View for WorkerRegistry {
    type V = Seq<EntryView>;

    closed spec fn view(&self) -> Seq<EntryView> {
        self.workers@.map_values(|e: (String, WorkerState)| (e.0@, e.1@))
    }
}

impl WorkerRegistry {
    /// No two entries share an id.
    pub open spec fn wf(&self) -> bool {
        ids_unique(self@)
    }

    /// An empty registry.
    pub fn new() -> (r: WorkerRegistry)
        ensures
            r@ == Seq::<EntryView>::empty(),
            r.wf(),
    {
        let r = WorkerRegistry { workers: Vec::new() };
        assert(r@ =~= Seq::<EntryView>::empty());
        r
    }

    /// How many workers are registered.
    pub fn len(&self) -> (n: usize)
        ensures
            n == self@.len(),
    {
        self.workers.len()
    }

    /// The id and state of entry `i`.
    pub fn get(&self, i: usize) -> (e: (&String, &WorkerState))
        requires
            i < self@.len(),
        ensures
            e.0@ == self@[i as int].0,
            e.1@ == self@[i as int].1,
    {
        let entry = &self.workers[i];
        (&entry.0, &entry.1)
    }

    /// The position of worker `id`, if it is registered.
    pub fn position(&self, id: &String) -> (p: Option<usize>)
        requires
            self.wf(),
        ensures
            match p {
                Some(k) => has_id(self@, id@) && k == position_of(self@, id@),
                None => !has_id(self@, id@),
            },
    {
        let mut i: usize = 0;
        while i < self.workers.len()
            invariant
                i <= self@.len(),
                self@.len() == self.workers@.len(),
                ids_unique(self@),
                forall|j: int| 0 <= j < i ==> #[trigger] self@[j].0 != id@,
            decreases self.workers.len() - i,
        {
            if self.workers[i].0 == *id {
                proof {
                    lemma_position_unique(self@, id@, i as int);
                }
                return Some(i);
            }
            i = i + 1;
        }
        None
    }

    /// Records a heartbeat of worker `id`: its state becomes `state`.
    /// Answers whether the worker was not registered before.
    pub fn upsert(&mut self, id: String, state: WorkerState) -> (is_new: bool)
        requires
            old(self).wf(),
        ensures
            final(self).wf(),
            final(self)@ == upserted(old(self)@, id@, state@),
            is_new == !has_id(old(self)@, id@),
    {
        let ghost entry = (id@, state@);
        proof {
            lemma_upsert_is_map_insert(self@, id@, state@);
        }
        match self.position(&id) {
            Some(k) => {
                self.workers.set(k, (id, state));
                assert(self@ =~= old(self)@.update(k as int, entry));
                false
            },
            None => {
                self.workers.push((id, state));
                assert(self@ =~= old(self)@.push(entry));
                true
            },
        }
    }

    /// The position of the worker to give work to: the schedulable worker
    /// with the highest capacity, the first of equals.
    pub fn best(&self) -> (b: Option<usize>)
        ensures
            match b {
                Some(i) => best_worker(self@) == Some(i as int),
                None => best_worker(self@) is None,
            },
            b is Some <==> exists|j: int|
                0 <= j < self@.len() && #[trigger] self@[j].1.capacidade > MIN_SCHEDULABLE_CAPACITY,
            b matches Some(i) ==> {
                &&& i < self@.len()
                &&& self@[i as int].1.capacidade > MIN_SCHEDULABLE_CAPACITY
                &&& forall|j: int|
                    0 <= j < self@.len() && #[trigger] self@[j].1.capacidade > MIN_SCHEDULABLE_CAPACITY
                        ==> self@[j].1.capacidade <= self@[i as int].1.capacidade
            },
    {
        proof {
            lemma_best_threshold(self@);
        }
        let mut best: Option<usize> = None;
        let mut i: usize = 0;
        while i < self.workers.len()
            invariant
                i <= self@.len(),
                self@.len() == self.workers@.len(),
                match best {
                    Some(b) => is_best_among(self@, i as int, b as int),
                    None => forall|j: int| 0 <= j < i ==> !schedulable(#[trigger] self@[j].1),
                },
            decreases self.workers.len() - i,
        {
            let c = self.workers[i].1.capacidade;
            assert(c == self@[i as int].1.capacidade);
            if c > MIN_SCHEDULABLE_CAPACITY {
                match best {
                    None => {
                        best = Some(i);
                    },
                    Some(b) => {
                        if c > self.workers[b].1.capacidade {
                            best = Some(i);
                        }
                    },
                }
            }
            i = i + 1;
        }
        proof {
            match best {
                Some(b) => {
                    assert(is_best(self@, b as int));
                    lemma_best_unique(self@, b as int, choose|x: int| is_best(self@, x));
                },
                None => {
                    if exists|x: int| is_best(self@, x) {
                        let x = choose|x: int| is_best(self@, x);
                        assert(schedulable(self@[x].1));
                    }
                },
            }
        }
        best
    }

    /// Takes out the workers stale at `now_ms`, keeping the others in order,
    /// and answers the ids taken out, in registry order.
    pub fn reap(&mut self, now_ms: u64) -> (removed: Vec<String>)
        requires
            old(self).wf(),
        ensures
            final(self).wf(),
            final(self)@ == reaped(old(self)@, now_ms),
            removed.deep_view() == stale_ids(old(self)@, now_ms),
            forall|i: int|
                0 <= i < final(self)@.len() ==> (now_ms as int) < #[trigger] final(self)@[i].1.last_seen_ms as int
                    + 7000,
            forall|i: int|
                0 <= i < old(self)@.len() && (now_ms as int) < #[trigger] old(self)@[i].1.last_seen_ms as int
                    + 7000 ==> final(self)@.contains(old(self)@[i]),
            forall|i: int|
                0 <= i < old(self)@.len() && now_ms as int >= #[trigger] old(self)@[i].1.last_seen_ms as int
                    + 7000 ==> !final(self)@.contains(old(self)@[i]) && removed.deep_view().contains(
                    old(self)@[i].0,
                ),
    {
        let ghost ws = old(self)@;
        proof {
            lemma_reap_by_silence(ws, now_ms);
        }
        let mut removed: Vec<String> = Vec::new();
        let mut i: usize = 0;
        let ghost mut k: int = 0;
        proof {
            assert(ws.take(0) =~= Seq::<EntryView>::empty());
            reveal(Seq::filter);
            assert(ws.take(0).filter(fresh_at(now_ms)) =~= Seq::<EntryView>::empty());
            assert(ws.take(0).filter(stale_at(now_ms)) =~= Seq::<EntryView>::empty());
            assert(self@ =~= ws.take(0).filter(fresh_at(now_ms)) + ws.skip(0));
            assert(removed.deep_view() =~= ws.take(0).filter(stale_at(now_ms)).map_values(
                entry_id(),
            ));
        }
        while i < self.workers.len()
            invariant
                0 <= k <= ws.len(),
                self@ == ws.take(k).filter(fresh_at(now_ms)) + ws.skip(k),
                self@.len() == self.workers@.len(),
                i == ws.take(k).filter(fresh_at(now_ms)).len(),
                removed.deep_view() == ws.take(k).filter(stale_at(now_ms)).map_values(entry_id()),
            decreases self.workers.len() - i,
        {
            let ghost kept = ws.take(k).filter(fresh_at(now_ms));
            let ghost gone = ws.take(k).filter(stale_at(now_ms));
            assert(k < ws.len());
            assert(self@[i as int] == ws[k]);
            assert(ws.take(k + 1) =~= ws.take(k).push(ws[k]));
            proof {
                ws.take(k).lemma_filter_push(ws[k], fresh_at(now_ms));
                ws.take(k).lemma_filter_push(ws[k], stale_at(now_ms));
            }
            let last_seen = self.workers[i].1.last_seen_ms;
            let stale = now_ms >= last_seen && (now_ms - last_seen) / 1000 > STALE_AFTER_SECS;
            assert(stale == is_stale(ws[k].1, now_ms));
            if stale {
                let ghost before = self@;
                let ghost removed_before = removed.deep_view();
                let entry = self.workers.remove(i);
                assert(self@ =~= before.remove(i as int));
                assert(self@ =~= kept + ws.skip(k + 1));
                assert(entry.0@ == ws[k].0);
                removed.push(entry.0);
                assert(removed.deep_view() =~= removed_before.push(ws[k].0));
                assert(removed.deep_view() =~= gone.push(ws[k]).map_values(entry_id()));
            } else {
                i = i + 1;
                assert(self@ =~= kept.push(ws[k]) + ws.skip(k + 1));
            }
            proof {
                k = k + 1;
            }
        }
        proof {
            assert(ws.take(k) =~= ws);
            assert(self@ =~= ws.filter(fresh_at(now_ms)));
            lemma_filter_keeps_ids_unique(ws, fresh_at(now_ms));
        }
        removed
    }
}

} // verus!
