//! The file-event debouncer: merges raw filesystem notifications into
//! coalesced change batches.
//!
//! The first event after quiescence starts a timer of the configured
//! window; every further event before the timer fires resets it and
//! accumulates its paths. When the window elapses uninterrupted, one
//! batch carrying the union of all accumulated paths is emitted and the
//! state clears.

use vstd::prelude::*;

verus! {

/// The kind of change a filesystem notification reports.
#[derive(Clone, Copy, PartialEq, Eq, Structural, Debug)]
pub enum WatchEventKind {
    Modify,
    Create,
    Remove,
}

/// One raw notification: the touched paths, the kind, and when it
/// arrived.
#[derive(Debug)]
pub struct WatchEvent {
    pub paths: Vec<String>,
    pub kind: WatchEventKind,
    pub timestamp: u64,
}

/// One coalesced change batch: the union of all paths touched within
/// one quiescence window. Never empty.
#[derive(Debug)]
pub struct DebouncedBatch {
    pub paths: Vec<String>,
}

/// The set of path texts a list of paths denotes.
pub open spec fn spec_path_set(s: Seq<String>) -> Set<Seq<char>> {
    Set::new(|p: Seq<char>| exists|i: int| 0 <= i < s.len() && s[i]@ == p)
}

/// The debouncer's abstract state: the window, and the pending set of
/// paths with its deadline, if a batch is accumulating.
pub struct DebouncerView {
    pub window: u64,
    pub pending: Option<(Set<Seq<char>>, u64)>,
}

/// Feeding one event: accumulate its paths and push the deadline out
/// to the event time plus the window.
pub open spec fn spec_debounce_feed(v: DebouncerView, ps: Set<Seq<char>>, t: u64) -> DebouncerView {
    let acc = match v.pending {
        Some((old_ps, _)) => old_ps.union(ps),
        None => ps,
    };
    DebouncerView { window: v.window, pending: Some((acc, (t + v.window) as u64)) }
}

/// Polling at a moment: once the deadline has passed, the pending set
/// is emitted and the state clears; before it, nothing happens.
pub open spec fn spec_debounce_poll(v: DebouncerView, now: u64) -> (DebouncerView, Option<
    Set<Seq<char>>,
>) {
    match v.pending {
        Some((ps, deadline)) => if now >= deadline {
            (DebouncerView { window: v.window, pending: None }, Some(ps))
        } else {
            (v, None)
        },
        None => (v, None),
    }
}

/// Pushing one path adds exactly its text to the denoted set.
proof fn lemma_path_set_push(s: Seq<String>, x: String)
    ensures
        spec_path_set(s.push(x)) =~= spec_path_set(s).insert(x@),
{
    assert forall|p: Seq<char>| #[trigger] spec_path_set(s.push(x)).contains(p) implies
        spec_path_set(s).insert(x@).contains(p) by {
        let w = choose|w: int| 0 <= w < s.push(x).len() && s.push(x)[w]@ == p;
        if w < s.len() {
            assert(s[w]@ == p);
            assert(spec_path_set(s).contains(p));
        } else {
            assert(p == x@);
        }
    }
    assert forall|p: Seq<char>| #[trigger] spec_path_set(s).insert(x@).contains(p) implies
        spec_path_set(s.push(x)).contains(p) by {
        if p == x@ {
            assert(s.push(x)[s.len() as int]@ == p);
        } else {
            assert(spec_path_set(s).contains(p));
            let w = choose|w: int| 0 <= w < s.len() && s[w]@ == p;
            assert(s.push(x)[w]@ == p);
        }
    }
}

/// The file-event debouncer.
#[derive(Debug)]
pub struct FileEventDebouncer {
    pub window: u64,
    pub pending_paths: Vec<String>,
    pub pending_deadline: Option<u64>,
}

impl View for FileEventDebouncer {
    type V = DebouncerView;

    open spec fn view(&self) -> DebouncerView {
        DebouncerView {
            window: self.window,
            pending: match self.pending_deadline {
                Some(d) => Some((spec_path_set(self.pending_paths@), d)),
                None => None,
            },
        }
    }
}

impl FileEventDebouncer {
    /// A fresh debouncer with the given quiescence window and nothing
    /// pending.
    pub fn new(window: u64) -> (r: FileEventDebouncer)
        ensures
            r@ == (DebouncerView { window, pending: None }),
    {
        FileEventDebouncer { window, pending_paths: Vec::new(), pending_deadline: None }
    }

    /// Feeds one notification: its paths accumulate into the pending
    /// set and the timer resets to the event time plus the window.
    pub fn on_event(&mut self, e: &WatchEvent)
        requires
            e.timestamp + old(self).window <= u64::MAX,
        ensures
            final(self)@ == spec_debounce_feed(old(self)@, spec_path_set(e.paths@), e.timestamp),
    {
        let ghost pre = self@;
        let mut i: usize = 0;
        let had_pending = self.pending_deadline.is_some();
        if !had_pending {
            self.pending_paths = Vec::new();
        }
        let ghost acc0 = spec_path_set(self.pending_paths@);
        while i < e.paths.len()
            invariant
                i <= e.paths@.len(),
                self.window == old(self).window,
                spec_path_set(self.pending_paths@) =~= acc0.union(
                    spec_path_set(e.paths@.take(i as int)),
                ),
            decreases e.paths@.len() - i,
        {
            let ghost before = self.pending_paths@;
            self.pending_paths.push(e.paths[i].clone());
            proof {
                let c = self.pending_paths@.last();
                assert(self.pending_paths@ =~= before.push(c));
                lemma_path_set_push(before, c);
                assert(e.paths@.take(i as int + 1) =~= e.paths@.take(i as int).push(
                    e.paths@[i as int],
                ));
                lemma_path_set_push(e.paths@.take(i as int), e.paths@[i as int]);
                assert(c@ == e.paths@[i as int]@);
                assert(spec_path_set(self.pending_paths@) =~= acc0.union(
                    spec_path_set(e.paths@.take(i as int + 1)),
                ));
            }
            i = i + 1;
        }
        self.pending_deadline = Some(e.timestamp + self.window);
        proof {
            assert(e.paths@.take(e.paths@.len() as int) =~= e.paths@);
            if pre.pending is Some {
                assert(final(self)@.pending.unwrap().0 =~= pre.pending.unwrap().0.union(
                    spec_path_set(e.paths@),
                ));
            } else {
                assert(acc0 =~= Set::<Seq<char>>::empty());
                assert(final(self)@.pending.unwrap().0 =~= spec_path_set(e.paths@));
            }
        }
    }

    /// Polls the timer: when the quiescence window has elapsed, emits
    /// exactly one batch carrying the accumulated paths and clears the
    /// state; otherwise emits nothing and changes nothing.
    pub fn poll(&mut self, now: u64) -> (r: Option<DebouncedBatch>)
        ensures
            match r {
                Some(b) => spec_debounce_poll(old(self)@, now) == (
                    final(self)@,
                    Some(spec_path_set(b.paths@)),
                ),
                None => spec_debounce_poll(old(self)@, now) == (final(self)@, None::<
                    Set<Seq<char>>,
                >) && final(self)@ == old(self)@,
            },
    {
        match self.pending_deadline {
            Some(deadline) => {
                if now >= deadline {
                    let mut paths: Vec<String> = Vec::new();
                    core::mem::swap(&mut paths, &mut self.pending_paths);
                    self.pending_deadline = None;
                    Some(DebouncedBatch { paths })
                } else {
                    None
                }
            },
            None => None,
        }
    }
}

/// Feeding a whole sequence of events, in order.
pub open spec fn spec_feed_all(v: DebouncerView, events: Seq<(Set<Seq<char>>, u64)>) -> DebouncerView
    decreases events.len(),
{
    if events.len() == 0 {
        v
    } else {
        spec_debounce_feed(
            spec_feed_all(v, events.drop_last()),
            events.last().0,
            events.last().1,
        )
    }
}

/// The union of all path sets of a sequence of events.
pub open spec fn spec_union_all(events: Seq<(Set<Seq<char>>, u64)>) -> Set<Seq<char>>
    decreases events.len(),
{
    if events.len() == 0 {
        Set::empty()
    } else {
        spec_union_all(events.drop_last()).union(events.last().0)
    }
}

/// Debounce coalescing: feeding any nonempty run of events into a
/// quiescent debouncer leaves exactly one pending batch holding the
/// union of all paths touched, due at the last event's time plus the
/// window; a poll before that deadline emits nothing, and the poll at
/// or after it emits exactly that one batch, after which nothing is
/// pending.
proof fn lemma_feed_all_pending(window: u64, events: Seq<(Set<Seq<char>>, u64)>)
    requires
        events.len() > 0,
        forall|i: int| 0 <= i < events.len() ==> events[i].1 + window <= u64::MAX,
    ensures
        spec_feed_all(DebouncerView { window, pending: None }, events) == (DebouncerView {
            window,
            pending: Some((spec_union_all(events), (events.last().1 + window) as u64)),
        }),
    decreases events.len(),
{
    if events.len() == 1 {
        assert(spec_feed_all(DebouncerView { window, pending: None }, events.drop_last())
            == DebouncerView { window, pending: None });
        assert(spec_union_all(events) =~= events.last().0);
    } else {
        let prefix = events.drop_last();
        lemma_feed_all_pending(window, prefix);
        assert(spec_union_all(events) =~= spec_union_all(prefix).union(events.last().0));
    }
}

/// Debounce coalescing: feeding any nonempty run of events into a
/// quiescent debouncer leaves exactly one pending batch holding the
/// union of all paths touched, due at the last event's time plus the
/// window; a poll before that deadline emits nothing, and the poll at
/// or after it emits exactly that one batch, after which nothing is
/// pending.
pub proof fn lemma_debounce_coalescing(
    window: u64,
    events: Seq<(Set<Seq<char>>, u64)>,
    now_early: u64,
    now_late: u64,
)
    requires
        events.len() > 0,
        forall|i: int| 0 <= i < events.len() ==> events[i].1 + window <= u64::MAX,
        now_early < events.last().1 + window,
        now_late >= events.last().1 + window,
    ensures
        spec_feed_all(DebouncerView { window, pending: None }, events) == (DebouncerView {
            window,
            pending: Some((spec_union_all(events), (events.last().1 + window) as u64)),
        }),
        spec_debounce_poll(
            spec_feed_all(DebouncerView { window, pending: None }, events),
            now_early,
        ).1 is None,
        spec_debounce_poll(
            spec_feed_all(DebouncerView { window, pending: None }, events),
            now_late,
        ) == (
            DebouncerView { window, pending: None },
            Some(spec_union_all(events)),
        ),
        spec_debounce_poll(
            spec_debounce_poll(
                spec_feed_all(DebouncerView { window, pending: None }, events),
                now_late,
            ).0,
            now_late,
        ).1 is None,
{
    lemma_feed_all_pending(window, events);
}

} // verus!
