//! The engine's table of running supervisors, one per camera id. Whatever
//! handle leaves the table is handed back to the caller to cancel, so a camera
//! never has two supervisors running.
use vstd::prelude::*;
use crate::supervisor::EventKindView;

verus! {

/// No camera id occurs twice.
pub open spec fn ids_unique<H>(es: Seq<(Seq<char>, H)>) -> bool {
    forall|i: int, j: int|
        0 <= i < es.len() && 0 <= j < es.len() && es[i].0 == es[j].0 ==> i == j
}

/// The camera ids of the entries, in order.
pub open spec fn ids_of<H>(es: Seq<(Seq<char>, H)>) -> Seq<Seq<char>> {
    es.map_values(|e: (Seq<char>, H)| e.0)
}

/// Index of the entry for `id`, if there is one.
pub open spec fn index_of<H>(es: Seq<(Seq<char>, H)>, id: Seq<char>) -> Option<int> {
    if exists|i: int| 0 <= i < es.len() && es[i].0 == id {
        Some(choose|i: int| 0 <= i < es.len() && es[i].0 == id)
    } else {
        None
    }
}

/// The table after holding `h` as the supervisor of `id`, and the handle
/// it displaces: the entry for `id` is replaced in place, or added at the end.
pub open spec fn insert_spec<H>(es: Seq<(Seq<char>, H)>, id: Seq<char>, h: H) -> (
    Seq<(Seq<char>, H)>,
    Option<H>,
) {
    match index_of(es, id) {
        Some(i) => (es.update(i, (id, h)), Some(es[i].1)),
        None => (es.push((id, h)), None),
    }
}

/// Running supervisors by camera id; `H` is the caller's task handle.
pub struct Registry<H> {
    entries: Vec<(String, H)>,
}

impl<H> View for Registry<H> {
    type V = Seq<(Seq<char>, H)>;

    closed spec fn view(&self) -> Seq<(Seq<char>, H)> {
        self.entries@.map_values(|e: (String, H)| (e.0@, e.1))
    }
}

impl<H> Registry<H> {
    /// An empty table.
    pub fn new() -> (r: Self)
        ensures
            r@.len() == 0,
            ids_unique(r@),
    {
        let r = Registry { entries: Vec::new() };
        assert(r@ =~= Seq::<(Seq<char>, H)>::empty());
        r
    }

    /// The number of supervisors held.
    pub fn len(&self) -> (r: usize)
        ensures
            r == self@.len(),
    {
        self.entries.len()
    }

    /// Where the supervisor of `id` is held, if anywhere.
    fn find(&self, id: &String) -> (r: Option<usize>)
        ensures
            match r {
                Some(i) => i < self@.len() && self@[i as int].0 == id@,
                None => forall|i: int| 0 <= i < self@.len() ==> self@[i].0 != id@,
            },
    {
        let mut i: usize = 0;
        while i < self.entries.len()
            invariant
                i <= self.entries@.len(),
                forall|k: int| 0 <= k < i ==> self@[k].0 != id@,
            decreases self.entries@.len() - i,
        {
            if self.entries[i].0 == *id {
                return Some(i);
            }
            i = i + 1;
        }
        None
    }

    /// Whether a supervisor of `id` is held.
    pub fn contains(&self, id: &String) -> (r: bool)
        ensures
            r == exists|i: int| 0 <= i < self@.len() && self@[i].0 == id@,
    {
        match self.find(id) {
            Some(_) => true,
            None => false,
        }
    }

    /// Holds `handle` as the supervisor of `id`. A supervisor already held for
    /// `id` is taken out and returned, for the caller to cancel.
    pub fn insert(&mut self, id: String, handle: H) -> (displaced: Option<H>)
        requires
            ids_unique(old(self)@),
        ensures
            ids_unique(final(self)@),
            (final(self)@, displaced) == insert_spec(old(self)@, id@, handle),
    {
        let ghost idv = id@;
        match self.find(&id) {
            Some(i) => {
                proof {
                    assert(index_of(old(self)@, idv) == Some(i as int));
                }
                let old_entry = self.entries.remove(i);
                self.entries.insert(i, (id, handle));
                assert(self@ =~= old(self)@.update(i as int, (idv, handle)));
                Some(old_entry.1)
            },
            None => {
                self.entries.push((id, handle));
                assert(self@ =~= old(self)@.push((idv, handle)));
                None
            },
        }
    }

    /// Takes every supervisor out: the camera ids, each once, in the order the
    /// table held them, and their handles, for the caller to cancel.
    pub fn drain(&mut self) -> (r: (Vec<String>, Vec<H>))
        requires
            ids_unique(old(self)@),
        ensures
            final(self)@.len() == 0,
            ids_unique(final(self)@),
            r.0@.map_values(|s: String| s@) == ids_of(old(self)@),
            r.1@ == old(self)@.map_values(|e: (Seq<char>, H)| e.1),
            forall|i: int, j: int|
                0 <= i < r.0@.len() && 0 <= j < r.0@.len() && r.0@[i]@ == r.0@[j]@ ==> i == j,
    {
        let ghost es = self@;
        let mut ids: Vec<String> = Vec::new();
        let mut handles: Vec<H> = Vec::new();
        let mut entries: Vec<(String, H)> = Vec::new();
        std::mem::swap(&mut entries, &mut self.entries);
        assert(self@ =~= Seq::<(Seq<char>, H)>::empty());
        let ghost total = entries@;
        assert(total.map_values(|e: (String, H)| (e.0@, e.1)) == es);
        let n = entries.len();
        let mut k: usize = 0;
        while k < n
            invariant
                n == total.len(),
                total.map_values(|e: (String, H)| (e.0@, e.1)) == es,
                k + entries@.len() == total.len(),
                es.len() == total.len(),
                ids@.len() == k,
                entries@ == total.subrange(k as int, total.len() as int),
                ids@.map_values(|s: String| s@) == ids_of(es).subrange(0, k as int),
                handles@ == es.map_values(|e: (Seq<char>, H)| e.1).subrange(0, k as int),
            decreases n - k,
        {
            let e = entries.remove(0);
            proof {
                assert(e == total[k as int]);
                assert(es[k as int] == (e.0@, e.1));
            }
            let ghost before_ids = ids@;
            ids.push(e.0);
            handles.push(e.1);
            proof {
                assert(ids@.map_values(|s: String| s@) =~= before_ids.map_values(|s: String| s@).push(
                    es[k as int].0,
                ));
                assert(ids_of(es).subrange(0, k + 1) =~= ids_of(es).subrange(0, k as int).push(
                    es[k as int].0,
                ));
                assert(ids@.map_values(|s: String| s@) =~= ids_of(es).subrange(0, k + 1));
                assert(handles@ =~= es.map_values(|e: (Seq<char>, H)| e.1).subrange(0, k + 1));
                assert(entries@ =~= total.subrange(k + 1, total.len() as int));
            }
            k = k + 1;
        }
        assert(ids@.map_values(|s: String| s@) =~= ids_of(es));
        assert(handles@ =~= es.map_values(|e: (Seq<char>, H)| e.1));
        proof {
            assert forall|i: int, j: int|
                0 <= i < ids@.len() && 0 <= j < ids@.len() && ids@[i]@ == ids@[j]@ implies i == j by {
                assert(ids@.map_values(|s: String| s@)[i] == es[i].0);
                assert(ids@.map_values(|s: String| s@)[j] == es[j].0);
            }
        }
        (ids, handles)
    }
}

/// One camera, one supervisor: in a table that insertion and draining keep
/// well formed, no camera id is held twice, so no camera has two running
/// supervisors; every handle that leaves the table goes back to the caller.
pub proof fn lemma_one_supervisor_per_camera<H>(es: Seq<(Seq<char>, H)>, id: Seq<char>, i: int, j: int)
    requires
        ids_unique(es),
        0 <= i < es.len(),
        0 <= j < es.len(),
        es[i].0 == id,
        es[j].0 == id,
    ensures
        i == j,
{
}

/// What stopping reports for a table: the `offline` status of each camera id
/// that [`Registry::drain`] hands back, in that order (see
/// [`crate::supervisor::offline_events`]).
pub open spec fn stop_report<H>(es: Seq<(Seq<char>, H)>) -> Seq<(Seq<char>, EventKindView)> {
    ids_of(es).map_values(|id: Seq<char>| (id, EventKindView::Status("offline"@)))
}

/// Stopping reports every camera that was running exactly once, as offline,
/// and reports no other camera.
pub proof fn lemma_stop_reports_each_camera_once<H>(es: Seq<(Seq<char>, H)>, id: Seq<char>)
    requires
        ids_unique(es),
    ensures
        (exists|i: int| 0 <= i < es.len() && es[i].0 == id) ==> (exists|i: int|
            0 <= i < stop_report(es).len() && stop_report(es)[i] == (id, EventKindView::Status(
                "offline"@,
            ))),
        forall|i: int, j: int|
            0 <= i < stop_report(es).len() && 0 <= j < stop_report(es).len()
                && stop_report(es)[i].0 == id && stop_report(es)[j].0 == id ==> i == j,
        forall|i: int|
            0 <= i < stop_report(es).len() ==> stop_report(es)[i] == (
                es[i].0,
                EventKindView::Status("offline"@),
            ),
{
    assert forall|i: int, j: int|
        0 <= i < stop_report(es).len() && 0 <= j < stop_report(es).len() && stop_report(es)[i].0
            == id && stop_report(es)[j].0 == id implies i == j by {
        assert(es[i].0 == stop_report(es)[i].0);
        assert(es[j].0 == stop_report(es)[j].0);
    }
    if exists|i: int| 0 <= i < es.len() && es[i].0 == id {
        let i = choose|i: int| 0 <= i < es.len() && es[i].0 == id;
        assert(stop_report(es)[i] == (id, EventKindView::Status("offline"@)));
    }
}

/// The table after holding each `(id, handle)` of `xs` in turn, and the
/// handles displaced on the way, in order.
pub open spec fn insert_all<H>(es: Seq<(Seq<char>, H)>, xs: Seq<(Seq<char>, H)>) -> (
    Seq<(Seq<char>, H)>,
    Seq<H>,
)
    decreases xs.len(),
{
    if xs.len() == 0 {
        (es, seq![])
    } else {
        let p = insert_all(es, xs.drop_last());
        let q = insert_spec(p.0, xs.last().0, xs.last().1);
        (
            q.0,
            match q.1 {
                Some(h) => p.1.push(h),
                None => p.1,
            },
        )
    }
}

proof fn lemma_insert_keeps_unique<H>(es: Seq<(Seq<char>, H)>, id: Seq<char>, h: H)
    requires
        ids_unique(es),
    ensures
        ids_unique(insert_spec(es, id, h).0),
        insert_spec(es, id, h).0.len() + (if insert_spec(es, id, h).1 is Some {
            1int
        } else {
            0int
        }) == es.len() + 1,
        exists|j: int|
            0 <= j < insert_spec(es, id, h).0.len() && insert_spec(es, id, h).0[j] == (id, h),
        forall|j: int|
            0 <= j < insert_spec(es, id, h).0.len() ==> insert_spec(es, id, h).0[j] == (id, h)
                || exists|k: int| 0 <= k < es.len() && es[k] == #[trigger] insert_spec(es, id, h).0[j],
        forall|k: int|
            0 <= k < es.len() ==> exists|j: int|
                0 <= j < insert_spec(es, id, h).0.len() && insert_spec(es, id, h).0[j].0
                    == #[trigger] es[k].0,
{
    let t = insert_spec(es, id, h).0;
    match index_of(es, id) {
        Some(i) => {
            assert(t[i] == (id, h));
            assert forall|j: int| 0 <= j < t.len() implies t[j] == (id, h) || exists|k: int|
                0 <= k < es.len() && es[k] == #[trigger] t[j] by {
                if j != i {
                    assert(es[j] == t[j]);
                }
            }
            assert forall|k: int| 0 <= k < es.len() implies exists|j: int|
                0 <= j < t.len() && t[j].0 == #[trigger] es[k].0 by {
                assert(t[k].0 == es[k].0);
            }
        },
        None => {
            assert(t[es.len() as int] == (id, h));
            assert forall|j: int| 0 <= j < t.len() implies t[j] == (id, h) || exists|k: int|
                0 <= k < es.len() && es[k] == #[trigger] t[j] by {
                if j < es.len() {
                    assert(es[j] == t[j]);
                }
            }
            assert forall|k: int| 0 <= k < es.len() implies exists|j: int|
                0 <= j < t.len() && t[j].0 == #[trigger] es[k].0 by {
                assert(t[k].0 == es[k].0);
            }
        },
    }
}

/// Starting the supervisors of a camera list on an emptied table: every
/// camera id of the list gets exactly one running supervisor, the table holds
/// no other, each held handle is one that was started for that id, and every
/// other started handle comes back as displaced, for the caller to cancel, so
/// that each started handle is either held or returned, once.
pub proof fn lemma_start_runs_one_per_camera<H>(xs: Seq<(Seq<char>, H)>)
    ensures
        ids_unique(insert_all(Seq::<(Seq<char>, H)>::empty(), xs).0),
        insert_all(Seq::<(Seq<char>, H)>::empty(), xs).0.len() + insert_all(
            Seq::<(Seq<char>, H)>::empty(),
            xs,
        ).1.len() == xs.len(),
        forall|i: int|
            0 <= i < xs.len() ==> exists|j: int|
                0 <= j < insert_all(Seq::<(Seq<char>, H)>::empty(), xs).0.len() && insert_all(
                    Seq::<(Seq<char>, H)>::empty(),
                    xs,
                ).0[j].0 == #[trigger] xs[i].0,
        forall|j: int|
            0 <= j < insert_all(Seq::<(Seq<char>, H)>::empty(), xs).0.len() ==> exists|i: int|
                0 <= i < xs.len() && xs[i] == #[trigger] insert_all(
                    Seq::<(Seq<char>, H)>::empty(),
                    xs,
                ).0[j],
    decreases xs.len(),
{
    let e = Seq::<(Seq<char>, H)>::empty();
    if xs.len() > 0 {
        let init = xs.drop_last();
        let last = xs.last();
        lemma_start_runs_one_per_camera(init);
        let p = insert_all(e, init);
        lemma_insert_keeps_unique(p.0, last.0, last.1);
        let t = insert_all(e, xs).0;
        assert forall|i: int| 0 <= i < xs.len() implies exists|j: int|
            0 <= j < t.len() && t[j].0 == #[trigger] xs[i].0 by {
            if i < xs.len() - 1 {
                assert(init[i] == xs[i]);
                let j0 = choose|j: int| 0 <= j < p.0.len() && p.0[j].0 == init[i].0;
                assert(p.0[j0].0 == xs[i].0);
            } else {
                let j1 = choose|j: int| 0 <= j < t.len() && t[j] == (last.0, last.1);
                assert(t[j1].0 == xs[i].0);
            }
        }
        assert forall|j: int| 0 <= j < t.len() implies exists|i: int|
            0 <= i < xs.len() && xs[i] == #[trigger] t[j] by {
            if t[j] == (last.0, last.1) {
                assert(xs[xs.len() - 1] == t[j]);
            } else {
                let k = choose|k: int| 0 <= k < p.0.len() && p.0[k] == t[j];
                let i0 = choose|i: int| 0 <= i < init.len() && init[i] == p.0[k];
                assert(xs[i0] == t[j]);
            }
        }
    }
}

} // verus!
