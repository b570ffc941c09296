//! Per-camera late-joiner cache: the initialization segment of the current
//! attempt and the run of fragments from the last keyframe, so that a new
//! subscriber can start decoding at once.
use vstd::prelude::*;
use std::sync::Arc;
use crate::fmp4::Unit;

verus! {

/// Most fragments kept after the last keyframe (the keyframe included).
pub const RECENT_CAP: usize = 120;

/// A fragment as the cache sees it: its bytes and whether it starts with a keyframe.
pub type FragView = (Seq<u8>, bool);

/// The recent-fragment run after one more fragment: a keyframe restarts the
/// run; another fragment joins it while the run is non-empty and under
/// [`RECENT_CAP`], and is left out otherwise, so the run always starts with a
/// keyframe.
pub open spec fn ring_push(r: Seq<FragView>, f: FragView) -> Seq<FragView> {
    if f.1 {
        seq![f]
    } else if r.len() == 0 || r.len() >= RECENT_CAP {
        r
    } else {
        r.push(f)
    }
}

/// The recent-fragment run after the fragments `h`, in production order,
/// starting from an empty cache.
pub open spec fn ring_after(h: Seq<FragView>) -> Seq<FragView>
    decreases h.len(),
{
    if h.len() == 0 {
        seq![]
    } else {
        ring_push(ring_after(h.drop_last()), h.last())
    }
}

/// Index of the last keyframed fragment of `h`, or -1 when there is none.
pub open spec fn last_keyframe(h: Seq<FragView>) -> int
    decreases h.len(),
{
    if h.len() == 0 {
        -1
    } else if h.last().1 {
        h.len() - 1
    } else {
        last_keyframe(h.drop_last())
    }
}

/// The last keyframed fragment of `h` and those produced after it, at most
/// [`RECENT_CAP`] in all.
pub open spec fn recent_window(h: Seq<FragView>) -> Seq<FragView> {
    let k = last_keyframe(h);
    if k < 0 {
        seq![]
    } else if h.len() - k <= RECENT_CAP {
        h.subrange(k, h.len() as int)
    } else {
        h.subrange(k, k + RECENT_CAP)
    }
}

/// What the cache holds: the initialization segment, if one was produced,
/// and the recent-fragment run.
pub struct CacheView {
    pub init: Option<Seq<u8>>,
    pub recent: Seq<FragView>,
}

impl CacheView {
    /// The run is bounded and, when non-empty, starts with a keyframe.
    pub open spec fn wf(self) -> bool {
        self.recent.len() <= RECENT_CAP && (self.recent.len() > 0 ==> self.recent[0].1)
    }
}

/// What a new subscriber is sent before live data: the initialization
/// segment, if any, then every recent fragment in order.
pub open spec fn catch_up_view(c: CacheView) -> Seq<Seq<u8>> {
    let head: Seq<Seq<u8>> = match c.init {
        Some(i) => seq![i],
        None => seq![],
    };
    head + c.recent.map_values(|f: FragView| f.0)
}

/// A cached fragment: shared bytes and whether they start with a keyframe.
pub struct CachedFragment {
    pub data: Arc<Vec<u8>>,
    pub keyframe: bool,
}

impl View for CachedFragment {
    type V = FragView;

    open spec fn view(&self) -> FragView {
        (self.data@, self.keyframe)
    }
}

/// What one parsed unit asks of the camera's producer: the shared bytes to
/// broadcast (if any), whether the camera has just come online, and how many
/// frames and bytes to count.
pub struct Publication {
    pub broadcast: Option<Arc<Vec<u8>>>,
    pub went_online: bool,
    pub frames: u64,
    pub bytes: u64,
}

/// The late-joiner cache of one camera.
pub struct CameraCache {
    init: Option<Arc<Vec<u8>>>,
    recent: Vec<CachedFragment>,
}

impl View for CameraCache {
    type V = CacheView;

    closed spec fn view(&self) -> CacheView {
        CacheView {
            init: match self.init {
                Some(i) => Some(i@),
                None => None,
            },
            recent: self.recent@.map_values(|f: CachedFragment| f@),
        }
    }
}

impl CameraCache {
    /// An empty cache.
    pub fn new() -> (r: Self)
        ensures
            r@.init is None,
            r@.recent.len() == 0,
            r@.wf(),
    {
        let r = CameraCache { init: None, recent: Vec::new() };
        assert(r@.recent =~= Seq::<FragView>::empty());
        r
    }

    /// Drops everything: a new attempt starts from nothing.
    pub fn clear(&mut self)
        ensures
            final(self)@.init is None,
            final(self)@.recent.len() == 0,
            final(self)@.wf(),
    {
        self.init = None;
        self.recent = Vec::new();
        assert(self@.recent =~= Seq::<FragView>::empty());
    }

    /// Stores the initialization segment of the current attempt.
    pub fn set_init(&mut self, init: Arc<Vec<u8>>)
        ensures
            final(self)@ == (CacheView { init: Some(init@), recent: old(self)@.recent }),
    {
        self.init = Some(init);
    }

    /// Adds a fragment to the recent run as [`ring_push`] says.
    pub fn push_fragment(&mut self, data: Arc<Vec<u8>>, keyframe: bool)
        requires
            old(self)@.wf(),
        ensures
            final(self)@.wf(),
            final(self)@.init == old(self)@.init,
            final(self)@.recent == ring_push(old(self)@.recent, (data@, keyframe)),
    {
        let ghost r0 = self@.recent;
        let len = self.recent.len();
        let f = CachedFragment { data, keyframe };
        if keyframe {
            self.recent = Vec::new();
            self.recent.push(f);
            assert(self@.recent =~= seq![f@]);
        } else if len == 0 || len >= RECENT_CAP {
        } else {
            self.recent.push(f);
            assert(self@.recent =~= r0.push(f@));
        }
    }

    /// The number of recent fragments held.
    pub fn recent_len(&self) -> (r: usize)
        ensures
            r == self@.recent.len(),
    {
        self.recent.len()
    }

    /// Whether an initialization segment is held.
    pub fn has_init(&self) -> (r: bool)
        ensures
            r == self@.init is Some,
    {
        self.init.is_some()
    }

    /// The byte buffers a new subscriber receives before live data, sharing
    /// the cached bytes.
    pub fn catch_up(&self) -> (r: Vec<Arc<Vec<u8>>>)
        ensures
            r@.map_values(|b: Arc<Vec<u8>>| b@) == catch_up_view(self@),
    {
        let mut out: Vec<Arc<Vec<u8>>> = Vec::new();
        let ghost head: Seq<Seq<u8>> = match self@.init {
            Some(i) => seq![i],
            None => seq![],
        };
        match &self.init {
            Some(i) => {
                out.push(Arc::clone(i));
            },
            None => {},
        }
        assert(out@.map_values(|b: Arc<Vec<u8>>| b@) =~= head);
        let mut k: usize = 0;
        while k < self.recent.len()
            invariant
                k <= self.recent@.len(),
                out@.map_values(|b: Arc<Vec<u8>>| b@) =~= head + self@.recent.subrange(
                    0,
                    k as int,
                ).map_values(|f: FragView| f.0),
            decreases self.recent@.len() - k,
        {
            let ghost before = out@;
            out.push(Arc::clone(&self.recent[k].data));
            proof {
                assert(self@.recent[k as int] == self.recent@[k as int]@);
                assert(out@.map_values(|b: Arc<Vec<u8>>| b@) =~= before.map_values(
                    |b: Arc<Vec<u8>>| b@,
                ).push(self@.recent[k as int].0));
                assert(self@.recent.subrange(0, k + 1).map_values(|f: FragView| f.0)
                    =~= self@.recent.subrange(0, k as int).map_values(|f: FragView| f.0).push(
                    self@.recent[k as int].0,
                ));
            }
            k = k + 1;
        }
        assert(self@.recent.subrange(0, k as int) =~= self@.recent);
        out
    }

    /// Takes in one parsed unit: an initialization segment is stored and always
    /// broadcast, and brings the camera online; a fragment joins the recent run
    /// and is broadcast only when someone is subscribed (`receivers > 0`).
    pub fn record(&mut self, unit: Unit, receivers: usize) -> (r: Publication)
        requires
            old(self)@.wf(),
        ensures
            final(self)@.wf(),
            match unit@ {
                crate::fmp4::UnitView::Init(b) => {
                    &&& final(self)@ == (CacheView { init: Some(b), recent: old(self)@.recent })
                    &&& r.broadcast is Some && r.broadcast->Some_0@ == b
                    &&& r.went_online
                    &&& r.frames == 0 && r.bytes == 0
                },
                crate::fmp4::UnitView::Fragment(d, key, samples) => {
                    &&& final(self)@.init == old(self)@.init
                    &&& final(self)@.recent == ring_push(old(self)@.recent, (d, key))
                    &&& (r.broadcast is Some <==> receivers > 0)
                    &&& (r.broadcast is Some ==> r.broadcast->Some_0@ == d)
                    &&& !r.went_online
                    &&& r.frames == samples && r.bytes == d.len()
                },
            },
    {
        match unit {
            Unit::Init(bytes) => {
                let shared = Arc::new(bytes);
                self.set_init(Arc::clone(&shared));
                Publication { broadcast: Some(shared), went_online: true, frames: 0, bytes: 0 }
            },
            Unit::Fragment { data, keyframe, samples } => {
                let n = data.len() as u64;
                let shared = Arc::new(data);
                self.push_fragment(Arc::clone(&shared), keyframe);
                let broadcast = if receivers > 0 {
                    Some(shared)
                } else {
                    None
                };
                Publication { broadcast, went_online: false, frames: samples, bytes: n }
            },
        }
    }
}

proof fn lemma_last_keyframe_bounds(h: Seq<FragView>)
    ensures
        -1 <= last_keyframe(h) < h.len(),
        last_keyframe(h) >= 0 ==> h[last_keyframe(h)].1,
    decreases h.len(),
{
    if h.len() > 0 {
        lemma_last_keyframe_bounds(h.drop_last());
    }
}

/// The recent run that pushes from an empty cache leave behind is exactly the
/// last keyframed fragment and the fragments produced after it, in production
/// order and without gaps, at most [`RECENT_CAP`] in all; no keyframe yet
/// means an empty run.
pub proof fn lemma_recent_is_window(h: Seq<FragView>)
    ensures
        ring_after(h) == recent_window(h),
    decreases h.len(),
{
    if h.len() > 0 {
        let p = h.drop_last();
        let f = h.last();
        lemma_recent_is_window(p);
        lemma_last_keyframe_bounds(p);
        let k = last_keyframe(p);
        if f.1 {
            assert(h.subrange(h.len() - 1, h.len() as int) =~= seq![f]);
        } else if k >= 0 {
            assert(last_keyframe(h) == k);
            if p.len() - k >= RECENT_CAP {
                assert(h.subrange(k, k + RECENT_CAP) =~= p.subrange(k, k + RECENT_CAP));
            } else {
                assert(h.subrange(k, h.len() as int) =~= p.subrange(k, p.len() as int).push(f));
            }
        }
    }
}

/// Fed from an empty cache, the run keeps the cache well formed: bounded and
/// led by a keyframe.
pub proof fn lemma_recent_led_by_keyframe(h: Seq<FragView>)
    ensures
        (CacheView { init: None, recent: ring_after(h) }).wf(),
    decreases h.len(),
{
    if h.len() > 0 {
        lemma_recent_led_by_keyframe(h.drop_last());
    }
}

/// A late joiner of a camera that has produced its initialization segment
/// first receives that segment, then (when fragments are cached) a fragment
/// whose first sample is a keyframe, then the rest of the run in order.
pub proof fn lemma_late_joiner_starts_decodable(c: CacheView)
    requires
        c.wf(),
        c.init is Some,
    ensures
        catch_up_view(c).len() == 1 + c.recent.len(),
        catch_up_view(c)[0] == c.init->Some_0,
        c.recent.len() > 0 ==> catch_up_view(c)[1] == c.recent[0].0 && c.recent[0].1,
        forall|i: int| 0 <= i < c.recent.len() ==> catch_up_view(c)[i + 1] == c.recent[i].0,
{
}

} // verus!
