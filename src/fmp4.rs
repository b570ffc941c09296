//! Incremental parser for the fragmented-MP4 byte stream that a worker writes:
//! it recovers top-level boxes from arbitrarily cut chunks, assembles the
//! `ftyp`+`moov` initialization segment and `moof`+`mdat` fragments, and
//! recovers from corrupt sizes by dropping what it holds.
use vstd::prelude::*;
use vstd::slice::{slice_subrange, slice_to_vec};
use crate::mp4::{
    be32, count_samples_in_moof, is_keyframe_fragment, read_be32, spec_is_keyframe,
    spec_sample_count, FTYP, MDAT, MOOF, MOOV,
};

verus! {

/// Largest box size accepted; a larger (or smaller than 8) declared size is
/// taken as corruption.
pub const MAX_BOX_SIZE: usize = 52428800;

/// Most bytes held back while waiting for the rest of a box.
pub const MAX_PENDING: usize = 5242880;

/// A unit the parser hands on.
pub enum Unit {
    /// The concatenated `ftyp` and `moov` boxes: the initialization segment.
    Init(Vec<u8>),
    /// A `moof` box and the `mdat` box that completes it, as one buffer;
    /// `keyframe` tells whether its first sample is a sync sample, `samples`
    /// how many samples its `moof` declares (at least one).
    Fragment { data: Vec<u8>, keyframe: bool, samples: u64 },
}

/// The mathematical value of a [`Unit`].
pub enum UnitView {
    Init(Seq<u8>),
    Fragment(Seq<u8>, bool, u64),
}

impl View for Unit {
    type V = UnitView;

    open spec fn view(&self) -> UnitView {
        match self {
            Unit::Init(b) => UnitView::Init(b@),
            Unit::Fragment { data, keyframe, samples } => UnitView::Fragment(
                data@,
                *keyframe,
                *samples,
            ),
        }
    }
}

/// The bytes a unit carries.
pub open spec fn unit_bytes(u: UnitView) -> Seq<u8> {
    match u {
        UnitView::Init(b) => b,
        UnitView::Fragment(d, _, _) => d,
    }
}

/// The views of a sequence of units.
pub open spec fn units_view(us: Seq<Unit>) -> Seq<UnitView> {
    us.map_values(|u: Unit| u@)
}

/// The box-level state of the parser: the initialization bytes gathered so
/// far and whether they were handed on, the fragment being assembled, where
/// its last `moof` starts, and how many samples that `moof` declared.
pub struct AssemblerView {
    pub init: Seq<u8>,
    pub init_sent: bool,
    pub frag: Seq<u8>,
    pub moof_start: int,
    pub samples: u64,
}

/// The whole parser state: bytes held back, and the box-level state.
pub struct ParserView {
    pub pending: Seq<u8>,
    pub framing: AssemblerView,
}

impl ParserView {
    pub open spec fn wf(self) -> bool {
        0 <= self.framing.moof_start <= self.framing.frag.len()
    }
}

/// The state of a parser that has seen nothing.
pub open spec fn fresh_view() -> ParserView {
    ParserView {
        pending: seq![],
        framing: AssemblerView {
            init: seq![],
            init_sent: false,
            frag: seq![],
            moof_start: 0,
            samples: 1,
        },
    }
}

/// How a byte buffer splits: the complete boxes at its front, whether a
/// corrupt size stopped the split (dropping everything after it), and the
/// bytes left over that do not yet form a complete box.
pub struct SplitView {
    pub boxes: Seq<Seq<u8>>,
    pub reset: bool,
    pub rest: Seq<u8>,
}

/// Splits `s` into boxes from its front: a declared size under 8 or over
/// [`MAX_BOX_SIZE`] stops the split and drops the rest; a box not yet complete
/// is left over.
#[verifier::opaque]
pub open spec fn split(s: Seq<u8>) -> SplitView
    decreases s.len(),
{
    if s.len() < 8 {
        SplitView { boxes: seq![], reset: false, rest: s }
    } else {
        let n = be32(s, 0) as int;
        if n < 8 || n > MAX_BOX_SIZE {
            SplitView { boxes: seq![], reset: true, rest: seq![] }
        } else if s.len() < n {
            SplitView { boxes: seq![], reset: false, rest: s }
        } else {
            let r = split(s.subrange(n, s.len() as int));
            SplitView { boxes: seq![s.subrange(0, n)] + r.boxes, reset: r.reset, rest: r.rest }
        }
    }
}

/// An `ftyp` or `moov` box joins the initialization bytes; the first `moov`
/// hands them on.
pub open spec fn handle_init_box(a: AssemblerView, b: Seq<u8>) -> (AssemblerView, Seq<UnitView>) {
    let init = a.init + b;
    if be32(b, 4) == MOOV && !a.init_sent {
        (AssemblerView { init: init, init_sent: true, ..a }, seq![UnitView::Init(init)])
    } else {
        (AssemblerView { init: init, ..a }, seq![])
    }
}

/// A `moof` box opens a fragment (after anything still held) and sets the
/// sample count that its `mdat` will carry.
pub open spec fn handle_moof_box(a: AssemblerView, b: Seq<u8>) -> AssemblerView {
    AssemblerView {
        moof_start: a.frag.len() as int,
        frag: a.frag + b,
        samples: spec_sample_count(b),
        ..a
    }
}

/// An `mdat` box completes the fragment, which is handed on whole.
pub open spec fn handle_mdat_box(a: AssemblerView, b: Seq<u8>) -> (AssemblerView, Seq<UnitView>) {
    let frag = a.frag + b;
    let key = spec_is_keyframe(frag.subrange(a.moof_start, frag.len() as int));
    (AssemblerView { frag: seq![], moof_start: 0, ..a }, seq![UnitView::Fragment(frag, key, a.samples)])
}

/// The effect of one complete box on the box-level state, and what it emits;
/// boxes of other types are skipped.
pub open spec fn handle_box(a: AssemblerView, b: Seq<u8>) -> (AssemblerView, Seq<UnitView>) {
    let t = be32(b, 4);
    if t == FTYP || t == MOOV {
        handle_init_box(a, b)
    } else if t == MOOF {
        (handle_moof_box(a, b), seq![])
    } else if t == MDAT {
        handle_mdat_box(a, b)
    } else {
        (a, seq![])
    }
}

/// The effect of a sequence of boxes, in order, and all that they emit.
#[verifier::opaque]
pub open spec fn handle_boxes(a: AssemblerView, bs: Seq<Seq<u8>>) -> (
    AssemblerView,
    Seq<UnitView>,
)
    decreases bs.len(),
{
    if bs.len() == 0 {
        (a, seq![])
    } else {
        let p = handle_boxes(a, bs.drop_last());
        let q = handle_box(p.0, bs.last());
        (q.0, p.1 + q.1)
    }
}

/// The box-level state with the fragment under assembly dropped.
pub open spec fn clear_fragment(a: AssemblerView) -> AssemblerView {
    AssemblerView { frag: seq![], moof_start: 0, ..a }
}

/// The state after feeding `chunk`, and the units it completes. A corrupt box
/// size, or more than [`MAX_PENDING`] bytes held back, drops the held bytes
/// and the fragment under assembly.
pub open spec fn feed_spec(st: ParserView, chunk: Seq<u8>) -> (ParserView, Seq<UnitView>) {
    let sp = split(st.pending + chunk);
    let h = handle_boxes(st.framing, sp.boxes);
    let overflow = sp.rest.len() > MAX_PENDING;
    let framing = if sp.reset || overflow {
        clear_fragment(h.0)
    } else {
        h.0
    };
    (
        ParserView {
            pending: if overflow {
                seq![]
            } else {
                sp.rest
            },
            framing: framing,
        },
        h.1,
    )
}

/// Appends `src[start..end]` to `dst`.
fn append_range(dst: &mut Vec<u8>, src: &[u8], start: usize, end: usize)
    requires
        start <= end <= src@.len(),
    ensures
        final(dst)@ == old(dst)@ + src@.subrange(start as int, end as int),
{
    let ghost d0 = dst@;
    let mut i = start;
    while i < end
        invariant
            start <= i <= end,
            end <= src@.len(),
            dst@ == d0 + src@.subrange(start as int, i as int),
        decreases end - i,
    {
        dst.push(src[i]);
        proof {
            assert(src@.subrange(start as int, i + 1) =~= src@.subrange(start as int, i as int).push(
                src@[i as int],
            ));
            assert(d0 + src@.subrange(start as int, i + 1) =~= (d0 + src@.subrange(
                start as int,
                i as int,
            )).push(src@[i as int]));
        }
        i = i + 1;
    }
}

struct Assembler {
    init: Vec<u8>,
    init_sent: bool,
    frag: Vec<u8>,
    moof_start: usize,
    samples: u64,
}

impl View for Assembler {
    type V = AssemblerView;

    closed spec fn view(&self) -> AssemblerView {
        AssemblerView {
            init: self.init@,
            init_sent: self.init_sent,
            frag: self.frag@,
            moof_start: self.moof_start as int,
            samples: self.samples,
        }
    }
}

proof fn lemma_units_push(us: Seq<Unit>, u: Unit)
    ensures
        units_view(us.push(u)) == units_view(us) + seq![u@],
{
    assert(units_view(us.push(u)) =~= units_view(us) + seq![u@]);
}

impl Assembler {
    fn handle_init_box(&mut self, buf: &[u8], start: usize, size: usize, units: &mut Vec<Unit>)
        requires
            size >= 8,
            start + size <= buf.len(),
        ensures
            final(self)@ == handle_init_box(old(self)@, buf@.subrange(start as int, start + size)).0,
            units_view(final(units)@) == units_view(old(units)@) + handle_init_box(
                old(self)@,
                buf@.subrange(start as int, start + size),
            ).1,
    {
        let ghost b = buf@.subrange(start as int, start + size);
        let t = read_be32(buf, start + 4);
        assert(t == be32(b, 4)) by {
            assert(b[4] == buf@[start + 4] && b[5] == buf@[start + 5]);
            assert(b[6] == buf@[start + 6] && b[7] == buf@[start + 7]);
        }
        append_range(&mut self.init, buf, start, start + size);
        if t == MOOV && !self.init_sent {
            self.init_sent = true;
            let init = slice_to_vec(self.init.as_slice());
            proof {
                lemma_units_push(units@, Unit::Init(init));
            }
            units.push(Unit::Init(init));
        } else {
            assert(units_view(units@) =~= units_view(units@) + seq![]);
        }
    }

    fn handle_moof_box(&mut self, buf: &[u8], start: usize, size: usize)
        requires
            size >= 8,
            start + size <= buf.len(),
        ensures
            final(self)@ == handle_moof_box(old(self)@, buf@.subrange(start as int, start + size)),
    {
        self.moof_start = self.frag.len();
        append_range(&mut self.frag, buf, start, start + size);
        self.samples = count_samples_in_moof(slice_subrange(buf, start, start + size));
    }

    fn handle_mdat_box(&mut self, buf: &[u8], start: usize, size: usize, units: &mut Vec<Unit>)
        requires
            0 <= old(self)@.moof_start <= old(self)@.frag.len(),
            size >= 8,
            start + size <= buf.len(),
        ensures
            final(self)@ == handle_mdat_box(old(self)@, buf@.subrange(start as int, start + size)).0,
            units_view(final(units)@) == units_view(old(units)@) + handle_mdat_box(
                old(self)@,
                buf@.subrange(start as int, start + size),
            ).1,
    {
        append_range(&mut self.frag, buf, start, start + size);
        let keyframe = is_keyframe_fragment(
            slice_subrange(self.frag.as_slice(), self.moof_start, self.frag.len()),
        );
        let ghost whole = self.frag@;
        let data = self.frag.split_off(0);
        self.moof_start = 0;
        assert(self.frag@ =~= Seq::<u8>::empty());
        assert(data@ =~= whole);
        let u = Unit::Fragment { data, keyframe, samples: self.samples };
        proof {
            lemma_units_push(units@, u);
        }
        units.push(u);
    }

    /// Applies the box `buf[start..start + size]`, pushing what it completes.
    fn handle_box(&mut self, buf: &[u8], start: usize, size: usize, units: &mut Vec<Unit>)
        requires
            0 <= old(self)@.moof_start <= old(self)@.frag.len(),
            size >= 8,
            start + size <= buf.len(),
        ensures
            0 <= final(self)@.moof_start <= final(self)@.frag.len(),
            final(self)@ == handle_box(old(self)@, buf@.subrange(start as int, start + size)).0,
            units_view(final(units)@) == units_view(old(units)@) + handle_box(
                old(self)@,
                buf@.subrange(start as int, start + size),
            ).1,
    {
        let ghost b = buf@.subrange(start as int, start + size);
        let t = read_be32(buf, start + 4);
        assert(t == be32(b, 4)) by {
            assert(b[4] == buf@[start + 4] && b[5] == buf@[start + 5]);
            assert(b[6] == buf@[start + 6] && b[7] == buf@[start + 7]);
        }
        if t == FTYP || t == MOOV {
            self.handle_init_box(buf, start, size, units);
        } else if t == MOOF {
            self.handle_moof_box(buf, start, size);
            assert(units_view(units@) =~= units_view(units@) + seq![]);
        } else if t == MDAT {
            self.handle_mdat_box(buf, start, size, units);
        } else {
            assert(units_view(units@) =~= units_view(units@) + seq![]);
        }
    }

    fn clear_fragment(&mut self)
        ensures
            final(self)@ == clear_fragment(old(self)@),
    {
        self.frag = Vec::new();
        self.moof_start = 0;
    }
}

proof fn lemma_split_short(s: Seq<u8>)
    requires
        s.len() < 8,
    ensures
        split(s) == (SplitView { boxes: seq![], reset: false, rest: s }),
{
    reveal_with_fuel(split, 1);
}

proof fn lemma_split_corrupt(s: Seq<u8>)
    requires
        s.len() >= 8,
        be32(s, 0) < 8 || be32(s, 0) > MAX_BOX_SIZE,
    ensures
        split(s) == (SplitView { boxes: seq![], reset: true, rest: seq![] }),
{
    reveal_with_fuel(split, 1);
}

proof fn lemma_split_incomplete(s: Seq<u8>)
    requires
        s.len() >= 8,
        8 <= be32(s, 0) <= MAX_BOX_SIZE,
        s.len() < be32(s, 0),
    ensures
        split(s) == (SplitView { boxes: seq![], reset: false, rest: s }),
{
    reveal_with_fuel(split, 1);
}

proof fn lemma_split_box(s: Seq<u8>)
    requires
        s.len() >= 8,
        8 <= be32(s, 0) <= MAX_BOX_SIZE,
        be32(s, 0) <= s.len(),
    ensures
        split(s).boxes == seq![s.subrange(0, be32(s, 0) as int)] + split(
            s.subrange(be32(s, 0) as int, s.len() as int),
        ).boxes,
        split(s).reset == split(s.subrange(be32(s, 0) as int, s.len() as int)).reset,
        split(s).rest == split(s.subrange(be32(s, 0) as int, s.len() as int)).rest,
{
    reveal_with_fuel(split, 1);
}

proof fn lemma_split_reset_drops_rest(s: Seq<u8>)
    ensures
        split(s).reset ==> split(s).rest == Seq::<u8>::empty(),
    decreases s.len(),
{
    reveal_with_fuel(split, 1);
    if s.len() >= 8 {
        let n = be32(s, 0) as int;
        if 8 <= n <= MAX_BOX_SIZE && n <= s.len() {
            lemma_split_reset_drops_rest(s.subrange(n, s.len() as int));
        }
    }
}

proof fn lemma_handle_boxes_push(a: AssemblerView, bs: Seq<Seq<u8>>, b: Seq<u8>)
    ensures
        handle_boxes(a, bs.push(b)).0 == handle_box(handle_boxes(a, bs).0, b).0,
        handle_boxes(a, bs.push(b)).1 == handle_boxes(a, bs).1 + handle_box(
            handle_boxes(a, bs).0,
            b,
        ).1,
{
    reveal_with_fuel(handle_boxes, 1);
    assert(bs.push(b).drop_last() =~= bs);
}

proof fn lemma_handle_boxes_empty(a: AssemblerView)
    ensures
        handle_boxes(a, seq![]) == (a, Seq::<UnitView>::empty()),
{
    reveal_with_fuel(handle_boxes, 1);
}

/// Splits `buf` into boxes from its front and applies each complete one.
/// Returns where the unsplit rest starts and whether a corrupt size stopped it.
fn split_and_handle(framing: &mut Assembler, buf: &[u8], units: &mut Vec<Unit>) -> (r: (
    usize,
    bool,
))
    requires
        0 <= old(framing)@.moof_start <= old(framing)@.frag.len(),
    ensures
        0 <= final(framing)@.moof_start <= final(framing)@.frag.len(),
        r.0 <= buf@.len(),
        r.1 == split(buf@).reset,
        !r.1 ==> buf@.subrange(r.0 as int, buf@.len() as int) == split(buf@).rest,
        final(framing)@ == handle_boxes(old(framing)@, split(buf@).boxes).0,
        units_view(final(units)@) == units_view(old(units)@) + handle_boxes(
            old(framing)@,
            split(buf@).boxes,
        ).1,
{
    let len = buf.len();
    let mut pos: usize = 0;
    let ghost a0 = framing@;
    let ghost u0 = units_view(units@);
    let ghost mut done: Seq<Seq<u8>> = seq![];
    proof {
        assert(buf@.subrange(0, len as int) =~= buf@);
        lemma_handle_boxes_empty(a0);
        assert(u0 + seq![] =~= u0);
        assert(seq![] + split(buf@).boxes =~= split(buf@).boxes);
    }
    loop
        invariant
            len == buf@.len(),
            pos <= len,
            0 <= framing@.moof_start <= framing@.frag.len(),
            split(buf@).boxes == done + split(buf@.subrange(pos as int, len as int)).boxes,
            split(buf@).reset == split(buf@.subrange(pos as int, len as int)).reset,
            split(buf@).rest == split(buf@.subrange(pos as int, len as int)).rest,
            a0 == old(framing)@,
            u0 == units_view(old(units)@),
            framing@ == handle_boxes(a0, done).0,
            units_view(units@) == u0 + handle_boxes(a0, done).1,
        decreases len - pos,
    {
        let ghost sub = buf@.subrange(pos as int, len as int);
        if len - pos < 8 {
            proof {
                lemma_split_short(sub);
                assert(done + seq![] =~= done);
            }
            return (pos, false);
        }
        let size = read_be32(buf, pos) as usize;
        assert(size == be32(sub, 0)) by {
            assert(sub[0] == buf@[pos as int] && sub[1] == buf@[pos + 1]);
            assert(sub[2] == buf@[pos + 2] && sub[3] == buf@[pos + 3]);
        }
        if size < 8 || size > MAX_BOX_SIZE {
            proof {
                lemma_split_corrupt(sub);
                assert(done + seq![] =~= done);
            }
            return (pos, true);
        }
        if len - pos < size {
            proof {
                lemma_split_incomplete(sub);
                assert(done + seq![] =~= done);
            }
            return (pos, false);
        }
        let ghost b = buf@.subrange(pos as int, pos + size);
        framing.handle_box(buf, pos, size, units);
        proof {
            lemma_split_box(sub);
            assert(sub.subrange(0, size as int) =~= b);
            assert(sub.subrange(size as int, sub.len() as int) =~= buf@.subrange(
                pos + size,
                len as int,
            ));
            lemma_handle_boxes_push(a0, done, b);
            assert(done + (seq![b] + split(buf@.subrange(pos + size, len as int)).boxes)
                =~= done.push(b) + split(buf@.subrange(pos + size, len as int)).boxes);
            assert(u0 + handle_boxes(a0, done.push(b)).1 =~= u0 + handle_boxes(a0, done).1
                + handle_box(handle_boxes(a0, done).0, b).1);
            done = done.push(b);
        }
        pos = pos + size;
    }
}

/// Recovers fragmented-MP4 units from a byte stream delivered in chunks.
pub struct Fmp4Parser {
    pending: Vec<u8>,
    framing: Assembler,
}

impl View for Fmp4Parser {
    type V = ParserView;

    closed spec fn view(&self) -> ParserView {
        ParserView { pending: self.pending@, framing: self.framing@ }
    }
}

impl Fmp4Parser {
    /// A parser that has seen no bytes.
    pub fn new() -> (r: Self)
        ensures
            r@ == fresh_view(),
            r@.wf(),
    {
        Fmp4Parser {
            pending: Vec::new(),
            framing: Assembler {
                init: Vec::new(),
                init_sent: false,
                frag: Vec::new(),
                moof_start: 0,
                samples: 1,
            },
        }
    }

    /// Feeds the next chunk of the stream and returns the units it completes,
    /// in stream order.
    pub fn feed(&mut self, chunk: &[u8]) -> (units: Vec<Unit>)
        requires
            old(self)@.wf(),
        ensures
            final(self)@.wf(),
            (final(self)@, units_view(units@)) == feed_spec(old(self)@, chunk@),
    {
        append_range(&mut self.pending, chunk, 0, chunk.len());
        assert(chunk@.subrange(0, chunk@.len() as int) =~= chunk@);
        let mut units: Vec<Unit> = Vec::new();
        assert(units_view(units@) =~= seq![]);
        let ghost joined = old(self).pending@ + chunk@;
        let (pos, reset) = split_and_handle(&mut self.framing, self.pending.as_slice(), &mut units);
        assert(seq![] + handle_boxes(old(self)@.framing, split(self.pending@).boxes).1 =~= handle_boxes(
            old(self)@.framing,
            split(self.pending@).boxes,
        ).1);
        let ghost joined_pending = self.pending@;
        assert(joined_pending == joined);
        proof {
            lemma_split_reset_drops_rest(joined);
        }
        let rest = self.pending.split_off(pos);
        if reset || rest.len() > MAX_PENDING {
            self.pending = Vec::new();
            self.framing.clear_fragment();
        } else {
            self.pending = rest;
        }
        units
    }
}

/// A stream made only of complete boxes, each declaring a size from 8 to
/// [`MAX_PENDING`] bytes.
pub open spec fn valid_box_stream(w: Seq<u8>) -> bool
    decreases w.len(),
{
    if w.len() == 0 {
        true
    } else if w.len() < 8 {
        false
    } else {
        let n = be32(w, 0) as int;
        8 <= n <= MAX_PENDING && n <= w.len() && valid_box_stream(w.subrange(n, w.len() as int))
    }
}

/// The chunks joined in order.
pub open spec fn concat_chunks(cs: Seq<Seq<u8>>) -> Seq<u8>
    decreases cs.len(),
{
    if cs.len() == 0 {
        seq![]
    } else {
        concat_chunks(cs.drop_last()) + cs.last()
    }
}

/// The state after feeding the chunks one after another, and all the units
/// they complete, in order.
pub open spec fn feed_chunks(st: ParserView, cs: Seq<Seq<u8>>) -> (ParserView, Seq<UnitView>)
    decreases cs.len(),
{
    if cs.len() == 0 {
        (st, seq![])
    } else {
        let p = feed_chunks(st, cs.drop_last());
        let q = feed_spec(p.0, cs.last());
        (q.0, p.1 + q.1)
    }
}

proof fn lemma_split_append(p: Seq<u8>, c: Seq<u8>)
    requires
        !split(p).reset,
    ensures
        split(p + c).boxes == split(p).boxes + split(split(p).rest + c).boxes,
        split(p + c).reset == split(split(p).rest + c).reset,
        split(p + c).rest == split(split(p).rest + c).rest,
    decreases p.len(),
{
    if p.len() < 8 {
        lemma_split_short(p);
        assert(seq![] + split(p + c).boxes =~= split(p + c).boxes);
    } else {
        let n = be32(p, 0) as int;
        assert(be32(p + c, 0) == n) by {
            assert((p + c)[0] == p[0] && (p + c)[1] == p[1]);
            assert((p + c)[2] == p[2] && (p + c)[3] == p[3]);
        }
        if n < 8 || n > MAX_BOX_SIZE {
            lemma_split_corrupt(p);
        } else if p.len() < n {
            lemma_split_incomplete(p);
            assert(seq![] + split(p + c).boxes =~= split(p + c).boxes);
        } else {
            let tail = p.subrange(n, p.len() as int);
            lemma_split_box(p);
            lemma_split_box(p + c);
            assert((p + c).subrange(0, n) =~= p.subrange(0, n));
            assert((p + c).subrange(n, (p + c).len() as int) =~= tail + c);
            lemma_split_append(tail, c);
            assert(seq![p.subrange(0, n)] + (split(tail).boxes + split(split(tail).rest + c).boxes)
                =~= (seq![p.subrange(0, n)] + split(tail).boxes) + split(split(tail).rest
                + c).boxes);
        }
    }
}

proof fn lemma_handle_boxes_append(a: AssemblerView, b1: Seq<Seq<u8>>, b2: Seq<Seq<u8>>)
    ensures
        handle_boxes(a, b1 + b2).0 == handle_boxes(handle_boxes(a, b1).0, b2).0,
        handle_boxes(a, b1 + b2).1 == handle_boxes(a, b1).1 + handle_boxes(
            handle_boxes(a, b1).0,
            b2,
        ).1,
    decreases b2.len(),
{
    let m = handle_boxes(a, b1).0;
    if b2.len() == 0 {
        assert(b1 + b2 =~= b1);
        assert(b2 =~= Seq::<Seq<u8>>::empty());
        lemma_handle_boxes_empty(m);
        assert(handle_boxes(a, b1).1 + seq![] =~= handle_boxes(a, b1).1);
    } else {
        let init = b2.drop_last();
        let last = b2.last();
        assert(b1 + b2 =~= (b1 + init).push(last));
        assert(b2 =~= init.push(last));
        lemma_handle_boxes_append(a, b1, init);
        lemma_handle_boxes_push(a, b1 + init, last);
        lemma_handle_boxes_push(m, init, last);
        assert(handle_boxes(a, b1).1 + handle_boxes(m, init).1 + handle_box(
            handle_boxes(m, init).0,
            last,
        ).1 =~= handle_boxes(a, b1).1 + (handle_boxes(m, init).1 + handle_box(
            handle_boxes(m, init).0,
            last,
        ).1));
    }
}

proof fn lemma_valid_prefix(w: Seq<u8>, k: int)
    requires
        valid_box_stream(w),
        0 <= k <= w.len(),
    ensures
        !split(w.subrange(0, k)).reset,
        split(w.subrange(0, k)).rest.len() <= MAX_PENDING,
    decreases w.len(),
{
    let p = w.subrange(0, k);
    if k < 8 {
        lemma_split_short(p);
    } else {
        let n = be32(w, 0) as int;
        assert(be32(p, 0) == n);
        if k < n {
            lemma_split_incomplete(p);
        } else {
            lemma_split_box(p);
            let tail = w.subrange(n, w.len() as int);
            assert(p.subrange(n, p.len() as int) =~= tail.subrange(0, k - n));
            lemma_valid_prefix(tail, k - n);
        }
    }
}

proof fn lemma_feed_prefix(w: Seq<u8>, cs: Seq<Seq<u8>>)
    requires
        valid_box_stream(w),
        concat_chunks(cs).len() <= w.len(),
        w.subrange(0, concat_chunks(cs).len() as int) == concat_chunks(cs),
    ensures
        feed_chunks(fresh_view(), cs).0 == (ParserView {
            pending: split(concat_chunks(cs)).rest,
            framing: handle_boxes(fresh_view().framing, split(concat_chunks(cs)).boxes).0,
        }),
        feed_chunks(fresh_view(), cs).1 == handle_boxes(
            fresh_view().framing,
            split(concat_chunks(cs)).boxes,
        ).1,
    decreases cs.len(),
{
    let a0 = fresh_view().framing;
    if cs.len() == 0 {
        lemma_split_short(seq![]);
        lemma_handle_boxes_empty(a0);
    } else {
        let prev = concat_chunks(cs.drop_last());
        let c = cs.last();
        let whole = prev + c;
        assert(concat_chunks(cs) == whole);
        assert(w.subrange(0, prev.len() as int) =~= prev) by {
            assert(whole.subrange(0, prev.len() as int) =~= prev);
            assert(w.subrange(0, prev.len() as int) =~= w.subrange(0, whole.len() as int).subrange(
                0,
                prev.len() as int,
            ));
        }
        lemma_feed_prefix(w, cs.drop_last());
        lemma_valid_prefix(w, prev.len() as int);
        lemma_valid_prefix(w, whole.len() as int);
        lemma_split_append(prev, c);
        lemma_handle_boxes_append(a0, split(prev).boxes, split(split(prev).rest + c).boxes);
    }
}

/// Chunking does not matter: feeding a stream of well-sized boxes to a fresh
/// parser in any number of chunks, however small, leaves the same state and
/// yields the same units, in the same order, as feeding it in one piece.
pub proof fn lemma_chunking_invariance(chunks: Seq<Seq<u8>>)
    requires
        valid_box_stream(concat_chunks(chunks)),
    ensures
        feed_chunks(fresh_view(), chunks) == feed_spec(fresh_view(), concat_chunks(chunks)),
{
    let w = concat_chunks(chunks);
    assert(w.subrange(0, w.len() as int) =~= w);
    lemma_feed_prefix(w, chunks);
    lemma_valid_prefix(w, w.len() as int);
    assert(fresh_view().pending + w =~= w);
}

/// A stream that opens with an `ftyp` box and a `moov` box yields, from a
/// fresh parser, one unit for them: the initialization segment `ftyp` then
/// `moov`, byte for byte.
pub proof fn lemma_init_is_ftyp_then_moov(ftyp: Seq<u8>, moov: Seq<u8>)
    requires
        ftyp.len() >= 8,
        moov.len() >= 8,
        be32(ftyp, 4) == FTYP,
        be32(moov, 4) == MOOV,
    ensures
        handle_boxes(fresh_view().framing, seq![ftyp, moov]).1 == seq![UnitView::Init(ftyp + moov)],
        handle_boxes(fresh_view().framing, seq![ftyp, moov]).0.init_sent,
{
    let a0 = fresh_view().framing;
    lemma_handle_boxes_empty(a0);
    lemma_handle_boxes_push(a0, seq![], ftyp);
    lemma_handle_boxes_push(a0, seq![ftyp], moov);
    assert(seq![ftyp, moov] =~= seq![ftyp].push(moov));
    assert(Seq::<Seq<u8>>::empty().push(ftyp) =~= seq![ftyp]);
    assert(a0.init + ftyp =~= ftyp);
    assert(Seq::<UnitView>::empty() + Seq::<UnitView>::empty() + seq![UnitView::Init(ftyp + moov)]
        =~= seq![UnitView::Init(ftyp + moov)]);
}

/// The boxes of a stream that opens with `ftyp` and `moov` and goes on with
/// the `moof`/`mdat` pairs of `frags`, in order.
pub open spec fn stream_boxes(ftyp: Seq<u8>, moov: Seq<u8>, frags: Seq<(Seq<u8>, Seq<u8>)>) -> Seq<
    Seq<u8>,
>
    decreases frags.len(),
{
    if frags.len() == 0 {
        seq![ftyp, moov]
    } else {
        stream_boxes(ftyp, moov, frags.drop_last()).push(frags.last().0).push(frags.last().1)
    }
}

proof fn lemma_pair_step(a: AssemblerView, moof: Seq<u8>, mdat: Seq<u8>)
    requires
        a.frag.len() == 0,
        a.moof_start == 0,
        moof.len() >= 8,
        mdat.len() >= 8,
        be32(moof, 4) == MOOF,
        be32(mdat, 4) == MDAT,
    ensures
        ({
            let m = handle_box(a, moof);
            let q = handle_box(m.0, mdat);
            &&& m.1 == Seq::<UnitView>::empty()
            &&& q.1.len() == 1
            &&& q.1[0] is Fragment
            &&& unit_bytes(q.1[0]) == moof + mdat
            &&& q.0.frag.len() == 0 && q.0.moof_start == 0
            &&& q.0.init_sent == a.init_sent
        }),
{
    let m = handle_box(a, moof);
    assert(m.0 == handle_moof_box(a, moof));
    assert(a.frag + moof =~= moof);
    assert(m.0.frag == moof);
}

/// Units come out in stream order: from a fresh parser, a stream of `ftyp`,
/// `moov` and then `moof`/`mdat` pairs yields the initialization segment
/// first, then one fragment per pair, each the pair's `moof` and `mdat`
/// joined, in the order of the pairs, none twice.
pub proof fn lemma_units_in_stream_order(
    ftyp: Seq<u8>,
    moov: Seq<u8>,
    frags: Seq<(Seq<u8>, Seq<u8>)>,
)
    requires
        ftyp.len() >= 8,
        moov.len() >= 8,
        be32(ftyp, 4) == FTYP,
        be32(moov, 4) == MOOV,
        forall|i: int|
            0 <= i < frags.len() ==> frags[i].0.len() >= 8 && frags[i].1.len() >= 8 && be32(
                #[trigger] frags[i].0,
                4,
            ) == MOOF && be32(frags[i].1, 4) == MDAT,
    ensures
        ({
            let h = handle_boxes(fresh_view().framing, stream_boxes(ftyp, moov, frags));
            &&& h.1.len() == 1 + frags.len()
            &&& h.1[0] == UnitView::Init(ftyp + moov)
            &&& forall|i: int|
                0 <= i < frags.len() ==> (#[trigger] h.1[i + 1]) is Fragment && unit_bytes(h.1[i + 1])
                    == frags[i].0 + frags[i].1
            &&& h.0.frag.len() == 0 && h.0.moof_start == 0 && h.0.init_sent
        }),
    decreases frags.len(),
{
    let a0 = fresh_view().framing;
    if frags.len() == 0 {
        lemma_init_is_ftyp_then_moov(ftyp, moov);
        let h = handle_boxes(a0, seq![ftyp, moov]);
        lemma_handle_boxes_empty(a0);
        lemma_handle_boxes_push(a0, seq![], ftyp);
        lemma_handle_boxes_push(a0, seq![ftyp], moov);
        assert(seq![ftyp, moov] =~= seq![ftyp].push(moov));
        assert(Seq::<Seq<u8>>::empty().push(ftyp) =~= seq![ftyp]);
    } else {
        let init = frags.drop_last();
        let (moof, mdat) = frags.last();
        assert forall|i: int| 0 <= i < init.len() implies init[i].0.len() >= 8 && init[i].1.len()
            >= 8 && be32(#[trigger] init[i].0, 4) == MOOF && be32(init[i].1, 4) == MDAT by {
            assert(init[i] == frags[i]);
        }
        lemma_units_in_stream_order(ftyp, moov, init);
        let bs = stream_boxes(ftyp, moov, init);
        let p = handle_boxes(a0, bs);
        assert(frags[frags.len() - 1] == (moof, mdat));
        lemma_handle_boxes_push(a0, bs, moof);
        lemma_handle_boxes_push(a0, bs.push(moof), mdat);
        let m = handle_box(p.0, moof);
        let q = handle_box(m.0, mdat);
        lemma_pair_step(p.0, moof, mdat);
        let h = handle_boxes(a0, stream_boxes(ftyp, moov, frags));
        assert(stream_boxes(ftyp, moov, frags) == bs.push(moof).push(mdat));
        assert(h.1 =~= p.1 + m.1 + q.1);
        assert forall|i: int| 0 <= i < frags.len() implies (#[trigger] h.1[i + 1]) is Fragment
            && unit_bytes(h.1[i + 1]) == frags[i].0 + frags[i].1 by {
            if i < init.len() {
                assert(h.1[i + 1] == p.1[i + 1]);
                assert(init[i] == frags[i]);
            }
        }
    }
}

} // verus!
