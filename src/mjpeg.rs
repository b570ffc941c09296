//! Recovers JPEG frames from an MJPEG byte stream: a frame runs from a
//! start-of-image marker (`FF D8`) to an end-of-image marker (`FF D9`).
use vstd::prelude::*;

verus! {

/// Frames shorter than this are dropped as noise.
pub const MIN_FRAME_LEN: usize = 100;

/// A frame growing past this many bytes is abandoned.
pub const MAX_FRAME_LEN: usize = 10485760;

/// The splitter's state: whether a frame is open, its bytes so far, and the
/// last byte seen (markers may straddle chunks).
pub struct JpegView {
    pub in_frame: bool,
    pub buf: Seq<u8>,
    pub prev: u8,
}

pub open spec fn jpeg_fresh() -> JpegView {
    JpegView { in_frame: false, buf: seq![], prev: 0 }
}

/// One byte: a start marker opens a frame (dropping one still open); inside a
/// frame the byte is kept, an end marker closes the frame (handed on when it
/// has at least [`MIN_FRAME_LEN`] bytes), and a frame past
/// [`MAX_FRAME_LEN`] bytes is dropped.
pub open spec fn jpeg_step(st: JpegView, b: u8) -> (JpegView, Option<Seq<u8>>) {
    if st.prev == 0xff && b == 0xd8 {
        (JpegView { in_frame: true, buf: seq![0xffu8, 0xd8u8], prev: b }, None)
    } else if !st.in_frame {
        (JpegView { prev: b, ..st }, None)
    } else {
        let buf = st.buf.push(b);
        if st.prev == 0xff && b == 0xd9 {
            (
                JpegView { in_frame: false, buf: seq![], prev: b },
                if buf.len() >= MIN_FRAME_LEN {
                    Some(buf)
                } else {
                    None
                },
            )
        } else if buf.len() > MAX_FRAME_LEN {
            (JpegView { in_frame: false, buf: seq![], prev: b }, None)
        } else {
            (JpegView { in_frame: true, buf: buf, prev: b }, None)
        }
    }
}

/// The state after the bytes `bs`, and the frames they complete, in order.
pub open spec fn jpeg_feed(st: JpegView, bs: Seq<u8>) -> (JpegView, Seq<Seq<u8>>)
    decreases bs.len(),
{
    if bs.len() == 0 {
        (st, seq![])
    } else {
        let p = jpeg_feed(st, bs.drop_last());
        let q = jpeg_step(p.0, bs.last());
        (
            q.0,
            match q.1 {
                Some(f) => p.1.push(f),
                None => p.1,
            },
        )
    }
}

impl JpegView {
    pub open spec fn wf(self) -> bool {
        (self.in_frame ==> 2 <= self.buf.len() <= MAX_FRAME_LEN) && (!self.in_frame
            ==> self.buf.len() == 0)
    }
}

/// Splits an MJPEG byte stream into JPEG frames.
pub struct MjpegParser {
    in_frame: bool,
    buf: Vec<u8>,
    prev: u8,
}

impl View for MjpegParser {
    type V = JpegView;

    closed spec fn view(&self) -> JpegView {
        JpegView { in_frame: self.in_frame, buf: self.buf@, prev: self.prev }
    }
}

pub open spec fn frames_view(fs: Seq<Vec<u8>>) -> Seq<Seq<u8>> {
    fs.map_values(|f: Vec<u8>| f@)
}

impl MjpegParser {
    /// A splitter that has seen no bytes.
    pub fn new() -> (r: Self)
        ensures
            r@ == jpeg_fresh(),
            r@.wf(),
    {
        MjpegParser { in_frame: false, buf: Vec::new(), prev: 0 }
    }

    /// Takes one byte, as [`jpeg_step`] says.
    fn step(&mut self, b: u8) -> (r: Option<Vec<u8>>)
        requires
            old(self)@.wf(),
        ensures
            final(self)@.wf(),
            final(self)@ == jpeg_step(old(self)@, b).0,
            match r {
                Some(f) => jpeg_step(old(self)@, b).1 == Some(f@),
                None => jpeg_step(old(self)@, b).1 is None,
            },
    {
        let prev = self.prev;
        self.prev = b;
        if prev == 0xff && b == 0xd8 {
            self.in_frame = true;
            self.buf = Vec::new();
            self.buf.push(0xff);
            self.buf.push(0xd8);
            assert(self.buf@ =~= seq![0xffu8, 0xd8u8]);
            return None;
        }
        if !self.in_frame {
            return None;
        }
        self.buf.push(b);
        if prev == 0xff && b == 0xd9 {
            self.in_frame = false;
            let frame = self.buf.split_off(0);
            assert(self.buf@ =~= Seq::<u8>::empty());
            assert(frame@ =~= old(self)@.buf.push(b));
            if frame.len() >= MIN_FRAME_LEN {
                return Some(frame);
            }
            return None;
        }
        if self.buf.len() > MAX_FRAME_LEN {
            self.in_frame = false;
            self.buf = Vec::new();
            assert(self.buf@ =~= Seq::<u8>::empty());
        }
        None
    }

    /// Feeds the next chunk and returns the frames it completes, in order.
    pub fn feed(&mut self, chunk: &[u8]) -> (frames: Vec<Vec<u8>>)
        requires
            old(self)@.wf(),
        ensures
            final(self)@.wf(),
            (final(self)@, frames_view(frames@)) == jpeg_feed(old(self)@, chunk@),
    {
        let ghost s0 = self@;
        let mut frames: Vec<Vec<u8>> = Vec::new();
        let mut i: usize = 0;
        assert(chunk@.subrange(0, 0) =~= Seq::<u8>::empty());
        assert(frames_view(frames@) =~= Seq::<Seq<u8>>::empty());
        while i < chunk.len()
            invariant
                i <= chunk@.len(),
                self@.wf(),
                (self@, frames_view(frames@)) == jpeg_feed(s0, chunk@.subrange(0, i as int)),
            decreases chunk@.len() - i,
        {
            let ghost fv = frames_view(frames@);
            let r = self.step(chunk[i]);
            proof {
                let p = chunk@.subrange(0, i + 1);
                assert(p.drop_last() =~= chunk@.subrange(0, i as int));
            }
            match r {
                Some(f) => {
                    let ghost f_view = f@;
                    frames.push(f);
                    assert(frames_view(frames@) =~= fv.push(f_view));
                },
                None => {},
            }
            i = i + 1;
        }
        assert(chunk@.subrange(0, chunk@.len() as int) =~= chunk@);
        frames
    }
}

/// Chunking does not matter: feeding `a` and then `b` leaves the same state
/// and yields the same frames, in order, as feeding them joined.
pub proof fn lemma_jpeg_chunking(st: JpegView, a: Seq<u8>, b: Seq<u8>)
    ensures
        jpeg_feed(st, a + b).0 == jpeg_feed(jpeg_feed(st, a).0, b).0,
        jpeg_feed(st, a + b).1 == jpeg_feed(st, a).1 + jpeg_feed(jpeg_feed(st, a).0, b).1,
    decreases b.len(),
{
    if b.len() == 0 {
        assert(a + b =~= a);
        assert(jpeg_feed(st, a).1 + seq![] =~= jpeg_feed(st, a).1);
    } else {
        let init = b.drop_last();
        assert((a + b).drop_last() =~= a + init);
        assert((a + b).last() == b.last());
        lemma_jpeg_chunking(st, a, init);
        let mid = jpeg_feed(st, a);
        let q = jpeg_step(jpeg_feed(mid.0, init).0, b.last());
        match q.1 {
            Some(f) => {
                assert(mid.1 + jpeg_feed(mid.0, init).1.push(f) =~= (mid.1 + jpeg_feed(
                    mid.0,
                    init,
                ).1).push(f));
            },
            None => {},
        }
    }
}

} // verus!
