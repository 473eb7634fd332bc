//! Frames in memory: where their planes stand, in what order they are sent, and what comes back.
use vstd::prelude::*;

use crate::num::{decimal, push_decimal, signed, signed_text};
use crate::text::{gives, lemma_gives_here, lemma_gives_more, push_text, texts};

verus! {

/// The planes of a frame with two bytes per sample and chroma at half the width and height.
#[derive(Clone, Copy, Debug, PartialEq, Eq, Structural)]
pub struct FrameLayout {
    /// The bytes of the luma plane.
    pub y_sz: usize,
    /// The bytes of each chroma plane.
    pub uv_sz: usize,
    /// The samples in a row of luma.
    pub y_stride: u32,
    /// The samples in a row of chroma.
    pub uv_stride: u32,
}

/// The bytes of a luma plane.
pub open spec fn luma_bytes(w: nat, h: nat) -> nat {
    w * h * 2
}

/// The bytes of a chroma plane.
pub open spec fn chroma_bytes(w: nat, h: nat) -> nat {
    (w / 2) * (h / 2) * 2
}

/// The bytes of all three planes.
pub open spec fn frame_bytes(w: nat, h: nat) -> nat {
    luma_bytes(w, h) + 2 * chroma_bytes(w, h)
}

proof fn lemma_sizes(w: nat, h: nat)
    ensures
        w * h <= luma_bytes(w, h),
        (w / 2) * (h / 2) <= chroma_bytes(w, h),
        w * h >= 0,
        (w / 2) * (h / 2) >= 0,
{
    assert(w * h >= 0) by (nonlinear_arith);
    assert((w / 2) * (h / 2) >= 0) by (nonlinear_arith);
}

/// Where the planes of a frame stand.
pub fn frame_layout(width: u32, height: u32) -> (r: FrameLayout)
    requires
        frame_bytes(width as nat, height as nat) <= usize::MAX,
    ensures
        r.y_sz == luma_bytes(width as nat, height as nat),
        r.uv_sz == chroma_bytes(width as nat, height as nat),
        r.y_stride == width,
        r.uv_stride == width / 2,
{
    proof {
        lemma_sizes(width as nat, height as nat);
    }
    let w: usize = width as usize;
    let h: usize = height as usize;
    FrameLayout {
        y_sz: w * h * 2,
        uv_sz: (w / 2) * (h / 2) * 2,
        y_stride: width,
        uv_stride: (w / 2) as u32,
    }
}

/// The offsets of the three planes in a buffer.
#[derive(Clone, Copy, Debug, PartialEq, Eq, Structural)]
pub struct Planes {
    pub y: usize,
    pub u: usize,
    pub v: usize,
}

impl FrameLayout {
    /// The bytes of all three planes.
    pub open spec fn bytes(self) -> int {
        self.y_sz + 2 * self.uv_sz
    }

    /// The planes of a frame that starts at `base`.
    pub fn planes_at(self, base: usize) -> (r: Planes)
        requires
            base + self.bytes() <= usize::MAX,
        ensures
            r.y == base,
            r.u == base + self.y_sz,
            r.v == base + self.y_sz + self.uv_sz,
    {
        Planes { y: base, u: base + self.y_sz, v: base + (self.y_sz + self.uv_sz) }
    }

    /// The bytes of a frame as SVT-AV1 is told them: the low 32 bits of their number.
    pub fn filled_len(self) -> (r: u32)
        requires
            self.bytes() <= usize::MAX,
        ensures
            r == (self.bytes() as usize) as u32,
    {
        let n: usize = self.y_sz + self.uv_sz * 2;
        n as u32
    }
}

/// The frames of a chunk that are still to be sent.
#[derive(Clone, Copy, Debug, PartialEq, Eq, Structural)]
pub struct Feed {
    pub frames: usize,
    pub frame_sz: usize,
    pub next: usize,
}

/// One frame that is to be sent.
#[derive(Clone, Copy, Debug, PartialEq, Eq, Structural)]
pub struct FrameAt {
    pub index: usize,
    /// Where it starts in the chunk's buffer.
    pub offset: usize,
}

impl Feed {
    /// The chunk's buffer can be addressed, and no frame beyond the last is next.
    pub open spec fn wf(self) -> bool {
        self.next <= self.frames && self.frames * self.frame_sz <= usize::MAX
    }

    /// All frames of a chunk.
    pub fn new(frames: usize, frame_sz: usize) -> (r: Feed)
        requires
            frames * frame_sz <= usize::MAX,
        ensures
            r.wf(),
            r == (Feed { frames, frame_sz, next: 0 }),
    {
        Feed { frames, frame_sz, next: 0 }
    }

    /// The next frame, in order, until none is left.
    pub fn next_frame(&mut self) -> (r: Option<FrameAt>)
        requires
            old(self).wf(),
        ensures
            final(self).wf(),
            final(self).frames == old(self).frames,
            final(self).frame_sz == old(self).frame_sz,
            match r {
                Some(f) => {
                    &&& old(self).next < old(self).frames
                    &&& f.index == old(self).next
                    &&& f.offset == old(self).next * old(self).frame_sz
                    &&& final(self).next == old(self).next + 1
                },
                None => old(self).next == old(self).frames && final(self).next == old(self).next,
            },
    {
        if self.next < self.frames {
            assert(self.next * self.frame_sz <= self.frames * self.frame_sz) by (nonlinear_arith)
                requires
                    self.next <= self.frames,
            ;
            assert(self.next * self.frame_sz >= 0) by (nonlinear_arith);
            let f = FrameAt { index: self.next, offset: self.next * self.frame_sz };
            self.next = self.next + 1;
            Some(f)
        } else {
            None
        }
    }
}

impl Feed {
    /// The next frame and where its planes stand in the chunk's buffer, until none is left.
    pub fn next_direct(&mut self, l: FrameLayout) -> (r: Option<(FrameAt, Planes)>)
        requires
            old(self).wf(),
            l.bytes() <= old(self).frame_sz,
        ensures
            final(self).wf(),
            final(self).frames == old(self).frames,
            final(self).frame_sz == old(self).frame_sz,
            match r {
                Some((f, p)) => {
                    &&& old(self).next < old(self).frames
                    &&& f.index == old(self).next
                    &&& f.offset == old(self).next * old(self).frame_sz
                    &&& final(self).next == old(self).next + 1
                    &&& p.y == f.offset
                    &&& p.u == f.offset + l.y_sz
                    &&& p.v == f.offset + l.y_sz + l.uv_sz
                    &&& p.v + l.uv_sz <= old(self).frames * old(self).frame_sz
                },
                None => old(self).next == old(self).frames && final(self).next == old(self).next,
            },
    {
        match self.next_frame() {
            Some(f) => {
                proof {
                    law_frames_follow_each_other(*old(self), f.index as int);
                }
                Some((f, l.planes_at(f.offset)))
            },
            None => None,
        }
    }
}

/// What is said when a library does not take a frame.
pub open spec fn send_failure(call: Seq<char>, index: nat, ret: int) -> Seq<char> {
    call + " failed at frame "@ + decimal(index) + ": "@ + signed(ret)
}

/// What is said when a library does not take a frame; `ok` is what it returns when it does.
pub fn send_error(call: &str, index: usize, ret: i32, ok: i32) -> (r: Option<String>)
    ensures
        r is Some <==> ret != ok,
        r matches Some(s) ==> s@ == send_failure(call@, index as nat, ret as int),
{
    if ret == ok {
        return None;
    }
    let mut s = call.to_owned();
    s.append(" failed at frame ");
    push_decimal(&mut s, index as u64);
    s.append(": ");
    let t = signed_text(ret as i64);
    s.append(t.as_str());
    Some(s)
}

/// What is said when a call of a library fails.
pub open spec fn call_failure(call: Seq<char>, ret: int) -> Seq<char> {
    call + " failed: "@ + signed(ret)
}

/// What is said when a call of a library fails; `ok` is what it returns when it does not.
pub fn call_error(call: &str, ret: i32, ok: i32) -> (r: Option<String>)
    ensures
        r is Some <==> ret != ok,
        r matches Some(s) ==> s@ == call_failure(call@, ret as int),
{
    if ret == ok {
        return None;
    }
    let mut s = call.to_owned();
    s.append(" failed: ");
    let t = signed_text(ret as i64);
    s.append(t.as_str());
    Some(s)
}

/// A packet that an encoder hands out.
#[derive(Clone, Copy, Debug, PartialEq, Eq, Structural)]
pub struct Packet {
    /// It holds a coded frame, which is written out.
    pub is_frame: bool,
    pub len: usize,
}

/// How much of a chunk has come out of an encoder.
#[derive(Clone, Copy, Debug, PartialEq, Eq, Structural)]
pub struct Drained {
    /// The packets so far, which the progress shows.
    pub done: usize,
    /// The bytes that were written.
    pub sz: u64,
}

/// The bytes of the coded frames among packets.
pub open spec fn coded_bytes(pkts: Seq<Packet>) -> nat
    decreases pkts.len(),
{
    if pkts.len() == 0 {
        0
    } else {
        coded_bytes(pkts.drop_last()) + if pkts.last().is_frame {
            pkts.last().len as nat
        } else {
            0
        }
    }
}

impl Drained {
    /// Nothing has come out.
    pub fn new() -> (r: Drained)
        ensures
            r == (Drained { done: 0, sz: 0 }),
    {
        Drained { done: 0, sz: 0 }
    }

    /// Counts a packet: each is progress, and the bytes of a coded frame are written.
    pub fn packet(&mut self, p: Packet)
        requires
            old(self).done < usize::MAX,
            p.is_frame ==> old(self).sz + p.len <= u64::MAX,
        ensures
            final(self).done == old(self).done + 1,
            final(self).sz == old(self).sz + if p.is_frame {
                p.len as int
            } else {
                0
            },
    {
        if p.is_frame {
            self.sz = self.sz + p.len as u64;
        }
        self.done = self.done + 1;
    }

    /// Counts all packets that stand ready.
    pub fn drain_avm_packets(&mut self, pkts: &Vec<Packet>)
        requires
            old(self).done + pkts@.len() <= usize::MAX,
            old(self).sz + coded_bytes(pkts@) <= u64::MAX,
        ensures
            final(self).done == old(self).done + pkts@.len(),
            final(self).sz == old(self).sz + coded_bytes(pkts@),
    {
        let mut i: usize = 0;
        assert(pkts@.take(0) =~= seq![]);
        while i < pkts.len()
            invariant
                i <= pkts@.len(),
                old(self).done + pkts@.len() <= usize::MAX,
                old(self).sz + coded_bytes(pkts@) <= u64::MAX,
                self.done == old(self).done + i,
                self.sz == old(self).sz + coded_bytes(pkts@.take(i as int)),
            decreases pkts@.len() - i,
        {
            assert(pkts@.take(i + 1).drop_last() =~= pkts@.take(i as int));
            proof {
                lemma_coded_bytes_grow(pkts@, i + 1);
            }
            self.packet(pkts[i]);
            i = i + 1;
        }
        assert(pkts@.take(i as int) =~= pkts@);
    }

    /// Whether an encoder that was told of the end has nothing more: no packet came since.
    pub fn finished(self, before: usize) -> (r: bool)
        ensures
            r == (self.done == before),
    {
        self.done == before
    }
}

proof fn lemma_coded_bytes_grow(pkts: Seq<Packet>, n: int)
    requires
        0 <= n <= pkts.len(),
    ensures
        coded_bytes(pkts.take(n)) <= coded_bytes(pkts),
    decreases pkts.len() - n,
{
    if n < pkts.len() {
        assert(pkts.take(n + 1).drop_last() =~= pkts.take(n));
        lemma_coded_bytes_grow(pkts, n + 1);
    } else {
        assert(pkts.take(n) =~= pkts);
    }
}

/// The planes of a frame do not overlap, and fill the frame.
pub proof fn law_planes_fill_the_frame(l: FrameLayout, p: Planes, base: int)
    requires
        p.y == base,
        p.u == base + l.y_sz,
        p.v == base + l.y_sz + l.uv_sz,
    ensures
        p.y + l.y_sz == p.u,
        p.u + l.uv_sz == p.v,
        p.v + l.uv_sz == base + l.bytes(),
{
}

/// A frame that a feed hands out lies inside the chunk's buffer, behind the one before it.
pub proof fn law_frames_follow_each_other(f: Feed, i: int)
    requires
        f.wf(),
        0 <= i < f.frames,
    ensures
        i * f.frame_sz + f.frame_sz == (i + 1) * f.frame_sz,
        (i + 1) * f.frame_sz <= f.frames * f.frame_sz,
{
    assert(i * f.frame_sz + f.frame_sz == (i + 1) * f.frame_sz) by (nonlinear_arith);
    assert((i + 1) * f.frame_sz <= f.frames * f.frame_sz) by (nonlinear_arith)
        requires
            i + 1 <= f.frames,
            f.frame_sz >= 0,
    ;
}

/// The shape of an image as the AVM library is told it.
#[derive(Clone, Copy, Debug, PartialEq, Eq, Structural)]
pub struct AvmImage {
    pub fmt: i32,
    pub w: u32,
    pub h: u32,
    pub d_w: u32,
    pub d_h: u32,
    pub bit_depth: u32,
    pub bps: i32,
    pub x_chroma_shift: u32,
    pub y_chroma_shift: u32,
    /// The bytes in a row of luma, and in a row of each chroma plane.
    pub y_stride: i32,
    pub u_stride: i32,
    pub v_stride: i32,
}

/// The shape of an image as the AVM library is told it; `fmt` is its number for the format.
pub fn avm_img(width: u32, height: u32, fmt: i32) -> (r: AvmImage)
    requires
        width * 2 <= u32::MAX,
    ensures
        r == (AvmImage {
            fmt,
            w: width,
            h: height,
            d_w: width,
            d_h: height,
            bit_depth: 16,
            bps: 24,
            x_chroma_shift: 1,
            y_chroma_shift: 1,
            y_stride: (width * 2) as i32,
            u_stride: width as i32,
            v_stride: width as i32,
        }),
{
    AvmImage {
        fmt,
        w: width,
        h: height,
        d_w: width,
        d_h: height,
        bit_depth: 16,
        bps: 24,
        x_chroma_shift: 1,
        y_chroma_shift: 1,
        y_stride: (width * 2) as i32,
        u_stride: width as i32,
        v_stride: width as i32,
    }
}

/// The parameters that the templates of the AVM library are made with.
pub open spec fn avm_template(params: Seq<char>, zones: Seq<Seq<char>>, i: int) -> Seq<Seq<char>> {
    if i == 0 {
        seq![params]
    } else {
        seq![params, zones[i - 1]]
    }
}

/// The parameters that each template of the AVM library is made with, in order: the run's own, and
/// for each zone the zone's behind them.
pub fn build_avm_templates(params: &str, zones: &Vec<String>) -> (r: Vec<Vec<String>>)
    ensures
        r@.len() == zones@.len() + 1,
        forall|i: int|
            0 <= i < r@.len() ==> texts((#[trigger] r@[i])@) == avm_template(
                params@,
                texts(zones@),
                i,
            ),
{
    let mut r: Vec<Vec<String>> = Vec::new();
    let mut first: Vec<String> = Vec::new();
    push_text(&mut first, params);
    assert(texts(first@) =~= seq![params@]);
    r.push(first);
    let mut i: usize = 0;
    while i < zones.len()
        invariant
            i <= zones@.len(),
            r@.len() == i + 1,
            forall|k: int|
                0 <= k < r@.len() ==> texts((#[trigger] r@[k])@) == avm_template(
                    params@,
                    texts(zones@),
                    k,
                ),
        decreases zones@.len() - i,
    {
        let mut t: Vec<String> = Vec::new();
        push_text(&mut t, params);
        push_text(&mut t, zones[i].as_str());
        assert(texts(zones@)[i as int] == zones@[i as int]@);
        assert(texts(t@) =~= seq![params@, zones@[i as int]@]);
        r.push(t);
        i = i + 1;
    }
    r
}

/// A zone's parameters follow the run's own, so that a zone overrides only what it names.
pub proof fn law_avm_zones_extend_base(params: Seq<char>, zones: Seq<Seq<char>>, i: int)
    requires
        0 <= i <= zones.len(),
    ensures
        avm_template(params, zones, 0).is_prefix_of(avm_template(params, zones, i)),
{
}

/// The template of the AVM library: its settings, the head of its options, and the options.
pub fn assemble_avm_tmpl(conf: &[u8], hdr: &[u8], extra: &[u8]) -> (r: Vec<u8>)
    ensures
        r@ == conf@ + hdr@ + extra@,
{
    let mut r: Vec<u8> = Vec::new();
    r.extend_from_slice(conf);
    r.extend_from_slice(hdr);
    r.extend_from_slice(extra);
    assert(r@ =~= conf@ + hdr@ + extra@);
    r
}

/// The parts of a template.
pub struct AvmTmplParts {
    pub conf: Vec<u8>,
    pub hdr: Vec<u8>,
    pub extra: Vec<u8>,
}

/// Takes a template apart, given the sizes of its first two parts.
pub fn split_avm_tmpl(t: &[u8], conf_sz: usize, hdr_sz: usize) -> (r: AvmTmplParts)
    requires
        conf_sz + hdr_sz <= t@.len(),
    ensures
        r.conf@ == t@.take(conf_sz as int),
        r.hdr@ == t@.subrange(conf_sz as int, conf_sz + hdr_sz),
        r.extra@ == t@.skip(conf_sz + hdr_sz),
{
    let mut conf: Vec<u8> = Vec::new();
    let mut hdr: Vec<u8> = Vec::new();
    let mut extra: Vec<u8> = Vec::new();
    let n: usize = t.len();
    let mut i: usize = 0;
    let head: usize = conf_sz + hdr_sz;
    while i < n
        invariant
            n == t@.len(),
            i <= n,
            head == conf_sz + hdr_sz,
            head <= n,
            i <= conf_sz ==> conf@ == t@.take(i as int) && hdr@.len() == 0 && extra@.len() == 0,
            i > conf_sz ==> conf@ == t@.take(conf_sz as int),
            conf_sz < i <= head ==> hdr@ == t@.subrange(conf_sz as int, i as int) && extra@.len()
                == 0,
            i > head ==> hdr@ == t@.subrange(conf_sz as int, head as int) && extra@ == t@.subrange(
                head as int,
                i as int,
            ),
        decreases n - i,
    {
        let b = t[i];
        if i < conf_sz {
            conf.push(b);
            assert(conf@ =~= t@.take(i + 1));
        } else if i < head {
            hdr.push(b);
            assert(hdr@ =~= t@.subrange(conf_sz as int, i + 1));
        } else {
            extra.push(b);
            assert(extra@ =~= t@.subrange(head as int, i + 1));
            assert(hdr@ =~= t@.subrange(conf_sz as int, head as int));
        }
        i = i + 1;
    }
    assert(conf@ =~= t@.take(conf_sz as int));
    assert(hdr@ =~= t@.subrange(conf_sz as int, conf_sz + hdr_sz));
    assert(extra@ =~= t@.skip(conf_sz + hdr_sz));
    AvmTmplParts { conf, hdr, extra }
}

/// A template that is taken apart gives its parts back.
pub proof fn law_avm_template_splits_back(conf: Seq<u8>, hdr: Seq<u8>, extra: Seq<u8>)
    ensures
        (conf + hdr + extra).take(conf.len() as int) == conf,
        (conf + hdr + extra).subrange(conf.len() as int, (conf.len() + hdr.len()) as int) == hdr,
        (conf + hdr + extra).skip((conf.len() + hdr.len()) as int) == extra,
{
    let t = conf + hdr + extra;
    assert(t.take(conf.len() as int) =~= conf);
    assert(t.subrange(conf.len() as int, (conf.len() + hdr.len()) as int) =~= hdr);
    assert(t.skip((conf.len() + hdr.len()) as int) =~= extra);
}

/// The three planes of a frame of even size take three bytes for each of its pixels, and those of a
/// frame of odd size no more.
pub proof fn law_frame_takes_three_bytes_a_pixel(w: nat, h: nat)
    ensures
        frame_bytes(w, h) <= w * h * 3,
        w % 2 == 0 && h % 2 == 0 ==> frame_bytes(w, h) == w * h * 3,
        luma_bytes(w, h) == w * h * 2,
{
    let (a, b) = (w / 2, h / 2);
    assert(4 * (a * b) <= w * h) by (nonlinear_arith)
        requires
            2 * a <= w,
            2 * b <= h,
            a >= 0,
            b >= 0,
    ;
    if w % 2 == 0 && h % 2 == 0 {
        assert(4 * (a * b) == w * h) by (nonlinear_arith)
            requires
                2 * a == w,
                2 * b == h,
        ;
    }
}

/// The bytes of coded frames are those of all packets together, but for the packets that hold none;
/// a packet more adds its own.
pub proof fn law_coded_bytes_add_up(pkts: Seq<Packet>, p: Packet)
    ensures
        coded_bytes(pkts.push(p)) == coded_bytes(pkts) + if p.is_frame {
            p.len as nat
        } else {
            0
        },
        coded_bytes(seq![]) == 0,
{
    assert(pkts.push(p).drop_last() =~= pkts);
}


/// The planes of a frame of a given size stand one behind the other and end where the frame ends;
/// rows of chroma have half the samples of rows of luma.
pub proof fn law_planes_of_a_frame(w: u32, h: u32, base: usize, l: FrameLayout, p: Planes, n: u32)
    requires
        base + frame_bytes(w as nat, h as nat) <= usize::MAX,
        call_ensures(frame_layout, (w, h), l),
        call_ensures(FrameLayout::planes_at, (l, base), p),
        call_ensures(FrameLayout::filled_len, (l,), n),
    ensures
        p.y == base,
        p.u == p.y + w * h * 2,
        p.v == p.u + (w / 2) * (h / 2) * 2,
        p.v + (w / 2) * (h / 2) * 2 == base + frame_bytes(w as nat, h as nat),
        l.y_stride == w && l.uv_stride * 2 <= w < l.uv_stride * 2 + 2,
        frame_bytes(w as nat, h as nat) <= u32::MAX ==> n == frame_bytes(w as nat, h as nat),
{
    lemma_sizes(w as nat, h as nat);
}

/// A feed hands out the frames of its chunk in order, each once and each behind the one before it,
/// until all are sent.
pub proof fn law_frames_are_sent_in_order(f: &mut Feed, r: Option<FrameAt>)
    requires
        f.wf(),
        call_ensures(Feed::next_frame, (f,), r),
    ensures
        r is None <==> old(f).next == old(f).frames,
        r matches Some(x) ==> {
            &&& x.index == old(f).next
            &&& final(f).next == x.index + 1
            &&& x.offset == x.index * old(f).frame_sz
            &&& x.offset + old(f).frame_sz <= old(f).frames * old(f).frame_sz
        },
        final(f).frames == old(f).frames && final(f).frame_sz == old(f).frame_sz,
{
    if let Some(x) = r {
        law_frames_follow_each_other(*old(f), x.index as int);
    }
}

/// The planes of a frame that is sent directly stand inside that frame, one behind the other.
pub proof fn law_planes_are_sent_in_order(f: &mut Feed, l: FrameLayout, r: Option<(FrameAt, Planes)>)
    requires
        f.wf(),
        l.bytes() <= f.frame_sz,
        call_ensures(Feed::next_direct, (f, l), r),
    ensures
        r is None <==> old(f).next == old(f).frames,
        r matches Some((x, p)) ==> {
            &&& x.index == old(f).next && final(f).next == x.index + 1
            &&& p.y == x.index * old(f).frame_sz
            &&& p.u - p.y == l.y_sz
            &&& p.v - p.u == l.uv_sz
            &&& p.v + l.uv_sz <= (x.index + 1) * old(f).frame_sz
        },
{
    if let Some((x, p)) = r {
        law_frames_follow_each_other(*old(f), x.index as int);
    }
}

/// A call that returns what it should gives no message; any other gives one that starts with the
/// call and ends with what it returned, for a frame with the frame's number in between.
pub proof fn law_messages_name_the_call(
    call: &str,
    index: usize,
    ret: i32,
    ok: i32,
    sent: Option<String>,
    called: Option<String>,
)
    requires
        call_ensures(send_error, (call, index, ret, ok), sent),
        call_ensures(call_error, (call, ret, ok), called),
    ensures
        sent is None <==> ret == ok,
        called is None <==> ret == ok,
        sent matches Some(m) ==> {
            let n = signed(ret as int);
            &&& call@.is_prefix_of(m@)
            &&& m@.skip(m@.len() - n.len()) == n
            &&& gives(m@, " failed at frame "@, decimal(index as nat), ": "@)
        },
        called matches Some(m) ==> {
            let n = signed(ret as int);
            &&& call@.is_prefix_of(m@)
            &&& m@.skip(m@.len() - n.len()) == n
            &&& m@.len() == call@.len() + " failed: "@.len() + n.len()
            &&& m@.subrange(call@.len() as int, m@.len() - n.len()) == " failed: "@
        },
{
    let n = signed(ret as int);
    if let Some(m) = sent {
        assert(m@.skip(m@.len() - n.len()) =~= n);
        lemma_gives_here(call@, " failed at frame "@, decimal(index as nat), ": "@);
        lemma_gives_more(call@ + " failed at frame "@ + decimal(index as nat) + ": "@, n);
    }
    if let Some(m) = called {
        assert(m@.skip(m@.len() - n.len()) =~= n);
        assert(m@.subrange(call@.len() as int, m@.len() - n.len()) =~= " failed: "@);
    }
}

/// A packet is one step of progress, and its bytes count where it holds a frame; all packets at once
/// count as they do one by one.
pub proof fn law_packets_count_one_by_one(
    d: &mut Drained,
    p: Packet,
    all: &mut Drained,
    one: &Vec<Packet>,
)
    requires
        one@ == seq![p],
        *all == *d,
        d.done < usize::MAX,
        d.sz + p.len <= u64::MAX,
        call_ensures(Drained::packet, (d, p), ()),
        call_ensures(Drained::drain_avm_packets, (all, one), ()),
    ensures
        final(d).done == old(d).done + 1,
        p.is_frame ==> final(d).sz == old(d).sz + p.len,
        !p.is_frame ==> final(d).sz == old(d).sz,
        *final(all) == *final(d),
{
    law_coded_bytes_add_up(seq![], p);
    assert(Seq::<Packet>::empty().push(p) =~= one@);
}

/// An encoder is done when nothing came out since it was told of the end, and starts with nothing.
pub proof fn law_drained_is_finished(d: Drained, before: usize, r: bool, fresh: Drained)
    requires
        call_ensures(Drained::finished, (d, before), r),
        call_ensures(Drained::new, (), fresh),
    ensures
        r <==> d.done == before,
        fresh.done == 0 && fresh.sz == 0,
{
}

/// The image that the AVM library is given has its own size, chroma at half the width and height, and
/// rows of two bytes a sample.
pub proof fn law_avm_image_is_the_frame(w: u32, h: u32, fmt: i32, r: AvmImage)
    requires
        w * 2 <= i32::MAX,
        call_ensures(avm_img, (w, h, fmt), r),
    ensures
        (r.w, r.h) == (w, h) && (r.d_w, r.d_h) == (w, h),
        r.fmt == fmt,
        r.y_stride == w * 2,
        r.u_stride == r.v_stride && r.u_stride * 2 == r.y_stride,
        r.x_chroma_shift == 1 && r.y_chroma_shift == 1,
        r.bit_depth == 16 && r.bps == 24,
{
}

/// A template that is put together and taken apart again gives its parts back.
pub proof fn law_avm_template_comes_apart(
    conf: &[u8],
    hdr: &[u8],
    extra: &[u8],
    t: Vec<u8>,
    whole: &[u8],
    parts: AvmTmplParts,
)
    requires
        call_ensures(assemble_avm_tmpl, (conf, hdr, extra), t),
        whole@ == t@,
        conf@.len() + hdr@.len() <= usize::MAX,
        call_ensures(
            split_avm_tmpl,
            (whole, conf@.len() as usize, hdr@.len() as usize),
            parts,
        ),
    ensures
        parts.conf@ == conf@,
        parts.hdr@ == hdr@,
        parts.extra@ == extra@,
{
    law_avm_template_splits_back(conf@, hdr@, extra@);
}

/// The first template is made with the run's own parameters alone, and that of a zone with those and
/// then the zone's.
pub proof fn law_avm_templates_follow_zones(params: Seq<char>, zones: Seq<Seq<char>>, i: int)
    requires
        0 <= i < zones.len(),
    ensures
        avm_template(params, zones, 0).len() == 1 && avm_template(params, zones, 0)[0] == params,
        avm_template(params, zones, i + 1).len() == 2,
        avm_template(params, zones, i + 1)[0] == params,
        avm_template(params, zones, i + 1)[1] == zones[i],
{
}


/// There is a template for the run and one for each zone, each made with its own parameters.
pub proof fn law_avm_templates_are_for_each_zone(
    params: &str,
    zones: &Vec<String>,
    r: Vec<Vec<String>>,
    i: int,
)
    requires
        call_ensures(build_avm_templates, (params, zones), r),
        0 <= i < zones@.len(),
    ensures
        r@.len() == zones@.len() + 1,
        texts(r@[0]@) == seq![params@],
        texts(r@[i + 1]@) == seq![params@, zones@[i]@],
{
    assert(texts(zones@)[i] == zones@[i]@);
    assert(texts(r@[0]@) == avm_template(params@, texts(zones@), 0));
    assert(texts(r@[i + 1]@) == avm_template(params@, texts(zones@), i + 1));
}

} // verus!
