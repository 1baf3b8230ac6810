use vstd::prelude::*;

verus! {

/// The timestamp value that marks "no timestamp known".
pub const NOPTS_VALUE: i64 = -9223372036854775807 - 1;

/// The status code with which the demuxer reports the end of the input.
pub const AVERROR_EOF: i32 = -541478725;

/// The time base of the pacing clock: one microsecond.
pub const MICROS_PER_SECOND: i32 = 1000000;

/// The media kind of an input stream, as the demuxer reports it.
#[derive(Clone, Copy, PartialEq, Eq, Structural, Debug)]
pub enum MediaKind {
    Video,
    Audio,
    Subtitle,
    Data,
    Attachment,
    Unknown,
}

/// A rational time base `num / den` (seconds per timestamp tick).
#[derive(Clone, Copy, PartialEq, Eq, Structural, Debug)]
pub struct Rational {
    pub num: i32,
    pub den: i32,
}

/// The timing fields of a compressed packet that the remux loop rewrites.
#[derive(Clone, Copy, PartialEq, Eq, Structural, Debug)]
pub struct Packet {
    pub stream_index: i32,
    pub pts: i64,
    pub dts: i64,
    pub duration: i64,
    pub pos: i64,
}

/// What the remux loop does with one packet that it read.
#[derive(Clone, Copy, PartialEq, Eq, Structural, Debug)]
pub enum PacketAction {
    /// The packet belongs to a stream that is not copied: release it.
    Drop,
    /// Write `packet`; when `pace_until_us` is given, first wait until that
    /// many microseconds have passed since the header was written.
    Write { packet: Packet, pace_until_us: Option<i64> },
}

/// The kinds of stream that are copied to the output.
pub open spec fn is_copied(k: MediaKind) -> bool {
    k is Video || k is Audio || k is Subtitle
}

/// How many of the first `i` input streams are copied.
pub open spec fn copied_before(kinds: Seq<MediaKind>, i: int) -> int
    decreases i,
{
    if i <= 0 {
        0
    } else {
        copied_before(kinds, i - 1) + if is_copied(kinds[i - 1]) {
            1int
        } else {
            0int
        }
    }
}

/// The output index of input stream `i`, or -1 where it is not copied.
pub open spec fn mapped_index(kinds: Seq<MediaKind>, i: int) -> int {
    if is_copied(kinds[i]) {
        copied_before(kinds, i)
    } else {
        -1
    }
}

proof fn lemma_copied_before_bounds(kinds: Seq<MediaKind>, i: int)
    requires
        0 <= i <= kinds.len(),
    ensures
        0 <= copied_before(kinds, i) <= i,
    decreases i,
{
    if i > 0 {
        lemma_copied_before_bounds(kinds, i - 1);
    }
}

/// The stream-index map: each copied input stream gets the next output index,
/// in input order; every other stream maps to -1 and its packets are dropped.
pub fn build_stream_mapping(kinds: &Vec<MediaKind>) -> (r: Vec<i32>)
    requires
        kinds.len() <= i32::MAX,
    ensures
        r.len() == kinds.len(),
        forall|i: int| 0 <= i < r.len() ==> r[i] as int == mapped_index(kinds@, i),
{
    let mut r: Vec<i32> = Vec::new();
    let mut next: i32 = 0;
    let mut i: usize = 0;
    while i < kinds.len()
        invariant
            i <= kinds.len() <= i32::MAX,
            r.len() == i,
            next as int == copied_before(kinds@, i as int),
            forall|j: int| 0 <= j < i ==> r[j] as int == mapped_index(kinds@, j),
        decreases kinds.len() - i,
    {
        proof {
            lemma_copied_before_bounds(kinds@, i as int);
        }
        let k = kinds[i];
        if k == MediaKind::Video || k == MediaKind::Audio || k == MediaKind::Subtitle {
            r.push(next);
            next = next + 1;
        } else {
            r.push(-1);
        }
        i = i + 1;
    }
    r
}

/// A time base pair that can be rescaled between: both factors are usable.
pub open spec fn valid_scale(from: Rational, to: Rational) -> bool {
    from.num * to.den >= 0 && to.num * from.den > 0
}

/// `m` ticks of `from` counted in ticks of `to`, for `m >= 0`, rounded down
/// or, with `nearest`, to the nearest value with halves rounded up.
pub open spec fn scaled_magnitude(m: int, from: Rational, to: Rational, nearest: bool) -> int {
    let b = from.num * to.den;
    let c = to.num * from.den;
    (m * b + if nearest {
        c / 2
    } else {
        0
    }) / c
}

/// A magnitude with its sign put back; a magnitude past `i64::MAX` is an
/// overflow, reported as `NOPTS_VALUE`.
pub open spec fn signed_result(negative: bool, q: int) -> i64 {
    if q > i64::MAX {
        NOPTS_VALUE
    } else if negative {
        (-q) as i64
    } else {
        q as i64
    }
}

/// Rescaling of a timestamp between time bases, rounding toward zero, with
/// the two extreme values passed through unchanged (so "no timestamp" stays
/// "no timestamp").
pub open spec fn rescale_pass_minmax(a: i64, from: Rational, to: Rational) -> i64 {
    if !valid_scale(from, to) {
        NOPTS_VALUE
    } else if a == i64::MIN || a == i64::MAX {
        a
    } else {
        signed_result(a < 0, scaled_magnitude(if a < 0 { -a } else { a as int }, from, to, false))
    }
}

/// Rescaling between time bases to the nearest value, halves away from zero.
pub open spec fn rescale_nearest(a: i64, from: Rational, to: Rational) -> i64 {
    if !valid_scale(from, to) {
        NOPTS_VALUE
    } else {
        let m = if a == i64::MIN {
            i64::MAX as int
        } else if a < 0 {
            -a
        } else {
            a as int
        };
        signed_result(a < 0, scaled_magnitude(m, from, to, true))
    }
}

proof fn lemma_product_bound(x: i32, y: i32)
    ensures
        -0x4000_0000_0000_0000 <= (x as int) * (y as int) <= 0x4000_0000_0000_0000,
{
    assert(-0x8000_0000 <= x <= 0x7fff_ffff);
    assert(-0x8000_0000 <= y <= 0x7fff_ffff);
    assert((x as int) * (y as int) <= 0x4000_0000_0000_0000) by (nonlinear_arith)
        requires
            -0x8000_0000 <= x <= 0x7fff_ffff,
            -0x8000_0000 <= y <= 0x7fff_ffff,
    ;
    assert(-0x4000_0000_0000_0000 <= (x as int) * (y as int)) by (nonlinear_arith)
        requires
            -0x8000_0000 <= x <= 0x7fff_ffff,
            -0x8000_0000 <= y <= 0x7fff_ffff,
    ;
}

/// `m * b + add` divided by `c`, for a magnitude `m` of at most `i64::MAX`.
fn scale_magnitude(m: u128, b: u128, c: u128, add: u128) -> (q: u128)
    requires
        m <= i64::MAX,
        b <= 0x4000_0000_0000_0000,
        0 < c,
        add <= 0x4000_0000_0000_0000,
    ensures
        q as int == (m * b + add) / (c as int),
{
    assert(m * b <= 0x7fff_ffff_ffff_ffff * 0x4000_0000_0000_0000) by (nonlinear_arith)
        requires
            m <= 0x7fff_ffff_ffff_ffff,
            b <= 0x4000_0000_0000_0000,
    ;
    let p = m * b + add;
    p / c
}

/// Exact rescaling of a magnitude between valid time bases.
fn rescale_magnitude(m: u128, from: Rational, to: Rational, nearest: bool) -> (q: u128)
    requires
        m <= i64::MAX,
        valid_scale(from, to),
    ensures
        q as int == scaled_magnitude(m as int, from, to, nearest),
{
    proof {
        lemma_product_bound(from.num, to.den);
        lemma_product_bound(to.num, from.den);
    }
    let b = (from.num as i128 * to.den as i128) as u128;
    let c = (to.num as i128 * from.den as i128) as u128;
    let add: u128 = if nearest {
        c / 2
    } else {
        0
    };
    scale_magnitude(m, b, c, add)
}

fn signed_of(negative: bool, q: u128) -> (r: i64)
    ensures
        r == signed_result(negative, q as int),
{
    if q > i64::MAX as u128 {
        NOPTS_VALUE
    } else if negative {
        -(q as i64)
    } else {
        q as i64
    }
}

fn scale_is_valid(from: Rational, to: Rational) -> (r: bool)
    ensures
        r == valid_scale(from, to),
{
    proof {
        lemma_product_bound(from.num, to.den);
        lemma_product_bound(to.num, from.den);
    }
    from.num as i64 * to.den as i64 >= 0 && to.num as i64 * from.den as i64 > 0
}

/// Rescales a timestamp from one time base to another, rounding toward zero
/// and passing the extreme values through.
pub fn rescale_q_pass_minmax(a: i64, from: Rational, to: Rational) -> (r: i64)
    ensures
        r == rescale_pass_minmax(a, from, to),
{
    if !scale_is_valid(from, to) {
        return NOPTS_VALUE;
    }
    if a == i64::MIN || a == i64::MAX {
        return a;
    }
    let m: u128 = if a < 0 {
        (-a) as u128
    } else {
        a as u128
    };
    let q = rescale_magnitude(m, from, to, false);
    signed_of(a < 0, q)
}

/// Rescales a value (a duration, or a timestamp for pacing) from one time base
/// to another, to the nearest value.
pub fn rescale_q(a: i64, from: Rational, to: Rational) -> (r: i64)
    ensures
        r == rescale_nearest(a, from, to),
{
    if !scale_is_valid(from, to) {
        return NOPTS_VALUE;
    }
    let m: u128 = if a == i64::MIN {
        i64::MAX as u128
    } else if a < 0 {
        (-a) as u128
    } else {
        a as u128
    };
    let q = rescale_magnitude(m, from, to, true);
    signed_of(a < 0, q)
}

/// The pacing clock's time base.
pub open spec fn micros() -> Rational {
    Rational { num: 1, den: MICROS_PER_SECOND }
}

/// `cur + d`, held at the ends of the `i64` range.
pub open spec fn saturating_sum(cur: i64, d: i64) -> i64 {
    if cur + d > i64::MAX {
        i64::MAX
    } else if cur + d < i64::MIN {
        i64::MIN
    } else {
        (cur + d) as i64
    }
}

/// The state of the packet loop of one pipeline, once the output header is
/// written: the stream map, the time bases on both sides, the selected video
/// stream (an input index, or -1 where none was found), and for each input
/// stream the timestamp that the next packet without one receives.
pub struct Remuxer {
    pub stream_mapping: Vec<i32>,
    pub in_time_bases: Vec<Rational>,
    pub out_time_bases: Vec<Rational>,
    pub video_index: i32,
    pub cur_pts: Vec<i64>,
}

impl Remuxer {
    /// The map and the per-stream tables agree in length, and every mapped
    /// entry names an output stream.
    pub open spec fn wf(&self) -> bool {
        &&& self.stream_mapping.len() == self.in_time_bases.len()
        &&& self.cur_pts.len() == self.in_time_bases.len()
        &&& forall|i: int|
            0 <= i < self.stream_mapping.len() ==> #[trigger] self.stream_mapping[i] == -1 || (0
                <= self.stream_mapping[i] < self.out_time_bases.len())
    }

    /// Whether input stream `i` is copied.
    pub open spec fn copies(&self, i: int) -> bool {
        0 <= i < self.stream_mapping.len() && self.stream_mapping[i] >= 0
    }

    /// The action for `pkt` in the current state.
    pub open spec fn action_for(&self, pkt: Packet) -> PacketAction {
        let i = pkt.stream_index as int;
        if !self.copies(i) {
            PacketAction::Drop
        } else {
            let o = self.stream_mapping[i] as int;
            let from = self.in_time_bases[i];
            let to = self.out_time_bases[o];
            let known = pkt.pts != NOPTS_VALUE;
            let pts = if known {
                pkt.pts
            } else {
                self.cur_pts[i]
            };
            let dts = if known {
                pkt.dts
            } else {
                pts
            };
            PacketAction::Write {
                packet: Packet {
                    stream_index: o as i32,
                    pts: rescale_pass_minmax(pts, from, to),
                    dts: rescale_pass_minmax(dts, from, to),
                    duration: rescale_nearest(pkt.duration, from, to),
                    pos: -1i64,
                },
                pace_until_us: if i == self.video_index {
                    Some(rescale_nearest(dts, from, micros()))
                } else {
                    None
                },
            }
        }
    }

    /// The synthesised timestamps after `pkt`: a copied packet without a
    /// timestamp advances its stream's by the packet's own duration.
    pub open spec fn cur_pts_after(&self, pkt: Packet) -> Seq<i64> {
        let i = pkt.stream_index as int;
        if self.copies(i) && pkt.pts == NOPTS_VALUE {
            self.cur_pts@.update(i, saturating_sum(self.cur_pts[i], pkt.duration))
        } else {
            self.cur_pts@
        }
    }

    /// The loop state for a stream map, the two sides' time bases and the
    /// selected video stream; `None` where the tables do not fit together.
    pub fn new(
        stream_mapping: Vec<i32>,
        in_time_bases: Vec<Rational>,
        out_time_bases: Vec<Rational>,
        video_index: i32,
    ) -> (r: Option<Remuxer>)
        ensures
            r is Some <==> (stream_mapping.len() == in_time_bases.len() && forall|i: int|
                0 <= i < stream_mapping.len() ==> #[trigger] stream_mapping[i] == -1 || (0
                    <= stream_mapping[i] < out_time_bases.len())),
            r matches Some(m) ==> {
                &&& m.wf()
                &&& m.stream_mapping@ == stream_mapping@
                &&& m.in_time_bases@ == in_time_bases@
                &&& m.out_time_bases@ == out_time_bases@
                &&& m.video_index == video_index
                &&& forall|i: int| 0 <= i < m.cur_pts.len() ==> m.cur_pts[i] == 0
            },
    {
        if stream_mapping.len() != in_time_bases.len() {
            return None;
        }
        let mut i: usize = 0;
        let mut cur_pts: Vec<i64> = Vec::new();
        while i < stream_mapping.len()
            invariant
                i <= stream_mapping.len(),
                cur_pts.len() == i,
                forall|j: int| 0 <= j < i ==> cur_pts[j] == 0,
                forall|j: int|
                    0 <= j < i ==> #[trigger] stream_mapping[j] == -1 || (0 <= stream_mapping[j]
                        < out_time_bases.len()),
            decreases stream_mapping.len() - i,
        {
            let o = stream_mapping[i];
            if !(o == -1 || (0 <= o && (o as usize) < out_time_bases.len())) {
                return None;
            }
            cur_pts.push(0);
            i = i + 1;
        }
        Some(Remuxer { stream_mapping, in_time_bases, out_time_bases, video_index, cur_pts })
    }

    /// Decides what to do with a packet that was read: drop it when its stream
    /// is not copied; otherwise give it a timestamp where it has none, move it
    /// to its output stream and rescale its timing to that stream's time base,
    /// and name the pacing deadline when it belongs to the selected video stream.
    pub fn plan_packet(&mut self, pkt: Packet) -> (r: PacketAction)
        requires
            old(self).wf(),
        ensures
            final(self).wf(),
            r == old(self).action_for(pkt),
            final(self).cur_pts@ == old(self).cur_pts_after(pkt),
            final(self).stream_mapping@ == old(self).stream_mapping@,
            final(self).in_time_bases@ == old(self).in_time_bases@,
            final(self).out_time_bases@ == old(self).out_time_bases@,
            final(self).video_index == old(self).video_index,
    {
        let si = pkt.stream_index;
        if si < 0 || si as usize >= self.stream_mapping.len() || self.stream_mapping[si as usize]
            < 0 {
            return PacketAction::Drop;
        }
        let i = si as usize;
        let o = self.stream_mapping[i];
        assert(self.stream_mapping[i as int] == -1 || (0 <= self.stream_mapping[i as int]
            < self.out_time_bases.len()));
        let from = self.in_time_bases[i];
        let to = self.out_time_bases[o as usize];
        let known = pkt.pts != NOPTS_VALUE;
        let pts = if known {
            pkt.pts
        } else {
            self.cur_pts[i]
        };
        let dts = if known {
            pkt.dts
        } else {
            pts
        };
        let pace_until_us = if si == self.video_index {
            Some(rescale_q(dts, from, Rational { num: 1, den: MICROS_PER_SECOND }))
        } else {
            None
        };
        let packet = Packet {
            stream_index: o,
            pts: rescale_q_pass_minmax(pts, from, to),
            dts: rescale_q_pass_minmax(dts, from, to),
            duration: rescale_q(pkt.duration, from, to),
            pos: -1,
        };
        if !known {
            let cur = self.cur_pts[i];
            let next = match cur.checked_add(pkt.duration) {
                Some(v) => v,
                None => if pkt.duration > 0 {
                    i64::MAX
                } else {
                    i64::MIN
                },
            };
            self.cur_pts.set(i, next);
        }
        PacketAction::Write { packet, pace_until_us }
    }
}

/// How long to sleep before writing a paced packet: the time by which its
/// deadline lies ahead of the time elapsed since the header was written.
pub fn pacing_delay_us(pace_until_us: i64, elapsed_us: i64) -> (r: u64)
    ensures
        r as int == if pace_until_us > elapsed_us {
            pace_until_us - elapsed_us
        } else {
            0
        },
        elapsed_us + r >= pace_until_us,
{
    if pace_until_us > elapsed_us {
        (pace_until_us as i128 - elapsed_us as i128) as u64
    } else {
        0
    }
}

/// The demuxer options set before the input is opened, as name/value pairs.
pub fn input_options() -> (r: Vec<(&'static str, &'static str)>)
    ensures
        r@.len() == 5,
        r[0].0@ == "buffer_size"@ && r[0].1@ == "1024000"@,
        r[1].0@ == "rtbufsize"@ && r[1].1@ == "10000"@,
        r[2].0@ == "stimeout"@ && r[2].1@ == "3000000"@,
        r[3].0@ == "max_delay"@ && r[3].1@ == "5000000"@,
        r[4].0@ == "rtsp_transport"@ && r[4].1@ == "tcp"@,
{
    vec![
        ("buffer_size", "1024000"),
        ("rtbufsize", "10000"),
        ("stimeout", "3000000"),
        ("max_delay", "5000000"),
        ("rtsp_transport", "tcp"),
    ]
}

/// The outcome of one pipeline run from the last status code of the native
/// calls: a failure unless it is non-negative (a clean stop) or the end of
/// the input; `message` is the failure's text.
pub fn run_outcome(code: i32, message: String) -> (r: Result<(), String>)
    ensures
        code < 0 && code != AVERROR_EOF ==> r == Err::<(), String>(message),
        !(code < 0 && code != AVERROR_EOF) ==> r is Ok,
{
    if code < 0 && code != AVERROR_EOF {
        Err(message)
    } else {
        Ok(())
    }
}

proof fn lemma_scaled_magnitude_monotone(m1: int, m2: int, from: Rational, to: Rational)
    requires
        0 <= m1 <= m2,
        valid_scale(from, to),
    ensures
        scaled_magnitude(m1, from, to, false) <= scaled_magnitude(m2, from, to, false),
{
    let b = from.num * to.den;
    let c = to.num * from.den;
    assert(m1 * b <= m2 * b) by (nonlinear_arith)
        requires
            0 <= m1 <= m2,
            b >= 0,
    ;
    vstd::arithmetic::div_mod::lemma_div_is_ordered(m1 * b + 0, m2 * b + 0, c);
}

/// Rescaling keeps the order of known timestamps: on one stream, for two
/// known timestamps `a <= b` whose rescaled values do not overflow, the
/// rescaled values are in the same order, so a non-decreasing pts sequence
/// stays non-decreasing on the output.
pub proof fn lemma_rescale_monotone(a: i64, b: i64, from: Rational, to: Rational)
    requires
        a != NOPTS_VALUE,
        b != NOPTS_VALUE,
        a <= b,
        valid_scale(from, to),
        rescale_pass_minmax(b, from, to) != NOPTS_VALUE,
    ensures
        rescale_pass_minmax(a, from, to) <= rescale_pass_minmax(b, from, to),
{
    let c = to.num * from.den;
    if b == i64::MAX {
    } else if a >= 0 {
        lemma_scaled_magnitude_monotone(a as int, b as int, from, to);
    } else if b < 0 {
        lemma_scaled_magnitude_monotone(-b, -a, from, to);
    } else {
        assert(scaled_magnitude(-a, from, to, false) >= 0) by {
            let bb = from.num * to.den;
            assert((-a) * bb >= 0) by (nonlinear_arith)
                requires
                    -a >= 0,
                    bb >= 0,
            ;
            vstd::arithmetic::div_mod::lemma_div_pos_is_pos((-a) * bb + 0, c);
        }
        assert(scaled_magnitude(b as int, from, to, false) >= 0) by {
            let bb = from.num * to.den;
            assert(b * bb >= 0) by (nonlinear_arith)
                requires
                    b >= 0,
                    bb >= 0,
            ;
            vstd::arithmetic::div_mod::lemma_div_pos_is_pos(b * bb + 0, c);
        }
    }
}

} // verus!
