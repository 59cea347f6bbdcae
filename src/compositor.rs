//! Mixing: which source frames make up an output frame, and the buffers of
//! mixed frames that the producer hands out.
use vstd::prelude::*;
use crate::composition::CompositionSrc;
use crate::segment_store::SegmentStore;
use crate::source::memory::MemorySrc;
use crate::source::{FrameDecoder, Sample, Source};

verus! {

/// How an output frame reads one source.
#[derive(Debug, PartialEq, Eq, Structural)]
pub enum Tap {
    /// The source has not started yet, or the frame lies beyond any index.
    Silent,
    /// Same rate: read this source frame.
    Direct(u64),
    /// Other rate: blend frames `a` and `a + 1`, weighting `a + 1` by `num / den`.
    Blend { a: u64, num: u64, den: u64 },
}

/// Output frame `frame` at `out_rate`, counted in frames at `src_rate`
/// (rounded down).
pub open spec fn scaled_frame(frame: int, out_rate: int, src_rate: int) -> int {
    (frame * src_rate) / out_rate
}

/// The tap of output frame `frame` at `out_rate` on a source at `src_rate`
/// whose frame `offset` plays at output frame 0.
pub open spec fn tap_of(frame: u64, out_rate: u32, src_rate: u32, offset: i64) -> Tap {
    let pos = scaled_frame(frame as int, out_rate as int, src_rate as int) - offset;
    if pos < 0 {
        Tap::Silent
    } else if src_rate == out_rate {
        if pos <= u64::MAX {
            Tap::Direct(pos as u64)
        } else {
            Tap::Silent
        }
    } else if pos < u64::MAX {
        Tap::Blend {
            a: pos as u64,
            num: ((frame * src_rate) % (out_rate as int)) as u64,
            den: out_rate as u64,
        }
    } else {
        Tap::Silent
    }
}

/// At the same rate, output frame `frame` reads source frame `frame - offset`.
pub proof fn lemma_same_rate_tap(frame: u64, rate: u32, offset: i64)
    requires
        rate > 0,
    ensures
        frame - offset < 0 ==> tap_of(frame, rate, rate, offset) == Tap::Silent,
        0 <= frame - offset <= u64::MAX ==> tap_of(frame, rate, rate, offset) == Tap::Direct(
            (frame - offset) as u64,
        ),
{
    assert((frame * rate) / (rate as int) == frame) by (nonlinear_arith)
        requires
            rate > 0,
    ;
}

pub fn source_tap(frame: u64, out_rate: u32, src_rate: u32, offset: i64) -> (r: Tap)
    requires
        out_rate > 0,
    ensures
        r == tap_of(frame, out_rate, src_rate, offset),
{
    proof {
        assert(frame * src_rate <= u64::MAX * u32::MAX) by (nonlinear_arith)
            requires
                frame <= u64::MAX,
                src_rate <= u32::MAX,
        ;
        assert((frame * src_rate) / (out_rate as int) <= frame * src_rate) by (nonlinear_arith)
            requires
                out_rate > 0,
                frame * src_rate >= 0,
        ;
    }
    let prod: u128 = frame as u128 * src_rate as u128;
    let q: u128 = prod / out_rate as u128;
    let pos: i128 = q as i128 - offset as i128;
    if pos < 0 {
        Tap::Silent
    } else if src_rate == out_rate {
        if pos <= u64::MAX as i128 {
            Tap::Direct(pos as u64)
        } else {
            Tap::Silent
        }
    } else if pos < u64::MAX as i128 {
        Tap::Blend { a: pos as u64, num: (prod % out_rate as u128) as u64, den: out_rate as u64 }
    } else {
        Tap::Silent
    }
}

/// Channel-wise `a + (b - a) * num / den` over the channels both frames have.
pub open spec fn blend_spec<S: Sample>(a: Seq<S>, b: Seq<S>, num: u64, den: u64) -> Seq<S> {
    Seq::new(
        if a.len() < b.len() {
            a.len()
        } else {
            b.len()
        },
        |i: int| S::lerp_spec(a[i], b[i], num, den),
    )
}

pub fn blend_frames<S: Sample>(a: &Vec<S>, b: &Vec<S>, num: u64, den: u64) -> (r: Vec<S>)
    ensures
        r@ == blend_spec(a@, b@, num, den),
{
    let len = if a.len() < b.len() {
        a.len()
    } else {
        b.len()
    };
    let mut res: Vec<S> = Vec::new();
    let mut i: usize = 0;
    while i < len
        invariant
            i <= len,
            len == blend_spec(a@, b@, num, den).len(),
            len <= a@.len(),
            len <= b@.len(),
            res@ == blend_spec(a@, b@, num, den).subrange(0, i as int),
        decreases len - i,
    {
        res.push(S::lerp(a[i], b[i], num, den));
        i += 1;
        proof {
            assert(res@ =~= blend_spec(a@, b@, num, den).subrange(0, i as int));
        }
    }
    proof {
        assert(res@ =~= blend_spec(a@, b@, num, den));
    }
    res
}

/// An optional frame, seen as its samples.
pub open spec fn opt_view<S>(o: Option<Vec<S>>) -> Option<Seq<S>> {
    match o {
        Some(v) => Some(v@),
        None => None,
    }
}

/// What an in-memory source yields for a tap.
pub open spec fn memory_tap_read<S: Sample>(m: MemorySrc<S>, t: Tap) -> Option<Seq<S>> {
    match t {
        Tap::Silent => None,
        Tap::Direct(k) => if k < m.frame_total() {
            Some(m.frame_at(k as int))
        } else {
            None
        },
        Tap::Blend { a, num, den } => if a + 1 < m.frame_total() {
            Some(blend_spec(m.frame_at(a as int), m.frame_at(a + 1), num, den))
        } else {
            None
        },
    }
}

/// What a read of `src` through tap `t` may give: nothing for a silent tap,
/// exactly the frame (or blend) for an in-memory source, and a blend of two
/// frames wherever the tap blends.
pub open spec fn read_allowed<S: Sample, D: FrameDecoder<S>>(
    src: Source<S, D>,
    t: Tap,
    read: Option<Seq<S>>,
) -> bool {
    &&& (t is Silent ==> read is None)
    &&& (src matches Source::Memory(m) ==> read == memory_tap_read(m, t))
    &&& (t matches Tap::Blend { num, den, .. } ==> (read matches Some(v) ==> exists|x: Seq<S>, y: Seq<S>|
        v == blend_spec(x, y, num, den)))
}

/// Output frame `frame_idx` at `into_sample_rate`, read from `src` by linear
/// interpolation between the two nearest source frames.
pub fn approximate_frame_linear<S: Sample, D: FrameDecoder<S>>(
    src: &mut Source<S, D>,
    store: &mut SegmentStore<S>,
    into_sample_rate: u32,
    rate: u64,
    offset: i64,
) -> (r: Option<Vec<S>>)
    requires
        into_sample_rate > 0,
        old(src).wf(),
        old(store).wf(),
        old(src).in_store(old(store).id(), old(store).pile_count()),
    ensures
        final(src).wf(),
        final(src).in_store(old(store).id(), old(store).pile_count()),
        final(src).rate() == old(src).rate(),
        *old(src) is Memory ==> *final(src) == *old(src),
        (*final(src) is Memory <==> *old(src) is Memory),
        final(store).wf(),
        final(store).keeps_layout_of(*old(store)),
        read_allowed(*old(src), tap_of(rate, into_sample_rate, old(src).rate(), offset), opt_view(r)),
{
    let src_rate = src.sample_rate();
    match source_tap(rate, into_sample_rate, src_rate, offset) {
        Tap::Silent => None,
        Tap::Direct(k) => src.get_by_frame_i(store, k),
        Tap::Blend { a, num, den } => {
            let fa = src.get_by_frame_i(store, a);
            let fb = src.get_by_frame_i(store, a + 1);
            match (fa, fb) {
                (Some(va), Some(vb)) => {
                    let v = blend_frames(&va, &vb, num, den);
                    proof {
                        assert(v@ == blend_spec(va@, vb@, num, den));
                    }
                    Some(v)
                },
                _ => None,
            }
        },
    }
}

/// The tap of a composition source at output frame `frame` and rate `rate`.
pub open spec fn src_tap<S: Sample, D: FrameDecoder<S>>(s: CompositionSrc<S, D>, frame: u64, rate: u32) -> Tap {
    tap_of(frame, rate, s.src.rate(), s.composition_data.frame_offset)
}

/// One source's frame for output frame `frame_idx` at `target_sample_rate`,
/// before its gain.
pub fn fetch_frame<S: Sample, D: FrameDecoder<S>>(
    cmp_src: &mut CompositionSrc<S, D>,
    store: &mut SegmentStore<S>,
    target_sample_rate: u32,
    frame_idx: u64,
) -> (r: Option<Vec<S>>)
    requires
        target_sample_rate > 0,
        old(cmp_src).src.wf(),
        old(store).wf(),
        old(cmp_src).src.in_store(old(store).id(), old(store).pile_count()),
    ensures
        final(cmp_src).src.wf(),
        final(cmp_src).src.in_store(old(store).id(), old(store).pile_count()),
        final(cmp_src).src.rate() == old(cmp_src).src.rate(),
        final(cmp_src).composition_data == old(cmp_src).composition_data,
        old(cmp_src).src is Memory ==> *final(cmp_src) == *old(cmp_src),
        (final(cmp_src).src is Memory <==> old(cmp_src).src is Memory),
        final(store).wf(),
        final(store).keeps_layout_of(*old(store)),
        read_allowed(old(cmp_src).src, src_tap(*old(cmp_src), frame_idx, target_sample_rate), opt_view(r)),
{
    approximate_frame_linear(
        &mut cmp_src.src,
        store,
        target_sample_rate,
        frame_idx,
        cmp_src.composition_data.frame_offset,
    )
}

/// The sources of a composition, all readable with `store`.
pub open spec fn sources_ready<S: Sample, D: FrameDecoder<S>>(
    sources: Seq<CompositionSrc<S, D>>,
    store: SegmentStore<S>,
) -> bool {
    forall|i: int|
        0 <= i < sources.len() ==> (#[trigger] sources[i]).src.wf() && sources[i].src.in_store(
            store.id(),
            store.pile_count(),
        )
}

/// Channel `c` of the mix of the first `k` reads: each present, non-empty
/// frame contributes its sample `c % len` times its gain, in order.
pub open spec fn channel_sum<S: Sample>(reads: Seq<Option<Seq<S>>>, gains: Seq<S>, c: int, k: int) -> S
    decreases k,
{
    if k <= 0 {
        S::silence_spec()
    } else {
        let prev = channel_sum(reads, gains, c, k - 1);
        match reads[k - 1] {
            Some(v) => if v.len() > 0 {
                S::mul_add_spec(prev, v[c % (v.len() as int)], gains[k - 1])
            } else {
                prev
            },
            None => prev,
        }
    }
}

/// The mixed frame of `channels` channels.
pub open spec fn mix_spec<S: Sample>(reads: Seq<Option<Seq<S>>>, gains: Seq<S>, channels: nat) -> Seq<S> {
    Seq::new(channels, |c: int| channel_sum(reads, gains, c, reads.len() as int))
}

/// Mixes frames already read: channel `c` sums, over the present non-empty
/// frames, the frame's sample `c % len` times its gain.
pub fn mix_frames<S: Sample>(reads: &Vec<Option<Vec<S>>>, gains: &Vec<S>, channels: u8) -> (r: Vec<S>)
    requires
        reads@.len() == gains@.len(),
    ensures
        r@ == mix_spec(reads@.map_values(|o: Option<Vec<S>>| opt_view(o)), gains@, channels as nat),
{
    let ghost rv = reads@.map_values(|o: Option<Vec<S>>| opt_view(o));
    let ch = channels as usize;
    let n = reads.len();
    let mut res: Vec<S> = Vec::new();
    let mut c: usize = 0;
    while c < ch
        invariant
            c <= ch,
            ch == channels,
            n == reads@.len(),
            n == gains@.len(),
            rv == reads@.map_values(|o: Option<Vec<S>>| opt_view(o)),
            rv.len() == n,
            res@ == mix_spec(rv, gains@, channels as nat).subrange(0, c as int),
        decreases ch - c,
    {
        let mut acc = S::silence();
        let mut k: usize = 0;
        while k < n
            invariant
                k <= n,
                n == reads@.len(),
                n == gains@.len(),
                rv == reads@.map_values(|o: Option<Vec<S>>| opt_view(o)),
                rv.len() == n,
                acc == channel_sum(rv, gains@, c as int, k as int),
            decreases n - k,
        {
            proof {
                assert(rv[k as int] == opt_view(reads@[k as int]));
            }
            match &reads[k] {
                Some(v) => {
                    if v.len() > 0 {
                        acc = S::mul_add(acc, v[c % v.len()], gains[k]);
                    }
                },
                None => {},
            }
            k += 1;
        }
        res.push(acc);
        c += 1;
        proof {
            assert(res@ =~= mix_spec(rv, gains@, channels as nat).subrange(0, c as int));
        }
    }
    proof {
        assert(res@ =~= mix_spec(rv, gains@, channels as nat));
    }
    res
}

/// The gains of the sources, in order.
pub open spec fn gains_of<S: Sample, D: FrameDecoder<S>>(srcs: Seq<CompositionSrc<S, D>>) -> Seq<S> {
    srcs.map_values(|s: CompositionSrc<S, D>| s.composition_data.amplification)
}

/// `m` is a mix of `srcs` at output frame `frame`: the mix of some reads
/// that each source's tap allows.
pub open spec fn is_mix<S: Sample, D: FrameDecoder<S>>(
    srcs: Seq<CompositionSrc<S, D>>,
    rate: u32,
    channels: nat,
    frame: u64,
    m: Seq<S>,
) -> bool {
    exists|reads: Seq<Option<Seq<S>>>|
        #![trigger mix_spec(reads, gains_of(srcs), channels)]
        reads.len() == srcs.len() && (forall|i: int|
            0 <= i < srcs.len() ==> read_allowed(
                #[trigger] srcs[i].src,
                src_tap(srcs[i], frame, rate),
                reads[i],
            )) && m == mix_spec(
            reads,
            gains_of(srcs),
            channels,
        )
}

/// The sources `b` read as `a` do: same placement, gain and rate, the same
/// in-memory sources, and in-memory exactly where `a` is.
pub open spec fn reads_like<S: Sample, D: FrameDecoder<S>>(
    a: Seq<CompositionSrc<S, D>>,
    b: Seq<CompositionSrc<S, D>>,
) -> bool {
    &&& a.len() == b.len()
    &&& forall|i: int|
        0 <= i < a.len() ==> (#[trigger] b[i]).composition_data == a[i].composition_data
            && b[i].src.rate() == a[i].src.rate() && (a[i].src is Memory <==> b[i].src is Memory)
            && (a[i].src is Memory ==> b[i] == a[i])
}

/// The mix of every source at output frame `frame_idx`: each source's frame,
/// its channels repeated to fill `channels`, times the source's gain, summed.
pub fn compute_eventual_frame<S: Sample, D: FrameDecoder<S>>(
    sources: &mut Vec<CompositionSrc<S, D>>,
    store: &mut SegmentStore<S>,
    channels: u8,
    sample_rate: u32,
    frame_idx: u64,
) -> (r: Vec<S>)
    requires
        sample_rate > 0,
        old(store).wf(),
        sources_ready(old(sources)@, *old(store)),
    ensures
        r@.len() == channels,
        is_mix(old(sources)@, sample_rate, channels as nat, frame_idx, r@),
        final(store).wf(),
        final(store).keeps_layout_of(*old(store)),
        sources_ready(final(sources)@, *final(store)),
        reads_like(old(sources)@, final(sources)@),
{
    let ghost s0 = *store;
    let ghost o = sources@;
    let len = sources.len();
    let mut reads: Vec<Option<Vec<S>>> = Vec::new();
    let mut gains: Vec<S> = Vec::new();
    let mut i: usize = 0;
    while i < len
        invariant
            i <= len,
            sample_rate > 0,
            len == sources@.len(),
            len == o.len(),
            reads@.len() == i,
            gains@.len() == i,
            store.wf(),
            store.keeps_layout_of(s0),
            sources_ready(sources@, *store),
            reads_like(o, sources@),
            forall|j: int| 0 <= j < i ==> #[trigger] gains@[j] == o[j].composition_data.amplification,
            forall|j: int|
                0 <= j < i ==> read_allowed(
                    o[j].src,
                    src_tap(o[j], frame_idx, sample_rate),
                    opt_view(#[trigger] reads@[j]),
                ),
        decreases len - i,
    {
        let ghost before = sources@;
        proof {
            assert(before[i as int].src.wf());
        }
        let val = fetch_frame(&mut sources[i], store, sample_rate, frame_idx);
        proof {
            assert forall|j: int| 0 <= j < len implies (#[trigger] sources@[j]).src.wf()
                && sources@[j].src.in_store(store.id(), store.pile_count()) by {
                if j != i {
                    assert(sources@[j] == before[j]);
                }
            }
            assert forall|j: int| 0 <= j < len implies (#[trigger] sources@[j]).composition_data
                == o[j].composition_data && sources@[j].src.rate() == o[j].src.rate() && (
            o[j].src is Memory <==> sources@[j].src is Memory) && (o[j].src is Memory
                ==> sources@[j] == o[j]) by {
                if j != i {
                    assert(sources@[j] == before[j]);
                }
            }
            assert(before[i as int].src == o[i as int].src || !(o[i as int].src is Memory));
        }
        gains.push(sources[i].composition_data.amplification);
        reads.push(val);
        i += 1;
    }
    let r = mix_frames(&reads, &gains, channels);
    proof {
        let rv = reads@.map_values(|o: Option<Vec<S>>| opt_view(o));
        let g = gains_of(o);
        assert(gains@ =~= g);
        assert forall|j: int| 0 <= j < o.len() implies read_allowed(
            #[trigger] o[j].src,
            src_tap(o[j], frame_idx, sample_rate),
            rv[j],
        ) by {
            assert(rv[j] == opt_view(reads@[j]));
        }
        assert(is_mix(o, sample_rate, channels as nat, frame_idx, r@));
    }
    r
}

/// A buffer of `buf_size` interleaved samples: output frames
/// `offset, offset + 1, ...`, each the mix of the sources scaled by
/// `amplification`. Frames whose index would pass `u64::MAX` stay silent.
pub fn compute_frames<S: Sample, D: FrameDecoder<S>>(
    sources: &mut Vec<CompositionSrc<S, D>>,
    store: &mut SegmentStore<S>,
    channels: u8,
    sample_rate: u32,
    amplification: S,
    offset: u64,
    buf_size: usize,
) -> (r: Vec<S>)
    requires
        channels > 0,
        sample_rate > 0,
        buf_size as nat % (channels as nat) == 0,
        old(store).wf(),
        sources_ready(old(sources)@, *old(store)),
    ensures
        r@.len() == buf_size,
        forall|i: int|
            0 <= i < buf_size as int / (channels as int) ==> #[trigger] frame_is_mixed(
                old(sources)@,
                sample_rate,
                channels,
                amplification,
                offset,
                r@,
                i,
            ),
        final(store).wf(),
        final(store).keeps_layout_of(*old(store)),
        sources_ready(final(sources)@, *final(store)),
        reads_like(old(sources)@, final(sources)@),
{
    let ch = channels as usize;
    let n = buf_size / ch;
    let ghost s0 = *store;
    let ghost o = sources@;
    let mut res: Vec<S> = Vec::new();
    let mut i: usize = 0;
    while i < n
        invariant
            i <= n,
            sample_rate > 0,
            ch == channels,
            ch > 0,
            n == buf_size as nat / (ch as nat),
            buf_size as nat % (ch as nat) == 0,
            res@.len() == i * ch,
            store.wf(),
            store.keeps_layout_of(s0),
            sources_ready(sources@, *store),
            reads_like(o, sources@),
            forall|k: int| 0 <= k < i ==> #[trigger] frame_is_mixed(o, sample_rate, channels, amplification, offset, res@, k),
        decreases n - i,
    {
        let ghost before = res@;
        let ghost cur = sources@;
        proof {
            assert(i * ch + ch <= buf_size) by (nonlinear_arith)
                requires
                    i < n,
                    n == buf_size as int / (ch as int),
                    buf_size as int % (ch as int) == 0,
                    ch > 0,
            ;
        }
        if offset as u128 + i as u128 <= u64::MAX as u128 {
            let frame = compute_eventual_frame(sources, store, channels, sample_rate, offset + i as u64);
            proof {
                lemma_mix_transfers(cur, o, sample_rate, channels as nat, (offset + i) as u64, frame@);
            }
            let mut c: usize = 0;
            while c < ch
                invariant
                    c <= ch,
                    frame@.len() == ch,
                    res@.len() == i * ch + c,
                    res@.subrange(0, i * ch) == before,
                    forall|d: int| 0 <= d < c ==> res@[i * ch + d] == S::scale_spec(#[trigger] frame@[d], amplification),
                decreases ch - c,
            {
                res.push(S::scale(frame[c], amplification));
                proof {
                    assert(res@.subrange(0, i * ch) =~= before);
                }
                c += 1;
            }
            proof {
                let f = res@.subrange(i * ch, i * ch + ch);
                assert forall|d: int| 0 <= d < ch implies #[trigger] f[d] == S::scale_spec(frame@[d], amplification) by {
                    assert(f[d] == res@[i * ch + d]);
                }
                assert(frame_is_mixed(o, sample_rate, channels, amplification, offset, res@, i as int));
            }
        } else {
            let mut c: usize = 0;
            while c < ch
                invariant
                    c <= ch,
                    res@.len() == i * ch + c,
                    res@.subrange(0, i * ch) == before,
                    forall|d: int| 0 <= d < c ==> #[trigger] res@[i * ch + d] == S::silence_spec(),
                decreases ch - c,
            {
                res.push(S::silence());
                proof {
                    assert(res@.subrange(0, i * ch) =~= before);
                }
                c += 1;
            }
        }
        proof {
            assert forall|k: int| 0 <= k < i + 1 implies #[trigger] frame_is_mixed(o, sample_rate, channels, amplification, offset, res@, k) by {
                if k < i {
                    assert(frame_is_mixed(o, sample_rate, channels, amplification, offset, before, k));
                    assert(k * ch + ch <= i * ch) by (nonlinear_arith)
                        requires
                            k < i,
                            0 <= k,
                            ch > 0,
                    ;
                    assert(k * ch >= 0) by (nonlinear_arith)
                        requires
                            0 <= k,
                            ch > 0,
                    ;
                    assert(res@.subrange(k * ch, k * ch + ch) =~= before.subrange(k * ch, k * ch + ch));
                } else {
                    let f = res@.subrange(i * ch, i * ch + ch);
                    assert forall|d: int| 0 <= d < ch implies f[d] == res@[i * ch + d] by {}
                }
            }
            assert(res@.len() == (i + 1) * ch) by (nonlinear_arith)
                requires
                    res@.len() == i * ch + ch,
            ;
        }
        i += 1;
    }
    proof {
        assert(n * ch == buf_size) by (nonlinear_arith)
            requires
                n == buf_size as int / (ch as int),
                buf_size as int % (ch as int) == 0,
                ch > 0,
        ;
    }
    res
}

/// Frame `i` of buffer `buf`, which starts at output frame `offset`, is the
/// scaled mix of that frame, or silence past `u64::MAX`.
pub open spec fn frame_is_mixed<S: Sample, D: FrameDecoder<S>>(
    srcs: Seq<CompositionSrc<S, D>>,
    rate: u32,
    channels: u8,
    amplification: S,
    offset: u64,
    buf: Seq<S>,
    i: int,
) -> bool {
    let f = buf.subrange(i * channels, i * channels + channels);
    if offset + i <= u64::MAX {
        exists|m: Seq<S>|
            #[trigger] is_mix(srcs, rate, channels as nat, (offset + i) as u64, m) && m.len() == channels
                && forall|c: int| 0 <= c < channels ==> #[trigger] f[c] == S::scale_spec(m[c], amplification)
    } else {
        forall|c: int| 0 <= c < channels ==> #[trigger] f[c] == S::silence_spec()
    }
}

/// A mix of sources that read like `b` is a mix of `b`.
proof fn lemma_mix_transfers<S: Sample, D: FrameDecoder<S>>(
    a: Seq<CompositionSrc<S, D>>,
    b: Seq<CompositionSrc<S, D>>,
    rate: u32,
    channels: nat,
    frame: u64,
    m: Seq<S>,
)
    requires
        is_mix(a, rate, channels, frame, m),
        reads_like(b, a),
    ensures
        is_mix(b, rate, channels, frame, m),
{
    let ga = gains_of(a);
    let gb = gains_of(b);
    assert(ga =~= gb);
    let reads = choose|reads: Seq<Option<Seq<S>>>|
        #![trigger mix_spec(reads, gains_of(a), channels)]
        reads.len() == a.len() && (forall|i: int|
            0 <= i < a.len() ==> read_allowed(#[trigger] a[i].src, src_tap(a[i], frame, rate), reads[i]))
            && m == mix_spec(reads, ga, channels);
    assert forall|i: int| 0 <= i < b.len() implies read_allowed(#[trigger] b[i].src, src_tap(b[i], frame, rate), reads[i]) by {
        assert(read_allowed(a[i].src, src_tap(a[i], frame, rate), reads[i]));
    }
    assert(m == mix_spec(reads, gb, channels));
}

} // verus!
