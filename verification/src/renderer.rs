//! The render path of one engine tick: each surface's effect draws a frame,
//! the frame is split into channels, blurred, mirrored or flipped, laid
//! over the background colour, scattered into per-device buffers, and the
//! buffers are packetised for the wire.

use vstd::prelude::*;

verus! {

use crate::audio::AudioAnalysisData;
use crate::effects::{rgb_channel, spec_base_of, spec_effect_step, BaseEffectConfig};
use crate::colors::{parse_single_color, spec_parse_single_color, Rgb};
use crate::ddp::{is_packetization, packetize, DdpDatagram};
use crate::engine::{device_key, spec_find_key, ActiveVirtual, Engine};
use crate::types::{Device, MatrixCell, Virtual, MAX_PIXELS};

/// A channel reversed end to end.
pub open spec fn spec_rev(s: Seq<u8>) -> Seq<u8> {
    Seq::new(s.len(), |i: int| s[s.len() - 1 - i])
}

/// A channel mirrored outside-in: the first half is kept and copied,
/// reversed, over the second half; an odd middle cell stays.
pub open spec fn spec_mirror(s: Seq<u8>) -> Seq<u8> {
    let half = s.len() as int / 2;
    Seq::new(s.len(), |i: int| if i >= s.len() - half {
        s[s.len() - 1 - i]
    } else {
        s[i]
    })
}

/// A channel mirrored centre-out: the reversed first half comes first, the
/// first half itself fills the tail; an odd middle cell stays.
pub open spec fn spec_mirror_flip(s: Seq<u8>) -> Seq<u8> {
    let half = s.len() as int / 2;
    Seq::new(s.len(), |i: int| if i < half {
        s[half - 1 - i]
    } else if i >= s.len() - half {
        s[i - (s.len() - half)]
    } else {
        s[i]
    })
}

/// The mirror and flip composition a post-processing block commands.
pub open spec fn spec_postprocess(s: Seq<u8>, mirror: bool, flip: bool) -> Seq<u8> {
    if mirror && flip {
        spec_mirror_flip(s)
    } else if mirror {
        spec_mirror(s)
    } else if flip {
        spec_rev(s)
    } else {
        s
    }
}

/// Applying the same mirror and flip combination twice returns the original
/// channel.  A mirror overwrites half the channel, so for the two mirrored
/// combinations this holds of the symmetric channels, which are exactly the
/// ones a mirror can produce.
pub proof fn lemma_postprocess_twice(s: Seq<u8>, mirror: bool, flip: bool)
    requires
        mirror ==> (forall|i: int| 0 <= i < s.len() ==> #[trigger] s[i] == s[s.len() - 1 - i]),
    ensures
        spec_postprocess(spec_postprocess(s, mirror, flip), mirror, flip) == s,
{
    let t = spec_postprocess(s, mirror, flip);
    if mirror && flip {
        assert forall|i: int| 0 <= i < s.len() implies spec_mirror_flip(t)[i] == s[i] by {
            let half = s.len() as int / 2;
            if i < half {
                assert(t[half - 1 - i] == s[i]);
            } else if i >= s.len() - half {
                assert(t[i - (s.len() - half)] == s[half - 1 - (i - (s.len() - half))]);
                assert(s[half - 1 - (i - (s.len() - half))] == s[s.len() - 1 - (half - 1 - (i - (
                s.len() - half)))]);
            }
        }
        assert(spec_mirror_flip(t) =~= s);
    } else if mirror {
        assert forall|i: int| 0 <= i < s.len() implies spec_mirror(t)[i] == s[i] by {
            let half = s.len() as int / 2;
            if i >= s.len() - half {
                assert(t[s.len() - 1 - i] == s[s.len() - 1 - i]);
            }
        }
        assert(spec_mirror(t) =~= s);
    } else if flip {
        assert(spec_rev(spec_rev(s)) =~= s);
    }
}

/// Reverses a channel in place.
pub fn apply_flip(v: &mut Vec<u8>)
    ensures
        final(v)@ == spec_rev(old(v)@),
{
    let n = v.len();
    let mut i: usize = 0;
    while i < n / 2
        invariant
            n == v@.len(),
            i <= n / 2,
            n / 2 <= n,
            forall|k: int|
                0 <= k < n ==> (#[trigger] v@[k]) == (if k < i || k >= n - i {
                    old(v)@[n - 1 - k]
                } else {
                    old(v)@[k]
                }),
        decreases n / 2 - i,
    {
        let a = v[i];
        let b = v[n - 1 - i];
        v.set(i, b);
        v.set(n - 1 - i, a);
        i += 1;
    }
    proof {
        vstd::arithmetic::div_mod::lemma_fundamental_div_mod(n as int, 2);
        assert(v@ =~= spec_rev(old(v)@));
    }
}

/// Mirrors a channel outside-in in place.
pub fn apply_mirror(v: &mut Vec<u8>)
    ensures
        final(v)@ == spec_mirror(old(v)@),
{
    let n = v.len();
    let half = n / 2;
    let mut i: usize = 0;
    while i < half
        invariant
            n == v@.len(),
            half == n / 2,
            i <= half,
            half <= n - half,
            forall|k: int|
                0 <= k < n ==> (#[trigger] v@[k]) == (if n - i <= k < n {
                    old(v)@[n - 1 - k]
                } else {
                    old(v)@[k]
                }),
        decreases half - i,
    {
        let a = v[i];
        v.set(n - 1 - i, a);
        proof {
            assert(old(v)@[i as int] == v@[i as int]);
        }
        i += 1;
    }
    proof {
        vstd::arithmetic::div_mod::lemma_fundamental_div_mod(n as int, 2);
        assert(v@ =~= spec_mirror(old(v)@));
    }
}

/// Mirrors a channel centre-out in place.
pub fn apply_mirror_flip(v: &mut Vec<u8>)
    ensures
        final(v)@ == spec_mirror_flip(old(v)@),
{
    let n = v.len();
    let half = n / 2;
    let mut first: Vec<u8> = Vec::new();
    let mut i: usize = 0;
    while i < half
        invariant
            n == v@.len(),
            half == n / 2,
            half <= n - half,
            i <= half,
            v@ == old(v)@,
            first@.len() == i,
            forall|k: int| 0 <= k < i ==> (#[trigger] first@[k]) == old(v)@[k],
        decreases half - i,
    {
        first.push(v[i]);
        i += 1;
    }
    let mut j: usize = 0;
    while j < half
        invariant
            n == v@.len(),
            half == n / 2,
            half <= n - half,
            j <= half,
            first@.len() == half,
            forall|k: int| 0 <= k < half ==> (#[trigger] first@[k]) == old(v)@[k],
            forall|k: int|
                0 <= k < n ==> (#[trigger] v@[k]) == (if k < j {
                    old(v)@[half - 1 - k]
                } else if n - half <= k < n - half + j {
                    old(v)@[k - (n - half)]
                } else {
                    old(v)@[k]
                }),
        decreases half - j,
    {
        let a = first[half - 1 - j];
        let b = first[j];
        v.set(j, a);
        v.set(n - half + j, b);
        j += 1;
    }
    proof {
        vstd::arithmetic::div_mod::lemma_fundamental_div_mod(n as int, 2);
        assert(v@ =~= spec_mirror_flip(old(v)@));
    }
}

/// The reflected-at-edges read index for a window position.
pub open spec fn spec_reflect(len: int, idx: int) -> int {
    let r = if idx < 0 {
        -idx
    } else if idx >= len {
        2 * (len - 1) - idx
    } else {
        idx
    };
    if r < 0 {
        0
    } else if r > len - 1 {
        len - 1
    } else {
        r
    }
}

/// The sum of `n` reflected reads starting at window position `from`.
pub open spec fn spec_window_sum(s: Seq<u8>, from: int, n: int) -> int
    decreases n,
{
    if n <= 0 {
        0
    } else {
        spec_window_sum(s, from, n - 1) + s[spec_reflect(s.len() as int, from + n - 1)]
    }
}

/// One box-filter pass of radius `r` with reflected edges.
pub open spec fn spec_box_blur(s: Seq<u8>, r: int) -> Seq<u8> {
    Seq::new(s.len(), |i: int| (spec_window_sum(s, i - r, 2 * r + 1) / (2 * r + 1)) as u8)
}

proof fn lemma_window_sum_bound(s: Seq<u8>, from: int, n: int)
    requires
        n >= 0,
    ensures
        0 <= spec_window_sum(s, from, n) <= n * 255,
    decreases n,
{
    if n > 0 {
        lemma_window_sum_bound(s, from, n - 1);
        assert((n - 1) * 255 + 255 == n * 255) by (nonlinear_arith);
    }
}

/// Applies one box-filter pass of radius `r` to the channel.
fn box_blur_pass(v: &mut Vec<u8>, r: usize)
    requires
        r >= 1,
        2 * r + 1 <= old(v)@.len(),
    ensures
        final(v)@ == spec_box_blur(old(v)@, r as int),
{
    let n = v.len();
    let mut src: Vec<u8> = Vec::new();
    let mut t: usize = 0;
    while t < n
        invariant
            n == v@.len(),
            v@ == old(v)@,
            t <= n,
            src@.len() == t,
            forall|k: int| 0 <= k < t ==> (#[trigger] src@[k]) == old(v)@[k],
        decreases n - t,
    {
        src.push(v[t]);
        t += 1;
    }
    proof {
        assert(src@ =~= old(v)@);
    }
    let width = 2 * r + 1;
    let mut i: usize = 0;
    while i < n
        invariant
            n == v@.len(),
            src@ == old(v)@,
            src@.len() == n,
            r >= 1,
            width == 2 * r + 1,
            width <= n,
            i <= n,
            forall|k: int|
                0 <= k < i ==> (#[trigger] v@[k]) == (spec_window_sum(src@, k - r, 2 * r + 1) / (2
                    * r + 1)) as u8,
            forall|k: int| i <= k < n ==> (#[trigger] v@[k]) == old(v)@[k],
        decreases n - i,
    {
        let mut sum: u128 = 0;
        let mut w: usize = 0;
        while w < width
            invariant
                n == src@.len(),
                r >= 1,
                width == 2 * r + 1,
                width <= n,
                i < n,
                w <= width,
                sum == spec_window_sum(src@, i - r, w as int),
                sum <= w * 255,
            decreases width - w,
        {
            let pos: i128 = i as i128 - r as i128 + w as i128;
            let ridx: usize = if pos < 0 {
                (-pos) as usize
            } else if pos >= n as i128 {
                (2 * (n as i128 - 1) - pos) as usize
            } else {
                pos as usize
            };
            let ridx = if ridx > n - 1 {
                n - 1
            } else {
                ridx
            };
            proof {
                assert(ridx as int == spec_reflect(n as int, i - r + w));
                assert((w + 1) * 255 == w * 255 + 255) by (nonlinear_arith);
            }
            sum = sum + src[ridx] as u128;
            w += 1;
        }
        proof {
            lemma_window_sum_bound(src@, i - r, width as int);
            crate::fixp::lemma_div_le_const(sum as int, 255, width as int);
        }
        v.set(i, (sum / width as u128) as u8);
        i += 1;
    }
    proof {
        assert(v@ =~= spec_box_blur(old(v)@, r as int));
    }
}

/// Blurs a channel with three box-filter passes.  This deviates from the
/// Gaussian kernel the design names: an exponential kernel cannot be
/// computed here, and the triple box filter is its standard discrete
/// stand-in, sharing the properties that matter (symmetric, normalised,
/// constant channels kept).  Channels too short or a zero radius are left
/// alone.
pub fn blur_channel(v: &mut Vec<u8>, blur_milli: u32)
    ensures
        ({
            let r = spec_blur_radius(old(v)@.len() as int, blur_milli as int);
            &&& (r == 0 ==> final(v)@ == old(v)@)
            &&& (r >= 1 ==> final(v)@ == spec_box_blur(
                spec_box_blur(spec_box_blur(old(v)@, r), r),
                r,
            ))
        }),
{
    let n = v.len();
    if n < 3 || blur_milli == 0 {
        return ;
    }
    let sigma = ((blur_milli as u64 + 999) / 1000) as usize;
    let cap = (n - 1) / 2;
    let r = if sigma > cap {
        cap
    } else {
        sigma
    };
    if r == 0 {
        return ;
    }
    proof {
        vstd::arithmetic::div_mod::lemma_fundamental_div_mod(n as int - 1, 2);
    }
    box_blur_pass(v, r);
    box_blur_pass(v, r);
    box_blur_pass(v, r);
}

/// The blur radius used for a channel of length `len`: the configured
/// sigma, rounded up to pixels and capped at half the channel; zero for
/// short channels or no blur.
pub open spec fn spec_blur_radius(len: int, blur_milli: int) -> int {
    if len < 3 || blur_milli == 0 {
        0
    } else {
        let sigma = (blur_milli + 999) / 1000;
        let cap = (len - 1) / 2;
        if sigma > cap {
            cap
        } else {
            sigma
        }
    }
}

/// A byte sum clamped at 255.
pub open spec fn spec_sat_add(a: int, b: int) -> u8 {
    if a + b > 255 {
        255u8
    } else {
        (a + b) as u8
    }
}

/// Channel values laid over the background colour, interleaved.
pub open spec fn spec_composed(out: Seq<u8>, r: Seq<u8>, g: Seq<u8>, b: Seq<u8>, bg: Rgb) -> bool {
    &&& forall|i: int|
        0 <= i < r.len() ==> out[3 * i] == spec_sat_add((#[trigger] r[i]) as int, bg.r as int)
    &&& forall|i: int|
        0 <= i < g.len() ==> out[3 * i + 1] == spec_sat_add((#[trigger] g[i]) as int, bg.g as int)
    &&& forall|i: int|
        0 <= i < b.len() ==> out[3 * i + 2] == spec_sat_add((#[trigger] b[i]) as int, bg.b as int)
}

/// Interleaves the three channels over the background colour: each output
/// byte is the channel value plus the background channel, saturating.
#[verifier::rlimit(50)]
pub fn compose_frame(r: &Vec<u8>, g: &Vec<u8>, b: &Vec<u8>, bg: Rgb) -> (out: Vec<u8>)
    requires
        g@.len() == r@.len(),
        b@.len() == r@.len(),
        r@.len() * 3 <= usize::MAX,
    ensures
        out@.len() == 3 * r@.len(),
        spec_composed(out@, r@, g@, b@, bg),
{
    let n = r.len();
    let mut out: Vec<u8> = Vec::new();
    let mut i: usize = 0;
    while i < n
        invariant
            n == r@.len(),
            g@.len() == n,
            b@.len() == n,
            n * 3 <= usize::MAX,
            i <= n,
            out@.len() == 3 * i,
            forall|k: int|
                0 <= k < i ==> out@[3 * k] == spec_sat_add(
                    (#[trigger] r@[k]) as int,
                    bg.r as int,
                ),
            forall|k: int|
                0 <= k < i ==> out@[3 * k + 1] == spec_sat_add(
                    (#[trigger] g@[k]) as int,
                    bg.g as int,
                ),
            forall|k: int|
                0 <= k < i ==> out@[3 * k + 2] == spec_sat_add(
                    (#[trigger] b@[k]) as int,
                    bg.b as int,
                ),
        decreases n - i,
    {
        let rv = if r[i] as u32 + bg.r as u32 > 255 {
            255u8
        } else {
            r[i] + bg.r
        };
        let gv = if g[i] as u32 + bg.g as u32 > 255 {
            255u8
        } else {
            g[i] + bg.g
        };
        let bv = if b[i] as u32 + bg.b as u32 > 255 {
            255u8
        } else {
            b[i] + bg.b
        };
        out.push(rv);
        out.push(gv);
        out.push(bv);
        proof {
            assert(out@[3 * (i as int)] == rv);
            assert(out@[3 * (i as int) + 1] == gv);
            assert(out@[3 * (i as int) + 2] == bv);
            assert(rv == spec_sat_add(r@[i as int] as int, bg.r as int));
            assert(gv == spec_sat_add(g@[i as int] as int, bg.g as int));
            assert(bv == spec_sat_add(b@[i as int] as int, bg.b as int));
        }
        i += 1;
    }
    out
}

/// Every buffer belongs to a configured device and spans its pixels.
pub open spec fn buffers_wf(bufs: Seq<(String, Vec<u8>)>, devices: Seq<Device>) -> bool {
    forall|i: int|
        0 <= i < bufs.len() ==> ({
            let d = spec_find_key(devices, (#[trigger] bufs[i]).0@, device_key());
            &&& d >= 0
            &&& devices[d].led_count <= MAX_PIXELS as u32
            &&& bufs[i].1@.len() == 3 * devices[d].led_count
        })
}



/// Channel `c` of an interleaved RGB frame.
pub open spec fn spec_channel(f: Seq<u8>, c: int) -> Seq<u8> {
    Seq::new((f.len() / 3) as nat, |i: int| f[3 * i + c])
}

/// A channel after the configured blur: untouched when the radius resolves
/// to zero, else three box-filter passes.
pub open spec fn spec_maybe_blur(s: Seq<u8>, blur_milli: int) -> Seq<u8> {
    let r = spec_blur_radius(s.len() as int, blur_milli);
    if r == 0 {
        s
    } else {
        spec_box_blur(spec_box_blur(spec_box_blur(s, r), r), r)
    }
}

/// The background colour a post-processing block names: black when its
/// colour string does not parse.
pub open spec fn spec_bg_color(bg: Seq<char>) -> Rgb {
    match spec_parse_single_color(bg) {
        Some(c) => c,
        None => Rgb { r: 0, g: 0, b: 0 },
    }
}

/// Channel `c` of an effect's frame after the block's blur and mirror/flip.
pub open spec fn spec_pp_channel(ef: Seq<u8>, c: int, base: BaseEffectConfig) -> Seq<u8> {
    spec_postprocess(spec_maybe_blur(spec_channel(ef, c), base.blur_milli as int), base.mirror, base.flip)
}

/// A surface's finished frame: the effect's frame `ef`, post-processed per
/// channel and laid over the block's background colour, saturating.
pub open spec fn spec_surface_frame(ef: Seq<u8>, base: BaseEffectConfig) -> Seq<u8> {
    let bg = spec_bg_color(base.background_color@);
    Seq::new(
        (3 * (ef.len() / 3)) as nat,
        |k: int| spec_sat_add(spec_pp_channel(ef, k % 3, base)[k / 3] as int, rgb_channel(bg, k % 3) as int),
    )
}

/// How rendering one surface relates it, its state after, and the frame
/// it produced: the bound effect stepped by its law from a zero frame, the
/// scratch channels hold the post-processed channels of the effect's
/// frame, and the produced frame is those channels over the background.
pub open spec fn spec_surface_render(
    pre_av: ActiveVirtual,
    post_av: ActiveVirtual,
    melbanks: Seq<u16>,
    f: Seq<u8>,
) -> bool {
    &&& pre_av.effect is Some
    &&& post_av.effect is Some
    &&& ({
        let pc = pre_av.pixel_count as int;
        let base = spec_base_of(pre_av.effect->Some_0);
        exists|ef: Seq<u8>|
            {
                &&& #[trigger] spec_effect_step(
                    pre_av.effect->Some_0,
                    post_av.effect->Some_0,
                    melbanks,
                    crate::effects::scan::spec_zero_frame(3 * pc),
                    ef,
                )
                &&& ef.len() == 3 * pc
                &&& post_av.r_channel@ == spec_pp_channel(ef, 0, base)
                &&& post_av.g_channel@ == spec_pp_channel(ef, 1, base)
                &&& post_av.b_channel@ == spec_pp_channel(ef, 2, base)
                &&& f == spec_surface_frame(ef, base)
            }
    })
}

/// Renders one surface: its effect draws into a fresh zero frame, the
/// frame is split into channels, blurred, mirrored or flipped as the
/// effect's post-processing block commands, and laid over the background
/// colour.  A surface with no effect bound renders nothing.
pub fn render_virtual(av: &mut ActiveVirtual, audio: &AudioAnalysisData) -> (out: Option<Vec<u8>>)
    requires
        old(av).pixel_count <= MAX_PIXELS,
    ensures
        final(av).config == old(av).config,
        final(av).pixel_count == old(av).pixel_count,
        old(av).effect is None ==> out is None && *final(av) == *old(av),
        final(av).effect is Some <==> old(av).effect is Some,
        old(av).effect is Some ==> (out matches Some(f) && spec_surface_render(
            *old(av),
            *final(av),
            audio.melbanks@,
            f@,
        )),
{
    let pc = av.pixel_count;
    let mut effect = match av.effect.take() {
        Some(e) => e,
        None => {
            return None;
        },
    };
    let ghost e0 = old(av).effect->Some_0;
    let ghost baseg = spec_base_of(e0);
    let mut frame = crate::engine::zero_channel(3 * pc);
    proof {
        assert(frame@ =~= crate::effects::scan::spec_zero_frame(3 * pc));
    }
    effect.render(audio, &mut frame);
    let ghost ef = frame@;
    let base = effect.get_base_config();
    proof {
        assert(base == baseg);
    }
    av.effect = Some(effect);
    let mut rc: Vec<u8> = Vec::new();
    let mut gc: Vec<u8> = Vec::new();
    let mut bc: Vec<u8> = Vec::new();
    let mut i: usize = 0;
    while i < pc
        invariant
            pc <= MAX_PIXELS,
            frame@.len() == 3 * pc,
            i <= pc,
            rc@.len() == i,
            gc@.len() == i,
            bc@.len() == i,
            forall|k: int| 0 <= k < i ==> (#[trigger] rc@[k]) == frame@[3 * k],
            forall|k: int| 0 <= k < i ==> (#[trigger] gc@[k]) == frame@[3 * k + 1],
            forall|k: int| 0 <= k < i ==> (#[trigger] bc@[k]) == frame@[3 * k + 2],
        decreases pc - i,
    {
        rc.push(frame[3 * i]);
        gc.push(frame[3 * i + 1]);
        bc.push(frame[3 * i + 2]);
        i += 1;
    }
    proof {
        assert(ef.len() / 3 == pc);
        assert(rc@ =~= spec_channel(ef, 0));
        assert(gc@ =~= spec_channel(ef, 1));
        assert(bc@ =~= spec_channel(ef, 2));
    }
    if base.blur_milli > 0 {
        blur_channel(&mut rc, base.blur_milli);
        blur_channel(&mut gc, base.blur_milli);
        blur_channel(&mut bc, base.blur_milli);
    }
    proof {
        assert(rc@ == spec_maybe_blur(spec_channel(ef, 0), base.blur_milli as int));
        assert(gc@ == spec_maybe_blur(spec_channel(ef, 1), base.blur_milli as int));
        assert(bc@ == spec_maybe_blur(spec_channel(ef, 2), base.blur_milli as int));
    }
    if base.mirror {
        if base.flip {
            apply_mirror_flip(&mut rc);
            apply_mirror_flip(&mut gc);
            apply_mirror_flip(&mut bc);
        } else {
            apply_mirror(&mut rc);
            apply_mirror(&mut gc);
            apply_mirror(&mut bc);
        }
    } else if base.flip {
        apply_flip(&mut rc);
        apply_flip(&mut gc);
        apply_flip(&mut bc);
    }
    proof {
        assert(rc@ == spec_pp_channel(ef, 0, base));
        assert(gc@ == spec_pp_channel(ef, 1, base));
        assert(bc@ == spec_pp_channel(ef, 2, base));
    }
    let bg = match parse_single_color(base.background_color.as_str()) {
        Some(c) => c,
        None => Rgb { r: 0, g: 0, b: 0 },
    };
    proof {
        assert(bg == spec_bg_color(base.background_color@));
        assert(rc@.len() == pc);
    }
    let composed = compose_frame(&rc, &gc, &bc, bg);
    proof {
        let sf = spec_surface_frame(ef, base);
        assert(composed@.len() == sf.len());
        assert forall|k: int| 0 <= k < composed@.len() implies composed@[k] == sf[k] by {
            let i = k / 3;
            let c = k % 3;
            vstd::arithmetic::div_mod::lemma_fundamental_div_mod(k, 3);
            if c == 0 {
                assert(composed@[3 * i] == spec_sat_add(rc@[i] as int, bg.r as int));
            } else if c == 1 {
                assert(composed@[3 * i + 1] == spec_sat_add(gc@[i] as int, bg.g as int));
            } else {
                assert(composed@[3 * i + 2] == spec_sat_add(bc@[i] as int, bg.b as int));
            }
        }
        assert(composed@ =~= sf);
    }
    av.r_channel = rc;
    av.g_channel = gc;
    av.b_channel = bc;
    proof {
        assert(spec_effect_step(
            e0,
            av.effect->Some_0,
            audio.melbanks@,
            crate::effects::scan::spec_zero_frame(3 * (pc as int)),
            ef,
        ));
    }
    Some(composed)
}


/// The device buffers as mathematical values: address and bytes.
pub open spec fn spec_buffers_view(b: Seq<(String, Vec<u8>)>) -> Seq<(Seq<char>, Seq<u8>)> {
    b.map_values(|p: (String, Vec<u8>)| (p.0@, p.1@))
}

/// The key of a device buffer: its address.
pub open spec fn bufv_key() -> spec_fn((Seq<char>, Seq<u8>)) -> Seq<char> {
    |p: (Seq<char>, Seq<u8>)| p.0
}

/// One scattered cell: looks up the cell's device, creates its buffer
/// zeroed at the device's size on first touch, and writes frame pixel
/// `linear` at the cell's pixel.  A cell naming an unconfigured device or a
/// device beyond the transport's reach changes nothing; a pixel or frame
/// index out of range leaves the bytes unwritten.
pub open spec fn spec_apply_cell(
    bufs: Seq<(Seq<char>, Seq<u8>)>,
    devices: Seq<Device>,
    cell: MatrixCell,
    frame: Seq<u8>,
    linear: int,
) -> Seq<(Seq<char>, Seq<u8>)> {
    let d = spec_find_key(devices, cell.device_id@, device_key());
    if d < 0 || devices[d].led_count > MAX_PIXELS as u32 {
        bufs
    } else {
        let bi0 = spec_find_key(bufs, cell.device_id@, bufv_key());
        let grown = if bi0 >= 0 {
            bufs
        } else {
            bufs.push(
                (cell.device_id@, Seq::new((3 * devices[d].led_count) as nat, |x: int| 0u8)),
            )
        };
        let bi = if bi0 >= 0 {
            bi0
        } else {
            bufs.len() as int
        };
        let entry = grown[bi];
        if cell.pixel < entry.1.len() / 3 && linear < frame.len() / 3 {
            let p = cell.pixel as int;
            grown.update(
                bi,
                (
                    entry.0,
                    entry.1.update(3 * p, frame[3 * linear]).update(
                        3 * p + 1,
                        frame[3 * linear + 1],
                    ).update(3 * p + 2, frame[3 * linear + 2]),
                ),
            )
        } else {
            grown
        }
    }
}

/// The device buffers and running pixel index after the first `upto` grid
/// cells, row-major: every non-empty cell carries the next frame pixel to
/// its device.
pub open spec fn spec_scatter_cells(
    bufs: Seq<(Seq<char>, Seq<u8>)>,
    devices: Seq<Device>,
    cells: Seq<Option<MatrixCell>>,
    frame: Seq<u8>,
    upto: int,
) -> (Seq<(Seq<char>, Seq<u8>)>, int)
    decreases upto,
{
    if upto <= 0 {
        (bufs, 0)
    } else {
        let prev = spec_scatter_cells(bufs, devices, cells, frame, upto - 1);
        match cells[upto - 1] {
            Some(c) => (spec_apply_cell(prev.0, devices, c, frame, prev.1), prev.1 + 1),
            None => prev,
        }
    }
}

/// A surface's grid as one row-major cell sequence.
pub open spec fn spec_flat(g: Seq<Seq<Option<MatrixCell>>>) -> Seq<Option<MatrixCell>>
    decreases g.len(),
{
    if g.len() == 0 {
        Seq::empty()
    } else {
        spec_flat(g.drop_last()) + g.last()
    }
}

/// The scatter fold reads only the cells before `upto`.
proof fn lemma_scatter_prefix(
    bufs: Seq<(Seq<char>, Seq<u8>)>,
    devices: Seq<Device>,
    s1: Seq<Option<MatrixCell>>,
    s2: Seq<Option<MatrixCell>>,
    frame: Seq<u8>,
    upto: int,
)
    requires
        0 <= upto <= s1.len(),
        upto <= s2.len(),
        s1.take(upto) == s2.take(upto),
    ensures
        spec_scatter_cells(bufs, devices, s1, frame, upto) == spec_scatter_cells(
            bufs,
            devices,
            s2,
            frame,
            upto,
        ),
    decreases upto,
{
    if upto > 0 {
        assert(s1.take(upto)[upto - 1] == s1[upto - 1]);
        assert(s2.take(upto)[upto - 1] == s2[upto - 1]);
        assert(s1.take(upto - 1) =~= s1.take(upto).take(upto - 1));
        assert(s2.take(upto - 1) =~= s2.take(upto).take(upto - 1));
        lemma_scatter_prefix(bufs, devices, s1, s2, frame, upto - 1);
    }
}

/// The running pixel index never outruns the cells processed.
proof fn lemma_scatter_linear_bound(
    bufs: Seq<(Seq<char>, Seq<u8>)>,
    devices: Seq<Device>,
    cells: Seq<Option<MatrixCell>>,
    frame: Seq<u8>,
    upto: int,
)
    requires
        upto >= 0,
    ensures
        0 <= spec_scatter_cells(bufs, devices, cells, frame, upto).1 <= upto,
    decreases upto,
{
    if upto > 0 {
        lemma_scatter_linear_bound(bufs, devices, cells, frame, upto - 1);
    }
}

/// Scatters a surface's frame into per-device buffers: each non-empty grid
/// cell, in row-major order, carries the next frame pixel to its device's
/// pixel, exactly as the scatter fold over the flattened grid states.
pub fn scatter_frame(
    buffers: &mut Vec<(String, Vec<u8>)>,
    devices: &Vec<Device>,
    config: &Virtual,
    frame: &Vec<u8>,
)
    requires
        buffers_wf(old(buffers)@, devices@),
    ensures
        buffers_wf(final(buffers)@, devices@),
        ({
            let cells = spec_flat(crate::types::grid_view(config.matrix_data@));
            spec_buffers_view(final(buffers)@) == spec_scatter_cells(
                spec_buffers_view(old(buffers)@),
                devices@,
                cells,
                frame@,
                cells.len() as int,
            ).0
        }),
{
    let ghost all = crate::types::grid_view(config.matrix_data@);
    let ghost b0 = spec_buffers_view(old(buffers)@);
    let ghost mut processed: Seq<Option<MatrixCell>> = Seq::empty();
    let flen = frame.len();
    let mut linear: usize = 0;
    let mut row: usize = 0;
    proof {
        assert(spec_flat(all.take(0)) =~= Seq::<Option<MatrixCell>>::empty());
    }
    while row < config.matrix_data.len()
        invariant
            buffers_wf(buffers@, devices@),
            row <= config.matrix_data@.len(),
            all == crate::types::grid_view(config.matrix_data@),
            all.len() == config.matrix_data@.len(),
            b0 == spec_buffers_view(old(buffers)@),
            flen == frame@.len(),
            processed =~= spec_flat(all.take(row as int)),
            ({
                let fold = spec_scatter_cells(b0, devices@, processed, frame@, processed.len() as int);
                spec_buffers_view(buffers@) == fold.0 && linear as int == vstd::math::min(
                    fold.1,
                    flen as int,
                )
            }),
        decreases config.matrix_data@.len() - row,
    {
        let r = &config.matrix_data[row];
        let mut cell: usize = 0;
        while cell < r.len()
            invariant
                buffers_wf(buffers@, devices@),
                cell <= r@.len(),
                row < config.matrix_data@.len(),
                all == crate::types::grid_view(config.matrix_data@),
                all.len() == config.matrix_data@.len(),
                r@ == all[row as int],
                b0 == spec_buffers_view(old(buffers)@),
                flen == frame@.len(),
                processed =~= spec_flat(all.take(row as int)) + r@.take(cell as int),
                ({
                    let fold = spec_scatter_cells(
                        b0,
                        devices@,
                        processed,
                        frame@,
                        processed.len() as int,
                    );
                    spec_buffers_view(buffers@) == fold.0 && linear as int == vstd::math::min(
                        fold.1,
                        flen as int,
                    )
                }),
            decreases r@.len() - cell,
        {
            let ghost fold_pre = spec_scatter_cells(
                b0,
                devices@,
                processed,
                frame@,
                processed.len() as int,
            );
            match &r[cell] {
                Some(c) => {
                    scatter_cell(buffers, devices, c, frame, linear);
                    if linear < flen {
                        linear += 1;
                    }
                },
                None => {},
            }
            proof {
                let stepped = processed.push(r@[cell as int]);
                assert(stepped.take(processed.len() as int) =~= processed);
                assert(processed.take(processed.len() as int) =~= processed);
                lemma_scatter_prefix(
                    b0,
                    devices@,
                    stepped,
                    processed,
                    frame@,
                    processed.len() as int,
                );
                lemma_scatter_linear_bound(
                    b0,
                    devices@,
                    processed,
                    frame@,
                    processed.len() as int,
                );
                match r@[cell as int] {
                    Some(c) => {
                        lemma_apply_cell_clamp(fold_pre.0, devices@, c, frame@, fold_pre.1);
                    },
                    None => {},
                }
                processed = stepped;
                assert(processed =~= spec_flat(all.take(row as int)) + r@.take(cell + 1));
            }
            cell += 1;
        }
        proof {
            assert(all.take(row + 1).drop_last() =~= all.take(row as int));
            assert(all.take(row + 1).last() == all[row as int]);
            assert(r@.take(r@.len() as int) =~= r@);
            assert(processed =~= spec_flat(all.take(row + 1)));
        }
        row += 1;
    }
    proof {
        assert(all.take(all.len() as int) =~= all);
        assert(processed =~= spec_flat(all));
    }
}

/// Clamping the running index at the frame's length changes nothing: a
/// write happens only while the index is inside the frame.
proof fn lemma_apply_cell_clamp(
    bufs: Seq<(Seq<char>, Seq<u8>)>,
    devices: Seq<Device>,
    cell: MatrixCell,
    frame: Seq<u8>,
    linear: int,
)
    requires
        linear >= 0,
    ensures
        spec_apply_cell(bufs, devices, cell, frame, linear) == spec_apply_cell(
            bufs,
            devices,
            cell,
            frame,
            vstd::math::min(linear, frame.len() as int),
        ),
{
    vstd::arithmetic::div_mod::lemma_fundamental_div_mod(frame.len() as int, 3);
}


/// The index of the buffer keyed by `ip`: the first match, or nothing.
fn find_buffer(buffers: &Vec<(String, Vec<u8>)>, ip: &str) -> (r: Option<usize>)
    ensures
        match r {
            Some(i) => i < buffers@.len() && spec_find_key(
                spec_buffers_view(buffers@),
                ip@,
                bufv_key(),
            ) == i,
            None => spec_find_key(spec_buffers_view(buffers@), ip@, bufv_key()) == -1,
        },
{
    let ghost bv = spec_buffers_view(buffers@);
    let mut i: usize = 0;
    while i < buffers.len()
        invariant
            i <= buffers@.len(),
            bv == spec_buffers_view(buffers@),
            bv.len() == buffers@.len(),
            forall|k: int| 0 <= k < i ==> (#[trigger] bv[k]).0 != ip@,
        decreases buffers@.len() - i,
    {
        if crate::types::str_eq(buffers[i].0.as_str(), ip) {
            proof {
                assert(bv[i as int].0 == ip@);
                crate::engine::lemma_find_key_is(bv, ip@, bufv_key(), i as int);
            }
            return Some(i);
        }
        proof {
            assert(bv[i as int].0 == buffers@[i as int].0@);
        }
        i += 1;
    }
    proof {
        crate::engine::lemma_find_key_none(bv, ip@, bufv_key());
    }
    None
}

/// Writes one cell's pixel into its device's buffer, creating the buffer
/// at the device's size on first touch.
fn scatter_cell(
    buffers: &mut Vec<(String, Vec<u8>)>,
    devices: &Vec<Device>,
    c: &MatrixCell,
    frame: &Vec<u8>,
    linear: usize,
)
    requires
        buffers_wf(old(buffers)@, devices@),
    ensures
        buffers_wf(final(buffers)@, devices@),
        spec_buffers_view(final(buffers)@) == spec_apply_cell(
            spec_buffers_view(old(buffers)@),
            devices@,
            *c,
            frame@,
            linear as int,
        ),
{
    let ghost bv0 = spec_buffers_view(old(buffers)@);
    let d = match crate::engine::find_device(devices, c.device_id.as_str()) {
        Some(d) => d,
        None => {
            return ;
        },
    };
    if devices[d].led_count > MAX_PIXELS as u32 {
        return ;
    }
    proof {
        crate::engine::lemma_find_key_props(devices@, c.device_id@, device_key());
    }
    let found = find_buffer(buffers, c.device_id.as_str());
    let bi: usize = if let Some(bi) = found {
        bi
    } else {
        let fresh = crate::engine::zero_channel(3 * (devices[d].led_count as usize));
        buffers.push((c.device_id.clone(), fresh));
        proof {
            assert forall|t: int| 0 <= t < buffers@.len() implies ({
                let dd = spec_find_key(devices@, (#[trigger] buffers@[t]).0@, device_key());
                &&& dd >= 0
                &&& devices@[dd].led_count <= MAX_PIXELS as u32
                &&& buffers@[t].1@.len() == 3 * devices@[dd].led_count
            }) by {
                if t == buffers@.len() - 1 {
                    assert(buffers@[t].0@ == c.device_id@);
                }
            }
            assert(spec_buffers_view(buffers@) =~~= bv0.push(
                (c.device_id@, Seq::new((3 * devices@[d as int].led_count) as nat, |x: int| 0u8)),
            ));
        }
        buffers.len() - 1
    };
    let ghost grown = spec_buffers_view(buffers@);
    proof {
        assert(grown[bi as int].0 == buffers@[bi as int].0@);
        assert(grown[bi as int].1 == buffers@[bi as int].1@);
    }
    let dest = c.pixel as usize;
    let ghost pre = buffers@;
    let blen = buffers[bi].1.len();
    let flen = frame.len();
    proof {
        vstd::arithmetic::div_mod::lemma_fundamental_div_mod(blen as int, 3);
        vstd::arithmetic::div_mod::lemma_fundamental_div_mod(flen as int, 3);
    }
    if dest < blen / 3 && linear < flen / 3 {
        let mut entry = buffers.remove(bi);
        entry.1.set(3 * dest, frame[3 * linear]);
        entry.1.set(3 * dest + 1, frame[3 * linear + 1]);
        entry.1.set(3 * dest + 2, frame[3 * linear + 2]);
        buffers.insert(bi, entry);
        proof {
            assert forall|t: int| 0 <= t < buffers@.len() implies ({
                let dd = spec_find_key(devices@, (#[trigger] buffers@[t]).0@, device_key());
                &&& dd >= 0
                &&& devices@[dd].led_count <= MAX_PIXELS as u32
                &&& buffers@[t].1@.len() == 3 * devices@[dd].led_count
            }) by {
                assert(buffers@[t].0@ == pre[t].0@ && buffers@[t].1@.len() == pre[t].1@.len());
            }
            assert(buffers@ =~= pre.update(bi as int, buffers@[bi as int]));
            assert(spec_buffers_view(buffers@) =~= grown.update(
                bi as int,
                (
                    grown[bi as int].0,
                    grown[bi as int].1.update(3 * (dest as int), frame@[3 * (linear as int)]).update(
                        3 * (dest as int) + 1,
                        frame@[3 * (linear as int) + 1],
                    ).update(3 * (dest as int) + 2, frame@[3 * (linear as int) + 2]),
                ),
            ));
        }
    }
    proof {
        assert(spec_buffers_view(buffers@) =~= spec_apply_cell(
            bv0,
            devices@,
            *c,
            frame@,
            linear as int,
        ));
    }
}


/// A surface the tick renders: it has an effect bound and the transport
/// can address it.
pub open spec fn spec_rendered(av: ActiveVirtual) -> bool {
    av.effect is Some && av.pixel_count <= MAX_PIXELS
}

/// How many of the first `upto` surfaces the tick renders.
pub open spec fn spec_preview_count(s: Seq<ActiveVirtual>, upto: int) -> int
    decreases upto,
{
    if upto <= 0 {
        0
    } else {
        spec_preview_count(s, upto - 1) + if spec_rendered(s[upto - 1]) {
            1int
        } else {
            0int
        }
    }
}

/// The device buffers after scattering the first `upto` surfaces: each
/// rendered surface's grid carries its preview frame into the buffers.
pub open spec fn spec_tick_buffers(
    devices: Seq<Device>,
    virtuals: Seq<ActiveVirtual>,
    frames: Seq<Seq<u8>>,
    upto: int,
) -> Seq<(Seq<char>, Seq<u8>)>
    decreases upto,
{
    if upto <= 0 {
        Seq::empty()
    } else {
        let prev = spec_tick_buffers(devices, virtuals, frames, upto - 1);
        if spec_rendered(virtuals[upto - 1]) {
            let cells = spec_flat(crate::types::grid_view(virtuals[upto - 1].config.matrix_data@));
            spec_scatter_cells(
                prev,
                devices,
                cells,
                frames[spec_preview_count(virtuals, upto - 1)],
                cells.len() as int,
            ).0
        } else {
            prev
        }
    }
}

proof fn lemma_preview_count_le(s: Seq<ActiveVirtual>, upto: int)
    requires
        upto >= 0,
    ensures
        0 <= spec_preview_count(s, upto) <= upto,
        forall|u2: int| 0 <= u2 <= upto ==> #[trigger] spec_preview_count(s, u2)
            <= spec_preview_count(s, upto),
    decreases upto,
{
    if upto > 0 {
        lemma_preview_count_le(s, upto - 1);
    }
}

/// The buffer fold reads only the frames of the surfaces before `upto`.
proof fn lemma_tick_buffers_frames(
    devices: Seq<Device>,
    virtuals: Seq<ActiveVirtual>,
    f1: Seq<Seq<u8>>,
    f2: Seq<Seq<u8>>,
    upto: int,
)
    requires
        upto >= 0,
        forall|j: int| 0 <= j < spec_preview_count(virtuals, upto) ==> #[trigger] f1[j] == f2[j],
    ensures
        spec_tick_buffers(devices, virtuals, f1, upto) == spec_tick_buffers(
            devices,
            virtuals,
            f2,
            upto,
        ),
    decreases upto,
{
    if upto > 0 {
        lemma_preview_count_le(virtuals, upto);
        lemma_tick_buffers_frames(devices, virtuals, f1, f2, upto - 1);
        if spec_rendered(virtuals[upto - 1]) {
            lemma_preview_count_le(virtuals, upto - 1);
            assert(spec_preview_count(virtuals, upto - 1) < spec_preview_count(virtuals, upto));
            assert(f1[spec_preview_count(virtuals, upto - 1)] == f2[spec_preview_count(
                virtuals,
                upto - 1,
            )]);
        }
    }
}

/// The buffer fold reads only the surfaces before `upto`.
proof fn lemma_tick_buffers_virtuals(
    devices: Seq<Device>,
    v1: Seq<ActiveVirtual>,
    v2: Seq<ActiveVirtual>,
    frames: Seq<Seq<u8>>,
    upto: int,
)
    requires
        upto >= 0,
        forall|t: int| 0 <= t < upto ==> #[trigger] v1[t] == v2[t],
    ensures
        spec_tick_buffers(devices, v1, frames, upto) == spec_tick_buffers(
            devices,
            v2,
            frames,
            upto,
        ),
        spec_preview_count(v1, upto) == spec_preview_count(v2, upto),
    decreases upto,
{
    if upto > 0 {
        lemma_tick_buffers_virtuals(devices, v1, v2, frames, upto - 1);
    }
}

/// The preview frames of a tick, as mathematical values.
pub open spec fn spec_frames_of(pv: Seq<(String, Vec<u8>)>) -> Seq<Seq<u8>> {
    pv.map_values(|p: (String, Vec<u8>)| p.1@)
}

/// What the render phase of one unpaused tick guarantees: one preview per
/// rendered surface, in surface order, each related to its surface by the
/// surface-render law; unrendered surfaces untouched; and the device
/// buffers exactly the fold of scattering every rendered surface's frame.
pub open spec fn spec_tick_render_ok(
    pre: Seq<ActiveVirtual>,
    post: Seq<ActiveVirtual>,
    melbanks: Seq<u16>,
    pv: Seq<(String, Vec<u8>)>,
    bufs: Seq<(String, Vec<u8>)>,
    devices: Seq<Device>,
) -> bool {
    &&& post.len() == pre.len()
    &&& pv.len() == spec_preview_count(pre, pre.len() as int)
    &&& forall|k: int|
        0 <= k < pre.len() && spec_rendered(#[trigger] pre[k]) ==> pv[spec_preview_count(
            pre,
            k,
        )].0@ == pre[k].config.id@ && spec_surface_render(
            pre[k],
            post[k],
            melbanks,
            pv[spec_preview_count(pre, k)].1@,
        )
    &&& forall|k: int|
        0 <= k < pre.len() && !spec_rendered(#[trigger] pre[k]) ==> post[k] == pre[k]
    &&& spec_buffers_view(bufs) == spec_tick_buffers(
        devices,
        pre,
        spec_frames_of(pv),
        pre.len() as int,
    )
}

/// What one unpaused tick emits: the per-device pixel buffers, their wire
/// datagrams, and the per-surface preview frames.
pub struct TickOutcome {
    pub device_frames: Vec<(String, Vec<u8>)>,
    pub datagrams: Vec<(String, Vec<DdpDatagram>)>,
    pub previews: Option<Vec<(String, Vec<u8>)>>,
}

/// Runs the render phase of one tick.  A paused engine changes nothing and
/// emits nothing, not even an empty tick notice.  An unpaused engine steps
/// the frame counter, renders every surface with a bound effect (a surface
/// too large for the transport to address is skipped), scatters the frames
/// into one buffer per touched device, and packetises each buffer for the
/// wire under the sequence number of the frame the counter named when the
/// tick began.
pub fn tick(e: &mut Engine, audio: &AudioAnalysisData) -> (out: TickOutcome)
    ensures
        final(e).devices == old(e).devices,
        final(e).dsp_settings == old(e).dsp_settings,
        final(e).effect_presets == old(e).effect_presets,
        final(e).scenes == old(e).scenes,
        final(e).api_port == old(e).api_port,
        final(e).is_paused == old(e).is_paused,
        final(e).target_fps == old(e).target_fps,
        old(e).is_paused ==> *final(e) == *old(e) && out.previews is None
            && out.device_frames@.len() == 0 && out.datagrams@.len() == 0,
        !old(e).is_paused ==> ({
            &&& final(e).frame_counter == (old(e).frame_counter + 1) % 256
            &&& out.previews is Some
            &&& buffers_wf(out.device_frames@, old(e).devices@)
            &&& out.datagrams@.len() == out.device_frames@.len()
            &&& forall|i: int|
                0 <= i < out.datagrams@.len() ==> (#[trigger] out.datagrams@[i]).0@
                    == out.device_frames@[i].0@ && is_packetization(
                    0,
                    out.device_frames@[i].1@,
                    old(e).frame_counter,
                    out.datagrams@[i].1@,
                )
            &&& final(e).virtuals@.len() == old(e).virtuals@.len()
            &&& forall|k: int|
                0 <= k < old(e).virtuals@.len() ==> (#[trigger] final(e).virtuals@[k]).config
                    == old(e).virtuals@[k].config && final(e).virtuals@[k].pixel_count == old(
                    e,
                ).virtuals@[k].pixel_count
            &&& (out.previews matches Some(pv) && spec_tick_render_ok(
                old(e).virtuals@,
                final(e).virtuals@,
                audio.melbanks@,
                pv@,
                out.device_frames@,
                old(e).devices@,
            ))
        }),
{
    if e.is_paused {
        return TickOutcome {
            device_frames: Vec::new(),
            datagrams: Vec::new(),
            previews: None,
        };
    }
    let fc = e.frame_counter;
    e.frame_counter = if e.frame_counter == 255 {
        0
    } else {
        e.frame_counter + 1
    };
    let mut buffers: Vec<(String, Vec<u8>)> = Vec::new();
    let mut previews: Vec<(String, Vec<u8>)> = Vec::new();
    let mut k: usize = 0;
    while k < e.virtuals.len()
        invariant
            k <= e.virtuals@.len(),
            buffers_wf(buffers@, e.devices@),
            e.devices == old(e).devices,
            e.dsp_settings == old(e).dsp_settings,
            e.effect_presets == old(e).effect_presets,
            e.scenes == old(e).scenes,
            e.api_port == old(e).api_port,
            e.is_paused == old(e).is_paused,
            e.target_fps == old(e).target_fps,
            e.frame_counter == (old(e).frame_counter + 1) % 256,
            fc == old(e).frame_counter,
            e.virtuals@.len() == old(e).virtuals@.len(),
            forall|t: int|
                0 <= t < old(e).virtuals@.len() ==> (#[trigger] e.virtuals@[t]).config == old(
                    e,
                ).virtuals@[t].config && e.virtuals@[t].pixel_count == old(
                    e,
                ).virtuals@[t].pixel_count,
            forall|t: int|
                (k as int) <= t < old(e).virtuals@.len() ==> (#[trigger] e.virtuals@[t]) == old(
                    e,
                ).virtuals@[t],
            previews@.len() == spec_preview_count(old(e).virtuals@, k as int),
            forall|t: int|
                0 <= t < k && spec_rendered(#[trigger] old(e).virtuals@[t]) ==> previews@[
                spec_preview_count(old(e).virtuals@, t)].0@ == old(e).virtuals@[t].config.id@
                    && spec_surface_render(
                    old(e).virtuals@[t],
                    e.virtuals@[t],
                    audio.melbanks@,
                    previews@[spec_preview_count(old(e).virtuals@, t)].1@,
                ),
            forall|t: int|
                0 <= t < k && !spec_rendered(#[trigger] old(e).virtuals@[t]) ==> e.virtuals@[t]
                    == old(e).virtuals@[t],
            spec_buffers_view(buffers@) == spec_tick_buffers(
                old(e).devices@,
                old(e).virtuals@,
                spec_frames_of(previews@),
                k as int,
            ),
        decreases e.virtuals@.len() - k,
    {
        let ghost prev = e.virtuals@;
        let ghost pre_v = old(e).virtuals@;
        let ghost pv_pre = previews@;
        let ghost bv_pre = spec_buffers_view(buffers@);
        proof {
            lemma_preview_count_le(pre_v, k as int);
        }
        let mut av = e.virtuals.remove(k);
        proof {
            assert(av == pre_v[k as int]);
        }
        let ghost av0 = av;
        if av.pixel_count <= MAX_PIXELS {
            let rendered = render_virtual(&mut av, audio);
            match rendered {
                Some(frame) => {
                    scatter_frame(&mut buffers, &e.devices, &av.config, &frame);
                    previews.push((av.config.id.clone(), frame));
                    proof {
                        assert(spec_rendered(pre_v[k as int]));
                        assert(av.config == av0.config);
                    }
                },
                None => {
                    proof {
                        assert(!spec_rendered(pre_v[k as int]));
                        assert(av == av0);
                    }
                },
            }
        } else {
            proof {
                assert(!spec_rendered(pre_v[k as int]));
            }
        }
        e.virtuals.insert(k, av);
        proof {
            assert(e.virtuals@ =~= prev.update(k as int, e.virtuals@[k as int]));
            let cnt = spec_preview_count(pre_v, k as int);
            lemma_preview_count_le(pre_v, k + 1);
            assert forall|t: int|
                0 <= t < k + 1 && spec_rendered(#[trigger] pre_v[t]) implies previews@[
            spec_preview_count(pre_v, t)].0@ == pre_v[t].config.id@ && spec_surface_render(
                pre_v[t],
                e.virtuals@[t],
                audio.melbanks@,
                previews@[spec_preview_count(pre_v, t)].1@,
            ) by {
                lemma_preview_count_le(pre_v, t);
                if t < k {
                    assert(spec_preview_count(pre_v, t + 1) == spec_preview_count(pre_v, t) + 1);
                    assert(spec_preview_count(pre_v, t) < cnt) by {
                        assert(spec_preview_count(pre_v, t + 1) <= cnt);
                    }
                    assert(previews@[spec_preview_count(pre_v, t)] == pv_pre[spec_preview_count(
                        pre_v,
                        t,
                    )]);
                    assert(e.virtuals@[t] == prev[t]);
                } else {
                    assert(t == k);
                    assert(previews@[cnt].0@ == pre_v[k as int].config.id@);
                    assert(e.virtuals@[k as int] == av);
                }
            }
            if spec_rendered(pre_v[k as int]) {
                assert(spec_preview_count(pre_v, k + 1) == cnt + 1);
                assert(previews@ =~= pv_pre.push(previews@[cnt]));
                assert forall|j: int|
                    0 <= j < cnt implies #[trigger] spec_frames_of(previews@)[j] == spec_frames_of(
                    pv_pre,
                )[j] by {
                    assert(previews@[j] == pv_pre[j]);
                }
                lemma_tick_buffers_frames(
                    old(e).devices@,
                    pre_v,
                    spec_frames_of(previews@),
                    spec_frames_of(pv_pre),
                    k as int,
                );
                assert(spec_frames_of(previews@)[cnt] == previews@[cnt].1@);
                assert(spec_buffers_view(buffers@) == spec_tick_buffers(
                    old(e).devices@,
                    pre_v,
                    spec_frames_of(previews@),
                    k + 1,
                ));
            } else {
                assert(spec_preview_count(pre_v, k + 1) == cnt);
                assert(spec_buffers_view(buffers@) == spec_tick_buffers(
                    old(e).devices@,
                    pre_v,
                    spec_frames_of(previews@),
                    k + 1,
                ));
            }
        }
        k += 1;
    }
    proof {
        lemma_preview_count_le(old(e).virtuals@, old(e).virtuals@.len() as int);
    }
    let mut datagrams: Vec<(String, Vec<DdpDatagram>)> = Vec::new();
    let mut i: usize = 0;
    while i < buffers.len()
        invariant
            i <= buffers@.len(),
            buffers_wf(buffers@, e.devices@),
            datagrams@.len() == i,
            e.frame_counter == (old(e).frame_counter + 1) % 256,
            fc == old(e).frame_counter,
            forall|t: int|
                0 <= t < i ==> (#[trigger] datagrams@[t]).0@ == buffers@[t].0@
                    && is_packetization(
                    0,
                    buffers@[t].1@,
                    fc,
                    datagrams@[t].1@,
                ),
        decreases buffers@.len() - i,
    {
        let (ip, buf) = &buffers[i];
        let pkts = packetize(0, buf, fc);
        datagrams.push((ip.clone(), pkts));
        i += 1;
    }
    TickOutcome { device_frames: buffers, datagrams, previews: Some(previews) }
}

} // verus!
