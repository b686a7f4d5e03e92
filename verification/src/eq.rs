//! The ten-band equalizer, but for its arithmetic: the gain table, which bands have changed, and
//! where in a frame the next sample stands.
//!
//! A gain is carried as the 32 bits of its number of decibels.

use vstd::prelude::*;

verus! {

pub const BAND_COUNT: usize = 10;

/// The bits of 12.0, the greatest gain.
pub const MAX_GAIN_BITS: u32 = 0x4140_0000;

/// The bits of a number without its sign.
pub const MAGNITUDE: u32 = 0x7fff_ffff;

/// The sign of a number.
pub const SIGN: u32 = 0x8000_0000;

/// The bits of infinity: of those without a sign, what is greater is no number.
pub const INFINITY_BITS: u32 = 0x7f80_0000;

/// How often (in frames) the equalizer looks whether a gain changed.
pub const GAIN_CHECK_INTERVAL: u32 = 64;

/// The bits of a number without its sign.
pub open spec fn magnitude(bits: u32) -> u32 {
    bits & MAGNITUDE
}

/// The bits are no number.
pub open spec fn is_nan(bits: u32) -> bool {
    magnitude(bits) > INFINITY_BITS
}

/// A gain no louder and no softer than 12 dB; what is no number stays as it is. Numbers of one
/// sign are in the order of their bits.
pub open spec fn clamped(bits: u32) -> u32 {
    if is_nan(bits) || magnitude(bits) <= MAX_GAIN_BITS {
        bits
    } else {
        (bits & SIGN) | MAX_GAIN_BITS
    }
}

/// Two gains are the same number. What is no number is not even itself, and zero has no sign.
pub open spec fn same_number(a: u32, b: u32) -> bool {
    !is_nan(a) && !is_nan(b) && (a == b || (magnitude(a) == 0 && magnitude(b) == 0))
}

pub fn clamp_gain(bits: u32) -> (r: u32)
    ensures
        r == clamped(bits),
{
    let m: u32 = bits & MAGNITUDE;
    if m > INFINITY_BITS || m <= MAX_GAIN_BITS {
        bits
    } else {
        (bits & SIGN) | MAX_GAIN_BITS
    }
}

pub fn is_same_gain(a: u32, b: u32) -> (r: bool)
    ensures
        r == same_number(a, b),
{
    let x: u32 = a & MAGNITUDE;
    let y: u32 = b & MAGNITUDE;
    x <= INFINITY_BITS && y <= INFINITY_BITS && (a == b || (x == 0 && y == 0))
}

/// No gain that is a number is past 12 dB after it was clamped, its sign stays, and clamping it
/// again changes nothing.
pub proof fn a_clamped_gain_is_bounded(bits: u32)
    ensures
        !is_nan(bits) ==> magnitude(clamped(bits)) <= MAX_GAIN_BITS,
        clamped(bits) & SIGN == bits & SIGN,
        clamped(clamped(bits)) == clamped(bits),
{
    assert(((bits & 0x8000_0000) | 0x4140_0000) & 0x7fff_ffff == 0x4140_0000u32) by (bit_vector);
    assert(((bits & 0x8000_0000) | 0x4140_0000) & 0x8000_0000 == bits & 0x8000_0000u32)
        by (bit_vector);
}

/// The gain table.
#[derive(Debug, Clone, PartialEq, Eq)]
pub struct EqGains {
    pub gains: Vec<u32>,
}

impl EqGains {
    /// One gain for each band.
    pub open spec fn wf(&self) -> bool {
        self.gains@.len() == BAND_COUNT
    }

    /// Sets the gain of a band, clamped; a band that is none is passed over.
    pub fn set(&mut self, band: usize, gain: u32)
        requires
            old(self).wf(),
        ensures
            final(self).wf(),
            final(self).gains@ == (if band < BAND_COUNT {
                old(self).gains@.update(band as int, clamped(gain))
            } else {
                old(self).gains@
            }),
            band < 10 && -0x4140_0000 <= place(gain) <= 0x4140_0000 ==> final(self).gains@[band as int]
                == gain,
            forall|b: int|
                0 <= b < 10 && b != band ==> #[trigger] final(self).gains@[b] == old(self).gains@[b],
    {
        proof {
            a_gain_is_held_within_twelve(gain);
        }
        if band < BAND_COUNT {
            self.gains.set(band, clamp_gain(gain));
        }
    }

    pub fn get(&self, band: usize) -> (gain: u32)
        requires
            self.wf(),
            band < BAND_COUNT,
        ensures
            gain == self.gains@[band as int],
    {
        self.gains[band]
    }

    /// The gains of all bands.
    pub fn snapshot(&self) -> (all: Vec<u32>)
        ensures
            all@ == self.gains@,
    {
        let mut all: Vec<u32> = Vec::new();
        let mut i: usize = 0;
        while i < self.gains.len()
            invariant
                i <= self.gains.len(),
                all@ == self.gains@.take(i as int),
            decreases self.gains.len() - i,
        {
            all.push(self.gains[i]);
            assert(self.gains@.take(i + 1) =~= self.gains@.take(i as int).push(
                self.gains@[i as int],
            ));
            i = i + 1;
        }
        assert(self.gains@.take(self.gains@.len() as int) =~= self.gains@);
        all
    }
}

impl Default for EqGains {
    /// Every band at nothing.
    fn default() -> (g: EqGains)
        ensures
            g.wf(),
            forall|i: int| 0 <= i < BAND_COUNT ==> #[trigger] g.gains@[i] == 0,
    {
        let mut gains: Vec<u32> = Vec::new();
        let mut i: usize = 0;
        while i < BAND_COUNT
            invariant
                i <= BAND_COUNT,
                gains@.len() == i,
                forall|k: int| 0 <= k < i ==> #[trigger] gains@[k] == 0,
            decreases BAND_COUNT - i,
        {
            gains.push(0);
            i = i + 1;
        }
        EqGains { gains }
    }
}

/// The bands whose gain is not the one that was applied, in order.
pub fn changed_bands(applied: &Vec<u32>, gains: &Vec<u32>) -> (bands: Vec<usize>)
    requires
        applied@.len() == gains@.len(),
    ensures
        forall|b: usize|
            #[trigger] bands@.contains(b) <==> b < gains@.len() && !same_number(
                gains@[b as int],
                applied@[b as int],
            ),
        forall|i: int, j: int| 0 <= i < j < bands@.len() ==> #[trigger] bands@[i] < #[trigger] bands@[j],
{
    let mut bands: Vec<usize> = Vec::new();
    let mut b: usize = 0;
    while b < gains.len()
        invariant
            b <= gains.len(),
            applied@.len() == gains@.len(),
            forall|k: usize|
                #[trigger] bands@.contains(k) <==> k < b && !same_number(
                    gains@[k as int],
                    applied@[k as int],
                ),
            forall|i: int| 0 <= i < bands@.len() ==> #[trigger] bands@[i] < b,
            forall|i: int, j: int|
                0 <= i < j < bands@.len() ==> #[trigger] bands@[i] < #[trigger] bands@[j],
        decreases gains.len() - b,
    {
        let ghost before = bands@;
        if !is_same_gain(gains[b], applied[b]) {
            bands.push(b);
            proof {
                assert(bands@[before.len() as int] == b);
                assert forall|k: usize| #[trigger] bands@.contains(k) <==> k < b + 1 && !same_number(
                    gains@[k as int],
                    applied@[k as int],
                ) by {
                    if before.contains(k) {
                        let x = choose|x: int| 0 <= x < before.len() && before[x] == k;
                        assert(bands@[x] == k);
                    }
                    if bands@.contains(k) && k != b {
                        let x = choose|x: int| 0 <= x < bands@.len() && bands@[x] == k;
                        assert(before[x] == k);
                    }
                }
            }
        }
        b = b + 1;
    }
    bands
}

/// Where in a frame the next sample stands, and when the gains were last looked at.
#[derive(Debug, Clone, Copy, PartialEq, Eq, Structural)]
pub struct FrameCursor {
    pub sample_rate: u32,
    pub channels: u16,
    pub channel: u16,
    pub frames_since_check: u32,
}

/// What to do with a sample.
#[derive(Debug, Clone, Copy, PartialEq, Eq, Structural)]
pub struct EqStep {
    /// Make every filter anew first: the format has changed.
    pub rebuild: bool,
    /// Take over the gains that have changed first, keeping the filters' state.
    pub refresh: bool,
    /// The channel whose filters the sample goes through.
    pub channel: u16,
}

/// The cursor and the step for a sample of a source in this format. A change of format is only
/// seen at the beginning of a frame, and so is a change of gain, every so many frames.
pub open spec fn stepped(c: FrameCursor, sample_rate: u32, channels: u16) -> (FrameCursor, EqStep) {
    let at_start = c.channel == 0;
    let rebuild = at_start && (sample_rate != c.sample_rate || channels != c.channels);
    let frames = if rebuild {
        1
    } else if at_start {
        c.frames_since_check + 1
    } else {
        c.frames_since_check as int
    };
    let refresh = at_start && frames >= GAIN_CHECK_INTERVAL;
    let width = if rebuild {
        channels
    } else {
        c.channels
    };
    (
        FrameCursor {
            sample_rate: if rebuild {
                sample_rate
            } else {
                c.sample_rate
            },
            channels: width,
            channel: if c.channel + 1 >= width {
                0
            } else {
                (c.channel + 1) as u16
            },
            frames_since_check: if refresh {
                0
            } else {
                frames as u32
            },
        },
        EqStep { rebuild, refresh, channel: c.channel },
    )
}

impl FrameCursor {
    /// The cursor is within the frame.
    pub open spec fn wf(&self) -> bool {
        self.channel < self.channels && self.frames_since_check < GAIN_CHECK_INTERVAL
    }

    pub fn new(sample_rate: u32, channels: u16) -> (c: FrameCursor)
        requires
            channels > 0,
        ensures
            c.wf(),
            c == (FrameCursor { sample_rate, channels, channel: 0, frames_since_check: 0 }),
    {
        FrameCursor { sample_rate, channels, channel: 0, frames_since_check: 0 }
    }

    /// The step for one more sample of a source that is in this format now.
    pub fn step(&mut self, sample_rate: u32, channels: u16) -> (s: EqStep)
        requires
            old(self).wf(),
            channels > 0,
        ensures
            final(self).wf(),
            (*final(self), s) == stepped(*old(self), sample_rate, channels),
            s.channel < final(self).channels,
    {
        let mut rebuild = false;
        let mut refresh = false;
        if self.channel == 0 {
            if sample_rate != self.sample_rate || channels != self.channels {
                self.sample_rate = sample_rate;
                self.channels = channels;
                self.frames_since_check = 0;
                rebuild = true;
            }
            self.frames_since_check = self.frames_since_check + 1;
            if self.frames_since_check >= GAIN_CHECK_INTERVAL {
                self.frames_since_check = 0;
                refresh = true;
            }
        }
        let channel: u16 = self.channel;
        if self.channel >= self.channels - 1 {
            self.channel = 0;
        } else {
            self.channel = self.channel + 1;
        }
        EqStep { rebuild, refresh, channel }
    }
}

// ---------------------------------------------------------------------------------------------
// What the gains and the cursor mean

/// Where a number stands among the numbers: as far from zero as its bits without the sign say,
/// above it or below.
pub open spec fn place(bits: u32) -> int {
    if bits < 0x8000_0000 {
        bits as int
    } else {
        0x8000_0000 - bits
    }
}

/// A gain from -12 dB to 12 dB is taken as it is, whatever its sign; one above becomes 12 dB, one
/// below -12 dB; and what is no number stays as it is.
pub proof fn a_gain_is_held_within_twelve(bits: u32)
    ensures
        -0x4140_0000 <= place(bits) <= 0x4140_0000 ==> clamped(bits) == bits,
        0x4140_0000 < place(bits) <= 0x7f80_0000 ==> clamped(bits) == 0x4140_0000,
        -0x7f80_0000 <= place(bits) < -0x4140_0000 ==> clamped(bits) == 0xc140_0000,
        place(bits) < -0x7f80_0000 || place(bits) > 0x7f80_0000 ==> clamped(bits) == bits,
{
    assert(bits < 0x8000_0000 ==> bits & 0x7fff_ffff == bits && bits & 0x8000_0000 == 0)
        by (bit_vector);
    assert(bits >= 0x8000_0000 ==> bits & 0x7fff_ffff == bits - 0x8000_0000 && bits & 0x8000_0000
        == 0x8000_0000) by (bit_vector);
    assert(0u32 | 0x4140_0000 == 0x4140_0000 && 0x8000_0000u32 | 0x4140_0000 == 0xc140_0000)
        by (bit_vector);
}

/// A louder setting never gives a softer gain.
pub proof fn clamping_keeps_the_order(a: u32, b: u32)
    requires
        -0x7f80_0000 <= place(a) <= place(b) <= 0x7f80_0000,
    ensures
        -0x4140_0000 <= place(clamped(a)) <= place(clamped(b)) <= 0x4140_0000,
{
    a_gain_is_held_within_twelve(a);
    a_gain_is_held_within_twelve(b);
}

/// Two gains are the same exactly when both are numbers and stand at one place.
pub proof fn the_same_gain_stands_at_one_place(a: u32, b: u32)
    ensures
        same_number(a, b) <==> -0x7f80_0000 <= place(a) <= 0x7f80_0000 && place(a) == place(b),
{
    assert(a < 0x8000_0000 ==> a & 0x7fff_ffff == a) by (bit_vector);
    assert(a >= 0x8000_0000 ==> a & 0x7fff_ffff == a - 0x8000_0000) by (bit_vector);
    assert(b < 0x8000_0000 ==> b & 0x7fff_ffff == b) by (bit_vector);
    assert(b >= 0x8000_0000 ==> b & 0x7fff_ffff == b - 0x8000_0000) by (bit_vector);
}

/// The cursor after `n` samples of a source whose format stays the same.
pub open spec fn after_samples(c: FrameCursor, n: nat) -> FrameCursor
    decreases n,
{
    if n == 0 {
        c
    } else {
        let before = after_samples(c, (n - 1) as nat);
        stepped(before, before.sample_rate, before.channels).0
    }
}

/// While the format stays the same, the samples go through the filters of the channels in turn,
/// the filters are never made anew, and the gains are looked at on the first sample of every
/// sixty-fourth frame.
pub proof fn samples_go_round_the_channels(c: FrameCursor, n: nat)
    requires
        c.channels > 0,
        c.channel == 0,
        c.frames_since_check == 0,
    ensures
        ({
            let at = after_samples(c, n);
            let step = stepped(at, c.sample_rate, c.channels).1;
            let frame = n as int / c.channels as int;
            &&& at.sample_rate == c.sample_rate && at.channels == c.channels
            &&& step.channel == n % c.channels as nat
            &&& !step.rebuild
            &&& step.refresh <==> n % c.channels as nat == 0 && (frame + 1) % 64 == 0
        }),
{
    cursor_after_samples(c, n);
    let w = c.channels as int;
    let frame = n as int / w;
    vstd::arithmetic::div_mod::lemma_fundamental_div_mod(n as int, w);
    let f = frame % 64;
    assert((frame + 1) % 64 == 0 <==> f == 63);
}

/// After `n` samples the cursor stands at the remainder of the frame, and has counted the frames
/// begun since the last look.
proof fn cursor_after_samples(c: FrameCursor, n: nat)
    requires
        c.channels > 0,
        c.channel == 0,
        c.frames_since_check == 0,
    ensures
        ({
            let at = after_samples(c, n);
            let w = c.channels as int;
            let begun = if n as int % w == 0 {
                n as int / w
            } else {
                n as int / w + 1
            };
            &&& at.sample_rate == c.sample_rate && at.channels == c.channels
            &&& at.channel == n as int % w
            &&& at.frames_since_check == begun % 64
        }),
    decreases n,
{
    let w = c.channels as int;
    if n > 0 {
        let m = n - 1;
        cursor_after_samples(c, m as nat);
        let (q, r) = (m / w, m % w);
        vstd::arithmetic::div_mod::lemma_fundamental_div_mod(m, w);
        vstd::arithmetic::div_mod::lemma_mod_bound(m, w);
        if r + 1 < w {
            vstd::arithmetic::div_mod::lemma_fundamental_div_mod_converse(n as int, w, q, r + 1);
        } else {
            assert(w * (q + 1) == w * q + w) by (nonlinear_arith);
            vstd::arithmetic::div_mod::lemma_fundamental_div_mod_converse(n as int, w, q + 1, 0);
        }
    } else {
        assert(0int % w == 0 && 0int / w == 0) by (nonlinear_arith)
            requires
                w > 0,
        ;
    }
}

/// A change of format is taken over at the first sample of a frame, and at no other.
pub proof fn a_format_changes_between_frames(c: FrameCursor, sample_rate: u32, channels: u16)
    requires
        c.wf(),
        channels > 0,
    ensures
        ({
            let (next, step) = stepped(c, sample_rate, channels);
            &&& step.rebuild <==> c.channel == 0 && (sample_rate != c.sample_rate || channels
                != c.channels)
            &&& c.channel == 0 ==> next.sample_rate == sample_rate && next.channels == channels
            &&& c.channel > 0 ==> next.sample_rate == c.sample_rate && next.channels == c.channels
            &&& step.channel == c.channel
            &&& c.channel > 0 ==> !step.refresh
            &&& step.rebuild ==> !step.refresh && next.frames_since_check == 1
        }),
{
}

} // verus!
