//! Signal-chain vocabulary (modulation, channel status, the gain
//! controller and dispersion canceller types) and the bin bookkeeping of the
//! spur notch filter.
use vstd::prelude::*;

verus! {

/// The modulation a tracker expects on the carrier.
#[derive(Clone, Copy, Debug, PartialEq, Eq, Structural)]
pub enum Modulation {
    Carrier,
    Bpsk,
    Qpsk,
}

impl Default for Modulation {
    fn default() -> (r: Self)
        ensures
            r == Modulation::Carrier,
    {
        Modulation::Carrier
    }
}

/// The state of one demodulation channel.
#[derive(Clone, Copy, Debug, PartialEq, Eq, Structural)]
pub enum ChannelStatus {
    Idle,
    Acquisition,
    Locked,
    Fade,
}

/// Gain control of the receiver's LNA, VGA and RF amplifier; its
/// floating-point measurements live with the receiver code.
pub struct AbsolutePowerGainController;

/// Two-frequency cancellation of the ionospheric term of Doppler shifts; a
/// floating-point formula that lives with the receiver code.
pub struct AppletonHartreeDispersion;

/// Removal of stationary spurs from a magnitude spectrum while guarding the
/// bins around the tracked carrier.
pub struct EnvelopeWaveletSpurCanceller;

/// `n` is a power of two.
pub open spec fn is_pow2(n: nat) -> bool
    decreases n,
{
    if n == 0 {
        false
    } else if n == 1 {
        true
    } else {
        n % 2 == 0 && is_pow2(n / 2)
    }
}

/// The distance between two bins of an `n`-bin spectrum, going round the
/// shorter way.
pub open spec fn circular_distance(a: int, b: int, n: int) -> int {
    let d = (a - b) % n;
    if d <= n - d {
        d
    } else {
        n - d
    }
}

/// The number of bins on each side of the carrier that the notch leaves
/// alone: three, plus the chirp's sweep width up to ten.
pub open spec fn guard_width_spec(sweep_width: nat) -> nat {
    3 + if sweep_width < 10 {
        sweep_width
    } else {
        10
    }
}

/// The spike bins that lie outside the carrier's guard band.
pub open spec fn bins_outside_guard(spikes: Seq<usize>, carrier: int, guard: nat, n: int) -> Seq<usize>
    decreases spikes.len(),
{
    if spikes.len() == 0 {
        seq![]
    } else {
        let rest = bins_outside_guard(spikes.drop_last(), carrier, guard, n);
        if circular_distance(spikes.last() as int, carrier, n) > guard {
            rest.push(spikes.last())
        } else {
            rest
        }
    }
}

/// The spectrum after replacing the given bins by their background level.
pub open spec fn notched<T>(mags: Seq<T>, background: Seq<T>, bins: Seq<usize>) -> Seq<T>
    decreases bins.len(),
{
    if bins.len() == 0 {
        mags
    } else {
        let m = notched(mags, background, bins.drop_last());
        let b = bins.last() as int;
        m.update(b, background[b])
    }
}

/// A UTC instant: whole seconds since the Unix epoch and the nanoseconds
/// past them.
#[derive(Clone, Copy, Debug, PartialEq, Eq)]
pub struct UtcInstant {
    pub secs: i64,
    pub nanos: u32,
}

/// Nanoseconds since the epoch.
pub open spec fn instant_nanos(t: UtcInstant) -> int {
    t.secs * 1_000_000_000 + t.nanos
}

/// The whole seconds in `a - b`, truncated toward zero.
pub open spec fn whole_seconds_between(a: UtcInstant, b: UtcInstant) -> int {
    let d = instant_nanos(a) - instant_nanos(b);
    if d >= 0 {
        d / 1_000_000_000
    } else {
        -((-d) / 1_000_000_000)
    }
}

/// The whole seconds in `a - b`, truncated toward zero.
pub fn seconds_between(a: UtcInstant, b: UtcInstant) -> (r: i64)
    requires
        a.nanos < 1_000_000_000,
        b.nanos < 1_000_000_000,
        -0x1_0000_0000_0000 < a.secs < 0x1_0000_0000_0000,
        -0x1_0000_0000_0000 < b.secs < 0x1_0000_0000_0000,
    ensures
        r == whole_seconds_between(a, b),
{
    let x: i128 = a.secs as i128 * 1_000_000_000 + a.nanos as i128;
    let y: i128 = b.secs as i128 * 1_000_000_000 + b.nanos as i128;
    let d: i128 = x - y;
    let whole: i128 = if d >= 0 {
        d / 1_000_000_000
    } else {
        -((-d) / 1_000_000_000)
    };
    whole as i64
}

impl EnvelopeWaveletSpurCanceller {
    /// Whether an observation lies within thirty whole seconds of the
    /// point of closest approach, on either side.
    pub fn check_pca_epoch_guard(t_obs: UtcInstant, pca_time: UtcInstant) -> (r: bool)
        requires
            t_obs.nanos < 1_000_000_000,
            pca_time.nanos < 1_000_000_000,
            -0x1_0000_0000_0000 < t_obs.secs < 0x1_0000_0000_0000,
            -0x1_0000_0000_0000 < pca_time.secs < 0x1_0000_0000_0000,
        ensures
            r == (-30 <= whole_seconds_between(t_obs, pca_time) <= 30),
    {
        let whole = seconds_between(t_obs, pca_time);
        -30 <= whole && whole <= 30
    }

    /// Whether a spectrum of `n` bins has a power-of-two size, which the
    /// spur detector needs.
    pub fn is_power_of_two_len(n: usize) -> (r: bool)
        ensures
            r == is_pow2(n as nat),
    {
        if n == 0 {
            return false;
        }
        let mut m = n;
        while m > 1
            invariant
                m >= 1,
                is_pow2(n as nat) == is_pow2(m as nat),
            decreases m,
        {
            if m % 2 != 0 {
                return false;
            }
            m = m / 2;
        }
        true
    }

    /// The bin of the carrier in an `n`-bin spectrum, for a rounded bin
    /// number that may fall outside `0..n`.
    pub fn wrap_bin(bin: i64, n: usize) -> (r: usize)
        requires
            0 < n <= i64::MAX,
        ensures
            r as int == bin as int % n as int,
    {
        let m = n as u64;
        if bin >= 0 {
            let u = bin as u64;
            (u % m) as usize
        } else {
            let x = (-(bin + 1)) as u64;
            let r = x % m;
            proof {
                let q = x as int / m as int;
                vstd::arithmetic::div_mod::lemma_fundamental_div_mod(x as int, m as int);
                assert(bin as int == (-q - 1) * (m as int) + (m as int - 1 - r as int)) by (nonlinear_arith)
                    requires
                        bin as int == -(x as int) - 1,
                        x as int == m as int * q + r as int,
                ;
                vstd::arithmetic::div_mod::lemma_fundamental_div_mod_converse_mod(
                    bin as int,
                    m as int,
                    -q - 1,
                    m as int - 1 - r as int,
                );
            }
            (m - 1 - r) as usize
        }
    }

    /// The guard half-width around the carrier for a chirp sweep width.
    pub fn guard_width(sweep_width: usize) -> (r: usize)
        ensures
            r == guard_width_spec(sweep_width as nat),
    {
        3 + if sweep_width < 10 {
            sweep_width
        } else {
            10
        }
    }

    /// The circular distance between bins `a` and `b` of an `n`-bin spectrum.
    pub fn circular_bin_distance(a: usize, b: usize, n: usize) -> (r: usize)
        requires
            a < n,
            b < n,
        ensures
            r == circular_distance(a as int, b as int, n as int),
    {
        let d = if a >= b {
            a - b
        } else {
            n - (b - a)
        };
        proof {
            if a >= b {
                vstd::arithmetic::div_mod::lemma_fundamental_div_mod_converse_mod(
                    a as int - b as int,
                    n as int,
                    0,
                    d as int,
                );
            } else {
                vstd::arithmetic::div_mod::lemma_fundamental_div_mod_converse_mod(
                    a as int - b as int,
                    n as int,
                    -1,
                    d as int,
                );
            }
        }
        if d <= n - d {
            d
        } else {
            n - d
        }
    }

    /// Replaces every spike bin outside the carrier's guard band by the
    /// background level of that bin; spikes within `guard` bins of the
    /// carrier (circularly) are left alone. Returns the bins replaced.
    pub fn notch_bins<T: Copy>(
        mags: &mut Vec<T>,
        background: &Vec<T>,
        spikes: &Vec<usize>,
        carrier_bin: usize,
        guard: usize,
    ) -> (notched_bins: Vec<usize>)
        requires
            old(mags)@.len() == background@.len(),
            carrier_bin < old(mags)@.len(),
            forall|k: int| 0 <= k < spikes@.len() ==> #[trigger] spikes@[k] < old(mags)@.len(),
        ensures
            notched_bins@ == bins_outside_guard(
                spikes@,
                carrier_bin as int,
                guard as nat,
                old(mags)@.len() as int,
            ),
            final(mags)@ == notched(old(mags)@, background@, notched_bins@),
            forall|i: int|
                0 <= i < old(mags)@.len() ==> #[trigger] final(mags)@[i] == if notched_bins@.contains(
                    i as usize,
                ) {
                    background@[i]
                } else {
                    old(mags)@[i]
                },
            forall|b: usize|
                #[trigger] notched_bins@.contains(b) <==> (spikes@.contains(b) && circular_distance(
                    b as int,
                    carrier_bin as int,
                    old(mags)@.len() as int,
                ) > guard),
    {
        let n = mags.len();
        let mut out: Vec<usize> = Vec::new();
        let mut k: usize = 0;
        while k < spikes.len()
            invariant
                k <= spikes@.len(),
                n == mags@.len(),
                n == old(mags)@.len(),
                n == background@.len(),
                carrier_bin < n,
                forall|q: int| 0 <= q < spikes@.len() ==> #[trigger] spikes@[q] < n,
                out@ == bins_outside_guard(
                    spikes@.take(k as int),
                    carrier_bin as int,
                    guard as nat,
                    n as int,
                ),
                mags@ == notched(old(mags)@, background@, out@),
            decreases spikes.len() - k,
        {
            proof {
                assert(spikes@.take(k + 1).drop_last() =~= spikes@.take(k as int));
            }
            let s = spikes[k];
            let d = Self::circular_bin_distance(s, carrier_bin, n);
            if d > guard {
                let ghost before = out@;
                out.push(s);
                assert(out@.drop_last() =~= before);
                let v = background[s];
                mags.set(s, v);
            }
            k = k + 1;
        }
        assert(spikes@.take(spikes@.len() as int) =~= spikes@);
        proof {
            law_notched_bins_outside_guard(spikes@, carrier_bin as int, guard as nat, n as int);
            assert forall|k: int| 0 <= k < out@.len() implies #[trigger] out@[k] < n by {
                assert(out@.contains(out@[k]));
            }
            law_notched_bins_take_own_background(old(mags)@, background@, out@);
        }
        out
    }
}

/// Notching replaces each listed bin by its own background level and
/// leaves every other bin as it was.
pub proof fn law_notched_bins_take_own_background<T>(
    mags: Seq<T>,
    background: Seq<T>,
    bins: Seq<usize>,
)
    requires
        mags.len() == background.len(),
        mags.len() <= usize::MAX,
        forall|k: int| 0 <= k < bins.len() ==> #[trigger] bins[k] < mags.len(),
    ensures
        notched(mags, background, bins).len() == mags.len(),
        forall|i: int|
            0 <= i < mags.len() ==> #[trigger] notched(mags, background, bins)[i] == if bins.contains(
                i as usize,
            ) {
                background[i]
            } else {
                mags[i]
            },
    decreases bins.len(),
{
    if bins.len() > 0 {
        let rest = bins.drop_last();
        law_notched_bins_take_own_background(mags, background, rest);
        assert forall|i: int| 0 <= i < mags.len() implies #[trigger] notched(
            mags,
            background,
            bins,
        )[i] == if bins.contains(i as usize) {
            background[i]
        } else {
            mags[i]
        } by {
            let m = notched(mags, background, rest);
            assert(notched(mags, background, bins) == m.update(bins.last() as int, background[bins.last() as int]));
            assert(m[i] == if rest.contains(i as usize) {
                background[i]
            } else {
                mags[i]
            });
            assert(bins.contains(i as usize) <==> (rest.contains(i as usize) || bins.last() == i as usize)) by {
                if bins.contains(i as usize) {
                    let j = choose|j: int| 0 <= j < bins.len() && bins[j] == i as usize;
                    if j < bins.len() - 1 {
                        assert(rest[j] == bins[j]);
                    }
                }
                if rest.contains(i as usize) {
                    let j = choose|j: int| 0 <= j < rest.len() && rest[j] == i as usize;
                    assert(bins[j] == rest[j]);
                }
            }
        }
    }
}

/// The bins notched are exactly the spikes farther than `guard` bins from
/// the carrier, going round the spectrum.
pub proof fn law_notched_bins_outside_guard(spikes: Seq<usize>, carrier: int, guard: nat, n: int)
    ensures
        forall|b: usize|
            #[trigger] bins_outside_guard(spikes, carrier, guard, n).contains(b) <==> (
            spikes.contains(b) && circular_distance(b as int, carrier, n) > guard),
    decreases spikes.len(),
{
    if spikes.len() > 0 {
        let rest = spikes.drop_last();
        law_notched_bins_outside_guard(rest, carrier, guard, n);
        let r = bins_outside_guard(rest, carrier, guard, n);
        assert forall|b: usize| #[trigger] bins_outside_guard(spikes, carrier, guard, n).contains(b)
            <==> (spikes.contains(b) && circular_distance(b as int, carrier, n) > guard) by {
            assert(spikes.contains(b) <==> (rest.contains(b) || spikes.last() == b)) by {
                if spikes.contains(b) {
                    let j = choose|j: int| 0 <= j < spikes.len() && spikes[j] == b;
                    if j < spikes.len() - 1 {
                        assert(rest[j] == spikes[j]);
                    }
                }
                if rest.contains(b) {
                    let j = choose|j: int| 0 <= j < rest.len() && rest[j] == b;
                    assert(spikes[j] == rest[j]);
                }
            }
            if circular_distance(spikes.last() as int, carrier, n) > guard {
                let r2 = r.push(spikes.last());
                assert(r2.contains(b) <==> (r.contains(b) || spikes.last() == b)) by {
                    if r2.contains(b) {
                        let j = choose|j: int| 0 <= j < r2.len() && r2[j] == b;
                        if j < r.len() {
                            assert(r[j] == r2[j]);
                        }
                    }
                    if r.contains(b) {
                        let j = choose|j: int| 0 <= j < r.len() && r[j] == b;
                        assert(r2[j] == r[j]);
                    }
                    if spikes.last() == b {
                        assert(r2[r.len() as int] == b);
                    }
                }
            }
        }
    }
}

/// The circular distance between two bins is symmetric, at most half the
/// spectrum, and is either the plain distance or the distance the other
/// way round.
pub proof fn law_circular_distance(a: int, b: int, n: int)
    requires
        0 <= a < n,
        0 <= b < n,
    ensures
        circular_distance(a, b, n) == circular_distance(b, a, n),
        0 <= circular_distance(a, b, n) <= n / 2,
        circular_distance(a, b, n) == (if a >= b { a - b } else { b - a }) || circular_distance(
            a,
            b,
            n,
        ) == n - (if a >= b { a - b } else { b - a }),
        circular_distance(a, b, n) <= (if a >= b { a - b } else { b - a }),
{
    if a >= b {
        vstd::arithmetic::div_mod::lemma_small_mod((a - b) as nat, n as nat);
        if a > b {
            vstd::arithmetic::div_mod::lemma_mod_add_multiples_vanish(b - a, n);
            vstd::arithmetic::div_mod::lemma_small_mod((n + (b - a)) as nat, n as nat);
        }
    } else {
        vstd::arithmetic::div_mod::lemma_small_mod((b - a) as nat, n as nat);
        vstd::arithmetic::div_mod::lemma_mod_add_multiples_vanish(a - b, n);
        vstd::arithmetic::div_mod::lemma_small_mod((n + (a - b)) as nat, n as nat);
    }
}

/// The whole seconds between two instants are their difference truncated
/// toward zero: within one second of it, never past it, with its sign, and
/// negated when the instants swap.
pub proof fn law_whole_seconds_truncate(a: UtcInstant, b: UtcInstant)
    ensures
        ({
            let d = instant_nanos(a) - instant_nanos(b);
            let w = whole_seconds_between(a, b);
            &&& d >= 0 ==> w * 1_000_000_000 <= d < (w + 1) * 1_000_000_000 && w >= 0
            &&& d < 0 ==> (w - 1) * 1_000_000_000 < d <= w * 1_000_000_000 && w <= 0
            &&& whole_seconds_between(b, a) == -w
        }),
{
    let d = instant_nanos(a) - instant_nanos(b);
    if d >= 0 {
        assert((d / 1_000_000_000) * 1_000_000_000 <= d) by (nonlinear_arith);
        assert(d < (d / 1_000_000_000 + 1) * 1_000_000_000) by (nonlinear_arith);
    } else {
        let e = -d;
        assert((e / 1_000_000_000) * 1_000_000_000 <= e) by (nonlinear_arith)
            requires e > 0;
        assert(e < (e / 1_000_000_000 + 1) * 1_000_000_000) by (nonlinear_arith)
            requires e > 0;
    }
}

} // verus!
