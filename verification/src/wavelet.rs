//! The wavelet transform, all but its arithmetic: how long the padded
//! buffers are, which part of a convolution is kept, which samples an
//! interpolated value is made of, and how kernel, convolution, window
//! and resampling follow one another to fill the grid row by row. What
//! is computed on the samples themselves the caller hands in as functions.

use crate::spectrogram::Spectrogram;
use vstd::prelude::*;

verus! {

/// Number of samples in the linear convolution of a signal of `signal_len`
/// samples with a kernel of `width` samples.
pub open spec fn spec_convolution_len(signal_len: nat, width: nat) -> nat {
    (signal_len + width - 1) as nat
}

/// Length to which signal and kernel are padded with zeros before they
/// are transformed.
pub fn convolution_len(signal_len: usize, width: usize) -> (len: usize)
    requires
        signal_len > 0,
        width > 0,
        signal_len + width - 1 <= usize::MAX,
    ensures
        len == spec_convolution_len(signal_len as nat, width as nat),
        len >= signal_len,
        len >= width,
{
    signal_len - 1 + width
}

/// The part of a convolution that is kept: it starts half a kernel in and
/// ends half a kernel before the end.
pub struct Window {
    pub start: usize,
    pub end: usize,
}

pub open spec fn spec_window_start(width: nat) -> nat {
    width / 2
}

pub open spec fn spec_window_end(signal_len: nat, width: nat) -> nat {
    (spec_convolution_len(signal_len, width) - width / 2) as nat
}

/// The window of the convolution that is aligned with the signal. It holds
/// as many samples as the signal where `width` is odd, and one less where
/// `width` is even.
pub fn central_window(signal_len: usize, width: usize) -> (w: Window)
    requires
        signal_len > 0,
        width > 0,
        signal_len + width - 1 <= usize::MAX,
    ensures
        w.start == spec_window_start(width as nat),
        w.end == spec_window_end(signal_len as nat, width as nat),
        w.start <= w.end <= spec_convolution_len(signal_len as nat, width as nat),
        w.end - w.start == signal_len - 1 + width % 2,
{
    let total = convolution_len(signal_len, width);
    let half = width / 2;
    Window { start: half, end: total - half }
}

/// Where an interpolated value takes its samples from.
#[derive(Clone, Copy, Debug, PartialEq, Eq, Structural)]
pub enum Tap {
    /// The position falls on a sample: the value is that sample.
    Exact { at: usize },
    /// The position falls between the samples `lower` and `upper`: the
    /// value is interpolated from them and from their outer neighbours.
    Between { before: usize, lower: usize, upper: usize, after: usize },
}

/// The sample before `lower`, or `lower` itself at the start of the signal.
pub open spec fn spec_before(lower: nat) -> nat {
    if lower == 0 {
        0
    } else {
        (lower - 1) as nat
    }
}

/// The sample after `upper`, or `upper` itself at the end of the signal.
pub open spec fn spec_after(upper: nat, len: nat) -> nat {
    if upper + 1 >= len {
        upper
    } else {
        upper + 1
    }
}

pub open spec fn spec_tap(lower: nat, upper: nat, len: nat) -> Tap {
    if lower == upper {
        Tap::Exact { at: lower as usize }
    } else {
        Tap::Between {
            before: spec_before(lower) as usize,
            lower: lower as usize,
            upper: upper as usize,
            after: spec_after(upper, len) as usize,
        }
    }
}

/// Every sample that the tap names lies inside a signal of `len` samples.
pub open spec fn tap_within(tap: Tap, len: nat) -> bool {
    match tap {
        Tap::Exact { at } => at < len,
        Tap::Between { before, lower, upper, after } => before <= lower < upper <= after < len,
    }
}

/// The samples for a position that lies between the samples `lower` and
/// `upper` of a signal of `len` samples, the two being the position rounded
/// down and up. At either end of the signal the missing neighbour is the
/// end sample once more.
pub fn tap(lower: usize, upper: usize, len: usize) -> (t: Tap)
    requires
        lower <= upper < len,
    ensures
        t == spec_tap(lower as nat, upper as nat, len as nat),
        tap_within(t, len as nat),
{
    if lower == upper {
        Tap::Exact { at: lower }
    } else {
        let before = if lower == 0 {
            0
        } else {
            lower - 1
        };
        let after = if upper == len - 1 {
            upper
        } else {
            upper + 1
        };
        Tap::Between { before, lower, upper, after }
    }
}

/// Where in a signal an output value lies: between the samples `lower`
/// and `upper`, which are the position rounded down and up, at the share
/// `weight` of the way from the one to the other.
pub struct Place<W> {
    pub lower: usize,
    pub upper: usize,
    pub weight: W,
}

/// `value` is what the output at index `i` may be: the sample that the
/// place of `i` falls on, or the blend of the four samples around it.
pub open spec fn sampled<T, W, P: Fn(usize) -> Place<W>, B: Fn(T, T, T, T, W) -> T>(
    signal: Seq<T>,
    place: P,
    blend: B,
    i: usize,
    value: T,
) -> bool {
    exists|p: Place<W>|
        {
            &&& #[trigger] call_ensures(place, (i,), p)
            &&& p.lower <= p.upper < signal.len()
            &&& match spec_tap(p.lower as nat, p.upper as nat, signal.len()) {
                Tap::Exact { at } => value == signal[at as int],
                Tap::Between { before, lower, upper, after } => call_ensures(
                    blend,
                    (
                        signal[before as int],
                        signal[lower as int],
                        signal[upper as int],
                        signal[after as int],
                        p.weight,
                    ),
                    value,
                ),
            }
        }
}

/// `out` is `signal` resampled to `length` values: the signal itself where
/// it has that length, and else, at each index, a value sampled there.
pub open spec fn resampled<T, W, P: Fn(usize) -> Place<W>, B: Fn(T, T, T, T, W) -> T>(
    signal: Seq<T>,
    length: usize,
    place: P,
    blend: B,
    out: Seq<T>,
) -> bool {
    &&& out.len() == length
    &&& signal.len() == length ==> out == signal
    &&& signal.len() != length ==> forall|i: usize|
        i < length ==> sampled(signal, place, blend, i, #[trigger] out[i as int])
}

/// Resamples a signal to `length` values.
///
/// A signal of that length is returned as it is, whatever `place` and
/// `blend` are: neither is asked. Else the value at each
/// index is made of the samples around its place: `place` says where
/// the index lies in the signal, and `blend` makes one value of four
/// neighbouring samples and a weight. At either end of the signal the
/// missing neighbour is the end sample once more; a place that falls on a
/// sample gives that sample.
pub fn resample<T: Copy, W, P: Fn(usize) -> Place<W>, B: Fn(T, T, T, T, W) -> T>(
    signal: &Vec<T>,
    length: usize,
    place: P,
    blend: B,
) -> (out: Vec<T>)
    requires
        length > 0,
        signal@.len() > 0,
        signal@.len() != length ==> forall|i: usize| i < length ==> call_requires(place, (i,)),
        signal@.len() != length ==> forall|i: usize, p: Place<W>|
            i < length && call_ensures(place, (i,), p) ==> p.lower <= p.upper < signal@.len(),
        signal@.len() != length ==> forall|a: T, b: T, c: T, d: T, w: W|
            call_requires(blend, (a, b, c, d, w)),
    ensures
        resampled(signal@, length, place, blend, out@),
{
    let n = signal.len();
    let mut out: Vec<T> = Vec::with_capacity(length);
    if n == length {
        let mut k: usize = 0;
        while k < n
            invariant
                k <= n,
                n == signal@.len(),
                out@ == signal@.take(k as int),
            decreases n - k,
        {
            out.push(signal[k]);
            assert(signal@.take(k + 1) =~= signal@.take(k as int).push(signal@[k as int]));
            k += 1;
        }
        assert(signal@.take(n as int) =~= signal@);
        return out;
    }
    let mut i: usize = 0;
    while i < length
        invariant
            i <= length,
            n == signal@.len(),
            out@.len() == i,
            forall|j: usize| j < length ==> call_requires(place, (j,)),
            forall|j: usize, p: Place<W>|
                j < length && call_ensures(place, (j,), p) ==> p.lower <= p.upper < signal@.len(),
            forall|a: T, b: T, c: T, d: T, w: W| call_requires(blend, (a, b, c, d, w)),
            forall|j: usize| j < i ==> sampled(signal@, place, blend, j, #[trigger] out@[j as int]),
        decreases length - i,
    {
        let p = place(i);
        let value = match tap(p.lower, p.upper, n) {
            Tap::Exact { at } => signal[at],
            Tap::Between { before, lower, upper, after } => blend(
                signal[before],
                signal[lower],
                signal[upper],
                signal[after],
                p.weight,
            ),
        };
        assert(sampled(signal@, place, blend, i, value));
        out.push(value);
        i += 1;
    }
    out
}

/// Resampling a signal to its own length gives the signal, whatever the
/// places and the blend.
pub proof fn lemma_resample_to_same_length<
    T,
    W,
    P: Fn(usize) -> Place<W>,
    B: Fn(T, T, T, T, W) -> T,
>(signal: Seq<T>, length: usize, place: P, blend: B, out: Seq<T>)
    requires
        signal.len() == length,
        resampled(signal, length, place, blend, out),
    ensures
        out == signal,
{
}

/// Resampling a signal of one sample gives that sample at every index,
/// whatever the places and the blend.
pub proof fn lemma_resample_of_one_sample<T, W, P: Fn(usize) -> Place<W>, B: Fn(T, T, T, T, W) -> T>(
    signal: Seq<T>,
    length: usize,
    place: P,
    blend: B,
    out: Seq<T>,
)
    requires
        signal.len() == 1,
        resampled(signal, length, place, blend, out),
    ensures
        out.len() == length,
        forall|i: int| 0 <= i < length ==> out[i] == signal[0],
{
    assert forall|i: int| 0 <= i < length implies out[i] == signal[0] by {
        if length != 1 {
            assert(sampled(signal, place, blend, i as usize, out[i as usize as int]));
        }
    }
}

/// `kernel` holds `length` samples, at each index one that `wavelet` gives
/// for that index.
pub open spec fn tabulated<T, F: Fn(usize) -> T>(length: usize, wavelet: F, kernel: Seq<T>) -> bool {
    &&& kernel.len() == length
    &&& forall|k: usize| k < length ==> call_ensures(wavelet, (k,), #[trigger] kernel[k as int])
}

/// The kernel of `length` samples whose sample at each index is what
/// `wavelet` gives for it.
pub fn morlet<T, F: Fn(usize) -> T>(length: usize, wavelet: F) -> (kernel: Vec<T>)
    requires
        length > 0,
        forall|k: usize| k < length ==> call_requires(wavelet, (k,)),
    ensures
        tabulated(length, wavelet, kernel@),
{
    let mut kernel: Vec<T> = Vec::with_capacity(length);
    let mut k: usize = 0;
    while k < length
        invariant
            k <= length,
            kernel@.len() == k,
            forall|j: usize| j < length ==> call_requires(wavelet, (j,)),
            forall|j: usize| j < k ==> call_ensures(wavelet, (j,), #[trigger] kernel@[j as int]),
        decreases length - k,
    {
        kernel.push(wavelet(k));
        k += 1;
    }
    kernel
}

/// The part of a convolution that the window keeps.
pub open spec fn windowed<T>(response: Seq<T>, signal_len: nat, width: nat) -> Seq<T> {
    response.subrange(
        spec_window_start(width) as int,
        spec_window_end(signal_len, width) as int,
    )
}

/// `kernel` is a kernel of the band `band`: it holds `width` samples, at
/// each index one that `wavelet` gives for the band and that index.
pub open spec fn band_kernel<T, K: Fn(usize, usize) -> T>(
    width: usize,
    wavelet: K,
    band: usize,
    kernel: Seq<T>,
) -> bool {
    &&& kernel.len() == width
    &&& forall|k: usize|
        k < width ==> call_ensures(wavelet, (band, k), #[trigger] kernel[k as int])
}

/// `row` is what the transform makes of the band `band`: the band's
/// kernel, convolved with the signal, cut to the window and resampled to
/// `width` values.
pub open spec fn band_row<
    T,
    W,
    K: Fn(usize, usize) -> T,
    C: Fn(&Vec<T>) -> Vec<T>,
    P: Fn(usize) -> Place<W>,
    B: Fn(T, T, T, T, W) -> T,
>(
    signal_len: usize,
    width: usize,
    wavelet: K,
    convolve: C,
    place: P,
    blend: B,
    band: usize,
    row: Seq<T>,
) -> bool {
    exists|kernel: Vec<T>, response: Vec<T>|
        {
            &&& band_kernel(width, wavelet, band, kernel@)
            &&& #[trigger] call_ensures(convolve, (&kernel,), response)
            &&& response@.len() == spec_convolution_len(signal_len as nat, width as nat)
            &&& resampled(
                windowed(response@, signal_len as nat, width as nat),
                width,
                place,
                blend,
                row,
            )
        }
}

/// Number of samples that the window keeps of the convolution.
pub open spec fn spec_window_len(signal_len: nat, width: nat) -> nat {
    (signal_len - 1 + width % 2) as nat
}

/// Computes the spectrogram of a signal of `signal_len` samples: a grid
/// of `height` rows, one for each band from the lowest up, of `width`
/// values each.
///
/// For each band the transform builds the band's kernel of `width`
/// samples, `wavelet` giving the sample for a band and an index; has
/// `convolve` convolve the kernel with the signal, which gives as many
/// samples as the padded signal has; keeps the window of the convolution
/// that is aligned with the signal; resamples the window to `width`
/// values with `place` and `blend`, which are not asked where the window
/// holds `width` samples already; and writes them into the band's row.
/// `fill` is what the grid holds before its rows are written.
pub fn morlet_transform<
    T: Copy,
    W,
    K: Fn(usize, usize) -> T,
    C: Fn(&Vec<T>) -> Vec<T>,
    P: Fn(usize) -> Place<W>,
    B: Fn(T, T, T, T, W) -> T,
>(
    signal_len: usize,
    width: usize,
    height: usize,
    fill: T,
    wavelet: K,
    convolve: C,
    place: P,
    blend: B,
) -> (grid: Spectrogram<T>)
    requires
        signal_len > 0,
        width > 0,
        height > 0,
        spec_window_len(signal_len as nat, width as nat) > 0,
        signal_len + width - 1 <= usize::MAX,
        width * height <= usize::MAX,
        forall|band: usize, k: usize|
            band < height && k < width ==> call_requires(wavelet, (band, k)),
        forall|kernel: Vec<T>| kernel@.len() == width ==> call_requires(convolve, (&kernel,)),
        forall|kernel: Vec<T>, response: Vec<T>|
            kernel@.len() == width && call_ensures(convolve, (&kernel,), response)
                ==> response@.len() == spec_convolution_len(signal_len as nat, width as nat),
        spec_window_len(signal_len as nat, width as nat) != width ==> forall|i: usize|
            i < width ==> call_requires(place, (i,)),
        spec_window_len(signal_len as nat, width as nat) != width ==> forall|
            i: usize,
            p: Place<W>,
        |
            i < width && call_ensures(place, (i,), p) ==> p.lower <= p.upper < spec_window_len(
                signal_len as nat,
                width as nat,
            ),
        spec_window_len(signal_len as nat, width as nat) != width ==> forall|
            a: T,
            b: T,
            c: T,
            d: T,
            w: W,
        | call_requires(blend, (a, b, c, d, w)),
    ensures
        grid.wf(),
        grid.spec_width() == width,
        grid.spec_height() == height,
        grid.values().len() == width * height,
        forall|band: usize| band < height ==> (#[trigger] grid.spec_row(band as int)).len() == width,
        forall|band: usize|
            band < height ==> band_row(
                signal_len,
                width,
                wavelet,
                convolve,
                place,
                blend,
                band,
                #[trigger] grid.spec_row(band as int),
            ),
{
    let mut grid = Spectrogram::new(width, height, fill);
    let window = central_window(signal_len, width);
    let mut band: usize = 0;
    while band < height
        invariant
            band <= height,
            grid.wf(),
            grid.spec_width() == width,
            grid.spec_height() == height,
            signal_len > 0,
            width > 0,
            signal_len + width - 1 <= usize::MAX,
            window.start == spec_window_start(width as nat),
            window.end == spec_window_end(signal_len as nat, width as nat),
            window.start <= window.end <= spec_convolution_len(signal_len as nat, width as nat),
            window.end - window.start == spec_window_len(signal_len as nat, width as nat),
            window.end - window.start > 0,
            forall|b: usize, k: usize|
                b < height && k < width ==> call_requires(wavelet, (b, k)),
            forall|kernel: Vec<T>| kernel@.len() == width ==> call_requires(convolve, (&kernel,)),
            forall|kernel: Vec<T>, response: Vec<T>|
                kernel@.len() == width && call_ensures(convolve, (&kernel,), response)
                    ==> response@.len() == spec_convolution_len(signal_len as nat, width as nat),
            spec_window_len(signal_len as nat, width as nat) != width ==> forall|i: usize|
                i < width ==> call_requires(place, (i,)),
            spec_window_len(signal_len as nat, width as nat) != width ==> forall|
                i: usize,
                p: Place<W>,
            |
                i < width && call_ensures(place, (i,), p) ==> p.lower <= p.upper
                    < spec_window_len(signal_len as nat, width as nat),
            spec_window_len(signal_len as nat, width as nat) != width ==> forall|
                a: T,
                b: T,
                c: T,
                d: T,
                w: W,
            | call_requires(blend, (a, b, c, d, w)),
            forall|b: usize|
                b < band ==> band_row(
                    signal_len,
                    width,
                    wavelet,
                    convolve,
                    place,
                    blend,
                    b,
                    #[trigger] grid.spec_row(b as int),
                ),
        decreases height - band,
    {
        let of_band = &wavelet;
        let sample = |k: usize| -> (v: T)
            requires
                k < width,
            ensures
                call_ensures(*of_band, (band, k), v),
            { of_band(band, k) };
        let kernel = morlet(width, sample);
        assert(band_kernel(width, wavelet, band, kernel@));
        let response = convolve(&kernel);
        let mut useful: Vec<T> = Vec::with_capacity(window.end - window.start);
        let mut k: usize = window.start;
        while k < window.end
            invariant
                window.start <= k <= window.end <= response@.len(),
                useful@ == response@.subrange(window.start as int, k as int),
            decreases window.end - k,
        {
            useful.push(response[k]);
            assert(response@.subrange(window.start as int, k + 1) =~= response@.subrange(
                window.start as int,
                k as int,
            ).push(response@[k as int]));
            k += 1;
        }
        assert(useful@ == windowed(response@, signal_len as nat, width as nat));
        let row = resample(&useful, width, &place, &blend);
        let ghost before = grid;
        grid.set_row(band, &row);
        proof {
            assert(band_row(
                signal_len,
                width,
                wavelet,
                convolve,
                place,
                blend,
                band,
                grid.spec_row(band as int),
            ));
            assert forall|b: usize| b < band implies band_row(
                signal_len,
                width,
                wavelet,
                convolve,
                place,
                blend,
                b,
                #[trigger] grid.spec_row(b as int),
            ) by {
                assert(grid.spec_row(b as int) == before.spec_row(b as int));
            }
        }
        band += 1;
    }
    grid
}

} // verus!
