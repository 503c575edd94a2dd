use num::complex::Complex64;
use rsdsp::ampl_resp::ampl_resp_2stages_1freq;
use rsdsp::csp_pfb::CspPfb;
use rsdsp::cspfb;
use rsdsp::ospfb;
use rsdsp::utils::{fftshift, ifft};
use std::f64::consts::PI;

fn c(re: f64, im: f64) -> Complex64 {
    Complex64::new(re, im)
}

fn cx(v: &[f64]) -> Vec<Complex64> {
    v.iter().map(|&x| c(x, 0.0)).collect()
}

fn tone(freq: f64, len: usize) -> Vec<Complex64> {
    (0..len)
        .map(|n| Complex64::from_polar(1.0, freq * n as f64))
        .collect()
}

/// The frequency-domain sketch of a low-pass prototype: a box of relative
/// width `k`.
fn lp_coeff(tap: usize, k: f64) -> Vec<f64> {
    (0..tap)
        .map(|i| {
            let x = (if i < tap / 2 { i } else { tap - i }) as f64;
            let y = (tap / 2) as f64 * k;
            if x >= y {
                0.0
            } else if x < y.floor() {
                1.0
            } else {
                y - y.floor()
            }
        })
        .collect()
}

fn symmetrize(w: &mut [f64]) {
    let n1 = w.len();
    for n in 0..=(n1 / 2 - 2) {
        w[n1 - n - 1] = w[n + 1];
    }
}

fn to_time_domain(input: &[f64]) -> Vec<f64> {
    let a: Vec<Complex64> = input.iter().map(|&x| c(x, 0.0)).collect();
    let b: Vec<f64> = ifft(&a).iter().map(|x| x.re).collect();
    let s: f64 = b.iter().sum();
    let b: Vec<f64> = b.iter().map(|&x| x / s).collect();
    fftshift(&b)
}

fn blackman(w: &mut [f64]) {
    let n1 = (w.len() - 1) as f64;
    for (n, x) in w.iter_mut().enumerate() {
        let t = n as f64 / n1;
        *x *= 0.42 - 0.5 * (2.0 * PI * t).cos() + 0.08 * (4.0 * PI * t).cos();
    }
}

/// The windowed low-pass prototype for an `nch`-branch bank with
/// `tap_per_ch` taps per branch and passband-width factor `k`.
fn pfb_coeff(nch: usize, tap_per_ch: usize, k: f64) -> Vec<f64> {
    let tap = nch * tap_per_ch;
    let mut a = lp_coeff(tap, k / (2 * nch) as f64);
    symmetrize(&mut a);
    let mut b = to_time_domain(&a);
    blackman(&mut b);
    b
}

fn energy(v: &[Complex64]) -> f64 {
    v.iter().map(|x| x.norm_sqr()).sum()
}

#[test]
fn s1_zero_input_gives_zero_output() {
    let coeff = cx(&pfb_coeff(8, 4, 1.1));
    let mut pfb = cspfb::Analyzer::new(8, &coeff);
    let out = pfb.analyze(&[c(0.0, 0.0); 8]);
    assert_eq!(out.len(), 8);
    for row in &out {
        assert_eq!(row.len(), 1);
        for v in row {
            assert_eq!(v.re, 0.0);
            assert_eq!(v.im, 0.0);
        }
    }
}

#[test]
fn s2_impulse_shows_single_taps() {
    let proto = pfb_coeff(8, 4, 1.1);
    let coeff = cx(&proto);
    let mut pfb = cspfb::Analyzer::new(8, &coeff);
    let mut input = vec![c(0.0, 0.0); 23];
    input[0] = c(1.0, 0.0);
    let out = pfb.analyze(&input);
    assert_eq!(out.len(), 8);
    for row in &out {
        assert_eq!(row.len(), 2);
    }
    // The impulse sits in branch 0.  Column 0 is the DFT of a vector whose
    // only nonzero entry (branch 0) is the branch's first tap, prototype
    // sample 0; column 1 likewise shows prototype sample 8.
    for ch in 0..8 {
        assert!((out[ch][0].re - proto[0]).abs() < 1e-12);
        assert!(out[ch][0].im.abs() < 1e-12);
        assert!((out[ch][1].re - proto[8]).abs() < 1e-12);
        assert!(out[ch][1].im.abs() < 1e-12);
    }
}

#[test]
fn s3_ospfb_tone_lands_in_channel_18() {
    let nch = 32usize;
    let coeff = cx(&pfb_coeff(nch / 2, 16, 1.1));
    let mut pfb = ospfb::Analyzer::new(nch, &coeff);
    let input = tone(PI / 8.0, 65536);
    let out = pfb.analyze(&input);
    assert_eq!(out.len(), nch);
    let ncol = out[0].len();
    assert_eq!(ncol, 65536 / (nch / 2));
    let mut per_ch = vec![0.0f64; nch];
    let mut total = 0.0f64;
    for ch in 0..nch {
        let e = energy(&out[ch][16..ncol]);
        per_ch[ch] = e;
        total += e;
    }
    assert!(per_ch[18] >= 0.99 * total, "channel 18 carries {} of {}", per_ch[18], total);
}

#[test]
fn s4_cascade_of_zeros_has_the_right_shape() {
    let nch_coarse = 32usize;
    let nch_fine = 32usize;
    let coeff_coarse = cx(&pfb_coeff(nch_coarse / 2, 16, 1.1));
    let coeff_fine = cx(&pfb_coeff(nch_fine * 2, 4, 1.1));
    let mut coarse = ospfb::Analyzer::new(nch_coarse, &coeff_coarse);
    let fine_template = cspfb::Analyzer::new(nch_fine * 2, &coeff_fine);
    let selected = [15usize, 16, 17];
    let mut csp = CspPfb::new(&selected, &fine_template);
    assert_eq!(csp.nfine_per_coarse(), nch_fine);

    let input = vec![c(0.0, 0.0); 8192];
    let coarse_out = coarse.analyze(&input);
    assert_eq!(coarse_out.len(), nch_coarse);
    let d = coarse_out[0].len();
    assert_eq!(d, 8192 / (nch_coarse / 2));
    let fine_out = csp.analyze(&coarse_out);
    assert_eq!(fine_out.len(), 3 * nch_fine);
    let dd = fine_out[0].len();
    assert_eq!(dd, d / (2 * nch_fine));
    for row in &fine_out {
        assert_eq!(row.len(), dd);
        for v in row {
            assert_eq!(v.norm_sqr(), 0.0);
        }
    }
}

#[test]
fn s5_sweep_is_symmetric_about_zero() {
    let nch_coarse = 32usize;
    let nch_fine = 32usize;
    let coeff_coarse = pfb_coeff(nch_coarse / 2, 16, 1.1);
    let coeff_fine = pfb_coeff(nch_fine * 2, 4, 1.1);
    let selected = [15usize, 16, 17];
    let signal_len = coeff_coarse.len() + coeff_fine.len() * nch_coarse / 2;
    let freqs = [-1.0f64, -0.5, 0.0, 0.5, 1.0];
    let mut coarse_all: Vec<Vec<f64>> = Vec::new();
    let mut fine_all: Vec<Vec<f64>> = Vec::new();
    for f in freqs {
        let (coarse_resp, fine_resp) = ampl_resp_2stages_1freq(
            nch_coarse,
            nch_fine,
            &cx(&coeff_coarse),
            &cx(&coeff_fine),
            &selected,
            Complex64::from_polar(1.0, PI * f),
            signal_len,
            2,
        );
        coarse_all.push(coarse_resp.iter().map(|x| x.re).collect());
        fine_all.push(fine_resp.iter().map(|x| x.re).collect());
    }
    let scale_c = coarse_all
        .iter()
        .flat_map(|v| v.iter())
        .fold(0.0f64, |a, &b| a.max(b));
    let scale_f = fine_all
        .iter()
        .flat_map(|v| v.iter())
        .fold(0.0f64, |a, &b| a.max(b));
    // Frequency -f mirrors +f: selected channels [15, 16, 17] map onto
    // [17, 16, 15], and the stacked fine rows reverse wholesale.
    for i in 0..freqs.len() {
        let j = freqs.len() - 1 - i;
        for ci in 0..3 {
            let a = coarse_all[i][ci];
            let b = coarse_all[j][2 - ci];
            assert!(
                (a - b).abs() <= 1e-6 * scale_c,
                "coarse asymmetry at {} {}: {} vs {}",
                i,
                ci,
                a,
                b
            );
        }
        let nf = fine_all[i].len();
        for r in 0..nf {
            let a = fine_all[i][r];
            let b = fine_all[j][nf - 1 - r];
            assert!(
                (a - b).abs() <= 1e-6 * scale_f,
                "fine asymmetry at {} {}: {} vs {}",
                i,
                r,
                a,
                b
            );
        }
    }
}

#[test]
fn s6_split_feeding_is_bit_identical() {
    let coeff = cx(&pfb_coeff(8, 4, 1.1));
    let input: Vec<Complex64> = (0..16)
        .map(|n| Complex64::from_polar(1.0 + 0.01 * n as f64, 0.37 * n as f64))
        .collect();

    let mut whole = cspfb::Analyzer::new(8, &coeff);
    let out_whole = whole.analyze(&input);

    let mut split = cspfb::Analyzer::new(8, &coeff);
    let out_a = split.analyze(&input[..7]);
    let out_b = split.analyze(&input[7..]);

    assert_eq!(out_whole.len(), 8);
    assert_eq!(out_whole[0].len(), 2);
    assert_eq!(out_a[0].len(), 0);
    assert_eq!(out_b[0].len(), 2);
    for ch in 0..8 {
        for i in 0..2 {
            let w = out_whole[ch][i];
            let s = out_b[ch][i];
            assert_eq!(w.re, s.re);
            assert_eq!(w.im, s.im);
        }
    }
}

#[test]
fn p1_streaming_equivalence_aligned_split() {
    let coeff = cx(&pfb_coeff(8, 4, 1.1));
    let input: Vec<Complex64> = (0..64)
        .map(|n| Complex64::from_polar(1.0, 0.2 * n as f64))
        .collect();

    let mut whole = cspfb::Analyzer::new(8, &coeff);
    let out_whole = whole.analyze(&input);

    let mut split = cspfb::Analyzer::new(8, &coeff);
    let out_a = split.analyze(&input[..24]);
    let out_b = split.analyze(&input[24..]);
    for ch in 0..8 {
        let glued: Vec<Complex64> = out_a[ch]
            .iter()
            .chain(out_b[ch].iter())
            .cloned()
            .collect();
        assert_eq!(out_whole[ch].len(), glued.len());
        for (w, s) in out_whole[ch].iter().zip(glued.iter()) {
            assert_eq!(w.re, s.re);
            assert_eq!(w.im, s.im);
        }
    }
}

#[test]
fn p2_zeros_flush_the_delay_line() {
    let coeff = cx(&pfb_coeff(8, 4, 1.1));
    let mut pfb = cspfb::Analyzer::new(8, &coeff);
    let mut input = tone(0.3, 8);
    // One impulse-laden stripe, then more than `tap` stripes of zeros.
    input.extend(std::iter::repeat(c(0.0, 0.0)).take(8 * 6));
    let out = pfb.analyze(&input);
    for ch in 0..8 {
        // Columns past the flush are exactly zero.
        for i in 5..out[ch].len() {
            assert_eq!(out[ch][i].norm_sqr(), 0.0);
        }
    }
}

#[test]
fn p3_on_bin_tone_dominates_by_40_db() {
    let nch = 8usize;
    let coeff = cx(&pfb_coeff(nch, 4, 1.0));
    let mut pfb = cspfb::Analyzer::new(nch, &coeff);
    let k0 = 3usize;
    let input = tone(2.0 * PI * k0 as f64 / nch as f64, nch * 64);
    let out = pfb.analyze(&input);
    let ncol = out[0].len();
    let mut per_ch = vec![0.0f64; nch];
    for ch in 0..nch {
        per_ch[ch] = energy(&out[ch][4..ncol]);
    }
    for ch in 0..nch {
        if ch != k0 {
            assert!(
                per_ch[k0] >= 1e4 * per_ch[ch],
                "channel {} too strong: {} vs {}",
                ch,
                per_ch[ch],
                per_ch[k0]
            );
        }
    }
}

#[test]
fn p4_ospfb_doubles_the_channel_count() {
    let nch = 16usize;
    let coeff = cx(&pfb_coeff(nch / 2, 8, 1.1));
    let mut pfb = ospfb::Analyzer::new(nch, &coeff);
    assert_eq!(pfb.nch_total(), nch);
    let f = 0.4f64;  // in units of pi
    let input = tone(PI * f, 4096);
    let out = pfb.analyze(&input);
    assert_eq!(out.len(), nch);
    let ncol = out[0].len();
    let mut best = 0usize;
    let mut best_e = -1.0f64;
    for ch in 0..nch {
        let e = energy(&out[ch][8..ncol]);
        if e > best_e {
            best_e = e;
            best = ch;
        }
    }
    // The winning channel's centre must lie within pi/nch of the tone.
    let centre = (best as f64 - nch as f64 / 2.0) / (nch as f64 / 2.0);
    assert!(
        (centre - f).abs() <= 1.0 / nch as f64,
        "peak at channel {} (centre {}), tone at {}",
        best,
        centre,
        f
    );
}

#[test]
fn p5_cascade_output_shape_matches_prediction() {
    let nch_coarse = 16usize;
    let nch_fine = 8usize;
    let coeff_coarse = cx(&pfb_coeff(nch_coarse / 2, 4, 1.1));
    let coeff_fine = cx(&pfb_coeff(nch_fine * 2, 4, 1.1));
    let mut coarse = ospfb::Analyzer::new(nch_coarse, &coeff_coarse);
    let template = cspfb::Analyzer::new(nch_fine * 2, &coeff_fine);
    let selected = [3usize, 7, 7, 11];
    let mut csp = CspPfb::new(&selected, &template);
    let input = tone(0.1, 1000);
    let coarse_out = coarse.analyze(&input);
    let d = coarse_out[0].len();
    assert_eq!(d, 1000 / (nch_coarse / 2));
    let fine_out = csp.analyze(&coarse_out);
    assert_eq!(fine_out.len(), selected.len() * nch_fine);
    for row in &fine_out {
        assert_eq!(row.len(), d / (2 * nch_fine));
    }
}

#[test]
fn p7_analysis_is_linear() {
    let coeff = cx(&pfb_coeff(8, 4, 1.1));
    let x: Vec<Complex64> = (0..40)
        .map(|n| Complex64::from_polar(1.0, 0.7 * n as f64))
        .collect();
    let y: Vec<Complex64> = (0..40)
        .map(|n| Complex64::from_polar(0.5, -0.2 * n as f64 + 1.0))
        .collect();
    let alpha = c(2.5, -0.5);
    let beta = c(-1.25, 0.75);
    let z: Vec<Complex64> = x
        .iter()
        .zip(y.iter())
        .map(|(a, b)| alpha * a + beta * b)
        .collect();
    let mut px = cspfb::Analyzer::new(8, &coeff);
    let mut py = cspfb::Analyzer::new(8, &coeff);
    let mut pz = cspfb::Analyzer::new(8, &coeff);
    let ox = px.analyze(&x);
    let oy = py.analyze(&y);
    let oz = pz.analyze(&z);
    for ch in 0..8 {
        for i in 0..oz[ch].len() {
            let want = alpha * ox[ch][i] + beta * oy[ch][i];
            assert!((oz[ch][i] - want).norm() < 1e-10);
        }
    }
}

#[test]
fn ampl_resp_peaks_track_the_tone() {
    let nch = 8usize;
    let coeff = cx(&pfb_coeff(nch / 2, 4, 1.1));
    let mut pfb = ospfb::Analyzer::new(nch, &coeff);
    let steps: Vec<Complex64> = [-0.5f64, 0.0, 0.5]
        .iter()
        .map(|&f| Complex64::from_polar(1.0, PI * f))
        .collect();
    let resp = rsdsp::ampl_resp::ampl_resp(&mut pfb, &steps, 256, 2);
    assert_eq!(resp.len(), nch);
    for row in &resp {
        assert_eq!(row.len(), 3);
    }
    // Channels are in centre-frequency order: a tone at f (in pi units)
    // peaks at channel nch/2 + f * nch/2.
    for (fi, expect) in [(0usize, 2usize), (1, 4), (2, 6)] {
        let mut best = 0usize;
        let mut best_e = -1.0f64;
        for ch in 0..nch {
            let e = resp[ch][fi].re;
            if e > best_e {
                best_e = e;
                best = ch;
            }
        }
        assert_eq!(best, expect, "tone {} peaked at channel {}", fi, best);
    }
}

#[test]
fn ospfb_streaming_matches_one_shot() {
    let nch = 16usize;
    let coeff = cx(&pfb_coeff(nch / 2, 4, 1.1));
    let input = tone(0.9, 512);

    let mut whole = ospfb::Analyzer::new(nch, &coeff);
    let out_whole = whole.analyze(&input);

    let mut split = ospfb::Analyzer::new(nch, &coeff);
    let out_a = split.analyze(&input[..100]);
    let out_b = split.analyze(&input[100..]);
    for ch in 0..nch {
        let glued: Vec<Complex64> = out_a[ch]
            .iter()
            .chain(out_b[ch].iter())
            .cloned()
            .collect();
        assert_eq!(out_whole[ch].len(), glued.len());
        for (w, s) in out_whole[ch].iter().zip(glued.iter()) {
            assert_eq!(w.re, s.re);
            assert_eq!(w.im, s.im);
        }
    }
}
