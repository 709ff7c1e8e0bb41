//! The mixer: combines a microphone batch and a decoded-audio batch into one
//! flow, applying per-source gains, a noise gate on the microphone, and soft
//! clipping on the summed result.

use vstd::prelude::*;

use crate::sample::{
    abs, in_mix_range, in_unit_range, sample_abs, valid_gain, GAIN_SCALE, NOISE_GATE, SCALE,
};

verus! {

/// The value of a sample after a gain is applied: `s * g / GAIN_SCALE`,
/// rounded towards zero.
pub open spec fn apply_gain_spec(s: int, g: int) -> int {
    if s >= 0 {
        s * g / (GAIN_SCALE as int)
    } else {
        -((-s) * g / (GAIN_SCALE as int))
    }
}

/// Whether the noise gate keeps a microphone sample: its amplitude reaches
/// the 0.01 threshold.
pub open spec fn gate_keeps(s: i64) -> bool {
    abs(s as int) >= NOISE_GATE as int
}

/// The microphone batch after the noise gate: samples below the threshold
/// are dropped entirely.
pub open spec fn gate_spec(mic: Seq<i64>) -> Seq<i64> {
    mic.filter(|s: i64| gate_keeps(s))
}

/// The soft-clip heuristic: amplitudes at most 1.0 pass unchanged; a larger
/// amplitude `x` becomes `0.5 * (x / trunc(x) * 10)`, sign preserved.
pub open spec fn soft_clip_spec(x: int) -> int {
    if abs(x) <= SCALE as int {
        x
    } else {
        let t = abs(x) / (SCALE as int);
        if x >= 0 {
            5 * x / t
        } else {
            -(5 * (-x) / t)
        }
    }
}

/// The summed, gained value at position `i` of the mix, before clipping:
/// gated microphone first, audio added element-wise, the longer tail kept.
pub open spec fn mix_sum_at(gated: Seq<i64>, audio: Seq<i64>, mg: int, ag: int, i: int) -> int {
    (if i < gated.len() {
        apply_gain_spec(gated[i] as int, mg)
    } else {
        0
    }) + (if i < audio.len() {
        apply_gain_spec(audio[i] as int, ag)
    } else {
        0
    })
}

/// The length of the mixed flow: the longer of the gated microphone batch
/// and the audio batch.
pub open spec fn mix_len(gated_len: nat, audio_len: nat) -> nat {
    if gated_len >= audio_len {
        gated_len
    } else {
        audio_len
    }
}

/// The whole mix of one tick, as a sequence of mathematical sample values.
pub open spec fn mix_spec(mic: Seq<i64>, audio: Seq<i64>, mg: int, ag: int) -> Seq<int> {
    let gated = gate_spec(mic);
    Seq::new(
        mix_len(gated.len(), audio.len()),
        |i: int| soft_clip_spec(mix_sum_at(gated, audio, mg, ag, i)),
    )
}

/// Applying a gain in [0, 1] keeps a sample within its own amplitude.
pub proof fn lemma_gain_bounds(s: int, g: int)
    requires
        0 <= g <= GAIN_SCALE as int,
    ensures
        abs(apply_gain_spec(s, g)) <= abs(s),
        s >= 0 ==> apply_gain_spec(s, g) >= 0,
        s < 0 ==> apply_gain_spec(s, g) <= 0,
        g == GAIN_SCALE as int ==> apply_gain_spec(s, g) == s,
        g == 0 ==> apply_gain_spec(s, g) == 0,
    decreases (if s < 0 {
        1int
    } else {
        0int
    }),
{
    if s >= 0 {
        assert(0 <= s * g && s * g <= 1000 * s && s * 1000 == 1000 * s) by (nonlinear_arith)
            requires
                s >= 0 && 0 <= g <= 1000,
        ;
        assert(s * g / 1000 <= 1000 * s / 1000) by {
            vstd::arithmetic::div_mod::lemma_div_is_ordered(s * g, 1000 * s, 1000);
        }
        assert(1000 * s / 1000 == s) by {
            vstd::arithmetic::div_mod::lemma_div_multiples_vanish(s, 1000);
        }
        assert(s * g / 1000 >= 0) by {
            vstd::arithmetic::div_mod::lemma_div_is_ordered(0, s * g, 1000);
        }
        if g == 1000 {
            assert(s * g == 1000 * s) by (nonlinear_arith)
                requires
                    g == 1000,
            ;
        }
        if g == 0 {
            assert(s * g == 0) by (nonlinear_arith)
                requires
                    g == 0,
            ;
        }
    } else {
        lemma_gain_bounds(-s, g);
    }
}

/// Executable gain application.
pub fn apply_gain(s: i64, g: u32) -> (r: i64)
    requires
        in_unit_range(s),
        valid_gain(g),
    ensures
        r == apply_gain_spec(s as int, g as int),
        in_unit_range(r),
{
    proof {
        lemma_gain_bounds(s as int, g as int);
    }
    if s >= 0 {
        (s * (g as i64)) / 1000
    } else {
        -(((-s) * (g as i64)) / 1000)
    }
}

/// Executable soft clip, for sums of two gained unit-range samples.
pub fn soft_clip(x: i64) -> (r: i64)
    requires
        -2 * (SCALE as int) <= x <= 2 * (SCALE as int),
    ensures
        r == soft_clip_spec(x as int),
        in_mix_range(r),
{
    if -SCALE <= x && x <= SCALE {
        x
    } else {
        let m: i64 = if x >= 0 {
            x
        } else {
            -x
        };
        let t: i64 = m / SCALE;
        assert(t == 1 || t == 2) by {
            assert(m / 10_000_000 == 1 || m / 10_000_000 == 2) by (nonlinear_arith)
                requires
                    10_000_000 < m <= 20_000_000,
            ;
        }
        let clipped: i64 = (5 * m) / t;
        if x >= 0 {
            clipped
        } else {
            -clipped
        }
    }
}

/// Mixes one microphone batch and one audio batch into the flow of one tick:
/// the noise gate drops quiet microphone samples, each source is scaled by
/// its gain, the two are summed element-wise (the longer tail kept), and the
/// sum is soft-clipped.
pub fn mix_batch(mic: &Vec<i64>, audio: &Vec<i64>, mic_gain: u32, audio_gain: u32) -> (out: Vec<
    i64,
>)
    requires
        forall|i: int| 0 <= i < mic@.len() ==> in_unit_range(#[trigger] mic@[i]),
        forall|i: int| 0 <= i < audio@.len() ==> in_unit_range(#[trigger] audio@[i]),
        valid_gain(mic_gain),
        valid_gain(audio_gain),
    ensures
        out@.len() == mix_spec(mic@, audio@, mic_gain as int, audio_gain as int).len(),
        forall|i: int|
            0 <= i < out@.len() ==> out@[i] == mix_spec(
                mic@,
                audio@,
                mic_gain as int,
                audio_gain as int,
            )[i],
        forall|i: int| 0 <= i < out@.len() ==> in_mix_range(#[trigger] out@[i]),
{
    let mut gated: Vec<i64> = Vec::new();
    let mut j: usize = 0;
    while j < mic.len()
        invariant
            j <= mic@.len(),
            gated@ == gate_spec(mic@.take(j as int)),
            forall|i: int| 0 <= i < mic@.len() ==> in_unit_range(#[trigger] mic@[i]),
            forall|i: int| 0 <= i < gated@.len() ==> in_unit_range(#[trigger] gated@[i]),
        decreases mic@.len() - j,
    {
        let s = mic[j];
        proof {
            reveal(Seq::filter);
            assert(mic@.take(j + 1).drop_last() =~= mic@.take(j as int));
            assert(mic@.take(j + 1).last() == s);
            assert(gate_spec(mic@.take(j + 1)) == (if gate_keeps(s) {
                gate_spec(mic@.take(j as int)).push(s)
            } else {
                gate_spec(mic@.take(j as int))
            }));
        }
        if sample_abs(s) >= NOISE_GATE {
            gated.push(s);
        }
        j = j + 1;
    }
    proof {
        assert(mic@.take(mic@.len() as int) =~= mic@);
    }
    let ghost gseq = gate_spec(mic@);
    assert(gated@ == gseq);

    let n: usize = if gated.len() >= audio.len() {
        gated.len()
    } else {
        audio.len()
    };
    let mut out: Vec<i64> = Vec::new();
    let mut i: usize = 0;
    while i < n
        invariant
            i <= n,
            n == mix_len(gseq.len(), audio@.len()),
            gated@ == gseq,
            out@.len() == i,
            forall|k: int|
                0 <= k < i ==> out@[k] == soft_clip_spec(
                    mix_sum_at(gseq, audio@, mic_gain as int, audio_gain as int, k),
                ),
            forall|k: int| 0 <= k < i ==> in_mix_range(#[trigger] out@[k]),
            forall|k: int| 0 <= k < gated@.len() ==> in_unit_range(#[trigger] gated@[k]),
            forall|k: int| 0 <= k < audio@.len() ==> in_unit_range(#[trigger] audio@[k]),
            valid_gain(mic_gain),
            valid_gain(audio_gain),
        decreases n - i,
    {
        let m_part: i64 = if i < gated.len() {
            apply_gain(gated[i], mic_gain)
        } else {
            0
        };
        let a_part: i64 = if i < audio.len() {
            apply_gain(audio[i], audio_gain)
        } else {
            0
        };
        let sum: i64 = m_part + a_part;
        let clipped = soft_clip(sum);
        out.push(clipped);
        i = i + 1;
    }
    assert(out@.len() == mix_spec(mic@, audio@, mic_gain as int, audio_gain as int).len());
    out
}

/// A sequence whose elements all satisfy a predicate is left whole by
/// filtering with it.
proof fn lemma_filter_all_kept(s: Seq<i64>, pred: spec_fn(i64) -> bool)
    requires
        forall|i: int| 0 <= i < s.len() ==> pred(#[trigger] s[i]),
    ensures
        s.filter(pred) == s,
    decreases s.len(),
{
    reveal(Seq::filter);
    if s.len() > 0 {
        assert(forall|i: int| 0 <= i < s.drop_last().len() ==> pred(#[trigger] s.drop_last()[i]));
        lemma_filter_all_kept(s.drop_last(), pred);
        assert(s.filter(pred) =~= s);
    }
}

/// Whatever passes the noise filter reaches the threshold.
proof fn lemma_gate_elements(mic: Seq<i64>)
    ensures
        forall|i: int| 0 <= i < gate_spec(mic).len() ==> gate_keeps(#[trigger] gate_spec(mic)[i]),
{
    broadcast use vstd::seq_lib::group_filter_ensures;

}

/// Filtering leaves a subset of the batch, so the unit range carries
/// over.
proof fn lemma_gate_preserves_unit(mic: Seq<i64>)
    requires
        forall|i: int| 0 <= i < mic.len() ==> in_unit_range(#[trigger] mic[i]),
    ensures
        forall|i: int|
            0 <= i < gate_spec(mic).len() ==> in_unit_range(#[trigger] gate_spec(mic)[i]),
    decreases mic.len(),
{
    reveal(Seq::filter);
    if mic.len() > 0 {
        assert(forall|i: int|
            0 <= i < mic.drop_last().len() ==> in_unit_range(#[trigger] mic.drop_last()[i]));
        lemma_gate_preserves_unit(mic.drop_last());
        assert(gate_spec(mic) == (if gate_keeps(mic.last()) {
            gate_spec(mic.drop_last()).push(mic.last())
        } else {
            gate_spec(mic.drop_last())
        }));
    }
}

/// Noise gate law: a microphone sample below the 0.01 threshold contributes
/// nothing — mixing a batch gives exactly the mix of the batch with its
/// sub-threshold samples removed.
pub proof fn lemma_noise_gate(mic: Seq<i64>, audio: Seq<i64>, mg: int, ag: int)
    ensures
        mix_spec(mic, audio, mg, ag) == mix_spec(gate_spec(mic), audio, mg, ag),
{
    lemma_gate_elements(mic);
    lemma_filter_all_kept(gate_spec(mic), |s: i64| gate_keeps(s));
    assert(gate_spec(gate_spec(mic)) == gate_spec(mic));
}

/// Mixer gain law, one side: with the microphone gain at zero the mix is
/// exactly the audio batch scaled by the audio gain, padded with silence
/// where the gated microphone batch runs longer.
pub proof fn lemma_gain_law_mic_muted(mic: Seq<i64>, audio: Seq<i64>, ag: int)
    requires
        forall|i: int| 0 <= i < audio.len() ==> in_unit_range(#[trigger] audio[i]),
        0 <= ag <= GAIN_SCALE as int,
    ensures
        forall|i: int|
            0 <= i < audio.len() && i < mix_spec(mic, audio, 0, ag).len() ==> mix_spec(
                mic,
                audio,
                0,
                ag,
            )[i] == apply_gain_spec(audio[i] as int, ag),
        forall|i: int|
            audio.len() <= i < mix_spec(mic, audio, 0, ag).len() ==> mix_spec(mic, audio, 0, ag)[i]
                == 0,
{
    let gated = gate_spec(mic);
    assert forall|i: int| 0 <= i < mix_spec(mic, audio, 0, ag).len() implies mix_spec(
        mic,
        audio,
        0,
        ag,
    )[i] == (if i < audio.len() {
        apply_gain_spec(audio[i] as int, ag)
    } else {
        0int
    }) by {
        if i < gated.len() {
            lemma_gain_bounds(gated[i] as int, 0);
        }
        if i < audio.len() {
            lemma_gain_bounds(audio[i] as int, ag);
            assert(abs(mix_sum_at(gated, audio, 0, ag, i)) <= SCALE as int);
        }
    }
}

/// Mixer gain law, the symmetric side: with the audio gain at zero the mix
/// is exactly the gated microphone batch scaled by the microphone gain,
/// padded with silence where the audio batch runs longer.
pub proof fn lemma_gain_law_audio_muted(mic: Seq<i64>, audio: Seq<i64>, mg: int)
    requires
        forall|i: int| 0 <= i < mic.len() ==> in_unit_range(#[trigger] mic[i]),
        0 <= mg <= GAIN_SCALE as int,
    ensures
        forall|i: int|
            0 <= i < gate_spec(mic).len() ==> mix_spec(mic, audio, mg, 0)[i] == apply_gain_spec(
                gate_spec(mic)[i] as int,
                mg,
            ),
        forall|i: int|
            gate_spec(mic).len() <= i < mix_spec(mic, audio, mg, 0).len() ==> mix_spec(
                mic,
                audio,
                mg,
                0,
            )[i] == 0,
{
    let gated = gate_spec(mic);
    lemma_gate_preserves_unit(mic);
    assert forall|i: int| 0 <= i < mix_spec(mic, audio, mg, 0).len() implies mix_spec(
        mic,
        audio,
        mg,
        0,
    )[i] == (if i < gated.len() {
        apply_gain_spec(gated[i] as int, mg)
    } else {
        0int
    }) by {
        if i < audio.len() {
            lemma_gain_bounds(audio[i] as int, 0);
        }
        if i < gated.len() {
            lemma_gain_bounds(gated[i] as int, mg);
            assert(abs(mix_sum_at(gated, audio, mg, 0, i)) <= SCALE as int);
        }
    }
    assert(gated.len() <= mix_spec(mic, audio, mg, 0).len());
}

/// How many samples the mixer drains from each source queue in one tick:
/// when both hold samples it takes the smaller count from each, keeping the
/// sources phase-aligned by batch; otherwise it takes all of the non-empty
/// one.
pub fn sync_counts(mic_len: usize, audio_len: usize) -> (r: (usize, usize))
    ensures
        mic_len > 0 && audio_len > 0 ==> r.0 == r.1 && r.0 == (if mic_len <= audio_len {
            mic_len as int
        } else {
            audio_len as int
        }),
        !(mic_len > 0 && audio_len > 0) ==> r.0 == mic_len && r.1 == audio_len,
{
    if mic_len > 0 && audio_len > 0 {
        let k = if mic_len <= audio_len {
            mic_len
        } else {
            audio_len
        };
        (k, k)
    } else {
        (mic_len, audio_len)
    }
}

/// Removes the first `k` samples of a queue and returns them in order.
pub fn take_batch(queue: &mut Vec<i64>, k: usize) -> (batch: Vec<i64>)
    requires
        k <= old(queue)@.len(),
    ensures
        batch@ == old(queue)@.take(k as int),
        final(queue)@ == old(queue)@.skip(k as int),
{
    let mut batch: Vec<i64> = Vec::new();
    let mut i: usize = 0;
    while i < k
        invariant
            i <= k <= old(queue)@.len(),
            batch@ == old(queue)@.take(i as int),
            queue@ == old(queue)@.skip(i as int),
        decreases k - i,
    {
        let s = queue.remove(0);
        proof {
            assert(old(queue)@.take(i + 1) =~= old(queue)@.take(i as int).push(s));
            assert(old(queue)@.skip(i as int).remove(0) =~= old(queue)@.skip(i + 1));
        }
        batch.push(s);
        i = i + 1;
    }
    batch
}

/// One full mixer tick over the two source queues: snapshot the queue
/// lengths, drain the synchronised counts, and mix what was drained.
pub fn mixer_tick(
    mic_queue: &mut Vec<i64>,
    audio_queue: &mut Vec<i64>,
    mic_gain: u32,
    audio_gain: u32,
) -> (out: Vec<i64>)
    requires
        forall|i: int| 0 <= i < old(mic_queue)@.len() ==> in_unit_range(#[trigger] old(mic_queue)@[i]),
        forall|i: int|
            0 <= i < old(audio_queue)@.len() ==> in_unit_range(#[trigger] old(audio_queue)@[i]),
        valid_gain(mic_gain),
        valid_gain(audio_gain),
    ensures
        ({
            let counts = if old(mic_queue)@.len() > 0 && old(audio_queue)@.len() > 0 {
                let k = if old(mic_queue)@.len() <= old(audio_queue)@.len() {
                    old(mic_queue)@.len() as int
                } else {
                    old(audio_queue)@.len() as int
                };
                (k, k)
            } else {
                (old(mic_queue)@.len() as int, old(audio_queue)@.len() as int)
            };
            let mic_b = old(mic_queue)@.take(counts.0);
            let audio_b = old(audio_queue)@.take(counts.1);
            final(mic_queue)@ == old(mic_queue)@.skip(counts.0) && final(audio_queue)@ == old(
                audio_queue,
            )@.skip(counts.1) && out@.len() == mix_spec(
                mic_b,
                audio_b,
                mic_gain as int,
                audio_gain as int,
            ).len() && (forall|i: int|
                0 <= i < out@.len() ==> out@[i] == mix_spec(
                    mic_b,
                    audio_b,
                    mic_gain as int,
                    audio_gain as int,
                )[i])
        }),
        forall|i: int| 0 <= i < out@.len() ==> in_mix_range(#[trigger] out@[i]),
{
    let (k_mic, k_audio) = sync_counts(mic_queue.len(), audio_queue.len());
    let mic_b = take_batch(mic_queue, k_mic);
    let audio_b = take_batch(audio_queue, k_audio);
    mix_batch(&mic_b, &audio_b, mic_gain, audio_gain)
}

} // verus!
