use vstd::prelude::*;
use vstd::arithmetic::div_mod::{
    lemma_div_by_multiple_is_strongly_ordered, lemma_div_multiples_vanish, lemma_div_pos_is_pos,
    lemma_fundamental_div_mod, lemma_mod_adds, lemma_mod_multiples_basic,
};
use vstd::arithmetic::mul::{
    lemma_mul_inequality, lemma_mul_is_commutative, lemma_mul_is_distributive_sub_other_way,
};
use crate::config::{PlaybackParams, MAX_FRAMES};
use crate::sample::{xfade_at, xfade_sample};
use crate::vecs::{append_all, copy_range, drop_front};

verus! {

/// Frame count of an interleaved sample sequence.
pub open spec fn frames(s: Seq<i16>, ch: int) -> int {
    s.len() as int / ch
}

/// `s` with a linear cross-fade applied over its first `n` frames:
/// the retained `anchor` fades out while `s` fades in; past the ramp,
/// `s` is unchanged.
pub open spec fn cross_faded(anchor: Seq<i16>, s: Seq<i16>, ch: int, n: int) -> Seq<i16>
    recommends
        1 <= ch,
        n * ch <= s.len(),
        n * ch <= anchor.len(),
{
    Seq::new(
        s.len(),
        |i: int|
            if i < n * ch {
                xfade_at(anchor[i] as int, s[i] as int, i / ch, n) as i16
            } else {
                s[i]
            },
    )
}

/// `s` with a linear fade-in over its first `n` frames: frame `f` of the
/// ramp is scaled by `f / n`.
pub open spec fn faded_in(s: Seq<i16>, ch: int, n: int) -> Seq<i16>
    recommends
        1 <= ch,
        n * ch <= s.len(),
{
    Seq::new(
        s.len(),
        |i: int|
            if i < n * ch {
                xfade_at(0, s[i] as int, i / ch, n) as i16
            } else {
                s[i]
            },
    )
}

/// Buffer and scratch after the loss-handling step: on a flagged loss a
/// buffer below one batch is cleared outright, a longer one is trimmed
/// to exactly one batch (the cross-fade anchor), and the scratch is
/// discarded; without loss nothing changes.
pub open spec fn loss_trimmed(u: Seq<i16>, w: Seq<i16>, loss: bool, ch: int, n: int) -> (
    Seq<i16>,
    Seq<i16>,
) {
    if loss {
        if frames(u, ch) < n {
            (Seq::empty(), Seq::empty())
        } else {
            (u.subrange(0, n * ch), Seq::empty())
        }
    } else {
        (u, w)
    }
}

/// Buffer and scratch after the underrun drain: a buffer holding less
/// than one batch is moved wholesale into the scratch, so no partial
/// batch is ever stranded below the render threshold.
pub open spec fn drained(u: Seq<i16>, w: Seq<i16>, ch: int, n: int) -> (Seq<i16>, Seq<i16>) {
    if frames(u, ch) < n {
        (Seq::empty(), w + u)
    } else {
        (u, w)
    }
}

/// Buffer and scratch after the packet has been taken in, before the
/// overrun check. A healthy buffer (no loss, at least one batch) simply
/// grows by the packet. Otherwise the packet joins the scratch, which
/// is released to the buffer only once it exceeds `a + n` frames; at
/// that moment its first batch is faded in, and mixed with the fading
/// anchor when one was retained.
pub open spec fn received(
    u: Seq<i16>,
    w: Seq<i16>,
    p: Seq<i16>,
    loss: bool,
    ch: int,
    n: int,
    a: int,
) -> (Seq<i16>, Seq<i16>) {
    let (u1, w1) = loss_trimmed(u, w, loss, ch, n);
    let (u2, w2) = drained(u1, w1, ch, n);
    if u2.len() == 0 || loss {
        let s = w2 + p;
        if frames(s, ch) > a + n {
            if loss && frames(u2, ch) == n {
                (cross_faded(u2, s, ch, n), Seq::empty())
            } else {
                (faded_in(s, ch, n), Seq::empty())
            }
        } else {
            (u2, s)
        }
    } else {
        (u2 + p, w2)
    }
}

/// The trim target of the overrun path: enough frames must remain to
/// anchor the cross-fade, so the target never drops below one batch.
pub open spec fn trim_target(n: int, a: int) -> int {
    if a >= n {
        a
    } else {
        n
    }
}

/// The buffer after the overrun check: a buffer beyond `2a + n` frames
/// is cut back to the trim target by dropping frames from the front,
/// and the old front is cross-faded out against the newly exposed
/// content.
pub open spec fn overrun_trimmed(v: Seq<i16>, ch: int, n: int, a: int) -> Seq<i16> {
    if frames(v, ch) > 2 * a + n {
        let dropped = (frames(v, ch) - trim_target(n, a)) * ch;
        cross_faded(v.subrange(0, n * ch), v.subrange(dropped, v.len() as int), ch, n)
    } else {
        v
    }
}

/// Buffer and scratch after one complete per-packet update: loss
/// handling, underrun drain, packet intake with re-priming, then the
/// overrun trim.
pub open spec fn receive_step(
    u: Seq<i16>,
    w: Seq<i16>,
    p: Seq<i16>,
    loss: bool,
    ch: int,
    n: int,
    a: int,
) -> (Seq<i16>, Seq<i16>) {
    let (v, w3) = received(u, w, p, loss, ch, n, a);
    if frames(v, ch) > 2 * a + n {
        (overrun_trimmed(v, ch, n, a), v.subrange(0, n * ch))
    } else {
        (v, w3)
    }
}

/// One complete receive-side update of the shared jitter buffer,
/// executed for every packet handed over by the transport: loss
/// handling, underrun drain, packet intake with re-priming, then the
/// overrun trim. `scratch` is the recovery sequence the receive loop
/// keeps across packets; the audio callback never sees it.
pub fn receive_samples_update(
    sample_buffer: &mut Vec<i16>,
    scratch: &mut Vec<i16>,
    packet: &Vec<i16>,
    had_packet_loss: bool,
    params: PlaybackParams,
)
    requires
        params.valid(),
        old(sample_buffer)@.len() as int % (params.channels as int) == 0,
        old(scratch)@.len() as int % (params.channels as int) == 0,
        packet@.len() as int % (params.channels as int) == 0,
    ensures
        final(sample_buffer)@ == receive_step(
            old(sample_buffer)@,
            old(scratch)@,
            packet@,
            had_packet_loss,
            params.channels as int,
            params.batch_frames as int,
            params.avg_frames as int,
        ).0,
        final(scratch)@ == receive_step(
            old(sample_buffer)@,
            old(scratch)@,
            packet@,
            had_packet_loss,
            params.channels as int,
            params.batch_frames as int,
            params.avg_frames as int,
        ).1,
{
    let ch: usize = params.channels;
    let n: usize = params.batch_frames;
    let a: usize = params.avg_frames;
    let ghost chi = ch as int;
    let ghost ni = n as int;
    let ghost ai = a as int;
    let ghost u0 = old(sample_buffer)@;
    let ghost w0 = old(scratch)@;
    proof {
        assert(ni * chi <= 0x1000_0000) by (nonlinear_arith)
            requires
                1 <= ni <= 0x0800_0000,
                1 <= chi <= 2,
        ;
    }

    // Loss handling: drop what cannot anchor a cross-fade, keep exactly
    // one batch when it can.
    if had_packet_loss {
        if sample_buffer.len() / ch < n {
            sample_buffer.clear();
        } else {
            proof {
                lemma_frames(u0.len() as int, chi, ni);
            }
            sample_buffer.truncate(n * ch);
        }
        scratch.clear();
    }
    let ghost u1 = loss_trimmed(u0, w0, had_packet_loss, chi, ni).0;
    let ghost w1 = loss_trimmed(u0, w0, had_packet_loss, chi, ni).1;
    proof {
        assert(sample_buffer@ == u1);
        assert(scratch@ == w1);
        lemma_batch_multiple(ni, chi);
        assert(u1.len() as int % chi == 0);
        assert(w1.len() as int % chi == 0);
    }

    // Underrun drain: a partial batch may not linger below the render
    // threshold; it moves into the scratch.
    if sample_buffer.len() / ch < n {
        append_all(scratch, sample_buffer);
        sample_buffer.clear();
    }
    let ghost u2 = drained(u1, w1, chi, ni).0;
    let ghost w2 = drained(u1, w1, chi, ni).1;
    proof {
        assert(sample_buffer@ == u2);
        assert(scratch@ == w2);
        lemma_frames_add(w1.len() as int, u1.len() as int, chi);
        assert(u2.len() as int % chi == 0);
        assert(w2.len() as int % chi == 0);
    }

    if sample_buffer.len() == 0 || had_packet_loss {
        append_all(scratch, packet);
        let ghost s_pre = w2 + packet@;
        proof {
            assert(scratch@ == s_pre);
            lemma_frames_add(w2.len() as int, packet@.len() as int, chi);
        }
        if scratch.len() / ch > a + n {
            proof {
                lemma_frames(s_pre.len() as int, chi, ai + ni + 1);
                lemma_mul_inequality(ni + 1, ai + ni + 1, chi);
                assert((ni + 1) * chi == ni * chi + chi) by (nonlinear_arith);
            }
            let total: usize = n * ch;
            let crossfade: bool = had_packet_loss && sample_buffer.len() / ch == n;
            proof {
                if crossfade {
                    lemma_frames(u2.len() as int, chi, ni + 1);
                    lemma_frames(u2.len() as int, chi, ni);
                    assert(u2.len() == ni * chi);
                }
            }
            let mut i: usize = 0;
            while i < total
                invariant
                    i <= total,
                    total as int == ni * chi,
                    ch as int == chi,
                    n as int == ni,
                    1 <= chi <= 2,
                    1 <= ni <= 0x0800_0000,
                    total <= scratch@.len(),
                    scratch@.len() == s_pre.len(),
                    sample_buffer@ == u2,
                    crossfade ==> u2.len() == total,
                    forall|j: int|
                        0 <= j < i ==> scratch@[j] == (xfade_at(
                            if crossfade {
                                u2[j] as int
                            } else {
                                0
                            },
                            s_pre[j] as int,
                            j / chi,
                            ni,
                        ) as i16),
                    forall|j: int| i <= j < s_pre.len() ==> scratch@[j] == s_pre[j],
                decreases total - i,
            {
                proof {
                    lemma_div_by_multiple_is_strongly_ordered(i as int, ni * chi, ni, chi);
                    lemma_batch_multiple(ni, chi);
                    lemma_div_pos_is_pos(i as int, chi);
                }
                let a_s: i16 = if crossfade {
                    sample_buffer[i]
                } else {
                    0
                };
                let b_s: i16 = scratch[i];
                let m = xfade_sample(a_s, b_s, i / ch, n);
                scratch[i] = m;
                i += 1;
            }
            if crossfade {
                sample_buffer.clear();
            }
            proof {
                if crossfade {
                    assert(scratch@ =~= cross_faded(u2, s_pre, chi, ni));
                } else {
                    lemma_batch_multiple(ni, chi);
                    assert(u2.len() == 0);
                    assert(scratch@ =~= faded_in(s_pre, chi, ni));
                }
            }
            append_all(sample_buffer, scratch);
            scratch.clear();
            proof {
                assert(sample_buffer@ =~= received(
                    u0,
                    w0,
                    packet@,
                    had_packet_loss,
                    chi,
                    ni,
                    ai,
                ).0);
            }
        }
    } else {
        append_all(sample_buffer, packet);
    }
    let ghost v = received(u0, w0, packet@, had_packet_loss, chi, ni, ai).0;
    let ghost w3 = received(u0, w0, packet@, had_packet_loss, chi, ni, ai).1;
    proof {
        assert(sample_buffer@ == v);
        assert(scratch@ == w3);
        if v.len() > 0 {
            lemma_frames_add(u2.len() as int, packet@.len() as int, chi);
            lemma_frames_add(w2.len() as int, packet@.len() as int, chi);
        }
        assert(v.len() as int % chi == 0);
    }

    // Overrun trim: a buffer that has drifted past `2a + n` frames is
    // cut back, cross-fading its old front out against the newly
    // exposed content.
    let buffer_frames: usize = sample_buffer.len() / ch;
    if buffer_frames > 2 * a + n {
        proof {
            lemma_frames(v.len() as int, chi, 2 * ai + ni + 1);
            lemma_mul_inequality(ni + 1, 2 * ai + ni + 1, chi);
            assert((ni + 1) * chi == ni * chi + chi) by (nonlinear_arith);
        }
        *scratch = copy_range(sample_buffer, 0, n * ch);
        let target: usize = if a >= n {
            a
        } else {
            n
        };
        proof {
            lemma_frames(v.len() as int, chi, buffer_frames as int);
            lemma_mul_is_distributive_sub_other_way(chi, buffer_frames as int, target as int);
            lemma_mul_inequality(target as int, buffer_frames as int, chi);
        }
        let dropped: usize = (buffer_frames - target) * ch;
        drop_front(sample_buffer, dropped);
        let ghost f_pre = v.subrange(dropped as int, v.len() as int);
        proof {
            assert(sample_buffer@ == f_pre);
            lemma_mul_inequality(ni, target as int, chi);
        }
        let total: usize = n * ch;
        let mut i: usize = 0;
        while i < total
            invariant
                i <= total,
                total as int == ni * chi,
                ch as int == chi,
                n as int == ni,
                1 <= chi <= 2,
                1 <= ni <= 0x0800_0000,
                total <= sample_buffer@.len(),
                sample_buffer@.len() == f_pre.len(),
                scratch@.len() == total,
                scratch@ == v.subrange(0, ni * chi),
                forall|j: int|
                    0 <= j < i ==> sample_buffer@[j] == (xfade_at(
                        v.subrange(0, ni * chi)[j] as int,
                        f_pre[j] as int,
                        j / chi,
                        ni,
                    ) as i16),
                forall|j: int| i <= j < f_pre.len() ==> sample_buffer@[j] == f_pre[j],
            decreases total - i,
        {
            proof {
                lemma_div_by_multiple_is_strongly_ordered(i as int, ni * chi, ni, chi);
                lemma_batch_multiple(ni, chi);
                lemma_div_pos_is_pos(i as int, chi);
            }
            let a_s: i16 = scratch[i];
            let b_s: i16 = sample_buffer[i];
            let m = xfade_sample(a_s, b_s, i / ch, n);
            sample_buffer[i] = m;
            i += 1;
        }
        proof {
            assert(sample_buffer@ =~= overrun_trimmed(v, chi, ni, ai));
        }
    }
    proof {
        assert(sample_buffer@ == receive_step(u0, w0, packet@, had_packet_loss, chi, ni, ai).0);
        assert(scratch@ == receive_step(u0, w0, packet@, had_packet_loss, chi, ni, ai).1);
    }
}

/// The render pull, called once per audio callback tick: it must fill
/// `output_buffer` with exactly one batch of samples. When the buffer
/// holds at least one batch, that batch is drained from its front;
/// otherwise the output is silence and the buffer is left untouched.
/// The fades are already rendered into the buffer by the receive side,
/// so the callback does no other processing.
pub fn get_next_frame_batch(
    sample_buffer: &mut Vec<i16>,
    channels_count: usize,
    batch_frames_count: usize,
    output_buffer: &mut Vec<i16>,
)
    requires
        1 <= channels_count <= 2,
        1 <= batch_frames_count <= MAX_FRAMES,
    ensures
        final(output_buffer)@.len() == batch_frames_count * channels_count,
        frames(old(sample_buffer)@, channels_count as int) >= batch_frames_count ==> {
            &&& final(output_buffer)@ == old(sample_buffer)@.subrange(
                0,
                batch_frames_count * channels_count,
            )
            &&& final(sample_buffer)@ == old(sample_buffer)@.subrange(
                batch_frames_count * channels_count,
                old(sample_buffer)@.len() as int,
            )
        },
        frames(old(sample_buffer)@, channels_count as int) < batch_frames_count ==> {
            &&& final(output_buffer)@ == Seq::<i16>::new(
                (batch_frames_count * channels_count) as nat,
                |i: int| 0i16,
            )
            &&& final(sample_buffer)@ == old(sample_buffer)@
        },
{
    let ghost chi = channels_count as int;
    let ghost ni = batch_frames_count as int;
    proof {
        assert(ni * chi <= 0x1000_0000) by (nonlinear_arith)
            requires
                1 <= ni <= 0x0800_0000,
                1 <= chi <= 2,
        ;
    }
    output_buffer.clear();
    let total: usize = batch_frames_count * channels_count;
    if sample_buffer.len() / channels_count >= batch_frames_count {
        proof {
            lemma_fundamental_div_mod(sample_buffer@.len() as int, chi);
            lemma_mul_inequality(ni, sample_buffer@.len() as int / chi, chi);
            lemma_mul_is_commutative(sample_buffer@.len() as int / chi, chi);
        }
        let head = copy_range(sample_buffer, 0, total);
        append_all(output_buffer, &head);
        drop_front(sample_buffer, total);
    } else {
        let silence = crate::vecs::zeros(total);
        append_all(output_buffer, &silence);
        proof {
            assert(output_buffer@ =~= Seq::<i16>::new((ni * chi) as nat, |i: int| 0i16));
        }
    }
}

/// After every update the buffer is a whole number of frames, it is
/// either empty or renderable (at least one batch), it never exceeds
/// the overrun ceiling, and the scratch stays a whole number of frames
/// below its release threshold.
pub proof fn lemma_receive_step_invariants(
    u: Seq<i16>,
    w: Seq<i16>,
    p: Seq<i16>,
    loss: bool,
    ch: int,
    n: int,
    a: int,
)
    requires
        1 <= ch <= 2,
        1 <= n <= a,
        u.len() as int % ch == 0,
        w.len() as int % ch == 0,
        p.len() as int % ch == 0,
        frames(w, ch) <= a + n,
    ensures
        receive_step(u, w, p, loss, ch, n, a).0.len() as int % ch == 0,
        receive_step(u, w, p, loss, ch, n, a).0.len() == 0 || frames(
            receive_step(u, w, p, loss, ch, n, a).0,
            ch,
        ) >= n,
        frames(receive_step(u, w, p, loss, ch, n, a).0, ch) <= 2 * a + n,
        receive_step(u, w, p, loss, ch, n, a).1.len() as int % ch == 0,
        frames(receive_step(u, w, p, loss, ch, n, a).1, ch) <= a + n,
{
    let u1 = loss_trimmed(u, w, loss, ch, n).0;
    let w1 = loss_trimmed(u, w, loss, ch, n).1;
    lemma_batch_multiple(n, ch);
    if loss && frames(u, ch) >= n {
        lemma_frames(u.len() as int, ch, n);
    }
    assert(u1.len() as int % ch == 0);
    let u2 = drained(u1, w1, ch, n).0;
    let w2 = drained(u1, w1, ch, n).1;
    lemma_frames_add(w1.len() as int, u1.len() as int, ch);
    assert(u2.len() as int % ch == 0 && w2.len() as int % ch == 0);
    assert(u2.len() > 0 ==> frames(u2, ch) >= n && w2 == w1);
    let v = received(u, w, p, loss, ch, n, a).0;
    let w3 = received(u, w, p, loss, ch, n, a).1;
    if u2.len() == 0 || loss {
        let s = w2 + p;
        lemma_frames_add(w2.len() as int, p.len() as int, ch);
        if frames(s, ch) > a + n {
            assert(v.len() == s.len());
            lemma_frames(s.len() as int, ch, n);
            assert(v.len() as int % ch == 0 && frames(v, ch) >= n && v.len() > 0) by {
                lemma_frames(s.len() as int, ch, 1);
            }
        } else {
            assert(v == u2 && w3 == s);
            if u2.len() > 0 && loss {
                lemma_batch_multiple(n, ch);
            }
        }
    } else {
        lemma_frames_add(u2.len() as int, p.len() as int, ch);
        lemma_frames(u2.len() as int, ch, n);
        assert(frames(v, ch) >= n);
        assert(v.len() > 0) by {
            lemma_frames(v.len() as int, ch, 1);
        }
        assert(w3 == w2);
    }
    assert(v.len() as int % ch == 0);
    assert(v.len() == 0 || frames(v, ch) >= n);
    assert(frames(w3, ch) <= a + n);
    if frames(v, ch) > 2 * a + n {
        let t = trim_target(n, a);
        let dropped = (frames(v, ch) - t) * ch;
        lemma_frames(v.len() as int, ch, n);
        lemma_frames(v.len() as int, ch, frames(v, ch));
        lemma_mul_is_distributive_sub_other_way(ch, frames(v, ch), t);
        lemma_mul_inequality(t, frames(v, ch), ch);
        lemma_mul_inequality(1, t, ch);
        assert(1 * ch == ch) by (nonlinear_arith);
        let r = receive_step(u, w, p, loss, ch, n, a).0;
        assert(r.len() == v.len() - dropped);
        assert(r.len() == t * ch);
        lemma_batch_multiple(t, ch);
        assert(frames(r, ch) == t);
        lemma_batch_multiple(n, ch);
        assert(receive_step(u, w, p, loss, ch, n, a).1 == v.subrange(0, n * ch));
    }
}

/// A length that is a whole number of frames factors as frame count
/// times channel count, and its frame count compares against a frame
/// bound exactly as the length compares against that bound in samples.
pub proof fn lemma_frames(len: int, ch: int, k: int)
    requires
        1 <= ch,
        0 <= len,
        len % ch == 0,
        0 <= k,
    ensures
        len == (len / ch) * ch,
        len / ch < k <==> len < k * ch,
        len / ch >= 0,
{
    lemma_fundamental_div_mod(len, ch);
    lemma_mul_is_commutative(len / ch, ch);
    if len / ch < k {
        lemma_mul_inequality(len / ch + 1, k, ch);
        assert((len / ch + 1) * ch == (len / ch) * ch + ch) by (nonlinear_arith);
    }
    if len < k * ch {
        lemma_div_by_multiple_is_strongly_ordered(len, k * ch, k, ch);
        lemma_mul_is_commutative(k, ch);
        lemma_div_multiples_vanish(k, ch);
    }
    assert(len / ch >= 0) by {
        if len / ch < 0 {
            lemma_mul_inequality(len / ch, -1, ch);
            assert((-1) * ch == -ch) by (nonlinear_arith);
        }
    }
}

/// The sum of two whole-frame lengths is again a whole number of
/// frames.
pub proof fn lemma_frames_add(x: int, y: int, ch: int)
    requires
        1 <= ch,
        0 <= x,
        0 <= y,
        x % ch == 0,
        y % ch == 0,
    ensures
        (x + y) % ch == 0,
        (x + y) / ch == x / ch + y / ch,
{
    lemma_fundamental_div_mod(x, ch);
    lemma_fundamental_div_mod(y, ch);
    lemma_mod_adds(x, y, ch);
    assert(ch * (x / ch) + ch * (y / ch) == ch * (x / ch + y / ch)) by (nonlinear_arith);
    lemma_div_multiples_vanish(x / ch + y / ch, ch);
}

/// A whole number of batches is a whole number of frames.
pub proof fn lemma_batch_multiple(k: int, ch: int)
    requires
        1 <= ch,
        0 <= k,
    ensures
        (k * ch) % ch == 0,
        (k * ch) / ch == k,
        0 <= k * ch,
    {
    lemma_mod_multiples_basic(k, ch);
    lemma_mul_is_commutative(k, ch);
    lemma_div_multiples_vanish(k, ch);
    lemma_mul_inequality(0, k, ch);
    assert(0 * ch == 0) by (nonlinear_arith);
}


/// The overrun trim lands exactly on the trim target, which lies in
/// the window from `max(avg, batch)` up to `2*avg + batch`: enough
/// remains to anchor the next cross-fade, and the drift is gone.
pub proof fn lemma_overrun_trim_window(v: Seq<i16>, ch: int, n: int, a: int)
    requires
        1 <= ch <= 2,
        1 <= n,
        1 <= a,
        v.len() as int % ch == 0,
        frames(v, ch) > 2 * a + n,
    ensures
        frames(overrun_trimmed(v, ch, n, a), ch) == trim_target(n, a),
        n <= trim_target(n, a) <= 2 * a + n,
        a <= trim_target(n, a),
{
    let t = trim_target(n, a);
    let dropped = (frames(v, ch) - t) * ch;
    lemma_frames(v.len() as int, ch, frames(v, ch));
    lemma_mul_is_distributive_sub_other_way(ch, frames(v, ch), t);
    lemma_mul_inequality(t, frames(v, ch), ch);
    lemma_mul_inequality(0, t, ch);
    assert(0 * ch == 0) by (nonlinear_arith);
    let r = overrun_trimmed(v, ch, n, a);
    assert(r.len() == v.len() - dropped);
    assert(r.len() == t * ch);
    lemma_batch_multiple(t, ch);
}

/// An empty packet without a loss flag leaves the jitter buffer and the
/// scratch exactly as they were, whenever they satisfy the standing
/// invariants of the engine.
pub proof fn lemma_empty_packet_unchanged(u: Seq<i16>, w: Seq<i16>, ch: int, n: int, a: int)
    requires
        1 <= ch <= 2,
        1 <= n <= a,
        u.len() as int % ch == 0,
        w.len() as int % ch == 0,
        u.len() == 0 || frames(u, ch) >= n,
        frames(u, ch) <= 2 * a + n,
        frames(w, ch) <= a + n,
    ensures
        receive_step(u, w, Seq::<i16>::empty(), false, ch, n, a).0 == u,
        receive_step(u, w, Seq::<i16>::empty(), false, ch, n, a).1 == w,
{
    let p = Seq::<i16>::empty();
    if u.len() == 0 {
        assert(frames(u, ch) == 0);
        assert(w + u =~= w);
        assert((w + u) + p =~= w);
        assert(receive_step(u, w, p, false, ch, n, a).0 =~= u);
        assert(receive_step(u, w, p, false, ch, n, a).1 =~= w);
    } else {
        lemma_frames(u.len() as int, ch, n);
        assert(!(frames(u, ch) < n));
        assert(u + p =~= u);
        assert(receive_step(u, w, p, false, ch, n, a).0 =~= u);
        assert(receive_step(u, w, p, false, ch, n, a).1 =~= w);
    }
}

/// With a loss flag, a buffer of exactly one batch, and a packet large
/// enough to re-prime at once, the cross-fade path is taken: the first
/// batch of the new buffer is the convex combination of the retained
/// anchor fading out and the packet fading in, and the scratch is left
/// empty.
pub proof fn lemma_loss_crossfade(u: Seq<i16>, w: Seq<i16>, p: Seq<i16>, ch: int, n: int, a: int)
    requires
        1 <= ch <= 2,
        1 <= n <= a,
        u.len() as int % ch == 0,
        w.len() as int % ch == 0,
        p.len() as int % ch == 0,
        frames(u, ch) == n,
        a + n < frames(p, ch) <= 2 * a + n,
    ensures
        receive_step(u, w, p, true, ch, n, a).0 == cross_faded(u, p, ch, n),
        receive_step(u, w, p, true, ch, n, a).1 == Seq::<i16>::empty(),
        forall|i: int|
            0 <= i < n * ch ==> receive_step(u, w, p, true, ch, n, a).0[i] as int == xfade_at(
                u[i] as int,
                p[i] as int,
                i / ch,
                n,
            ),
{
    lemma_frames(u.len() as int, ch, n);
    lemma_frames(u.len() as int, ch, n + 1);
    assert(u.len() == n * ch) by {
        lemma_frames(u.len() as int, ch, frames(u, ch));
    }
    let u1 = loss_trimmed(u, w, true, ch, n).0;
    assert(u1 =~= u);
    lemma_batch_multiple(n, ch);
    assert(frames(u1, ch) == n);
    let s = loss_trimmed(u, w, true, ch, n).1 + p;
    assert(s =~= p);
    lemma_frames(p.len() as int, ch, n);
    lemma_frames(p.len() as int, ch, frames(p, ch));
    lemma_mul_inequality(n, frames(p, ch), ch);
    let v = received(u, w, p, true, ch, n, a).0;
    assert(v == cross_faded(u, p, ch, n));
    assert(frames(v, ch) <= 2 * a + n);
    assert(receive_step(u, w, p, true, ch, n, a).0 == v);
    assert forall|i: int| 0 <= i < n * ch implies v[i] as int == xfade_at(
        u[i] as int,
        p[i] as int,
        i / ch,
        n,
    ) by {
        lemma_div_by_multiple_is_strongly_ordered(i, n * ch, n, ch);
        lemma_div_pos_is_pos(i, ch);
        lemma_batch_multiple(n, ch);
        crate::sample::lemma_xfade_in_s16_range(u[i] as int, p[i] as int, i / ch, n);
    }
}

/// The jitter buffer: the FIFO of interleaved canonical samples shared
/// between the network receive task and the audio render callback,
/// together with the recovery scratch the receive side keeps across
/// packets and the derived stream parameters.
pub struct JitterBuffer {
    samples: Vec<i16>,
    scratch: Vec<i16>,
    params: PlaybackParams,
}

impl JitterBuffer {
    /// The samples visible to the render side, oldest first.
    pub closed spec fn buffer(&self) -> Seq<i16> {
        self.samples@
    }

    /// The recovery scratch held back from the renderer.
    pub closed spec fn pending(&self) -> Seq<i16> {
        self.scratch@
    }

    /// The stream parameters the buffer was created with.
    pub closed spec fn config(&self) -> PlaybackParams {
        self.params
    }

    /// Internal consistency: the parameters are valid, buffer and
    /// scratch hold whole frames, the scratch sits at or below its
    /// release threshold, and the buffer never exceeds the overrun
    /// ceiling.
    pub open spec fn wf(&self) -> bool {
        &&& self.config().valid()
        &&& self.buffer().len() as int % (self.config().channels as int) == 0
        &&& self.pending().len() as int % (self.config().channels as int) == 0
        &&& frames(self.pending(), self.config().channels as int) <= self.config().avg_frames
            + self.config().batch_frames
        &&& frames(self.buffer(), self.config().channels as int) <= 2 * self.config().avg_frames
            + self.config().batch_frames
    }

    /// An empty jitter buffer for a freshly opened stream.
    pub fn new(params: PlaybackParams) -> (r: JitterBuffer)
        requires
            params.valid(),
        ensures
            r.wf(),
            r.buffer().len() == 0,
            r.pending().len() == 0,
            r.config() == params,
    {
        proof {
            vstd::arithmetic::mul::lemma_mul_basics_1(params.channels as int);
            lemma_batch_multiple(0, params.channels as int);
        }
        JitterBuffer { samples: Vec::new(), scratch: Vec::new(), params }
    }

    /// How many whole frames the renderer could currently draw on.
    pub fn buffered_frames(&self) -> (r: usize)
        requires
            self.wf(),
        ensures
            r as int == frames(self.buffer(), self.config().channels as int),
    {
        self.samples.len() / self.params.channels
    }

    /// Takes in one decoded packet under the lock of the buffer,
    /// applying loss concealment, re-priming and the overrun trim.
    /// Afterwards the buffer holds a whole number of frames and is
    /// either empty or renderable: at least one batch.
    pub fn receive_packet(&mut self, packet: &Vec<i16>, had_packet_loss: bool)
        requires
            old(self).wf(),
            packet@.len() as int % (old(self).config().channels as int) == 0,
        ensures
            final(self).wf(),
            final(self).config() == old(self).config(),
            final(self).buffer() == receive_step(
                old(self).buffer(),
                old(self).pending(),
                packet@,
                had_packet_loss,
                old(self).config().channels as int,
                old(self).config().batch_frames as int,
                old(self).config().avg_frames as int,
            ).0,
            final(self).pending() == receive_step(
                old(self).buffer(),
                old(self).pending(),
                packet@,
                had_packet_loss,
                old(self).config().channels as int,
                old(self).config().batch_frames as int,
                old(self).config().avg_frames as int,
            ).1,
            final(self).buffer().len() as int % (old(self).config().channels as int) == 0,
            final(self).buffer().len() == 0 || frames(
                final(self).buffer(),
                old(self).config().channels as int,
            ) >= old(self).config().batch_frames,
    {
        let params = self.params;
        receive_samples_update(
            &mut self.samples,
            &mut self.scratch,
            packet,
            had_packet_loss,
            params,
        );
        proof {
            lemma_receive_step_invariants(
                old(self).buffer(),
                old(self).pending(),
                packet@,
                had_packet_loss,
                params.channels as int,
                params.batch_frames as int,
                params.avg_frames as int,
            );
        }
    }

    /// Takes in one wire packet: decodes its payload and, when it
    /// holds a whole number of frames, runs the receive update under
    /// its loss flag. A torn payload is refused and changes nothing;
    /// the framed transport never produces one.
    pub fn receive_wire(&mut self, packet: &crate::packets::AudioPacket) -> (ok: bool)
        requires
            old(self).wf(),
        ensures
            final(self).wf(),
            final(self).config() == old(self).config(),
            ok == (crate::sample::decoded_samples(packet.payload@).len() as int % (old(
                self,
            ).config().channels as int) == 0),
            ok ==> final(self).buffer() == receive_step(
                old(self).buffer(),
                old(self).pending(),
                crate::sample::decoded_samples(packet.payload@),
                packet.had_packet_loss,
                old(self).config().channels as int,
                old(self).config().batch_frames as int,
                old(self).config().avg_frames as int,
            ).0,
            ok ==> final(self).pending() == receive_step(
                old(self).buffer(),
                old(self).pending(),
                crate::sample::decoded_samples(packet.payload@),
                packet.had_packet_loss,
                old(self).config().channels as int,
                old(self).config().batch_frames as int,
                old(self).config().avg_frames as int,
            ).1,
            !ok ==> final(self).buffer() == old(self).buffer() && final(self).pending() == old(
                self,
            ).pending(),
    {
        let samples = packet.decode();
        if samples.len() % self.params.channels == 0 {
            self.receive_packet(&samples, packet.had_packet_loss);
            true
        } else {
            false
        }
    }

    /// One render tick: fills `output_buffer` with exactly one batch,
    /// drained from the front of the buffer when a whole batch is
    /// available and silent otherwise. The scratch is never touched.
    pub fn render_batch(&mut self, output_buffer: &mut Vec<i16>)
        requires
            old(self).wf(),
        ensures
            final(self).wf(),
            final(self).config() == old(self).config(),
            final(self).pending() == old(self).pending(),
            final(output_buffer)@.len() == old(self).config().batch_frames * old(
                self,
            ).config().channels,
            frames(old(self).buffer(), old(self).config().channels as int) >= old(
                self,
            ).config().batch_frames ==> {
                &&& final(output_buffer)@ == old(self).buffer().subrange(
                    0,
                    old(self).config().batch_frames * old(self).config().channels,
                )
                &&& final(self).buffer() == old(self).buffer().subrange(
                    old(self).config().batch_frames * old(self).config().channels,
                    old(self).buffer().len() as int,
                )
            },
            frames(old(self).buffer(), old(self).config().channels as int) < old(
                self,
            ).config().batch_frames ==> {
                &&& final(output_buffer)@ == Seq::<i16>::new(
                    (old(self).config().batch_frames * old(self).config().channels) as nat,
                    |i: int| 0i16,
                )
                &&& final(self).buffer() == old(self).buffer()
            },
    {
        let ghost chi = self.params.channels as int;
        let ghost ni = self.params.batch_frames as int;
        let ch = self.params.channels;
        let n = self.params.batch_frames;
        get_next_frame_batch(&mut self.samples, ch, n, output_buffer);
        proof {
            if frames(old(self).buffer(), chi) >= ni {
                lemma_frames(old(self).buffer().len() as int, chi, ni);
                lemma_batch_multiple(ni, chi);
                let rest = self.samples@;
                assert(rest.len() == old(self).buffer().len() - ni * chi);
                lemma_frames(old(self).buffer().len() as int, chi, frames(old(self).buffer(), chi));
                lemma_mul_is_distributive_sub_other_way(chi, frames(old(self).buffer(), chi), ni);
                assert(rest.len() as int == (frames(old(self).buffer(), chi) - ni) * chi);
                lemma_batch_multiple(frames(old(self).buffer(), chi) - ni, chi);
            }
        }
    }
}

} // verus!
