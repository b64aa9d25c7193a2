//! The layout of interleaved output frames: one stereo sample per frame,
//! spread over however many channels the device has.

use vstd::prelude::*;

verus! {

/// The sample that a channel of a frame carries: the left one on channels
/// with an even index, the right one on channels with an odd index.
pub open spec fn channel_sample<T>(channel: int, left: T, right: T) -> T {
    if channel % 2 == 0 {
        left
    } else {
        right
    }
}

/// The sample at position `at` of a buffer of frames of `channels` channels
/// each, where frame `n` carries the stereo pair `samples[n]`.
pub open spec fn interleaved<T>(samples: Seq<(T, T)>, channels: int, at: int) -> T {
    channel_sample(at % channels, samples[at / channels].0, samples[at / channels].1)
}

/// The number of frames, the last one possibly short, that a buffer of
/// `len` samples holds when a frame has `channels` channels.
pub open spec fn frames_in(len: int, channels: int) -> int {
    (len + channels - 1) / channels
}

/// The number of frames that a buffer of `len` samples holds when a frame
/// has `channels` channels: one stereo pair is needed for each.
pub fn frame_count(len: usize, channels: usize) -> (frames: usize)
    requires
        channels > 0,
    ensures
        frames == frames_in(len as int, channels as int),
{
    let whole = len / channels;
    let rest = len % channels;
    proof {
        let c = channels as int;
        vstd::arithmetic::div_mod::lemma_fundamental_div_mod(len as int, c);
        vstd::arithmetic::div_mod::lemma_mod_bound(len as int, c);
        assert((whole + 1) * c == c * whole + c && whole * c == c * whole) by (nonlinear_arith);
        assert(whole + rest <= len) by (nonlinear_arith)
            requires
                len == c * whole + rest,
                c >= 1,
                whole >= 0,
        ;
        if rest == 0 {
            vstd::arithmetic::div_mod::lemma_fundamental_div_mod_converse(
                len + c - 1,
                c,
                whole as int,
                c - 1,
            );
        } else {
            vstd::arithmetic::div_mod::lemma_fundamental_div_mod_converse(
                len + c - 1,
                c,
                whole + 1,
                rest - 1,
            );
        }
    }
    if rest == 0 {
        whole
    } else {
        whole + 1
    }
}

/// Fills one frame with a stereo pair: even channels get `left`, odd
/// channels get `right`.
pub fn write_frame<T: Copy>(frame: &mut [T], left: T, right: T)
    ensures
        final(frame)@.len() == old(frame)@.len(),
        forall|channel: int|
            0 <= channel < old(frame)@.len() ==> #[trigger] final(frame)@[channel] == channel_sample(
                channel,
                left,
                right,
            ),
{
    let mut channel: usize = 0;
    while channel < frame.len()
        invariant
            frame@.len() == old(frame)@.len(),
            channel <= frame@.len(),
            forall|c: int|
                0 <= c < channel ==> #[trigger] frame@[c] == channel_sample(c, left, right),
        decreases frame@.len() - channel,
    {
        if channel % 2 == 0 {
            frame[channel] = left;
        } else {
            frame[channel] = right;
        }
        channel = channel + 1;
    }
}

/// Fills a buffer frame by frame, frame `n` with the stereo pair
/// `samples[n]`, as far as there are samples: the first `written` frames are
/// filled, the rest of the buffer is left as it was. A last frame that the
/// buffer holds only in part is filled in that part.
pub fn write_data<T: Copy>(output: &mut [T], channels: usize, samples: &[(T, T)]) -> (written: usize)
    requires
        channels > 0,
    ensures
        final(output)@.len() == old(output)@.len(),
        written == if samples@.len() <= frames_in(old(output)@.len() as int, channels as int) {
            samples@.len() as int
        } else {
            frames_in(old(output)@.len() as int, channels as int)
        },
        forall|at: int|
            0 <= at < old(output)@.len() ==> #[trigger] final(output)@[at] == if at / (channels as int)
                < written {
                interleaved(samples@, channels as int, at)
            } else {
                old(output)@[at]
            },
{
    let len = output.len();
    let mut frame: usize = 0;
    let mut start: usize = 0;
    while start < len && frame < samples.len()
        invariant
            channels > 0,
            len == old(output)@.len(),
            output@.len() == len,
            start == if frame * channels <= len { frame * channels } else { len as int },
            frame <= samples@.len(),
            frame > 0 ==> (frame - 1) * channels < len,
            forall|at: int|
                0 <= at < len ==> #[trigger] output@[at] == if at / (channels as int) < frame {
                    interleaved(samples@, channels as int, at)
                } else {
                    old(output)@[at]
                },
        decreases len - start,
    {
        assert((frame + 1) * channels == frame * channels + channels) by (nonlinear_arith);
        let (left, right) = samples[frame];
        let room = len - start;
        let width = if room < channels { room } else { channels };
        let mut channel: usize = 0;
        while channel < width
            invariant
                channels > 0,
                len == old(output)@.len(),
                output@.len() == len,
                start == frame * channels,
                start < len,
                width <= channels,
                width == if len - start < channels { len - start } else { channels as int },
                channel <= width,
                frame < samples@.len(),
                (left, right) == samples@[frame as int],
                forall|at: int|
                    0 <= at < len ==> #[trigger] output@[at] == if at / (channels as int) < frame || (
                    start <= at < start + channel) {
                        interleaved(samples@, channels as int, at)
                    } else {
                        old(output)@[at]
                    },
            decreases width - channel,
        {
            proof {
                lemma_position(frame as int, channels as int, channel as int);
            }
            if channel % 2 == 0 {
                output[start + channel] = left;
            } else {
                output[start + channel] = right;
            }
            channel = channel + 1;
        }
        proof {
            assert forall|at: int| 0 <= at < len implies #[trigger] output@[at] == if at / (
            channels as int) < frame + 1 {
                interleaved(samples@, channels as int, at)
            } else {
                old(output)@[at]
            } by {
                lemma_frame_of(at, frame as int, channels as int);
            }
        }
        start = start + width;
        frame = frame + 1;
    }
    proof {
        lemma_frame_bounds(frame as int, channels as int, len as int);
        if frame > 0 {
            lemma_frame_bounds(frame - 1, channels as int, len as int);
        }
    }
    frame
}

/// Position `channel` of frame `frame` lies at `frame * channels + channel`,
/// and from that position frame and channel are found again by division
/// and remainder.
pub proof fn lemma_position(frame: int, channels: int, channel: int)
    requires
        0 <= frame,
        0 <= channel < channels,
    ensures
        (frame * channels + channel) / channels == frame,
        (frame * channels + channel) % channels == channel,
{
    vstd::arithmetic::div_mod::lemma_fundamental_div_mod_converse(
        frame * channels + channel,
        channels,
        frame,
        channel,
    );
    assert(frame * channels == channels * frame) by (nonlinear_arith);
}

/// A position belongs to frame `frame` exactly when it lies in the
/// `channels` positions that start at `frame * channels`.
pub proof fn lemma_frame_of(at: int, frame: int, channels: int)
    requires
        0 <= at,
        0 <= frame,
        0 < channels,
    ensures
        at / channels == frame <==> frame * channels <= at < frame * channels + channels,
        at / channels < frame <==> at < frame * channels,
{
    vstd::arithmetic::div_mod::lemma_fundamental_div_mod(at, channels);
    vstd::arithmetic::div_mod::lemma_mod_bound(at, channels);
    let q = at / channels;
    assert(q < frame ==> channels * q + channels <= channels * frame) by (nonlinear_arith)
        requires
            0 < channels,
    ;
    assert(q > frame ==> channels * q >= channels * frame + channels) by (nonlinear_arith)
        requires
            0 < channels,
    ;
    assert(frame * channels == channels * frame) by (nonlinear_arith);
}

/// Frame `frame` starts inside a buffer of `len` samples exactly when the
/// buffer holds more than `frame` frames.
pub proof fn lemma_frame_bounds(frame: int, channels: int, len: int)
    requires
        0 <= frame,
        0 < channels,
        0 <= len,
    ensures
        frame * channels < len <==> frame < frames_in(len, channels),
{
    lemma_frame_of(len + channels - 1, frame, channels);
    assert((frame + 1) * channels == frame * channels + channels) by (nonlinear_arith);
    lemma_frame_of(len + channels - 1, frame + 1, channels);
}

} // verus!
