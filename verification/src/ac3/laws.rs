//! What decoding audio adds up to, frame by frame.

use vstd::arithmetic::power2::{lemma2_to64, lemma_pow2_unfold};
use vstd::prelude::*;
use crate::ac3::decoder::{
    ac3_frame, audio_of, decode_from, decode_outcome, eac3_frame, eac3_frame_len, eac3_from, frame_at,
    nothing_collected, plane_channels, silence, syncinfo_of, with_frame, AudioView, AuOutcome,
    CollectedView, DecodedAudio, ReceivedView,
};
use crate::ac3::downmix::{route_of, samples_of, Gain};
use crate::ac3::header::{starts_syncframe, syncframe_channels};
use crate::bits::{field, lemma_field_range};
use crate::mpa::{
    after_packets, le_bytes, mpa_frame, mpa_outcome, mpa_split, pcm_bytes,
    pcm_is_two_bytes_per_sample, DecodedView, MpaState, Progress,
};
use crate::ts::mp2_header::layer2_channels;
use crate::ts::pixel_laws::{fields_join, whole_bytes_are_read};

verus! {

/// Decoded audio shows its fields.
pub proof fn audio_shows_its_fields(audio: DecodedAudio)
    ensures
        audio.view().pcm_s16le == audio.pcm_s16le@,
        audio.view().sample_rate == audio.sample_rate,
        audio.view().channels == audio.channels,
{
}

// ---------------------------------------------------------------------------
// Frame headers
// ---------------------------------------------------------------------------

/// The header of an E-AC-3 sync frame: eleven bits behind the stream type and
/// number count its 16-bit words less one, and the two bits behind them tell
/// the sample rate. The bsid of base AC-3 is at most 10, and its header is read
/// outside.
pub proof fn frame_headers_are_read_by_their_bits(data: Seq<u8>, at: int)
    requires
        0 <= at,
        at + 6 <= data.len(),
    ensures
        eac3_frame_len(data, at) == 2 * (field(data, 8 * at + 21, 11) + 1),
        field(data, 8 * at + 40, 5) > 10 ==> (frame_at(data, at) matches Some((len, rate)) && len
            == 2 * (field(data, 8 * at + 21, 11) + 1) && rate == (if field(data, 8 * at + 32, 2)
            == 1 {
            44_100u32
        } else if field(data, 8 * at + 32, 2) == 2 {
            32_000u32
        } else {
            48_000u32
        })),
        field(data, 8 * at + 40, 5) <= 10 ==> match syncinfo_of(data.skip(at)) {
            Some((len, rate)) => frame_at(data, at) == Some((len as int, rate)),
            None => frame_at(data, at) is None,
        },
{
    lemma2_to64();
    lemma_pow2_unfold(8);
    whole_bytes_are_read(data, at + 2);
    whole_bytes_are_read(data, at + 3);
    whole_bytes_are_read(data, at + 4);
    whole_bytes_are_read(data, at + 5);
    fields_join(data, 8 * at + 16, 5, 3);
    fields_join(data, 8 * at + 21, 3, 8);
    fields_join(data, 8 * at + 32, 2, 6);
    fields_join(data, 8 * at + 40, 5, 3);
    lemma_field_range(data, 8 * at + 16, 5);
    lemma_field_range(data, 8 * at + 21, 3);
    lemma_field_range(data, 8 * at + 32, 2);
    lemma_field_range(data, 8 * at + 34, 6);
    lemma_field_range(data, 8 * at + 40, 5);
    lemma_field_range(data, 8 * at + 45, 3);
    assert(8 * (at + 2) == 8 * at + 16);
    assert(8 * (at + 3) == 8 * at + 24);
    assert(8 * (at + 4) == 8 * at + 32);
    assert(8 * (at + 5) == 8 * at + 40);
}

/// A sync frame begins with the bytes 0B 77.
pub proof fn sync_frames_begin_with_their_word(data: Seq<u8>)
    ensures
        starts_syncframe(data) <==> data.len() >= 2 && data[0] == 0x0b && data[1] == 0x77,
{
}

/// The channels that each coding mode has without the LFE: two mono channels,
/// or up to three in front and up to two behind.
pub open spec fn mode_channels(acmod: int) -> int {
    if acmod == 0 {
        2
    } else {
        let front = if acmod == 1 {
            1int
        } else if acmod == 3 || acmod == 5 || acmod == 7 {
            3
        } else {
            2
        };
        let behind = if acmod < 4 {
            0int
        } else if acmod < 6 {
            1
        } else {
            2
        };
        front + behind
    }
}

/// The channels of a sync frame are those of its coding mode, and the LFE if it
/// is on. E-AC-3 tells both in bits 36 to 39. Base AC-3 tells the mode in bits
/// 48 to 50, and the LFE behind two bits each for a centre among other front
/// channels, for channels behind, and for plain stereo.
pub proof fn headers_tell_the_channels(data: Seq<u8>)
    requires
        data.len() >= 8,
        data[0] == 0x0b,
        data[1] == 0x77,
    ensures
        11 <= field(data, 40, 5) <= 16 ==> syncframe_channels(data) == Some(
            (mode_channels(field(data, 36, 3)) + field(data, 39, 1)) as u8,
        ),
        field(data, 40, 5) <= 8 ==> {
            let mode = field(data, 48, 3);
            let levels = if mode == 1 || mode == 0 {
                0int
            } else if mode == 2 || mode == 3 || mode == 4 || mode == 6 {
                2
            } else {
                4
            };
            syncframe_channels(data) == Some(
                (mode_channels(mode) + field(data, 51 + levels, 1)) as u8,
            )
        },
        8 < field(data, 40, 5) < 11 || field(data, 40, 5) > 16 ==> syncframe_channels(data) is None,
{
    lemma2_to64();
    lemma_field_range(data, 48, 3);
    lemma_field_range(data, 36, 3);
    lemma_field_range(data, 40, 5);
}

/// A Layer II header begins with eleven ones, has the layer bits `10`, and is
/// mono if and only if its mode bits are both set.
pub proof fn layer2_headers_tell_the_channels(data: Seq<u8>)
    ensures
        layer2_channels(data) is Some ==> data.len() >= 4 && data[0] == 0xff && field(data, 8, 3)
            == 7 && field(data, 13, 2) == 2,
        data.len() >= 4 && data[0] == 0xff && field(data, 8, 3) == 7 && field(data, 11, 2) != 1
            && field(data, 13, 2) == 2 && field(data, 16, 4) != 15 ==> layer2_channels(data)
            == Some(
            if field(data, 24, 2) == 3 {
                1u8
            } else {
                2u8
            },
        ),
{
    if data.len() >= 1 {
        whole_bytes_are_read(data, 0);
    }
}

// ---------------------------------------------------------------------------
// E-AC-3 streams
// ---------------------------------------------------------------------------

/// Decoding only ever adds at the end: what was collected comes first, and what
/// is added does not depend on it. Rate and channels are those of the last
/// frame, or stay as they were.
pub proof fn eac3_pcm_is_added_at_the_end(
    data: Seq<u8>,
    at: int,
    done: Seq<Seq<u8>>,
    so_far: AudioView,
)
    ensures
        match (eac3_from(data, at, done, so_far), eac3_from(data, at, done, silence())) {
            (Ok(audio), Ok(added)) => audio.pcm_s16le == so_far.pcm_s16le + added.pcm_s16le,
            (Err(a), Err(b)) => a == b,
            _ => false,
        },
    decreases data.len() - at,
{
    if at < 0 || at + 6 > data.len() {
        assert(so_far.pcm_s16le + Seq::<u8>::empty() =~= so_far.pcm_s16le);
    } else if !starts_syncframe(data.skip(at)) {
        eac3_pcm_is_added_at_the_end(data, at + 1, done, so_far);
    } else if at + eac3_frame_len(data, at) > data.len() {
        assert(so_far.pcm_s16le + Seq::<u8>::empty() =~= so_far.pcm_s16le);
    } else {
        let len = eac3_frame_len(data, at);
        let packet = data.subrange(at, at + len);
        if let Ok(audio) = eac3_frame(done, packet) {
            let next = AudioView { pcm_s16le: so_far.pcm_s16le + audio.pcm_s16le, ..audio };
            let alone = AudioView { pcm_s16le: silence().pcm_s16le + audio.pcm_s16le, ..audio };
            eac3_pcm_is_added_at_the_end(data, at + len, done.push(packet), next);
            eac3_pcm_is_added_at_the_end(data, at + len, done.push(packet), alone);
            if let Ok(rest) = eac3_from(data, at + len, done.push(packet), silence()) {
                assert(next.pcm_s16le + rest.pcm_s16le =~= so_far.pcm_s16le + (alone.pcm_s16le
                    + rest.pcm_s16le));
            }
        }
    }
}

/// The bytes of a whole E-AC-3 sync frame.
pub open spec fn is_eac3_frame(frame: Seq<u8>) -> bool {
    frame.len() >= 6 && frame[0] == 0x0b && frame[1] == 0x77 && frame.len() == 2 * (field(
        frame,
        21,
        11,
    ) + 1)
}

proof fn lemma_same_header(a: Seq<u8>, b: Seq<u8>)
    requires
        a.len() >= 6,
        b.len() >= 6,
        forall|i: int| 0 <= i < 6 ==> a[i] == b[i],
    ensures
        eac3_frame_len(a, 0) == eac3_frame_len(b, 0),
{
}

/// A whole frame in front of a stream is handed to the decoder as it is, and
/// its PCM comes in front of that of the rest. So two frames that decode to `a`
/// and `b` give `a` and then `b`. A frame that fails gives its message.
pub proof fn eac3_frames_are_played_in_order(frame: Seq<u8>, rest: Seq<u8>, done: Seq<Seq<u8>>)
    requires
        is_eac3_frame(frame),
    ensures
        match eac3_frame(done, frame) {
            Ok(first) => match (
                eac3_from(frame + rest, 0, done, silence()),
                eac3_from(rest, 0, done.push(frame), silence()),
            ) {
                (Ok(audio), Ok(more)) => {
                    &&& audio.pcm_s16le == first.pcm_s16le + more.pcm_s16le
                    &&& rest.len() < 6 ==> audio.sample_rate == first.sample_rate && audio.channels
                        == first.channels && audio.pcm_s16le == first.pcm_s16le
                },
                (Err(a), Err(b)) => a == b,
                _ => false,
            },
            Err(message) => eac3_from(frame + rest, 0, done, silence()) == Err::<
                AudioView,
                Seq<char>,
            >(message),
        },
{
    let data = frame + rest;
    let len = frame.len() as int;
    frame_headers_are_read_by_their_bits(frame, 0);
    lemma_same_header(frame, data);
    assert(data.skip(0) =~= data);
    assert(data.subrange(0, len) =~= frame);
    if let Ok(first) = eac3_frame(done, frame) {
        let next = AudioView { pcm_s16le: silence().pcm_s16le + first.pcm_s16le, ..first };
        assert(next.pcm_s16le =~= first.pcm_s16le);
        assert(eac3_from(data, 0, done, silence()) == eac3_from(data, len, done.push(frame), next));
        eac3_pcm_is_added_at_the_end(data, len, done.push(frame), next);
        lemma_eac3_shift(frame, rest, 0, done.push(frame), silence());
        lemma_eac3_shift(frame, rest, 0, done.push(frame), next);
        if rest.len() < 6 {
            assert(first.pcm_s16le + Seq::<u8>::empty() =~= first.pcm_s16le);
        }
    }
}

/// A frame that decodes tells the rate and the channels from then on, whatever
/// was told before it.
pub proof fn last_eac3_frame_tells_the_rate(
    frame: Seq<u8>,
    rest: Seq<u8>,
    done: Seq<Seq<u8>>,
    so_far: AudioView,
    decoded: AudioView,
)
    requires
        is_eac3_frame(frame),
        eac3_frame(done, frame) == Ok::<AudioView, Seq<char>>(decoded),
    ensures
        eac3_from(frame + rest, 0, done, so_far) == eac3_from(
            rest,
            0,
            done.push(frame),
            AudioView {
                pcm_s16le: so_far.pcm_s16le + decoded.pcm_s16le,
                sample_rate: decoded.sample_rate,
                channels: decoded.channels,
            },
        ),
        eac3_from(Seq::empty(), 0, done, so_far) == Ok::<AudioView, Seq<char>>(so_far),
{
    let data = frame + rest;
    frame_headers_are_read_by_their_bits(frame, 0);
    lemma_same_header(frame, data);
    assert(data.skip(0) =~= data);
    assert(data.subrange(0, frame.len() as int) =~= frame);
    lemma_eac3_shift(
        frame,
        rest,
        0,
        done.push(frame),
        AudioView { pcm_s16le: so_far.pcm_s16le + decoded.pcm_s16le, ..decoded },
    );
}

/// Bytes that start no frame are passed over one by one, and a frame that is
/// cut short ends the stream.
pub proof fn eac3_streams_are_searched_for_frames(
    data: Seq<u8>,
    at: int,
    done: Seq<Seq<u8>>,
    so_far: AudioView,
)
    requires
        0 <= at,
        at + 6 <= data.len(),
    ensures
        !(data[at] == 0x0b && data[at + 1] == 0x77) ==> eac3_from(data, at, done, so_far)
            == eac3_from(data, at + 1, done, so_far),
        data[at] == 0x0b && data[at + 1] == 0x77 && at + 2 * (field(data, 8 * at + 21, 11) + 1)
            > data.len() ==> eac3_from(data, at, done, so_far) == Ok::<AudioView, Seq<char>>(so_far),
{
    assert(data.skip(at)[0] == data[at] && data.skip(at)[1] == data[at + 1]);
    frame_headers_are_read_by_their_bits(data, at);
}

proof fn lemma_eac3_shift(
    front: Seq<u8>,
    rest: Seq<u8>,
    at: int,
    done: Seq<Seq<u8>>,
    so_far: AudioView,
)
    requires
        0 <= at,
    ensures
        eac3_from(front + rest, front.len() + at, done, so_far) == eac3_from(
            rest,
            at,
            done,
            so_far,
        ),
    decreases rest.len() - at,
{
    let data = front + rest;
    let n = front.len() as int;
    if at + 6 <= rest.len() {
        assert(data.skip(n + at) =~= rest.skip(at));
        if !starts_syncframe(rest.skip(at)) {
            lemma_eac3_shift(front, rest, at + 1, done, so_far);
        } else {
            let len = eac3_frame_len(rest, at);
            assert(eac3_frame_len(data, n + at) == len);
            if at + len <= rest.len() {
                let packet = rest.subrange(at, at + len);
                assert(data.subrange(n + at, n + at + len) =~= packet);
                if let Ok(audio) = eac3_frame(done, packet) {
                    lemma_eac3_shift(
                        front,
                        rest,
                        at + len,
                        done.push(packet),
                        AudioView { pcm_s16le: so_far.pcm_s16le + audio.pcm_s16le, ..audio },
                    );
                }
            }
        }
    }
}

// ---------------------------------------------------------------------------
// Access units
// ---------------------------------------------------------------------------

/// Decoding an access unit only ever adds PCM at the end, and what it adds,
/// like the packets that it works off, does not depend on what was collected.
pub proof fn pcm_is_added_at_the_end(
    data: Seq<u8>,
    at: int,
    done: Seq<Seq<u8>>,
    so_far: CollectedView,
)
    ensures
        match (
            decode_from(data, at, done, so_far),
            decode_from(data, at, done, nothing_collected()),
        ) {
            (AuOutcome::Done(all, a), AuOutcome::Done(added, b)) => {
                &&& a == b
                &&& all.pcm == so_far.pcm + added.pcm
                &&& all.sample_rate == if added.sample_rate is Some {
                    added.sample_rate
                } else {
                    so_far.sample_rate
                }
                &&& all.channels == if added.channels is Some {
                    added.channels
                } else {
                    so_far.channels
                }
            },
            (AuOutcome::Failed(m, a), AuOutcome::Failed(n, b)) => m == n && a == b,
            _ => false,
        },
    decreases data.len() - at,
{
    if at < 0 || at + 6 > data.len() {
        assert(so_far.pcm + Seq::<u8>::empty() =~= so_far.pcm);
    } else if !starts_syncframe(data.skip(at)) {
        pcm_is_added_at_the_end(data, at + 1, done, so_far);
    } else {
        match frame_at(data, at) {
            None => {
                pcm_is_added_at_the_end(data, at + 1, done, so_far);
            },
            Some((len, rate)) => {
                if len <= 0 || at + len > data.len() {
                    assert(so_far.pcm + Seq::<u8>::empty() =~= so_far.pcm);
                } else {
                    let packet = data.subrange(at, at + len);
                    match ac3_frame(done, packet) {
                        ReceivedView::Audio { samples, plane } => {
                            let next = with_frame(so_far, samples, plane, rate);
                            let alone = with_frame(nothing_collected(), samples, plane, rate);
                            pcm_is_added_at_the_end(data, at + len, done.push(packet), next);
                            pcm_is_added_at_the_end(data, at + len, done.push(packet), alone);
                            if let AuOutcome::Done(rest, _) = decode_from(
                                data,
                                at + len,
                                done.push(packet),
                                nothing_collected(),
                            ) {
                                assert(next.pcm + rest.pcm =~= so_far.pcm + (alone.pcm + rest.pcm));
                            }
                        },
                        ReceivedView::Failed(_) => {},
                        _ => {
                            pcm_is_added_at_the_end(data, at + len, done.push(packet), so_far);
                        },
                    }
                }
            },
        }
    }
}

/// A frame adds its plane behind the PCM before it, at its own rate. Its
/// channels are the 16-bit samples of the plane for each sample of a channel.
pub proof fn frames_add_their_plane(
    so_far: CollectedView,
    samples: u32,
    plane: Seq<u8>,
    rate: u32,
    channels: u16,
)
    ensures
        with_frame(so_far, samples, Some(plane), rate).pcm == so_far.pcm + plane,
        with_frame(so_far, samples, Some(plane), rate).sample_rate == Some(rate),
        samples > 0 && channels > 0 && plane.len() == 2 * (samples * channels) ==> with_frame(
            so_far,
            samples,
            Some(plane),
            rate,
        ).channels == Some(channels),
        with_frame(so_far, samples, None, rate).pcm == so_far.pcm,
{
    if samples > 0 && channels > 0 && plane.len() == 2 * (samples * channels) {
        let d = samples as int * 2;
        assert(plane.len() == d * channels) by (nonlinear_arith)
            requires
                plane.len() == 2 * (samples * channels),
                d == samples * 2,
        ;
        vstd::arithmetic::div_mod::lemma_div_multiples_vanish(channels as int, d);
        assert((d * channels) / d == channels);
        assert(plane_channels(plane.len() as int, samples) == channels);
    }
}

/// A whole frame at the start of an access unit is handed to the decoder as it
/// is, behind the packets before it. Its audio comes first, and that of the
/// rest follows.
pub proof fn frames_are_played_in_order(
    data: Seq<u8>,
    at: int,
    len: int,
    rate: u32,
    done: Seq<Seq<u8>>,
    samples: u32,
    plane: Seq<u8>,
)
    requires
        0 <= at,
        at + 6 <= data.len(),
        data[at] == 0x0b,
        data[at + 1] == 0x77,
        frame_at(data, at) == Some((len, rate)),
        0 < len,
        at + len <= data.len(),
        ac3_frame(done, data.subrange(at, at + len)) == (ReceivedView::Audio {
            samples,
            plane: Some(plane),
        }),
    ensures
        match (
            decode_from(data, at, done, nothing_collected()),
            decode_from(
                data,
                at + len,
                done.push(data.subrange(at, at + len)),
                nothing_collected(),
            ),
        ) {
            (AuOutcome::Done(all, a), AuOutcome::Done(rest, b)) => {
                &&& a == b
                &&& all.pcm == plane + rest.pcm
                &&& all.sample_rate == if rest.sample_rate is Some {
                    rest.sample_rate
                } else {
                    Some(rate)
                }
            },
            (AuOutcome::Failed(m, a), AuOutcome::Failed(n, b)) => m == n && a == b,
            _ => false,
        },
{
    let packet = data.subrange(at, at + len);
    let next = with_frame(nothing_collected(), samples, Some(plane), rate);
    assert(data.skip(at)[0] == 0x0b && data.skip(at)[1] == 0x77);
    pcm_is_added_at_the_end(data, at + len, done.push(packet), next);
    assert(next.pcm =~= plane);
}

/// Bytes in front of a sync word are passed over.
pub proof fn bytes_between_frames_are_skipped(data: Seq<u8>, at: int, done: Seq<Seq<u8>>, so_far: CollectedView)
    requires
        0 <= at,
        at + 6 <= data.len(),
        !(data[at] == 0x0b && data[at + 1] == 0x77),
    ensures
        decode_from(data, at, done, so_far) == decode_from(data, at + 1, done, so_far),
{
    assert(data.skip(at)[0] == data[at] && data.skip(at)[1] == data[at + 1]);
}

/// A frame that gives no audio is handed to the decoder and passed over; one
/// that fails ends the access unit with its message, after it was handed over;
/// a header that cannot be read is passed over byte by byte; and a frame that
/// is cut short ends the access unit with what was collected.
pub proof fn frames_without_audio_are_passed_over(
    data: Seq<u8>,
    at: int,
    done: Seq<Seq<u8>>,
    so_far: CollectedView,
    len: int,
    rate: u32,
)
    requires
        0 <= at,
        at + 6 <= data.len(),
        data[at] == 0x0b,
        data[at + 1] == 0x77,
    ensures
        frame_at(data, at) is None ==> decode_from(data, at, done, so_far) == decode_from(
            data,
            at + 1,
            done,
            so_far,
        ),
        frame_at(data, at) == Some((len, rate)) && at + len > data.len() ==> decode_from(
            data,
            at,
            done,
            so_far,
        ) == AuOutcome::Done(so_far, done),
        frame_at(data, at) == Some((len, rate)) && 0 < len && at + len <= data.len() ==> {
            let packet = data.subrange(at, at + len);
            &&& ac3_frame(done, packet) is NeedMore || ac3_frame(done, packet) is OtherFrame
                ==> decode_from(data, at, done, so_far) == decode_from(
                data,
                at + len,
                done.push(packet),
                so_far,
            )
            &&& ac3_frame(done, packet) matches ReceivedView::Failed(message) ==> decode_from(
                data,
                at,
                done,
                so_far,
            ) == AuOutcome::Failed(message, done.push(packet))
            &&& ac3_frame(done, packet) matches ReceivedView::Audio { samples, plane }
                ==> decode_from(data, at, done, so_far) == decode_from(
                data,
                at + len,
                done.push(packet),
                with_frame(so_far, samples, plane, rate),
            )
        },
{
    assert(data.skip(at)[0] == 0x0b && data.skip(at)[1] == 0x77);
}

/// An access unit is decoded from its first byte on, by a decoder that goes on
/// from the packets before it, with nothing collected yet.
pub proof fn access_units_are_decoded_from_the_start(data: Seq<u8>, done: Seq<Seq<u8>>)
    ensures
        decode_outcome(data, done) == decode_from(
            data,
            0,
            done,
            CollectedView { pcm: Seq::empty(), sample_rate: None, channels: None },
        ),
        silence().pcm_s16le.len() == 0,
        silence().sample_rate == 0,
        silence().channels == 0,
{
}

/// What was collected is handed out as it is: the PCM, with the rate and the
/// channels that were told.
pub proof fn collected_pcm_is_the_audio(collected: CollectedView)
    ensures
        collected.pcm.len() == 0 ==> audio_of(collected) is None,
        collected.pcm.len() > 0 ==> (audio_of(collected) matches Some(audio) && audio.pcm_s16le
            == collected.pcm && (collected.sample_rate matches Some(rate) ==> audio.sample_rate
            == rate) && (collected.channels matches Some(channels) ==> audio.channels == channels)),
{
}

// ---------------------------------------------------------------------------
// MPEG audio
// ---------------------------------------------------------------------------

/// PCM is little-endian: the low byte of a sample comes first, and its high
/// byte follows, for each sample in turn.
pub proof fn pcm_is_little_endian(samples: Seq<i16>, i: int)
    requires
        0 <= i < samples.len(),
    ensures
        pcm_bytes(samples).len() == 2 * samples.len(),
        samples[i] >= 0 ==> pcm_bytes(samples)[2 * i] + 256 * pcm_bytes(samples)[2 * i + 1]
            == samples[i],
        samples[i] < 0 ==> pcm_bytes(samples)[2 * i] + 256 * pcm_bytes(samples)[2 * i + 1] - 65536
            == samples[i],
    decreases samples.len(),
{
    pcm_is_two_bytes_per_sample(samples);
    let rest = samples.drop_last();
    pcm_is_two_bytes_per_sample(rest);
    if i < rest.len() {
        pcm_is_little_endian(rest, i);
    } else {
        assert(pcm_bytes(samples)[2 * i] == le_bytes(samples[i])[0]);
        assert(pcm_bytes(samples)[2 * i + 1] == le_bytes(samples[i])[1]);
    }
}

/// PCM is read low byte first, each two bytes as one sample; what is written as
/// PCM is what is read.
pub proof fn pcm_is_read_little_endian(pcm: Seq<u8>, i: int)
    requires
        0 <= i,
        2 * i + 1 < pcm.len(),
    ensures
        samples_of(pcm).len() == pcm.len() / 2,
        pcm[2 * i + 1] < 128 ==> samples_of(pcm)[i] == pcm[2 * i] + 256 * pcm[2 * i + 1],
        pcm[2 * i + 1] >= 128 ==> samples_of(pcm)[i] == pcm[2 * i] + 256 * pcm[2 * i + 1] - 65536,
{
}

/// The frames of an MPEG audio access unit are played in order: one that holds
/// samples adds them behind the PCM before it, and tells the rate and the
/// channels from then on; an empty frame and a malformed packet add nothing;
/// one that fails ends the decoding with its message. Each packet goes to the
/// decoder behind those before it.
pub proof fn mpa_frames_are_played_in_order(
    so_far: Progress,
    packet: symphonia::core::formats::Packet,
)
    requires
        so_far.failed is None,
    ensures
        ({
            let after = after_packets(so_far, seq![packet]);
            &&& after.done == so_far.done.push(packet)
            &&& match mpa_frame(so_far.done, packet) {
                DecodedView::Audio { rate, channels, frames, samples } => if frames > 0 {
                    &&& after.pcm == so_far.pcm + pcm_bytes(samples)
                    &&& after.got_audio
                    &&& after.sample_rate == rate
                    &&& after.channels == channels
                    &&& after.failed is None
                } else {
                    after.pcm == so_far.pcm && after.got_audio == so_far.got_audio
                        && after.sample_rate == so_far.sample_rate && after.failed is None
                },
                DecodedView::Malformed => after.pcm == so_far.pcm && after.got_audio
                    == so_far.got_audio && after.failed is None,
                DecodedView::Failed(message) => after.failed == Some(message),
            }
        }),
{
    reveal_with_fuel(after_packets, 2);
    assert(seq![packet].drop_first() =~= Seq::empty());
    assert(seq![packet][0] == packet);
}

/// The audio of an access unit is the PCM of its packets from the start, and
/// the decoder goes on from there. An access unit that holds no frame is no
/// audio and leaves the decoder as it was.
pub proof fn mpa_units_are_decoded_whole(
    state: MpaState,
    data: Seq<u8>,
    packets: Seq<symphonia::core::formats::Packet>,
)
    ensures
        mpa_split(data) is None ==> mpa_outcome(state, data).0 == state && mpa_outcome(
            state,
            data,
        ).1 == Ok::<Option<(Seq<u8>, u32, u16)>, Seq<char>>(None),
        mpa_split(data) == Some(packets) ==> {
            let end = after_packets(
                Progress {
                    done: state.done,
                    pcm: Seq::empty(),
                    got_audio: false,
                    sample_rate: state.sample_rate,
                    channels: state.channels,
                    failed: None,
                },
                packets,
            );
            let (after, outcome) = mpa_outcome(state, data);
            &&& after.done == end.done
            &&& after.sample_rate == end.sample_rate
            &&& after.channels == end.channels
            &&& end.failed is None && end.got_audio ==> outcome == Ok::<_, Seq<char>>(
                Some((end.pcm, end.sample_rate, end.channels)),
            )
            &&& end.failed is None && !end.got_audio ==> outcome == Ok::<
                Option<(Seq<u8>, u32, u16)>,
                Seq<char>,
            >(None)
            &&& end.failed is Some ==> outcome is Err
        },
{
}

// ---------------------------------------------------------------------------
// Stereo
// ---------------------------------------------------------------------------

/// Left stays left and right stays right: of two and more channels the first
/// goes to the left side alone and the second to the right side alone, both in
/// full; the third goes to both sides alike; of the rest, those at even places
/// go to the left and those at odd places to the right, none of them in full.
pub proof fn sides_are_kept(channels: int, index: int)
    requires
        0 <= index < channels,
    ensures
        ({
            let route = route_of(channels, index);
            &&& channels == 1 ==> route.left == Gain::Unity && route.right == Gain::Unity
            &&& channels >= 2 && index == 0 ==> route.left == Gain::Unity && route.right
                == Gain::Silent
            &&& channels >= 2 && index == 1 ==> route.left == Gain::Silent && route.right
                == Gain::Unity
            &&& channels >= 2 && index == 2 ==> route.left == Gain::Reduced && route.right
                == Gain::Reduced
            &&& channels >= 6 && index == 3 ==> route.left == Gain::Silent && route.right
                == Gain::Silent
            &&& index >= 4 && index % 2 == 0 ==> route.left == Gain::Reduced && route.right
                == Gain::Silent
            &&& index >= 4 && index % 2 == 1 ==> route.left == Gain::Silent && route.right
                == Gain::Reduced
            &&& channels < 6 && index == 3 ==> route.left == Gain::Silent && route.right
                == Gain::Reduced
        }),
{
}

} // verus!
