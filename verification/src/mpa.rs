//! MPEG-1/2 Layer II audio, decoded to PCM.

use vstd::prelude::*;
use vstd::string::StringExecFns;

verus! {

/// Decoded MPEG audio: interleaved PCM samples, sample rate, and channel count.
#[derive(Clone, Debug)]
pub struct DecodedMpa {
    /// Interleaved 16-bit signed little-endian PCM samples.
    pub pcm_s16le: Vec<u8>,
    /// Sample rate in Hz (e.g., 48_000).
    pub sample_rate: u32,
    /// Number of audio channels.
    pub channels: u16,
}

// ---------------------------------------------------------------------------
// Frames and the decoder
// ---------------------------------------------------------------------------

#[verifier::external_type_specification]
#[verifier::external_body]
pub struct ExMpaReader(symphonia::default::formats::MpaReader);

#[verifier::external_type_specification]
#[verifier::external_body]
pub struct ExMpaPacket(symphonia::core::formats::Packet);

/// The MPEG audio decoder of `symphonia`, which its codec registry hands out
/// as a trait object.
#[verifier::external_body]
pub struct MpaCodec {
    inner: Box<dyn symphonia::core::codecs::Decoder>,
}

/// The packets that a reader has still to give before it fails or ends.
pub uninterp spec fn mpa_packets(reader: symphonia::default::formats::MpaReader) -> Seq<
    symphonia::core::formats::Packet,
>;

/// The packets into which `symphonia` splits an access unit, if it begins with
/// an MPEG audio frame.
pub uninterp spec fn mpa_split(data: Seq<u8>) -> Option<Seq<symphonia::core::formats::Packet>>;

/// `MpaReader::try_new` on the bytes of an access unit. Whether it finds a
/// frame, and which packets follow, depends on `data` alone; [`mpa_split`]
/// names it.
#[verifier::external_body]
fn open_reader(data: &[u8]) -> (reader: Option<symphonia::default::formats::MpaReader>)
    ensures
        match reader {
            Some(r) => mpa_split(data@) == Some(mpa_packets(r)),
            None => mpa_split(data@) is None,
        },
{
    let source = Box::new(std::io::Cursor::new(data.to_vec()));
    let stream = symphonia::core::io::MediaSourceStream::new(source, Default::default());
    <symphonia::default::formats::MpaReader as symphonia::core::formats::FormatReader>::try_new(
        stream,
        &Default::default(),
    ).ok()
}

/// `MpaReader::next_packet`: the next packet, or none at the end of the data
/// and where no further frame can be read.
#[verifier::external_body]
fn next_packet(reader: &mut symphonia::default::formats::MpaReader) -> (packet: Option<
    symphonia::core::formats::Packet,
>)
    ensures
        match packet {
            Some(p) => mpa_packets(*old(reader)).len() > 0 && p == mpa_packets(*old(reader))[0]
                && mpa_packets(*final(reader)) == mpa_packets(*old(reader)).drop_first(),
            None => mpa_packets(*old(reader)).len() == 0,
        },
{
    symphonia::core::formats::FormatReader::next_packet(reader).ok()
}

/// What the decoder gives for a packet.
pub enum Decoded {
    /// Audio: sample rate, channel count, samples per channel, and the
    /// interleaved samples.
    Audio { rate: u32, channels: u16, frames: usize, samples: Vec<i16> },
    /// A malformed packet, which may be skipped.
    Malformed,
    /// An error.
    Failed(String),
}

/// [`Decoded`] as a mathematical value.
pub enum DecodedView {
    Audio { rate: u32, channels: u16, frames: usize, samples: Seq<i16> },
    Malformed,
    Failed(Seq<char>),
}

impl Decoded {
    pub open spec fn view(&self) -> DecodedView {
        match *self {
            Decoded::Audio { rate, channels, frames, samples } => DecodedView::Audio {
                rate,
                channels,
                frames,
                samples: samples@,
            },
            Decoded::Malformed => DecodedView::Malformed,
            Decoded::Failed(message) => DecodedView::Failed(message@),
        }
    }
}

/// The packets that a decoder has been given since it was made.
pub uninterp spec fn mpa_done(codec: MpaCodec) -> Seq<symphonia::core::formats::Packet>;

/// What a decoder that has been given these packets makes of the next one.
pub uninterp spec fn mpa_frame(
    done: Seq<symphonia::core::formats::Packet>,
    packet: symphonia::core::formats::Packet,
) -> DecodedView;

/// `CodecRegistry::make` of `symphonia`'s default registry for MPEG Layer II,
/// which is registered: a decoder that has been given nothing.
#[verifier::external_body]
fn make_codec() -> (codec: Result<MpaCodec, String>)
    ensures
        match codec {
            Ok(c) => mpa_done(c) == Seq::<symphonia::core::formats::Packet>::empty(),
            Err(_) => false,
        },
{
    let mut params = symphonia::core::codecs::CodecParameters::new();
    params.for_codec(symphonia::core::codecs::CODEC_TYPE_MP2);
    match symphonia::default::get_codecs().make(&params, &Default::default()) {
        Ok(inner) => Ok(MpaCodec { inner }),
        Err(e) => Err(format!("symphonia codec init: {e}")),
    }
}

/// `Decoder::decode` of that decoder, with the samples converted by
/// `SampleBuffer`. What comes of it depends on the packets before it and on
/// the packet; [`mpa_frame`] names it.
#[verifier::external_body]
fn decode_packet(codec: &mut MpaCodec, packet: &symphonia::core::formats::Packet) -> (decoded: Decoded)
    ensures
        mpa_done(*final(codec)) == mpa_done(*old(codec)).push(*packet),
        decoded.view() == mpa_frame(mpa_done(*old(codec)), *packet),
{
    match codec.inner.decode(packet) {
        Ok(audio) => {
            let spec = *audio.spec();
            let frames = audio.frames();
            let mut buffer = symphonia::core::audio::SampleBuffer::<i16>::new(frames as u64, spec);
            buffer.copy_interleaved_ref(audio);
            Decoded::Audio { rate: spec.rate, channels: spec.channels.count() as u16, frames, samples: buffer.samples().to_vec() }
        }
        Err(symphonia::core::errors::Error::DecodeError(_)) => Decoded::Malformed,
        Err(e) => Decoded::Failed(e.to_string()),
    }
}

// ---------------------------------------------------------------------------
// Access units
// ---------------------------------------------------------------------------

/// The two little-endian bytes of a sample.
pub open spec fn le_bytes(sample: i16) -> Seq<u8> {
    let u = if sample < 0 {
        sample + 65536
    } else {
        sample as int
    };
    seq![(u % 256) as u8, (u / 256) as u8]
}

/// Samples as little-endian bytes.
pub open spec fn pcm_bytes(samples: Seq<i16>) -> Seq<u8>
    decreases samples.len(),
{
    if samples.len() == 0 {
        Seq::empty()
    } else {
        pcm_bytes(samples.drop_last()) + le_bytes(samples.last())
    }
}

/// Append samples to PCM, as little-endian bytes.
pub fn append_samples(pcm: &mut Vec<u8>, samples: &Vec<i16>)
    ensures
        final(pcm)@ == old(pcm)@ + pcm_bytes(samples@),
{
    let mut i: usize = 0;
    assert(samples@.take(0) =~= Seq::<i16>::empty());
    assert(pcm@ =~= old(pcm)@ + pcm_bytes(samples@.take(0)));
    while i < samples.len()
        invariant
            i <= samples@.len(),
            pcm@ == old(pcm)@ + pcm_bytes(samples@.take(i as int)),
        decreases samples@.len() - i,
    {
        let s: i16 = samples[i];
        let u: u16 = if s < 0 {
            (s as i32 + 65536) as u16
        } else {
            s as u16
        };
        pcm.push((u % 256) as u8);
        pcm.push((u / 256) as u8);
        proof {
            assert(samples@.take(i + 1).drop_last() =~= samples@.take(i as int));
            assert(samples@.take(i + 1).last() == s);
            assert(pcm@ =~= old(pcm)@ + pcm_bytes(samples@.take(i + 1)));
        }
        i = i + 1;
    }
    assert(samples@.take(i as int) =~= samples@);
}

/// What decoding has come to within an access unit.
pub struct Progress {
    pub done: Seq<symphonia::core::formats::Packet>,
    pub pcm: Seq<u8>,
    pub got_audio: bool,
    pub sample_rate: u32,
    pub channels: u16,
    /// The message of a packet that failed; decoding stops there.
    pub failed: Option<Seq<char>>,
}

/// Progress after a packet that decoded to `frame`. An empty frame and a
/// malformed packet are passed over.
pub open spec fn after_frame(
    so_far: Progress,
    packet: symphonia::core::formats::Packet,
    frame: DecodedView,
) -> Progress {
    let next = Progress { done: so_far.done.push(packet), ..so_far };
    match frame {
        DecodedView::Audio { rate, channels, frames, samples } => if frames == 0 {
            next
        } else {
            Progress {
                pcm: so_far.pcm + pcm_bytes(samples),
                got_audio: true,
                sample_rate: rate,
                channels,
                ..next
            }
        },
        DecodedView::Malformed => next,
        DecodedView::Failed(message) => Progress { failed: Some(message), ..next },
    }
}

/// Progress after the packets of an access unit.
pub open spec fn after_packets(
    so_far: Progress,
    packets: Seq<symphonia::core::formats::Packet>,
) -> Progress
    decreases packets.len(),
{
    if packets.len() == 0 || so_far.failed is Some {
        so_far
    } else {
        after_packets(
            after_frame(so_far, packets[0], mpa_frame(so_far.done, packets[0])),
            packets.drop_first(),
        )
    }
}

/// Stateful MPEG-1/2 Layer II decoder for incremental (per-access-unit) use.
///
/// Use one per audio PID; call [`reset`](Self::reset) when switching PIDs.
pub struct IncrementalMpaDecoder {
    /// The decoder, once it was needed.
    pub decoder: Option<MpaCodec>,
    /// Sample rate of the last decoded frame.
    pub sample_rate: u32,
    /// Channel count of the last decoded frame.
    pub channels: u16,
}

/// The state of an [`IncrementalMpaDecoder`].
pub struct MpaState {
    pub done: Seq<symphonia::core::formats::Packet>,
    pub sample_rate: u32,
    pub channels: u16,
}

/// The state of a decoder that was just made or reset.
pub open spec fn fresh_mpa() -> MpaState {
    MpaState { done: Seq::empty(), sample_rate: 0, channels: 0 }
}

/// The state after an access unit, and what comes of it: no audio, audio, or
/// a message.
pub open spec fn mpa_outcome(state: MpaState, data: Seq<u8>) -> (MpaState, Result<
    Option<(Seq<u8>, u32, u16)>,
    Seq<char>,
>) {
    match mpa_split(data) {
        None => (state, Ok(None)),
        Some(packets) => {
            let end = after_packets(
                Progress {
                    done: state.done,
                    pcm: Seq::empty(),
                    got_audio: false,
                    sample_rate: state.sample_rate,
                    channels: state.channels,
                    failed: None,
                },
                packets,
            );
            let after = MpaState {
                done: end.done,
                sample_rate: end.sample_rate,
                channels: end.channels,
            };
            (
                after,
                match end.failed {
                    Some(message) => Err("symphonia mpa decode: "@ + message),
                    None => Ok(
                        if end.got_audio {
                            Some((end.pcm, end.sample_rate, end.channels))
                        } else {
                            None
                        },
                    ),
                },
            )
        },
    }
}

impl Default for IncrementalMpaDecoder {
    fn default() -> (decoder: Self)
        ensures
            decoder.state() == fresh_mpa(),
    {
        IncrementalMpaDecoder::new()
    }
}

impl IncrementalMpaDecoder {
    /// The state of the decoder. One that was not needed yet has been given
    /// nothing.
    pub open spec fn state(self) -> MpaState {
        MpaState {
            done: match self.decoder {
                Some(codec) => mpa_done(codec),
                None => Seq::empty(),
            },
            sample_rate: self.sample_rate,
            channels: self.channels,
        }
    }

    /// Create a new decoder.
    pub fn new() -> (decoder: Self)
        ensures
            decoder.state() == fresh_mpa(),
    {
        IncrementalMpaDecoder { decoder: None, sample_rate: 0, channels: 0 }
    }

    /// Reset the decoder state (call when switching to a new stream / PID).
    pub fn reset(&mut self)
        ensures
            final(self).state() == fresh_mpa(),
    {
        self.decoder = None;
        self.sample_rate = 0;
        self.channels = 0;
    }

    /// Decode one access unit's MPEG audio bytes into interleaved S16LE PCM.
    ///
    /// Returns `None` if the access unit does not contain a complete,
    /// decodable frame. Multiple frames in one access unit are concatenated
    /// into the returned PCM. An error carries the decoder's message.
    pub fn decode_au(&mut self, data: &[u8]) -> (decoded: Result<Option<DecodedMpa>, String>)
        ensures
            ({
                let (after, outcome) = mpa_outcome(old(self).state(), data@);
                &&& final(self).state() == after
                &&& match decoded {
                    Ok(Some(audio)) => outcome == Ok::<_, Seq<char>>(
                        Some((audio.pcm_s16le@, audio.sample_rate, audio.channels)),
                    ),
                    Ok(None) => outcome == Ok::<Option<(Seq<u8>, u32, u16)>, Seq<char>>(None),
                    Err(e) => outcome == Err::<Option<(Seq<u8>, u32, u16)>, _>(e@),
                }
            }),
    {
        let mut codec: MpaCodec = match self.decoder.take() {
            Some(codec) => codec,
            None => match make_codec() {
                Ok(codec) => codec,
                Err(e) => {
                    return Err(e);
                },
            },
        };
        let mut reader: symphonia::default::formats::MpaReader = match open_reader(data) {
            Some(reader) => reader,
            None => {
                self.decoder = Some(codec);
                return Ok(None);
            },
        };
        let ghost packets = mpa_packets(reader);
        let ghost start = Progress {
            done: old(self).state().done,
            pcm: Seq::empty(),
            got_audio: false,
            sample_rate: old(self).sample_rate,
            channels: old(self).channels,
            failed: None,
        };
        let ghost end = after_packets(start, packets);
        let mut pcm: Vec<u8> = Vec::new();
        let mut got_audio: bool = false;
        assert(pcm@ =~= Seq::empty());
        loop
            invariant_except_break
                after_packets(
                    Progress {
                        done: mpa_done(codec),
                        pcm: pcm@,
                        got_audio,
                        sample_rate: self.sample_rate,
                        channels: self.channels,
                        failed: None,
                    },
                    mpa_packets(reader),
                ) == end,
            invariant
                mpa_split(data@) == Some(packets),
                end == after_packets(start, packets),
                start == (Progress {
                    done: old(self).state().done,
                    pcm: Seq::empty(),
                    got_audio: false,
                    sample_rate: old(self).sample_rate,
                    channels: old(self).channels,
                    failed: None,
                }),
            ensures
                end == (Progress {
                    done: mpa_done(codec),
                    pcm: pcm@,
                    got_audio,
                    sample_rate: self.sample_rate,
                    channels: self.channels,
                    failed: None,
                }),
            decreases mpa_packets(reader).len(),
        {
            let packet: symphonia::core::formats::Packet = match next_packet(&mut reader) {
                Some(p) => p,
                None => {
                    break ;
                },
            };
            match decode_packet(&mut codec, &packet) {
                Decoded::Audio { rate, channels, frames, samples } => {
                    if frames != 0 {
                        self.sample_rate = rate;
                        self.channels = channels;
                        append_samples(&mut pcm, &samples);
                        got_audio = true;
                    }
                },
                Decoded::Malformed => {},
                Decoded::Failed(e) => {
                    proof {
                        reveal_with_fuel(after_packets, 2);
                    }
                    self.decoder = Some(codec);
                    let mut message: String = String::from_str("symphonia mpa decode: ");
                    message.append(e.as_str());
                    return Err(message);
                },
            }
        }
        self.decoder = Some(codec);
        if !got_audio {
            return Ok(None);
        }
        Ok(
            Some(
                DecodedMpa {
                    pcm_s16le: pcm,
                    sample_rate: self.sample_rate,
                    channels: self.channels,
                },
            ),
        )
    }
}

/// Every sample becomes exactly two bytes.
pub proof fn pcm_is_two_bytes_per_sample(samples: Seq<i16>)
    ensures
        pcm_bytes(samples).len() == 2 * samples.len(),
    decreases samples.len(),
{
    if samples.len() > 0 {
        pcm_is_two_bytes_per_sample(samples.drop_last());
    }
}

/// The frames of an access unit are decoded one after the other and their PCM
/// is concatenated: decoding a run of packets is decoding its first part and
/// then the rest.
pub proof fn packets_decode_in_turn(
    so_far: Progress,
    first: Seq<symphonia::core::formats::Packet>,
    rest: Seq<symphonia::core::formats::Packet>,
)
    ensures
        after_packets(so_far, first + rest) == after_packets(after_packets(so_far, first), rest),
    decreases first.len(),
{
    if first.len() == 0 {
        assert(first + rest =~= rest);
    } else if so_far.failed is None {
        let next = after_frame(so_far, first[0], mpa_frame(so_far.done, first[0]));
        assert((first + rest).drop_first() =~= first.drop_first() + rest);
        packets_decode_in_turn(next, first.drop_first(), rest);
    }
}

/// Decoding only ever adds to the PCM, and by whole samples.
pub proof fn pcm_grows_by_whole_samples(
    so_far: Progress,
    packets: Seq<symphonia::core::formats::Packet>,
)
    ensures
        ({
            let end = after_packets(so_far, packets);
            &&& end.pcm.len() >= so_far.pcm.len()
            &&& end.pcm.take(so_far.pcm.len() as int) == so_far.pcm
            &&& (end.pcm.len() - so_far.pcm.len()) % 2 == 0
        }),
    decreases packets.len(),
{
    if packets.len() == 0 || so_far.failed is Some {
        assert(so_far.pcm.take(so_far.pcm.len() as int) =~= so_far.pcm);
    } else {
        let frame = mpa_frame(so_far.done, packets[0]);
        let next = after_frame(so_far, packets[0], frame);
        if let DecodedView::Audio { samples, .. } = frame {
            pcm_is_two_bytes_per_sample(samples);
        }
        pcm_grows_by_whole_samples(next, packets.drop_first());
        let end = after_packets(next, packets.drop_first());
        assert(next.pcm.take(so_far.pcm.len() as int) =~= so_far.pcm);
        assert(end.pcm.take(so_far.pcm.len() as int) =~= end.pcm.take(next.pcm.len() as int).take(
            so_far.pcm.len() as int,
        ));
    }
}

} // verus!
