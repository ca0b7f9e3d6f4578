//! Decoding AC-3 / E-AC-3 to PCM.

use oxideav_ac3::{decoder, eac3, syncinfo};
use oxideav_core::{CodecId, CodecParameters, Decoder, Error, Frame, Packet, TimeBase};
use vstd::prelude::*;
use crate::ac3::header::{is_ac3_syncframe, starts_syncframe};

verus! {

/// Decoded audio: interleaved PCM samples, sample rate, and channel count.
#[derive(Clone, Debug)]
pub struct DecodedAudio {
    /// Interleaved 16-bit signed little-endian PCM samples.
    pub pcm_s16le: Vec<u8>,
    /// Sample rate in Hz (e.g., `48_000`).
    pub sample_rate: u32,
    /// Number of audio channels.
    pub channels: u16,
}

/// [`DecodedAudio`] as a mathematical value.
pub struct AudioView {
    pub pcm_s16le: Seq<u8>,
    pub sample_rate: u32,
    pub channels: u16,
}

impl DecodedAudio {
    pub open spec fn view(&self) -> AudioView {
        AudioView {
            pcm_s16le: self.pcm_s16le@,
            sample_rate: self.sample_rate,
            channels: self.channels,
        }
    }
}

// ---------------------------------------------------------------------------
// The decoder
// ---------------------------------------------------------------------------

/// The AC-3 / E-AC-3 decoder of `oxideav_ac3`, which it hands out as a trait
/// object.
#[verifier::external_body]
pub struct Ac3Codec {
    inner: Box<dyn Decoder>,
}

/// What a decoder gives for a packet.
pub enum Received {
    /// Audio: the number of samples per channel and the first plane, which
    /// holds them interleaved.
    Audio { samples: u32, plane: Option<Vec<u8>> },
    /// A frame of another kind.
    OtherFrame,
    /// Nothing without another packet.
    NeedMore,
    /// An error.
    Failed(String),
}

/// [`Received`] as a mathematical value.
pub enum ReceivedView {
    Audio { samples: u32, plane: Option<Seq<u8>> },
    OtherFrame,
    NeedMore,
    Failed(Seq<char>),
}

impl Received {
    pub open spec fn view(&self) -> ReceivedView {
        match *self {
            Received::Audio { samples, plane } => ReceivedView::Audio {
                samples,
                plane: match plane {
                    Some(p) => Some(p@),
                    None => None,
                },
            },
            Received::OtherFrame => ReceivedView::OtherFrame,
            Received::NeedMore => ReceivedView::NeedMore,
            Received::Failed(message) => ReceivedView::Failed(message@),
        }
    }
}

/// The packets that a decoder has worked off since it was made.
pub uninterp spec fn ac3_done(codec: Ac3Codec) -> Seq<Seq<u8>>;

/// The packet that waits in a decoder.
pub uninterp spec fn ac3_waiting(codec: Ac3Codec) -> Option<Seq<u8>>;

/// What a decoder that has worked off these packets makes of the next one.
pub uninterp spec fn ac3_frame(done: Seq<Seq<u8>>, packet: Seq<u8>) -> ReceivedView;

/// `oxideav_ac3::decoder::make_decoder` for the codec id "ac3", which stands
/// for AC-3 and E-AC-3 alike: it always makes a decoder, with no packet in it.
#[verifier::external_body]
fn make_codec() -> (codec: Result<Ac3Codec, String>)
    ensures
        match codec {
            Ok(c) => ac3_done(c) == Seq::<Seq<u8>>::empty() && ac3_waiting(c) is None,
            Err(_) => false,
        },
{
    let params = CodecParameters::audio(CodecId::new("ac3"));
    match decoder::make_decoder(&params) {
        Ok(inner) => Ok(Ac3Codec { inner }),
        Err(e) => Err(format!("build ac3/eac3 decoder: {e}")),
    }
}

/// `Decoder::send_packet` of that decoder: takes the packet unless one waits
/// already.
#[verifier::external_body]
fn send_packet(codec: &mut Ac3Codec, data: &[u8]) -> (sent: Result<(), String>)
    ensures
        ac3_done(*final(codec)) == ac3_done(*old(codec)),
        sent is Ok <==> ac3_waiting(*old(codec)) is None,
        sent is Ok ==> ac3_waiting(*final(codec)) == Some(data@),
        sent is Err ==> ac3_waiting(*final(codec)) == ac3_waiting(*old(codec)),
{
    let packet = Packet::new(0, TimeBase::new(1, 48_000), data.to_vec());
    codec.inner.send_packet(&packet).map_err(|e| e.to_string())
}

/// `Decoder::receive_frame` of that decoder: works off the waiting packet.
/// What comes of it depends on the packets before it and on the packet;
/// [`ac3_frame`] names it.
#[verifier::external_body]
fn receive_frame(codec: &mut Ac3Codec) -> (received: Received)
    ensures
        ac3_waiting(*final(codec)) is None,
        match ac3_waiting(*old(codec)) {
            None => received is NeedMore && ac3_done(*final(codec)) == ac3_done(*old(codec)),
            Some(packet) => received.view() == ac3_frame(ac3_done(*old(codec)), packet) && ac3_done(
                *final(codec),
            ) == ac3_done(*old(codec)).push(packet),
        },
{
    match codec.inner.receive_frame() {
        Ok(Frame::Audio(frame)) => Received::Audio { samples: frame.samples, plane: frame.data.into_iter().next() },
        Ok(_) => Received::OtherFrame,
        Err(Error::NeedMore | Error::Eof) => Received::NeedMore,
        Err(e) => Received::Failed(e.to_string()),
    }
}

/// The frame length in bytes and the sample rate that
/// `oxideav_ac3::syncinfo::parse` reads from a base AC-3 sync frame.
pub uninterp spec fn syncinfo_of(data: Seq<u8>) -> Option<(u32, u32)>;

/// `oxideav_ac3::syncinfo::parse`, of which the frame length and the sample
/// rate are used. The result is what [`syncinfo_of`] names; it depends on
/// `data` alone.
#[verifier::external_body]
fn parse_syncinfo(data: &[u8]) -> (info: Option<(u32, u32)>)
    ensures
        info == syncinfo_of(data@),
{
    syncinfo::parse(data).ok().map(|info| (info.frame_length, info.sample_rate))
}

// ---------------------------------------------------------------------------
// Access units
// ---------------------------------------------------------------------------

/// PCM collected from the frames of an access unit.
pub struct Collected {
    pub pcm: Vec<u8>,
    pub sample_rate: Option<u32>,
    pub channels: Option<u16>,
}

/// [`Collected`] as a mathematical value.
pub struct CollectedView {
    pub pcm: Seq<u8>,
    pub sample_rate: Option<u32>,
    pub channels: Option<u16>,
}

impl Collected {
    pub open spec fn view(&self) -> CollectedView {
        CollectedView { pcm: self.pcm@, sample_rate: self.sample_rate, channels: self.channels }
    }
}

/// The number of channels in a plane of interleaved 16-bit samples.
pub open spec fn plane_channels(len: int, samples: u32) -> int {
    if samples == 0 {
        0
    } else {
        len / (samples as int * 2)
    }
}

/// What is collected after one more frame of audio at `rate`. A frame that
/// shows no channel leaves their number as it was.
pub open spec fn with_frame(
    so_far: CollectedView,
    samples: u32,
    plane: Option<Seq<u8>>,
    rate: u32,
) -> CollectedView {
    CollectedView {
        pcm: match plane {
            Some(p) => so_far.pcm + p,
            None => so_far.pcm,
        },
        sample_rate: Some(rate),
        channels: match plane {
            Some(p) => if plane_channels(p.len() as int, samples) > 0 {
                Some((plane_channels(p.len() as int, samples) % 65536) as u16)
            } else {
                so_far.channels
            },
            None => so_far.channels,
        },
    }
}

impl Collected {
    /// Nothing collected.
    pub fn new() -> (collected: Self)
        ensures
            collected.view() == nothing_collected(),
    {
        let collected = Collected { pcm: Vec::new(), sample_rate: None, channels: None };
        assert(collected.pcm@ =~= Seq::empty());
        collected
    }

    /// Add one decoded frame of audio at `rate`.
    pub fn add_frame(&mut self, samples: u32, plane: Option<Vec<u8>>, rate: u32)
        ensures
            final(self).view() == with_frame(
                old(self).view(),
                samples,
                match plane {
                    Some(p) => Some(p@),
                    None => None,
                },
                rate,
            ),
    {
        if let Some(p) = plane {
            let mut p: Vec<u8> = p;
            if samples > 0 {
                let ch: u64 = p.len() as u64 / (samples as u64 * 2);
                proof {
                    let n = p@.len() as int;
                    let d = samples as int * 2;
                    assert(0 <= n / d) by (nonlinear_arith)
                        requires
                            n >= 0,
                            d > 0,
                    ;
                }
                if ch > 0 {
                    self.channels = Some((ch % 65536) as u16);
                }
            }
            self.pcm.append(&mut p);
        }
        self.sample_rate = Some(rate);
    }

    /// The audio collected, if any.
    pub fn finish(self) -> (audio: Option<DecodedAudio>)
        ensures
            match audio {
                Some(a) => audio_of(self.view()) == Some(a.view()),
                None => audio_of(self.view()) is None,
            },
    {
        if self.pcm.len() == 0 {
            return None;
        }
        Some(
            DecodedAudio {
                pcm_s16le: self.pcm,
                sample_rate: match self.sample_rate {
                    Some(rate) => rate,
                    None => 0,
                },
                channels: match self.channels {
                    Some(channels) => channels,
                    None => 0,
                },
            },
        )
    }
}

/// The state before any frame.
pub open spec fn nothing_collected() -> CollectedView {
    CollectedView { pcm: Seq::empty(), sample_rate: None, channels: None }
}

/// The audio of what was collected: none without PCM; what no frame told is
/// zero.
pub open spec fn audio_of(collected: CollectedView) -> Option<AudioView> {
    if collected.pcm.len() == 0 {
        None
    } else {
        Some(
            AudioView {
                pcm_s16le: collected.pcm,
                sample_rate: match collected.sample_rate {
                    Some(rate) => rate,
                    None => 0,
                },
                channels: match collected.channels {
                    Some(channels) => channels,
                    None => 0,
                },
            },
        )
    }
}

/// Length in bytes of an E-AC-3 sync frame: its 11-bit `frmsiz` counts
/// 16-bit words less one.
pub open spec fn eac3_frame_len(data: Seq<u8>, at: int) -> int {
    ((data[at + 2] as int % 8) * 256 + data[at + 3] + 1) * 2
}

/// Sample rate of an E-AC-3 sync frame, by the top two bits of its fifth byte.
pub open spec fn eac3_rate(code: int) -> u32 {
    if code == 1 {
        44_100
    } else if code == 2 {
        32_000
    } else {
        48_000
    }
}

/// Length and sample rate of the sync frame at `at`: base AC-3, with `bsid` at
/// most 10, is read by `syncinfo`, E-AC-3 by its own layout. `None` where the
/// header cannot be read.
pub open spec fn frame_at(data: Seq<u8>, at: int) -> Option<(int, u32)> {
    if data[at + 5] / 8 <= 10 {
        match syncinfo_of(data.skip(at)) {
            Some((len, rate)) => Some((len as int, rate)),
            None => None,
        }
    } else {
        Some((eac3_frame_len(data, at), eac3_rate(data[at + 4] as int / 64)))
    }
}

/// What a decoder makes of an access unit from `at` on.
pub enum AuOutcome {
    /// The end was reached, with this collected, and these packets worked off.
    Done(CollectedView, Seq<Seq<u8>>),
    /// A frame failed with this message, after these packets.
    Failed(Seq<char>, Seq<Seq<u8>>),
}

/// Decodes an access unit from `at` on. Bytes that start no readable sync
/// frame are skipped one by one; a frame that is cut short, and what follows
/// it, is left.
pub open spec fn decode_from(
    data: Seq<u8>,
    at: int,
    done: Seq<Seq<u8>>,
    so_far: CollectedView,
) -> AuOutcome
    decreases data.len() - at,
{
    if at < 0 || at + 6 > data.len() {
        AuOutcome::Done(so_far, done)
    } else if !starts_syncframe(data.skip(at)) {
        decode_from(data, at + 1, done, so_far)
    } else {
        match frame_at(data, at) {
            None => decode_from(data, at + 1, done, so_far),
            Some((len, rate)) => if len <= 0 || at + len > data.len() {
                AuOutcome::Done(so_far, done)
            } else {
                let packet = data.subrange(at, at + len);
                match ac3_frame(done, packet) {
                    ReceivedView::Audio { samples, plane } => decode_from(
                        data,
                        at + len,
                        done.push(packet),
                        with_frame(so_far, samples, plane, rate),
                    ),
                    ReceivedView::Failed(message) => AuOutcome::Failed(message, done.push(packet)),
                    _ => decode_from(data, at + len, done.push(packet), so_far),
                }
            },
        }
    }
}

/// What a decoder that has worked off `done` makes of an access unit.
pub open spec fn decode_outcome(data: Seq<u8>, done: Seq<Seq<u8>>) -> AuOutcome {
    decode_from(data, 0, done, nothing_collected())
}

/// Length and sample rate of the sync frame at `at`.
fn read_frame_header(data: &[u8], at: usize) -> (header: Option<(usize, u32)>)
    requires
        at + 6 <= data@.len(),
    ensures
        match header {
            Some((len, rate)) => frame_at(data@, at as int) == Some((len as int, rate)),
            None => frame_at(data@, at as int) is None,
        },
{
    let len: usize = data.len();
    let bsid: u8 = data[at + 5] / 8;
    if bsid <= 10 {
        let tail: &[u8] = vstd::slice::slice_subrange(data, at, len);
        assert(tail@ =~= data@.skip(at as int));
        match parse_syncinfo(tail) {
            Some((len, rate)) => Some((len as usize, rate)),
            None => None,
        }
    } else {
        let frmsiz: usize = (data[at + 2] % 8) as usize * 256 + data[at + 3] as usize;
        let rate: u32 = match data[at + 4] / 64 {
            1 => 44_100,
            2 => 32_000,
            _ => 48_000,
        };
        Some(((frmsiz + 1) * 2, rate))
    }
}

/// Stateful AC-3 + E-AC-3 decoder for incremental (per-access-unit) use.
///
/// Holds decode state across calls; use one per audio PID and
/// [`reset`](Self::reset) when switching PIDs.
pub struct IncrementalDecoder {
    pub dec: Ac3Codec,
}

impl IncrementalDecoder {
    /// The packets worked off since the decoder was made or reset.
    pub open spec fn done(self) -> Seq<Seq<u8>> {
        ac3_done(self.dec)
    }

    /// Whether no packet waits in the decoder.
    pub open spec fn idle(self) -> bool {
        ac3_waiting(self.dec) is None
    }

    /// Create a new decoder with fresh state.
    pub fn new() -> (decoder: Result<Self, String>)
        ensures
            match decoder {
                Ok(d) => d.idle() && d.done() == Seq::<Seq<u8>>::empty(),
                Err(_) => false,
            },
    {
        match make_codec() {
            Ok(dec) => Ok(IncrementalDecoder { dec }),
            Err(e) => Err(e),
        }
    }

    /// Reset decode state (call when switching to a new stream / PID).
    pub fn reset(&mut self)
        ensures
            final(self).idle(),
            final(self).done() == Seq::<Seq<u8>>::empty(),
    {
        if let Ok(dec) = make_codec() {
            self.dec = dec;
        }
    }

    /// Decode all AC-3 / E-AC-3 syncframes in one access unit's ES bytes.
    ///
    /// Returns the concatenated interleaved-S16LE PCM of all syncframes found,
    /// plus the sample rate and (native) channel count of the last, `None`
    /// without PCM, and the decoder's message where a syncframe fails to
    /// decode. Bytes that don't form a complete syncframe are skipped.
    pub fn decode_au(&mut self, data: &[u8]) -> (decoded: Result<Option<DecodedAudio>, String>)
        requires
            old(self).idle(),
        ensures
            final(self).idle(),
            match decode_outcome(data@, old(self).done()) {
                AuOutcome::Done(collected, done) => {
                    &&& final(self).done() == done
                    &&& match decoded {
                        Ok(Some(audio)) => audio_of(collected) == Some(audio.view()),
                        Ok(None) => audio_of(collected) is None,
                        Err(_) => false,
                    }
                },
                AuOutcome::Failed(message, done) => {
                    &&& final(self).done() == done
                    &&& match decoded {
                        Ok(_) => false,
                        Err(e) => e@ == message,
                    }
                },
            },
    {
        let ghost expected = decode_outcome(data@, self.done());
        let mut collected: Collected = Collected::new();
        let mut offset: usize = 0;
        while data.len() - offset >= 6
            invariant_except_break
                decode_from(data@, offset as int, self.done(), collected.view()) == expected,
            invariant
                offset <= data@.len(),
                self.idle(),
                expected == decode_outcome(data@, old(self).done()),
            ensures
                expected == AuOutcome::Done(collected.view(), self.done()),
            decreases data@.len() - offset,
        {
            let tail: &[u8] = vstd::slice::slice_subrange(data, offset, data.len());
            assert(tail@ =~= data@.skip(offset as int));
            if !is_ac3_syncframe(tail) {
                offset = offset + 1;
                continue ;
            }
            let (frame_len, frame_rate) = match read_frame_header(data, offset) {
                Some(header) => header,
                None => {
                    offset = offset + 1;
                    continue ;
                },
            };
            if frame_len == 0 || frame_len > data.len() - offset {
                break ;
            }
            let packet: &[u8] = vstd::slice::slice_subrange(data, offset, offset + frame_len);
            match send_packet(&mut self.dec, packet) {
                Ok(_) => {},
                Err(e) => {
                    return Err(e);
                },
            }
            match receive_frame(&mut self.dec) {
                Received::Audio { samples, plane } => {
                    collected.add_frame(samples, plane, frame_rate);
                },
                Received::OtherFrame => {},
                Received::NeedMore => {},
                Received::Failed(e) => {
                    return Err(e);
                },
            }
            offset = offset + frame_len;
        }
        Ok(collected.finish())
    }
}

// ---------------------------------------------------------------------------
// Whole streams of E-AC-3
// ---------------------------------------------------------------------------

#[verifier::external_type_specification]
#[verifier::external_body]
pub struct ExEac3DecoderState(oxideav_ac3::eac3::Eac3DecoderState);

/// The packets that an E-AC-3 decoder state has taken in since it was made.
pub uninterp spec fn eac3_done(state: oxideav_ac3::eac3::Eac3DecoderState) -> Seq<Seq<u8>>;

/// What an E-AC-3 decoder state that has taken in these packets makes of the
/// next one: audio, or a message.
pub uninterp spec fn eac3_frame(done: Seq<Seq<u8>>, packet: Seq<u8>) -> Result<AudioView, Seq<char>>;

/// `Eac3DecoderState::default`: a state that has taken in nothing.
#[verifier::external_body]
fn eac3_state() -> (state: oxideav_ac3::eac3::Eac3DecoderState)
    ensures
        eac3_done(state) == Seq::<Seq<u8>>::empty(),
{
    eac3::Eac3DecoderState::default()
}

/// `oxideav_ac3::eac3::decode_eac3_packet`. What comes of it depends on the
/// packets before it and on the packet; [`eac3_frame`] names it.
#[verifier::external_body]
fn decode_eac3_packet(
    state: &mut oxideav_ac3::eac3::Eac3DecoderState,
    packet: &[u8],
) -> (decoded: Result<DecodedAudio, String>)
    ensures
        eac3_done(*final(state)) == eac3_done(*old(state)).push(packet@),
        match decoded {
            Ok(audio) => eac3_frame(eac3_done(*old(state)), packet@) == Ok::<AudioView, Seq<char>>(
                audio.view(),
            ),
            Err(e) => eac3_frame(eac3_done(*old(state)), packet@) == Err::<AudioView, Seq<char>>(e@),
        },
{
    match eac3::decode_eac3_packet(state, packet) {
        Ok(frame) => Ok(DecodedAudio { pcm_s16le: frame.pcm_s16le, sample_rate: frame.sample_rate, channels: frame.channels }),
        Err(e) => Err(e.to_string()),
    }
}

/// Decodes a stream of E-AC-3 from `at` on: audio, or the message of the first
/// frame that fails. Bytes that start no sync frame are skipped one by one; a
/// frame that is cut short, and what follows it, is left.
pub open spec fn eac3_from(
    data: Seq<u8>,
    at: int,
    done: Seq<Seq<u8>>,
    so_far: AudioView,
) -> Result<AudioView, Seq<char>>
    decreases data.len() - at,
{
    if at < 0 || at + 6 > data.len() {
        Ok(so_far)
    } else if !starts_syncframe(data.skip(at)) {
        eac3_from(data, at + 1, done, so_far)
    } else if at + eac3_frame_len(data, at) > data.len() {
        Ok(so_far)
    } else {
        let packet = data.subrange(at, at + eac3_frame_len(data, at));
        match eac3_frame(done, packet) {
            Ok(audio) => eac3_from(
                data,
                at + eac3_frame_len(data, at),
                done.push(packet),
                AudioView { pcm_s16le: so_far.pcm_s16le + audio.pcm_s16le, ..audio },
            ),
            Err(message) => Err(message),
        }
    }
}

/// The audio before any frame.
pub open spec fn silence() -> AudioView {
    AudioView { pcm_s16le: Seq::empty(), sample_rate: 0, channels: 0 }
}

/// Decode all E-AC-3 syncframes in `data` and return the concatenated
/// interleaved PCM, with the sample rate and channel count of the last frame.
///
/// Any trailing bytes that don't form a complete syncframe are dropped. The
/// first frame that fails to decode gives its message as the error.
pub fn decode_all_eac3(data: &[u8]) -> (decoded: Result<DecodedAudio, String>)
    ensures
        match decoded {
            Ok(audio) => eac3_from(data@, 0, Seq::empty(), silence()) == Ok::<AudioView, Seq<char>>(
                audio.view(),
            ),
            Err(e) => eac3_from(data@, 0, Seq::empty(), silence()) == Err::<AudioView, Seq<char>>(
                e@,
            ),
        },
{
    let mut state: oxideav_ac3::eac3::Eac3DecoderState = eac3_state();
    let mut audio: DecodedAudio = DecodedAudio {
        pcm_s16le: Vec::new(),
        sample_rate: 0,
        channels: 0,
    };
    assert(audio.pcm_s16le@ =~= Seq::empty());
    let ghost expected = eac3_from(data@, 0, Seq::empty(), silence());
    let mut offset: usize = 0;
    while data.len() - offset >= 6
        invariant_except_break
            eac3_from(data@, offset as int, eac3_done(state), audio.view()) == expected,
        invariant
            offset <= data@.len(),
            expected == eac3_from(data@, 0, Seq::empty(), silence()),
        ensures
            expected == Ok::<AudioView, Seq<char>>(audio.view()),
        decreases data@.len() - offset,
    {
        let tail: &[u8] = vstd::slice::slice_subrange(data, offset, data.len());
        assert(tail@ =~= data@.skip(offset as int));
        if !is_ac3_syncframe(tail) {
            offset = offset + 1;
            continue ;
        }
        let frmsiz: usize = (data[offset + 2] % 8) as usize * 256 + data[offset + 3] as usize;
        let frame_len: usize = (frmsiz + 1) * 2;
        if frame_len > data.len() - offset {
            break ;
        }
        let packet: &[u8] = vstd::slice::slice_subrange(data, offset, offset + frame_len);
        match decode_eac3_packet(&mut state, packet) {
            Ok(frame) => {
                let mut frame: DecodedAudio = frame;
                audio.sample_rate = frame.sample_rate;
                audio.channels = frame.channels;
                audio.pcm_s16le.append(&mut frame.pcm_s16le);
            },
            Err(e) => {
                return Err(e);
            },
        }
        offset = offset + frame_len;
    }
    Ok(audio)
}

// ---------------------------------------------------------------------------
// Laws
// ---------------------------------------------------------------------------

/// Input that is too short for a frame header is no audio and no error, and
/// leaves the decoder as it was.
pub proof fn short_input_is_silent(data: Seq<u8>, done: Seq<Seq<u8>>)
    requires
        data.len() < 6,
    ensures
        decode_outcome(data, done) == AuOutcome::Done(nothing_collected(), done),
        audio_of(nothing_collected()) is None,
        eac3_from(data, 0, done, silence()) == Ok::<AudioView, Seq<char>>(silence()),
{
}

/// Whatever an access unit holds, the packets that the decoder worked off
/// before it stay the first ones: decoding only ever adds packets.
pub proof fn decoding_adds_packets(
    data: Seq<u8>,
    at: int,
    done: Seq<Seq<u8>>,
    so_far: CollectedView,
)
    ensures
        match decode_from(data, at, done, so_far) {
            AuOutcome::Done(_, after) => done.is_prefix_of(after),
            AuOutcome::Failed(_, after) => done.is_prefix_of(after),
        },
    decreases data.len() - at,
{
    if !(at < 0 || at + 6 > data.len()) {
        if !starts_syncframe(data.skip(at)) {
            decoding_adds_packets(data, at + 1, done, so_far);
        } else {
            match frame_at(data, at) {
                None => decoding_adds_packets(data, at + 1, done, so_far),
                Some((len, rate)) => if !(len <= 0 || at + len > data.len()) {
                    let packet = data.subrange(at, at + len);
                    match ac3_frame(done, packet) {
                        ReceivedView::Audio { samples, plane } => decoding_adds_packets(
                            data,
                            at + len,
                            done.push(packet),
                            with_frame(so_far, samples, plane, rate),
                        ),
                        ReceivedView::Failed(_) => {},
                        _ => decoding_adds_packets(data, at + len, done.push(packet), so_far),
                    }
                },
            }
        }
    }
}

/// Data in which no sync word occurs decodes to nothing, without touching the
/// decoder: it hands over no packet at all.
pub proof fn no_sync_word_no_audio(
    data: Seq<u8>,
    at: int,
    done: Seq<Seq<u8>>,
    so_far: CollectedView,
)
    requires
        0 <= at,
        forall|i: int| 0 <= i <= data.len() ==> !#[trigger] starts_syncframe(data.skip(i)),
    ensures
        decode_from(data, at, done, so_far) == AuOutcome::Done(so_far, done),
    decreases data.len() - at,
{
    if at + 6 <= data.len() {
        no_sync_word_no_audio(data, at + 1, done, so_far);
    }
}

} // verus!
