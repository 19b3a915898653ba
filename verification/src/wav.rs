//! Reading PCM WAV files: the chunk walk that finds the format and the data,
//! and the amplitude envelope drawn on the timeline.

use vstd::prelude::*;
use crate::text::{append_str, decimal, decimal_string};

verus! {

/// The little-endian 16-bit value at `i`.
pub open spec fn le16(b: Seq<u8>, i: int) -> nat {
    (b[i] + 256 * b[i + 1]) as nat
}

/// The little-endian 32-bit value at `i`.
pub open spec fn le32(b: Seq<u8>, i: int) -> nat {
    (b[i] + 256 * b[i + 1] + 65536 * b[i + 2] + 16777216 * b[i + 3]) as nat
}

/// Whether the four bytes at `i` spell `tag`.
pub open spec fn tag_at(b: Seq<u8>, i: int, tag: Seq<u8>) -> bool {
    b.subrange(i, i + 4) == tag
}

/// `RIFF`, `WAVE`, `fmt ` and `data` as bytes.
pub open spec fn riff_tag() -> Seq<u8> {
    seq![82u8, 73u8, 70u8, 70u8]
}

pub open spec fn wave_tag() -> Seq<u8> {
    seq![87u8, 65u8, 86u8, 69u8]
}

pub open spec fn fmt_tag() -> Seq<u8> {
    seq![102u8, 109u8, 116u8, 32u8]
}

pub open spec fn data_tag() -> Seq<u8> {
    seq![100u8, 97u8, 116u8, 97u8]
}

/// The format of a WAV and where its samples are.
#[derive(Clone, Copy, Debug, PartialEq, Eq, Structural)]
pub struct WavHeader {
    pub channels: u16,
    pub sample_rate: u32,
    pub bits: u16,
    /// The size of the `data` chunk as its header states it.
    pub data_len: u32,
    /// Where the samples start in the file.
    pub data_start: usize,
}

/// Why a WAV cannot be read.
#[derive(Clone, Copy, Debug, PartialEq, Eq, Structural)]
pub enum WavProblem {
    NotWav,
    NoData,
    FmtIncomplete,
    /// A `fmt ` chunk shorter than the 16 bytes read from it.
    FmtTooShort,
    /// The samples are not 16-bit.
    Not16Bit { bits: u16 },
}

/// The walk over the chunks from `pos`, with the format read so far.
pub open spec fn scan_chunks(b: Seq<u8>, pos: int, channels: u16, rate: u32, bits: u16) -> Result<
    WavHeader,
    WavProblem,
>
    decreases b.len() - pos,
{
    if pos < 0 || pos + 8 > b.len() {
        Err(WavProblem::NoData)
    } else {
        let size = le32(b, pos + 4);
        if tag_at(b, pos, fmt_tag()) {
            if pos + 8 + size > b.len() {
                Err(WavProblem::FmtIncomplete)
            } else if size < 16 {
                Err(WavProblem::FmtTooShort)
            } else {
                scan_chunks(
                    b,
                    pos + 8 + size,
                    le16(b, pos + 10) as u16,
                    le32(b, pos + 12) as u32,
                    le16(b, pos + 22) as u16,
                )
            }
        } else if tag_at(b, pos, data_tag()) {
            Ok(
                WavHeader {
                    channels,
                    sample_rate: rate,
                    bits,
                    data_len: size as u32,
                    data_start: (pos + 8) as usize,
                },
            )
        } else {
            let next = pos + 8 + size + size % 2;
            scan_chunks(b, if next > b.len() { b.len() as int } else { next }, channels, rate, bits)
        }
    }
}

/// The header of the WAV file whose bytes are `b`: the `RIFF`/`WAVE` preamble,
/// then the chunks up to `data`, the last `fmt ` chunk before it giving the
/// format; chunks of other kinds are skipped with their padding byte.
pub open spec fn wav_header_spec(b: Seq<u8>) -> Result<WavHeader, WavProblem> {
    if b.len() < 12 || !tag_at(b, 0, riff_tag()) || !tag_at(b, 8, wave_tag()) {
        Err(WavProblem::NotWav)
    } else {
        scan_chunks(b, 12, 0, 0, 0)
    }
}

fn tag_is(b: &[u8], i: usize, t0: u8, t1: u8, t2: u8, t3: u8) -> (r: bool)
    requires
        i + 4 <= b.len(),
    ensures
        r == tag_at(b@, i as int, seq![t0, t1, t2, t3]),
{
    let r = b[i] == t0 && b[i + 1] == t1 && b[i + 2] == t2 && b[i + 3] == t3;
    proof {
        let s = b@.subrange(i as int, i + 4);
        if r {
            assert(s =~= seq![t0, t1, t2, t3]);
        } else if s == seq![t0, t1, t2, t3] {
            assert(s[0] == t0 && s[1] == t1 && s[2] == t2 && s[3] == t3);
        }
    }
    r
}

fn read_le16(b: &[u8], i: usize) -> (r: u16)
    requires
        i + 2 <= b.len(),
    ensures
        r == le16(b@, i as int),
{
    b[i] as u16 + 256 * (b[i + 1] as u16)
}

fn read_le32(b: &[u8], i: usize) -> (r: u32)
    requires
        i + 4 <= b.len(),
    ensures
        r == le32(b@, i as int),
{
    b[i] as u32 + 256 * (b[i + 1] as u32) + 65536 * (b[i + 2] as u32) + 16777216 * (b[i + 3] as u32)
}

/// Reads the header of the WAV file whose bytes are `b`.
pub fn parse_wav_header(b: &[u8]) -> (r: Result<WavHeader, WavProblem>)
    ensures
        r == wav_header_spec(b@),
{
    if b.len() < 12 || !tag_is(b, 0, 82, 73, 70, 70) || !tag_is(b, 8, 87, 65, 86, 69) {
        return Err(WavProblem::NotWav);
    }
    let mut pos: usize = 12;
    let mut channels: u16 = 0;
    let mut rate: u32 = 0;
    let mut bits: u16 = 0;
    loop
        invariant
            12 <= pos <= b.len(),
            wav_header_spec(b@) == scan_chunks(b@, pos as int, channels, rate, bits),
        decreases b.len() - pos,
    {
        if b.len() - pos < 8 {
            return Err(WavProblem::NoData);
        }
        let size = read_le32(b, pos + 4);
        if tag_is(b, pos, 102, 109, 116, 32) {
            if (b.len() - pos - 8) < size as usize || size as u64 > (b.len() - pos - 8) as u64 {
                return Err(WavProblem::FmtIncomplete);
            }
            if size < 16 {
                return Err(WavProblem::FmtTooShort);
            }
            channels = read_le16(b, pos + 10);
            rate = read_le32(b, pos + 12);
            bits = read_le16(b, pos + 22);
            pos = pos + 8 + size as usize;
        } else if tag_is(b, pos, 100, 97, 116, 97) {
            return Ok(
                WavHeader { channels, sample_rate: rate, bits, data_len: size, data_start: pos + 8 },
            );
        } else {
            let rem: u64 = (b.len() - pos - 8) as u64;
            let skip: u64 = size as u64 + (size % 2) as u64;
            pos = if skip >= rem {
                b.len()
            } else {
                pos + 8 + skip as usize
            };
        }
    }
}

impl WavProblem {
    /// The message shown for the problem; `None` for a `fmt ` chunk shorter
    /// than the 16 bytes read from it (`FmtTooShort`), which has no message
    /// of its own: reading stops there.
    pub fn message(&self) -> (r: Option<String>)
        ensures
            match *self {
                WavProblem::NotWav => r matches Some(m) && m@ == "El audio no es un WAV válido."@,
                WavProblem::NoData => r matches Some(m) && m@ == "WAV sin chunk de datos."@,
                WavProblem::FmtIncomplete => r matches Some(m) && m@ == "Chunk fmt incompleto."@,
                WavProblem::FmtTooShort => r is None,
                WavProblem::Not16Bit { bits } => r matches Some(m) && m@
                    == "Solo se admite audio PCM de 16 bits (este tiene "@ + decimal(bits as nat)
                    + ")."@,
            },
    {
        match *self {
            WavProblem::NotWav => Some("El audio no es un WAV válido.".to_owned()),
            WavProblem::NoData => Some("WAV sin chunk de datos.".to_owned()),
            WavProblem::FmtIncomplete => Some("Chunk fmt incompleto.".to_owned()),
            WavProblem::FmtTooShort => None,
            WavProblem::Not16Bit { bits } => {
                let mut m = String::new();
                append_str(&mut m, "Solo se admite audio PCM de 16 bits (este tiene ");
                append_str(&mut m, decimal_string(bits as u64).as_str());
                append_str(&mut m, ").");
                assert(m@ =~= "Solo se admite audio PCM de 16 bits (este tiene "@ + decimal(
                    bits as nat,
                ) + ")."@);
                Some(m)
            },
        }
    }
}

/// The frames of the data and the sample rate, from which the duration is
/// `frames / rate`; `None` when the rate or the frame size is 0, whose
/// duration is 0.
pub open spec fn duration_frames_spec(h: WavHeader) -> Option<(nat, u32)> {
    let bytes_per_frame = (h.bits / 8) as nat * (if h.channels == 0 { 1nat } else { h.channels as nat });
    if h.sample_rate == 0 || bytes_per_frame == 0 {
        None
    } else {
        Some(((h.data_len as nat) / bytes_per_frame, h.sample_rate))
    }
}

/// The frame count and sample rate that give the duration of the audio.
pub fn duration_frames(h: &WavHeader) -> (r: Option<(u64, u32)>)
    ensures
        match duration_frames_spec(*h) {
            None => r is None,
            Some((f, rate)) => r == Some((f as u64, rate)),
        },
{
    let ch: u64 = if h.channels == 0 { 1 } else { h.channels as u64 };
    let per_sample: u64 = (h.bits / 8) as u64;
    assert(per_sample * ch <= 8192 * 65536) by (nonlinear_arith)
        requires
            per_sample <= 8192,
            ch <= 65536,
    ;
    let bpf: u64 = per_sample * ch;
    if h.sample_rate == 0 || bpf == 0 {
        return None;
    }
    Some((h.data_len as u64 / bpf, h.sample_rate))
}

// ---------------------------------------------------------------------------
// The amplitude envelope
// ---------------------------------------------------------------------------

/// The signed 16-bit sample at `i`.
pub open spec fn sample_at(b: Seq<u8>, i: int) -> int {
    let v = le16(b, i) as int;
    if v >= 32768 {
        v - 65536
    } else {
        v
    }
}

/// The sum of the first `c` channels of the frame at `pos`.
pub open spec fn channel_sum(b: Seq<u8>, pos: int, c: nat) -> int
    decreases c,
{
    if c == 0 {
        0
    } else {
        channel_sum(b, pos, (c - 1) as nat) + sample_at(b, pos + 2 * (c - 1))
    }
}

/// The amplitude of the frame at `pos`: the magnitude of the channels' mean,
/// rounded toward zero.
pub open spec fn frame_amplitude(b: Seq<u8>, pos: int, channels: nat) -> nat {
    let s = channel_sum(b, pos, channels);
    let m = if s >= 0 { s } else { -s };
    (m / channels as int) as nat
}

/// The largest amplitude of the frames `from..to`, 0 when there are none.
pub open spec fn max_amplitude(b: Seq<u8>, start: int, channels: nat, from: nat, to: nat) -> nat
    decreases to - from,
{
    if from >= to {
        0
    } else {
        let rest = max_amplitude(b, start, channels, from, (to - 1) as nat);
        let a = frame_amplitude(b, start + (to - 1) * 2 * channels, channels);
        if a > rest {
            a
        } else {
            rest
        }
    }
}

/// The peaks of the buckets of `per_bucket` frames from `from` on, among the
/// first `avail` frames.
pub open spec fn bucket_peaks(
    b: Seq<u8>,
    start: int,
    channels: nat,
    per_bucket: nat,
    avail: nat,
    from: nat,
) -> Seq<nat>
    decreases avail - from,
{
    if from >= avail || per_bucket == 0 {
        Seq::empty()
    } else {
        let to = if from + per_bucket < avail { from + per_bucket } else { avail };
        seq![max_amplitude(b, start, channels, from, to)] + bucket_peaks(
            b,
            start,
            channels,
            per_bucket,
            avail,
            to,
        )
    }
}

/// The envelope of the audio: its peaks and how many frames it has.
#[derive(Debug)]
pub struct Envelope {
    /// One peak per bucket, as an amplitude in `0..=32768`.
    pub peaks: Vec<u32>,
    /// The frames of the data, from which the duration is `frames / rate`.
    pub total_frames: u64,
    pub sample_rate: u32,
}

/// The frames that can be read: those the header states, as far as the
/// bytes reach.
pub open spec fn readable_frames(b: Seq<u8>, h: WavHeader) -> nat {
    let channels = if h.channels == 0 { 1nat } else { h.channels as nat };
    let total = (h.data_len as nat) / (2 * channels);
    let in_bytes = if b.len() >= h.data_start { ((b.len() - h.data_start) as nat) / (2 * channels) } else { 0nat };
    if total < in_bytes {
        total
    } else {
        in_bytes
    }
}

/// The envelope of the 16-bit WAV whose bytes are `b`, in `buckets` peaks
/// (at least one): each bucket covers `ceil(frames / buckets)` frames and
/// holds the largest amplitude among them; buckets past the last frame read
/// hold 0.
pub open spec fn envelope_spec(b: Seq<u8>, buckets: usize) -> Result<(Seq<nat>, nat, u32), WavProblem> {
    let n = if buckets == 0 { 1nat } else { buckets as nat };
    match wav_header_spec(b) {
        Err(p) => Err(p),
        Ok(h) => if h.bits != 16 {
            Err(WavProblem::Not16Bit { bits: h.bits })
        } else {
            let channels = if h.channels == 0 { 1nat } else { h.channels as nat };
            let total = (h.data_len as nat) / (2 * channels);
            if total == 0 {
                Ok((Seq::new(n, |i: int| 0nat), total, h.sample_rate))
            } else {
                let per_bucket = total / n + if total % n == 0 { 0nat } else { 1nat };
                let peaks = bucket_peaks(b, h.data_start as int, channels, per_bucket, readable_frames(b, h), 0);
                Ok((Seq::new(n, |i: int| if i < peaks.len() { peaks[i] } else { 0nat }), total, h.sample_rate))
            }
        },
    }
}

fn frame_amplitude_at(b: &[u8], pos: usize, channels: u64) -> (r: u32)
    requires
        1 <= channels <= 65535,
        pos + 2 * channels <= b.len(),
    ensures
        r as nat == frame_amplitude(b@, pos as int, channels as nat),
        r <= 32768,
{
    let mut sum: i64 = 0;
    let mut c: u64 = 0;
    while c < channels
        invariant
            c <= channels <= 65535,
            pos + 2 * channels <= b.len(),
            sum == channel_sum(b@, pos as int, c as nat),
            -32768 * c <= sum <= 32767 * c,
        decreases channels - c,
    {
        let i = pos + 2 * (c as usize);
        let v = read_le16(b, i) as i64;
        let sample: i64 = if v >= 32768 {
            v - 65536
        } else {
            v
        };
        sum = sum + sample;
        c += 1;
    }
    let m: u64 = if sum >= 0 {
        sum as u64
    } else {
        (-sum) as u64
    };
    proof {
        vstd::arithmetic::div_mod::lemma_div_is_ordered(m as int, 32768 * channels as int, channels as int);
        vstd::arithmetic::div_mod::lemma_div_by_multiple(32768, channels as int);
    }
    (m / channels) as u32
}

fn max_amplitude_of(b: &[u8], start: usize, channels: u64, from: u64, to: u64) -> (r: u32)
    requires
        1 <= channels <= 65535,
        from <= to,
        start as int + to * 2 * channels <= b.len(),
    ensures
        r as nat == max_amplitude(b@, start as int, channels as nat, from as nat, to as nat),
{
    let mut m: u32 = 0;
    let mut f = from;
    while f < to
        invariant
            1 <= channels <= 65535,
            from <= f <= to,
            start as int + to * 2 * channels <= b.len(),
            m as nat == max_amplitude(b@, start as int, channels as nat, from as nat, f as nat),
        decreases to - f,
    {
        let step: u64 = 2 * channels;
        assert(f * step + step <= to * step && to * step == to * 2 * channels) by (nonlinear_arith)
            requires
                f < to,
                step == 2 * channels,
                channels >= 1,
        ;
        let pos = start + (f * step) as usize;
        assert(pos as int == start as int + f * 2 * channels) by (nonlinear_arith)
            requires
                pos as int == start as int + f * step,
                step == 2 * channels,
        ;
        let a = frame_amplitude_at(b, pos, channels);
        if a > m {
            m = a;
        }
        f += 1;
    }
    m
}

/// The envelope of the 16-bit WAV whose bytes are `b`, in `buckets` peaks.
pub fn envelope(b: &[u8], buckets: usize) -> (r: Result<Envelope, WavProblem>)
    ensures
        match envelope_spec(b@, buckets) {
            Err(p) => r == Err::<Envelope, WavProblem>(p),
            Ok((peaks, total, rate)) => r matches Ok(e) && e.peaks@.map_values(|x: u32| x as nat)
                == peaks && e.total_frames == total && e.sample_rate == rate,
        },
{
    let n: usize = if buckets == 0 { 1 } else { buckets };
    let h = match parse_wav_header(b) {
        Err(p) => {
            return Err(p);
        },
        Ok(h) => h,
    };
    if h.bits != 16 {
        return Err(WavProblem::Not16Bit { bits: h.bits });
    }
    let channels: u64 = if h.channels == 0 { 1 } else { h.channels as u64 };
    let total: u64 = h.data_len as u64 / (2 * channels);
    if total == 0 {
        let mut zeros: Vec<u32> = Vec::new();
        let mut i: usize = 0;
        while i < n
            invariant
                i <= n,
                zeros.len() == i,
                forall|k: int| 0 <= k < i ==> zeros@[k] == 0,
            decreases n - i,
        {
            zeros.push(0);
            i += 1;
        }
        assert(zeros@.map_values(|x: u32| x as nat) =~= Seq::new(n as nat, |i: int| 0nat));
        return Ok(Envelope { peaks: zeros, total_frames: total, sample_rate: h.sample_rate });
    }
    let ghost bs = b@;
    assert(h == wav_header_spec(bs)->Ok_0);
    let start = h.data_start;
    proof {
        lemma_data_start_in_bounds(bs);
    }
    let in_bytes: u64 = ((b.len() - start) as u64) / (2 * channels);
    let avail: u64 = if total < in_bytes { total } else { in_bytes };
    assert(avail == readable_frames(bs, h));
    let per_bucket: u64 = total / (n as u64) + if total % (n as u64) == 0 { 0 } else { 1 };
    assert(per_bucket >= 1) by (nonlinear_arith)
        requires
            total >= 1,
            n >= 1,
            per_bucket == total / (n as u64) + if total % (n as u64) == 0 { 0u64 } else { 1u64 },
    ;
    assert(per_bucket <= total) by (nonlinear_arith)
        requires
            total >= 1,
            n >= 1,
            per_bucket == total / (n as u64) + if total % (n as u64) == 0 { 0u64 } else { 1u64 },
    ;
    assert(start as int + avail * 2 * channels <= b.len()) by (nonlinear_arith)
        requires
            avail <= in_bytes,
            in_bytes as int == (b.len() - start) as int / (2 * channels) as int,
            channels >= 1,
            start <= b.len(),
    ;
    let ghost all = bucket_peaks(bs, start as int, channels as nat, per_bucket as nat, avail as nat, 0);
    let mut peaks: Vec<u32> = Vec::new();
    let mut from: u64 = 0;
    assert(peaks@.map_values(|x: u32| x as nat) + all =~= all);
    while from < avail
        invariant
            from <= avail <= total,
            1 <= per_bucket <= total <= u32::MAX,
            1 <= channels <= 65535,
            start as int + avail * 2 * channels <= b.len(),
            bs == b@,
            all == bucket_peaks(bs, start as int, channels as nat, per_bucket as nat, avail as nat, 0),
            peaks@.map_values(|x: u32| x as nat) + bucket_peaks(
                bs,
                start as int,
                channels as nat,
                per_bucket as nat,
                avail as nat,
                from as nat,
            ) == all,
        decreases avail - from,
    {
        let to: u64 = if from + per_bucket < avail { from + per_bucket } else { avail };
        assert(start as int + to * 2 * channels <= b.len()) by (nonlinear_arith)
            requires
                to <= avail,
                start as int + avail * 2 * channels <= b.len(),
                channels >= 1,
        ;
        let m = max_amplitude_of(b, start, channels, from, to);
        let ghost before = peaks@.map_values(|x: u32| x as nat);
        peaks.push(m);
        proof {
            let rest = bucket_peaks(bs, start as int, channels as nat, per_bucket as nat, avail as nat, to as nat);
            assert(peaks@.map_values(|x: u32| x as nat) =~= before.push(m as nat));
            assert(before.push(m as nat) + rest =~= before + (seq![m as nat] + rest));
        }
        from = to;
    }
    let mut out: Vec<u32> = Vec::new();
    let mut i: usize = 0;
    let ghost pv = peaks@.map_values(|x: u32| x as nat);
    assert(pv =~= all) by {
        assert(bucket_peaks(bs, start as int, channels as nat, per_bucket as nat, avail as nat, from as nat) =~= Seq::<nat>::empty());
    }
    while i < n
        invariant
            i <= n,
            out.len() == i,
            pv == peaks@.map_values(|x: u32| x as nat),
            forall|k: int| 0 <= k < i ==> out@[k] as nat == (if k < pv.len() { pv[k] } else { 0nat }),
        decreases n - i,
    {
        if i < peaks.len() {
            out.push(peaks[i]);
        } else {
            out.push(0);
        }
        i += 1;
    }
    assert(out@.map_values(|x: u32| x as nat) =~= Seq::new(n as nat, |k: int| if k < pv.len() { pv[k] } else { 0nat }));
    Ok(Envelope { peaks: out, total_frames: total, sample_rate: h.sample_rate })
}

proof fn lemma_scan_start_in_bounds(b: Seq<u8>, pos: int, channels: u16, rate: u32, bits: u16)
    requires
        scan_chunks(b, pos, channels, rate, bits) is Ok,
    ensures
        scan_chunks(b, pos, channels, rate, bits)->Ok_0.data_start <= b.len(),
    decreases b.len() - pos,
{
    if pos >= 0 && pos + 8 <= b.len() {
        let size = le32(b, pos + 4);
        if tag_at(b, pos, fmt_tag()) {
            if pos + 8 + size <= b.len() && size >= 16 {
                lemma_scan_start_in_bounds(
                    b,
                    pos + 8 + size,
                    le16(b, pos + 10) as u16,
                    le32(b, pos + 12) as u32,
                    le16(b, pos + 22) as u16,
                );
            }
        } else if !tag_at(b, pos, data_tag()) {
            let next = pos + 8 + size + size % 2;
            lemma_scan_start_in_bounds(b, if next > b.len() { b.len() as int } else { next }, channels, rate, bits);
        }
    }
}

proof fn lemma_data_start_in_bounds(b: Seq<u8>)
    requires
        wav_header_spec(b) is Ok,
    ensures
        wav_header_spec(b)->Ok_0.data_start <= b.len(),
{
    lemma_scan_start_in_bounds(b, 12, 0, 0, 0);
}

proof fn lemma_channel_sum_bound(b: Seq<u8>, pos: int, c: nat)
    requires
        0 <= pos,
        pos + 2 * c <= b.len(),
    ensures
        -32768 * c <= channel_sum(b, pos, c) <= 32767 * c,
    decreases c,
{
    if c > 0 {
        lemma_channel_sum_bound(b, pos, (c - 1) as nat);
    }
}

proof fn lemma_max_amplitude_bound(b: Seq<u8>, start: int, channels: nat, from: nat, to: nat)
    requires
        1 <= channels,
        0 <= start,
        start + to * 2 * channels <= b.len(),
    ensures
        max_amplitude(b, start, channels, from, to) <= 32768,
    decreases to - from,
{
    if from < to {
        assert(start + (to - 1) * 2 * channels <= start + to * 2 * channels) by (nonlinear_arith)
            requires
                to >= 1,
                channels >= 1,
        ;
        lemma_max_amplitude_bound(b, start, channels, from, (to - 1) as nat);
        let pos = start + (to - 1) * 2 * channels;
        assert(pos + 2 * channels <= start + to * 2 * channels) by (nonlinear_arith)
            requires
                pos == start + (to - 1) * 2 * channels,
                to >= 1,
        ;
        lemma_channel_sum_bound(b, pos, channels);
        let s = channel_sum(b, pos, channels);
        let m = if s >= 0 { s } else { -s };
        assert(m <= 32768 * channels);
        vstd::arithmetic::div_mod::lemma_div_is_ordered(m, 32768 * channels as int, channels as int);
        vstd::arithmetic::div_mod::lemma_div_by_multiple(32768, channels as int);
    }
}

proof fn lemma_bucket_peaks_bound(b: Seq<u8>, start: int, channels: nat, per_bucket: nat, avail: nat, from: nat)
    requires
        1 <= channels,
        0 <= start,
        start + avail * 2 * channels <= b.len(),
    ensures
        forall|i: int| 0 <= i < bucket_peaks(b, start, channels, per_bucket, avail, from).len()
            ==> #[trigger] bucket_peaks(b, start, channels, per_bucket, avail, from)[i] <= 32768,
    decreases avail - from,
{
    if from < avail && per_bucket > 0 {
        let to = if from + per_bucket < avail { from + per_bucket } else { avail };
        assert(start + to * 2 * channels <= start + avail * 2 * channels) by (nonlinear_arith)
            requires
                to <= avail,
        ;
        lemma_max_amplitude_bound(b, start, channels, from, to);
        lemma_bucket_peaks_bound(b, start, channels, per_bucket, avail, to);
        let rest = bucket_peaks(b, start, channels, per_bucket, avail, to);
        let all = bucket_peaks(b, start, channels, per_bucket, avail, from);
        assert forall|i: int| 0 <= i < all.len() implies #[trigger] all[i] <= 32768 by {
            if i > 0 {
                assert(all[i] == rest[i - 1]);
            }
        }
    }
}

/// The envelope has one peak per bucket (one bucket when none is asked for),
/// and every peak is an amplitude of at most 32768, so that divided by 32768
/// it lies in `0..=1`.
pub proof fn lemma_envelope_shape(b: Seq<u8>, buckets: usize)
    ensures
        envelope_spec(b, buckets) matches Ok((peaks, total, rate)) ==> {
            &&& peaks.len() == (if buckets == 0 { 1 } else { buckets as int })
            &&& forall|i: int| 0 <= i < peaks.len() ==> #[trigger] peaks[i] <= 32768
        },
{
    if let Ok(h) = wav_header_spec(b) {
        if h.bits == 16 {
            let channels: nat = if h.channels == 0 { 1nat } else { h.channels as nat };
            let total = (h.data_len as nat) / (2 * channels);
            let n: nat = if buckets == 0 { 1nat } else { buckets as nat };
            if total > 0 {
                let per_bucket = total / n + if total % n == 0 { 0nat } else { 1nat };
                let avail = readable_frames(b, h);
                lemma_data_start_in_bounds(b);
                let start = h.data_start as int;
                let in_bytes: nat = ((b.len() - start) as nat) / (2 * channels);
                assert(start + in_bytes * 2 * channels <= b.len()) by (nonlinear_arith)
                    requires
                        in_bytes == ((b.len() - start) as nat) / (2 * channels),
                        channels >= 1,
                        start <= b.len(),
                ;
                assert(start + avail * 2 * channels <= start + in_bytes * 2 * channels) by (nonlinear_arith)
                    requires
                        avail <= in_bytes,
                ;
                lemma_bucket_peaks_bound(b, start, channels, per_bucket, avail, 0);
            }
        }
    }
}

/// The amplitude of the frame `f` of the samples that start at `start`.
pub open spec fn amplitude_of_frame(b: Seq<u8>, start: int, channels: nat, f: int) -> nat {
    frame_amplitude(b, start + f * 2 * channels, channels)
}

/// Whether `peak` is the amplitude of one of the frames `from..to` that lie
/// before `avail`.
pub open spec fn peak_is_reached(
    b: Seq<u8>,
    start: int,
    channels: nat,
    from: int,
    to: int,
    avail: int,
    peak: nat,
) -> bool {
    exists|f: int| from <= f < to && f < avail && #[trigger] amplitude_of_frame(b, start, channels, f) == peak
}

/// The largest amplitude of the frames `from..to` is at least that of each of
/// them and is that of one of them.
proof fn lemma_max_amplitude_is_max(b: Seq<u8>, start: int, channels: nat, from: nat, to: nat)
    requires
        from < to,
    ensures
        forall|f: int|
            from <= f < to ==> #[trigger] amplitude_of_frame(b, start, channels, f) <= max_amplitude(
                b,
                start,
                channels,
                from,
                to,
            ),
        exists|f: int|
            from <= f < to && #[trigger] amplitude_of_frame(b, start, channels, f) == max_amplitude(
                b,
                start,
                channels,
                from,
                to,
            ),
    decreases to - from,
{
    let last = (to - 1) as nat;
    let m = max_amplitude(b, start, channels, from, to);
    assert(amplitude_of_frame(b, start, channels, last as int) == frame_amplitude(
        b,
        start + (to - 1) * 2 * channels,
        channels,
    ));
    if from == last {
        assert(max_amplitude(b, start, channels, from, last) == 0);
        assert(amplitude_of_frame(b, start, channels, last as int) == m);
    } else {
        lemma_max_amplitude_is_max(b, start, channels, from, last);
        let rest = max_amplitude(b, start, channels, from, last);
        if amplitude_of_frame(b, start, channels, last as int) > rest {
            assert(amplitude_of_frame(b, start, channels, last as int) == m);
        } else {
            let w = choose|f: int|
                from <= f < last && #[trigger] amplitude_of_frame(b, start, channels, f) == rest;
            assert(from <= w < to && amplitude_of_frame(b, start, channels, w) == m);
        }
    }
}

/// Bucket `j` of the buckets from `from` on covers the frames
/// `from + j*per .. min(from + (j+1)*per, avail)`, and there are just enough
/// buckets to cover every frame up to `avail`.
proof fn lemma_bucket_peaks_index(b: Seq<u8>, start: int, channels: nat, per: nat, avail: nat, from: nat)
    requires
        per > 0,
    ensures
        from + bucket_peaks(b, start, channels, per, avail, from).len() * per >= avail,
        bucket_peaks(b, start, channels, per, avail, from).len() > 0 ==> from + (bucket_peaks(
            b,
            start,
            channels,
            per,
            avail,
            from,
        ).len() - 1) * per < avail,
        forall|j: int|
            0 <= j < bucket_peaks(b, start, channels, per, avail, from).len() ==> #[trigger] bucket_peaks(
                b,
                start,
                channels,
                per,
                avail,
                from,
            )[j] == max_amplitude(
                b,
                start,
                channels,
                (from + j * per) as nat,
                (if from + (j + 1) * per < avail { from + (j + 1) * per } else { avail as int }) as nat,
            ),
    decreases avail - from,
{
    let bp = bucket_peaks(b, start, channels, per, avail, from);
    if from < avail {
        let to: nat = if from + per < avail { from + per } else { avail };
        let rest = bucket_peaks(b, start, channels, per, avail, to);
        lemma_bucket_peaks_index(b, start, channels, per, avail, to);
        assert(bp.len() == rest.len() + 1);
        assert(bp.len() * per == rest.len() * per + per) by (nonlinear_arith)
            requires
                bp.len() == rest.len() + 1,
        ;
        if rest.len() > 0 {
            assert(to == from + per);
            assert((bp.len() - 1) * per == rest.len() * per) by (nonlinear_arith)
                requires
                    bp.len() == rest.len() + 1,
            ;
            assert((rest.len() - 1) * per + per == rest.len() * per) by (nonlinear_arith)
                requires
                    rest.len() >= 1,
            ;
        } else {
            assert((bp.len() - 1) * per == 0) by (nonlinear_arith)
                requires
                    bp.len() == 1,
            ;
        }
        assert forall|j: int| 0 <= j < bp.len() implies #[trigger] bp[j] == max_amplitude(
            b,
            start,
            channels,
            (from + j * per) as nat,
            (if from + (j + 1) * per < avail { from + (j + 1) * per } else { avail as int }) as nat,
        ) by {
            if j == 0 {
                assert((j + 1) * per == per) by (nonlinear_arith)
                    requires
                        j == 0,
                ;
                assert(j * per == 0) by (nonlinear_arith)
                    requires
                        j == 0,
                ;
            } else {
                assert(bp[j] == rest[j - 1]);
                assert(rest.len() > 0);
                assert(to == from + per);
                assert(to + (j - 1) * per == from + j * per) by (nonlinear_arith)
                    requires
                        to == from + per,
                ;
                assert(to + (j - 1 + 1) * per == from + (j + 1) * per) by (nonlinear_arith)
                    requires
                        to == from + per,
                ;
            }
        }
    } else {
        assert(bp.len() == 0);
    }
}

/// Every frame read lies in a bucket and sets its peak. With
/// `per = ceil(total / buckets)` frames per bucket, bucket `k` covers the
/// frames `k*per .. (k+1)*per` that were read: its peak is at least the
/// amplitude of each of them and is the amplitude of one of them, so the
/// last, partial bucket counts as much as the others. Only the buckets past
/// the last frame read are 0.
pub proof fn lemma_envelope_buckets(b: Seq<u8>, buckets: usize)
    ensures
        envelope_spec(b, buckets) matches Ok((peaks, total, rate)) ==> {
            let h = wav_header_spec(b)->Ok_0;
            let ch: nat = if h.channels == 0 { 1nat } else { h.channels as nat };
            let n: nat = if buckets == 0 { 1nat } else { buckets as nat };
            let per: nat = total / n + if total % n == 0 { 0nat } else { 1nat };
            let avail = readable_frames(b, h);
            let start = h.data_start as int;
            &&& forall|k: int| 0 <= k < peaks.len() && k * per >= avail ==> #[trigger] peaks[k] == 0
            &&& forall|k: int, f: int|
                0 <= k < peaks.len() && k * per <= f < (k + 1) * per && f < avail
                    ==> #[trigger] amplitude_of_frame(b, start, ch, f) <= #[trigger] peaks[k]
            &&& forall|k: int|
                0 <= k < peaks.len() && k * per < avail ==> peak_is_reached(
                    b,
                    start,
                    ch,
                    k * per,
                    (k + 1) * per,
                    avail as int,
                    #[trigger] peaks[k],
                )
        },
{
    if let Ok((peaks, total, rate)) = envelope_spec(b, buckets) {
        let h = wav_header_spec(b)->Ok_0;
        let ch: nat = if h.channels == 0 { 1nat } else { h.channels as nat };
        let n: nat = if buckets == 0 { 1nat } else { buckets as nat };
        let per: nat = total / n + if total % n == 0 { 0nat } else { 1nat };
        let avail = readable_frames(b, h);
        let start = h.data_start as int;
        assert(avail <= total);
        if total == 0 {
            assert(per == 0) by (nonlinear_arith)
                requires
                    total == 0,
                    n >= 1,
                    per == total / n + if total % n == 0 { 0nat } else { 1nat },
            ;
            assert(avail == 0);
            assert forall|k: int| 0 <= k < peaks.len() && k * per >= avail implies #[trigger] peaks[k]
                == 0 by {}
            assert forall|k: int| 0 <= k < peaks.len() implies #[trigger] peaks[k] == 0 && k * per == 0 by {
                assert(k * per == 0) by (nonlinear_arith)
                    requires
                        per == 0,
                ;
            }
            assert(forall|k: int, f: int|
                0 <= k < peaks.len() && k * per <= f < (k + 1) * per && f < avail
                    ==> #[trigger] amplitude_of_frame(b, start, ch, f) <= #[trigger] peaks[k]);
        } else {
            assert(per >= 1) by (nonlinear_arith)
                requires
                    total >= 1,
                    n >= 1,
                    per == total / n + if total % n == 0 { 0nat } else { 1nat },
            ;
            let bp = bucket_peaks(b, start, ch, per, avail, 0);
            lemma_bucket_peaks_index(b, start, ch, per, avail, 0);
            let len = bp.len();
            assert(peaks == Seq::new(n, |i: int| if i < bp.len() { bp[i] } else { 0nat }));
            assert forall|k: int| 0 <= k < peaks.len() && k * per >= avail implies #[trigger] peaks[k]
                == 0 by {
                if k < len {
                    assert(k * per <= (len - 1) * per) by (nonlinear_arith)
                        requires
                            0 <= k <= len - 1,
                    ;
                }
            }
            assert forall|k: int| 0 <= k < peaks.len() && k * per < avail implies k < len && peaks[k]
                == bp[k] by {
                if k >= len {
                    assert(k * per >= len * per) by (nonlinear_arith)
                        requires
                            k >= len,
                    ;
                }
            }
            assert forall|k: int, f: int|
                0 <= k < peaks.len() && k * per <= f < (k + 1) * per && f < avail implies #[trigger] amplitude_of_frame(
                b,
                start,
                ch,
                f,
            ) <= #[trigger] peaks[k] by {
                assert(k * per < avail);
                let to = (if 0 + (k + 1) * per < avail { 0 + (k + 1) * per } else { avail as int }) as nat;
                assert(bp[k] == max_amplitude(b, start, ch, (0 + k * per) as nat, to));
                lemma_max_amplitude_is_max(b, start, ch, (k * per) as nat, to);
            }
            assert forall|k: int| 0 <= k < peaks.len() && k * per < avail implies peak_is_reached(
                b,
                start,
                ch,
                k * per,
                (k + 1) * per,
                avail as int,
                #[trigger] peaks[k],
            ) by {
                let to = (if 0 + (k + 1) * per < avail { 0 + (k + 1) * per } else { avail as int }) as nat;
                assert(bp[k] == max_amplitude(b, start, ch, (0 + k * per) as nat, to));
                assert(k * per < (k + 1) * per) by (nonlinear_arith)
                    requires
                        per >= 1,
                ;
                lemma_max_amplitude_is_max(b, start, ch, (k * per) as nat, to);
            }
        }
    }
}

} // verus!
