use loquazx::wav::{duration_frames, envelope, parse_wav_header, WavProblem};

/// The bytes of a PCM 16-bit mono WAV at `rate` Hz with `samples`.
fn wav_bytes(rate: u32, samples: &[i16]) -> Vec<u8> {
    let data_len = (samples.len() * 2) as u32;
    let mut f = Vec::new();
    f.extend_from_slice(b"RIFF");
    f.extend_from_slice(&(36 + data_len).to_le_bytes());
    f.extend_from_slice(b"WAVE");
    f.extend_from_slice(b"fmt ");
    f.extend_from_slice(&16u32.to_le_bytes());
    f.extend_from_slice(&1u16.to_le_bytes());
    f.extend_from_slice(&1u16.to_le_bytes());
    f.extend_from_slice(&rate.to_le_bytes());
    f.extend_from_slice(&(rate * 2).to_le_bytes());
    f.extend_from_slice(&2u16.to_le_bytes());
    f.extend_from_slice(&16u16.to_le_bytes());
    f.extend_from_slice(b"data");
    f.extend_from_slice(&data_len.to_le_bytes());
    for s in samples {
        f.extend_from_slice(&s.to_le_bytes());
    }
    f
}

#[test]
fn calcula_picos_y_duracion() {
    // 4 samples at 2 Hz => 2 s. Two buckets: max |16384|/32768=0.5 and |-32768|/32768=1.
    let bytes = wav_bytes(2, &[0, 16384, -32768, 100]);
    let w = envelope(&bytes, 2).unwrap();
    let duration = w.total_frames as f32 / w.sample_rate as f32;
    let peaks: Vec<f32> = w.peaks.iter().map(|&p| p as f32 / 32768.0).collect();
    assert_eq!(peaks.len(), 2);
    assert!((duration - 2.0).abs() < 1e-6, "duración: {}", duration);
    assert!((peaks[0] - 0.5).abs() < 0.01, "pico 0: {}", peaks[0]);
    assert!((peaks[1] - 1.0).abs() < 0.01, "pico 1: {}", peaks[1]);
}

#[test]
fn rellena_buckets_aunque_sobren() {
    let bytes = wav_bytes(16000, &[1000, -2000]);
    let w = envelope(&bytes, 8).unwrap();
    assert_eq!(w.peaks.len(), 8);
    assert_eq!(w.peaks, vec![1000, 2000, 0, 0, 0, 0, 0, 0]);
}

#[test]
fn rechaza_no_wav() {
    let e = envelope(b"no soy un wav", 4).unwrap_err();
    assert_eq!(e, WavProblem::NotWav);
    assert_eq!(e.message().unwrap(), "El audio no es un WAV válido.");
}

#[test]
fn duracion_desde_la_cabecera() {
    // 8000 samples at 16 kHz => 0.5 s.
    let bytes = wav_bytes(16000, &vec![0i16; 8000]);
    let h = parse_wav_header(&bytes).unwrap();
    let (frames, rate) = duration_frames(&h).unwrap();
    let d = frames as f64 / rate as f64;
    assert!((d - 0.5).abs() < 1e-6, "duración: {d}");
}

#[test]
fn header_skips_other_chunks_with_padding() {
    let mut bytes = wav_bytes(8000, &[1, 2, 3]);
    // put an odd-sized LIST chunk before `fmt `
    let mut list = Vec::new();
    list.extend_from_slice(b"LIST");
    list.extend_from_slice(&3u32.to_le_bytes());
    list.extend_from_slice(&[9, 9, 9, 0]);
    bytes.splice(12..12, list);
    let h = parse_wav_header(&bytes).unwrap();
    assert_eq!(h.channels, 1);
    assert_eq!(h.sample_rate, 8000);
    assert_eq!(h.bits, 16);
    assert_eq!(h.data_len, 6);
    assert_eq!(h.data_start, 56);
}

#[test]
fn header_problems_are_told_apart() {
    let bytes = wav_bytes(8000, &[1]);
    assert_eq!(parse_wav_header(&bytes[..40]).unwrap_err(), WavProblem::NoData);
    assert_eq!(parse_wav_header(&bytes[..30]).unwrap_err(), WavProblem::FmtIncomplete);
    let mut eight_bit = bytes.clone();
    eight_bit[34] = 8;
    let e = envelope(&eight_bit, 2).unwrap_err();
    assert_eq!(e, WavProblem::Not16Bit { bits: 8 });
    assert_eq!(e.message().unwrap(), "Solo se admite audio PCM de 16 bits (este tiene 8).");
    assert_eq!(WavProblem::NoData.message().unwrap(), "WAV sin chunk de datos.");
}

#[test]
fn silent_file_gives_zero_peaks() {
    let bytes = wav_bytes(16000, &[]);
    let w = envelope(&bytes, 0).unwrap();
    assert_eq!(w.peaks, vec![0]);
    assert_eq!(w.total_frames, 0);
}

#[test]
fn many_channels_are_averaged_into_one_trace() {
    // Ten channels at 4 Hz, two frames. Frame 0: nine channels at 1000 and
    // one at -10000: sum -1000, mean -100. Frame 1: all at 20000, mean 20000.
    let mut bytes = wav_bytes(4, &[]);
    bytes[22] = 10;
    let mut samples: Vec<i16> = vec![1000; 9];
    samples.push(-10000);
    samples.extend(vec![20000i16; 10]);
    for s in &samples {
        bytes.extend_from_slice(&s.to_le_bytes());
    }
    let data_len = (samples.len() * 2) as u32;
    bytes[40..44].copy_from_slice(&data_len.to_le_bytes());
    let w = envelope(&bytes, 2).unwrap();
    assert_eq!(w.total_frames, 2);
    assert_eq!(w.peaks, vec![100, 20000]);
    let h = parse_wav_header(&bytes).unwrap();
    assert_eq!(h.channels, 10);
}
