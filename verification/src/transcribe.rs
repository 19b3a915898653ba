//! The checks around transcription: the audio format the recognizer takes and
//! the text kept of each recognized stretch.

use vstd::prelude::*;
use crate::text::{append_str, chars_of, decimal, decimal_string, string_from_chars, trim, trim_chars};

verus! {

/// The message for a whisper model file that is not there.
pub fn missing_model_message(model: &str) -> (r: String)
    ensures
        r@ == "El modelo whisper no existe: "@ + model@
            + ". Descarga un modelo GGML desde https://huggingface.co/ggerganov/whisper.cpp"@,
{
    let mut r = String::new();
    append_str(&mut r, "El modelo whisper no existe: ");
    append_str(&mut r, model);
    append_str(&mut r, ". Descarga un modelo GGML desde https://huggingface.co/ggerganov/whisper.cpp");
    r
}

/// The message for audio that is not 16 kHz mono 16-bit.
pub open spec fn wrong_format_spec(rate: u32, channels: u16, bits: u16) -> Seq<char> {
    "El audio no está en WAV 16 kHz mono 16 bits ("@ + decimal(rate as nat) + " Hz, "@ + decimal(
        channels as nat,
    ) + " canales, "@ + decimal(bits as nat) + " bits). Vuelve a extraer el audio del video."@
}

/// Accepts only the format the recognizer takes: one channel at 16 kHz,
/// 16-bit samples.
pub fn check_audio_format(channels: u16, sample_rate: u32, bits: u16) -> (r: Result<(), String>)
    ensures
        channels == 1 && sample_rate == 16000 && bits == 16 ==> r is Ok,
        !(channels == 1 && sample_rate == 16000 && bits == 16) ==> (r matches Err(e) && e@
            == wrong_format_spec(sample_rate, channels, bits)),
{
    if channels != 1 || sample_rate != 16000 || bits != 16 {
        let mut e = String::new();
        append_str(&mut e, "El audio no está en WAV 16 kHz mono 16 bits (");
        append_str(&mut e, decimal_string(sample_rate as u64).as_str());
        append_str(&mut e, " Hz, ");
        append_str(&mut e, decimal_string(channels as u64).as_str());
        append_str(&mut e, " canales, ");
        append_str(&mut e, decimal_string(bits as u64).as_str());
        append_str(&mut e, " bits). Vuelve a extraer el audio del video.");
        assert(e@ =~= wrong_format_spec(sample_rate, channels, bits));
        return Err(e);
    }
    Ok(())
}

/// The text kept of a recognized stretch: its text trimmed, left out when
/// blank; a text that could not be read is kept as a marker with the reason.
pub fn recognized_text(text: Result<String, String>) -> (r: Option<String>)
    ensures
        match text {
            Ok(t) => if trim(t@).len() == 0 {
                r is None
            } else {
                r matches Some(s) && s@ == trim(t@)
            },
            Err(e) => r matches Some(s) && s@ == "[texto ilegible: "@ + e@ + "]"@,
        },
{
    match text {
        Ok(t) => {
            let cs = chars_of(t.as_str());
            let trimmed = trim_chars(cs.as_slice());
            if trimmed.len() == 0 {
                None
            } else {
                Some(string_from_chars(trimmed.as_slice()))
            }
        },
        Err(e) => {
            let mut s = String::new();
            append_str(&mut s, "[texto ilegible: ");
            append_str(&mut s, e.as_str());
            append_str(&mut s, "]");
            Some(s)
        },
    }
}

} // verus!
