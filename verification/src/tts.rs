//! The speech engines that dubbing can use and the settings chosen for it.

use vstd::prelude::*;
use crate::text::{append_str, concat};
use crate::voices::{model_path, onnx_file_spec, voice_index};

verus! {

/// The synthesis engine chosen in the interface.
#[derive(Clone, Copy, Debug, PartialEq, Eq, Structural)]
pub enum Engine {
    /// Piper, local, on ONNX: the text does not leave the machine.
    Piper,
    /// Microsoft's edge-tts, online: the translated text is sent over the network.
    Edge,
}

/// The dubbing settings of an output language.
#[derive(Debug)]
pub struct DubSettings {
    pub engine: Engine,
    /// The voice: a Piper id or an edge-tts short name.
    pub voice: String,
}

impl Engine {
    /// The engine named `name` in the interface (`piper`, `edge-tts`).
    pub fn from_name(name: &str) -> (r: Option<Engine>)
        ensures
            name@ == "piper"@ ==> r == Some(Engine::Piper),
            name@ == "edge-tts"@ ==> r == Some(Engine::Edge),
            name@ != "piper"@ && name@ != "edge-tts"@ ==> r is None,
    {
        proof {
            reveal_strlit("piper");
            reveal_strlit("edge-tts");
            assert("piper"@.len() == 5);
            assert("edge-tts"@.len() == 8);
        }
        if crate::text::str_equal(name, "piper") {
            Some(Engine::Piper)
        } else if crate::text::str_equal(name, "edge-tts") {
            Some(Engine::Edge)
        } else {
            None
        }
    }

    /// The name of the engine in the interface.
    pub fn name(&self) -> (r: &'static str)
        ensures
            *self == Engine::Piper ==> r@ == "piper"@,
            *self == Engine::Edge ==> r@ == "edge-tts"@,
    {
        match self {
            Engine::Piper => "piper",
            Engine::Edge => "edge-tts",
        }
    }
}

/// The model and configuration files of the Piper voice `voice` in the
/// models folder, when the model is present (`onnx_present`); an error when
/// no voice has that id or when it is not downloaded.
pub fn piper_voice_files(models_dir: &str, voice: &str, onnx_present: bool) -> (r: Result<
    (String, String),
    String,
>)
    ensures
        match voice_index(voice@) {
            None => r matches Err(e) && e@ == "Voz desconocida: "@ + voice@,
            Some(_) => if onnx_present {
                r matches Ok((m, c)) && m@ == onnx_file_spec(models_dir@, voice@) && c@
                    == onnx_file_spec(models_dir@, voice@) + ".json"@
            } else {
                r matches Err(e) && e@ == "La voz Piper «"@ + voice@
                    + "» no está descargada. Descárgala desde «Modelos y voces» primero."@
            },
        },
{
    let onnx = model_path(models_dir, voice)?;
    if !onnx_present {
        let mut e = String::new();
        append_str(&mut e, "La voz Piper «");
        append_str(&mut e, voice);
        append_str(&mut e, "» no está descargada. Descárgala desde «Modelos y voces» primero.");
        assert(e@ =~= "La voz Piper «"@ + voice@
            + "» no está descargada. Descárgala desde «Modelos y voces» primero."@);
        return Err(e);
    }
    let config = concat(onnx.as_str(), ".json");
    Ok((onnx, config))
}

} // verus!
