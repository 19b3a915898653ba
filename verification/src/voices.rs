//! The Piper voices offered for dubbing: a voice is two files in the models
//! folder, the model `<id>.onnx` and its configuration `<id>.onnx.json`.

use vstd::prelude::*;
use crate::paths::{join, join_spec};
use crate::text::{concat, str_equal};

verus! {

/// A Piper voice, tied to an output language.
#[derive(Debug)]
pub struct Voice {
    /// The Piper id, such as `es_ES-sharvard-medium`: it names the files.
    pub id: &'static str,
    pub label: &'static str,
    /// The short code of the output language.
    pub language: &'static str,
    /// The folder of the voice in the voices repository.
    pub repo_path: &'static str,
    /// The approximate download size in MB.
    pub approx_size_mb: u32,
}

/// The state of a voice for the interface.
#[derive(Debug)]
pub struct VoiceInfo {
    pub id: String,
    pub label: String,
    pub language: String,
    pub approx_size_mb: u32,
    pub downloaded: bool,
    /// The absolute path of the `.onnx` model, when the voice is downloaded.
    pub path: Option<String>,
}

/// The voices, in order: id, label, language, repository folder, size.
pub open spec fn voice_table() -> Seq<(Seq<char>, Seq<char>, Seq<char>, Seq<char>, u32)> {
    seq![
        ("es_ES-sharvard-medium"@, "Español (ES) — Sharvard"@, "es"@, "es/es_ES/sharvard/medium"@, 63u32),
        ("en_US-lessac-medium"@, "Inglés (US) — Lessac"@, "en"@, "en/en_US/lessac/medium"@, 63u32),
        ("pt_BR-faber-medium"@, "Portugués (BR) — Faber"@, "pt"@, "pt/pt_BR/faber/medium"@, 63u32),
        ("fr_FR-siwis-medium"@, "Francés (FR) — Siwis"@, "fr"@, "fr/fr_FR/siwis/medium"@, 63u32),
        ("de_DE-thorsten-medium"@, "Alemán (DE) — Thorsten"@, "de"@, "de/de_DE/thorsten/medium"@, 63u32),
        ("it_IT-riccardo-x_low"@, "Italiano (IT) — Riccardo"@, "it"@, "it/it_IT/riccardo/x_low"@, 28u32),
        ("zh_CN-huayan-medium"@, "Chino (CN) — Huayan"@, "zh"@, "zh/zh_CN/huayan/medium"@, 63u32),
        ("es_MX-ald-medium"@, "Español (MX) — Ald"@, "es"@, "es/es_MX/ald/medium"@, 63u32),
    ]
}

/// The position of the voice `id` in the table.
pub open spec fn voice_index(id: Seq<char>) -> Option<int> {
    if id == "es_ES-sharvard-medium"@ {
        Some(0)
    } else if id == "en_US-lessac-medium"@ {
        Some(1)
    } else if id == "pt_BR-faber-medium"@ {
        Some(2)
    } else if id == "fr_FR-siwis-medium"@ {
        Some(3)
    } else if id == "de_DE-thorsten-medium"@ {
        Some(4)
    } else if id == "it_IT-riccardo-x_low"@ {
        Some(5)
    } else if id == "zh_CN-huayan-medium"@ {
        Some(6)
    } else if id == "es_MX-ald-medium"@ {
        Some(7)
    } else {
        None
    }
}

/// The output languages the interface offers.
pub open spec fn is_offered_language(l: Seq<char>) -> bool {
    l == "es"@ || l == "en"@ || l == "pt"@ || l == "fr"@ || l == "de"@ || l == "it"@ || l == "ja"@
        || l == "zh"@
}

/// The supported voices, one per output language that Piper covers (two for
/// Spanish).
pub fn voices() -> (r: Vec<Voice>)
    ensures
        r.len() == voice_table().len(),
        forall|i: int|
            0 <= i < r.len() ==> {
                &&& (#[trigger] r@[i]).id@ == voice_table()[i].0
                &&& r@[i].label@ == voice_table()[i].1
                &&& r@[i].language@ == voice_table()[i].2
                &&& r@[i].repo_path@ == voice_table()[i].3
                &&& r@[i].approx_size_mb == voice_table()[i].4
            },
{
    let mut r: Vec<Voice> = Vec::new();
    r.push(Voice { id: "es_ES-sharvard-medium", label: "Español (ES) — Sharvard", language: "es", repo_path: "es/es_ES/sharvard/medium", approx_size_mb: 63 });
    r.push(Voice { id: "en_US-lessac-medium", label: "Inglés (US) — Lessac", language: "en", repo_path: "en/en_US/lessac/medium", approx_size_mb: 63 });
    r.push(Voice { id: "pt_BR-faber-medium", label: "Portugués (BR) — Faber", language: "pt", repo_path: "pt/pt_BR/faber/medium", approx_size_mb: 63 });
    r.push(Voice { id: "fr_FR-siwis-medium", label: "Francés (FR) — Siwis", language: "fr", repo_path: "fr/fr_FR/siwis/medium", approx_size_mb: 63 });
    r.push(Voice { id: "de_DE-thorsten-medium", label: "Alemán (DE) — Thorsten", language: "de", repo_path: "de/de_DE/thorsten/medium", approx_size_mb: 63 });
    r.push(Voice { id: "it_IT-riccardo-x_low", label: "Italiano (IT) — Riccardo", language: "it", repo_path: "it/it_IT/riccardo/x_low", approx_size_mb: 28 });
    r.push(Voice { id: "zh_CN-huayan-medium", label: "Chino (CN) — Huayan", language: "zh", repo_path: "zh/zh_CN/huayan/medium", approx_size_mb: 63 });
    r.push(Voice { id: "es_MX-ald-medium", label: "Español (MX) — Ald", language: "es", repo_path: "es/es_MX/ald/medium", approx_size_mb: 63 });
    r
}

/// Every voice speaks a language the interface offers.
pub proof fn lemma_voice_languages_offered()
    ensures
        forall|i: int| 0 <= i < voice_table().len() ==> is_offered_language(#[trigger] voice_table()[i].2),
{
    assert forall|i: int| 0 <= i < voice_table().len() implies is_offered_language(#[trigger] voice_table()[i].2) by {
        if i == 0 || i == 7 {
            assert(voice_table()[i].2 == "es"@);
        }
    }
}

/// The voice `id`; an error when no voice has it.
pub fn voice(id: &str) -> (r: Result<Voice, String>)
    ensures
        match voice_index(id@) {
            None => r matches Err(e) && e@ == "Voz desconocida: "@ + id@,
            Some(i) => r matches Ok(v) && {
                &&& v.id@ == voice_table()[i].0
                &&& v.label@ == voice_table()[i].1
                &&& v.language@ == voice_table()[i].2
                &&& v.repo_path@ == voice_table()[i].3
                &&& v.approx_size_mb == voice_table()[i].4
            },
        },
{
    if str_equal(id, "es_ES-sharvard-medium") {
        Ok(Voice { id: "es_ES-sharvard-medium", label: "Español (ES) — Sharvard", language: "es", repo_path: "es/es_ES/sharvard/medium", approx_size_mb: 63 })
    } else if str_equal(id, "en_US-lessac-medium") {
        Ok(Voice { id: "en_US-lessac-medium", label: "Inglés (US) — Lessac", language: "en", repo_path: "en/en_US/lessac/medium", approx_size_mb: 63 })
    } else if str_equal(id, "pt_BR-faber-medium") {
        Ok(Voice { id: "pt_BR-faber-medium", label: "Portugués (BR) — Faber", language: "pt", repo_path: "pt/pt_BR/faber/medium", approx_size_mb: 63 })
    } else if str_equal(id, "fr_FR-siwis-medium") {
        Ok(Voice { id: "fr_FR-siwis-medium", label: "Francés (FR) — Siwis", language: "fr", repo_path: "fr/fr_FR/siwis/medium", approx_size_mb: 63 })
    } else if str_equal(id, "de_DE-thorsten-medium") {
        Ok(Voice { id: "de_DE-thorsten-medium", label: "Alemán (DE) — Thorsten", language: "de", repo_path: "de/de_DE/thorsten/medium", approx_size_mb: 63 })
    } else if str_equal(id, "it_IT-riccardo-x_low") {
        Ok(Voice { id: "it_IT-riccardo-x_low", label: "Italiano (IT) — Riccardo", language: "it", repo_path: "it/it_IT/riccardo/x_low", approx_size_mb: 28 })
    } else if str_equal(id, "zh_CN-huayan-medium") {
        Ok(Voice { id: "zh_CN-huayan-medium", label: "Chino (CN) — Huayan", language: "zh", repo_path: "zh/zh_CN/huayan/medium", approx_size_mb: 63 })
    } else if str_equal(id, "es_MX-ald-medium") {
        Ok(Voice { id: "es_MX-ald-medium", label: "Español (MX) — Ald", language: "es", repo_path: "es/es_MX/ald/medium", approx_size_mb: 63 })
    } else {
        Err(concat("Voz desconocida: ", id))
    }
}

/// The model of the voice `id` in the models folder: `<id>.onnx`.
pub open spec fn onnx_file_spec(dir: Seq<char>, id: Seq<char>) -> Seq<char> {
    join_spec(dir, id + ".onnx"@)
}

/// The configuration of the voice `id`: `<id>.onnx.json`.
pub open spec fn config_file_spec(dir: Seq<char>, id: Seq<char>) -> Seq<char> {
    join_spec(dir, id + ".onnx.json"@)
}

/// The model file of a voice.
pub fn onnx_file(dir: &str, id: &str) -> (r: String)
    ensures
        r@ == onnx_file_spec(dir@, id@),
{
    let name = concat(id, ".onnx");
    join(dir, name.as_str())
}

/// The configuration file of a voice.
pub fn config_path(dir: &str, id: &str) -> (r: String)
    ensures
        r@ == config_file_spec(dir@, id@),
{
    let name = concat(id, ".onnx.json");
    join(dir, name.as_str())
}

/// The model file of the voice `id`; an error when no voice has that id.
pub fn model_path(dir: &str, id: &str) -> (r: Result<String, String>)
    ensures
        match voice_index(id@) {
            None => r matches Err(e) && e@ == "Voz desconocida: "@ + id@,
            Some(i) => r matches Ok(p) && p@ == onnx_file_spec(dir@, id@),
        },
{
    let v = voice(id)?;
    Ok(onnx_file(dir, v.id))
}

/// The state of `voice`: downloaded only when both its files are present.
pub fn info(dir: &str, voice: &Voice, onnx_present: bool, config_present: bool) -> (r: VoiceInfo)
    ensures
        r.id@ == voice.id@,
        r.label@ == voice.label@,
        r.language@ == voice.language@,
        r.approx_size_mb == voice.approx_size_mb,
        r.downloaded == (onnx_present && config_present),
        r.downloaded ==> (r.path matches Some(p) && p@ == onnx_file_spec(dir@, voice.id@)),
        !r.downloaded ==> r.path is None,
{
    let downloaded = onnx_present && config_present;
    let onnx = onnx_file(dir, voice.id);
    VoiceInfo {
        id: voice.id.to_owned(),
        label: voice.label.to_owned(),
        language: voice.language.to_owned(),
        approx_size_mb: voice.approx_size_mb,
        downloaded,
        path: if downloaded {
            Some(onnx)
        } else {
            None
        },
    }
}

/// Every voice with its state; `onnx_present[i]` and `config_present[i]` tell
/// whether the files of the `i`-th voice are there.
pub fn list(dir: &str, onnx_present: &Vec<bool>, config_present: &Vec<bool>) -> (r: Vec<VoiceInfo>)
    requires
        onnx_present.len() == voice_table().len(),
        config_present.len() == voice_table().len(),
    ensures
        r.len() == voice_table().len(),
        forall|i: int|
            0 <= i < r.len() ==> {
                &&& (#[trigger] r@[i]).id@ == voice_table()[i].0
                &&& r@[i].label@ == voice_table()[i].1
                &&& r@[i].language@ == voice_table()[i].2
                &&& r@[i].approx_size_mb == voice_table()[i].4
                &&& r@[i].downloaded == (onnx_present@[i] && config_present@[i])
                &&& r@[i].downloaded ==> (r@[i].path matches Some(p) && p@ == onnx_file_spec(
                    dir@,
                    voice_table()[i].0,
                ))
                &&& !r@[i].downloaded ==> r@[i].path is None
            },
{
    let all = voices();
    let mut out: Vec<VoiceInfo> = Vec::new();
    let mut i: usize = 0;
    while i < all.len()
        invariant
            i <= all.len(),
            all.len() == voice_table().len(),
            onnx_present.len() == voice_table().len(),
            config_present.len() == voice_table().len(),
            forall|k: int|
                0 <= k < all.len() ==> {
                    &&& (#[trigger] all@[k]).id@ == voice_table()[k].0
                    &&& all@[k].label@ == voice_table()[k].1
                    &&& all@[k].language@ == voice_table()[k].2
                    &&& all@[k].approx_size_mb == voice_table()[k].4
                },
            out.len() == i,
            forall|k: int|
                0 <= k < i ==> {
                    &&& (#[trigger] out@[k]).id@ == voice_table()[k].0
                    &&& out@[k].label@ == voice_table()[k].1
                    &&& out@[k].language@ == voice_table()[k].2
                    &&& out@[k].approx_size_mb == voice_table()[k].4
                    &&& out@[k].downloaded == (onnx_present@[k] && config_present@[k])
                    &&& out@[k].downloaded ==> (out@[k].path matches Some(p) && p@
                        == onnx_file_spec(dir@, voice_table()[k].0))
                    &&& !out@[k].downloaded ==> out@[k].path is None
                },
        decreases all.len() - i,
    {
        out.push(info(dir, &all[i], onnx_present[i], config_present[i]));
        i += 1;
    }
    out
}

/// The two files of a voice download, in the order they are fetched: the
/// configuration first, so that a failure leaves no model without it.
#[derive(Debug)]
pub struct VoiceDownload {
    pub config_url: String,
    pub config_file: String,
    pub model_url: String,
    pub model_file: String,
}

/// Where the files of a voice are fetched from: the voices repository, the
/// voice's folder, and its id.
pub open spec fn voice_base_url(repo_path: Seq<char>, id: Seq<char>) -> Seq<char> {
    "https://huggingface.co/rhasspy/piper-voices/resolve/main/"@ + repo_path + "/"@ + id
}

/// Where the files of the voice `id` are fetched from and written to; an
/// error when no voice has that id.
pub fn download(dir: &str, id: &str) -> (r: Result<VoiceDownload, String>)
    ensures
        match voice_index(id@) {
            None => r matches Err(e) && e@ == "Voz desconocida: "@ + id@,
            Some(i) => r matches Ok(d) && {
                &&& d.config_url@ == voice_base_url(voice_table()[i].3, id@) + ".onnx.json"@
                &&& d.config_file@ == config_file_spec(dir@, id@)
                &&& d.model_url@ == voice_base_url(voice_table()[i].3, id@) + ".onnx"@
                &&& d.model_file@ == onnx_file_spec(dir@, id@)
            },
        },
{
    let v = voice(id)?;
    let base = concat("https://huggingface.co/rhasspy/piper-voices/resolve/main/", v.repo_path);
    let base = concat(base.as_str(), "/");
    let base = concat(base.as_str(), v.id);
    let config_url = concat(base.as_str(), ".onnx.json");
    let model_url = concat(base.as_str(), ".onnx");
    Ok(
        VoiceDownload {
            config_url,
            config_file: config_path(dir, id),
            model_url,
            model_file: onnx_file(dir, id),
        },
    )
}

/// The files to remove when the voice `id` is deleted; an error when no voice
/// has that id.
pub fn delete_targets(dir: &str, id: &str) -> (r: Result<(String, String), String>)
    ensures
        match voice_index(id@) {
            None => r matches Err(e) && e@ == "Voz desconocida: "@ + id@,
            Some(i) => r matches Ok((a, b)) && a@ == onnx_file_spec(dir@, id@) && b@
                == config_file_spec(dir@, id@),
        },
{
    let onnx = model_path(dir, id)?;
    Ok((onnx, config_path(dir, id)))
}

} // verus!
