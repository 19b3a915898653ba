//! The local translation engine: an NLLB-200 model in the models folder, the
//! language codes it understands, and the decisions of its greedy decoding.
//! Running the neural network itself is left to the caller; this module
//! prepares its input, steers the decoding and reads its output.

use vstd::prelude::*;
use crate::paths::{join, join_spec};
use crate::text::{
    append_str, chars_of, concat, is_blank, str_equal, string_from_chars, trim, trim_chars,
};
use crate::translation::{ResponseSegment, TranslationRequest};

verus! {

/// The declaration of the tokenizer type, whose content Verus does not see.
#[verifier::external_type_specification]
#[verifier::external_body]
pub struct ExTokenizer(tokenizers::Tokenizer);

/// The model's folder inside the models folder.
pub const MODEL_DIR: &'static str = "nllb-200-distilled-600M";

/// The approximate size of the whole download in MB.
pub const APPROX_SIZE_MB: u32 = 887;

/// The hard cap on tokens generated for one segment.
pub const MAX_NEW_TOKENS: usize = 256;

/// The state of the engine for the interface.
#[derive(Debug)]
pub struct EngineInfo {
    pub id: String,
    pub label: String,
    pub approx_size_mb: u32,
    pub downloaded: bool,
    pub path: Option<String>,
}

/// What a run of the engine over a project did.
#[derive(Clone, Copy, Debug, PartialEq, Eq, Structural)]
pub struct EngineReport {
    /// Segments that got a translation that is not blank.
    pub translated: usize,
    /// Segments the engine could not translate.
    pub failed: usize,
}

/// The files of the model, relative to its folder, with their approximate
/// sizes in MB.
pub open spec fn model_file_table() -> Seq<(Seq<char>, u32)> {
    seq![
        ("onnx/encoder_model_quantized.onnx"@, 419u32),
        ("onnx/decoder_model_quantized.onnx"@, 449u32),
        ("tokenizer.json"@, 17u32),
        ("config.json"@, 1u32),
        ("generation_config.json"@, 1u32),
    ]
}

fn model_file_entries() -> (r: Vec<(&'static str, u32)>)
    ensures
        r.len() == model_file_table().len(),
        forall|i: int|
            0 <= i < r.len() ==> (#[trigger] r@[i]).0@ == model_file_table()[i].0 && r@[i].1
                == model_file_table()[i].1,
{
    let mut r: Vec<(&'static str, u32)> = Vec::new();
    r.push(("onnx/encoder_model_quantized.onnx", 419));
    r.push(("onnx/decoder_model_quantized.onnx", 449));
    r.push(("tokenizer.json", 17));
    r.push(("config.json", 1));
    r.push(("generation_config.json", 1));
    r
}

/// The model's folder in the models folder `dir`.
pub open spec fn model_path_spec(dir: Seq<char>) -> Seq<char> {
    join_spec(dir, MODEL_DIR@)
}

/// The model's folder in the models folder `dir`.
pub fn model_path(dir: &str) -> (r: String)
    ensures
        r@ == model_path_spec(dir@),
{
    join(dir, MODEL_DIR)
}

/// The files of the model in the models folder `dir`, in order.
pub fn model_files(dir: &str) -> (r: Vec<String>)
    ensures
        r.len() == model_file_table().len(),
        forall|i: int|
            0 <= i < r.len() ==> (#[trigger] r@[i])@ == join_spec(
                model_path_spec(dir@),
                model_file_table()[i].0,
            ),
{
    let base = model_path(dir);
    let entries = model_file_entries();
    let mut out: Vec<String> = Vec::new();
    let mut i: usize = 0;
    while i < entries.len()
        invariant
            i <= entries.len(),
            entries.len() == model_file_table().len(),
            base@ == model_path_spec(dir@),
            forall|k: int|
                0 <= k < entries.len() ==> (#[trigger] entries@[k]).0@ == model_file_table()[k].0,
            out.len() == i,
            forall|k: int|
                0 <= k < i ==> (#[trigger] out@[k])@ == join_spec(
                    model_path_spec(dir@),
                    model_file_table()[k].0,
                ),
        decreases entries.len() - i,
    {
        out.push(join(base.as_str(), entries[i].0));
        i += 1;
    }
    out
}

/// Whether the model is downloaded: every one of its files is present;
/// `present[i]` tells whether the `i`-th of `model_files` is.
pub fn is_downloaded(present: &Vec<bool>) -> (r: bool)
    ensures
        r == forall|i: int| 0 <= i < present.len() ==> #[trigger] present@[i],
{
    let mut i: usize = 0;
    while i < present.len()
        invariant
            i <= present.len(),
            forall|k: int| 0 <= k < i ==> #[trigger] present@[k],
        decreases present.len() - i,
    {
        if !present[i] {
            return false;
        }
        i += 1;
    }
    true
}

/// The engine's state for the interface: its single model.
pub fn list(dir: &str, downloaded: bool) -> (r: Vec<EngineInfo>)
    ensures
        r.len() == 1,
        r@[0].id@ == MODEL_DIR@,
        r@[0].label@ == "NLLB-200 distilled 600M (NMT, 200 idiomas)"@,
        r@[0].approx_size_mb == APPROX_SIZE_MB,
        r@[0].downloaded == downloaded,
        downloaded ==> (r@[0].path matches Some(p) && p@ == model_path_spec(dir@)),
        !downloaded ==> r@[0].path is None,
{
    let base = model_path(dir);
    let mut r: Vec<EngineInfo> = Vec::new();
    r.push(
        EngineInfo {
            id: MODEL_DIR.to_owned(),
            label: "NLLB-200 distilled 600M (NMT, 200 idiomas)".to_owned(),
            approx_size_mb: APPROX_SIZE_MB,
            downloaded,
            path: if downloaded {
                Some(base)
            } else {
                None
            },
        },
    );
    r
}

/// Where the model's files are fetched from.
pub open spec fn model_url_spec(rel: Seq<char>) -> Seq<char> {
    "https://huggingface.co/Xenova/nllb-200-distilled-600M/resolve/main/"@ + rel
}

/// The sum of the approximate sizes, in bytes, of the first `n` files.
pub open spec fn declared_bytes(n: int) -> nat
    decreases n,
{
    if n <= 0 {
        0
    } else {
        declared_bytes(n - 1) + model_file_table()[n - 1].1 as nat * 1_000_000
    }
}

/// The download of the model: each file's URL and destination, in order, and
/// the total against which progress is reported.
#[derive(Debug)]
pub struct EngineDownload {
    pub jobs: Vec<(String, String)>,
    pub grand_total: u64,
}

/// What downloading the model into the models folder `dir` fetches, file by
/// file, and the total of the declared sizes.
pub fn download(dir: &str) -> (r: EngineDownload)
    ensures
        r.jobs.len() == model_file_table().len(),
        forall|i: int|
            0 <= i < r.jobs.len() ==> (#[trigger] r.jobs@[i]).0@ == model_url_spec(
                model_file_table()[i].0,
            ) && r.jobs@[i].1@ == join_spec(model_path_spec(dir@), model_file_table()[i].0),
        r.grand_total == declared_bytes(model_file_table().len() as int),
{
    let base = model_path(dir);
    let entries = model_file_entries();
    let mut jobs: Vec<(String, String)> = Vec::new();
    let mut total: u64 = 0;
    let mut i: usize = 0;
    while i < entries.len()
        invariant
            i <= entries.len(),
            entries.len() == model_file_table().len(),
            base@ == model_path_spec(dir@),
            forall|k: int|
                0 <= k < entries.len() ==> (#[trigger] entries@[k]).0@ == model_file_table()[k].0
                    && entries@[k].1 == model_file_table()[k].1,
            jobs.len() == i,
            forall|k: int|
                0 <= k < i ==> (#[trigger] jobs@[k]).0@ == model_url_spec(model_file_table()[k].0)
                    && jobs@[k].1@ == join_spec(model_path_spec(dir@), model_file_table()[k].0),
            total == declared_bytes(i as int),
            total <= i * 449_000_000,
        decreases entries.len() - i,
    {
        let url = concat(
            "https://huggingface.co/Xenova/nllb-200-distilled-600M/resolve/main/",
            entries[i].0,
        );
        let dest = join(base.as_str(), entries[i].0);
        jobs.push((url, dest));
        total = total + entries[i].1 as u64 * 1_000_000;
        i += 1;
    }
    EngineDownload { jobs, grand_total: total }
}

/// The overall progress while a file is fetched: the bytes of the files done
/// plus those of the current one, never past the total.
pub fn overall_progress(done_before: u64, current: u64, grand_total: u64) -> (r: u64)
    ensures
        r == (if done_before + current < grand_total {
            (done_before + current) as u64
        } else {
            grand_total
        }),
{
    if current < grand_total && done_before < grand_total - current {
        done_before + current
    } else {
        grand_total
    }
}

/// The NLLB (FLORES-200) code of a short language code of the project.
pub open spec fn nllb_code_spec(short: Seq<char>) -> Option<Seq<char>> {
    if short == "es"@ {
        Some("spa_Latn"@)
    } else if short == "en"@ {
        Some("eng_Latn"@)
    } else if short == "pt"@ {
        Some("por_Latn"@)
    } else if short == "fr"@ {
        Some("fra_Latn"@)
    } else if short == "de"@ {
        Some("deu_Latn"@)
    } else if short == "it"@ {
        Some("ita_Latn"@)
    } else if short == "ja"@ {
        Some("jpn_Jpan"@)
    } else if short == "zh"@ {
        Some("zho_Hans"@)
    } else {
        None
    }
}

/// Maps the project's short language code to the code NLLB understands, such
/// as `es` to `spa_Latn`; an error for a language it has no code for.
pub fn nllb_code(short: &str) -> (r: Result<&'static str, String>)
    ensures
        match nllb_code_spec(short@) {
            Some(c) => r matches Ok(s) && s@ == c,
            None => r matches Err(e) && e@ == "El motor NLLB no tiene mapeado el idioma «"@
                + short@ + "»."@,
        },
{
    if str_equal(short, "es") {
        Ok("spa_Latn")
    } else if str_equal(short, "en") {
        Ok("eng_Latn")
    } else if str_equal(short, "pt") {
        Ok("por_Latn")
    } else if str_equal(short, "fr") {
        Ok("fra_Latn")
    } else if str_equal(short, "de") {
        Ok("deu_Latn")
    } else if str_equal(short, "it") {
        Ok("ita_Latn")
    } else if str_equal(short, "ja") {
        Ok("jpn_Jpan")
    } else if str_equal(short, "zh") {
        Ok("zho_Hans")
    } else {
        let mut e = String::new();
        append_str(&mut e, "El motor NLLB no tiene mapeado el idioma «");
        append_str(&mut e, short);
        append_str(&mut e, "».");
        assert(e@ =~= "El motor NLLB no tiene mapeado el idioma «"@ + short@ + "»."@);
        Err(e)
    }
}

/// The budget of output tokens, in proportion to the input's length.
pub fn ids_budget(src_len: usize) -> (r: usize)
    requires
        src_len * 2 + 16 <= usize::MAX,
    ensures
        r == src_len * 2 + 16,
{
    src_len * 2 + 16
}

/// How many decoding steps a segment of `src_len` input tokens gets: its
/// budget, at most `MAX_NEW_TOKENS`.
pub fn generation_cap(src_len: usize) -> (r: usize)
    ensures
        r == (if src_len * 2 + 16 < MAX_NEW_TOKENS { src_len * 2 + 16 } else { MAX_NEW_TOKENS as int }),
{
    if src_len >= 120 {
        MAX_NEW_TOKENS
    } else {
        ids_budget(src_len)
    }
}

/// The message for a tensor of the decoder that could not be built.
pub fn tensor_err(e: &str) -> (r: String)
    ensures
        r@ == "No se pudo construir un tensor del decoder: "@ + e@,
{
    concat("No se pudo construir un tensor del decoder: ", e)
}

/// Looks a token up in the vocabulary (`Tokenizer::token_to_id`). What comes
/// back depends on the vocabulary loaded from the model's files, so the
/// contract states nothing of it.
#[verifier::external_body]
fn vocabulary_id(tokenizer: &tokenizers::Tokenizer, token: &str) -> (r: Option<u32>) {
    tokenizer.token_to_id(token)
}

/// The token ids of `text`, without special tokens (`Tokenizer::encode` and
/// `Encoding::get_ids`), or the error's text. They depend on the vocabulary
/// loaded from the model's files: the contract states nothing of them.
#[verifier::external_body]
fn encode_ids(tokenizer: &tokenizers::Tokenizer, text: &str) -> (r: Result<Vec<u32>, String>) {
    match tokenizer.encode(text, false) {
        Ok(e) => Ok(e.get_ids().to_vec()),
        Err(e) => Err(e.to_string()),
    }
}

/// The text of the token ids `ids`, special tokens left out
/// (`Tokenizer::decode`), or the error's text. It depends on the vocabulary
/// loaded from the model's files: the contract states nothing of it.
#[verifier::external_body]
fn decode_ids(tokenizer: &tokenizers::Tokenizer, ids: &[u32]) -> (r: Result<String, String>) {
    tokenizer.decode(ids, true).map_err(|e| e.to_string())
}

/// What a vocabulary lookup of `token` gives: the id, as the graph's 64-bit
/// integers, or an error naming the token when the vocabulary lacks it.
pub fn vocabulary_result(found: Option<u32>, token: &str) -> (r: Result<i64, String>)
    ensures
        match found {
            Some(id) => r == Ok::<i64, String>(id as i64),
            None => r matches Err(e) && e@ == "El tokenizer NLLB no conoce el token «"@ + token@
                + "»."@,
        },
{
    match found {
        Some(id) => Ok(id as i64),
        None => {
            let mut e = String::new();
            append_str(&mut e, "El tokenizer NLLB no conoce el token «");
            append_str(&mut e, token);
            append_str(&mut e, "».");
            assert(e@ =~= "El tokenizer NLLB no conoce el token «"@ + token@ + "»."@);
            Err(e)
        },
    }
}

/// The id of `token` in the vocabulary; an error naming the token when the
/// vocabulary lacks it.
pub fn token_id(tokenizer: &tokenizers::Tokenizer, token: &str) -> (r: Result<i64, String>)
    ensures
        r matches Err(e) ==> e@ == "El tokenizer NLLB no conoce el token «"@ + token@ + "»."@,
        r matches Ok(v) ==> 0 <= v <= u32::MAX,
{
    vocabulary_result(vocabulary_id(tokenizer, token), token)
}

/// The encoder's input for the tokens `ids` of a text: the source language's
/// token, the text's tokens, and the end-of-sequence token.
pub fn source_ids(src_lang_id: i64, ids: &[u32], eos_id: i64) -> (r: Vec<i64>)
    ensures
        r.len() == ids.len() + 2,
        r@[0] == src_lang_id,
        forall|i: int| 0 <= i < ids.len() ==> r@[i + 1] == ids@[i] as i64,
        r@[ids.len() + 1] == eos_id,
{
    let mut r: Vec<i64> = Vec::new();
    r.push(src_lang_id);
    let mut i: usize = 0;
    while i < ids.len()
        invariant
            i <= ids.len(),
            r.len() == i + 1,
            r@[0] == src_lang_id,
            forall|k: int| 0 <= k < i ==> r@[k + 1] == ids@[k] as i64,
        decreases ids.len() - i,
    {
        r.push(ids[i] as i64);
        i += 1;
    }
    r.push(eos_id);
    r
}

/// The encoder's input from what tokenizing a text gave: its tokens framed
/// by `source_ids`, or the tokenizer's error with what was being done.
pub fn encoded_input(encoded: Result<Vec<u32>, String>, src_lang_id: i64, eos_id: i64) -> (r: Result<
    Vec<i64>,
    String,
>)
    ensures
        match encoded {
            Ok(ids) => r matches Ok(v) && v.len() == ids.len() + 2 && v@[0] == src_lang_id && v@[
                ids.len() + 1] == eos_id && forall|i: int|
                0 <= i < ids.len() ==> v@[i + 1] == ids@[i] as i64,
            Err(e) => r matches Err(m) && m@ == "No se pudo tokenizar el segmento: "@ + e@,
        },
{
    match encoded {
        Err(e) => Err(concat("No se pudo tokenizar el segmento: ", e.as_str())),
        Ok(ids) => Ok(source_ids(src_lang_id, ids.as_slice(), eos_id)),
    }
}

/// Tokenizes `text` into the encoder's input: the source language's token, the
/// text's tokens, and the end-of-sequence token.
pub fn encode_source(
    tokenizer: &tokenizers::Tokenizer,
    text: &str,
    src_lang_id: i64,
    eos_id: i64,
) -> (r: Result<Vec<i64>, String>)
    ensures
        r matches Ok(v) ==> v.len() >= 2 && v@[0] == src_lang_id && v@[v.len() - 1] == eos_id
            && forall|i: int| 1 <= i < v.len() - 1 ==> 0 <= #[trigger] v@[i] <= u32::MAX,
        r matches Err(m) ==> "No se pudo tokenizar el segmento: "@.is_prefix_of(m@),
{
    let encoded = encode_ids(tokenizer, text);
    let ghost g = encoded;
    let r = encoded_input(encoded, src_lang_id, eos_id);
    proof {
        match g {
            Ok(ids) => {
                if let Ok(v) = &r {
                    assert forall|i: int| 1 <= i < v.len() - 1 implies 0 <= #[trigger] v@[i]
                        <= u32::MAX by {
                        assert(v@[(i - 1) + 1] == ids@[i - 1] as i64);
                    }
                }
            },
            Err(e) => {
                let pre = "No se pudo tokenizar el segmento: "@;
                assert((pre + e@).subrange(0, pre.len() as int) =~= pre);
            },
        }
    }
    r
}

/// What decoding the output tokens gave, as the segment's text: trimmed, or
/// the tokenizer's error with what was being done.
pub fn decoded_output(decoded: Result<String, String>) -> (r: Result<String, String>)
    ensures
        match decoded {
            Ok(t) => r matches Ok(s) && s@ == trim(t@),
            Err(e) => r matches Err(m) && m@ == "No se pudo detokenizar la traducción: "@ + e@,
        },
{
    match decoded {
        Err(e) => Err(concat("No se pudo detokenizar la traducción: ", e.as_str())),
        Ok(text) => {
            let cs = chars_of(text.as_str());
            let t = trim_chars(cs.as_slice());
            Ok(string_from_chars(t.as_slice()))
        },
    }
}

/// Reads the generated tokens back as text, trimmed.
pub fn finish_translation(tokenizer: &tokenizers::Tokenizer, generated: &[u32]) -> (r: Result<
    String,
    String,
>)
    ensures
        r matches Ok(t) ==> t@ == trim(t@),
        r matches Err(m) ==> "No se pudo detokenizar la traducción: "@.is_prefix_of(m@),
{
    let decoded = decode_ids(tokenizer, generated);
    proof {
        match &decoded {
            Ok(t) => {
                crate::text::lemma_trim_idempotent(t@);
            },
            Err(e) => {
                let pre = "No se pudo detokenizar la traducción: "@;
                assert((pre + e@).subrange(0, pre.len() as int) =~= pre);
            },
        }
    }
    decoded_output(decoded)
}

/// The greedy decoding of one segment: the decoder is run on `input` and the
/// most likely next token is fed back, until it is the end-of-sequence token
/// or the steps run out.
#[derive(Debug)]
pub struct GreedyDecoder {
    eos_id: i64,
    cap: usize,
    steps: usize,
    finished: bool,
    input: Vec<i64>,
    generated: Vec<u32>,
}

impl GreedyDecoder {
    pub closed spec fn eos_spec(&self) -> i64 {
        self.eos_id
    }

    pub closed spec fn cap_spec(&self) -> usize {
        self.cap
    }

    pub closed spec fn steps_spec(&self) -> usize {
        self.steps
    }

    pub closed spec fn finished_spec(&self) -> bool {
        self.finished
    }

    /// The decoder's input: the end-of-sequence token, the target language's
    /// token, then the tokens generated so far.
    pub closed spec fn input_spec(&self) -> Seq<i64> {
        self.input@
    }

    /// The tokens generated so far.
    pub closed spec fn generated_spec(&self) -> Seq<u32> {
        self.generated@
    }

    /// Starts the decoding of a segment of `src_len` input tokens: the input is
    /// the end-of-sequence token and the target language's token.
    pub fn new(eos_id: i64, tgt_lang_id: i64, src_len: usize) -> (d: Self)
        ensures
            d.eos_spec() == eos_id,
            d.cap_spec() == (if src_len * 2 + 16 < MAX_NEW_TOKENS { src_len * 2 + 16 } else { MAX_NEW_TOKENS as int }),
            d.steps_spec() == 0,
            !d.finished_spec(),
            d.input_spec() == seq![eos_id, tgt_lang_id],
            d.generated_spec() == Seq::<u32>::empty(),
    {
        let mut input: Vec<i64> = Vec::new();
        input.push(eos_id);
        input.push(tgt_lang_id);
        GreedyDecoder {
            eos_id,
            cap: generation_cap(src_len),
            steps: 0,
            finished: false,
            input,
            generated: Vec::new(),
        }
    }

    /// Whether the decoder is to be run again.
    pub fn wants_step(&self) -> (r: bool)
        ensures
            r == (!self.finished_spec() && self.steps_spec() < self.cap_spec()),
    {
        !self.finished && self.steps < self.cap
    }

    /// The decoder's input for the next step.
    pub fn input(&self) -> (r: &Vec<i64>)
        ensures
            r@ == self.input_spec(),
    {
        &self.input
    }

    /// Takes the most likely next token: the end-of-sequence token finishes
    /// the decoding, any other is generated and joins the input.
    pub fn feed(&mut self, next: u32)
        requires
            !old(self).finished_spec(),
            old(self).steps_spec() < old(self).cap_spec(),
        ensures
            final(self).eos_spec() == old(self).eos_spec(),
            final(self).cap_spec() == old(self).cap_spec(),
            final(self).steps_spec() == old(self).steps_spec() + 1,
            next as i64 == old(self).eos_spec() ==> {
                &&& final(self).finished_spec()
                &&& final(self).input_spec() == old(self).input_spec()
                &&& final(self).generated_spec() == old(self).generated_spec()
            },
            next as i64 != old(self).eos_spec() ==> {
                &&& !final(self).finished_spec()
                &&& final(self).input_spec() == old(self).input_spec().push(next as i64)
                &&& final(self).generated_spec() == old(self).generated_spec().push(next)
            },
    {
        self.steps = self.steps + 1;
        if next as i64 == self.eos_id {
            self.finished = true;
            return;
        }
        self.input.push(next as i64);
        self.generated.push(next);
    }

    /// The tokens generated.
    pub fn generated(&self) -> (r: &Vec<u32>)
        ensures
            r@ == self.generated_spec(),
    {
        &self.generated
    }
}

/// How many of `texts` are not blank.
pub open spec fn count_filled(texts: Seq<Seq<char>>) -> nat
    decreases texts.len(),
{
    if texts.len() == 0 {
        0
    } else {
        count_filled(texts.drop_last()) + if trim(texts.last()).len() > 0 {
            1nat
        } else {
            0nat
        }
    }
}

/// Whether the engine is run on a segment: only when its source is not blank;
/// a blank source gets a blank translation.
pub fn needs_engine(source: &str) -> (r: bool)
    ensures
        r == (trim(source@).len() > 0),
{
    !is_blank(source)
}

/// The engine's answer for the request, given the translation of each
/// segment in order: one answer per segment with its id, and the count of
/// segments translated and failed.
pub fn collect_output(request: &TranslationRequest, translations: Vec<String>) -> (r: (
    Vec<ResponseSegment>,
    EngineReport,
))
    requires
        translations.len() == request.segments.len(),
    ensures
        r.0.len() == request.segments.len(),
        forall|i: int|
            0 <= i < r.0.len() ==> (#[trigger] r.0@[i]).id@ == request.segments@[i].id@
                && r.0@[i].translation@ == translations@[i]@,
        r.1.translated == count_filled(translations@.map_values(|t: String| t@)),
        r.1.translated + r.1.failed == request.segments.len(),
{
    let ghost texts = translations@.map_values(|t: String| t@);
    let mut out: Vec<ResponseSegment> = Vec::new();
    let mut translated: usize = 0;
    let mut failed: usize = 0;
    let mut i: usize = 0;
    while i < translations.len()
        invariant
            i <= translations.len(),
            translations.len() == request.segments.len(),
            texts == translations@.map_values(|t: String| t@),
            out.len() == i,
            forall|k: int|
                0 <= k < i ==> (#[trigger] out@[k]).id@ == request.segments@[k].id@
                    && out@[k].translation@ == translations@[k]@,
            translated == count_filled(texts.subrange(0, i as int)),
            translated + failed == i,
        decreases translations.len() - i,
    {
        let ghost pre = texts.subrange(0, i + 1);
        assert(pre.drop_last() =~= texts.subrange(0, i as int));
        let t = translations[i].clone();
        if is_blank(t.as_str()) {
            failed += 1;
        } else {
            translated += 1;
        }
        out.push(ResponseSegment { id: request.segments[i].id.clone(), translation: t });
        i += 1;
    }
    assert(texts.subrange(0, translations.len() as int) =~= texts);
    (out, EngineReport { translated, failed })
}

} // verus!
