//! The project folder: its manifest, its segments and the rules that every
//! change to them follows. Reading and writing the files is left to the caller;
//! this module decides what the files hold.

use vstd::prelude::*;
use crate::ids::{is_hyphenated_v4, new_v4_hyphenated};
use crate::paths::{extension, extension_spec, file_name, file_name_spec, is_absolute, is_absolute_spec, join, join_spec};
use crate::text::{append_str, concat, ascii_lower_seq, chars_of, decimal, decimal_string, is_blank, lower_chars, str_equal, trim};
use crate::time::Seconds;
use crate::translation::{build_prompt, build_request, prompt_spec, TranslationRequest, REQUEST_SCHEMA};

verus! {

/// One stretch of speech: its times, the text heard and its translation.
/// `slide` is the 1-based page of the background PDF shown from `start` on
/// (`None` keeps the page seen last).
#[derive(Clone, Debug)]
pub struct Segment {
    pub id: String,
    pub start: Seconds,
    pub end: Seconds,
    pub source: String,
    pub translation: String,
    pub slide: Option<u32>,
}

/// What a segment holds, as plain values.
#[verifier::ext_equal]
pub struct SegmentView {
    pub id: Seq<char>,
    pub start: Seconds,
    pub end: Seconds,
    pub source: Seq<char>,
    pub translation: Seq<char>,
    pub slide: Option<u32>,
}

impl View for Segment {
    type V = SegmentView;

    open spec fn view(&self) -> SegmentView {
        SegmentView {
            id: self.id@,
            start: self.start,
            end: self.end,
            source: self.source@,
            translation: self.translation@,
            slide: self.slide,
        }
    }
}

/// The views of a list of segments.
pub open spec fn segment_views(segments: Seq<Segment>) -> Seq<SegmentView> {
    segments.map_values(|s: Segment| s@)
}

impl Segment {
    /// A copy of the segment with the same content.
    pub fn duplicate(&self) -> (r: Segment)
        ensures
            r@ == self@,
    {
        Segment {
            id: self.id.clone(),
            start: self.start,
            end: self.end,
            source: self.source.clone(),
            translation: self.translation.clone(),
            slide: self.slide,
        }
    }
}

/// The version of the folder format this library reads and writes.
pub const FORMAT_VERSION: u32 = 1;

/// The subfolders every project has, one per stage.
pub fn subdirs() -> (r: Vec<&'static str>)
    ensures
        r@.len() == 5,
        r@[0]@ == "source"@,
        r@[1]@ == "media"@,
        r@[2]@ == "runs"@,
        r@[3]@ == "exports"@,
        r@[4]@ == "slides"@,
{
    let mut r: Vec<&'static str> = Vec::new();
    r.push("source");
    r.push("media");
    r.push("runs");
    r.push("exports");
    r.push("slides");
    r
}

/// The audio extracted from the video.
#[derive(Debug)]
pub struct ExtractedAudio {
    /// Relative to the project, such as `media/audio.wav`.
    pub file: String,
    /// Seconds since the Unix epoch when it was extracted.
    pub extracted_at: u64,
}

/// Whether the video was copied into the project or is referred to where it is.
#[derive(Clone, Copy, Debug, PartialEq, Eq, Structural)]
pub enum SourceMode {
    Copy,
    Reference,
}

/// The video of the project.
#[derive(Debug)]
pub struct SourceVideo {
    /// Relative to the project when copied (`source/...`); absolute when referred to.
    pub file: String,
    pub mode: SourceMode,
    pub original_path: String,
}

/// The background PDF of the presentation mode, copied under `slides/`.
#[derive(Debug)]
pub struct Presentation {
    /// Relative to the project, such as `slides/deck.pdf`.
    pub file: String,
    pub page_count: u32,
    /// Seconds since the Unix epoch when it was imported.
    pub imported_at: u64,
}

/// The manifest, `project.json`.
#[derive(Debug)]
pub struct Manifest {
    pub id: String,
    pub format_version: u32,
    pub name: String,
    pub source_language: String,
    pub target_language: String,
    /// Seconds since the Unix epoch.
    pub created_at: u64,
    pub source: Option<SourceVideo>,
    pub audio: Option<ExtractedAudio>,
    pub slides: Option<Presentation>,
}

/// A project as the interface sees it: the manifest, the segments and the
/// absolute paths derived from them.
#[derive(Debug)]
pub struct Project {
    pub path: String,
    pub manifest: Manifest,
    pub segments: Vec<Segment>,
    pub video_path: Option<String>,
    pub audio_path: Option<String>,
    /// Ids of the segments that already have a dubbed WAV under `runs/dub/`.
    pub dubs: Vec<String>,
    pub slides_path: Option<String>,
    pub slides_page_count: Option<u32>,
}

/// The message for a folder that is not a project, with the reason `why`.
pub open spec fn not_a_project_spec(why: Seq<char>) -> Seq<char> {
    "No es una carpeta de proyecto loquazX válida: "@ + why
}

/// The message for a folder that is not a project, with the reason `why`.
pub fn not_a_project(why: &str) -> (r: String)
    ensures
        r@ == not_a_project_spec(why@),
{
    let mut r = String::new();
    append_str(&mut r, "No es una carpeta de proyecto loquazX válida: ");
    append_str(&mut r, why);
    r
}

/// The absolute path of the video, when one was imported.
pub open spec fn video_path_spec(dir: Seq<char>, manifest: Manifest) -> Option<Seq<char>> {
    match manifest.source {
        None => None,
        Some(v) => Some(
            if is_absolute_spec(v.file@) {
                v.file@
            } else {
                join_spec(dir, v.file@)
            },
        ),
    }
}

/// The absolute path of the video, when one was imported.
pub fn resolved_video_path(dir: &str, manifest: &Manifest) -> (r: Option<String>)
    ensures
        match video_path_spec(dir@, *manifest) {
            None => r is None,
            Some(p) => r matches Some(s) && s@ == p,
        },
{
    match &manifest.source {
        None => None,
        Some(v) => if is_absolute(v.file.as_str()) {
            Some(v.file.clone())
        } else {
            Some(join(dir, v.file.as_str()))
        },
    }
}

/// The absolute path of the extracted audio, when there is one.
pub open spec fn audio_path_spec(dir: Seq<char>, manifest: Manifest) -> Option<Seq<char>> {
    match manifest.audio {
        None => None,
        Some(a) => Some(join_spec(dir, a.file@)),
    }
}

/// The absolute path of the extracted audio, when there is one.
pub fn resolved_audio_path(dir: &str, manifest: &Manifest) -> (r: Option<String>)
    ensures
        match audio_path_spec(dir@, *manifest) {
            None => r is None,
            Some(p) => r matches Some(s) && s@ == p,
        },
{
    match &manifest.audio {
        None => None,
        Some(a) => Some(join(dir, a.file.as_str())),
    }
}

/// The absolute path of the background PDF, when there is one.
pub open spec fn slides_path_spec(dir: Seq<char>, manifest: Manifest) -> Option<Seq<char>> {
    match manifest.slides {
        None => None,
        Some(p) => Some(join_spec(dir, p.file@)),
    }
}

/// The absolute path of the background PDF, when there is one.
pub fn resolved_slides_path(dir: &str, manifest: &Manifest) -> (r: Option<String>)
    ensures
        match slides_path_spec(dir@, *manifest) {
            None => r is None,
            Some(p) => r matches Some(s) && s@ == p,
        },
{
    match &manifest.slides {
        None => None,
        Some(p) => Some(join(dir, p.file.as_str())),
    }
}

/// The folder of the dubbed WAVs: `runs/dub` in the project.
pub open spec fn dub_dir_spec(dir: Seq<char>) -> Seq<char> {
    join_spec(join_spec(dir, "runs"@), "dub"@)
}

/// The folder of the dubbed WAVs: `runs/dub` in the project.
pub fn dub_dir(dir: &str) -> (r: String)
    ensures
        r@ == dub_dir_spec(dir@),
{
    let runs = join(dir, "runs");
    join(runs.as_str(), "dub")
}

/// The dubbed WAV of the segment `seg_id`: `runs/dub/<id>.wav`.
pub open spec fn dub_path_spec(dir: Seq<char>, seg_id: Seq<char>) -> Seq<char> {
    join_spec(dub_dir_spec(dir), seg_id + ".wav"@)
}

/// The dubbed WAV of the segment `seg_id`: one file per segment, which a new
/// dubbing replaces.
pub fn dub_path(dir: &str, seg_id: &str) -> (r: String)
    ensures
        r@ == dub_path_spec(dir@, seg_id@),
{
    let d = dub_dir(dir);
    let name = concat(seg_id, ".wav");
    join(d.as_str(), name.as_str())
}

/// The ids of the segments whose dubbed WAV is present, in order.
pub open spec fn dubbed_ids(segments: Seq<SegmentView>, present: Seq<bool>) -> Seq<Seq<char>>
    decreases segments.len(),
{
    if segments.len() == 0 {
        Seq::empty()
    } else {
        let rest = dubbed_ids(segments.drop_last(), present);
        if present[segments.len() - 1] {
            rest.push(segments.last().id)
        } else {
            rest
        }
    }
}

/// The ids of the segments whose dubbed WAV is present; `present[i]` tells
/// whether `dub_path` of segment `i` is a file.
pub fn existing_dubs(segments: &Vec<Segment>, present: &Vec<bool>) -> (r: Vec<String>)
    requires
        present.len() == segments.len(),
    ensures
        r@.map_values(|s: String| s@) == dubbed_ids(segment_views(segments@), present@),
{
    let ghost views = segment_views(segments@);
    let mut out: Vec<String> = Vec::new();
    let mut i: usize = 0;
    while i < segments.len()
        invariant
            i <= segments.len(),
            present.len() == segments.len(),
            views == segment_views(segments@),
            out@.map_values(|s: String| s@) == dubbed_ids(views.subrange(0, i as int), present@),
        decreases segments.len() - i,
    {
        let ghost pre = views.subrange(0, i + 1);
        assert(pre.drop_last() =~= views.subrange(0, i as int));
        if present[i] {
            out.push(segments[i].id.clone());
            assert(out@.map_values(|s: String| s@) =~= dubbed_ids(pre, present@));
        } else {
            assert(out@.map_values(|s: String| s@) =~= dubbed_ids(pre, present@));
        }
        i += 1;
    }
    assert(views.subrange(0, segments.len() as int) =~= views);
    out
}

/// Puts together the project the interface sees from its folder, manifest and
/// segments; `dub_present[i]` tells whether segment `i` has a dubbed WAV.
pub fn build_project(
    dir: &str,
    manifest: Manifest,
    segments: Vec<Segment>,
    dub_present: &Vec<bool>,
) -> (r: Project)
    requires
        dub_present.len() == segments.len(),
    ensures
        r.path@ == dir@,
        r.manifest == manifest,
        r.segments@ == segments@,
        match video_path_spec(dir@, manifest) {
            None => r.video_path is None,
            Some(p) => r.video_path matches Some(s) && s@ == p,
        },
        match audio_path_spec(dir@, manifest) {
            None => r.audio_path is None,
            Some(p) => r.audio_path matches Some(s) && s@ == p,
        },
        match slides_path_spec(dir@, manifest) {
            None => r.slides_path is None,
            Some(p) => r.slides_path matches Some(s) && s@ == p,
        },
        r.slides_page_count == (match manifest.slides {
            None => None,
            Some(p) => Some(p.page_count),
        }),
        r.dubs@.map_values(|s: String| s@) == dubbed_ids(segment_views(segments@), dub_present@),
{
    let video_path = resolved_video_path(dir, &manifest);
    let audio_path = resolved_audio_path(dir, &manifest);
    let slides_path = resolved_slides_path(dir, &manifest);
    let slides_page_count = match &manifest.slides {
        None => None,
        Some(p) => Some(p.page_count),
    };
    let dubs = existing_dubs(&segments, dub_present);
    Project {
        path: dir.to_owned(),
        manifest,
        segments,
        video_path,
        audio_path,
        dubs,
        slides_path,
        slides_page_count,
    }
}

/// What the manifest of a new project holds besides its id: the current
/// format, the name, languages and creation time given, and no video, audio
/// or PDF yet.
pub open spec fn is_new_manifest(
    m: Manifest,
    name: Seq<char>,
    source_language: Seq<char>,
    target_language: Seq<char>,
    created_at: u64,
) -> bool {
    &&& m.format_version == FORMAT_VERSION
    &&& m.name@ == name
    &&& m.source_language@ == source_language
    &&& m.target_language@ == target_language
    &&& m.created_at == created_at
    &&& m.source is None
    &&& m.audio is None
    &&& m.slides is None
}

/// The manifest of a new project: a fresh random id, the current format, and
/// no video, audio or PDF yet.
pub fn new_manifest(
    name: &str,
    source_language: &str,
    target_language: &str,
    created_at: u64,
) -> (m: Manifest)
    ensures
        is_hyphenated_v4(m.id@),
        m.format_version == FORMAT_VERSION,
        m.name@ == name@,
        m.source_language@ == source_language@,
        m.target_language@ == target_language@,
        m.created_at == created_at,
        m.source is None,
        m.audio is None,
        m.slides is None,
        is_new_manifest(m, name@, source_language@, target_language@, created_at),
{
    Manifest {
        id: new_v4_hyphenated(),
        format_version: FORMAT_VERSION,
        name: name.to_owned(),
        source_language: source_language.to_owned(),
        target_language: target_language.to_owned(),
        created_at,
        source: None,
        audio: None,
        slides: None,
    }
}

/// The message for a manifest written by a newer version of the format.
pub open spec fn newer_format_spec(version: u32) -> Seq<char> {
    "El proyecto usa el formato "@ + decimal(version as nat)
        + " pero esta versión de la aplicación soporta hasta "@ + decimal(FORMAT_VERSION as nat)
        + "."@
}

/// Whether this library reads the format `version`: any up to
/// `FORMAT_VERSION`.
pub open spec fn format_accepted(version: u32) -> bool {
    version <= FORMAT_VERSION
}

/// Accepts a manifest whose format this library reads: any version up to
/// `FORMAT_VERSION`.
pub fn check_format_version(manifest: &Manifest) -> (r: Result<(), String>)
    ensures
        r is Ok <==> format_accepted(manifest.format_version),
        manifest.format_version <= FORMAT_VERSION ==> r is Ok,
        manifest.format_version > FORMAT_VERSION ==> (r matches Err(e) && e@ == newer_format_spec(
            manifest.format_version,
        )),
{
    if manifest.format_version > FORMAT_VERSION {
        let mut e = String::new();
        append_str(&mut e, "El proyecto usa el formato ");
        append_str(&mut e, decimal_string(manifest.format_version as u64).as_str());
        append_str(&mut e, " pero esta versión de la aplicación soporta hasta ");
        append_str(&mut e, decimal_string(FORMAT_VERSION as u64).as_str());
        append_str(&mut e, ".");
        assert(e@ =~= newer_format_spec(manifest.format_version));
        return Err(e);
    }
    Ok(())
}

/// A project just created opens again as it was made: its manifest passes
/// the format check, and the project built from it with no segments keeps
/// that manifest (name, languages, id) and has no video, audio or PDF path,
/// no page count and no dubbed segment, whatever folder it is in.
pub proof fn lemma_created_project_opens(
    dir: Seq<char>,
    m: Manifest,
    name: Seq<char>,
    source_language: Seq<char>,
    target_language: Seq<char>,
    created_at: u64,
    dub_present: Seq<bool>,
)
    requires
        is_new_manifest(m, name, source_language, target_language, created_at),
    ensures
        format_accepted(m.format_version),
        video_path_spec(dir, m) is None,
        audio_path_spec(dir, m) is None,
        slides_path_spec(dir, m) is None,
        dubbed_ids(segment_views(Seq::<Segment>::empty()), dub_present) == Seq::<Seq<char>>::empty(),
{
    assert(segment_views(Seq::<Segment>::empty()).len() == 0);
}

impl Manifest {
    /// Sets the languages of the project; nothing else changes.
    pub fn set_languages(&mut self, source_language: &str, target_language: &str)
        ensures
            final(self).source_language@ == source_language@,
            final(self).target_language@ == target_language@,
            final(self).id == old(self).id,
            final(self).format_version == old(self).format_version,
            final(self).name == old(self).name,
            final(self).created_at == old(self).created_at,
            final(self).source == old(self).source,
            final(self).audio == old(self).audio,
            final(self).slides == old(self).slides,
    {
        self.source_language = source_language.to_owned();
        self.target_language = target_language.to_owned();
    }

    /// Makes `file` the project's video and drops the extracted audio, which
    /// belonged to the video before; returns the file of that audio, which the
    /// caller removes.
    pub fn attach_video(&mut self, file: String, copy: bool, original_path: &str) -> (stale:
        Option<String>)
        ensures
            final(self).source matches Some(v) && v.file == file && v.mode == (if copy {
                SourceMode::Copy
            } else {
                SourceMode::Reference
            }) && v.original_path@ == original_path@,
            final(self).audio is None,
            stale == (match old(self).audio {
                None => None,
                Some(a) => Some(a.file),
            }),
            final(self).id == old(self).id,
            final(self).format_version == old(self).format_version,
            final(self).name == old(self).name,
            final(self).source_language == old(self).source_language,
            final(self).target_language == old(self).target_language,
            final(self).created_at == old(self).created_at,
            final(self).slides == old(self).slides,
    {
        self.source = Some(
            SourceVideo {
                file,
                mode: if copy {
                    SourceMode::Copy
                } else {
                    SourceMode::Reference
                },
                original_path: original_path.to_owned(),
            },
        );
        match self.audio.take() {
            None => None,
            Some(a) => Some(a.file),
        }
    }

    /// Records the audio extracted to `file` at `extracted_at`.
    pub fn attach_audio(&mut self, file: &str, extracted_at: u64)
        ensures
            final(self).audio matches Some(a) && a.file@ == file@ && a.extracted_at
                == extracted_at,
            final(self).id == old(self).id,
            final(self).format_version == old(self).format_version,
            final(self).name == old(self).name,
            final(self).source_language == old(self).source_language,
            final(self).target_language == old(self).target_language,
            final(self).created_at == old(self).created_at,
            final(self).source == old(self).source,
            final(self).slides == old(self).slides,
    {
        self.audio = Some(ExtractedAudio { file: file.to_owned(), extracted_at });
    }

    /// Records the background PDF copied to `file`, with its page count.
    pub fn attach_slides(&mut self, file: String, page_count: u32, imported_at: u64)
        ensures
            final(self).slides matches Some(p) && p.file == file && p.page_count == page_count
                && p.imported_at == imported_at,
            final(self).id == old(self).id,
            final(self).format_version == old(self).format_version,
            final(self).name == old(self).name,
            final(self).source_language == old(self).source_language,
            final(self).target_language == old(self).target_language,
            final(self).created_at == old(self).created_at,
            final(self).source == old(self).source,
            final(self).audio == old(self).audio,
    {
        self.slides = Some(Presentation { file, page_count, imported_at });
    }
}

// ---------------------------------------------------------------------------
// Importing a video and extracting its audio
// ---------------------------------------------------------------------------

/// Where an imported video goes.
#[derive(Debug)]
pub enum VideoPlacement {
    /// Copy the video to `destination`, recorded as `file` relative to the project.
    Copy { destination: String, file: String },
    /// Keep the video where it is; its canonical path is recorded.
    Reference,
}

/// Where the video `video` goes in the project at `dir`; an error when it is
/// not a file or, to be copied, has no file name.
pub fn place_video(dir: &str, video: &str, video_is_file: bool, copy: bool) -> (r: Result<
    VideoPlacement,
    String,
>)
    ensures
        !video_is_file ==> (r matches Err(e) && e@ == "El video no existe: "@ + video@),
        video_is_file && !copy ==> r matches Ok(VideoPlacement::Reference),
        video_is_file && copy ==> match file_name_spec(video@) {
            None => r matches Err(e) && e@ == "Ruta de video inválida: "@ + video@,
            Some(n) => r matches Ok(VideoPlacement::Copy { destination, file })
                && destination@ == join_spec(join_spec(dir@, "source"@), n) && file@ == "source/"@
                + n,
        },
{
    if !video_is_file {
        return Err(concat("El video no existe: ", video));
    }
    if !copy {
        return Ok(VideoPlacement::Reference);
    }
    match file_name(video) {
        None => Err(concat("Ruta de video inválida: ", video)),
        Some(n) => {
            let source = join(dir, "source");
            let destination = join(source.as_str(), n.as_str());
            let file = concat("source/", n.as_str());
            Ok(VideoPlacement::Copy { destination, file })
        },
    }
}

/// Where the extracted audio is kept, relative to the project.
pub fn extracted_audio_file() -> (r: &'static str)
    ensures
        r@ == "media/audio.wav"@,
{
    "media/audio.wav"
}

/// The video to extract the audio from; an error when none was imported.
pub fn extraction_source(dir: &str, manifest: &Manifest) -> (r: Result<String, String>)
    ensures
        match video_path_spec(dir@, *manifest) {
            None => r matches Err(e) && e@ == "El proyecto no tiene un video importado."@,
            Some(p) => r matches Ok(s) && s@ == p,
        },
{
    match resolved_video_path(dir, manifest) {
        None => Err("El proyecto no tiene un video importado.".to_owned()),
        Some(p) => Ok(p),
    }
}

/// The audio to transcribe; an error when none was extracted.
pub fn transcription_source(dir: &str, manifest: &Manifest) -> (r: Result<String, String>)
    ensures
        match audio_path_spec(dir@, *manifest) {
            None => r matches Err(e) && e@
                == "El proyecto no tiene audio extraído. Extrae el audio primero."@,
            Some(p) => r matches Ok(s) && s@ == p,
        },
{
    match resolved_audio_path(dir, manifest) {
        None => Err("El proyecto no tiene audio extraído. Extrae el audio primero.".to_owned()),
        Some(p) => Ok(p),
    }
}

/// A stretch of speech as the recognizer reports it.
#[derive(Debug)]
pub struct RawSegment {
    pub start: Seconds,
    pub end: Seconds,
    pub text: String,
}

/// The segments of a new transcription: each gets a fresh random id, keeps the
/// times and text, and has no translation or page yet.
pub fn segments_from_transcript(raw: &Vec<RawSegment>) -> (r: Vec<Segment>)
    ensures
        r.len() == raw.len(),
        forall|i: int|
            0 <= i < raw.len() ==> {
                &&& is_hyphenated_v4((#[trigger] r@[i]).id@)
                &&& r@[i].start == raw@[i].start
                &&& r@[i].end == raw@[i].end
                &&& r@[i].source@ == raw@[i].text@
                &&& r@[i].translation@ == Seq::<char>::empty()
                &&& r@[i].slide is None
            },
{
    let mut out: Vec<Segment> = Vec::new();
    let mut i: usize = 0;
    while i < raw.len()
        invariant
            i <= raw.len(),
            out.len() == i,
            forall|k: int|
                0 <= k < i ==> {
                    &&& is_hyphenated_v4((#[trigger] out@[k]).id@)
                    &&& out@[k].start == raw@[k].start
                    &&& out@[k].end == raw@[k].end
                    &&& out@[k].source@ == raw@[k].text@
                    &&& out@[k].translation@ == Seq::<char>::empty()
                    &&& out@[k].slide is None
                },
        decreases raw.len() - i,
    {
        let r = &raw[i];
        out.push(
            Segment {
                id: new_v4_hyphenated(),
                start: r.start,
                end: r.end,
                source: r.text.clone(),
                translation: String::new(),
                slide: None,
            },
        );
        i += 1;
    }
    out
}

// ---------------------------------------------------------------------------
// Translation export
// ---------------------------------------------------------------------------

/// The files written when the translation request is exported.
#[derive(Debug)]
pub struct TranslationExport {
    pub exports_dir: String,
    pub request_file: String,
    pub prompt_file: String,
    pub request: TranslationRequest,
    pub prompt: String,
}

/// What exporting the translation request reports.
#[derive(Debug)]
pub struct ExportResult {
    pub request_file: String,
    pub prompt_file: String,
    pub segment_count: usize,
}

/// The request and prompt for the segments, and where they are written under
/// `exports/`; an error when there is nothing to translate.
pub fn plan_translation_export(dir: &str, manifest: &Manifest, segments: &Vec<Segment>) -> (r:
    Result<TranslationExport, String>)
    ensures
        segments.len() == 0 ==> (r matches Err(e) && e@
            == "No hay segmentos para traducir. Transcribe el audio primero."@),
        segments.len() > 0 ==> (r matches Ok(x) && {
            &&& x.exports_dir@ == join_spec(dir@, "exports"@)
            &&& x.request_file@ == join_spec(x.exports_dir@, "traduccion-solicitud.json"@)
            &&& x.prompt_file@ == join_spec(x.exports_dir@, "traduccion-prompt.md"@)
            &&& x.request.schema@ == REQUEST_SCHEMA@
            &&& x.request.source_language@ == manifest.source_language@
            &&& x.request.target_language@ == manifest.target_language@
            &&& x.request.segments.len() == segments.len()
            &&& forall|i: int|
                0 <= i < segments.len() ==> (#[trigger] x.request.segments@[i]).id@
                    == segments@[i].id@ && x.request.segments@[i].start == segments@[i].start
                    && x.request.segments@[i].end == segments@[i].end
                    && x.request.segments@[i].source@ == segments@[i].source@
            &&& x.prompt@ == prompt_spec(manifest.source_language@, manifest.target_language@)
        }),
{
    if segments.len() == 0 {
        return Err("No hay segmentos para traducir. Transcribe el audio primero.".to_owned());
    }
    let exports_dir = join(dir, "exports");
    let request = build_request(
        manifest.source_language.as_str(),
        manifest.target_language.as_str(),
        segments.as_slice(),
    );
    let prompt = build_prompt(&request);
    let request_file = join(exports_dir.as_str(), "traduccion-solicitud.json");
    let prompt_file = join(exports_dir.as_str(), "traduccion-prompt.md");
    Ok(TranslationExport { exports_dir, request_file, prompt_file, request, prompt })
}

// ---------------------------------------------------------------------------
// Dubbing
// ---------------------------------------------------------------------------

/// The indices, in order, of the segments that hold a translation that is not
/// blank.
pub open spec fn translated_indices(segments: Seq<SegmentView>) -> Seq<int>
    decreases segments.len(),
{
    if segments.len() == 0 {
        Seq::empty()
    } else {
        let rest = translated_indices(segments.drop_last());
        if trim(segments.last().translation).len() > 0 {
            rest.push(segments.len() - 1)
        } else {
            rest
        }
    }
}

/// What a dubbing run did.
#[derive(Clone, Copy, Debug, PartialEq, Eq, Structural)]
pub struct DubReport {
    /// Segments synthesized.
    pub generated: usize,
    /// Segments without a translation, left out.
    pub skipped: usize,
}

/// The segments to dub, by index, and the report of the run once they are all
/// dubbed; an error when no segment is translated.
pub fn plan_dubbing(segments: &Vec<Segment>) -> (r: Result<(Vec<usize>, DubReport), String>)
    ensures
        translated_indices(segment_views(segments@)).len() == 0 ==> (r matches Err(e) && e@
            == "No hay segmentos traducidos para doblar. Traduce el audio primero."@),
        translated_indices(segment_views(segments@)).len() > 0 ==> (r matches Ok((v, rep)) && {
            &&& v@.map_values(|i: usize| i as int) == translated_indices(segment_views(segments@))
            &&& rep.generated == v.len()
            &&& rep.skipped == segments.len() - v.len()
            &&& rep.generated + rep.skipped == segments.len()
        }),
{
    let ghost views = segment_views(segments@);
    let mut chosen: Vec<usize> = Vec::new();
    let mut i: usize = 0;
    while i < segments.len()
        invariant
            i <= segments.len(),
            views == segment_views(segments@),
            chosen@.map_values(|k: usize| k as int) == translated_indices(views.subrange(0, i as int)),
            chosen.len() <= i,
        decreases segments.len() - i,
    {
        let ghost pre = views.subrange(0, i + 1);
        assert(pre.drop_last() =~= views.subrange(0, i as int));
        if !is_blank(segments[i].translation.as_str()) {
            chosen.push(i);
        }
        assert(chosen@.map_values(|k: usize| k as int) =~= translated_indices(pre));
        i += 1;
    }
    assert(views.subrange(0, segments.len() as int) =~= views);
    if chosen.len() == 0 {
        return Err("No hay segmentos traducidos para doblar. Traduce el audio primero.".to_owned());
    }
    let generated = chosen.len();
    Ok((chosen, DubReport { generated, skipped: segments.len() - generated }))
}

/// The segment to dub alone, and the WAV it goes to; an error when no segment
/// has the id, or when it has no translation.
pub fn plan_segment_dub(dir: &str, segments: &Vec<Segment>, seg_id: &str) -> (r: Result<
    (usize, String),
    String,
>)
    ensures
        match r {
            Ok((i, out)) => {
                &&& i < segments.len()
                &&& segments@[i as int].id@ == seg_id@
                &&& forall|k: int| 0 <= k < i ==> (#[trigger] segments@[k]).id@ != seg_id@
                &&& trim(segments@[i as int].translation@).len() > 0
                &&& out@ == dub_path_spec(dir@, seg_id@)
            },
            Err(e) => (forall|k: int| 0 <= k < segments.len() ==> (#[trigger] segments@[k]).id@
                != seg_id@) && e@ == "No existe el segmento «"@ + seg_id@ + "»."@ || (exists|
                i: int|
                0 <= i < segments.len() && (#[trigger] segments@[i]).id@ == seg_id@ && (forall|
                    k: int|
                    0 <= k < i ==> (#[trigger] segments@[k]).id@ != seg_id@) && trim(
                    segments@[i].translation@,
                ).len() == 0) && e@ == "El segmento no tiene traducción que doblar."@,
        },
{
    let mut i: usize = 0;
    while i < segments.len()
        invariant
            i <= segments.len(),
            forall|k: int| 0 <= k < i ==> (#[trigger] segments@[k]).id@ != seg_id@,
        decreases segments.len() - i,
    {
        if str_equal(segments[i].id.as_str(), seg_id) {
            if is_blank(segments[i].translation.as_str()) {
                return Err("El segmento no tiene traducción que doblar.".to_owned());
            }
            return Ok((i, dub_path(dir, seg_id)));
        }
        i += 1;
    }
    let mut e = String::new();
    append_str(&mut e, "No existe el segmento «");
    append_str(&mut e, seg_id);
    append_str(&mut e, "».");
    assert(e@ =~= "No existe el segmento «"@ + seg_id@ + "»."@);
    Err(e)
}

// ---------------------------------------------------------------------------
// The background PDF
// ---------------------------------------------------------------------------

/// The folder of the rasterized pages: `slides/pages` in the project.
pub open spec fn pages_dir_spec(dir: Seq<char>) -> Seq<char> {
    join_spec(join_spec(dir, "slides"@), "pages"@)
}

/// The folder of the rasterized pages: `slides/pages` in the project.
pub fn pages_dir(dir: &str) -> (r: String)
    ensures
        r@ == pages_dir_spec(dir@),
{
    let slides = join(dir, "slides");
    join(slides.as_str(), "pages")
}

/// The image of the first page, whose presence shows the pages are there.
pub fn first_page_image(dir: &str) -> (r: String)
    ensures
        r@ == join_spec(pages_dir_spec(dir@), "page-1.png"@),
{
    let pages = pages_dir(dir);
    join(pages.as_str(), "page-1.png")
}

/// Whether opening a project rasterizes its PDF's pages again: when the
/// image of the first page is missing and the PDF is still there.
pub fn needs_page_regeneration(first_page_present: bool, pdf_present: bool) -> (r: bool)
    ensures
        r == (!first_page_present && pdf_present),
{
    !first_page_present && pdf_present
}

/// Whether a path names a PDF: its extension is `pdf` in any case.
pub open spec fn is_pdf_path(p: Seq<char>) -> bool {
    match extension_spec(p) {
        None => false,
        Some(e) => ascii_lower_seq(e) == "pdf"@,
    }
}

/// Where an imported PDF goes.
#[derive(Debug)]
pub struct PdfPlacement {
    /// The folder `slides/` of the project.
    pub slides_dir: String,
    /// The folder of the rasterized pages.
    pub pages_dir: String,
    /// Where the PDF is copied.
    pub destination: String,
    /// The copy, relative to the project: `slides/<name>`.
    pub file: String,
}

/// Checks that `pdf` can be imported: a file whose extension is `pdf`.
pub fn check_pdf(pdf: &str, pdf_is_file: bool) -> (r: Result<(), String>)
    ensures
        !pdf_is_file ==> (r matches Err(e) && e@ == "El PDF no existe: "@ + pdf@),
        pdf_is_file && !is_pdf_path(pdf@) ==> (r matches Err(e) && e@
            == "El archivo seleccionado no es un PDF."@),
        pdf_is_file && is_pdf_path(pdf@) ==> r is Ok,
{
    if !pdf_is_file {
        return Err(concat("El PDF no existe: ", pdf));
    }
    let ok = match extension(pdf) {
        None => false,
        Some(e) => {
            let cs = chars_of(e.as_str());
            let l = lower_chars(cs.as_slice());
            let r = l.len() == 3 && l[0] == 'p' && l[1] == 'd' && l[2] == 'f';
            proof {
                reveal_strlit("pdf");
                if r {
                    assert(l@ =~= "pdf"@);
                } else if l@ == "pdf"@ {
                    assert(l@[0] == 'p' && l@[1] == 'd' && l@[2] == 'f');
                }
            }
            r
        },
    };
    if !ok {
        return Err("El archivo seleccionado no es un PDF.".to_owned());
    }
    Ok(())
}

/// Where the PDF `pdf` goes in the project at `dir`; an error when it has no
/// file name.
pub fn place_pdf(dir: &str, pdf: &str) -> (r: Result<PdfPlacement, String>)
    ensures
        match file_name_spec(pdf@) {
            None => r matches Err(e) && e@ == "Ruta de PDF inválida: "@ + pdf@,
            Some(n) => r matches Ok(p) && {
                &&& p.slides_dir@ == join_spec(dir@, "slides"@)
                &&& p.pages_dir@ == join_spec(p.slides_dir@, "pages"@)
                &&& p.destination@ == join_spec(p.slides_dir@, n)
                &&& p.file@ == "slides/"@ + n
            },
        },
{
    match file_name(pdf) {
        None => Err(concat("Ruta de PDF inválida: ", pdf)),
        Some(n) => {
            let slides_dir = join(dir, "slides");
            let pages_dir = join(slides_dir.as_str(), "pages");
            let destination = join(slides_dir.as_str(), n.as_str());
            let file = concat("slides/", n.as_str());
            Ok(PdfPlacement { slides_dir, pages_dir, destination, file })
        },
    }
}

/// The PDF whose pages are rasterized again; an error when the project has none.
pub fn slides_source(dir: &str, manifest: &Manifest) -> (r: Result<String, String>)
    ensures
        match slides_path_spec(dir@, *manifest) {
            None => r matches Err(e) && e@ == "El proyecto no tiene un PDF importado."@,
            Some(p) => r matches Ok(s) && s@ == p,
        },
{
    match resolved_slides_path(dir, manifest) {
        None => Err("El proyecto no tiene un PDF importado.".to_owned()),
        Some(p) => Ok(p),
    }
}

/// The message for a background PDF missing from the project's folder.
pub fn missing_slides_pdf(pdf: &str) -> (r: String)
    ensures
        r@ == "El PDF del proyecto no existe en disco: "@ + pdf@ + ". Vuelve a importar el PDF."@,
{
    let mut r = String::new();
    append_str(&mut r, "El PDF del proyecto no existe en disco: ");
    append_str(&mut r, pdf);
    append_str(&mut r, ". Vuelve a importar el PDF.");
    r
}

// ---------------------------------------------------------------------------
// Importing segments from an outside JSON
// ---------------------------------------------------------------------------

/// A segment as an outside JSON gives it.
#[derive(Debug)]
pub struct SegmentImport {
    pub start: Seconds,
    pub end: Seconds,
    pub source: String,
    pub translation: String,
    pub slide: Option<u32>,
}

/// Why a list of imported segments is refused.
#[derive(Clone, Copy, Debug, PartialEq, Eq, Structural)]
pub enum ImportProblem {
    /// The list is empty.
    Empty,
    /// Segment `index` has a time that is not finite.
    NotFinite { index: usize },
    /// Segment `index` ends at or before it starts.
    EndNotAfterStart { index: usize, start: Seconds, end: Seconds },
    /// Segment `index` asks for a page the PDF does not have.
    PageOutOfRange { index: usize, page: u32, page_count: u32 },
    /// Segment `index` asks for a page but the project has no PDF.
    NoPdf { index: usize },
}

/// The problem of the imported segment `s` at `index`, if any.
pub open spec fn segment_problem(index: usize, s: SegmentImport, page_count: Option<u32>) -> Option<
    ImportProblem,
> {
    if !s.start.is_finite_spec() || !s.end.is_finite_spec() {
        Some(ImportProblem::NotFinite { index })
    } else if s.end.le_spec(s.start) {
        Some(ImportProblem::EndNotAfterStart { index, start: s.start, end: s.end })
    } else {
        match s.slide {
            None => None,
            Some(p) => match page_count {
                None => Some(ImportProblem::NoPdf { index }),
                Some(max) => if p < 1 || p > max {
                    Some(ImportProblem::PageOutOfRange { index, page: p, page_count: max })
                } else {
                    None
                },
            },
        }
    }
}

/// The problem of the first refused segment among the first `n`, if any.
pub open spec fn first_problem(imports: Seq<SegmentImport>, n: int, page_count: Option<u32>) -> Option<
    ImportProblem,
>
    decreases n,
{
    if n <= 0 {
        None
    } else {
        match first_problem(imports, n - 1, page_count) {
            Some(p) => Some(p),
            None => segment_problem((n - 1) as usize, imports[n - 1], page_count),
        }
    }
}

impl ImportProblem {
    /// The message shown for the problem, except for `EndNotAfterStart`,
    /// whose message shows the two times in decimal and is written where
    /// they can be rendered.
    pub fn message(&self) -> (r: Option<String>)
        ensures
            match *self {
                ImportProblem::Empty => r matches Some(m) && m@ == "El JSON no contiene segmentos."@,
                ImportProblem::NotFinite { index } => r matches Some(m) && m@ == "El segmento #"@
                    + decimal(index as nat) + " tiene tiempos inválidos (no finitos)."@,
                ImportProblem::EndNotAfterStart { .. } => r is None,
                ImportProblem::PageOutOfRange { index, page, page_count } => r matches Some(m)
                    && m@ == "El segmento #"@ + decimal(index as nat) + " pide la página "@
                    + decimal(page as nat) + " pero el PDF tiene "@ + decimal(page_count as nat)
                    + "."@,
                ImportProblem::NoPdf { index } => r matches Some(m) && m@ == "El segmento #"@
                    + decimal(index as nat)
                    + " tiene `slide` pero el proyecto no tiene un PDF importado."@,
            },
    {
        match *self {
            ImportProblem::Empty => Some("El JSON no contiene segmentos.".to_owned()),
            ImportProblem::NotFinite { index } => {
                let mut m = String::new();
                append_str(&mut m, "El segmento #");
                append_str(&mut m, decimal_string(index as u64).as_str());
                append_str(&mut m, " tiene tiempos inválidos (no finitos).");
                assert(m@ =~= "El segmento #"@ + decimal(index as nat)
                    + " tiene tiempos inválidos (no finitos)."@);
                Some(m)
            },
            ImportProblem::EndNotAfterStart { .. } => None,
            ImportProblem::PageOutOfRange { index, page, page_count } => {
                let mut m = String::new();
                append_str(&mut m, "El segmento #");
                append_str(&mut m, decimal_string(index as u64).as_str());
                append_str(&mut m, " pide la página ");
                append_str(&mut m, decimal_string(page as u64).as_str());
                append_str(&mut m, " pero el PDF tiene ");
                append_str(&mut m, decimal_string(page_count as u64).as_str());
                append_str(&mut m, ".");
                assert(m@ =~= "El segmento #"@ + decimal(index as nat) + " pide la página "@
                    + decimal(page as nat) + " pero el PDF tiene "@ + decimal(page_count as nat)
                    + "."@);
                Some(m)
            },
            ImportProblem::NoPdf { index } => {
                let mut m = String::new();
                append_str(&mut m, "El segmento #");
                append_str(&mut m, decimal_string(index as u64).as_str());
                append_str(&mut m, " tiene `slide` pero el proyecto no tiene un PDF importado.");
                assert(m@ =~= "El segmento #"@ + decimal(index as nat)
                    + " tiene `slide` pero el proyecto no tiene un PDF importado."@);
                Some(m)
            },
        }
    }
}

fn check_import(index: usize, s: &SegmentImport, page_count: Option<u32>) -> (r: Option<
    ImportProblem,
>)
    ensures
        r == segment_problem(index, *s, page_count),
{
    if !s.start.is_finite() || !s.end.is_finite() {
        return Some(ImportProblem::NotFinite { index });
    }
    if s.end.le(s.start) {
        return Some(ImportProblem::EndNotAfterStart { index, start: s.start, end: s.end });
    }
    match s.slide {
        None => None,
        Some(p) => match page_count {
            None => Some(ImportProblem::NoPdf { index }),
            Some(max) => if p < 1 || p > max {
                Some(ImportProblem::PageOutOfRange { index, page: p, page_count: max })
            } else {
                None
            },
        },
    }
}

/// Turns imported segments into project segments: every segment gets a fresh
/// random id and keeps its times, texts and page. The list is refused, for its
/// first problem, when it is empty, when a time is not finite, when a segment
/// does not end after it starts, or when a page is outside the PDF or there is
/// no PDF.
pub fn segments_from_import(imports: Vec<SegmentImport>, page_count: Option<u32>) -> (r: Result<
    Vec<Segment>,
    ImportProblem,
>)
    ensures
        imports.len() == 0 ==> r == Err::<Vec<Segment>, ImportProblem>(ImportProblem::Empty),
        imports.len() > 0 ==> match first_problem(imports@, imports.len() as int, page_count) {
            Some(p) => r == Err::<Vec<Segment>, ImportProblem>(p),
            None => r matches Ok(v) && v.len() == imports.len() && forall|i: int|
                0 <= i < imports.len() ==> {
                    &&& is_hyphenated_v4((#[trigger] v@[i]).id@)
                    &&& v@[i].start == imports@[i].start
                    &&& v@[i].end == imports@[i].end
                    &&& v@[i].source@ == imports@[i].source@
                    &&& v@[i].translation@ == imports@[i].translation@
                    &&& v@[i].slide == imports@[i].slide
                },
        },
{
    if imports.len() == 0 {
        return Err(ImportProblem::Empty);
    }
    let mut out: Vec<Segment> = Vec::new();
    let mut i: usize = 0;
    while i < imports.len()
        invariant
            i <= imports.len(),
            out.len() == i,
            first_problem(imports@, i as int, page_count) is None,
            forall|k: int|
                0 <= k < i ==> {
                    &&& is_hyphenated_v4((#[trigger] out@[k]).id@)
                    &&& out@[k].start == imports@[k].start
                    &&& out@[k].end == imports@[k].end
                    &&& out@[k].source@ == imports@[k].source@
                    &&& out@[k].translation@ == imports@[k].translation@
                    &&& out@[k].slide == imports@[k].slide
                },
        decreases imports.len() - i,
    {
        let s = &imports[i];
        match check_import(i, s, page_count) {
            Some(p) => {
                proof {
                    lemma_first_problem_stays(imports@, i as int + 1, imports.len() as int, page_count);
                }
                return Err(p);
            },
            None => {},
        }
        out.push(
            Segment {
                id: new_v4_hyphenated(),
                start: s.start,
                end: s.end,
                source: s.source.clone(),
                translation: s.translation.clone(),
                slide: s.slide,
            },
        );
        i += 1;
    }
    Ok(out)
}

/// Every segment of an accepted list is sound: finite times, an end after the
/// start, and a page within the PDF when it names one (and only when there is
/// a PDF).
pub proof fn lemma_accepted_imports_are_sound(
    imports: Seq<SegmentImport>,
    n: int,
    page_count: Option<u32>,
)
    requires
        0 <= n <= imports.len(),
        first_problem(imports, n, page_count) is None,
    ensures
        forall|i: int|
            0 <= i < n ==> {
                &&& (#[trigger] imports[i]).start.is_finite_spec()
                &&& imports[i].end.is_finite_spec()
                &&& !imports[i].end.le_spec(imports[i].start)
                &&& imports[i].slide matches Some(p) ==> (page_count matches Some(max) && 1 <= p
                    <= max)
            },
    decreases n,
{
    if n > 0 {
        lemma_accepted_imports_are_sound(imports, n - 1, page_count);
        assert(segment_problem((n - 1) as usize, imports[n - 1], page_count) is None);
    }
}

/// The import check is complete: a list whose every segment has finite
/// times, an end after its start, and, when it names a page, a PDF holding
/// that page (`1 <= page <= page_count`) has no problem, so it is accepted.
pub proof fn lemma_sound_imports_are_accepted(imports: Seq<SegmentImport>, n: int, page_count: Option<u32>)
    requires
        0 <= n <= imports.len(),
        forall|i: int|
            0 <= i < n ==> {
                &&& (#[trigger] imports[i]).start.is_finite_spec()
                &&& imports[i].end.is_finite_spec()
                &&& imports[i].start.order_key() < imports[i].end.order_key()
                &&& imports[i].slide matches Some(p) ==> (page_count matches Some(max) && 1 <= p
                    <= max)
            },
    ensures
        first_problem(imports, n, page_count) is None,
    decreases n,
{
    if n > 0 {
        lemma_sound_imports_are_accepted(imports, n - 1, page_count);
        let s = imports[n - 1];
        assert(s.start.is_finite_spec());
        assert(!s.end.le_spec(s.start));
    }
}

/// A page is reported out of range only for a segment that names a page
/// below 1 or above the page count of the project's PDF.
pub proof fn lemma_page_out_of_range_is_outside(imports: Seq<SegmentImport>, n: int, page_count: Option<u32>)
    requires
        0 <= n <= imports.len(),
        imports.len() <= usize::MAX,
    ensures
        first_problem(imports, n, page_count) matches Some(ImportProblem::PageOutOfRange { index, page, page_count: max }) ==> {
            &&& index < n
            &&& imports[index as int].slide == Some(page)
            &&& page_count == Some(max)
            &&& (page < 1 || page > max)
        },
    decreases n,
{
    if n > 0 {
        lemma_page_out_of_range_is_outside(imports, n - 1, page_count);
    }
}

proof fn lemma_first_problem_stays(
    imports: Seq<SegmentImport>,
    n: int,
    m: int,
    page_count: Option<u32>,
)
    requires
        0 <= n <= m,
        first_problem(imports, n, page_count) is Some,
    ensures
        first_problem(imports, m, page_count) == first_problem(imports, n, page_count),
    decreases m - n,
{
    if n < m {
        lemma_first_problem_stays(imports, n, m - 1, page_count);
    }
}

// ---------------------------------------------------------------------------
// Rendering the presentation
// ---------------------------------------------------------------------------

/// What rendering the presentation does, once its checks pass.
#[derive(Debug)]
pub struct RenderPlan {
    /// The segments to dub first, by index: translated and without a WAV.
    pub pending: Vec<usize>,
    /// The steps reported: one per pending segment, then the audio, then the video.
    pub total_steps: usize,
    /// The page count of the PDF.
    pub page_count: u32,
    /// The folder of the rasterized pages.
    pub pages_dir: String,
    /// The audio track built from the dubbed WAVs.
    pub audio_out: String,
    /// The folder of the video.
    pub exports_dir: String,
    /// The video: `exports/<project name>.mp4`.
    pub output: String,
}

/// The indices, in order, of the translated segments whose WAV is missing.
pub open spec fn undubbed_indices(segments: Seq<SegmentView>, present: Seq<bool>) -> Seq<int>
    decreases segments.len(),
{
    if segments.len() == 0 {
        Seq::empty()
    } else {
        let rest = undubbed_indices(segments.drop_last(), present);
        if trim(segments.last().translation).len() > 0 && !present[segments.len() - 1] {
            rest.push(segments.len() - 1)
        } else {
            rest
        }
    }
}

/// The segments dubbed before rendering are exactly the translated ones that
/// have no WAV, in order: each pending index names a segment whose
/// translation is not blank once trimmed and whose WAV is missing, every such
/// segment is pending, and the indices increase. Untranslated segments stay
/// silent.
pub proof fn lemma_pending_are_translated_and_undubbed(segments: Seq<SegmentView>, present: Seq<bool>)
    requires
        present.len() == segments.len(),
    ensures
        forall|j: int|
            0 <= j < undubbed_indices(segments, present).len() ==> {
                let i = #[trigger] undubbed_indices(segments, present)[j];
                &&& 0 <= i < segments.len()
                &&& trim(segments[i].translation).len() > 0
                &&& !present[i]
            },
        forall|i: int|
            0 <= i < segments.len() && trim((#[trigger] segments[i]).translation).len() > 0 && !present[i]
                ==> undubbed_indices(segments, present).contains(i),
        forall|j: int, k: int|
            0 <= j < k < undubbed_indices(segments, present).len() ==> #[trigger] undubbed_indices(
                segments,
                present,
            )[j] < #[trigger] undubbed_indices(segments, present)[k],
{
    lemma_pending_prefix(segments, present);
    lemma_pending_complete(segments, present);
}

proof fn lemma_pending_prefix(segments: Seq<SegmentView>, present: Seq<bool>)
    ensures
        forall|j: int|
            0 <= j < undubbed_indices(segments, present).len() ==> {
                let i = #[trigger] undubbed_indices(segments, present)[j];
                &&& 0 <= i < segments.len()
                &&& trim(segments[i].translation).len() > 0
                &&& !present[i]
            },
        forall|j: int, k: int|
            0 <= j < k < undubbed_indices(segments, present).len() ==> #[trigger] undubbed_indices(
                segments,
                present,
            )[j] < #[trigger] undubbed_indices(segments, present)[k],
    decreases segments.len(),
{
    if segments.len() > 0 {
        let front = segments.drop_last();
        lemma_pending_prefix(front, present);
        let q = undubbed_indices(front, present);
        let p = undubbed_indices(segments, present);
        assert forall|j: int| 0 <= j < q.len() implies #[trigger] segments[q[j]] == front[q[j]] by {}
        assert forall|j: int| 0 <= j < p.len() implies {
            let i = #[trigger] p[j];
            &&& 0 <= i < segments.len()
            &&& trim(segments[i].translation).len() > 0
            &&& !present[i]
        } by {
            if j < q.len() {
                assert(p[j] == q[j]);
                assert(segments[q[j]] == front[q[j]]);
            }
        }
        assert forall|j: int, k: int| 0 <= j < k < p.len() implies #[trigger] p[j] < #[trigger] p[k] by {
            if k < q.len() {
                assert(p[j] == q[j] && p[k] == q[k]);
            } else {
                assert(p[j] == q[j]);
            }
        }
    }
}

/// Every translated segment without a WAV is pending.
proof fn lemma_pending_complete(segments: Seq<SegmentView>, present: Seq<bool>)
    ensures
        forall|i: int|
            0 <= i < segments.len() && trim((#[trigger] segments[i]).translation).len() > 0 && !present[i]
                ==> undubbed_indices(segments, present).contains(i),
    decreases segments.len(),
{
    if segments.len() > 0 {
        let front = segments.drop_last();
        lemma_pending_complete(front, present);
        let q = undubbed_indices(front, present);
        let p = undubbed_indices(segments, present);
        assert forall|i: int|
            0 <= i < segments.len() && trim((#[trigger] segments[i]).translation).len() > 0 && !present[i]
                implies p.contains(i) by {
            if i < segments.len() - 1 {
                assert(front[i] == segments[i]);
                assert(q.contains(i));
                let w = choose|j: int| 0 <= j < q.len() && q[j] == i;
                assert(p[w] == i);
            } else {
                assert(p[p.len() - 1] == i);
            }
        }
    }
}

/// Plans rendering the presentation of the project at `dir`. `pdf_is_file`
/// tells whether the PDF of the manifest is present, `first_page_present`
/// whether its first rasterized page is, and `dub_present[i]` whether segment
/// `i` has a WAV. The checks come in this order: a PDF in the manifest, the PDF
/// on disk, some segment, the rasterized pages.
pub fn plan_render(
    dir: &str,
    manifest: &Manifest,
    pdf_is_file: bool,
    segments: &Vec<Segment>,
    first_page_present: bool,
    dub_present: &Vec<bool>,
) -> (r: Result<RenderPlan, String>)
    requires
        dub_present.len() == segments.len(),
        segments.len() <= isize::MAX,
    ensures
        manifest.slides is None ==> (r matches Err(e) && e@ == "El proyecto no tiene un PDF importado."@),
        manifest.slides is Some && !pdf_is_file ==> (r matches Err(e) && e@
            == "El PDF del proyecto no existe: "@ + join_spec(dir@, manifest.slides->0.file@)),
        manifest.slides is Some && pdf_is_file && segments.len() == 0 ==> (r matches Err(e) && e@
            == "No hay segmentos en el proyecto."@),
        manifest.slides is Some && pdf_is_file && segments.len() > 0 && !first_page_present ==> (
        r matches Err(e) && e@
            == "Faltan las imágenes de las páginas del PDF. Vuelve a importar el PDF."@),
        manifest.slides is Some && pdf_is_file && segments.len() > 0 && first_page_present
            ==> (r matches Ok(plan) && {
            &&& plan.pending@.map_values(|i: usize| i as int) == undubbed_indices(
                segment_views(segments@),
                dub_present@,
            )
            &&& plan.total_steps == plan.pending.len() + 2
            &&& plan.page_count == manifest.slides->0.page_count
            &&& plan.pages_dir@ == pages_dir_spec(dir@)
            &&& plan.audio_out@ == join_spec(join_spec(dir@, "slides"@), "audio.wav"@)
            &&& plan.exports_dir@ == join_spec(dir@, "exports"@)
            &&& plan.output@ == join_spec(plan.exports_dir@, manifest.name@ + ".mp4"@)
        }),
{
    let slides = match &manifest.slides {
        None => {
            return Err("El proyecto no tiene un PDF importado.".to_owned());
        },
        Some(p) => p,
    };
    if !pdf_is_file {
        let pdf = join(dir, slides.file.as_str());
        return Err(concat("El PDF del proyecto no existe: ", pdf.as_str()));
    }
    if segments.len() == 0 {
        return Err("No hay segmentos en el proyecto.".to_owned());
    }
    if !first_page_present {
        return Err(
            "Faltan las imágenes de las páginas del PDF. Vuelve a importar el PDF.".to_owned(),
        );
    }
    let ghost views = segment_views(segments@);
    let mut pending: Vec<usize> = Vec::new();
    let mut i: usize = 0;
    while i < segments.len()
        invariant
            i <= segments.len(),
            dub_present.len() == segments.len(),
            views == segment_views(segments@),
            pending@.map_values(|k: usize| k as int) == undubbed_indices(
                views.subrange(0, i as int),
                dub_present@,
            ),
            pending.len() <= i,
        decreases segments.len() - i,
    {
        let ghost pre = views.subrange(0, i + 1);
        assert(pre.drop_last() =~= views.subrange(0, i as int));
        if !is_blank(segments[i].translation.as_str()) && !dub_present[i] {
            pending.push(i);
        }
        assert(pending@.map_values(|k: usize| k as int) =~= undubbed_indices(pre, dub_present@));
        i += 1;
    }
    assert(views.subrange(0, segments.len() as int) =~= views);
    let slides_dir = join(dir, "slides");
    let audio_out = join(slides_dir.as_str(), "audio.wav");
    let exports_dir = join(dir, "exports");
    let video_name = concat(manifest.name.as_str(), ".mp4");
    let output = join(exports_dir.as_str(), video_name.as_str());
    let total_steps = pending.len() + 2;
    Ok(
        RenderPlan {
            pending,
            total_steps,
            page_count: slides.page_count,
            pages_dir: pages_dir(dir),
            audio_out,
            exports_dir,
            output,
        },
    )
}

} // verus!
