//! The translation stage: the request handed to an outside translator, the
//! prompt that goes with it, and how the answer is merged back into the
//! segments by `id`.

use vstd::prelude::*;
use crate::project::{segment_views, Segment, SegmentView};
use crate::text::{append_str, is_blank, lemma_occurs_between, occurs_in, str_equal, trim};
use crate::time::Seconds;

verus! {

/// The schema of a translation request.
pub const REQUEST_SCHEMA: &'static str = "loquazx.translation.request/1";

/// The schema of a translation response.
pub const RESPONSE_SCHEMA: &'static str = "loquazx.translation.response/1";

/// One segment as it is sent for translation: its times and its source text.
#[derive(Debug)]
pub struct RequestSegment {
    pub id: String,
    pub start: Seconds,
    pub end: Seconds,
    pub source: String,
}

/// The request sent to the translator.
#[derive(Debug)]
pub struct TranslationRequest {
    pub schema: String,
    pub source_language: String,
    pub target_language: String,
    pub segments: Vec<RequestSegment>,
}

/// One translated segment of the answer.
#[derive(Debug)]
pub struct ResponseSegment {
    pub id: String,
    pub translation: String,
}

/// The translator's answer: a translation for each `id`.
#[derive(Debug)]
pub struct TranslationResponse {
    pub schema: String,
    pub target_language: String,
    pub segments: Vec<ResponseSegment>,
}

/// What merging an answer into the segments found.
#[derive(Clone, Copy, Debug, PartialEq, Eq, Structural)]
pub struct MergeReport {
    /// Segments that hold a translation that is not blank.
    pub translated: usize,
    /// Segments left without a translation.
    pub missing: usize,
    /// Answers whose `id` names no segment.
    pub unknown: usize,
}

/// The `(id, translation)` pairs of an answer, in order.
pub open spec fn response_pairs(segments: Seq<ResponseSegment>) -> Seq<(Seq<char>, Seq<char>)> {
    segments.map_values(|r: ResponseSegment| (r.id@, r.translation@))
}

/// The translation that the answer gives for `id`: the last one when the id
/// is repeated, `None` when it is absent.
pub open spec fn translation_for(pairs: Seq<(Seq<char>, Seq<char>)>, id: Seq<char>) -> Option<
    Seq<char>,
>
    decreases pairs.len(),
{
    if pairs.len() == 0 {
        None
    } else if pairs.last().0 == id {
        Some(pairs.last().1)
    } else {
        translation_for(pairs.drop_last(), id)
    }
}

/// A segment after the answer is merged into it.
pub open spec fn merged_segment(s: SegmentView, pairs: Seq<(Seq<char>, Seq<char>)>) -> SegmentView {
    match translation_for(pairs, s.id) {
        Some(t) => SegmentView { translation: t, ..s },
        None => s,
    }
}

/// Whether some segment has the id `id`.
pub open spec fn has_id(segments: Seq<SegmentView>, id: Seq<char>) -> bool {
    exists|i: int| 0 <= i < segments.len() && #[trigger] segments[i].id == id
}

/// How many answers name an id that no segment has.
pub open spec fn count_unknown(
    pairs: Seq<(Seq<char>, Seq<char>)>,
    segments: Seq<SegmentView>,
) -> nat
    decreases pairs.len(),
{
    if pairs.len() == 0 {
        0
    } else {
        count_unknown(pairs.drop_last(), segments) + if has_id(segments, pairs.last().0) {
            0nat
        } else {
            1nat
        }
    }
}

/// How many segments hold a translation that is not blank.
pub open spec fn count_translated(segments: Seq<SegmentView>) -> nat
    decreases segments.len(),
{
    if segments.len() == 0 {
        0
    } else {
        count_translated(segments.drop_last()) + if trim(segments.last().translation).len() > 0 {
            1nat
        } else {
            0nat
        }
    }
}

proof fn lemma_count_translated_bound(segments: Seq<SegmentView>)
    ensures
        count_translated(segments) <= segments.len(),
    decreases segments.len(),
{
    if segments.len() > 0 {
        lemma_count_translated_bound(segments.drop_last());
    }
}

/// Builds the request for the segments, in their order.
pub fn build_request(
    source_language: &str,
    target_language: &str,
    segments: &[Segment],
) -> (r: TranslationRequest)
    ensures
        r.schema@ == REQUEST_SCHEMA@,
        r.source_language@ == source_language@,
        r.target_language@ == target_language@,
        r.segments.len() == segments.len(),
        forall|i: int|
            0 <= i < segments.len() ==> {
                &&& (#[trigger] r.segments@[i]).id@ == segments@[i].id@
                &&& r.segments@[i].start == segments@[i].start
                &&& r.segments@[i].end == segments@[i].end
                &&& r.segments@[i].source@ == segments@[i].source@
            },
{
    let mut out: Vec<RequestSegment> = Vec::new();
    let mut i: usize = 0;
    while i < segments.len()
        invariant
            i <= segments.len(),
            out.len() == i,
            forall|k: int|
                0 <= k < i ==> {
                    &&& (#[trigger] out@[k]).id@ == segments@[k].id@
                    &&& out@[k].start == segments@[k].start
                    &&& out@[k].end == segments@[k].end
                    &&& out@[k].source@ == segments@[k].source@
                },
        decreases segments.len() - i,
    {
        let s = &segments[i];
        out.push(
            RequestSegment {
                id: s.id.clone(),
                start: s.start,
                end: s.end,
                source: s.source.clone(),
            },
        );
        i += 1;
    }
    TranslationRequest {
        schema: REQUEST_SCHEMA.to_owned(),
        source_language: source_language.to_owned(),
        target_language: target_language.to_owned(),
        segments: out,
    }
}

/// The prompt, in Spanish, that goes with a request whose languages are
/// `source_language` and `target_language`.
pub open spec fn prompt_spec(source_language: Seq<char>, target_language: Seq<char>) -> Seq<char> {
    "# Tarea: traducción de subtítulos para doblaje\n\nEres un traductor audiovisual profesional. Traduce del idioma `"@
        + source_language
        + "` al idioma `"@
        + target_language
        + "` los segmentos del archivo `traduccion-solicitud.json` (esquema `loquazx.translation.request/1`).\n\nCada segmento trae:\n- `id`: identificador único, NO lo cambies.\n- `start` y `end`: inicio y fin en segundos. Su diferencia es el tiempo disponible en pantalla; ajusta el largo de la traducción para que sea pronunciable en doblaje y legible como subtítulo.\n- `source`: el texto original a traducir.\n\nReglas:\n1. Conserva exactamente cada `id`. Un único `translation` por `id`.\n2. No fundas, dividas ni reordenes segmentos: la respuesta tiene la misma cantidad de elementos y el mismo orden que la solicitud.\n3. Traducción natural y fluida en `"@
        + target_language
        + "`; respeta nombres propios y términos técnicos.\n4. No agregues comentarios, notas ni markdown. Responde **solo** con un JSON válido con esta forma (esquema `loquazx.translation.response/1`):\n\n```json\n{\n\"schema\": \"loquazx.translation.response/1\",\n\"target_language\": \""@
        + target_language
        + "\",\n\"segments\": [\n{ \"id\": \"<id del segmento>\", \"translation\": \"<traducción en "@
        + target_language
        + ">\" }\n]\n}\n```\n\nGuarda esa respuesta como un archivo `.json` e impórtalo en loquazX con «Importar traducción».\n"@
}

/// The prompt's instruction names the request's source language as the one
/// the segments are written in and its target language as the one they are
/// to be put into, in that order.
pub proof fn lemma_prompt_names_the_direction(source_language: Seq<char>, target_language: Seq<char>)
    ensures
        occurs_in(
            "Traduce del idioma `"@ + source_language + "` al idioma `"@ + target_language + "`"@,
            prompt_spec(source_language, target_language),
        ),
{
    let p = prompt_spec(source_language, target_language);
    let intro = "# Tarea: traducción de subtítulos para doblaje\n\nEres un traductor audiovisual profesional. Traduce del idioma `"@;
    let head = "# Tarea: traducción de subtítulos para doblaje\n\nEres un traductor audiovisual profesional. "@;
    let part = "Traduce del idioma `"@ + source_language + "` al idioma `"@ + target_language + "`"@;
    reveal_strlit("# Tarea: traducción de subtítulos para doblaje\n\nEres un traductor audiovisual profesional. Traduce del idioma `");
    reveal_strlit("# Tarea: traducción de subtítulos para doblaje\n\nEres un traductor audiovisual profesional. ");
    reveal_strlit("Traduce del idioma `");
    reveal_strlit("`");
    assert(intro =~= head + "Traduce del idioma `"@);
    reveal_strlit("` los segmentos del archivo `traduccion-solicitud.json` (esquema `loquazx.translation.request/1`).\n\nCada segmento trae:\n- `id`: identificador único, NO lo cambies.\n- `start` y `end`: inicio y fin en segundos. Su diferencia es el tiempo disponible en pantalla; ajusta el largo de la traducción para que sea pronunciable en doblaje y legible como subtítulo.\n- `source`: el texto original a traducir.\n\nReglas:\n1. Conserva exactamente cada `id`. Un único `translation` por `id`.\n2. No fundas, dividas ni reordenes segmentos: la respuesta tiene la misma cantidad de elementos y el mismo orden que la solicitud.\n3. Traducción natural y fluida en `");
    let cut = (intro.len() + source_language.len() + "` al idioma `"@.len() + target_language.len() + 1) as int;
    let rest = p.subrange(cut, p.len() as int);
    assert(p =~= head + part + rest);
    lemma_occurs_between(head, part, rest);
}

/// Writes the prompt that asks an outside model to translate the request.
pub fn build_prompt(request: &TranslationRequest) -> (out: String)
    ensures
        out@ == prompt_spec(request.source_language@, request.target_language@),
{
    let mut out = String::new();
    append_str(&mut out, "# Tarea: traducción de subtítulos para doblaje\n\nEres un traductor audiovisual profesional. Traduce del idioma `");
    append_str(&mut out, request.source_language.as_str());
    append_str(&mut out, "` al idioma `");
    append_str(&mut out, request.target_language.as_str());
    append_str(&mut out, "` los segmentos del archivo `traduccion-solicitud.json` (esquema `loquazx.translation.request/1`).\n\nCada segmento trae:\n- `id`: identificador único, NO lo cambies.\n- `start` y `end`: inicio y fin en segundos. Su diferencia es el tiempo disponible en pantalla; ajusta el largo de la traducción para que sea pronunciable en doblaje y legible como subtítulo.\n- `source`: el texto original a traducir.\n\nReglas:\n1. Conserva exactamente cada `id`. Un único `translation` por `id`.\n2. No fundas, dividas ni reordenes segmentos: la respuesta tiene la misma cantidad de elementos y el mismo orden que la solicitud.\n3. Traducción natural y fluida en `");
    append_str(&mut out, request.target_language.as_str());
    append_str(&mut out, "`; respeta nombres propios y términos técnicos.\n4. No agregues comentarios, notas ni markdown. Responde **solo** con un JSON válido con esta forma (esquema `loquazx.translation.response/1`):\n\n```json\n{\n\"schema\": \"loquazx.translation.response/1\",\n\"target_language\": \"");
    append_str(&mut out, request.target_language.as_str());
    append_str(&mut out, "\",\n\"segments\": [\n{ \"id\": \"<id del segmento>\", \"translation\": \"<traducción en ");
    append_str(&mut out, request.target_language.as_str());
    append_str(&mut out, ">\" }\n]\n}\n```\n\nGuarda esa respuesta como un archivo `.json` e impórtalo en loquazX con «Importar traducción».\n");
    assert(out@ =~= prompt_spec(request.source_language@, request.target_language@));
    out
}

/// The translation that `response` gives for `id`, if any: the last one
/// when the id is repeated.
fn find_translation(response: &TranslationResponse, id: &str) -> (r: Option<String>)
    ensures
        match translation_for(response_pairs(response.segments@), id@) {
            None => r is None,
            Some(t) => r matches Some(s) && s@ == t,
        },
{
    let ghost pairs = response_pairs(response.segments@);
    let mut k = response.segments.len();
    assert(pairs.subrange(0, k as int) =~= pairs);
    while k > 0
        invariant
            k <= response.segments.len(),
            pairs == response_pairs(response.segments@),
            translation_for(pairs, id@) == translation_for(pairs.subrange(0, k as int), id@),
        decreases k,
    {
        let ghost pre = pairs.subrange(0, k as int);
        assert(pre.drop_last() =~= pairs.subrange(0, k - 1));
        assert(pre.last() == pairs[k - 1]);
        if str_equal(response.segments[k - 1].id.as_str(), id) {
            return Some(response.segments[k - 1].translation.clone());
        }
        k -= 1;
    }
    assert(pairs.subrange(0, 0) =~= Seq::<(Seq<char>, Seq<char>)>::empty());
    None
}

/// Whether some segment has the id `id`.
fn segments_have_id(segments: &Vec<Segment>, id: &str) -> (r: bool)
    ensures
        r == has_id(segment_views(segments@), id@),
{
    let ghost views = segment_views(segments@);
    let mut i: usize = 0;
    while i < segments.len()
        invariant
            i <= segments.len(),
            views == segment_views(segments@),
            forall|k: int| 0 <= k < i ==> (#[trigger] views[k]).id != id@,
        decreases segments.len() - i,
    {
        if str_equal(segments[i].id.as_str(), id) {
            assert(views[i as int].id == id@);
            return true;
        }
        i += 1;
    }
    false
}

/// Merges `response` into `segments` by `id`: a segment named in the answer
/// takes its translation (the last one when the id is repeated), any other
/// keeps its own. Nothing else of a segment changes, and the order stays.
pub fn apply_response(segments: Vec<Segment>, response: &TranslationResponse) -> (r: (
    Vec<Segment>,
    MergeReport,
))
    ensures
        r.0.len() == segments.len(),
        forall|i: int|
            0 <= i < segments.len() ==> (#[trigger] r.0@[i])@ == merged_segment(
                segments@[i]@,
                response_pairs(response.segments@),
            ),
        r.1.translated == count_translated(segment_views(r.0@)),
        r.1.missing == segments.len() - count_translated(segment_views(r.0@)),
        r.1.unknown == count_unknown(
            response_pairs(response.segments@),
            segment_views(segments@),
        ),
{
    let ghost pairs = response_pairs(response.segments@);
    let ghost views = segment_views(segments@);
    let mut unknown: usize = 0;
    let mut j: usize = 0;
    while j < response.segments.len()
        invariant
            j <= response.segments.len(),
            pairs == response_pairs(response.segments@),
            views == segment_views(segments@),
            unknown == count_unknown(pairs.subrange(0, j as int), views),
            unknown <= j,
        decreases response.segments.len() - j,
    {
        let ghost pre = pairs.subrange(0, j + 1);
        assert(pre.drop_last() =~= pairs.subrange(0, j as int));
        assert(pre.last() == pairs[j as int]);
        if !segments_have_id(&segments, response.segments[j].id.as_str()) {
            unknown += 1;
        }
        j += 1;
    }
    assert(pairs.subrange(0, pairs.len() as int) =~= pairs);
    let mut out: Vec<Segment> = Vec::new();
    let mut translated: usize = 0;
    let mut i: usize = 0;
    while i < segments.len()
        invariant
            i <= segments.len(),
            out.len() == i,
            pairs == response_pairs(response.segments@),
            forall|k: int|
                0 <= k < i ==> (#[trigger] out@[k])@ == merged_segment(segments@[k]@, pairs),
            translated == count_translated(segment_views(out@)),
            translated <= i,
        decreases segments.len() - i,
    {
        let s = &segments[i];
        let translation = match find_translation(response, s.id.as_str()) {
            Some(t) => t,
            None => s.translation.clone(),
        };
        let merged = Segment {
            id: s.id.clone(),
            start: s.start,
            end: s.end,
            source: s.source.clone(),
            translation,
            slide: s.slide,
        };
        assert(merged@ =~= merged_segment(segments@[i as int]@, pairs));
        let blank = is_blank(merged.translation.as_str());
        let ghost before = out@;
        out.push(merged);
        proof {
            assert(segment_views(out@).drop_last() =~= segment_views(before));
        }
        if !blank {
            translated += 1;
        }
        i += 1;
    }
    proof {
        lemma_count_translated_bound(segment_views(out@));
    }
    let missing = out.len() - translated;
    (out, MergeReport { translated, missing, unknown })
}

/// A segment whose id the answer does not name keeps every field, its
/// translation too.
pub proof fn lemma_unnamed_segment_kept(s: SegmentView, pairs: Seq<(Seq<char>, Seq<char>)>)
    requires
        forall|k: int| 0 <= k < pairs.len() ==> (#[trigger] pairs[k]).0 != s.id,
    ensures
        merged_segment(s, pairs) == s,
    decreases pairs.len(),
{
    if pairs.len() > 0 {
        let d = pairs.drop_last();
        assert forall|k: int| 0 <= k < d.len() implies (#[trigger] d[k]).0 != s.id by {
            assert(d[k] == pairs[k]);
        }
        lemma_unnamed_segment_kept(s, d);
    }
}

/// When the answer names a segment's id, the segment takes the translation of
/// the last answer with that id, and keeps its id, times, source and slide.
pub proof fn lemma_last_answer_wins(s: SegmentView, pairs: Seq<(Seq<char>, Seq<char>)>, k: int)
    requires
        0 <= k < pairs.len(),
        pairs[k].0 == s.id,
        forall|j: int| k < j < pairs.len() ==> (#[trigger] pairs[j]).0 != s.id,
    ensures
        merged_segment(s, pairs).translation == pairs[k].1,
        merged_segment(s, pairs).id == s.id,
        merged_segment(s, pairs).start == s.start,
        merged_segment(s, pairs).end == s.end,
        merged_segment(s, pairs).source == s.source,
        merged_segment(s, pairs).slide == s.slide,
    decreases pairs.len(),
{
    if k < pairs.len() - 1 {
        let d = pairs.drop_last();
        assert forall|j: int| k < j < d.len() implies (#[trigger] d[j]).0 != s.id by {
            assert(d[j] == pairs[j]);
        }
        assert(d[k] == pairs[k]);
        lemma_last_answer_wins(s, d, k);
    }
}

/// Merging the same answer a second time changes nothing.
pub proof fn lemma_merge_idempotent(s: SegmentView, pairs: Seq<(Seq<char>, Seq<char>)>)
    ensures
        merged_segment(merged_segment(s, pairs), pairs) == merged_segment(s, pairs),
{
    let m = merged_segment(s, pairs);
    assert(m.id == s.id);
    match translation_for(pairs, s.id) {
        Some(t) => {
            assert(merged_segment(m, pairs) =~= m);
        },
        None => {},
    }
}

/// Every segment is counted once: as translated or as missing.
pub proof fn lemma_report_accounts_for_every_segment(segments: Seq<SegmentView>)
    ensures
        count_translated(segments) + (segments.len() - count_translated(segments)) == segments.len(),
        count_translated(segments) <= segments.len(),
{
    lemma_count_translated_bound(segments);
}

/// No more answers are unknown than there are answers.
pub proof fn lemma_unknown_bounded(pairs: Seq<(Seq<char>, Seq<char>)>, segments: Seq<SegmentView>)
    ensures
        count_unknown(pairs, segments) <= pairs.len(),
    decreases pairs.len(),
{
    if pairs.len() > 0 {
        lemma_unknown_bounded(pairs.drop_last(), segments);
    }
}

} // verus!
