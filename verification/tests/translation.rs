use loquazx::project::Segment;
use loquazx::time::Seconds;
use loquazx::translation::{
    apply_response, build_prompt, build_request, ResponseSegment, TranslationResponse,
    REQUEST_SCHEMA, RESPONSE_SCHEMA,
};

fn secs(v: f64) -> Seconds {
    Seconds::from_bits(v.to_bits())
}

fn seg(id: &str, source: &str) -> Segment {
    Segment {
        id: id.into(),
        start: secs(0.0),
        end: secs(2.0),
        source: source.into(),
        translation: String::new(),
        slide: None,
    }
}

fn answer(id: &str, translation: &str) -> ResponseSegment {
    ResponseSegment { id: id.into(), translation: translation.into() }
}

#[test]
fn build_request_copia_tiempos_y_texto() {
    let req = build_request("es", "en", &[seg("a", "Hola")]);
    assert_eq!(req.schema, REQUEST_SCHEMA);
    assert_eq!(req.source_language, "es");
    assert_eq!(req.target_language, "en");
    assert_eq!(req.segments.len(), 1);
    assert_eq!(req.segments[0].id, "a");
    assert_eq!(req.segments[0].source, "Hola");
    assert_eq!(f64::from_bits(req.segments[0].end.to_bits()), 2.0);
}

#[test]
fn build_prompt_menciona_idiomas_y_esquema() {
    let req = build_request("es", "en", &[]);
    let prompt = build_prompt(&req);
    assert!(prompt.contains("`es`"));
    assert!(prompt.contains("`en`"));
    assert!(prompt.contains(RESPONSE_SCHEMA));
    assert!(prompt.contains("Conserva exactamente cada `id`"));
}

#[test]
fn build_prompt_writes_the_json_shape_without_indentation() {
    let req = build_request("es", "fr", &[]);
    let prompt = build_prompt(&req);
    assert!(prompt.starts_with("# Tarea: traducción de subtítulos para doblaje\n\nEres un traductor"));
    assert!(prompt.contains("```json\n{\n\"schema\": \"loquazx.translation.response/1\",\n\"target_language\": \"fr\",\n"));
    assert!(prompt.contains("\"translation\": \"<traducción en fr>\" }\n]\n}\n```\n"));
    assert!(prompt.ends_with("«Importar traducción».\n"));
}

#[test]
fn apply_response_rellena_por_id() {
    let segments = vec![seg("a", "Hola"), seg("b", "Mundo")];
    let response = TranslationResponse {
        schema: RESPONSE_SCHEMA.into(),
        target_language: "en".into(),
        segments: vec![answer("a", "Hello"), answer("b", "World")],
    };
    let (out, report) = apply_response(segments, &response);
    assert_eq!(out[0].translation, "Hello");
    assert_eq!(out[1].translation, "World");
    assert_eq!(report.translated, 2);
    assert_eq!(report.missing, 0);
    assert_eq!(report.unknown, 0);
}

#[test]
fn apply_response_reporta_faltantes_y_desconocidos() {
    let segments = vec![seg("a", "Hola"), seg("b", "Mundo")];
    let response = TranslationResponse {
        schema: String::new(),
        target_language: String::new(),
        segments: vec![answer("a", "Hello"), answer("zzz", "Fantasma")],
    };
    let (out, report) = apply_response(segments, &response);
    assert_eq!(out[0].translation, "Hello");
    assert_eq!(out[1].translation, "");
    assert_eq!(report.translated, 1);
    assert_eq!(report.missing, 1);
    assert_eq!(report.unknown, 1);
}

#[test]
fn apply_response_no_borra_traduccion_previa_si_falta_en_respuesta() {
    let mut previo = seg("a", "Hola");
    previo.translation = "Hello".into();
    let response = TranslationResponse {
        schema: String::new(),
        target_language: String::new(),
        segments: vec![],
    };
    let (out, report) = apply_response(vec![previo], &response);
    assert_eq!(out[0].translation, "Hello");
    assert_eq!(report.translated, 1);
    assert_eq!(report.missing, 0);
}

#[test]
fn apply_response_last_answer_wins_and_blank_counts_missing() {
    let segments = vec![seg("a", "Hola"), seg("b", "Mundo")];
    let response = TranslationResponse {
        schema: String::new(),
        target_language: String::new(),
        segments: vec![answer("a", "Hi"), answer("b", "  "), answer("a", "Hello")],
    };
    let (out, report) = apply_response(segments, &response);
    assert_eq!(out[0].translation, "Hello");
    assert_eq!(out[1].translation, "  ");
    assert_eq!(out[1].source, "Mundo");
    assert_eq!(report.translated, 1);
    assert_eq!(report.missing, 1);
    assert_eq!(report.unknown, 0);
}

#[test]
fn apply_response_twice_is_applying_once() {
    let response = TranslationResponse {
        schema: String::new(),
        target_language: String::new(),
        segments: vec![answer("b", "World"), answer("x", "?")],
    };
    let (once, r1) = apply_response(vec![seg("a", "Hola"), seg("b", "Mundo")], &response);
    let again: Vec<Segment> = once.iter().map(|s| s.duplicate()).collect();
    let (twice, r2) = apply_response(again, &response);
    for (x, y) in once.iter().zip(twice.iter()) {
        assert_eq!(x.id, y.id);
        assert_eq!(x.translation, y.translation);
    }
    assert_eq!(r1, r2);
}

#[test]
fn importar_traduccion_rellena_y_persiste() {
    let mut segmento = seg("s1", "Hola");
    segmento.end = secs(3.2);
    let response = TranslationResponse {
        schema: RESPONSE_SCHEMA.into(),
        target_language: "en".into(),
        segments: vec![answer("s1", "Hello")],
    };
    let (out, report) = apply_response(vec![segmento], &response);
    assert_eq!(report.translated, 1);
    assert_eq!(report.missing, 0);
    assert_eq!(report.unknown, 0);
    assert_eq!(out[0].translation, "Hello");
}
