use loquazx::project::{
    build_project, check_format_version, dub_path, extraction_source, new_manifest, place_video,
    plan_dubbing, plan_render, plan_segment_dub, plan_translation_export, segments_from_import,
    subdirs, transcription_source, ImportProblem, Manifest, Segment, SegmentImport, SourceMode,
    VideoPlacement, FORMAT_VERSION,
};
use loquazx::time::Seconds;

fn secs(v: f64) -> Seconds {
    Seconds::from_bits(v.to_bits())
}

fn segmento_demo() -> Segment {
    Segment {
        id: "s1".into(),
        start: secs(0.0),
        end: secs(3.2),
        source: "Hola".into(),
        translation: "Hello".into(),
        slide: None,
    }
}

fn demo_manifest() -> Manifest {
    new_manifest("Demo", "es", "en", 1_700_000_000)
}

#[test]
fn crear_y_abrir_ida_y_vuelta() {
    let m = demo_manifest();
    assert_eq!(m.format_version, FORMAT_VERSION);
    assert_eq!(subdirs(), vec!["source", "media", "runs", "exports", "slides"]);
    let id = m.id.clone();
    assert_eq!(id.len(), 36);
    let p = build_project("/p/demo.lqzx", m, Vec::new(), &Vec::new());
    assert_eq!(p.manifest.id, id);
    assert_eq!(p.manifest.name, "Demo");
    assert_eq!(p.manifest.source_language, "es");
    assert_eq!(p.manifest.target_language, "en");
    assert!(p.segments.is_empty());
}

#[test]
fn new_manifests_get_distinct_ids() {
    assert_ne!(demo_manifest().id, demo_manifest().id);
}

#[test]
fn abrir_falla_con_formato_mas_nuevo() {
    let mut m = demo_manifest();
    assert!(check_format_version(&m).is_ok());
    m.format_version = FORMAT_VERSION + 1;
    assert_eq!(
        check_format_version(&m).unwrap_err(),
        "El proyecto usa el formato 2 pero esta versión de la aplicación soporta hasta 1."
    );
}

#[test]
fn importar_video_en_modo_copia() {
    let placement = place_video("/p/demo.lqzx", "/videos/clip.mp4", true, true).unwrap();
    let file = match placement {
        VideoPlacement::Copy { destination, file } => {
            assert_eq!(destination, "/p/demo.lqzx/source/clip.mp4");
            file
        }
        VideoPlacement::Reference => panic!("expected a copy"),
    };
    assert_eq!(file, "source/clip.mp4");
    let mut m = demo_manifest();
    m.attach_video(file, true, "/videos/clip.mp4");
    let source = m.source.as_ref().unwrap();
    assert_eq!(source.mode, SourceMode::Copy);
    assert_eq!(source.file, "source/clip.mp4");
    let p = build_project("/p/demo.lqzx", m, Vec::new(), &Vec::new());
    assert_eq!(p.video_path.as_deref(), Some("/p/demo.lqzx/source/clip.mp4"));
}

#[test]
fn importar_video_en_modo_referencia() {
    assert!(matches!(
        place_video("/p", "/videos/clip.mp4", true, false).unwrap(),
        VideoPlacement::Reference
    ));
    let mut m = demo_manifest();
    m.attach_video("/videos/clip.mp4".into(), false, "/videos/clip.mp4");
    assert_eq!(m.source.as_ref().unwrap().mode, SourceMode::Reference);
    let p = build_project("/p", m, Vec::new(), &Vec::new());
    assert_eq!(p.video_path.as_deref(), Some("/videos/clip.mp4"));
}

#[test]
fn importar_video_falla_si_no_existe() {
    assert_eq!(
        place_video("/p", "/x/nada.mp4", false, true).unwrap_err(),
        "El video no existe: /x/nada.mp4"
    );
}

#[test]
fn extraer_audio_falla_sin_video_importado() {
    assert_eq!(
        extraction_source("/p", &demo_manifest()).unwrap_err(),
        "El proyecto no tiene un video importado."
    );
}

#[test]
fn reimportar_video_invalida_el_audio_extraido() {
    let mut m = demo_manifest();
    m.attach_video("source/a.mp4".into(), true, "/v/a.mp4");
    m.attach_audio("media/audio.wav", 5);
    let p = build_project("/p", m, Vec::new(), &Vec::new());
    assert_eq!(p.audio_path.as_deref(), Some("/p/media/audio.wav"));
    let mut m = p.manifest;
    let stale = m.attach_video("source/b.mp4".into(), true, "/v/b.mp4");
    assert_eq!(stale.as_deref(), Some("media/audio.wav"));
    assert!(m.audio.is_none());
    let p = build_project("/p", m, Vec::new(), &Vec::new());
    assert!(p.audio_path.is_none());
}

#[test]
fn transcribir_falla_sin_audio_extraido() {
    let error = transcription_source("/p", &demo_manifest()).unwrap_err();
    assert!(error.contains("audio"));
}

#[test]
fn exportar_traduccion_escribe_solicitud_y_prompt() {
    let m = demo_manifest();
    let x = plan_translation_export("/p", &m, &vec![segmento_demo()]).unwrap();
    assert_eq!(x.request.segments.len(), 1);
    assert_eq!(x.request_file, "/p/exports/traduccion-solicitud.json");
    assert_eq!(x.prompt_file, "/p/exports/traduccion-prompt.md");
    assert_eq!(x.request.segments[0].source, "Hola");
    assert_eq!(x.request.schema, loquazx::translation::REQUEST_SCHEMA);
}

#[test]
fn exportar_traduccion_falla_sin_segmentos() {
    let error = plan_translation_export("/p", &demo_manifest(), &Vec::new()).err().unwrap();
    assert!(error.contains("segmentos"));
}

#[test]
fn abrir_proyecto_antiguo_sin_campo_source() {
    let p = build_project("/p", demo_manifest(), Vec::new(), &Vec::new());
    assert!(p.manifest.source.is_none());
    assert!(p.video_path.is_none());
}

#[test]
fn dubs_are_listed_by_presence() {
    let mut b = segmento_demo();
    b.id = "s2".into();
    let p = build_project("/p", demo_manifest(), vec![segmento_demo(), b], &vec![false, true]);
    assert_eq!(p.dubs, vec!["s2".to_string()]);
    assert_eq!(dub_path("/p", "s2"), "/p/runs/dub/s2.wav");
}

#[test]
fn dubbing_plan_skips_untranslated_segments() {
    let mut blank = segmento_demo();
    blank.translation = "   ".into();
    let (chosen, report) = plan_dubbing(&vec![blank.duplicate(), segmento_demo()]).unwrap();
    assert_eq!(chosen, vec![1]);
    assert_eq!(report.generated, 1);
    assert_eq!(report.skipped, 1);
    assert_eq!(
        plan_dubbing(&vec![blank]).unwrap_err(),
        "No hay segmentos traducidos para doblar. Traduce el audio primero."
    );
}

#[test]
fn single_segment_dub_needs_a_translation() {
    let mut blank = segmento_demo();
    blank.id = "s0".into();
    blank.translation = String::new();
    let segs = vec![blank, segmento_demo()];
    assert_eq!(plan_segment_dub("/p", &segs, "s1").unwrap(), (1, "/p/runs/dub/s1.wav".to_string()));
    assert_eq!(
        plan_segment_dub("/p", &segs, "s0").unwrap_err(),
        "El segmento no tiene traducción que doblar."
    );
    assert_eq!(plan_segment_dub("/p", &segs, "zz").unwrap_err(), "No existe el segmento «zz».");
}

fn import(start: f64, end: f64, slide: Option<u32>) -> SegmentImport {
    SegmentImport {
        start: secs(start),
        end: secs(end),
        source: "texto".into(),
        translation: String::new(),
        slide,
    }
}

#[test]
fn imported_segments_are_validated_in_order() {
    assert_eq!(segments_from_import(vec![], None).err(), Some(ImportProblem::Empty));
    let ok = segments_from_import(vec![import(0.0, 1.5, Some(2)), import(1.5, 3.0, None)], Some(3))
        .ok()
        .unwrap();
    assert_eq!(ok.len(), 2);
    assert_eq!(ok[0].slide, Some(2));
    assert_ne!(ok[0].id, ok[1].id);
    let e = segments_from_import(vec![import(0.0, 1.0, None), import(f64::NAN, 2.0, None)], None)
        .err()
        .unwrap();
    assert_eq!(e, ImportProblem::NotFinite { index: 1 });
    assert_eq!(
        e.message().unwrap(),
        "El segmento #1 tiene tiempos inválidos (no finitos)."
    );
    let e = segments_from_import(vec![import(2.0, 2.0, None)], None).err().unwrap();
    assert!(matches!(e, ImportProblem::EndNotAfterStart { index: 0, .. }));
    assert!(e.message().is_none());
    let e = segments_from_import(vec![import(0.0, 1.0, Some(4))], Some(3)).err().unwrap();
    assert_eq!(e.message().unwrap(), "El segmento #0 pide la página 4 pero el PDF tiene 3.");
    let e = segments_from_import(vec![import(0.0, 1.0, Some(0))], Some(3)).err().unwrap();
    assert_eq!(e, ImportProblem::PageOutOfRange { index: 0, page: 0, page_count: 3 });
    let e = segments_from_import(vec![import(0.0, 1.0, Some(1))], None).err().unwrap();
    assert_eq!(
        e.message().unwrap(),
        "El segmento #0 tiene `slide` pero el proyecto no tiene un PDF importado."
    );
    let e = segments_from_import(vec![import(1.0, -1.0, None)], None).err().unwrap();
    assert!(matches!(e, ImportProblem::EndNotAfterStart { index: 0, .. }));
}

#[test]
fn render_plan_checks_and_lists_pending_dubs() {
    let mut m = demo_manifest();
    assert_eq!(
        plan_render("/p", &m, true, &vec![segmento_demo()], true, &vec![false]).err().unwrap(),
        "El proyecto no tiene un PDF importado."
    );
    m.attach_slides("slides/deck.pdf".into(), 3, 9);
    assert_eq!(
        plan_render("/p", &m, false, &vec![segmento_demo()], true, &vec![false]).err().unwrap(),
        "El PDF del proyecto no existe: /p/slides/deck.pdf"
    );
    assert_eq!(
        plan_render("/p", &m, true, &vec![], true, &vec![]).err().unwrap(),
        "No hay segmentos en el proyecto."
    );
    let mut second = segmento_demo();
    second.id = "s2".into();
    let segs = vec![segmento_demo(), second];
    let plan = plan_render("/p", &m, true, &segs, true, &vec![true, false]).ok().unwrap();
    assert_eq!(plan.pending, vec![1]);
    assert_eq!(plan.total_steps, 3);
    assert_eq!(plan.output, "/p/exports/Demo.mp4");
    assert_eq!(plan.audio_out, "/p/slides/audio.wav");
    assert_eq!(plan.pages_dir, "/p/slides/pages");
}

#[test]
fn created_project_opens_with_nothing_attached() {
    let m = demo_manifest();
    assert!(check_format_version(&m).is_ok());
    let p = build_project("/p/demo.lqzx", m, Vec::new(), &Vec::new());
    assert_eq!(p.manifest.format_version, FORMAT_VERSION);
    assert!(p.manifest.source.is_none());
    assert!(p.video_path.is_none());
    assert!(p.audio_path.is_none());
    assert!(p.slides_path.is_none());
    assert!(p.slides_page_count.is_none());
    assert!(p.dubs.is_empty());
}

#[test]
fn pages_are_rasterized_again_only_when_missing_and_the_pdf_is_there() {
    assert!(loquazx::project::needs_page_regeneration(false, true));
    assert!(!loquazx::project::needs_page_regeneration(true, true));
    assert!(!loquazx::project::needs_page_regeneration(false, false));
    assert!(!loquazx::project::needs_page_regeneration(true, false));
}

#[test]
fn a_pdf_without_pages_is_not_composed() {
    assert_eq!(loquazx::presentacion::check_page_count(0).unwrap_err(), "El PDF no tiene páginas.");
    assert!(loquazx::presentacion::check_page_count(1).is_ok());
    assert!(loquazx::presentacion::check_page_count(u32::MAX).is_ok());
}
