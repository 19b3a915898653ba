use loquazx::models;
use loquazx::translate_engine::{self, nllb_code, MODEL_DIR};
use loquazx::tts::{piper_voice_files, Engine};
use loquazx::tts_edge::{edge_voices, find_voice, lang_from_locale, to_edge_voice, VoiceRecord};
use loquazx::voices;
use std::path::Path;

#[test]
fn model_path_usa_el_nombre_ggml() {
    let path = models::model_path("/tmp/modelos", "base").unwrap();
    assert!(Path::new(&path).ends_with("ggml-base.bin"));
}

#[test]
fn model_path_rechaza_nivel_desconocido() {
    assert!(models::model_path("/tmp", "gigante").is_err());
}

#[test]
fn list_marca_descargado_solo_lo_presente() {
    // only the file of `base` is present
    let present = vec![false, true, false, false, false];
    let modelos = models::list("/tmp/store", &present);
    assert_eq!(modelos.len(), models::levels().len());
    let base = modelos.iter().find(|m| m.id == "base").unwrap();
    assert!(base.downloaded);
    assert!(base.path.is_some());
    let tiny = modelos.iter().find(|m| m.id == "tiny").unwrap();
    assert!(!tiny.downloaded);
    assert!(tiny.path.is_none());
}

#[test]
fn import_copia_al_almacen_con_nombre_canonico() {
    let destino = models::import_target("/tmp/store", "small", "/tmp/mi-modelo.bin", true).unwrap();
    assert_eq!(destino, "/tmp/store/ggml-small.bin");
    let info = models::info("/tmp/store", &models::level("small").unwrap(), true);
    assert!(info.downloaded);
}

#[test]
fn import_falla_si_el_origen_no_existe() {
    assert!(models::import_target("/tmp/store", "base", "/tmp/store/no-existe.bin", false).is_err());
}

#[test]
fn model_download_target_uses_part_file() {
    let t = models::download_target("/m", "tiny").unwrap();
    assert_eq!(t.url, "https://huggingface.co/ggerganov/whisper.cpp/resolve/main/ggml-tiny.bin");
    assert_eq!(t.destination, "/m/ggml-tiny.bin");
    assert_eq!(t.partial, "/m/ggml-tiny.bin.part");
    assert_eq!(
        models::download_target("/m", "huge").unwrap_err(),
        "Nivel de modelo desconocido: huge"
    );
}

#[test]
fn model_path_usa_la_extension_onnx() {
    let path = voices::model_path("/tmp/modelos", "en_US-lessac-medium").unwrap();
    assert!(Path::new(&path).ends_with("en_US-lessac-medium.onnx"));
}

#[test]
fn model_path_rechaza_voz_desconocida() {
    assert!(voices::model_path("/tmp", "klingon-medium").is_err());
}

#[test]
fn list_marca_descargada_solo_con_ambos_archivos() {
    let n = voices::voices().len();
    let mut onnx = vec![false; n];
    let config = vec![false; n];
    onnx[0] = true;
    let voces = voices::list("/tmp/v", &onnx, &config);
    assert_eq!(voces.len(), n);
    let es = voces.iter().find(|v| v.id == "es_ES-sharvard-medium").unwrap();
    assert!(!es.downloaded);
    assert!(es.path.is_none());

    let mut config = vec![false; n];
    config[0] = true;
    let voces = voices::list("/tmp/v", &onnx, &config);
    let es = voces.iter().find(|v| v.id == "es_ES-sharvard-medium").unwrap();
    assert!(es.downloaded);
    assert_eq!(es.path.as_deref(), Some("/tmp/v/es_ES-sharvard-medium.onnx"));
}

#[test]
fn delete_quita_ambos_archivos_y_es_idempotente() {
    let (onnx, json) = voices::delete_targets("/tmp/v", "fr_FR-siwis-medium").unwrap();
    assert_eq!(onnx, "/tmp/v/fr_FR-siwis-medium.onnx");
    assert_eq!(json, "/tmp/v/fr_FR-siwis-medium.onnx.json");
    // asking again names the same files
    assert_eq!(voices::delete_targets("/tmp/v", "fr_FR-siwis-medium").unwrap().0, onnx);
}

#[test]
fn cada_voz_declara_idioma_conocido() {
    let validos = ["es", "en", "pt", "fr", "de", "it", "ja", "zh"];
    for v in voices::voices().iter() {
        assert!(validos.contains(&v.language), "idioma inválido: {}", v.language);
    }
}

#[test]
fn voice_download_fetches_config_then_model() {
    let d = voices::download("/m", "it_IT-riccardo-x_low").unwrap();
    assert_eq!(
        d.config_url,
        "https://huggingface.co/rhasspy/piper-voices/resolve/main/it/it_IT/riccardo/x_low/it_IT-riccardo-x_low.onnx.json"
    );
    assert_eq!(d.config_file, "/m/it_IT-riccardo-x_low.onnx.json");
    assert!(d.model_url.ends_with("it_IT-riccardo-x_low.onnx"));
    assert_eq!(d.model_file, "/m/it_IT-riccardo-x_low.onnx");
    assert_eq!(voices::download("/m", "nope").unwrap_err(), "Voz desconocida: nope");
}

#[test]
fn model_path_es_el_subdirectorio_nllb() {
    let path = translate_engine::model_path("/tmp/modelos");
    assert!(Path::new(&path).ends_with(MODEL_DIR));
}

#[test]
fn is_downloaded_exige_todos_los_archivos() {
    let files = translate_engine::model_files("/tmp/m");
    assert_eq!(files.len(), 5);
    assert_eq!(files[0], "/tmp/m/nllb-200-distilled-600M/onnx/encoder_model_quantized.onnx");
    assert!(!translate_engine::is_downloaded(&vec![false; 5]));
    assert!(!translate_engine::is_downloaded(&vec![true, true, true, true, false]));
    assert!(translate_engine::is_downloaded(&vec![true; 5]));
    let info = translate_engine::list("/tmp/m", true).into_iter().next().unwrap();
    assert!(info.downloaded);
    assert!(info.path.is_some());
    assert_eq!(info.id, MODEL_DIR);
}

#[test]
fn nllb_code_mapea_iso_corto_a_flores() {
    assert_eq!(nllb_code("es").unwrap(), "spa_Latn");
    assert_eq!(nllb_code("en").unwrap(), "eng_Latn");
    assert_eq!(nllb_code("zh").unwrap(), "zho_Hans");
    assert!(nllb_code("xx").is_err());
}

#[test]
fn nllb_code_error_names_the_language() {
    assert_eq!(
        nllb_code("xx").unwrap_err(),
        "El motor NLLB no tiene mapeado el idioma «xx»."
    );
}

#[test]
fn engine_download_totals_declared_sizes() {
    let d = translate_engine::download("/m");
    assert_eq!(d.jobs.len(), 5);
    assert_eq!(d.grand_total, 887_000_000);
    assert_eq!(
        d.jobs[2].0,
        "https://huggingface.co/Xenova/nllb-200-distilled-600M/resolve/main/tokenizer.json"
    );
    assert_eq!(d.jobs[2].1, "/m/nllb-200-distilled-600M/tokenizer.json");
    assert_eq!(translate_engine::overall_progress(10, 5, 100), 15);
    assert_eq!(translate_engine::overall_progress(90, 50, 100), 100);
}

#[test]
fn greedy_decoder_stops_at_end_of_sequence() {
    assert_eq!(translate_engine::ids_budget(3), 22);
    assert_eq!(translate_engine::generation_cap(3), 22);
    assert_eq!(translate_engine::generation_cap(500), 256);
    let mut d = translate_engine::GreedyDecoder::new(2, 7, 1);
    assert_eq!(d.input(), &vec![2, 7]);
    assert!(d.wants_step());
    d.feed(40);
    d.feed(41);
    assert_eq!(d.input(), &vec![2, 7, 40, 41]);
    d.feed(2);
    assert!(!d.wants_step());
    assert_eq!(d.generated(), &vec![40, 41]);
}

#[test]
fn greedy_decoder_stops_at_its_cap() {
    let mut d = translate_engine::GreedyDecoder::new(2, 7, 0);
    let mut steps = 0;
    while d.wants_step() {
        d.feed(5);
        steps += 1;
    }
    assert_eq!(steps, 16);
    assert_eq!(d.generated().len(), 16);
}

#[test]
fn source_ids_frame_the_text() {
    assert_eq!(translate_engine::source_ids(9, &[4, 5], 2), vec![9, 4, 5, 2]);
    assert_eq!(
        translate_engine::tensor_err("x"),
        "No se pudo construir un tensor del decoder: x"
    );
}

#[test]
fn lang_desde_locale() {
    assert_eq!(lang_from_locale("es-ES"), "es");
    assert_eq!(lang_from_locale("pt-BR"), "pt");
    assert_eq!(lang_from_locale("en"), "en");
    assert_eq!(lang_from_locale(""), "");
}

fn record(short: Option<&str>, locale: Option<&str>) -> VoiceRecord {
    VoiceRecord {
        short_name: short.map(|s| s.to_string()),
        locale: locale.map(|s| s.to_string()),
        gender: Some("Female".to_string()),
        friendly_name: None,
    }
}

#[test]
fn edge_voices_are_named_and_sorted() {
    let records = vec![
        record(Some("fr-FR-DeniseNeural"), Some("fr-FR")),
        record(None, Some("xx-XX")),
        record(Some("es-ES-AlvaroNeural"), Some("es-ES")),
        record(Some("en-US-AriaNeural"), None),
    ];
    let vs = edge_voices(&records);
    let names: Vec<&str> = vs.iter().map(|v| v.short_name.as_str()).collect();
    assert_eq!(names, vec!["en-US-AriaNeural", "es-ES-AlvaroNeural", "fr-FR-DeniseNeural"]);
    assert_eq!(vs[0].locale, "");
    assert_eq!(vs[1].language, "es");
    assert_eq!(vs[2].gender, "Female");
    assert_eq!(vs[2].friendly_name, "");
    assert!(to_edge_voice(&records[1]).is_none());
    assert_eq!(find_voice(&records, "es-ES-AlvaroNeural").unwrap(), 2);
    assert_eq!(find_voice(&records, "zz").unwrap_err(), "Voz edge-tts desconocida: zz");
}

#[test]
fn edge_voices_with_one_name_keep_their_listed_order() {
    let mut records = vec![
        record(Some("b-Voice"), Some("first")),
        record(Some("a-Voice"), Some("x")),
        record(Some("b-Voice"), Some("second")),
        record(Some("b-Voice"), Some("third")),
    ];
    records[2].gender = Some("Male".to_string());
    let vs = edge_voices(&records);
    let seen: Vec<(&str, &str)> = vs.iter().map(|v| (v.short_name.as_str(), v.locale.as_str())).collect();
    assert_eq!(seen, vec![("a-Voice", "x"), ("b-Voice", "first"), ("b-Voice", "second"), ("b-Voice", "third")]);
    assert_eq!(vs[2].gender, "Male");
}

#[test]
fn motor_se_deserializa_desde_los_nombres_de_la_ui() {
    assert_eq!(Engine::from_name("piper"), Some(Engine::Piper));
    assert_eq!(Engine::from_name("edge-tts"), Some(Engine::Edge));
    assert!(Engine::from_name("xtts").is_none());
    assert_eq!(Engine::Edge.name(), "edge-tts");
}

#[test]
fn synth_piper_falla_si_la_voz_no_esta_descargada() {
    let err = piper_voice_files("/tmp/m", "es_ES-sharvard-medium", false).unwrap_err();
    assert!(err.contains("no está descargada"), "mensaje: {err}");
    let (m, c) = piper_voice_files("/tmp/m", "es_ES-sharvard-medium", true).unwrap();
    assert_eq!(m, "/tmp/m/es_ES-sharvard-medium.onnx");
    assert_eq!(c, "/tmp/m/es_ES-sharvard-medium.onnx.json");
}

#[test]
fn leer_wav_rechaza_formato_distinto() {
    // stereo at 44.1 kHz is refused
    let e = loquazx::transcribe::check_audio_format(2, 44100, 16).unwrap_err();
    assert_eq!(
        e,
        "El audio no está en WAV 16 kHz mono 16 bits (44100 Hz, 2 canales, 16 bits). Vuelve a extraer el audio del video."
    );
    assert!(loquazx::transcribe::check_audio_format(1, 16000, 16).is_ok());
}

#[test]
fn transcribir_falla_sin_modelo() {
    let error = loquazx::transcribe::missing_model_message("/tmp/no-existe.bin");
    assert!(error.contains("modelo"));
}

#[test]
fn recognized_text_is_trimmed_or_dropped() {
    assert_eq!(loquazx::transcribe::recognized_text(Ok("  hola  ".to_string())).as_deref(), Some("hola"));
    assert_eq!(loquazx::transcribe::recognized_text(Ok(" \n".to_string())), None);
    assert_eq!(loquazx::transcribe::recognized_text(Err("utf8".to_string())).as_deref(), Some("[texto ilegible: utf8]"));
}

#[test]
fn pages_in_effect_keep_and_clamp() {
    assert_eq!(loquazx::presentacion::pages_in_effect(&vec![None, Some(3), None, Some(99), Some(0)], 5), vec![1, 3, 3, 5, 1]);
    assert_eq!(loquazx::presentacion::pages_in_effect(&vec![], 2), Vec::<u32>::new());
}

#[test]
fn delete_quita_el_modelo_y_es_idempotente() {
    // the file is there: deleting removes it
    let first = models::delete("/tmp/store", "base", true).unwrap();
    assert_eq!(first.as_deref(), Some("/tmp/store/ggml-base.bin"));
    // deleting again, with the file gone, removes nothing and does not fail
    assert_eq!(models::delete("/tmp/store", "base", false).unwrap(), None);
    assert_eq!(
        models::delete("/tmp/store", "huge", true).unwrap_err(),
        "Nivel de modelo desconocido: huge"
    );
}

#[test]
fn tokenizer_results_are_read_exactly() {
    assert_eq!(translate_engine::vocabulary_result(Some(7), "</s>"), Ok(7));
    assert_eq!(
        translate_engine::vocabulary_result(None, "spa_Latn").unwrap_err(),
        "El tokenizer NLLB no conoce el token «spa_Latn»."
    );
    assert_eq!(translate_engine::encoded_input(Ok(vec![10, 11]), 3, 2).unwrap(), vec![3, 10, 11, 2]);
    assert_eq!(
        translate_engine::encoded_input(Err("boom".into()), 3, 2).unwrap_err(),
        "No se pudo tokenizar el segmento: boom"
    );
    assert_eq!(translate_engine::decoded_output(Ok("  Hola mundo \n".into())).unwrap(), "Hola mundo");
    assert_eq!(
        translate_engine::decoded_output(Err("x".into())).unwrap_err(),
        "No se pudo detokenizar la traducción: x"
    );
}

#[test]
fn engine_output_counts_translated_and_failed() {
    let request = loquazx::translation::build_request(
        "es",
        "en",
        &[
            loquazx::project::Segment {
                id: "a".into(),
                start: loquazx::time::Seconds::from_bits(0),
                end: loquazx::time::Seconds::from_bits(0),
                source: "Hola".into(),
                translation: String::new(),
                slide: None,
            },
            loquazx::project::Segment {
                id: "b".into(),
                start: loquazx::time::Seconds::from_bits(0),
                end: loquazx::time::Seconds::from_bits(0),
                source: " ".into(),
                translation: String::new(),
                slide: None,
            },
        ],
    );
    assert!(translate_engine::needs_engine("Hola"));
    assert!(!translate_engine::needs_engine(" "));
    let (answers, report) = translate_engine::collect_output(&request, vec!["Hello".into(), String::new()]);
    assert_eq!(answers[0].id, "a");
    assert_eq!(answers[1].translation, "");
    assert_eq!((report.translated, report.failed), (1, 1));
}
