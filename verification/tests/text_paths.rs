use loquazx::audio::{ffmpeg_failure, ffmpeg_missing_message};
use loquazx::download::{partial_path, DownloadProgress};
use loquazx::paths::{extension, file_name, join};
use loquazx::presentacion::{concat_file_line, page_count_from_pdfinfo, page_rename_plan, slide_image};
use loquazx::text::{decimal_string, parse_u32, sort_texts, trim_chars, IntErrorKind};
use loquazx::time::Seconds;

#[test]
fn paths_join_and_split_like_std() {
    assert_eq!(join("/a", "b"), "/a/b");
    assert_eq!(join("/a/", "b"), "/a/b");
    assert_eq!(join("/a", "/b"), "/b");
    assert_eq!(file_name("/a/b.tar.gz").as_deref(), Some("b.tar.gz"));
    assert_eq!(file_name("/a/.."), None);
    assert_eq!(extension("/a/b.tar.gz").as_deref(), Some("gz"));
    assert_eq!(extension("/a/.hidden"), None);
}

#[test]
fn numbers_are_read_and_written_like_std() {
    assert_eq!(decimal_string(0), "0");
    assert_eq!(decimal_string(18446744073709551615), "18446744073709551615");
    assert_eq!(parse_u32(&['+', '7']), Ok(7));
    assert_eq!(parse_u32(&[]), Err(IntErrorKind::Empty));
    assert_eq!(parse_u32(&['4', '2', '9', '4', '9', '6', '7', '2', '9', '6']), Err(IntErrorKind::PosOverflow));
    let t: String = trim_chars(&[' ', 'x', '\t']).into_iter().collect();
    assert_eq!(t, "x");
}

#[test]
fn seconds_compare_as_doubles() {
    let s = |v: f64| Seconds::from_bits(v.to_bits());
    assert!(s(-0.0).le(s(0.0)));
    assert!(s(0.0).le(s(-0.0)));
    assert!(s(-2.0).le(s(-1.0)));
    assert!(!s(1.0).le(s(-1.0)));
    assert!(!s(f64::NAN).le(s(1.0)));
    assert!(!s(f64::INFINITY).is_finite());
    assert!(s(1e300).is_finite());
}

#[test]
fn ffmpeg_messages_keep_the_last_lines() {
    assert!(ffmpeg_missing_message().starts_with("ffmpeg no está instalado"));
    let stderr = "l1\nl2\r\nl3\nl4\nl5\nl6\n";
    assert_eq!(ffmpeg_failure("extraer el audio", stderr), "ffmpeg falló al extraer el audio:\nl2\nl3\nl4\nl5\nl6");
    assert_eq!(ffmpeg_failure("x", ""), "ffmpeg falló al x:\n");
}

#[test]
fn pdfinfo_page_count_is_read() {
    assert_eq!(page_count_from_pdfinfo("Title: x\npages:   12 \nPages: 3\n"), Ok(12));
    assert_eq!(
        page_count_from_pdfinfo("Pages: doce\n").unwrap_err(),
        "No se pudo leer el conteo de páginas: invalid digit found in string"
    );
    assert_eq!(
        page_count_from_pdfinfo("Pages\n").unwrap_err(),
        "No se pudo leer el conteo de páginas: cannot parse integer from empty string"
    );
    assert_eq!(
        page_count_from_pdfinfo("Title: x\n").unwrap_err(),
        "pdfinfo no reportó el conteo de páginas."
    );
}

#[test]
fn rasterized_pages_are_renamed_in_order() {
    let entries = vec![
        "/o/page-10.png".to_string(),
        "/o/notes.txt".to_string(),
        "/o/page-01.PNG".to_string(),
        "/o/page-02.png".to_string(),
    ];
    let plan = page_rename_plan("/o", &entries, 3).ok().unwrap();
    assert_eq!(plan[0].from, "/o/page-01.PNG");
    assert_eq!(plan[2].from, "/o/page-10.png");
    assert_eq!(plan[1].temporary, "/o/.rename-2.tmp");
    assert_eq!(plan[2].to, "/o/page-3.png");
    assert_eq!(
        page_rename_plan("/o", &entries, 4).err().unwrap(),
        "pdftoppm generó 3 páginas pero el PDF dice 4."
    );
    let sorted = sort_texts(&vec!["b".to_string(), "a".to_string(), "ab".to_string()]);
    assert_eq!(sorted, vec!["a", "ab", "b"]);
}

#[test]
fn slide_images_and_concat_lines() {
    assert_eq!(slide_image("/p", 2), "/p/slides/pages/page-2.png");
    assert_eq!(concat_file_line("/it's", 1), "file '/it'\\''s/page-1.png'\n");
}

#[test]
fn downloads_report_every_four_mebibytes() {
    assert_eq!(partial_path("/m/x.onnx").unwrap(), "/m/x.onnx.part");
    assert_eq!(partial_path("/m/..").unwrap_err(), "Ruta de descarga inválida.");
    let mut p = DownloadProgress::new();
    assert!(p.finish().is_err());
    assert_eq!(p.record(1024), None);
    assert_eq!(p.record(4 * 1024 * 1024), Some(4 * 1024 * 1024 + 1024));
    assert_eq!(p.record(10), None);
    assert_eq!(p.finish(), Ok(4 * 1024 * 1024 + 1034));
}
