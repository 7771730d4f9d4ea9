use lekhani_latex::preview::{
    decode_failure_message, parse_page_count, render_failure_message, renderer_args, PreviewEvent, PreviewViewer,
    RenderFailure, RenderPlan,
};

fn strings(v: &[&str]) -> Vec<String> {
    v.iter().map(|s| s.to_string()).collect()
}

#[test]
fn new_viewer_is_empty() {
    let v = PreviewViewer::new();
    assert_eq!(v.page(), 0);
    assert_eq!(v.num_pages(), None);
    assert_eq!(v.image_size(), None);
    assert!(!v.pan_mode());
    assert!(v.render_error().is_none());
    assert!(v.last_pdf_path().is_none());
    assert!(v.renderer().is_none());
}

#[test]
fn render_plans() {
    let mut v = PreviewViewer::new();
    let p = v.ensure_page_rendered("/tmp/a.pdf", 0, Some("mutool".to_string()), Some(3));
    assert!(matches!(p, RenderPlan::Start(ref t) if t == "mutool"));
    assert_eq!(v.last_pdf_path(), Some("/tmp/a.pdf"));
    assert_eq!(v.renderer(), Some("mutool"));
    assert_eq!(v.num_pages(), Some(3));
    // in progress: nothing more to do
    assert!(matches!(v.ensure_page_rendered("/tmp/a.pdf", 0, None, None), RenderPlan::Nothing));
    // the renderer and page count found first are kept
    let p = v.ensure_page_rendered("/tmp/a.pdf", 5, Some("gs".to_string()), Some(9));
    assert!(matches!(p, RenderPlan::NoSuchPage(ref m) if m == "Page 6 does not exist (PDF has 3 pages)"));
    let p = v.ensure_page_rendered("/tmp/a.pdf", 1, None, None);
    assert!(matches!(p, RenderPlan::Start(ref t) if t == "mutool"));
}

#[test]
fn no_renderer_is_unsupported() {
    let mut v = PreviewViewer::new();
    let p = v.ensure_page_rendered("/tmp/a.pdf", 0, None, Some(2));
    assert!(matches!(p, RenderPlan::Unsupported));
    assert_eq!(v.num_pages(), None);
    assert_eq!(v.last_pdf_path(), Some("/tmp/a.pdf"));
}

#[test]
fn unknown_page_count_allows_any_page() {
    let mut v = PreviewViewer::new();
    let p = v.ensure_page_rendered("/tmp/a.pdf", 40, Some("pdftoppm".to_string()), None);
    assert!(matches!(p, RenderPlan::Start(_)));
    assert!(v.has_next_page());
}

#[test]
fn poll_records_images_and_errors() {
    let mut v = PreviewViewer::new();
    v.ensure_page_rendered("/tmp/a.pdf", 0, Some("gs".to_string()), Some(2));
    assert!(v.poll(None).is_none());
    v.poll(Some(PreviewEvent::Error("bad".to_string())));
    assert_eq!(v.render_error(), Some("bad"));
    v.poll(Some(PreviewEvent::NewImage(0, 600, 800)));
    assert_eq!(v.image_size(), Some((600, 800)));
    assert!(v.render_error().is_none());
    v.poll(Some(PreviewEvent::NewImage(1, 10, 10)));
    assert_eq!(v.image_size(), Some((600, 800)));
    // a rendered page is not asked for again
    assert!(matches!(v.ensure_page_rendered("/tmp/a.pdf", 0, None, None), RenderPlan::Nothing));
    v.poll(Some(PreviewEvent::Unsupported));
    assert_eq!(
        v.render_error(),
        Some("No PDF renderer found.\nInstall mupdf-tools (mutool), Ghostscript (gs), or poppler (pdftoppm)\nfor an embedded preview.")
    );
}

#[test]
fn reset_and_page_navigation() {
    let mut v = PreviewViewer::new();
    v.ensure_page_rendered("/tmp/a.pdf", 0, Some("gs".to_string()), Some(2));
    v.poll(Some(PreviewEvent::NewImage(0, 1, 1)));
    assert!(v.next_page());
    assert_eq!(v.page(), 1);
    assert!(!v.has_next_page());
    assert!(!v.next_page());
    assert!(v.previous_page());
    assert!(!v.previous_page());
    v.set_page(1);
    v.reset_for_new_pdf();
    assert_eq!(v.page(), 0);
    assert_eq!(v.num_pages(), None);
    let p = v.ensure_page_rendered("/tmp/b.pdf", 0, None, Some(4));
    assert!(matches!(p, RenderPlan::Start(_)));
    assert_eq!(v.num_pages(), Some(4));
}

#[test]
fn page_count_from_pdfinfo() {
    assert_eq!(parse_page_count("Title: x\nPages:          12\nEncrypted: no\n"), Some(12));
    assert_eq!(parse_page_count("Title: x\n"), None);
    assert_eq!(parse_page_count("Pages: abc\nPages: 3\n"), None);
    assert_eq!(parse_page_count("  Pages: 3\n"), None);
    assert_eq!(parse_page_count("Pages: +7"), Some(7));
}

#[test]
fn renderer_command_lines() {
    assert_eq!(
        renderer_args("mutool", 150, 0, "/tmp/o.png", "/tmp/a.pdf", "/tmp/o"),
        Some(strings(&["draw", "-r", "150", "-o", "/tmp/o.png", "/tmp/a.pdf", "1"]))
    );
    assert_eq!(
        renderer_args("gs", 150, 2, "/tmp/o.png", "/tmp/a.pdf", "/tmp/o"),
        Some(strings(&[
            "-dNOPAUSE",
            "-dBATCH",
            "-sDEVICE=png16m",
            "-r150",
            "-dFirstPage=3",
            "-dLastPage=3",
            "-sOutputFile=/tmp/o.png",
            "/tmp/a.pdf",
        ]))
    );
    assert_eq!(
        renderer_args("pdftoppm", 72, 9, "/tmp/o.png", "/tmp/a.pdf", "/tmp/o"),
        Some(strings(&["-f", "10", "-l", "10", "-r", "72", "-png", "-singlefile", "/tmp/a.pdf", "/tmp/o"]))
    );
    assert_eq!(renderer_args("evince", 150, 0, "o", "i", "s"), None);
}

#[test]
fn render_failure_messages() {
    assert_eq!(
        render_failure_message("mutool", "/usr/bin/mutool", RenderFailure::Failed("  bad page \n".to_string())),
        "/usr/bin/mutool draw failed: bad page"
    );
    assert_eq!(
        render_failure_message("gs", "gs", RenderFailure::Failed("oops".to_string())),
        "gs failed: oops"
    );
    assert_eq!(
        render_failure_message("pdftoppm", "/opt/pdftoppm", RenderFailure::Failed("x".to_string())),
        "pdftoppm failed: x"
    );
    assert_eq!(
        render_failure_message("mudraw", "mudraw", RenderFailure::CouldNotStart("denied".to_string())),
        "Failed to run mudraw: denied"
    );
    assert_eq!(
        render_failure_message("pdftoppm", "/opt/pdftoppm", RenderFailure::CouldNotStart("denied".to_string())),
        "Failed to run pdftoppm: denied"
    );
    assert_eq!(
        render_failure_message("evince", "evince", RenderFailure::UnknownRenderer),
        "Unknown renderer: evince"
    );
    assert_eq!(decode_failure_message("truncated"), "Failed to decode rendered image: truncated");
}

#[test]
fn requested_pages_are_known() {
    let mut v = PreviewViewer::new();
    assert!(!v.is_requested(0));
    let _ = v.ensure_page_rendered("/tmp/a.pdf", 0, Some("mutool".to_string()), Some(3));
    assert!(v.is_requested(0));
    assert!(!v.is_requested(1));
    let _ = v.ensure_page_rendered("/tmp/a.pdf", 7, None, None);
    assert!(!v.is_requested(7));
}
