use annas_kobo::jobs::after_conversion;
use annas_kobo::kepub::{conversion_result, convert_epub, kepubify_plan};

#[test]
fn kepub_plan_names_the_twin_beside_the_book() {
    assert_eq!(
        kepubify_plan("/tmp/annas-kobo/Dune - Frank Herbert.epub"),
        Ok(Some((
            "/tmp/annas-kobo/Dune - Frank Herbert.kepub.epub".to_string(),
            "/tmp/annas-kobo/Dune - Frank Herbert.kepub.epub.part".to_string()
        )))
    );
    assert_eq!(
        kepubify_plan("Book.EPUB"),
        Ok(Some(("Book.kepub.epub".to_string(), "Book.kepub.epub.part".to_string())))
    );
    assert_eq!(kepubify_plan("/b/Book.KEPUB.epub"), Ok(None));
    assert_eq!(kepubify_plan("/b/notes.pdf"), Err("not an .epub file".to_string()));
    assert_eq!(kepubify_plan("/"), Err("no file name".to_string()));
}

#[test]
fn conversion_errors_are_reported() {
    assert!(convert_epub(b"not a zip archive").is_err());
    assert_eq!(conversion_result(Ok(vec![1, 2])), Ok(vec![1, 2]));
    assert_eq!(conversion_result(Err("bad zip".into())), Err("kepub conversion failed: bad zip".to_string()));
}

#[test]
fn a_failed_conversion_keeps_the_plain_epub() {
    assert_eq!(after_conversion("/b/x.epub", Ok("/b/x.kepub.epub".into())), ("/b/x.kepub.epub".to_string(), None));
    assert_eq!(
        after_conversion("/b/x.epub", Err("kepub conversion failed: bad".into())),
        ("/b/x.epub".to_string(), Some("kept as plain EPUB: kepub conversion failed: bad".to_string()))
    );
}
