use annas_kobo::annas::Book;
use annas_kobo::requests::{
    disposition_for, download_book, form_number, form_of, import_note, last_lines, mime_for, route,
    route_of, served_name, settings_form, value, Method, Poll, Route, SearchBoard, SeenBooks,
};
use annas_kobo::web::SearchOutcome;

fn pairs(v: &[(&str, &str)]) -> Vec<(String, String)> {
    v.iter().map(|(k, v)| (k.to_string(), v.to_string())).collect()
}

fn book(md5: &str, title: &str) -> Book {
    Book { md5: md5.to_string(), title: title.to_string(), ..Default::default() }
}

#[test]
fn form_pairs_are_decoded() {
    let p = form_of("a=1&&b=x+y%21&c&d=e=f");
    assert_eq!(p, pairs(&[("a", "1"), ("b", "x y!"), ("c", ""), ("d", "e=f")]));
    assert!(form_of("").is_empty());
}

#[test]
fn the_last_value_of_a_field_counts() {
    let p = pairs(&[("msg", "a"), ("n", "2"), ("msg", "b")]);
    assert_eq!(value(&p, "msg"), Some("b".to_string()));
    assert_eq!(value(&p, "x"), None);
    assert_eq!(route(Method::Get, "/?msg=a&msg=b"), Route::Home("b".into()));
}

#[test]
fn get_routes() {
    assert_eq!(route(Method::Get, "/health"), Route::Health);
    assert_eq!(route(Method::Get, "/log"), Route::Log);
    assert_eq!(route(Method::Get, "/syslog?n=5"), Route::Syslog(5));
    assert_eq!(route(Method::Get, "/syslog?n=five"), Route::Syslog(300));
    assert_eq!(route(Method::Get, "/syslog"), Route::Syslog(300));
    assert_eq!(route(Method::Get, "/"), Route::Home(String::new()));
    assert_eq!(route(Method::Get, "/?msg=hi%20there"), Route::Home("hi there".into()));
    assert_eq!(
        route(Method::Get, "/search?q=+dune+messiah+&ext=epub"),
        Route::Search("dune messiah".into(), "epub".into())
    );
    assert_eq!(route(Method::Get, "/search?q=dune"), Route::Search("dune".into(), String::new()));
    assert_eq!(route(Method::Get, "/search?q=%20%20&ext=pdf"), Route::Redirect("/".into()));
    assert_eq!(route(Method::Get, "/search"), Route::Redirect("/".into()));
    assert_eq!(route(Method::Get, "/jobs"), Route::Jobs(false));
    assert_eq!(route(Method::Get, "/jobs?import=1"), Route::Jobs(true));
    assert_eq!(route(Method::Get, "/file/12"), Route::File(12));
    assert_eq!(route(Method::Get, "/file/12/Dune.epub"), Route::File(12));
    assert_eq!(route(Method::Get, "/file//file/7"), Route::File(7));
    assert_eq!(route(Method::Get, "/file/abc"), Route::File(0));
    assert_eq!(route(Method::Get, "/settings"), Route::Settings(false));
    assert_eq!(route(Method::Get, "/settings?saved=1"), Route::Settings(true));
    assert_eq!(route(Method::Get, "/nowhere"), Route::NotFound);
    assert_eq!(route(Method::Get, "/download"), Route::NotFound);
}

#[test]
fn post_routes() {
    assert_eq!(route(Method::Post, "/download"), Route::Download);
    assert_eq!(route(Method::Post, "/jobs/retry"), Route::Retry);
    assert_eq!(route(Method::Post, "/jobs/clear"), Route::Clear);
    assert_eq!(route(Method::Post, "/import"), Route::Import);
    assert_eq!(route(Method::Post, "/settings"), Route::SaveSettings);
    assert_eq!(route(Method::Post, "/quit"), Route::Quit);
    assert_eq!(route(Method::Post, "/health"), Route::NotFound);
    assert_eq!(route(Method::Other, "/health"), Route::NotFound);
    assert_eq!(route_of(Method::Post, "/quit?x=1", &[]), Route::Quit);
}

#[test]
fn settings_form_from_pairs() {
    let f = settings_form(&pairs(&[
        ("secret_key", " k "),
        ("base_url", "https://annas.example/"),
        ("search_source", "libgen"),
        ("max_results", "7"),
        ("deliver", "folder"),
        ("kepubify", "1"),
    ]));
    assert_eq!(f.secret_key.as_deref(), Some(" k "));
    assert_eq!(f.base_url.as_deref(), Some("https://annas.example/"));
    assert_eq!(f.libgen_url, None);
    assert_eq!(f.search_source.as_deref(), Some("libgen"));
    assert_eq!(f.download_dir, None);
    assert_eq!(f.max_results.as_deref(), Some("7"));
    assert_eq!(f.deliver.as_deref(), Some("folder"));
    assert!(f.kepubify);
    assert!(!f.auto_import);
}

#[test]
fn form_numbers() {
    let p = pairs(&[("id", "42"), ("x", "no")]);
    assert_eq!(form_number(&p, "id"), 42);
    assert_eq!(form_number(&p, "x"), 0);
    assert_eq!(form_number(&p, "y"), 0);
}

#[test]
fn download_book_choice() {
    let seen = book("0123456789abcdef0123456789abcdef", "Dune");
    let b = download_book("0123456789abcdef0123456789abcdef", Some(seen)).unwrap();
    assert_eq!(b.title, "Dune");
    let b = download_book("0123456789ABCDEF0123456789abcdef", None).unwrap();
    assert_eq!(b.md5, "0123456789ABCDEF0123456789abcdef");
    assert_eq!(b.title, "0123456789ABCDEF0123456789abcdef");
    assert!(b.authors.is_empty() && b.format.is_empty());
    assert!(download_book("not-an-md5", None).is_none());
    assert!(download_book("", None).is_none());
}

#[test]
fn import_notes() {
    assert_eq!(import_note(false, &None), "");
    assert_eq!(import_note(true, &None), "Asked Nickel to rescan the library.");
    assert_eq!(import_note(true, &Some(Ok(5))), "Asked Nickel to rescan the library.");
    assert_eq!(
        import_note(true, &Some(Err("not running on a Kobo".into()))),
        "Last import attempt failed: not running on a Kobo"
    );
}

#[test]
fn serving_a_book() {
    assert_eq!(served_name("/tmp/annas-kobo/Dune.kepub.epub"), "Dune.kepub.epub");
    assert_eq!(served_name("Dune.pdf"), "Dune.pdf");
    assert_eq!(served_name("/"), "");
    assert_eq!(mime_for("A.PDF"), "application/pdf");
    assert_eq!(mime_for("a.kepub.epub"), "application/epub+zip");
    assert_eq!(mime_for("a.mobi"), "application/octet-stream");
    assert_eq!(
        disposition_for("Caf\u{e9} \"au\" lait.epub"),
        "attachment; filename=\"Cafe _au_ lait.epub\"; filename*=UTF-8''Caf%C3%A9%20%22au%22%20lait.epub"
    );
}

#[test]
fn seen_books_keep_the_latest_by_md5() {
    let mut seen = SeenBooks::new();
    seen.remember_all(&[book("aa", "First"), book("bb", "B"), book("aa", "Second")]);
    assert_eq!(seen.find("aa").unwrap().title, "Second");
    assert_eq!(seen.find("bb").unwrap().title, "B");
    assert!(seen.find("cc").is_none());
    seen.remember(book("bb", "B2"));
    assert_eq!(seen.find("bb").unwrap().title, "B2");
}

fn outcome(n: usize) -> SearchOutcome {
    SearchOutcome {
        books: (0..n).map(|i| book(&format!("{i:032}"), "T")).collect(),
        source: "LibGen (libgen.li)".into(),
        note: String::new(),
    }
}

#[test]
fn search_board_starts_waits_and_shows() {
    let mut board = SearchBoard::new();
    assert!(matches!(board.poll("dune", "epub", 1000), Poll::Started));
    assert!(matches!(board.poll("dune", "epub", 4500), Poll::Waiting(3)));
    assert!(matches!(board.poll("dune", "pdf", 4500), Poll::Started));
    board.finish("dune", "epub", 9000, Ok(outcome(2)));
    match board.poll("dune", "epub", 10000) {
        Poll::Ready(o) => {
            assert_eq!(o.books.len(), 2);
            assert_eq!(o.source, "LibGen (libgen.li)");
        }
        other => panic!("{other:?}"),
    }
    assert!(matches!(board.poll("dune", "epub", 9000 + 599_999), Poll::Ready(_)));
    assert!(matches!(board.poll("dune", "epub", 9000 + 600_000), Poll::Started));
}

#[test]
fn search_board_forgets_stale_and_failed_searches() {
    let mut board = SearchBoard::new();
    assert!(matches!(board.poll("q", "", 0), Poll::Started));
    assert!(matches!(board.poll("q", "", 299_999), Poll::Waiting(299)));
    assert!(matches!(board.poll("q", "", 300_000), Poll::Started));
    board.finish("q", "", 301_000, Err("no LibGen mirror reachable".into()));
    match board.poll("q", "", 302_000) {
        Poll::Failed(e) => assert_eq!(e, "no LibGen mirror reachable"),
        other => panic!("{other:?}"),
    }
    assert!(matches!(board.poll("q", "", 302_000), Poll::Started));
}

fn std_tail(text: &str, n: usize) -> String {
    let lines: Vec<&str> = text.lines().rev().take(n).collect::<Vec<_>>().into_iter().rev().collect();
    lines.join("\n")
}

#[test]
fn log_excerpts() {
    assert_eq!(last_lines("a\nb\r\nc\n", 2), "b\nc");
    assert_eq!(last_lines("", 5), "");
    assert_eq!(last_lines("x", 0), "");
    assert_eq!(last_lines("a\r", 1), "a\r");
    assert_eq!(last_lines("a\n\nb", 5), "a\n\nb");
    for text in ["", "\n", "\n\n", "one", "one\n", "one\r\ntwo\r\n", "a\rb\nc", "x\n\ny\n\n", "\r\n\r"] {
        for n in 0..5 {
            assert_eq!(last_lines(text, n), std_tail(text, n), "{text:?} {n}");
        }
    }
}
