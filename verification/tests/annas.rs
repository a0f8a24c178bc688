use annas_kobo::annas::parse_search;

#[test]
fn parses_result_block() {
    let html = r#"<div class="flex"><a href="/md5/4a702054b356e7ed5364318bc954c99c" class="custom-a block"><img></a>
          <div class="max-w-full"><a href="/md5/4a702054b356e7ed5364318bc954c99c">Dreamer of Dune</a>
          <div class="text-gray-800">✅ English [en] · EPUB · 0.7MB · 2003 · Tor</div>
          <a href="/search?q=Brian"><span class="icon-[mdi--user-edit]"></span>Brian Herbert</a>
          <a href="/search?q=Tor"><span class="icon-[mdi--company]"></span>Tor Books</a></div></div>"#;
    let b = parse_search(html);
    assert_eq!(b.len(), 1);
    assert_eq!(b[0].title, "Dreamer of Dune");
    assert_eq!(b[0].format, "EPUB");
    assert_eq!(b[0].size, "0.7 MB");
    assert_eq!(b[0].language, "English");
    assert_eq!(b[0].year, "2003");
    assert_eq!(b[0].authors, "Brian Herbert");
    assert_eq!(b[0].publisher, "Tor Books");
}

use annas_kobo::annas::{
    clean, fast_download_answer, fast_download_request, is_challenge, is_md5, search, search_url,
    Book, FastDownload, SearchError,
};
use annas_kobo::net::Page;

fn page(status: u16, body: &str) -> Page {
    Page { status, url: String::new(), body: body.to_string() }
}

#[test]
fn md5_needs_32_hex_digits() {
    assert!(is_md5("4a702054b356e7ed5364318bc954c99c"));
    assert!(is_md5("4A702054B356E7ED5364318BC954C99C"));
    assert!(!is_md5("4a702054b356e7ed5364318bc954c99"));
    assert!(!is_md5("4a702054b356e7ed5364318bc954c99g"));
    assert!(!is_md5(""));
}

#[test]
fn clean_collapses_whitespace() {
    assert_eq!(clean("  Dreamer \n\t of   Dune "), "Dreamer of Dune");
    assert_eq!(clean(""), "");
    assert_eq!(clean("\u{a0}a\u{3000}b"), "a b");
}

#[test]
fn search_url_lowercases_ext() {
    assert_eq!(
        search_url("annas-archive.gl", "dune herbert", "EPUB"),
        "https://annas-archive.gl/search?q=dune+herbert&content=book_any&ext=epub"
    );
    assert_eq!(
        search_url("annas-archive.gl", "é", ""),
        "https://annas-archive.gl/search?q=%C3%A9&content=book_any"
    );
}

#[test]
fn challenge_detection() {
    assert!(is_challenge(&page(403, "DDoS-Guard")));
    assert!(is_challenge(&page(503, "js-challenge")));
    assert!(!is_challenge(&page(200, "DDoS-Guard")));
    assert!(is_challenge(&page(200, "x ddos-guard/js-challenge y")));
    assert!(!is_challenge(&page(200, "ddos-guard/js-challenge /md5/abc")));
}

#[test]
fn search_outcomes() {
    match search("h.example", Ok(page(403, "DDoS-Guard")), 5) {
        Err(SearchError::Blocked(h)) => assert_eq!(h, "h.example"),
        _ => panic!("expected blocked"),
    }
    match search("h.example", Ok(page(500, "")), 5) {
        Err(SearchError::Failed(e)) => assert_eq!(e, "h.example answered HTTP 500"),
        _ => panic!("expected failure"),
    }
    match search("h.example", Err("io: reset".into()), 5) {
        Err(e) => assert_eq!(e.message(), "io: reset"),
        _ => panic!("expected failure"),
    }
    assert_eq!(
        SearchError::Blocked("h".into()).message(),
        "h requires a browser check for search pages"
    );
    let r = search("h.example", Ok(page(200, "<p>no results</p>")), 5).ok().unwrap();
    assert!(r.is_empty());
}

#[test]
fn fast_download_request_checks_md5_and_key() {
    assert_eq!(fast_download_request("h", "zz", "k").unwrap_err(), "not an md5: zz");
    assert_eq!(
        fast_download_request("h", "4a702054b356e7ed5364318bc954c99c", "  ").unwrap_err(),
        "no Anna's Archive membership key set"
    );
    assert_eq!(
        fast_download_request("h", "4a702054b356e7ed5364318bc954c99c", " a b ").unwrap(),
        "https://h/dyn/api/fast_download.json?md5=4a702054b356e7ed5364318bc954c99c&key=a+b"
    );
}

#[test]
fn fast_download_answers() {
    let ok = FastDownload { download_url: Some("https://x/f".into()), error: None };
    assert_eq!(fast_download_answer("h", 200, Ok(ok)).unwrap(), "https://x/f");
    let empty = FastDownload { download_url: Some(String::new()), error: Some("Invalid key".into()) };
    assert_eq!(fast_download_answer("h", 200, Ok(empty)).unwrap_err(), "Anna's Archive: Invalid key");
    let none = FastDownload { download_url: None, error: None };
    assert_eq!(
        fast_download_answer("h", 404, Ok(none)).unwrap_err(),
        "Anna's Archive: no download URL (HTTP 404)"
    );
    assert_eq!(
        fast_download_answer("h", 502, Err("expected value".into())).unwrap_err(),
        "h sent something that is not the API JSON (HTTP 502): expected value"
    );
}

#[test]
fn duplicate_links_are_skipped_and_blocks_found_higher_up() {
    let html = r#"<div><a href="/md5/4a702054b356e7ed5364318bc954c99c">One</a>
      <div>English [en] · PDF · 12.5 kb · 1999</div></div>
      <div><a href="/md5/4a702054b356e7ed5364318bc954c99c">One again</a><div>English [en] · PDF · 1MB</div></div>
      <div><a href="/md5/bbbbbbbbbbbbbbbbbbbbbbbbbbbbbbbb">No meta</a></div>
      <div><a href="/md5/nothex">Bad</a><div>x · EPUB</div></div>"#;
    let b = annas_kobo::annas::parse_search(html);
    // "No meta" climbs to <body>, whose text holds the first metadata line.
    assert_eq!(b.len(), 2);
    assert_eq!(b[1].md5, "bbbbbbbbbbbbbbbbbbbbbbbbbbbbbbbb");
    assert_eq!(b[1].format, "PDF");
    assert_eq!(b[0].title, "One");
    assert_eq!(b[0].format, "PDF");
    assert_eq!(b[0].size, "12.5 KB");
    assert_eq!(b[0].year, "1999");
    assert_eq!(b[0].source, "Anna's Archive");
    assert_eq!(b[0].authors, "");
    let d = Book::default();
    assert_eq!(d.md5, "");
}

#[test]
fn clean_collapses_whitespace_once_and_for_all() {
    use_clean_cases();
}

fn use_clean_cases() {
    for s in ["  Brian \t Herbert\n", "", " \u{a0} ", "a", "x  y z "] {
        let r = annas_kobo::annas::clean(s);
        assert_eq!(r, s.split_whitespace().collect::<Vec<_>>().join(" "));
        assert_eq!(annas_kobo::annas::clean(&r), r);
        assert!(!r.starts_with(' ') && !r.ends_with(' ') && !r.contains("  "));
    }
}
