use annas_kobo::libgen::{download_url, parse_search, search, search_url};
use annas_kobo::net::Page;

#[test]
fn parses_row() {
    let html = r#"<table id="tablelibgen"><tbody><tr>
        <td><a href="edition.php?id=1">Dreamer of Dune <i></i></a><br><a href="edition.php?id=1"><i><font color="green"> 9781429958448</font></i></a></td>
        <td><a href="author.php?id=354895">Herbert, Brian(Author)</a></td><td>Tor</td><td><nobr>2003</nobr></td>
        <td>English</td><td>0</td><td><nobr><a href="/file.php?id=9">704 kB</a></nobr></td><td>epub</td>
        <td><a href="/ads.php?md5=4a702054b356e7ed5364318bc954c99c">1</a></td></tr></tbody></table>"#;
    let b = parse_search(html);
    assert_eq!(b.len(), 1);
    assert_eq!(b[0].title, "Dreamer of Dune");
    assert_eq!(b[0].authors, "Herbert, Brian");
    assert_eq!(b[0].format, "EPUB");
    assert_eq!(b[0].size, "704 kB");
    assert_eq!(b[0].md5, "4a702054b356e7ed5364318bc954c99c");
}

fn page(status: u16, body: &str) -> Page {
    Page { status, url: String::new(), body: body.to_string() }
}

const ROWS: &str = r#"<table class="table"><tbody>
<tr><td><a href="x">A Book</a></td><td>Someone</td><td>P</td><td>2001</td><td>English</td><td>0</td><td>1 MB</td><td>pdf</td><td><a href="/book/AAAAAAAAAAAAAAAAAAAAAAAAAAAAAAAA">d</a></td></tr>
<tr><td><a href="x">B Book</a></td><td>Other</td><td>P</td><td>2002</td><td>English</td><td>0</td><td>2 MB</td><td>epub</td><td><a href="ads.php?md5=bbbbbbbbbbbbbbbbbbbbbbbbbbbbbbbb">d</a></td></tr>
<tr><td><a href="x">B again</a></td><td>Other</td><td>P</td><td>2002</td><td>English</td><td>0</td><td>2 MB</td><td>epub</td><td><a href="ads.php?md5=bbbbbbbbbbbbbbbbbbbbbbbbbbbbbbbb">d</a></td></tr>
<tr><td><a href="x">Short row</a></td><td>x</td></tr>
</tbody></table>"#;

#[test]
fn book_links_give_lower_case_md5_and_duplicates_drop() {
    let b = parse_search(ROWS);
    assert_eq!(b.len(), 2);
    assert_eq!(b[0].md5, "aaaaaaaaaaaaaaaaaaaaaaaaaaaaaaaa");
    assert_eq!(b[0].source, "LibGen");
    assert_eq!(b[1].title, "B Book");
}

#[test]
fn search_filters_by_format_and_truncates() {
    let r = search("libgen.li", Ok(page(200, ROWS)), "EPUB", 10).unwrap();
    assert_eq!(r.len(), 1);
    assert_eq!(r[0].title, "B Book");
    let r = search("libgen.li", Ok(page(200, ROWS)), "", 1).unwrap();
    assert_eq!(r.len(), 1);
    assert_eq!(r[0].title, "A Book");
}

#[test]
fn search_reports_http_status_and_fetch_error() {
    assert_eq!(search("libgen.li", Ok(page(503, "")), "", 5).unwrap_err(), "libgen.li answered HTTP 503");
    assert_eq!(search("libgen.li", Err("timeout".into()), "", 5).unwrap_err(), "timeout");
}

#[test]
fn search_url_encodes_query() {
    let u = search_url("libgen.li", "dune herbert&co");
    assert!(u.starts_with("https://libgen.li/index.php?req=dune+herbert%26co&columns%5B%5D=t"));
    assert!(u.ends_with("&res=25&filesuns=all"));
}

#[test]
fn download_url_finds_get_link() {
    let body = r#"<a href="get.php?md5=abc&amp;key=XYZ">GET</a>"#;
    let u = download_url("libgen.li", "4a702054b356e7ed5364318bc954c99c", Ok(page(200, body))).unwrap();
    assert_eq!(u, "https://libgen.li/get.php?md5=abc&key=XYZ");
    let body = r#"<a href="https://cdn.example/get.php?md5=abc&key=1">GET</a>"#;
    let u = download_url("libgen.li", "x", Ok(page(200, body))).unwrap();
    assert_eq!(u, "https://cdn.example/get.php?md5=abc&key=1");
}

#[test]
fn download_url_errors() {
    let e = download_url("libgen.li", "abc", Ok(page(200, "<p>nothing</p>"))).unwrap_err();
    assert_eq!(e, "libgen.li has no download link for abc (file not on LibGen?)");
    let e = download_url("libgen.li", "abc", Ok(page(404, ""))).unwrap_err();
    assert_eq!(e, "libgen.li answered HTTP 404 for the download page");
    let e = annas_kobo::libgen::download_page("libgen.li", "xyz").unwrap_err();
    assert_eq!(e, "not an md5: xyz");
    let u = annas_kobo::libgen::download_page("libgen.li", "4a702054b356e7ed5364318bc954c99c").unwrap();
    assert_eq!(u, "https://libgen.li/ads.php?md5=4a702054b356e7ed5364318bc954c99c");
}
