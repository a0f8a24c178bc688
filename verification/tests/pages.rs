use annas_kobo::annas::Book;
use annas_kobo::config::Config;
use annas_kobo::jobs::{Job, State};
use annas_kobo::pages::{error, home, human, jobs, layout, results, search_form, searching, settings, CSS};

fn book(title: &str, authors: &str, publisher: &str, year: &str) -> Book {
    Book {
        title: title.to_string(),
        authors: authors.to_string(),
        publisher: publisher.to_string(),
        year: year.to_string(),
        md5: "0123456789abcdef0123456789abcdef".to_string(),
        ..Default::default()
    }
}

fn job(id: u64, title: &str, state: State) -> Job {
    Job {
        id,
        book: Book { title: title.to_string(), ..Default::default() },
        state,
        detail: String::new(),
        bytes: 0,
        total: None,
        path: None,
        created: 0,
        delivered: false,
    }
}

#[test]
fn layout_frames_the_body() {
    let page = layout("Café & co", "<meta x>", 0, "BODY");
    let expected = format!(
        "<!DOCTYPE html><html><head><meta charset=\"utf-8\"><meta name=\"viewport\" content=\"width=device-width, initial-scale=1\"><title>Café &amp; co</title><style>{CSS}</style><meta x></head><body><div class=\"top\"><a class=\"brand\" href=\"/\">Anna's Kobo</a><a href=\"/\">Search</a><a href=\"/jobs\">Downloads</a><a href=\"/settings\">Settings</a></div>BODY</body></html>"
    );
    assert_eq!(page, expected);
    assert!(CSS.starts_with("\nbody{font-family:Georgia,serif;"));
    assert!(CSS.ends_with("vertical-align:top}\n"));
}

#[test]
fn layout_counts_active_downloads() {
    let page = layout("t", "", 3, "");
    assert!(page.contains("<a href=\"/jobs\">Downloads (3)</a>"));
}

#[test]
fn error_page_escapes_title_and_message() {
    let page = error("A<b>", "x & \"y\"", 0);
    assert!(page.contains("<title>A&lt;b&gt;</title>"));
    assert!(page.contains(
        "<h1>A&lt;b&gt;</h1><div class=\"box\">x &amp; \"y\"</div><p><a class=\"btn\" href=\"/\">Back</a></p></body>"
    ));
}

#[test]
fn search_form_marks_the_chosen_format() {
    let f = search_form("dune <2>", "pdf");
    assert_eq!(
        f,
        "<form method=\"get\" action=\"/search\"><input type=\"text\" name=\"q\" value=\"dune &lt;2&gt;\" placeholder=\"Title, author, ISBN\" autofocus><select name=\"ext\"><option value=\"\">Any format</option><option value=\"epub\">EPUB</option><option value=\"pdf\" selected>PDF</option><option value=\"mobi\">MOBI</option><option value=\"azw3\">AZW3</option><option value=\"cbz\">CBZ</option></select><button type=\"submit\">Search</button></form>"
    );
}

#[test]
fn results_list_books_with_meta_and_tags() {
    let mut b = book("Dune", "Frank Herbert", "", "1965");
    b.format = "EPUB".into();
    b.size = "1.2 MB".into();
    let page = results("dune", "epub", "LibGen (libgen.li)", "a note", &[b], 1);
    assert!(page.contains("<title>dune - Anna's Kobo</title>"));
    assert!(page.contains("<h2>1 result for \u{201c}dune\u{201d} via LibGen (libgen.li)</h2>"));
    assert!(page.contains("<div class=\"box muted\">a note</div>"));
    assert!(page.contains(
        "<div class=\"book\"><div class=\"title\">Dune</div><div class=\"meta\">Frank Herbert \u{00b7} 1965</div><div><span class=\"tag b\">EPUB</span><span class=\"tag\">1.2 MB</span></div><form method=\"post\" action=\"/download\" style=\"margin-top:8px\"><input type=\"hidden\" name=\"md5\" value=\"0123456789abcdef0123456789abcdef\"><button type=\"submit\">Download</button></form></div>"
    ));
    assert!(!page.contains("Nothing found"));
}

#[test]
fn results_count_and_empty_list() {
    let two = results("q", "", "S", "", &[book("A", "", "", ""), book("B", "x", "y", "z")], 0);
    assert!(two.contains("<h2>2 results for"));
    assert!(two.contains("<div class=\"meta\">x \u{00b7} y \u{00b7} z</div>"));
    assert!(two.contains("<div class=\"meta\"></div>"));
    assert!(!two.contains("box muted\">"));
    let none = results("q", "", "S", "", &[], 0);
    assert!(none.contains("<h2>0 results for"));
    assert!(none.contains("<p>Nothing found. Try fewer words, or another format.</p>"));
}

#[test]
fn searching_page_reloads_the_search() {
    let page = searching("dune messiah", "epub", 0, false, 0);
    assert!(page.contains(
        "<meta http-equiv=\"refresh\" content=\"3;url=/search?q=dune+messiah&amp;ext=epub\"></head>"
    ));
    assert!(page.contains("<title>Searching - Anna's Kobo</title>"));
    assert!(page.contains(
        "<h1>Searching for \u{201c}dune messiah\u{201d}</h1><div class=\"box\">Contacting the library\u{2026}</div><p class=\"muted\">This page refreshes by itself. <a href=\"/search?q=dune+messiah&amp;ext=epub\">Refresh now</a> \u{00b7} <a href=\"/\">Cancel</a></p>"
    ));
}

#[test]
fn searching_page_hints() {
    assert!(searching("q", "", 7, false, 0).contains("Picking a mirror from open-slum.org\u{2026} 7 s"));
    assert!(searching("q", "", 7, true, 0).contains("Waiting for the library\u{2026} 7 s"));
    assert!(searching("q", "", 30, false, 0).contains("Waiting for the library\u{2026} 30 s"));
    assert!(searching("q", "", 45, true, 0).contains(
        "Still waiting (45 s). Mirrors are slow right now; this gives up after a minute or two."
    ));
    assert!(searching("a&b", "", 1, true, 0).contains("q=a%26b&amp;ext="));
}

#[test]
fn human_sizes() {
    assert_eq!(human(0), "0 B");
    assert_eq!(human(1023), "1023 B");
    assert_eq!(human(1024), "1 KB");
    assert_eq!(human(1048575), "1023 KB");
    assert_eq!(human(1048576), "1.0 MB");
    assert_eq!(human(734003), "716 KB");
    assert_eq!(human(10 * 1048576 - 1), "10.0 MB");
    assert_eq!(human(u64::MAX), "17592186044416.0 MB");
}

#[test]
fn human_megabytes_round_like_float_formatting() {
    let samples: [u64; 12] = [
        1048576,
        1310720,
        1835008,
        1153434,
        1153433,
        2621440,
        3 * 1048576 + 104857,
        5 * 1048576 + 52428,
        5 * 1048576 + 52429,
        123456789,
        987654321012,
        (1u64 << 52) + 12345,
    ];
    for n in samples {
        assert_eq!(human(n), format!("{:.1} MB", n as f64 / (1u64 << 20) as f64), "{n}");
    }
}

#[test]
fn jobs_page_shows_progress_and_actions() {
    let mut d = job(4, "Dune", State::Downloading);
    d.bytes = 524288;
    d.total = Some(1048576);
    let mut e = job(3, "Emma", State::Downloading);
    e.bytes = 2048;
    let mut f = job(2, "Faust", State::Failed);
    f.detail = "no mirror <worked>".into();
    let mut g = job(1, "Gilgamesh", State::Done);
    g.path = Some("/tmp/annas-kobo/Gilgamesh.epub".into());
    let page = jobs(&[d, e, f, g], 2, "", false, true, true, None);
    assert!(page.contains("<meta http-equiv=\"refresh\" content=\"3\"></head>"));
    assert!(page.contains(
        "<div class=\"meta\">downloading 512 KB of 1.0 MB (50%)</div><div class=\"bar\"><div style=\"width:50%\"></div></div></div>"
    ));
    assert!(page.contains("<div class=\"meta\">downloading 2 KB</div></div>"));
    assert!(page.contains(
        "<div class=\"muted\">no mirror &lt;worked&gt;</div><form method=\"post\" action=\"/jobs/retry\" style=\"margin-top:8px\"><input type=\"hidden\" name=\"id\" value=\"2\"><button type=\"submit\">Retry</button></form></div>"
    ));
    assert!(page.contains(
        "<div class=\"meta\">done: Gilgamesh.epub</div><p><a class=\"btn\" href=\"/file/1\">Add to library</a></p></div>"
    ));
    assert!(page.contains("Finished books are handed to the Kobo browser (tap Continue)."));
    assert!(!page.contains("Import into library now"));
    assert!(page.contains("Downloads (2)</a>"));
}

#[test]
fn jobs_page_hands_a_book_to_the_browser() {
    let mut g = job(7, "Gilgamesh & co", State::Done);
    g.delivered = true;
    let page = jobs(&[g], 0, "Asked Nickel to rescan the library.", false, false, true, Some(7));
    assert!(page.contains("<meta http-equiv=\"refresh\" content=\"1;url=/file/7\"></head>"));
    assert!(page.contains("<div class=\"box\">Sending \u{201c}Gilgamesh &amp; co\u{201d} to your library\u{2026} Tap Continue"));
    assert!(page.contains("tap <a href=\"/file/7\">Add to library</a>.</div><div class=\"box\">Asked Nickel to rescan the library.</div>"));
    assert!(page.contains("Add to library again</a>"));
    assert!(!page.contains("Finished books are handed"));
}

#[test]
fn jobs_page_empty_and_folder_mode() {
    let page = jobs(&[], 0, "", true, true, false, None);
    assert!(page.contains("<p>Nothing yet. Search for a book and tap Download.</p>"));
    assert!(page.contains("<form method=\"post\" action=\"/import\" class=\"inline\"><button type=\"submit\">Import into library now</button></form> <form method=\"post\" action=\"/jobs/clear\""));
    assert!(page.contains("imported automatically when the queue is empty"));
    assert!(!page.contains("http-equiv"));
    let manual = jobs(&[], 0, "", false, true, false, None);
    assert!(manual.contains("<p class=\"muted\">To see finished books in your library, connect the Kobo to a computer and unplug it, add a NickelMenu entry `menu_item:main:Import books:nickel_misc:rescan_books`, or install NickelDBus for automatic import.</p>"));
    let off = jobs(&[], 0, "", false, false, false, None);
    assert!(off.ends_with("Clear finished</button></form></p></body></html>"));
}

#[test]
fn home_page_describes_the_setup() {
    let cfg = Config::defaults(false);
    let page = home(&cfg, 0, Some("annas-archive.gl".into()), None, "");
    assert!(page.contains("<title>Anna's Kobo</title>"));
    assert!(page.contains("<h1>Find a book</h1><form method=\"get\" action=\"/search\"><input type=\"text\" name=\"q\" value=\"\""));
    assert!(page.contains("<option value=\"epub\" selected>EPUB</option>"));
    assert!(page.contains("<tr><td>Anna's key</td><td>none, downloads use LibGen's free servers</td></tr>"));
    assert!(page.contains("<tr><td>Anna's mirror</td><td>annas-archive.gl (auto)</td></tr>"));
    assert!(page.contains("<tr><td>LibGen mirror</td><td>picked on first use</td></tr>"));
    assert!(page.contains("<tr><td>After download</td><td>added to the library through the browser</td></tr>"));
    assert!(page.contains("<tr><td>Kepub</td><td>convert EPUBs on download</td></tr></table></div><form method=\"post\" action=\"/quit\""));
    assert!(!page.contains("<div class=\"box\">"));
}

#[test]
fn home_page_with_fixed_mirror_and_folder() {
    let mut cfg = Config::defaults(true);
    cfg.secret_key = " key ".into();
    cfg.base_url = "annas.example".into();
    cfg.deliver = "folder".into();
    cfg.kepubify = false;
    let page = home(&cfg, 1, None, Some("libgen.li".into()), "Saved & done");
    assert!(page.contains("<div class=\"box\">Saved &amp; done</div><h1>Find a book</h1>"));
    assert!(page.contains("set, downloads use Anna's fast servers"));
    assert!(page.contains("annas.example (fixed in Settings)"));
    assert!(page.contains("libgen.li (auto)"));
    assert!(page.contains("saved to /mnt/onboard/Books"));
    assert!(page.contains("<td>Kepub</td><td>off</td>"));
    let none = home(&Config::defaults(false), 0, None, None, "");
    assert!(none.contains("picked from open-slum.org on first use"));
}

#[test]
fn settings_page_fills_the_form() {
    let mut cfg = Config::defaults(false);
    cfg.search_source = "libgen".into();
    cfg.auto_import = false;
    cfg.secret_key = "k\"1".into();
    let page = settings(&cfg, true, 0, "/data");
    assert!(page.contains("<title>Settings - Anna's Kobo</title>"));
    assert!(page.contains("<h1>Settings</h1><div class=\"box\">Saved.</div><form method=\"post\" action=\"/settings\">"));
    assert!(page.contains("name=\"secret_key\" value=\"k\"1\""));
    assert!(page.contains("<option value=\"auto\">Anna's Archive, LibGen if Anna's needs a browser check</option><option value=\"annas\">Anna's Archive only</option><option value=\"libgen\" selected>LibGen only</option>"));
    assert!(page.contains("<option value=\"browser\" selected>Add to the library through the Kobo browser (instant)</option><option value=\"folder\">"));
    assert!(page.contains("name=\"download_dir\" value=\"data/books\">"));
    assert!(page.contains("name=\"max_results\" value=\"20\">"));
    assert!(page.contains("name=\"kepubify\" id=\"k\" value=\"1\" checked> <label"));
    assert!(page.contains("name=\"auto_import\" id=\"a\" value=\"1\"> <label"));
    assert!(page.contains("<p class=\"muted\">Config file: /data/config.json \u{00b7} version 0.1.0</p></body>"));
    assert!(!settings(&cfg, false, 0, "/data").contains("Saved."));
}
