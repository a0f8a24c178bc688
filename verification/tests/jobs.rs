use annas_kobo::annas::Book;
use annas_kobo::config::Config;
use annas_kobo::jobs::{busy_note, fast_failed_note, plain_epub_note, NO_SOURCE};
use annas_kobo::jobs::{
    ascii_name, check_received, file_base, kepub_twin, mirror_suspect, numbered_file, pick_ext,
    should_convert, too_small_message, JobChange, Jobs, MirrorStep, MirrorWalk, Received, State,
};

fn book(md5: &str, title: &str) -> Book {
    Book { md5: md5.to_string(), title: title.to_string(), ..Default::default() }
}

#[test]
fn states_and_labels() {
    assert!(State::Queued.active() && State::Converting.active());
    assert!(!State::Done.active() && !State::Failed.active());
    assert_eq!(State::Resolving.label(), "finding a download link");
    assert_eq!(State::Converting.label(), "converting to kepub");
}

#[test]
fn enqueue_twice_gives_the_same_job() {
    let mut j = Jobs::new("cache".into());
    let a = j.enqueue(book("aa", "A"), 1);
    let b = j.enqueue(book("aa", "A"), 2);
    assert_eq!(a, b);
    assert_eq!(j.snapshot().len(), 1);
    let c = j.enqueue(book("bb", "B"), 3);
    assert_eq!(c, a + 1);
    assert_eq!(j.active_count(), 2);
    let snap = j.snapshot();
    assert_eq!(snap[0].id, c);
    assert_eq!(snap[1].id, a);
    assert_eq!(j.get(c).unwrap().state, State::Queued);
    assert!(j.get(99).is_none());
}

#[test]
fn failed_job_can_be_retried_and_done_job_is_handed_out_once() {
    let mut j = Jobs::new("cache".into());
    let a = j.enqueue(book("aa", "A"), 1);
    let b = j.enqueue(book("bb", "B"), 1);
    assert!(!j.retry(a));
    j.update(a, JobChange::Bytes(10));
    j.finish(a, Err("every mirror failed".into()));
    assert_eq!(j.get(a).unwrap().detail, "every mirror failed");
    assert!(j.retry(a));
    let ja = j.get(a).unwrap();
    assert_eq!(ja.state, State::Queued);
    assert_eq!(ja.bytes, 0);
    assert_eq!(ja.detail, "");
    j.finish(b, Ok("/tmp/b.epub".into()));
    let t = j.take_undelivered().unwrap();
    assert_eq!(t.id, b);
    assert!(t.delivered);
    assert!(j.take_undelivered().is_none());
    // the job for the same md5 is not active any more: a new one is made
    let b2 = j.enqueue(book("bb", "B"), 5);
    assert_ne!(b2, b);
}

#[test]
fn clearing_keeps_active_jobs_and_returns_files() {
    let mut j = Jobs::new("cache".into());
    let a = j.enqueue(book("aa", "A"), 1);
    let b = j.enqueue(book("bb", "B"), 1);
    let c = j.enqueue(book("cc", "C"), 1);
    j.finish(a, Ok("cache/a.epub".into()));
    j.finish(c, Err("x".into()));
    let removed = j.clear_finished();
    assert_eq!(removed, vec!["cache/a.epub".to_string()]);
    assert_eq!(j.active_count(), 1);
    assert_eq!(j.snapshot()[0].id, b);
}

#[test]
fn import_is_due_once_per_batch() {
    let mut j = Jobs::new("cache".into());
    let mut cfg = Config::defaults(false);
    cfg.deliver = "folder".into();
    let a = j.enqueue(book("aa", "A"), 1);
    assert!(!j.maybe_import(&cfg, true));
    j.finish(a, Ok("x.epub".into()));
    assert!(!j.maybe_import(&cfg, false));
    assert!(j.maybe_import(&cfg, true));
    assert!(!j.maybe_import(&cfg, true));
    j.set_last_import(Err("qndb failed".into()));
    assert_eq!(j.last_import(), Some(Err("qndb failed".to_string())));
}

#[test]
fn ascii_names() {
    assert_eq!(ascii_name("Čapek – Válka s mloky.epub"), "Capek - Valka s mloky.epub");
    assert_eq!(ascii_name("Straße \"quoted\" \\ “x” ‘y’ 日"), "Strasse _quoted_ _ x 'y' _");
    assert_eq!(ascii_name("Œuvres æ"), "OEuvres ae");
}

#[test]
fn file_bases() {
    let mut b = book("4a702054b356e7ed5364318bc954c99c", " Dune: Messiah? ");
    b.authors = "Frank  Herbert".into();
    assert_eq!(file_base(&b), "Dune Messiah - Frank Herbert");
    let b = book("4a702054b356e7ed5364318bc954c99c", " ... ");
    assert_eq!(file_base(&b), "4a702054b356e7ed5364318bc954c99c");
    let long = "x".repeat(79) + " y";
    let b = book("m", &long);
    assert_eq!(file_base(&b), "x".repeat(79));
}

#[test]
fn extensions() {
    let mut b = book("m", "t");
    b.format = "PDF".into();
    assert_eq!(pick_ext(&b, "https://x/a.epub", None), "pdf");
    b.format = "".into();
    assert_eq!(pick_ext(&b, "https://x/a.EPUB?x=1", Some("attachment; filename=\"book.MOBI\"")), "mobi");
    assert_eq!(pick_ext(&b, "https://x/a.djvu#top", Some("inline")), "djvu");
    assert_eq!(pick_ext(&b, "https://x/get.php", None), "epub");
}

#[test]
fn twins_and_numbered_names() {
    assert_eq!(kepub_twin("/b/Dune.epub"), "/b/Dune.kepub.epub");
    assert_eq!(kepub_twin("/b/Dune.pdf"), "/b/Dune.pdf");
    assert_eq!(numbered_file("Dune", "epub", 0), "Dune.epub");
    assert_eq!(numbered_file("Dune", "epub", 12), "Dune (12).epub");
}

#[test]
fn download_checks() {
    match check_received(10, Some(20)) {
        Received::Short(m) => assert_eq!(m, "short download: 10 of 20 bytes"),
        _ => panic!(),
    }
    assert!(matches!(check_received(100, None), Received::TooSmall));
    assert!(matches!(check_received(5000, Some(5000)), Received::Complete));
    assert_eq!(too_small_message(12, "<html>"), "server sent 12 bytes instead of a book: <html>");
    assert!(mirror_suspect("h sent something that is not the API JSON (HTTP 200): x"));
    assert!(mirror_suspect("io: reset"));
    assert!(!mirror_suspect("Anna's Archive: Invalid key"));
    let cfg = Config::defaults(true);
    assert!(should_convert("epub", &cfg));
    assert!(!should_convert("pdf", &cfg));
}

#[test]
fn mirror_walk_runs_three_rounds() {
    let mut w = MirrorWalk::new(vec!["a".into(), "b".into()]);
    let mut steps = Vec::new();
    while let Some(s) = w.next_step() {
        steps.push(match s {
            MirrorStep::Pause(n) => format!("pause {n}"),
            MirrorStep::Try(h) => h,
        });
    }
    assert_eq!(steps, vec!["a", "b", "pause 2", "a", "b", "pause 3", "a", "b"]);
    assert!(w.failed("a", "download server answered HTTP 500").is_none());
    assert!(w.failed("a", "download server answered HTTP 500").is_none());
    assert!(w.failed("b", "b answered HTTP 502 for the download page").is_none());
    assert_eq!(
        w.give_up(),
        "every mirror failed (a: HTTP 500; b: b answered HTTP 502). Tap Retry in a minute."
    );
    assert_eq!(w.failed("b", "b has no download link for x").unwrap(), "b has no download link for x");
}

#[test]
fn download_notes() {
    assert_eq!(fast_failed_note("Anna's Archive: invalid key"), "Anna's: Anna's Archive: invalid key; using LibGen");
    assert_eq!(busy_note(2), "mirrors busy, retrying (round 2)");
    assert_eq!(busy_note(3), "mirrors busy, retrying (round 3)");
    assert_eq!(plain_epub_note("bad zip"), "kept as plain EPUB: bad zip");
    assert_eq!(NO_SOURCE, "no download source reachable");
}

#[test]
fn ascii_names_are_plain_and_stable() {
    let r = ascii_name("Ærø \"Ωmega\" \\ naïve\u{2013}ok");
    assert_eq!(r, "AEro _Omega_ _ naive-ok".replace("Omega", "_mega"));
    assert!(r.chars().all(|c| c.is_ascii() && c != '"' && c != '\\'));
    assert_eq!(ascii_name(&r), r);
    assert_eq!(ascii_name("plain name.epub"), "plain name.epub");
}

#[test]
fn file_bases_are_fat_safe() {
    let mut b = book("0123456789abcdef0123456789abcdef", " ..<Dune>: \"Messiah\"?  ");
    b.authors = "  Frank   Herbert. ".into();
    let f = file_base(&b);
    assert_eq!(f, "Dune Messiah - Frank Herbert");
    let b = book("0123456789abcdef0123456789abcdef", "...");
    assert_eq!(file_base(&b), "0123456789abcdef0123456789abcdef");
}
