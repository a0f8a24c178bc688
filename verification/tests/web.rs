use annas_kobo::annas::{Book, SearchError};
use annas_kobo::config::Config;
use annas_kobo::slum::Resolver;
use annas_kobo::web::{SearchAction, SearchRun};

fn book(t: &str) -> Book {
    Book { title: t.into(), md5: "m".into(), ..Default::default() }
}

#[test]
fn annas_results_come_first() {
    let cfg = Config::defaults(false);
    let mut r = Resolver::new();
    let (mut run, a) = SearchRun::start(&cfg, &r, 0);
    assert!(matches!(a, SearchAction::AskAnnas));
    assert_eq!(run.max(), 20);
    match run.annas_done(&mut r, 0, "annas-archive.gl", Ok(vec![book("A")])) {
        SearchAction::Finished(Ok(o)) => {
            assert_eq!(o.source, "Anna's Archive (annas-archive.gl)");
            assert_eq!(o.books.len(), 1);
            assert_eq!(o.note, "");
        }
        _ => panic!(),
    }
}

#[test]
fn browser_check_falls_back_to_libgen_and_is_remembered() {
    let cfg = Config::defaults(false);
    let mut r = Resolver::new();
    let (mut run, _) = SearchRun::start(&cfg, &r, 0);
    let a = run.annas_done(&mut r, 0, "h", Err(SearchError::Blocked("h".into())));
    assert!(matches!(a, SearchAction::AskLibgenHosts));
    assert_eq!(r.annas_blocked_for(120_000), Some(2));
    match run.libgen_hosts(&mut r, vec!["l1".into(), "l2".into()]) {
        SearchAction::TryLibgen(h) => assert_eq!(h, "l1"),
        _ => panic!(),
    }
    match run.libgen_done(&mut r, 5, "l1", Err("timeout".into())) {
        SearchAction::TryLibgen(h) => assert_eq!(h, "l2"),
        _ => panic!(),
    }
    match run.libgen_done(&mut r, 5, "l2", Ok(vec![book("B")])) {
        SearchAction::Finished(Ok(o)) => {
            assert_eq!(o.source, "LibGen (l2)");
            assert_eq!(o.note, "h needs a browser check for its search pages right now, so these come from LibGen. Same files, same md5s.");
        }
        _ => panic!(),
    }
    assert_eq!(r.current().1.as_deref(), Some("l2"));
    // the next search skips Anna's
    let (_, a) = SearchRun::start(&cfg, &r, 60_000);
    assert!(matches!(a, SearchAction::AskLibgenHosts));
}

#[test]
fn annas_only_does_not_fall_back() {
    let mut cfg = Config::defaults(false);
    cfg.search_source = "annas".into();
    let mut r = Resolver::new();
    let (mut run, _) = SearchRun::start(&cfg, &r, 0);
    match run.annas_done(&mut r, 0, "h", Err(SearchError::Failed("h answered HTTP 500".into()))) {
        SearchAction::Finished(Err(e)) => assert_eq!(e, "h answered HTTP 500"),
        _ => panic!(),
    }
}

#[test]
fn all_libgen_hosts_failing_reports_the_last_error() {
    let mut cfg = Config::defaults(false);
    cfg.search_source = "libgen".into();
    cfg.max_results = 0;
    let mut r = Resolver::new();
    r.set_libgen("x", 0);
    let (mut run, a) = SearchRun::start(&cfg, &r, 0);
    assert!(matches!(a, SearchAction::AskLibgenHosts));
    assert_eq!(run.max(), 1);
    let hosts: Vec<String> = (1..=6).map(|i| format!("l{i}")).collect();
    let mut a = run.libgen_hosts(&mut r, hosts);
    let mut tried = 0;
    loop {
        match a {
            SearchAction::TryLibgen(h) => {
                tried += 1;
                a = run.libgen_done(&mut r, 0, &h, Err("HTTP 500".into()));
            }
            SearchAction::Finished(Err(e)) => {
                assert_eq!(e, "l4: HTTP 500");
                break;
            }
            _ => panic!(),
        }
    }
    assert_eq!(tried, 4);
    assert_eq!(r.current().1, None);
    let (mut run, _) = SearchRun::start(&cfg, &r, 0);
    match run.libgen_hosts(&mut r, vec![]) {
        SearchAction::Finished(Err(e)) => assert_eq!(e, "no LibGen mirror reachable"),
        _ => panic!(),
    }
}

#[test]
fn a_run_keeps_at_most_the_wanted_number_of_results() {
    let mut cfg = Config::defaults(false);
    cfg.max_results = 2;
    let mut r = Resolver::new();
    let (mut run, _) = SearchRun::start(&cfg, &r, 0);
    match run.annas_done(&mut r, 0, "h", Ok(vec![book("A"), book("B"), book("C")])) {
        SearchAction::Finished(Ok(o)) => {
            assert_eq!(o.books.len(), 2);
            assert_eq!(o.books[1].title, "B");
        }
        _ => panic!(),
    }
    cfg.search_source = "libgen".into();
    let (mut run, _) = SearchRun::start(&cfg, &r, 0);
    run.libgen_hosts(&mut r, vec!["l1".into()]);
    match run.libgen_done(&mut r, 0, "l1", Ok(vec![book("A"), book("B"), book("C")])) {
        SearchAction::Finished(Ok(o)) => assert_eq!(o.books.len(), 2),
        _ => panic!(),
    }
}
