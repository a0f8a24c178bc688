use annas_kobo::config::Config;
use annas_kobo::jobs::{DownloadAction, DownloadRun};
use annas_kobo::slum::Resolver;

fn keyed(key: &str) -> Config {
    let mut c = Config::defaults(false);
    c.secret_key = key.to_string();
    c
}

fn try_host(a: &DownloadAction) -> Option<&str> {
    match a {
        DownloadAction::TryLibgen(h) => Some(h.as_str()),
        _ => None,
    }
}

#[test]
fn anna_is_asked_only_with_a_key() {
    assert!(matches!(DownloadRun::start(&keyed("")).1, DownloadAction::AskLibgenHosts));
    assert!(matches!(DownloadRun::start(&keyed("  ")).1, DownloadAction::AskLibgenHosts));
    assert!(matches!(DownloadRun::start(&keyed("k")).1, DownloadAction::AskAnnas));
}

#[test]
fn anna_failure_falls_back_to_libgen() {
    let mut res = Resolver::new();
    res.settle_annas(Some("annas.example".into()), 0);
    let (mut run, _) = DownloadRun::start(&keyed("k"));
    let (a, note) = run.annas_done(&mut res, Err("Anna's Archive: invalid key".into()));
    assert!(matches!(a, DownloadAction::AskLibgenHosts));
    assert_eq!(note.as_deref(), Some("Anna's: Anna's Archive: invalid key; using LibGen"));
    assert_eq!(res.current().0.as_deref(), Some("annas.example"));
    let (a, _) = run.annas_done(&mut res, Err("annas.example sent something that is not the API JSON (HTTP 502): x".into()));
    assert!(matches!(a, DownloadAction::AskLibgenHosts));
    assert_eq!(res.current().0, None);
    let (a, note) = run.annas_done(&mut res, Ok(()));
    assert!(matches!(a, DownloadAction::Stream));
    assert!(note.is_none());
}

#[test]
fn three_rounds_over_the_mirrors_then_give_up() {
    let mut res = Resolver::new();
    res.set_libgen("h1", 0);
    let (mut run, _) = DownloadRun::start(&keyed(""));
    let mut a = run.libgen_hosts(&mut res, vec!["h1".into(), "h2".into()]);
    let mut seen: Vec<String> = Vec::new();
    loop {
        match &a {
            DownloadAction::TryLibgen(h) => {
                seen.push(h.clone());
                let h = h.clone();
                let (next, note) = run.libgen_done(&mut res, &h, Err("download server answered HTTP 500".into()));
                assert!(note.is_none());
                a = next;
            }
            DownloadAction::Pause(n) => {
                seen.push(n.clone());
                a = run.next(&mut res);
            }
            _ => break,
        }
    }
    assert_eq!(
        seen,
        vec![
            "h1",
            "h2",
            "mirrors busy, retrying (round 2)",
            "h1",
            "h2",
            "mirrors busy, retrying (round 3)",
            "h1",
            "h2"
        ]
    );
    match a {
        DownloadAction::Fail(e) => {
            assert_eq!(e, "every mirror failed (h1: HTTP 500; h2: HTTP 500). Tap Retry in a minute.")
        }
        other => panic!("{other:?}"),
    }
    assert_eq!(res.current().1, None);
}

#[test]
fn at_most_five_mirrors_and_stops_when_the_file_is_missing() {
    let mut res = Resolver::new();
    let (mut run, _) = DownloadRun::start(&keyed(""));
    let hosts: Vec<String> = (1..=7).map(|i| format!("m{i}")).collect();
    let a = run.libgen_hosts(&mut res, hosts);
    assert_eq!(try_host(&a), Some("m1"));
    let (a, _) = run.libgen_done(&mut res, "m1", Err("m1 answered HTTP 404 for the download page".into()));
    assert_eq!(try_host(&a), Some("m2"));
    let (a, _) = run.libgen_done(&mut res, "m2", Err("m2 has no download link for x (file not on LibGen?)".into()));
    match a {
        DownloadAction::Fail(e) => assert_eq!(e, "m2 has no download link for x (file not on LibGen?)"),
        other => panic!("{other:?}"),
    }
    let (mut run, _) = DownloadRun::start(&keyed(""));
    let hosts: Vec<String> = (1..=7).map(|i| format!("m{i}")).collect();
    let mut a = run.libgen_hosts(&mut res, hosts);
    let mut tried = 0;
    while let DownloadAction::TryLibgen(h) = &a {
        tried += 1;
        let h = h.clone();
        a = run.libgen_done(&mut res, &h, Err("x".into())).0;
    }
    assert_eq!(tried, 5);
    assert!(matches!(a, DownloadAction::Pause(_)));
}

#[test]
fn a_working_mirror_streams_and_clears_the_note() {
    let mut res = Resolver::new();
    let (mut run, _) = DownloadRun::start(&keyed(""));
    let a = run.libgen_hosts(&mut res, vec!["h1".into()]);
    assert_eq!(try_host(&a), Some("h1"));
    let (a, note) = run.libgen_done(&mut res, "h1", Ok(()));
    assert!(matches!(a, DownloadAction::Stream));
    assert_eq!(note.as_deref(), Some(""));
    // With no mirror at all the walk still pauses before rounds two and
    // three, as the rounds do, then gives up.
    let (mut run, _) = DownloadRun::start(&keyed(""));
    match run.libgen_hosts(&mut res, Vec::new()) {
        DownloadAction::Pause(n) => assert_eq!(n, "mirrors busy, retrying (round 2)"),
        other => panic!("{other:?}"),
    }
    assert!(matches!(run.next(&mut res), DownloadAction::Pause(_)));
    match run.next(&mut res) {
        DownloadAction::Fail(e) => assert_eq!(e, "every mirror failed (). Tap Retry in a minute."),
        other => panic!("{other:?}"),
    }
}
