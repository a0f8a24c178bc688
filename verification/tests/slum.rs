use annas_kobo::slum::{next_probe, Probe};
use annas_kobo::config::Config;
use annas_kobo::net::Page;
use annas_kobo::slum::{candidates, fetch, parse, probe_annas, probe_libgen, Mirror, Resolver, Slum, Status};

#[test]
fn parses_flatmonitor_page() {
    let html = r##"
        <div class="site-card"><div class="site-card-header"><a href="annas.html" class="site-card-title">annas</a></div>
        <ul class="domain-list-dense">
          <li class="domain-item-dense"><a href="https://annas-archive.gl" class="domain-link">annas-archive.gl</a>
            <div class="status-col"><a href="#" class="status-badge compact degraded">DEGRADED</a></div></li>
          <li class="domain-item-dense"><a href="https://annas-archive.pk" class="domain-link">annas-archive.pk</a>
            <div class="status-col"><a href="#" class="status-badge compact up">UP</a></div></li>
        </ul></div>
        <div class="site-card"><a href="libgen.html" class="site-card-title">libgen</a>
        <ul><li class="domain-item-dense"><a href="https://libgen.li/" class="domain-link">libgen.li</a>
            <a class="status-badge compact protected">PROTECTED</a></li></ul></div>"##;
    let s = parse(html);
    assert_eq!(s.annas.len(), 2);
    assert_eq!(s.annas[0].host, "annas-archive.pk");
    assert_eq!(s.annas[0].status, Status::Up);
    assert_eq!(s.libgen[0].host, "libgen.li");
    assert_eq!(s.libgen[0].status, Status::Protected);
}

fn m(host: &str, status: Status) -> Mirror {
    Mirror { host: host.to_string(), status }
}

#[test]
fn candidates_skip_down_and_prefix_and_add_defaults_once() {
    let list = vec![
        m("a.example", Status::Up),
        m("down.example", Status::Down),
        m("software.annas.example", Status::Up),
        m("d2", Status::Unknown),
        m("a.example", Status::Degraded),
    ];
    let defaults = vec!["d1".to_string(), "d2".to_string()];
    let c = candidates(&list, &defaults, "software.");
    assert_eq!(c, vec!["a.example", "d2", "d1"]);
    let c = candidates(&list, &defaults, "");
    assert_eq!(c, vec!["a.example", "software.annas.example", "d2", "d1"]);
}

fn cfg() -> Config {
    Config::defaults(false)
}

#[test]
fn chosen_mirror_is_reused_for_thirty_minutes_and_forgotten_on_request() {
    let mut r = Resolver::new();
    let c = cfg();
    assert_eq!(r.annas_host(&c, 0), None);
    let h = r.settle_annas(Some("annas-archive.pk".into()), 1000);
    assert_eq!(h, "annas-archive.pk");
    assert_eq!(r.annas_host(&c, 1000 + 29 * 60 * 1000).as_deref(), Some("annas-archive.pk"));
    assert_eq!(r.annas_host(&c, 1000 + 30 * 60 * 1000), None);
    r.forget_annas();
    assert_eq!(r.annas_host(&c, 2000), None);
    assert_eq!(r.settle_annas(None, 5), "annas-archive.gl");
}

#[test]
fn settings_host_wins() {
    let r = Resolver::new();
    let mut c = cfg();
    c.base_url = " https://annas-archive.gd/ ".into();
    assert_eq!(r.annas_host(&c, 0).as_deref(), Some("annas-archive.gd"));
}

#[test]
fn libgen_candidates_rank_override_cache_then_list() {
    let mut r = Resolver::new();
    let mut c = cfg();
    r.set_libgen("libgen.vg", 0);
    let slum = Slum { annas: vec![], libgen: vec![m("libgen.bz", Status::Up), m("libgen.vg", Status::Up)] };
    let l = r.libgen_candidates(&c, &slum);
    assert_eq!(l, vec!["libgen.vg", "libgen.bz", "libgen.li", "libgen.la", "libgen.gl"]);
    c.libgen_url = "http://libgen.is/".into();
    let l = r.libgen_candidates(&c, &slum);
    assert_eq!(&l[..3], &["libgen.is", "libgen.vg", "libgen.bz"]);
    assert_eq!(r.current(), (None, Some("libgen.vg".to_string())));
}

#[test]
fn blocked_for_reports_minutes_for_six_hours() {
    let mut r = Resolver::new();
    assert_eq!(r.annas_blocked_for(0), None);
    r.mark_annas_blocked(10_000);
    assert_eq!(r.annas_blocked_for(10_000 + 5 * 60_000 + 59_000), Some(5));
    assert_eq!(r.annas_blocked_for(10_000 + 6 * 3_600_000), None);
}

#[test]
fn mirror_list_cache_and_fetch_errors() {
    let mut r = Resolver::new();
    assert!(r.cached_slum(0).is_none());
    let s = r.remember_slum(0, Err("offline".into()));
    assert!(s.annas.is_empty() && s.libgen.is_empty());
    assert!(r.cached_slum(1).is_some());
    assert!(r.cached_slum(30 * 60 * 1000).is_none());
    let p = Page { status: 500, url: String::new(), body: String::new() };
    assert_eq!(fetch(Ok(p)).err().unwrap(), "open-slum.org answered 500");
    let p = Page { status: 200, url: String::new(), body: "<p>hi</p>".into() };
    assert_eq!(fetch(Ok(p)).err().unwrap(), "open-slum.org page has no mirror list");
}

#[test]
fn probes_read_the_answers() {
    let ok = Ok(Page { status: 200, url: String::new(), body: "{\"download_url\":null}".into() });
    assert!(probe_annas(&ok));
    assert!(!probe_annas(&Err("x".into())));
    let ok = Ok(Page { status: 200, url: String::new(), body: "<title>Library Genesis</title>".into() });
    assert!(probe_libgen(&ok));
    let bad = Ok(Page { status: 403, url: String::new(), body: "Library Genesis".into() });
    assert!(!probe_libgen(&bad));
}

#[test]
fn libgen_candidates_keep_mirrors_marked_down() {
    let r = Resolver::new();
    let slum = Slum { annas: vec![], libgen: vec![m("x.org", Status::Down), m("software.y", Status::Up)] };
    let l = r.libgen_candidates(&cfg(), &slum);
    assert_eq!(l, vec!["x.org", "software.y", "libgen.li", "libgen.vg", "libgen.la", "libgen.bz", "libgen.gl"]);
}

#[test]
fn probing_stops_at_the_first_mirror_that_answers() {
    let c: Vec<String> = vec!["a".into(), "b".into(), "c".into()];
    assert_eq!(next_probe(&c, &vec![]), Probe::Ask("a".into()));
    assert_eq!(next_probe(&c, &vec![false]), Probe::Ask("b".into()));
    assert_eq!(next_probe(&c, &vec![false, true]), Probe::Chosen(Some("b".into())));
    assert_eq!(next_probe(&c, &vec![false, false, false]), Probe::Chosen(None));
    assert_eq!(next_probe(&vec![], &vec![]), Probe::Chosen(None));
}
