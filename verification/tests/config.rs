use annas_kobo::config::{normalize_host, Config, SettingsForm};
use annas_kobo::kepub::{is_kepub, kepub_name};

#[test]
fn hosts_are_normalized() {
    assert_eq!(normalize_host("https://annas-archive.gl/"), "annas-archive.gl");
    assert_eq!(normalize_host("  http://libgen.li//  "), "libgen.li");
    assert_eq!(normalize_host("libgen.vg"), "libgen.vg");
    assert_eq!(normalize_host(""), "");
}

#[test]
fn defaults() {
    let c = Config::defaults(true);
    assert_eq!(c.download_dir, "/mnt/onboard/Books");
    assert_eq!(c.search_source, "auto");
    assert_eq!(c.max_results, 20);
    assert_eq!(Config::defaults(false).download_dir, "data/books");
}

fn form() -> SettingsForm {
    SettingsForm {
        secret_key: Some(" key ".into()),
        base_url: Some("https://annas-archive.pk/".into()),
        libgen_url: None,
        search_source: Some("weird".into()),
        download_dir: Some("  ".into()),
        max_results: Some("500".into()),
        deliver: Some("folder".into()),
        kepubify: false,
        auto_import: true,
    }
}

#[test]
fn settings_form_is_applied() {
    let mut c = Config::defaults(false);
    let (a, l) = c.apply_form(&form());
    assert!(a && !l);
    assert_eq!(c.secret_key, "key");
    assert_eq!(c.base_url, "annas-archive.pk");
    assert_eq!(c.search_source, "auto");
    assert_eq!(c.download_dir, "data/books");
    assert_eq!(c.max_results, 100);
    assert_eq!(c.deliver, "folder");
    assert!(!c.kepubify);
    let mut f = form();
    f.max_results = Some("0".into());
    f.search_source = Some("libgen".into());
    let (a, _) = c.apply_form(&f);
    assert!(!a);
    assert_eq!(c.max_results, 1);
    assert_eq!(c.search_source, "libgen");
    f.max_results = Some("x".into());
    c.apply_form(&f);
    assert_eq!(c.max_results, 1);
}

#[test]
fn kepub_names() {
    assert!(is_kepub("/b/Dune.KEPUB.epub"));
    assert!(!is_kepub("/b/Dune.epub"));
    assert_eq!(kepub_name("Dune.epub").unwrap(), "Dune.kepub.epub");
    assert_eq!(kepub_name("Dune.EPUB").unwrap(), "Dune.kepub.epub");
    assert_eq!(kepub_name("Dune.pdf").unwrap_err(), "not an .epub file");
}

#[test]
fn key_and_delivery_questions() {
    let mut c = Config::defaults(false);
    assert!(!c.has_key());
    c.secret_key = "   ".into();
    assert!(!c.has_key());
    c.secret_key = " abc ".into();
    assert!(c.has_key());
    assert!(!c.folder_delivery());
    c.deliver = "folder".into();
    assert!(c.folder_delivery());
}

#[test]
fn saving_the_current_values_changes_nothing() {
    let mut c = Config::defaults(true);
    c.base_url = "annas-archive.gl".into();
    c.max_results = 37;
    let before = c.clone();
    let f = SettingsForm {
        secret_key: Some(c.secret_key.clone()),
        base_url: Some(c.base_url.clone()),
        libgen_url: Some(c.libgen_url.clone()),
        search_source: Some(c.search_source.clone()),
        download_dir: Some(c.download_dir.clone()),
        max_results: Some(c.max_results.to_string()),
        deliver: Some(c.deliver.clone()),
        kepubify: c.kepubify,
        auto_import: c.auto_import,
    };
    assert_eq!(c.apply_form(&f), (false, false));
    assert_eq!(c.base_url, before.base_url);
    assert_eq!(c.secret_key, before.secret_key);
    assert_eq!(c.libgen_url, before.libgen_url);
    assert_eq!(c.search_source, before.search_source);
    assert_eq!(c.download_dir, before.download_dir);
    assert_eq!(c.max_results, before.max_results);
    assert_eq!(c.deliver, before.deliver);
    assert_eq!(c.kepubify, before.kepubify);
    assert_eq!(c.auto_import, before.auto_import);
    assert_eq!(c.listen, before.listen);
}
