//! The settings: what `config.json` holds, and how the settings form
//! changes them.

use vstd::prelude::*;
use crate::text::{
    decimal, is_digit, is_ws, lemma_decimal_digits, strip_start,
    eq_str, parse_u64, parsed_u64,
    chars_of, copy_range, has_prefix, starts_with, string_of, strip_end, trim, trim_end, trim_ws,
    CharClass,
};

verus! {

#[derive(Debug)]
pub struct Config {
    /// Anna's Archive host to use, e.g. "annas-archive.gl". Empty: discover
    /// it from open-slum.org.
    pub base_url: String,
    /// Anna's Archive membership secret key (needed for fast downloads).
    pub secret_key: String,
    /// LibGen host override. Empty: automatic.
    pub libgen_url: String,
    /// "auto" (Anna's, then LibGen if Anna's is behind a browser check),
    /// "annas" or "libgen".
    pub search_source: String,
    /// "browser": the Kobo browser fetches the finished book from the
    /// service. "folder": save into `download_dir` and import later.
    pub deliver: String,
    /// Where books go in "folder" mode.
    pub download_dir: String,
    /// Convert downloaded EPUBs to KEPUB.
    pub kepubify: bool,
    /// Ask Nickel to import new books when the download queue drains.
    pub auto_import: bool,
    /// Address the web UI listens on.
    pub listen: String,
    /// Results per search.
    pub max_results: usize,
}

impl Clone for Config {
    fn clone(&self) -> (r: Self)
        ensures
            r == *self,
    {
        Config {
            base_url: self.base_url.clone(),
            secret_key: self.secret_key.clone(),
            libgen_url: self.libgen_url.clone(),
            search_source: self.search_source.clone(),
            deliver: self.deliver.clone(),
            download_dir: self.download_dir.clone(),
            kepubify: self.kepubify,
            auto_import: self.auto_import,
            listen: self.listen.clone(),
            max_results: self.max_results,
        }
    }
}

impl Config {
    /// The settings a fresh install starts with. `on_device` tells whether
    /// `/mnt/onboard` is a directory, i.e. whether this runs on the Kobo.
    pub fn defaults(on_device: bool) -> (c: Config)
        ensures
            c.base_url@ == Seq::<char>::empty(),
            c.secret_key@ == Seq::<char>::empty(),
            c.libgen_url@ == Seq::<char>::empty(),
            c.search_source@ == "auto"@,
            c.deliver@ == "browser"@,
            c.download_dir@ == (if on_device {
                "/mnt/onboard/Books"@
            } else {
                "data/books"@
            }),
            c.kepubify,
            c.auto_import,
            c.listen@ == "0.0.0.0:8484"@,
            c.max_results == 20,
    {
        Config {
            base_url: String::new(),
            secret_key: String::new(),
            libgen_url: String::new(),
            search_source: String::from_str("auto"),
            deliver: String::from_str("browser"),
            download_dir: if on_device {
                String::from_str("/mnt/onboard/Books")
            } else {
                String::from_str("data/books")
            },
            kepubify: true,
            auto_import: true,
            listen: String::from_str("0.0.0.0:8484"),
            max_results: 20,
        }
    }
}

/// "https://annas-archive.gl/" -> "annas-archive.gl": trimmed, without the
/// scheme, without trailing slashes.
pub open spec fn host_of(raw: Seq<char>) -> Seq<char> {
    let v = trim_ws(raw);
    let v = if has_prefix(v, "https://"@) {
        v.skip("https://"@.len() as int)
    } else if has_prefix(v, "http://"@) {
        v.skip("http://"@.len() as int)
    } else {
        v
    };
    strip_end(v, CharClass::Only('/'))
}

pub fn normalize_host(raw: &str) -> (r: String)
    ensures
        r@ == host_of(raw@),
{
    let v = trim(&chars_of(raw), &CharClass::Space);
    let https = chars_of("https://");
    let http = chars_of("http://");
    let v = if starts_with(&v, &https) {
        copy_range(&v, https.len(), v.len())
    } else if starts_with(&v, &http) {
        copy_range(&v, http.len(), v.len())
    } else {
        v
    };
    string_of(&trim_end(&v, &CharClass::Only('/')))
}

/// The fields of the settings form as posted (`None` for a field the form
/// did not send); the check boxes are present or not.
#[derive(Debug)]
pub struct SettingsForm {
    pub secret_key: Option<String>,
    pub base_url: Option<String>,
    pub libgen_url: Option<String>,
    pub search_source: Option<String>,
    pub download_dir: Option<String>,
    pub max_results: Option<String>,
    pub deliver: Option<String>,
    pub kepubify: bool,
    pub auto_import: bool,
}

/// A form field, trimmed; empty when missing.
pub open spec fn field(v: Option<String>) -> Seq<char> {
    match v {
        Some(s) => trim_ws(s@),
        None => seq![],
    }
}

fn field_exec(v: &Option<String>) -> (r: Vec<char>)
    ensures
        r@ == field(*v),
{
    match v {
        Some(s) => trim(&chars_of(s.as_str()), &CharClass::Space),
        None => Vec::new(),
    }
}

/// The results-per-search value of the form, when it is a number: kept
/// between 1 and 100.
pub open spec fn max_results_of(v: Seq<char>) -> Option<usize> {
    match parsed_u64(v) {
        Some(n) if n <= usize::MAX => Some(
            if n < 1 {
                1usize
            } else if n > 100 {
                100usize
            } else {
                n as usize
            },
        ),
        _ => None,
    }
}

/// `cfg` after the settings form `f` is saved.
pub open spec fn settings_applied(cfg: Config, f: SettingsForm, new: Config) -> bool {
    let src = field(f.search_source);
    &&& new.secret_key@ == field(f.secret_key)
    &&& new.base_url@ == host_of(field(f.base_url))
    &&& new.libgen_url@ == host_of(field(f.libgen_url))
    &&& new.search_source@ == (if src == "auto"@ || src == "annas"@ || src == "libgen"@ {
        src
    } else {
        "auto"@
    })
    &&& new.download_dir@ == (if field(f.download_dir).len() > 0 {
        field(f.download_dir)
    } else {
        cfg.download_dir@
    })
    &&& new.max_results == match max_results_of(field(f.max_results)) {
        Some(n) => n,
        None => cfg.max_results,
    }
    &&& new.deliver@ == (if field(f.deliver) == "folder"@ {
        "folder"@
    } else {
        "browser"@
    })
    &&& new.kepubify == f.kepubify
    &&& new.auto_import == f.auto_import
    &&& new.listen == cfg.listen
}

impl Config {
    /// Whether a membership key is set (downloads then try Anna's fast
    /// servers first).
    pub fn has_key(&self) -> (b: bool)
        ensures
            b == (trim_ws(self.secret_key@).len() > 0),
    {
        trim(&chars_of(self.secret_key.as_str()), &CharClass::Space).len() > 0
    }

    /// Whether finished books go to the download folder rather than to
    /// the Kobo browser.
    pub fn folder_delivery(&self) -> (b: bool)
        ensures
            b == (self.deliver@ == "folder"@),
    {
        eq_str(self.deliver.as_str(), "folder")
    }

    /// Saves the settings form into the settings. Gives back whether the
    /// Anna's Archive and the LibGen host changed, so that the chosen
    /// mirrors can be forgotten.
    pub fn apply_form(&mut self, f: &SettingsForm) -> (changed: (bool, bool))
        ensures
            settings_applied(*old(self), *f, *final(self)),
            changed.0 == (final(self).base_url@ != old(self).base_url@),
            changed.1 == (final(self).libgen_url@ != old(self).libgen_url@),
    {
        let old_base = chars_of(self.base_url.as_str());
        let old_lg = chars_of(self.libgen_url.as_str());
        self.secret_key = string_of(&field_exec(&f.secret_key));
        self.base_url = normalize_host(string_of(&field_exec(&f.base_url)).as_str());
        self.libgen_url = normalize_host(string_of(&field_exec(&f.libgen_url)).as_str());
        let src = field_exec(&f.search_source);
        self.search_source = if crate::text::same(&src, &chars_of("auto")) || crate::text::same(
            &src,
            &chars_of("annas"),
        ) || crate::text::same(&src, &chars_of("libgen")) {
            string_of(&src)
        } else {
            string_of(&chars_of("auto"))
        };
        let dir = field_exec(&f.download_dir);
        if dir.len() > 0 {
            self.download_dir = string_of(&dir);
        }
        match parse_u64(&field_exec(&f.max_results)) {
            Some(n) => {
                if n <= usize::MAX as u64 {
                    self.max_results = if n < 1 {
                        1
                    } else if n > 100 {
                        100
                    } else {
                        n as usize
                    };
                }
            },
            None => {},
        }
        self.deliver = if crate::text::same(&field_exec(&f.deliver), &chars_of("folder")) {
            string_of(&chars_of("folder"))
        } else {
            string_of(&chars_of("browser"))
        };
        self.kepubify = f.kepubify;
        self.auto_import = f.auto_import;
        let base_changed = !crate::text::same(&chars_of(self.base_url.as_str()), &old_base);
        let lg_changed = !crate::text::same(&chars_of(self.libgen_url.as_str()), &old_lg);
        (base_changed, lg_changed)
    }
}

/// Saving the settings form with the values the settings already hold
/// changes nothing, when the settings are as a save leaves them: texts
/// trimmed, hosts bare, a known search source and delivery mode, and
/// between 1 and 100 results per search.
pub proof fn law_saving_current_values_keeps_settings(cfg: Config, f: SettingsForm)
    requires
        (f.secret_key matches Some(v) && v@ == cfg.secret_key@),
        (f.base_url matches Some(v) && v@ == cfg.base_url@),
        (f.libgen_url matches Some(v) && v@ == cfg.libgen_url@),
        (f.search_source matches Some(v) && v@ == cfg.search_source@),
        (f.download_dir matches Some(v) && v@ == cfg.download_dir@),
        (f.max_results matches Some(v) && v@ == decimal(cfg.max_results as nat)),
        (f.deliver matches Some(v) && v@ == cfg.deliver@),
        f.kepubify == cfg.kepubify,
        f.auto_import == cfg.auto_import,
        trim_ws(cfg.secret_key@) == cfg.secret_key@,
        trim_ws(cfg.base_url@) == cfg.base_url@,
        host_of(cfg.base_url@) == cfg.base_url@,
        trim_ws(cfg.libgen_url@) == cfg.libgen_url@,
        host_of(cfg.libgen_url@) == cfg.libgen_url@,
        cfg.search_source@ == "auto"@ || cfg.search_source@ == "annas"@ || cfg.search_source@
            == "libgen"@,
        trim_ws(cfg.download_dir@) == cfg.download_dir@,
        cfg.deliver@ == "folder"@ || cfg.deliver@ == "browser"@,
        1 <= cfg.max_results <= 100,
    ensures
        settings_applied(cfg, f, cfg),
{
    let d = decimal(cfg.max_results as nat);
    lemma_decimal_digits(cfg.max_results as nat);
    assert(!is_ws(d[0]) && !is_ws(d.last())) by {
        assert(is_digit(d[0]) && is_digit(d[d.len() - 1]));
    }
    assert(strip_start(d, CharClass::Space) == d);
    assert(trim_ws(d) == d);
    assert(d[0] != '+') by {
        assert(is_digit(d[0]));
    }
    assert(parsed_u64(d) == Some(cfg.max_results as u64));
    let src = cfg.search_source@;
    assert(trim_ws(src) == src) by {
        reveal_strlit("auto");
        reveal_strlit("annas");
        reveal_strlit("libgen");
        if src == "auto"@ {
            assert(strip_start(src, CharClass::Space) == src);
        } else if src == "annas"@ {
            assert(strip_start(src, CharClass::Space) == src);
        } else {
            assert(strip_start(src, CharClass::Space) == src);
        }
    }
    assert(trim_ws(cfg.deliver@) == cfg.deliver@) by {
        reveal_strlit("folder");
        reveal_strlit("browser");
        if cfg.deliver@ == "folder"@ {
            assert(strip_start(cfg.deliver@, CharClass::Space) == cfg.deliver@);
        } else {
            assert(strip_start(cfg.deliver@, CharClass::Space) == cfg.deliver@);
        }
    }
}

} // verus!
