//! What the web server decides from a request: which page or action its
//! method and address ask for, what a posted form holds, which book a
//! download form names, the headers a finished book is served with, and the
//! searches it runs in the background and the books they showed.

use vstd::prelude::*;
use vstd::utf8::encode_utf8;
use crate::annas::{books_view, is_md5, spec_is_md5, Book, BookView};
use crate::config::SettingsForm;
use crate::jobs::{ascii_name, ascii_name_of};
use crate::pages::{file_name, name_in};
use crate::web::{OutcomeView, SearchOutcome};
use crate::text::{
    join, lemma_join_push, chars_of, first_occurrence, find, form_encoded, form_urlencode, has_prefix, has_suffix,
    lowercase, parse_u64, parsed_u64, replace, replace_all, same, starts_with, string_of,
    strip_prefix_repeated, to_lowercase, ends_with, trim, trim_start_matches, trim_ws, copy_range,
    CharClass,
};

verus! {

// ---------------------------------------------------------------------------
// Form data

/// The (name, value) pairs that `form_urlencoded::parse` reads from `input`.
pub uninterp spec fn form_pairs(input: Seq<char>) -> Seq<(Seq<char>, Seq<char>)>;

/// Pairs of strings as plain values.
pub open spec fn pairs_view(v: Seq<(String, String)>) -> Seq<(Seq<char>, Seq<char>)> {
    v.map_values(|p: (String, String)| (p.0@, p.1@))
}

/// Calls `form_urlencoded::parse` on the bytes of `input` and takes each
/// pair as two strings. The pairs are named, not stated: the source splits
/// at `&` and the first `=`, and decodes `+` and percent escapes.
#[verifier::external_body]
fn parse_pairs(input: &str) -> (r: Vec<(String, String)>)
    ensures
        pairs_view(r@) == form_pairs(input@),
{
    form_urlencoded::parse(input.as_bytes()).map(|(k, v)| (k.into_owned(), v.into_owned())).collect()
}

/// The (name, value) pairs of a posted form's body.
pub fn form_of(body: &str) -> (r: Vec<(String, String)>)
    ensures
        pairs_view(r@) == form_pairs(body@),
{
    parse_pairs(body)
}

/// The value of the last pair named `key`, as a map filled from the pairs
/// in order holds it.
pub open spec fn value_of(pairs: Seq<(Seq<char>, Seq<char>)>, key: Seq<char>) -> Option<Seq<char>>
    decreases pairs.len(),
{
    if pairs.len() == 0 {
        None
    } else if pairs.last().0 == key {
        Some(pairs.last().1)
    } else {
        value_of(pairs.drop_last(), key)
    }
}

pub open spec fn value_or_empty(pairs: Seq<(Seq<char>, Seq<char>)>, key: Seq<char>) -> Seq<char> {
    match value_of(pairs, key) {
        Some(v) => v,
        None => seq![],
    }
}

/// The value of the last pair named `key`.
pub fn value(pairs: &[(String, String)], key: &str) -> (r: Option<String>)
    ensures
        match r {
            Some(v) => value_of(pairs_view(pairs@), key@) == Some(v@),
            None => value_of(pairs_view(pairs@), key@) == None::<Seq<char>>,
        },
{
    let k = chars_of(key);
    let ghost all = pairs_view(pairs@);
    let mut i: usize = pairs.len();
    assert(all.take(i as int) =~= all);
    while i > 0
        invariant
            i <= pairs.len(),
            all == pairs_view(pairs@),
            k@ == key@,
            value_of(all, key@) == value_of(all.take(i as int), key@),
        decreases i,
    {
        let ghost t = all.take(i as int);
        assert(t.drop_last() == all.take(i - 1));
        assert(t.last() == (pairs@[i - 1].0@, pairs@[i - 1].1@));
        if same(&chars_of(pairs[i - 1].0.as_str()), &k) {
            return Some(pairs[i - 1].1.clone());
        }
        i -= 1;
    }
    None
}

fn value_or_default(pairs: &[(String, String)], key: &str) -> (r: String)
    ensures
        r@ == value_or_empty(pairs_view(pairs@), key@),
{
    match value(pairs, key) {
        Some(v) => v,
        None => String::new(),
    }
}

// ---------------------------------------------------------------------------
// Addresses

/// The path of an address: what comes before its first `?`.
pub open spec fn path_of(url: Seq<char>) -> Seq<char> {
    match first_occurrence(url, seq!['?']) {
        Some(i) => url.take(i),
        None => url,
    }
}

/// The query of an address: what comes after its first `?`.
pub open spec fn query_of(url: Seq<char>) -> Seq<char> {
    match first_occurrence(url, seq!['?']) {
        Some(i) => url.skip(i + 1),
        None => seq![],
    }
}

fn split_url(url: &str) -> (r: (Vec<char>, Vec<char>))
    ensures
        r.0@ == path_of(url@),
        r.1@ == query_of(url@),
{
    let u = chars_of(url);
    let mark: Vec<char> = vec!['?'];
    assert(mark@ == seq!['?']);
    match find(&u, &mark) {
        Some(i) => {
            proof {
                crate::text::lemma_first_occurrence(u@, seq!['?']);
            }
            assert(i < u.len());
            let after = i + 1;
            (copy_range(&u, 0, i), copy_range(&u, after, u.len()))
        },
        None => (u, Vec::new()),
    }
}

/// The job number in a `/file/<id>` address: the digits after the prefix,
/// up to the next `/`; 0 when they are not a number.
pub open spec fn file_id_of(path: Seq<char>) -> u64 {
    let rest = strip_prefix_repeated(path, "/file/"@);
    let seg = match first_occurrence(rest, seq!['/']) {
        Some(i) => rest.take(i),
        None => rest,
    };
    match parsed_u64(seg) {
        Some(n) => n,
        None => 0,
    }
}

fn file_id(path: &[char]) -> (r: u64)
    ensures
        r == file_id_of(path@),
{
    let rest = trim_start_matches(path, &chars_of("/file/"));
    let slash: Vec<char> = vec!['/'];
    assert(slash@ == seq!['/']);
    let seg = match find(&rest, &slash) {
        Some(i) => {
            proof {
                crate::text::lemma_first_occurrence(rest@, seq!['/']);
            }
            copy_range(&rest, 0, i)
        },
        None => rest,
    };
    match parse_u64(&seg) {
        Some(n) => n,
        None => 0,
    }
}

/// The request methods the server tells apart.
#[derive(Clone, Copy, PartialEq, Eq, Debug, Structural)]
pub enum Method {
    Get,
    Post,
    Other,
}

/// What a request asks for.
#[derive(Debug, PartialEq, Eq)]
pub enum Route {
    /// `GET /health`: the service is up.
    Health,
    /// `GET /log`: the end of the service's log.
    Log,
    /// `GET /syslog?n=`: the last `n` lines of the system log.
    Syslog(usize),
    /// `GET /`: the start page, with a message.
    Home(String),
    /// `GET /search`: a search for the (trimmed) terms, in a format.
    Search(String, String),
    /// Another address to go to.
    Redirect(String),
    /// `POST /download`: queue the book of the posted form.
    Download,
    /// `GET /jobs`: the downloads page; whether an import was just asked.
    Jobs(bool),
    /// `GET /file/<id>`: the finished book of a job.
    File(u64),
    /// `POST /jobs/retry`: queue a failed job again.
    Retry,
    /// `POST /jobs/clear`: forget the finished jobs.
    Clear,
    /// `POST /import`: ask Nickel to rescan the library.
    Import,
    /// `GET /settings`: the settings form; whether it was just saved.
    Settings(bool),
    /// `POST /settings`: save the posted settings.
    SaveSettings,
    /// `POST /quit`: stop the service.
    Quit,
    /// Anything else.
    NotFound,
}

pub enum RouteView {
    Health,
    Log,
    Syslog(usize),
    Home(Seq<char>),
    Search(Seq<char>, Seq<char>),
    Redirect(Seq<char>),
    Download,
    Jobs(bool),
    File(u64),
    Retry,
    Clear,
    Import,
    Settings(bool),
    SaveSettings,
    Quit,
    NotFound,
}

impl View for Route {
    type V = RouteView;

    open spec fn view(&self) -> RouteView {
        match self {
            Route::Health => RouteView::Health,
            Route::Log => RouteView::Log,
            Route::Syslog(n) => RouteView::Syslog(*n),
            Route::Home(m) => RouteView::Home(m@),
            Route::Search(q, e) => RouteView::Search(q@, e@),
            Route::Redirect(to) => RouteView::Redirect(to@),
            Route::Download => RouteView::Download,
            Route::Jobs(i) => RouteView::Jobs(*i),
            Route::File(id) => RouteView::File(*id),
            Route::Retry => RouteView::Retry,
            Route::Clear => RouteView::Clear,
            Route::Import => RouteView::Import,
            Route::Settings(s) => RouteView::Settings(*s),
            Route::SaveSettings => RouteView::SaveSettings,
            Route::Quit => RouteView::Quit,
            Route::NotFound => RouteView::NotFound,
        }
    }
}

/// The number of log lines asked for: the `n` of the query when it is a
/// number, else 300.
pub open spec fn lines_wanted(q: Seq<(Seq<char>, Seq<char>)>) -> usize {
    match value_of(q, "n"@) {
        Some(v) => match parsed_u64(v) {
            Some(n) => if n <= usize::MAX {
                n as usize
            } else {
                300usize
            },
            None => 300usize,
        },
        None => 300usize,
    }
}

/// What a request with method `m` for `url` asks for, when `q` holds the
/// pairs of the address's query.
pub open spec fn route_view(m: Method, url: Seq<char>, q: Seq<(Seq<char>, Seq<char>)>) -> RouteView {
    let path = path_of(url);
    match m {
        Method::Get => if path == "/health"@ {
            RouteView::Health
        } else if path == "/log"@ {
            RouteView::Log
        } else if path == "/syslog"@ {
            RouteView::Syslog(lines_wanted(q))
        } else if path == "/"@ {
            RouteView::Home(value_or_empty(q, "msg"@))
        } else if path == "/search"@ {
            let term = trim_ws(value_or_empty(q, "q"@));
            if term.len() == 0 {
                RouteView::Redirect("/"@)
            } else {
                RouteView::Search(term, value_or_empty(q, "ext"@))
            }
        } else if path == "/jobs"@ {
            RouteView::Jobs(value_of(q, "import"@) is Some)
        } else if has_prefix(path, "/file/"@) {
            RouteView::File(file_id_of(path))
        } else if path == "/settings"@ {
            RouteView::Settings(value_of(q, "saved"@) is Some)
        } else {
            RouteView::NotFound
        },
        Method::Post => if path == "/download"@ {
            RouteView::Download
        } else if path == "/jobs/retry"@ {
            RouteView::Retry
        } else if path == "/jobs/clear"@ {
            RouteView::Clear
        } else if path == "/import"@ {
            RouteView::Import
        } else if path == "/settings"@ {
            RouteView::SaveSettings
        } else if path == "/quit"@ {
            RouteView::Quit
        } else {
            RouteView::NotFound
        },
        Method::Other => RouteView::NotFound,
    }
}

fn is(path: &[char], s: &str) -> (b: bool)
    ensures
        b == (path@ == s@),
{
    same(path, &chars_of(s))
}

/// What a request with method `m` for `url` asks for, given the pairs `q`
/// of the address's query.
pub fn route_of(m: Method, url: &str, q: &[(String, String)]) -> (r: Route)
    ensures
        r@ == route_view(m, url@, pairs_view(q@)),
{
    let (path, _) = split_url(url);
    match m {
        Method::Get => if is(&path, "/health") {
            Route::Health
        } else if is(&path, "/log") {
            Route::Log
        } else if is(&path, "/syslog") {
            let n: usize = match value(q, "n") {
                Some(v) => match parse_u64(&chars_of(v.as_str())) {
                    Some(n) => if n <= usize::MAX as u64 {
                        n as usize
                    } else {
                        300
                    },
                    None => 300,
                },
                None => 300,
            };
            Route::Syslog(n)
        } else if is(&path, "/") {
            Route::Home(value_or_default(q, "msg"))
        } else if is(&path, "/search") {
            let term = trim(&chars_of(value_or_default(q, "q").as_str()), &CharClass::Space);
            if term.len() == 0 {
                Route::Redirect(String::from_str("/"))
            } else {
                Route::Search(string_of(&term), value_or_default(q, "ext"))
            }
        } else if is(&path, "/jobs") {
            Route::Jobs(value(q, "import").is_some())
        } else if starts_with(&path, &chars_of("/file/")) {
            Route::File(file_id(&path))
        } else if is(&path, "/settings") {
            Route::Settings(value(q, "saved").is_some())
        } else {
            Route::NotFound
        },
        Method::Post => if is(&path, "/download") {
            Route::Download
        } else if is(&path, "/jobs/retry") {
            Route::Retry
        } else if is(&path, "/jobs/clear") {
            Route::Clear
        } else if is(&path, "/import") {
            Route::Import
        } else if is(&path, "/settings") {
            Route::SaveSettings
        } else if is(&path, "/quit") {
            Route::Quit
        } else {
            Route::NotFound
        },
        Method::Other => Route::NotFound,
    }
}

/// What a request with method `m` for `url` asks for.
pub fn route(m: Method, url: &str) -> (r: Route)
    ensures
        r@ == route_view(m, url@, form_pairs(query_of(url@))),
{
    let (_, query) = split_url(url);
    let q = parse_pairs(string_of(&query).as_str());
    route_of(m, url, &q)
}

// ---------------------------------------------------------------------------
// Posted forms

pub open spec fn opt_view(v: Option<String>) -> Option<Seq<char>> {
    match v {
        Some(s) => Some(s@),
        None => None,
    }
}

fn value_opt(pairs: &[(String, String)], key: &str) -> (r: Option<String>)
    ensures
        opt_view(r) == value_of(pairs_view(pairs@), key@),
{
    value(pairs, key)
}

/// The settings form as the posted pairs give it: the last value of each
/// field, and whether each check box was sent.
pub fn settings_form(pairs: &[(String, String)]) -> (f: SettingsForm)
    ensures
        opt_view(f.secret_key) == value_of(pairs_view(pairs@), "secret_key"@),
        opt_view(f.base_url) == value_of(pairs_view(pairs@), "base_url"@),
        opt_view(f.libgen_url) == value_of(pairs_view(pairs@), "libgen_url"@),
        opt_view(f.search_source) == value_of(pairs_view(pairs@), "search_source"@),
        opt_view(f.download_dir) == value_of(pairs_view(pairs@), "download_dir"@),
        opt_view(f.max_results) == value_of(pairs_view(pairs@), "max_results"@),
        opt_view(f.deliver) == value_of(pairs_view(pairs@), "deliver"@),
        f.kepubify == (value_of(pairs_view(pairs@), "kepubify"@) is Some),
        f.auto_import == (value_of(pairs_view(pairs@), "auto_import"@) is Some),
{
    SettingsForm {
        secret_key: value_opt(pairs, "secret_key"),
        base_url: value_opt(pairs, "base_url"),
        libgen_url: value_opt(pairs, "libgen_url"),
        search_source: value_opt(pairs, "search_source"),
        download_dir: value_opt(pairs, "download_dir"),
        max_results: value_opt(pairs, "max_results"),
        deliver: value_opt(pairs, "deliver"),
        kepubify: value(pairs, "kepubify").is_some(),
        auto_import: value(pairs, "auto_import").is_some(),
    }
}

/// The number a form field holds, 0 when it is missing or not a number.
pub open spec fn number_of(pairs: Seq<(Seq<char>, Seq<char>)>, key: Seq<char>) -> u64 {
    match value_of(pairs, key) {
        Some(v) => match parsed_u64(v) {
            Some(n) => n,
            None => 0,
        },
        None => 0,
    }
}

/// The job number a posted form names (`id`), 0 when there is none.
pub fn form_number(pairs: &[(String, String)], key: &str) -> (n: u64)
    ensures
        n == number_of(pairs_view(pairs@), key@),
{
    match value(pairs, key) {
        Some(v) => match parse_u64(&chars_of(v.as_str())) {
            Some(n) => n,
            None => 0,
        },
        None => 0,
    }
}

/// The book a download form names by `md5`: the one a recent search
/// showed (`seen`), else, for a well-formed md5, a book that only has it
/// (as its title too); none otherwise.
pub fn download_book(md5: &str, seen: Option<Book>) -> (r: Option<Book>)
    ensures
        match seen {
            Some(b) => r == Some(b),
            None => if spec_is_md5(md5@) {
                match r {
                    Some(b) => b.md5@ == md5@ && b.title@ == md5@ && b.authors@.len() == 0
                        && b.publisher@.len() == 0 && b.year@.len() == 0
                        && b.language@.len() == 0 && b.format@.len() == 0 && b.size@.len()
                        == 0 && b.source@.len() == 0,
                    None => false,
                }
            } else {
                r is None
            },
        },
{
    match seen {
        Some(b) => Some(b),
        None => if is_md5(md5) {
            let mut b = Book::default();
            b.md5 = String::from_str(md5);
            b.title = String::from_str(md5);
            Some(b)
        } else {
            None
        },
    }
}

/// What the downloads page says about imports: that one was just asked
/// for, or, above that, why the last one failed.
pub open spec fn import_note_of(asked: bool, last: Option<Result<u64, Seq<char>>>) -> Seq<char> {
    match last {
        Some(Err(e)) => "Last import attempt failed: "@ + e,
        _ => if asked {
            "Asked Nickel to rescan the library."@
        } else {
            seq![]
        },
    }
}

pub open spec fn last_view(last: Option<Result<u64, String>>) -> Option<Result<u64, Seq<char>>> {
    match last {
        Some(Ok(t)) => Some(Ok(t)),
        Some(Err(e)) => Some(Err(e@)),
        None => None,
    }
}

pub fn import_note(asked: bool, last: &Option<Result<u64, String>>) -> (r: String)
    ensures
        r@ == import_note_of(asked, last_view(*last)),
{
    match last {
        Some(Err(e)) => {
            let mut s = String::from_str("Last import attempt failed: ");
            s.append(e.as_str());
            s
        },
        _ => if asked {
            String::from_str("Asked Nickel to rescan the library.")
        } else {
            proof {
                reveal_strlit("");
            }
            String::new()
        },
    }
}

// ---------------------------------------------------------------------------
// Serving a finished book

/// The name a finished book is served under: the file name of its path.
pub fn served_name(path: &str) -> (r: String)
    ensures
        r@ == name_in(path@),
{
    match file_name(path) {
        Some(f) => f,
        None => String::new(),
    }
}

/// The content type for a file name: PDF and EPUB by their extension in
/// any case, anything else as bytes.
pub open spec fn mime_of(name: Seq<char>) -> Seq<char> {
    if has_suffix(lowercase(name), ".pdf"@) {
        "application/pdf"@
    } else if has_suffix(lowercase(name), ".epub"@) {
        "application/epub+zip"@
    } else {
        "application/octet-stream"@
    }
}

pub fn mime_for(name: &str) -> (r: &'static str)
    ensures
        r@ == mime_of(name@),
{
    let low = to_lowercase(&chars_of(name));
    if ends_with(&low, &chars_of(".pdf")) {
        "application/pdf"
    } else if ends_with(&low, &chars_of(".epub")) {
        "application/epub+zip"
    } else {
        "application/octet-stream"
    }
}

/// The `Content-Disposition` value for a file name: an attachment with an
/// ASCII name for old browsers and the full name percent-encoded in UTF-8.
pub open spec fn disposition_of(name: Seq<char>) -> Seq<char> {
    "attachment; filename=\""@ + ascii_name_of(name) + "\"; filename*=UTF-8''"@ + replace_all(
        form_encoded(encode_utf8(name)),
        "+"@,
        "%20"@,
    )
}

pub fn disposition_for(name: &str) -> (r: String)
    ensures
        r@ == disposition_of(name@),
{
    let mut s = String::from_str("attachment; filename=\"");
    s.append(ascii_name(name).as_str());
    s.append("\"; filename*=UTF-8''");
    let plus = chars_of("+");
    proof {
        reveal_strlit("+");
    }
    let enc = replace(&form_urlencode(&chars_of(name)), &plus, &chars_of("%20"));
    s.append(string_of(&enc).as_str());
    s
}

// ---------------------------------------------------------------------------
// Log excerpts

/// The pieces of `s` between its newlines (one more than it has newlines).
pub open spec fn pieces(s: Seq<char>) -> Seq<Seq<char>>
    decreases s.len(),
{
    if s.len() == 0 {
        seq![seq![]]
    } else if s.last() == '\n' {
        pieces(s.drop_last()).push(seq![])
    } else {
        let p = pieces(s.drop_last());
        p.update(p.len() - 1, p.last().push(s.last()))
    }
}

/// A line without the carriage return before its newline.
pub open spec fn without_cr(l: Seq<char>) -> Seq<char> {
    if l.len() > 0 && l.last() == '\r' {
        l.drop_last()
    } else {
        l
    }
}

/// The lines of `s` as `str::lines` gives them: split at newlines, a
/// carriage return before a newline dropped, no empty line after a final
/// newline.
pub open spec fn lines_of(s: Seq<char>) -> Seq<Seq<char>> {
    let p = pieces(s);
    let ended = p.drop_last().map_values(|l: Seq<char>| without_cr(l));
    if p.last().len() == 0 {
        ended
    } else {
        ended.push(p.last())
    }
}

/// The last `n` lines of `text`, joined by newlines.
pub open spec fn last_lines_of(text: Seq<char>, n: nat) -> Seq<char> {
    let ls = lines_of(text);
    let k = if ls.len() < n {
        ls.len()
    } else {
        n
    };
    join(ls.skip(ls.len() - k), seq!['\n'])
}

proof fn lemma_pieces_len(s: Seq<char>)
    ensures
        pieces(s).len() >= 1,
    decreases s.len(),
{
    if s.len() > 0 {
        lemma_pieces_len(s.drop_last());
    }
}

/// The lines of `t`, split at its newlines: the finished ones (carriage
/// return dropped) and the unfinished last one.
fn split_lines(t: &[char]) -> (r: (Vec<Vec<char>>, Vec<char>))
    ensures
        r.0@.map_values(|l: Vec<char>| l@) == pieces(t@).drop_last().map_values(
            |l: Seq<char>| without_cr(l),
        ),
        r.1@ == pieces(t@).last(),
{
    let mut done: Vec<Vec<char>> = Vec::new();
    let mut cur: Vec<char> = Vec::new();
    let mut i: usize = 0;
    while i < t.len()
        invariant
            i <= t.len(),
            pieces(t@.take(i as int)).len() >= 1,
            done@.map_values(|l: Vec<char>| l@) == pieces(t@.take(i as int)).drop_last().map_values(
                |l: Seq<char>| without_cr(l),
            ),
            cur@ == pieces(t@.take(i as int)).last(),
        decreases t.len() - i,
    {
        let ghost before = t@.take(i as int);
        let ghost after = t@.take(i + 1);
        assert(after.drop_last() == before);
        assert(after.last() == t@[i as int]);
        proof {
            lemma_pieces_len(before);
        }
        if t[i] == '\n' {
            let line = if cur.len() > 0 && cur[cur.len() - 1] == '\r' {
                let mut l = cur.clone();
                l.pop();
                l
            } else {
                cur.clone()
            };
            assert(line@ == without_cr(cur@));
            let ghost old_done = done@;
            done.push(line);
            cur = Vec::new();
            proof {
                let pb = pieces(before);
                assert(pieces(after) == pb.push(seq![]));
                assert(pieces(after).drop_last() == pb);
                let want = pb.map_values(|l: Seq<char>| without_cr(l));
                let have = done@.map_values(|l: Vec<char>| l@);
                assert(old_done.map_values(|l: Vec<char>| l@).len() == old_done.len());
                assert(pb.drop_last().map_values(|l: Seq<char>| without_cr(l)).len() == pb.len() - 1);
                assert(old_done.len() == pb.len() - 1);
                assert(have.len() == want.len());
                assert forall|k: int| 0 <= k < have.len() implies have[k] == want[k] by {
                    if k < old_done.len() {
                        assert(done@[k] == old_done[k]);
                        assert(old_done.map_values(|l: Vec<char>| l@)[k] == old_done[k]@);
                        assert(pb.drop_last()[k] == pb[k]);
                    }
                }
                assert(have =~= want);
            }
        } else {
            cur.push(t[i]);
            proof {
                let pb = pieces(before);
                let pa = pieces(after);
                assert(pa == pb.update(pb.len() - 1, pb.last().push(t@[i as int])));
                assert(pa.drop_last() == pb.drop_last());
            }
        }
        i += 1;
    }
    assert(t@.take(t.len() as int) == t@);
    (done, cur)
}

/// The last `n` lines of `text`, for the diagnostics pages.
pub fn last_lines(text: &str, n: usize) -> (r: String)
    ensures
        r@ == last_lines_of(text@, n as nat),
{
    let (done, cur) = split_lines(&chars_of(text));
    let ghost ls = lines_of(text@);
    let mut lines = done;
    if cur.len() > 0 {
        lines.push(cur);
    }
    assert(lines@.map_values(|l: Vec<char>| l@) == ls);
    let k = if lines.len() < n {
        lines.len()
    } else {
        n
    };
    let start = lines.len() - k;
    let mut out: Vec<char> = Vec::new();
    let mut j: usize = start;
    let ghost tail = ls.skip(start as int);
    while j < lines.len()
        invariant
            start <= j <= lines.len(),
            lines@.map_values(|l: Vec<char>| l@) == ls,
            tail == ls.skip(start as int),
            out@ == join(tail.take(j - start), seq!['\n']),
        decreases lines.len() - j,
    {
        proof {
            assert(tail.take(j + 1 - start) == tail.take(j - start).push(tail[j - start]));
            lemma_join_push(tail.take(j - start), seq!['\n'], tail[j - start]);
            assert(tail[j - start] == lines@[j as int]@);
        }
        if j > start {
            out.push('\n');
        }
        let ghost o = out@;
        crate::text::push_all(&mut out, &lines[j]);
        proof {
            if j == start {
                assert(out@ =~= lines@[j as int]@);
            }
        }
        j += 1;
    }
    assert(tail.take(lines.len() - start) == tail);
    string_of(&out)
}

// ---------------------------------------------------------------------------
// Books from recent searches

/// The book listed last with `md5` in `s`.
pub open spec fn book_by_md5(s: Seq<BookView>, md5: Seq<char>) -> Option<BookView>
    decreases s.len(),
{
    if s.len() == 0 {
        None
    } else if s.last().md5 == md5 {
        Some(s.last())
    } else {
        book_by_md5(s.drop_last(), md5)
    }
}

pub open spec fn distinct_md5s(s: Seq<BookView>) -> bool {
    forall|i: int, j: int| 0 <= i < j < s.len() ==> s[i].md5 != s[j].md5
}

proof fn lemma_book_by_md5_update(s: Seq<BookView>, i: int, b: BookView, x: Seq<char>)
    requires
        distinct_md5s(s),
        0 <= i < s.len(),
        s[i].md5 == b.md5,
    ensures
        book_by_md5(s.update(i, b), x) == if x == b.md5 {
            Some(b)
        } else {
            book_by_md5(s, x)
        },
    decreases s.len(),
{
    let t = s.update(i, b);
    if i < s.len() - 1 {
        assert(s.last().md5 != b.md5);
        assert(t.last() == s.last());
        assert(t.drop_last() == s.drop_last().update(i, b));
        lemma_book_by_md5_update(s.drop_last(), i, b, x);
    } else {
        assert(t.drop_last() == s.drop_last());
    }
}

/// The books that recent searches showed, by md5, so that a download form
/// only needs to send the md5.
pub struct SeenBooks {
    books: Vec<Book>,
}

impl SeenBooks {
    pub closed spec fn books(&self) -> Seq<BookView> {
        books_view(self.books@)
    }

    pub open spec fn wf(&self) -> bool {
        distinct_md5s(self.books())
    }

    pub fn new() -> (r: SeenBooks)
        ensures
            r.wf(),
            r.books().len() == 0,
    {
        SeenBooks { books: Vec::new() }
    }

    /// Remembers `b`, in place of an earlier book with the same md5.
    pub fn remember(&mut self, b: Book)
        requires
            old(self).wf(),
        ensures
            final(self).wf(),
            forall|x: Seq<char>| #[trigger]
                book_by_md5(final(self).books(), x) == book_by_md5(old(self).books().push(b@), x),
    {
        let ghost before = self.books();
        let ghost bv = b@;
        let key = chars_of(b.md5.as_str());
        let mut i: usize = 0;
        while i < self.books.len()
            invariant
                i <= self.books.len(),
                self.books() == before,
                before == old(self).books(),
                distinct_md5s(before),
                key@ == bv.md5,
                bv == b@,
                forall|j: int| 0 <= j < i ==> before[j].md5 != bv.md5,
            decreases self.books.len() - i,
        {
            if same(&chars_of(self.books[i].md5.as_str()), &key) {
                proof {
                    assert(before[i as int] == self.books@[i as int]@);
                    assert forall|x: Seq<char>| #[trigger]
                        book_by_md5(before.update(i as int, bv), x) == book_by_md5(before.push(bv), x) by {
                        lemma_book_by_md5_update(before, i as int, bv, x);
                        assert(before.push(bv).drop_last() == before);
                    }
                }
                self.books.set(i, b);
                proof {
                    assert(self.books() == before.update(i as int, bv));
                    assert forall|p: int, q: int| 0 <= p < q < self.books().len() implies
                        self.books()[p].md5 != self.books()[q].md5 by {
                        if p != i && q != i {
                            assert(before[p].md5 != before[q].md5);
                        } else if p == i {
                            assert(before[i as int].md5 != before[q].md5);
                        } else {
                            assert(before[p].md5 != before[i as int].md5);
                        }
                    }
                    assert forall|x: Seq<char>| #[trigger] book_by_md5(self.books(), x)
                        == book_by_md5(before.push(bv), x) by {
                        assert(book_by_md5(before.update(i as int, bv), x) == book_by_md5(
                            before.push(bv),
                            x,
                        ));
                    }
                }
                return;
            }
            assert(before[i as int] == self.books@[i as int]@);
            i += 1;
        }
        self.books.push(b);
        proof {
            assert(self.books() == before.push(bv));
            assert forall|p: int, q: int| 0 <= p < q < self.books().len() implies
                self.books()[p].md5 != self.books()[q].md5 by {
                if q < before.len() {
                    assert(before[p].md5 != before[q].md5);
                }
            }
        }
    }

    /// Remembers the books of a search, later ones in place of earlier ones
    /// with the same md5.
    pub fn remember_all(&mut self, books: &[Book])
        requires
            old(self).wf(),
        ensures
            final(self).wf(),
            forall|x: Seq<char>| #[trigger]
                book_by_md5(final(self).books(), x) == book_by_md5(
                    old(self).books() + books_view(books@),
                    x,
                ),
    {
        let ghost start = self.books();
        let mut i: usize = 0;
        while i < books.len()
            invariant
                i <= books.len(),
                self.wf(),
                forall|x: Seq<char>| #[trigger]
                    book_by_md5(self.books(), x) == book_by_md5(
                        start + books_view(books@.take(i as int)),
                        x,
                    ),
            decreases books.len() - i,
        {
            let ghost mid = self.books();
            self.remember(books[i].clone());
            proof {
                let prev = start + books_view(books@.take(i as int));
                let next = start + books_view(books@.take(i + 1));
                assert(next == prev.push(books@[i as int]@));
                assert forall|x: Seq<char>| #[trigger] book_by_md5(self.books(), x) == book_by_md5(
                    next,
                    x,
                ) by {
                    assert(mid.push(books@[i as int]@).drop_last() == mid);
                    assert(prev.push(books@[i as int]@).drop_last() == prev);
                    assert(book_by_md5(mid, x) == book_by_md5(prev, x));
                }
            }
            i += 1;
        }
        assert(books@.take(i as int) == books@);
    }

    /// The book remembered with `md5`.
    pub fn find(&self, md5: &str) -> (r: Option<Book>)
        ensures
            match r {
                Some(b) => book_by_md5(self.books(), md5@) == Some(b@),
                None => book_by_md5(self.books(), md5@) == None::<BookView>,
            },
    {
        let key = chars_of(md5);
        let mut i: usize = self.books.len();
        assert(self.books().take(i as int) == self.books());
        while i > 0
            invariant
                i <= self.books.len(),
                key@ == md5@,
                book_by_md5(self.books(), md5@) == book_by_md5(self.books().take(i as int), md5@),
            decreases i,
        {
            let ghost t = self.books().take(i as int);
            assert(t.drop_last() == self.books().take(i - 1));
            assert(t.last() == self.books@[i - 1]@);
            if same(&chars_of(self.books[i - 1].md5.as_str()), &key) {
                return Some(self.books[i - 1].clone());
            }
            i -= 1;
        }
        None
    }
}

// ---------------------------------------------------------------------------
// Searches running in the background

/// A search by its state: running since a time, or done at a time with its
/// outcome (times in milliseconds of a monotonic clock).
pub enum SearchEntry {
    Running(u64),
    Done(u64, Result<SearchOutcome, String>),
}

pub enum EntryView {
    Running(u64),
    Done(u64, OutcomeView),
}

pub open spec fn result_view(r: Result<SearchOutcome, String>) -> OutcomeView {
    match r {
        Ok(o) => Ok((books_view(o.books@), o.source@, o.note@)),
        Err(e) => Err(e@),
    }
}

pub open spec fn entry_view(e: SearchEntry) -> EntryView {
    match e {
        SearchEntry::Running(t) => EntryView::Running(t),
        SearchEntry::Done(t, r) => EntryView::Done(t, result_view(r)),
    }
}

pub open spec fn entries_view(v: Seq<(String, SearchEntry)>) -> Seq<(Seq<char>, EntryView)> {
    v.map_values(|p: (String, SearchEntry)| (p.0@, entry_view(p.1)))
}

/// The key a search is kept under: its terms, a NUL, its format.
pub open spec fn search_key(term: Seq<char>, ext: Seq<char>) -> Seq<char> {
    term + seq!['\u{0}'] + ext
}

/// The time from `t` to `now`, nothing when the clock reads earlier.
pub open spec fn age(now: u64, t: u64) -> nat {
    if now >= t {
        (now - t) as nat
    } else {
        0
    }
}

/// A running search is kept for five minutes, a finished one for ten.
pub open spec fn is_fresh(e: EntryView, now: u64) -> bool {
    match e {
        EntryView::Running(t) => age(now, t) < 300000,
        EntryView::Done(t, _) => age(now, t) < 600000,
    }
}

/// The entries of `s` that are still fresh at `now`, in order.
pub open spec fn fresh(s: Seq<(Seq<char>, EntryView)>, now: u64) -> Seq<(Seq<char>, EntryView)>
    decreases s.len(),
{
    if s.len() == 0 {
        seq![]
    } else if is_fresh(s.last().1, now) {
        fresh(s.drop_last(), now).push(s.last())
    } else {
        fresh(s.drop_last(), now)
    }
}

/// Where the entry `key` stands in `s`.
pub open spec fn position(s: Seq<(Seq<char>, EntryView)>, key: Seq<char>) -> Option<int>
    decreases s.len(),
{
    if s.len() == 0 {
        None
    } else if s.last().0 == key {
        Some(s.len() - 1)
    } else {
        position(s.drop_last(), key)
    }
}

pub open spec fn distinct_keys(s: Seq<(Seq<char>, EntryView)>) -> bool {
    forall|i: int, j: int| 0 <= i < j < s.len() ==> s[i].0 != s[j].0
}

pub proof fn lemma_position(s: Seq<(Seq<char>, EntryView)>, key: Seq<char>)
    ensures
        match position(s, key) {
            Some(i) => 0 <= i < s.len() && s[i].0 == key && forall|j: int|
                i < j < s.len() ==> s[j].0 != key,
            None => forall|j: int| 0 <= j < s.len() ==> s[j].0 != key,
        },
    decreases s.len(),
{
    if s.len() > 0 && s.last().0 != key {
        let t = s.drop_last();
        lemma_position(t, key);
        match position(t, key) {
            Some(i) => {
                assert(s[i] == t[i]);
                assert forall|j: int| i < j < s.len() implies s[j].0 != key by {
                    if j < t.len() {
                        assert(s[j] == t[j]);
                    }
                }
            },
            None => {
                assert forall|j: int| 0 <= j < s.len() implies s[j].0 != key by {
                    if j < t.len() {
                        assert(s[j] == t[j]);
                    }
                }
            },
        }
    }
}

proof fn lemma_fresh(s: Seq<(Seq<char>, EntryView)>, now: u64)
    ensures
        forall|j: int|
            0 <= j < fresh(s, now).len() ==> exists|i: int|
                0 <= i < s.len() && #[trigger] fresh(s, now)[j] == s[i],
        distinct_keys(s) ==> distinct_keys(fresh(s, now)),
    decreases s.len(),
{
    if s.len() > 0 {
        let t = s.drop_last();
        lemma_fresh(t, now);
        let f = fresh(t, now);
        assert forall|j: int| 0 <= j < fresh(s, now).len() implies exists|i: int|
            0 <= i < s.len() && #[trigger] fresh(s, now)[j] == s[i] by {
            if j < f.len() {
                let i = choose|i: int| 0 <= i < t.len() && f[j] == t[i];
                assert(fresh(s, now)[j] == s[i]);
            } else {
                assert(fresh(s, now)[j] == s[s.len() - 1]);
            }
        }
        if distinct_keys(s) && is_fresh(s.last().1, now) {
            assert(distinct_keys(t));
            assert forall|p: int, q: int| 0 <= p < q < fresh(s, now).len() implies fresh(
                s,
                now,
            )[p].0 != fresh(s, now)[q].0 by {
                if q < f.len() {
                } else {
                    let i = choose|i: int| 0 <= i < t.len() && f[p] == t[i];
                    assert(s[i].0 != s[s.len() - 1].0);
                }
            }
        }
        if distinct_keys(s) {
            assert(distinct_keys(t));
        }
    }
}

/// What looking up a search gives: still running for some seconds, done
/// with its results, failed (and forgotten), or just started.
#[derive(Debug)]
pub enum Poll {
    Waiting(u64),
    Ready(SearchOutcome),
    Failed(String),
    Started,
}

pub enum PollView {
    Waiting(u64),
    Ready((Seq<BookView>, Seq<char>, Seq<char>)),
    Failed(Seq<char>),
    Started,
}

pub open spec fn poll_view(p: Poll) -> PollView {
    match p {
        Poll::Waiting(s) => PollView::Waiting(s),
        Poll::Ready(o) => PollView::Ready((books_view(o.books@), o.source@, o.note@)),
        Poll::Failed(e) => PollView::Failed(e@),
        Poll::Started => PollView::Started,
    }
}

/// The searches after a look-up of `key` at `now`, and its answer: stale
/// entries are dropped first; a failed search is forgotten once reported; a
/// search not there is started.
pub open spec fn poll_spec(s: Seq<(Seq<char>, EntryView)>, key: Seq<char>, now: u64) -> (
    Seq<(Seq<char>, EntryView)>,
    PollView,
) {
    let f = fresh(s, now);
    match position(f, key) {
        Some(i) => match f[i].1 {
            EntryView::Running(t) => (f, PollView::Waiting((age(now, t) / 1000) as u64)),
            EntryView::Done(_, Ok(o)) => (f, PollView::Ready(o)),
            EntryView::Done(_, Err(e)) => (f.remove(i), PollView::Failed(e)),
        },
        None => (f.push((key, EntryView::Running(now))), PollView::Started),
    }
}

/// The searches after the search `key` finished at `now` with `r`.
pub open spec fn finish_spec(
    s: Seq<(Seq<char>, EntryView)>,
    key: Seq<char>,
    now: u64,
    r: OutcomeView,
) -> Seq<(Seq<char>, EntryView)> {
    match position(s, key) {
        Some(i) => s.update(i, (key, EntryView::Done(now, r))),
        None => s.push((key, EntryView::Done(now, r))),
    }
}

fn fresh_entry(e: &SearchEntry, now: u64) -> (b: bool)
    ensures
        b == is_fresh(entry_view(*e), now),
{
    match e {
        SearchEntry::Running(t) => (if now >= *t {
            now - *t
        } else {
            0
        }) < 300000,
        SearchEntry::Done(t, _) => (if now >= *t {
            now - *t
        } else {
            0
        }) < 600000,
    }
}

fn key_of(term: &str, ext: &str) -> (k: String)
    ensures
        k@ == search_key(term@, ext@),
{
    let mut k = String::from_str(term);
    let nul: Vec<char> = vec!['\u{0}'];
    k.append(string_of(&nul).as_str());
    k.append(ext);
    k
}

/// The searches the server runs in the background, by search terms and
/// format, so that the page can show progress and then the results.
pub struct SearchBoard {
    entries: Vec<(String, SearchEntry)>,
}

impl SearchBoard {
    pub closed spec fn entries(&self) -> Seq<(Seq<char>, EntryView)> {
        entries_view(self.entries@)
    }

    pub open spec fn wf(&self) -> bool {
        distinct_keys(self.entries())
    }

    pub fn new() -> (b: SearchBoard)
        ensures
            b.wf(),
            b.entries().len() == 0,
    {
        SearchBoard { entries: Vec::new() }
    }

    fn drop_stale(&mut self, now: u64)
        requires
            old(self).wf(),
        ensures
            final(self).entries() == fresh(old(self).entries(), now),
            final(self).wf(),
    {
        let mut rest: Vec<(String, SearchEntry)> = Vec::new();
        std::mem::swap(&mut rest, &mut self.entries);
        let ghost orig = entries_view(rest@);
        let n = rest.len();
        let mut kept: Vec<(String, SearchEntry)> = Vec::new();
        proof {
            assert(orig.take(0) == Seq::<(Seq<char>, EntryView)>::empty());
            assert(orig.skip(0) == orig);
        }
        while rest.len() > 0
            invariant
                rest.len() <= n,
                n == orig.len(),
                entries_view(kept@) == fresh(orig.take(n - rest.len()), now),
                entries_view(rest@) == orig.skip(n - rest.len()),
            decreases rest.len(),
        {
            let ghost k = n - rest.len();
            let ghost before = rest@;
            let e = rest.remove(0);
            proof {
                assert(orig.skip(k)[0] == orig[k]);
                assert(orig.take(k + 1).drop_last() == orig.take(k));
                assert(orig.take(k + 1).last() == orig[k]);
                assert(rest@ == before.remove(0));
                assert(entries_view(rest@) =~= orig.skip(k + 1)) by {
                    assert forall|j: int| 0 <= j < rest@.len() implies #[trigger] entries_view(
                        rest@,
                    )[j] == orig.skip(k + 1)[j] by {
                        assert(rest@[j] == before[j + 1]);
                        assert(entries_view(before)[j + 1] == orig.skip(k)[j + 1]);
                    }
                }
            }
            if fresh_entry(&e.1, now) {
                kept.push(e);
                proof {
                    assert(entries_view(kept@) == fresh(orig.take(k), now).push(orig[k]));
                }
            }
        }
        proof {
            assert(orig.take(n as int) == orig);
            lemma_fresh(orig, now);
        }
        self.entries = kept;
    }

    fn position_of(&self, key: &String) -> (r: Option<usize>)
        ensures
            match r {
                Some(i) => position(self.entries(), key@) == Some(i as int),
                None => position(self.entries(), key@) == None::<int>,
            },
    {
        let k = chars_of(key.as_str());
        let mut i: usize = self.entries.len();
        assert(self.entries().take(i as int) == self.entries());
        while i > 0
            invariant
                i <= self.entries.len(),
                k@ == key@,
                position(self.entries(), key@) == position(self.entries().take(i as int), key@),
            decreases i,
        {
            let ghost t = self.entries().take(i as int);
            assert(t.drop_last() == self.entries().take(i - 1));
            assert(t.last().0 == self.entries@[i - 1].0@);
            if same(&chars_of(self.entries[i - 1].0.as_str()), &k) {
                return Some(i - 1);
            }
            i -= 1;
        }
        None
    }

    /// Looks up the search for `term` in format `ext` at `now`.
    pub fn poll(&mut self, term: &str, ext: &str, now: u64) -> (p: Poll)
        requires
            old(self).wf(),
        ensures
            final(self).wf(),
            (final(self).entries(), poll_view(p)) == poll_spec(
                old(self).entries(),
                search_key(term@, ext@),
                now,
            ),
    {
        self.drop_stale(now);
        let ghost f = self.entries();
        let key = key_of(term, ext);
        match self.position_of(&key) {
            Some(i) => {
                proof {
                    lemma_position(f, key@);
                }
                let waiting: Option<u64> = match &self.entries[i].1 {
                    SearchEntry::Running(t) => Some(
                        (if now >= *t {
                            now - *t
                        } else {
                            0
                        }) / 1000,
                    ),
                    _ => None,
                };
                match waiting {
                    Some(secs) => Poll::Waiting(secs),
                    None => {
                        let ready: Option<SearchOutcome> = match &self.entries[i].1 {
                            SearchEntry::Done(_, Ok(o)) => Some(o.clone()),
                            _ => None,
                        };
                        match ready {
                            Some(o) => Poll::Ready(o),
                            None => {
                                let e = match &self.entries[i].1 {
                                    SearchEntry::Done(_, Err(e)) => e.clone(),
                                    _ => String::new(),
                                };
                                self.entries.remove(i);
                                proof {
                                    assert(self.entries() == f.remove(i as int));
                                    assert forall|p: int, q: int|
                                        0 <= p < q < self.entries().len() implies self.entries()[p].0
                                        != self.entries()[q].0 by {
                                        let pp = if p < i {
                                            p
                                        } else {
                                            p + 1
                                        };
                                        let qq = if q < i {
                                            q
                                        } else {
                                            q + 1
                                        };
                                        assert(f[pp].0 != f[qq].0);
                                    }
                                }
                                Poll::Failed(e)
                            },
                        }
                    },
                }
            },
            None => {
                proof {
                    lemma_position(f, key@);
                }
                self.entries.push((key, SearchEntry::Running(now)));
                proof {
                    assert(self.entries() == f.push((search_key(term@, ext@), EntryView::Running(now))));
                }
                Poll::Started
            },
        }
    }

    /// Records that the search for `term` in format `ext` finished at `now`
    /// with `r`.
    pub fn finish(&mut self, term: &str, ext: &str, now: u64, r: Result<SearchOutcome, String>)
        requires
            old(self).wf(),
        ensures
            final(self).wf(),
            final(self).entries() == finish_spec(
                old(self).entries(),
                search_key(term@, ext@),
                now,
                result_view(r),
            ),
    {
        let ghost s = self.entries();
        let ghost rv = result_view(r);
        let key = key_of(term, ext);
        proof {
            lemma_position(s, key@);
        }
        match self.position_of(&key) {
            Some(i) => {
                self.entries.set(i, (key, SearchEntry::Done(now, r)));
                proof {
                    assert(self.entries() == s.update(i as int, (search_key(term@, ext@), EntryView::Done(now, rv))));
                }
            },
            None => {
                self.entries.push((key, SearchEntry::Done(now, r)));
                proof {
                    assert(self.entries() == s.push((search_key(term@, ext@), EntryView::Done(now, rv))));
                }
            },
        }
    }
}

// ---------------------------------------------------------------------------
// Laws

/// The entry `key` of `s`, when fresh, is found in what stays fresh.
proof fn lemma_fresh_position(s: Seq<(Seq<char>, EntryView)>, key: Seq<char>, now: u64)
    requires
        distinct_keys(s),
    ensures
        match position(s, key) {
            Some(i) => if is_fresh(s[i].1, now) {
                match position(fresh(s, now), key) {
                    Some(j) => fresh(s, now)[j] == s[i],
                    None => false,
                }
            } else {
                position(fresh(s, now), key) is None
            },
            None => position(fresh(s, now), key) is None,
        },
    decreases s.len(),
{
    if s.len() > 0 {
        let t = s.drop_last();
        let ft = fresh(t, now);
        assert(distinct_keys(t));
        if s.last().0 == key {
            if is_fresh(s.last().1, now) {
                assert(fresh(s, now) == ft.push(s.last()));
                assert(fresh(s, now).last() == s.last());
            } else {
                assert(fresh(s, now) == ft);
                lemma_fresh(t, now);
                lemma_position(ft, key);
                match position(ft, key) {
                    Some(j) => {
                        let k = choose|k: int| 0 <= k < t.len() && ft[j] == t[k];
                        assert(s[k].0 != s[s.len() - 1].0);
                    },
                    None => {},
                }
            }
        } else {
            lemma_fresh_position(t, key, now);
            lemma_position(t, key);
            lemma_position(ft, key);
            match position(t, key) {
                Some(i) => {
                    assert(s[i] == t[i]);
                },
                None => {},
            }
            if is_fresh(s.last().1, now) {
                assert(fresh(s, now) == ft.push(s.last()));
                assert(fresh(s, now).drop_last() == ft);
                match position(ft, key) {
                    Some(j) => {
                        assert(fresh(s, now)[j] == ft[j]);
                    },
                    None => {},
                }
            } else {
                assert(fresh(s, now) == ft);
            }
        }
    }
}

/// A search that finished is shown with its results when it is looked up
/// within ten minutes.
pub proof fn law_finished_search_is_shown(
    s: Seq<(Seq<char>, EntryView)>,
    key: Seq<char>,
    t: u64,
    o: (Seq<BookView>, Seq<char>, Seq<char>),
    now: u64,
)
    requires
        distinct_keys(s),
        age(now, t) < 600000,
    ensures
        poll_spec(finish_spec(s, key, t, Ok(o)), key, now).1 == PollView::Ready(o),
{
    let s2 = finish_spec(s, key, t, Ok(o));
    lemma_position(s, key);
    let e = (key, EntryView::Done(t, Ok(o)));
    match position(s, key) {
        Some(i) => {
            lemma_position(s2, key);
            assert(s2[i] == e);
            assert(position(s2, key) == Some(i)) by {
                lemma_position(s2, key);
                match position(s2, key) {
                    Some(j) => {
                        if j > i {
                            assert(s2[j] == s[j]);
                        }
                        if j < i {
                            assert(s2[i].0 == key);
                        }
                    },
                    None => {},
                }
            }
            assert forall|p: int, q: int| 0 <= p < q < s2.len() implies s2[p].0 != s2[q].0 by {
                if p != i && q != i {
                    assert(s[p].0 != s[q].0);
                } else if p == i {
                    assert(s[i].0 != s[q].0);
                } else {
                    assert(s[p].0 != s[i].0);
                }
            }
            lemma_fresh_position(s2, key, now);
        },
        None => {
            assert(s2.drop_last() == s);
            assert forall|p: int, q: int| 0 <= p < q < s2.len() implies s2[p].0 != s2[q].0 by {
                if q < s.len() {
                    assert(s[p].0 != s[q].0);
                }
            }
            lemma_fresh_position(s2, key, now);
        },
    }
}

/// A search that is looked up again while it runs is not started twice:
/// the second look-up, within five minutes, waits for it.
pub proof fn law_running_search_not_restarted(
    s: Seq<(Seq<char>, EntryView)>,
    key: Seq<char>,
    now: u64,
    later: u64,
)
    requires
        poll_spec(s, key, now).1 == PollView::Started,
        now <= later,
        later - now < 300000,
    ensures
        poll_spec(poll_spec(s, key, now).0, key, later).1 == PollView::Waiting(
            ((later - now) / 1000) as u64,
        ),
{
    let s1 = poll_spec(s, key, now).0;
    assert(s1 == fresh(s, now).push((key, EntryView::Running(now))));
    assert(s1.drop_last() == fresh(s, now));
    let f = fresh(s1, later);
    assert(f == fresh(fresh(s, now), later).push((key, EntryView::Running(now))));
    assert(f.drop_last() == fresh(fresh(s, now), later));
}

/// A failed search is reported once; the next look-up starts it again.
pub proof fn law_failure_reported_once(s: Seq<(Seq<char>, EntryView)>, key: Seq<char>, now: u64)
    requires
        distinct_keys(s),
        poll_spec(s, key, now).1 is Failed,
    ensures
        poll_spec(poll_spec(s, key, now).0, key, now).1 == PollView::Started,
{
    let f = fresh(s, now);
    lemma_fresh(s, now);
    lemma_position(f, key);
    let i = position(f, key)->0;
    let r = f.remove(i);
    assert forall|j: int| 0 <= j < r.len() implies r[j].0 != key by {
        if j < i {
            assert(r[j] == f[j]);
            assert(f[j].0 != f[i].0);
        } else {
            assert(r[j] == f[j + 1]);
            assert(f[i].0 != f[j + 1].0);
        }
    }
    lemma_fresh(r, now);
    lemma_position(fresh(r, now), key);
    match position(fresh(r, now), key) {
        Some(j) => {
            let k = choose|k: int| 0 <= k < r.len() && fresh(r, now)[j] == r[k];
            assert(r[k].0 != key);
        },
        None => {},
    }
}

/// A book a search showed is found again by its md5: the last one listed
/// with that md5.
pub proof fn law_seen_book_found(s: Seq<BookView>, books: Seq<BookView>, i: int)
    requires
        0 <= i < books.len(),
        forall|j: int| i < j < books.len() ==> books[j].md5 != books[i].md5,
    ensures
        book_by_md5(s + books, books[i].md5) == Some(books[i]),
    decreases books.len(),
{
    let all = s + books;
    if i < books.len() - 1 {
        assert(all.last() == books.last());
        assert(all.drop_last() == s + books.drop_last());
        law_seen_book_found(s, books.drop_last(), i);
    } else {
        assert(all.last() == books[i]);
    }
}

} // verus!
