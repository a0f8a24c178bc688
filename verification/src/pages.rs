//! The HTML pages the Kobo's browser shows: plain forms, big targets, black
//! on white, no JavaScript (a meta refresh shows progress).

use vstd::prelude::*;
use vstd::utf8::encode_utf8;
use crate::annas::Book;
use crate::config::Config;
use crate::jobs::{first_where, has_id, lemma_first_where, Job, State};
use crate::nickel::MANUAL_HINT;
use crate::text::{
    form_encoded, form_urlencode,
    chars_of, decimal, decimal_of, eq_str, join, lemma_join_push, string_of, trim, trim_ws,
    CharClass,
};

verus! {

/// The style sheet every page carries.
pub const CSS: &'static str = "\nbody{font-family:Georgia,serif;font-size:21px;line-height:1.35;margin:0;padding:0 14px 30px;background:#fff;color:#000}\n.top{border-bottom:3px solid #000;padding:12px 0 10px;margin-bottom:14px}\n.top a{display:inline-block;padding:10px 14px;margin:0 8px 6px 0;border:2px solid #000;text-decoration:none;color:#000;font-weight:bold;font-family:Helvetica,Arial,sans-serif}\n.top a.brand{border:none;padding-left:0;font-size:24px}\nh1,h2{font-family:Helvetica,Arial,sans-serif;margin:8px 0 12px}\nh2{font-size:22px}\ninput[type=text],input[type=password],select{font-size:22px;padding:10px;border:2px solid #000;width:100%;box-sizing:border-box;background:#fff;color:#000;margin:4px 0 12px}\nbutton,.btn{font-size:21px;padding:12px 18px;border:3px solid #000;background:#fff;color:#000;font-weight:bold;font-family:Helvetica,Arial,sans-serif;text-decoration:none;display:inline-block}\nbutton.small{font-size:18px;padding:8px 12px;border-width:2px}\n.book{border-bottom:2px solid #000;padding:14px 0}\n.title{font-size:22px;font-weight:bold}\n.meta{margin:6px 0 8px}\n.tag{display:inline-block;border:1px solid #000;padding:1px 7px;margin:2px 6px 2px 0;font-family:Helvetica,Arial,sans-serif;font-size:18px}\n.tag.b{background:#000;color:#fff}\n.box{border:3px solid #000;padding:12px 14px;margin:12px 0}\n.muted{font-size:18px}\n.bar{border:2px solid #000;height:18px;margin:6px 0;position:relative}\n.bar div{background:#000;height:18px}\nlabel{display:block;margin-top:10px;font-family:Helvetica,Arial,sans-serif;font-weight:bold}\nlabel.inline{display:inline;font-weight:normal;font-family:Georgia,serif}\nform.inline{display:inline}\ntable{border-collapse:collapse}td{padding:4px 12px 4px 0;vertical-align:top}\n";

// ---------------------------------------------------------------------------
// Escaping

/// What stands for `c` in HTML text: `&`, `<` and `>` become entities.
pub open spec fn text_entity(c: char) -> Seq<char> {
    if c == '&' {
        "&amp;"@
    } else if c == '\u{3c}' {
        "&lt;"@
    } else if c == '\u{3e}' {
        "&gt;"@
    } else {
        seq![c]
    }
}

/// `s` as HTML text.
pub open spec fn escaped(s: Seq<char>) -> Seq<char>
    decreases s.len(),
{
    if s.len() == 0 {
        seq![]
    } else {
        escaped(s.drop_last()) + text_entity(s.last())
    }
}

/// What stands for `c` inside a double-quoted attribute: as in text, and
/// `"` becomes `&quot;`.
pub open spec fn attr_entity(c: char) -> Seq<char> {
    if c == '"' {
        "&quot;"@
    } else {
        text_entity(c)
    }
}

/// `s` as the value of a double-quoted attribute.
pub open spec fn attr_escaped(s: Seq<char>) -> Seq<char>
    decreases s.len(),
{
    if s.len() == 0 {
        seq![]
    } else {
        attr_escaped(s.drop_last()) + attr_entity(s.last())
    }
}

/// Text put on a page never opens or closes a tag: escaping leaves no `<`
/// and no `>`.
pub proof fn law_escaped_has_no_brackets(s: Seq<char>)
    ensures
        forall|i: int|
            0 <= i < escaped(s).len() ==> #[trigger] escaped(s)[i] != '\u{3c}' && escaped(s)[i]
                != '\u{3e}',
    decreases s.len(),
{
    if s.len() > 0 {
        law_escaped_has_no_brackets(s.drop_last());
        let e = escaped(s.drop_last());
        let t = text_entity(s.last());
        reveal_strlit("&amp;");
        reveal_strlit("&lt;");
        reveal_strlit("&gt;");
        assert forall|k: int| 0 <= k < t.len() implies #[trigger] t[k] != '\u{3c}' && t[k]
            != '\u{3e}' by {}
        assert forall|i: int| 0 <= i < escaped(s).len() implies #[trigger] escaped(s)[i]
            != '\u{3c}' && escaped(s)[i] != '\u{3e}' by {
            if i < e.len() {
                assert(escaped(s)[i] == e[i]);
            } else {
                assert(escaped(s)[i] == t[i - e.len()]);
            }
        }
    }
}

/// Calls `html_escape::encode_text`, whose documentation and source replace
/// `&`, `<` and `>` by `&amp;`, `&lt;` and `&gt;` and keep every other
/// character.
#[verifier::external_body]
fn esc(s: &str) -> (r: String)
    ensures
        r@ == escaped(s@),
{
    html_escape::encode_text(s).into_owned()
}

/// Calls `html_escape::encode_double_quoted_attribute`, which by its
/// documentation and source does what `encode_text` does and also replaces
/// `"` by `&quot;`.
#[verifier::external_body]
fn esc_attr(s: &str) -> (r: String)
    ensures
        r@ == attr_escaped(s@),
{
    html_escape::encode_double_quoted_attribute(s).into_owned()
}

/// Appends the characters of `v` to `out`.
fn add_chars(out: &mut String, v: &[char])
    ensures
        final(out)@ == old(out)@ + v@,
{
    let s = string_of(v);
    out.append(s.as_str());
}

/// Appends `s` to `out`.
fn add_str(out: &mut String, s: &String)
    ensures
        final(out)@ == old(out)@ + s@,
{
    out.append(s.as_str());
}

// ---------------------------------------------------------------------------
// The frame of every page

/// The number of active downloads beside the "Downloads" link, when there
/// are any.
pub open spec fn badge(active: nat) -> Seq<char> {
    if active > 0 {
        " ("@ + decimal(active) + ")"@
    } else {
        seq![]
    }
}

pub open spec fn layout_html(
    title: Seq<char>,
    extra_head: Seq<char>,
    active: nat,
    body: Seq<char>,
) -> Seq<char> {
    "<!DOCTYPE html><html><head><meta charset=\"utf-8\"><meta name=\"viewport\" content=\"width=device-width, initial-scale=1\"><title>"@
        + escaped(title) + "</title><style>"@ + CSS@ + "</style>"@ + extra_head
        + "</head><body><div class=\"top\"><a class=\"brand\" href=\"/\">Anna's Kobo</a><a href=\"/\">Search</a><a href=\"/jobs\">Downloads"@
        + badge(active) + "</a><a href=\"/settings\">Settings</a></div>"@ + body
        + "</body></html>"@
}

fn badge_text(active: usize) -> (r: String)
    ensures
        r@ == badge(active as nat),
{
    if active > 0 {
        let mut s = String::from_str(" (");
        add_chars(&mut s, &decimal_of(active as u64));
        s.append(")");
        s
    } else {
        String::new()
    }
}

/// The page around `body`: the title, the style sheet, `extra_head` and the
/// links at the top, with the number of active downloads.
pub fn layout(title: &str, extra_head: &str, active: usize, body: &str) -> (r: String)
    ensures
        r@ == layout_html(title@, extra_head@, active as nat, body@),
{
    let mut s = String::from_str(
        "<!DOCTYPE html><html><head><meta charset=\"utf-8\"><meta name=\"viewport\" content=\"width=device-width, initial-scale=1\"><title>",
    );
    add_str(&mut s, &esc(title));
    s.append("</title><style>");
    s.append(CSS);
    s.append("</style>");
    s.append(extra_head);
    s.append(
        "</head><body><div class=\"top\"><a class=\"brand\" href=\"/\">Anna's Kobo</a><a href=\"/\">Search</a><a href=\"/jobs\">Downloads",
    );
    add_str(&mut s, &badge_text(active));
    s.append("</a><a href=\"/settings\">Settings</a></div>");
    s.append(body);
    s.append("</body></html>");
    s
}

pub open spec fn error_body(title: Seq<char>, msg: Seq<char>) -> Seq<char> {
    "<h1>"@ + escaped(title) + "</h1><div class=\"box\">"@ + escaped(msg)
        + "</div><p><a class=\"btn\" href=\"/\">Back</a></p>"@
}

/// A page that says what went wrong, with a link back to the search.
pub fn error(title: &str, msg: &str, active: usize) -> (r: String)
    ensures
        r@ == layout_html(title@, seq![], active as nat, error_body(title@, msg@)),
{
    let mut body = String::from_str("<h1>");
    add_str(&mut body, &esc(title));
    body.append("</h1><div class=\"box\">");
    add_str(&mut body, &esc(msg));
    body.append("</div><p><a class=\"btn\" href=\"/\">Back</a></p>");
    proof {
        reveal_strlit("");
    }
    layout(title, "", active, body.as_str())
}

// ---------------------------------------------------------------------------
// The search form

pub open spec fn option_html(v: Seq<char>, l: Seq<char>, selected: Seq<char>) -> Seq<char> {
    "<option value=\""@ + v + "\""@ + (if v == selected {
        " selected"@
    } else {
        seq![]
    }) + ">"@ + l + "</option>"@
}

/// The choices of the format list, `selected` marked.
pub open spec fn ext_options_html(selected: Seq<char>) -> Seq<char> {
    option_html(""@, "Any format"@, selected) + option_html("epub"@, "EPUB"@, selected)
        + option_html("pdf"@, "PDF"@, selected) + option_html("mobi"@, "MOBI"@, selected)
        + option_html("azw3"@, "AZW3"@, selected) + option_html("cbz"@, "CBZ"@, selected)
}

fn option_text(v: &str, l: &str, selected: &str) -> (r: String)
    ensures
        r@ == option_html(v@, l@, selected@),
{
    let mut s = String::from_str("<option value=\"");
    s.append(v);
    s.append("\"");
    let sel = if eq_str(v, selected) {
        String::from_str(" selected")
    } else {
        String::new()
    };
    add_str(&mut s, &sel);
    s.append(">");
    s.append(l);
    s.append("</option>");
    s
}

fn ext_options(selected: &str) -> (r: String)
    ensures
        r@ == ext_options_html(selected@),
{
    let mut s = option_text("", "Any format", selected);
    add_str(&mut s, &option_text("epub", "EPUB", selected));
    add_str(&mut s, &option_text("pdf", "PDF", selected));
    add_str(&mut s, &option_text("mobi", "MOBI", selected));
    add_str(&mut s, &option_text("azw3", "AZW3", selected));
    add_str(&mut s, &option_text("cbz", "CBZ", selected));
    s
}

pub open spec fn search_form_html(q: Seq<char>, ext: Seq<char>) -> Seq<char> {
    "<form method=\"get\" action=\"/search\"><input type=\"text\" name=\"q\" value=\""@
        + escaped(q)
        + "\" placeholder=\"Title, author, ISBN\" autofocus><select name=\"ext\">"@
        + ext_options_html(ext) + "</select><button type=\"submit\">Search</button></form>"@
}

/// The search box with the format list, holding `q` and `ext`.
pub fn search_form(q: &str, ext: &str) -> (r: String)
    ensures
        r@ == search_form_html(q@, ext@),
{
    let mut s = String::from_str(
        "<form method=\"get\" action=\"/search\"><input type=\"text\" name=\"q\" value=\"",
    );
    add_str(&mut s, &esc(q));
    s.append("\" placeholder=\"Title, author, ISBN\" autofocus><select name=\"ext\">");
    add_str(&mut s, &ext_options(ext));
    s.append("</select><button type=\"submit\">Search</button></form>");
    s
}

// ---------------------------------------------------------------------------
// The start page

/// A text with a box around it, or nothing when the text is empty.
pub open spec fn message_box(class: Seq<char>, msg: Seq<char>) -> Seq<char> {
    if msg.len() > 0 {
        "<div class=\""@ + class + "\">"@ + escaped(msg) + "</div>"@
    } else {
        seq![]
    }
}

fn message_box_text(class: &str, msg: &str) -> (r: String)
    ensures
        r@ == message_box(class@, msg@),
{
    let m = chars_of(msg);
    if m.len() > 0 {
        let mut s = String::from_str("<div class=\"");
        s.append(class);
        s.append("\">");
        add_str(&mut s, &esc(msg));
        s.append("</div>");
        s
    } else {
        String::new()
    }
}

pub open spec fn key_line(cfg: Config) -> Seq<char> {
    if trim_ws(cfg.secret_key@).len() == 0 {
        "none, downloads use LibGen's free servers"@
    } else {
        "set, downloads use Anna's fast servers"@
    }
}

pub open spec fn annas_line(cfg: Config, annas: Option<String>) -> Seq<char> {
    if trim_ws(cfg.base_url@).len() > 0 {
        escaped(cfg.base_url@) + " (fixed in Settings)"@
    } else {
        match annas {
            Some(h) => h@ + " (auto)"@,
            None => "picked from open-slum.org on first use"@,
        }
    }
}

pub open spec fn libgen_line(libgen: Option<String>) -> Seq<char> {
    match libgen {
        Some(h) => h@ + " (auto)"@,
        None => "picked on first use"@,
    }
}

pub open spec fn deliver_line(cfg: Config) -> Seq<char> {
    if cfg.deliver@ == "folder"@ {
        "saved to "@ + escaped(cfg.download_dir@)
    } else {
        "added to the library through the browser"@
    }
}

pub open spec fn kepub_line(cfg: Config) -> Seq<char> {
    if cfg.kepubify {
        "convert EPUBs on download"@
    } else {
        "off"@
    }
}

pub open spec fn home_body(
    cfg: Config,
    annas: Option<String>,
    libgen: Option<String>,
    msg: Seq<char>,
) -> Seq<char> {
    message_box("box"@, msg) + "<h1>Find a book</h1>"@ + search_form_html(seq![], "epub"@)
        + "<div class=\"box muted\"><table><tr><td>Anna's key</td><td>"@ + key_line(cfg)
        + "</td></tr><tr><td>Anna's mirror</td><td>"@ + annas_line(cfg, annas)
        + "</td></tr><tr><td>LibGen mirror</td><td>"@ + libgen_line(libgen)
        + "</td></tr><tr><td>After download</td><td>"@ + deliver_line(cfg)
        + "</td></tr><tr><td>Kepub</td><td>"@ + kepub_line(cfg)
        + "</td></tr></table></div>"@
        + "<form method=\"post\" action=\"/quit\" class=\"inline\"><button class=\"small\" type=\"submit\">Quit background service</button></form>"@
}

fn is_blank(s: &str) -> (b: bool)
    ensures
        b == (trim_ws(s@).len() == 0),
{
    trim(&chars_of(s), &CharClass::Space).len() == 0
}

/// The start page: the search box and what the service is set up to do
/// (`annas` and `libgen` are the mirrors chosen so far).
pub fn home(
    cfg: &Config,
    active: usize,
    annas: Option<String>,
    libgen: Option<String>,
    msg: &str,
) -> (r: String)
    ensures
        r@ == layout_html("Anna's Kobo"@, seq![], active as nat, home_body(*cfg, annas, libgen, msg@)),
{
    let mut body = message_box_text("box", msg);
    body.append("<h1>Find a book</h1>");
    proof {
        reveal_strlit("");
    }
    add_str(&mut body, &search_form("", "epub"));
    body.append("<div class=\"box muted\"><table><tr><td>Anna's key</td><td>");
    let key = if is_blank(cfg.secret_key.as_str()) {
        String::from_str("none, downloads use LibGen's free servers")
    } else {
        String::from_str("set, downloads use Anna's fast servers")
    };
    add_str(&mut body, &key);
    body.append("</td></tr><tr><td>Anna's mirror</td><td>");
    let a = if !is_blank(cfg.base_url.as_str()) {
        let mut t = esc(cfg.base_url.as_str());
        t.append(" (fixed in Settings)");
        t
    } else {
        match annas {
            Some(h) => {
                let mut t = h;
                t.append(" (auto)");
                t
            },
            None => String::from_str("picked from open-slum.org on first use"),
        }
    };
    add_str(&mut body, &a);
    body.append("</td></tr><tr><td>LibGen mirror</td><td>");
    let l = match libgen {
        Some(h) => {
            let mut t = h;
            t.append(" (auto)");
            t
        },
        None => String::from_str("picked on first use"),
    };
    add_str(&mut body, &l);
    body.append("</td></tr><tr><td>After download</td><td>");
    let d = if eq_str(cfg.deliver.as_str(), "folder") {
        let mut t = String::from_str("saved to ");
        add_str(&mut t, &esc(cfg.download_dir.as_str()));
        t
    } else {
        String::from_str("added to the library through the browser")
    };
    add_str(&mut body, &d);
    body.append("</td></tr><tr><td>Kepub</td><td>");
    let k = if cfg.kepubify {
        String::from_str("convert EPUBs on download")
    } else {
        String::from_str("off")
    };
    add_str(&mut body, &k);
    body.append("</td></tr></table></div>");
    body.append(
        "<form method=\"post\" action=\"/quit\" class=\"inline\"><button class=\"small\" type=\"submit\">Quit background service</button></form>",
    );
    layout("Anna's Kobo", "", active, body.as_str())
}

// ---------------------------------------------------------------------------
// Search results

/// The separator between author, publisher and year.
pub open spec fn meta_sep() -> Seq<char> {
    seq![' ', '\u{b7}', ' ']
}

/// A part of the line under a title, when it is not empty.
pub open spec fn with_part(parts: Seq<Seq<char>>, s: Seq<char>) -> Seq<Seq<char>> {
    if s.len() > 0 {
        parts.push(escaped(s))
    } else {
        parts
    }
}

/// Author, publisher and year, those that are known.
pub open spec fn meta_parts(b: Book) -> Seq<Seq<char>> {
    with_part(with_part(with_part(seq![], b.authors@), b.publisher@), b.year@)
}

/// A tag, or nothing when `s` is empty.
pub open spec fn tag(class: Seq<char>, s: Seq<char>) -> Seq<char> {
    if s.len() > 0 {
        "<span class=\""@ + class + "\">"@ + escaped(s) + "</span>"@
    } else {
        seq![]
    }
}

pub open spec fn book_html(b: Book) -> Seq<char> {
    "<div class=\"book\"><div class=\"title\">"@ + escaped(b.title@)
        + "</div><div class=\"meta\">"@ + join(meta_parts(b), meta_sep()) + "</div><div>"@
        + tag("tag b"@, b.format@) + tag("tag"@, b.size@) + tag("tag"@, b.language@)
        + "</div><form method=\"post\" action=\"/download\" style=\"margin-top:8px\"><input type=\"hidden\" name=\"md5\" value=\""@
        + escaped(b.md5@) + "\"><button type=\"submit\">Download</button></form></div>"@
}

/// The entries of `books`, in order.
pub open spec fn books_html(books: Seq<Book>) -> Seq<char>
    decreases books.len(),
{
    if books.len() == 0 {
        seq![]
    } else {
        books_html(books.drop_last()) + book_html(books.last())
    }
}

pub open spec fn results_body(
    q: Seq<char>,
    ext: Seq<char>,
    source: Seq<char>,
    note: Seq<char>,
    books: Seq<Book>,
) -> Seq<char> {
    search_form_html(q, ext) + "<h2>"@ + decimal(books.len()) + " result"@ + (if books.len()
        == 1 {
        seq![]
    } else {
        seq!['s']
    }) + " for \u{201c}"@ + escaped(q) + "\u{201d} via "@ + escaped(source) + "</h2>"@
        + message_box("box muted"@, note) + (if books.len() == 0 {
        "<p>Nothing found. Try fewer words, or another format.</p>"@
    } else {
        seq![]
    }) + books_html(books)
}

fn tag_text(class: &str, s: &String) -> (r: String)
    ensures
        r@ == tag(class@, s@),
{
    if chars_of(s.as_str()).len() > 0 {
        let mut t = String::from_str("<span class=\"");
        t.append(class);
        t.append("\">");
        add_str(&mut t, &esc(s.as_str()));
        t.append("</span>");
        t
    } else {
        String::new()
    }
}

fn add_part(
    line: &mut String,
    has: &mut bool,
    parts: Ghost<Seq<Seq<char>>>,
    s: &String,
) -> (r: Ghost<Seq<Seq<char>>>)
    requires
        old(line)@ == join(parts@, meta_sep()),
        *old(has) == (parts@.len() > 0),
    ensures
        r@ == with_part(parts@, s@),
        final(line)@ == join(r@, meta_sep()),
        *final(has) == (r@.len() > 0),
{
    if chars_of(s.as_str()).len() > 0 {
        let e = esc(s.as_str());
        proof {
            lemma_join_push(parts@, meta_sep(), e@);
        }
        if *has {
            let sep: Vec<char> = vec![' ', '\u{b7}', ' '];
            add_chars(line, &sep);
        }
        add_str(line, &e);
        proof {
            if parts@.len() == 0 {
                assert(line@ =~= e@);
            }
        }
        *has = true;
        Ghost(parts@.push(e@))
    } else {
        parts
    }
}

fn book_text(b: &Book) -> (r: String)
    ensures
        r@ == book_html(*b),
{
    let mut s = String::from_str("<div class=\"book\"><div class=\"title\">");
    add_str(&mut s, &esc(b.title.as_str()));
    s.append("</div><div class=\"meta\">");
    let mut line = String::new();
    let mut has = false;
    let ghost p0: Seq<Seq<char>> = seq![];
    let p1 = add_part(&mut line, &mut has, Ghost(p0), &b.authors);
    let p2 = add_part(&mut line, &mut has, p1, &b.publisher);
    let p3 = add_part(&mut line, &mut has, p2, &b.year);
    assert(p3@ == meta_parts(*b));
    add_str(&mut s, &line);
    s.append("</div><div>");
    add_str(&mut s, &tag_text("tag b", &b.format));
    add_str(&mut s, &tag_text("tag", &b.size));
    add_str(&mut s, &tag_text("tag", &b.language));
    s.append(
        "</div><form method=\"post\" action=\"/download\" style=\"margin-top:8px\"><input type=\"hidden\" name=\"md5\" value=\"",
    );
    add_str(&mut s, &esc(b.md5.as_str()));
    s.append("\"><button type=\"submit\">Download</button></form></div>");
    s
}

/// The results of a search for `q` (in format `ext`) from `source`, with
/// the search box on top and `note` under the heading.
pub fn results(
    q: &str,
    ext: &str,
    source: &str,
    note: &str,
    books: &[Book],
    active: usize,
) -> (r: String)
    ensures
        r@ == layout_html(
            q@ + " - Anna's Kobo"@,
            seq![],
            active as nat,
            results_body(q@, ext@, source@, note@, books@),
        ),
{
    let mut body = search_form(q, ext);
    body.append("<h2>");
    add_chars(&mut body, &decimal_of(books.len() as u64));
    body.append(" result");
    let plural = if books.len() == 1 {
        String::new()
    } else {
        string_of(&vec!['s'])
    };
    add_str(&mut body, &plural);
    body.append(" for \u{201c}");
    add_str(&mut body, &esc(q));
    body.append("\u{201d} via ");
    add_str(&mut body, &esc(source));
    body.append("</h2>");
    add_str(&mut body, &message_box_text("box muted", note));
    let none = if books.len() == 0 {
        String::from_str("<p>Nothing found. Try fewer words, or another format.</p>")
    } else {
        String::new()
    };
    add_str(&mut body, &none);
    let mut list = String::new();
    let mut i: usize = 0;
    while i < books.len()
        invariant
            i <= books.len(),
            list@ == books_html(books@.take(i as int)),
        decreases books.len() - i,
    {
        add_str(&mut list, &book_text(&books[i]));
        i += 1;
        assert(books@.take(i as int).drop_last() == books@.take(i - 1));
    }
    assert(books@.take(i as int) == books@);
    add_str(&mut body, &list);
    let mut title = String::from_str(q);
    title.append(" - Anna's Kobo");
    proof {
        reveal_strlit("");
    }
    layout(title.as_str(), "", active, body.as_str())
}

// ---------------------------------------------------------------------------
// Waiting for a search

/// The address the waiting page reloads: the search again.
pub open spec fn search_target(q: Seq<char>, ext: Seq<char>) -> Seq<char> {
    "/search?q="@ + form_encoded(encode_utf8(q)) + "&ext="@ + form_encoded(encode_utf8(ext))
}

/// What the waiting page says after `secs` seconds.
pub open spec fn search_hint(secs: nat, mirrors_known: bool) -> Seq<char> {
    if secs == 0 {
        "Contacting the library\u{2026}"@
    } else if !mirrors_known && secs < 20 {
        "Picking a mirror from open-slum.org\u{2026} "@ + decimal(secs) + " s"@
    } else if secs < 45 {
        "Waiting for the library\u{2026} "@ + decimal(secs) + " s"@
    } else {
        "Still waiting ("@ + decimal(secs)
            + " s). Mirrors are slow right now; this gives up after a minute or two."@
    }
}

pub open spec fn searching_head(q: Seq<char>, ext: Seq<char>) -> Seq<char> {
    "<meta http-equiv=\"refresh\" content=\"3;url="@ + attr_escaped(search_target(q, ext))
        + "\">"@
}

pub open spec fn searching_body(q: Seq<char>, ext: Seq<char>, secs: nat, mirrors_known: bool) -> Seq<
    char,
> {
    "<h1>Searching for \u{201c}"@ + escaped(q) + "\u{201d}</h1><div class=\"box\">"@
        + escaped(search_hint(secs, mirrors_known))
        + "</div><p class=\"muted\">This page refreshes by itself. <a href=\""@
        + attr_escaped(search_target(q, ext))
        + "\">Refresh now</a> \u{00b7} <a href=\"/\">Cancel</a></p>"@
}

fn search_hint_text(secs: u64, mirrors_known: bool) -> (r: String)
    ensures
        r@ == search_hint(secs as nat, mirrors_known),
{
    if secs == 0 {
        String::from_str("Contacting the library\u{2026}")
    } else if !mirrors_known && secs < 20 {
        let mut s = String::from_str("Picking a mirror from open-slum.org\u{2026} ");
        add_chars(&mut s, &decimal_of(secs));
        s.append(" s");
        s
    } else if secs < 45 {
        let mut s = String::from_str("Waiting for the library\u{2026} ");
        add_chars(&mut s, &decimal_of(secs));
        s.append(" s");
        s
    } else {
        let mut s = String::from_str("Still waiting (");
        add_chars(&mut s, &decimal_of(secs));
        s.append(" s). Mirrors are slow right now; this gives up after a minute or two.");
        s
    }
}

/// The page shown while a search for `q` runs: it reloads itself every
/// three seconds and says how long the search has taken.
pub fn searching(q: &str, ext: &str, secs: u64, mirrors_known: bool, active: usize) -> (r: String)
    ensures
        r@ == layout_html(
            "Searching - Anna's Kobo"@,
            searching_head(q@, ext@),
            active as nat,
            searching_body(q@, ext@, secs as nat, mirrors_known),
        ),
{
    let mut target = String::from_str("/search?q=");
    add_chars(&mut target, &form_urlencode(&chars_of(q)));
    target.append("&ext=");
    add_chars(&mut target, &form_urlencode(&chars_of(ext)));
    let target_attr = esc_attr(target.as_str());
    let mut head = String::from_str("<meta http-equiv=\"refresh\" content=\"3;url=");
    add_str(&mut head, &target_attr);
    head.append("\">");
    let mut body = String::from_str("<h1>Searching for \u{201c}");
    add_str(&mut body, &esc(q));
    body.append("\u{201d}</h1><div class=\"box\">");
    add_str(&mut body, &esc(search_hint_text(secs, mirrors_known).as_str()));
    body.append("</div><p class=\"muted\">This page refreshes by itself. <a href=\"");
    add_str(&mut body, &target_attr);
    body.append("\">Refresh now</a> \u{00b7} <a href=\"/\">Cancel</a></p>");
    layout("Searching - Anna's Kobo", head.as_str(), active, body.as_str())
}

// ---------------------------------------------------------------------------
// Sizes

/// `n` bytes in tenths of a mebibyte, rounded to the nearest tenth and to
/// an even number of tenths on a tie.
pub open spec fn tenths_of_mib(n: nat) -> nat {
    let q = (n * 10) / 1048576;
    let r = (n * 10) % 1048576;
    if 2 * r > 1048576 || (2 * r == 1048576 && q % 2 == 1) {
        q + 1
    } else {
        q
    }
}

/// A size for people: mebibytes with one decimal, else kibibytes, else
/// bytes.
pub open spec fn human_size(n: nat) -> Seq<char> {
    if n >= 1048576 {
        decimal(tenths_of_mib(n) / 10) + "."@ + decimal(tenths_of_mib(n) % 10) + " MB"@
    } else if n >= 1024 {
        decimal(n / 1024) + " KB"@
    } else {
        decimal(n) + " B"@
    }
}

/// `n` bytes as the downloads page shows it.
pub fn human(n: u64) -> (r: String)
    ensures
        r@ == human_size(n as nat),
{
    if n >= 1048576 {
        let wide: u128 = n as u128 * 10;
        let q: u128 = wide / 1048576;
        let rem: u128 = wide % 1048576;
        let t: u128 = if 2 * rem > 1048576 || (2 * rem == 1048576 && q % 2 == 1) {
            q + 1
        } else {
            q
        };
        assert(t == tenths_of_mib(n as nat));
        assert(t / 10 <= u64::MAX) by (nonlinear_arith)
            requires
                t <= q + 1,
                q == (n * 10) / 1048576,
                n <= u64::MAX,
        ;
        let mut s = String::new();
        add_chars(&mut s, &decimal_of((t / 10) as u64));
        s.append(".");
        add_chars(&mut s, &decimal_of((t % 10) as u64));
        s.append(" MB");
        proof {
            reveal_strlit("");
            assert(s@ =~= human_size(n as nat));
        }
        s
    } else if n >= 1024 {
        let mut s = String::new();
        add_chars(&mut s, &decimal_of(n / 1024));
        s.append(" KB");
        proof {
            reveal_strlit("");
            assert(s@ =~= human_size(n as nat));
        }
        s
    } else {
        let mut s = String::new();
        add_chars(&mut s, &decimal_of(n));
        s.append(" B");
        proof {
            reveal_strlit("");
            assert(s@ =~= human_size(n as nat));
        }
        s
    }
}

// ---------------------------------------------------------------------------
// The downloads page

/// The last component of the path `p`, as `std::path::Path::file_name`
/// gives it.
pub uninterp spec fn path_file_name(p: Seq<char>) -> Option<Seq<char>>;

/// Calls `std::path::Path::file_name` on `p`. Its result is named, not
/// stated: the rules for separators, `.` and `..` are std's.
#[verifier::external_body]
pub(crate) fn file_name(p: &str) -> (r: Option<String>)
    ensures
        match r {
            Some(f) => path_file_name(p@) == Some(f@),
            None => path_file_name(p@) == None::<Seq<char>>,
        },
{
    std::path::Path::new(p).file_name().map(|f| f.to_string_lossy().into_owned())
}

/// The file name of `p`, or nothing.
pub open spec fn name_in(p: Seq<char>) -> Seq<char> {
    match path_file_name(p) {
        Some(f) => f,
        None => seq![],
    }
}

/// How far a download with a known size is, in percent.
pub open spec fn percent(bytes: u64, total: u64) -> nat {
    let p = (bytes * 100) / (total as int);
    if p > 100 {
        100
    } else {
        p as nat
    }
}

/// A download with a known, non-zero size.
pub open spec fn sized_download(j: Job) -> bool {
    j.state == State::Downloading && match j.total {
        Some(t) => t > 0,
        None => false,
    }
}

/// The figures of the page fit in 64 bits: a running download has received
/// fewer than `u64::MAX / 100` bytes.
pub open spec fn page_fits(j: Job) -> bool {
    sized_download(j) ==> j.bytes * 100 <= u64::MAX
}

pub open spec fn job_status(j: Job) -> Seq<char> {
    match j.state {
        State::Downloading => match j.total {
            Some(t) => if t > 0 {
                "downloading "@ + human_size(j.bytes as nat) + " of "@ + human_size(t as nat)
                    + " ("@ + decimal(percent(j.bytes, t)) + "%)"@
            } else {
                "downloading "@ + human_size(j.bytes as nat)
            },
            None => "downloading "@ + human_size(j.bytes as nat),
        },
        State::Done => match j.path {
            Some(p) => "done: "@ + name_in(p@),
            None => j.state.label_of(),
        },
        _ => j.state.label_of(),
    }
}

pub open spec fn job_bar(j: Job) -> Seq<char> {
    match j.total {
        Some(t) => if sized_download(j) {
            "<div class=\"bar\"><div style=\"width:"@ + decimal(percent(j.bytes, t))
                + "%\"></div></div>"@
        } else {
            seq![]
        },
        None => seq![],
    }
}

pub open spec fn job_action(j: Job, browser_mode: bool) -> Seq<char> {
    if browser_mode && j.state == State::Done {
        "<p><a class=\"btn\" href=\"/file/"@ + decimal(j.id as nat) + "\">"@ + (if j.delivered {
            "Add to library again"@
        } else {
            "Add to library"@
        }) + "</a></p>"@
    } else if j.state == State::Failed {
        "<form method=\"post\" action=\"/jobs/retry\" style=\"margin-top:8px\"><input type=\"hidden\" name=\"id\" value=\""@
            + decimal(j.id as nat) + "\"><button type=\"submit\">Retry</button></form>"@
    } else {
        seq![]
    }
}

pub open spec fn job_html(j: Job, browser_mode: bool) -> Seq<char> {
    "<div class=\"book\"><div class=\"title\">"@ + escaped(j.book.title@)
        + "</div><div class=\"meta\">"@ + escaped(job_status(j)) + "</div>"@ + job_bar(j)
        + message_box("muted"@, j.detail@) + job_action(j, browser_mode) + "</div>"@
}

/// The entries of `jobs`, in order.
pub open spec fn jobs_html(jobs: Seq<Job>, browser_mode: bool) -> Seq<char>
    decreases jobs.len(),
{
    if jobs.len() == 0 {
        seq![]
    } else {
        jobs_html(jobs.drop_last(), browser_mode) + job_html(jobs.last(), browser_mode)
    }
}

/// The title of the first job `id`, or nothing.
pub open spec fn title_for(jobs: Seq<Job>, id: u64) -> Seq<char> {
    match first_where(jobs.map_values(|j: Job| j@), has_id(id)) {
        Some(i) => jobs[i].book.title@,
        None => seq![],
    }
}

/// The page reloads itself: into the finished book `deliver`, or every
/// three seconds while downloads run.
pub open spec fn jobs_head(active: nat, deliver: Option<u64>) -> Seq<char> {
    match deliver {
        Some(id) => "<meta http-equiv=\"refresh\" content=\"1;url=/file/"@ + decimal(id as nat)
            + "\">"@,
        None => if active > 0 {
            "<meta http-equiv=\"refresh\" content=\"3\">"@
        } else {
            seq![]
        },
    }
}

pub open spec fn sending_box(jobs: Seq<Job>, deliver: Option<u64>) -> Seq<char> {
    match deliver {
        Some(id) => "<div class=\"box\">Sending \u{201c}"@ + escaped(title_for(jobs, id))
            + "\u{201d} to your library\u{2026} Tap Continue in the download dialog. Nickel then adds the book in the background; it shows up in My Books within a minute or two. If no dialog appears, tap <a href=\"/file/"@
            + decimal(id as nat) + "\">Add to library</a>.</div>"@,
        None => seq![],
    }
}

pub open spec fn jobs_footer(nickel: bool, on_kobo: bool, browser_mode: bool) -> Seq<char> {
    if browser_mode {
        if on_kobo {
            "<p class=\"muted\">Finished books are handed to the Kobo browser (tap Continue). Nickel adds each one in the background, about a minute per book; then it is in My Books. \u{201c}Add to library again\u{201d} makes a second copy.</p>"@
        } else {
            seq![]
        }
    } else if nickel {
        "<p class=\"muted\">Finished books are imported automatically when the queue is empty. Close this window afterwards to see them in My Books.</p>"@
    } else if on_kobo {
        "<p class=\"muted\">To see finished books in your library, "@ + MANUAL_HINT@ + ".</p>"@
    } else {
        seq![]
    }
}

pub open spec fn jobs_body(
    jobs: Seq<Job>,
    import_msg: Seq<char>,
    nickel: bool,
    on_kobo: bool,
    browser_mode: bool,
    deliver: Option<u64>,
) -> Seq<char> {
    "<h1>Downloads</h1>"@ + sending_box(jobs, deliver) + message_box("box"@, import_msg) + (if jobs.len()
        == 0 {
        "<p>Nothing yet. Search for a book and tap Download.</p>"@
    } else {
        seq![]
    }) + jobs_html(jobs, browser_mode) + "<p style=\"margin-top:16px\">"@ + (if nickel
        && !browser_mode {
        "<form method=\"post\" action=\"/import\" class=\"inline\"><button type=\"submit\">Import into library now</button></form> "@
    } else {
        seq![]
    })
        + "<form method=\"post\" action=\"/jobs/clear\" class=\"inline\"><button class=\"small\" type=\"submit\">Clear finished</button></form></p>"@
        + jobs_footer(nickel, on_kobo, browser_mode)
}

fn percent_of(bytes: u64, total: u64) -> (p: u64)
    requires
        total > 0,
        bytes * 100 <= u64::MAX,
    ensures
        p == percent(bytes, total),
{
    let p = bytes * 100 / total;
    if p > 100 {
        100
    } else {
        p
    }
}

fn job_status_text(j: &Job) -> (r: String)
    requires
        page_fits(*j),
    ensures
        r@ == job_status(*j),
{
    match j.state {
        State::Downloading => {
            let mut s = String::from_str("downloading ");
            add_str(&mut s, &human(j.bytes));
            match j.total {
                Some(t) => {
                    if t > 0 {
                        s.append(" of ");
                        add_str(&mut s, &human(t));
                        s.append(" (");
                        add_chars(&mut s, &decimal_of(percent_of(j.bytes, t)));
                        s.append("%)");
                    }
                },
                None => {},
            }
            s
        },
        State::Done => match &j.path {
            Some(p) => {
                let mut s = String::from_str("done: ");
                match file_name(p.as_str()) {
                    Some(f) => add_str(&mut s, &f),
                    None => {
                        proof {
                            reveal_strlit("done: ");
                            assert(s@ =~= "done: "@ + name_in(p@));
                        }
                    },
                }
                s
            },
            None => String::from_str(j.state.label()),
        },
        _ => String::from_str(j.state.label()),
    }
}

fn job_text(j: &Job, browser_mode: bool) -> (r: String)
    requires
        page_fits(*j),
    ensures
        r@ == job_html(*j, browser_mode),
{
    let mut s = String::from_str("<div class=\"book\"><div class=\"title\">");
    add_str(&mut s, &esc(j.book.title.as_str()));
    s.append("</div><div class=\"meta\">");
    add_str(&mut s, &esc(job_status_text(j).as_str()));
    s.append("</div>");
    let bar = match j.total {
        Some(t) => if j.state == State::Downloading && t > 0 {
            let mut b = String::from_str("<div class=\"bar\"><div style=\"width:");
            add_chars(&mut b, &decimal_of(percent_of(j.bytes, t)));
            b.append("%\"></div></div>");
            b
        } else {
            String::new()
        },
        None => String::new(),
    };
    add_str(&mut s, &bar);
    add_str(&mut s, &message_box_text("muted", j.detail.as_str()));
    let action = if browser_mode && j.state == State::Done {
        let mut a = String::from_str("<p><a class=\"btn\" href=\"/file/");
        add_chars(&mut a, &decimal_of(j.id));
        a.append("\">");
        let label = if j.delivered {
            String::from_str("Add to library again")
        } else {
            String::from_str("Add to library")
        };
        add_str(&mut a, &label);
        a.append("</a></p>");
        a
    } else if j.state == State::Failed {
        let mut a = String::from_str(
            "<form method=\"post\" action=\"/jobs/retry\" style=\"margin-top:8px\"><input type=\"hidden\" name=\"id\" value=\"",
        );
        add_chars(&mut a, &decimal_of(j.id));
        a.append("\"><button type=\"submit\">Retry</button></form>");
        a
    } else {
        String::new()
    };
    add_str(&mut s, &action);
    s.append("</div>");
    s
}

fn title_text(jobs: &[Job], id: u64) -> (r: String)
    ensures
        r@ == title_for(jobs@, id),
{
    let ghost views = jobs@.map_values(|j: Job| j@);
    proof {
        lemma_first_where(views, has_id(id));
    }
    let mut i: usize = 0;
    while i < jobs.len()
        invariant
            i <= jobs.len(),
            views == jobs@.map_values(|j: Job| j@),
            forall|k: int| 0 <= k < i ==> jobs@[k].id != id,
            match first_where(views, has_id(id)) {
                Some(f) => 0 <= f < views.len() && has_id(id)(views[f]) && forall|k: int|
                    0 <= k < f ==> !has_id(id)(#[trigger] views[k]),
                None => forall|k: int| 0 <= k < views.len() ==> !has_id(id)(#[trigger] views[k]),
            },
        decreases jobs.len() - i,
    {
        if jobs[i].id == id {
            proof {
                assert(views[i as int] == jobs@[i as int]@);
                match first_where(views, has_id(id)) {
                    Some(f) => {
                        if f < i {
                            assert(views[f] == jobs@[f]@);
                        }
                        if f > i {
                            assert(!has_id(id)(views[i as int]));
                        }
                    },
                    None => {
                        assert(!has_id(id)(views[i as int]));
                    },
                }
            }
            return jobs[i].book.title.clone();
        }
        i += 1;
    }
    proof {
        match first_where(views, has_id(id)) {
            Some(f) => {
                assert(views[f] == jobs@[f]@);
            },
            None => {},
        }
        reveal_strlit("");
    }
    String::new()
}

/// The downloads page: each job with its state, the finished book that is
/// being handed to the browser (`deliver`), the last import message, and the
/// buttons the delivery mode calls for.
pub fn jobs(
    entries: &[Job],
    active: usize,
    import_msg: &str,
    nickel: bool,
    on_kobo: bool,
    browser_mode: bool,
    deliver: Option<u64>,
) -> (r: String)
    requires
        forall|i: int| 0 <= i < entries.len() ==> page_fits(#[trigger] entries[i]),
    ensures
        r@ == layout_html(
            "Downloads - Anna's Kobo"@,
            jobs_head(active as nat, deliver),
            active as nat,
            jobs_body(entries@, import_msg@, nickel, on_kobo, browser_mode, deliver),
        ),
{
    let head = match deliver {
        Some(id) => {
            let mut h = String::from_str("<meta http-equiv=\"refresh\" content=\"1;url=/file/");
            add_chars(&mut h, &decimal_of(id));
            h.append("\">");
            h
        },
        None => if active > 0 {
            String::from_str("<meta http-equiv=\"refresh\" content=\"3\">")
        } else {
            String::new()
        },
    };
    let mut body = String::from_str("<h1>Downloads</h1>");
    let sending = match deliver {
        Some(id) => {
            let mut b = String::from_str("<div class=\"box\">Sending \u{201c}");
            add_str(&mut b, &esc(title_text(entries, id).as_str()));
            b.append(
                "\u{201d} to your library\u{2026} Tap Continue in the download dialog. Nickel then adds the book in the background; it shows up in My Books within a minute or two. If no dialog appears, tap <a href=\"/file/",
            );
            add_chars(&mut b, &decimal_of(id));
            b.append("\">Add to library</a>.</div>");
            b
        },
        None => String::new(),
    };
    add_str(&mut body, &sending);
    add_str(&mut body, &message_box_text("box", import_msg));
    let nothing = if entries.len() == 0 {
        String::from_str("<p>Nothing yet. Search for a book and tap Download.</p>")
    } else {
        String::new()
    };
    add_str(&mut body, &nothing);
    let mut list = String::new();
    let mut i: usize = 0;
    while i < entries.len()
        invariant
            i <= entries.len(),
            forall|k: int| 0 <= k < entries.len() ==> page_fits(#[trigger] entries[k]),
            list@ == jobs_html(entries@.take(i as int), browser_mode),
        decreases entries.len() - i,
    {
        add_str(&mut list, &job_text(&entries[i], browser_mode));
        i += 1;
        assert(entries@.take(i as int).drop_last() == entries@.take(i - 1));
    }
    assert(entries@.take(i as int) == entries@);
    add_str(&mut body, &list);
    body.append("<p style=\"margin-top:16px\">");
    let import = if nickel && !browser_mode {
        String::from_str(
            "<form method=\"post\" action=\"/import\" class=\"inline\"><button type=\"submit\">Import into library now</button></form> ",
        )
    } else {
        String::new()
    };
    add_str(&mut body, &import);
    body.append(
        "<form method=\"post\" action=\"/jobs/clear\" class=\"inline\"><button class=\"small\" type=\"submit\">Clear finished</button></form></p>",
    );
    let footer = if browser_mode {
        if on_kobo {
            String::from_str(
                "<p class=\"muted\">Finished books are handed to the Kobo browser (tap Continue). Nickel adds each one in the background, about a minute per book; then it is in My Books. \u{201c}Add to library again\u{201d} makes a second copy.</p>",
            )
        } else {
            String::new()
        }
    } else if nickel {
        String::from_str(
            "<p class=\"muted\">Finished books are imported automatically when the queue is empty. Close this window afterwards to see them in My Books.</p>",
        )
    } else if on_kobo {
        let mut f = String::from_str("<p class=\"muted\">To see finished books in your library, ");
        f.append(MANUAL_HINT);
        f.append(".</p>");
        f
    } else {
        String::new()
    };
    add_str(&mut body, &footer);
    layout("Downloads - Anna's Kobo", head.as_str(), active, body.as_str())
}

// ---------------------------------------------------------------------------
// Settings

pub open spec fn checked_attr(b: bool) -> Seq<char> {
    if b {
        " checked"@
    } else {
        seq![]
    }
}

fn checked(b: bool) -> (r: &'static str)
    ensures
        r@ == checked_attr(b),
{
    proof {
        reveal_strlit("");
    }
    if b {
        " checked"
    } else {
        ""
    }
}

pub open spec fn selected_if(b: bool) -> Seq<char> {
    if b {
        " selected"@
    } else {
        seq![]
    }
}

fn selected(b: bool) -> (r: &'static str)
    ensures
        r@ == selected_if(b),
{
    proof {
        reveal_strlit("");
    }
    if b {
        " selected"
    } else {
        ""
    }
}

pub open spec fn settings_body(cfg: Config, saved: bool, data_dir: Seq<char>) -> Seq<char> {
    "<h1>Settings</h1>"@ + (if saved {
        "<div class=\"box\">Saved.</div>"@
    } else {
        seq![]
    })
        + "<form method=\"post\" action=\"/settings\"><label>Anna's Archive secret key</label><input type=\"text\" name=\"secret_key\" value=\""@
        + escaped(cfg.secret_key@)
        + "\" placeholder=\"from annas-archive.gl/account\"><div class=\"muted\">Optional. A membership key enables Anna's fast servers; without one, books come from LibGen's free servers (same files).</div><label>Anna's Archive mirror (blank = auto from open-slum.org)</label><input type=\"text\" name=\"base_url\" value=\""@
        + escaped(cfg.base_url@)
        + "\" placeholder=\"annas-archive.gl\"><label>Search source</label><select name=\"search_source\"><option value=\"auto\""@
        + selected_if(cfg.search_source@ == "auto"@)
        + ">Anna's Archive, LibGen if Anna's needs a browser check</option><option value=\"annas\""@
        + selected_if(cfg.search_source@ == "annas"@)
        + ">Anna's Archive only</option><option value=\"libgen\""@ + selected_if(
        cfg.search_source@ == "libgen"@,
    )
        + ">LibGen only</option></select><label>LibGen mirror (blank = auto)</label><input type=\"text\" name=\"libgen_url\" value=\""@
        + escaped(cfg.libgen_url@)
        + "\" placeholder=\"libgen.li\"><label>After download</label><select name=\"deliver\"><option value=\"browser\""@
        + selected_if(cfg.deliver@ != "folder"@)
        + ">Add to the library through the Kobo browser (instant)</option><option value=\"folder\""@
        + selected_if(cfg.deliver@ == "folder"@)
        + ">Save to the folder below, import with NickelMenu</option></select><label>Download folder (folder mode)</label><input type=\"text\" name=\"download_dir\" value=\""@
        + escaped(cfg.download_dir@)
        + "\"><label>Results per search</label><input type=\"text\" name=\"max_results\" value=\""@
        + decimal(cfg.max_results as nat)
        + "\"><p><input type=\"checkbox\" name=\"kepubify\" id=\"k\" value=\"1\""@
        + checked_attr(cfg.kepubify)
        + "> <label class=\"inline\" for=\"k\">Convert EPUB to KEPUB after download</label></p><p><input type=\"checkbox\" name=\"auto_import\" id=\"a\" value=\"1\""@
        + checked_attr(cfg.auto_import)
        + "> <label class=\"inline\" for=\"a\">Import into the library automatically</label></p><p><button type=\"submit\">Save</button></p></form><p class=\"muted\">Config file: "@
        + escaped(data_dir) + "/config.json \u{00b7} version "@ + crate::VERSION@ + "</p>"@
}

/// The settings form, filled with `cfg`; `saved` after a save, and the
/// folder of the settings file at the bottom.
pub fn settings(cfg: &Config, saved: bool, active: usize, data_dir: &str) -> (r: String)
    ensures
        r@ == layout_html(
            "Settings - Anna's Kobo"@,
            seq![],
            active as nat,
            settings_body(*cfg, saved, data_dir@),
        ),
{
    let mut body = String::from_str("<h1>Settings</h1>");
    let saved_box = if saved {
        String::from_str("<div class=\"box\">Saved.</div>")
    } else {
        String::new()
    };
    add_str(&mut body, &saved_box);
    body.append(
        "<form method=\"post\" action=\"/settings\"><label>Anna's Archive secret key</label><input type=\"text\" name=\"secret_key\" value=\"",
    );
    add_str(&mut body, &esc(cfg.secret_key.as_str()));
    body.append(
        "\" placeholder=\"from annas-archive.gl/account\"><div class=\"muted\">Optional. A membership key enables Anna's fast servers; without one, books come from LibGen's free servers (same files).</div><label>Anna's Archive mirror (blank = auto from open-slum.org)</label><input type=\"text\" name=\"base_url\" value=\"",
    );
    add_str(&mut body, &esc(cfg.base_url.as_str()));
    body.append(
        "\" placeholder=\"annas-archive.gl\"><label>Search source</label><select name=\"search_source\"><option value=\"auto\"",
    );
    body.append(selected(eq_str(cfg.search_source.as_str(), "auto")));
    body.append(
        ">Anna's Archive, LibGen if Anna's needs a browser check</option><option value=\"annas\"",
    );
    body.append(selected(eq_str(cfg.search_source.as_str(), "annas")));
    body.append(">Anna's Archive only</option><option value=\"libgen\"");
    body.append(selected(eq_str(cfg.search_source.as_str(), "libgen")));
    body.append(
        ">LibGen only</option></select><label>LibGen mirror (blank = auto)</label><input type=\"text\" name=\"libgen_url\" value=\"",
    );
    add_str(&mut body, &esc(cfg.libgen_url.as_str()));
    body.append(
        "\" placeholder=\"libgen.li\"><label>After download</label><select name=\"deliver\"><option value=\"browser\"",
    );
    let folder = eq_str(cfg.deliver.as_str(), "folder");
    body.append(selected(!folder));
    body.append(
        ">Add to the library through the Kobo browser (instant)</option><option value=\"folder\"",
    );
    body.append(selected(folder));
    body.append(
        ">Save to the folder below, import with NickelMenu</option></select><label>Download folder (folder mode)</label><input type=\"text\" name=\"download_dir\" value=\"",
    );
    add_str(&mut body, &esc(cfg.download_dir.as_str()));
    body.append("\"><label>Results per search</label><input type=\"text\" name=\"max_results\" value=\"");
    add_chars(&mut body, &decimal_of(cfg.max_results as u64));
    body.append("\"><p><input type=\"checkbox\" name=\"kepubify\" id=\"k\" value=\"1\"");
    body.append(checked(cfg.kepubify));
    body.append(
        "> <label class=\"inline\" for=\"k\">Convert EPUB to KEPUB after download</label></p><p><input type=\"checkbox\" name=\"auto_import\" id=\"a\" value=\"1\"",
    );
    body.append(checked(cfg.auto_import));
    body.append(
        "> <label class=\"inline\" for=\"a\">Import into the library automatically</label></p><p><button type=\"submit\">Save</button></p></form><p class=\"muted\">Config file: ",
    );
    add_str(&mut body, &esc(data_dir));
    body.append("/config.json \u{00b7} version ");
    body.append(crate::VERSION);
    body.append("</p>");
    proof {
        reveal_strlit("");
    }
    layout("Settings - Anna's Kobo", "", active, body.as_str())
}

} // verus!
