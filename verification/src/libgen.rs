//! LibGen (the libgen.li engine): its search results and its free download
//! links. It uses the same md5 identifiers as Anna's Archive.

use vstd::prelude::*;
use crate::annas::{books_view, is_md5_chars, page_view, spec_is_md5, Book, BookView};
use crate::html::{
    attr_exec, attr_of, html_select, html_tree, nodes_view, own_text, own_text_exec, parse_tree,
    scoped, scoped_exec, select_positions, text_exec, text_of, HtmlNode, NodeView,
};
use crate::net::Page;
use crate::text::{
    chars_of, collapse_whitespace, collapse_ws, contains, copy_range, decimal, decimal_of,
    first_occurrence, find, form_encoded, form_urlencode, has_infix, has_prefix, lowercase,
    push_all, replace, replace_all, same, starts_with, string_of, strip_both, strip_prefix_repeated,
    to_lowercase, to_uppercase, trim, trim_start_matches, uppercase, CharClass,
};

verus! {

pub open spec fn search_url_of(host: Seq<char>, q: Seq<char>) -> Seq<char> {
    "https://"@ + host + "/index.php?req="@ + form_encoded(vstd::utf8::encode_utf8(q))
        + "&columns%5B%5D=t&columns%5B%5D=a&columns%5B%5D=s&objects%5B%5D=f&topics%5B%5D=l&topics%5B%5D=f&topics%5B%5D=c&res=25&filesuns=all"@
}

/// The search page for `q` on `host`: titles, authors and series, files of
/// the main collections, 25 per page.
pub fn search_url(host: &str, q: &str) -> (u: String)
    ensures
        u@ == search_url_of(host@, q@),
{
    let mut out = chars_of("https://");
    push_all(&mut out, &chars_of(host));
    push_all(&mut out, &chars_of("/index.php?req="));
    push_all(&mut out, &form_urlencode(&chars_of(q)));
    push_all(
        &mut out,
        &chars_of(
            "&columns%5B%5D=t&columns%5B%5D=a&columns%5B%5D=s&objects%5B%5D=f&topics%5B%5D=l&topics%5B%5D=f&topics%5B%5D=c&res=25&filesuns=all",
        ),
    );
    string_of(&out)
}

// ---------------------------------------------------------------------------
// Reading the result table

pub const SEL_ROWS: &'static str = "table#tablelibgen tbody tr, table.table tbody tr";

pub const SEL_CELL: &'static str = "td";

pub const SEL_ANCHOR: &'static str = "a";

/// The md5 a link carries after `md5=` or `/book/`, in lower case.
pub open spec fn md5_in_href(h: Seq<char>) -> Option<Seq<char>> {
    match first_occurrence(h, "md5="@) {
        Some(i) => Some(lowercase(take32(h.skip(i + 4)))),
        None => match first_occurrence(h, "/book/"@) {
            Some(i) => Some(lowercase(take32(h.skip(i + 6)))),
            None => None,
        },
    }
}

pub open spec fn take32(s: Seq<char>) -> Seq<char> {
    if s.len() > 32 {
        s.take(32)
    } else {
        s
    }
}

/// The first well-formed md5 that the links at `anchors` carry.
pub open spec fn first_md5(nodes: Seq<NodeView>, anchors: Seq<int>) -> Option<Seq<char>>
    decreases anchors.len(),
{
    if anchors.len() == 0 {
        None
    } else {
        let a = anchors[0];
        let here = if 0 <= a < nodes.len() {
            match attr_of(nodes, a, "href"@) {
                Some(h) => md5_in_href(h),
                None => None,
            }
        } else {
            None
        };
        match here {
            Some(m) if spec_is_md5(m) => Some(m),
            _ => first_md5(nodes, anchors.drop_first()),
        }
    }
}

/// The links inside each of `cells`, cell by cell.
pub open spec fn cell_anchors(nodes: Seq<NodeView>, anchors: Seq<usize>, cells: Seq<int>) -> Seq<
    int,
>
    decreases cells.len(),
{
    if cells.len() == 0 {
        seq![]
    } else {
        cell_anchors(nodes, anchors, cells.drop_last()) + scoped(nodes, anchors, cells.last())
    }
}

/// Edition notes and ISBNs: only digits, `;`, spaces and dashes.
pub open spec fn only_numbers(t: Seq<char>) -> bool {
    forall|i: int|
        0 <= i < t.len() ==> ('0' <= #[trigger] t[i] && t[i] <= '9') || t[i] == ';' || t[i] == ' '
            || t[i] == '-'
}

/// The title: the own text of the first link in the first cell that says
/// something besides numbers.
pub open spec fn title_in(nodes: Seq<NodeView>, links: Seq<int>) -> Seq<char>
    decreases links.len(),
{
    if links.len() == 0 {
        seq![]
    } else {
        let a = links[0];
        let t = if 0 <= a < nodes.len() {
            collapse_ws(own_text(nodes, a))
        } else {
            seq![]
        };
        if t.len() > 0 && !only_numbers(t) {
            t
        } else {
            title_in(nodes, links.drop_first())
        }
    }
}

pub open spec fn cell_text(nodes: Seq<NodeView>, cells: Seq<int>, i: int) -> Seq<char> {
    if 0 <= cells[i] < nodes.len() {
        collapse_ws(text_of(nodes, cells[i]))
    } else {
        seq![]
    }
}

pub open spec fn contains_md5(books: Seq<BookView>, md5: Seq<char>) -> bool {
    exists|k: int| 0 <= k < books.len() && #[trigger] books[k].md5 == md5
}

/// The result that the table row at `tr` gives, unless it has fewer than
/// nine cells, no md5, an md5 already in `out`, or no title.
pub open spec fn row_book(
    nodes: Seq<NodeView>,
    cells_sel: Seq<usize>,
    anchors: Seq<usize>,
    tr: int,
    out: Seq<BookView>,
) -> Option<BookView> {
    if !(0 <= tr < nodes.len()) {
        None
    } else {
        let cells = scoped(nodes, cells_sel, tr);
        if cells.len() < 9 {
            None
        } else {
            match first_md5(nodes, cell_anchors(nodes, anchors, cells)) {
                None => None,
                Some(md5) => if contains_md5(out, md5) {
                    None
                } else {
                    let title = title_in(nodes, scoped(nodes, anchors, cells[0]));
                    if title.len() == 0 {
                        None
                    } else {
                        Some(
                            BookView {
                                title,
                                authors: strip_both(
                                    replace_all(cell_text(nodes, cells, 1), "(Author)"@, ""@),
                                    CharClass::Space,
                                ),
                                publisher: cell_text(nodes, cells, 2),
                                year: cell_text(nodes, cells, 3),
                                language: cell_text(nodes, cells, 4),
                                size: cell_text(nodes, cells, 6),
                                format: uppercase(cell_text(nodes, cells, 7)),
                                md5,
                                source: "LibGen"@,
                            },
                        )
                    }
                },
            }
        }
    }
}

pub open spec fn scan_rows(
    nodes: Seq<NodeView>,
    cells_sel: Seq<usize>,
    anchors: Seq<usize>,
    rows: Seq<usize>,
) -> Seq<BookView>
    decreases rows.len(),
{
    if rows.len() == 0 {
        seq![]
    } else {
        let out = scan_rows(nodes, cells_sel, anchors, rows.drop_last());
        match row_book(nodes, cells_sel, anchors, rows.last() as int, out) {
            Some(b) => out.push(b),
            None => out,
        }
    }
}

/// The results in a LibGen result table.
pub open spec fn libgen_results(html: Seq<char>) -> Seq<BookView> {
    scan_rows(
        html_tree(html),
        html_select(html, SEL_CELL@),
        html_select(html, SEL_ANCHOR@),
        html_select(html, SEL_ROWS@),
    )
}

fn md5_in_href_exec(h: &[char]) -> (r: Option<Vec<char>>)
    ensures
        match (r, md5_in_href(h@)) {
            (Some(a), Some(b)) => a@ == b,
            (None, None) => true,
            _ => false,
        },
{
    proof {
        crate::text::lemma_first_occurrence(h@, "md5="@);
        crate::text::lemma_first_occurrence(h@, "/book/"@);
        reveal_strlit("md5=");
        reveal_strlit("/book/");
    }
    match find(h, &chars_of("md5=")) {
        Some(i) => {
            assert(i + 4 <= h.len());
            Some(to_lowercase(&first32(h, i + 4)))
        },
        None => match find(h, &chars_of("/book/")) {
            Some(i) => {
                assert(i + 6 <= h.len());
                Some(to_lowercase(&first32(h, i + 6)))
            },
            None => None,
        },
    }
}

fn first32(h: &[char], start: usize) -> (r: Vec<char>)
    requires
        start <= h.len(),
    ensures
        r@ == take32(h@.skip(start as int)),
{
    let end = if h.len() - start > 32 {
        start + 32
    } else {
        h.len()
    };
    let piece = copy_range(h, start, end);
    assert(piece@ == take32(h@.skip(start as int)));
    piece
}

fn has_md5(out: &Vec<Book>, md5: &[char]) -> (b: bool)
    ensures
        b == contains_md5(books_view(out@), md5@),
{
    let mut k: usize = 0;
    while k < out.len()
        invariant
            k <= out.len(),
            forall|j: int| 0 <= j < k ==> books_view(out@)[j].md5 != md5@,
        decreases out.len() - k,
    {
        if same(&chars_of(out[k].md5.as_str()), md5) {
            assert(books_view(out@)[k as int].md5 == md5@);
            return true;
        }
        k += 1;
    }
    false
}

fn first_md5_exec(nodes: &Vec<HtmlNode>, anchors: &Vec<usize>) -> (r: Option<Vec<char>>)
    ensures
        match (r, first_md5(nodes_view(nodes@), anchors@.map_values(|p: usize| p as int))) {
            (Some(a), Some(b)) => a@ == b,
            (None, None) => true,
            _ => false,
        },
{
    let ghost v = nodes_view(nodes@);
    let ghost av = anchors@.map_values(|p: usize| p as int);
    let mut k: usize = 0;
    assert(av.skip(0) == av);
    while k < anchors.len()
        invariant
            k <= anchors.len(),
            v == nodes_view(nodes@),
            av == anchors@.map_values(|p: usize| p as int),
            first_md5(v, av) == first_md5(v, av.skip(k as int)),
        decreases anchors.len() - k,
    {
        let a = anchors[k];
        assert(av.skip(k as int)[0] == a as int);
        assert(av.skip(k as int).drop_first() == av.skip(k + 1));
        if a < nodes.len() {
            if let Some(h) = attr_exec(nodes, a, "href") {
                if let Some(m) = md5_in_href_exec(&chars_of(h.as_str())) {
                    if is_md5_chars(&m) {
                        return Some(m);
                    }
                }
            }
        }
        k += 1;
    }
    None
}

fn only_numbers_exec(t: &[char]) -> (b: bool)
    ensures
        b == only_numbers(t@),
{
    let mut i: usize = 0;
    while i < t.len()
        invariant
            i <= t.len(),
            forall|j: int|
                0 <= j < i ==> ('0' <= #[trigger] t@[j] && t@[j] <= '9') || t@[j] == ';' || t@[j]
                    == ' ' || t@[j] == '-',
        decreases t.len() - i,
    {
        let c = t[i];
        if !(('0' <= c && c <= '9') || c == ';' || c == ' ' || c == '-') {
            return false;
        }
        i += 1;
    }
    true
}

fn title_exec(nodes: &Vec<HtmlNode>, links: &Vec<usize>) -> (t: Vec<char>)
    ensures
        t@ == title_in(nodes_view(nodes@), links@.map_values(|p: usize| p as int)),
{
    let ghost v = nodes_view(nodes@);
    let ghost lv = links@.map_values(|p: usize| p as int);
    let mut k: usize = 0;
    assert(lv.skip(0) == lv);
    while k < links.len()
        invariant
            k <= links.len(),
            v == nodes_view(nodes@),
            lv == links@.map_values(|p: usize| p as int),
            title_in(v, lv) == title_in(v, lv.skip(k as int)),
        decreases links.len() - k,
    {
        let a = links[k];
        assert(lv.skip(k as int)[0] == a as int);
        assert(lv.skip(k as int).drop_first() == lv.skip(k + 1));
        let t = if a < nodes.len() {
            collapse_whitespace(&own_text_exec(nodes, a))
        } else {
            Vec::new()
        };
        if t.len() > 0 && !only_numbers_exec(&t) {
            return t;
        }
        k += 1;
    }
    Vec::new()
}

fn cell_text_exec(nodes: &Vec<HtmlNode>, cells: &Vec<usize>, i: usize) -> (t: Vec<char>)
    requires
        i < cells.len(),
    ensures
        t@ == cell_text(nodes_view(nodes@), cells@.map_values(|p: usize| p as int), i as int),
{
    let c = cells[i];
    if c < nodes.len() {
        collapse_whitespace(&text_exec(nodes, c))
    } else {
        Vec::new()
    }
}

fn row_book_exec(
    nodes: &Vec<HtmlNode>,
    cells_sel: &Vec<usize>,
    anchors: &Vec<usize>,
    tr: usize,
    out: &Vec<Book>,
) -> (r: Option<Book>)
    ensures
        match (r, row_book(nodes_view(nodes@), cells_sel@, anchors@, tr as int, books_view(out@))) {
            (Some(a), Some(b)) => a@ == b,
            (None, None) => true,
            _ => false,
        },
{
    let ghost v = nodes_view(nodes@);
    if tr >= nodes.len() {
        return None;
    }
    let cells = scoped_exec(nodes, cells_sel, tr);
    let ghost cv = cells@.map_values(|p: usize| p as int);
    if cells.len() < 9 {
        return None;
    }
    let mut flat: Vec<usize> = Vec::new();
    let mut i: usize = 0;
    while i < cells.len()
        invariant
            i <= cells.len(),
            v == nodes_view(nodes@),
            cv == cells@.map_values(|p: usize| p as int),
            forall|j: int| 0 <= j < cells@.len() ==> #[trigger] cells@[j] < nodes.len(),
            flat@.map_values(|p: usize| p as int) == cell_anchors(v, anchors@, cv.take(i as int)),
        decreases cells.len() - i,
    {
        assert(cv.take(i + 1).drop_last() == cv.take(i as int));
        assert(cv.take(i + 1).last() == cells@[i as int] as int);
        let inner = scoped_exec(nodes, anchors, cells[i]);
        let mut j: usize = 0;
        let ghost base = flat@.map_values(|p: usize| p as int);
        let ghost iv = inner@.map_values(|p: usize| p as int);
        while j < inner.len()
            invariant
                j <= inner.len(),
                iv == inner@.map_values(|p: usize| p as int),
                flat@.map_values(|p: usize| p as int) == base + iv.take(j as int),
            decreases inner.len() - j,
        {
            let ghost before = flat@.map_values(|p: usize| p as int);
            flat.push(inner[j]);
            assert(flat@.map_values(|p: usize| p as int) == before.push(inner@[j as int] as int));
            assert(iv.take(j + 1) == iv.take(j as int).push(iv[j as int]));
            j += 1;
            assert(flat@.map_values(|p: usize| p as int) == base + iv.take(j as int));
        }
        assert(iv.take(j as int) == iv);
        i += 1;
    }
    assert(cv.take(i as int) == cv);
    let md5 = match first_md5_exec(nodes, &flat) {
        None => return None,
        Some(m) => m,
    };
    if has_md5(out, &md5) {
        return None;
    }
    assert(cv[0] == cells@[0] as int);
    let firsts = scoped_exec(nodes, anchors, cells[0]);
    let title = title_exec(nodes, &firsts);
    if title.len() == 0 {
        return None;
    }
    let empty: Vec<char> = Vec::new();
    assert(empty@ == ""@) by {
        reveal_strlit("");
    }
    proof {
        reveal_strlit("(Author)");
    }
    let authors = trim(
        &replace(&cell_text_exec(nodes, &cells, 1), &chars_of("(Author)"), &empty),
        &CharClass::Space,
    );
    Some(
        Book {
            title: string_of(&title),
            authors: string_of(&authors),
            publisher: string_of(&cell_text_exec(nodes, &cells, 2)),
            year: string_of(&cell_text_exec(nodes, &cells, 3)),
            language: string_of(&cell_text_exec(nodes, &cells, 4)),
            size: string_of(&cell_text_exec(nodes, &cells, 6)),
            format: string_of(&to_uppercase(&cell_text_exec(nodes, &cells, 7))),
            md5: string_of(&md5),
            source: string_of(&chars_of("LibGen")),
        },
    )
}

/// The results in a LibGen result table, one per md5.
pub fn parse_search(html: &str) -> (r: Vec<Book>)
    ensures
        books_view(r@) == libgen_results(html@),
{
    let nodes = parse_tree(html);
    let rows = select_positions(html, SEL_ROWS);
    let cells = select_positions(html, SEL_CELL);
    let anchors = select_positions(html, SEL_ANCHOR);
    let ghost v = nodes_view(nodes@);
    let mut out: Vec<Book> = Vec::new();
    let mut k: usize = 0;
    while k < rows.len()
        invariant
            k <= rows.len(),
            v == nodes_view(nodes@),
            v == html_tree(html@),
            rows@ == html_select(html@, SEL_ROWS@),
            cells@ == html_select(html@, SEL_CELL@),
            anchors@ == html_select(html@, SEL_ANCHOR@),
            books_view(out@) == scan_rows(v, cells@, anchors@, rows@.take(k as int)),
        decreases rows.len() - k,
    {
        assert(rows@.take(k + 1).drop_last() == rows@.take(k as int));
        if let Some(b) = row_book_exec(&nodes, &cells, &anchors, rows[k], &out) {
            out.push(b);
        }
        k += 1;
        assert(books_view(out@) == scan_rows(v, cells@, anchors@, rows@.take(k as int)));
    }
    assert(rows@.take(k as int) == rows@);
    out
}

// ---------------------------------------------------------------------------
// Searching

/// The books of `books` whose format is `e`, ignoring case.
pub open spec fn of_format(books: Seq<BookView>, e: Seq<char>) -> Seq<BookView>
    decreases books.len(),
{
    if books.len() == 0 {
        seq![]
    } else if lowercase(books.last().format) == e {
        of_format(books.drop_last(), e).push(books.last())
    } else {
        of_format(books.drop_last(), e)
    }
}

/// What a LibGen search on `host` gives when fetching its page gave
/// `page`: the results in format `ext` (any when empty), at most `max`.
pub open spec fn search_outcome(
    host: Seq<char>,
    page: Result<(u16, Seq<char>), Seq<char>>,
    ext: Seq<char>,
    max: nat,
) -> Result<Seq<BookView>, Seq<char>> {
    match page {
        Err(e) => Err(e),
        Ok((status, body)) => if status != 200 {
            Err(host + " answered HTTP "@ + decimal(status as nat))
        } else {
            let all = libgen_results(body);
            let books = if ext.len() == 0 {
                all
            } else {
                of_format(all, lowercase(ext))
            };
            Ok(
                if books.len() > max {
                    books.take(max as int)
                } else {
                    books
                },
            )
        },
    }
}

/// A LibGen search, from the answer to fetching its search page
/// (`search_url`).
pub fn search(host: &str, page: Result<Page, String>, ext: &str, max: usize) -> (r: Result<
    Vec<Book>,
    String,
>)
    ensures
        match (r, search_outcome(host@, page_view(page), ext@, max as nat)) {
            (Ok(a), Ok(b)) => books_view(a@) == b,
            (Err(a), Err(b)) => a@ == b,
            _ => false,
        },
{
    let page = match page {
        Err(e) => return Err(e),
        Ok(p) => p,
    };
    if page.status != 200 {
        let mut m = chars_of(host);
        push_all(&mut m, &chars_of(" answered HTTP "));
        push_all(&mut m, &decimal_of(page.status as u64));
        return Err(string_of(&m));
    }
    let all = parse_search(page.body.as_str());
    let ec = chars_of(ext);
    let mut books: Vec<Book> = Vec::new();
    if ec.len() == 0 {
        books = all;
    } else {
        let e = to_lowercase(&ec);
        let ghost av = books_view(all@);
        let mut i: usize = 0;
        while i < all.len()
            invariant
                i <= all.len(),
                av == books_view(all@),
                books_view(books@) == of_format(av.take(i as int), e@),
            decreases all.len() - i,
        {
            assert(av.take(i + 1).drop_last() == av.take(i as int));
            assert(av.take(i + 1).last() == all@[i as int]@);
            if same(&to_lowercase(&chars_of(all[i].format.as_str())), &e) {
                books.push(all[i].clone());
            }
            i += 1;
            assert(books_view(books@) == of_format(av.take(i as int), e@));
        }
        assert(av.take(i as int) == av);
    }
    books.truncate(max);
    Ok(books)
}

// ---------------------------------------------------------------------------
// Free downloads

/// The ads page for `md5`, which carries the free download link, or why
/// there is none.
pub open spec fn download_page_of(host: Seq<char>, md5: Seq<char>) -> Result<Seq<char>, Seq<char>> {
    if !spec_is_md5(md5) {
        Err("not an md5: "@ + md5)
    } else {
        Ok("https://"@ + host + "/ads.php?md5="@ + md5)
    }
}

pub fn download_page(host: &str, md5: &str) -> (r: Result<String, String>)
    ensures
        match (r, download_page_of(host@, md5@)) {
            (Ok(a), Ok(b)) => a@ == b,
            (Err(a), Err(b)) => a@ == b,
            _ => false,
        },
{
    let m = chars_of(md5);
    if !is_md5_chars(&m) {
        let mut e = chars_of("not an md5: ");
        push_all(&mut e, &m);
        return Err(string_of(&e));
    }
    let mut u = chars_of("https://");
    push_all(&mut u, &chars_of(host));
    push_all(&mut u, &chars_of("/ads.php?md5="));
    push_all(&mut u, &m);
    Ok(string_of(&u))
}

pub const SEL_GET_LINK: &'static str = "a[href*=\"get.php\"]";

/// The first `get.php` link with both an md5 and a key.
pub open spec fn get_link(nodes: Seq<NodeView>, links: Seq<usize>) -> Option<Seq<char>>
    decreases links.len(),
{
    if links.len() == 0 {
        None
    } else {
        let a = links[0] as int;
        let here = if 0 <= a < nodes.len() {
            attr_of(nodes, a, "href"@)
        } else {
            None
        };
        match here {
            Some(h) if has_infix(h, "md5="@) && has_infix(h, "key="@) => Some(h),
            _ => get_link(nodes, links.drop_first()),
        }
    }
}

/// The download address on an ads page as fetched, or why there is none.
pub open spec fn download_url_of(
    host: Seq<char>,
    md5: Seq<char>,
    page: Result<(u16, Seq<char>), Seq<char>>,
) -> Result<Seq<char>, Seq<char>> {
    match page {
        Err(e) => Err(e),
        Ok((status, body)) => if status != 200 {
            Err(host + " answered HTTP "@ + decimal(status as nat) + " for the download page"@)
        } else {
            match get_link(html_tree(body), html_select(body, SEL_GET_LINK@)) {
                None => Err(host + " has no download link for "@ + md5 + " (file not on LibGen?)"@),
                Some(h) => {
                    let href = replace_all(h, "&amp;"@, "&"@);
                    if has_prefix(href, "http"@) {
                        Ok(href)
                    } else {
                        Ok("https://"@ + host + "/"@ + strip_prefix_repeated(href, "/"@))
                    }
                },
            }
        },
    }
}

/// The free download address on the ads page for `md5` (see
/// `download_page`), as the HTTP client gave the page: a `get.php` link
/// that streams the file after a redirect to a CDN.
pub fn download_url(host: &str, md5: &str, page: Result<Page, String>) -> (r: Result<String, String>)
    ensures
        match (r, download_url_of(host@, md5@, page_view(page))) {
            (Ok(a), Ok(b)) => a@ == b,
            (Err(a), Err(b)) => a@ == b,
            _ => false,
        },
{
    let page = match page {
        Err(e) => return Err(e),
        Ok(p) => p,
    };
    if page.status != 200 {
        let mut m = chars_of(host);
        push_all(&mut m, &chars_of(" answered HTTP "));
        push_all(&mut m, &decimal_of(page.status as u64));
        push_all(&mut m, &chars_of(" for the download page"));
        return Err(string_of(&m));
    }
    let nodes = parse_tree(page.body.as_str());
    let links = select_positions(page.body.as_str(), SEL_GET_LINK);
    let ghost v = nodes_view(nodes@);
    let mut k: usize = 0;
    let mut found: Option<String> = None;
    assert(links@.skip(0) == links@);
    while k < links.len()
        invariant_except_break
            found is None,
            get_link(v, links@) == get_link(v, links@.skip(k as int)),
        invariant
            k <= links.len(),
            v == nodes_view(nodes@),
        ensures
            found matches Some(h) ==> get_link(v, links@) == Some(h@),
            found is None ==> get_link(v, links@) is None,
        decreases links.len() - k,
    {
        let a = links[k];
        assert(links@.skip(k as int)[0] == a);
        assert(links@.skip(k as int).drop_first() == links@.skip(k + 1));
        if a < nodes.len() {
            if let Some(h) = attr_exec(&nodes, a, "href") {
                let hc = chars_of(h.as_str());
                if contains(&hc, &chars_of("md5=")) && contains(&hc, &chars_of("key=")) {
                    found = Some(h);
                    break;
                }
            }
        }
        k += 1;
    }
    match found {
        None => {
            let mut m = chars_of(host);
            push_all(&mut m, &chars_of(" has no download link for "));
            push_all(&mut m, &chars_of(md5));
            push_all(&mut m, &chars_of(" (file not on LibGen?)"));
            Err(string_of(&m))
        },
        Some(h) => {
            proof {
                reveal_strlit("&amp;");
            }
            let href = replace(&chars_of(h.as_str()), &chars_of("&amp;"), &chars_of("&"));
            if starts_with(&href, &chars_of("http")) {
                Ok(string_of(&href))
            } else {
                let mut u = chars_of("https://");
                push_all(&mut u, &chars_of(host));
                push_all(&mut u, &chars_of("/"));
                push_all(&mut u, &trim_start_matches(&href, &chars_of("/")));
                Ok(string_of(&u))
            }
        },
    }
}

} // verus!

verus! {

proof fn lemma_first_md5(nodes: Seq<NodeView>, anchors: Seq<int>)
    ensures
        first_md5(nodes, anchors) matches Some(m) ==> spec_is_md5(m),
    decreases anchors.len(),
{
    if anchors.len() > 0 {
        lemma_first_md5(nodes, anchors.drop_first());
    }
}

proof fn lemma_scan_rows(
    nodes: Seq<NodeView>,
    cells_sel: Seq<usize>,
    anchors: Seq<usize>,
    rows: Seq<usize>,
)
    ensures
        ({
            let out = scan_rows(nodes, cells_sel, anchors, rows);
            &&& forall|i: int, j: int| 0 <= i < j < out.len() ==> out[i].md5 != out[j].md5
            &&& forall|i: int| 0 <= i < out.len() ==> spec_is_md5(#[trigger] out[i].md5)
        }),
    decreases rows.len(),
{
    if rows.len() > 0 {
        lemma_scan_rows(nodes, cells_sel, anchors, rows.drop_last());
        let out = scan_rows(nodes, cells_sel, anchors, rows.drop_last());
        let tr = rows.last() as int;
        if let Some(b) = row_book(nodes, cells_sel, anchors, tr, out) {
            let cells = scoped(nodes, cells_sel, tr);
            lemma_first_md5(nodes, cell_anchors(nodes, anchors, cells));
            assert forall|i: int| 0 <= i < out.len() implies out[i].md5 != b.md5 by {
                if out[i].md5 == b.md5 {
                    assert(contains_md5(out, b.md5));
                }
            }
        }
    }
}

/// A LibGen result table never gives two results with the same md5, and
/// A result row gives a book only when it has at least nine cells, a title
/// and an md5 not seen before; its publisher, year, language, size and
/// format are the cleaned texts of the third, fourth, fifth, seventh and
/// eighth cells (the format in upper case).
pub proof fn law_row_fields(
    nodes: Seq<NodeView>,
    cells_sel: Seq<usize>,
    anchors: Seq<usize>,
    tr: int,
    out: Seq<BookView>,
)
    ensures
        row_book(nodes, cells_sel, anchors, tr, out) matches Some(b) ==> {
            let cells = scoped(nodes, cells_sel, tr);
            let cell = |k: int|
                if 0 <= cells[k] < nodes.len() {
                    collapse_ws(text_of(nodes, cells[k]))
                } else {
                    Seq::<char>::empty()
                };
            &&& 0 <= tr < nodes.len()
            &&& cells.len() >= 9
            &&& b.title.len() > 0
            &&& !contains_md5(out, b.md5)
            &&& b.publisher == cell(2)
            &&& b.year == cell(3)
            &&& b.language == cell(4)
            &&& b.size == cell(6)
            &&& b.format == uppercase(cell(7))
        },
{
}

/// every result's md5 is 32 hex digits.
pub proof fn law_results_distinct(html: Seq<char>)
    ensures
        forall|i: int, j: int|
            0 <= i < j < libgen_results(html).len() ==> libgen_results(html)[i].md5
                != libgen_results(html)[j].md5,
        forall|i: int|
            0 <= i < libgen_results(html).len() ==> spec_is_md5(#[trigger] libgen_results(html)[i].md5),
{
    lemma_scan_rows(
        html_tree(html),
        html_select(html, SEL_CELL@),
        html_select(html, SEL_ANCHOR@),
        html_select(html, SEL_ROWS@),
    );
}

} // verus!
