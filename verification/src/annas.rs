//! Anna's Archive: reading its search pages (when they are not behind the
//! DDoS-Guard browser check) and the answers of its members-only fast
//! download API.

use vstd::prelude::*;
use crate::html::{
    attr_exec, attr_of, html_select, html_tree, nodes_view, parent_exec, parent_of,
    parse_tree, pieces_exec, pieces_in, scoped, scoped_exec, select_positions, subtree_end,
    text_exec, text_of, HtmlNode, NodeView,
};
use crate::net::Page;
use crate::text::{
    decimal, decimal_of, eq_str, form_encoded, form_urlencode, lowercase, to_lowercase,
    chars_of, collapse_whitespace, collapse_ws, contains, has_infix, join, push_all, same,
    string_of, strip_prefix_repeated, to_uppercase, trim_start_matches, uppercase,
};

verus! {

/// One search result.
#[derive(Debug)]
pub struct Book {
    pub title: String,
    pub authors: String,
    pub publisher: String,
    pub year: String,
    pub language: String,
    pub format: String,
    pub size: String,
    pub md5: String,
    pub source: String,
}

/// A search result as plain character sequences.
pub struct BookView {
    pub title: Seq<char>,
    pub authors: Seq<char>,
    pub publisher: Seq<char>,
    pub year: Seq<char>,
    pub language: Seq<char>,
    pub format: Seq<char>,
    pub size: Seq<char>,
    pub md5: Seq<char>,
    pub source: Seq<char>,
}

impl View for Book {
    type V = BookView;

    open spec fn view(&self) -> BookView {
        BookView {
            title: self.title@,
            authors: self.authors@,
            publisher: self.publisher@,
            year: self.year@,
            language: self.language@,
            format: self.format@,
            size: self.size@,
            md5: self.md5@,
            source: self.source@,
        }
    }
}

impl Clone for Book {
    fn clone(&self) -> (r: Self)
        ensures
            r == *self,
    {
        Book {
            title: self.title.clone(),
            authors: self.authors.clone(),
            publisher: self.publisher.clone(),
            year: self.year.clone(),
            language: self.language.clone(),
            format: self.format.clone(),
            size: self.size.clone(),
            md5: self.md5.clone(),
            source: self.source.clone(),
        }
    }
}

impl Default for Book {
    fn default() -> (r: Self)
        ensures
            r.title@ == Seq::<char>::empty(),
            r.authors@ == Seq::<char>::empty(),
            r.publisher@ == Seq::<char>::empty(),
            r.year@ == Seq::<char>::empty(),
            r.language@ == Seq::<char>::empty(),
            r.format@ == Seq::<char>::empty(),
            r.size@ == Seq::<char>::empty(),
            r.md5@ == Seq::<char>::empty(),
            r.source@ == Seq::<char>::empty(),
    {
        Book {
            title: String::new(),
            authors: String::new(),
            publisher: String::new(),
            year: String::new(),
            language: String::new(),
            format: String::new(),
            size: String::new(),
            md5: String::new(),
            source: String::new(),
        }
    }
}

pub open spec fn is_hex(c: char) -> bool {
    ('0' <= c && c <= '9') || ('a' <= c && c <= 'f') || ('A' <= c && c <= 'F')
}

pub fn is_hex_digit(c: char) -> (b: bool)
    ensures
        b == is_hex(c),
{
    ('0' <= c && c <= '9') || ('a' <= c && c <= 'f') || ('A' <= c && c <= 'F')
}

/// 32 hexadecimal digits, the form of the identifiers both libraries use.
pub open spec fn spec_is_md5(s: Seq<char>) -> bool {
    s.len() == 32 && forall|i: int| 0 <= i < s.len() ==> is_hex(#[trigger] s[i])
}

pub fn is_md5_chars(s: &[char]) -> (b: bool)
    ensures
        b == spec_is_md5(s@),
{
    if s.len() != 32 {
        return false;
    }
    let mut i: usize = 0;
    while i < s.len()
        invariant
            i <= s.len(),
            forall|j: int| 0 <= j < i ==> is_hex(#[trigger] s@[j]),
        decreases s.len() - i,
    {
        if !is_hex_digit(s[i]) {
            return false;
        }
        i += 1;
    }
    true
}

/// Whether `s` is an md5: 32 ASCII hex digits. (32 bytes of which each is
/// a hex digit is the same as 32 characters of which each is one.)
pub fn is_md5(s: &str) -> (b: bool)
    ensures
        b == spec_is_md5(s@),
{
    is_md5_chars(&chars_of(s))
}

/// `s` with runs of whitespace collapsed to single spaces and none at
/// either end.
pub fn clean(s: &str) -> (r: String)
    ensures
        r@ == collapse_ws(s@),
{
    string_of(&collapse_whitespace(&chars_of(s)))
}

// ---------------------------------------------------------------------------
// Reading the search page

/// Links to a book's page.
pub const SEL_MD5_LINK: &'static str = "a[href^=\"/md5/\"]";

/// The icon next to an author's name.
pub const SEL_AUTHOR: &'static str = "a[href^=\"/search\"] span[class*=\"user-edit\"]";

/// The icon next to a publisher's name.
pub const SEL_PUBLISHER: &'static str = "a[href^=\"/search\"] span[class*=\"company\"]";

pub const RE_FORMAT: &'static str = "(?i)\\b(EPUB|PDF|MOBI|AZW3|AZW|DJVU|CBZ|CBR|FB2|DOCX?|TXT|RTF|LIT)\\b";

pub const RE_SIZE: &'static str = "(?i)(\\d+(?:\\.\\d+)?)\\s?(MB|KB|GB)";

pub const RE_LANG: &'static str = "([A-Z][A-Za-z]+(?: [A-Za-z]+)?) \\[[a-z]{2,3}\\]";

pub const RE_YEAR: &'static str = "\\b(1[5-9]\\d\\d|20\\d\\d)\\b";

/// What `regex::Regex::captures` finds for `pattern` in `text`: the groups
/// of the first match (group 0 the whole match; `None` for a group that
/// took no part), or `None` when nothing matches or the pattern does not
/// compile.
pub uninterp spec fn regex_captures(pattern: Seq<char>, text: Seq<char>) -> Option<
    Seq<Option<Seq<char>>>,
>;

/// Calls `regex::Regex::new` and `Regex::captures`; the result is named by
/// `regex_captures`.
#[verifier::external_body]
pub(crate) fn captures(pattern: &str, text: &[char]) -> (r: Option<Vec<Option<String>>>)
    ensures
        match (r, regex_captures(pattern@, text@)) {
            (Some(v), Some(g)) => v@.map_values(|o: Option<String>| match o {
                Some(t) => Some(t@),
                None => None,
            }) == g,
            (None, None) => true,
            _ => false,
        },
{
    let t: String = text.iter().collect();
    let re = regex::Regex::new(pattern).ok()?;
    re.captures(&t).map(|c| c.iter().map(|m| m.map(|m| m.as_str().to_string())).collect())
}

/// Group `k` of the first match of `pattern` in `text`.
pub open spec fn group(pattern: Seq<char>, text: Seq<char>, k: int) -> Option<Seq<char>> {
    match regex_captures(pattern, text) {
        Some(g) => if 0 <= k < g.len() {
            match g[k] {
                Some(t) => Some(t),
                None => Some(seq![]),
            }
        } else {
            Some(seq![])
        },
        None => None,
    }
}

/// Group `k` of the first match, from what `captures` returned.
fn group_of(c: &Option<Vec<Option<String>>>, k: usize) -> (r: Option<Vec<char>>)
    ensures
        match (*c, r) {
            (Some(v), Some(t)) => t@ == (if k < v@.len() {
                match v@[k as int] {
                    Some(s) => s@,
                    None => seq![],
                }
            } else {
                seq![]
            }),
            (None, None) => true,
            _ => false,
        },
{
    match c {
        None => None,
        Some(v) => {
            if k < v.len() {
                match &v[k] {
                    Some(s) => Some(chars_of(s.as_str())),
                    None => Some(Vec::new()),
                }
            } else {
                Some(Vec::new())
            }
        },
    }
}

fn group_exec(pattern: &str, text: &[char], k: usize) -> (r: Option<Vec<char>>)
    ensures
        match (r, group(pattern@, text@, k as int)) {
            (Some(a), Some(b)) => a@ == b,
            (None, None) => true,
            _ => false,
        },
{
    let c = captures(pattern, text);
    let r = group_of(&c, k);
    proof {
        if let (Some(v), Some(g)) = (c, regex_captures(pattern@, text@)) {
            if k < v@.len() {
                assert(g[k as int] == match v@[k as int] {
                    Some(t) => Some(t@),
                    None => None,
                });
            }
        }
    }
    r
}

/// The line that carries a result's metadata ("English [en] · EPUB ·
/// 0.7MB · 2015"): it has " · " and names a format.
pub open spec fn is_meta(text: Seq<char>) -> bool {
    has_infix(text, " \u{b7} "@) && regex_captures(RE_FORMAT@, text) is Some
}

fn is_meta_exec(text: &[char]) -> (b: bool)
    ensures
        b == is_meta(text@),
{
    contains(text, &chars_of(" \u{b7} ")) && captures(RE_FORMAT, text).is_some()
}

/// The leading hex digits of `s`.
pub open spec fn hex_prefix(s: Seq<char>) -> Seq<char>
    decreases s.len(),
{
    if s.len() == 0 || !is_hex(s[0]) {
        seq![]
    } else {
        seq![s[0]] + hex_prefix(s.drop_first())
    }
}

fn hex_prefix_exec(s: &[char]) -> (r: Vec<char>)
    ensures
        r@ == hex_prefix(s@),
{
    let mut i: usize = 0;
    while i < s.len() && is_hex_digit(s[i])
        invariant
            i <= s.len(),
            forall|j: int| 0 <= j < i ==> is_hex(#[trigger] s@[j]),
        decreases s.len() - i,
    {
        i += 1;
    }
    proof {
        lemma_hex_prefix(s@, i as int);
    }
    crate::text::copy_range(s, 0, i)
}

proof fn lemma_hex_prefix(s: Seq<char>, i: int)
    requires
        0 <= i <= s.len(),
        forall|j: int| 0 <= j < i ==> is_hex(#[trigger] s[j]),
        i == s.len() || !is_hex(s[i]),
    ensures
        hex_prefix(s) == s.take(i),
    decreases i,
{
    if i > 0 {
        let t = s.drop_first();
        assert forall|j: int| 0 <= j < i - 1 implies is_hex(#[trigger] t[j]) by {
            assert(t[j] == s[j + 1]);
        }
        lemma_hex_prefix(t, i - 1);
        assert(seq![s[0]] + t.take(i - 1) == s.take(i));
    } else {
        assert(s.take(0) == Seq::<char>::empty());
    }
}

/// The pieces of `s` between newlines (all of `s` when it has none).
pub open spec fn split_lines(s: Seq<char>) -> Seq<Seq<char>>
    decreases s.len(),
{
    if s.len() == 0 {
        seq![seq![]]
    } else {
        let w = split_lines(s.drop_last());
        if s.last() == '\n' {
            w.push(seq![])
        } else {
            w.update(w.len() - 1, w.last().push(s.last()))
        }
    }
}

pub proof fn lemma_split_lines_nonempty(s: Seq<char>)
    ensures
        split_lines(s).len() > 0,
    decreases s.len(),
{
    if s.len() > 0 {
        lemma_split_lines_nonempty(s.drop_last());
    }
}

/// The first of `lines` that is a metadata line.
pub open spec fn first_meta(lines: Seq<Seq<char>>) -> Option<Seq<char>>
    decreases lines.len(),
{
    if lines.len() == 0 {
        None
    } else if is_meta(lines[0]) {
        Some(lines[0])
    } else {
        first_meta(lines.drop_first())
    }
}

/// The metadata line of a block's text, or the whole text.
pub open spec fn meta_line(text: Seq<char>) -> Seq<char> {
    match first_meta(split_lines(text)) {
        Some(l) => l,
        None => text,
    }
}

fn meta_line_exec(text: &[char]) -> (r: Vec<char>)
    ensures
        r@ == meta_line(text@),
{
    let mut lines: Vec<Vec<char>> = Vec::new();
    lines.push(Vec::new());
    let mut i: usize = 0;
    assert(text@.take(0) == Seq::<char>::empty());
    assert(lines@.map_values(|l: Vec<char>| l@) == split_lines(text@.take(0)));
    while i < text.len()
        invariant
            i <= text.len(),
            lines@.map_values(|l: Vec<char>| l@) == split_lines(text@.take(i as int)),
            lines@.len() > 0,
        decreases text.len() - i,
    {
        let c = text[i];
        let ghost pre = text@.take(i as int);
        assert(text@.take(i + 1).drop_last() == pre);
        if c == '\n' {
            lines.push(Vec::new());
        } else {
            let n = lines.len() - 1;
            let mut last: Vec<char> = Vec::new();
            std::mem::swap(&mut last, &mut lines[n]);
            last.push(c);
            lines.set(n, last);
        }
        i += 1;
        assert(lines@.map_values(|l: Vec<char>| l@) == split_lines(text@.take(i as int)));
    }
    assert(text@.take(i as int) == text@);
    let ghost all = split_lines(text@);
    let mut k: usize = 0;
    assert(all.skip(0) == all);
    while k < lines.len()
        invariant
            k <= lines.len(),
            all == lines@.map_values(|l: Vec<char>| l@),
            all == split_lines(text@),
            first_meta(all) == first_meta(all.skip(k as int)),
        decreases lines.len() - k,
    {
        assert(all.skip(k as int)[0] == all[k as int]);
        assert(all.skip(k as int).drop_first() == all.skip(k + 1));
        if is_meta_exec(&lines[k]) {
            let mut r: Vec<char> = Vec::new();
            push_all(&mut r, &lines[k]);
            return r;
        }
        k += 1;
    }
    let mut r: Vec<char> = Vec::new();
    push_all(&mut r, text);
    r
}

/// The block around a result's link that carries its metadata: the first
/// of at most six ancestors that is an element whose text is a metadata
/// text.
pub open spec fn find_block(nodes: Seq<NodeView>, cur: Option<int>, steps: nat) -> Option<int>
    decreases steps,
{
    if steps == 0 {
        None
    } else {
        match cur {
            None => None,
            Some(n) => if 0 <= n < nodes.len() {
                if nodes[n].element is Some && is_meta(text_of(nodes, n)) {
                    Some(n)
                } else {
                    find_block(nodes, parent_of(nodes, n), (steps - 1) as nat)
                }
            } else {
                None
            },
        }
    }
}

/// The text of the element around the first icon `sel` lists inside
/// `block`, cleaned; empty when there is none.
pub open spec fn labelled(nodes: Seq<NodeView>, sel: Seq<usize>, block: int) -> Seq<char> {
    let icons = scoped(nodes, sel, block);
    if icons.len() == 0 {
        seq![]
    } else {
        match parent_of(nodes, icons[0]) {
            Some(p) => if nodes[p].element is Some {
                collapse_ws(text_of(nodes, p))
            } else {
                seq![]
            },
            None => seq![],
        }
    }
}

pub open spec fn format_of(meta: Seq<char>) -> Seq<char> {
    match group(RE_FORMAT@, meta, 1) {
        Some(f) => uppercase(f),
        None => seq![],
    }
}

pub open spec fn size_of(meta: Seq<char>) -> Seq<char> {
    match (group(RE_SIZE@, meta, 1), group(RE_SIZE@, meta, 2)) {
        (Some(n), Some(u)) => n + " "@ + uppercase(u),
        _ => seq![],
    }
}

pub open spec fn group_or_empty(pattern: Seq<char>, meta: Seq<char>) -> Seq<char> {
    match group(pattern, meta, 1) {
        Some(t) => t,
        None => seq![],
    }
}

/// The result that the link at `pos` gives, unless its md5 is malformed or
/// already `seen`, its title is empty, or no metadata block is around it.
pub open spec fn book_at(
    nodes: Seq<NodeView>,
    pos: int,
    authors: Seq<usize>,
    publishers: Seq<usize>,
    seen: Seq<Seq<char>>,
) -> Option<BookView> {
    if !(0 <= pos < nodes.len()) || nodes[pos].element is None {
        None
    } else {
        let href = match attr_of(nodes, pos, "href"@) {
            Some(h) => h,
            None => seq![],
        };
        let md5 = hex_prefix(strip_prefix_repeated(href, "/md5/"@));
        let title = collapse_ws(text_of(nodes, pos));
        if !spec_is_md5(md5) || seen.contains(md5) || title.len() == 0 {
            None
        } else {
            match find_block(nodes, parent_of(nodes, pos), 6) {
                None => None,
                Some(b) => {
                    let meta = meta_line(join(pieces_in(nodes, b, subtree_end(nodes, b)), " "@));
                    Some(
                        BookView {
                            title,
                            authors: labelled(nodes, authors, b),
                            publisher: labelled(nodes, publishers, b),
                            year: group_or_empty(RE_YEAR@, meta),
                            language: group_or_empty(RE_LANG@, meta),
                            format: format_of(meta),
                            size: size_of(meta),
                            md5,
                            source: "Anna's Archive"@,
                        },
                    )
                },
            }
        }
    }
}

/// The md5s taken and the results found, link by link.
pub open spec fn scan_links(
    nodes: Seq<NodeView>,
    links: Seq<usize>,
    authors: Seq<usize>,
    publishers: Seq<usize>,
) -> (Seq<Seq<char>>, Seq<BookView>)
    decreases links.len(),
{
    if links.len() == 0 {
        (seq![], seq![])
    } else {
        let (seen, out) = scan_links(nodes, links.drop_last(), authors, publishers);
        match book_at(nodes, links.last() as int, authors, publishers, seen) {
            Some(b) => (seen.push(b.md5), out.push(b)),
            None => (seen, out),
        }
    }
}

/// The results on a search page.
pub open spec fn annas_results(html: Seq<char>) -> Seq<BookView> {
    scan_links(
        html_tree(html),
        html_select(html, SEL_MD5_LINK@),
        html_select(html, SEL_AUTHOR@),
        html_select(html, SEL_PUBLISHER@),
    ).1
}

pub open spec fn books_view(v: Seq<Book>) -> Seq<BookView> {
    v.map_values(|b: Book| b@)
}

fn find_block_exec(nodes: &Vec<HtmlNode>, start: Option<usize>) -> (r: Option<usize>)
    requires
        start matches Some(s) ==> s < nodes.len(),
    ensures
        match (r, find_block(
            nodes_view(nodes@),
            match start {
                Some(s) => Some(s as int),
                None => None,
            },
            6,
        )) {
            (Some(a), Some(b)) => a == b && a < nodes.len(),
            (None, None) => true,
            _ => false,
        },
{
    let ghost v = nodes_view(nodes@);
    let mut cur = start;
    let mut steps: usize = 6;
    while steps > 0
        invariant
            steps <= 6,
            v == nodes_view(nodes@),
            cur matches Some(c) ==> c < nodes.len(),
            find_block(v, match start {
                Some(s) => Some(s as int),
                None => None,
            }, 6) == find_block(v, match cur {
                Some(c) => Some(c as int),
                None => None,
            }, steps as nat),
        decreases steps,
    {
        match cur {
            None => return None,
            Some(n) => {
                if nodes[n].element.is_some() && is_meta_exec(&text_exec(nodes, n)) {
                    return Some(n);
                }
                cur = parent_exec(nodes, n);
                steps -= 1;
            },
        }
    }
    None
}

fn labelled_exec(nodes: &Vec<HtmlNode>, sel: &Vec<usize>, block: usize) -> (r: Vec<char>)
    requires
        block < nodes.len(),
    ensures
        r@ == labelled(nodes_view(nodes@), sel@, block as int),
{
    let icons = scoped_exec(nodes, sel, block);
    if icons.len() == 0 {
        return Vec::new();
    }
    assert(icons@.map_values(|p: usize| p as int)[0] == icons@[0] as int);
    match parent_exec(nodes, icons[0]) {
        Some(p) => if nodes[p].element.is_some() {
            collapse_whitespace(&text_exec(nodes, p))
        } else {
            Vec::new()
        },
        None => Vec::new(),
    }
}

fn contains_chars(list: &Vec<Vec<char>>, x: &[char]) -> (b: bool)
    ensures
        b == list@.map_values(|l: Vec<char>| l@).contains(x@),
{
    let ghost lv = list@.map_values(|l: Vec<char>| l@);
    let mut i: usize = 0;
    while i < list.len()
        invariant
            i <= list.len(),
            lv == list@.map_values(|l: Vec<char>| l@),
            forall|j: int| 0 <= j < i ==> lv[j] != x@,
        decreases list.len() - i,
    {
        if same(&list[i], x) {
            assert(lv[i as int] == x@);
            return true;
        }
        i += 1;
    }
    false
}

fn book_at_exec(
    nodes: &Vec<HtmlNode>,
    pos: usize,
    authors: &Vec<usize>,
    publishers: &Vec<usize>,
    seen: &Vec<Vec<char>>,
) -> (r: Option<Book>)
    ensures
        match (r, book_at(
            nodes_view(nodes@),
            pos as int,
            authors@,
            publishers@,
            seen@.map_values(|l: Vec<char>| l@),
        )) {
            (Some(a), Some(b)) => a@ == b,
            (None, None) => true,
            _ => false,
        },
{
    let ghost v = nodes_view(nodes@);
    if pos >= nodes.len() || nodes[pos].element.is_none() {
        return None;
    }
    let href = match attr_exec(nodes, pos, "href") {
        Some(h) => chars_of(h.as_str()),
        None => Vec::new(),
    };
    let md5 = hex_prefix_exec(&trim_start_matches(&href, &chars_of("/md5/")));
    if !is_md5_chars(&md5) || contains_chars(seen, &md5) {
        return None;
    }
    let title = collapse_whitespace(&text_exec(nodes, pos));
    if title.len() == 0 {
        return None;
    }
    let start = parent_exec(nodes, pos);
    let block = match find_block_exec(nodes, start) {
        Some(b) => b,
        None => return None,
    };
    let pieces = pieces_exec(nodes, block);
    let mut text: Vec<char> = Vec::new();
    let mut k: usize = 0;
    let ghost pv = pieces@.map_values(|p: Vec<char>| p@);
    while k < pieces.len()
        invariant
            k <= pieces.len(),
            pv == pieces@.map_values(|p: Vec<char>| p@),
            text@ == join(pv.take(k as int), " "@),
        decreases pieces.len() - k,
    {
        proof {
            assert(pv.take(k + 1) == pv.take(k as int).push(pv[k as int]));
            crate::text::lemma_join_push(pv.take(k as int), " "@, pv[k as int]);
        }
        if k > 0 {
            push_all(&mut text, &chars_of(" "));
        }
        push_all(&mut text, &pieces[k]);
        k += 1;
    }
    assert(pv.take(k as int) == pv);
    let meta = meta_line_exec(&text);
    let format = match group_exec(RE_FORMAT, &meta, 1) {
        Some(f) => to_uppercase(&f),
        None => Vec::new(),
    };
    let size = match (group_exec(RE_SIZE, &meta, 1), group_exec(RE_SIZE, &meta, 2)) {
        (Some(n), Some(u)) => {
            let mut out = n;
            push_all(&mut out, &chars_of(" "));
            push_all(&mut out, &to_uppercase(&u));
            out
        },
        _ => Vec::new(),
    };
    let year = match group_exec(RE_YEAR, &meta, 1) {
        Some(t) => t,
        None => Vec::new(),
    };
    let language = match group_exec(RE_LANG, &meta, 1) {
        Some(t) => t,
        None => Vec::new(),
    };
    Some(
        Book {
            title: string_of(&title),
            authors: string_of(&labelled_exec(nodes, authors, block)),
            publisher: string_of(&labelled_exec(nodes, publishers, block)),
            year: string_of(&year),
            language: string_of(&language),
            format: string_of(&format),
            size: string_of(&size),
            md5: string_of(&md5),
            source: string_of(&chars_of("Anna's Archive")),
        },
    )
}

/// Pulls the results out of a search page. It keys on `/md5/` links and
/// reads the metadata line ("English [en] · EPUB · 0.7MB · 2015") from the
/// nearest enclosing block, so that class-name churn does not break it.
pub fn parse_search(html: &str) -> (r: Vec<Book>)
    ensures
        books_view(r@) == annas_results(html@),
{
    let nodes = parse_tree(html);
    let links = select_positions(html, SEL_MD5_LINK);
    let authors = select_positions(html, SEL_AUTHOR);
    let publishers = select_positions(html, SEL_PUBLISHER);
    let ghost v = nodes_view(nodes@);
    let mut seen: Vec<Vec<char>> = Vec::new();
    let mut out: Vec<Book> = Vec::new();
    let mut k: usize = 0;
    while k < links.len()
        invariant
            k <= links.len(),
            v == nodes_view(nodes@),
            v == html_tree(html@),
            links@ == html_select(html@, SEL_MD5_LINK@),
            authors@ == html_select(html@, SEL_AUTHOR@),
            publishers@ == html_select(html@, SEL_PUBLISHER@),
            (seen@.map_values(|l: Vec<char>| l@), books_view(out@)) == scan_links(
                v,
                links@.take(k as int),
                authors@,
                publishers@,
            ),
        decreases links.len() - k,
    {
        assert(links@.take(k + 1).drop_last() == links@.take(k as int));
        match book_at_exec(&nodes, links[k], &authors, &publishers, &seen) {
            Some(b) => {
                seen.push(chars_of(b.md5.as_str()));
                out.push(b);
            },
            None => {},
        }
        k += 1;
        assert((seen@.map_values(|l: Vec<char>| l@), books_view(out@)) == scan_links(
            v,
            links@.take(k as int),
            authors@,
            publishers@,
        ));
    }
    assert(links@.take(k as int) == links@);
    out
}

// ---------------------------------------------------------------------------
// Searching

/// Why a search on Anna's Archive gave nothing.
#[derive(Debug)]
pub enum SearchError {
    /// The mirror answered with the DDoS-Guard JavaScript challenge.
    Blocked(String),
    Failed(String),
}

impl SearchError {
    pub open spec fn message_of(&self) -> Seq<char> {
        match self {
            SearchError::Blocked(h) => h@ + " requires a browser check for search pages"@,
            SearchError::Failed(e) => e@,
        }
    }

    /// The error as the user reads it.
    pub fn message(&self) -> (m: String)
        ensures
            m@ == self.message_of(),
    {
        match self {
            SearchError::Blocked(h) => {
                let mut out = chars_of(h.as_str());
                push_all(&mut out, &chars_of(" requires a browser check for search pages"));
                string_of(&out)
            },
            SearchError::Failed(e) => e.clone(),
        }
    }
}

pub open spec fn search_url_of(host: Seq<char>, q: Seq<char>, ext: Seq<char>) -> Seq<char> {
    "https://"@ + host + "/search?q="@ + form_encoded(vstd::utf8::encode_utf8(q))
        + "&content=book_any"@ + if ext.len() == 0 {
        seq![]
    } else {
        "&ext="@ + lowercase(ext)
    }
}

/// The search page for `q` on `host`, restricted to the format `ext` when
/// one is given.
pub fn search_url(host: &str, q: &str, ext: &str) -> (u: String)
    ensures
        u@ == search_url_of(host@, q@, ext@),
{
    let mut out = chars_of("https://");
    push_all(&mut out, &chars_of(host));
    push_all(&mut out, &chars_of("/search?q="));
    push_all(&mut out, &form_urlencode(&chars_of(q)));
    push_all(&mut out, &chars_of("&content=book_any"));
    let e = chars_of(ext);
    if e.len() > 0 {
        push_all(&mut out, &chars_of("&ext="));
        push_all(&mut out, &to_lowercase(&e));
    }
    string_of(&out)
}

/// The DDoS-Guard browser check instead of a search page.
pub open spec fn challenge(status: u16, body: Seq<char>) -> bool {
    ||| (status == 403 || status == 503) && (has_infix(body, "DDoS-Guard"@) || has_infix(
        body,
        "js-challenge"@,
    ))
    ||| has_infix(body, "ddos-guard/js-challenge"@) && !has_infix(body, "/md5/"@)
}

pub fn is_challenge(page: &Page) -> (b: bool)
    ensures
        b == challenge(page.status, page.body@),
{
    let body = chars_of(page.body.as_str());
    ((page.status == 403 || page.status == 503) && (contains(&body, &chars_of("DDoS-Guard"))
        || contains(&body, &chars_of("js-challenge")))) || (contains(
        &body,
        &chars_of("ddos-guard/js-challenge"),
    ) && !contains(&body, &chars_of("/md5/")))
}

/// What a search on `host` gives when fetching its page gave `page`: at
/// most `max` results, or why there are none.
pub open spec fn search_outcome(
    host: Seq<char>,
    page: Result<(u16, Seq<char>), Seq<char>>,
    max: nat,
) -> Result<Seq<BookView>, (bool, Seq<char>)> {
    match page {
        Err(e) => Err((false, e)),
        Ok((status, body)) => if challenge(status, body) {
            Err((true, host))
        } else if status != 200 {
            Err((false, host + " answered HTTP "@ + decimal(status as nat)))
        } else {
            let books = annas_results(body);
            Ok(
                if books.len() > max {
                    books.take(max as int)
                } else {
                    books
                },
            )
        },
    }
}

pub open spec fn page_view(page: Result<Page, String>) -> Result<(u16, Seq<char>), Seq<char>> {
    match page {
        Ok(p) => Ok((p.status, p.body@)),
        Err(e) => Err(e@),
    }
}

/// A search on Anna's Archive, from the answer to fetching its search page
/// (`search_url`): the first `max` results, or the browser check, or the
/// failure.
pub fn search(host: &str, page: Result<Page, String>, max: usize) -> (r: Result<
    Vec<Book>,
    SearchError,
>)
    ensures
        match (r, search_outcome(host@, page_view(page), max as nat)) {
            (Ok(v), Ok(b)) => books_view(v@) == b,
            (Err(SearchError::Blocked(h)), Err((true, m))) => h@ == m,
            (Err(SearchError::Failed(e)), Err((false, m))) => e@ == m,
            _ => false,
        },
{
    let page = match page {
        Err(e) => return Err(SearchError::Failed(e)),
        Ok(p) => p,
    };
    if is_challenge(&page) {
        return Err(SearchError::Blocked(string_of(&chars_of(host))));
    }
    if page.status != 200 {
        let mut m = chars_of(host);
        push_all(&mut m, &chars_of(" answered HTTP "));
        push_all(&mut m, &decimal_of(page.status as u64));
        return Err(SearchError::Failed(string_of(&m)));
    }
    let mut books = parse_search(page.body.as_str());
    books.truncate(max);
    Ok(books)
}

// ---------------------------------------------------------------------------
// Fast downloads (members' API)

/// The members' API address for `md5` with the key `key`, or why there is
/// none: the md5 is malformed, or no key is set.
pub open spec fn fast_download_request_of(host: Seq<char>, md5: Seq<char>, key: Seq<char>) -> Result<
    Seq<char>,
    Seq<char>,
> {
    if !spec_is_md5(md5) {
        Err("not an md5: "@ + md5)
    } else if crate::text::trim_ws(key).len() == 0 {
        Err("no Anna's Archive membership key set"@)
    } else {
        Ok(
            "https://"@ + host + "/dyn/api/fast_download.json?md5="@ + md5 + "&key="@
                + form_encoded(vstd::utf8::encode_utf8(crate::text::trim_ws(key))),
        )
    }
}

pub fn fast_download_request(host: &str, md5: &str, key: &str) -> (r: Result<String, String>)
    ensures
        match (r, fast_download_request_of(host@, md5@, key@)) {
            (Ok(a), Ok(b)) => a@ == b,
            (Err(a), Err(b)) => a@ == b,
            _ => false,
        },
{
    if !is_md5(md5) {
        let mut m = chars_of("not an md5: ");
        push_all(&mut m, &chars_of(md5));
        return Err(string_of(&m));
    }
    let k = crate::text::trim(&chars_of(key), &crate::text::CharClass::Space);
    if k.len() == 0 {
        return Err(string_of(&chars_of("no Anna's Archive membership key set")));
    }
    let mut u = chars_of("https://");
    push_all(&mut u, &chars_of(host));
    push_all(&mut u, &chars_of("/dyn/api/fast_download.json?md5="));
    push_all(&mut u, &chars_of(md5));
    push_all(&mut u, &chars_of("&key="));
    push_all(&mut u, &form_urlencode(&k));
    Ok(string_of(&u))
}

/// The fields of the members' API answer that matter.
#[derive(Debug)]
pub struct FastDownload {
    pub download_url: Option<String>,
    pub error: Option<String>,
}

pub open spec fn opt_view(o: Option<String>) -> Option<Seq<char>> {
    match o {
        Some(s) => Some(s@),
        None => None,
    }
}

/// The file address the members' API gave, or why there is none. `answer`
/// is the API's JSON read into its fields, or the reason it could not be.
pub open spec fn fast_download_answer_of(
    host: Seq<char>,
    status: u16,
    answer: Result<(Option<Seq<char>>, Option<Seq<char>>), Seq<char>>,
) -> Result<Seq<char>, Seq<char>> {
    match answer {
        Err(e) => Err(
            host + " sent something that is not the API JSON (HTTP "@ + decimal(status as nat)
                + "): "@ + e,
        ),
        Ok((url, error)) => match url {
            Some(u) if u.len() > 0 => Ok(u),
            _ => Err(
                "Anna's Archive: "@ + match error {
                    Some(e) => e,
                    None => "no download URL (HTTP "@ + decimal(status as nat) + ")"@,
                },
            ),
        },
    }
}

pub fn fast_download_answer(host: &str, status: u16, answer: Result<FastDownload, String>) -> (r:
    Result<String, String>)
    ensures
        match (r, fast_download_answer_of(
            host@,
            status,
            match answer {
                Ok(a) => Ok((opt_view(a.download_url), opt_view(a.error))),
                Err(e) => Err(e@),
            },
        )) {
            (Ok(a), Ok(b)) => a@ == b,
            (Err(a), Err(b)) => a@ == b,
            _ => false,
        },
{
    match answer {
        Err(e) => {
            let mut m = chars_of(host);
            push_all(&mut m, &chars_of(" sent something that is not the API JSON (HTTP "));
            push_all(&mut m, &decimal_of(status as u64));
            push_all(&mut m, &chars_of("): "));
            push_all(&mut m, &chars_of(e.as_str()));
            Err(string_of(&m))
        },
        Ok(fd) => {
            if let Some(u) = &fd.download_url {
                if chars_of(u.as_str()).len() > 0 {
                    return Ok(u.clone());
                }
            }
            let mut m = chars_of("Anna's Archive: ");
            match &fd.error {
                Some(e) => push_all(&mut m, &chars_of(e.as_str())),
                None => {
                    push_all(&mut m, &chars_of("no download URL (HTTP "));
                    push_all(&mut m, &decimal_of(status as u64));
                    push_all(&mut m, &chars_of(")"));
                },
            }
            Err(string_of(&m))
        },
    }
}

} // verus!

verus! {

pub open spec fn md5s_of(books: Seq<BookView>) -> Seq<Seq<char>> {
    books.map_values(|b: BookView| b.md5)
}

proof fn lemma_scan_links(
    nodes: Seq<NodeView>,
    links: Seq<usize>,
    authors: Seq<usize>,
    publishers: Seq<usize>,
)
    ensures
        ({
            let (seen, out) = scan_links(nodes, links, authors, publishers);
            &&& seen == md5s_of(out)
            &&& forall|i: int, j: int| 0 <= i < j < out.len() ==> out[i].md5 != out[j].md5
            &&& forall|i: int| 0 <= i < out.len() ==> spec_is_md5(#[trigger] out[i].md5)
        }),
    decreases links.len(),
{
    if links.len() > 0 {
        lemma_scan_links(nodes, links.drop_last(), authors, publishers);
        let (seen, out) = scan_links(nodes, links.drop_last(), authors, publishers);
        if let Some(b) = book_at(nodes, links.last() as int, authors, publishers, seen) {
            assert(md5s_of(out.push(b)) == seen.push(b.md5));
            assert forall|i: int| 0 <= i < out.len() implies out[i].md5 != b.md5 by {
                assert(seen[i] == out[i].md5);
            }
        }
    }
}

/// A search page never gives two results with the same md5, and every
/// result's md5 is 32 hex digits.
pub proof fn law_results_distinct(html: Seq<char>)
    ensures
        forall|i: int, j: int|
            0 <= i < j < annas_results(html).len() ==> annas_results(html)[i].md5
                != annas_results(html)[j].md5,
        forall|i: int|
            0 <= i < annas_results(html).len() ==> spec_is_md5(#[trigger] annas_results(html)[i].md5),
{
    lemma_scan_links(
        html_tree(html),
        html_select(html, SEL_MD5_LINK@),
        html_select(html, SEL_AUTHOR@),
        html_select(html, SEL_PUBLISHER@),
    );
}

/// A search keeps at most the wanted number of results, in page order.
pub proof fn law_search_bounded(host: Seq<char>, status: u16, body: Seq<char>, max: nat)
    requires
        !challenge(status, body),
        status == 200,
    ensures
        search_outcome(host, Ok((status, body)), max) matches Ok(b) && b.len() <= max
            && b == annas_results(body).take(b.len() as int),
{
    let all = annas_results(body);
    if all.len() <= max {
        assert(all.take(all.len() as int) == all);
    }
}

} // verus!
