//! Mirror discovery from the Shadow Library Uptime Monitor (open-slum.org),
//! the ranking of the mirrors it lists, and a small cache of the mirrors in
//! use. Times are milliseconds on a monotonic clock that the caller reads.

use vstd::prelude::*;
use crate::config::{host_of, normalize_host, Config};
use crate::html::{
    attr_exec, attr_of, html_select, html_tree, nodes_view, parse_tree, scoped, scoped_exec,
    select_positions, text_exec, text_of, HtmlNode, NodeView,
};
use crate::jobs::{add_unique, strings_view};
use crate::net::Page;
use crate::text::{
    chars_of, contains, decimal, decimal_of, has_infix, has_prefix, lowercase, push_all, same,
    starts_with, string_of, to_lowercase, trim, trim_ws, CharClass,
};

verus! {

pub const SLUM_URL: &'static str = "https://open-slum.org/";

/// How long a mirror choice or the mirror list stays good: 30 minutes.
pub const TTL_MS: u64 = 1800000;

/// How long to skip Anna's search after seeing the browser check: 6 hours.
pub const BLOCKED_TTL_MS: u64 = 21600000;

/// A mirror's health as open-slum.org reports it, best first.
#[derive(Clone, Copy, PartialEq, Eq, Debug, Structural)]
pub enum Status {
    Up,
    Protected,
    Degraded,
    Unknown,
    Down,
}

#[derive(Debug)]
pub struct Mirror {
    pub host: String,
    pub status: Status,
}

pub struct MirrorView {
    pub host: Seq<char>,
    pub status: Status,
}

impl View for Mirror {
    type V = MirrorView;

    open spec fn view(&self) -> MirrorView {
        MirrorView { host: self.host@, status: self.status }
    }
}

impl Clone for Mirror {
    fn clone(&self) -> (r: Self)
        ensures
            r == *self,
    {
        Mirror { host: self.host.clone(), status: self.status }
    }
}

pub open spec fn mirrors_view(v: Seq<Mirror>) -> Seq<MirrorView> {
    v.map_values(|m: Mirror| m@)
}

/// The mirrors open-slum.org lists for each library.
#[derive(Debug)]
pub struct Slum {
    pub annas: Vec<Mirror>,
    pub libgen: Vec<Mirror>,
}

pub struct SlumView {
    pub annas: Seq<MirrorView>,
    pub libgen: Seq<MirrorView>,
}

impl View for Slum {
    type V = SlumView;

    open spec fn view(&self) -> SlumView {
        SlumView { annas: mirrors_view(self.annas@), libgen: mirrors_view(self.libgen@) }
    }
}

fn clone_mirrors(v: &Vec<Mirror>) -> (r: Vec<Mirror>)
    ensures
        r@ == v@,
{
    let mut r: Vec<Mirror> = Vec::new();
    let mut i: usize = 0;
    while i < v.len()
        invariant
            i <= v.len(),
            r@ == v@.take(i as int),
        decreases v.len() - i,
    {
        r.push(v[i].clone());
        i += 1;
        assert(r@ == v@.take(i as int));
    }
    assert(v@.take(i as int) == v@);
    r
}

impl Clone for Slum {
    fn clone(&self) -> (r: Self)
        ensures
            r@ == self@,
    {
        Slum { annas: clone_mirrors(&self.annas), libgen: clone_mirrors(&self.libgen) }
    }
}

impl Default for Slum {
    fn default() -> (r: Self)
        ensures
            r@.annas.len() == 0,
            r@.libgen.len() == 0,
    {
        Slum { annas: Vec::new(), libgen: Vec::new() }
    }
}

// ---------------------------------------------------------------------------
// Reading the monitor's page

pub const SEL_CARD: &'static str = "div.site-card";

pub const SEL_CARD_TITLE: &'static str = "a.site-card-title";

pub const SEL_ITEM: &'static str = "li.domain-item-dense";

pub const SEL_LINK: &'static str = "a.domain-link";

pub const SEL_BADGE: &'static str = "a.status-badge, span.status-badge";

/// The status a badge class names.
pub open spec fn class_status(cls: Seq<char>) -> Option<Status> {
    if cls == "up"@ {
        Some(Status::Up)
    } else if cls == "protected"@ {
        Some(Status::Protected)
    } else if cls == "degraded"@ {
        Some(Status::Degraded)
    } else if cls == "down"@ {
        Some(Status::Down)
    } else {
        None
    }
}

/// `st` after reading `classes` in turn: each class that names a status
/// sets it.
pub open spec fn status_after(classes: Seq<Seq<char>>, st: Status) -> Status
    decreases classes.len(),
{
    if classes.len() == 0 {
        st
    } else {
        match class_status(classes.last()) {
            Some(s) => s,
            None => status_after(classes.drop_last(), st),
        }
    }
}

/// The status after reading the badges at `badges` in turn.
pub open spec fn badges_status(nodes: Seq<NodeView>, badges: Seq<int>) -> Status
    decreases badges.len(),
{
    if badges.len() == 0 {
        Status::Unknown
    } else {
        let before = badges_status(nodes, badges.drop_last());
        let b = badges.last();
        if 0 <= b < nodes.len() {
            match nodes[b].element {
                Some(e) => status_after(e.classes, before),
                None => before,
            }
        } else {
            before
        }
    }
}

/// The mirror a list item names: the host of its first link, with the
/// status of its badges; none when the link or its host is missing.
pub open spec fn mirror_at(nodes: Seq<NodeView>, links: Seq<usize>, badges: Seq<usize>, li: int) -> Option<
    MirrorView,
> {
    let ls = scoped(nodes, links, li);
    if ls.len() == 0 {
        None
    } else {
        match attr_of(nodes, ls[0], "href"@) {
            None => None,
            Some(href) => {
                let host = host_of(href);
                if host.len() == 0 {
                    None
                } else {
                    Some(MirrorView { host, status: badges_status(nodes, scoped(nodes, badges, li)) })
                }
            },
        }
    }
}

/// The mirrors the list items at `items` name, in order.
pub open spec fn mirrors_at(
    nodes: Seq<NodeView>,
    links: Seq<usize>,
    badges: Seq<usize>,
    items: Seq<int>,
) -> Seq<MirrorView>
    decreases items.len(),
{
    if items.len() == 0 {
        seq![]
    } else {
        let before = mirrors_at(nodes, links, badges, items.drop_last());
        match mirror_at(nodes, links, badges, items.last()) {
            Some(m) => before.push(m),
            None => before,
        }
    }
}

pub open spec fn with_status(ms: Seq<MirrorView>, st: Status) -> Seq<MirrorView>
    decreases ms.len(),
{
    if ms.len() == 0 {
        seq![]
    } else if ms.last().status == st {
        with_status(ms.drop_last(), st).push(ms.last())
    } else {
        with_status(ms.drop_last(), st)
    }
}

/// `ms` sorted by status, best first, keeping the page's order among
/// mirrors of equal status (a stable sort).
pub open spec fn by_status(ms: Seq<MirrorView>) -> Seq<MirrorView> {
    with_status(ms, Status::Up) + with_status(ms, Status::Protected) + with_status(
        ms,
        Status::Degraded,
    ) + with_status(ms, Status::Unknown) + with_status(ms, Status::Down)
}

/// Which library a card's title names: 1 for Anna's Archive, 2 for LibGen,
/// 0 for others.
pub open spec fn library_of(name: Seq<char>) -> int {
    if name == "annas"@ || name == "anna's archive"@ || name == "annas-archive"@ {
        1
    } else if name == "libgen"@ || name == "library genesis"@ {
        2
    } else {
        0
    }
}

/// A card's title, trimmed and in lower case; empty when it has none.
pub open spec fn card_name(nodes: Seq<NodeView>, titles: Seq<usize>, card: int) -> Seq<char> {
    let t = scoped(nodes, titles, card);
    if t.len() == 0 {
        seq![]
    } else {
        lowercase(trim_ws(text_of(nodes, t[0])))
    }
}

pub struct Selections {
    pub cards: Seq<usize>,
    pub titles: Seq<usize>,
    pub items: Seq<usize>,
    pub links: Seq<usize>,
    pub badges: Seq<usize>,
}

/// The mirror lists after reading the cards at `cards` in turn; a later
/// card for the same library replaces an earlier one.
pub open spec fn scan_cards(nodes: Seq<NodeView>, sel: Selections, cards: Seq<usize>) -> SlumView
    decreases cards.len(),
{
    if cards.len() == 0 {
        SlumView { annas: seq![], libgen: seq![] }
    } else {
        let before = scan_cards(nodes, sel, cards.drop_last());
        let c = cards.last() as int;
        if !(0 <= c < nodes.len()) {
            before
        } else {
            let ms = by_status(mirrors_at(nodes, sel.links, sel.badges, scoped(nodes, sel.items, c)));
            let lib = library_of(card_name(nodes, sel.titles, c));
            if lib == 1 {
                SlumView { annas: ms, ..before }
            } else if lib == 2 {
                SlumView { libgen: ms, ..before }
            } else {
                before
            }
        }
    }
}

pub open spec fn slum_selections(html: Seq<char>) -> Selections {
    Selections {
        cards: html_select(html, SEL_CARD@),
        titles: html_select(html, SEL_CARD_TITLE@),
        items: html_select(html, SEL_ITEM@),
        links: html_select(html, SEL_LINK@),
        badges: html_select(html, SEL_BADGE@),
    }
}

/// The mirror lists on the monitor's page.
pub open spec fn slum_of(html: Seq<char>) -> SlumView {
    let sel = slum_selections(html);
    scan_cards(html_tree(html), sel, sel.cards)
}

fn class_status_exec(cls: &[char]) -> (r: Option<Status>)
    ensures
        r == class_status(cls@),
{
    if same(cls, &chars_of("up")) {
        Some(Status::Up)
    } else if same(cls, &chars_of("protected")) {
        Some(Status::Protected)
    } else if same(cls, &chars_of("degraded")) {
        Some(Status::Degraded)
    } else if same(cls, &chars_of("down")) {
        Some(Status::Down)
    } else {
        None
    }
}

fn badges_status_exec(nodes: &Vec<HtmlNode>, badges: &Vec<usize>) -> (st: Status)
    ensures
        st == badges_status(nodes_view(nodes@), badges@.map_values(|p: usize| p as int)),
{
    let ghost v = nodes_view(nodes@);
    let ghost bs = badges@.map_values(|p: usize| p as int);
    let mut st = Status::Unknown;
    let mut i: usize = 0;
    while i < badges.len()
        invariant
            i <= badges.len(),
            v == nodes_view(nodes@),
            bs == badges@.map_values(|p: usize| p as int),
            st == badges_status(v, bs.take(i as int)),
        decreases badges.len() - i,
    {
        let b = badges[i];
        assert(bs.take(i + 1).drop_last() == bs.take(i as int));
        assert(bs.take(i + 1).last() == b as int);
        if b < nodes.len() {
            if let Some(e) = &nodes[b].element {
                let ghost cv = e@.classes;
                let mut k: usize = 0;
                let ghost start = st;
                while k < e.classes.len()
                    invariant
                        k <= e.classes.len(),
                        cv == e@.classes,
                        st == status_after(cv.take(k as int), start),
                    decreases e.classes.len() - k,
                {
                    assert(cv.take(k + 1).drop_last() == cv.take(k as int));
                    assert(cv.take(k + 1).last() == e.classes@[k as int]@);
                    if let Some(s) = class_status_exec(&chars_of(e.classes[k].as_str())) {
                        st = s;
                    }
                    k += 1;
                }
                assert(cv.take(k as int) == cv);
            }
        }
        i += 1;
    }
    assert(bs.take(i as int) == bs);
    st
}

fn mirror_at_exec(nodes: &Vec<HtmlNode>, links: &Vec<usize>, badges: &Vec<usize>, li: usize) -> (r:
    Option<Mirror>)
    requires
        li < nodes.len(),
    ensures
        match (r, mirror_at(nodes_view(nodes@), links@, badges@, li as int)) {
            (Some(a), Some(b)) => a@ == b,
            (None, None) => true,
            _ => false,
        },
{
    let ls = scoped_exec(nodes, links, li);
    if ls.len() == 0 {
        return None;
    }
    assert(ls@.map_values(|p: usize| p as int)[0] == ls@[0] as int);
    match attr_exec(nodes, ls[0], "href") {
        None => None,
        Some(href) => {
            let host = normalize_host(href.as_str());
            if chars_of(host.as_str()).len() == 0 {
                None
            } else {
                let bs = scoped_exec(nodes, badges, li);
                Some(Mirror { host, status: badges_status_exec(nodes, &bs) })
            }
        },
    }
}

fn by_status_exec(ms: &Vec<Mirror>) -> (r: Vec<Mirror>)
    ensures
        mirrors_view(r@) == by_status(mirrors_view(ms@)),
{
    let ghost mv = mirrors_view(ms@);
    let mut out: Vec<Mirror> = Vec::new();
    let order = [Status::Up, Status::Protected, Status::Degraded, Status::Unknown, Status::Down];
    let mut s: usize = 0;
    let ghost mut acc: Seq<MirrorView> = seq![];
    while s < 5
        invariant
            s <= 5,
            mv == mirrors_view(ms@),
            order@ == seq![Status::Up, Status::Protected, Status::Degraded, Status::Unknown, Status::Down],
            mirrors_view(out@) == (if s == 0 {
                seq![]
            } else if s == 1 {
                with_status(mv, Status::Up)
            } else if s == 2 {
                with_status(mv, Status::Up) + with_status(mv, Status::Protected)
            } else if s == 3 {
                with_status(mv, Status::Up) + with_status(mv, Status::Protected) + with_status(mv, Status::Degraded)
            } else if s == 4 {
                with_status(mv, Status::Up) + with_status(mv, Status::Protected) + with_status(mv, Status::Degraded)
                    + with_status(mv, Status::Unknown)
            } else {
                by_status(mv)
            }),
        decreases 5 - s,
    {
        let st = order[s];
        let ghost base = mirrors_view(out@);
        let mut i: usize = 0;
        while i < ms.len()
            invariant
                i <= ms.len(),
                mv == mirrors_view(ms@),
                mirrors_view(out@) == base + with_status(mv.take(i as int), st),
            decreases ms.len() - i,
        {
            assert(mv.take(i + 1).drop_last() == mv.take(i as int));
            assert(mv.take(i + 1).last() == ms@[i as int]@);
            let ghost prev = mirrors_view(out@);
            if ms[i].status == st {
                out.push(ms[i].clone());
                assert(mirrors_view(out@) == prev.push(ms@[i as int]@));
                assert(base + with_status(mv.take(i as int), st).push(ms@[i as int]@) == (base
                    + with_status(mv.take(i as int), st)).push(ms@[i as int]@));
            }
            i += 1;
            assert(mirrors_view(out@) == base + with_status(mv.take(i as int), st));
        }
        assert(mv.take(i as int) == mv);
        s += 1;
    }
    out
}

fn card_name_exec(nodes: &Vec<HtmlNode>, titles: &Vec<usize>, card: usize) -> (r: Vec<char>)
    requires
        card < nodes.len(),
    ensures
        r@ == card_name(nodes_view(nodes@), titles@, card as int),
{
    let t = scoped_exec(nodes, titles, card);
    if t.len() == 0 {
        return Vec::new();
    }
    assert(t@.map_values(|p: usize| p as int)[0] == t@[0] as int);
    to_lowercase(&trim(&text_exec(nodes, t[0]), &CharClass::Space))
}

fn library_exec(name: &[char]) -> (k: u8)
    ensures
        k as int == library_of(name@),
{
    if same(name, &chars_of("annas")) || same(name, &chars_of("anna's archive")) || same(
        name,
        &chars_of("annas-archive"),
    ) {
        1
    } else if same(name, &chars_of("libgen")) || same(name, &chars_of("library genesis")) {
        2
    } else {
        0
    }
}

/// The mirror lists on the monitor's page.
pub fn parse(html: &str) -> (s: Slum)
    ensures
        s@ == slum_of(html@),
{
    let nodes = parse_tree(html);
    let cards = select_positions(html, SEL_CARD);
    let titles = select_positions(html, SEL_CARD_TITLE);
    let items = select_positions(html, SEL_ITEM);
    let links = select_positions(html, SEL_LINK);
    let badges = select_positions(html, SEL_BADGE);
    let ghost v = nodes_view(nodes@);
    let ghost sel = slum_selections(html@);
    let mut out = Slum { annas: Vec::new(), libgen: Vec::new() };
    let mut k: usize = 0;
    assert(cards@.take(0) == Seq::<usize>::empty());
    assert(out@.annas == Seq::<MirrorView>::empty());
    assert(out@.libgen == Seq::<MirrorView>::empty());
    assert(out@ == scan_cards(v, sel, cards@.take(0)));
    while k < cards.len()
        invariant
            k <= cards.len(),
            v == nodes_view(nodes@),
            v == html_tree(html@),
            sel == slum_selections(html@),
            cards@ == sel.cards,
            titles@ == sel.titles,
            items@ == sel.items,
            links@ == sel.links,
            badges@ == sel.badges,
            out@ == scan_cards(v, sel, cards@.take(k as int)),
        decreases cards.len() - k,
    {
        let c = cards[k];
        assert(cards@.take(k + 1).drop_last() == cards@.take(k as int));
        assert(cards@.take(k + 1).last() == c);
        if c < nodes.len() {
            let name = card_name_exec(&nodes, &titles, c);
            let lis = scoped_exec(&nodes, &items, c);
            let ghost lv = lis@.map_values(|p: usize| p as int);
            let mut ms: Vec<Mirror> = Vec::new();
            let mut i: usize = 0;
            while i < lis.len()
                invariant
                    i <= lis.len(),
                    v == nodes_view(nodes@),
                    lv == lis@.map_values(|p: usize| p as int),
                    forall|j: int| 0 <= j < lis@.len() ==> #[trigger] lis@[j] < nodes.len(),
                    mirrors_view(ms@) == mirrors_at(v, links@, badges@, lv.take(i as int)),
                decreases lis.len() - i,
            {
                assert(lv.take(i + 1).drop_last() == lv.take(i as int));
                assert(lv.take(i + 1).last() == lis@[i as int] as int);
                if let Some(m) = mirror_at_exec(&nodes, &links, &badges, lis[i]) {
                    ms.push(m);
                }
                i += 1;
                assert(mirrors_view(ms@) == mirrors_at(v, links@, badges@, lv.take(i as int)));
            }
            assert(lv.take(i as int) == lv);
            let sorted = by_status_exec(&ms);
            let lib = library_exec(&name);
            if lib == 1 {
                out.annas = sorted;
            } else if lib == 2 {
                out.libgen = sorted;
            }
        }
        k += 1;
    }
    assert(cards@.take(k as int) == cards@);
    out
}

/// The mirror list from the monitor's page as fetched, or why there is
/// none.
pub open spec fn fetch_outcome(page: Result<(u16, Seq<char>), Seq<char>>) -> Result<SlumView, Seq<char>> {
    match page {
        Err(e) => Err(e),
        Ok((status, body)) => if status != 200 {
            Err("open-slum.org answered "@ + decimal(status as nat))
        } else {
            let s = slum_of(body);
            if s.annas.len() == 0 && s.libgen.len() == 0 {
                Err("open-slum.org page has no mirror list"@)
            } else {
                Ok(s)
            }
        },
    }
}

/// Reads the monitor's page (`SLUM_URL`) as the HTTP client gave it.
pub fn fetch(page: Result<Page, String>) -> (r: Result<Slum, String>)
    ensures
        match (r, fetch_outcome(crate::annas::page_view(page))) {
            (Ok(a), Ok(b)) => a@ == b,
            (Err(a), Err(b)) => a@ == b,
            _ => false,
        },
{
    let page = match page {
        Err(e) => return Err(e),
        Ok(p) => p,
    };
    if page.status != 200 {
        let mut m = chars_of("open-slum.org answered ");
        push_all(&mut m, &decimal_of(page.status as u64));
        return Err(string_of(&m));
    }
    let s = parse(page.body.as_str());
    if s.annas.len() == 0 && s.libgen.len() == 0 {
        return Err(string_of(&chars_of("open-slum.org page has no mirror list")));
    }
    Ok(s)
}

// ---------------------------------------------------------------------------
// Ranking mirrors

pub open spec fn default_annas() -> Seq<Seq<char>> {
    seq!["annas-archive.gl"@, "annas-archive.pk"@, "annas-archive.gd"@]
}

pub open spec fn default_libgen() -> Seq<Seq<char>> {
    seq!["libgen.li"@, "libgen.vg"@, "libgen.la"@, "libgen.bz"@, "libgen.gl"@]
}

/// The Anna's Archive mirrors to fall back on.
pub fn default_annas_hosts() -> (v: Vec<String>)
    ensures
        strings_view(v@) == default_annas(),
{
    let mut v: Vec<String> = Vec::new();
    v.push(string_of(&chars_of("annas-archive.gl")));
    v.push(string_of(&chars_of("annas-archive.pk")));
    v.push(string_of(&chars_of("annas-archive.gd")));
    assert(strings_view(v@) == default_annas());
    v
}

/// The LibGen mirrors to fall back on.
pub fn default_libgen_hosts() -> (v: Vec<String>)
    ensures
        strings_view(v@) == default_libgen(),
{
    let mut v: Vec<String> = Vec::new();
    v.push(string_of(&chars_of("libgen.li")));
    v.push(string_of(&chars_of("libgen.vg")));
    v.push(string_of(&chars_of("libgen.la")));
    v.push(string_of(&chars_of("libgen.bz")));
    v.push(string_of(&chars_of("libgen.gl")));
    assert(strings_view(v@) == default_libgen());
    v
}

/// A listed mirror worth trying: not down, and not under `skip` (when
/// that is not empty).
pub open spec fn acceptable(m: MirrorView, skip: Seq<char>) -> bool {
    m.status != Status::Down && !(skip.len() > 0 && has_prefix(m.host, skip))
}

/// The hosts of the acceptable mirrors of `list`, in order.
pub open spec fn acceptable_hosts(list: Seq<MirrorView>, skip: Seq<char>) -> Seq<Seq<char>>
    decreases list.len(),
{
    if list.len() == 0 {
        seq![]
    } else if acceptable(list.last(), skip) {
        acceptable_hosts(list.drop_last(), skip).push(list.last().host)
    } else {
        acceptable_hosts(list.drop_last(), skip)
    }
}

/// `out` followed by those of `hs` it does not hold yet, each once.
pub open spec fn add_hosts(out: Seq<Seq<char>>, hs: Seq<Seq<char>>) -> Seq<Seq<char>>
    decreases hs.len(),
{
    if hs.len() == 0 {
        out
    } else {
        add_unique(add_hosts(out, hs.drop_last()), hs.last())
    }
}

/// The hosts to try in turn: the acceptable listed mirrors in the order of
/// the list, then the defaults, each host once.
pub open spec fn candidates_of(list: Seq<MirrorView>, defaults: Seq<Seq<char>>, skip: Seq<char>) -> Seq<
    Seq<char>,
> {
    add_hosts(add_hosts(seq![], acceptable_hosts(list, skip)), defaults)
}

fn add_unique_exec(out: &mut Vec<String>, h: &String)
    ensures
        strings_view(final(out)@) == add_unique(strings_view(old(out)@), h@),
{
    let ghost ov = strings_view(out@);
    let hc = chars_of(h.as_str());
    let mut i: usize = 0;
    while i < out.len()
        invariant
            i <= out.len(),
            *out == *old(out),
            ov == strings_view(out@),
            hc@ == h@,
            forall|j: int| 0 <= j < i ==> ov[j] != h@,
        decreases out.len() - i,
    {
        if same(&chars_of(out[i].as_str()), &hc) {
            assert(ov[i as int] == h@);
            return;
        }
        i += 1;
    }
    assert(!ov.contains(h@));
    out.push(h.clone());
    assert(strings_view(out@) == ov.push(h@));
}

fn add_hosts_exec(out: &mut Vec<String>, hs: &Vec<String>)
    ensures
        strings_view(final(out)@) == add_hosts(strings_view(old(out)@), strings_view(hs@)),
{
    let ghost start = strings_view(out@);
    let ghost hv = strings_view(hs@);
    let mut i: usize = 0;
    while i < hs.len()
        invariant
            i <= hs.len(),
            hv == strings_view(hs@),
            start == strings_view(old(out)@),
            strings_view(out@) == add_hosts(start, hv.take(i as int)),
        decreases hs.len() - i,
    {
        assert(hv.take(i + 1).drop_last() == hv.take(i as int));
        assert(hv.take(i + 1).last() == hs@[i as int]@);
        add_unique_exec(out, &hs[i]);
        i += 1;
    }
    assert(hv.take(i as int) == hv);
}

/// The hosts to try in turn: the listed mirrors that are not down (nor
/// under `skip_prefix`, when it is not empty), then the defaults, each
/// once.
pub fn candidates(list: &Vec<Mirror>, defaults: &Vec<String>, skip_prefix: &str) -> (r: Vec<String>)
    ensures
        strings_view(r@) == candidates_of(mirrors_view(list@), strings_view(defaults@), skip_prefix@),
{
    let ghost lv = mirrors_view(list@);
    let skip = chars_of(skip_prefix);
    let mut hosts: Vec<String> = Vec::new();
    let mut i: usize = 0;
    while i < list.len()
        invariant
            i <= list.len(),
            lv == mirrors_view(list@),
            skip@ == skip_prefix@,
            strings_view(hosts@) == acceptable_hosts(lv.take(i as int), skip_prefix@),
        decreases list.len() - i,
    {
        assert(lv.take(i + 1).drop_last() == lv.take(i as int));
        assert(lv.take(i + 1).last() == list@[i as int]@);
        let m = &list[i];
        if m.status != Status::Down && !(skip.len() > 0 && starts_with(
            &chars_of(m.host.as_str()),
            &skip,
        )) {
            hosts.push(m.host.clone());
        }
        i += 1;
        assert(strings_view(hosts@) == acceptable_hosts(lv.take(i as int), skip_prefix@));
    }
    assert(lv.take(i as int) == lv);
    let mut out: Vec<String> = Vec::new();
    assert(strings_view(out@) == Seq::<Seq<char>>::empty());
    add_hosts_exec(&mut out, &hosts);
    add_hosts_exec(&mut out, defaults);
    out
}

// ---------------------------------------------------------------------------
// The cache of chosen mirrors

/// Less than `ttl` has passed since `at` (no time at all when the clock
/// reads earlier than `at`).
pub open spec fn fresh(at: u64, now: u64, ttl: u64) -> bool {
    (if now >= at {
        now - at
    } else {
        0
    }) < ttl
}

/// The mirror list, the chosen mirrors, and when Anna's search last showed
/// the browser check.
#[derive(Debug)]
pub struct Resolver {
    slum: Option<(u64, Slum)>,
    annas: Option<(String, u64)>,
    libgen: Option<(String, u64)>,
    annas_blocked: Option<u64>,
}

pub open spec fn cached_view(c: Option<(String, u64)>) -> Option<(Seq<char>, u64)> {
    match c {
        Some((h, at)) => Some((h@, at)),
        None => None,
    }
}

impl Resolver {
    /// The mirror list and when it was fetched.
    pub closed spec fn slum_cache(&self) -> Option<(u64, SlumView)> {
        match self.slum {
            Some((at, s)) => Some((at, s@)),
            None => None,
        }
    }

    /// The chosen Anna's Archive mirror and when it was chosen.
    pub closed spec fn annas_cache(&self) -> Option<(Seq<char>, u64)> {
        cached_view(self.annas)
    }

    /// The chosen LibGen mirror and when it was chosen.
    pub closed spec fn libgen_cache(&self) -> Option<(Seq<char>, u64)> {
        cached_view(self.libgen)
    }

    /// When Anna's search last answered with the browser check.
    pub closed spec fn blocked_at(&self) -> Option<u64> {
        self.annas_blocked
    }

    pub fn new() -> (r: Resolver)
        ensures
            r.slum_cache() is None,
            r.annas_cache() is None,
            r.libgen_cache() is None,
            r.blocked_at() is None,
    {
        Resolver { slum: None, annas: None, libgen: None, annas_blocked: None }
    }

    /// The mirror list, when the one fetched last is less than 30 minutes
    /// old.
    pub fn cached_slum(&self, now: u64) -> (r: Option<Slum>)
        ensures
            match self.slum_cache() {
                Some((at, s)) if fresh(at, now, TTL_MS) => r matches Some(x) && x@ == s,
                _ => r is None,
            },
    {
        match &self.slum {
            Some((at, s)) => {
                let elapsed = if now >= *at {
                    now - *at
                } else {
                    0
                };
                if elapsed < TTL_MS {
                    Some(s.clone())
                } else {
                    None
                }
            },
            None => None,
        }
    }

    /// Keeps the mirror list just fetched (an empty one when fetching
    /// failed) and gives it back.
    pub fn remember_slum(&mut self, now: u64, fetched: Result<Slum, String>) -> (s: Slum)
        ensures
            match fetched {
                Ok(f) => s@ == f@,
                Err(_) => s@.annas.len() == 0 && s@.libgen.len() == 0,
            },
            final(self).slum_cache() == Some((now, s@)),
            final(self).annas_cache() == old(self).annas_cache(),
            final(self).libgen_cache() == old(self).libgen_cache(),
            final(self).blocked_at() == old(self).blocked_at(),
    {
        let s = match fetched {
            Ok(f) => f,
            Err(_) => Slum::default(),
        };
        let kept = s.clone();
        self.slum = Some((now, kept));
        s
    }

    /// The Anna's Archive host when it is known without probing: the one
    /// in the settings, else the one chosen less than 30 minutes ago.
    pub fn annas_host(&self, cfg: &Config, now: u64) -> (r: Option<String>)
        ensures
            match (r, known_host(cfg.base_url@, self.annas_cache(), now)) {
                (Some(a), Some(b)) => a@ == b,
                (None, None) => true,
                _ => false,
            },
    {
        known_host_exec(&cfg.base_url, &self.annas, now)
    }

    /// The LibGen host when it is known without probing.
    pub fn libgen_host(&self, cfg: &Config, now: u64) -> (r: Option<String>)
        ensures
            match (r, known_host(cfg.libgen_url@, self.libgen_cache(), now)) {
                (Some(a), Some(b)) => a@ == b,
                (None, None) => true,
                _ => false,
            },
    {
        known_host_exec(&cfg.libgen_url, &self.libgen, now)
    }

    /// The Anna's Archive mirrors to probe, best first.
    pub fn annas_candidates(slum: &Slum) -> (r: Vec<String>)
        ensures
            strings_view(r@) == candidates_of(slum@.annas, default_annas(), "software."@),
    {
        candidates(&slum.annas, &default_annas_hosts(), "software.")
    }

    /// Takes the first mirror that answered the probe, or the first
    /// default when none did, as the Anna's Archive host for a while.
    pub fn settle_annas(&mut self, found: Option<String>, now: u64) -> (h: String)
        ensures
            h@ == match found {
                Some(f) => f@,
                None => default_annas()[0],
            },
            final(self).annas_cache() == Some((h@, now)),
            final(self).slum_cache() == old(self).slum_cache(),
            final(self).libgen_cache() == old(self).libgen_cache(),
            final(self).blocked_at() == old(self).blocked_at(),
    {
        let h = match found {
            Some(f) => f,
            None => string_of(&chars_of("annas-archive.gl")),
        };
        self.annas = Some((h.clone(), now));
        h
    }

    /// Takes the first LibGen mirror that answered the probe, or the first
    /// default when none did.
    pub fn settle_libgen(&mut self, found: Option<String>, now: u64) -> (h: String)
        ensures
            h@ == match found {
                Some(f) => f@,
                None => default_libgen()[0],
            },
            final(self).libgen_cache() == Some((h@, now)),
            final(self).slum_cache() == old(self).slum_cache(),
            final(self).annas_cache() == old(self).annas_cache(),
            final(self).blocked_at() == old(self).blocked_at(),
    {
        let h = match found {
            Some(f) => f,
            None => string_of(&chars_of("libgen.li")),
        };
        self.libgen = Some((h.clone(), now));
        h
    }

    /// Ranked LibGen hosts to try in turn: the override or the cached
    /// choice first, then everything the monitor lists, then the defaults,
    /// each once.
    pub fn libgen_candidates(&self, cfg: &Config, slum: &Slum) -> (r: Vec<String>)
        ensures
            strings_view(r@) == libgen_candidates_of(
                cfg.libgen_url@,
                match self.libgen_cache() {
                    Some((h, _)) => Some(h),
                    None => None,
                },
                slum@.libgen,
            ),
    {
        let mut out: Vec<String> = Vec::new();
        let url = trim(&chars_of(cfg.libgen_url.as_str()), &CharClass::Space);
        let ghost out0: Seq<Seq<char>> = if trim_ws(cfg.libgen_url@).len() > 0 {
            seq![host_of(cfg.libgen_url@)]
        } else {
            seq![]
        };
        if url.len() > 0 {
            out.push(normalize_host(cfg.libgen_url.as_str()));
        }
        assert(strings_view(out@) == out0);
        if let Some((h, _)) = &self.libgen {
            add_unique_exec(&mut out, h);
        }
        assert(strings_view(out@) == match self.libgen_cache() {
            Some((h, _)) => add_unique(out0, h),
            None => out0,
        });
        let mut listed: Vec<String> = Vec::new();
        let ghost lh = listed_hosts(mirrors_view(slum.libgen@));
        let mut i: usize = 0;
        while i < slum.libgen.len()
            invariant
                i <= slum.libgen.len(),
                lh == listed_hosts(mirrors_view(slum.libgen@)),
                lh.len() == slum.libgen.len(),
                listed@.len() == i,
                strings_view(listed@) == lh.take(i as int),
            decreases slum.libgen.len() - i,
        {
            let ghost before = listed@;
            listed.push(slum.libgen[i].host.clone());
            proof {
                assert(lh[i as int] == slum.libgen@[i as int].host@);
                assert forall|k: int| 0 <= k < i + 1 implies #[trigger] strings_view(listed@)[k]
                    == lh.take(i + 1)[k] by {
                    if k < i {
                        assert(listed@[k] == before[k]);
                        assert(strings_view(before)[k] == lh.take(i as int)[k]);
                    }
                }
                assert(strings_view(listed@) =~= lh.take(i + 1));
            }
            i += 1;
        }
        assert(listed_hosts(mirrors_view(slum.libgen@)).take(i as int) == listed_hosts(
            mirrors_view(slum.libgen@),
        ));
        add_hosts_exec(&mut out, &listed);
        add_hosts_exec(&mut out, &default_libgen_hosts());
        out
    }

    /// Remembers that a LibGen host just worked.
    pub fn set_libgen(&mut self, host: &str, now: u64)
        ensures
            final(self).libgen_cache() == Some((host@, now)),
            final(self).slum_cache() == old(self).slum_cache(),
            final(self).annas_cache() == old(self).annas_cache(),
            final(self).blocked_at() == old(self).blocked_at(),
    {
        self.libgen = Some((string_of(&chars_of(host)), now));
    }

    pub fn mark_annas_blocked(&mut self, now: u64)
        ensures
            final(self).blocked_at() == Some(now),
            final(self).slum_cache() == old(self).slum_cache(),
            final(self).annas_cache() == old(self).annas_cache(),
            final(self).libgen_cache() == old(self).libgen_cache(),
    {
        self.annas_blocked = Some(now);
    }

    /// Minutes since Anna's search was last seen blocked, if that was less
    /// than six hours ago.
    pub fn annas_blocked_for(&self, now: u64) -> (r: Option<u64>)
        ensures
            r == blocked_minutes(self.blocked_at(), now),
    {
        match self.annas_blocked {
            Some(at) => {
                let elapsed = if now >= at {
                    now - at
                } else {
                    0
                };
                if elapsed < BLOCKED_TTL_MS {
                    Some(elapsed / 60000)
                } else {
                    None
                }
            },
            None => None,
        }
    }

    /// Forgets the chosen Anna's mirror so that the next call probes again.
    pub fn forget_annas(&mut self)
        ensures
            final(self).annas_cache() is None,
            final(self).slum_cache() == old(self).slum_cache(),
            final(self).libgen_cache() == old(self).libgen_cache(),
            final(self).blocked_at() == old(self).blocked_at(),
    {
        self.annas = None;
    }

    pub fn forget_libgen(&mut self)
        ensures
            final(self).libgen_cache() is None,
            final(self).slum_cache() == old(self).slum_cache(),
            final(self).annas_cache() == old(self).annas_cache(),
            final(self).blocked_at() == old(self).blocked_at(),
    {
        self.libgen = None;
    }

    /// The chosen mirrors, for the status line in the UI.
    pub fn current(&self) -> (r: (Option<String>, Option<String>))
        ensures
            opt_host(r.0) == match self.annas_cache() {
                Some((h, _)) => Some(h),
                None => None,
            },
            opt_host(r.1) == match self.libgen_cache() {
                Some((h, _)) => Some(h),
                None => None,
            },
    {
        let a = match &self.annas {
            Some((h, _)) => Some(h.clone()),
            None => None,
        };
        let l = match &self.libgen {
            Some((h, _)) => Some(h.clone()),
            None => None,
        };
        (a, l)
    }
}

pub open spec fn opt_host(o: Option<String>) -> Option<Seq<char>> {
    match o {
        Some(h) => Some(h@),
        None => None,
    }
}

/// A host known without probing: the override when it is set, else the
/// cached choice while it is fresh.
pub open spec fn known_host(override_url: Seq<char>, cached: Option<(Seq<char>, u64)>, now: u64) -> Option<
    Seq<char>,
> {
    if trim_ws(override_url).len() > 0 {
        Some(host_of(override_url))
    } else {
        match cached {
            Some((h, at)) if fresh(at, now, TTL_MS) => Some(h),
            _ => None,
        }
    }
}

fn known_host_exec(override_url: &String, cached: &Option<(String, u64)>, now: u64) -> (r: Option<
    String,
>)
    ensures
        match (r, known_host(override_url@, cached_view(*cached), now)) {
            (Some(a), Some(b)) => a@ == b,
            (None, None) => true,
            _ => false,
        },
{
    if trim(&chars_of(override_url.as_str()), &CharClass::Space).len() > 0 {
        return Some(normalize_host(override_url.as_str()));
    }
    match cached {
        Some((h, at)) => {
            let elapsed = if now >= *at {
                now - *at
            } else {
                0
            };
            if elapsed < TTL_MS {
                Some(h.clone())
            } else {
                None
            }
        },
        None => None,
    }
}

/// The hosts of `list`, in order.
pub open spec fn listed_hosts(list: Seq<MirrorView>) -> Seq<Seq<char>> {
    list.map_values(|m: MirrorView| m.host)
}

/// The ranked LibGen hosts: the override, the cached choice, then every
/// host the monitor lists (in its order, whatever its status), then the
/// defaults, each once.
pub open spec fn libgen_candidates_of(
    override_url: Seq<char>,
    cached: Option<Seq<char>>,
    listed: Seq<MirrorView>,
) -> Seq<Seq<char>> {
    let out0: Seq<Seq<char>> = if trim_ws(override_url).len() > 0 {
        seq![host_of(override_url)]
    } else {
        seq![]
    };
    let out1 = match cached {
        Some(h) => add_unique(out0, h),
        None => out0,
    };
    add_hosts(add_hosts(out1, listed_hosts(listed)), default_libgen())
}

/// Minutes since `at`, while that is less than six hours.
pub open spec fn blocked_minutes(at: Option<u64>, now: u64) -> Option<u64> {
    match at {
        Some(t) => {
            let elapsed = if now >= t {
                now - t
            } else {
                0
            };
            if elapsed < BLOCKED_TTL_MS {
                Some((elapsed / 60000) as u64)
            } else {
                None
            }
        },
        None => None,
    }
}

// ---------------------------------------------------------------------------
// Probing

/// The index of the first `true` of `v`.
pub open spec fn first_true(v: Seq<bool>) -> Option<int>
    decreases v.len(),
{
    if v.len() == 0 {
        None
    } else {
        match first_true(v.drop_last()) {
            Some(k) => Some(k),
            None => if v.last() {
                Some(v.len() - 1)
            } else {
                None
            },
        }
    }
}

/// The next move while probing mirrors in turn.
#[derive(Debug, PartialEq, Eq)]
pub enum Probe {
    /// Probe this host next.
    Ask(String),
    /// Probing is over: the first host that answered, if any.
    Chosen(Option<String>),
}

/// Probing goes through `candidates` in order and stops at the first that
/// answers; `answered` holds the verdicts so far. The chosen host is then
/// the first candidate that answered, or none when all were asked.
pub fn next_probe(candidates: &Vec<String>, answered: &Vec<bool>) -> (r: Probe)
    requires
        answered.len() <= candidates.len(),
    ensures
        match first_true(answered@) {
            Some(k) => (r matches Probe::Chosen(Some(h)) && h@ == candidates@[k]@),
            None => if answered.len() < candidates.len() {
                (r matches Probe::Ask(h) && h@ == candidates@[answered.len() as int]@)
            } else {
                r == Probe::Chosen(None)
            },
        },
{
    let mut k: usize = 0;
    while k < answered.len()
        invariant
            k <= answered.len(),
            answered.len() <= candidates.len(),
            first_true(answered@.take(k as int)) is None,
        decreases answered.len() - k,
    {
        proof {
            assert(answered@.take(k + 1).drop_last() == answered@.take(k as int));
        }
        if answered[k] {
            proof {
                lemma_first_true_prefix(answered@, k + 1);
            }
            return Probe::Chosen(Some(candidates[k].clone()));
        }
        k += 1;
    }
    assert(answered@.take(k as int) == answered@);
    if answered.len() < candidates.len() {
        Probe::Ask(candidates[answered.len()].clone())
    } else {
        Probe::Chosen(None)
    }
}

proof fn lemma_first_true_prefix(v: Seq<bool>, n: int)
    requires
        0 < n <= v.len(),
        first_true(v.take(n)) == Some(n - 1),
    ensures
        first_true(v) == Some(n - 1),
    decreases v.len() - n,
{
    if n < v.len() {
        assert(v.drop_last().take(n) == v.take(n));
        lemma_first_true_prefix(v.drop_last(), n);
    } else {
        assert(v.take(n) == v);
    }
}

/// The members' API address used to check that a mirror answers.
pub fn probe_annas_url(host: &str) -> (u: String)
    ensures
        u@ == "https://"@ + host@
            + "/dyn/api/fast_download.json?md5=00000000000000000000000000000000&key=probe"@,
{
    let mut out = chars_of("https://");
    push_all(&mut out, &chars_of(host));
    push_all(
        &mut out,
        &chars_of("/dyn/api/fast_download.json?md5=00000000000000000000000000000000&key=probe"),
    );
    string_of(&out)
}

/// A mirror answers Anna's API when its reply mentions `download_url`.
pub fn probe_annas(page: &Result<Page, String>) -> (ok: bool)
    ensures
        ok == match page {
            Ok(p) => has_infix(p.body@, "download_url"@),
            Err(_) => false,
        },
{
    match page {
        Ok(p) => contains(&chars_of(p.body.as_str()), &chars_of("download_url")),
        Err(_) => false,
    }
}

/// The search address used to check that a LibGen mirror answers.
pub fn probe_libgen_url(host: &str) -> (u: String)
    ensures
        u@ == "https://"@ + host@ + "/index.php?req=probe&objects%5B%5D=f&res=25"@,
{
    let mut out = chars_of("https://");
    push_all(&mut out, &chars_of(host));
    push_all(&mut out, &chars_of("/index.php?req=probe&objects%5B%5D=f&res=25"));
    string_of(&out)
}

/// A LibGen mirror answers when it says HTTP 200 and names itself.
pub fn probe_libgen(page: &Result<Page, String>) -> (ok: bool)
    ensures
        ok == match page {
            Ok(p) => p.status == 200 && has_infix(lowercase(p.body@), "library genesis"@),
            Err(_) => false,
        },
{
    match page {
        Ok(p) => p.status == 200 && contains(
            &to_lowercase(&chars_of(p.body.as_str())),
            &chars_of("library genesis"),
        ),
        Err(_) => false,
    }
}

} // verus!

verus! {

pub open spec fn no_dup(s: Seq<Seq<char>>) -> bool {
    forall|i: int, j: int| 0 <= i < j < s.len() ==> s[i] != s[j]
}

proof fn lemma_add_hosts(out: Seq<Seq<char>>, hs: Seq<Seq<char>>)
    ensures
        no_dup(out) ==> no_dup(add_hosts(out, hs)),
        forall|x: Seq<char>| #[trigger] add_hosts(out, hs).contains(x) <==> (out.contains(x)
            || hs.contains(x)),
        add_hosts(out, hs).len() >= out.len(),
        forall|i: int| 0 <= i < out.len() ==> #[trigger] add_hosts(out, hs)[i] == out[i],
    decreases hs.len(),
{
    if hs.len() > 0 {
        let t = hs.drop_last();
        lemma_add_hosts(out, t);
        let a = add_hosts(out, t);
        assert forall|x: Seq<char>| #[trigger] add_hosts(out, hs).contains(x) <==> (out.contains(x)
            || hs.contains(x)) by {
            if hs.contains(x) && !t.contains(x) {
                assert(x == hs.last()) by {
                    let k = choose|k: int| 0 <= k < hs.len() && hs[k] == x;
                    if k < hs.len() - 1 {
                        assert(t[k] == x);
                    }
                }
            }
            if t.contains(x) {
                let k = choose|k: int| 0 <= k < t.len() && t[k] == x;
                assert(hs[k] == x);
            }
            if add_unique(a, hs.last()).contains(x) && !a.contains(x) {
                let k = choose|k: int| 0 <= k < add_unique(a, hs.last()).len() && add_unique(
                    a,
                    hs.last(),
                )[k] == x;
                assert(k == a.len());
                assert(hs[hs.len() - 1] == x);
            }
            if a.contains(x) {
                let k = choose|k: int| 0 <= k < a.len() && a[k] == x;
                assert(add_unique(a, hs.last())[k] == x);
            }
            if x == hs.last() && !a.contains(x) {
                assert(add_unique(a, hs.last())[a.len() as int] == x);
            }
        }
    }
}

#[verifier::spinoff_prover]
proof fn lemma_acceptable_hosts(list: Seq<MirrorView>, skip: Seq<char>)
    ensures
        forall|i: int| #![trigger acceptable_hosts(list, skip)[i]] 0 <= i < acceptable_hosts(list, skip).len() ==> exists|j: int|
            #![trigger list[j]]
            0 <= j < list.len() && acceptable(list[j], skip) && acceptable_hosts(list, skip)[i]
                == list[j].host,
    decreases list.len(),
{
    if list.len() > 0 {
        let t = list.drop_last();
        lemma_acceptable_hosts(t, skip);
        let a = acceptable_hosts(list, skip);
        let at = acceptable_hosts(t, skip);
        assert forall|i: int| #![trigger a[i]] 0 <= i < a.len() implies exists|j: int|
            #![trigger list[j]]
            0 <= j < list.len() && acceptable(list[j], skip) && a[i] == list[j].host by {
            if i < at.len() {
                assert(a[i] == at[i]);
                let j = choose|j: int|
                    #![trigger t[j]]
                    0 <= j < t.len() && acceptable(t[j], skip) && at[i] == t[j].host;
                assert(list[j] == t[j]);
            } else {
                let j = list.len() - 1;
                assert(list[j] == list.last());
                assert(a[i] == list[j].host);
            }
        }
    }
}

/// The hosts to try hold each host once, hold every default, and hold no
/// other host than the defaults and the listed mirrors that are neither
/// down nor skipped.
pub proof fn law_candidates(list: Seq<MirrorView>, defaults: Seq<Seq<char>>, skip: Seq<char>)
    ensures
        no_dup(candidates_of(list, defaults, skip)),
        forall|d: Seq<char>| defaults.contains(d) ==> #[trigger] candidates_of(
            list,
            defaults,
            skip,
        ).contains(d),
        forall|h: Seq<char>| #[trigger] candidates_of(list, defaults, skip).contains(h)
            ==> defaults.contains(h) || exists|j: int|
            0 <= j < list.len() && acceptable(list[j], skip) && list[j].host == h,
{
    let a = acceptable_hosts(list, skip);
    lemma_add_hosts(seq![], a);
    lemma_add_hosts(add_hosts(seq![], a), defaults);
    lemma_acceptable_hosts(list, skip);
    assert forall|h: Seq<char>| #[trigger] candidates_of(list, defaults, skip).contains(h)
        implies defaults.contains(h) || exists|j: int|
        0 <= j < list.len() && acceptable(list[j], skip) && list[j].host == h by {
        if !defaults.contains(h) {
            assert(add_hosts(seq![], a).contains(h));
            assert(a.contains(h));
            let i = choose|i: int| 0 <= i < a.len() && a[i] == h;
            let j = choose|j: int|
                #![trigger list[j]]
                0 <= j < list.len() && acceptable(list[j], skip) && a[i] == list[j].host;
            assert(list[j].host == h);
        }
    }
}

/// Forgetting a mirror makes the next lookup probe again, unless the
/// settings fix the host.
pub proof fn law_forget_probes_again(override_url: Seq<char>, now: u64)
    requires
        trim_ws(override_url).len() == 0,
    ensures
        known_host(override_url, None, now) is None,
{
}

/// A chosen mirror is used again, without probing, for 30 minutes.
pub proof fn law_choice_reused(override_url: Seq<char>, host: Seq<char>, at: u64, now: u64)
    requires
        trim_ws(override_url).len() == 0,
        fresh(at, now, TTL_MS),
    ensures
        known_host(override_url, Some((host, at)), now) == Some(host),
{
}

/// A host in the settings always wins over the cached choice.
pub proof fn law_override_wins(override_url: Seq<char>, cached: Option<(Seq<char>, u64)>, now: u64)
    requires
        trim_ws(override_url).len() > 0,
    ensures
        known_host(override_url, cached, now) == Some(host_of(override_url)),
{
}

/// The LibGen host that worked last is tried first, unless the settings
/// fix one.
pub proof fn law_working_libgen_first(override_url: Seq<char>, host: Seq<char>, listed: Seq<MirrorView>)
    requires
        trim_ws(override_url).len() == 0,
    ensures
        libgen_candidates_of(override_url, Some(host), listed).len() > 0,
        libgen_candidates_of(override_url, Some(host), listed)[0] == host,
{
    let out1 = add_unique(seq![], host);
    assert(out1 == seq![host]);
    lemma_add_hosts(out1, listed_hosts(listed));
    lemma_add_hosts(add_hosts(out1, listed_hosts(listed)), default_libgen());
}

/// The LibGen hosts to try hold each host once, start with the override
/// (when set), then the cached choice, and hold every host the monitor
/// lists and every default.
pub proof fn law_libgen_candidates(
    override_url: Seq<char>,
    cached: Option<Seq<char>>,
    listed: Seq<MirrorView>,
)
    ensures
        no_dup(libgen_candidates_of(override_url, cached, listed)),
        trim_ws(override_url).len() > 0 ==> libgen_candidates_of(override_url, cached, listed)[0]
            == host_of(override_url),
        forall|k: int|
            0 <= k < listed.len() ==> libgen_candidates_of(override_url, cached, listed).contains(
                #[trigger] listed[k].host,
            ),
        forall|d: Seq<char>| #[trigger]
            default_libgen().contains(d) ==> libgen_candidates_of(
                override_url,
                cached,
                listed,
            ).contains(d),
        match cached {
            Some(h) => libgen_candidates_of(override_url, cached, listed).contains(h) && (trim_ws(
                override_url,
            ).len() == 0 ==> libgen_candidates_of(override_url, cached, listed)[0] == h),
            None => true,
        },
{
    let out0: Seq<Seq<char>> = if trim_ws(override_url).len() > 0 {
        seq![host_of(override_url)]
    } else {
        seq![]
    };
    let out1 = match cached {
        Some(h) => add_unique(out0, h),
        None => out0,
    };
    let lh = listed_hosts(listed);
    lemma_add_hosts(out1, lh);
    lemma_add_hosts(add_hosts(out1, lh), default_libgen());
    let r = libgen_candidates_of(override_url, cached, listed);
    assert(no_dup(out0));
    assert(no_dup(out1));
    assert forall|k: int| 0 <= k < listed.len() implies r.contains(#[trigger] listed[k].host) by {
        assert(lh[k] == listed[k].host);
        assert(lh.contains(listed[k].host));
    }
    match cached {
        Some(h) => {
            if out0.contains(h) {
                let k = choose|k: int| 0 <= k < out0.len() && out0[k] == h;
                assert(r[k] == h);
            } else {
                assert(out1[out0.len() as int] == h);
                assert(r[out0.len() as int] == h);
            }
            if out0.len() > 0 {
                assert(out1[0] == out0[0]);
            }
        },
        None => {},
    }
    if out0.len() > 0 {
        assert(out1[0] == out0[0]);
        assert(r[0] == out1[0]);
    }
}

/// After the browser check is seen, Anna's search is skipped for six hours,
/// and the minutes since are reported.
pub proof fn law_blocked_window(at: u64, now: u64)
    requires
        now >= at,
    ensures
        (blocked_minutes(Some(at), now) is Some) == (now - at < BLOCKED_TTL_MS),
        now - at < BLOCKED_TTL_MS ==> blocked_minutes(Some(at), now) == Some(((now - at) / 60000) as u64),
{
}

/// The place of a status in the ranking: up, protected, degraded, unknown,
/// down.
pub open spec fn status_rank(st: Status) -> int {
    match st {
        Status::Up => 0,
        Status::Protected => 1,
        Status::Degraded => 2,
        Status::Unknown => 3,
        Status::Down => 4,
    }
}

pub open spec fn ranked(ms: Seq<MirrorView>) -> bool {
    forall|i: int, j: int|
        0 <= i < j < ms.len() ==> status_rank(#[trigger] ms[i].status) <= status_rank(
            #[trigger] ms[j].status,
        )
}

proof fn lemma_with_status(ms: Seq<MirrorView>, st: Status)
    ensures
        forall|k: int| 0 <= k < with_status(ms, st).len() ==> #[trigger] with_status(ms, st)[k].status == st,
    decreases ms.len(),
{
    if ms.len() > 0 {
        lemma_with_status(ms.drop_last(), st);
        let w = with_status(ms.drop_last(), st);
        if ms.last().status == st {
            assert forall|k: int| 0 <= k < with_status(ms, st).len() implies #[trigger] with_status(
                ms,
                st,
            )[k].status == st by {
                if k < w.len() {
                    assert(with_status(ms, st)[k] == w[k]);
                }
            }
        }
    }
}

proof fn lemma_ranked_append(a: Seq<MirrorView>, b: Seq<MirrorView>, r: int)
    requires
        ranked(a),
        forall|k: int| 0 <= k < a.len() ==> status_rank(#[trigger] a[k].status) <= r,
        forall|k: int| 0 <= k < b.len() ==> status_rank(#[trigger] b[k].status) == r,
    ensures
        ranked(a + b),
{
    let c = a + b;
    assert forall|i: int, j: int| 0 <= i < j < c.len() implies status_rank(
        #[trigger] c[i].status,
    ) <= status_rank(#[trigger] c[j].status) by {
        if j < a.len() {
            assert(c[i] == a[i] && c[j] == a[j]);
        } else if i < a.len() {
            assert(c[i] == a[i] && c[j] == b[j - a.len()]);
        } else {
            assert(c[i] == b[i - a.len()] && c[j] == b[j - a.len()]);
        }
    }
}

/// The monitor's mirrors are listed in order of reported health: up first,
/// then protected, degraded, unknown, and down last.
pub proof fn law_health_order(ms: Seq<MirrorView>)
    ensures
        ranked(by_status(ms)),
{
    let up = with_status(ms, Status::Up);
    let pr = with_status(ms, Status::Protected);
    let de = with_status(ms, Status::Degraded);
    let un = with_status(ms, Status::Unknown);
    let dn = with_status(ms, Status::Down);
    lemma_with_status(ms, Status::Up);
    lemma_with_status(ms, Status::Protected);
    lemma_with_status(ms, Status::Degraded);
    lemma_with_status(ms, Status::Unknown);
    lemma_with_status(ms, Status::Down);
    lemma_ranked_append(seq![], up, 0);
    assert(Seq::<MirrorView>::empty() + up == up);
    lemma_ranked_append(up, pr, 1);
    let a2 = up + pr;
    assert forall|k: int| 0 <= k < a2.len() implies status_rank(#[trigger] a2[k].status) <= 2 by {
        if k < up.len() {
            assert(a2[k] == up[k]);
        } else {
            assert(a2[k] == pr[k - up.len()]);
        }
    }
    lemma_ranked_append(a2, de, 2);
    let a3 = a2 + de;
    assert forall|k: int| 0 <= k < a3.len() implies status_rank(#[trigger] a3[k].status) <= 3 by {
        if k < a2.len() {
            assert(a3[k] == a2[k]);
        } else {
            assert(a3[k] == de[k - a2.len()]);
        }
    }
    lemma_ranked_append(a3, un, 3);
    let a4 = a3 + un;
    assert forall|k: int| 0 <= k < a4.len() implies status_rank(#[trigger] a4[k].status) <= 4 by {
        if k < a3.len() {
            assert(a4[k] == a3[k]);
        } else {
            assert(a4[k] == un[k - a3.len()]);
        }
    }
    lemma_ranked_append(a4, dn, 4);
}

/// The word a status badge's class spells for each status.
pub open spec fn status_word(st: Status) -> Seq<char> {
    match st {
        Status::Up => "up"@,
        Status::Protected => "protected"@,
        Status::Degraded => "degraded"@,
        Status::Down => "down"@,
        Status::Unknown => "unknown"@,
    }
}

/// A badge class names the status it spells, and only that one: the status
/// a class gives is spelled by the class, and each of "up", "protected",
/// "degraded" and "down" gives a status.
pub proof fn law_badge_class(cls: Seq<char>)
    ensures
        class_status(cls) matches Some(st) ==> status_word(st) == cls,
        (cls == "up"@ || cls == "protected"@ || cls == "degraded"@ || cls == "down"@) ==> class_status(
            cls,
        ) is Some,
{
}

/// Reading a badge's classes sets the status a class spells: the status
/// changes only to one that some class spells, and the last class that
/// spells a status decides it.
pub proof fn law_badge_status(classes: Seq<Seq<char>>, st: Status)
    ensures
        status_after(classes, st) != st ==> exists|i: int|
            0 <= i < classes.len() && #[trigger] classes[i] == status_word(status_after(classes, st)),
        classes.len() > 0 && class_status(classes.last()) is Some ==> status_word(
            status_after(classes, st),
        ) == classes.last(),
    decreases classes.len(),
{
    if classes.len() > 0 {
        law_badge_class(classes.last());
        law_badge_status(classes.drop_last(), st);
        if class_status(classes.last()) is None && status_after(classes, st) != st {
            let i = choose|i: int|
                0 <= i < classes.drop_last().len() && #[trigger] classes.drop_last()[i]
                    == status_word(status_after(classes.drop_last(), st));
            assert(classes[i] == classes.drop_last()[i]);
        }
        if class_status(classes.last()) is Some {
            assert(classes[classes.len() - 1] == classes.last());
        }
    }
}

} // verus!
