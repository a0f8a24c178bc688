//! Running a search: Anna's Archive first (unless the settings say
//! otherwise), LibGen when Anna's search pages sit behind the DDoS-Guard
//! browser check or fail. The search is a conversation: the caller fetches
//! what each step asks for and reports back.

use vstd::prelude::*;
use crate::annas::{books_view, Book, BookView, SearchError};
use crate::config::Config;
use crate::jobs::strings_view;
use crate::slum::{blocked_minutes, Resolver};
use crate::text::{chars_of, decimal, decimal_of, push_all, same, string_of};

verus! {

#[derive(Debug)]
pub struct SearchOutcome {
    pub books: Vec<Book>,
    pub source: String,
    pub note: String,
}

impl Clone for SearchOutcome {
    fn clone(&self) -> (r: Self)
        ensures
            r.books@ == self.books@,
            r.source == self.source,
            r.note == self.note,
    {
        let mut books: Vec<Book> = Vec::new();
        let mut i: usize = 0;
        while i < self.books.len()
            invariant
                i <= self.books.len(),
                books@ == self.books@.take(i as int),
            decreases self.books.len() - i,
        {
            books.push(self.books[i].clone());
            i += 1;
            assert(books@ == self.books@.take(i as int));
        }
        assert(self.books@.take(i as int) == self.books@);
        SearchOutcome { books, source: self.source.clone(), note: self.note.clone() }
    }
}

/// What the search needs next.
#[derive(Debug)]
pub enum SearchAction {
    /// Search Anna's Archive (resolve its host, fetch `annas::search_url`)
    /// and report with `annas_done`.
    AskAnnas,
    /// List the LibGen hosts (`Resolver::libgen_candidates`) and report
    /// them with `libgen_hosts`.
    AskLibgenHosts,
    /// Search this LibGen host and report with `libgen_done`.
    TryLibgen(String),
    /// The search is over.
    Finished(Result<SearchOutcome, String>),
}

/// An outcome as plain values: the books, where they came from, the note.
pub type OutcomeView = Result<(Seq<BookView>, Seq<char>, Seq<char>), Seq<char>>;

pub enum ActionView {
    AskAnnas,
    AskLibgenHosts,
    TryLibgen(Seq<char>),
    Finished(OutcomeView),
}

pub open spec fn action_view(a: SearchAction) -> ActionView {
    match a {
        SearchAction::AskAnnas => ActionView::AskAnnas,
        SearchAction::AskLibgenHosts => ActionView::AskLibgenHosts,
        SearchAction::TryLibgen(h) => ActionView::TryLibgen(h@),
        SearchAction::Finished(Ok(o)) => ActionView::Finished(Ok((books_view(o.books@), o.source@, o.note@))),
        SearchAction::Finished(Err(e)) => ActionView::Finished(Err(e@)),
    }
}

/// The state of a search: the source setting, the number of results
/// wanted, the note for the results page, the LibGen hosts and how many of
/// them were tried, and the last LibGen failure.
pub struct RunView {
    pub source: Seq<char>,
    pub max: usize,
    pub note: Seq<char>,
    pub hosts: Seq<Seq<char>>,
    pub tried: nat,
    pub last: Seq<char>,
}

/// The first step: Anna's Archive, unless the settings say LibGen, or Anna's
/// search was seen behind the browser check within six hours and the
/// settings do not insist on Anna's.
pub open spec fn start_spec(source: Seq<char>, max_results: usize, blocked: Option<u64>) -> (RunView, ActionView) {
    let max = if max_results < 1 {
        1usize
    } else {
        max_results
    };
    let run = RunView {
        source,
        max,
        note: seq![],
        hosts: seq![],
        tried: 0,
        last: "no LibGen mirror reachable"@,
    };
    if source == "libgen"@ {
        (run, ActionView::AskLibgenHosts)
    } else {
        match blocked {
            Some(mins) if source != "annas"@ => (
                RunView { note: blocked_note(mins), ..run },
                ActionView::AskLibgenHosts,
            ),
            _ => (run, ActionView::AskAnnas),
        }
    }
}

/// The first `max` of `books` (all of them when there are fewer).
pub open spec fn first_n(books: Seq<BookView>, max: usize) -> Seq<BookView> {
    if books.len() <= max {
        books
    } else {
        books.take(max as int)
    }
}

fn keep_first(books: Vec<Book>, max: usize) -> (r: Vec<Book>)
    ensures
        books_view(r@) == first_n(books_view(books@), max),
{
    let mut b = books;
    let ghost before = b@;
    b.truncate(max);
    proof {
        if max < before.len() {
            assert(books_view(b@) =~= books_view(before).take(max as int));
        }
    }
    b
}

pub open spec fn blocked_note(mins: u64) -> Seq<char> {
    "Anna's Archive search is behind a browser check (seen "@ + decimal(mins as nat)
        + " min ago), so these come from LibGen. Same files, same md5s."@
}

pub open spec fn error_view(e: SearchError) -> (bool, Seq<char>) {
    match e {
        SearchError::Blocked(h) => (true, h@),
        SearchError::Failed(m) => (false, m@),
    }
}

/// After Anna's search answered: its books, or (for the browser check or a
/// failure) the end when the settings insist on Anna's, else LibGen with a
/// note that says why.
pub open spec fn annas_step_spec(
    run: RunView,
    host: Seq<char>,
    result: Result<Seq<BookView>, (bool, Seq<char>)>,
) -> (RunView, ActionView) {
    match result {
        Ok(books) => (
            run,
            ActionView::Finished(
                Ok((first_n(books, run.max), "Anna's Archive ("@ + host + ")"@, run.note)),
            ),
        ),
        Err((true, h)) => if run.source == "annas"@ {
            (
                run,
                ActionView::Finished(
                    Err(
                        h
                            + " shows a browser check on search pages; switch Search source to auto or LibGen in Settings"@,
                    ),
                ),
            )
        } else {
            (
                RunView {
                    note: h
                        + " needs a browser check for its search pages right now, so these come from LibGen. Same files, same md5s."@,
                    ..run
                },
                ActionView::AskLibgenHosts,
            )
        },
        Err((false, e)) => if run.source == "annas"@ {
            (run, ActionView::Finished(Err(e)))
        } else {
            (
                RunView {
                    note: "Anna's Archive search failed ("@ + e + "); showing LibGen results."@,
                    ..run
                },
                ActionView::AskLibgenHosts,
            )
        },
    }
}

/// The step after `tried` LibGen hosts failed: the next host (of the first
/// four), or the end.
pub open spec fn next_libgen(run: RunView) -> ActionView {
    if run.tried < run.hosts.len() && run.tried < 4 {
        ActionView::TryLibgen(run.hosts[run.tried as int])
    } else {
        ActionView::Finished(
            Err(
                if run.note.len() == 0 {
                    run.last
                } else {
                    run.note + " LibGen failed too: "@ + run.last
                },
            ),
        )
    }
}

pub open spec fn libgen_step_spec(
    run: RunView,
    host: Seq<char>,
    result: Result<Seq<BookView>, Seq<char>>,
) -> (RunView, ActionView) {
    match result {
        Ok(books) => (
            run,
            ActionView::Finished(Ok((first_n(books, run.max), "LibGen ("@ + host + ")"@, run.note))),
        ),
        Err(e) => {
            let run2 = RunView { tried: run.tried + 1, last: host + ": "@ + e, ..run };
            (run2, next_libgen(run2))
        },
    }
}

#[derive(Debug)]
pub struct SearchRun {
    source: String,
    max: usize,
    note: String,
    hosts: Vec<String>,
    tried: usize,
    last: String,
}

impl SearchRun {
    pub closed spec fn view(&self) -> RunView {
        RunView {
            source: self.source@,
            max: self.max,
            note: self.note@,
            hosts: strings_view(self.hosts@),
            tried: self.tried as nat,
            last: self.last@,
        }
    }

    /// How many results to ask for.
    pub fn max(&self) -> (m: usize)
        ensures
            m == self.view().max,
    {
        self.max
    }

    /// Starts a search with the settings `cfg`, at time `now`.
    pub fn start(cfg: &Config, resolver: &Resolver, now: u64) -> (r: (SearchRun, SearchAction))
        ensures
            (r.0.view(), action_view(r.1)) == start_spec(
                cfg.search_source@,
                cfg.max_results,
                blocked_minutes(resolver.blocked_at(), now),
            ),
    {
        let max = if cfg.max_results < 1 {
            1
        } else {
            cfg.max_results
        };
        let mut run = SearchRun {
            source: cfg.search_source.clone(),
            max,
            note: String::new(),
            hosts: Vec::new(),
            tried: 0,
            last: string_of(&chars_of("no LibGen mirror reachable")),
        };
        assert(strings_view(run.hosts@) == Seq::<Seq<char>>::empty());
        let src = chars_of(cfg.search_source.as_str());
        if same(&src, &chars_of("libgen")) {
            return (run, SearchAction::AskLibgenHosts);
        }
        match resolver.annas_blocked_for(now) {
            Some(mins) => {
                if !same(&src, &chars_of("annas")) {
                    let mut n = chars_of("Anna's Archive search is behind a browser check (seen ");
                    push_all(&mut n, &decimal_of(mins));
                    push_all(
                        &mut n,
                        &chars_of(" min ago), so these come from LibGen. Same files, same md5s."),
                    );
                    run.note = string_of(&n);
                    return (run, SearchAction::AskLibgenHosts);
                }
                (run, SearchAction::AskAnnas)
            },
            None => (run, SearchAction::AskAnnas),
        }
    }

    /// Takes what Anna's search on `host` gave. A browser check is
    /// remembered; a failure makes the resolver forget the mirror.
    pub fn annas_done(
        &mut self,
        resolver: &mut Resolver,
        now: u64,
        host: &str,
        result: Result<Vec<Book>, SearchError>,
    ) -> (a: SearchAction)
        ensures
            (final(self).view(), action_view(a)) == annas_step_spec(
                old(self).view(),
                host@,
                match result {
                    Ok(b) => Ok(books_view(b@)),
                    Err(e) => Err(error_view(e)),
                },
            ),
            result matches Err(SearchError::Blocked(_)) ==> final(resolver).blocked_at() == Some(now)
                && final(resolver).annas_cache() == old(resolver).annas_cache(),
            result matches Err(SearchError::Failed(_)) ==> final(resolver).annas_cache() is None
                && final(resolver).blocked_at() == old(resolver).blocked_at(),
            (result is Ok) ==> *final(resolver) == *old(resolver),
            final(resolver).libgen_cache() == old(resolver).libgen_cache(),
            final(resolver).slum_cache() == old(resolver).slum_cache(),
    {
        let insist = same(&chars_of(self.source.as_str()), &chars_of("annas"));
        match result {
            Ok(books) => {
                let mut s = chars_of("Anna's Archive (");
                push_all(&mut s, &chars_of(host));
                push_all(&mut s, &chars_of(")"));
                SearchAction::Finished(
                    Ok(
                        SearchOutcome {
                            books: keep_first(books, self.max),
                            source: string_of(&s),
                            note: self.note.clone(),
                        },
                    ),
                )
            },
            Err(SearchError::Blocked(h)) => {
                resolver.mark_annas_blocked(now);
                let mut m = chars_of(h.as_str());
                if insist {
                    push_all(
                        &mut m,
                        &chars_of(
                            " shows a browser check on search pages; switch Search source to auto or LibGen in Settings",
                        ),
                    );
                    return SearchAction::Finished(Err(string_of(&m)));
                }
                push_all(
                    &mut m,
                    &chars_of(
                        " needs a browser check for its search pages right now, so these come from LibGen. Same files, same md5s.",
                    ),
                );
                self.note = string_of(&m);
                SearchAction::AskLibgenHosts
            },
            Err(SearchError::Failed(e)) => {
                resolver.forget_annas();
                if insist {
                    return SearchAction::Finished(Err(e));
                }
                let mut m = chars_of("Anna's Archive search failed (");
                push_all(&mut m, &chars_of(e.as_str()));
                push_all(&mut m, &chars_of("); showing LibGen results."));
                self.note = string_of(&m);
                SearchAction::AskLibgenHosts
            },
        }
    }

    fn next_libgen_exec(&self) -> (a: SearchAction)
        ensures
            action_view(a) == next_libgen(self.view()),
    {
        if self.tried < self.hosts.len() && self.tried < 4 {
            SearchAction::TryLibgen(self.hosts[self.tried].clone())
        } else if chars_of(self.note.as_str()).len() == 0 {
            SearchAction::Finished(Err(self.last.clone()))
        } else {
            let mut m = chars_of(self.note.as_str());
            push_all(&mut m, &chars_of(" LibGen failed too: "));
            push_all(&mut m, &chars_of(self.last.as_str()));
            SearchAction::Finished(Err(string_of(&m)))
        }
    }

    /// Takes the LibGen hosts to try, best first; the first four are
    /// tried in turn. When there are none the search fails and the resolver
    /// forgets its LibGen mirror.
    pub fn libgen_hosts(&mut self, resolver: &mut Resolver, hosts: Vec<String>) -> (a: SearchAction)
        ensures
            final(self).view() == (RunView { hosts: strings_view(hosts@), tried: 0, ..old(self).view() }),
            action_view(a) == next_libgen(final(self).view()),
            (a is Finished) ==> (final(resolver).libgen_cache() is None),
            !(a is Finished) ==> *final(resolver) == *old(resolver),
            final(resolver).annas_cache() == old(resolver).annas_cache(),
            final(resolver).blocked_at() == old(resolver).blocked_at(),
            final(resolver).slum_cache() == old(resolver).slum_cache(),
    {
        self.hosts = hosts;
        self.tried = 0;
        let a = self.next_libgen_exec();
        if let SearchAction::Finished(_) = &a {
            resolver.forget_libgen();
        }
        a
    }

    /// Takes what the LibGen search on `host` gave. A host that worked is
    /// remembered; when the last host fails the resolver forgets its LibGen
    /// mirror.
    pub fn libgen_done(
        &mut self,
        resolver: &mut Resolver,
        now: u64,
        host: &str,
        result: Result<Vec<Book>, String>,
    ) -> (a: SearchAction)
        requires
            old(self).view().tried < usize::MAX,
        ensures
            (final(self).view(), action_view(a)) == libgen_step_spec(
                old(self).view(),
                host@,
                match result {
                    Ok(b) => Ok(books_view(b@)),
                    Err(e) => Err(e@),
                },
            ),
            (result is Ok) ==> final(resolver).libgen_cache() == Some((host@, now)),
            ((result is Err) && (action_view(a) is Finished)) ==> (final(resolver).libgen_cache() is None),
            ((result is Err) && !(action_view(a) is Finished)) ==> *final(resolver) == *old(resolver),
            final(resolver).annas_cache() == old(resolver).annas_cache(),
            final(resolver).blocked_at() == old(resolver).blocked_at(),
            final(resolver).slum_cache() == old(resolver).slum_cache(),
    {
        match result {
            Ok(books) => {
                resolver.set_libgen(host, now);
                let mut s = chars_of("LibGen (");
                push_all(&mut s, &chars_of(host));
                push_all(&mut s, &chars_of(")"));
                SearchAction::Finished(
                    Ok(
                        SearchOutcome {
                            books: keep_first(books, self.max),
                            source: string_of(&s),
                            note: self.note.clone(),
                        },
                    ),
                )
            },
            Err(e) => {
                let mut m = chars_of(host);
                push_all(&mut m, &chars_of(": "));
                push_all(&mut m, &chars_of(e.as_str()));
                self.last = string_of(&m);
                self.tried = self.tried + 1;
                let a = self.next_libgen_exec();
                if let SearchAction::Finished(_) = &a {
                    resolver.forget_libgen();
                }
                a
            },
        }
    }
}

} // verus!

verus! {

/// Unless the settings insist on Anna's Archive, any failure of Anna's
/// search (the browser check or another failure) goes on to LibGen, with a
/// note that says why.
pub proof fn law_annas_failure_falls_back(
    run: RunView,
    host: Seq<char>,
    result: Result<Seq<BookView>, (bool, Seq<char>)>,
)
    requires
        run.source != "annas"@,
        result is Err,
    ensures
        annas_step_spec(run, host, result).1 == ActionView::AskLibgenHosts,
        annas_step_spec(run, host, result).0.note.len() > 0,
        annas_step_spec(run, host, result).0.source == run.source,
        annas_step_spec(run, host, result).0.max == run.max,
{
    reveal_strlit("Anna's Archive search failed (");
    reveal_strlit(
        " needs a browser check for its search pages right now, so these come from LibGen. Same files, same md5s.",
    );
}

/// A search never shows more results than the settings ask for.
pub proof fn law_results_bounded(
    run: RunView,
    host: Seq<char>,
    annas: Result<Seq<BookView>, (bool, Seq<char>)>,
    libgen: Result<Seq<BookView>, Seq<char>>,
)
    ensures
        (annas_step_spec(run, host, annas).1 matches ActionView::Finished(Ok((b, _, _))) ==> b.len()
            <= run.max),
        (libgen_step_spec(run, host, libgen).1 matches ActionView::Finished(Ok((b, _, _)))
            ==> b.len() <= run.max),
{
}

/// With the source set to LibGen, Anna's Archive is never asked.
pub proof fn law_libgen_source_skips_annas(max_results: usize, blocked: Option<u64>)
    ensures
        start_spec("libgen"@, max_results, blocked).1 == ActionView::AskLibgenHosts,
{
}

/// With the source set to Anna's Archive, its answer ends the search: there
/// is no fallback to LibGen.
pub proof fn law_annas_source_no_fallback(
    run: RunView,
    host: Seq<char>,
    result: Result<Seq<BookView>, (bool, Seq<char>)>,
)
    requires
        run.source == "annas"@,
    ensures
        annas_step_spec(run, host, result).1 is Finished,
{
}

/// While Anna's search is known to be behind the browser check, an
/// automatic search goes straight to LibGen and says why.
pub proof fn law_blocked_goes_to_libgen(source: Seq<char>, max_results: usize, mins: u64)
    requires
        source != "annas"@,
    ensures
        start_spec(source, max_results, Some(mins)).1 == ActionView::AskLibgenHosts,
        source != "libgen"@ ==> start_spec(source, max_results, Some(mins)).0.note == blocked_note(
            mins,
        ),
{
}

/// At most four LibGen hosts are tried: a failure of the fourth ends the
/// search.
pub proof fn law_four_libgen_hosts(run: RunView, host: Seq<char>, e: Seq<char>)
    requires
        run.tried >= 3,
    ensures
        libgen_step_spec(run, host, Err(e)).1 is Finished,
{
}

/// A search asks for at least one result.
pub proof fn law_at_least_one_result(source: Seq<char>, max_results: usize, blocked: Option<u64>)
    ensures
        start_spec(source, max_results, blocked).0.max >= 1,
{
}

} // verus!
