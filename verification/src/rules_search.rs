//! The depth-first search of an install tree for a SEGGER udev rules file,
//! as a step function: the caller lists the directories the search asks for
//! and reports what they hold; the search decides where to look next. Each
//! base is searched to depth 12; in a directory, an entry that is a file
//! named like `*jlink*.rules` (in lowercase) is taken at once, and an entry
//! that is a directory is searched before the next entry, one level deeper.

use vstd::prelude::*;
use crate::bundled::{is_jlink_rules_file_name, is_jlink_rules_name};
use crate::text::views;

verus! {

/// How deep each base is searched.
pub open spec fn search_depth() -> u32 {
    12
}

/// An entry of a listed directory.
#[derive(Debug, PartialEq, Eq)]
pub struct TreeEntry {
    /// Its path.
    pub path: String,
    /// Its file name.
    pub name: String,
    /// It is a regular file.
    pub is_file: bool,
    /// It is a directory.
    pub is_dir: bool,
}

/// A tree entry as a value of specifications.
pub struct TreeEntryView {
    pub path: Seq<char>,
    pub name: Seq<char>,
    pub is_file: bool,
    pub is_dir: bool,
}

impl View for TreeEntry {
    type V = TreeEntryView;

    open spec fn view(&self) -> TreeEntryView {
        TreeEntryView { path: self.path@, name: self.name@, is_file: self.is_file, is_dir: self.is_dir }
    }
}

/// A directory being scanned: its entries, the next one to look at, and how
/// deep the search may still go from it.
#[derive(Debug, PartialEq, Eq)]
pub struct Frame {
    pub entries: Vec<TreeEntry>,
    pub next: usize,
    pub depth: u32,
}

/// A frame as a value of specifications.
pub struct FrameView {
    pub entries: Seq<TreeEntryView>,
    pub next: int,
    pub depth: u32,
}

impl View for Frame {
    type V = FrameView;

    open spec fn view(&self) -> FrameView {
        FrameView {
            entries: self.entries@.map_values(|e: TreeEntry| e@),
            next: self.next as int,
            depth: self.depth,
        }
    }
}

/// Where the search stands.
#[derive(Debug, PartialEq, Eq)]
pub struct RulesSearch {
    /// The directories to search, in order.
    pub bases: Vec<String>,
    /// The next base to search.
    pub next_base: usize,
    /// The directories being scanned, innermost last.
    pub stack: Vec<Frame>,
    /// The depth of the directory whose listing is awaited, if one is.
    pub waiting: Option<u32>,
    /// The search is over.
    pub done: bool,
}

/// The search state as a value of specifications.
pub struct RulesSearchView {
    pub bases: Seq<Seq<char>>,
    pub next_base: int,
    pub stack: Seq<FrameView>,
    pub waiting: Option<u32>,
    pub done: bool,
}

impl View for RulesSearch {
    type V = RulesSearchView;

    open spec fn view(&self) -> RulesSearchView {
        RulesSearchView {
            bases: views(self.bases@),
            next_base: self.next_base as int,
            stack: self.stack@.map_values(|f: Frame| f@),
            waiting: self.waiting,
            done: self.done,
        }
    }
}

/// What a step of the search found.
#[derive(Debug, PartialEq, Eq)]
pub enum SearchEvent {
    /// The entries of the directory asked for, in listing order; `None` when
    /// it is not a directory or cannot be read.
    Listing(Option<Vec<TreeEntry>>),
    /// Nothing to report: go on.
    Next,
}

/// A search event as a value of specifications.
pub enum SearchEventView {
    Listing(Option<Seq<TreeEntryView>>),
    Next,
}

impl View for SearchEvent {
    type V = SearchEventView;

    open spec fn view(&self) -> SearchEventView {
        match self {
            SearchEvent::Listing(Some(v)) => SearchEventView::Listing(
                Some(v@.map_values(|e: TreeEntry| e@)),
            ),
            SearchEvent::Listing(None) => SearchEventView::Listing(None),
            SearchEvent::Next => SearchEventView::Next,
        }
    }
}

/// What the search does next.
#[derive(Debug, PartialEq, Eq)]
pub enum SearchAction {
    /// List this directory and report its entries.
    ListDir(String),
    /// Report `Next`.
    Advance,
    /// The rules file found.
    Found(String),
    /// No rules file in any base.
    NotFound,
}

/// A search action as a value of specifications.
pub enum SearchActionView {
    ListDir(Seq<char>),
    Advance,
    Found(Seq<char>),
    NotFound,
}

impl View for SearchAction {
    type V = SearchActionView;

    open spec fn view(&self) -> SearchActionView {
        match self {
            SearchAction::ListDir(p) => SearchActionView::ListDir(p@),
            SearchAction::Advance => SearchActionView::Advance,
            SearchAction::Found(p) => SearchActionView::Found(p@),
            SearchAction::NotFound => SearchActionView::NotFound,
        }
    }
}

/// `s` with its innermost frame moved past one entry.
pub open spec fn advance_top(s: RulesSearchView) -> Seq<FrameView> {
    let top = s.stack.last();
    s.stack.drop_last().push(FrameView { entries: top.entries, next: top.next + 1, depth: top.depth })
}

/// The transition of the search: `None` for an event the state does not wait
/// for, or once the search is over.
pub open spec fn search_next(s: RulesSearchView, e: SearchEventView) -> Option<
    (RulesSearchView, SearchActionView),
> {
    if s.done {
        None
    } else {
        match s.waiting {
            Some(d) => match e {
                SearchEventView::Listing(l) => {
                    let entries = match l {
                        Some(v) => v,
                        None => Seq::empty(),
                    };
                    Some(
                        (
                            RulesSearchView {
                                stack: s.stack.push(FrameView { entries, next: 0, depth: d }),
                                waiting: None,
                                ..s
                            },
                            SearchActionView::Advance,
                        ),
                    )
                },
                SearchEventView::Next => None,
            },
            None => match e {
                SearchEventView::Listing(_) => None,
                SearchEventView::Next => if s.stack.len() == 0 {
                    if 0 <= s.next_base < s.bases.len() {
                        Some(
                            (
                                RulesSearchView {
                                    next_base: s.next_base + 1,
                                    waiting: Some(search_depth()),
                                    ..s
                                },
                                SearchActionView::ListDir(s.bases[s.next_base]),
                            ),
                        )
                    } else {
                        Some((RulesSearchView { done: true, ..s }, SearchActionView::NotFound))
                    }
                } else {
                    let top = s.stack.last();
                    if 0 <= top.next < top.entries.len() {
                        let ent = top.entries[top.next];
                        let s2 = RulesSearchView { stack: advance_top(s), ..s };
                        if ent.is_file && is_jlink_rules_name(ent.name) {
                            Some((RulesSearchView { done: true, ..s2 }, SearchActionView::Found(ent.path)))
                        } else if ent.is_dir && top.depth > 1 {
                            Some(
                                (
                                    RulesSearchView { waiting: Some((top.depth - 1) as u32), ..s2 },
                                    SearchActionView::ListDir(ent.path),
                                ),
                            )
                        } else {
                            Some((s2, SearchActionView::Advance))
                        }
                    } else {
                        Some(
                            (
                                RulesSearchView { stack: s.stack.drop_last(), ..s },
                                SearchActionView::Advance,
                            ),
                        )
                    }
                },
            },
        }
    }
}

/// A search of `bases`, in order; its first action is `Advance`.
pub fn rules_search_start(bases: Vec<String>) -> (r: (RulesSearch, SearchAction))
    ensures
        r.0@ == (RulesSearchView {
            bases: views(bases@),
            next_base: 0,
            stack: Seq::empty(),
            waiting: None,
            done: false,
        }),
        r.1@ == SearchActionView::Advance,
{
    let s = RulesSearch { bases, next_base: 0, stack: Vec::new(), waiting: None, done: false };
    assert(s@.stack =~= Seq::<FrameView>::empty());
    (s, SearchAction::Advance)
}

/// A copy of a string.
fn copy_string(s: &String) -> (r: String)
    ensures
        r@ == s@,
{
    String::from_str(s.as_str())
}

/// One step of the search (see `search_next`); the event must be one the
/// state waits for.
pub fn rules_search_step(s: RulesSearch, e: SearchEvent) -> (r: (RulesSearch, SearchAction))
    requires
        search_next(s@, e@) is Some,
    ensures
        search_next(s@, e@) == Some((r.0@, r.1@)),
{
    let ghost sv = s@;
    let mut s = s;
    match s.waiting {
        Some(d) => {
            let entries = match e {
                SearchEvent::Listing(Some(v)) => v,
                _ => Vec::new(),
            };
            let ghost ev = entries@.map_values(|x: TreeEntry| x@);
            let ghost before = s@.stack;
            s.stack.push(Frame { entries, next: 0, depth: d });
            s.waiting = None;
            assert(s@.stack =~= before.push(FrameView { entries: ev, next: 0, depth: d }));
            proof {
                if let SearchEventView::Listing(None) = e@ {
                    assert(ev =~= Seq::<TreeEntryView>::empty());
                }
            }
            (s, SearchAction::Advance)
        },
        None => {
            if s.stack.len() == 0 {
                if s.next_base < s.bases.len() {
                    let b = copy_string(&s.bases[s.next_base]);
                    assert(views(s.bases@)[s.next_base as int] == s.bases@[s.next_base as int]@);
                    s.next_base = s.next_base + 1;
                    s.waiting = Some(12);
                    (s, SearchAction::ListDir(b))
                } else {
                    s.done = true;
                    (s, SearchAction::NotFound)
                }
            } else {
                let ghost before = s@.stack;
                let top = s.stack.pop().unwrap();
                assert(s@.stack =~= before.drop_last());
                if top.next < top.entries.len() {
                    let i = top.next;
                    let path = copy_string(&top.entries[i].path);
                    let found = top.entries[i].is_file && is_jlink_rules_file_name(
                        top.entries[i].name.as_str(),
                    );
                    let descend = top.entries[i].is_dir && top.depth > 1;
                    let depth = top.depth;
                    assert(top@.entries[i as int] == top.entries@[i as int]@);
                    s.stack.push(Frame { entries: top.entries, next: i + 1, depth });
                    assert(s@.stack =~= advance_top(sv));
                    if found {
                        s.done = true;
                        (s, SearchAction::Found(path))
                    } else if descend {
                        s.waiting = Some(depth - 1);
                        (s, SearchAction::ListDir(path))
                    } else {
                        (s, SearchAction::Advance)
                    }
                } else {
                    (s, SearchAction::Advance)
                }
            }
        },
    }
}

/// The search takes only a file whose name is a rules name, and lists a
/// directory found inside a base only while depth remains.
pub proof fn lemma_search_step_guards(s: RulesSearchView, e: SearchEventView)
    ensures
        search_next(s, e) matches Some((s2, a)) ==> {
            &&& a matches SearchActionView::Found(p) ==> exists|i: int|
                0 <= i < s.stack.last().entries.len() && (#[trigger] s.stack.last().entries[i]).path
                    == p && s.stack.last().entries[i].is_file && is_jlink_rules_name(
                    s.stack.last().entries[i].name,
                )
            &&& a is ListDir ==> (s2.waiting matches Some(d) && 1 <= d)
        },
{
    if let Some((s2, a)) = search_next(s, e) {
        if let SearchActionView::Found(p) = a {
            let top = s.stack.last();
            assert(top.entries[top.next].path == p);
        }
    }
}

/// What listing a directory gives: its entries, or `None` when it is not a
/// readable directory.
pub type Listings = spec_fn(Seq<char>) -> Option<Seq<TreeEntryView>>;

/// `p` is the path of a file named like SEGGER rules that the entry `e` leads
/// to within `d` levels: `e` itself, or one found below it when it is a
/// directory and depth remains.
pub open spec fn entry_leads_to(ls: Listings, e: TreeEntryView, d: nat, p: Seq<char>) -> bool
    decreases d, 0nat, 0nat,
{
    ||| e.is_file && is_jlink_rules_name(e.name) && e.path == p
    ||| e.is_dir && d > 1 && rules_file_under(ls, e.path, (d - 1) as nat, p)
}

/// Some entry of `es` leads to `p` within `d` levels.
pub open spec fn entries_lead_to(ls: Listings, es: Seq<TreeEntryView>, d: nat, p: Seq<char>) -> bool
    decreases d, 1nat, es.len(),
{
    if es.len() == 0 {
        false
    } else {
        entries_lead_to(ls, es.drop_last(), d, p) || entry_leads_to(ls, es.last(), d, p)
    }
}

/// `p` is the path of a file named like SEGGER rules found by listing `dir`
/// and the directories below it, `dir` counting as the first of `d` levels.
pub open spec fn rules_file_under(ls: Listings, dir: Seq<char>, d: nat, p: Seq<char>) -> bool
    decreases d, 2nat, 0nat,
{
    &&& d >= 1
    &&& match ls(dir) {
        Some(es) => entries_lead_to(ls, es, d, p),
        None => false,
    }
}

/// `entries_lead_to` is: some entry leads to `p`.
proof fn lemma_entries_lead_to(ls: Listings, es: Seq<TreeEntryView>, d: nat, p: Seq<char>)
    ensures
        entries_lead_to(ls, es, d, p) == exists|i: int|
            0 <= i < es.len() && #[trigger] entry_leads_to(ls, es[i], d, p),
    decreases es.len(),
{
    if es.len() > 0 {
        let init = es.drop_last();
        lemma_entries_lead_to(ls, init, d, p);
        if entries_lead_to(ls, init, d, p) {
            let i = choose|i: int| 0 <= i < init.len() && #[trigger] entry_leads_to(ls, init[i], d, p);
            assert(entry_leads_to(ls, es[i], d, p));
        }
        if entry_leads_to(ls, es.last(), d, p) {
            assert(entry_leads_to(ls, es[es.len() - 1], d, p));
        }
        if exists|i: int| 0 <= i < es.len() && #[trigger] entry_leads_to(ls, es[i], d, p) {
            let i = choose|i: int| 0 <= i < es.len() && #[trigger] entry_leads_to(ls, es[i], d, p);
            if i < es.len() - 1 {
                assert(entry_leads_to(ls, init[i], d, p));
            }
        }
    }
}

/// The event that the listings give for an action.
pub open spec fn event_for(ls: Listings, a: SearchActionView) -> SearchEventView {
    match a {
        SearchActionView::ListDir(p) => SearchEventView::Listing(ls(p)),
        _ => SearchEventView::Next,
    }
}

/// The state and action after `n` steps from `s` and `a`, each event given by
/// the listings; a search that is over stays where it is.
pub open spec fn search_run(ls: Listings, s: RulesSearchView, a: SearchActionView, n: nat) -> (
    RulesSearchView,
    SearchActionView,
)
    decreases n,
{
    if n == 0 {
        (s, a)
    } else {
        match search_next(s, event_for(ls, a)) {
            Some((s2, a2)) => search_run(ls, s2, a2, (n - 1) as nat),
            None => (s, a),
        }
    }
}

/// The state of a new search of `bases`.
pub open spec fn search_start_view(bases: Seq<Seq<char>>) -> RulesSearchView {
    RulesSearchView { bases, next_base: 0, stack: Seq::empty(), waiting: None, done: false }
}

/// `p` is a rules file under a base not yet started.
spec fn pending_bases(ls: Listings, bases: Seq<Seq<char>>, next_base: int, p: Seq<char>) -> bool {
    exists|j: int|
        next_base <= j < bases.len() && 0 <= j && #[trigger] rules_file_under(
            ls,
            bases[j],
            search_depth() as nat,
            p,
        )
}

/// `p` is a rules file that an entry not yet looked at in `f` leads to.
spec fn pending_frame(ls: Listings, f: FrameView, p: Seq<char>) -> bool {
    exists|i: int|
        0 <= i && f.next <= i < f.entries.len() && #[trigger] entry_leads_to(
            ls,
            f.entries[i],
            f.depth as nat,
            p,
        )
}

/// `p` is a rules file that some frame of the stack still leads to.
spec fn pending_stack(ls: Listings, st: Seq<FrameView>, p: Seq<char>) -> bool
    decreases st.len(),
{
    if st.len() == 0 {
        false
    } else {
        pending_stack(ls, st.drop_last(), p) || pending_frame(ls, st.last(), p)
    }
}

/// `p` is a rules file that the search has still to come to.
spec fn pending(ls: Listings, s: RulesSearchView, a: SearchActionView, p: Seq<char>) -> bool {
    ||| pending_bases(ls, s.bases, s.next_base, p)
    ||| (s.waiting matches Some(d) && a matches SearchActionView::ListDir(q) && rules_file_under(
        ls,
        q,
        d as nat,
        p,
    ))
    ||| pending_stack(ls, s.stack, p)
}

/// A search in progress waits for a listing exactly after asking for one, at
/// a depth of at least one.
spec fn search_wf(s: RulesSearchView, a: SearchActionView) -> bool {
    !s.done ==> {
        &&& 0 <= s.next_base
        &&& forall|k: int| 0 <= k < s.stack.len() ==> 0 <= (#[trigger] s.stack[k]).next
        &&& (a is ListDir || a is Advance)
        &&& (s.waiting is Some <==> a is ListDir)
        &&& (s.waiting matches Some(d) ==> d >= 1)
    }
}

proof fn lemma_pending_stack_push(ls: Listings, st: Seq<FrameView>, f: FrameView, p: Seq<char>)
    ensures
        pending_stack(ls, st.push(f), p) == (pending_stack(ls, st, p) || pending_frame(ls, f, p)),
{
    assert(st.push(f).drop_last() =~= st);
}

/// One step of a search keeps what it has still to come to, unless it finds
/// (then what it found was among it) or ends (then nothing was left).
proof fn lemma_search_step_pending(
    ls: Listings,
    s: RulesSearchView,
    a: SearchActionView,
    p: Seq<char>,
)
    requires
        search_wf(s, a),
        !s.done,
    ensures
        search_next(s, event_for(ls, a)) matches Some((s2, a2)) && {
            &&& search_wf(s2, a2)
            &&& (s2.done <==> (a2 is Found || a2 is NotFound))
            &&& (!s2.done ==> (pending(ls, s2, a2, p) == pending(ls, s, a, p)))
            &&& (a2 matches SearchActionView::Found(q) ==> pending(ls, s, a, q))
            &&& (a2 is NotFound ==> !pending(ls, s, a, p))
        },
{
    let e = event_for(ls, a);
    match s.waiting {
        Some(d) => {
            let q = a->ListDir_0;
            let entries = match ls(q) {
                Some(v) => v,
                None => Seq::<TreeEntryView>::empty(),
            };
            let f = FrameView { entries, next: 0, depth: d };
            lemma_pending_stack_push(ls, s.stack, f, p);
            assert(d >= 1);
            match ls(q) {
                Some(es) => {
                    assert(f.entries == es);
                    lemma_entries_lead_to(ls, es, d as nat, p);
                    if pending_frame(ls, f, p) {
                        let i = choose|i: int|
                            0 <= i && f.next <= i < f.entries.len() && #[trigger] entry_leads_to(
                                ls,
                                f.entries[i],
                                f.depth as nat,
                                p,
                            );
                        assert(entry_leads_to(ls, es[i], d as nat, p));
                        assert(rules_file_under(ls, q, d as nat, p));
                    }
                    if rules_file_under(ls, q, d as nat, p) {
                        let i = choose|i: int|
                            0 <= i < es.len() && #[trigger] entry_leads_to(ls, es[i], d as nat, p);
                        assert(entry_leads_to(ls, f.entries[i], f.depth as nat, p));
                        assert(pending_frame(ls, f, p));
                    }
                },
                None => {},
            }
            let s2 = search_next(s, e).unwrap().0;
            assert(s2.stack == s.stack.push(f));
            assert forall|k: int| 0 <= k < s2.stack.len() implies 0 <= (#[trigger] s2.stack[k]).next by {
                if k < s.stack.len() {
                    assert(s2.stack[k] == s.stack[k]);
                }
            }
            assert(pending_frame(ls, f, p) == rules_file_under(ls, q, d as nat, p));
        },
        None => {
            if s.stack.len() == 0 {
                if 0 <= s.next_base < s.bases.len() {
                    let (s2, a2) = search_next(s, e).unwrap();
                    let here = rules_file_under(ls, s.bases[s.next_base], search_depth() as nat, p);
                    if pending_bases(ls, s.bases, s.next_base, p) && !here {
                        let j = choose|j: int|
                            s.next_base <= j < s.bases.len() && 0 <= j && #[trigger] rules_file_under(
                                ls,
                                s.bases[j],
                                search_depth() as nat,
                                p,
                            );
                        assert(j != s.next_base);
                        assert(s2.bases[j] == s.bases[j]);
                        assert(pending_bases(ls, s2.bases, s2.next_base, p));
                    }
                    if here {
                        assert(pending_bases(ls, s.bases, s.next_base, p));
                    }
                    if pending_bases(ls, s2.bases, s2.next_base, p) {
                        let j = choose|j: int|
                            s2.next_base <= j < s2.bases.len() && 0 <= j && #[trigger] rules_file_under(
                                ls,
                                s2.bases[j],
                                search_depth() as nat,
                                p,
                            );
                        assert(s.bases[j] == s2.bases[j]);
                        assert(pending_bases(ls, s.bases, s.next_base, p));
                    }
                } else {
                    assert(!pending_bases(ls, s.bases, s.next_base, p));
                }
            } else {
                let top = s.stack.last();
                assert(s.stack =~= s.stack.drop_last().push(top));
                lemma_pending_stack_push(ls, s.stack.drop_last(), top, p);
                if 0 <= top.next < top.entries.len() {
                    let ent = top.entries[top.next];
                    let f2 = FrameView { entries: top.entries, next: top.next + 1, depth: top.depth };
                    lemma_pending_stack_push(ls, s.stack.drop_last(), f2, p);
                    assert(advance_top(s) == s.stack.drop_last().push(f2));
                    assert forall|k: int| 0 <= k < advance_top(s).len() implies 0 <= (#[trigger] advance_top(s)[k]).next by {
                        if k < s.stack.len() - 1 {
                            assert(advance_top(s)[k] == s.stack[k]);
                        }
                    }
                    let here = entry_leads_to(ls, ent, top.depth as nat, p);
                    if pending_frame(ls, top, p) && !here {
                        let i = choose|i: int|
                            0 <= i && top.next <= i < top.entries.len() && #[trigger] entry_leads_to(
                                ls,
                                top.entries[i],
                                top.depth as nat,
                                p,
                            );
                        assert(i != top.next);
                        assert(entry_leads_to(ls, f2.entries[i], f2.depth as nat, p));
                        assert(pending_frame(ls, f2, p));
                    }
                    if here {
                        assert(pending_frame(ls, top, p));
                    }
                    if pending_frame(ls, f2, p) {
                        let i = choose|i: int|
                            0 <= i && f2.next <= i < f2.entries.len() && #[trigger] entry_leads_to(
                                ls,
                                f2.entries[i],
                                f2.depth as nat,
                                p,
                            );
                        assert(entry_leads_to(ls, top.entries[i], top.depth as nat, p));
                        assert(pending_frame(ls, top, p));
                    }
                    if ent.is_file && is_jlink_rules_name(ent.name) {
                        lemma_pending_stack_push(ls, s.stack.drop_last(), top, ent.path);
                        assert(entry_leads_to(ls, ent, top.depth as nat, ent.path));
                        assert(pending_frame(ls, top, ent.path));
                    }
                } else {
                    assert(!pending_frame(ls, top, p));
                    assert forall|k: int| 0 <= k < s.stack.drop_last().len() implies 0 <= (#[trigger] s.stack.drop_last()[k]).next by {
                        assert(s.stack.drop_last()[k] == s.stack[k]);
                    }
                }
            }
        },
    }
}

/// What a run from a search in progress ends with: a found path is one the
/// search had still to come to; an end without a find means there was none.
proof fn lemma_search_run_pending(
    ls: Listings,
    s: RulesSearchView,
    a: SearchActionView,
    n: nat,
)
    requires
        search_wf(s, a),
        !s.done,
    ensures
        search_run(ls, s, a, n).1 matches SearchActionView::Found(q) ==> pending(ls, s, a, q),
        search_run(ls, s, a, n).1 is NotFound ==> forall|p: Seq<char>| !pending(ls, s, a, p),
    decreases n,
{
    if n > 0 {
        lemma_search_step_pending(ls, s, a, Seq::empty());
        let (s2, a2) = search_next(s, event_for(ls, a)).unwrap();
        if s2.done {
            assert(search_run(ls, s2, a2, (n - 1) as nat) == (s2, a2)) by {
                if n - 1 > 0 {
                    assert(search_next(s2, event_for(ls, a2)) is None);
                }
            }
            if a2 is Found {
                lemma_search_step_pending(ls, s, a, a2->Found_0);
            }
            assert forall|p: Seq<char>| a2 is NotFound implies !pending(ls, s, a, p) by {
                lemma_search_step_pending(ls, s, a, p);
            }
        } else {
            lemma_search_run_pending(ls, s2, a2, (n - 1) as nat);
            assert forall|p: Seq<char>| pending(ls, s2, a2, p) == pending(ls, s, a, p) by {
                lemma_search_step_pending(ls, s, a, p);
            }
        }
    }
}

/// A search of `bases` answered by the listings `ls` that ends without a
/// find leaves no file named like SEGGER rules within the search depth under
/// any base; a path it finds is such a file under one of the bases.
pub proof fn lemma_search_run_complete(ls: Listings, bases: Seq<Seq<char>>, n: nat)
    ensures
        search_run(ls, search_start_view(bases), SearchActionView::Advance, n).1 is NotFound
            ==> forall|j: int, p: Seq<char>|
            0 <= j < bases.len() ==> !#[trigger] rules_file_under(
                ls,
                bases[j],
                search_depth() as nat,
                p,
            ),
        search_run(ls, search_start_view(bases), SearchActionView::Advance, n).1 matches SearchActionView::Found(p)
            ==> exists|j: int|
            0 <= j < bases.len() && #[trigger] rules_file_under(
                ls,
                bases[j],
                search_depth() as nat,
                p,
            ),
{
    let s = search_start_view(bases);
    let a = SearchActionView::Advance;
    lemma_search_run_pending(ls, s, a, n);
    assert forall|p: Seq<char>| pending(ls, s, a, p) == pending_bases(ls, s.bases, s.next_base, p) by {}
    assert forall|j: int, p: Seq<char>|
        0 <= j < bases.len() && #[trigger] rules_file_under(ls, bases[j], search_depth() as nat, p)
            implies pending(ls, s, a, p) by {
        assert(pending_bases(ls, s.bases, s.next_base, p));
    }
}

} // verus!
