//! The note filter: gathers candidate note files from a directory snapshot
//! and narrows them by journal membership and by date patterns; its result
//! is always handed out in lexicographic path order, so repeated runs over
//! an unchanged tree agree.
use vstd::prelude::*;

use crate::date::Date;
use crate::journal::Period;
use crate::journal::pattern_of;
use crate::journal::render_pattern;
use crate::journal::selected_periods;
use crate::journal::selected_vec;
use crate::text::contains_substr;
use crate::text::lex_leq_rel;
use crate::text::sort_strings;
use crate::text::str_contains;
use crate::walk::DiagKind;
use crate::walk::DiagView;
use crate::walk::Diagnostic;
use crate::walk::FsNode;
use crate::walk::diags_of;
use crate::walk::diags_of_seq;
use crate::walk::files_of;
use crate::walk::files_of_seq;

verus! {

/// The paths of `s` that satisfy `pred`, in order.
pub open spec fn kept(s: Seq<Seq<char>>, pred: spec_fn(Seq<char>) -> bool) -> Seq<Seq<char>>
    decreases s.len(),
{
    if s.len() == 0 {
        s
    } else if pred(s.last()) {
        kept(s.drop_last(), pred).push(s.last())
    } else {
        kept(s.drop_last(), pred)
    }
}

/// A path is a journal path when its text contains the journal directory
/// segment, a plain substring test.
pub open spec fn is_journal_path(p: Seq<char>) -> bool {
    contains_substr(p, "journals/"@)
}

/// A path matches a date under a period request when it contains the
/// rendered pattern of at least one selected period.
pub open spec fn date_matches(p: Seq<char>, date: Date, req: Seq<Period>) -> bool {
    exists|k: int|
        0 <= k < selected_periods(req).len() && contains_substr(
            p,
            pattern_of(date, #[trigger] selected_periods(req)[k])->0,
        )
}

/// Accumulates candidate note paths from directory snapshots and narrows
/// them; filters only ever remove paths. Non-fatal problems of the walk
/// (a missing path, an unreadable entry) are recorded as diagnostics, never
/// raised.
pub struct Filter {
    paths: Vec<String>,
    periods: Vec<Period>,
    diagnostics: Vec<Diagnostic>,
}

impl Filter {
    /// The candidate paths accumulated so far, in insertion order.
    pub closed spec fn paths_view(self) -> Seq<Seq<char>> {
        self.paths.deep_view()
    }

    /// The periods requested so far.
    pub closed spec fn periods_view(self) -> Seq<Period> {
        self.periods@
    }

    /// The diagnostics recorded so far, in order.
    pub closed spec fn diags_view(self) -> Seq<DiagView> {
        self.diagnostics.deep_view()
    }

    /// An empty filter: no candidates, no requested periods, no
    /// diagnostics.
    pub fn new() -> (r: Self)
        ensures
            r.paths_view() == Seq::<Seq<char>>::empty(),
            r.periods_view() == Seq::<Period>::empty(),
            r.diags_view() == Seq::<DiagView>::empty(),
    {
        let r = Filter { paths: Vec::new(), periods: Vec::new(), diagnostics: Vec::new() };
        proof {
            assert(r.paths_view() =~= Seq::<Seq<char>>::empty());
            assert(r.diags_view() =~= Seq::<DiagView>::empty());
        }
        r
    }

    /// Requests one more period; candidates and diagnostics are untouched.
    pub fn period(self, period: Period) -> (r: Self)
        ensures
            r.paths_view() == self.paths_view(),
            r.periods_view() == self.periods_view().push(period),
            r.diags_view() == self.diags_view(),
    {
        let mut f = self;
        f.periods.push(period);
        f
    }

    /// Requests each period of a list in turn; candidates and diagnostics
    /// are untouched.
    pub fn periods(self, periods: &Vec<Period>) -> (r: Self)
        ensures
            r.paths_view() == self.paths_view(),
            r.periods_view() == self.periods_view() + periods@,
            r.diags_view() == self.diags_view(),
    {
        let mut f = self;
        let mut i: usize = 0;
        while i < periods.len()
            invariant
                i <= periods.len(),
                f.paths == self.paths,
                f.diagnostics == self.diagnostics,
                f.periods@ == self.periods@ + periods@.subrange(0, i as int),
            decreases periods.len() - i,
        {
            f.periods.push(periods[i]);
            proof {
                assert(f.periods@ =~= self.periods@ + periods@.subrange(0, i + 1));
            }
            i = i + 1;
        }
        proof {
            assert(self.periods@ + periods@.subrange(0, periods@.len() as int) =~= self.periods@
                + periods@);
        }
        f
    }

    /// Walks a directory snapshot: every regular file under `node` joins
    /// the candidates, in walk order; every missing or unreadable node
    /// leaves a diagnostic, and nothing else changes. Adding never removes
    /// a candidate.
    pub fn add(self, node: &FsNode) -> (r: Self)
        ensures
            r.paths_view() == self.paths_view() + files_of(*node),
            r.periods_view() == self.periods_view(),
            r.diags_view() == self.diags_view() + diags_of(*node),
    {
        let mut f = self;
        add_walk(&mut f.paths, &mut f.diagnostics, node);
        f
    }

    /// Keeps only the candidates whose path text contains the journal
    /// directory segment.
    pub fn journal_only(self) -> (r: Self)
        ensures
            r.paths_view() == kept(self.paths_view(), |p: Seq<char>| is_journal_path(p)),
            r.periods_view() == self.periods_view(),
            r.diags_view() == self.diags_view(),
    {
        let ghost pred = |p: Seq<char>| is_journal_path(p);
        let mut out: Vec<String> = Vec::new();
        let mut i: usize = 0;
        proof {
            assert(self.paths_view().subrange(0, 0) =~= Seq::<Seq<char>>::empty());
            assert(out.deep_view() =~= kept(self.paths_view().subrange(0, 0), pred));
        }
        while i < self.paths.len()
            invariant
                i <= self.paths.len(),
                out.deep_view() == kept(self.paths_view().subrange(0, i as int), pred),
                pred == (|p: Seq<char>| is_journal_path(p)),
            decreases self.paths.len() - i,
        {
            let ghost pre = out.deep_view();
            let ghost prefix = self.paths_view().subrange(0, i as int);
            let ghost prefix1 = self.paths_view().subrange(0, i + 1);
            proof {
                assert(prefix1.drop_last() =~= prefix);
                assert(prefix1.last() == self.paths_view()[i as int]);
            }
            if str_contains(self.paths[i].as_str(), "journals/") {
                out.push(self.paths[i].clone());
                proof {
                    assert(out.deep_view() =~= pre.push(self.paths_view()[i as int]));
                    assert(out.deep_view() == kept(prefix1, pred));
                }
            } else {
                proof {
                    assert(out.deep_view() == kept(prefix1, pred));
                }
            }
            i = i + 1;
        }
        proof {
            assert(self.paths_view().subrange(0, self.paths@.len() as int) =~= self.paths_view());
        }
        Filter { paths: out, periods: self.periods, diagnostics: self.diagnostics }
    }

    /// Keeps only the candidates whose path text contains the rendered
    /// pattern of at least one selected period for `date`: an OR across
    /// the selected periods, all four when none was requested.
    pub fn date(self, date: &Date) -> (r: Self)
        requires
            date.wf(),
        ensures
            r.paths_view() == kept(
                self.paths_view(),
                |p: Seq<char>| date_matches(p, *date, self.periods_view()),
            ),
            r.periods_view() == self.periods_view(),
            r.diags_view() == self.diags_view(),
    {
        let ghost pred = |p: Seq<char>| date_matches(p, *date, self.periods_view());
        let sel = selected_vec(&self.periods);
        let mut pats: Vec<String> = Vec::new();
        let mut k: usize = 0;
        while k < sel.len()
            invariant
                date.wf(),
                k <= sel.len(),
                sel@ == selected_periods(self.periods@),
                pats@.len() == k,
                forall|j: int|
                    0 <= j < k ==> Some(#[trigger] pats@[j]@) == pattern_of(*date, sel@[j]),
            decreases sel.len() - k,
        {
            pats.push(render_pattern(*date, sel[k]));
            k = k + 1;
        }
        let mut out: Vec<String> = Vec::new();
        let mut i: usize = 0;
        proof {
            assert(self.paths_view().subrange(0, 0) =~= Seq::<Seq<char>>::empty());
            assert(out.deep_view() =~= kept(self.paths_view().subrange(0, 0), pred));
        }
        while i < self.paths.len()
            invariant
                i <= self.paths.len(),
                sel@ == selected_periods(self.periods@),
                pats@.len() == sel@.len(),
                forall|j: int|
                    0 <= j < pats@.len() ==> Some(#[trigger] pats@[j]@) == pattern_of(
                        *date,
                        sel@[j],
                    ),
                out.deep_view() == kept(self.paths_view().subrange(0, i as int), pred),
                pred == (|p: Seq<char>| date_matches(p, *date, self.periods_view())),
            decreases self.paths.len() - i,
        {
            let ghost pre = out.deep_view();
            let ghost prefix = self.paths_view().subrange(0, i as int);
            let ghost prefix1 = self.paths_view().subrange(0, i + 1);
            proof {
                assert(prefix1.drop_last() =~= prefix);
                assert(prefix1.last() == self.paths_view()[i as int]);
            }
            let mut matched = false;
            let mut j: usize = 0;
            while j < pats.len()
                invariant
                    i < self.paths.len(),
                    pats@.len() == sel@.len(),
                    sel@ == selected_periods(self.periods@),
                    forall|l: int|
                        0 <= l < pats@.len() ==> Some(#[trigger] pats@[l]@) == pattern_of(
                            *date,
                            sel@[l],
                        ),
                    j <= pats@.len(),
                    matched ==> date_matches(
                        self.paths_view()[i as int],
                        *date,
                        self.periods_view(),
                    ),
                    !matched ==> forall|l: int|
                        0 <= l < j ==> !contains_substr(
                            self.paths_view()[i as int],
                            pattern_of(*date, #[trigger] sel@[l])->0,
                        ),
                decreases pats.len() - j,
            {
                if str_contains(self.paths[i].as_str(), pats[j].as_str()) {
                    proof {
                        assert(contains_substr(
                            self.paths_view()[i as int],
                            pattern_of(*date, sel@[j as int])->0,
                        ));
                    }
                    matched = true;
                }
                j = j + 1;
            }
            if matched {
                out.push(self.paths[i].clone());
                proof {
                    assert(out.deep_view() =~= pre.push(self.paths_view()[i as int]));
                    assert(pred(prefix1.last()));
                    assert(out.deep_view() == kept(prefix1, pred));
                }
            } else {
                proof {
                    assert(!date_matches(self.paths_view()[i as int], *date, self.periods_view()));
                    assert(!pred(prefix1.last()));
                    assert(out.deep_view() == kept(prefix1, pred));
                }
            }
            i = i + 1;
        }
        proof {
            assert(self.paths_view().subrange(0, self.paths@.len() as int) =~= self.paths_view());
        }
        Filter { paths: out, periods: self.periods, diagnostics: self.diagnostics }
    }

    /// The current candidates, sorted lexicographically by path text: the
    /// same candidate set always comes out as the same sequence.
    pub fn notes(&self) -> (r: Vec<String>)
        ensures
            vstd::relations::sorted_by(r.deep_view(), lex_leq_rel()),
            r.deep_view().to_multiset() == self.paths_view().to_multiset(),
    {
        sort_strings(&self.paths)
    }

    /// The diagnostics recorded so far, for the caller to report.
    pub fn diagnostics(&self) -> (r: &Vec<Diagnostic>)
        ensures
            r.deep_view() == self.diags_view(),
    {
        &self.diagnostics
    }
}

/// Walks one snapshot node, appending files to `paths` and problems to
/// `diags`.
fn add_walk(paths: &mut Vec<String>, diags: &mut Vec<Diagnostic>, node: &FsNode)
    ensures
        final(paths).deep_view() == old(paths).deep_view() + files_of(*node),
        final(diags).deep_view() == old(diags).deep_view() + diags_of(*node),
    decreases *node,
{
    match node {
        FsNode::File { path } => {
            paths.push(path.clone());
            proof {
                assert(paths.deep_view() =~= old(paths).deep_view() + files_of(*node));
                assert(diags.deep_view() =~= old(diags).deep_view() + diags_of(*node));
            }
        },
        FsNode::Missing { path } => {
            diags.push(Diagnostic { kind: DiagKind::MissingPath, path: path.clone() });
            proof {
                assert(paths.deep_view() =~= old(paths).deep_view() + files_of(*node));
                assert(diags.deep_view() =~= old(diags).deep_view() + diags_of(*node));
            }
        },
        FsNode::Unreadable { path } => {
            diags.push(Diagnostic { kind: DiagKind::EntryReadError, path: path.clone() });
            proof {
                assert(paths.deep_view() =~= old(paths).deep_view() + files_of(*node));
                assert(diags.deep_view() =~= old(diags).deep_view() + diags_of(*node));
            }
        },
        FsNode::Other { .. } => {
            proof {
                assert(paths.deep_view() =~= old(paths).deep_view() + files_of(*node));
                assert(diags.deep_view() =~= old(diags).deep_view() + diags_of(*node));
            }
        },
        FsNode::Dir { entries, .. } => {
            let mut i: usize = 0;
            while i < entries.len()
                invariant
                    node is Dir,
                    node->Dir_entries == *entries,
                    i <= entries.len(),
                    old(paths).deep_view() + files_of_seq(entries@, 0) == paths.deep_view()
                        + files_of_seq(entries@, i as int),
                    old(diags).deep_view() + diags_of_seq(entries@, 0) == diags.deep_view()
                        + diags_of_seq(entries@, i as int),
                decreases entries@.len() - i,
            {
                proof {
                    assert(decreases_to!(*node => node->Dir_entries));
                    assert(decreases_to!(*entries => entries[i as int]));
                }
                let ghost pre_paths = paths.deep_view();
                let ghost pre_diags = diags.deep_view();
                add_walk(paths, diags, &entries[i]);
                proof {
                    assert(paths.deep_view() + files_of_seq(entries@, i + 1) =~= pre_paths
                        + files_of_seq(entries@, i as int));
                    assert(diags.deep_view() + diags_of_seq(entries@, i + 1) =~= pre_diags
                        + diags_of_seq(entries@, i as int));
                }
                i = i + 1;
            }
            proof {
                assert(paths.deep_view() =~= old(paths).deep_view() + files_of(*node));
                assert(diags.deep_view() =~= old(diags).deep_view() + diags_of(*node));
            }
        },
    }
}

/// An outbound reference of a note: a web url kept verbatim, or a
/// filesystem reference already resolved against the note's own directory.
#[derive(Clone, Debug, PartialEq)]
pub enum LinkUrl {
    Web(String),
    File(String),
}

/// One outbound link: the display title, when the link's first child is
/// plain text, and the url.
#[derive(Clone, Debug, PartialEq)]
pub struct Link {
    pub title: Option<String>,
    pub url: LinkUrl,
}

/// The mathematical value of a link's url.
pub enum LinkUrlView {
    Web(Seq<char>),
    File(Seq<char>),
}

/// The mathematical value of a link.
pub struct LinkView {
    pub title: Option<Seq<char>>,
    pub url: LinkUrlView,
}

impl View for Link {
    type V = LinkView;

    open spec fn view(&self) -> LinkView {
        LinkView {
            title: match self.title {
                Some(t) => Some(t@),
                None => None,
            },
            url: match self.url {
                LinkUrl::Web(u) => LinkUrlView::Web(u@),
                LinkUrl::File(u) => LinkUrlView::File(u@),
            },
        }
    }
}

impl DeepView for Link {
    type V = LinkView;

    open spec fn deep_view(&self) -> LinkView {
        self@
    }
}

/// The text of a link's url, whichever kind it is.
pub open spec fn url_text(u: LinkUrlView) -> Seq<char> {
    match u {
        LinkUrlView::Web(s) => s,
        LinkUrlView::File(s) => s,
    }
}

/// A url is a web url when it starts with `http://` or `https://`;
/// everything else counts as a filesystem reference.
pub open spec fn is_web_url(u: Seq<char>) -> bool {
    crate::text::starts_with(u, "http://"@) || crate::text::starts_with(u, "https://"@)
}

/// The link a `[title](url)` in a note whose directory is `dir` yields: a
/// web url is kept verbatim, a filesystem url is joined onto `dir`. No
/// `..` collapsing is performed; the join is purely textual.
pub open spec fn link_from(dir: Seq<char>, url: Seq<char>, title: Option<Seq<char>>) -> LinkView {
    LinkView {
        title,
        url: if is_web_url(url) {
            LinkUrlView::Web(url)
        } else {
            LinkUrlView::File(crate::text::join_path(dir, url))
        },
    }
}

/// The first child's text, when the first child is a plain text node.
pub open spec fn first_text(cs: Seq<crate::md::MdTree>) -> Option<Seq<char>> {
    if cs.len() > 0 && cs[0] is Text {
        Some(cs[0]->Text_value)
    } else {
        None
    }
}

/// The links of a markdown tree, in depth-first pre-order: a link node
/// contributes itself, resolved against `dir`, before its children.
pub open spec fn links_of(t: crate::md::MdTree, dir: Seq<char>) -> Seq<LinkView>
    decreases t,
{
    match t {
        crate::md::MdTree::Link { url, children } => seq![
            link_from(dir, url, first_text(children)),
        ] + links_of_seq(children, 0, dir),
        crate::md::MdTree::Heading { children, .. } => links_of_seq(children, 0, dir),
        crate::md::MdTree::Other { children } => links_of_seq(children, 0, dir),
        crate::md::MdTree::Text { .. } => Seq::empty(),
    }
}

pub open spec fn links_of_seq(cs: Seq<crate::md::MdTree>, i: int, dir: Seq<char>) -> Seq<LinkView>
    decreases cs, cs.len() - i,
{
    if i < 0 || i >= cs.len() {
        Seq::empty()
    } else {
        links_of(cs[i], dir) + links_of_seq(cs, i + 1, dir)
    }
}

/// The text of the last depth-1 heading of a tree in depth-first
/// pre-order whose first child is plain text, if any: a later occurrence
/// overrides an earlier one.
pub open spec fn last_h1(t: crate::md::MdTree) -> Option<Seq<char>>
    decreases t,
{
    match t {
        crate::md::MdTree::Heading { depth, children } => {
            let own = if depth == 1 {
                first_text(children)
            } else {
                None
            };
            let from_children = last_h1_seq(children, 0);
            if from_children is Some {
                from_children
            } else {
                own
            }
        },
        crate::md::MdTree::Link { children, .. } => last_h1_seq(children, 0),
        crate::md::MdTree::Other { children } => last_h1_seq(children, 0),
        crate::md::MdTree::Text { .. } => None,
    }
}

pub open spec fn last_h1_seq(cs: Seq<crate::md::MdTree>, i: int) -> Option<Seq<char>>
    decreases cs, cs.len() - i,
{
    if i < 0 || i >= cs.len() {
        None
    } else {
        let rest = last_h1_seq(cs, i + 1);
        if rest is Some {
            rest
        } else {
            last_h1(cs[i])
        }
    }
}

/// The title a parsed note carries: the last depth-1 heading's text, or
/// the file's base name when no such heading exists.
pub open spec fn note_title_of(path: Seq<char>, t: crate::md::MdTree) -> Seq<char> {
    match last_h1(t) {
        Some(s) => s,
        None => crate::text::base_name(path),
    }
}

/// The links a parsed note carries: the tree's links in document order,
/// each filesystem url resolved against the note's own directory.
pub open spec fn note_links_of(path: Seq<char>, t: crate::md::MdTree) -> Seq<LinkView> {
    links_of(t, crate::text::parent_dir(path))
}

/// Extraction fails only on a text the markdown parser rejects.
#[derive(Clone, Copy, Debug, PartialEq, Eq, Structural)]
pub enum NoteError {
    ParseError,
}

/// One parsed markdown document: its path, its display title and its
/// outbound links in document order.
#[derive(Clone, Debug)]
pub struct Note {
    pub path: String,
    pub title: String,
    pub links: Vec<Link>,
}

impl Note {
    /// Builds the note model of a markdown text that lives at `path`: the
    /// title is the last depth-1 heading, or the base name when there is
    /// none, and the links are collected in document order with
    /// filesystem urls resolved against the note's directory. Fails
    /// exactly when the parser rejects the text.
    pub fn from_text(path: &str, content: &str) -> (r: Result<Note, NoteError>)
        ensures
            match r {
                Ok(n) => {
                    &&& crate::md::md_tree_of(content@) matches Some(t)
                    &&& n.path@ == path@
                    &&& n.title@ == note_title_of(path@, crate::md::md_tree_of(content@)->0)
                    &&& n.links.deep_view() == note_links_of(
                        path@,
                        crate::md::md_tree_of(content@)->0,
                    )
                },
                Err(e) => e == NoteError::ParseError && crate::md::md_tree_of(content@) is None,
            },
    {
        let root = match crate::md::parse_markdown(content) {
            Some(root) => root,
            None => {
                return Err(NoteError::ParseError);
            },
        };
        let mut title = crate::text::path_base(path);
        let dir = crate::text::path_parent(path);
        let mut links: Vec<Link> = Vec::new();
        scan_node(&mut title, &mut links, &root, dir.as_str());
        proof {
            assert(links.deep_view() =~= Seq::<LinkView>::empty() + links_of(
                crate::md::md_view(root),
                dir@,
            ));
        }
        Ok(Note { path: path.to_owned(), title, links })
    }

    /// Whether some link of this note refers to `path`: exact equality of
    /// the link's stored url text with the given path text.
    pub fn link_to(&self, path: &str) -> (r: bool)
        ensures
            r == exists|k: int|
                0 <= k < self.links.deep_view().len() && url_text(
                    #[trigger] self.links.deep_view()[k].url,
                ) == path@,
    {
        let mut k: usize = 0;
        while k < self.links.len()
            invariant
                k <= self.links@.len(),
                forall|l: int|
                    0 <= l < k ==> url_text(#[trigger] self.links.deep_view()[l].url) != path@,
            decreases self.links@.len() - k,
        {
            let hit = match &self.links[k].url {
                LinkUrl::Web(u) => crate::text::str_eq(u.as_str(), path),
                LinkUrl::File(u) => crate::text::str_eq(u.as_str(), path),
            };
            if hit {
                proof {
                    assert(url_text(self.links.deep_view()[k as int].url) == path@);
                }
                return true;
            }
            k = k + 1;
        }
        false
    }

    /// Whether a raw link url counts as a filesystem reference rather
    /// than a web url.
    pub fn is_filesystem_url(url: &str) -> (r: bool)
        ensures
            r == !is_web_url(url@),
    {
        !(crate::text::str_starts_with(url, "https://") || crate::text::str_starts_with(
            url,
            "http://",
        ))
    }
}

/// Walks one markdown node in depth-first pre-order: appends its links to
/// `links` and lets its last depth-1 heading, if any, override `title`.
fn scan_node(title: &mut String, links: &mut Vec<Link>, node: &crate::md::MdNode, dir: &str)
    ensures
        final(title)@ == (match last_h1(crate::md::md_view(*node)) {
            Some(s) => s,
            None => old(title)@,
        }),
        final(links).deep_view() == old(links).deep_view() + links_of(
            crate::md::md_view(*node),
            dir@,
        ),
    decreases *node,
{
    match node {
        crate::md::MdNode::Text { .. } => {
            proof {
                assert(links.deep_view() =~= old(links).deep_view() + links_of(
                    crate::md::md_view(*node),
                    dir@,
                ));
            }
        },
        crate::md::MdNode::Link { url, children } => {
            let link_title: Option<String> = if children.len() > 0 {
                match &children[0] {
                    crate::md::MdNode::Text { value } => Some(value.clone()),
                    _ => None,
                }
            } else {
                None
            };
            let resolved: LinkUrl = if Note::is_filesystem_url(url.as_str()) {
                LinkUrl::File(crate::text::path_join(dir, url.as_str()))
            } else {
                LinkUrl::Web(url.clone())
            };
            let ghost pre = links.deep_view();
            links.push(Link { title: link_title, url: resolved });
            proof {
                crate::md::lemma_md_views(children@, 0);
                assert(links.deep_view() =~= pre.push(
                    link_from(
                        dir@,
                        url@,
                        first_text(crate::md::md_view(*node)->Link_children),
                    ),
                ));
            }
            scan_children(title, links, children, dir);
            proof {
                let t = crate::md::md_view(*node);
                assert(links.deep_view() =~= old(links).deep_view() + links_of(t, dir@));
            }
        },
        crate::md::MdNode::Heading { depth, children } => {
            if *depth == 1 && children.len() > 0 {
                match &children[0] {
                    crate::md::MdNode::Text { value } => {
                        *title = value.clone();
                    },
                    _ => {},
                }
            }
            proof {
                crate::md::lemma_md_views(children@, 0);
            }
            scan_children(title, links, children, dir);
            proof {
                let t = crate::md::md_view(*node);
                assert(links.deep_view() =~= old(links).deep_view() + links_of(t, dir@));
            }
        },
        crate::md::MdNode::Other { children } => {
            proof {
                crate::md::lemma_md_views(children@, 0);
            }
            scan_children(title, links, children, dir);
            proof {
                let t = crate::md::md_view(*node);
                assert(links.deep_view() =~= old(links).deep_view() + links_of(t, dir@));
            }
        },
    }
}

/// Walks the children of a node left to right.
fn scan_children(
    title: &mut String,
    links: &mut Vec<Link>,
    children: &Vec<crate::md::MdNode>,
    dir: &str,
)
    ensures
        final(title)@ == (match last_h1_seq(crate::md::md_views(children@, 0), 0) {
            Some(s) => s,
            None => old(title)@,
        }),
        final(links).deep_view() == old(links).deep_view() + links_of_seq(
            crate::md::md_views(children@, 0),
            0,
            dir@,
        ),
    decreases *children,
{
    let ghost kids = crate::md::md_views(children@, 0);
    proof {
        crate::md::lemma_md_views(children@, 0);
    }
    let mut i: usize = 0;
    while i < children.len()
        invariant
            kids == crate::md::md_views(children@, 0),
            kids.len() == children@.len(),
            forall|j: int| 0 <= j < kids.len() ==> #[trigger] kids[j] == crate::md::md_view(
                children@[j],
            ),
            i <= children@.len(),
            old(links).deep_view() + links_of_seq(kids, 0, dir@) == links.deep_view()
                + links_of_seq(kids, i as int, dir@),
            (match last_h1_seq(kids, i as int) {
                Some(s) => s,
                None => title@,
            }) == (match last_h1_seq(kids, 0) {
                Some(s) => s,
                None => old(title)@,
            }),
        decreases children@.len() - i,
    {
        proof {
            assert(decreases_to!(*children => children[i as int]));
        }
        let ghost pre_links = links.deep_view();
        let ghost pre_title = title@;
        scan_node(title, links, &children[i], dir);
        proof {
            assert(crate::md::md_view(children@[i as int]) == kids[i as int]);
            assert(links.deep_view() + links_of_seq(kids, i + 1, dir@) =~= pre_links
                + links_of_seq(kids, i as int, dir@));
            assert((match last_h1_seq(kids, i + 1) {
                Some(s) => s,
                None => title@,
            }) == (match last_h1_seq(kids, i as int) {
                Some(s) => s,
                None => pre_title,
            }));
        }
        i = i + 1;
    }
    proof {
        assert(links.deep_view() =~= old(links).deep_view() + links_of_seq(kids, 0, dir@));
    }
}

/// A note whose document holds a single link `[label](url)` with a
/// filesystem url yields exactly one link: `label` as its title and the
/// note's parent directory joined with the raw url as its target, purely
/// textually, with no `..` collapsing.
pub proof fn lemma_link_resolution(path: Seq<char>, url: Seq<char>, label: Seq<char>)
    requires
        !is_web_url(url),
    ensures
        note_links_of(
            path,
            crate::md::MdTree::Link {
                url,
                children: seq![crate::md::MdTree::Text { value: label }],
            },
        ) == seq![
            LinkView {
                title: Some(label),
                url: LinkUrlView::File(
                    crate::text::join_path(crate::text::parent_dir(path), url),
                ),
            },
        ],
{
    let dir = crate::text::parent_dir(path);
    let kids = seq![crate::md::MdTree::Text { value: label }];
    let t = crate::md::MdTree::Link { url, children: kids };
    assert(first_text(kids) == Some(label));
    assert(links_of(kids[0], dir) =~= Seq::<LinkView>::empty());
    assert(links_of_seq(kids, 1, dir) =~= Seq::<LinkView>::empty());
    assert(links_of_seq(kids, 0, dir) =~= Seq::<LinkView>::empty());
    assert(links_of(t, dir) =~= seq![link_from(dir, url, Some(label))]);
}

/// A note whose document holds no usable depth-1 heading keeps the file's
/// base name as its title.
pub proof fn lemma_title_fallback(path: Seq<char>, t: crate::md::MdTree)
    requires
        last_h1(t) is None,
    ensures
        note_title_of(path, t) == crate::text::base_name(path),
{
}

/// A note whose document has a usable depth-1 heading takes its text as
/// the title, the last one when there are several.
pub proof fn lemma_title_override(path: Seq<char>, t: crate::md::MdTree, s: Seq<char>)
    requires
        last_h1(t) == Some(s),
    ensures
        note_title_of(path, t) == s,
{
}

/// A filter only removes: everything it keeps was already a candidate,
/// and the candidate set never grows.
pub proof fn lemma_kept_shrinks(s: Seq<Seq<char>>, pred: spec_fn(Seq<char>) -> bool)
    ensures
        kept(s, pred).len() <= s.len(),
        forall|x: Seq<char>| #[trigger] kept(s, pred).contains(x) ==> s.contains(x),
    decreases s.len(),
{
    if s.len() > 0 {
        let dl = s.drop_last();
        lemma_kept_shrinks(dl, pred);
        assert forall|x: Seq<char>| #[trigger] kept(s, pred).contains(x) implies s.contains(x) by {
            if pred(s.last()) && x == s.last() {
                assert(s[s.len() - 1] == x);
            } else {
                let k = kept(s, pred);
                let j = choose|j: int| 0 <= j < k.len() && k[j] == x;
                assert(kept(dl, pred)[j] == x);
                assert(kept(dl, pred).contains(x));
                let i = choose|i: int| 0 <= i < dl.len() && dl[i] == x;
                assert(s[i] == x);
            }
        }
    }
}

/// In a document of top-level blocks with two depth-1 headings, the later
/// one decides the title.
pub proof fn lemma_last_heading_wins(path: Seq<char>, a: Seq<char>, b: Seq<char>)
    ensures
        note_title_of(
            path,
            crate::md::MdTree::Other {
                children: seq![
                    crate::md::MdTree::Heading {
                        depth: 1,
                        children: seq![crate::md::MdTree::Text { value: a }],
                    },
                    crate::md::MdTree::Heading {
                        depth: 1,
                        children: seq![crate::md::MdTree::Text { value: b }],
                    },
                ],
            },
        ) == b,
{
    let ta = crate::md::MdTree::Heading {
        depth: 1,
        children: seq![crate::md::MdTree::Text { value: a }],
    };
    let tb = crate::md::MdTree::Heading {
        depth: 1,
        children: seq![crate::md::MdTree::Text { value: b }],
    };
    let kids = seq![ta, tb];
    assert(last_h1_seq(ta->Heading_children, 1) is None);
    assert(last_h1(ta->Heading_children[0]) is None);
    assert(last_h1_seq(ta->Heading_children, 0) is None);
    assert(last_h1_seq(tb->Heading_children, 1) is None);
    assert(last_h1(tb->Heading_children[0]) is None);
    assert(last_h1_seq(tb->Heading_children, 0) is None);
    assert(last_h1(ta) == Some(a));
    assert(last_h1(tb) == Some(b));
    assert(last_h1_seq(kids, 2) is None);
    assert(last_h1_seq(kids, 1) == Some(b));
    assert(last_h1_seq(kids, 0) == Some(b));
}

/// Sorted sequences of the same candidates are the same sequence: what
/// `notes` may return for a fixed filter state is unique, so two calls
/// over identical inputs agree.
pub proof fn lemma_notes_deterministic(base: Seq<Seq<char>>, r1: Seq<Seq<char>>, r2: Seq<Seq<char>>)
    requires
        vstd::relations::sorted_by(r1, lex_leq_rel()),
        vstd::relations::sorted_by(r2, lex_leq_rel()),
        r1.to_multiset() == base.to_multiset(),
        r2.to_multiset() == base.to_multiset(),
    ensures
        r1 == r2,
{
    crate::text::lemma_lex_leq_total_ordering();
    vstd::seq_lib::lemma_sorted_unique(r1, r2, lex_leq_rel());
}

} // verus!
