//! The API client and the snapshot builder.
//!
//! A client is constructed once per invocation from raw configuration
//! strings: repository references are parsed, project references are
//! parsed and any project whose `(owner, repo)` coincides with a
//! configured repository is dropped, so repositories and their own boards
//! are not double-counted.  The client then resolves board numbers to
//! platform identifiers, aggregates issues per repository, drills down
//! into boards, and merges everything into one timestamped snapshot.
//!
//! The network is modelled as data handed in: each method that the
//! platform would answer takes the pages it would have served, and its
//! contract states the result for every possible answer.

use vstd::prelude::*;
use vstd::pervasive::unreached;
use vstd::string::StringExecFns;

use crate::boards::{
    resolve_board_id, scan_consumed, scan_pages, Board, BoardData, BoardDataView, Column,
    ColumnView,
};
use crate::error::Error;
use crate::issues::{Issue, IssueView};
use crate::paging::{
    fetch_all_pages, fetched_items, lemma_fetched_deep, pages_consumed, pages_deep, pages_views,
    PageSource, PER_PAGE,
};
use crate::refs::{
    parse_project_ref, parse_repo_ref, project_number_fits, spec_parse_project, spec_parse_repo,
    valid_repo_ref, Project, ProjectView, Repo, RepoView,
};

verus! {

pub ghost struct GitHubView {
    pub token: Seq<char>,
    pub repos: Seq<RepoView>,
    pub projects: Seq<ProjectView>,
    pub time: int,
}

/// The API client: the bearer-token header value, the configured
/// references, and the observation instant stamped at construction.
#[derive(Debug)]
pub struct GitHub {
    pub token: String,
    pub repos: Vec<Repo>,
    pub projects: Vec<Project>,
    pub time: i64,
}

impl View for GitHub {
    type V = GitHubView;

    open spec fn view(&self) -> GitHubView {
        GitHubView {
            token: self.token@,
            repos: self.repos.deep_view(),
            projects: self.projects.deep_view(),
            time: self.time as int,
        }
    }
}

pub ghost struct RepoIssuesView {
    pub repo: RepoView,
    pub issues: Seq<IssueView>,
}

/// All issues of one configured repository.
#[derive(Debug, PartialEq, Eq)]
pub struct RepoIssues {
    pub repo: Repo,
    pub issues: Vec<Issue>,
}

impl View for RepoIssues {
    type V = RepoIssuesView;

    open spec fn view(&self) -> RepoIssuesView {
        RepoIssuesView { repo: self.repo@, issues: self.issues.deep_view() }
    }
}

impl DeepView for RepoIssues {
    type V = RepoIssuesView;

    open spec fn deep_view(&self) -> RepoIssuesView {
        self@
    }
}

pub ghost struct ProjectIssuesView {
    pub project: ProjectView,
    pub columns: Seq<ColumnView>,
}

/// The board state of one configured project.
#[derive(Debug, PartialEq, Eq)]
pub struct ProjectIssues {
    pub project: Project,
    pub columns: Vec<Column>,
}

impl View for ProjectIssues {
    type V = ProjectIssuesView;

    open spec fn view(&self) -> ProjectIssuesView {
        ProjectIssuesView { project: self.project@, columns: self.columns.deep_view() }
    }
}

impl DeepView for ProjectIssues {
    type V = ProjectIssuesView;

    open spec fn deep_view(&self) -> ProjectIssuesView {
        self@
    }
}

pub ghost struct SnapshotView {
    pub time: int,
    pub repo_issues: Seq<RepoIssuesView>,
    pub project_issues: Seq<ProjectIssuesView>,
}

/// One immutable, timestamped aggregation of issue and board state,
/// produced once per invocation and never persisted.
#[derive(Debug, PartialEq, Eq)]
pub struct Snapshot {
    pub time: i64,
    pub repo_issues: Vec<RepoIssues>,
    pub project_issues: Vec<ProjectIssues>,
}

impl View for Snapshot {
    type V = SnapshotView;

    open spec fn view(&self) -> SnapshotView {
        SnapshotView {
            time: self.time as int,
            repo_issues: self.repo_issues.deep_view(),
            project_issues: self.project_issues.deep_view(),
        }
    }
}

/// Relies on std's `SystemTime::now`: the current instant, converted to
/// whole seconds since the Unix epoch.  Nothing is assumed of the value;
/// the clock may answer anything.  The conversion is total: a clock set
/// before the epoch reads as zero, one beyond the 64-bit second range as
/// the largest representable instant.
#[verifier::external_body]
fn now_timestamp() -> i64 {
    match std::time::SystemTime::now().duration_since(std::time::UNIX_EPOCH) {
        Ok(since) => i64::try_from(since.as_secs()).unwrap_or(i64::MAX),
        Err(_) => 0,
    }
}

pub open spec fn spec_parse_repos(ss: Seq<Seq<char>>) -> Seq<RepoView> {
    ss.map(|i: int, s: Seq<char>| spec_parse_repo(s))
}

pub open spec fn spec_parse_projects(ss: Seq<Seq<char>>) -> Seq<ProjectView> {
    ss.map(|i: int, s: Seq<char>| spec_parse_project(s))
}

pub open spec fn repos_contain(repos: Seq<RepoView>, owner: Seq<char>, name: Seq<char>) -> bool {
    exists|i: int| 0 <= i < repos.len() && repos[i] == (RepoView { owner, repo: name })
}

/// The projects kept for processing: those whose `(owner, repo)` does not
/// coincide with a configured repository, in their original order.
pub open spec fn spec_retained_projects(repos: Seq<RepoView>, ps: Seq<ProjectView>) -> Seq<
    ProjectView,
>
    decreases ps.len(),
{
    if ps.len() == 0 {
        Seq::empty()
    } else {
        let init = spec_retained_projects(repos, ps.drop_last());
        let p = ps.last();
        if repos_contain(repos, p.owner, p.repo) {
            init
        } else {
            init.push(p)
        }
    }
}

/// Whether the repository list holds exactly this `(owner, name)` pair.
fn contains_repo(rs: &Vec<Repo>, owner: &String, name: &String) -> (b: bool)
    ensures
        b == repos_contain(rs.deep_view(), owner@, name@),
{
    let mut k: usize = 0;
    while k < rs.len()
        invariant
            k <= rs@.len(),
            forall|t: int|
                0 <= t < k ==> rs.deep_view()[t] != (RepoView { owner: owner@, repo: name@ }),
        decreases rs@.len() - k,
    {
        if rs[k].owner == *owner && rs[k].repo == *name {
            proof {
                assert(rs.deep_view()[k as int] == (RepoView { owner: owner@, repo: name@ }));
            }
            return true;
        }
        k = k + 1;
    }
    false
}

impl GitHub {
    /// Construct the client: parse every reference, drop the projects
    /// that duplicate a configured repository, build the authorization
    /// header value, and stamp the observation time.
    pub fn new(token: String, repos: Vec<String>, projects: Vec<String>) -> (c: GitHub)
        requires
            forall|i: int| 0 <= i < repos@.len() ==> valid_repo_ref((#[trigger] repos@[i])@),
            forall|i: int|
                0 <= i < projects@.len() ==> project_number_fits((#[trigger] projects@[i])@),
        ensures
            c.token@ == "token "@ + token@,
            c.repos.deep_view() == spec_parse_repos(repos.deep_view()),
            c.projects.deep_view() == spec_retained_projects(
                spec_parse_repos(repos.deep_view()),
                spec_parse_projects(projects.deep_view()),
            ),
    {
        let mut auth = "token ".to_owned();
        auth.append(token.as_str());
        let mut rs: Vec<Repo> = Vec::new();
        let mut i: usize = 0;
        while i < repos.len()
            invariant
                i <= repos@.len(),
                forall|t: int| 0 <= t < repos@.len() ==> valid_repo_ref((#[trigger] repos@[t])@),
                rs.deep_view() == spec_parse_repos(repos.deep_view()).subrange(0, i as int),
            decreases repos@.len() - i,
        {
            let parsed = parse_repo_ref(repos[i].as_str());
            let repo = match parsed {
                Ok(r) => r,
                Err(_) => unreached(),
            };
            let ghost deep0 = rs.deep_view();
            rs.push(repo);
            proof {
                let target = spec_parse_repos(repos.deep_view()).subrange(0, i as int + 1);
                assert(deep0.len() == i as int);
                assert(rs@.len() == i as int + 1);
                assert(rs.deep_view().len() == i as int + 1);
                assert forall|t: int| 0 <= t < i as int + 1 implies rs.deep_view()[t]
                    == target[t] by {
                    assert(rs.deep_view()[t] == rs@[t].deep_view());
                    assert(target[t] == spec_parse_repo(repos.deep_view()[t]));
                    if t < i as int {
                        assert(rs@[t].deep_view() == deep0[t]);
                    } else {
                        assert(rs@[t] == repo);
                        assert(repos.deep_view()[t] == repos@[t]@);
                    }
                }
                assert(rs.deep_view() =~= target);
            }
            i = i + 1;
        }
        proof {
            assert(spec_parse_repos(repos.deep_view()).subrange(
                0,
                repos@.len() as int,
            ) =~= spec_parse_repos(repos.deep_view()));
        }
        let mut ps: Vec<Project> = Vec::new();
        let ghost parsed_projects = spec_parse_projects(projects.deep_view());
        let mut j: usize = 0;
        while j < projects.len()
            invariant
                j <= projects@.len(),
                forall|t: int|
                    0 <= t < projects@.len() ==> project_number_fits((#[trigger] projects@[t])@),
                parsed_projects == spec_parse_projects(projects.deep_view()),
                rs.deep_view() == spec_parse_repos(repos.deep_view()),
                ps.deep_view() == spec_retained_projects(
                    rs.deep_view(),
                    parsed_projects.subrange(0, j as int),
                ),
            decreases projects@.len() - j,
        {
            let project = parse_project_ref(projects[j].as_str());
            let ghost sofar = parsed_projects.subrange(0, j as int);
            let ghost next = parsed_projects.subrange(0, j as int + 1);
            proof {
                assert(next.drop_last() =~= sofar);
                assert(next.last() == project@);
            }
            if !contains_repo(&rs, &project.owner, &project.repo) {
                ps.push(project);
                proof {
                    assert(ps.deep_view() =~= spec_retained_projects(rs.deep_view(), next));
                }
            } else {
                proof {
                    assert(ps.deep_view() =~= spec_retained_projects(rs.deep_view(), next));
                }
            }
            j = j + 1;
        }
        proof {
            assert(parsed_projects.subrange(0, projects@.len() as int) =~= parsed_projects);
        }
        GitHub { token: auth, repos: rs, projects: ps, time: now_timestamp() }
    }

    /// The retained projects, as an owned copy.
    pub fn get_projects(&self) -> (r: Vec<Project>)
        ensures
            r.deep_view() == self.projects.deep_view(),
    {
        let mut out: Vec<Project> = Vec::new();
        let mut k: usize = 0;
        while k < self.projects.len()
            invariant
                k <= self.projects@.len(),
                out.deep_view() == self.projects.deep_view().subrange(0, k as int),
            decreases self.projects@.len() - k,
        {
            let ghost deep0 = out.deep_view();
            out.push(self.projects[k].clone());
            proof {
                let target = self.projects.deep_view().subrange(0, k as int + 1);
                assert(deep0.len() == k as int);
                assert(out@.len() == k as int + 1);
                assert(out.deep_view().len() == k as int + 1);
                assert forall|t: int| 0 <= t < k as int + 1 implies out.deep_view()[t]
                    == target[t] by {
                    assert(out.deep_view()[t] == out@[t].deep_view());
                    if t < k as int {
                        assert(out@[t].deep_view() == deep0[t]);
                    } else {
                        assert(out@[t]@ == self.projects@[t]@);
                    }
                }
                assert(out.deep_view() =~= target);
            }
            k = k + 1;
        }
        proof {
            assert(self.projects.deep_view().subrange(
                0,
                self.projects@.len() as int,
            ) =~= self.projects.deep_view());
        }
        out
    }
}

// ---------------------------------------------------------------------
// Project resolution: board numbers to platform identifiers.
// ---------------------------------------------------------------------

/// The number-to-identifier mapping a batch of cache entries stands for.
pub open spec fn vec_cache_map(c: Seq<(i32, i64)>) -> Map<int, int>
    decreases c.len(),
{
    if c.len() == 0 {
        Map::empty()
    } else {
        vec_cache_map(c.drop_last()).insert(c.last().0 as int, c.last().1 as int)
    }
}

pub open spec fn unique_keys(c: Seq<(i32, i64)>) -> bool {
    forall|a: int, b: int| 0 <= a < b < c.len() ==> (#[trigger] c[a]).0 != (#[trigger] c[b]).0
}

proof fn lemma_cache_map_lookup(c: Seq<(i32, i64)>, number: i32)
    requires
        unique_keys(c),
    ensures
        vec_cache_map(c).dom().contains(number as int) <==> exists|k: int|
            0 <= k < c.len() && (#[trigger] c[k]).0 == number,
        forall|k: int|
            0 <= k < c.len() && (#[trigger] c[k]).0 == number ==> vec_cache_map(c)[number as int]
                == c[k].1 as int,
    decreases c.len(),
{
    if c.len() > 0 {
        let init = c.drop_last();
        assert(forall|k: int| 0 <= k < init.len() ==> init[k] == c[k]);
        lemma_cache_map_lookup(init, number);
        if c.last().0 == number {
            assert(c[c.len() - 1].0 == number);
        } else {
            assert(vec_cache_map(c).dom().contains(number as int) <==> vec_cache_map(
                init,
            ).dom().contains(number as int));
            if exists|k: int| 0 <= k < c.len() && (#[trigger] c[k]).0 == number {
                let k = choose|k: int| 0 <= k < c.len() && (#[trigger] c[k]).0 == number;
                assert(k < c.len() - 1);
                assert(init[k].0 == number);
            }
        }
    }
}

/// The pages each source would serve, aligned with the projects.
pub open spec fn board_pages(sources: Seq<PageSource<Board>>) -> Seq<Seq<Seq<Board>>> {
    sources.map(|i: int, s: PageSource<Board>| pages_views(s.spec_pages()))
}

/// The cache after the scan phase has handled the first `i` projects: an
/// already-resolved project is skipped; a number already in the cache is
/// not looked up again; otherwise the owning repository's board list is
/// scanned, and a scan that exhausts pagination fails the whole batch.
pub open spec fn cache_after(
    projects: Seq<ProjectView>,
    boards: Seq<Seq<Seq<Board>>>,
    size: int,
    i: int,
) -> Option<Map<int, int>>
    decreases i,
{
    if i <= 0 {
        Some(Map::empty())
    } else {
        match cache_after(projects, boards, size, i - 1) {
            None => None,
            Some(cache) => {
                let p = projects[i - 1];
                if p.id is Some {
                    Some(cache)
                } else if cache.dom().contains(p.number) {
                    Some(cache)
                } else {
                    match scan_pages(boards[i - 1], p.number, size) {
                        Some(id) => Some(cache.insert(p.number, id)),
                        None => None,
                    }
                }
            },
        }
    }
}

/// Whether the scan phase reaches project `i` and scans its board list:
/// the batch has not already failed before `i`, the project is
/// unresolved, and its number was not settled by an earlier project.
pub open spec fn scan_happens_at(
    projects: Seq<ProjectView>,
    boards: Seq<Seq<Seq<Board>>>,
    size: int,
    i: int,
) -> bool {
    match cache_after(projects, boards, size, i) {
        Some(cache) => projects[i].id is None && !cache.dom().contains(projects[i].number),
        None => false,
    }
}

/// A project after the assignment phase: an already-resolved one is kept,
/// any other takes its identifier from the cache.
pub open spec fn apply_cache(p: ProjectView, cache: Map<int, int>) -> ProjectView {
    if p.id is Some {
        p
    } else {
        ProjectView { owner: p.owner, repo: p.repo, number: p.number, id: Some(cache[p.number]) }
    }
}

/// What resolving a batch of projects yields: `None` when some scan
/// exhausted its board list without a match, otherwise every project with
/// its identifier set.
pub open spec fn spec_resolved_projects(
    projects: Seq<ProjectView>,
    boards: Seq<Seq<Seq<Board>>>,
    size: int,
) -> Option<Seq<ProjectView>> {
    match cache_after(projects, boards, size, projects.len() as int) {
        Some(m) => Some(Seq::new(projects.len(), |t: int| apply_cache(projects[t], m))),
        None => None,
    }
}

/// A batch whose one unresolved project has a board list that nowhere
/// carries its number resolves to nothing: the scan exhausts pagination
/// without a match, which is terminal for the whole operation.
pub proof fn lemma_resolution_not_found(p: ProjectView, pages: Seq<Seq<Board>>, size: int)
    requires
        p.id is None,
        forall|i: int, j: int|
            0 <= i < pages.len() && 0 <= j < pages[i].len() ==> (#[trigger] pages[i][j]).number
                as int != p.number,
    ensures
        spec_resolved_projects(seq![p], seq![pages], size) is None,
{
    crate::boards::lemma_scan_unmatched(pages, p.number, size);
    assert(cache_after(seq![p], seq![pages], size, 0) == Some(Map::<int, int>::empty()));
    assert(seq![p][0] == p);
    assert(seq![pages][0] == pages);
    assert(cache_after(seq![p], seq![pages], size, 1) is None);
}

proof fn lemma_cache_monotone(
    projects: Seq<ProjectView>,
    boards: Seq<Seq<Seq<Board>>>,
    size: int,
    i: int,
    j: int,
)
    requires
        0 <= i <= j,
        cache_after(projects, boards, size, j) is Some,
    ensures
        cache_after(projects, boards, size, i) is Some,
        forall|k: int|
            cache_after(projects, boards, size, i)->0.dom().contains(k)
                ==> #[trigger] cache_after(projects, boards, size, j)->0.dom().contains(k)
                && cache_after(projects, boards, size, j)->0[k] == cache_after(
                projects,
                boards,
                size,
                i,
            )->0[k],
    decreases j - i,
{
    if i < j {
        assert(cache_after(projects, boards, size, j - 1) is Some);
        lemma_cache_monotone(projects, boards, size, i, j - 1);
        let mi = cache_after(projects, boards, size, i)->0;
        let mprev = cache_after(projects, boards, size, j - 1)->0;
        let mj = cache_after(projects, boards, size, j)->0;
        assert forall|k: int| mi.dom().contains(k) implies mj.dom().contains(k) && mj[k]
            == mi[k] by {
            assert(mprev.dom().contains(k) && mprev[k] == mi[k]);
        }
    }
}

proof fn lemma_final_cache_covers(
    projects: Seq<ProjectView>,
    boards: Seq<Seq<Seq<Board>>>,
    size: int,
    n: int,
    t: int,
)
    requires
        0 <= t < n,
        cache_after(projects, boards, size, n) is Some,
        projects[t].id is None,
    ensures
        cache_after(projects, boards, size, n)->0.dom().contains(projects[t].number),
{
    lemma_cache_monotone(projects, boards, size, t + 1, n);
    assert(cache_after(projects, boards, size, t + 1)->0.dom().contains(projects[t].number));
}

/// The cached identifier for a board number, if the batch has one.
fn cache_lookup(cache: &Vec<(i32, i64)>, number: i32) -> (r: Option<i64>)
    requires
        unique_keys(cache@),
    ensures
        r matches Some(id) ==> vec_cache_map(cache@).dom().contains(number as int)
            && vec_cache_map(cache@)[number as int] == id as int,
        r is None ==> !vec_cache_map(cache@).dom().contains(number as int),
{
    proof {
        lemma_cache_map_lookup(cache@, number);
    }
    let mut k: usize = 0;
    while k < cache.len()
        invariant
            k <= cache@.len(),
            unique_keys(cache@),
            forall|t: int| 0 <= t < k ==> (#[trigger] cache@[t]).0 != number,
            vec_cache_map(cache@).dom().contains(number as int) <==> exists|t: int|
                0 <= t < cache@.len() && (#[trigger] cache@[t]).0 == number,
            forall|t: int|
                0 <= t < cache@.len() && (#[trigger] cache@[t]).0 == number ==> vec_cache_map(
                    cache@,
                )[number as int] == cache@[t].1 as int,
        decreases cache@.len() - k,
    {
        let entry = cache[k];
        if entry.0 == number {
            return Some(entry.1);
        }
        k = k + 1;
    }
    None
}

impl GitHub {
    /// Resolve every project's board number to its platform identifier by
    /// scanning the owning repository's board list, one source per
    /// configured project, caching resolved numbers across the batch.
    /// Any scan that exhausts its list without a match fails the whole
    /// operation with `ProjectNotFound` and leaves the client unchanged.
    /// Exactly the scans the cache calls for are issued: a source whose
    /// project is already resolved, or whose number an earlier project
    /// settled, is never requested from, and a scanned source answers
    /// exactly [`scan_consumed`] requests, stopping at the match.
    pub fn get_projects_id(&mut self, sources: &mut Vec<PageSource<Board>>) -> (r: Result<
        (),
        Error,
    >)
        requires
            old(sources)@.len() == old(self).projects@.len(),
            forall|i: int|
                0 <= i < old(sources)@.len() ==> (#[trigger] old(sources)@[i]).spec_served()
                    + old(sources)@[i].spec_pages().len() < usize::MAX,
        ensures
            final(self).token == old(self).token,
            final(self).repos == old(self).repos,
            final(self).time == old(self).time,
            r is Ok <==> spec_resolved_projects(
                old(self).projects.deep_view(),
                board_pages(old(sources)@),
                PER_PAGE as int,
            ) is Some,
            r is Ok ==> Some(final(self).projects.deep_view()) == spec_resolved_projects(
                old(self).projects.deep_view(),
                board_pages(old(sources)@),
                PER_PAGE as int,
            ),
            r matches Err(e) ==> e matches Error::ProjectNotFound && final(self).projects == old(
                self,
            ).projects,
            final(sources)@.len() == old(sources)@.len(),
            forall|k: int|
                0 <= k < old(sources)@.len() && scan_happens_at(
                    old(self).projects.deep_view(),
                    board_pages(old(sources)@),
                    PER_PAGE as int,
                    k,
                ) ==> (#[trigger] final(sources)@[k]).spec_served() == old(
                    sources,
                )@[k].spec_served() + scan_consumed(
                    pages_views(old(sources)@[k].spec_pages()),
                    old(self).projects.deep_view()[k].number,
                    PER_PAGE as int,
                ),
            forall|k: int|
                0 <= k < old(sources)@.len() && !scan_happens_at(
                    old(self).projects.deep_view(),
                    board_pages(old(sources)@),
                    PER_PAGE as int,
                    k,
                ) ==> #[trigger] final(sources)@[k] == old(sources)@[k],
    {
        let ghost pdeep = self.projects.deep_view();
        let ghost bpages = board_pages(old(sources)@);
        let n = self.projects.len();
        let mut cache: Vec<(i32, i64)> = Vec::new();
        let mut i: usize = 0;
        while i < n
            invariant
                *self == *old(self),
                pdeep == old(self).projects.deep_view(),
                bpages == board_pages(old(sources)@),
                n == self.projects@.len(),
                old(sources)@.len() == n,
                sources@.len() == n,
                i <= n,
                forall|k: int|
                    0 <= k < old(sources)@.len() ==> (#[trigger] old(
                        sources,
                    )@[k]).spec_served() + old(sources)@[k].spec_pages().len() < usize::MAX,
                forall|k: int| i <= k < n ==> #[trigger] sources@[k] == old(sources)@[k],
                forall|k: int|
                    0 <= k < i && scan_happens_at(pdeep, bpages, PER_PAGE as int, k) ==> (
                    #[trigger] sources@[k]).spec_served() == old(sources)@[k].spec_served()
                        + scan_consumed(
                        pages_views(old(sources)@[k].spec_pages()),
                        pdeep[k].number,
                        PER_PAGE as int,
                    ),
                forall|k: int|
                    0 <= k < i && !scan_happens_at(pdeep, bpages, PER_PAGE as int, k)
                        ==> #[trigger] sources@[k] == old(sources)@[k],
                unique_keys(cache@),
                cache_after(pdeep, bpages, PER_PAGE as int, i as int) == Some(
                    vec_cache_map(cache@),
                ),
            decreases n - i,
        {
            let number = self.projects[i].number;
            let ghost cache0 = cache@;
            let ghost sources0 = sources@;
            proof {
                assert(pdeep[i as int] == self.projects@[i as int]@);
                assert(bpages[i as int] == pages_views(old(sources)@[i as int].spec_pages()));
            }
            if self.projects[i].id.is_none() {
                let hit = cache_lookup(&cache, number);
                if hit.is_none() {
                    proof {
                        assert(scan_happens_at(pdeep, bpages, PER_PAGE as int, i as int));
                        assert(sources0[i as int] == old(sources)@[i as int]);
                    }
                    let mut src = sources.remove(i);
                    let scan = resolve_board_id(number, &mut src, PER_PAGE);
                    sources.insert(i, src);
                    proof {
                        assert(sources@ =~= sources0.update(i as int, src));
                    }
                    match scan {
                        Ok(id) => {
                            cache.push((number, id));
                            proof {
                                assert(forall|t: int|
                                    0 <= t < cache0.len() ==> cache@[t] == cache0[t]);
                                lemma_cache_map_lookup(cache0, number);
                                assert(unique_keys(cache@));
                                assert(cache@.drop_last() =~= cache0);
                                assert(vec_cache_map(cache@) == vec_cache_map(cache0).insert(
                                    number as int,
                                    id as int,
                                ));
                            }
                        },
                        Err(e) => {
                            proof {
                                assert(cache_after(pdeep, bpages, PER_PAGE as int, i as int + 1)
                                    is None);
                                assert forall|k: int| (i as int) < k implies (cache_after(
                                    pdeep,
                                    bpages,
                                    PER_PAGE as int,
                                    k,
                                ) is None) by {
                                    if cache_after(pdeep, bpages, PER_PAGE as int, k) is Some {
                                        lemma_cache_monotone(
                                            pdeep,
                                            bpages,
                                            PER_PAGE as int,
                                            i as int + 1,
                                            k,
                                        );
                                    }
                                }
                            }
                            return Err(e);
                        },
                    }
                } else {
                    proof {
                        assert(!scan_happens_at(pdeep, bpages, PER_PAGE as int, i as int));
                    }
                }
            } else {
                proof {
                    assert(!scan_happens_at(pdeep, bpages, PER_PAGE as int, i as int));
                }
            }
            i = i + 1;
        }
        let ghost m = vec_cache_map(cache@);
        proof {
            assert(cache_after(pdeep, bpages, PER_PAGE as int, n as int) == Some(m));
        }
        let mut newps: Vec<Project> = Vec::new();
        let mut t: usize = 0;
        while t < n
            invariant
                *self == *old(self),
                pdeep == old(self).projects.deep_view(),
                n == self.projects@.len(),
                t <= n,
                unique_keys(cache@),
                m == vec_cache_map(cache@),
                cache_after(pdeep, bpages, PER_PAGE as int, n as int) == Some(m),
                newps@.len() == t,
                forall|k: int|
                    0 <= k < t ==> newps.deep_view()[k] == apply_cache(pdeep[k], m),
            decreases n - t,
        {
            proof {
                assert(pdeep[t as int] == self.projects@[t as int]@);
                if self.projects@[t as int].id.is_none() {
                    lemma_final_cache_covers(pdeep, bpages, PER_PAGE as int, n as int, t as int);
                }
            }
            let q: Project = if self.projects[t].id.is_some() {
                self.projects[t].clone()
            } else {
                match cache_lookup(&cache, self.projects[t].number) {
                    Some(id) => Project {
                        owner: self.projects[t].owner.clone(),
                        repo: self.projects[t].repo.clone(),
                        number: self.projects[t].number,
                        id: Some(id),
                    },
                    None => unreached(),
                }
            };
            let ghost deep0 = newps.deep_view();
            newps.push(q);
            proof {
                assert(q@ == apply_cache(pdeep[t as int], m));
                assert(deep0.len() == t as int);
                assert(newps@.len() == t as int + 1);
                assert(newps.deep_view().len() == t as int + 1);
                assert forall|k: int| 0 <= k < t as int + 1 implies newps.deep_view()[k]
                    == apply_cache(pdeep[k], m) by {
                    assert(newps.deep_view()[k] == newps@[k].deep_view());
                    if k < t as int {
                        assert(newps@[k].deep_view() == deep0[k]);
                        assert(deep0[k] == apply_cache(pdeep[k], m));
                    } else {
                        assert(newps@[k] == q);
                    }
                }
            }
            t = t + 1;
        }
        self.projects = newps;
        proof {
            let target = Seq::new(pdeep.len(), |k: int| apply_cache(pdeep[k], m));
            assert(self.projects.deep_view() =~= target);
        }
        Ok(())
    }
}

// ---------------------------------------------------------------------
// Aggregation and the snapshot builder.
// ---------------------------------------------------------------------

/// An issue with its repository coordinates back-filled.
pub open spec fn with_repo(iss: IssueView, repo: RepoView) -> IssueView {
    IssueView {
        number: iss.number,
        title: iss.title,
        assignee: iss.assignee,
        owner: repo.owner,
        repo: repo.repo,
        pull_request: iss.pull_request,
        created_at: iss.created_at,
        author_association: iss.author_association,
        labels: iss.labels,
    }
}

/// What aggregating one repository yields: every fetched issue, in fetch
/// order, with the repository's coordinates back-filled.
pub open spec fn spec_repo_issues(repo: RepoView, pages: Seq<Seq<IssueView>>, size: int) -> RepoIssuesView {
    RepoIssuesView {
        repo,
        issues: fetched_items(pages, size).map(|k: int, iss: IssueView| with_repo(iss, repo)),
    }
}

/// The issue pages each source would serve, aligned with the repositories.
pub open spec fn issue_pages_of(sources: Seq<PageSource<Issue>>) -> Seq<Seq<Seq<IssueView>>> {
    sources.map(|i: int, s: PageSource<Issue>| pages_deep(s.spec_pages()))
}

pub open spec fn spec_all_repo_issues(
    repos: Seq<RepoView>,
    pages: Seq<Seq<Seq<IssueView>>>,
    size: int,
) -> Seq<RepoIssuesView> {
    Seq::new(repos.len(), |i: int| spec_repo_issues(repos[i], pages[i], size))
}

/// What one board's drill-down yields: the column list in order, each
/// column carrying the cards its paginated fetch returns.
pub open spec fn spec_columns(board: BoardDataView, size: int) -> Seq<ColumnView> {
    Seq::new(
        board.columns.len(),
        |i: int|
            ColumnView {
                id: board.columns[i].id,
                name: board.columns[i].name,
                cards: fetched_items(board.card_pages[i], size),
            },
    )
}

pub open spec fn boards_view(boards: Seq<BoardData>) -> Seq<BoardDataView> {
    boards.map(|i: int, b: BoardData| b@)
}

pub open spec fn all_projects_resolved(projects: Seq<ProjectView>) -> bool {
    forall|j: int| 0 <= j < projects.len() ==> (#[trigger] projects[j]).id is Some
}

pub open spec fn spec_all_project_issues(
    projects: Seq<ProjectView>,
    boards: Seq<BoardDataView>,
    size: int,
) -> Seq<ProjectIssuesView> {
    Seq::new(
        projects.len(),
        |j: int|
            ProjectIssuesView { project: projects[j], columns: spec_columns(boards[j], size) },
    )
}

pub ghost struct UpstreamView {
    pub issue_pages: Seq<Seq<Seq<IssueView>>>,
    pub boards: Seq<BoardDataView>,
}

/// Everything the platform would serve for one snapshot build: per
/// configured repository its issue pages, per configured project its
/// column list and card pages, aligned by configuration order.
pub struct Upstream {
    pub issues: Vec<PageSource<Issue>>,
    pub boards: Vec<BoardData>,
}

impl View for Upstream {
    type V = UpstreamView;

    open spec fn view(&self) -> UpstreamView {
        UpstreamView {
            issue_pages: issue_pages_of(self.issues@),
            boards: boards_view(self.boards@),
        }
    }
}

impl Upstream {
    /// Every source fresh: nothing served yet.
    pub open spec fn wf(&self) -> bool {
        &&& forall|i: int|
            0 <= i < self.issues@.len() ==> (#[trigger] self.issues@[i]).is_fresh()
                && self.issues@[i].spec_pages().len() < usize::MAX
        &&& forall|j: int| 0 <= j < self.boards@.len() ==> (#[trigger] self.boards@[j]).wf()
    }
}

/// What one snapshot build yields: `None` when some project's identifier
/// was never resolved, otherwise the client's observation time, the
/// aggregated issues of every repository, and the drilled-down state of
/// every board, all in configuration order.
pub open spec fn spec_snapshot(client: GitHubView, up: UpstreamView, size: int) -> Option<
    SnapshotView,
> {
    if all_projects_resolved(client.projects) {
        Some(
            SnapshotView {
                time: client.time,
                repo_issues: spec_all_repo_issues(client.repos, up.issue_pages, size),
                project_issues: spec_all_project_issues(client.projects, up.boards, size),
            },
        )
    } else {
        None
    }
}

/// Building the snapshot twice with no intervening upstream change yields
/// snapshots equal except for the `time` field: the result is a function
/// of the configured references and of what the platform serves, and the
/// observation time touches nothing else.
pub proof fn lemma_snapshot_idempotent(
    c1: GitHubView,
    c2: GitHubView,
    u1: UpstreamView,
    u2: UpstreamView,
    size: int,
)
    requires
        c1.repos == c2.repos,
        c1.projects == c2.projects,
        u1 == u2,
    ensures
        (spec_snapshot(c1, u1, size) is Some) == (spec_snapshot(c2, u2, size) is Some),
        spec_snapshot(c1, u1, size) matches Some(s1) ==> (spec_snapshot(c2, u2, size) matches Some(
            s2,
        ) && s1.repo_issues == s2.repo_issues && s1.project_issues == s2.project_issues && s1.time
            == c1.time && s2.time == c2.time),
{
}

impl GitHub {
    /// Fetch every page of one repository's issue list and back-fill the
    /// repository coordinates on each issue.
    pub fn get_opened_issues_by_repo(&self, repo: &Repo, src: &mut PageSource<Issue>) -> (r:
        RepoIssues)
        requires
            old(src).spec_served() + old(src).spec_pages().len() < usize::MAX,
        ensures
            r@ == spec_repo_issues(repo@, pages_deep(old(src).spec_pages()), PER_PAGE as int),
            final(src).spec_served() == old(src).spec_served() + pages_consumed(
                pages_views(old(src).spec_pages()),
                PER_PAGE as int,
            ),
    {
        let all = fetch_all_pages(src, PER_PAGE);
        let ghost fetched_raw = fetched_items(
            pages_views(old(src).spec_pages()),
            PER_PAGE as int,
        );
        let mut rest = all;
        let mut out: Vec<Issue> = Vec::new();
        while rest.len() > 0
            invariant
                fetched_raw == fetched_items(
                    pages_views(old(src).spec_pages()),
                    PER_PAGE as int,
                ),
                rest@.len() <= fetched_raw.len(),
                rest@ == fetched_raw.subrange(
                    fetched_raw.len() - rest@.len(),
                    fetched_raw.len() as int,
                ),
                out@.len() == fetched_raw.len() - rest@.len(),
                forall|k: int|
                    0 <= k < out@.len() ==> out.deep_view()[k] == with_repo(
                        (#[trigger] fetched_raw[k])@,
                        repo@,
                    ),
            decreases rest@.len(),
        {
            let ghost done = fetched_raw.len() - rest@.len();
            let mut iss = rest.remove(0);
            proof {
                assert(iss == fetched_raw[done]);
                assert(rest@ =~= fetched_raw.subrange(
                    fetched_raw.len() - rest@.len(),
                    fetched_raw.len() as int,
                ));
            }
            iss.owner = repo.owner.clone();
            iss.repo = repo.repo.clone();
            proof {
                assert(iss@ == with_repo(fetched_raw[done]@, repo@));
            }
            let ghost deep0 = out.deep_view();
            out.push(iss);
            proof {
                assert(deep0.len() == done);
                assert(out@.len() == done + 1);
                assert(out.deep_view().len() == done + 1);
                assert forall|k: int| 0 <= k < done + 1 implies out.deep_view()[k] == with_repo(
                    (#[trigger] fetched_raw[k])@,
                    repo@,
                ) by {
                    assert(out.deep_view()[k] == out@[k].deep_view());
                    if k < done {
                        assert(out@[k].deep_view() == deep0[k]);
                    } else {
                        assert(out@[k] == iss);
                    }
                }
            }
        }
        let result = RepoIssues { repo: repo.clone(), issues: out };
        proof {
            lemma_fetched_deep(old(src).spec_pages(), PER_PAGE as int);
            let fetched_deep = fetched_items(
                pages_deep(old(src).spec_pages()),
                PER_PAGE as int,
            );
            let spec_issues = spec_repo_issues(
                repo@,
                pages_deep(old(src).spec_pages()),
                PER_PAGE as int,
            ).issues;
            assert(spec_issues.len() == fetched_deep.len());
            assert(result.issues.deep_view().len() == spec_issues.len());
            assert forall|k: int| 0 <= k < spec_issues.len() implies result.issues.deep_view()[k]
                == spec_issues[k] by {
                assert(spec_issues[k] == with_repo(fetched_deep[k], repo@));
                assert(fetched_deep[k] == fetched_raw[k].deep_view());
            }
            assert(result.issues.deep_view() =~= spec_issues);
        }
        result
    }

    /// Aggregate the issues of every configured repository, in
    /// configuration order, one issue source per repository.  Each source
    /// answers exactly [`pages_consumed`] requests.
    pub fn get_opened_issues(&self, sources: &mut Vec<PageSource<Issue>>) -> (r: Vec<RepoIssues>)
        requires
            old(sources)@.len() == self.repos@.len(),
            forall|i: int|
                0 <= i < old(sources)@.len() ==> (#[trigger] old(sources)@[i]).spec_served()
                    + old(sources)@[i].spec_pages().len() < usize::MAX,
        ensures
            r.deep_view() == spec_all_repo_issues(
                self.repos.deep_view(),
                issue_pages_of(old(sources)@),
                PER_PAGE as int,
            ),
            final(sources)@.len() == old(sources)@.len(),
            forall|i: int|
                0 <= i < old(sources)@.len() ==> (#[trigger] final(sources)@[i]).spec_served()
                    == old(sources)@[i].spec_served() + pages_consumed(
                    pages_views(old(sources)@[i].spec_pages()),
                    PER_PAGE as int,
                ),
    {
        let n = self.repos.len();
        let mut out: Vec<RepoIssues> = Vec::new();
        let mut i: usize = 0;
        while i < n
            invariant
                n == self.repos@.len(),
                old(sources)@.len() == n,
                sources@.len() == n,
                i <= n,
                forall|k: int|
                    0 <= k < old(sources)@.len() ==> (#[trigger] old(
                        sources,
                    )@[k]).spec_served() + old(sources)@[k].spec_pages().len() < usize::MAX,
                forall|k: int| i <= k < n ==> #[trigger] sources@[k] == old(sources)@[k],
                forall|k: int|
                    0 <= k < i ==> (#[trigger] sources@[k]).spec_served() == old(
                        sources,
                    )@[k].spec_served() + pages_consumed(
                        pages_views(old(sources)@[k].spec_pages()),
                        PER_PAGE as int,
                    ),
                out@.len() == i,
                forall|k: int|
                    0 <= k < i ==> out.deep_view()[k] == spec_all_repo_issues(
                        self.repos.deep_view(),
                        issue_pages_of(old(sources)@),
                        PER_PAGE as int,
                    )[k],
            decreases n - i,
        {
            let ghost sources0 = sources@;
            proof {
                assert(sources0[i as int] == old(sources)@[i as int]);
            }
            let mut src = sources.remove(i);
            let ri = self.get_opened_issues_by_repo(&self.repos[i], &mut src);
            sources.insert(i, src);
            proof {
                assert(sources@ =~= sources0.update(i as int, src));
            }
            let ghost deep0 = out.deep_view();
            out.push(ri);
            proof {
                assert(self.repos.deep_view()[i as int] == self.repos@[i as int]@);
                assert(issue_pages_of(old(sources)@)[i as int] == pages_deep(
                    old(sources)@[i as int].spec_pages(),
                ));
                assert(deep0.len() == i as int);
                assert(out@.len() == i as int + 1);
                assert(out.deep_view().len() == i as int + 1);
                assert forall|k: int| 0 <= k < i as int + 1 implies out.deep_view()[k]
                    == spec_all_repo_issues(
                    self.repos.deep_view(),
                    issue_pages_of(old(sources)@),
                    PER_PAGE as int,
                )[k] by {
                    assert(out.deep_view()[k] == out@[k].deep_view());
                    if k < i as int {
                        assert(out@[k].deep_view() == deep0[k]);
                    } else {
                        assert(out@[k] == ri);
                    }
                }
            }
            i = i + 1;
        }
        proof {
            assert(out.deep_view() =~= spec_all_repo_issues(
                self.repos.deep_view(),
                issue_pages_of(old(sources)@),
                PER_PAGE as int,
            ));
        }
        out
    }

    /// Drill one resolved board down into its columns and, per column, the
    /// paginated list of its cards.  A project whose identifier was never
    /// resolved is an internal precondition violation, `MissingProjectId`.
    pub fn get_columns(&self, project: &Project, board: BoardData) -> (r: Result<Vec<Column>, Error>)
        requires
            board.wf(),
        ensures
            project.id is Some ==> (r matches Ok(cols) && cols.deep_view() == spec_columns(
                board@,
                PER_PAGE as int,
            )),
            project.id is None ==> (r matches Err(e) && e matches Error::MissingProjectId),
    {
        if project.id.is_none() {
            return Err(Error::MissingProjectId);
        }
        let ghost bview = board@;
        let ghost cols0 = board.columns@;
        let ghost cards0 = board.cards@;
        let BoardData { columns, cards } = board;
        let n = columns.len();
        let mut rest_cols = columns;
        let mut rest_cards = cards;
        let mut out: Vec<Column> = Vec::new();
        let mut i: usize = 0;
        while i < n
            invariant
                bview == board@,
                cols0 == board.columns@,
                cards0 == board.cards@,
                board.wf(),
                n == cols0.len(),
                i <= n,
                rest_cols@ == cols0.skip(i as int),
                rest_cards@ == cards0.skip(i as int),
                out@.len() == i,
                forall|k: int|
                    0 <= k < i ==> out.deep_view()[k] == spec_columns(bview, PER_PAGE as int)[k],
            decreases n - i,
        {
            proof {
                assert(cols0.skip(i as int)[0] == cols0[i as int]);
                assert(cols0.skip(i as int).skip(1) =~= cols0.skip(i as int + 1));
                assert(cards0.skip(i as int)[0] == cards0[i as int]);
                assert(cards0.skip(i as int).skip(1) =~= cards0.skip(i as int + 1));
            }
            let mut col = rest_cols.remove(0);
            let card_src = rest_cards.remove(0);
            let mut cs = card_src;
            let fetched = fetch_all_pages(&mut cs, PER_PAGE);
            col.cards = fetched;
            let ghost deep0 = out.deep_view();
            out.push(col);
            proof {
                assert(bview.columns[i as int] == cols0[i as int].deep_view());
                assert(bview.card_pages[i as int] == pages_views(cards0[i as int].spec_pages()));
                assert(deep0.len() == i as int);
                assert(out@.len() == i as int + 1);
                assert(out.deep_view().len() == i as int + 1);
                assert forall|k: int| 0 <= k < i as int + 1 implies out.deep_view()[k]
                    == spec_columns(bview, PER_PAGE as int)[k] by {
                    assert(out.deep_view()[k] == out@[k].deep_view());
                    if k < i as int {
                        assert(out@[k].deep_view() == deep0[k]);
                    } else {
                        assert(out@[k] == col);
                    }
                }
            }
            i = i + 1;
        }
        proof {
            assert(out.deep_view() =~= spec_columns(bview, PER_PAGE as int));
        }
        Ok(out)
    }

    /// Drill down every configured project, in configuration order.
    pub fn get_projects_snapshot(&self, boards: Vec<BoardData>) -> (r: Result<
        Vec<ProjectIssues>,
        Error,
    >)
        requires
            boards@.len() == self.projects@.len(),
            forall|j: int| 0 <= j < boards@.len() ==> (#[trigger] boards@[j]).wf(),
        ensures
            all_projects_resolved(self.projects.deep_view()) ==> (r matches Ok(pis)
                && pis.deep_view() == spec_all_project_issues(
                self.projects.deep_view(),
                boards_view(boards@),
                PER_PAGE as int,
            )),
            !all_projects_resolved(self.projects.deep_view()) ==> (r matches Err(e) && e matches
                Error::MissingProjectId),
    {
        let n = self.projects.len();
        let mut rest = boards;
        let mut out: Vec<ProjectIssues> = Vec::new();
        let mut j: usize = 0;
        while j < n
            invariant
                n == self.projects@.len(),
                boards@.len() == n,
                j <= n,
                rest@ == boards@.skip(j as int),
                forall|k: int| 0 <= k < boards@.len() ==> (#[trigger] boards@[k]).wf(),
                forall|k: int|
                    0 <= k < j ==> (#[trigger] self.projects.deep_view()[k]).id is Some,
                out@.len() == j,
                forall|k: int|
                    0 <= k < j ==> out.deep_view()[k] == spec_all_project_issues(
                        self.projects.deep_view(),
                        boards_view(boards@),
                        PER_PAGE as int,
                    )[k],
            decreases n - j,
        {
            proof {
                assert(boards@.skip(j as int)[0] == boards@[j as int]);
                assert(boards@.skip(j as int).skip(1) =~= boards@.skip(j as int + 1));
            }
            let board = rest.remove(0);
            match self.get_columns(&self.projects[j], board) {
                Ok(cols) => {
                    let pi = ProjectIssues { project: self.projects[j].clone(), columns: cols };
                    let ghost deep0 = out.deep_view();
                    out.push(pi);
                    proof {
                        assert(self.projects.deep_view()[j as int] == self.projects@[j as int]@);
                        assert(boards_view(boards@)[j as int] == boards@[j as int]@);
                        assert(deep0.len() == j as int);
                        assert(out@.len() == j as int + 1);
                        assert(out.deep_view().len() == j as int + 1);
                        assert forall|k: int| 0 <= k < j as int + 1 implies out.deep_view()[k]
                            == spec_all_project_issues(
                            self.projects.deep_view(),
                            boards_view(boards@),
                            PER_PAGE as int,
                        )[k] by {
                            assert(out.deep_view()[k] == out@[k].deep_view());
                            if k < j as int {
                                assert(out@[k].deep_view() == deep0[k]);
                            } else {
                                assert(out@[k] == pi);
                            }
                        }
                    }
                },
                Err(e) => {
                    proof {
                        assert(self.projects.deep_view()[j as int] == self.projects@[j as int]@);
                        assert(!all_projects_resolved(self.projects.deep_view()));
                    }
                    return Err(e);
                },
            }
            j = j + 1;
        }
        proof {
            assert(out.deep_view() =~= spec_all_project_issues(
                self.projects.deep_view(),
                boards_view(boards@),
                PER_PAGE as int,
            ));
        }
        Ok(out)
    }

    /// Build one snapshot: aggregate every repository's issues, drill down
    /// every project's board, and stamp the client's observation time.
    /// Any failure aborts the whole build; there is no partial snapshot.
    pub fn get_snapshot(&self, upstream: Upstream) -> (r: Result<Snapshot, Error>)
        requires
            upstream.wf(),
            upstream.issues@.len() == self.repos@.len(),
            upstream.boards@.len() == self.projects@.len(),
        ensures
            match r {
                Ok(s) => spec_snapshot(self@, upstream@, PER_PAGE as int) == Some(s@),
                Err(e) => spec_snapshot(self@, upstream@, PER_PAGE as int) is None && e matches
                    Error::MissingProjectId,
            },
    {
        let Upstream { issues, boards } = upstream;
        let mut issues = issues;
        let repo_issues = self.get_opened_issues(&mut issues);
        match self.get_projects_snapshot(boards) {
            Ok(project_issues) => {
                let snap = Snapshot { time: self.time, repo_issues, project_issues };
                proof {
                    if !all_projects_resolved(self.projects.deep_view()) {
                        assert(false);
                    }
                }
                Ok(snap)
            },
            Err(e) => {
                proof {
                    if all_projects_resolved(self.projects.deep_view()) {
                        assert(false);
                    }
                }
                Err(e)
            },
        }
    }
}

} // verus!
