//! Issues, comments, and the staleness/ownership filters.
//!
//! Issues come back from the platform without their repository coordinates;
//! the aggregator back-fills `owner`/`repo` after the fetch.  The filter
//! pipeline is a documented extension point: an issue needs attention when
//! it is older than the staleness window, unassigned, not a pull request,
//! and no project member has commented on it.

use vstd::prelude::*;

verus! {

/// How old an issue must be, in seconds, before it counts as stale.
pub const STALE_WINDOW_SECONDS: i64 = 259200;

pub ghost struct UserView {
    pub login: Seq<char>,
}

#[derive(Debug, PartialEq, Eq)]
pub struct User {
    pub login: String,
}

impl View for User {
    type V = UserView;

    open spec fn view(&self) -> UserView {
        UserView { login: self.login@ }
    }
}

impl DeepView for User {
    type V = UserView;

    open spec fn deep_view(&self) -> UserView {
        self@
    }
}

pub ghost struct PullView {
    pub html_url: Seq<char>,
}

#[derive(Debug, PartialEq, Eq)]
pub struct Pull {
    pub html_url: String,
}

impl View for Pull {
    type V = PullView;

    open spec fn view(&self) -> PullView {
        PullView { html_url: self.html_url@ }
    }
}

impl DeepView for Pull {
    type V = PullView;

    open spec fn deep_view(&self) -> PullView {
        self@
    }
}

pub ghost struct AssigneeView {
    pub id: int,
    pub login: Seq<char>,
}

#[derive(Debug, PartialEq, Eq)]
pub struct Assignee {
    pub id: i64,
    pub login: String,
}

impl View for Assignee {
    type V = AssigneeView;

    open spec fn view(&self) -> AssigneeView {
        AssigneeView { id: self.id as int, login: self.login@ }
    }
}

impl DeepView for Assignee {
    type V = AssigneeView;

    open spec fn deep_view(&self) -> AssigneeView {
        self@
    }
}

pub ghost struct LabelView {
    pub id: int,
    pub name: Seq<char>,
    pub description: Option<Seq<char>>,
}

#[derive(Debug, PartialEq, Eq)]
pub struct Label {
    pub id: i64,
    pub name: String,
    pub description: Option<String>,
}

impl View for Label {
    type V = LabelView;

    open spec fn view(&self) -> LabelView {
        LabelView {
            id: self.id as int,
            name: self.name@,
            description: self.description.deep_view(),
        }
    }
}

impl DeepView for Label {
    type V = LabelView;

    open spec fn deep_view(&self) -> LabelView {
        self@
    }
}

pub ghost struct IssueView {
    pub number: int,
    pub title: Seq<char>,
    pub assignee: Option<AssigneeView>,
    pub owner: Seq<char>,
    pub repo: Seq<char>,
    pub pull_request: Option<PullView>,
    pub created_at: int,
    pub author_association: Seq<char>,
    pub labels: Seq<LabelView>,
}

/// An open work item.  `owner` and `repo` are not part of the raw payload;
/// the aggregator back-fills them so an issue can be rendered on its own.
/// `created_at` is the creation instant as seconds since the Unix epoch.
#[derive(Debug, PartialEq, Eq)]
pub struct Issue {
    pub number: i32,
    pub title: String,
    pub assignee: Option<Assignee>,
    pub owner: String,
    pub repo: String,
    pub pull_request: Option<Pull>,
    pub created_at: i64,
    pub author_association: String,
    pub labels: Vec<Label>,
}

impl View for Issue {
    type V = IssueView;

    open spec fn view(&self) -> IssueView {
        IssueView {
            number: self.number as int,
            title: self.title@,
            assignee: self.assignee.deep_view(),
            owner: self.owner@,
            repo: self.repo@,
            pull_request: self.pull_request.deep_view(),
            created_at: self.created_at as int,
            author_association: self.author_association@,
            labels: self.labels.deep_view(),
        }
    }
}

impl DeepView for Issue {
    type V = IssueView;

    open spec fn deep_view(&self) -> IssueView {
        self@
    }
}

pub ghost struct CommentView {
    pub html_url: Seq<char>,
    pub author_association: Seq<char>,
}

#[derive(Debug, PartialEq, Eq)]
pub struct Comment {
    pub html_url: String,
    pub author_association: String,
}

impl View for Comment {
    type V = CommentView;

    open spec fn view(&self) -> CommentView {
        CommentView { html_url: self.html_url@, author_association: self.author_association@ }
    }
}

impl DeepView for Comment {
    type V = CommentView;

    open spec fn deep_view(&self) -> CommentView {
        self@
    }
}

/// The decimal digit character for one digit value.
pub open spec fn digit_char_of(d: int) -> char {
    if d == 0 {
        '0'
    } else if d == 1 {
        '1'
    } else if d == 2 {
        '2'
    } else if d == 3 {
        '3'
    } else if d == 4 {
        '4'
    } else if d == 5 {
        '5'
    } else if d == 6 {
        '6'
    } else if d == 7 {
        '7'
    } else if d == 8 {
        '8'
    } else {
        '9'
    }
}

/// The decimal rendering of a non-negative number.
pub open spec fn spec_decimal(n: int) -> Seq<char>
    decreases n,
{
    if n < 10 {
        seq![digit_char_of(n)]
    } else {
        spec_decimal(n / 10).push(digit_char_of(n % 10))
    }
}

/// The decimal rendering of any number: a leading minus sign where it is
/// negative.
pub open spec fn spec_signed_decimal(n: int) -> Seq<char> {
    if n < 0 {
        seq!['-'] + spec_decimal(-n)
    } else {
        spec_decimal(n)
    }
}

fn digit_str(d: i64) -> (r: &'static str)
    requires
        0 <= d < 10,
    ensures
        r@ == seq![digit_char_of(d as int)],
{
    proof {
        reveal_strlit("0");
        reveal_strlit("1");
        reveal_strlit("2");
        reveal_strlit("3");
        reveal_strlit("4");
        reveal_strlit("5");
        reveal_strlit("6");
        reveal_strlit("7");
        reveal_strlit("8");
        reveal_strlit("9");
    }
    let r = match d {
        0 => "0",
        1 => "1",
        2 => "2",
        3 => "3",
        4 => "4",
        5 => "5",
        6 => "6",
        7 => "7",
        8 => "8",
        _ => "9",
    };
    proof {
        assert(r@ =~= seq![digit_char_of(d as int)]);
    }
    r
}

fn i64_decimal(n: i64) -> (r: String)
    requires
        n >= 0,
    ensures
        r@ == spec_decimal(n as int),
    decreases n,
{
    if n < 10 {
        digit_str(n).to_owned()
    } else {
        let mut head = i64_decimal(n / 10);
        head.append(digit_str(n % 10));
        proof {
            assert(head@ =~= spec_decimal(n as int));
        }
        head
    }
}

/// The decimal rendering of a 32-bit number, sign included.
pub fn i32_decimal(n: i32) -> (r: String)
    ensures
        r@ == spec_signed_decimal(n as int),
{
    if n < 0 {
        let magnitude: i64 = -(n as i64);
        let mut r = "-".to_owned();
        let digits = i64_decimal(magnitude);
        r.append(digits.as_str());
        proof {
            reveal_strlit("-");
            assert(r@ =~= spec_signed_decimal(n as int));
        }
        r
    } else {
        i64_decimal(n as i64)
    }
}

impl Issue {
    /// The address of this issue, rendered from its back-filled
    /// coordinates and its number.
    pub fn url(&self) -> (r: String)
        ensures
            r@ == "https://github.com/"@ + self.owner@ + "/"@ + self.repo@ + "/issues/"@
                + spec_signed_decimal(self.number as int),
    {
        let mut r = "https://github.com/".to_owned();
        r.append(self.owner.as_str());
        r.append("/");
        r.append(self.repo.as_str());
        r.append("/issues/");
        let number = i32_decimal(self.number);
        r.append(number.as_str());
        proof {
            assert(r@ =~= "https://github.com/"@ + self.owner@ + "/"@ + self.repo@ + "/issues/"@
                + spec_signed_decimal(self.number as int));
        }
        r
    }
}

/// The author associations that make an account a project member.
pub open spec fn is_member_association(s: Seq<char>) -> bool {
    ||| s == "OWNER"@
    ||| s == "COLLABORATOR"@
    ||| s == "MEMBER"@
    ||| s == "CONTRIBUTOR"@
}

/// Whether the given author association marks a project member.
pub fn if_member(relation: &String) -> (r: bool)
    ensures
        r == is_member_association(relation@),
{
    *relation == "OWNER".to_owned() || *relation == "COLLABORATOR".to_owned() || *relation
        == "MEMBER".to_owned() || *relation == "CONTRIBUTOR".to_owned()
}

/// How many of the comments were written by project members.
pub open spec fn spec_member_comments(cs: Seq<CommentView>) -> int
    decreases cs.len(),
{
    if cs.len() == 0 {
        0
    } else {
        spec_member_comments(cs.drop_last()) + if is_member_association(
            cs.last().author_association,
        ) {
            1int
        } else {
            0int
        }
    }
}

/// Count the member-authored comments on one issue.  An issue survives the
/// comment stage of the filter only when this count is exactly zero.
pub fn count_member_comments(comments: &Vec<Comment>) -> (n: usize)
    ensures
        n as int == spec_member_comments(comments.deep_view()),
{
    let mut n: usize = 0;
    let mut i: usize = 0;
    while i < comments.len()
        invariant
            i <= comments@.len(),
            n <= i,
            n as int == spec_member_comments(comments.deep_view().subrange(0, i as int)),
        decreases comments@.len() - i,
    {
        let ghost prefix = comments.deep_view().subrange(0, i as int);
        let ghost next = comments.deep_view().subrange(0, i as int + 1);
        proof {
            assert(next.drop_last() =~= prefix);
            assert(next.last() == comments@[i as int].deep_view());
        }
        if if_member(&comments[i].author_association) {
            n = n + 1;
        }
        i = i + 1;
    }
    proof {
        assert(comments.deep_view().subrange(0, comments.deep_view().len() as int)
            =~= comments.deep_view());
    }
    n
}

/// An issue is a filter candidate when it is stale, unassigned, and not a
/// pull request.
pub open spec fn spec_filter_candidate(i: IssueView, now: int) -> bool {
    &&& i.assignee is None
    &&& i.pull_request is None
    &&& i.created_at + STALE_WINDOW_SECONDS <= now
}

/// Whether one issue passes the age/assignment/pull-request stages of the
/// filter, judged at the instant `now`.
pub fn filter_candidate(issue: &Issue, now: i64) -> (r: bool)
    requires
        0 <= issue.created_at,
        0 <= now,
    ensures
        r == spec_filter_candidate(issue@, now as int),
{
    issue.assignee.is_none() && issue.pull_request.is_none() && now - issue.created_at
        >= STALE_WINDOW_SECONDS
}

/// The issues that pass the age/assignment/pull-request stages, in their
/// original order.
pub open spec fn spec_filter_issues(issues: Seq<IssueView>, now: int) -> Seq<IssueView>
    decreases issues.len(),
{
    if issues.len() == 0 {
        Seq::empty()
    } else {
        let init = spec_filter_issues(issues.drop_last(), now);
        if spec_filter_candidate(issues.last(), now) {
            init.push(issues.last())
        } else {
            init
        }
    }
}

/// Apply the age/assignment/pull-request stages of the filter as a pure
/// post-processing pass over a fetched issue list.  The comment stage runs
/// separately, per surviving issue, with [`count_member_comments`].
pub fn filter_issues(issues: Vec<Issue>, now: i64) -> (r: Vec<Issue>)
    requires
        0 <= now,
        forall|i: int| 0 <= i < issues@.len() ==> 0 <= #[trigger] issues@[i].created_at,
    ensures
        r.deep_view() == spec_filter_issues(issues.deep_view(), now as int),
{
    let ghost orig = issues;
    let mut rest = issues;
    let mut out: Vec<Issue> = Vec::new();
    loop
        invariant
            orig == issues,
            0 <= now,
            forall|i: int| 0 <= i < orig@.len() ==> 0 <= #[trigger] orig@[i].created_at,
            rest@.len() <= orig@.len(),
            rest@ == orig@.subrange(
                orig@.len() - rest@.len(),
                orig@.len() as int,
            ),
            out.deep_view() == spec_filter_issues(
                orig.deep_view().subrange(0, orig@.len() - rest@.len()),
                now as int,
            ),
        decreases rest@.len(),
    {
        if rest.len() == 0 {
            proof {
                assert(orig.deep_view().subrange(0, orig@.len() as int) =~= orig.deep_view());
            }
            return out;
        }
        let ghost done = orig@.len() - rest@.len();
        let issue = rest.remove(0);
        proof {
            assert(issue == orig@[done]);
            let prefix = orig.deep_view().subrange(0, done);
            let next = orig.deep_view().subrange(0, done + 1);
            assert(next.drop_last() =~= prefix);
            assert(next.last() == orig@[done].deep_view());
            assert(rest@ =~= orig@.subrange(orig@.len() - rest@.len(), orig@.len() as int));
        }
        if filter_candidate(&issue, now) {
            out.push(issue);
        }
    }
}

} // verus!
