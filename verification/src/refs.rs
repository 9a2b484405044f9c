//! Resource identity parsing.
//!
//! Raw configuration strings become structured references: `"owner/name"`
//! for a repository, and a full board URL of the shape
//! `https://github.com/<owner>/<repo>/projects/<number>` for a project.
//! The URL grammar is the one the original pattern describes: the first
//! position where the fixed prefix is followed by two non-empty runs of
//! word characters (letters, digits, `_`, `-`) separated by `/`, then
//! `/projects/` and at least one digit; the runs and the digit run are
//! maximal.

use vstd::prelude::*;
use vstd::string::StrSliceExecFns;

use crate::error::Error;

verus! {

/// A repository reference, used as a join key.
pub ghost struct RepoView {
    pub owner: Seq<char>,
    pub repo: Seq<char>,
}

#[derive(Debug, PartialEq, Eq)]
pub struct Repo {
    pub owner: String,
    pub repo: String,
}

impl View for Repo {
    type V = RepoView;

    open spec fn view(&self) -> RepoView {
        RepoView { owner: self.owner@, repo: self.repo@ }
    }
}

impl DeepView for Repo {
    type V = RepoView;

    open spec fn deep_view(&self) -> RepoView {
        self@
    }
}

impl Clone for Repo {
    fn clone(&self) -> (r: Self)
        ensures
            r == *self,
    {
        Repo { owner: self.owner.clone(), repo: self.repo.clone() }
    }
}

/// A project-board reference.  `number` is the human-visible board number
/// from its URL; `id` is the platform-internal identifier, unset until
/// resolution.
pub ghost struct ProjectView {
    pub owner: Seq<char>,
    pub repo: Seq<char>,
    pub number: int,
    pub id: Option<int>,
}

#[derive(Debug, PartialEq, Eq)]
pub struct Project {
    pub owner: String,
    pub repo: String,
    pub number: i32,
    pub id: Option<i64>,
}

impl View for Project {
    type V = ProjectView;

    open spec fn view(&self) -> ProjectView {
        ProjectView {
            owner: self.owner@,
            repo: self.repo@,
            number: self.number as int,
            id: match self.id {
                Some(v) => Some(v as int),
                None => None,
            },
        }
    }
}

impl DeepView for Project {
    type V = ProjectView;

    open spec fn deep_view(&self) -> ProjectView {
        self@
    }
}

impl Clone for Project {
    fn clone(&self) -> (r: Self)
        ensures
            r == *self,
    {
        Project {
            owner: self.owner.clone(),
            repo: self.repo.clone(),
            number: self.number,
            id: self.id,
        }
    }
}

// ---------------------------------------------------------------------
// Repository references: exactly two non-empty segments around one `/`.
// ---------------------------------------------------------------------

/// `i` is the position of the only `/` in `s`, with a non-empty segment
/// on each side.
pub open spec fn repo_split_at(s: Seq<char>, i: int) -> bool {
    &&& 0 < i
    &&& i + 1 < s.len()
    &&& s[i] == '/'
    &&& forall|j: int| 0 <= j < s.len() && j != i ==> s[j] != '/'
}

pub open spec fn valid_repo_ref(s: Seq<char>) -> bool {
    exists|i: int| repo_split_at(s, i)
}

pub open spec fn spec_parse_repo(s: Seq<char>) -> RepoView {
    let i = choose|i: int| repo_split_at(s, i);
    RepoView { owner: s.subrange(0, i), repo: s.subrange(i + 1, s.len() as int) }
}

/// Split `"owner/name"` on its `/`.  Returns `MalformedReference` unless
/// the string is exactly two non-empty segments.
pub fn parse_repo_ref(s: &str) -> (r: Result<Repo, Error>)
    ensures
        r is Ok <==> valid_repo_ref(s@),
        r matches Ok(repo) ==> repo@ == spec_parse_repo(s@),
        r matches Err(e) ==> e matches Error::MalformedReference,
{
    let n = s.unicode_len();
    let mut first: Option<usize> = None;
    let mut second: Option<usize> = None;
    let mut j: usize = 0;
    while j < n
        invariant
            n == s@.len(),
            j <= n,
            first is None ==> second is None && (forall|k: int| 0 <= k < j ==> s@[k] != '/'),
            first matches Some(f) ==> f < j && s@[f as int] == '/' && (forall|k: int|
                0 <= k < f ==> s@[k] != '/'),
            second is None ==> (first matches Some(f) ==> (forall|k: int|
                f < k < j ==> s@[k] != '/')),
            second matches Some(g) ==> (first matches Some(f) && f < g < j && s@[g as int]
                == '/'),
        decreases n - j,
    {
        let c = s.get_char(j);
        if c == '/' {
            if first.is_none() {
                first = Some(j);
            } else if second.is_none() {
                second = Some(j);
            }
        }
        j += 1;
    }
    if let Some(f) = first {
        if second.is_none() && f > 0 && f + 1 < n {
            proof {
                assert(repo_split_at(s@, f as int));
                let i = choose|i: int| repo_split_at(s@, i);
                assert(s@[i] == '/');
                assert(i == f as int);
            }
            let owner = s.substring_char(0, f).to_owned();
            let name = s.substring_char(f + 1, n).to_owned();
            return Ok(Repo { owner, repo: name });
        }
    }
    proof {
        assert(!valid_repo_ref(s@)) by {
            if valid_repo_ref(s@) {
                let i = choose|i: int| repo_split_at(s@, i);
                assert(s@[i] == '/');
                match first {
                    None => assert(false),
                    Some(f) => {
                        match second {
                            Some(g) => {
                                assert(s@[f as int] == '/' && s@[g as int] == '/');
                                assert(f as int == i || g as int == i);
                                assert(false);
                            },
                            None => {
                                assert(i == f as int);
                                assert(false);
                            },
                        }
                    },
                }
            }
        }
    }
    Err(Error::MalformedReference)
}

// ---------------------------------------------------------------------
// Project-board references: the URL grammar.
// ---------------------------------------------------------------------

pub open spec fn url_prefix() -> Seq<char> {
    "https://github.com/"@
}

pub open spec fn projects_infix() -> Seq<char> {
    "/projects/"@
}

pub open spec fn word_char(c: char) -> bool {
    ||| c == '-'
    ||| c == '_'
    ||| '0' as u32 <= c as u32 <= '9' as u32
    ||| 'a' as u32 <= c as u32 <= 'z' as u32
    ||| 'A' as u32 <= c as u32 <= 'Z' as u32
}

pub open spec fn digit_char(c: char) -> bool {
    '0' as u32 <= c as u32 <= '9' as u32
}

/// The end of the maximal run of word characters starting at `i`.
pub open spec fn word_run_end(s: Seq<char>, i: int) -> int
    decreases s.len() - i,
{
    if i < 0 || i >= s.len() {
        i
    } else if word_char(s[i]) {
        word_run_end(s, i + 1)
    } else {
        i
    }
}

/// The end of the maximal run of digits starting at `i`.
pub open spec fn digit_run_end(s: Seq<char>, i: int) -> int
    decreases s.len() - i,
{
    if i < 0 || i >= s.len() {
        i
    } else if digit_char(s[i]) {
        digit_run_end(s, i + 1)
    } else {
        i
    }
}

/// The grammar matches at position `p` of `s`: the fixed prefix, a
/// non-empty word run, `/`, a non-empty word run, `/projects/`, and at
/// least one digit.
pub open spec fn match_at(s: Seq<char>, p: int) -> bool {
    let o0 = p + url_prefix().len();
    let o1 = word_run_end(s, o0);
    let r0 = o1 + 1;
    let r1 = word_run_end(s, r0);
    let d0 = r1 + projects_infix().len();
    &&& 0 <= p
    &&& o0 <= s.len()
    &&& s.subrange(p, o0) == url_prefix()
    &&& o0 < o1
    &&& o1 < s.len()
    &&& s[o1] == '/'
    &&& r0 < r1
    &&& d0 <= s.len()
    &&& s.subrange(r1, d0) == projects_infix()
    &&& d0 < s.len()
    &&& digit_char(s[d0])
}

pub open spec fn match_owner(s: Seq<char>, p: int) -> Seq<char> {
    let o0 = p + url_prefix().len();
    s.subrange(o0, word_run_end(s, o0))
}

pub open spec fn match_repo(s: Seq<char>, p: int) -> Seq<char> {
    let o0 = p + url_prefix().len();
    let r0 = word_run_end(s, o0) + 1;
    s.subrange(r0, word_run_end(s, r0))
}

pub open spec fn match_digits(s: Seq<char>, p: int) -> Seq<char> {
    let o0 = p + url_prefix().len();
    let r0 = word_run_end(s, o0) + 1;
    let d0 = word_run_end(s, r0) + projects_infix().len();
    s.subrange(d0, digit_run_end(s, d0))
}

/// The leftmost position at or after `p` where the grammar matches.
pub open spec fn first_match_from(s: Seq<char>, p: int) -> Option<int>
    decreases s.len() + 1 - p,
{
    if p > s.len() {
        None
    } else if match_at(s, p) {
        Some(p)
    } else {
        first_match_from(s, p + 1)
    }
}

pub open spec fn first_match(s: Seq<char>) -> Option<int> {
    first_match_from(s, 0)
}

/// The decimal value of a digit run.
pub open spec fn digits_value(d: Seq<char>) -> int
    decreases d.len(),
{
    if d.len() == 0 {
        0
    } else {
        digits_value(d.drop_last()) * 10 + (d.last() as u32 - '0' as u32)
    }
}

/// What parsing a project reference yields: the captures of the leftmost
/// match, or the sentinel empty reference when nothing matches.
pub open spec fn spec_parse_project(s: Seq<char>) -> ProjectView {
    match first_match(s) {
        Some(p) => ProjectView {
            owner: match_owner(s, p),
            repo: match_repo(s, p),
            number: digits_value(match_digits(s, p)),
            id: None,
        },
        None => ProjectView {
            owner: Seq::empty(),
            repo: Seq::empty(),
            number: 0,
            id: None,
        },
    }
}

/// The matched board number, if any, is small enough for a 32-bit count.
pub open spec fn project_number_fits(s: Seq<char>) -> bool {
    match first_match(s) {
        Some(p) => digits_value(match_digits(s, p)) <= i32::MAX as int,
        None => true,
    }
}

proof fn lemma_first_match_here(s: Seq<char>, k: int, p: int)
    requires
        0 <= k <= p,
        match_at(s, p),
        forall|q: int| k <= q < p ==> !match_at(s, q),
    ensures
        first_match_from(s, k) == Some(p),
    decreases p - k,
{
    if k < p {
        lemma_first_match_here(s, k + 1, p);
    }
}

proof fn lemma_first_match_none(s: Seq<char>, k: int)
    requires
        0 <= k,
        forall|q: int| k <= q ==> !match_at(s, q),
    ensures
        first_match_from(s, k) is None,
    decreases s.len() + 1 - k,
{
    if k <= s.len() {
        lemma_first_match_none(s, k + 1);
    }
}

proof fn lemma_digits_value_nonneg(d: Seq<char>)
    requires
        forall|k: int| 0 <= k < d.len() ==> digit_char(d[k]),
    ensures
        digits_value(d) >= 0,
    decreases d.len(),
{
    if d.len() > 0 {
        lemma_digits_value_nonneg(d.drop_last());
    }
}

proof fn lemma_digits_value_prefix(d: Seq<char>, k: int)
    requires
        0 <= k <= d.len(),
        forall|t: int| 0 <= t < d.len() ==> digit_char(d[t]),
    ensures
        digits_value(d.subrange(0, k)) <= digits_value(d),
    decreases d.len() - k,
{
    if k == d.len() {
        assert(d.subrange(0, k) =~= d);
    } else {
        let shorter = d.subrange(0, k);
        let longer = d.subrange(0, k + 1);
        assert(longer.drop_last() =~= shorter);
        lemma_digits_value_nonneg(shorter);
        assert(digits_value(longer) == digits_value(shorter) * 10 + (longer.last() as u32
            - '0' as u32));
        assert(digits_value(shorter) <= digits_value(longer));
        lemma_digits_value_prefix(d, k + 1);
    }
}

fn is_word_char_exec(c: char) -> (b: bool)
    ensures
        b == word_char(c),
{
    let u = c as u32;
    c == '-' || c == '_' || ('0' as u32 <= u && u <= '9' as u32) || ('a' as u32 <= u && u
        <= 'z' as u32) || ('A' as u32 <= u && u <= 'Z' as u32)
}

fn is_digit_char_exec(c: char) -> (b: bool)
    ensures
        b == digit_char(c),
{
    let u = c as u32;
    '0' as u32 <= u && u <= '9' as u32
}

/// The end of the maximal word-character run starting at `i`.
fn word_run(s: &str, i: usize, n: usize) -> (e: usize)
    requires
        n == s@.len(),
        i <= n,
    ensures
        e as int == word_run_end(s@, i as int),
        i <= e <= n,
{
    let mut e = i;
    while e < n && is_word_char_exec(s.get_char(e))
        invariant
            n == s@.len(),
            i <= e <= n,
            word_run_end(s@, i as int) == word_run_end(s@, e as int),
        decreases n - e,
    {
        e = e + 1;
    }
    e
}

/// Whether `lit` occurs in `s` at position `p`.
fn literal_match_at(s: &str, p: usize, lit: &str) -> (b: bool)
    requires
        p + lit@.len() <= s@.len(),
        s@.len() <= usize::MAX,
    ensures
        b == (s@.subrange(p as int, p as int + lit@.len() as int) == lit@),
{
    let m = lit.unicode_len();
    let mut k: usize = 0;
    while k < m
        invariant
            m == lit@.len(),
            p + m <= s@.len(),
            s@.len() <= usize::MAX,
            k <= m,
            forall|t: int| 0 <= t < k ==> s@[p + t] == lit@[t],
        decreases m - k,
    {
        if s.get_char(p + k) != lit.get_char(k) {
            proof {
                let sub = s@.subrange(p as int, p as int + lit@.len() as int);
                assert(sub[k as int] == s@[p + k]);
                assert(sub != lit@);
            }
            return false;
        }
        k = k + 1;
    }
    proof {
        assert(s@.subrange(p as int, p as int + lit@.len() as int) =~= lit@);
    }
    true
}

/// The decimal value of the digit run starting at `d0`, as a 32-bit count.
fn parse_number(s: &str, d0: usize, n: usize) -> (v: i32)
    requires
        n == s@.len(),
        d0 <= n,
        digits_value(s@.subrange(d0 as int, digit_run_end(s@, d0 as int))) <= i32::MAX as int,
    ensures
        v as int == digits_value(s@.subrange(d0 as int, digit_run_end(s@, d0 as int))),
{
    let ghost dend = digit_run_end(s@, d0 as int);
    let ghost d = s@.subrange(d0 as int, dend);
    proof {
        lemma_digit_run_chars(s@, d0 as int);
        assert(forall|t: int| 0 <= t < d.len() ==> digit_char(d[t]));
    }
    let mut e = d0;
    let mut v: i64 = 0;
    while e < n && is_digit_char_exec(s.get_char(e))
        invariant
            n == s@.len(),
            d0 <= e <= n,
            dend == digit_run_end(s@, d0 as int),
            d == s@.subrange(d0 as int, dend),
            forall|t: int| 0 <= t < d.len() ==> digit_char(d[t]),
            digits_value(d) <= i32::MAX as int,
            digit_run_end(s@, d0 as int) == digit_run_end(s@, e as int),
            e <= dend,
            v as int == digits_value(s@.subrange(d0 as int, e as int)),
            0 <= v as int <= i32::MAX as int,
        decreases n - e,
    {
        let c = s.get_char(e);
        proof {
            assert(digit_run_end(s@, e as int) == digit_run_end(s@, e as int + 1));
            lemma_digit_run_chars(s@, e as int + 1);
            assert(e < dend);
            let prev = s@.subrange(d0 as int, e as int);
            let next = s@.subrange(d0 as int, e as int + 1);
            assert(next.drop_last() =~= prev);
            assert(next.last() == s@[e as int]);
            assert(next =~= d.subrange(0, e as int + 1 - d0));
            lemma_digits_value_prefix(d, e as int + 1 - d0);
            assert(digits_value(next) <= digits_value(d));
            lemma_digits_value_nonneg(next);
        }
        v = v * 10 + (c as u32 - 48) as i64;
        e = e + 1;
    }
    proof {
        assert(e as int == digit_run_end(s@, e as int));
        assert(e as int == dend);
    }
    v as i32
}

proof fn lemma_digit_run_chars(s: Seq<char>, i: int)
    requires
        0 <= i <= s.len(),
    ensures
        i <= digit_run_end(s, i) <= s.len(),
        forall|t: int| i <= t < digit_run_end(s, i) ==> digit_char(s[t]),
    decreases s.len() - i,
{
    if i < s.len() && digit_char(s[i]) {
        lemma_digit_run_chars(s, i + 1);
    }
}

/// Attempt the grammar at one candidate position.
fn try_match_at(s: &str, p: usize, n: usize) -> (r: Option<Project>)
    requires
        n == s@.len(),
        p + url_prefix().len() <= n,
        match_at(s@, p as int) ==> digits_value(match_digits(s@, p as int)) <= i32::MAX as int,
    ensures
        r is Some <==> match_at(s@, p as int),
        r matches Some(proj) ==> proj@ == (ProjectView {
            owner: match_owner(s@, p as int),
            repo: match_repo(s@, p as int),
            number: digits_value(match_digits(s@, p as int)),
            id: None,
        }),
{
    proof {
        reveal_strlit("https://github.com/");
        reveal_strlit("/projects/");
    }
    if !literal_match_at(s, p, "https://github.com/") {
        return None;
    }
    let o0 = p + 19;
    let o1 = word_run(s, o0, n);
    if !(o0 < o1 && o1 < n) {
        return None;
    }
    if s.get_char(o1) != '/' {
        return None;
    }
    let r0 = o1 + 1;
    let r1 = word_run(s, r0, n);
    if !(r0 < r1 && n - r1 >= 10) {
        return None;
    }
    if !literal_match_at(s, r1, "/projects/") {
        return None;
    }
    let d0 = r1 + 10;
    if !(d0 < n) {
        return None;
    }
    if !is_digit_char_exec(s.get_char(d0)) {
        return None;
    }
    assert(match_at(s@, p as int));
    let number = parse_number(s, d0, n);
    let owner = s.substring_char(o0, o1).to_owned();
    let repo = s.substring_char(r0, r1).to_owned();
    Some(Project { owner, repo, number, id: None })
}

/// Parse a project-board URL.  A string the grammar does not match
/// anywhere yields the sentinel empty reference, the policy carried over
/// for compatibility with existing configurations.
pub fn parse_project_ref(s: &str) -> (r: Project)
    requires
        project_number_fits(s@),
    ensures
        r@ == spec_parse_project(s@),
{
    let n = s.unicode_len();
    proof {
        reveal_strlit("https://github.com/");
    }
    if n >= 19 {
        let mut p: usize = 0;
        while p <= n - 19
            invariant
                n == s@.len(),
                19 <= n,
                p <= n - 19 + 1,
                forall|q: int| 0 <= q < p ==> !match_at(s@, q),
                url_prefix().len() == 19,
                project_number_fits(s@),
            decreases n - p,
        {
            proof {
                if match_at(s@, p as int) {
                    lemma_first_match_here(s@, 0, p as int);
                }
            }
            let found = try_match_at(s, p, n);
            if let Some(proj) = found {
                proof {
                    lemma_first_match_here(s@, 0, p as int);
                }
                return proj;
            }
            p = p + 1;
        }
        proof {
            assert forall|q: int| 0 <= q implies !match_at(s@, q) by {
                if q <= n - 19 {
                } else {
                    assert(q + url_prefix().len() > s@.len());
                }
            }
            lemma_first_match_none(s@, 0);
        }
    } else {
        proof {
            assert forall|q: int| 0 <= q implies !match_at(s@, q) by {
                assert(q + url_prefix().len() > s@.len());
            }
            lemma_first_match_none(s@, 0);
        }
    }
    Project { owner: String::new(), repo: String::new(), number: 0, id: None }
}

} // verus!
