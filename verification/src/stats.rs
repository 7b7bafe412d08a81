//! Counting pull requests and issues per repository of a project.

use vstd::prelude::*;
use crate::activity::{IssueInfo, PullWithComments};
use crate::project::{count_char, drop_parts, repo_from_issue, repo_url, repo_url_chars, Project};
use crate::text::{chars_of, same_chars, string_of};

verus! {

/// The number of items counted for one repository.
#[derive(Debug)]
pub struct PullStat {
    /// The web URL of the repository.
    pub repo: String,
    pub count: usize,
}

/// The counts per repository, in the order of the project's repositories.
#[derive(Debug)]
pub struct PullStats {
    pub stats: Vec<PullStat>,
}

/// Items that belong to no repository of the project.
#[derive(Debug)]
pub struct StatsError {
    /// The repository URLs of those items, each once, in the order they first occur.
    pub unmatched: Vec<String>,
}

/// How many of `keys` are `u`.
pub open spec fn occurrences(keys: Seq<Seq<char>>, u: Seq<char>) -> nat
    decreases keys.len(),
{
    if keys.len() == 0 {
        0
    } else {
        occurrences(keys.drop_last(), u) + if keys.last() == u {
            1nat
        } else {
            0nat
        }
    }
}

/// For each URL of `urls` in order, met for the first time and counted at least once
/// among `keys`: the URL and its count.
pub open spec fn repo_counts(keys: Seq<Seq<char>>, urls: Seq<Seq<char>>) -> Seq<(Seq<char>, nat)>
    decreases urls.len(),
{
    if urls.len() == 0 {
        Seq::empty()
    } else {
        let prev = repo_counts(keys, urls.drop_last());
        let u = urls.last();
        if urls.drop_last().contains(u) || occurrences(keys, u) == 0 {
            prev
        } else {
            prev.push((u, occurrences(keys, u)))
        }
    }
}

/// The keys that are none of `urls`, each once, in the order they first occur.
pub open spec fn unmatched_keys(keys: Seq<Seq<char>>, urls: Seq<Seq<char>>) -> Seq<Seq<char>>
    decreases keys.len(),
{
    if keys.len() == 0 {
        Seq::empty()
    } else {
        let prev = unmatched_keys(keys.drop_last(), urls);
        let k = keys.last();
        if urls.contains(k) || prev.contains(k) {
            prev
        } else {
            prev.push(k)
        }
    }
}

/// The outcome of counting `keys` by `urls`: the counts where every key is one of `urls`,
/// else the keys that are none of them.
pub open spec fn stats_outcome(keys: Seq<Seq<char>>, urls: Seq<Seq<char>>) -> Result<Seq<(Seq<char>, nat)>, Seq<Seq<char>>> {
    if unmatched_keys(keys, urls).len() == 0 {
        Ok(repo_counts(keys, urls))
    } else {
        Err(unmatched_keys(keys, urls))
    }
}

pub open spec fn char_vecs(v: Seq<Vec<char>>) -> Seq<Seq<char>> {
    v.map_values(|x: Vec<char>| x@)
}

pub open spec fn strings(v: Seq<String>) -> Seq<Seq<char>> {
    v.map_values(|x: String| x@)
}

pub open spec fn stats_view(v: Seq<PullStat>) -> Seq<(Seq<char>, nat)> {
    v.map_values(|s: PullStat| (s.repo@, s.count as nat))
}

/// The view of a counting result.
pub open spec fn outcome_view(r: Result<PullStats, StatsError>) -> Result<Seq<(Seq<char>, nat)>, Seq<Seq<char>>> {
    match r {
        Ok(s) => Ok(stats_view(s.stats@)),
        Err(e) => Err(strings(e.unmatched@)),
    }
}

/// The web URLs of the repositories of a project.
pub open spec fn project_urls(repos: Seq<String>) -> Seq<Seq<char>> {
    repos.map_values(|r: String| repo_url(r@))
}

fn copy_chars(a: &Vec<char>) -> (r: Vec<char>)
    ensures
        r@ == a@,
{
    let mut r: Vec<char> = Vec::new();
    let mut i: usize = 0;
    while i < a.len()
        invariant
            i <= a@.len(),
            r@ == a@.take(i as int),
        decreases a@.len() - i,
    {
        r.push(a[i]);
        assert(a@.take(i + 1) =~= a@.take(i as int).push(a@[i as int]));
        i = i + 1;
    }
    assert(a@.take(a@.len() as int) =~= a@);
    r
}

/// Whether one of the first `hi` entries of `list` is `x`.
fn contains_chars(list: &Vec<Vec<char>>, hi: usize, x: &Vec<char>) -> (r: bool)
    requires
        hi <= list@.len(),
    ensures
        r == char_vecs(list@).take(hi as int).contains(x@),
{
    let ghost s = char_vecs(list@).take(hi as int);
    let mut i: usize = 0;
    while i < hi
        invariant
            i <= hi <= list@.len(),
            s == char_vecs(list@).take(hi as int),
            forall|j: int| 0 <= j < i ==> s[j] != x@,
        decreases hi - i,
    {
        if same_chars(list[i].as_slice(), x.as_slice()) {
            assert(s[i as int] == x@);
            return true;
        }
        i = i + 1;
    }
    false
}

/// How many entries of `keys` are `u`.
fn count_equal(keys: &Vec<Vec<char>>, u: &Vec<char>) -> (r: usize)
    ensures
        r == occurrences(char_vecs(keys@), u@),
{
    let ghost k = char_vecs(keys@);
    let mut c: usize = 0;
    let mut i: usize = 0;
    assert(k.take(0) =~= Seq::<Seq<char>>::empty());
    while i < keys.len()
        invariant
            i <= keys@.len(),
            k == char_vecs(keys@),
            c <= i,
            c == occurrences(k.take(i as int), u@),
        decreases keys@.len() - i,
    {
        assert(k.take(i + 1).drop_last() =~= k.take(i as int));
        assert(k.take(i + 1).last() == keys@[i as int]@);
        if same_chars(keys[i].as_slice(), u.as_slice()) {
            c = c + 1;
        }
        i = i + 1;
    }
    assert(k.take(keys@.len() as int) =~= k);
    c
}

/// Counts `keys` by the repository URLs `urls`: for each URL met for the first time, its
/// number of occurrences among the keys where that is not zero; an error naming the keys
/// that are none of the URLs, if there are such keys.
pub fn count_by_repo(keys: &Vec<Vec<char>>, urls: &Vec<Vec<char>>) -> (r: Result<PullStats, StatsError>)
    ensures
        outcome_view(r) == stats_outcome(char_vecs(keys@), char_vecs(urls@)),
{
    let ghost k = char_vecs(keys@);
    let ghost u = char_vecs(urls@);
    let mut stats: Vec<PullStat> = Vec::new();
    let mut i: usize = 0;
    assert(u.take(0) =~= Seq::<Seq<char>>::empty());
    assert(stats_view(stats@) =~= Seq::<(Seq<char>, nat)>::empty());
    while i < urls.len()
        invariant
            i <= urls@.len(),
            k == char_vecs(keys@),
            u == char_vecs(urls@),
            stats_view(stats@) == repo_counts(k, u.take(i as int)),
        decreases urls@.len() - i,
    {
        let ghost t = u.take(i + 1);
        assert(t.drop_last() =~= u.take(i as int));
        assert(t.last() == urls@[i as int]@);
        let dup = contains_chars(urls, i, &urls[i]);
        if !dup {
            let c = count_equal(keys, &urls[i]);
            if c > 0 {
                let repo = string_of(&urls[i]);
                let ghost before = stats@;
                stats.push(PullStat { repo, count: c });
                assert(stats_view(stats@) =~= stats_view(before).push((urls@[i as int]@, c as nat)));
            }
        }
        i = i + 1;
    }
    assert(u.take(urls@.len() as int) =~= u);
    let mut unmatched: Vec<Vec<char>> = Vec::new();
    let mut j: usize = 0;
    assert(k.take(0) =~= Seq::<Seq<char>>::empty());
    assert(char_vecs(unmatched@) =~= Seq::<Seq<char>>::empty());
    while j < keys.len()
        invariant
            j <= keys@.len(),
            k == char_vecs(keys@),
            u == char_vecs(urls@),
            char_vecs(unmatched@) == unmatched_keys(k.take(j as int), u),
        decreases keys@.len() - j,
    {
        let ghost t = k.take(j + 1);
        assert(t.drop_last() =~= k.take(j as int));
        assert(t.last() == keys@[j as int]@);
        assert(u.take(urls@.len() as int) =~= u);
        assert(char_vecs(unmatched@).take(unmatched@.len() as int) =~= char_vecs(unmatched@));
        if !contains_chars(urls, urls.len(), &keys[j]) && !contains_chars(&unmatched, unmatched.len(), &keys[j]) {
            let key = copy_chars(&keys[j]);
            let ghost before = unmatched@;
            unmatched.push(key);
            assert(char_vecs(unmatched@) =~= char_vecs(before).push(keys@[j as int]@));
        }
        j = j + 1;
    }
    assert(k.take(keys@.len() as int) =~= k);
    if unmatched.len() == 0 {
        Ok(PullStats { stats })
    } else {
        let mut names: Vec<String> = Vec::new();
        let mut m: usize = 0;
        while m < unmatched.len()
            invariant
                m <= unmatched@.len(),
                strings(names@) == char_vecs(unmatched@).take(m as int),
            decreases unmatched@.len() - m,
        {
            let ghost before = names@;
            names.push(string_of(&unmatched[m]));
            assert(strings(names@) =~= strings(before).push(unmatched@[m as int]@));
            assert(char_vecs(unmatched@).take(m + 1) =~= char_vecs(unmatched@).take(m as int).push(unmatched@[m as int]@));
            m = m + 1;
        }
        assert(char_vecs(unmatched@).take(unmatched@.len() as int) =~= char_vecs(unmatched@));
        Err(StatsError { unmatched: names })
    }
}

/// The repository URLs of a project, computed.
fn urls_of(project: &Project) -> (r: Vec<Vec<char>>)
    ensures
        char_vecs(r@) == project_urls(project.repos@),
{
    let mut r: Vec<Vec<char>> = Vec::new();
    let mut i: usize = 0;
    while i < project.repos.len()
        invariant
            i <= project.repos@.len(),
            char_vecs(r@) == project_urls(project.repos@).take(i as int),
        decreases project.repos@.len() - i,
    {
        let ghost before = r@;
        r.push(repo_url_chars(project.repos[i].as_str()));
        assert(char_vecs(r@) =~= char_vecs(before).push(repo_url(project.repos@[i as int]@)));
        assert(project_urls(project.repos@).take(i + 1) =~= project_urls(project.repos@).take(i as int).push(repo_url(project.repos@[i as int]@)));
        i = i + 1;
    }
    assert(project_urls(project.repos@).take(project.repos@.len() as int) =~= project_urls(project.repos@));
    r
}

/// The repository URLs of issues, from their web URLs.
pub open spec fn issue_repos(issues: Seq<IssueInfo>) -> Seq<Seq<char>> {
    issues.map_values(|i: IssueInfo| drop_parts(i.html_url@, 2))
}

/// The repository URLs of pull requests: those of their base repositories.
pub open spec fn pull_repos(pulls: Seq<PullWithComments>) -> Seq<Seq<char>> {
    pulls.map_values(|p: PullWithComments| p.pull.base_repo_url@)
}

/// Counts issues per repository of the project. Every issue's web URL must have more than
/// two `/`-separated parts.
pub fn make_issue_stats(project: &Project, issues: &Vec<IssueInfo>) -> (r: Result<PullStats, StatsError>)
    requires
        forall|i: int| 0 <= i < issues@.len() ==> count_char(#[trigger] issues@[i].html_url@, '/') >= 2,
    ensures
        outcome_view(r) == stats_outcome(issue_repos(issues@), project_urls(project.repos@)),
{
    let mut keys: Vec<Vec<char>> = Vec::new();
    let mut i: usize = 0;
    while i < issues.len()
        invariant
            i <= issues@.len(),
            forall|i: int| 0 <= i < issues@.len() ==> count_char(#[trigger] issues@[i].html_url@, '/') >= 2,
            char_vecs(keys@) == issue_repos(issues@).take(i as int),
        decreases issues@.len() - i,
    {
        let repo = repo_from_issue(issues[i].html_url.as_str());
        let ghost before = keys@;
        keys.push(chars_of(repo.as_str()));
        assert(char_vecs(keys@) =~= char_vecs(before).push(drop_parts(issues@[i as int].html_url@, 2)));
        assert(issue_repos(issues@).take(i + 1) =~= issue_repos(issues@).take(i as int).push(drop_parts(issues@[i as int].html_url@, 2)));
        i = i + 1;
    }
    assert(issue_repos(issues@).take(issues@.len() as int) =~= issue_repos(issues@));
    let urls = urls_of(project);
    count_by_repo(&keys, &urls)
}

/// Counts pull requests per repository of the project, by their base repository.
pub fn make_pull_stats(project: &Project, pulls: &Vec<PullWithComments>) -> (r: Result<PullStats, StatsError>)
    ensures
        outcome_view(r) == stats_outcome(pull_repos(pulls@), project_urls(project.repos@)),
{
    let mut keys: Vec<Vec<char>> = Vec::new();
    let mut i: usize = 0;
    while i < pulls.len()
        invariant
            i <= pulls@.len(),
            char_vecs(keys@) == pull_repos(pulls@).take(i as int),
        decreases pulls@.len() - i,
    {
        let ghost before = keys@;
        keys.push(chars_of(pulls[i].pull.base_repo_url.as_str()));
        assert(char_vecs(keys@) =~= char_vecs(before).push(pulls@[i as int].pull.base_repo_url@));
        assert(pull_repos(pulls@).take(i + 1) =~= pull_repos(pulls@).take(i as int).push(pulls@[i as int].pull.base_repo_url@));
        i = i + 1;
    }
    assert(pull_repos(pulls@).take(pulls@.len() as int) =~= pull_repos(pulls@));
    let urls = urls_of(project);
    count_by_repo(&keys, &urls)
}

/// The sum of the counts.
pub open spec fn total(counts: Seq<(Seq<char>, nat)>) -> nat
    decreases counts.len(),
{
    if counts.len() == 0 {
        0
    } else {
        total(counts.drop_last()) + counts.last().1
    }
}

/// How many of `keys` are one of `urls`.
pub open spec fn matched_count(keys: Seq<Seq<char>>, urls: Seq<Seq<char>>) -> nat
    decreases keys.len(),
{
    if keys.len() == 0 {
        0
    } else {
        matched_count(keys.drop_last(), urls) + if urls.contains(keys.last()) {
            1nat
        } else {
            0nat
        }
    }
}

proof fn lemma_unmatched_empty(keys: Seq<Seq<char>>, urls: Seq<Seq<char>>)
    ensures
        unmatched_keys(keys, urls).len() == 0 <==> forall|i: int|
            0 <= i < keys.len() ==> urls.contains(#[trigger] keys[i]),
    decreases keys.len(),
{
    if keys.len() > 0 {
        let prev = unmatched_keys(keys.drop_last(), urls);
        lemma_unmatched_empty(keys.drop_last(), urls);
        if unmatched_keys(keys, urls).len() == 0 {
            assert forall|i: int| 0 <= i < keys.len() implies urls.contains(#[trigger] keys[i]) by {
                if i < keys.len() - 1 {
                    assert(keys[i] == keys.drop_last()[i]);
                } else {
                    if !urls.contains(keys.last()) && !prev.contains(keys.last()) {
                        assert(unmatched_keys(keys, urls).len() == prev.len() + 1);
                    }
                }
            }
        } else {
            if forall|i: int| 0 <= i < keys.len() ==> urls.contains(#[trigger] keys[i]) {
                assert forall|i: int| 0 <= i < keys.drop_last().len() implies urls.contains(
                    #[trigger] keys.drop_last()[i],
                ) by {
                    assert(keys.drop_last()[i] == keys[i]);
                }
                assert(urls.contains(keys[keys.len() - 1]));
            }
        }
    }
}

proof fn lemma_matched_all(keys: Seq<Seq<char>>, urls: Seq<Seq<char>>)
    requires
        forall|i: int| 0 <= i < keys.len() ==> urls.contains(#[trigger] keys[i]),
    ensures
        matched_count(keys, urls) == keys.len(),
    decreases keys.len(),
{
    if keys.len() > 0 {
        assert forall|i: int| 0 <= i < keys.drop_last().len() implies urls.contains(
            #[trigger] keys.drop_last()[i],
        ) by {
            assert(keys.drop_last()[i] == keys[i]);
        }
        lemma_matched_all(keys.drop_last(), urls);
        assert(urls.contains(keys[keys.len() - 1]));
    }
}

proof fn lemma_matched_push(keys: Seq<Seq<char>>, us: Seq<Seq<char>>, u: Seq<char>)
    ensures
        matched_count(keys, us.push(u)) == matched_count(keys, us) + if us.contains(u) {
            0nat
        } else {
            occurrences(keys, u)
        },
    decreases keys.len(),
{
    if keys.len() > 0 {
        lemma_matched_push(keys.drop_last(), us, u);
        let k = keys.last();
        if us.contains(k) {
            let j = choose|j: int| 0 <= j < us.len() && us[j] == k;
            assert(us.push(u)[j] == k);
        }
        if k == u {
            assert(us.push(u)[us.len() as int] == k);
        }
        if us.push(u).contains(k) {
            let j = choose|j: int| 0 <= j < us.push(u).len() && us.push(u)[j] == k;
            if j < us.len() {
                assert(us[j] == k);
            }
        }
    }
}

proof fn lemma_total_counts(keys: Seq<Seq<char>>, urls: Seq<Seq<char>>)
    ensures
        total(repo_counts(keys, urls)) == matched_count(keys, urls),
    decreases urls.len(),
{
    if urls.len() == 0 {
        lemma_matched_none(keys, urls);
    } else {
        let us = urls.drop_last();
        let u = urls.last();
        lemma_total_counts(keys, us);
        assert(us.push(u) =~= urls);
        lemma_matched_push(keys, us, u);
        let prev = repo_counts(keys, us);
        if !(us.contains(u) || occurrences(keys, u) == 0) {
            assert(prev.push((u, occurrences(keys, u))).drop_last() =~= prev);
        }
    }
}

proof fn lemma_matched_none(keys: Seq<Seq<char>>, urls: Seq<Seq<char>>)
    requires
        urls.len() == 0,
    ensures
        matched_count(keys, urls) == 0,
    decreases keys.len(),
{
    if keys.len() > 0 {
        lemma_matched_none(keys.drop_last(), urls);
    }
}

/// Where counting succeeds, every item is counted once: the counts add up to the number of
/// items (so the report's totals are the numbers of pull requests and issues).
pub proof fn law_counts_cover_every_item(keys: Seq<Seq<char>>, urls: Seq<Seq<char>>)
    requires
        stats_outcome(keys, urls) is Ok,
    ensures
        total(repo_counts(keys, urls)) == keys.len(),
{
    lemma_unmatched_empty(keys, urls);
    lemma_matched_all(keys, urls);
    lemma_total_counts(keys, urls);
}

/// Counting fails exactly when some item belongs to none of the repositories.
pub proof fn law_counting_fails_on_foreign_items(keys: Seq<Seq<char>>, urls: Seq<Seq<char>>)
    ensures
        stats_outcome(keys, urls) is Err <==> exists|i: int|
            0 <= i < keys.len() && !urls.contains(#[trigger] keys[i]),
{
    lemma_unmatched_empty(keys, urls);
}

/// Each counted repository is one of the project's, is counted once, and has a count of
/// at least one.
pub proof fn law_counts_are_distinct_and_positive(keys: Seq<Seq<char>>, urls: Seq<Seq<char>>)
    ensures
        forall|i: int|
            0 <= i < repo_counts(keys, urls).len() ==> {
                &&& urls.contains(#[trigger] repo_counts(keys, urls)[i].0)
                &&& repo_counts(keys, urls)[i].1 > 0
                &&& repo_counts(keys, urls)[i].1 == occurrences(keys, repo_counts(keys, urls)[i].0)
            },
        forall|i: int, j: int|
            0 <= i < j < repo_counts(keys, urls).len() ==> #[trigger] repo_counts(keys, urls)[i].0
                != #[trigger] repo_counts(keys, urls)[j].0,
    decreases urls.len(),
{
    if urls.len() > 0 {
        let us = urls.drop_last();
        let u = urls.last();
        law_counts_are_distinct_and_positive(keys, us);
        let prev = repo_counts(keys, us);
        assert forall|i: int| 0 <= i < prev.len() implies urls.contains(#[trigger] prev[i].0) by {
            let j = choose|j: int| 0 <= j < us.len() && us[j] == prev[i].0;
            assert(urls[j] == us[j]);
        }
        assert(urls[urls.len() - 1] == u);
        if us.contains(u) || occurrences(keys, u) == 0 {
            assert(prev == repo_counts(keys, urls));
        }
        if !(us.contains(u) || occurrences(keys, u) == 0) {
            let cur = prev.push((u, occurrences(keys, u)));
            assert forall|i: int| 0 <= i < prev.len() implies #[trigger] prev[i].0 != u by {
                let j = choose|j: int| 0 <= j < us.len() && us[j] == prev[i].0;
            }
            assert(cur == repo_counts(keys, urls));
            assert forall|i: int| 0 <= i < cur.len() implies {
                &&& urls.contains(#[trigger] cur[i].0)
                &&& cur[i].1 > 0
                &&& cur[i].1 == occurrences(keys, cur[i].0)
            } by {
                if i < prev.len() {
                    assert(cur[i] == prev[i]);
                } else {
                    assert(cur[i] == (u, occurrences(keys, u)));
                    assert(urls[urls.len() - 1] == cur[i].0);
                }
            }
            assert forall|i: int, j: int| 0 <= i < j < cur.len() implies #[trigger] cur[i].0 != #[trigger] cur[j].0 by {
                if j < prev.len() {
                    assert(cur[i] == prev[i] && cur[j] == prev[j]);
                } else {
                    assert(cur[i] == prev[i]);
                }
            }
        }
    }
}

proof fn lemma_occurrences_count(keys: Seq<Seq<char>>, u: Seq<char>)
    ensures
        occurrences(keys, u) == keys.to_multiset().count(u),
    decreases keys.len(),
{
    broadcast use vstd::multiset::group_multiset_axioms;

    if keys.len() == 0 {
        assert(keys.to_multiset() =~= vstd::multiset::Multiset::<Seq<char>>::empty()) by {
            broadcast use vstd::seq_lib::group_to_multiset_ensures;

        }
    } else {
        lemma_occurrences_count(keys.drop_last(), u);
        assert(keys.drop_last().push(keys.last()) =~= keys);
        vstd::seq_lib::to_multiset_build(keys.drop_last(), keys.last());
    }
}

proof fn lemma_repo_counts_same(k1: Seq<Seq<char>>, k2: Seq<Seq<char>>, urls: Seq<Seq<char>>)
    requires
        forall|u: Seq<char>| occurrences(k1, u) == occurrences(k2, u),
    ensures
        repo_counts(k1, urls) == repo_counts(k2, urls),
    decreases urls.len(),
{
    if urls.len() > 0 {
        lemma_repo_counts_same(k1, k2, urls.drop_last());
        assert(occurrences(k1, urls.last()) == occurrences(k2, urls.last()));
    }
}

proof fn lemma_all_matched_transfers(k1: Seq<Seq<char>>, k2: Seq<Seq<char>>, urls: Seq<Seq<char>>)
    requires
        k1.to_multiset() == k2.to_multiset(),
        forall|i: int| 0 <= i < k1.len() ==> urls.contains(#[trigger] k1[i]),
    ensures
        forall|j: int| 0 <= j < k2.len() ==> urls.contains(#[trigger] k2[j]),
{
    assert forall|j: int| 0 <= j < k2.len() implies urls.contains(#[trigger] k2[j]) by {
        vstd::seq_lib::to_multiset_contains(k2, k2[j]);
        vstd::seq_lib::to_multiset_contains(k1, k2[j]);
        assert(k2.contains(k2[j]));
        let i = choose|i: int| 0 <= i < k1.len() && k1[i] == k2[j];
        assert(urls.contains(k1[i]));
    }
}

/// Counting does not depend on the order of the items: the same items in another order
/// give the same counts, and counting fails for both or for neither.
pub proof fn law_counting_ignores_order(k1: Seq<Seq<char>>, k2: Seq<Seq<char>>, urls: Seq<Seq<char>>)
    requires
        k1.to_multiset() == k2.to_multiset(),
    ensures
        (stats_outcome(k1, urls) is Ok) == (stats_outcome(k2, urls) is Ok),
        repo_counts(k1, urls) == repo_counts(k2, urls),
{
    assert forall|u: Seq<char>| occurrences(k1, u) == occurrences(k2, u) by {
        lemma_occurrences_count(k1, u);
        lemma_occurrences_count(k2, u);
    }
    lemma_repo_counts_same(k1, k2, urls);
    lemma_unmatched_empty(k1, urls);
    lemma_unmatched_empty(k2, urls);
    if forall|i: int| 0 <= i < k1.len() ==> urls.contains(#[trigger] k1[i]) {
        lemma_all_matched_transfers(k1, k2, urls);
    }
    if forall|i: int| 0 <= i < k2.len() ==> urls.contains(#[trigger] k2[i]) {
        lemma_all_matched_transfers(k2, k1, urls);
    }
}

proof fn lemma_issue_repos_multiset(s1: Seq<IssueInfo>, s2: Seq<IssueInfo>)
    requires
        s1.to_multiset() == s2.to_multiset(),
    ensures
        issue_repos(s1).to_multiset() == issue_repos(s2).to_multiset(),
    decreases s1.len(),
{
    broadcast use vstd::multiset::group_multiset_axioms;
    broadcast use vstd::seq_lib::group_to_multiset_ensures;

    if s1.len() == 0 {
        vstd::seq_lib::to_multiset_len(s1);
        vstd::seq_lib::to_multiset_len(s2);
        assert(s2.len() == 0);
        assert(issue_repos(s1) =~= Seq::<Seq<char>>::empty());
        assert(issue_repos(s2) =~= Seq::<Seq<char>>::empty());
    } else {
        let x = s1.last();
        let r1 = s1.drop_last();
        assert(r1.push(x) =~= s1);
        assert(s1.to_multiset().count(x) > 0);
        assert(s2.contains(x));
        let j = choose|j: int| 0 <= j < s2.len() && s2[j] == x;
        let r2 = s2.remove(j);
        assert(r2.to_multiset() == s2.to_multiset().remove(x));
        assert(r1.to_multiset() =~= s1.to_multiset().remove(x));
        lemma_issue_repos_multiset(r1, r2);
        let f = drop_parts(x.html_url@, 2);
        assert(issue_repos(r1).push(f) =~= issue_repos(s1));
        assert(issue_repos(r2) =~= issue_repos(s2).remove(j));
        assert(issue_repos(s2)[j] == f);
        assert(issue_repos(s2).remove(j).to_multiset() == issue_repos(s2).to_multiset().remove(f));
        assert(issue_repos(s2).to_multiset().count(f) > 0) by {
            assert(issue_repos(s2).contains(f));
        }
        assert(issue_repos(s1).to_multiset() =~= issue_repos(s2).to_multiset());
    }
}

/// Making issue stats from the same issues in another order gives the same result: both
/// fail, or both give the same counts for the same repositories in the same order.
pub proof fn law_issue_stats_ignore_order(issues1: Seq<IssueInfo>, issues2: Seq<IssueInfo>, urls: Seq<Seq<char>>)
    requires
        issues1.to_multiset() == issues2.to_multiset(),
    ensures
        (stats_outcome(issue_repos(issues1), urls) is Ok) == (stats_outcome(issue_repos(issues2), urls) is Ok),
        stats_outcome(issue_repos(issues1), urls) is Ok ==> stats_outcome(issue_repos(issues1), urls)
            == stats_outcome(issue_repos(issues2), urls),
{
    lemma_issue_repos_multiset(issues1, issues2);
    law_counting_ignores_order(issue_repos(issues1), issue_repos(issues2), urls);
}

/// Every repository of the project that has items is listed, once found, with the number
/// of its items.
pub proof fn law_counts_list_every_busy_repo(keys: Seq<Seq<char>>, urls: Seq<Seq<char>>, u: Seq<char>)
    requires
        urls.contains(u),
        keys.to_multiset().count(u) > 0,
    ensures
        exists|i: int|
            0 <= i < repo_counts(keys, urls).len() && #[trigger] repo_counts(keys, urls)[i] == (
                u,
                keys.to_multiset().count(u),
            ),
    decreases urls.len(),
{
    lemma_occurrences_count(keys, u);
    let us = urls.drop_last();
    let prev = repo_counts(keys, us);
    let cur = repo_counts(keys, urls);
    let last = urls.last();
    assert(urls[urls.len() - 1] == last);
    if us.contains(u) {
        law_counts_list_every_busy_repo(keys, us, u);
        let i = choose|i: int| 0 <= i < prev.len() && #[trigger] prev[i] == (u, keys.to_multiset().count(u));
        if us.contains(last) || occurrences(keys, last) == 0 {
            assert(cur == prev);
        } else {
            assert(cur == prev.push((last, occurrences(keys, last))));
        }
        assert(cur[i] == prev[i]);
    } else {
        let j = choose|j: int| 0 <= j < urls.len() && urls[j] == u;
        if j < us.len() {
            assert(us[j] == u);
        }
        assert(last == u);
        assert(cur == prev.push((u, occurrences(keys, u))));
        assert(cur[prev.len() as int] == (u, keys.to_multiset().count(u)));
    }
}

/// `x` occurs in `s` before the first occurrence of `y`.
pub open spec fn comes_before(s: Seq<Seq<char>>, x: Seq<char>, y: Seq<char>) -> bool {
    exists|a: int, b: int|
        #![trigger s[a], s[b]]
        0 <= a < b < s.len() && s[a] == x && s[b] == y && !s.take(b).contains(y)
}

/// The counts come in the order of the project's repositories: a repository listed before
/// another occurs in the project before the other's first occurrence.
pub proof fn law_counts_follow_repo_order(keys: Seq<Seq<char>>, urls: Seq<Seq<char>>)
    ensures
        forall|i: int, j: int|
            0 <= i < j < repo_counts(keys, urls).len() ==> comes_before(
                urls,
                #[trigger] repo_counts(keys, urls)[i].0,
                #[trigger] repo_counts(keys, urls)[j].0,
            ),
    decreases urls.len(),
{
    if urls.len() > 0 {
        let us = urls.drop_last();
        let u = urls.last();
        let prev = repo_counts(keys, us);
        let cur = repo_counts(keys, urls);
        law_counts_follow_repo_order(keys, us);
        law_counts_are_distinct_and_positive(keys, us);
        assert(urls[urls.len() - 1] == u);
        assert forall|i: int, j: int|
            0 <= i < j < prev.len() implies comes_before(urls, #[trigger] prev[i].0, #[trigger] prev[j].0) by {
            assert(comes_before(us, prev[i].0, prev[j].0));
            let (a, b) = choose|a: int, b: int|
                #![trigger us[a], us[b]]
                0 <= a < b < us.len() && us[a] == prev[i].0 && us[b] == prev[j].0 && !us.take(b).contains(prev[j].0);
            assert(urls[a] == us[a] && urls[b] == us[b]);
            assert(urls.take(b) =~= us.take(b));
        }
        if us.contains(u) || occurrences(keys, u) == 0 {
            assert(cur == prev);
        } else {
            assert(cur == prev.push((u, occurrences(keys, u))));
            assert forall|i: int, j: int|
                0 <= i < j < cur.len() implies comes_before(urls, #[trigger] cur[i].0, #[trigger] cur[j].0) by {
                assert(cur[i] == prev[i]);
                if j < prev.len() {
                    assert(cur[j] == prev[j]);
                } else {
                    assert(cur[j].0 == u);
                    assert(us.contains(#[trigger] prev[i].0));
                    let a = choose|a: int| 0 <= a < us.len() && us[a] == prev[i].0;
                    let b = us.len() as int;
                    assert(urls[a] == us[a]);
                    assert(urls.take(b) =~= us);
                    assert(urls[b] == u);
                }
            }
        }
    }
}

} // verus!
