//! The shortlog report: the commits of a history, summed up by author.
//!
//! The commits are given as plain values. They are filtered by date, grouped
//! by author, the authors are put in order, and the report is written as text:
//! one line for each author with the number of commits, followed by the
//! subjects of the commits unless only the summary is asked for.

use crate::text::{
    chars_of, decimal, decimal_of, find_char, index_of, lemma_index_of_found, lowercase,
    same_text, string_of, subvec, texts, to_lowercase, trim, trimmed,
};
use vstd::prelude::*;
use vstd::string::StringExecFns;

verus! {

/// The options of the report.
#[derive(Debug)]
pub struct ShortlogArgs {
    /// Order the authors by their number of commits, most first.
    pub numbered: bool,
    /// Leave the subjects out and give the numbers only.
    pub summary: bool,
    /// Show the e-mail address of each author, and tell authors apart by it.
    pub email: bool,
    /// Only commits at or after this date.
    pub since: Option<String>,
    /// Only commits at or before this date.
    pub until: Option<String>,
}

/// What the report reads of a commit.
#[derive(Debug)]
pub struct CommitInfo {
    pub author_name: String,
    pub author_email: String,
    /// When the author wrote the change, in seconds.
    pub author_time: u64,
    /// When the change was committed, in seconds.
    pub committer_time: i64,
    pub message: String,
}

/// A commit as plain values.
pub struct CommitModel {
    pub author_name: Seq<char>,
    pub author_email: Seq<char>,
    pub author_time: u64,
    pub committer_time: i64,
    pub message: Seq<char>,
}

impl View for CommitInfo {
    type V = CommitModel;

    open spec fn view(&self) -> CommitModel {
        CommitModel {
            author_name: self.author_name@,
            author_email: self.author_email@,
            author_time: self.author_time,
            committer_time: self.committer_time,
            message: self.message@,
        }
    }
}

/// The commits as plain values, in order.
pub open spec fn commit_models(commits: Seq<CommitInfo>) -> Seq<CommitModel> {
    Seq::new(commits.len(), |i: int| commits[i]@)
}

/// Whether a time lies within the bounds, each of which may be absent. The
/// bounds themselves are within.
pub open spec fn within(time: i64, since: Option<i64>, until: Option<i64>) -> bool {
    &&& since matches Some(s) ==> time >= s
    &&& until matches Some(u) ==> time <= u
}

/// Whether a commit of the given committer time passes the date filter.
pub fn passes_filter(commit_ts: i64, since_ts: Option<i64>, until_ts: Option<i64>) -> (r: bool)
    ensures
        r == within(commit_ts, since_ts, until_ts),
{
    if let Some(since) = since_ts {
        if commit_ts < since {
            return false;
        }
    }
    if let Some(until) = until_ts {
        if commit_ts > until {
            return false;
        }
    }
    true
}

/// The subject of a commit message: the first line of the trimmed message,
/// without the carriage return of a line that ends in one.
pub open spec fn subject(message: Seq<char>) -> Seq<char> {
    let t = trimmed(message);
    let e = index_of(t, '\n');
    if 0 < e < t.len() && t[e - 1] == '\r' {
        t.take(e - 1)
    } else {
        t.take(e)
    }
}

/// The subject of a commit message.
pub fn subject_of(message: &str) -> (r: String)
    ensures
        r@ == subject(message@),
{
    let all = chars_of(message);
    let t = trim(&all);
    let e = find_char(&t, 0, '\n');
    proof {
        assert(t@.skip(0) =~= t@);
        lemma_index_of_found(t@, '\n');
    }
    let end: usize = if 0 < e && e < t.len() && t[e - 1] == '\r' {
        e - 1
    } else {
        e
    };
    let line = subvec(&t, 0, end);
    proof {
        assert(t@.take(end as int) =~= line@);
    }
    string_of(&line)
}

/// The key under which the commits of an author are counted: the name, with
/// the address behind it where authors are told apart by their address.
pub open spec fn author_key(name: Seq<char>, email: Seq<char>, by_email: bool) -> Seq<char> {
    if by_email {
        name + " <"@ + email + ">"@
    } else {
        name
    }
}

/// The key under which the commits of an author are counted.
pub fn key_of(name: &str, email: &str, by_email: bool) -> (r: String)
    ensures
        r@ == author_key(name@, email@, by_email),
{
    let mut r = name.to_owned();
    if by_email {
        r.append(" <");
        r.append(email);
        r.append(">");
    }
    r
}

/// The commits of one author.
#[derive(Debug)]
pub struct AuthorStats {
    name: String,
    email: String,
    subjects: Vec<String>,
}

/// The commits of one author, as plain values. The number of commits is the
/// number of subjects.
pub struct AuthorModel {
    pub name: Seq<char>,
    pub email: Seq<char>,
    pub subjects: Seq<Seq<char>>,
}

impl AuthorStats {
    /// The author as plain values.
    pub closed spec fn model(&self) -> AuthorModel {
        AuthorModel { name: self.name@, email: self.email@, subjects: texts(self.subjects@) }
    }

    /// An author without commits.
    pub fn new(name: String, email: String) -> (r: Self)
        ensures
            r.model() == (AuthorModel { name: name@, email: email@, subjects: Seq::empty() }),
    {
        let r = AuthorStats { name, email, subjects: Vec::new() };
        proof {
            assert(texts(r.subjects@) =~= Seq::<Seq<char>>::empty());
        }
        r
    }

    /// Counts one more commit, with the given subject.
    pub fn add_commit(&mut self, subject: String)
        ensures
            final(self).model() == (AuthorModel {
                subjects: old(self).model().subjects.push(subject@),
                ..old(self).model()
            }),
    {
        let ghost before = texts(self.subjects@);
        self.subjects.push(subject);
        proof {
            assert(texts(self.subjects@) =~= before.push(subject@));
        }
    }

    /// The name of the author.
    pub fn name(&self) -> (r: &String)
        ensures
            r@ == self.model().name,
    {
        &self.name
    }

    /// The address of the author.
    pub fn email(&self) -> (r: &String)
        ensures
            r@ == self.model().email,
    {
        &self.email
    }

    /// The number of commits that were counted.
    pub fn count(&self) -> (r: usize)
        ensures
            r == self.model().subjects.len(),
    {
        self.subjects.len()
    }

    /// The subjects of the commits, in the order in which they were counted.
    pub fn subjects(&self) -> (r: &Vec<String>)
        ensures
            texts(r@) == self.model().subjects,
    {
        &self.subjects
    }
}

/// Whether `a` comes before `b` or is `b`, in the order of a dictionary with
/// the characters in the order of their code points.
pub open spec fn lex_le(a: Seq<char>, b: Seq<char>) -> bool
    decreases a.len(),
{
    if a.len() == 0 {
        true
    } else if b.len() == 0 {
        false
    } else if a[0] != b[0] {
        a[0] < b[0]
    } else {
        lex_le(a.skip(1), b.skip(1))
    }
}

fn lex_le_chars(a: &Vec<char>, b: &Vec<char>) -> (r: bool)
    ensures
        r == lex_le(a@, b@),
{
    let mut i: usize = 0;
    proof {
        assert(a@.skip(0) =~= a@);
        assert(b@.skip(0) =~= b@);
    }
    loop
        invariant
            i <= a.len(),
            i <= b.len(),
            lex_le(a@, b@) == lex_le(a@.skip(i as int), b@.skip(i as int)),
        decreases a.len() - i,
    {
        if i >= a.len() {
            return true;
        }
        if i >= b.len() {
            return false;
        }
        if a[i] != b[i] {
            return a[i] < b[i];
        }
        proof {
            assert(a@.skip(i as int).skip(1) =~= a@.skip(i + 1));
            assert(b@.skip(i as int).skip(1) =~= b@.skip(i + 1));
        }
        i += 1;
    }
}

/// What entries are ordered by: a rank, lowest first, and among equal ranks a
/// name, in the order of a dictionary.
pub struct SortKey {
    pub rank: u64,
    pub name: Vec<char>,
}

/// A sort key as plain values.
pub struct KeyModel {
    pub rank: u64,
    pub name: Seq<char>,
}

impl View for SortKey {
    type V = KeyModel;

    open spec fn view(&self) -> KeyModel {
        KeyModel { rank: self.rank, name: self.name@ }
    }
}

/// The keys as plain values, in order.
pub open spec fn key_models(keys: Seq<SortKey>) -> Seq<KeyModel> {
    Seq::new(keys.len(), |i: int| keys[i]@)
}

/// Whether the key `a` is at most the key `b`.
pub open spec fn key_le(a: KeyModel, b: KeyModel) -> bool {
    a.rank < b.rank || (a.rank == b.rank && lex_le(a.name, b.name))
}

/// The number of leading entries of `order` whose key is at most that of `x`.
pub open spec fn slot(keys: Seq<KeyModel>, order: Seq<int>, x: int) -> int
    decreases order.len(),
{
    if order.len() == 0 || !key_le(keys[order[0]], keys[x]) {
        0
    } else {
        1 + slot(keys, order.skip(1), x)
    }
}

/// The positions of the keys in ascending order of the keys; equal keys keep
/// the order of their positions. Each key in turn is put behind the keys so far
/// that are at most it.
pub open spec fn ranked(keys: Seq<KeyModel>) -> Seq<int>
    decreases keys.len(),
{
    if keys.len() == 0 {
        Seq::empty()
    } else {
        let before = ranked(keys.drop_last());
        let x = keys.len() - 1;
        before.insert(slot(keys, before, x), x)
    }
}

/// Of two texts one comes before the other or is it.
pub proof fn lemma_lex_total(a: Seq<char>, b: Seq<char>)
    ensures
        lex_le(a, b) || lex_le(b, a),
    decreases a.len(),
{
    if a.len() > 0 && b.len() > 0 && a[0] == b[0] {
        lemma_lex_total(a.skip(1), b.skip(1));
    }
}

/// The order of texts is transitive.
pub proof fn lemma_lex_transitive(a: Seq<char>, b: Seq<char>, c: Seq<char>)
    requires
        lex_le(a, b),
        lex_le(b, c),
    ensures
        lex_le(a, c),
    decreases a.len(),
{
    if a.len() > 0 && b.len() > 0 && c.len() > 0 && a[0] == b[0] && b[0] == c[0] {
        lemma_lex_transitive(a.skip(1), b.skip(1), c.skip(1));
    }
}

/// Of two keys one is at most the other.
pub proof fn lemma_key_total(a: KeyModel, b: KeyModel)
    ensures
        key_le(a, b) || key_le(b, a),
{
    lemma_lex_total(a.name, b.name);
}

/// The order of keys is transitive.
pub proof fn lemma_key_transitive(a: KeyModel, b: KeyModel, c: KeyModel)
    requires
        key_le(a, b),
        key_le(b, c),
    ensures
        key_le(a, c),
{
    if a.rank == b.rank && b.rank == c.rank {
        lemma_lex_transitive(a.name, b.name, c.name);
    }
}

/// Whether `order` lists each position of the keys once, in ascending order of
/// the keys, positions of equal keys in ascending order.
pub open spec fn is_ranking(keys: Seq<KeyModel>, order: Seq<int>) -> bool {
    &&& order.len() == keys.len()
    &&& forall|i: int| 0 <= i < order.len() ==> 0 <= #[trigger] order[i] < keys.len()
    &&& forall|i: int, j: int| 0 <= i < j < order.len() ==> order[i] != order[j]
    &&& forall|i: int, j: int|
        0 <= i < j < order.len() ==> key_le(keys[#[trigger] order[i]], keys[#[trigger] order[j]])
    &&& forall|i: int, j: int|
        0 <= i < j < order.len() && key_le(keys[#[trigger] order[j]], keys[#[trigger] order[i]])
            ==> order[i] < order[j]
}

proof fn lemma_slot_bounds(keys: Seq<KeyModel>, order: Seq<int>, x: int)
    ensures
        0 <= slot(keys, order, x) <= order.len(),
        forall|i: int| 0 <= i < slot(keys, order, x) ==> key_le(keys[#[trigger] order[i]], keys[x]),
        slot(keys, order, x) < order.len() ==> !key_le(
            keys[order[slot(keys, order, x)]],
            keys[x],
        ),
    decreases order.len(),
{
    if order.len() == 0 || !key_le(keys[order[0]], keys[x]) {
    } else {
        lemma_slot_bounds(keys, order.skip(1), x);
        let p = slot(keys, order, x);
        assert forall|i: int| 0 <= i < p implies key_le(keys[#[trigger] order[i]], keys[x]) by {
            if i > 0 {
                assert(order.skip(1)[i - 1] == order[i]);
            }
        }
        if p < order.len() {
            assert(order.skip(1)[p - 1] == order[p]);
        }
    }
}

/// `ranked` puts the positions of the keys in order: each position once, keys
/// ascending, and positions of equal keys ascending.
pub proof fn lemma_ranked_is_ranking(keys: Seq<KeyModel>)
    ensures
        is_ranking(keys, ranked(keys)),
    decreases keys.len(),
{
    if keys.len() > 0 {
        let part = keys.drop_last();
        let before = ranked(part);
        let x = keys.len() - 1;
        let p = slot(keys, before, x);
        let after = ranked(keys);
        lemma_ranked_is_ranking(part);
        lemma_slot_bounds(keys, before, x);
        assert forall|i: int| 0 <= i < before.len() implies part[#[trigger] before[i]]
            == keys[before[i]] by {}
        assert forall|q: int| p <= q < before.len() implies key_le(
            keys[x],
            keys[#[trigger] before[q]],
        ) && !key_le(keys[before[q]], keys[x]) by {
            let first = keys[before[p]];
            let here = keys[before[q]];
            lemma_key_total(first, keys[x]);
            if q > p {
                assert(key_le(part[before[p]], part[before[q]]));
                lemma_key_transitive(keys[x], first, here);
                if key_le(here, keys[x]) {
                    lemma_key_transitive(first, here, keys[x]);
                }
            }
        }
        assert forall|i: int| 0 <= i < after.len() implies 0 <= #[trigger] after[i]
            < keys.len() by {
            if i < p {
                assert(after[i] == before[i]);
            } else if i > p {
                assert(after[i] == before[i - 1]);
            }
        }
        assert forall|i: int, j: int| 0 <= i < j < after.len() implies after[i] != after[j]
            && key_le(keys[#[trigger] after[i]], keys[#[trigger] after[j]]) && (key_le(
            keys[after[j]],
            keys[after[i]],
        ) ==> after[i] < after[j]) by {
            let a = if i < p {
                i
            } else {
                i - 1
            };
            let b = if j < p {
                j
            } else {
                j - 1
            };
            if i != p {
                assert(after[i] == before[a]);
            }
            if j != p {
                assert(after[j] == before[b]);
            }
            if i != p && j != p {
                assert(0 <= a < b < before.len());
                assert(key_le(part[before[a]], part[before[b]]));
            }
        }
    }
}

/// The positions as integers.
pub open spec fn positions(order: Seq<usize>) -> Seq<int> {
    Seq::new(order.len(), |i: int| order[i] as int)
}

fn at_most(a: &SortKey, b: &SortKey) -> (r: bool)
    ensures
        r == key_le(a@, b@),
{
    a.rank < b.rank || (a.rank == b.rank && lex_le_chars(&a.name, &b.name))
}

/// `slot` reads the keys only at the positions in `order` and at `x`.
proof fn lemma_slot_reads(a: Seq<KeyModel>, b: Seq<KeyModel>, order: Seq<int>, x: int)
    requires
        a[x] == b[x],
        forall|i: int| 0 <= i < order.len() ==> a[#[trigger] order[i]] == b[order[i]],
    ensures
        slot(a, order, x) == slot(b, order, x),
    decreases order.len(),
{
    if order.len() > 0 {
        assert(a[order[0]] == b[order[0]]);
        assert forall|i: int| 0 <= i < order.skip(1).len() implies a[#[trigger] order.skip(1)[i]]
            == b[order.skip(1)[i]] by {
            assert(order.skip(1)[i] == order[i + 1]);
        }
        lemma_slot_reads(a, b, order.skip(1), x);
    }
}

/// The positions of the keys in ascending order of the keys; equal keys keep
/// the order of their positions.
pub fn rank(keys: &Vec<SortKey>) -> (order: Vec<usize>)
    ensures
        positions(order@) == ranked(key_models(keys@)),
        is_ranking(key_models(keys@), positions(order@)),
        order@.len() == keys@.len(),
        forall|i: int| 0 <= i < order@.len() ==> order@[i] < keys@.len(),
{
    let ghost all = key_models(keys@);
    let mut order: Vec<usize> = Vec::new();
    let mut x: usize = 0;
    proof {
        assert(all.take(0) =~= Seq::<KeyModel>::empty());
        assert(positions(order@) =~= Seq::<int>::empty());
    }
    while x < keys.len()
        invariant
            x <= keys.len(),
            all == key_models(keys@),
            order@.len() == x,
            positions(order@) == ranked(all.take(x as int)),
            forall|i: int| 0 <= i < order@.len() ==> order@[i] < x,
        decreases keys.len() - x,
    {
        let mut p: usize = 0;
        let ghost before = positions(order@);
        proof {
            assert(before.skip(0) =~= before);
        }
        while p < order.len() && at_most(&keys[order[p]], &keys[x])
            invariant
                p <= order.len(),
                x < keys.len(),
                all == key_models(keys@),
                before == positions(order@),
                forall|i: int| 0 <= i < order@.len() ==> order@[i] < x,
                slot(all, before, x as int) == p + slot(all, before.skip(p as int), x as int),
            decreases order.len() - p,
        {
            proof {
                assert(before.skip(p as int)[0] == order@[p as int]);
                assert(before.skip(p as int).skip(1) =~= before.skip(p + 1));
            }
            p += 1;
        }
        proof {
            if p < order.len() {
                assert(before.skip(p as int)[0] == order@[p as int]);
            }
            let part = all.take(x + 1);
            assert(part.drop_last() =~= all.take(x as int));
            assert forall|i: int| 0 <= i < before.len() implies all[#[trigger] before[i]]
                == part[before[i]] by {
                assert(before[i] == order@[i]);
            }
            lemma_slot_reads(all, part, before, x as int);
        }
        order.insert(p, x);
        proof {
            assert(positions(order@) =~= before.insert(p as int, x as int));
        }
        x += 1;
    }
    proof {
        assert(all.take(keys.len() as int) =~= all);
        lemma_ranked_is_ranking(all);
    }
    order
}

impl Clone for CommitInfo {
    fn clone(&self) -> (r: Self)
        ensures
            r@ == self@,
    {
        CommitInfo {
            author_name: self.author_name.clone(),
            author_email: self.author_email.clone(),
            author_time: self.author_time,
            committer_time: self.committer_time,
            message: self.message.clone(),
        }
    }
}

/// The items at the given positions, in the order of the positions.
pub open spec fn picked<A>(items: Seq<A>, order: Seq<int>) -> Seq<A> {
    Seq::new(order.len(), |k: int| items[order[k]])
}

/// The commits whose committer time passes the date filter, in their order.
pub open spec fn kept(commits: Seq<CommitModel>, since: Option<i64>, until: Option<i64>) -> Seq<
    CommitModel,
> {
    commits.filter(|c: CommitModel| within(c.committer_time, since, until))
}

/// The keys that put commits in the order of their author time, newest first.
pub open spec fn time_keys(commits: Seq<CommitModel>) -> Seq<KeyModel> {
    Seq::new(
        commits.len(),
        |i: int| KeyModel { rank: (u64::MAX - commits[i].author_time) as u64, name: Seq::empty() },
    )
}

/// The commits of the report: those that pass the date filter, the newest
/// author time first; commits of the same author time keep their order.
pub open spec fn chosen(commits: Seq<CommitModel>, since: Option<i64>, until: Option<i64>) -> Seq<
    CommitModel,
> {
    picked(kept(commits, since, until), ranked(time_keys(kept(commits, since, until))))
}

/// The commits of the report, from all commits of the history.
pub fn select_commits(commits: &Vec<CommitInfo>, since_ts: Option<i64>, until_ts: Option<i64>) -> (r:
    Vec<CommitInfo>)
    ensures
        commit_models(r@) == chosen(commit_models(commits@), since_ts, until_ts),
{
    let ghost all = commit_models(commits@);
    let ghost pass = |c: CommitModel| within(c.committer_time, since_ts, until_ts);
    let mut passed: Vec<CommitInfo> = Vec::new();
    let mut keys: Vec<SortKey> = Vec::new();
    let mut i: usize = 0;
    proof {
        assert(all.take(0) =~= Seq::<CommitModel>::empty());
        reveal(Seq::filter);
        assert(commit_models(passed@) =~= all.take(0).filter(pass));
    }
    while i < commits.len()
        invariant
            i <= commits.len(),
            all == commit_models(commits@),
            pass == |c: CommitModel| within(c.committer_time, since_ts, until_ts),
            commit_models(passed@) == all.take(i as int).filter(pass),
            key_models(keys@) == time_keys(commit_models(passed@)),
        decreases commits.len() - i,
    {
        let ghost before = commit_models(passed@);
        let ghost keys_before = key_models(keys@);
        proof {
            assert(all.take(i + 1) =~= all.take(i as int).push(commits@[i as int]@));
            all.take(i as int).lemma_filter_push(commits@[i as int]@, pass);
        }
        if passes_filter(commits[i].committer_time, since_ts, until_ts) {
            let c = commits[i].clone();
            let key = SortKey { rank: u64::MAX - c.author_time, name: Vec::new() };
            passed.push(c);
            keys.push(key);
            proof {
                assert(commit_models(passed@) =~= before.push(c@));
                assert(key_models(keys@) =~= keys_before.push(key@));
                assert(key_models(keys@) =~= time_keys(commit_models(passed@)));
            }
        }
        i += 1;
    }
    proof {
        assert(all.take(commits.len() as int) =~= all);
    }
    let order = rank(&keys);
    let mut r: Vec<CommitInfo> = Vec::new();
    let mut k: usize = 0;
    let ghost want = chosen(all, since_ts, until_ts);
    while k < order.len()
        invariant
            k <= order.len(),
            order@.len() == passed@.len(),
            forall|j: int| 0 <= j < order@.len() ==> order@[j] < passed@.len(),
            want == picked(commit_models(passed@), positions(order@)),
            commit_models(r@) == want.take(k as int),
        decreases order.len() - k,
    {
        let ghost before = commit_models(r@);
        let c = passed[order[k]].clone();
        r.push(c);
        proof {
            assert(commit_models(r@) =~= before.push(c@));
            assert(want.take(k + 1) =~= want.take(k as int).push(want[k as int]));
        }
        k += 1;
    }
    proof {
        assert(want.take(order.len() as int) =~= want);
    }
    r
}

/// The commits of one author under the key by which they are counted.
pub struct Group {
    pub key: Seq<char>,
    pub author: AuthorModel,
}

/// The position of the first group with the given key, or the number of groups
/// where there is none.
pub open spec fn key_position(groups: Seq<Group>, key: Seq<char>) -> int
    decreases groups.len(),
{
    if groups.len() == 0 || groups[0].key == key {
        0
    } else {
        1 + key_position(groups.skip(1), key)
    }
}

/// The groups after one more commit: its subject is added to the group of its
/// author, which is opened at the end, under the name and the address of this
/// commit, where there is none yet.
pub open spec fn counted_in(groups: Seq<Group>, c: CommitModel, by_email: bool) -> Seq<Group> {
    let key = author_key(c.author_name, c.author_email, by_email);
    let at = key_position(groups, key);
    if 0 <= at < groups.len() {
        groups.update(
            at,
            Group {
                key,
                author: AuthorModel {
                    subjects: groups[at].author.subjects.push(subject(c.message)),
                    ..groups[at].author
                },
            },
        )
    } else {
        groups.push(
            Group {
                key,
                author: AuthorModel {
                    name: c.author_name,
                    email: c.author_email,
                    subjects: seq![subject(c.message)],
                },
            },
        )
    }
}

/// The commits in groups by author, in the order in which the authors first
/// occur. Within a group the subjects are in the order of the commits.
pub open spec fn grouped(commits: Seq<CommitModel>, by_email: bool) -> Seq<Group>
    decreases commits.len(),
{
    if commits.len() == 0 {
        Seq::empty()
    } else {
        counted_in(grouped(commits.drop_last(), by_email), commits.last(), by_email)
    }
}

/// The authors of the groups, in order.
pub open spec fn authors_of(groups: Seq<Group>) -> Seq<AuthorModel> {
    Seq::new(groups.len(), |i: int| groups[i].author)
}

/// The authors as plain values, in order.
pub open spec fn author_models(authors: Seq<AuthorStats>) -> Seq<AuthorModel> {
    Seq::new(authors.len(), |i: int| authors[i].model())
}

proof fn lemma_key_position(groups: Seq<Group>, key: Seq<char>, e: int)
    requires
        0 <= e <= groups.len(),
        forall|i: int| 0 <= i < e ==> groups[i].key != key,
        e == groups.len() || groups[e].key == key,
    ensures
        key_position(groups, key) == e,
    decreases e,
{
    if e > 0 {
        lemma_key_position(groups.skip(1), key, e - 1);
    }
}

/// Groups the commits by author.
pub fn group_by_author(commits: &Vec<CommitInfo>, by_email: bool) -> (r: Vec<AuthorStats>)
    ensures
        author_models(r@) == authors_of(grouped(commit_models(commits@), by_email)),
{
    let ghost all = commit_models(commits@);
    let mut keys: Vec<String> = Vec::new();
    let mut authors: Vec<AuthorStats> = Vec::new();
    let mut i: usize = 0;
    proof {
        assert(all.take(0) =~= Seq::<CommitModel>::empty());
    }
    while i < commits.len()
        invariant
            i <= commits.len(),
            all == commit_models(commits@),
            keys@.len() == authors@.len(),
            keys@.len() == grouped(all.take(i as int), by_email).len(),
            forall|j: int|
                0 <= j < keys@.len() ==> #[trigger] grouped(all.take(i as int), by_email)[j] == (
                Group { key: keys@[j]@, author: authors@[j].model() }),
        decreases commits.len() - i,
    {
        let c = &commits[i];
        let ghost groups = grouped(all.take(i as int), by_email);
        proof {
            assert(all.take(i + 1).drop_last() =~= all.take(i as int));
            assert(all.take(i + 1).last() == c@);
        }
        let key = key_of(c.author_name.as_str(), c.author_email.as_str(), by_email);
        let subject = subject_of(c.message.as_str());
        let mut at: usize = 0;
        while at < keys.len() && !same_text(keys[at].as_str(), key.as_str())
            invariant
                at <= keys.len(),
                forall|j: int| 0 <= j < at ==> keys@[j]@ != key@,
            decreases keys.len() - at,
        {
            at += 1;
        }
        proof {
            assert forall|j: int| 0 <= j < at implies groups[j].key != key@ by {
                assert(groups[j].key == keys@[j]@);
            }
            if at < keys.len() {
                assert(groups[at as int].key == keys@[at as int]@);
            }
            lemma_key_position(groups, key@, at as int);
        }
        if at < keys.len() {
            let ghost old_authors = authors@;
            let mut stats = authors.remove(at);
            stats.add_commit(subject);
            authors.insert(at, stats);
            proof {
                let next = grouped(all.take(i + 1), by_email);
                assert(authors@ =~= old_authors.update(at as int, stats));
                assert forall|j: int| 0 <= j < keys@.len() implies #[trigger] next[j] == (Group {
                    key: keys@[j]@,
                    author: authors@[j].model(),
                }) by {
                    if j != at {
                        assert(next[j] == groups[j]);
                    }
                }
            }
        } else {
            let mut stats = AuthorStats::new(c.author_name.clone(), c.author_email.clone());
            stats.add_commit(subject);
            proof {
                assert(Seq::<Seq<char>>::empty().push(subject@) =~= seq![subject@]);
            }
            keys.push(key);
            authors.push(stats);
            proof {
                let next = grouped(all.take(i + 1), by_email);
                assert forall|j: int| 0 <= j < keys@.len() implies #[trigger] next[j] == (Group {
                    key: keys@[j]@,
                    author: authors@[j].model(),
                }) by {
                    if j < keys@.len() - 1 {
                        assert(next[j] == groups[j]);
                    }
                }
            }
        }
        i += 1;
    }
    proof {
        assert(all.take(commits.len() as int) =~= all);
        assert(author_models(authors@) =~= authors_of(grouped(all, by_email)));
    }
    authors
}

/// The keys that put authors in the order of the report: by name, without
/// regard to case; where the report is numbered, by the number of commits
/// first, most commits first.
pub open spec fn author_keys(authors: Seq<AuthorModel>, numbered: bool) -> Seq<KeyModel> {
    Seq::new(
        authors.len(),
        |i: int|
            KeyModel {
                rank: if numbered {
                    (u64::MAX - authors[i].subjects.len()) as u64
                } else {
                    0
                },
                name: lowercase(authors[i].name),
            },
    )
}

/// The order in which the report lists the authors, as positions.
pub fn order_authors(authors: &Vec<AuthorStats>, numbered: bool) -> (r: Vec<usize>)
    ensures
        positions(r@) == ranked(author_keys(author_models(authors@), numbered)),
        r@.len() == authors@.len(),
        forall|i: int| 0 <= i < r@.len() ==> r@[i] < authors@.len(),
{
    let mut keys: Vec<SortKey> = Vec::new();
    let mut i: usize = 0;
    while i < authors.len()
        invariant
            i <= authors.len(),
            keys@.len() == i,
            forall|j: int|
                0 <= j < i ==> #[trigger] keys@[j]@ == author_keys(
                    author_models(authors@),
                    numbered,
                )[j],
        decreases authors.len() - i,
    {
        let a = &authors[i];
        let n = a.count();
        let rank: u64 = if numbered {
            u64::MAX - (n as u64)
        } else {
            0
        };
        let lowered = to_lowercase(a.name().as_str());
        keys.push(SortKey { rank, name: chars_of(lowered.as_str()) });
        i += 1;
    }
    proof {
        assert(key_models(keys@) =~= author_keys(author_models(authors@), numbered));
    }
    rank(&keys)
}

/// `n` spaces.
pub open spec fn spaces(n: nat) -> Seq<char> {
    Seq::new(n, |i: int| ' ')
}

/// The text behind as many spaces as bring it to the given width; the text
/// alone where it is at least that wide.
pub open spec fn right_aligned(text: Seq<char>, width: nat) -> Seq<char> {
    if text.len() < width {
        spaces((width - text.len()) as nat) + text
    } else {
        text
    }
}

/// The line of an author: the number of commits, right-aligned, two spaces,
/// the name, and the address in angle brackets where it is shown.
pub open spec fn author_line(a: AuthorModel, width: nat, email: bool) -> Seq<char> {
    right_aligned(decimal(a.subjects.len()), width) + "  "@ + a.name + (if email {
        " <"@ + a.email + ">"@
    } else {
        Seq::empty()
    }) + "\n"@
}

/// One line for each subject, indented by six spaces.
pub open spec fn subject_lines(subjects: Seq<Seq<char>>) -> Seq<char>
    decreases subjects.len(),
{
    if subjects.len() == 0 {
        Seq::empty()
    } else {
        subject_lines(subjects.drop_last()) + "      "@ + subjects.last() + "\n"@
    }
}

/// What the report says of one author.
pub open spec fn author_block(a: AuthorModel, width: nat, email: bool, summary: bool) -> Seq<
    char,
> {
    if summary {
        author_line(a, width, email)
    } else {
        author_line(a, width, email) + subject_lines(a.subjects)
    }
}

/// The report for the authors in the given order.
pub open spec fn rendered(authors: Seq<AuthorModel>, width: nat, email: bool, summary: bool) -> Seq<
    char,
>
    decreases authors.len(),
{
    if authors.len() == 0 {
        Seq::empty()
    } else {
        rendered(authors.drop_last(), width, email, summary) + author_block(
            authors.last(),
            width,
            email,
            summary,
        )
    }
}

/// The largest number of commits of one author; zero without authors.
pub open spec fn most_commits(authors: Seq<AuthorModel>) -> nat
    decreases authors.len(),
{
    if authors.len() == 0 {
        0
    } else if authors.last().subjects.len() > most_commits(authors.drop_last()) {
        authors.last().subjects.len()
    } else {
        most_commits(authors.drop_last())
    }
}

/// The width of the column of numbers: that of the largest number, and at
/// least four.
pub open spec fn column_width(authors: Seq<AuthorModel>) -> nat {
    if decimal(most_commits(authors)).len() > 4 {
        decimal(most_commits(authors)).len()
    } else {
        4
    }
}

fn push_text(out: &mut String, text: &str)
    ensures
        final(out)@ == old(out)@ + text@,
{
    out.append(text);
}

fn push_spaces(out: &mut String, n: usize)
    ensures
        final(out)@ == old(out)@ + spaces(n as nat),
{
    let mut i: usize = 0;
    proof {
        assert(out@ + spaces(0) =~= out@);
    }
    while i < n
        invariant
            i <= n,
            out@ == old(out)@ + spaces(i as nat),
        decreases n - i,
    {
        out.append(" ");
        proof {
            reveal_strlit(" ");
            assert(" "@ =~= seq![' ']);
            assert(old(out)@ + spaces(i as nat) + seq![' '] =~= old(out)@ + spaces(
                (i + 1) as nat,
            ));
        }
        i += 1;
    }
}

fn write_author(out: &mut String, a: &AuthorStats, width: usize, email: bool, summary: bool)
    ensures
        final(out)@ == old(out)@ + author_block(a.model(), width as nat, email, summary),
{
    let number = decimal_of(a.count());
    if number.len() < width {
        push_spaces(out, width - number.len());
    }
    let digits = string_of(&number);
    push_text(out, digits.as_str());
    push_text(out, "  ");
    push_text(out, a.name().as_str());
    if email {
        push_text(out, " <");
        push_text(out, a.email().as_str());
        push_text(out, ">");
    }
    push_text(out, "\n");
    proof {
        let line = author_line(a.model(), width as nat, email);
        let aligned = right_aligned(decimal(a.model().subjects.len()), width as nat);
        if email {
            assert(out@ =~= old(out)@ + (aligned + "  "@ + a.model().name + (" <"@
                + a.model().email + ">"@) + "\n"@));
        } else {
            assert(out@ =~= old(out)@ + (aligned + "  "@ + a.model().name
                + Seq::<char>::empty() + "\n"@));
        }
        assert(out@ == old(out)@ + line);
    }
    if !summary {
        let subjects = a.subjects();
        let ghost start = out@;
        let mut i: usize = 0;
        proof {
            assert(texts(subjects@).take(0) =~= Seq::<Seq<char>>::empty());
            assert(start + subject_lines(Seq::<Seq<char>>::empty()) =~= start);
        }
        while i < subjects.len()
            invariant
                i <= subjects.len(),
                out@ == start + subject_lines(texts(subjects@).take(i as int)),
            decreases subjects.len() - i,
        {
            let ghost so_far = subject_lines(texts(subjects@).take(i as int));
            push_text(out, "      ");
            push_text(out, subjects[i].as_str());
            push_text(out, "\n");
            proof {
                let next = texts(subjects@).take(i + 1);
                assert(next.drop_last() =~= texts(subjects@).take(i as int));
                assert(next.last() == subjects@[i as int]@);
                assert(out@ =~= start + (so_far + "      "@ + subjects@[i as int]@ + "\n"@));
            }
            i += 1;
        }
        proof {
            assert(texts(subjects@).take(subjects.len() as int) =~= texts(subjects@));
            let line = author_line(a.model(), width as nat, email);
            assert(out@ =~= old(out)@ + (line + subject_lines(a.model().subjects)));
        }
    }
}

fn width_for(authors: &Vec<AuthorStats>) -> (w: usize)
    ensures
        w == column_width(author_models(authors@)),
{
    let ghost all = author_models(authors@);
    let mut most: usize = 0;
    let mut i: usize = 0;
    proof {
        assert(all.take(0) =~= Seq::<AuthorModel>::empty());
    }
    while i < authors.len()
        invariant
            i <= authors.len(),
            all == author_models(authors@),
            most == most_commits(all.take(i as int)),
        decreases authors.len() - i,
    {
        proof {
            assert(all.take(i + 1).drop_last() =~= all.take(i as int));
            assert(all.take(i + 1).last() == authors@[i as int].model());
        }
        let n = authors[i].count();
        if n > most {
            most = n;
        }
        i += 1;
    }
    proof {
        assert(all.take(authors.len() as int) =~= all);
    }
    let digits = decimal_of(most).len();
    if digits > 4 {
        digits
    } else {
        4
    }
}

/// Writes the report for the given authors, listed in the given order.
fn render(authors: &Vec<AuthorStats>, order: &Vec<usize>, email: bool, summary: bool) -> (r:
    String)
    requires
        forall|i: int| 0 <= i < order@.len() ==> order@[i] < authors@.len(),
    ensures
        r@ == rendered(
            picked(author_models(authors@), positions(order@)),
            column_width(author_models(authors@)),
            email,
            summary,
        ),
{
    let width = width_for(authors);
    let ghost listed = picked(author_models(authors@), positions(order@));
    let mut out = String::new();
    let mut k: usize = 0;
    proof {
        assert(listed.take(0) =~= Seq::<AuthorModel>::empty());
    }
    while k < order.len()
        invariant
            k <= order.len(),
            width == column_width(author_models(authors@)),
            listed == picked(author_models(authors@), positions(order@)),
            forall|i: int| 0 <= i < order@.len() ==> order@[i] < authors@.len(),
            out@ == rendered(listed.take(k as int), width as nat, email, summary),
        decreases order.len() - k,
    {
        proof {
            assert(listed.take(k + 1).drop_last() =~= listed.take(k as int));
            assert(listed.take(k + 1).last() == authors@[order@[k as int] as int].model());
        }
        write_author(&mut out, &authors[order[k]], width, email, summary);
        k += 1;
    }
    proof {
        assert(listed.take(order.len() as int) =~= listed);
    }
    out
}

/// The report for the commits of a history under the given options and bounds
/// of the date filter.
pub open spec fn report(
    numbered: bool,
    summary: bool,
    email: bool,
    since: Option<i64>,
    until: Option<i64>,
    commits: Seq<CommitModel>,
) -> Seq<char> {
    let authors = authors_of(grouped(chosen(commits, since, until), email));
    rendered(
        picked(authors, ranked(author_keys(authors, numbered))),
        column_width(authors),
        email,
        summary,
    )
}

/// Writes the shortlog of a history.
///
/// The commits that pass the date filter are grouped by author, by name and
/// address where addresses are shown and by name alone otherwise. The authors
/// are listed by name without regard to case, or by their number of commits
/// where the report is numbered. The bounds of the date filter are given as
/// times: the dates of the options are read by the caller.
pub fn shortlog(
    args: &ShortlogArgs,
    since_ts: Option<i64>,
    until_ts: Option<i64>,
    commits: &Vec<CommitInfo>,
) -> (r: String)
    ensures
        r@ == report(
            args.numbered,
            args.summary,
            args.email,
            since_ts,
            until_ts,
            commit_models(commits@),
        ),
{
    let selected = select_commits(commits, since_ts, until_ts);
    let authors = group_by_author(&selected, args.email);
    let order = order_authors(&authors, args.numbered);
    render(&authors, &order, args.email, args.summary)
}

} // verus!
