//! Repository references, the report of one synchronisation run, and the
//! case-insensitive matching that both resource kinds share.
use vstd::prelude::*;

pub mod labels;
pub mod milestones;
pub mod label_laws;
pub mod milestone_laws;

verus! {

/// Index of the first `/` in `s`, if there is one.
pub open spec fn first_slash(s: Seq<char>) -> Option<int>
    decreases s.len(),
{
    if s.len() == 0 {
        None
    } else if s[0] == '/' {
        Some(0)
    } else {
        match first_slash(s.drop_first()) {
            Some(i) => Some(i + 1),
            None => None,
        }
    }
}

/// The `(owner, repo)` pair that `s` names: the text before and after its
/// first `/`, both non-empty; `None` when `s` is not of that form.
pub open spec fn parse_repo(s: Seq<char>) -> Option<(Seq<char>, Seq<char>)> {
    match first_slash(s) {
        Some(i) => if 0 < i && i + 1 < s.len() {
            Some((s.take(i), s.skip(i + 1)))
        } else {
            None
        },
        None => None,
    }
}

/// The `owner/repo` text of a pair.
pub open spec fn join_repo(owner: Seq<char>, repo: Seq<char>) -> Seq<char> {
    owner + seq!['/'] + repo
}

/// The first `/` of `s` stands at `i` when no earlier character is one.
pub proof fn lemma_first_slash_at(s: Seq<char>, i: int)
    requires
        0 <= i < s.len(),
        s[i] == '/',
        forall|j: int| 0 <= j < i ==> s[j] != '/',
    ensures
        first_slash(s) == Some(i),
    decreases i,
{
    if i > 0 {
        lemma_first_slash_at(s.drop_first(), i - 1);
    }
}

/// `s` has no first `/` when it holds none.
pub proof fn lemma_first_slash_none(s: Seq<char>)
    requires
        forall|j: int| 0 <= j < s.len() ==> s[j] != '/',
    ensures
        first_slash(s) is None,
    decreases s.len(),
{
    if s.len() > 0 {
        lemma_first_slash_none(s.drop_first());
    }
}

/// What `first_slash` reports: a `/` with none before it.
pub proof fn lemma_first_slash_some(s: Seq<char>)
    requires
        first_slash(s) is Some,
    ensures
        0 <= first_slash(s)->0 < s.len(),
        s[first_slash(s)->0] == '/',
        forall|j: int| 0 <= j < first_slash(s)->0 ==> s[j] != '/',
    decreases s.len(),
{
    if s[0] != '/' {
        lemma_first_slash_some(s.drop_first());
        let i = first_slash(s.drop_first())->0;
        assert forall|j: int| 0 <= j < i + 1 implies s[j] != '/' by {
            if j > 0 {
                assert(s[j] == s.drop_first()[j - 1]);
            }
        }
    }
}

/// The full name of a reference whose owner holds no `/`, and whose owner and
/// repository name are not empty, parses back to that reference.
pub proof fn lemma_parse_full_name(owner: Seq<char>, repo: Seq<char>)
    requires
        owner.len() > 0,
        repo.len() > 0,
        !owner.contains('/'),
    ensures
        parse_repo(join_repo(owner, repo)) == Some((owner, repo)),
{
    let s = join_repo(owner, repo);
    let i = owner.len() as int;
    assert forall|j: int| 0 <= j < i implies s[j] != '/' by {
        assert(s[j] == owner[j]);
        if owner[j] == '/' {
            assert(owner.contains('/'));
        }
    }
    assert(s[i] == '/');
    lemma_first_slash_at(s, i);
    assert(s.take(i) =~= owner);
    assert(s.skip(i + 1) =~= repo);
}

/// A text that parses is the full name of what it parses to, and the owner
/// part holds no `/`; so parsing, joining and parsing again gives the same pair.
pub proof fn lemma_full_name_of_parse(s: Seq<char>)
    requires
        parse_repo(s) is Some,
    ensures
        join_repo((parse_repo(s)->0).0, (parse_repo(s)->0).1) == s,
        !(parse_repo(s)->0).0.contains('/'),
        parse_repo(join_repo((parse_repo(s)->0).0, (parse_repo(s)->0).1)) == parse_repo(s),
{
    lemma_first_slash_some(s);
    let i = first_slash(s)->0;
    let owner = s.take(i);
    let repo = s.skip(i + 1);
    assert(join_repo(owner, repo) =~= s);
    assert forall|j: int| 0 <= j < owner.len() implies owner[j] != '/' by {}
}

/// Parsed `owner/repo` reference.
pub struct RepoRef {
    pub owner: String,
    pub repo: String,
}

/// The text handed to [`RepoRef::parse`] was not of the form `owner/repo`.
pub struct InvalidRepo {
    pub input: String,
}

impl InvalidRepo {
    /// The message reported for this error:
    /// `Invalid repo '<input>': expected 'owner/repo'`.
    pub fn message(&self) -> (m: String)
        ensures
            m@ == "Invalid repo '"@ + self.input@ + "': expected 'owner/repo'"@,
    {
        let mut m = String::from_str("Invalid repo '");
        m.append(self.input.as_str());
        m.append("': expected 'owner/repo'");
        m
    }
}

impl RepoRef {
    /// Splits `s` at its first `/` into a non-empty owner and a non-empty
    /// repository name; fails on any other text.
    pub fn parse(s: &str) -> (r: Result<RepoRef, InvalidRepo>)
        ensures
            match r {
                Ok(rr) => parse_repo(s@) == Some((rr.owner@, rr.repo@)),
                Err(e) => parse_repo(s@) is None && e.input@ == s@,
            },
    {
        let n = s.unicode_len();
        let mut i: usize = 0;
        while i < n
            invariant
                n == s@.len(),
                i <= n,
                forall|j: int| 0 <= j < i ==> s@[j] != '/',
            ensures
                i <= n,
                forall|j: int| 0 <= j < i ==> s@[j] != '/',
                i < n ==> s@[i as int] == '/',
            decreases n - i,
        {
            if s.get_char(i) == '/' {
                break;
            }
            i = i + 1;
        }
        if i == n {
            proof { lemma_first_slash_none(s@); }
            return Err(InvalidRepo { input: s.to_owned() });
        }
        proof { lemma_first_slash_at(s@, i as int); }
        if i == 0 || i + 1 == n {
            return Err(InvalidRepo { input: s.to_owned() });
        }
        let owner = s.substring_char(0, i).to_owned();
        let repo = s.substring_char(i + 1, n).to_owned();
        proof {
            assert(owner@ == s@.take(i as int));
            assert(repo@ == s@.skip(i + 1));
        }
        Ok(RepoRef { owner, repo })
    }

    /// The `owner/repo` form of this reference.
    pub fn full_name(&self) -> (r: String)
        ensures
            r@ == join_repo(self.owner@, self.repo@),
    {
        let mut r = self.owner.clone();
        proof { reveal_strlit("/"); }
        r.append("/");
        r.append(self.repo.as_str());
        r
    }
}

/// Result of a sync operation.
pub struct SyncReport {
    pub resource: &'static str,
    pub source: String,
    pub target: String,
    pub created: Vec<String>,
    pub updated: Vec<String>,
    pub skipped: Vec<String>,
    pub dry_run: bool,
}

/// What a sync does with one source resource.
#[derive(Debug, Clone, Copy, PartialEq, Eq, Structural)]
pub enum Outcome {
    /// No target resource has its key: it is created.
    Created,
    /// A target resource has its key but differs: it is changed.
    Updated,
    /// A target resource has its key and is the same: nothing is sent.
    Unchanged,
}

/// Index of the last entry of `keys` equal to `k`. A map filled from `keys`
/// in order keeps, for each key, the last entry with it.
pub open spec fn last_with_key(keys: Seq<Seq<char>>, k: Seq<char>) -> Option<int>
    decreases keys.len(),
{
    if keys.len() == 0 {
        None
    } else if keys.last() == k {
        Some(keys.len() - 1)
    } else {
        last_with_key(keys.drop_last(), k)
    }
}

/// What `last_with_key` reports: an entry equal to the key with none after it,
/// or that there is no such entry at all.
pub proof fn lemma_last_with_key(keys: Seq<Seq<char>>, k: Seq<char>)
    ensures
        match last_with_key(keys, k) {
            Some(j) => 0 <= j < keys.len() && keys[j] == k
                && forall|m: int| j < m < keys.len() ==> keys[m] != k,
            None => forall|m: int| 0 <= m < keys.len() ==> keys[m] != k,
        },
    decreases keys.len(),
{
    if keys.len() > 0 && keys.last() != k {
        let rest = keys.drop_last();
        lemma_last_with_key(rest, k);
        assert forall|m: int| 0 <= m < rest.len() implies keys[m] == rest[m] by {}
        match last_with_key(rest, k) {
            Some(j) => {
                assert forall|m: int| j < m < keys.len() implies keys[m] != k by {
                    if m < rest.len() {
                        assert(keys[m] == rest[m]);
                    }
                }
            },
            None => {
                assert forall|m: int| 0 <= m < keys.len() implies keys[m] != k by {
                    if m < rest.len() {
                        assert(keys[m] == rest[m]);
                    }
                }
            },
        }
    }
}

/// Finds the last entry of `keys` equal to `k`.
pub fn last_index_with_key(keys: &Vec<String>, k: &String) -> (r: Option<usize>)
    ensures
        match r {
            Some(j) => last_with_key(keys.deep_view(), k@) == Some(j as int),
            None => last_with_key(keys.deep_view(), k@) is None,
        },
{
    let ghost all = keys.deep_view();
    let mut found: Option<usize> = None;
    let mut j: usize = 0;
    while j < keys.len()
        invariant
            j <= keys.len(),
            all == keys.deep_view(),
            match found {
                Some(x) => last_with_key(all.take(j as int), k@) == Some(x as int),
                None => last_with_key(all.take(j as int), k@) is None,
            },
        decreases keys.len() - j,
    {
        proof {
            assert(all.take(j + 1).drop_last() =~= all.take(j as int));
            assert(all.take(j + 1).last() == keys[j as int]@);
        }
        if keys[j] == *k {
            found = Some(j);
        }
        j = j + 1;
    }
    proof {
        assert(all.take(j as int) =~= all);
    }
    found
}

/// `last_with_key` after one more key is added at the end.
pub proof fn lemma_last_with_key_push(keys: Seq<Seq<char>>, x: Seq<char>, k: Seq<char>)
    ensures
        last_with_key(keys.push(x), k) == if x == k {
            Some(keys.len() as int)
        } else {
            last_with_key(keys, k)
        },
{
    assert(keys.push(x).drop_last() =~= keys);
}

/// An entry equal to the key with none after it is the one `last_with_key` finds.
pub proof fn lemma_last_with_key_at(keys: Seq<Seq<char>>, k: Seq<char>, j: int)
    requires
        0 <= j < keys.len(),
        keys[j] == k,
        forall|m: int| j < m < keys.len() ==> keys[m] != k,
    ensures
        last_with_key(keys, k) == Some(j),
    decreases keys.len(),
{
    if j < keys.len() - 1 {
        let rest = keys.drop_last();
        assert(keys.last() == keys[keys.len() - 1]);
        assert forall|m: int| j < m < rest.len() implies rest[m] != k by {
            assert(rest[m] == keys[m]);
        }
        lemma_last_with_key_at(rest, k, j);
    }
}

/// Keys without an entry equal to `k` have no last one.
pub proof fn lemma_last_with_key_absent(keys: Seq<Seq<char>>, k: Seq<char>)
    requires
        forall|m: int| 0 <= m < keys.len() ==> keys[m] != k,
    ensures
        last_with_key(keys, k) is None,
    decreases keys.len(),
{
    if keys.len() > 0 {
        let rest = keys.drop_last();
        assert(keys.last() == keys[keys.len() - 1]);
        assert forall|m: int| 0 <= m < rest.len() implies rest[m] != k by {
            assert(rest[m] == keys[m]);
        }
        lemma_last_with_key_absent(rest, k);
    }
}

} // verus!
