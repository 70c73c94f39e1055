//! Which files of the tree are selected: the last pattern that matches a
//! file's relative path decides, and a path that no pattern matches is
//! excluded.
use vstd::prelude::*;
use vstd::string::*;
use crate::pattern::{Pattern, PatternList, glob_match, glob_matches};

verus! {

/// What the pattern list decides for one file.
#[derive(Clone, Copy, Debug, PartialEq, Eq, Structural)]
pub enum Decision {
    Include,
    Exclude,
}

/// What a pattern decides for the files it matches.
pub open spec fn verdict(p: Pattern) -> Decision {
    if p.exclude {
        Decision::Exclude
    } else {
        Decision::Include
    }
}

/// The decision when `hits[i]` tells whether `pats[i]` matched: the last
/// pattern that matched decides; with none, the file is excluded.
pub open spec fn decide_with(pats: Seq<Pattern>, hits: Seq<bool>) -> Decision
    decreases pats.len(),
{
    if pats.len() == 0 || hits.len() != pats.len() {
        Decision::Exclude
    } else if hits.last() {
        verdict(pats.last())
    } else {
        decide_with(pats.drop_last(), hits.drop_last())
    }
}

/// The decision of the pattern list `pats` for the relative path `path`.
pub open spec fn decide_spec(pats: Seq<Pattern>, path: Seq<char>) -> Decision
    decreases pats.len(),
{
    if pats.len() == 0 {
        Decision::Exclude
    } else if glob_matches(pats.last().body@, path) {
        verdict(pats.last())
    } else {
        decide_spec(pats.drop_last(), path)
    }
}

proof fn lemma_decide_with_prefix(pats: Seq<Pattern>, hits: Seq<bool>, i: int)
    requires
        0 <= i < pats.len(),
        hits.len() == pats.len(),
    ensures
        decide_with(pats.take(i + 1), hits.take(i + 1)) == if hits[i] {
            verdict(pats[i])
        } else {
            decide_with(pats.take(i), hits.take(i))
        },
{
    assert(pats.take(i + 1).drop_last() =~= pats.take(i));
    assert(hits.take(i + 1).drop_last() =~= hits.take(i));
}

proof fn lemma_hits_decide(pats: Seq<Pattern>, hits: Seq<bool>, path: Seq<char>)
    requires
        hits.len() == pats.len(),
        forall|i: int| 0 <= i < pats.len() ==> hits[i] == glob_matches(#[trigger] pats[i].body@, path),
    ensures
        decide_with(pats, hits) == decide_spec(pats, path),
    decreases pats.len(),
{
    if pats.len() > 0 {
        assert(hits.last() == glob_matches(pats[pats.len() - 1].body@, path));
        lemma_hits_decide(pats.drop_last(), hits.drop_last(), path);
    }
}

/// Decides from the match results of the patterns, one per pattern, by
/// looking for the last pattern that matched.
pub fn decide_from_hits(pats: &Vec<Pattern>, hits: &Vec<bool>) -> (r: Decision)
    requires
        hits@.len() == pats@.len(),
    ensures
        r == decide_with(pats@, hits@),
{
    let mut i: usize = pats.len();
    assert(pats@.take(i as int) =~= pats@);
    assert(hits@.take(i as int) =~= hits@);
    while i > 0
        invariant
            i <= pats@.len(),
            hits@.len() == pats@.len(),
            decide_with(pats@, hits@) == decide_with(pats@.take(i as int), hits@.take(i as int)),
        decreases i,
    {
        i = i - 1;
        proof {
            lemma_decide_with_prefix(pats@, hits@, i as int);
        }
        if hits[i] {
            return if pats[i].exclude {
                Decision::Exclude
            } else {
                Decision::Include
            };
        }
    }
    assert(pats@.take(0) =~= Seq::<Pattern>::empty());
    Decision::Exclude
}

/// Decides for the relative path `path` under the pattern list.
pub fn decide(list: &PatternList, path: &str) -> (r: Decision)
    ensures
        r == decide_spec(list.patterns@, path@),
{
    let pats = &list.patterns;
    let mut hits: Vec<bool> = Vec::new();
    let mut i: usize = 0;
    while i < pats.len()
        invariant
            i <= pats@.len(),
            hits@.len() == i,
            forall|j: int| 0 <= j < i ==> hits@[j] == glob_matches(#[trigger] pats@[j].body@, path@),
        decreases pats@.len() - i,
    {
        let m = glob_match(pats[i].body.as_str(), path);
        hits.push(m);
        i = i + 1;
    }
    proof {
        lemma_hits_decide(pats@, hits@, path@);
    }
    decide_from_hits(pats, &hits)
}

/// `s` without the `/` characters that end it.
pub open spec fn trim_end_slashes(s: Seq<char>) -> Seq<char>
    decreases s.len(),
{
    if s.len() > 0 && s.last() == '/' {
        trim_end_slashes(s.drop_last())
    } else {
        s
    }
}

/// `s` without the `/` characters that start it.
pub open spec fn trim_start_slashes(s: Seq<char>) -> Seq<char>
    decreases s.len(),
{
    if s.len() > 0 && s[0] == '/' {
        trim_start_slashes(s.skip(1))
    } else {
        s
    }
}

/// `path` lies under the directory `dir`: it starts with `dir` as whole
/// components.
pub open spec fn lies_under(dir: Seq<char>, path: Seq<char>) -> bool {
    &&& dir.len() <= path.len()
    &&& path.take(dir.len() as int) == dir
    &&& dir.len() == path.len() || path[dir.len() as int] == '/'
}

/// The path of `path` relative to `root`; a path that does not lie under
/// the root stands for itself.
pub open spec fn relative_spec(root: Seq<char>, path: Seq<char>) -> Seq<char> {
    let dir = trim_end_slashes(root);
    if lies_under(dir, path) {
        trim_start_slashes(path.skip(dir.len() as int))
    } else {
        path
    }
}

proof fn lemma_trim_end_step(s: Seq<char>, j: int)
    requires
        0 < j <= s.len(),
        s[j - 1] == '/',
    ensures
        trim_end_slashes(s.take(j)) == trim_end_slashes(s.take(j - 1)),
{
    assert(s.take(j).drop_last() =~= s.take(j - 1));
}

proof fn lemma_trim_start_step(s: Seq<char>, k: int)
    requires
        0 <= k < s.len(),
        s[k] == '/',
    ensures
        trim_start_slashes(s.skip(k)) == trim_start_slashes(s.skip(k + 1)),
{
    assert(s.skip(k).skip(1) =~= s.skip(k + 1));
}

/// The path of `path` relative to `root`, taken component by component;
/// where `path` does not lie under `root`, `path` itself.
pub fn relative_path(root: &str, path: &str) -> (r: String)
    ensures
        r@ == relative_spec(root@, path@),
{
    let rn = root.unicode_len();
    let pn = path.unicode_len();
    let mut j: usize = rn;
    assert(root@.take(rn as int) =~= root@);
    while j > 0 && root.get_char(j - 1) == '/'
        invariant
            j <= rn == root@.len(),
            trim_end_slashes(root@) == trim_end_slashes(root@.take(j as int)),
        decreases j,
    {
        proof {
            lemma_trim_end_step(root@, j as int);
        }
        j = j - 1;
    }
    let ghost dir = root@.take(j as int);
    assert(trim_end_slashes(dir) == dir);
    if j > pn {
        return String::from_str(path);
    }
    let mut i: usize = 0;
    while i < j
        invariant
            i <= j <= pn == path@.len(),
            j <= rn == root@.len(),
            dir == root@.take(j as int),
            trim_end_slashes(root@) == dir,
            forall|t: int| 0 <= t < i ==> path@[t] == root@[t],
        decreases j - i,
    {
        if path.get_char(i) != root.get_char(i) {
            assert(path@.take(j as int)[i as int] != dir[i as int]);
            assert(path@.take(j as int) != dir);
            return String::from_str(path);
        }
        i = i + 1;
    }
    assert(path@.take(j as int) =~= dir);
    if j < pn && path.get_char(j) != '/' {
        return String::from_str(path);
    }
    let mut k: usize = j;
    while k < pn && path.get_char(k) == '/'
        invariant
            j <= k <= pn == path@.len(),
            trim_start_slashes(path@.skip(j as int)) == trim_start_slashes(path@.skip(k as int)),
        decreases pn - k,
    {
        proof {
            lemma_trim_start_step(path@, k as int);
        }
        k = k + 1;
    }
    let rest = path.substring_char(k, pn);
    assert(rest@ =~= path@.skip(k as int));
    String::from_str(rest)
}

/// The relative path of `path` under `root` when the patterns include it.
pub fn select_path(list: &PatternList, root: &str, path: &str) -> (r: Option<String>)
    ensures
        match r {
            Some(rel) => rel@ == relative_spec(root@, path@)
                && decide_spec(list.patterns@, relative_spec(root@, path@)) == Decision::Include,
            None => decide_spec(list.patterns@, relative_spec(root@, path@)) == Decision::Exclude,
        },
{
    let rel = relative_path(root, path);
    match decide(list, rel.as_str()) {
        Decision::Include => Some(rel),
        Decision::Exclude => None,
    }
}

/// The pattern that matches last decides alone: patterns before it, whatever
/// they say, have no effect on the decision.
pub proof fn lemma_last_match_decides(pats: Seq<Pattern>, path: Seq<char>, k: int)
    requires
        0 <= k < pats.len(),
        glob_matches(pats[k].body@, path),
        forall|j: int| k < j < pats.len() ==> !glob_matches(#[trigger] pats[j].body@, path),
    ensures
        decide_spec(pats, path) == verdict(pats[k]),
    decreases pats.len(),
{
    if k < pats.len() - 1 {
        assert(!glob_matches(pats[pats.len() - 1].body@, path));
        assert(pats.drop_last()[k] == pats[k]);
        lemma_last_match_decides(pats.drop_last(), path, k);
    }
}

/// A path that no pattern matches is excluded.
pub proof fn lemma_no_match_excludes(pats: Seq<Pattern>, path: Seq<char>)
    requires
        forall|j: int| 0 <= j < pats.len() ==> !glob_matches(#[trigger] pats[j].body@, path),
    ensures
        decide_spec(pats, path) == Decision::Exclude,
    decreases pats.len(),
{
    if pats.len() > 0 {
        assert(!glob_matches(pats[pats.len() - 1].body@, path));
        lemma_no_match_excludes(pats.drop_last(), path);
    }
}

} // verus!
