//! Glob patterns with an optional leading `!` that marks an exclusion.
//!
//! Globs use gitignore syntax as the `ignore` crate reads it (`*`, `**`,
//! `{a,b}` alternation, character classes), matched case-insensitively
//! against paths relative to the bundle's root.
use vstd::prelude::*;
use vstd::string::*;

verus! {

/// Whether the glob `body` compiles into a case-insensitive override matcher.
pub uninterp spec fn glob_accepts(body: Seq<char>) -> bool;

/// Whether the compiled glob `body` matches the relative file path `path`.
pub uninterp spec fn glob_matches(body: Seq<char>, path: Seq<char>) -> bool;

/// Relies on `ignore::overrides::OverrideBuilder` (`case_insensitive`, `add`,
/// `build`): whether the glob is accepted depends on its text alone.
#[verifier::external_body]
fn glob_is_valid(body: &str) -> (r: bool)
    ensures
        r == glob_accepts(body@),
{
    let mut b = ignore::overrides::OverrideBuilder::new(".");
    if b.case_insensitive(true).is_err() || b.add(body).is_err() {
        return false;
    }
    b.build().is_ok()
}

/// Relies on `ignore::overrides::Override::matched` for an override made of
/// the one glob: a whitelist match means the glob matches the file path.
/// A glob that does not compile matches nothing.
#[verifier::external_body]
pub(crate) fn glob_match(body: &str, path: &str) -> (r: bool)
    ensures
        r == glob_matches(body@, path@),
{
    let mut b = ignore::overrides::OverrideBuilder::new(".");
    if b.case_insensitive(true).is_err() || b.add(body).is_err() {
        return false;
    }
    match b.build() {
        Ok(o) => o.matched(path, false).is_whitelist(),
        Err(_) => false,
    }
}

/// One pattern of the list: a glob body and whether it excludes.
#[derive(Clone, Debug)]
pub struct Pattern {
    pub exclude: bool,
    pub body: String,
}

/// Whether the pattern text starts with the exclusion marker.
pub open spec fn is_exclusion(s: Seq<char>) -> bool {
    s.len() > 0 && s[0] == '!'
}

/// The glob body of a pattern text: the text without its exclusion marker.
pub open spec fn body_of(s: Seq<char>) -> Seq<char> {
    if is_exclusion(s) {
        s.skip(1)
    } else {
        s
    }
}

/// `p` is what the text `s` reads as.
pub open spec fn parsed_as(p: Pattern, s: Seq<char>) -> bool {
    p.exclude == is_exclusion(s) && p.body@ == body_of(s)
}

/// Reads a pattern text: one leading `!` marks an exclusion and is removed.
pub fn parse_pattern(s: &str) -> (p: Pattern)
    ensures
        parsed_as(p, s@),
{
    let n = s.unicode_len();
    if n > 0 && s.get_char(0) == '!' {
        Pattern { exclude: true, body: String::from_str(s.substring_char(1, n)) }
    } else {
        Pattern { exclude: false, body: String::from_str(s) }
    }
}

/// A pattern text whose glob does not compile, and its place in the list.
#[derive(Clone, Debug)]
pub struct PatternError {
    pub index: usize,
    pub glob: String,
}

/// An ordered list of patterns whose globs all compile.
#[derive(Clone, Debug)]
pub struct PatternList {
    pub patterns: Vec<Pattern>,
}

impl PatternList {
    pub open spec fn wf(&self) -> bool {
        forall|i: int| 0 <= i < self.patterns@.len() ==> glob_accepts(#[trigger] self.patterns@[i].body@)
    }

    /// `self` holds the patterns read from `globs`, in their order.
    pub open spec fn read_from(&self, globs: Seq<String>) -> bool {
        &&& self.patterns@.len() == globs.len()
        &&& forall|i: int| 0 <= i < globs.len() ==> parsed_as(#[trigger] self.patterns@[i], globs[i]@)
    }

    /// Reads every pattern text in order. Fails on the first one whose glob
    /// does not compile, before any matching is done.
    pub fn compile(globs: &Vec<String>) -> (r: Result<PatternList, PatternError>)
        ensures
            match r {
                Ok(l) => l.wf() && l.read_from(globs@),
                Err(e) => {
                    &&& e.index < globs@.len()
                    &&& e.glob@ == globs@[e.index as int]@
                    &&& !glob_accepts(body_of(globs@[e.index as int]@))
                    &&& forall|j: int| 0 <= j < e.index ==> glob_accepts(#[trigger] body_of(globs@[j]@))
                },
            },
            r is Ok <==> forall|j: int| 0 <= j < globs@.len() ==> glob_accepts(#[trigger] body_of(globs@[j]@)),
    {
        let mut patterns: Vec<Pattern> = Vec::new();
        let mut i: usize = 0;
        while i < globs.len()
            invariant
                i <= globs@.len(),
                patterns@.len() == i,
                forall|j: int| 0 <= j < i ==> parsed_as(#[trigger] patterns@[j], globs@[j]@),
                forall|j: int| 0 <= j < i ==> glob_accepts(#[trigger] body_of(globs@[j]@)),
            decreases globs@.len() - i,
        {
            let p = parse_pattern(globs[i].as_str());
            if !glob_is_valid(p.body.as_str()) {
                return Err(PatternError { index: i, glob: globs[i].clone() });
            }
            patterns.push(p);
            i = i + 1;
        }
        let l = PatternList { patterns };
        assert(l.wf()) by {
            assert forall|j: int| 0 <= j < l.patterns@.len() implies glob_accepts(#[trigger] l.patterns@[j].body@) by {
                assert(glob_accepts(body_of(globs@[j]@)));
            }
        }
        Ok(l)
    }
}

} // verus!
