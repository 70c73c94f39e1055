//! The bundling engine: selects files of a tree by the pattern list and
//! concatenates their records, in the order the files are given.
use vstd::prelude::*;
use vstd::multiset::Multiset;
use vstd::utf8::*;
use crate::pattern::{Pattern, PatternError, PatternList, glob_accepts, glob_matches, body_of};
use crate::record::{body_spec, make_record, record_text, unescape_separator, unescape_spec, Record};
use crate::select::{decide_spec, relative_spec, select_path, lemma_no_match_excludes, Decision};

verus! {

/// A file found under the root: its path as the walk gave it, and its bytes.
#[derive(Clone, Debug)]
pub struct SourceFile {
    pub path: String,
    pub bytes: Vec<u8>,
}

/// The bundle's text, and the relative paths of the selected files whose
/// bytes were not text (their records have an empty body).
#[derive(Clone, Debug)]
pub struct BundleOutput {
    pub text: String,
    pub not_text: Vec<String>,
}

/// What a run is configured with: the root of the tree, the patterns and
/// the separator with its escapes read.
#[derive(Clone, Debug)]
pub struct Bundler {
    pub root: String,
    pub patterns: PatternList,
    pub separator: String,
}

impl Bundler {
    /// Whether the file at `path` is selected.
    pub open spec fn selects(&self, path: Seq<char>) -> bool {
        decide_spec(self.patterns.patterns@, relative_spec(self.root@, path)) == Decision::Include
    }

    /// The record of `f` in the bundle.
    pub open spec fn record_of(&self, f: SourceFile) -> Seq<char> {
        record_text(self.separator@, relative_spec(self.root@, f.path@), body_spec(f.bytes@))
    }

    /// The bundle of `files`: the records of the selected ones, in order.
    pub open spec fn bundle_spec(&self, files: Seq<SourceFile>) -> Seq<char>
        decreases files.len(),
    {
        if files.len() == 0 {
            Seq::empty()
        } else {
            let f = files.last();
            self.bundle_spec(files.drop_last()) + if self.selects(f.path@) {
                self.record_of(f)
            } else {
                Seq::empty()
            }
        }
    }

    /// The relative paths of the selected files among `files` whose bytes
    /// are not valid UTF-8, in order.
    pub open spec fn not_text_spec(&self, files: Seq<SourceFile>) -> Seq<Seq<char>>
        decreases files.len(),
    {
        if files.len() == 0 {
            Seq::empty()
        } else {
            let f = files.last();
            self.not_text_spec(files.drop_last()) + if self.selects(f.path@) && !valid_utf8(f.bytes@) {
                seq![relative_spec(self.root@, f.path@)]
            } else {
                Seq::empty()
            }
        }
    }

    /// The records of the selected files among `files`, in order.
    pub open spec fn records_spec(&self, files: Seq<SourceFile>) -> Seq<Seq<char>>
        decreases files.len(),
    {
        if files.len() == 0 {
            Seq::empty()
        } else if self.selects(files.last().path@) {
            self.records_spec(files.drop_last()).push(self.record_of(files.last()))
        } else {
            self.records_spec(files.drop_last())
        }
    }

    /// What `f` adds to the records of a bundle: its record if it is selected.
    pub open spec fn record_part(&self, f: SourceFile) -> Multiset<Seq<char>> {
        if self.selects(f.path@) {
            Multiset::singleton(self.record_of(f))
        } else {
            Multiset::empty()
        }
    }

    /// Configures a run. Fails on the first pattern whose glob does not
    /// compile, before any file is looked at.
    pub fn new(root: &str, globs: &Vec<String>, separator: &str) -> (r: Result<Bundler, PatternError>)
        ensures
            match r {
                Ok(b) => {
                    &&& b.root@ == root@
                    &&& b.patterns.wf()
                    &&& b.patterns.read_from(globs@)
                    &&& b.separator@ == unescape_spec(separator@)
                },
                Err(e) => {
                    &&& e.index < globs@.len()
                    &&& e.glob@ == globs@[e.index as int]@
                    &&& !glob_accepts(body_of(globs@[e.index as int]@))
                    &&& forall|j: int| 0 <= j < e.index ==> glob_accepts(#[trigger] body_of(globs@[j]@))
                },
            },
            r is Ok <==> forall|j: int| 0 <= j < globs@.len() ==> glob_accepts(#[trigger] body_of(globs@[j]@)),
    {
        match PatternList::compile(globs) {
            Ok(patterns) => Ok(
                Bundler {
                    root: String::from_str(root),
                    patterns,
                    separator: unescape_separator(separator),
                },
            ),
            Err(e) => Err(e),
        }
    }

    /// The relative path of the file at `path` when it is selected.
    pub fn select(&self, path: &str) -> (r: Option<String>)
        ensures
            r is Some <==> self.selects(path@),
            r is Some ==> r->0@ == relative_spec(self.root@, path@),
    {
        select_path(&self.patterns, self.root.as_str(), path)
    }

    /// The record of a selected file, from its relative path and its bytes.
    pub fn record(&self, rel: &str, bytes: &[u8]) -> (r: Record)
        ensures
            r.is_text == valid_utf8(bytes@),
            r.text@ == record_text(self.separator@, rel@, body_spec(bytes@)),
    {
        make_record(self.separator.as_str(), rel, bytes)
    }

    /// Bundles `files` in the order given.
    pub fn bundle(&self, files: &Vec<SourceFile>) -> (r: BundleOutput)
        ensures
            r.text@ == self.bundle_spec(files@),
            r.not_text@.map_values(|s: String| s@) == self.not_text_spec(files@),
    {
        let mut text = String::new();
        let mut not_text: Vec<String> = Vec::new();
        let mut i: usize = 0;
        assert(files@.take(0) =~= Seq::<SourceFile>::empty());
        assert(not_text@.map_values(|s: String| s@) =~= Seq::<Seq<char>>::empty());
        while i < files.len()
            invariant
                i <= files@.len(),
                text@ == self.bundle_spec(files@.take(i as int)),
                not_text@.map_values(|s: String| s@) == self.not_text_spec(files@.take(i as int)),
            decreases files@.len() - i,
        {
            let f = &files[i];
            assert(files@.take(i + 1).drop_last() =~= files@.take(i as int));
            let ghost before = text@;
            let ghost before_nt = not_text@;
            match self.select(f.path.as_str()) {
                Some(rel) => {
                    let rec = self.record(rel.as_str(), f.bytes.as_slice());
                    text.append(rec.text.as_str());
                    if !rec.is_text {
                        not_text.push(rel);
                    }
                    assert(not_text@.map_values(|s: String| s@) =~= before_nt.map_values(|s: String| s@)
                        + if !valid_utf8(f.bytes@) { seq![relative_spec(self.root@, f.path@)] } else { Seq::empty() });
                },
                None => {
                    assert(text@ =~= before + Seq::<char>::empty());
                    assert(not_text@.map_values(|s: String| s@) =~= before_nt.map_values(|s: String| s@) + Seq::<Seq<char>>::empty());
                },
            }
            i = i + 1;
        }
        assert(files@.take(i as int) =~= files@);
        BundleOutput { text, not_text }
    }
}

/// Two pattern lists that read the same, pattern by pattern, decide alike.
pub proof fn lemma_same_patterns_same_decision(
    p1: Seq<Pattern>,
    p2: Seq<Pattern>,
    path: Seq<char>,
)
    requires
        p1.len() == p2.len(),
        forall|j: int| 0 <= j < p1.len() ==> (#[trigger] p1[j]).exclude == p2[j].exclude && p1[j].body@ == p2[j].body@,
    ensures
        decide_spec(p1, path) == decide_spec(p2, path),
    decreases p1.len(),
{
    if p1.len() > 0 {
        let n = p1.len() - 1;
        assert(p1[n].exclude == p2[n].exclude && p1[n].body@ == p2[n].body@);
        let (d1, d2) = (p1.drop_last(), p2.drop_last());
        assert forall|j: int| 0 <= j < d1.len() implies (#[trigger] d1[j]).exclude == d2[j].exclude && d1[j].body@ == d2[j].body@ by {
            assert(p1[j].exclude == p2[j].exclude && p1[j].body@ == p2[j].body@);
        }
        lemma_same_patterns_same_decision(d1, d2, path);
    }
}

/// Two runs on the same root, patterns and separator, over the same files
/// with the same contents, give the same bundle and the same reports.
pub proof fn lemma_bundle_repeatable(b1: Bundler, b2: Bundler, f1: Seq<SourceFile>, f2: Seq<SourceFile>)
    requires
        b1.root@ == b2.root@,
        b1.separator@ == b2.separator@,
        b1.patterns.patterns@.len() == b2.patterns.patterns@.len(),
        forall|j: int| 0 <= j < b1.patterns.patterns@.len() ==> (#[trigger] b1.patterns.patterns@[j]).exclude
            == b2.patterns.patterns@[j].exclude && b1.patterns.patterns@[j].body@ == b2.patterns.patterns@[j].body@,
        f1.len() == f2.len(),
        forall|j: int| 0 <= j < f1.len() ==> (#[trigger] f1[j]).path@ == f2[j].path@ && f1[j].bytes@ == f2[j].bytes@,
    ensures
        b1.bundle_spec(f1) == b2.bundle_spec(f2),
        b1.not_text_spec(f1) == b2.not_text_spec(f2),
    decreases f1.len(),
{
    if f1.len() > 0 {
        let n = f1.len() - 1;
        assert(f1[n].path@ == f2[n].path@ && f1[n].bytes@ == f2[n].bytes@);
        lemma_same_patterns_same_decision(b1.patterns.patterns@, b2.patterns.patterns@, relative_spec(b1.root@, f1[n].path@));
        let (d1, d2) = (f1.drop_last(), f2.drop_last());
        assert forall|j: int| 0 <= j < d1.len() implies (#[trigger] d1[j]).path@ == d2[j].path@ && d1[j].bytes@ == d2[j].bytes@ by {
            assert(f1[j].path@ == f2[j].path@ && f1[j].bytes@ == f2[j].bytes@);
        }
        lemma_bundle_repeatable(b1, b2, d1, d2);
    }
}

/// `t` stands in `s` from position `k` on.
pub open spec fn contains_at(s: Seq<char>, t: Seq<char>, k: int) -> bool {
    0 <= k && k + t.len() <= s.len() && s.subrange(k, k + t.len()) == t
}

/// A selected file whose bytes are valid UTF-8 text `C` at relative path `R`
/// has `"<separator> R\n<C>\n"` in the bundle, its text unchanged.
pub proof fn lemma_text_file_in_bundle(b: Bundler, files: Seq<SourceFile>, i: int)
    requires
        0 <= i < files.len(),
        b.selects(files[i].path@),
        valid_utf8(files[i].bytes@),
    ensures
        exists|k: int|
            contains_at(
                #[trigger] b.bundle_spec(files),
                record_text(b.separator@, relative_spec(b.root@, files[i].path@), decode_utf8(files[i].bytes@)),
                k,
            ),
    decreases files.len(),
{
    let rec = record_text(b.separator@, relative_spec(b.root@, files[i].path@), decode_utf8(files[i].bytes@));
    let whole = b.bundle_spec(files);
    let prefix = b.bundle_spec(files.drop_last());
    if i == files.len() - 1 {
        assert(b.record_of(files[i]) == rec);
        let k = prefix.len() as int;
        assert(whole.subrange(k, k + rec.len()) =~= rec);
        assert(contains_at(whole, rec, k));
    } else {
        assert(files.drop_last()[i] == files[i]);
        lemma_text_file_in_bundle(b, files.drop_last(), i);
        let k = choose|k: int| contains_at(prefix, rec, k);
        assert(whole.subrange(k, k + rec.len()) =~= prefix.subrange(k, k + rec.len()));
        assert(contains_at(whole, rec, k));
    }
}

/// A file that no pattern matches takes no part in the bundle: leaving it
/// out of the files changes nothing.
pub proof fn lemma_unmatched_file_absent(b: Bundler, files: Seq<SourceFile>, i: int)
    requires
        0 <= i < files.len(),
        forall|j: int| 0 <= j < b.patterns.patterns@.len() ==> !glob_matches(
            #[trigger] b.patterns.patterns@[j].body@,
            relative_spec(b.root@, files[i].path@),
        ),
    ensures
        b.bundle_spec(files) == b.bundle_spec(files.remove(i)),
        b.not_text_spec(files) == b.not_text_spec(files.remove(i)),
    decreases files.len(),
{
    lemma_no_match_excludes(b.patterns.patterns@, relative_spec(b.root@, files[i].path@));
    if i == files.len() - 1 {
        assert(files.remove(i) =~= files.drop_last());
        assert(b.bundle_spec(files) =~= b.bundle_spec(files.drop_last()) + Seq::<char>::empty());
        assert(b.not_text_spec(files) =~= b.not_text_spec(files.drop_last()) + Seq::<Seq<char>>::empty());
    } else {
        assert(files.drop_last()[i] == files[i]);
        lemma_unmatched_file_absent(b, files.drop_last(), i);
        let r = files.remove(i);
        assert(r.drop_last() =~= files.drop_last().remove(i));
        assert(r.last() == files.last());
    }
}

/// The bundle is its records one after another.
pub proof fn lemma_bundle_is_records(b: Bundler, files: Seq<SourceFile>)
    ensures
        b.bundle_spec(files) == b.records_spec(files).flatten(),
    decreases files.len(),
{
    if files.len() > 0 {
        lemma_bundle_is_records(b, files.drop_last());
        let prev = b.records_spec(files.drop_last());
        if b.selects(files.last().path@) {
            prev.lemma_flatten_push(b.record_of(files.last()));
        } else {
            assert(b.bundle_spec(files) =~= prev.flatten());
        }
    }
}

proof fn lemma_records_remove(b: Bundler, files: Seq<SourceFile>, j: int)
    requires
        0 <= j < files.len(),
    ensures
        b.records_spec(files).to_multiset() == b.records_spec(files.remove(j)).to_multiset().add(
            b.record_part(files[j]),
        ),
    decreases files.len(),
{
    broadcast use vstd::seq_lib::group_to_multiset_ensures;
    broadcast use vstd::multiset::group_multiset_axioms;

    let last = files.last();
    if j == files.len() - 1 {
        assert(files.remove(j) =~= files.drop_last());
        assert(b.records_spec(files).to_multiset() =~= b.records_spec(files.drop_last()).to_multiset().add(
            b.record_part(last),
        ));
    } else {
        assert(files.drop_last()[j] == files[j]);
        lemma_records_remove(b, files.drop_last(), j);
        let r = files.remove(j);
        assert(r.drop_last() =~= files.drop_last().remove(j));
        assert(r.last() == last);
        assert(r.len() > 0);
        assert(b.records_spec(files).to_multiset() =~= b.records_spec(files.drop_last()).to_multiset().add(
            b.record_part(last),
        ));
        assert(b.records_spec(r).to_multiset() =~= b.records_spec(r.drop_last()).to_multiset().add(
            b.record_part(last),
        ));
        assert(b.records_spec(files).to_multiset() =~= b.records_spec(r).to_multiset().add(
            b.record_part(files[j]),
        ));
    }
}

/// Files handed over in another order, as a parallel walk may do, give a
/// bundle with the same records, each as many times.
pub proof fn lemma_records_ignore_order(b: Bundler, f1: Seq<SourceFile>, f2: Seq<SourceFile>)
    requires
        f1.to_multiset() == f2.to_multiset(),
    ensures
        b.records_spec(f1).to_multiset() == b.records_spec(f2).to_multiset(),
    decreases f1.len(),
{
    broadcast use vstd::seq_lib::group_to_multiset_ensures;
    broadcast use vstd::multiset::group_multiset_axioms;

    if f1.len() == 0 {
        assert(f1.to_multiset().len() == f1.len());
        assert(f2.to_multiset().len() == f2.len());
        assert(f2.len() == 0);
        assert(f1 =~= f2);
    } else {
        let x = f1.last();
        assert(f1.drop_last().push(x) =~= f1);
        assert(f2.to_multiset().count(x) > 0);
        assert(f2.contains(x));
        let j = choose|j: int| 0 <= j < f2.len() && f2[j] == x;
        assert(f2.remove(j).to_multiset() =~= f1.drop_last().to_multiset());
        lemma_records_ignore_order(b, f1.drop_last(), f2.remove(j));
        lemma_records_remove(b, f1, f1.len() - 1);
        assert(f1.remove(f1.len() - 1) =~= f1.drop_last());
        lemma_records_remove(b, f2, j);
    }
}

} // verus!
