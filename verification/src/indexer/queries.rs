//! What the index tells about the files it holds.

use vstd::prelude::*;
use vstd::hash_set::StringHashSet;
use vstd::std_specs::iter::IteratorSpec;
use crate::text::str_eq;
use crate::schema::{FileId, FileNode, contains_id};
use crate::models::strings_view;
use crate::indexer::Indexer;
use crate::indexer::consistency::index_ok;

verus! {

/// The file at path `p` depends on file `target`.
pub open spec fn depends_on(
    deps: Map<FileId, Vec<FileId>>,
    files: Map<FileId, FileNode>,
    target: FileId,
    p: Seq<char>,
) -> bool {
    exists|s: FileId|
        #[trigger] deps.contains_key(s) && deps[s]@.contains(target) && files.contains_key(s)
            && files[s].path@ == p
}

/// The file at path `p` is indexed and was not seen.
pub open spec fn unseen(files: Map<FileId, FileNode>, seen: Set<Seq<char>>, p: Seq<char>) -> bool {
    exists|k: FileId| #[trigger] files.contains_key(k) && files[k].path@ == p && !seen.contains(p)
}

/// The set of the paths `paths`, as [`Indexer::stale_paths`] takes it.
pub fn path_set(paths: &Vec<String>) -> (r: StringHashSet)
    ensures
        r@ == strings_view(paths@).to_set(),
{
    let mut out = StringHashSet::new();
    let mut i: usize = 0;
    while i < paths.len()
        invariant
            0 <= i <= paths@.len(),
            out@ == strings_view(paths@.take(i as int)).to_set(),
        decreases paths@.len() - i,
    {
        let ghost before = strings_view(paths@.take(i as int));
        out.insert(paths[i].clone());
        proof {
            assert(strings_view(paths@.take(i + 1)) =~= before.push(paths@[i as int]@));
            crate::lemmas::lemma_push_to_set(before, paths@[i as int]@);
        }
        i = i + 1;
    }
    proof {
        assert(paths@.take(paths@.len() as int) =~= paths@);
    }
    out
}

/// Whether `v` holds a string equal to `s`.
fn holds_string(v: &Vec<String>, s: &str) -> (r: bool)
    ensures
        r == strings_view(v@).contains(s@),
{
    let mut i: usize = 0;
    while i < v.len()
        invariant
            0 <= i <= v@.len(),
            forall|j: int| 0 <= j < i ==> v@[j]@ != s@,
        decreases v@.len() - i,
    {
        if str_eq(v[i].as_str(), s) {
            proof {
                assert(strings_view(v@)[i as int] == s@);
            }
            return true;
        }
        i = i + 1;
    }
    proof {
        if strings_view(v@).contains(s@) {
            let j = choose|j: int| 0 <= j < strings_view(v@).len() && strings_view(v@)[j] == s@;
            assert(v@[j]@ == s@);
        }
    }
    false
}

/// Appends `s` unless `v` already holds it.
fn push_new(v: &mut Vec<String>, s: String)
    requires
        strings_view(old(v)@).no_duplicates(),
    ensures
        strings_view(final(v)@).no_duplicates(),
        forall|p: Seq<char>| #[trigger] strings_view(final(v)@).contains(p) <==> strings_view(old(v)@).contains(p) || p == s@,
{
    if !holds_string(v, s.as_str()) {
        let ghost before = strings_view(v@);
        v.push(s);
        proof {
            assert(strings_view(v@) =~= before.push(s@));
            crate::lemmas::lemma_push_no_dup(before, s@);
            crate::lemmas::lemma_push_contains(before, s@);
        }
    }
}

impl Indexer {
    /// The paths of the files that depend on the file at `target_key`, each
    /// once, in no particular order; none where the index does not know that
    /// path.
    pub fn get_impacted_files(&self, target_key: &str) -> (r: Vec<String>)
        requires
            index_ok(self.index),
        ensures
            strings_view(r@).no_duplicates(),
            !self.index.file_paths@.contains_key(target_key@) ==> r@.len() == 0,
            self.index.file_paths@.contains_key(target_key@) ==> forall|p: Seq<char>|
                #[trigger] strings_view(r@).contains(p) <==> depends_on(
                    self.index.file_dependencies@,
                    self.index.files@,
                    self.index.file_paths@[target_key@],
                    p,
                ),
    {
        let target = match self.index.file_paths.get(target_key) {
            Some(id) => *id,
            None => {
                return Vec::new();
            },
        };
        let deps = &self.index.file_dependencies;
        let files = &self.index.files;
        let mut out: Vec<String> = Vec::new();
        broadcast use vstd::std_specs::hash::axiom_spec_hash_map_iter;
        let ghost pairs = vstd::std_specs::hash::spec_hash_map_iter(deps).remaining();
        for pair in it: deps.iter()
            invariant
                it.seq() == pairs,
                pairs == vstd::std_specs::hash::spec_hash_map_iter(deps).remaining(),
                strings_view(out@).no_duplicates(),
                forall|p: Seq<char>| #[trigger]
                    strings_view(out@).contains(p) ==> depends_on(deps@, files@, target, p),
                forall|j: int|
                    0 <= j < it.index() ==> (#[trigger] pairs[j].1)@.contains(target) && files@.contains_key(
                        *pairs[j].0,
                    ) ==> strings_view(out@).contains(files@[*pairs[j].0].path@),
        {
            let (s, list) = pair;
            let ghost idx = it.index() as int;
            proof {
                assert(pair == pairs[idx]);
                assert(deps@.contains_key(*pairs[idx].0));
                assert(deps@[*pairs[idx].0] == *pairs[idx].1);
            }
            if contains_id(list, target) {
                match files.get(s) {
                    Some(node) => {
                        let ghost before = strings_view(out@);
                        push_new(&mut out, node.path.clone());
                        proof {
                            assert(depends_on(deps@, files@, target, node.path@)) by {
                                assert(deps@.contains_key(*s));
                            }
                            assert forall|j: int|
                                0 <= j < it.index() + 1 && (#[trigger] pairs[j].1)@.contains(target)
                                    && files@.contains_key(*pairs[j].0) implies strings_view(out@).contains(
                                files@[*pairs[j].0].path@,
                            ) by {
                                if j < it.index() {
                                    assert(before.contains(files@[*pairs[j].0].path@));
                                }
                            }
                        }
                    },
                    None => {},
                }
            }
        }
        proof {
            assert forall|p: Seq<char>| depends_on(deps@, files@, target, p) implies #[trigger] strings_view(
                out@,
            ).contains(p) by {
                let s = choose|s: FileId|
                    #[trigger] deps@.contains_key(s) && deps@[s]@.contains(target) && files@.contains_key(s)
                        && files@[s].path@ == p;
                assert(pairs.contains((&s, &deps@[s])));
                let j = choose|j: int| 0 <= j < pairs.len() && pairs[j] == (&s, &deps@[s]);
                assert(pairs[j].1@.contains(target));
            }
        }
        out
    }

    /// The paths of the indexed files that are not among `seen`, each once,
    /// in no particular order: the files a scan no longer found.
    pub fn stale_paths(&self, seen: &StringHashSet) -> (r: Vec<String>)
        ensures
            strings_view(r@).no_duplicates(),
            forall|p: Seq<char>| #[trigger] strings_view(r@).contains(p) <==> unseen(self.index.files@, seen@, p),
    {
        let files = &self.index.files;
        let mut out: Vec<String> = Vec::new();
        broadcast use vstd::std_specs::hash::axiom_spec_hash_map_iter;
        let ghost pairs = vstd::std_specs::hash::spec_hash_map_iter(files).remaining();
        for pair in it: files.iter()
            invariant
                it.seq() == pairs,
                pairs == vstd::std_specs::hash::spec_hash_map_iter(files).remaining(),
                strings_view(out@).no_duplicates(),
                forall|p: Seq<char>| #[trigger] strings_view(out@).contains(p) ==> unseen(files@, seen@, p),
                forall|j: int|
                    0 <= j < it.index() ==> !seen@.contains((#[trigger] pairs[j].1).path@) ==> strings_view(
                        out@,
                    ).contains(pairs[j].1.path@),
        {
            let (k, node) = pair;
            let ghost idx = it.index() as int;
            proof {
                assert(pair == pairs[idx]);
                assert(files@.contains_key(*pairs[idx].0));
                assert(files@[*pairs[idx].0] == *pairs[idx].1);
            }
            if !seen.contains(node.path.as_str()) {
                let ghost before = strings_view(out@);
                push_new(&mut out, node.path.clone());
                proof {
                    assert(unseen(files@, seen@, node.path@)) by {
                        assert(files@.contains_key(*k));
                    }
                    assert forall|j: int|
                        0 <= j < it.index() + 1 && !seen@.contains((#[trigger] pairs[j].1).path@) implies strings_view(
                        out@,
                    ).contains(pairs[j].1.path@) by {
                        if j < it.index() {
                            assert(before.contains(pairs[j].1.path@));
                        }
                    }
                }
            }
        }
        proof {
            assert forall|p: Seq<char>| unseen(files@, seen@, p) implies #[trigger] strings_view(out@).contains(p) by {
                let k = choose|k: FileId| #[trigger] files@.contains_key(k) && files@[k].path@ == p && !seen@.contains(p);
                assert(pairs.contains((&k, &files@[k])));
                let j = choose|j: int| 0 <= j < pairs.len() && pairs[j] == (&k, &files@[k]);
                assert(pairs[j].1.path@ == p);
            }
        }
        out
    }
}

} // verus!
