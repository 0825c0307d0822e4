//! Inference of logical definitions (routes, views, dependency tokens) from a
//! file's boundary, by rules that users of the engine can add.

pub mod routes;
pub mod conventions;
pub mod frameworks;
pub mod configs;

use vstd::prelude::*;
use crate::models::{FileBoundary, strings_view, defs_view, hints_view};

verus! {

/// A rule that derives logical definitions from a file's boundary.
pub trait InferenceRule {
    /// What this rule derives from `boundary`, as text.
    spec fn inferred(&self, boundary: FileBoundary) -> Seq<Seq<char>>;

    /// The logical definitions that this rule derives from `boundary`.
    fn infer_definitions(&self, boundary: &FileBoundary) -> (r: Vec<String>)
        ensures
            strings_view(r@) == self.inferred(*boundary),
    ;
}

/// A rule, boxed for registration with an [`InferenceEngine`]:
/// `BoxedRule(Box::new(rule))`.
pub struct BoxedRule(pub Box<dyn InferenceRule>);

/// Runs registered rules over file boundaries.
pub struct InferenceEngine {
    rules: Vec<BoxedRule>,
}

/// `b` is `a` with at most its inferred definitions changed.
pub open spec fn same_but_synthetic(a: FileBoundary, b: FileBoundary) -> bool {
    &&& b.id == a.id
    &&& b.path@ == a.path@
    &&& b.root_id@ == a.root_id@
    &&& b.hash == a.hash
    &&& b.token_count == a.token_count
    &&& b.is_test == a.is_test
    &&& defs_view(b.defs@) == defs_view(a.defs@)
    &&& strings_view(b.imports@) == strings_view(a.imports@)
    &&& strings_view(b.symbol_refs@) == strings_view(a.symbol_refs@)
    &&& strings_view(b.literals@) == strings_view(a.literals@)
    &&& hints_view(b.framework_hints@) == hints_view(a.framework_hints@)
}

/// The concatenation of `parts`, in order.
pub open spec fn concat_all(parts: Seq<Seq<Seq<char>>>) -> Seq<Seq<char>>
    decreases parts.len(),
{
    if parts.len() == 0 {
        Seq::empty()
    } else {
        concat_all(parts.drop_last()) + parts.last()
    }
}

/// The definitions of several rules, one after the other.
pub fn merge_definitions(results: Vec<Vec<String>>) -> (r: Vec<String>)
    ensures
        strings_view(r@) == concat_all(results@.map_values(|v: Vec<String>| strings_view(v@))),
{
    let ghost parts = results@.map_values(|v: Vec<String>| strings_view(v@));
    let mut out: Vec<String> = Vec::new();
    let mut i: usize = 0;
    while i < results.len()
        invariant
            parts == results@.map_values(|v: Vec<String>| strings_view(v@)),
            0 <= i <= results@.len(),
            strings_view(out@) == concat_all(parts.take(i as int)),
        decreases results@.len() - i,
    {
        let part = &results[i];
        let ghost before = strings_view(out@);
        let mut j: usize = 0;
        while j < part.len()
            invariant
                0 <= j <= part@.len(),
                strings_view(out@) == before + strings_view(part@).take(j as int),
            decreases part@.len() - j,
        {
            let ghost prev = out@;
            out.push(part[j].clone());
            proof {
                assert(out@ == prev.push(part@[j as int]));
                assert(strings_view(out@) =~= strings_view(prev).push(part@[j as int]@));
                assert(strings_view(part@).take(j + 1) =~= strings_view(part@).take(j as int).push(
                    part@[j as int]@,
                ));
            }
            j = j + 1;
        }
        proof {
            assert(strings_view(part@).take(part@.len() as int) =~= strings_view(part@));
            assert(parts.take(i + 1).drop_last() =~= parts.take(i as int));
            assert(parts.take(i + 1).last() == strings_view(results@[i as int]@));
        }
        i = i + 1;
    }
    proof {
        assert(parts.take(results@.len() as int) =~= parts);
    }
    out
}

impl InferenceEngine {
    /// The number of registered rules.
    pub closed spec fn rule_count(&self) -> nat {
        self.rules@.len()
    }

    /// What each registered rule derives from `b`, in registration order.
    pub closed spec fn outputs(&self, b: FileBoundary) -> Seq<Seq<Seq<char>>> {
        self.rules@.map_values(|r: BoxedRule| r.0.inferred(b))
    }

    /// An engine with no rules.
    pub fn new() -> (r: Self)
        ensures
            r.rule_count() == 0,
            forall|b: FileBoundary| #[trigger] r.outputs(b) == Seq::<Seq<Seq<char>>>::empty(),
    {
        InferenceEngine { rules: Vec::new() }
    }

    /// Adds a rule, run after those already registered: the rules already
    /// there keep their places and their outputs, and `rule` follows them.
    pub fn register(&mut self, rule: BoxedRule)
        ensures
            final(self).rule_count() == old(self).rule_count() + 1,
            forall|b: FileBoundary| #[trigger] final(self).outputs(b) == old(self).outputs(b).push(rule.0.inferred(b)),
    {
        let ghost before = self.rules@;
        let ghost given = rule;
        self.rules.push(rule);
        proof {
            vstd::seq::axiom_seq_push_len(before, given);
            assert(self.rules@ == before.push(given));
            assert forall|b: FileBoundary| #[trigger] self.outputs(b) == old(self).outputs(b).push(given.0.inferred(b)) by {
                assert(old(self).rules@ == before);
                assert forall|k: int| 0 <= k < before.len() implies #[trigger] self.outputs(b)[k] == old(self).outputs(b)[k] by {
                    vstd::seq::axiom_seq_push_index_different(before, given, k);
                }
                vstd::seq::axiom_seq_push_index_same(before, given, before.len() as int);
                assert(self.outputs(b)[before.len() as int] == given.0.inferred(b));
                assert(self.outputs(b) =~= old(self).outputs(b).push(given.0.inferred(b)));
            }
        }
    }

    /// Replaces the inferred definitions of `boundary` with those of all
    /// rules, each given the boundary as it was, one after the other in the
    /// order they were registered; nothing else of it changes.
    pub fn run(&self, boundary: &mut FileBoundary)
        ensures
            same_but_synthetic(*old(boundary), *final(boundary)),
            strings_view(final(boundary).synthetic_defs@) == concat_all(self.outputs(*old(boundary))),
    {
        let ghost b0 = *boundary;
        let mut results: Vec<Vec<String>> = Vec::new();
        let mut i: usize = 0;
        while i < self.rules.len()
            invariant
                0 <= i <= self.rules@.len(),
                results@.len() == i,
                *boundary == b0,
                results@.map_values(|v: Vec<String>| strings_view(v@)) == self.outputs(b0).take(i as int),
            decreases self.rules@.len() - i,
        {
            let defs = self.rules[i].0.infer_definitions(boundary);
            let ghost before = results@;
            results.push(defs);
            proof {
                assert(results@ == before.push(defs));
                assert(before.push(defs)[i as int] == defs);
                assert(strings_view(defs@) == self.rules@[i as int].0.inferred(b0));
                assert(self.outputs(b0)[i as int] == self.rules@[i as int].0.inferred(b0));
                assert forall|k: int| 0 <= k < i implies strings_view((#[trigger] results@[k])@)
                    == self.outputs(b0)[k] by {
                    assert(before.map_values(|v: Vec<String>| strings_view(v@))[k] == self.outputs(b0).take(i as int)[k]);
                    assert(before.push(defs)[k] == before[k]);
                    assert(results@[k] == before[k]);
                }
                assert(results@.map_values(|v: Vec<String>| strings_view(v@)) =~= self.outputs(b0).take(
                    i + 1,
                ));
            }
            i = i + 1;
        }
        proof {
            assert(self.outputs(b0).take(self.rules@.len() as int) =~= self.outputs(b0));
        }
        let merged = merge_definitions(results);
        boundary.synthetic_defs = merged;
    }
}

} // verus!
