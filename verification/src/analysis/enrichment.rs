//! Enrichment of the skeleton: each finding of the secondary queries
//! (config keys, decorators, calls, type references, state actions, routes,
//! documentation) goes to the definition that owns it, or to the module
//! scope.

use vstd::prelude::*;
use crate::analysis::FunctionInfo;
use crate::analysis::constants::{assoc_get, assoc_keys, assoc_lookup, pairs_view};
use crate::analysis::definitions::{VariableHint, HintV, hints_view, hint_view, opt_chars};
use crate::analysis::structural::route_text;
use crate::analysis::structural::route_text_exec;
use crate::models::{SymbolKind, strings_view};
use crate::syntax::{CaptureData, MatchData};
use crate::text::{trim_quotes, trim_set, str_eq, trim_quote_chars, trim_by, chars_of};

verus! {

// ---------------------------------------------------------------------------
// Ownership of a range
// ---------------------------------------------------------------------------

/// `f`'s range holds `[start, end)`.
pub open spec fn holds_range(f: FunctionInfo, start: usize, end: usize) -> bool {
    start >= f.range_start && end <= f.range_end
}

/// The search for the owner of a range among `fs`: the index of the first
/// of the smallest functions that hold it, and that size.
pub open spec fn owner_fold(fs: Seq<FunctionInfo>, start: usize, end: usize) -> (Option<int>, int)
    decreases fs.len(),
{
    if fs.len() == 0 {
        (None, usize::MAX as int)
    } else {
        let (best, smallest) = owner_fold(fs.drop_last(), start, end);
        let f = fs.last();
        if holds_range(f, start, end) && f.range_end - f.range_start < smallest {
            (Some(fs.len() - 1), f.range_end - f.range_start)
        } else {
            (best, smallest)
        }
    }
}

/// The function that owns a range: the smallest that holds it (the first of
/// those), if any.
pub open spec fn owner_of(fs: Seq<FunctionInfo>, start: usize, end: usize) -> Option<int> {
    owner_fold(fs, start, end).0
}

/// `f` starts less than 200 bytes after `end`.
pub open spec fn follows_closely(f: FunctionInfo, end: usize) -> bool {
    f.range_start > end && f.range_start - end < 200
}

/// The first function that starts less than 200 bytes after `end`.
pub open spec fn neighbor_of(fs: Seq<FunctionInfo>, end: usize) -> Option<int>
    decreases fs.len(),
{
    if fs.len() == 0 {
        None
    } else {
        match neighbor_of(fs.drop_last(), end) {
            Some(i) => Some(i),
            None => if follows_closely(fs.last(), end) {
                Some(fs.len() - 1)
            } else {
                None
            },
        }
    }
}

/// The owner of a range, or else the function right after it.
pub open spec fn owner_or_neighbor(fs: Seq<FunctionInfo>, start: usize, end: usize) -> Option<int> {
    match owner_of(fs, start, end) {
        Some(i) => Some(i),
        None => neighbor_of(fs, end),
    }
}

proof fn lemma_owner_fold_bounds(fs: Seq<FunctionInfo>, start: usize, end: usize)
    ensures
        owner_fold(fs, start, end).0 matches Some(i) ==> 0 <= i < fs.len(),
    decreases fs.len(),
{
    if fs.len() > 0 {
        lemma_owner_fold_bounds(fs.drop_last(), start, end);
    }
}

proof fn lemma_neighbor_bounds(fs: Seq<FunctionInfo>, end: usize)
    ensures
        neighbor_of(fs, end) matches Some(i) ==> 0 <= i < fs.len(),
    decreases fs.len(),
{
    if fs.len() > 0 {
        lemma_neighbor_bounds(fs.drop_last(), end);
    }
}

/// Two lists of functions with the same ranges.
pub open spec fn same_ranges(a: Seq<FunctionInfo>, b: Seq<FunctionInfo>) -> bool {
    &&& a.len() == b.len()
    &&& forall|i: int|
        0 <= i < a.len() ==> (#[trigger] a[i]).range_start == b[i].range_start && a[i].range_end
            == b[i].range_end
}

/// The functions have ordered ranges.
pub open spec fn ordered(fs: Seq<FunctionInfo>) -> bool {
    forall|i: int| 0 <= i < fs.len() ==> (#[trigger] fs[i]).range_start <= fs[i].range_end
}

/// The owner of a range among the functions (`EnrichmentContext::find_owner`).
pub fn find_owner(fs: &Vec<FunctionInfo>, start: usize, end: usize) -> (r: Option<usize>)
    requires
        ordered(fs@),
    ensures
        match r {
            Some(i) => owner_of(fs@, start, end) == Some(i as int) && i < fs@.len(),
            None => owner_of(fs@, start, end) is None,
        },
{
    let mut best: Option<usize> = None;
    let mut smallest: usize = usize::MAX;
    let mut i: usize = 0;
    while i < fs.len()
        invariant
            ordered(fs@),
            0 <= i <= fs@.len(),
            ({
                let (b, s) = owner_fold(fs@.take(i as int), start, end);
                &&& smallest == s
                &&& match best {
                    Some(k) => b == Some(k as int) && k < i,
                    None => b is None,
                }
            }),
        decreases fs@.len() - i,
    {
        proof {
            assert(fs@.take(i + 1).drop_last() =~= fs@.take(i as int));
            assert(fs@.take(i + 1).last() == fs@[i as int]);
        }
        let f = &fs[i];
        if start >= f.range_start && end <= f.range_end {
            let len = f.range_end - f.range_start;
            if len < smallest {
                smallest = len;
                best = Some(i);
            }
        }
        i = i + 1;
    }
    proof {
        assert(fs@.take(fs@.len() as int) =~= fs@);
    }
    best
}

/// The owner of a range, or else the first function that starts less than
/// 200 bytes after it (`EnrichmentContext::find_owner_or_neighbor`).
pub fn find_owner_or_neighbor(fs: &Vec<FunctionInfo>, start: usize, end: usize) -> (r: Option<usize>)
    requires
        ordered(fs@),
    ensures
        match r {
            Some(i) => owner_or_neighbor(fs@, start, end) == Some(i as int) && i < fs@.len(),
            None => owner_or_neighbor(fs@, start, end) is None,
        },
{
    match find_owner(fs, start, end) {
        Some(i) => Some(i),
        None => {
            let mut i: usize = 0;
            while i < fs.len()
                invariant
                    0 <= i <= fs@.len(),
                    owner_of(fs@, start, end) is None,
                    neighbor_of(fs@.take(i as int), end) is None,
                decreases fs@.len() - i,
            {
                proof {
                    assert(fs@.take(i + 1).drop_last() =~= fs@.take(i as int));
                    assert(fs@.take(i + 1).last() == fs@[i as int]);
                }
                if fs[i].range_start > end && fs[i].range_start - end < 200 {
                    proof {
                        lemma_neighbor_first(fs@, end, i as int);
                    }
                    return Some(i);
                }
                i = i + 1;
            }
            proof {
                assert(fs@.take(fs@.len() as int) =~= fs@);
            }
            None
        },
    }
}

proof fn lemma_neighbor_first(fs: Seq<FunctionInfo>, end: usize, i: int)
    requires
        0 <= i < fs.len(),
        neighbor_of(fs.take(i), end) is None,
        follows_closely(fs[i], end),
    ensures
        neighbor_of(fs, end) == Some(i),
    decreases fs.len(),
{
    if fs.len() == i + 1 {
        assert(fs.drop_last() =~= fs.take(i));
    } else {
        assert(fs.drop_last().take(i) =~= fs.take(i));
        lemma_neighbor_first(fs.drop_last(), end, i);
    }
}

// ---------------------------------------------------------------------------
// The lists of a function
// ---------------------------------------------------------------------------

/// One of the lists of a function that findings are added to.
#[derive(Clone, Copy, PartialEq, Eq, Structural)]
pub enum ListField {
    Calls,
    TypeRefs,
    Decorators,
    ConfigKeys,
    DispatchedActions,
    HandledActions,
    Routes,
}

/// A list of a function.
pub open spec fn list_of(f: FunctionInfo, field: ListField) -> Seq<Seq<char>> {
    strings_view(
        match field {
            ListField::Calls => f.calls@,
            ListField::TypeRefs => f.type_refs@,
            ListField::Decorators => f.decorators@,
            ListField::ConfigKeys => f.config_keys@,
            ListField::DispatchedActions => f.dispatched_actions@,
            ListField::HandledActions => f.handled_actions@,
            ListField::Routes => f.routes@,
        },
    )
}

/// The parts of a function that no enrichment pass changes.
pub open spec fn same_core(a: FunctionInfo, b: FunctionInfo) -> bool {
    &&& b.name@ == a.name@
    &&& b.kind == a.kind
    &&& b.is_anonymous == a.is_anonymous
    &&& b.range_start == a.range_start
    &&& b.range_end == a.range_end
    &&& b.body_start == a.body_start
    &&& b.source_code@ == a.source_code@
    &&& opt_chars(b.return_type) == opt_chars(a.return_type)
}

/// `b` is `a` with at most the list `field` changed.
pub open spec fn same_except_list(a: FunctionInfo, b: FunctionInfo, field: ListField) -> bool {
    &&& same_core(a, b)
    &&& opt_chars(b.documentation) == opt_chars(a.documentation)
    &&& b.fingerprints@ == a.fingerprints@
    &&& b.local_types@ == a.local_types@
    &&& b.local_assigns@ == a.local_assigns@
    &&& forall|g: ListField| g != field ==> #[trigger] list_of(b, g) == list_of(a, g)
}

/// Appends a value to a list of a function.
fn push_to_list(f: &mut FunctionInfo, field: ListField, value: String)
    ensures
        same_except_list(*old(f), *final(f), field),
        list_of(*final(f), field) == list_of(*old(f), field).push(value@),
{
    let ghost v = value@;
    match field {
        ListField::Calls => f.calls.push(value),
        ListField::TypeRefs => f.type_refs.push(value),
        ListField::Decorators => f.decorators.push(value),
        ListField::ConfigKeys => f.config_keys.push(value),
        ListField::DispatchedActions => f.dispatched_actions.push(value),
        ListField::HandledActions => f.handled_actions.push(value),
        ListField::Routes => f.routes.push(value),
    }
    proof {
        assert(list_of(*f, field) =~= list_of(*old(f), field).push(v));
        assert forall|g: ListField| g != field implies #[trigger] list_of(*f, g) == list_of(*old(f), g) by {
        }
    }
}

/// A finding that goes to a function (by index) or, for `None`, to the
/// module scope.
pub type Routed = (Option<int>, Seq<char>);

/// The values of the findings that go to `t`, in order.
pub open spec fn routed_to(rs: Seq<Routed>, t: Option<int>) -> Seq<Seq<char>>
    decreases rs.len(),
{
    if rs.len() == 0 {
        Seq::empty()
    } else {
        let r = routed_to(rs.drop_last(), t);
        if rs.last().0 == t {
            r.push(rs.last().1)
        } else {
            r
        }
    }
}

/// Every list `field` of the functions and of the module scope has grown by
/// the findings that go to it; nothing else changed.
pub open spec fn appended(
    fs0: Seq<FunctionInfo>,
    m0: FunctionInfo,
    fs: Seq<FunctionInfo>,
    m: FunctionInfo,
    field: ListField,
    rs: Seq<Routed>,
) -> bool {
    &&& fs.len() == fs0.len()
    &&& forall|i: int|
        0 <= i < fs.len() ==> same_except_list(fs0[i], #[trigger] fs[i], field) && list_of(fs[i], field)
            == list_of(fs0[i], field) + routed_to(rs, Some(i))
    &&& same_except_list(m0, m, field)
    &&& list_of(m, field) == list_of(m0, field) + routed_to(rs, None)
}

/// Routes one finding.
fn route_value(
    fs: &mut Vec<FunctionInfo>,
    m: &mut FunctionInfo,
    target: Option<usize>,
    field: ListField,
    value: String,
    Ghost(fs0): Ghost<Seq<FunctionInfo>>,
    Ghost(m0): Ghost<FunctionInfo>,
    Ghost(rs): Ghost<Seq<Routed>>,
)
    requires
        appended(fs0, m0, old(fs)@, *old(m), field, rs),
        target matches Some(i) ==> i < old(fs)@.len(),
    ensures
        appended(
            fs0,
            m0,
            final(fs)@,
            *final(m),
            field,
            rs.push(
                (
                    match target {
                        Some(i) => Some(i as int),
                        None => None,
                    },
                    value@,
                ),
            ),
        ),
{
    let ghost t = match target {
        Some(i) => Some(i as int),
        None => None,
    };
    let ghost v = value@;
    let ghost rs2 = rs.push((t, v));
    proof {
        assert(rs2.drop_last() =~= rs);
    }
    match target {
        Some(i) => {
            push_to_list(&mut fs[i], field, value);
            proof {
                assert forall|j: int| 0 <= j < fs@.len() implies same_except_list(
                    fs0[j],
                    #[trigger] fs@[j],
                    field,
                ) && list_of(fs@[j], field) == list_of(fs0[j], field) + routed_to(rs2, Some(j)) by {
                    if j == i {
                        assert(list_of(fs@[j], field) =~= list_of(fs0[j], field) + routed_to(rs2, Some(j)));
                    } else {
                        assert(fs@[j] == old(fs)@[j]);
                    }
                }
                assert(list_of(*m, field) == list_of(m0, field) + routed_to(rs2, None));
            }
        },
        None => {
            push_to_list(m, field, value);
            proof {
                assert(list_of(*m, field) =~= list_of(m0, field) + routed_to(rs2, None));
                assert forall|j: int| 0 <= j < fs@.len() implies same_except_list(
                    fs0[j],
                    #[trigger] fs@[j],
                    field,
                ) && list_of(fs@[j], field) == list_of(fs0[j], field) + routed_to(rs2, Some(j)) by {
                }
            }
        },
    }
}


/// A target is a function among `n`, or the module scope.
pub open spec fn target_within(t: Option<usize>, n: nat) -> bool {
    match t {
        Some(i) => i < n,
        None => true,
    }
}

/// The model of a list of findings.
pub open spec fn findings_view(v: Seq<(Option<usize>, String)>) -> Seq<Routed> {
    v.map_values(
        |e: (Option<usize>, String)|
            (
                match e.0 {
                    Some(i) => Some(i as int),
                    None => None,
                },
                e.1@,
            ),
    )
}

/// Adds findings to a list of the functions or of the module scope.
fn apply_findings(
    fs: &mut Vec<FunctionInfo>,
    m: &mut FunctionInfo,
    field: ListField,
    findings: Vec<(Option<usize>, String)>,
)
    requires
        forall|k: int| 0 <= k < findings@.len() ==> target_within(#[trigger] findings@[k].0, old(fs)@.len()),
    ensures
        appended(old(fs)@, *old(m), final(fs)@, *final(m), field, findings_view(findings@)),
{
    let ghost fs0 = fs@;
    let ghost m0 = *m;
    let ghost fv = findings_view(findings@);
    proof {
        assert forall|j: int| 0 <= j < fs@.len() implies same_except_list(
            fs0[j],
            #[trigger] fs@[j],
            field,
        ) && list_of(fs@[j], field) == list_of(fs0[j], field) + routed_to(fv.take(0), Some(j)) by {
            assert(list_of(fs@[j], field) =~= list_of(fs0[j], field) + Seq::<Seq<char>>::empty());
        }
        assert(list_of(*m, field) =~= list_of(m0, field) + routed_to(fv.take(0), None));
    }
    let mut findings = findings;
    let n = findings.len();
    let mut k: usize = 0;
    let mut rest: Vec<(Option<usize>, String)> = Vec::new();
    let ghost all = findings@;
    while k < n
        invariant
            all == findings@,
            n == all.len(),
            fv == findings_view(all),
            forall|q: int| 0 <= q < all.len() ==> target_within(#[trigger] all[q].0, fs0.len()),
            0 <= k <= n,
            appended(fs0, m0, fs@, *m, field, fv.take(k as int)),
        decreases n - k,
    {
        let t = findings[k].0;
        let v = findings[k].1.clone();
        proof {
            assert(fv.take(k as int).push(
                (
                    match t {
                        Some(i) => Some(i as int),
                        None => None,
                    },
                    v@,
                ),
            ) =~= fv.take(k + 1));
        }
        route_value(fs, m, t, field, v, Ghost(fs0), Ghost(m0), Ghost(fv.take(k as int)));
        k = k + 1;
    }
    proof {
        assert(fv.take(n as int) =~= fv);
    }
}

/// Findings of every capture of every match.
pub open spec fn routed_caps(ms: Seq<MatchData>, f: spec_fn(CaptureData) -> Seq<Routed>) -> Seq<Routed>
    decreases ms.len(),
{
    if ms.len() == 0 {
        Seq::empty()
    } else {
        routed_caps(ms.drop_last(), f) + routed_list(ms.last().captures@, f)
    }
}

/// Findings of every capture.
pub open spec fn routed_list(caps: Seq<CaptureData>, f: spec_fn(CaptureData) -> Seq<Routed>) -> Seq<Routed>
    decreases caps.len(),
{
    if caps.len() == 0 {
        Seq::empty()
    } else {
        routed_list(caps.drop_last(), f) + f(caps.last())
    }
}

/// A finding for a value, going to `t`.
pub open spec fn one(t: Option<int>, v: Seq<char>) -> Seq<Routed> {
    seq![(t, v)]
}

/// The config key a capture reads, for its owner.
pub open spec fn config_finding(fs: Seq<FunctionInfo>, c: CaptureData) -> Seq<Routed> {
    let text = trim_quotes(c.node.text@);
    if c.name@ == "config.key"@ && text.len() > 0 {
        one(owner_of(fs, c.node.start, c.node.end), text)
    } else {
        Seq::empty()
    }
}

/// The characters stripped from decorators.
pub open spec fn decorator_chars() -> Seq<char> {
    seq!['@', '#', '[', ']', '(', ')']
}

/// The decorator a capture names, for its owner or the definition it
/// precedes.
pub open spec fn decorator_finding(fs: Seq<FunctionInfo>, c: CaptureData) -> Seq<Routed> {
    let clean = trim_set(c.node.text@, decorator_chars());
    if clean.len() > 0 {
        one(owner_or_neighbor(fs, c.node.start, c.node.end), clean)
    } else {
        Seq::empty()
    }
}

/// The type a capture refers to, for its owner.
pub open spec fn type_finding(fs: Seq<FunctionInfo>, c: CaptureData) -> Seq<Routed> {
    if c.node.text@.len() > 0 {
        one(owner_of(fs, c.node.start, c.node.end), c.node.text@)
    } else {
        Seq::empty()
    }
}

/// The route a capture defines, for its owner or the definition it precedes.
pub open spec fn route_finding(fs: Seq<FunctionInfo>, c: CaptureData) -> Seq<Routed> {
    let r = route_text(c.node.text@);
    if r.len() > 1 {
        one(owner_or_neighbor(fs, c.node.start, c.node.end), r)
    } else {
        Seq::empty()
    }
}

/// The action a capture names: the value of the constant of that name, or
/// the text, unquoted.
pub open spec fn action_text(c: CaptureData, consts: Seq<(Seq<char>, Seq<char>)>) -> Seq<char> {
    trim_quotes(
        match assoc_get(consts, c.node.text@) {
            Some(v) => v,
            None => c.node.text@,
        },
    )
}

/// A dispatched action, for its owner or else the module scope.
pub open spec fn dispatch_finding(fs: Seq<FunctionInfo>, consts: Seq<(Seq<char>, Seq<char>)>, c: CaptureData) -> Seq<Routed> {
    if c.name@ == "action.dispatch"@ {
        match owner_of(fs, c.node.start, c.node.end) {
            Some(i) => one(Some(i), action_text(c, consts)),
            None => match neighbor_of(fs, c.node.end) {
                Some(_) => Seq::empty(),
                None => one(None, action_text(c, consts)),
            },
        }
    } else {
        Seq::empty()
    }
}

/// A handled action, for its owner, the definition it precedes, or else the
/// module scope.
pub open spec fn handle_finding(fs: Seq<FunctionInfo>, consts: Seq<(Seq<char>, Seq<char>)>, c: CaptureData) -> Seq<Routed> {
    if c.name@ == "action.handle"@ {
        one(owner_or_neighbor(fs, c.node.start, c.node.end), action_text(c, consts))
    } else {
        Seq::empty()
    }
}

/// The findings of one kind for every capture, computed by `finding`.
fn collect_findings(
    fs: &Vec<FunctionInfo>,
    ms: &Vec<MatchData>,
    kind: FindingKind,
    consts: &Vec<(String, String)>,
) -> (r: Vec<(Option<usize>, String)>)
    requires
        ordered(fs@),
        assoc_keys(pairs_view(consts@)).no_duplicates(),
    ensures
        findings_view(r@) == routed_caps(ms@, |c: CaptureData| finding_of(kind, fs@, pairs_view(consts@), c)),
        forall|k: int| 0 <= k < r@.len() ==> target_within(#[trigger] r@[k].0, fs@.len()),
{
    let ghost f = |c: CaptureData| finding_of(kind, fs@, pairs_view(consts@), c);
    let mut out: Vec<(Option<usize>, String)> = Vec::new();
    let mut i: usize = 0;
    while i < ms.len()
        invariant
            ordered(fs@),
            assoc_keys(pairs_view(consts@)).no_duplicates(),
            f == (|c: CaptureData| finding_of(kind, fs@, pairs_view(consts@), c)),
            0 <= i <= ms@.len(),
            findings_view(out@) == routed_caps(ms@.take(i as int), f),
            forall|k: int| 0 <= k < out@.len() ==> target_within(#[trigger] out@[k].0, fs@.len()),
        decreases ms@.len() - i,
    {
        proof {
            assert(ms@.take(i + 1).drop_last() =~= ms@.take(i as int));
            assert(ms@.take(i + 1).last() == ms@[i as int]);
        }
        let caps = &ms[i].captures;
        let ghost base = findings_view(out@);
        let mut j: usize = 0;
        while j < caps.len()
            invariant
                ordered(fs@),
                assoc_keys(pairs_view(consts@)).no_duplicates(),
                f == (|c: CaptureData| finding_of(kind, fs@, pairs_view(consts@), c)),
                0 <= j <= caps@.len(),
                findings_view(out@) == base + routed_list(caps@.take(j as int), f),
                forall|k: int| 0 <= k < out@.len() ==> target_within(#[trigger] out@[k].0, fs@.len()),
            decreases caps@.len() - j,
        {
            proof {
                assert(caps@.take(j + 1).drop_last() =~= caps@.take(j as int));
                assert(caps@.take(j + 1).last() == caps@[j as int]);
            }
            let ghost before = findings_view(out@);
            match finding_exec(kind, fs, consts, &caps[j]) {
                Some(found) => {
                    let ghost fe = (
                        match found.0 {
                            Some(x) => Some(x as int),
                            None => None,
                        },
                        found.1@,
                    );
                    out.push(found);
                    proof {
                        assert(findings_view(out@) =~= before.push(fe));
                        assert(f(caps@[j as int]) =~= seq![fe]);
                    }
                },
                None => {
                    proof {
                        assert(f(caps@[j as int]) =~= Seq::<Routed>::empty());
                    }
                },
            }
            proof {
                assert(findings_view(out@) =~= base + routed_list(caps@.take(j + 1), f));
            }
            j = j + 1;
        }
        proof {
            assert(caps@.take(caps@.len() as int) =~= caps@);
        }
        i = i + 1;
    }
    proof {
        assert(ms@.take(ms@.len() as int) =~= ms@);
    }
    out
}

/// The kinds of findings routed to a list.
#[derive(Clone, Copy, PartialEq, Eq, Structural)]
pub enum FindingKind {
    ConfigKey,
    Decorator,
    TypeRef,
    Route,
    Dispatch,
    Handle,
}

/// The finding of a kind that a capture gives.
pub open spec fn finding_of(kind: FindingKind, fs: Seq<FunctionInfo>, consts: Seq<(Seq<char>, Seq<char>)>, c: CaptureData) -> Seq<Routed> {
    match kind {
        FindingKind::ConfigKey => config_finding(fs, c),
        FindingKind::Decorator => decorator_finding(fs, c),
        FindingKind::TypeRef => type_finding(fs, c),
        FindingKind::Route => route_finding(fs, c),
        FindingKind::Dispatch => dispatch_finding(fs, consts, c),
        FindingKind::Handle => handle_finding(fs, consts, c),
    }
}

fn opt_index(o: Option<usize>) -> (r: Option<usize>)
    ensures
        r == o,
{
    o
}

/// The finding of a kind that a capture gives (at most one).
fn finding_exec(kind: FindingKind, fs: &Vec<FunctionInfo>, consts: &Vec<(String, String)>, c: &CaptureData) -> (r: Option<(Option<usize>, String)>)
    requires
        ordered(fs@),
        assoc_keys(pairs_view(consts@)).no_duplicates(),
    ensures
        match r {
            Some(found) => finding_of(kind, fs@, pairs_view(consts@), *c) == seq![(
                match found.0 {
                    Some(x) => Some(x as int),
                    None => None,
                },
                found.1@,
            )] && (found.0 matches Some(x) ==> x < fs@.len()),
            None => finding_of(kind, fs@, pairs_view(consts@), *c) == Seq::<Routed>::empty(),
        },
{
    let start = c.node.start;
    let end = c.node.end;
    match kind {
        FindingKind::ConfigKey => {
            let text = trim_quote_chars(c.node.text.as_str());
            let tv = chars_of(text.as_str());
            if str_eq(c.name.as_str(), "config.key") && tv.len() > 0 {
                Some((find_owner(fs, start, end), text))
            } else {
                None
            }
        },
        FindingKind::Decorator => {
            let mut set: Vec<char> = Vec::new();
            set.push('@');
            set.push('#');
            set.push('[');
            set.push(']');
            set.push('(');
            set.push(')');
            proof {
                assert(set@ =~= decorator_chars());
            }
            let clean = trim_by(c.node.text.as_str(), &set);
            let cv = chars_of(clean.as_str());
            if cv.len() > 0 {
                Some((find_owner_or_neighbor(fs, start, end), clean))
            } else {
                None
            }
        },
        FindingKind::TypeRef => {
            let tv = chars_of(c.node.text.as_str());
            if tv.len() > 0 {
                Some((find_owner(fs, start, end), c.node.text.clone()))
            } else {
                None
            }
        },
        FindingKind::Route => {
            let r = route_text_exec(c.node.text.as_str());
            let rv = chars_of(r.as_str());
            if rv.len() > 1 {
                Some((find_owner_or_neighbor(fs, start, end), r))
            } else {
                None
            }
        },
        FindingKind::Dispatch => {
            if !str_eq(c.name.as_str(), "action.dispatch") {
                return None;
            }
            let text = action_text_exec(c, consts);
            match find_owner(fs, start, end) {
                Some(i) => Some((Some(i), text)),
                None => match find_owner_or_neighbor(fs, start, end) {
                    Some(_) => None,
                    None => Some((None, text)),
                },
            }
        },
        FindingKind::Handle => {
            if !str_eq(c.name.as_str(), "action.handle") {
                return None;
            }
            let text = action_text_exec(c, consts);
            Some((find_owner_or_neighbor(fs, start, end), text))
        },
    }
}

fn action_text_exec(c: &CaptureData, consts: &Vec<(String, String)>) -> (r: String)
    requires
        assoc_keys(pairs_view(consts@)).no_duplicates(),
    ensures
        r@ == action_text(*c, pairs_view(consts@)),
{
    match assoc_lookup(consts, c.node.text.as_str()) {
        Some(v) => trim_quote_chars(v.as_str()),
        None => trim_quote_chars(c.node.text.as_str()),
    }
}

// ---------------------------------------------------------------------------
// The model of a function
// ---------------------------------------------------------------------------

/// The model of a [`FunctionInfo`].
pub struct FnModel {
    pub name: Seq<char>,
    pub kind: SymbolKind,
    pub is_anonymous: bool,
    pub range_start: usize,
    pub range_end: usize,
    pub body_start: Option<usize>,
    pub source_code: Seq<char>,
    pub documentation: Option<Seq<char>>,
    pub calls: Seq<Seq<char>>,
    pub type_refs: Seq<Seq<char>>,
    pub decorators: Seq<Seq<char>>,
    pub fingerprints: Map<Seq<char>, Seq<Seq<char>>>,
    pub return_type: Option<Seq<char>>,
    pub local_types: Map<Seq<char>, Seq<char>>,
    pub local_assigns: Map<Seq<char>, Seq<char>>,
    pub config_keys: Seq<Seq<char>>,
    pub dispatched_actions: Seq<Seq<char>>,
    pub handled_actions: Seq<Seq<char>>,
    pub routes: Seq<Seq<char>>,
}

/// The model of a map of strings.
pub open spec fn text_map(m: Map<Seq<char>, String>) -> Map<Seq<char>, Seq<char>> {
    Map::new(|k: Seq<char>| m.contains_key(k), |k: Seq<char>| m[k]@)
}

/// The model of a list of receivers with their methods: each receiver to
/// its methods, a later entry of a receiver replacing an earlier one.
pub open spec fn lists_map(v: Seq<(String, Vec<String>)>) -> Map<Seq<char>, Seq<Seq<char>>>
    decreases v.len(),
{
    if v.len() == 0 {
        Map::empty()
    } else {
        lists_map(v.drop_last()).insert(v.last().0@, strings_view(v.last().1@))
    }
}

/// No entry of `v` after the `i`th is for receiver `r`.
pub open spec fn last_entry(v: Seq<(String, Vec<String>)>, i: int, r: Seq<char>) -> bool {
    0 <= i < v.len() && v[i].0@ == r && forall|j: int| i < j < v.len() ==> (#[trigger] v[j]).0@ != r
}

/// The methods of a receiver are those of its last entry; replacing the
/// methods of that entry replaces them in the model.
pub(crate) proof fn lemma_last_entry(v: Seq<(String, Vec<String>)>, i: int, r: Seq<char>, e: Vec<String>)
    requires
        last_entry(v, i, r),
    ensures
        lists_map(v).contains_key(r),
        lists_map(v)[r] == strings_view(v[i].1@),
        lists_map(v.update(i, (v[i].0, e))) == lists_map(v).insert(r, strings_view(e@)),
    decreases v.len(),
{
    let w = v.update(i, (v[i].0, e));
    if i == v.len() - 1 {
        assert(w.drop_last() =~= v.drop_last());
        assert(lists_map(w) =~= lists_map(v).insert(r, strings_view(e@)));
    } else {
        assert(last_entry(v.drop_last(), i, r)) by {
            assert forall|j: int| i < j < v.drop_last().len() implies (#[trigger] v.drop_last()[j]).0@ != r by {
                assert(v.drop_last()[j] == v[j]);
            }
        }
        lemma_last_entry(v.drop_last(), i, r, e);
        assert(w.drop_last() =~= v.drop_last().update(i, (v[i].0, e)));
        assert(v.last().0@ != r) by {
            assert(v[v.len() - 1] == v.last());
        }
        assert(lists_map(w) =~= lists_map(v).insert(r, strings_view(e@)));
    }
}

/// Without an entry for receiver `r`, the model has none.
proof fn lemma_no_entry(v: Seq<(String, Vec<String>)>, r: Seq<char>)
    requires
        forall|j: int| 0 <= j < v.len() ==> (#[trigger] v[j]).0@ != r,
    ensures
        !lists_map(v).contains_key(r),
    decreases v.len(),
{
    if v.len() > 0 {
        assert forall|j: int| 0 <= j < v.drop_last().len() implies (#[trigger] v.drop_last()[j]).0@ != r by {
            assert(v.drop_last()[j] == v[j]);
        }
        lemma_no_entry(v.drop_last(), r);
        assert(v[v.len() - 1] == v.last());
    }
}

pub open spec fn fn_model(f: FunctionInfo) -> FnModel {
    FnModel {
        name: f.name@,
        kind: f.kind,
        is_anonymous: f.is_anonymous,
        range_start: f.range_start,
        range_end: f.range_end,
        body_start: f.body_start,
        source_code: f.source_code@,
        documentation: opt_chars(f.documentation),
        calls: strings_view(f.calls@),
        type_refs: strings_view(f.type_refs@),
        decorators: strings_view(f.decorators@),
        fingerprints: lists_map(f.fingerprints@),
        return_type: opt_chars(f.return_type),
        local_types: text_map(f.local_types@),
        local_assigns: text_map(f.local_assigns@),
        config_keys: strings_view(f.config_keys@),
        dispatched_actions: strings_view(f.dispatched_actions@),
        handled_actions: strings_view(f.handled_actions@),
        routes: strings_view(f.routes@),
    }
}

pub open spec fn fn_models(fs: Seq<FunctionInfo>) -> Seq<FnModel> {
    fs.map_values(|f: FunctionInfo| fn_model(f))
}

/// A list of a model.
pub open spec fn model_list(f: FnModel, field: ListField) -> Seq<Seq<char>> {
    match field {
        ListField::Calls => f.calls,
        ListField::TypeRefs => f.type_refs,
        ListField::Decorators => f.decorators,
        ListField::ConfigKeys => f.config_keys,
        ListField::DispatchedActions => f.dispatched_actions,
        ListField::HandledActions => f.handled_actions,
        ListField::Routes => f.routes,
    }
}

/// A model with one list replaced.
pub open spec fn with_list(f: FnModel, field: ListField, v: Seq<Seq<char>>) -> FnModel {
    match field {
        ListField::Calls => FnModel { calls: v, ..f },
        ListField::TypeRefs => FnModel { type_refs: v, ..f },
        ListField::Decorators => FnModel { decorators: v, ..f },
        ListField::ConfigKeys => FnModel { config_keys: v, ..f },
        ListField::DispatchedActions => FnModel { dispatched_actions: v, ..f },
        ListField::HandledActions => FnModel { handled_actions: v, ..f },
        ListField::Routes => FnModel { routes: v, ..f },
    }
}

/// The functions and module scope after the findings have been added to
/// list `field`.
pub open spec fn add_routed(fs: Seq<FnModel>, m: FnModel, field: ListField, rs: Seq<Routed>) -> (Seq<FnModel>, FnModel) {
    (
        Seq::new(
            fs.len(),
            |i: int| with_list(fs[i], field, model_list(fs[i], field) + routed_to(rs, Some(i))),
        ),
        with_list(m, field, model_list(m, field) + routed_to(rs, None)),
    )
}

proof fn lemma_same_except_model(a: FunctionInfo, b: FunctionInfo, field: ListField, extra: Seq<Seq<char>>)
    requires
        same_except_list(a, b, field),
        list_of(b, field) == list_of(a, field) + extra,
    ensures
        fn_model(b) == with_list(fn_model(a), field, model_list(fn_model(a), field) + extra),
{
    assert(list_of(b, ListField::Calls) == fn_model(b).calls);
    assert(list_of(b, ListField::TypeRefs) == fn_model(b).type_refs);
    assert(list_of(b, ListField::Decorators) == fn_model(b).decorators);
    assert(list_of(b, ListField::ConfigKeys) == fn_model(b).config_keys);
    assert(list_of(b, ListField::DispatchedActions) == fn_model(b).dispatched_actions);
    assert(list_of(b, ListField::HandledActions) == fn_model(b).handled_actions);
    assert(list_of(b, ListField::Routes) == fn_model(b).routes);
    assert(list_of(a, ListField::Calls) == fn_model(a).calls);
    assert(list_of(a, ListField::TypeRefs) == fn_model(a).type_refs);
    assert(list_of(a, ListField::Decorators) == fn_model(a).decorators);
    assert(list_of(a, ListField::ConfigKeys) == fn_model(a).config_keys);
    assert(list_of(a, ListField::DispatchedActions) == fn_model(a).dispatched_actions);
    assert(list_of(a, ListField::HandledActions) == fn_model(a).handled_actions);
    assert(list_of(a, ListField::Routes) == fn_model(a).routes);
    assert(fn_model(b).fingerprints =~= fn_model(a).fingerprints);
    assert(fn_model(b).local_types =~= fn_model(a).local_types);
    assert(fn_model(b).local_assigns =~= fn_model(a).local_assigns);
}

proof fn lemma_appended_models(
    fs0: Seq<FunctionInfo>,
    m0: FunctionInfo,
    fs: Seq<FunctionInfo>,
    m: FunctionInfo,
    field: ListField,
    rs: Seq<Routed>,
)
    requires
        appended(fs0, m0, fs, m, field, rs),
    ensures
        (fn_models(fs), fn_model(m)) == add_routed(fn_models(fs0), fn_model(m0), field, rs),
{
    let (a, b) = add_routed(fn_models(fs0), fn_model(m0), field, rs);
    assert forall|i: int| 0 <= i < fs.len() implies fn_models(fs)[i] == a[i] by {
        lemma_same_except_model(fs0[i], fs[i], field, routed_to(rs, Some(i)));
    }
    assert(fn_models(fs) =~= a);
    lemma_same_except_model(m0, m, field, routed_to(rs, None));
}

/// Functions with the same ranges have the same owners and neighbors.
proof fn lemma_same_ranges(a: Seq<FunctionInfo>, b: Seq<FunctionInfo>, start: usize, end: usize)
    requires
        a.len() == b.len(),
        forall|i: int|
            0 <= i < a.len() ==> (#[trigger] a[i]).range_start == b[i].range_start && a[i].range_end
                == b[i].range_end,
    ensures
        owner_fold(a, start, end) == owner_fold(b, start, end),
        neighbor_of(a, end) == neighbor_of(b, end),
    decreases a.len(),
{
    if a.len() > 0 {
        lemma_same_ranges(a.drop_last(), b.drop_last(), start, end);
        assert(a.last() == a[a.len() - 1]);
        assert(b.last() == b[b.len() - 1]);
    }
}

// ---------------------------------------------------------------------------
// Calls and fingerprints
// ---------------------------------------------------------------------------

/// What the captures of a calls match say so far.
pub struct CallFold {
    pub name: Option<Seq<char>>,
    pub receiver: Option<Seq<char>>,
    pub dynamic: Option<Seq<char>>,
    pub range: Option<(usize, usize)>,
}

pub open spec fn call_fold(caps: Seq<CaptureData>) -> CallFold
    decreases caps.len(),
{
    if caps.len() == 0 {
        CallFold { name: None, receiver: None, dynamic: None, range: None }
    } else {
        let st = call_fold(caps.drop_last());
        let c = caps.last();
        if c.name@ == "call.name"@ {
            CallFold { name: Some(c.node.text@), range: Some((c.node.start, c.node.end)), ..st }
        } else if c.name@ == "call.receiver"@ {
            CallFold { receiver: Some(c.node.text@), ..st }
        } else if c.name@ == "call.dynamic_dispatch"@ {
            CallFold { dynamic: Some(c.node.text@), range: Some((c.node.start, c.node.end)), ..st }
        } else {
            st
        }
    }
}

/// A method called on a receiver (`*` for a dynamic dispatch), going to a
/// function or to the module scope.
pub type FpRouted = (Option<int>, Seq<char>, Seq<char>);

/// The calls without a receiver and the calls on a receiver that the calls
/// matches make, each going to the owner of the call.
pub open spec fn call_findings(fs: Seq<FunctionInfo>, ms: Seq<MatchData>) -> (Seq<Routed>, Seq<FpRouted>)
    decreases ms.len(),
{
    if ms.len() == 0 {
        (Seq::empty(), Seq::empty())
    } else {
        let (cl, fp) = call_findings(fs, ms.drop_last());
        let st = call_fold(ms.last().captures@);
        match (st.name, st.range) {
            (Some(m), Some(rg)) => {
                let t = owner_of(fs, rg.0, rg.1);
                match st.receiver {
                    None => (cl.push((t, m)), fp),
                    Some(r) => (cl, fp.push((t, r, m))),
                }
            },
            _ => match (st.dynamic, st.range) {
                (Some(dr), Some(rg)) => (cl, fp.push((owner_of(fs, rg.0, rg.1), dr, "*"@))),
                _ => (cl, fp),
            },
        }
    }
}

/// A method added to the list of a receiver.
pub open spec fn fp_add(m: Map<Seq<char>, Seq<Seq<char>>>, r: Seq<char>, x: Seq<char>) -> Map<Seq<char>, Seq<Seq<char>>> {
    m.insert(
        r,
        (if m.contains_key(r) {
            m[r]
        } else {
            Seq::empty()
        }).push(x),
    )
}

/// The functions and module scope after the calls on receivers were added.
pub open spec fn apply_fps(fs: Seq<FnModel>, m: FnModel, fps: Seq<FpRouted>) -> (Seq<FnModel>, FnModel)
    decreases fps.len(),
{
    if fps.len() == 0 {
        (fs, m)
    } else {
        let (a, b) = apply_fps(fs, m, fps.drop_last());
        let (t, r, x) = fps.last();
        match t {
            Some(i) => if 0 <= i < a.len() {
                (a.update(i, FnModel { fingerprints: fp_add(a[i].fingerprints, r, x), ..a[i] }), b)
            } else {
                (a, b)
            },
            None => (a, FnModel { fingerprints: fp_add(b.fingerprints, r, x), ..b }),
        }
    }
}

/// A copy of a list of strings.
pub(crate) fn clone_strings(v: &Vec<String>) -> (r: Vec<String>)
    ensures
        strings_view(r@) == strings_view(v@),
{
    let mut out: Vec<String> = Vec::new();
    let mut i: usize = 0;
    while i < v.len()
        invariant
            0 <= i <= v@.len(),
            strings_view(out@) == strings_view(v@).take(i as int),
        decreases v@.len() - i,
    {
        let ghost before = out@;
        let c = v[i].clone();
        let ghost cv = c@;
        out.push(c);
        proof {
            assert(cv == v@[i as int]@);
            assert(strings_view(out@) =~= strings_view(before).push(cv));
            assert(strings_view(v@).take(i + 1) =~= strings_view(v@).take(i as int).push(cv));
        }
        i = i + 1;
    }
    proof {
        assert(strings_view(v@).take(v@.len() as int) =~= strings_view(v@));
    }
    out
}

/// The last entry of `v` for receiver `r`, if any.
fn last_entry_of(v: &Vec<(String, Vec<String>)>, r: &str) -> (res: Option<usize>)
    ensures
        res matches Some(k) ==> last_entry(v@, k as int, r@),
        res is None ==> forall|j: int| 0 <= j < v@.len() ==> (#[trigger] v@[j]).0@ != r@,
{
    let mut i: usize = v.len();
    while i > 0
        invariant
            0 <= i <= v@.len(),
            forall|j: int| i <= j < v@.len() ==> (#[trigger] v@[j]).0@ != r@,
        decreases i,
    {
        if str_eq(v[i - 1].0.as_str(), r) {
            return Some(i - 1);
        }
        i = i - 1;
    }
    None
}

/// Adds a method to the list of a receiver of a function.
fn add_fingerprint(f: &mut FunctionInfo, r: String, x: String)
    ensures
        fn_model(*final(f)) == (FnModel {
            fingerprints: fp_add(fn_model(*old(f)).fingerprints, r@, x@),
            ..fn_model(*old(f))
        }),
{
    let ghost (rv, xv) = (r@, x@);
    let ghost v0 = f.fingerprints@;
    let last = last_entry_of(&f.fingerprints, r.as_str());
    if let Some(k) = last {
        let mut e = clone_strings(&f.fingerprints[k].1);
        let ghost before = e@;
        e.push(x);
        let key = f.fingerprints[k].0.clone();
        proof {
            assert(last_entry(v0, k as int, rv));
            lemma_last_entry(v0, k as int, rv, e);
            assert(strings_view(e@) =~= strings_view(before).push(xv));
            assert(key@ == v0[k as int].0@);
        }
        f.fingerprints.set(k, (key, e));
        proof {
            assert(lists_map(f.fingerprints@) =~= lists_map(v0.update(k as int, (v0[k as int].0, e))));
            assert(lists_map(f.fingerprints@) =~= fp_add(lists_map(old(f).fingerprints@), rv, xv));
        }
    } else {
        proof {
            lemma_no_entry(v0, rv);
        }
        let mut e: Vec<String> = Vec::new();
        e.push(x);
        f.fingerprints.push((r, e));
        proof {
            assert(f.fingerprints@.drop_last() =~= v0);
            assert(strings_view(e@) =~= seq![xv]);
            assert(lists_map(f.fingerprints@) =~= fp_add(lists_map(old(f).fingerprints@), rv, xv));
        }
    }
    proof {
        assert(fn_model(*f).local_types =~= fn_model(*old(f)).local_types);
        assert(fn_model(*f).local_assigns =~= fn_model(*old(f)).local_assigns);
    }
}

/// Adds the calls on receivers to the functions and the module scope.
fn apply_fp_findings(fs: &mut Vec<FunctionInfo>, m: &mut FunctionInfo, findings: Vec<(Option<usize>, String, String)>)
    ensures
        same_ranges(old(fs)@, final(fs)@),
        (fn_models(final(fs)@), fn_model(*final(m))) == apply_fps(
            fn_models(old(fs)@),
            fn_model(*old(m)),
            fps_view(findings@),
        ),
{
    let ghost fs0 = fn_models(fs@);
    let ghost m0 = fn_model(*m);
    let ghost fv = fps_view(findings@);
    let n = findings.len();
    let mut k: usize = 0;
    proof {
        assert(fv.take(0) =~= Seq::<FpRouted>::empty());
    }
    while k < n
        invariant
            n == findings@.len(),
            fv == fps_view(findings@),
            0 <= k <= n,
            (fn_models(fs@), fn_model(*m)) == apply_fps(fs0, m0, fv.take(k as int)),
            same_ranges(old(fs)@, fs@),
        decreases n - k,
    {
        let t = findings[k].0;
        let r = findings[k].1.clone();
        let x = findings[k].2.clone();
        proof {
            assert(fv.take(k + 1).drop_last() =~= fv.take(k as int));
            assert(fv.take(k + 1).last() == fv[k as int]);
        }
        let ghost before = fs@;
        match t {
            Some(i) => {
                if i < fs.len() {
                    add_fingerprint(&mut fs[i], r, x);
                    proof {
                        assert(fn_models(fs@) =~= fn_models(before).update(
                            i as int,
                            fn_model(fs@[i as int]),
                        ));
                        assert(fn_model(fs@[i as int]).range_start == fn_model(before[i as int]).range_start);
                        assert(fn_model(fs@[i as int]).range_end == fn_model(before[i as int]).range_end);
                        assert forall|j: int| 0 <= j < fs@.len() implies (#[trigger] old(fs)@[j]).range_start
                            == fs@[j].range_start && old(fs)@[j].range_end == fs@[j].range_end by {
                            if j != i {
                                assert(fs@[j] == before[j]);
                            }
                        }
                    }
                }
            },
            None => {
                add_fingerprint(m, r, x);
            },
        }
        k = k + 1;
    }
    proof {
        assert(fv.take(n as int) =~= fv);
    }
}

/// The model of a list of calls on receivers.
pub open spec fn fps_view(v: Seq<(Option<usize>, String, String)>) -> Seq<FpRouted> {
    v.map_values(
        |e: (Option<usize>, String, String)|
            (
                match e.0 {
                    Some(i) => Some(i as int),
                    None => None,
                },
                e.1@,
                e.2@,
            ),
    )
}

/// The calls the calls matches make, found on the current functions.
fn call_findings_exec(fs: &Vec<FunctionInfo>, ms: &Vec<MatchData>) -> (r: (
    Vec<(Option<usize>, String)>,
    Vec<(Option<usize>, String, String)>,
))
    requires
        ordered(fs@),
    ensures
        (findings_view(r.0@), fps_view(r.1@)) == call_findings(fs@, ms@),
        forall|k: int| 0 <= k < r.0@.len() ==> target_within(#[trigger] r.0@[k].0, fs@.len()),
{
    let mut cl: Vec<(Option<usize>, String)> = Vec::new();
    let mut fp: Vec<(Option<usize>, String, String)> = Vec::new();
    let mut i: usize = 0;
    while i < ms.len()
        invariant
            ordered(fs@),
            0 <= i <= ms@.len(),
            (findings_view(cl@), fps_view(fp@)) == call_findings(fs@, ms@.take(i as int)),
            forall|k: int| 0 <= k < cl@.len() ==> target_within(#[trigger] cl@[k].0, fs@.len()),
        decreases ms@.len() - i,
    {
        proof {
            assert(ms@.take(i + 1).drop_last() =~= ms@.take(i as int));
            assert(ms@.take(i + 1).last() == ms@[i as int]);
        }
        let caps = &ms[i].captures;
        let mut name: Option<String> = None;
        let mut receiver: Option<String> = None;
        let mut dynamic: Option<String> = None;
        let mut range: Option<(usize, usize)> = None;
        let mut j: usize = 0;
        while j < caps.len()
            invariant
                0 <= j <= caps@.len(),
                ({
                    let st = call_fold(caps@.take(j as int));
                    &&& opt_chars(name) == st.name
                    &&& opt_chars(receiver) == st.receiver
                    &&& opt_chars(dynamic) == st.dynamic
                    &&& range == st.range
                }),
            decreases caps@.len() - j,
        {
            let c = &caps[j];
            proof {
                assert(caps@.take(j + 1).drop_last() =~= caps@.take(j as int));
                assert(caps@.take(j + 1).last() == c);
            }
            if str_eq(c.name.as_str(), "call.name") {
                name = Some(c.node.text.clone());
                range = Some((c.node.start, c.node.end));
            } else if str_eq(c.name.as_str(), "call.receiver") {
                receiver = Some(c.node.text.clone());
            } else if str_eq(c.name.as_str(), "call.dynamic_dispatch") {
                dynamic = Some(c.node.text.clone());
                range = Some((c.node.start, c.node.end));
            }
            j = j + 1;
        }
        proof {
            assert(caps@.take(caps@.len() as int) =~= caps@);
        }
        let ghost (c0, f0) = (findings_view(cl@), fps_view(fp@));
        match (name, range) {
            (Some(mname), Some((s, e))) => {
                let t = find_owner(fs, s, e);
                match receiver {
                    None => {
                        let ghost mv = mname@;
                        cl.push((t, mname));
                        proof {
                            assert(findings_view(cl@) =~= c0.push(
                                (
                                    match t {
                                        Some(x) => Some(x as int),
                                        None => None,
                                    },
                                    mv,
                                ),
                            ));
                        }
                    },
                    Some(r) => {
                        let ghost (rv, mv) = (r@, mname@);
                        fp.push((t, r, mname));
                        proof {
                            assert(fps_view(fp@) =~= f0.push(
                                (
                                    match t {
                                        Some(x) => Some(x as int),
                                        None => None,
                                    },
                                    rv,
                                    mv,
                                ),
                            ));
                        }
                    },
                }
            },
            (nm, rg) => {
                match (dynamic, rg) {
                    (Some(dr), Some((s, e))) => {
                        let t = find_owner(fs, s, e);
                        let star = "*".to_string();
                        let ghost dv = dr@;
                        fp.push((t, dr, star));
                        proof {
                            assert(fps_view(fp@) =~= f0.push(
                                (
                                    match t {
                                        Some(x) => Some(x as int),
                                        None => None,
                                    },
                                    dv,
                                    "*"@,
                                ),
                            ));
                        }
                    },
                    _ => {},
                }
            },
        }
        i = i + 1;
    }
    proof {
        assert(ms@.take(ms@.len() as int) =~= ms@);
    }
    (cl, fp)
}

// ---------------------------------------------------------------------------
// Local variables
// ---------------------------------------------------------------------------

/// A local variable's type or assignment, going to a function or to the
/// module scope.
pub type LocalRouted = (Option<int>, Seq<char>, Seq<char>);

/// The first container that holds a range.
pub open spec fn first_container(fs: Seq<FunctionInfo>, start: usize, end: usize) -> Option<int>
    decreases fs.len(),
{
    if fs.len() == 0 {
        None
    } else {
        match first_container(fs.drop_last(), start, end) {
            Some(c) => Some(c),
            None => if fs.last().kind == SymbolKind::Container && holds_range(fs.last(), start, end) {
                Some(fs.len() - 1)
            } else {
                None
            },
        }
    }
}

/// One entry going to `t` where there is a value.
pub open spec fn local_entry(t: Option<int>, name: Seq<char>, v: Option<Seq<char>>) -> Seq<LocalRouted> {
    match v {
        Some(x) => seq![(t, name, x)],
        None => Seq::empty(),
    }
}

/// The types and assignments that the variable hints give, each going to
/// the owner of the hint (and, for a hint inside a constructor, also to the
/// first container that holds it), or to the module scope.
pub open spec fn local_findings(fs: Seq<FunctionInfo>, hs: Seq<HintV>) -> (Seq<LocalRouted>, Seq<LocalRouted>)
    decreases hs.len(),
{
    if hs.len() == 0 {
        (Seq::empty(), Seq::empty())
    } else {
        let (ty, asg) = local_findings(fs, hs.drop_last());
        let h = hs.last();
        match owner_of(fs, h.start, h.end) {
            Some(idx) => {
                let ty1 = ty + local_entry(Some(idx), h.name, h.declared_type);
                let asg1 = asg + local_entry(Some(idx), h.name, h.assignment);
                if fs[idx].name@ == "constructor"@ {
                    match first_container(fs, h.start, h.end) {
                        Some(c) => (
                            ty1 + local_entry(Some(c), h.name, h.declared_type),
                            asg1 + local_entry(Some(c), h.name, h.assignment),
                        ),
                        None => (ty1, asg1),
                    }
                } else {
                    (ty1, asg1)
                }
            },
            None => (
                ty + local_entry(None, h.name, h.declared_type),
                asg + local_entry(None, h.name, h.assignment),
            ),
        }
    }
}

/// The functions and module scope after the local types (`types` set) or
/// assignments were recorded.
pub open spec fn apply_locals(fs: Seq<FnModel>, m: FnModel, es: Seq<LocalRouted>, types: bool) -> (Seq<FnModel>, FnModel)
    decreases es.len(),
{
    if es.len() == 0 {
        (fs, m)
    } else {
        let (a, b) = apply_locals(fs, m, es.drop_last(), types);
        let (t, k, v) = es.last();
        match t {
            Some(i) => if 0 <= i < a.len() {
                (a.update(i, set_local(a[i], k, v, types)), b)
            } else {
                (a, b)
            },
            None => (a, set_local(b, k, v, types)),
        }
    }
}

/// A model with a local type (or assignment) recorded.
pub open spec fn set_local(f: FnModel, k: Seq<char>, v: Seq<char>, types: bool) -> FnModel {
    if types {
        FnModel { local_types: f.local_types.insert(k, v), ..f }
    } else {
        FnModel { local_assigns: f.local_assigns.insert(k, v), ..f }
    }
}

fn set_local_exec(f: &mut FunctionInfo, k: String, v: String, types: bool)
    ensures
        fn_model(*final(f)) == set_local(fn_model(*old(f)), k@, v@, types),
{
    let ghost (kv, vv) = (k@, v@);
    if types {
        f.local_types.insert(k, v);
        proof {
            assert(text_map(f.local_types@) =~= text_map(old(f).local_types@).insert(kv, vv));
            assert(fn_model(*f).fingerprints =~= fn_model(*old(f)).fingerprints);
            assert(fn_model(*f).local_assigns =~= fn_model(*old(f)).local_assigns);
        }
    } else {
        f.local_assigns.insert(k, v);
        proof {
            assert(text_map(f.local_assigns@) =~= text_map(old(f).local_assigns@).insert(kv, vv));
            assert(fn_model(*f).fingerprints =~= fn_model(*old(f)).fingerprints);
            assert(fn_model(*f).local_types =~= fn_model(*old(f)).local_types);
        }
    }
}

/// The model of a list of local entries.
pub open spec fn locals_view(v: Seq<(Option<usize>, String, String)>) -> Seq<LocalRouted> {
    fps_view(v)
}

fn apply_local_findings(fs: &mut Vec<FunctionInfo>, m: &mut FunctionInfo, findings: Vec<(Option<usize>, String, String)>, types: bool)
    ensures
        same_ranges(old(fs)@, final(fs)@),
        (fn_models(final(fs)@), fn_model(*final(m))) == apply_locals(
            fn_models(old(fs)@),
            fn_model(*old(m)),
            locals_view(findings@),
            types,
        ),
{
    let ghost fs0 = fn_models(fs@);
    let ghost m0 = fn_model(*m);
    let ghost fv = locals_view(findings@);
    let n = findings.len();
    let mut k: usize = 0;
    proof {
        assert(fv.take(0) =~= Seq::<LocalRouted>::empty());
    }
    while k < n
        invariant
            n == findings@.len(),
            fv == locals_view(findings@),
            0 <= k <= n,
            (fn_models(fs@), fn_model(*m)) == apply_locals(fs0, m0, fv.take(k as int), types),
            same_ranges(old(fs)@, fs@),
        decreases n - k,
    {
        let t = findings[k].0;
        let key = findings[k].1.clone();
        let val = findings[k].2.clone();
        proof {
            assert(fv.take(k + 1).drop_last() =~= fv.take(k as int));
            assert(fv.take(k + 1).last() == fv[k as int]);
        }
        let ghost before = fs@;
        match t {
            Some(i) => {
                if i < fs.len() {
                    set_local_exec(&mut fs[i], key, val, types);
                    proof {
                        assert(fn_models(fs@) =~= fn_models(before).update(
                            i as int,
                            fn_model(fs@[i as int]),
                        ));
                        assert(fn_model(fs@[i as int]).range_start == fn_model(before[i as int]).range_start);
                        assert(fn_model(fs@[i as int]).range_end == fn_model(before[i as int]).range_end);
                        assert forall|j: int| 0 <= j < fs@.len() implies (#[trigger] old(fs)@[j]).range_start
                            == fs@[j].range_start && old(fs)@[j].range_end == fs@[j].range_end by {
                            if j != i {
                                assert(fs@[j] == before[j]);
                            }
                        }
                    }
                }
            },
            None => {
                set_local_exec(m, key, val, types);
            },
        }
        k = k + 1;
    }
    proof {
        assert(fv.take(n as int) =~= fv);
    }
}

fn first_container_exec(fs: &Vec<FunctionInfo>, start: usize, end: usize) -> (r: Option<usize>)
    ensures
        match r {
            Some(c) => first_container(fs@, start, end) == Some(c as int) && c < fs@.len(),
            None => first_container(fs@, start, end) is None,
        },
{
    let mut i: usize = 0;
    while i < fs.len()
        invariant
            0 <= i <= fs@.len(),
            first_container(fs@.take(i as int), start, end) is None,
        decreases fs@.len() - i,
    {
        proof {
            assert(fs@.take(i + 1).drop_last() =~= fs@.take(i as int));
            assert(fs@.take(i + 1).last() == fs@[i as int]);
        }
        if fs[i].kind == SymbolKind::Container && start >= fs[i].range_start && end <= fs[i].range_end {
            proof {
                lemma_first_container_at(fs@, start, end, i as int);
            }
            return Some(i);
        }
        i = i + 1;
    }
    proof {
        assert(fs@.take(fs@.len() as int) =~= fs@);
    }
    None
}

proof fn lemma_first_container_at(fs: Seq<FunctionInfo>, start: usize, end: usize, i: int)
    requires
        0 <= i < fs.len(),
        first_container(fs.take(i), start, end) is None,
        fs[i].kind == SymbolKind::Container && holds_range(fs[i], start, end),
    ensures
        first_container(fs, start, end) == Some(i),
    decreases fs.len(),
{
    if fs.len() == i + 1 {
        assert(fs.drop_last() =~= fs.take(i));
    } else {
        assert(fs.drop_last().take(i) =~= fs.take(i));
        lemma_first_container_at(fs.drop_last(), start, end, i);
    }
}

fn push_local(out: &mut Vec<(Option<usize>, String, String)>, t: Option<usize>, name: &String, v: &Option<String>)
    ensures
        locals_view(final(out)@) == locals_view(old(out)@) + local_entry(
            match t {
                Some(x) => Some(x as int),
                None => None,
            },
            name@,
            opt_chars(*v),
        ),
{
    let ghost before = locals_view(out@);
    match v {
        Some(x) => {
            let e = (t, name.clone(), x.clone());
            let ghost ev = (
                match t {
                    Some(y) => Some(y as int),
                    None => None,
                },
                name@,
                x@,
            );
            out.push(e);
            proof {
                assert(locals_view(out@) =~= before.push(ev));
            }
        },
        None => {
            proof {
                assert(locals_view(out@) =~= before + Seq::<LocalRouted>::empty());
            }
        },
    }
}

fn local_findings_exec(fs: &Vec<FunctionInfo>, hints: &Vec<VariableHint>) -> (r: (
    Vec<(Option<usize>, String, String)>,
    Vec<(Option<usize>, String, String)>,
))
    requires
        ordered(fs@),
    ensures
        (locals_view(r.0@), locals_view(r.1@)) == local_findings(fs@, hints_view(hints@)),
{
    let ghost hv = hints_view(hints@);
    let mut ty: Vec<(Option<usize>, String, String)> = Vec::new();
    let mut asg: Vec<(Option<usize>, String, String)> = Vec::new();
    let mut i: usize = 0;
    while i < hints.len()
        invariant
            ordered(fs@),
            hv == hints_view(hints@),
            0 <= i <= hints@.len(),
            (locals_view(ty@), locals_view(asg@)) == local_findings(fs@, hv.take(i as int)),
        decreases hints@.len() - i,
    {
        let h = &hints[i];
        proof {
            assert(hv.take(i + 1).drop_last() =~= hv.take(i as int));
            assert(hv.take(i + 1).last() == hint_view(*h));
        }
        let ghost (t0, a0) = (locals_view(ty@), locals_view(asg@));
        match find_owner(fs, h.range.start, h.range.end) {
            Some(idx) => {
                push_local(&mut ty, Some(idx), &h.name, &h.declared_type);
                push_local(&mut asg, Some(idx), &h.name, &h.assignment);
                if str_eq(fs[idx].name.as_str(), "constructor") {
                    match first_container_exec(fs, h.range.start, h.range.end) {
                        Some(c) => {
                            push_local(&mut ty, Some(c), &h.name, &h.declared_type);
                            push_local(&mut asg, Some(c), &h.name, &h.assignment);
                        },
                        None => {},
                    }
                }
            },
            None => {
                push_local(&mut ty, None, &h.name, &h.declared_type);
                push_local(&mut asg, None, &h.name, &h.assignment);
            },
        }
        i = i + 1;
    }
    proof {
        assert(hv.take(hints@.len() as int) =~= hv);
    }
    (ty, asg)
}

// ---------------------------------------------------------------------------
// Documentation
// ---------------------------------------------------------------------------

/// The node of the first `function.definition` capture.
pub open spec fn first_definition(caps: Seq<CaptureData>) -> Option<CaptureData>
    decreases caps.len(),
{
    if caps.len() == 0 {
        None
    } else if caps[0].name@ == "function.definition"@ {
        Some(caps[0])
    } else {
        first_definition(caps.drop_first())
    }
}

/// The texts of the `function.docs` captures, in order.
pub open spec fn doc_texts(caps: Seq<CaptureData>) -> Seq<Seq<char>>
    decreases caps.len(),
{
    if caps.len() == 0 {
        Seq::empty()
    } else {
        let r = doc_texts(caps.drop_last());
        if caps.last().name@ == "function.docs"@ {
            r.push(caps.last().node.text@)
        } else {
            r
        }
    }
}

/// The first function that starts at `start`.
pub open spec fn first_starting_at(fs: Seq<FunctionInfo>, start: usize) -> Option<int>
    decreases fs.len(),
{
    if fs.len() == 0 {
        None
    } else {
        match first_starting_at(fs.drop_last(), start) {
            Some(i) => Some(i),
            None => if fs.last().range_start == start {
                Some(fs.len() - 1)
            } else {
                None
            },
        }
    }
}

/// The documentation each docs match gives to the function whose definition
/// it captured.
pub open spec fn doc_findings(fs: Seq<FunctionInfo>, ms: Seq<MatchData>) -> Seq<(int, Seq<char>)>
    decreases ms.len(),
{
    if ms.len() == 0 {
        Seq::empty()
    } else {
        let r = doc_findings(fs, ms.drop_last());
        let caps = ms.last().captures@;
        match first_definition(caps) {
            Some(d) => match first_starting_at(fs, d.node.start) {
                Some(i) => r.push((i, crate::text::joined_lines(doc_texts(caps)))),
                None => r,
            },
            None => r,
        }
    }
}

/// The functions after the documentation was recorded.
pub open spec fn apply_docs(fs: Seq<FnModel>, ds: Seq<(int, Seq<char>)>) -> Seq<FnModel>
    decreases ds.len(),
{
    if ds.len() == 0 {
        fs
    } else {
        let a = apply_docs(fs, ds.drop_last());
        let (i, text) = ds.last();
        if 0 <= i < a.len() {
            a.update(i, FnModel { documentation: Some(text), ..a[i] })
        } else {
            a
        }
    }
}

proof fn lemma_first_starting_at(fs: Seq<FunctionInfo>, start: usize, i: int)
    requires
        0 <= i < fs.len(),
        first_starting_at(fs.take(i), start) is None,
        fs[i].range_start == start,
    ensures
        first_starting_at(fs, start) == Some(i),
    decreases fs.len(),
{
    if fs.len() == i + 1 {
        assert(fs.drop_last() =~= fs.take(i));
    } else {
        assert(fs.drop_last().take(i) =~= fs.take(i));
        lemma_first_starting_at(fs.drop_last(), start, i);
    }
}

proof fn lemma_apply_docs_len(fs: Seq<FnModel>, ds: Seq<(int, Seq<char>)>)
    ensures
        apply_docs(fs, ds).len() == fs.len(),
    decreases ds.len(),
{
    if ds.len() > 0 {
        lemma_apply_docs_len(fs, ds.drop_last());
    }
}

proof fn lemma_first_starting_bounds(fs: Seq<FunctionInfo>, start: usize)
    ensures
        first_starting_at(fs, start) matches Some(i) ==> 0 <= i < fs.len(),
    decreases fs.len(),
{
    if fs.len() > 0 {
        lemma_first_starting_bounds(fs.drop_last(), start);
    }
}

/// Records the documentation of the definitions.
fn pass_documentation(fs: &mut Vec<FunctionInfo>, ms: &Vec<MatchData>)
    ensures
        fn_models(final(fs)@) == apply_docs(fn_models(old(fs)@), doc_findings(old(fs)@, ms@)),
        final(fs)@.len() == old(fs)@.len(),
        forall|i: int| 0 <= i < final(fs)@.len() ==> same_core(old(fs)@[i], #[trigger] final(fs)@[i]),
{
    let ghost fs0 = fs@;
    let mut i: usize = 0;
    while i < ms.len()
        invariant
            0 <= i <= ms@.len(),
            fs@.len() == fs0.len(),
            forall|j: int| 0 <= j < fs@.len() ==> same_core(fs0[j], #[trigger] fs@[j]),
            fn_models(fs@) == apply_docs(fn_models(fs0), doc_findings(fs0, ms@.take(i as int))),
        decreases ms@.len() - i,
    {
        proof {
            assert(ms@.take(i + 1).drop_last() =~= ms@.take(i as int));
            assert(ms@.take(i + 1).last() == ms@[i as int]);
        }
        let caps = &ms[i].captures;
        let mut d: usize = 0;
        proof {
            assert(caps@.skip(0) =~= caps@);
        }
        while d < caps.len() && !str_eq(caps[d].name.as_str(), "function.definition")
            invariant
                0 <= d <= caps@.len(),
                first_definition(caps@) == first_definition(caps@.skip(d as int)),
            decreases caps@.len() - d,
        {
            proof {
                assert(caps@.skip(d as int).drop_first() =~= caps@.skip(d + 1));
                assert(caps@.skip(d as int)[0] == caps@[d as int]);
            }
            d = d + 1;
        }
        let ghost prev = doc_findings(fs0, ms@.take(i as int));
        proof {
            assert(ms@.take(i + 1).last().captures@ == caps@);
        }
        if d < caps.len() {
            proof {
                assert(caps@.skip(d as int)[0] == caps@[d as int]);
                assert(first_definition(caps@) == Some(caps@[d as int]));
            }
            let start = caps[d].node.start;
            let mut k: usize = 0;
            while k < fs.len() && fs[k].range_start != start
                invariant
                    0 <= k <= fs@.len(),
                    fs@.len() == fs0.len(),
                    forall|j: int| 0 <= j < fs@.len() ==> same_core(fs0[j], #[trigger] fs@[j]),
                    first_starting_at(fs0.take(k as int), start) is None,
                decreases fs@.len() - k,
            {
                proof {
                    assert(fs0.take(k + 1).drop_last() =~= fs0.take(k as int));
                    assert(fs0.take(k + 1).last() == fs0[k as int]);
                    assert(same_core(fs0[k as int], fs@[k as int]));
                }
                k = k + 1;
            }
            if k < fs.len() {
                proof {
                    assert(same_core(fs0[k as int], fs@[k as int]));
                    lemma_first_starting_at(fs0, start, k as int);
                }
                let mut text = String::new();
                let mut n: usize = 0;
                let mut q: usize = 0;
                while q < caps.len()
                    invariant
                        0 <= q <= caps@.len(),
                        text@ == crate::text::joined_lines(doc_texts(caps@.take(q as int))),
                        n == doc_texts(caps@.take(q as int)).len(),
                        n <= q,
                    decreases caps@.len() - q,
                {
                    proof {
                        assert(caps@.take(q + 1).drop_last() =~= caps@.take(q as int));
                        assert(caps@.take(q + 1).last() == caps@[q as int]);
                    }
                    if str_eq(caps[q].name.as_str(), "function.docs") {
                        let ghost parts = doc_texts(caps@.take(q as int));
                        if n > 0 {
                            text.append("\n");
                        }
                        text.append(caps[q].node.text.as_str());
                        proof {
                            reveal_strlit("\n");
                            let np = parts.push(caps@[q as int].node.text@);
                            assert(np.drop_last() =~= parts);
                            if n == 0 {
                                assert(text@ =~= np[0]);
                            } else {
                                assert(text@ =~= crate::text::joined_lines(parts) + seq!['\n']
                                    + caps@[q as int].node.text@);
                            }
                        }
                        n = n + 1;
                    }
                    q = q + 1;
                }
                proof {
                    assert(caps@.take(caps@.len() as int) =~= caps@);
                }
                let ghost before = fs@;
                let ghost tv = text@;
                fs[k].documentation = Some(text);
                proof {
                    assert(fn_model(fs@[k as int]) == (FnModel {
                        documentation: Some(tv),
                        ..fn_model(before[k as int])
                    })) by {
                        assert(fn_model(fs@[k as int]).fingerprints =~= fn_model(before[k as int]).fingerprints);
                        assert(fn_model(fs@[k as int]).local_types =~= fn_model(before[k as int]).local_types);
                        assert(fn_model(fs@[k as int]).local_assigns =~= fn_model(before[k as int]).local_assigns);
                    }
                    assert(fn_models(fs@) =~= fn_models(before).update(k as int, fn_model(fs@[k as int])));
                    assert forall|j: int| 0 <= j < fs@.len() implies same_core(fs0[j], #[trigger] fs@[j]) by {
                        if j != k {
                            assert(fs@[j] == before[j]);
                        }
                    }
                    assert(doc_findings(fs0, ms@.take(i + 1)) == prev.push((k as int, tv)));
                    lemma_apply_docs_len(fn_models(fs0), prev);
                    let a = apply_docs(fn_models(fs0), prev);
                    assert(a == fn_models(before));
                    assert(a[k as int] == fn_model(before[k as int]));
                    assert(prev.push((k as int, tv)).drop_last() =~= prev);
                    assert(prev.push((k as int, tv)).last() == (k as int, tv));
                    assert(apply_docs(fn_models(fs0), prev.push((k as int, tv))) == a.update(
                        k as int,
                        FnModel { documentation: Some(tv), ..a[k as int] },
                    ));
                    assert(fn_models(fs@) == apply_docs(fn_models(fs0), doc_findings(fs0, ms@.take(i + 1))));
                }
            } else {
                proof {
                    assert(fs0.take(k as int) =~= fs0);
                    assert(doc_findings(fs0, ms@.take(i + 1)) == prev);
                    assert(fn_models(fs@) == apply_docs(fn_models(fs0), doc_findings(fs0, ms@.take(i + 1))));
                }
            }
        } else {
            proof {
                assert(caps@.skip(d as int) =~= Seq::<CaptureData>::empty());
                assert(doc_findings(fs0, ms@.take(i + 1)) == prev);
                assert(fn_models(fs@) == apply_docs(fn_models(fs0), doc_findings(fs0, ms@.take(i + 1))));
            }
        }
        i = i + 1;
    }
    proof {
        assert(ms@.take(ms@.len() as int) =~= ms@);
    }
}

// ---------------------------------------------------------------------------
// Finalization and the whole enrichment
// ---------------------------------------------------------------------------

/// `post` is `pre` with its config keys, type references, decorators,
/// actions and routes sorted and without repeats.
pub open spec fn finalized(pre: FnModel, post: FnModel) -> bool {
    &&& post.name == pre.name
    &&& post.kind == pre.kind
    &&& post.is_anonymous == pre.is_anonymous
    &&& post.range_start == pre.range_start
    &&& post.range_end == pre.range_end
    &&& post.body_start == pre.body_start
    &&& post.source_code == pre.source_code
    &&& post.documentation == pre.documentation
    &&& post.calls == pre.calls
    &&& post.fingerprints == pre.fingerprints
    &&& post.return_type == pre.return_type
    &&& post.local_types == pre.local_types
    &&& post.local_assigns == pre.local_assigns
    &&& crate::text::sorted_distinct(post.config_keys, pre.config_keys)
    &&& crate::text::sorted_distinct(post.type_refs, pre.type_refs)
    &&& crate::text::sorted_distinct(post.decorators, pre.decorators)
    &&& crate::text::sorted_distinct(post.dispatched_actions, pre.dispatched_actions)
    &&& crate::text::sorted_distinct(post.handled_actions, pre.handled_actions)
    &&& crate::text::sorted_distinct(post.routes, pre.routes)
}

fn finalize_function(f: &mut FunctionInfo)
    ensures
        finalized(fn_model(*old(f)), fn_model(*final(f))),
{
    f.config_keys = crate::text::sort_dedup(&f.config_keys);
    f.type_refs = crate::text::sort_dedup(&f.type_refs);
    f.decorators = crate::text::sort_dedup(&f.decorators);
    f.dispatched_actions = crate::text::sort_dedup(&f.dispatched_actions);
    f.handled_actions = crate::text::sort_dedup(&f.handled_actions);
    f.routes = crate::text::sort_dedup(&f.routes);
    proof {
        assert(fn_model(*f).fingerprints =~= fn_model(*old(f)).fingerprints);
        assert(fn_model(*f).local_types =~= fn_model(*old(f)).local_types);
        assert(fn_model(*f).local_assigns =~= fn_model(*old(f)).local_assigns);
    }
}

/// The functions and module scope after every enrichment pass, before the
/// lists are sorted.
pub open spec fn enriched(
    fs0: Seq<FunctionInfo>,
    m0: FunctionInfo,
    hints: Seq<HintV>,
    qm: crate::analysis::QueryMatches,
    consts: Seq<(Seq<char>, Seq<char>)>,
) -> (Seq<FnModel>, FnModel) {
    let (ty, asg) = local_findings(fs0, hints);
    let s1 = apply_locals(fn_models(fs0), fn_model(m0), ty, true);
    let s2 = apply_locals(s1.0, s1.1, asg, false);
    let s3 = add_routed(
        s2.0,
        s2.1,
        ListField::ConfigKeys,
        routed_caps(qm.config@, |c: CaptureData| finding_of(FindingKind::ConfigKey, fs0, consts, c)),
    );
    let s4 = add_routed(
        s3.0,
        s3.1,
        ListField::Decorators,
        routed_caps(qm.decorators@, |c: CaptureData| finding_of(FindingKind::Decorator, fs0, consts, c)),
    );
    let (cl, fp) = call_findings(fs0, qm.calls@);
    let s5 = add_routed(s4.0, s4.1, ListField::Calls, cl);
    let s6 = apply_fps(s5.0, s5.1, fp);
    let s7 = add_routed(
        s6.0,
        s6.1,
        ListField::TypeRefs,
        routed_caps(qm.types@, |c: CaptureData| finding_of(FindingKind::TypeRef, fs0, consts, c)),
    );
    let s8 = add_routed(
        s7.0,
        s7.1,
        ListField::DispatchedActions,
        routed_caps(qm.actions@, |c: CaptureData| finding_of(FindingKind::Dispatch, fs0, consts, c)),
    );
    let s9 = add_routed(
        s8.0,
        s8.1,
        ListField::HandledActions,
        routed_caps(qm.actions@, |c: CaptureData| finding_of(FindingKind::Handle, fs0, consts, c)),
    );
    let s10 = add_routed(
        s9.0,
        s9.1,
        ListField::Routes,
        routed_caps(qm.route_defs@, |c: CaptureData| finding_of(FindingKind::Route, fs0, consts, c)),
    );
    (apply_docs(s10.0, doc_findings(fs0, qm.docs@)), s10.1)
}

proof fn lemma_findings_same(
    kind: FindingKind,
    fs: Seq<FunctionInfo>,
    fs0: Seq<FunctionInfo>,
    ms: Seq<MatchData>,
    consts: Seq<(Seq<char>, Seq<char>)>,
)
    requires
        same_ranges(fs0, fs),
    ensures
        routed_caps(ms, |c: CaptureData| finding_of(kind, fs, consts, c)) == routed_caps(
            ms,
            |c: CaptureData| finding_of(kind, fs0, consts, c),
        ),
{
    let f1 = |c: CaptureData| finding_of(kind, fs, consts, c);
    let f2 = |c: CaptureData| finding_of(kind, fs0, consts, c);
    assert forall|c: CaptureData| #[trigger] f1(c) == f2(c) by {
        lemma_same_ranges(fs, fs0, c.node.start, c.node.end);
    }
    assert(f1 =~= f2);
}

proof fn lemma_calls_same(fs: Seq<FunctionInfo>, fs0: Seq<FunctionInfo>, ms: Seq<MatchData>)
    requires
        same_ranges(fs0, fs),
    ensures
        call_findings(fs, ms) == call_findings(fs0, ms),
    decreases ms.len(),
{
    if ms.len() > 0 {
        lemma_calls_same(fs, fs0, ms.drop_last());
        let st = call_fold(ms.last().captures@);
        if let Some(rg) = st.range {
            lemma_same_ranges(fs, fs0, rg.0, rg.1);
        }
    }
}

proof fn lemma_first_starting_same(fs: Seq<FunctionInfo>, fs0: Seq<FunctionInfo>, start: usize)
    requires
        same_ranges(fs0, fs),
    ensures
        first_starting_at(fs, start) == first_starting_at(fs0, start),
    decreases fs.len(),
{
    if fs.len() > 0 {
        lemma_first_starting_same(fs.drop_last(), fs0.drop_last(), start);
        assert(fs.last() == fs[fs.len() - 1]);
        assert(fs0.last() == fs0[fs0.len() - 1]);
    }
}

proof fn lemma_docs_same(fs: Seq<FunctionInfo>, fs0: Seq<FunctionInfo>, ms: Seq<MatchData>)
    requires
        same_ranges(fs0, fs),
    ensures
        doc_findings(fs, ms) == doc_findings(fs0, ms),
    decreases ms.len(),
{
    if ms.len() > 0 {
        lemma_docs_same(fs, fs0, ms.drop_last());
        if let Some(d) = first_definition(ms.last().captures@) {
            lemma_first_starting_same(fs, fs0, d.node.start);
        }
    }
}

proof fn lemma_models_ranges(fs: Seq<FunctionInfo>, fs0: Seq<FunctionInfo>)
    requires
        same_ranges(fs0, fs),
        ordered(fs0),
    ensures
        ordered(fs),
{
    assert forall|i: int| 0 <= i < fs.len() implies (#[trigger] fs[i]).range_start <= fs[i].range_end by {
        assert(fs0[i].range_start <= fs0[i].range_end);
    }
}

proof fn lemma_appended_ranges(
    fs0: Seq<FunctionInfo>,
    m0: FunctionInfo,
    fs: Seq<FunctionInfo>,
    m: FunctionInfo,
    field: ListField,
    rs: Seq<Routed>,
)
    requires
        appended(fs0, m0, fs, m, field, rs),
    ensures
        same_ranges(fs0, fs),
{
    assert forall|i: int| 0 <= i < fs0.len() implies (#[trigger] fs0[i]).range_start == fs[i].range_start
        && fs0[i].range_end == fs[i].range_end by {
        assert(same_except_list(fs0[i], fs[i], field));
    }
}

/// Adds the findings of one kind to one list, found on the current
/// functions (whose ranges are those of `fs0`).
fn list_pass(
    fs: &mut Vec<FunctionInfo>,
    m: &mut FunctionInfo,
    ms: &Vec<MatchData>,
    kind: FindingKind,
    field: ListField,
    consts: &Vec<(String, String)>,
    Ghost(fs0): Ghost<Seq<FunctionInfo>>,
)
    requires
        same_ranges(fs0, old(fs)@),
        ordered(fs0),
        assoc_keys(pairs_view(consts@)).no_duplicates(),
    ensures
        same_ranges(fs0, final(fs)@),
        (fn_models(final(fs)@), fn_model(*final(m))) == add_routed(
            fn_models(old(fs)@),
            fn_model(*old(m)),
            field,
            routed_caps(ms@, |c: CaptureData| finding_of(kind, fs0, pairs_view(consts@), c)),
        ),
{
    proof {
        lemma_models_ranges(fs@, fs0);
        lemma_findings_same(kind, fs@, fs0, ms@, pairs_view(consts@));
    }
    let ghost before = fs@;
    let found = collect_findings(fs, ms, kind, consts);
    apply_findings(fs, m, field, found);
    proof {
        lemma_appended_models(before, *old(m), fs@, *m, field, findings_view(found@));
        lemma_appended_ranges(before, *old(m), fs@, *m, field, findings_view(found@));
    }
}

/// Runs every enrichment pass over the skeleton: local variables, config
/// keys, decorators, calls, type references, state actions, routes and
/// documentation go to their owners (or to the module scope), then each list
/// but the calls is sorted and rid of repeats.
pub fn enrich_functions(
    functions: &mut Vec<FunctionInfo>,
    module_info: &mut FunctionInfo,
    variable_hints: Vec<VariableHint>,
    qm: &crate::analysis::QueryMatches,
    constants: &Vec<(String, String)>,
)
    requires
        ordered(old(functions)@),
        assoc_keys(pairs_view(constants@)).no_duplicates(),
    ensures
        final(functions)@.len() == old(functions)@.len(),
        ({
            let (pre, pre_m) = enriched(
                old(functions)@,
                *old(module_info),
                hints_view(variable_hints@),
                *qm,
                pairs_view(constants@),
            );
            &&& forall|i: int|
                0 <= i < final(functions)@.len() ==> finalized(
                    pre[i],
                    fn_model(#[trigger] final(functions)@[i]),
                )
            &&& finalized(pre_m, fn_model(*final(module_info)))
        }),
{
    let ghost fs0 = functions@;
    let ghost m0 = *module_info;
    let (ty, asg) = local_findings_exec(functions, &variable_hints);
    apply_local_findings(functions, module_info, ty, true);
    apply_local_findings(functions, module_info, asg, false);
    list_pass(functions, module_info, &qm.config, FindingKind::ConfigKey, ListField::ConfigKeys, constants, Ghost(fs0));
    list_pass(functions, module_info, &qm.decorators, FindingKind::Decorator, ListField::Decorators, constants, Ghost(fs0));
    proof {
        lemma_models_ranges(functions@, fs0);
        lemma_calls_same(functions@, fs0, qm.calls@);
    }
    let ghost before_calls = functions@;
    let ghost before_calls_m = *module_info;
    let (cl, fp) = call_findings_exec(functions, &qm.calls);
    apply_findings(functions, module_info, ListField::Calls, cl);
    proof {
        lemma_appended_models(before_calls, before_calls_m, functions@, *module_info, ListField::Calls, findings_view(cl@));
        lemma_appended_ranges(before_calls, before_calls_m, functions@, *module_info, ListField::Calls, findings_view(cl@));
    }
    apply_fp_findings(functions, module_info, fp);
    list_pass(functions, module_info, &qm.types, FindingKind::TypeRef, ListField::TypeRefs, constants, Ghost(fs0));
    list_pass(functions, module_info, &qm.actions, FindingKind::Dispatch, ListField::DispatchedActions, constants, Ghost(fs0));
    list_pass(functions, module_info, &qm.actions, FindingKind::Handle, ListField::HandledActions, constants, Ghost(fs0));
    list_pass(functions, module_info, &qm.route_defs, FindingKind::Route, ListField::Routes, constants, Ghost(fs0));
    proof {
        lemma_docs_same(functions@, fs0, qm.docs@);
    }
    let ghost before_docs = functions@;
    pass_documentation(functions, &qm.docs);
    let ghost pre = (fn_models(functions@), fn_model(*module_info));
    proof {
        assert(pre == enriched(fs0, m0, hints_view(variable_hints@), *qm, pairs_view(constants@)));
    }
    let mut i: usize = 0;
    while i < functions.len()
        invariant
            0 <= i <= functions@.len(),
            functions@.len() == pre.0.len(),
            forall|j: int| 0 <= j < i ==> finalized(pre.0[j], fn_model(#[trigger] functions@[j])),
            forall|j: int| i <= j < functions@.len() ==> pre.0[j] == fn_model(#[trigger] functions@[j]),
        decreases functions@.len() - i,
    {
        let ghost before = functions@;
        finalize_function(&mut functions[i]);
        proof {
            assert forall|j: int| 0 <= j < functions@.len() && j != i implies functions@[j] == before[j] by {}
        }
        i = i + 1;
    }
    finalize_function(module_info);
}
} // verus!
