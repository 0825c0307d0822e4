//! Graph queries over the workspace index: the call chain of a symbol,
//! ordered by its distance from the symbol, and the symbols related to it.

use std::collections::HashMap;
use std::collections::HashSet;
use vstd::prelude::*;
use crate::schema::{WorkspaceIndex, SymbolId, ImportNode, ExportNode, lists, entries_of, keys_listing};
use crate::lemmas::{lemma_concat_contains, lemma_push_contains, lemma_push_no_dup, lemma_distinct_u32_len};
use crate::text::str_eq;
use vstd::std_specs::iter::IteratorSpec;

verus! {

broadcast use vstd::std_specs::hash::group_hash_axioms;

/// What the analysis of a file found of one function, container or module
/// scope.
#[derive(Debug)]
pub struct FunctionInfo {
    pub name: String,
    /// `macro`, `macro_generated`, `container`, `function` or `module`.
    pub kind: String,
    pub is_anonymous: bool,
    pub range_start: usize,
    pub range_end: usize,
    pub source_code: String,
    pub documentation: Option<String>,
    pub calls: Vec<String>,
    pub type_refs: Vec<String>,
    pub decorators: Vec<String>,
    pub dispatched_actions: Vec<String>,
    pub handled_actions: Vec<String>,
    /// Receiver name to the methods called on it.
    pub fingerprints: HashMap<String, Vec<String>>,
    pub return_type: Option<String>,
    /// Local variable name to its declared type.
    pub local_types: HashMap<String, String>,
    /// Local variable name to the function whose result it holds.
    pub local_assigns: HashMap<String, String>,
    pub config_keys: Vec<String>,
}

/// What the analysis of a file found.
pub struct FileAnalysis {
    pub functions: Vec<FunctionInfo>,
    pub imports: Vec<ImportNode>,
    pub exports: Vec<ExportNode>,
    pub literals: Vec<String>,
    /// Implementing type and the type it implements.
    pub implementations: Vec<(String, String)>,
    pub global_vars: HashMap<String, String>,
    pub middleware_usage: Vec<String>,
}

/// Which way a call chain is followed from the target symbol.
#[derive(Debug, Clone, Copy, PartialEq, Eq, Hash, Structural)]
pub enum SliceDirection {
    /// Towards the callers.
    Upstream,
    /// Towards the callees.
    Downstream,
    /// Both ways.
    Both,
}

/// One step of a call chain from `x` to `y`: a caller of `x` (unless the
/// chain goes downstream only), a callee of `x` (unless it goes upstream
/// only), or a symbol that implements or extends `x`.
pub open spec fn chain_step(index: WorkspaceIndex, dir: SliceDirection, x: u32, y: u32) -> bool {
    ||| (dir != SliceDirection::Downstream && lists(index.resolved_calls@, y, x))
    ||| (dir != SliceDirection::Upstream && lists(index.resolved_calls@, x, y))
    ||| lists(index.inheritance@, x, y)
}

/// `y` is at most `k` steps away from one of the `seeds`.
pub open spec fn chain_within(
    index: WorkspaceIndex,
    dir: SliceDirection,
    seeds: Seq<u32>,
    k: nat,
    y: u32,
) -> bool
    decreases k,
{
    if k == 0 {
        seeds.contains(y)
    } else {
        chain_within(index, dir, seeds, (k - 1) as nat, y) || exists|x: u32|
            chain_within(index, dir, seeds, (k - 1) as nat, x) && #[trigger] chain_step(
                index,
                dir,
                x,
                y,
            )
    }
}

/// `y` can be reached from one of the `seeds`.
pub open spec fn chain_reachable(
    index: WorkspaceIndex,
    dir: SliceDirection,
    seeds: Seq<u32>,
    y: u32,
) -> bool {
    exists|k: nat| chain_within(index, dir, seeds, k, y)
}

/// No symbol of `s` is farther from the seeds than one that follows it.
pub open spec fn nearest_first(
    index: WorkspaceIndex,
    dir: SliceDirection,
    seeds: Seq<u32>,
    s: Seq<u32>,
) -> bool {
    forall|i: int, j: int, k: nat|
        #![trigger chain_within(index, dir, seeds, k, s[j]), s[i]]
        0 <= i < j < s.len() && chain_within(index, dir, seeds, k, s[j]) ==> chain_within(
            index,
            dir,
            seeds,
            k,
            s[i],
        )
}

/// No symbol of `s` is nearer to the seeds than one that follows it.
pub open spec fn farthest_first(
    index: WorkspaceIndex,
    dir: SliceDirection,
    seeds: Seq<u32>,
    s: Seq<u32>,
) -> bool {
    forall|i: int, j: int, k: nat|
        #![trigger chain_within(index, dir, seeds, k, s[i]), s[j]]
        0 <= i < j < s.len() && chain_within(index, dir, seeds, k, s[i]) ==> chain_within(
            index,
            dir,
            seeds,
            k,
            s[j],
        )
}

/// The state of the breadth-first walk behind [`find_call_chain_ids`]: the
/// symbols found so far in the order found, each with its distance, the
/// first `head` of them expanded.
spec fn chain_walk(
    index: WorkspaceIndex,
    dir: SliceDirection,
    seeds: Seq<u32>,
    order: Seq<u32>,
    depth: Map<u32, nat>,
    head: int,
) -> bool {
    &&& 0 <= head <= order.len()
    &&& order.no_duplicates()
    &&& forall|y: u32| #[trigger] depth.contains_key(y) <==> order.contains(y)
    &&& forall|i: int|
        0 <= i < order.len() ==> chain_within(index, dir, seeds, depth[#[trigger] order[i]], order[i])
    &&& forall|a: int, b: int|
        0 <= a <= b < order.len() ==> depth[#[trigger] order[a]] <= depth[#[trigger] order[b]]
    &&& forall|y: u32| #[trigger] seeds.contains(y) ==> depth.contains_key(y) && depth[y] == 0
    &&& forall|i: int, y: u32|
        0 <= i < head && #[trigger] chain_step(index, dir, order[i], y) ==> depth.contains_key(y)
            && depth[y] <= depth[order[i]] + 1
    &&& head < order.len() ==> forall|i: int|
        head <= i < order.len() ==> depth[#[trigger] order[i]] <= depth[order[head]] + 1
}

proof fn lemma_chain_mono(
    index: WorkspaceIndex,
    dir: SliceDirection,
    seeds: Seq<u32>,
    k1: nat,
    k2: nat,
    y: u32,
)
    requires
        k1 <= k2,
        chain_within(index, dir, seeds, k1, y),
    ensures
        chain_within(index, dir, seeds, k2, y),
    decreases k2,
{
    if k1 < k2 {
        lemma_chain_mono(index, dir, seeds, k1, (k2 - 1) as nat, y);
    }
}

proof fn lemma_chain_complete(
    index: WorkspaceIndex,
    dir: SliceDirection,
    seeds: Seq<u32>,
    order: Seq<u32>,
    depth: Map<u32, nat>,
    k: nat,
    y: u32,
)
    requires
        chain_walk(index, dir, seeds, order, depth, order.len() as int),
        chain_within(index, dir, seeds, k, y),
    ensures
        depth.contains_key(y) && depth[y] <= k,
    decreases k,
{
    if k > 0 {
        if chain_within(index, dir, seeds, (k - 1) as nat, y) {
            lemma_chain_complete(index, dir, seeds, order, depth, (k - 1) as nat, y);
        } else {
            let x = choose|x: u32|
                chain_within(index, dir, seeds, (k - 1) as nat, x) && #[trigger] chain_step(
                    index,
                    dir,
                    x,
                    y,
                );
            lemma_chain_complete(index, dir, seeds, order, depth, (k - 1) as nat, x);
            assert(order.contains(x));
            let i = choose|i: int| 0 <= i < order.len() && order[i] == x;
            assert(chain_step(index, dir, order[i], y));
        }
    }
}

/// The symbols one step of a call chain away from `x`.
fn chain_neighbors(index: &WorkspaceIndex, x: u32, direction: SliceDirection) -> (r: Vec<u32>)
    ensures
        forall|y: u32| r@.contains(y) <==> chain_step(*index, direction, x, y),
{
    let mut nb: Vec<u32> = Vec::new();
    if direction != SliceDirection::Downstream {
        let mut callers = keys_listing(&index.resolved_calls, x);
        let ghost (a, b) = (nb@, callers@);
        nb.append(&mut callers);
        proof {
            lemma_concat_contains(a, b);
        }
    }
    if direction != SliceDirection::Upstream {
        let mut callees = entries_of(&index.resolved_calls, x);
        let ghost (a, b) = (nb@, callees@);
        nb.append(&mut callees);
        proof {
            lemma_concat_contains(a, b);
        }
    }
    let mut children = entries_of(&index.inheritance, x);
    let ghost (a, b) = (nb@, children@);
    nb.append(&mut children);
    proof {
        lemma_concat_contains(a, b);
    }
    nb
}

/// The call chain of the symbols named `target_name`: every symbol that can
/// be reached from them by calls (followed the way `direction` says) and by
/// implementation links, each once, ordered from the nearest to the farthest,
/// and from the farthest to the nearest for a downstream chain. `None` where
/// no symbol has that name.
pub fn find_call_chain_ids(index: &WorkspaceIndex, target_name: &str, direction: SliceDirection)
    -> (r: Option<Vec<SymbolId>>)
    ensures
        r is None <==> !index.symbol_map@.contains_key(target_name@)
            || index.symbol_map@[target_name@]@.len() == 0,
        r matches Some(v) ==> {
            let seeds = index.symbol_map@[target_name@]@;
            &&& v@.no_duplicates()
            &&& forall|y: u32| #[trigger]
                v@.contains(y) <==> chain_reachable(*index, direction, seeds, y)
            &&& direction != SliceDirection::Downstream ==> nearest_first(
                *index,
                direction,
                seeds,
                v@,
            )
            &&& direction == SliceDirection::Downstream ==> farthest_first(
                *index,
                direction,
                seeds,
                v@,
            )
        },
{
    let targets = match index.symbol_map.get(target_name) {
        Some(t) => t,
        None => {
            return None;
        },
    };
    if targets.len() == 0 {
        return None;
    }
    let ghost seeds = targets@;
    let ghost g = *index;
    let mut order: Vec<u32> = Vec::new();
    let mut visited: HashSet<u32> = HashSet::new();
    let ghost mut depth: Map<u32, nat> = Map::empty();
    let mut t: usize = 0;
    while t < targets.len()
        invariant
            seeds == targets@,
            0 <= t <= targets.len(),
            order@.no_duplicates(),
            forall|y: u32| #[trigger] depth.contains_key(y) <==> order@.contains(y),
            visited@ == depth.dom(),
            forall|y: u32| #[trigger] depth.contains_key(y) ==> depth[y] == 0 && seeds.contains(y),
            forall|i: int| 0 <= i < t ==> depth.contains_key(#[trigger] seeds[i]),
        decreases targets.len() - t,
    {
        let y = targets[t];
        if !visited.contains(&y) {
            proof {
                lemma_push_no_dup(order@, y);
                lemma_push_contains(order@, y);
                depth = depth.insert(y, 0);
            }
            visited.insert(y);
            order.push(y);
        }
        t = t + 1;
    }
    proof {
        assert forall|y: u32| #[trigger] seeds.contains(y) implies depth.contains_key(y) && depth[y]
            == 0 by {
            let i = choose|i: int| 0 <= i < seeds.len() && seeds[i] == y;
        }
        assert forall|i: int| 0 <= i < order@.len() implies chain_within(
            g,
            direction,
            seeds,
            depth[#[trigger] order@[i]],
            order@[i],
        ) by {
            assert(depth.contains_key(order@[i]));
        }
        assert forall|a: int, b: int| 0 <= a <= b < order@.len() implies depth[#[trigger] order@[a]]
            <= depth[#[trigger] order@[b]] by {
            assert(depth.contains_key(order@[a]));
            assert(depth.contains_key(order@[b]));
        }
        if 0 < order@.len() {
            assert(depth.contains_key(order@[0]));
            assert forall|i: int| 0 <= i < order@.len() implies depth[#[trigger] order@[i]]
                <= depth[order@[0]] + 1 by {
                assert(depth.contains_key(order@[i]));
            }
        }
        assert(chain_walk(g, direction, seeds, order@, depth, 0));
    }
    let mut head: usize = 0;
    while head < order.len()
        invariant
            seeds == targets@,
            g == *index,
            chain_walk(g, direction, seeds, order@, depth, head as int),
            visited@ == depth.dom(),
        decreases 0x1_0000_0001 - head,
    {
        proof {
            lemma_distinct_u32_len(order@);
        }
        let x = order[head];
        let ghost dx = depth[x];
        let nb = chain_neighbors(index, x, direction);
        let mut j: usize = 0;
        while j < nb.len()
            invariant
                seeds == targets@,
                g == *index,
                head < order.len(),
                order@[head as int] == x,
                depth.contains_key(x),
                depth[x] == dx,
                chain_walk(g, direction, seeds, order@, depth, head as int),
                visited@ == depth.dom(),
                forall|y: u32| nb@.contains(y) <==> chain_step(g, direction, x, y),
                0 <= j <= nb.len(),
                forall|jj: int|
                    0 <= jj < j ==> depth.contains_key(#[trigger] nb@[jj]) && depth[nb@[jj]] <= dx
                        + 1,
            decreases nb.len() - j,
        {
            let y = nb[j];
            if !visited.contains(&y) {
                let ghost old_order = order@;
                let ghost old_depth = depth;
                proof {
                    assert(nb@.contains(y));
                    assert(chain_step(g, direction, x, y));
                    assert(chain_within(g, direction, seeds, dx, old_order[head as int]));
                    assert(chain_within(g, direction, seeds, dx + 1, y));
                    lemma_push_no_dup(order@, y);
                    lemma_push_contains(order@, y);
                    depth = depth.insert(y, dx + 1);
                }
                visited.insert(y);
                order.push(y);
                proof {
                    let n = old_order.len() as int;
                    assert forall|i: int| 0 <= i < n implies depth[#[trigger] order@[i]]
                        == old_depth[old_order[i]] by {
                        assert(old_order.contains(old_order[i]));
                    }
                    assert forall|i: int| 0 <= i < order@.len() implies chain_within(
                        g,
                        direction,
                        seeds,
                        depth[#[trigger] order@[i]],
                        order@[i],
                    ) by {
                        if i < n {
                            assert(depth[order@[i]] == old_depth[old_order[i]]);
                        }
                    }
                    assert forall|a: int, b: int|
                        0 <= a <= b < order@.len() implies depth[#[trigger] order@[a]]
                        <= depth[#[trigger] order@[b]] by {
                        if b < n {
                            assert(depth[order@[a]] == old_depth[old_order[a]]);
                            assert(depth[order@[b]] == old_depth[old_order[b]]);
                        } else if a < n {
                            assert(depth[order@[a]] == old_depth[old_order[a]]);
                            if a < head {
                                assert(old_depth[old_order[a]] <= old_depth[old_order[head as int]]);
                            } else {
                                assert(old_depth[old_order[a]] <= old_depth[old_order[head as int]] + 1);
                            }
                        }
                    }
                    assert forall|yy: u32| #[trigger] seeds.contains(yy) implies depth.contains_key(
                        yy,
                    ) && depth[yy] == 0 by {
                        assert(old_depth.contains_key(yy));
                    }
                    assert forall|i: int, yy: u32|
                        0 <= i < head && #[trigger] chain_step(
                            g,
                            direction,
                            order@[i],
                            yy,
                        ) implies depth.contains_key(yy) && depth[yy] <= depth[order@[i]] + 1 by {
                        assert(order@[i] == old_order[i]);
                        assert(old_depth.contains_key(yy));
                        assert(depth[order@[i]] == old_depth[old_order[i]]);
                    }
                    assert forall|i: int|
                        head <= i < order@.len() implies depth[#[trigger] order@[i]]
                        <= depth[order@[head as int]] + 1 by {
                        if i < n {
                            assert(depth[order@[i]] == old_depth[old_order[i]]);
                        }
                    }
                    assert forall|jj: int|
                        0 <= jj < j implies depth.contains_key(#[trigger] nb@[jj]) && depth[nb@[jj]]
                        <= dx + 1 by {
                        assert(old_depth.contains_key(nb@[jj]));
                    }
                    assert(chain_walk(g, direction, seeds, order@, depth, head as int));
                }
            }
            j = j + 1;
        }
        proof {
            assert forall|i: int, yy: u32|
                0 <= i < head + 1 && #[trigger] chain_step(
                    g,
                    direction,
                    order@[i],
                    yy,
                ) implies depth.contains_key(yy) && depth[yy] <= depth[order@[i]] + 1 by {
                if i == head {
                    assert(nb@.contains(yy));
                    let jj = choose|jj: int| 0 <= jj < nb@.len() && nb@[jj] == yy;
                }
            }
            if head + 1 < order@.len() {
                assert forall|i: int|
                    head + 1 <= i < order@.len() implies depth[#[trigger] order@[i]]
                    <= depth[order@[head + 1]] + 1 by {
                    assert(depth[order@[head as int]] <= depth[order@[head + 1]]);
                }
            }
            assert(chain_walk(g, direction, seeds, order@, depth, head + 1));
        }
        head = head + 1;
    }
    proof {
        assert forall|y: u32| #[trigger]
            order@.contains(y) <==> chain_reachable(g, direction, seeds, y) by {
            if order@.contains(y) {
                let i = choose|i: int| 0 <= i < order@.len() && order@[i] == y;
                assert(chain_within(g, direction, seeds, depth[order@[i]], order@[i]));
            }
            if chain_reachable(g, direction, seeds, y) {
                let k = choose|k: nat| chain_within(g, direction, seeds, k, y);
                lemma_chain_complete(g, direction, seeds, order@, depth, k, y);
            }
        }
        assert forall|i: int, j: int, k: nat|
            0 <= i < j < order@.len() && #[trigger] chain_within(
                g,
                direction,
                seeds,
                k,
                order@[j],
            ) implies chain_within(g, direction, seeds, k, #[trigger] order@[i]) by {
            lemma_chain_complete(g, direction, seeds, order@, depth, k, order@[j]);
            assert(depth[order@[i]] <= depth[order@[j]]);
            lemma_chain_mono(g, direction, seeds, depth[order@[i]], k, order@[i]);
        }
        assert(nearest_first(g, direction, seeds, order@));
    }
    if direction == SliceDirection::Downstream {
        let mut rev: Vec<u32> = Vec::new();
        let n = order.len();
        let mut i: usize = 0;
        while i < n
            invariant
                n == order.len(),
                0 <= i <= n,
                rev@.len() == i,
                forall|m: int| 0 <= m < i ==> rev@[m] == order@[n - 1 - m],
            decreases n - i,
        {
            rev.push(order[n - 1 - i]);
            i = i + 1;
        }
        proof {
            let nn = n as int;
            assert forall|a: int, b: int|
                0 <= a < nn && 0 <= b < nn && a != b implies rev@[a] != rev@[b] by {
                assert(order@[nn - 1 - a] != order@[nn - 1 - b]);
            }
            assert forall|y: u32| #[trigger] rev@.contains(y) <==> order@.contains(y) by {
                if rev@.contains(y) {
                    let m = choose|m: int| 0 <= m < nn && rev@[m] == y;
                    assert(order@[nn - 1 - m] == y);
                }
                if order@.contains(y) {
                    let m = choose|m: int| 0 <= m < nn && order@[m] == y;
                    assert(rev@[nn - 1 - m] == y);
                }
            }
            assert forall|a: int, b: int, k: nat|
                0 <= a < b < rev@.len() && #[trigger] chain_within(
                    g,
                    direction,
                    seeds,
                    k,
                    rev@[a],
                ) implies chain_within(g, direction, seeds, k, #[trigger] rev@[b]) by {
                assert(rev@[a] == order@[nn - 1 - a]);
                assert(rev@[b] == order@[nn - 1 - b]);
                assert(chain_within(g, direction, seeds, k, order@[nn - 1 - a]));
            }
        }
        Some(rev)
    } else {
        Some(order)
    }
}


/// How a symbol was reached while collecting related symbols: by following
/// dependencies, by following dependents, or (for the targets themselves)
/// both.
#[derive(Debug, Clone, Copy, PartialEq, Eq, Hash, Structural)]
pub enum TraversalMode {
    Downstream,
    Upstream,
    Both,
}

/// `x` is a symbol of the index whose parent is `p`.
pub open spec fn parent_of(index: WorkspaceIndex, x: u32, p: u32) -> bool {
    index.symbols@.contains_key(x) && index.symbols@[x].parent_id == Some(p)
}

/// `x` is a container symbol of the index.
pub open spec fn is_container(index: WorkspaceIndex, x: u32) -> bool {
    index.symbols@.contains_key(x) && index.symbols@[x].kind@ == "container"@
}

/// One step of the search for related symbols, from `x` reached in mode `m`
/// to `y` reached in mode `m2`: dependencies (calls and type references)
/// are followed downstream, dependents upstream, and inheritance and
/// containment links in either direction keep the mode.
pub open spec fn related_step(
    index: WorkspaceIndex,
    x: u32,
    m: TraversalMode,
    y: u32,
    m2: TraversalMode,
) -> bool {
    ||| (m != TraversalMode::Upstream && m2 == TraversalMode::Downstream && (lists(
        index.resolved_calls@,
        x,
        y,
    ) || lists(index.resolved_type_refs@, x, y)))
    ||| (m != TraversalMode::Downstream && m2 == TraversalMode::Upstream && (lists(
        index.resolved_calls@,
        y,
        x,
    ) || lists(index.resolved_type_refs@, y, x)))
    ||| (m2 == m && (lists(index.inheritance@, x, y) || lists(index.inheritance@, y, x)
        || parent_of(index, x, y) || (is_container(index, x) && parent_of(index, y, x))))
}

/// `(y, m)` is at most `k` steps away from a target reached in both modes.
pub open spec fn related_within(
    index: WorkspaceIndex,
    seeds: Seq<u32>,
    k: nat,
    y: u32,
    m: TraversalMode,
) -> bool
    decreases k,
{
    if k == 0 {
        seeds.contains(y) && m == TraversalMode::Both
    } else {
        related_within(index, seeds, (k - 1) as nat, y, m) || exists|x: u32, mx: TraversalMode|
            related_within(index, seeds, (k - 1) as nat, x, mx) && #[trigger] related_step(
                index,
                x,
                mx,
                y,
                m,
            )
    }
}

/// `y` is related to one of the `seeds`.
pub open spec fn related_to(index: WorkspaceIndex, seeds: Seq<u32>, y: u32) -> bool {
    exists|k: nat, m: TraversalMode| related_within(index, seeds, k, y, m)
}

/// `a` comes no later than `b` in the order of files, then of positions.
pub open spec fn located_before(index: WorkspaceIndex, a: u32, b: u32) -> bool {
    let sa = index.symbols@[a];
    let sb = index.symbols@[b];
    sa.file_id < sb.file_id || (sa.file_id == sb.file_id && sa.range_start <= sb.range_start)
}

/// `s` is ordered by file, then by position within the file.
pub open spec fn by_location(index: WorkspaceIndex, s: Seq<u32>) -> bool {
    forall|i: int, j: int|
        0 <= i < j < s.len() ==> located_before(index, #[trigger] s[i], #[trigger] s[j])
}

/// The number of a traversal mode.
pub open spec fn mode_code(m: TraversalMode) -> int {
    match m {
        TraversalMode::Downstream => 0,
        TraversalMode::Upstream => 1,
        TraversalMode::Both => 2,
    }
}

/// The key of a search state in the set of visited states.
pub open spec fn state_key(y: u32, m: TraversalMode) -> u64 {
    (y as int * 4 + mode_code(m)) as u64
}

fn state_key_exec(y: u32, m: TraversalMode) -> (r: u64)
    ensures
        r == state_key(y, m),
{
    let c: u64 = match m {
        TraversalMode::Downstream => 0,
        TraversalMode::Upstream => 1,
        TraversalMode::Both => 2,
    };
    y as u64 * 4 + c
}

/// Appends `more` to `out`.
fn extend_with<T>(out: &mut Vec<T>, more: Vec<T>)
    ensures
        forall|y: T| #[trigger]
            final(out)@.contains(y) <==> old(out)@.contains(y) || more@.contains(y),
{
    let mut more = more;
    let ghost (a, b) = (out@, more@);
    out.append(&mut more);
    proof {
        lemma_concat_contains(a, b);
    }
}

/// Each of `v` paired with the mode `m`.
fn tagged(v: &Vec<u32>, m: TraversalMode) -> (r: Vec<(u32, TraversalMode)>)
    ensures
        forall|y: u32, m2: TraversalMode| #[trigger]
            r@.contains((y, m2)) <==> v@.contains(y) && m2 == m,
{
    let mut r: Vec<(u32, TraversalMode)> = Vec::new();
    let mut i: usize = 0;
    while i < v.len()
        invariant
            0 <= i <= v.len(),
            r@.len() == i,
            forall|j: int| 0 <= j < i ==> r@[j] == (v@[j], m),
        decreases v.len() - i,
    {
        r.push((v[i], m));
        i = i + 1;
    }
    proof {
        assert forall|y: u32, m2: TraversalMode| #[trigger]
            r@.contains((y, m2)) <==> v@.contains(y) && m2 == m by {
            if r@.contains((y, m2)) {
                let j = choose|j: int| 0 <= j < r@.len() && r@[j] == (y, m2);
                assert(v@[j] == y);
            }
            if v@.contains(y) && m2 == m {
                let j = choose|j: int| 0 <= j < v@.len() && v@[j] == y;
                assert(r@[j] == (y, m2));
            }
        }
    }
    r
}

/// The symbols whose parent is `x`.
fn children_of(symbols: &HashMap<u32, crate::schema::SymbolNode>, x: u32) -> (r: Vec<u32>)
    ensures
        forall|y: u32|
            r@.contains(y) <==> symbols@.contains_key(y) && symbols@[y].parent_id == Some(x),
{
    let mut out: Vec<u32> = Vec::new();
    broadcast use vstd::std_specs::hash::axiom_spec_hash_map_iter;
    let ghost pairs = vstd::std_specs::hash::spec_hash_map_iter(symbols).remaining();
    for pair in it: symbols.iter()
        invariant
            it.seq() == pairs,
            pairs == vstd::std_specs::hash::spec_hash_map_iter(symbols).remaining(),
            forall|y: u32|
                out@.contains(y) ==> symbols@.contains_key(y) && symbols@[y].parent_id == Some(x),
            forall|j: int|
                0 <= j < it.index() ==> (#[trigger] pairs[j].1).parent_id == Some(x)
                    ==> out@.contains(*pairs[j].0),
    {
        let (k, v) = pair;
        let ghost idx = it.index() as int;
        proof {
            assert(pair == pairs[idx]);
            assert(symbols@.contains_key(*pairs[idx].0));
            assert(symbols@[*pairs[idx].0] == *pairs[idx].1);
        }
        let ghost before = out@;
        if v.parent_id == Some(x) {
            out.push(*k);
            proof {
                lemma_push_contains(before, *k);
            }
        }
    }
    proof {
        assert forall|y: u32|
            symbols@.contains_key(y) && symbols@[y].parent_id == Some(x) implies out@.contains(y) by {
            assert(pairs.contains((&y, &symbols@[y])));
            let j = choose|j: int| 0 <= j < pairs.len() && pairs[j] == (&y, &symbols@[y]);
            assert(pairs[j].1.parent_id == Some(x));
        }
    }
    out
}

/// The search states one step away from `(x, m)`.
fn related_neighbors(index: &WorkspaceIndex, x: u32, m: TraversalMode) -> (r: Vec<(u32, TraversalMode)>)
    ensures
        forall|y: u32, m2: TraversalMode| #[trigger]
            r@.contains((y, m2)) <==> related_step(*index, x, m, y, m2),
{
    let mut down: Vec<u32> = Vec::new();
    if m != TraversalMode::Upstream {
        extend_with(&mut down, entries_of(&index.resolved_calls, x));
        extend_with(&mut down, entries_of(&index.resolved_type_refs, x));
    }
    let mut up: Vec<u32> = Vec::new();
    if m != TraversalMode::Downstream {
        extend_with(&mut up, keys_listing(&index.resolved_calls, x));
        extend_with(&mut up, keys_listing(&index.resolved_type_refs, x));
    }
    let mut same: Vec<u32> = Vec::new();
    extend_with(&mut same, entries_of(&index.inheritance, x));
    extend_with(&mut same, keys_listing(&index.inheritance, x));
    match index.symbols.get(&x) {
        Some(sym) => {
            match sym.parent_id {
                Some(p) => {
                    let ghost before = same@;
                    same.push(p);
                    proof {
                        lemma_push_contains(before, p);
                    }
                },
                None => {},
            }
            if str_eq(sym.kind.as_str(), "container") {
                extend_with(&mut same, children_of(&index.symbols, x));
            }
        },
        None => {},
    }
    let mut r: Vec<(u32, TraversalMode)> = Vec::new();
    extend_with(&mut r, tagged(&down, TraversalMode::Downstream));
    extend_with(&mut r, tagged(&up, TraversalMode::Upstream));
    extend_with(&mut r, tagged(&same, m));
    r
}

/// Every symbol related to `seeds` is a symbol of the index.
pub open spec fn related_in_symbols(index: WorkspaceIndex, seeds: Seq<u32>) -> bool {
    forall|y: u32| #[trigger] related_to(index, seeds, y) ==> index.symbols@.contains_key(y)
}

/// In an index whose links stay among its symbols, every symbol related to
/// symbols of the index is one of its symbols.
pub proof fn lemma_closed_links_relate_symbols(index: WorkspaceIndex, seeds: Seq<u32>)
    requires
        index.links_closed(),
        forall|i: int| 0 <= i < seeds.len() ==> index.symbols@.contains_key(#[trigger] seeds[i]),
    ensures
        related_in_symbols(index, seeds),
{
    assert forall|y: u32| #[trigger] related_to(index, seeds, y) implies index.symbols@.contains_key(y) by {
        let (k, m) = choose|k: nat, m: TraversalMode| related_within(index, seeds, k, y, m);
        lemma_within_in_symbols(index, seeds, k, y, m);
    }
}

proof fn lemma_within_in_symbols(index: WorkspaceIndex, seeds: Seq<u32>, k: nat, y: u32, m: TraversalMode)
    requires
        index.links_closed(),
        forall|i: int| 0 <= i < seeds.len() ==> index.symbols@.contains_key(#[trigger] seeds[i]),
        related_within(index, seeds, k, y, m),
    ensures
        index.symbols@.contains_key(y),
    decreases k,
{
    if k == 0 {
        let i = choose|i: int| 0 <= i < seeds.len() && seeds[i] == y;
    } else if related_within(index, seeds, (k - 1) as nat, y, m) {
        lemma_within_in_symbols(index, seeds, (k - 1) as nat, y, m);
    } else {
        let (x, mx) = choose|x: u32, mx: TraversalMode|
            related_within(index, seeds, (k - 1) as nat, x, mx) && #[trigger] related_step(index, x, mx, y, m);
        lemma_within_in_symbols(index, seeds, (k - 1) as nat, x, mx);
        if lists(index.resolved_calls@, x, y) {
            let i = choose|i: int| 0 <= i < index.resolved_calls@[x]@.len() && index.resolved_calls@[x]@[i] == y;
            assert(index.symbols@.contains_key(index.resolved_calls@[x]@[i]));
        } else if lists(index.resolved_type_refs@, x, y) {
            let i = choose|i: int|
                0 <= i < index.resolved_type_refs@[x]@.len() && index.resolved_type_refs@[x]@[i] == y;
            assert(index.symbols@.contains_key(index.resolved_type_refs@[x]@[i]));
        } else if lists(index.inheritance@, x, y) {
            let i = choose|i: int| 0 <= i < index.inheritance@[x]@.len() && index.inheritance@[x]@[i] == y;
            assert(index.symbols@.contains_key(index.inheritance@[x]@[i]));
        } else if lists(index.resolved_calls@, y, x) || lists(index.resolved_type_refs@, y, x) || lists(
            index.inheritance@,
            y,
            x,
        ) {
        } else if parent_of(index, x, y) {
            assert(index.symbols@[x].parent_id matches Some(p) ==> index.symbols@.contains_key(p));
        }
    }
}

/// The state of the breadth-first search behind [`find_related_symbols`].
spec fn related_walk(
    index: WorkspaceIndex,
    seeds: Seq<u32>,
    q: Seq<(u32, TraversalMode)>,
    visited: Set<u64>,
    head: int,
) -> bool {
    &&& 0 <= head <= q.len()
    &&& q.no_duplicates()
    &&& forall|y: u32, m: TraversalMode| #[trigger]
        visited.contains(state_key(y, m)) <==> q.contains((y, m))
    &&& forall|i: int|
        0 <= i < q.len() ==> related_to(index, seeds, (#[trigger] q[i]).0) && exists|k: nat|
            related_within(index, seeds, k, q[i].0, q[i].1)
    &&& forall|i: int| 0 <= i < q.len() ==> index.symbols@.contains_key((#[trigger] q[i]).0)
    &&& forall|y: u32| #[trigger] seeds.contains(y) ==> q.contains((y, TraversalMode::Both))
    &&& forall|i: int, y: u32, m2: TraversalMode|
        0 <= i < head && #[trigger] related_step(index, q[i].0, q[i].1, y, m2) ==> q.contains(
            (y, m2),
        )
}

proof fn lemma_related_complete(
    index: WorkspaceIndex,
    seeds: Seq<u32>,
    q: Seq<(u32, TraversalMode)>,
    visited: Set<u64>,
    k: nat,
    y: u32,
    m: TraversalMode,
)
    requires
        related_walk(index, seeds, q, visited, q.len() as int),
        related_within(index, seeds, k, y, m),
    ensures
        q.contains((y, m)),
    decreases k,
{
    if k > 0 {
        if related_within(index, seeds, (k - 1) as nat, y, m) {
            lemma_related_complete(index, seeds, q, visited, (k - 1) as nat, y, m);
        } else {
            let (x, mx) = choose|x: u32, mx: TraversalMode|
                related_within(index, seeds, (k - 1) as nat, x, mx) && #[trigger] related_step(
                    index,
                    x,
                    mx,
                    y,
                    m,
                );
            lemma_related_complete(index, seeds, q, visited, (k - 1) as nat, x, mx);
            let i = choose|i: int| 0 <= i < q.len() && q[i] == (x, mx);
            assert(related_step(index, q[i].0, q[i].1, y, m));
        }
    }
}

/// Orders `ids` by file, then by position within the file.
fn sort_by_location(index: &WorkspaceIndex, ids: &Vec<u32>) -> (r: Vec<u32>)
    requires
        ids@.no_duplicates(),
        forall|i: int| 0 <= i < ids@.len() ==> index.symbols@.contains_key(#[trigger] ids@[i]),
    ensures
        r@.no_duplicates(),
        forall|y: u32| #[trigger] r@.contains(y) <==> ids@.contains(y),
        by_location(*index, r@),
{
    let ghost g = *index;
    let mut out: Vec<u32> = Vec::new();
    let mut i: usize = 0;
    while i < ids.len()
        invariant
            g == *index,
            0 <= i <= ids.len(),
            ids@.no_duplicates(),
            forall|a: int| 0 <= a < ids@.len() ==> index.symbols@.contains_key(#[trigger] ids@[a]),
            out@.no_duplicates(),
            forall|y: u32| #[trigger] out@.contains(y) <==> ids@.take(i as int).contains(y),
            forall|a: int| 0 <= a < out@.len() ==> index.symbols@.contains_key(#[trigger] out@[a]),
            by_location(g, out@),
        decreases ids.len() - i,
    {
        let x = ids[i];
        let (xf, xr) = match index.symbols.get(&x) {
            Some(s) => (s.file_id, s.range_start),
            None => (0, 0),
        };
        let mut p: usize = 0;
        while p < out.len()
            invariant
                g == *index,
                0 <= p <= out@.len(),
                index.symbols@.contains_key(x),
                xf == index.symbols@[x].file_id,
                xr == index.symbols@[x].range_start,
                forall|a: int| 0 <= a < out@.len() ==> index.symbols@.contains_key(#[trigger] out@[a]),
                forall|a: int| 0 <= a < p ==> located_before(g, #[trigger] out@[a], x),
            ensures
                0 <= p <= out@.len(),
                forall|a: int| 0 <= a < p ==> located_before(g, #[trigger] out@[a], x),
                p < out@.len() ==> !located_before(g, out@[p as int], x),
            decreases out@.len() - p,
        {
            let (pf, pr) = match index.symbols.get(&out[p]) {
                Some(s) => (s.file_id, s.range_start),
                None => (0, 0),
            };
            if !(pf < xf || (pf == xf && pr <= xr)) {
                break;
            }
            p = p + 1;
        }
        proof {
            assert(!ids@.take(i as int).contains(x)) by {
                if ids@.take(i as int).contains(x) {
                    let a = choose|a: int| 0 <= a < i && ids@.take(i as int)[a] == x;
                    assert(ids@[a] == ids@[i as int]);
                }
            }
            assert forall|b: int| p <= b < out@.len() implies located_before(g, x, #[trigger] out@[b]) by {
                assert(!located_before(g, out@[p as int], x));
                if p < b {
                    assert(located_before(g, out@[p as int], out@[b]));
                }
            }
        }
        let ghost before = out@;
        out.insert(p, x);
        proof {
            let after = before.insert(p as int, x);
            assert(out@ == after);
            assert forall|a: int| 0 <= a < after.len() implies (a < p ==> after[a] == before[a]) && (a
                == p ==> after[a] == x) && (a > p ==> after[a] == before[a - 1]) by {}
            assert forall|y: u32| #[trigger] after.contains(y) <==> before.contains(y) || y == x by {
                if after.contains(y) {
                    let a = choose|a: int| 0 <= a < after.len() && after[a] == y;
                    if a < p {
                        assert(before[a] == y);
                    } else if a > p {
                        assert(before[a - 1] == y);
                    }
                }
                if before.contains(y) {
                    let a = choose|a: int| 0 <= a < before.len() && before[a] == y;
                    if a < p {
                        assert(after[a] == y);
                    } else {
                        assert(after[a + 1] == y);
                    }
                }
                if y == x {
                    assert(after[p as int] == x);
                }
            }
            assert(ids@.take(i + 1) == ids@.take(i as int).push(x));
            lemma_push_contains(ids@.take(i as int), x);
            assert forall|a: int, b: int|
                0 <= a < after.len() && 0 <= b < after.len() && a != b implies after[a] != after[b] by {
                if a != p && b != p {
                    let aa = if a < p { a } else { a - 1 };
                    let bb = if b < p { b } else { b - 1 };
                    assert(after[a] == before[aa]);
                    assert(after[b] == before[bb]);
                } else if a == p {
                    let bb = if b < p { b } else { b - 1 };
                    assert(before.contains(before[bb]));
                } else {
                    let aa = if a < p { a } else { a - 1 };
                    assert(before.contains(before[aa]));
                }
            }
            assert forall|a: int| 0 <= a < after.len() implies index.symbols@.contains_key(
                #[trigger] after[a],
            ) by {
                if a < p {
                    assert(after[a] == before[a]);
                } else if a > p {
                    assert(after[a] == before[a - 1]);
                }
            }
            assert forall|a: int, b: int|
                0 <= a < b < after.len() implies located_before(
                g,
                #[trigger] after[a],
                #[trigger] after[b],
            ) by {
                if b < p {
                    assert(after[a] == before[a] && after[b] == before[b]);
                } else if b == p {
                    assert(after[a] == before[a]);
                } else if a < p {
                    assert(after[a] == before[a] && after[b] == before[b - 1]);
                    assert(located_before(g, before[a], x));
                    assert(located_before(g, x, before[b - 1]));
                } else if a == p {
                    assert(after[b] == before[b - 1]);
                } else {
                    assert(after[a] == before[a - 1] && after[b] == before[b - 1]);
                }
            }
        }
        i = i + 1;
    }
    proof {
        assert(ids@.take(ids@.len() as int) == ids@);
    }
    out
}

/// The symbols related to those named `target_name`: the targets, their
/// dependencies and dependents (calls and type references, each followed one
/// way from the targets on), and the symbols linked to any of these by
/// inheritance or containment, each once, ordered by file and position. `None`
/// where no symbol has that name.
pub fn find_related_symbols(index: &WorkspaceIndex, target_name: &str) -> (r: Option<Vec<SymbolId>>)
    requires
        index.symbol_map@.contains_key(target_name@) ==> related_in_symbols(
            *index,
            index.symbol_map@[target_name@]@,
        ),
    ensures
        r is None <==> !index.symbol_map@.contains_key(target_name@)
            || index.symbol_map@[target_name@]@.len() == 0,
        r matches Some(v) ==> {
            let seeds = index.symbol_map@[target_name@]@;
            &&& v@.no_duplicates()
            &&& forall|y: u32| #[trigger] v@.contains(y) <==> related_to(*index, seeds, y)
            &&& by_location(*index, v@)
        },
{
    let targets = match index.symbol_map.get(target_name) {
        Some(t) => t,
        None => {
            return None;
        },
    };
    if targets.len() == 0 {
        return None;
    }
    let ghost seeds = targets@;
    let ghost g = *index;
    proof {
        assert(index.symbol_map@.contains_key(target_name@));
    }
    let mut q: Vec<(u32, TraversalMode)> = Vec::new();
    let mut visited: HashSet<u64> = HashSet::new();
    let mut found: Vec<u32> = Vec::new();
    let mut found_set: HashSet<u32> = HashSet::new();
    let mut t: usize = 0;
    while t < targets.len()
        invariant
            g == *index,
            related_in_symbols(g, seeds),
            index.symbol_map@.contains_key(target_name@),
            seeds == targets@,
            seeds == index.symbol_map@[target_name@]@,
            0 <= t <= targets.len(),
            q@.no_duplicates(),
            forall|y: u32, m: TraversalMode| #[trigger]
                visited@.contains(state_key(y, m)) <==> q@.contains((y, m)),
            forall|i: int|
                0 <= i < q@.len() ==> (#[trigger] q@[i]).1 == TraversalMode::Both && seeds.contains(
                    q@[i].0,
                ),
            forall|i: int| 0 <= i < t ==> q@.contains((#[trigger] seeds[i], TraversalMode::Both)),
            found@.no_duplicates(),
            forall|y: u32| #[trigger] found_set@.contains(y) <==> found@.contains(y),
            forall|y: u32| #[trigger]
                found@.contains(y) <==> exists|m: TraversalMode| q@.contains((y, m)),
        decreases targets.len() - t,
    {
        let y = targets[t];
        let key = state_key_exec(y, TraversalMode::Both);
        if !visited.contains(&key) {
            let ghost old_q = q@;
            let ghost old_found = found@;
            proof {
                lemma_push_no_dup(q@, (y, TraversalMode::Both));
                lemma_push_contains(q@, (y, TraversalMode::Both));
                assert(!found@.contains(y)) by {
                    if found@.contains(y) {
                        let m = choose|m: TraversalMode| q@.contains((y, m));
                        let i = choose|i: int| 0 <= i < q@.len() && q@[i] == (y, m);
                        assert(q@[i].1 == TraversalMode::Both);
                    }
                }
                lemma_push_no_dup(found@, y);
                lemma_push_contains(found@, y);
            }
            visited.insert(key);
            q.push((y, TraversalMode::Both));
            found_set.insert(y);
            found.push(y);
            proof {
                assert(q@.contains((y, TraversalMode::Both)));
                assert forall|yy: u32| #[trigger] found@.contains(yy) <==> exists|m: TraversalMode|
                    q@.contains((yy, m)) by {
                    if yy == y {
                        assert(q@.contains((y, TraversalMode::Both)));
                    }
                    if exists|m: TraversalMode| q@.contains((yy, m)) {
                        let m = choose|m: TraversalMode| q@.contains((yy, m));
                        if (yy, m) != (y, TraversalMode::Both) {
                            assert(old_q.contains((yy, m)));
                            assert(old_found.contains(yy));
                        }
                    }
                    if found@.contains(yy) && yy != y {
                        assert(old_found.contains(yy));
                        let m = choose|m: TraversalMode| old_q.contains((yy, m));
                        assert(q@.contains((yy, m)));
                    }
                }
            }
        }
        t = t + 1;
    }
    proof {
        assert forall|i: int| 0 <= i < q@.len() implies related_to(g, seeds, (#[trigger] q@[i]).0)
            && exists|k: nat| related_within(g, seeds, k, q@[i].0, q@[i].1) by {
            assert(related_within(g, seeds, 0, q@[i].0, q@[i].1));
        }
        assert forall|i: int| 0 <= i < q@.len() implies index.symbols@.contains_key(
            (#[trigger] q@[i]).0,
        ) by {
            assert(related_within(g, seeds, 0, q@[i].0, q@[i].1));
            assert(related_to(g, seeds, q@[i].0));
        }
        assert forall|y: u32| #[trigger] seeds.contains(y) implies q@.contains(
            (y, TraversalMode::Both),
        ) by {
            let a = choose|a: int| 0 <= a < seeds.len() && seeds[a] == y;
        }
        assert(related_walk(g, seeds, q@, visited@, 0));
    }
    let mut head: usize = 0;
    while head < q.len()
        invariant
            g == *index,
            related_in_symbols(g, seeds),
            related_walk(g, seeds, q@, visited@, head as int),
            found@.no_duplicates(),
            forall|y: u32| #[trigger] found_set@.contains(y) <==> found@.contains(y),
            forall|y: u32| #[trigger]
                found@.contains(y) <==> exists|m: TraversalMode| q@.contains((y, m)),
        decreases 0x4_0000_0001 - head,
    {
        proof {
            crate::lemmas::lemma_distinct_len_bound(
                q@,
                |s: (u32, TraversalMode)| state_key(s.0, s.1) as int,
                0x4_0000_0000,
            );
        }
        let (x, mx) = q[head];
        let nb = related_neighbors(index, x, mx);
        let mut j: usize = 0;
        while j < nb.len()
            invariant
                g == *index,
                related_in_symbols(g, seeds),
                head < q@.len(),
                q@[head as int] == (x, mx),
                related_walk(g, seeds, q@, visited@, head as int),
                forall|y: u32, m2: TraversalMode| #[trigger]
                    nb@.contains((y, m2)) <==> related_step(g, x, mx, y, m2),
                0 <= j <= nb.len(),
                forall|jj: int| 0 <= jj < j ==> q@.contains(#[trigger] nb@[jj]),
                found@.no_duplicates(),
                forall|y: u32| #[trigger] found_set@.contains(y) <==> found@.contains(y),
                forall|y: u32| #[trigger]
                    found@.contains(y) <==> exists|m: TraversalMode| q@.contains((y, m)),
            decreases nb.len() - j,
        {
            let (y, m2) = nb[j];
            let key = state_key_exec(y, m2);
            if !visited.contains(&key) {
                let ghost old_q = q@;
                proof {
                    assert(nb@.contains((y, m2)));
                    assert(related_step(g, x, mx, y, m2));
                    assert(related_to(g, seeds, old_q[head as int].0));
                    let k = choose|k: nat| related_within(g, seeds, k, x, mx);
                    assert(related_within(g, seeds, k + 1, y, m2));
                    assert(related_to(g, seeds, y));
                    assert(index.symbols@.contains_key(y));
                    lemma_push_no_dup(q@, (y, m2));
                    lemma_push_contains(q@, (y, m2));
                }
                visited.insert(key);
                q.push((y, m2));
                if !found_set.contains(&y) {
                    proof {
                        lemma_push_no_dup(found@, y);
                        lemma_push_contains(found@, y);
                    }
                    found_set.insert(y);
                    found.push(y);
                }
                proof {
                    let n = old_q.len() as int;
                    assert forall|yy: u32, m: TraversalMode| #[trigger]
                        visited@.contains(state_key(yy, m)) <==> q@.contains((yy, m)) by {
                        if state_key(yy, m) == state_key(y, m2) {
                            assert(yy == y && m == m2);
                        }
                    }
                    assert forall|i: int|
                        0 <= i < q@.len() implies related_to(g, seeds, (#[trigger] q@[i]).0)
                        && exists|k: nat| related_within(g, seeds, k, q@[i].0, q@[i].1) by {
                        if i < n {
                            assert(q@[i] == old_q[i]);
                        } else {
                            assert(q@[i] == (y, m2));
                            assert(old_q[head as int] == (x, mx));
                            assert(exists|k: nat| related_within(g, seeds, k, x, mx));
                            let k = choose|k: nat| related_within(g, seeds, k, x, mx);
                            assert(related_within(g, seeds, k + 1, q@[i].0, q@[i].1));
                            assert(related_to(g, seeds, q@[i].0));
                        }
                    }
                    assert forall|i: int| 0 <= i < q@.len() implies index.symbols@.contains_key(
                        (#[trigger] q@[i]).0,
                    ) by {
                        if i < n {
                            assert(q@[i] == old_q[i]);
                        }
                    }
                    assert forall|i: int, yy: u32, m3: TraversalMode|
                        0 <= i < head && #[trigger] related_step(
                            g,
                            q@[i].0,
                            q@[i].1,
                            yy,
                            m3,
                        ) implies q@.contains((yy, m3)) by {
                        assert(q@[i] == old_q[i]);
                        assert(old_q.contains((yy, m3)));
                    }
                    assert forall|yy: u32| #[trigger] found@.contains(yy) <==> exists|m: TraversalMode|
                        q@.contains((yy, m)) by {
                        if q@.contains((yy, m2)) && yy == y {
                        }
                        if exists|m: TraversalMode| q@.contains((yy, m)) {
                            let m = choose|m: TraversalMode| q@.contains((yy, m));
                            if (yy, m) != (y, m2) {
                                assert(old_q.contains((yy, m)));
                            }
                        }
                        if found@.contains(yy) && yy != y {
                            let m = choose|m: TraversalMode| old_q.contains((yy, m));
                            assert(q@.contains((yy, m)));
                        }
                    }
                    assert forall|jj: int| 0 <= jj < j implies q@.contains(#[trigger] nb@[jj]) by {
                        assert(old_q.contains(nb@[jj]));
                    }
                    assert forall|yy: u32| #[trigger] seeds.contains(yy) implies q@.contains(
                        (yy, TraversalMode::Both),
                    ) by {
                        assert(old_q.contains((yy, TraversalMode::Both)));
                    }
                    assert(related_walk(g, seeds, q@, visited@, head as int));
                }
            }
            j = j + 1;
        }
        proof {
            assert forall|i: int, yy: u32, m3: TraversalMode|
                0 <= i < head + 1 && #[trigger] related_step(
                    g,
                    q@[i].0,
                    q@[i].1,
                    yy,
                    m3,
                ) implies q@.contains((yy, m3)) by {
                if i == head {
                    assert(nb@.contains((yy, m3)));
                    let jj = choose|jj: int| 0 <= jj < nb@.len() && nb@[jj] == (yy, m3);
                }
            }
            assert(related_walk(g, seeds, q@, visited@, head + 1));
        }
        head = head + 1;
    }
    proof {
        assert forall|y: u32| #[trigger] found@.contains(y) <==> related_to(g, seeds, y) by {
            if found@.contains(y) {
                let m = choose|m: TraversalMode| q@.contains((y, m));
                let i = choose|i: int| 0 <= i < q@.len() && q@[i] == (y, m);
                assert(related_to(g, seeds, q@[i].0));
            }
            if related_to(g, seeds, y) {
                let (k, m) = choose|k: nat, m: TraversalMode| related_within(g, seeds, k, y, m);
                lemma_related_complete(g, seeds, q@, visited@, k, y, m);
            }
        }
        assert forall|i: int| 0 <= i < found@.len() implies index.symbols@.contains_key(
            #[trigger] found@[i],
        ) by {
            assert(found@.contains(found@[i]));
            let m = choose|m: TraversalMode| q@.contains((found@[i], m));
            let a = choose|a: int| 0 <= a < q@.len() && q@[a] == (found@[i], m);
            assert(index.symbols@.contains_key(q@[a].0));
        }
    }
    let sorted = sort_by_location(index, &found);
    Some(sorted)
}

/// The characters that `String::from_utf8_lossy` makes of some bytes.
pub uninterp spec fn lossy_text(bytes: Seq<u8>) -> Seq<char>;

/// Decodes bytes as UTF-8, replacing invalid sequences
/// (`String::from_utf8_lossy`).
#[verifier::external_body]
fn lossy_string(bytes: &[u8]) -> (r: String)
    ensures
        r@ == lossy_text(bytes@),
{
    String::from_utf8_lossy(bytes).into_owned()
}

/// The symbols of `chain` that are kept: all of them, or those that are not
/// tests where tests are excluded.
pub open spec fn kept_ids(index: WorkspaceIndex, chain: Seq<u32>, exclude_tests: bool) -> Seq<u32>
    decreases chain.len(),
{
    if chain.len() == 0 {
        Seq::empty()
    } else {
        let rest = kept_ids(index, chain.drop_last(), exclude_tests);
        let id = chain.last();
        if exclude_tests && index.symbols@.contains_key(id) && index.symbols@[id].is_test {
            rest
        } else {
            rest.push(id)
        }
    }
}

/// The names of those of `ids` that are symbols of the index.
pub open spec fn symbol_names(index: WorkspaceIndex, ids: Seq<u32>) -> Seq<Seq<char>>
    decreases ids.len(),
{
    if ids.len() == 0 {
        Seq::empty()
    } else {
        let rest = symbol_names(index, ids.drop_last());
        if index.symbols@.contains_key(ids.last()) {
            rest.push(index.symbols@[ids.last()].name@)
        } else {
            rest
        }
    }
}

/// `parts` joined by `sep`.
pub open spec fn joined(parts: Seq<Seq<char>>, sep: Seq<char>) -> Seq<char>
    decreases parts.len(),
{
    if parts.len() == 0 {
        Seq::empty()
    } else if parts.len() == 1 {
        parts[0]
    } else {
        joined(parts.drop_last(), sep) + sep + parts.last()
    }
}

/// The separator line of the context text.
pub open spec fn rule_line() -> Seq<char> {
    "// ==========================================================\n"@
}

/// The context text of an external symbol.
pub open spec fn external_piece(sym: crate::schema::SymbolNode) -> Seq<char> {
    rule_line() + "// External Library: "@ + (match sym.external_source {
        Some(src) => src@,
        None => "Unknown"@,
    }) + "\n"@ + rule_line() + "// Symbol: "@ + sym.name@ + "\n"@ + (match sym.doc_comment {
        Some(d) => "// "@ + d@ + "\n"@,
        None => Seq::empty(),
    }) + "// (Source code not available for external libraries)\n"@ + "\n\n"@
}

/// The source text of a symbol taken from the bytes of its file, where they
/// could be read.
pub open spec fn source_piece(sym: crate::schema::SymbolNode, source: Option<Seq<u8>>) -> Seq<char> {
    match source {
        Some(b) => if sym.range_end <= b.len() {
            lossy_text(b.subrange(sym.range_start as int, sym.range_end as int))
        } else {
            "// Error: Source range out of bounds for this file version"@
        },
        None => "// Error: Could not read source file from disk"@,
    }
}

/// The context text of a symbol of a file: the file's header the first time
/// the file appears, the documentation if asked for, and the source.
pub open spec fn file_piece(
    sym: crate::schema::SymbolNode,
    file: crate::schema::FileNode,
    first: bool,
    include_docs: bool,
    source: Option<Seq<u8>>,
) -> Seq<char> {
    (if first {
        rule_line() + "// File: "@ + file.path@ + "\n"@ + (if file.is_test {
            "// (Test File)\n"@
        } else {
            Seq::empty()
        }) + rule_line()
    } else {
        Seq::empty()
    }) + (if include_docs && sym.doc_comment is Some {
        sym.doc_comment.unwrap()@ + "\n"@
    } else {
        Seq::empty()
    }) + source_piece(sym, source) + "\n\n"@
}

/// The bytes of file `fid`, where they could be read.
pub open spec fn source_of(sources: Map<u32, Vec<u8>>, fid: u32) -> Option<Seq<u8>> {
    if sources.contains_key(fid) {
        Some(sources[fid]@)
    } else {
        None
    }
}

/// The body of the context text for `ids`, with the files already shown.
pub open spec fn context_body(
    index: WorkspaceIndex,
    ids: Seq<u32>,
    include_docs: bool,
    sources: Map<u32, Vec<u8>>,
) -> (Seq<char>, Set<u32>)
    decreases ids.len(),
{
    if ids.len() == 0 {
        (Seq::empty(), Set::empty())
    } else {
        let (text, seen) = context_body(index, ids.drop_last(), include_docs, sources);
        let id = ids.last();
        if !index.symbols@.contains_key(id) {
            (text, seen)
        } else {
            let sym = index.symbols@[id];
            if sym.is_external {
                (text + external_piece(sym), seen)
            } else if index.files@.contains_key(sym.file_id) {
                let file = index.files@[sym.file_id];
                (
                    text + file_piece(
                        sym,
                        file,
                        !seen.contains(sym.file_id),
                        include_docs,
                        source_of(sources, sym.file_id),
                    ),
                    seen.insert(sym.file_id),
                )
            } else {
                (text, seen)
            }
        }
    }
}

/// The context text for a chain of symbols.
pub open spec fn context_text(
    index: WorkspaceIndex,
    chain: Seq<u32>,
    include_docs: bool,
    exclude_tests: bool,
    sources: Map<u32, Vec<u8>>,
) -> Seq<char> {
    let kept = kept_ids(index, chain, exclude_tests);
    if chain.len() == 0 {
        "// No context found."@
    } else if kept.len() == 0 {
        "// All relevant context was filtered out (test exclusion active)."@
    } else {
        let primary = if index.symbols@.contains_key(kept[0]) {
            index.symbols@[kept[0]].name@
        } else {
            "Unknown"@
        };
        "// Context for search: `"@ + primary + "`\n"@ + "// Resolved Symbols: "@ + joined(
            symbol_names(index, kept),
            ", "@,
        ) + "\n"@ + (if exclude_tests {
            "// Note: Test files and functions have been excluded from this output.\n"@
        } else {
            Seq::empty()
        }) + "\n"@ + context_body(index, kept, include_docs, sources).0
    }
}

/// Whether the source range of symbol `id` would be cut out of its file's
/// bytes with its end before its start.
pub open spec fn reversed_range(
    index: WorkspaceIndex,
    sources: Map<u32, Vec<u8>>,
    exclude_tests: bool,
    id: u32,
) -> bool {
    let sym = index.symbols@[id];
    &&& index.symbols@.contains_key(id)
    &&& !(exclude_tests && sym.is_test)
    &&& !sym.is_external
    &&& index.files@.contains_key(sym.file_id)
    &&& sources.contains_key(sym.file_id)
    &&& sym.range_end <= sources[sym.file_id]@.len()
    &&& sym.range_start > sym.range_end
}

proof fn lemma_kept_in_chain(index: WorkspaceIndex, chain: Seq<u32>, exclude_tests: bool)
    ensures
        forall|j: int|
            0 <= j < kept_ids(index, chain, exclude_tests).len() ==> chain.contains(
                #[trigger] kept_ids(index, chain, exclude_tests)[j],
            ) && !(exclude_tests && index.symbols@.contains_key(kept_ids(index, chain, exclude_tests)[j])
                && index.symbols@[kept_ids(index, chain, exclude_tests)[j]].is_test),
    decreases chain.len(),
{
    if chain.len() > 0 {
        lemma_kept_in_chain(index, chain.drop_last(), exclude_tests);
        let rest = kept_ids(index, chain.drop_last(), exclude_tests);
        assert forall|j: int| 0 <= j < rest.len() implies chain.contains(#[trigger] rest[j]) by {
            let a = choose|a: int| 0 <= a < chain.drop_last().len() && chain.drop_last()[a] == rest[j];
            assert(chain[a] == rest[j]);
        }
        assert(chain[chain.len() - 1] == chain.last());
    }
}

/// The names of the kept symbols, joined by commas.
fn names_line(index: &WorkspaceIndex, kept: &Vec<u32>) -> (r: String)
    ensures
        r@ == joined(symbol_names(*index, kept@), ", "@),
{
    let mut out = String::new();
    let mut n: usize = 0;
    let mut i: usize = 0;
    while i < kept.len()
        invariant
            0 <= i <= kept.len(),
            out@ == joined(symbol_names(*index, kept@.take(i as int)), ", "@),
            n == symbol_names(*index, kept@.take(i as int)).len(),
            n <= i,
        decreases kept.len() - i,
    {
        let id = kept[i];
        proof {
            assert(kept@.take(i + 1).drop_last() == kept@.take(i as int));
            assert(kept@.take(i + 1).last() == id);
        }
        match index.symbols.get(&id) {
            Some(sym) => {
                let ghost parts = symbol_names(*index, kept@.take(i as int));
                if n > 0 {
                    out.append(", ");
                }
                out.append(sym.name.as_str());
                proof {
                    let np = parts.push(sym.name@);
                    assert(np.drop_last() == parts);
                    if n == 0 {
                        assert(out@ =~= np[0]);
                    }
                }
                n = n + 1;
            },
            None => {},
        }
        i = i + 1;
    }
    proof {
        assert(kept@.take(kept@.len() as int) == kept@);
    }
    out
}

/// The context text of an external symbol.
fn external_text(sym: &crate::schema::SymbolNode) -> (r: String)
    ensures
        r@ == external_piece(*sym),
{
    let mut t = String::new();
    t.append("// ==========================================================\n");
    t.append("// External Library: ");
    match &sym.external_source {
        Some(src) => t.append(src.as_str()),
        None => t.append("Unknown"),
    }
    t.append("\n");
    t.append("// ==========================================================\n");
    t.append("// Symbol: ");
    t.append(sym.name.as_str());
    t.append("\n");
    match &sym.doc_comment {
        Some(d) => {
            t.append("// ");
            t.append(d.as_str());
            t.append("\n");
        },
        None => {},
    }
    t.append("// (Source code not available for external libraries)\n");
    t.append("\n\n");
    assert(t@ =~= external_piece(*sym));
    t
}

/// The context text of a symbol of a file.
fn file_text(
    sym: &crate::schema::SymbolNode,
    file: &crate::schema::FileNode,
    first: bool,
    include_docs: bool,
    source: Option<&Vec<u8>>,
) -> (r: String)
    requires
        source matches Some(b) && sym.range_end <= b@.len() ==> sym.range_start <= sym.range_end,
    ensures
        r@ == file_piece(
            *sym,
            *file,
            first,
            include_docs,
            match source {
                Some(b) => Some(b@),
                None => None,
            },
        ),
{
    let mut t = String::new();
    if first {
        t.append("// ==========================================================\n");
        t.append("// File: ");
        t.append(file.path.as_str());
        t.append("\n");
        if file.is_test {
            t.append("// (Test File)\n");
        }
        t.append("// ==========================================================\n");
    }
    let ghost head = t@;
    if include_docs {
        match &sym.doc_comment {
            Some(d) => {
                t.append(d.as_str());
                t.append("\n");
            },
            None => {},
        }
    }
    let ghost with_docs = t@;
    match source {
        Some(bytes) => {
            if sym.range_end <= bytes.len() {
                let mut cut: Vec<u8> = Vec::new();
                let mut k = sym.range_start;
                while k < sym.range_end
                    invariant
                        sym.range_start <= k <= sym.range_end <= bytes@.len(),
                        cut@ == bytes@.subrange(sym.range_start as int, k as int),
                    decreases sym.range_end - k,
                {
                    cut.push(bytes[k]);
                    k = k + 1;
                    assert(cut@ =~= bytes@.subrange(sym.range_start as int, k as int));
                }
                let text = lossy_string(cut.as_slice());
                t.append(text.as_str());
            } else {
                t.append("// Error: Source range out of bounds for this file version");
            }
        },
        None => {
            t.append("// Error: Could not read source file from disk");
        },
    }
    t.append("\n\n");
    let ghost src = match source {
        Some(b) => Some(b@),
        None => None,
    };
    assert(head =~= (if first {
        rule_line() + "// File: "@ + file.path@ + "\n"@ + (if file.is_test {
            "// (Test File)\n"@
        } else {
            Seq::empty()
        }) + rule_line()
    } else {
        Seq::empty()
    }));
    assert(with_docs =~= head + (if include_docs && sym.doc_comment is Some {
        sym.doc_comment.unwrap()@ + "\n"@
    } else {
        Seq::empty()
    }));
    assert(t@ =~= file_piece(*sym, *file, first, include_docs, src));
    t
}

/// The context text for a chain of symbols: a header naming the first and
/// all of them, then, symbol by symbol, a note for an external symbol, or the
/// file's header (once per file), the documentation if asked for, and the
/// source cut from `sources`, the bytes of the files that could be read by
/// identifier. Test symbols are left out where `exclude_tests` is set.
pub fn generate_context_from_ids(
    index: &WorkspaceIndex,
    chain: &Vec<SymbolId>,
    include_docs: bool,
    exclude_tests: bool,
    sources: &HashMap<u32, Vec<u8>>,
) -> (r: String)
    requires
        forall|id: u32| chain@.contains(id) ==> !reversed_range(*index, sources@, exclude_tests, id),
    ensures
        r@ == context_text(*index, chain@, include_docs, exclude_tests, sources@),
{
    if chain.len() == 0 {
        return "// No context found.".to_string();
    }
    let mut kept: Vec<u32> = Vec::new();
    let mut i: usize = 0;
    while i < chain.len()
        invariant
            0 <= i <= chain.len(),
            kept@ == kept_ids(*index, chain@.take(i as int), exclude_tests),
        decreases chain.len() - i,
    {
        let id = chain[i];
        proof {
            assert(chain@.take(i + 1).drop_last() == chain@.take(i as int));
            assert(chain@.take(i + 1).last() == id);
        }
        let skip = exclude_tests && match index.symbols.get(&id) {
            Some(sym) => sym.is_test,
            None => false,
        };
        if !skip {
            kept.push(id);
        }
        i = i + 1;
    }
    proof {
        assert(chain@.take(chain@.len() as int) == chain@);
        lemma_kept_in_chain(*index, chain@, exclude_tests);
    }
    if kept.len() == 0 {
        return "// All relevant context was filtered out (test exclusion active).".to_string();
    }
    let mut context = String::new();
    context.append("// Context for search: `");
    match index.symbols.get(&kept[0]) {
        Some(sym) => context.append(sym.name.as_str()),
        None => context.append("Unknown"),
    }
    context.append("`\n");
    context.append("// Resolved Symbols: ");
    let names = names_line(index, &kept);
    context.append(names.as_str());
    context.append("\n");
    if exclude_tests {
        context.append("// Note: Test files and functions have been excluded from this output.\n");
    }
    context.append("\n");
    let ghost header = context@;
    let mut body = String::new();
    let mut seen: HashSet<u32> = HashSet::new();
    let mut j: usize = 0;
    while j < kept.len()
        invariant
            0 <= j <= kept.len(),
            kept@ == kept_ids(*index, chain@, exclude_tests),
            forall|a: int| 0 <= a < kept@.len() ==> chain@.contains(#[trigger] kept@[a]) && !(
            exclude_tests && index.symbols@.contains_key(kept@[a]) && index.symbols@[kept@[a]].is_test),
            forall|id: u32| chain@.contains(id) ==> !reversed_range(*index, sources@, exclude_tests, id),
            body@ == context_body(*index, kept@.take(j as int), include_docs, sources@).0,
            seen@ == context_body(*index, kept@.take(j as int), include_docs, sources@).1,
        decreases kept.len() - j,
    {
        let id = kept[j];
        proof {
            assert(kept@.take(j + 1).drop_last() == kept@.take(j as int));
            assert(kept@.take(j + 1).last() == id);
            assert(chain@.contains(kept@[j as int]));
        }
        match index.symbols.get(&id) {
            Some(sym) => {
                if sym.is_external {
                    let piece = external_text(sym);
                    body.append(piece.as_str());
                } else {
                    match index.files.get(&sym.file_id) {
                        Some(file) => {
                            let first = !seen.contains(&sym.file_id);
                            let source = sources.get(&sym.file_id);
                            proof {
                                assert(!reversed_range(*index, sources@, exclude_tests, id));
                            }
                            let piece = file_text(sym, file, first, include_docs, source);
                            body.append(piece.as_str());
                            seen.insert(sym.file_id);
                        },
                        None => {},
                    }
                }
            },
            None => {},
        }
        j = j + 1;
    }
    proof {
        assert(kept@.take(kept@.len() as int) == kept@);
    }
    context.append(body.as_str());
    proof {
        let kept_s = kept@;
        let primary = if index.symbols@.contains_key(kept_s[0]) {
            index.symbols@[kept_s[0]].name@
        } else {
            "Unknown"@
        };
        assert(header =~= "// Context for search: `"@ + primary + "`\n"@ + "// Resolved Symbols: "@
            + joined(symbol_names(*index, kept_s), ", "@) + "\n"@ + (if exclude_tests {
            "// Note: Test files and functions have been excluded from this output.\n"@
        } else {
            Seq::empty()
        }) + "\n"@);
    }
    context
}
} // verus!
