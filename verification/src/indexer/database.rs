//! Calls from code to the tables and models of schema files (`.sql`,
//! `.prisma`) that its string literals name.

use vstd::prelude::*;
use crate::schema::{FileId, SymbolId, WorkspaceIndex, lists};
use crate::text::{alphanumeric, chars_of, ends_with, is_alphanumeric, occurs_at, occurs_at_exec, str_ends_with, str_eq, trim_quote_chars, trim_quotes};
use crate::indexer::resolve::{keys_of, only_calls_change, sorted_ids, increasing};
use crate::indexer::links::{add_link, gains_links, module_of, module_symbol};

verus! {

/// A character that words are made of: alphanumeric, or `_`.
pub open spec fn word_char(c: char) -> bool {
    alphanumeric(c) || c == '_'
}

/// `w` is a word of `s`, which the characters that are neither alphanumeric
/// nor `_` separate (a word may be empty, between two separators).
pub open spec fn is_word_at(s: Seq<char>, w: Seq<char>, i: int) -> bool {
    &&& occurs_at(s, w, i)
    &&& forall|k: int| 0 <= k < w.len() ==> word_char(#[trigger] w[k])
    &&& (i == 0 || !word_char(s[i - 1]))
    &&& (i + w.len() == s.len() || !word_char(s[i + w.len()]))
}

/// `w` is a word of `s`.
pub open spec fn is_word_of(s: Seq<char>, w: Seq<char>) -> bool {
    exists|i: int| #[trigger] is_word_at(s, w, i)
}

/// Symbol `t` lies in a schema file (`.sql` or `.prisma`).
pub open spec fn in_schema_file(ix: WorkspaceIndex, t: SymbolId) -> bool {
    &&& ix.symbols@.contains_key(t)
    &&& ix.files@.contains_key(ix.symbols@[t].file_id)
    &&& {
        let p = ix.files@[ix.symbols@[t].file_id].path@;
        ends_with(p, seq!['.', 's', 'q', 'l']) || ends_with(p, seq!['.', 'p', 'r', 'i', 's', 'm', 'a'])
    }
}

/// Symbol `t` is the schema symbol named `n` with the smallest identifier.
pub open spec fn schema_table(ix: WorkspaceIndex, n: Seq<char>, t: SymbolId) -> bool {
    &&& in_schema_file(ix, t)
    &&& ix.symbols@[t].name@ == n
    &&& forall|x: SymbolId| #[trigger] in_schema_file(ix, x) && ix.symbols@[x].name@ == n ==> t <= x
}

/// A string literal of a file whose module scope is `k`, stripped of its
/// quotes, has as a word the name of schema table `t`.
pub open spec fn table_use(ix: WorkspaceIndex, k: SymbolId, t: SymbolId) -> bool {
    exists|f: FileId, j: int|
        #![trigger module_symbol(ix.symbols@, f, k), ix.raw_literals@[f]@[j]]
        module_symbol(ix.symbols@, f, k) && ix.raw_literals@.contains_key(f) && 0 <= j < ix.raw_literals@[f]@.len()
            && schema_table(ix, ix.symbols@[t].name@, t) && is_word_of(
            trim_quotes(ix.raw_literals@[f]@[j]@),
            ix.symbols@[t].name@,
        )
}

/// Whether `w` is a word of `s` at position `i`.
fn is_word_at_exec(s: &Vec<char>, w: &Vec<char>, i: usize) -> (r: bool)
    ensures
        r == is_word_at(s@, w@, i as int),
{
    if !occurs_at_exec(s, w, i) {
        return false;
    }
    let mut k: usize = 0;
    while k < w.len()
        invariant
            0 <= k <= w@.len(),
            occurs_at(s@, w@, i as int),
            forall|q: int| 0 <= q < k ==> word_char(#[trigger] w@[q]),
        decreases w@.len() - k,
    {
        if !(is_alphanumeric(w[k]) || w[k] == '_') {
            return false;
        }
        k = k + 1;
    }
    let before = i == 0 || !(is_alphanumeric(s[i - 1]) || s[i - 1] == '_');
    let sl = s.len();
    proof {
        assert(i + w@.len() <= sl);
    }
    let end = i + w.len();
    let after = end == sl || !(is_alphanumeric(s[end]) || s[end] == '_');
    before && after
}

/// Whether `w` is a word of `s`.
fn is_word_of_exec(s: &Vec<char>, w: &Vec<char>) -> (r: bool)
    ensures
        r == is_word_of(s@, w@),
{
    if w.len() > s.len() {
        proof {
            assert forall|i: int| !#[trigger] is_word_at(s@, w@, i) by {}
        }
        return false;
    }
    let last = s.len() - w.len();
    let mut i: usize = 0;
    loop
        invariant
            0 <= i <= last,
            last == s@.len() - w@.len(),
            forall|q: int| 0 <= q < i ==> !#[trigger] is_word_at(s@, w@, q),
        decreases last - i,
    {
        if is_word_at_exec(s, w, i) {
            return true;
        }
        if i == last {
            proof {
                assert forall|q: int| !#[trigger] is_word_at(s@, w@, q) by {
                    if is_word_at(s@, w@, q) {
                        assert(0 <= q <= last);
                    }
                }
            }
            return false;
        }
        i = i + 1;
    }
}

/// The list holds table name `n` with symbol `t`.
pub open spec fn has_table(v: Seq<(String, SymbolId)>, n: Seq<char>, t: SymbolId) -> bool {
    exists|q: int| 0 <= q < v.len() && (#[trigger] v[q]).0@ == n && v[q].1 == t
}

/// Whether symbol `t` lies in a schema file.
fn in_schema_file_exec(ix: &WorkspaceIndex, t: SymbolId) -> (r: bool)
    ensures
        r == in_schema_file(*ix, t),
{
    proof {
        reveal_strlit(".sql");
        reveal_strlit(".prisma");
        assert(".sql"@ =~= seq!['.', 's', 'q', 'l']);
        assert(".prisma"@ =~= seq!['.', 'p', 'r', 'i', 's', 'm', 'a']);
    }
    match ix.symbols.get(&t) {
        Some(sym) => match ix.files.get(&sym.file_id) {
            Some(file) => str_ends_with(file.path.as_str(), ".sql") || str_ends_with(file.path.as_str(), ".prisma"),
            None => false,
        },
        None => false,
    }
}

/// Whether the list holds table name `n`.
fn holds_name(v: &Vec<(String, SymbolId)>, n: &str) -> (r: bool)
    ensures
        r == exists|t: SymbolId| has_table(v@, n@, t),
{
    let mut q: usize = 0;
    while q < v.len()
        invariant
            0 <= q <= v@.len(),
            forall|p: int| 0 <= p < q ==> (#[trigger] v@[p]).0@ != n@,
        decreases v@.len() - q,
    {
        if str_eq(v[q].0.as_str(), n) {
            proof {
                assert(has_table(v@, n@, v@[q as int].1));
            }
            return true;
        }
        q = q + 1;
    }
    false
}

/// Symbol `t` is the first schema symbol named `n` among `pre`.
pub open spec fn first_named(ix: WorkspaceIndex, pre: Seq<SymbolId>, n: Seq<char>, t: SymbolId) -> bool {
    &&& in_schema_file(ix, t)
    &&& ix.symbols@[t].name@ == n
    &&& pre.contains(t)
    &&& forall|x: SymbolId| #[trigger] in_schema_file(ix, x) && ix.symbols@[x].name@ == n && pre.contains(x) ==> t <= x
}

/// The list names, for each name of a schema symbol among `pre`, the first
/// schema symbol of that name.
pub open spec fn tables_inv(ix: WorkspaceIndex, pre: Seq<SymbolId>, v: Seq<(String, SymbolId)>) -> bool {
    &&& forall|n: Seq<char>, t: SymbolId| #[trigger] has_table(v, n, t) <==> first_named(ix, pre, n, t)
    &&& forall|x: SymbolId| #[trigger] in_schema_file(ix, x) && pre.contains(x) ==> exists|u: SymbolId|
        has_table(v, ix.symbols@[x].name@, u)
}

/// One more symbol, larger than those before, in [`tables_inv`].
proof fn lemma_tables_step(
    ix: WorkspaceIndex,
    pre: Seq<SymbolId>,
    t: SymbolId,
    before: Seq<(String, SymbolId)>,
    after: Seq<(String, SymbolId)>,
)
    requires
        tables_inv(ix, pre, before),
        forall|x: SymbolId| #[trigger] pre.contains(x) ==> x < t,
        after == if in_schema_file(ix, t) && !(exists|u: SymbolId| has_table(before, ix.symbols@[t].name@, u)) {
            before.push((ix.symbols@[t].name, t))
        } else {
            before
        },
    ensures
        tables_inv(ix, pre.push(t), after),
{
    let nt = ix.symbols@[t].name@;
    let post = pre.push(t);
    crate::lemmas::lemma_push_contains(pre, t);
    let present = exists|u: SymbolId| has_table(before, nt, u);
    assert forall|n: Seq<char>, u: SymbolId| #[trigger] has_table(after, n, u) <==> has_table(before, n, u) || (
    in_schema_file(ix, t) && !present && n == nt && u == t) by {
        if in_schema_file(ix, t) && !present {
            if has_table(after, n, u) {
                let q = choose|q: int| 0 <= q < after.len() && (#[trigger] after[q]).0@ == n && after[q].1 == u;
                if q < before.len() {
                    assert(before[q] == after[q]);
                }
            }
            if has_table(before, n, u) {
                let q = choose|q: int| 0 <= q < before.len() && (#[trigger] before[q]).0@ == n && before[q].1 == u;
                assert(after[q] == before[q]);
            }
            if n == nt && u == t {
                assert(after[before.len() as int].0@ == nt);
            }
        }
    }
    if in_schema_file(ix, t) && !present {
        assert forall|x: SymbolId| in_schema_file(ix, x) && ix.symbols@[x].name@ == nt implies !pre.contains(x) by {
            if pre.contains(x) {
                assert(exists|u: SymbolId| has_table(before, ix.symbols@[x].name@, u));
            }
        }
    }
    assert forall|n: Seq<char>, u: SymbolId| #[trigger] has_table(after, n, u) <==> first_named(ix, post, n, u) by {
        if in_schema_file(ix, t) && present && n == nt && u == t {
            let w = choose|w: SymbolId| has_table(before, nt, w);
            assert(pre.contains(w));
            assert(in_schema_file(ix, w) && ix.symbols@[w].name@ == n && post.contains(w));
        }
        if first_named(ix, post, n, u) && u != t {
            assert(pre.contains(u));
            assert(first_named(ix, pre, n, u));
        }
        if has_table(before, n, u) {
            assert(first_named(ix, pre, n, u));
            if in_schema_file(ix, t) && ix.symbols@[t].name@ == n {
                assert(pre.contains(u));
                assert(u < t);
            }
        }
    }
    assert forall|x: SymbolId| #[trigger] in_schema_file(ix, x) && post.contains(x) implies exists|u: SymbolId|
        has_table(after, ix.symbols@[x].name@, u) by {
        if x == t {
            if present {
                let w = choose|w: SymbolId| has_table(before, nt, w);
                assert(has_table(after, nt, w));
            } else {
                assert(has_table(after, nt, t));
            }
        } else {
            assert(pre.contains(x));
            let w = choose|w: SymbolId| has_table(before, ix.symbols@[x].name@, w);
            assert(has_table(after, ix.symbols@[x].name@, w));
        }
    }
}

/// Each schema table name with the schema symbol of that name with the
/// smallest identifier.
fn schema_tables(ix: &WorkspaceIndex) -> (r: Vec<(String, SymbolId)>)
    ensures
        forall|n: Seq<char>, t: SymbolId| #[trigger] has_table(r@, n, t) <==> schema_table(*ix, n, t),
{
    let ids = sorted_ids(&keys_of(&ix.symbols));
    let mut out: Vec<(String, SymbolId)> = Vec::new();
    let mut i: usize = 0;
    proof {
        assert(ids@.take(0) =~= Seq::<SymbolId>::empty());
    }
    while i < ids.len()
        invariant
            0 <= i <= ids@.len(),
            increasing(ids@),
            ids@.to_set() == ix.symbols@.dom(),
            tables_inv(*ix, ids@.take(i as int), out@),
        decreases ids@.len() - i,
    {
        let t = ids[i];
        let ghost before = out@;
        if in_schema_file_exec(ix, t) {
            let sym = ix.symbols.get(&t).unwrap();
            if !holds_name(&out, sym.name.as_str()) {
                out.push((sym.name.clone(), t));
            }
        }
        proof {
            assert(ids@.take(i + 1) =~= ids@.take(i as int).push(t));
            assert forall|x: SymbolId| #[trigger] ids@.take(i as int).contains(x) implies x < t by {
                let q = choose|q: int| 0 <= q < i && ids@.take(i as int)[q] == x;
                assert(ids@[q] == x);
            }
            lemma_tables_step(*ix, ids@.take(i as int), t, before, out@);
        }
        i = i + 1;
    }
    proof {
        assert(ids@.take(ids@.len() as int) =~= ids@);
        assert forall|n: Seq<char>, t: SymbolId| #[trigger] has_table(out@, n, t) <==> schema_table(*ix, n, t) by {
            if schema_table(*ix, n, t) {
                assert(ids@.to_set().contains(t));
                assert forall|x: SymbolId| #[trigger] in_schema_file(*ix, x) && ix.symbols@[x].name@ == n && ids@.contains(x) implies t <= x by {}
            }
            if has_table(out@, n, t) {
                assert forall|x: SymbolId| #[trigger] in_schema_file(*ix, x) && ix.symbols@[x].name@ == n implies t <= x by {
                    assert(ids@.to_set().contains(x));
                }
            }
        }
    }
    out
}

/// A string literal of file `f`, stripped of its quotes, has as a word the
/// name of schema table `t`.
pub open spec fn literal_names_table(ix: WorkspaceIndex, f: FileId, t: SymbolId) -> bool {
    ix.raw_literals@.contains_key(f) && exists|j: int|
        0 <= j < ix.raw_literals@[f]@.len() && schema_table(ix, ix.symbols@[t].name@, t) && is_word_of(
            trim_quotes(#[trigger] ix.raw_literals@[f]@[j]@),
            ix.symbols@[t].name@,
        )
}

/// The tables of the list whose names are words of `s`.
fn tables_in(ix: &WorkspaceIndex, tables: &Vec<(String, SymbolId)>, s: &Vec<char>) -> (r: Vec<SymbolId>)
    requires
        forall|n: Seq<char>, t: SymbolId| #[trigger] has_table(tables@, n, t) <==> schema_table(*ix, n, t),
    ensures
        forall|t: SymbolId| #[trigger] r@.contains(t) <==> schema_table(*ix, ix.symbols@[t].name@, t) && is_word_of(
            s@,
            ix.symbols@[t].name@,
        ),
{
    let mut out: Vec<SymbolId> = Vec::new();
    let mut q: usize = 0;
    while q < tables.len()
        invariant
            0 <= q <= tables@.len(),
            forall|n: Seq<char>, t: SymbolId| #[trigger] has_table(tables@, n, t) <==> schema_table(*ix, n, t),
            forall|t: SymbolId| #[trigger] out@.contains(t) <==> exists|p: int|
                0 <= p < q && (#[trigger] tables@[p]).1 == t && is_word_of(s@, tables@[p].0@),
        decreases tables@.len() - q,
    {
        let name = chars_of(tables[q].0.as_str());
        let ghost before = out@;
        if is_word_of_exec(s, &name) {
            out.push(tables[q].1);
            proof {
                crate::lemmas::lemma_push_contains(before, tables@[q as int].1);
            }
        }
        proof {
            assert forall|t: SymbolId| #[trigger] out@.contains(t) <==> exists|p: int|
                0 <= p < q + 1 && (#[trigger] tables@[p]).1 == t && is_word_of(s@, tables@[p].0@) by {
                if tables@[q as int].1 == t && is_word_of(s@, tables@[q as int].0@) {
                    assert(0 <= q < q + 1);
                }
            }
        }
        q = q + 1;
    }
    proof {
        assert forall|t: SymbolId| #[trigger] out@.contains(t) <==> schema_table(*ix, ix.symbols@[t].name@, t) && is_word_of(
            s@,
            ix.symbols@[t].name@,
        ) by {
            if out@.contains(t) {
                let p = choose|p: int| 0 <= p < tables@.len() && (#[trigger] tables@[p]).1 == t && is_word_of(s@, tables@[p].0@);
                assert(has_table(tables@, tables@[p].0@, t));
            }
            if schema_table(*ix, ix.symbols@[t].name@, t) && is_word_of(s@, ix.symbols@[t].name@) {
                assert(has_table(tables@, ix.symbols@[t].name@, t));
                let p = choose|p: int| 0 <= p < tables@.len() && (#[trigger] tables@[p]).0@ == ix.symbols@[t].name@ && tables@[p].1 == t;
            }
        }
    }
    out
}

/// The tables that a literal of file `f` names.
fn file_tables(ix: &WorkspaceIndex, tables: &Vec<(String, SymbolId)>, f: FileId) -> (r: Vec<SymbolId>)
    requires
        forall|n: Seq<char>, t: SymbolId| #[trigger] has_table(tables@, n, t) <==> schema_table(*ix, n, t),
    ensures
        forall|t: SymbolId| #[trigger] r@.contains(t) <==> literal_names_table(*ix, f, t),
{
    let mut out: Vec<SymbolId> = Vec::new();
    match ix.raw_literals.get(&f) {
        Some(lits) => {
            let mut j: usize = 0;
            while j < lits.len()
                invariant
                    0 <= j <= lits@.len(),
                    ix.raw_literals@.contains_key(f),
                    lits@ == ix.raw_literals@[f]@,
                    forall|n: Seq<char>, t: SymbolId| #[trigger] has_table(tables@, n, t) <==> schema_table(*ix, n, t),
                    forall|t: SymbolId| #[trigger] out@.contains(t) <==> exists|q: int|
                        0 <= q < j && schema_table(*ix, ix.symbols@[t].name@, t) && is_word_of(
                            trim_quotes(#[trigger] lits@[q]@),
                            ix.symbols@[t].name@,
                        ),
                decreases lits@.len() - j,
            {
                let clean = trim_quote_chars(lits[j].as_str());
                let cs = chars_of(clean.as_str());
                let found = tables_in(ix, tables, &cs);
                let ghost before = out@;
                let mut more = found;
                let ghost mv = more@;
                out.append(&mut more);
                proof {
                    crate::lemmas::lemma_concat_contains(before, mv);
                    assert forall|t: SymbolId| #[trigger] out@.contains(t) <==> exists|q: int|
                        0 <= q < j + 1 && schema_table(*ix, ix.symbols@[t].name@, t) && is_word_of(
                            trim_quotes(#[trigger] lits@[q]@),
                            ix.symbols@[t].name@,
                        ) by {
                        if mv.contains(t) {
                            assert(0 <= j < j + 1);
                        }
                    }
                }
                j = j + 1;
            }
        },
        None => {},
    }
    out
}

/// Adds each pair of `pairs` to the lists of `m`.
fn add_pairs(m: &mut std::collections::HashMap<u32, Vec<u32>>, pairs: &Vec<(u32, u32)>)
    ensures
        forall|k: u32| #[trigger] final(m)@.contains_key(k) <==> old(m)@.contains_key(k) || exists|t: u32|
            pairs@.contains((k, t)),
        forall|k: u32, t: u32| #[trigger] lists(final(m)@, k, t) <==> lists(old(m)@, k, t) || pairs@.contains((k, t)),
{
    let ghost m0 = m@;
    let mut i: usize = 0;
    while i < pairs.len()
        invariant
            0 <= i <= pairs@.len(),
            m0 == old(m)@,
            forall|k: u32| #[trigger] m@.contains_key(k) <==> m0.contains_key(k) || exists|t: u32|
                pairs@.take(i as int).contains((k, t)),
            forall|k: u32, t: u32| #[trigger] lists(m@, k, t) <==> lists(m0, k, t) || pairs@.take(i as int).contains((k, t)),
        decreases pairs@.len() - i,
    {
        let (k, t) = pairs[i];
        let ghost mb = m@;
        let ghost p0 = pairs@.take(i as int);
        let ghost p1 = pairs@.take(i + 1);
        proof {
            assert(p1 =~= p0.push((k, t)));
            crate::lemmas::lemma_push_contains(p0, (k, t));
        }
        add_link(m, k, t);
        proof {
            assert forall|x: u32| #[trigger] m@.contains_key(x) <==> m0.contains_key(x) || exists|u: u32| p1.contains((x, u)) by {
                if x == k {
                    assert(p1.contains((k, t)));
                }
                if mb.contains_key(x) && !m0.contains_key(x) {
                    let u = choose|u: u32| p0.contains((x, u));
                    assert(p1.contains((x, u)));
                }
                if exists|u: u32| p1.contains((x, u)) {
                    let u = choose|u: u32| p1.contains((x, u));
                    if !(x == k && u == t) {
                        assert(p0.contains((x, u)));
                        assert(mb.contains_key(x));
                    }
                }
                if m0.contains_key(x) {
                    assert(mb.contains_key(x));
                }
            }
        }
        i = i + 1;
    }
    proof {
        assert(pairs@.take(pairs@.len() as int) =~= pairs@);
    }
}

/// Adds a call from the module scope of each file to each schema table (a
/// symbol of a `.sql` or `.prisma` file, the first of its name) whose name
/// is a word of one of the file's string literals, stripped of its quotes.
pub fn link_tables(ix: &mut WorkspaceIndex)
    ensures
        only_calls_change(*old(ix), *final(ix)),
        gains_links(old(ix).resolved_calls@, final(ix).resolved_calls@, |k: u32, t: u32| table_use(*old(ix), k, t)),
{
    let ghost ix0 = *ix;
    let tables = schema_tables(ix);
    let keys = keys_of(&ix.raw_literals);
    let mut pairs: Vec<(SymbolId, SymbolId)> = Vec::new();
    let mut i: usize = 0;
    while i < keys.len()
        invariant
            0 <= i <= keys@.len(),
            keys@.to_set() == ix.raw_literals@.dom(),
            *ix == ix0,
            forall|n: Seq<char>, t: SymbolId| #[trigger] has_table(tables@, n, t) <==> schema_table(*ix, n, t),
            forall|k: SymbolId, t: SymbolId| #[trigger] pairs@.contains((k, t)) <==> exists|f: FileId|
                keys@.take(i as int).contains(f) && #[trigger] module_symbol(ix.symbols@, f, k) && literal_names_table(*ix, f, t),
        decreases keys@.len() - i,
    {
        let f = keys[i];
        proof {
            assert(keys@.take(i + 1) =~= keys@.take(i as int).push(f));
            crate::lemmas::lemma_push_contains(keys@.take(i as int), f);
        }
        let ghost p0 = pairs@;
        match module_of(ix, f) {
            Some(k) => {
                let ts = file_tables(ix, &tables, f);
                let mut q: usize = 0;
                while q < ts.len()
                    invariant
                        0 <= q <= ts@.len(),
                        forall|a: SymbolId, b: SymbolId| #[trigger] pairs@.contains((a, b)) <==> p0.contains((a, b)) || (a
                            == k && ts@.take(q as int).contains(b)),
                    decreases ts@.len() - q,
                {
                    let ghost before = pairs@;
                    pairs.push((k, ts[q]));
                    proof {
                        assert(ts@.take(q + 1) =~= ts@.take(q as int).push(ts@[q as int]));
                        crate::lemmas::lemma_push_contains(ts@.take(q as int), ts@[q as int]);
                        crate::lemmas::lemma_push_contains(before, (k, ts@[q as int]));
                    }
                    q = q + 1;
                }
                proof {
                    assert(ts@.take(ts@.len() as int) =~= ts@);
                    assert forall|a: SymbolId, b: SymbolId| #[trigger] pairs@.contains((a, b)) <==> exists|g: FileId|
                        keys@.take(i + 1).contains(g) && #[trigger] module_symbol(ix.symbols@, g, a) && literal_names_table(*ix, g, b) by {
                        if exists|g: FileId| keys@.take(i + 1).contains(g) && #[trigger] module_symbol(ix.symbols@, g, a)
                            && literal_names_table(*ix, g, b) {
                            let g = choose|g: FileId| keys@.take(i + 1).contains(g) && #[trigger] module_symbol(ix.symbols@, g, a)
                                && literal_names_table(*ix, g, b);
                            if g == f {
                                crate::indexer::links::lemma_module_symbol_unique(ix.symbols@, f, a, k);
                            }
                        }
                        if a == k && ts@.contains(b) {
                            assert(keys@.take(i + 1).contains(f) && module_symbol(ix.symbols@, f, a));
                        }
                    }
                }
            },
            None => {
                proof {
                    assert forall|a: SymbolId, b: SymbolId| #[trigger] pairs@.contains((a, b)) <==> exists|g: FileId|
                        keys@.take(i + 1).contains(g) && #[trigger] module_symbol(ix.symbols@, g, a) && literal_names_table(*ix, g, b) by {
                        if exists|g: FileId| keys@.take(i + 1).contains(g) && #[trigger] module_symbol(ix.symbols@, g, a)
                            && literal_names_table(*ix, g, b) {
                            let g = choose|g: FileId| keys@.take(i + 1).contains(g) && #[trigger] module_symbol(ix.symbols@, g, a)
                                && literal_names_table(*ix, g, b);
                            if g == f {
                                assert(crate::indexer::links::is_module_of(ix.symbols@, f, a));
                            }
                        }
                    }
                }
            },
        }
        i = i + 1;
    }
    let mut m = ix.resolved_calls.clone();
    add_pairs(&mut m, &pairs);
    ix.resolved_calls = m;
    proof {
        assert(keys@.take(keys@.len() as int) =~= keys@);
        assert forall|k: u32, t: u32| #[trigger] pairs@.contains((k, t)) == table_use(ix0, k, t) by {
            if table_use(ix0, k, t) {
                let (f, j) = choose|f: FileId, j: int| #![trigger module_symbol(ix0.symbols@, f, k), ix0.raw_literals@[f]@[j]]
                    module_symbol(ix0.symbols@, f, k) && ix0.raw_literals@.contains_key(f) && 0 <= j < ix0.raw_literals@[f]@.len()
                        && schema_table(ix0, ix0.symbols@[t].name@, t) && is_word_of(
                        trim_quotes(ix0.raw_literals@[f]@[j]@),
                        ix0.symbols@[t].name@,
                    );
                assert(keys@.to_set().contains(f));
                assert(literal_names_table(ix0, f, t));
            }
            if pairs@.contains((k, t)) {
                let f = choose|f: FileId| keys@.contains(f) && #[trigger] module_symbol(ix0.symbols@, f, k) && literal_names_table(ix0, f, t);
                let j = choose|j: int| 0 <= j < ix0.raw_literals@[f]@.len() && schema_table(ix0, ix0.symbols@[t].name@, t) && is_word_of(
                    trim_quotes(#[trigger] ix0.raw_literals@[f]@[j]@),
                    ix0.symbols@[t].name@,
                );
            }
        }
        let rel = |k: u32, t: u32| table_use(ix0, k, t);
        assert forall|k: u32| #[trigger] ix.resolved_calls@.contains_key(k) <==> ix0.resolved_calls@.contains_key(k)
            || exists|t: u32| #[trigger] rel(k, t) by {
            if exists|t: u32| pairs@.contains((k, t)) {
                let t = choose|t: u32| pairs@.contains((k, t));
                assert(rel(k, t));
            }
            if exists|t: u32| #[trigger] rel(k, t) {
                let t = choose|t: u32| #[trigger] rel(k, t);
                assert(pairs@.contains((k, t)));
            }
        }
        assert(gains_links(ix0.resolved_calls@, ix.resolved_calls@, rel));
    }
}

/// Symbol `c`, a symbol of the index, calls methods on a receiver named
/// like schema table `t`, or ending in `.` and its name.
pub open spec fn receiver_table(ix: WorkspaceIndex, c: SymbolId, t: SymbolId) -> bool {
    ix.symbols@.contains_key(c) && ix.fingerprints@.contains_key(c) && schema_table(ix, ix.symbols@[t].name@, t) && exists|j: int|
        0 <= j < ix.fingerprints@[c]@.len() && ({
            let r = (#[trigger] ix.fingerprints@[c]@[j]).0@;
            r == ix.symbols@[t].name@ || ends_with(r, seq!['.'] + ix.symbols@[t].name@)
        })
}

/// Whether receiver `r` names table `n`.
fn names_table(r: &str, n: &str) -> (b: bool)
    ensures
        b == (r@ == n@ || ends_with(r@, seq!['.'] + n@)),
{
    if str_eq(r, n) {
        return true;
    }
    let mut dotted = vec!['.'];
    let nc = chars_of(n);
    let mut i: usize = 0;
    while i < nc.len()
        invariant
            0 <= i <= nc@.len(),
            dotted@ == seq!['.'] + nc@.take(i as int),
        decreases nc@.len() - i,
    {
        dotted.push(nc[i]);
        proof {
            assert(nc@.take(i + 1) =~= nc@.take(i as int).push(nc@[i as int]));
            assert(dotted@ =~= seq!['.'] + nc@.take(i + 1));
        }
        i = i + 1;
    }
    proof {
        assert(nc@.take(nc@.len() as int) =~= nc@);
    }
    let rc = chars_of(r);
    crate::text::ends_with_exec(&rc, &dotted)
}

/// Adds a call from each symbol that calls methods on a receiver named like
/// a schema table (the table's name, or ending in `.` and it) to that table.
pub fn link_table_receivers(ix: &mut WorkspaceIndex)
    ensures
        only_calls_change(*old(ix), *final(ix)),
        gains_links(old(ix).resolved_calls@, final(ix).resolved_calls@, |k: u32, t: u32| receiver_table(*old(ix), k, t)),
{
    let ghost ix0 = *ix;
    let tables = schema_tables(ix);
    let keys = keys_of(&ix.fingerprints);
    let mut pairs: Vec<(SymbolId, SymbolId)> = Vec::new();
    let mut i: usize = 0;
    while i < keys.len()
        invariant
            0 <= i <= keys@.len(),
            keys@.to_set() == ix.fingerprints@.dom(),
            *ix == ix0,
            forall|n: Seq<char>, t: SymbolId| #[trigger] has_table(tables@, n, t) <==> schema_table(*ix, n, t),
            forall|k: SymbolId, t: SymbolId| #[trigger] pairs@.contains((k, t)) <==> keys@.take(i as int).contains(k)
                && receiver_table(*ix, k, t),
        decreases keys@.len() - i,
    {
        let c = keys[i];
        proof {
            assert(keys@.take(i + 1) =~= keys@.take(i as int).push(c));
            crate::lemmas::lemma_push_contains(keys@.take(i as int), c);
        }
        let ghost p0 = pairs@;
        let fps = if ix.symbols.contains_key(&c) {
            ix.fingerprints.get(&c)
        } else {
            None
        };
        match fps {
            Some(v) => {
                let mut j: usize = 0;
                while j < v.len()
                    invariant
                        0 <= j <= v@.len(),
                        ix.fingerprints@.contains_key(c),
                        ix.symbols@.contains_key(c),
                        v@ == ix.fingerprints@[c]@,
                        forall|n: Seq<char>, t: SymbolId| #[trigger] has_table(tables@, n, t) <==> schema_table(*ix, n, t),
                        forall|k: SymbolId, t: SymbolId| #[trigger] pairs@.contains((k, t)) <==> p0.contains((k, t)) || (k
                            == c && schema_table(*ix, ix.symbols@[t].name@, t) && exists|q: int|
                            0 <= q < j && ({
                                let r = (#[trigger] v@[q]).0@;
                                r == ix.symbols@[t].name@ || ends_with(r, seq!['.'] + ix.symbols@[t].name@)
                            })),
                    decreases v@.len() - j,
                {
                    let ghost pj = pairs@;
                    let mut q: usize = 0;
                    while q < tables.len()
                        invariant
                            0 <= q <= tables@.len(),
                            0 <= j < v@.len(),
                            forall|n: Seq<char>, t: SymbolId| #[trigger] has_table(tables@, n, t) <==> schema_table(*ix, n, t),
                            forall|k: SymbolId, t: SymbolId| #[trigger] pairs@.contains((k, t)) <==> pj.contains((k, t)) || (k
                                == c && exists|p: int|
                                0 <= p < q && (#[trigger] tables@[p]).1 == t && (v@[j as int].0@ == tables@[p].0@ || ends_with(
                                    v@[j as int].0@,
                                    seq!['.'] + tables@[p].0@,
                                ))),
                        decreases tables@.len() - q,
                    {
                        let ghost before = pairs@;
                        if names_table(v[j].0.as_str(), tables[q].0.as_str()) {
                            pairs.push((c, tables[q].1));
                            proof {
                                crate::lemmas::lemma_push_contains(before, (c, tables@[q as int].1));
                            }
                        }
                        proof {
                            assert forall|k: SymbolId, t: SymbolId| #[trigger] pairs@.contains((k, t)) <==> pj.contains((k, t)) || (k
                                == c && exists|p: int|
                                0 <= p < q + 1 && (#[trigger] tables@[p]).1 == t && (v@[j as int].0@ == tables@[p].0@
                                    || ends_with(v@[j as int].0@, seq!['.'] + tables@[p].0@))) by {
                                if k == c && tables@[q as int].1 == t && (v@[j as int].0@ == tables@[q as int].0@ || ends_with(
                                    v@[j as int].0@,
                                    seq!['.'] + tables@[q as int].0@,
                                )) {
                                    assert(0 <= q < q + 1);
                                }
                            }
                        }
                        q = q + 1;
                    }
                    proof {
                        assert forall|k: SymbolId, t: SymbolId| #[trigger] pairs@.contains((k, t)) <==> p0.contains((k, t)) || (k
                            == c && schema_table(*ix, ix.symbols@[t].name@, t) && exists|q: int|
                            0 <= q < j + 1 && ({
                                let r = (#[trigger] v@[q]).0@;
                                r == ix.symbols@[t].name@ || ends_with(r, seq!['.'] + ix.symbols@[t].name@)
                            })) by {
                            let r = v@[j as int].0@;
                            if k == c && exists|p: int| 0 <= p < tables@.len() && (#[trigger] tables@[p]).1 == t && (r == tables@[p].0@
                                || ends_with(r, seq!['.'] + tables@[p].0@)) {
                                let p = choose|p: int| 0 <= p < tables@.len() && (#[trigger] tables@[p]).1 == t && (r == tables@[p].0@
                                    || ends_with(r, seq!['.'] + tables@[p].0@));
                                assert(has_table(tables@, tables@[p].0@, t));
                                assert(0 <= j < j + 1);
                            }
                            if k == c && schema_table(*ix, ix.symbols@[t].name@, t) && (r == ix.symbols@[t].name@ || ends_with(
                                r,
                                seq!['.'] + ix.symbols@[t].name@,
                            )) {
                                assert(has_table(tables@, ix.symbols@[t].name@, t));
                                let p = choose|p: int| 0 <= p < tables@.len() && (#[trigger] tables@[p]).0@ == ix.symbols@[t].name@
                                    && tables@[p].1 == t;
                            }
                        }
                    }
                    j = j + 1;
                }
            },
            None => {},
        }
        proof {
            assert forall|k: SymbolId, t: SymbolId| #[trigger] pairs@.contains((k, t)) <==> keys@.take(i + 1).contains(k)
                && receiver_table(*ix, k, t) by {
                if k == c && receiver_table(*ix, k, t) {
                    let q = choose|q: int| 0 <= q < ix.fingerprints@[c]@.len() && ({
                        let r = (#[trigger] ix.fingerprints@[c]@[q]).0@;
                        r == ix.symbols@[t].name@ || ends_with(r, seq!['.'] + ix.symbols@[t].name@)
                    });
                }
            }
        }
        i = i + 1;
    }
    let mut m = ix.resolved_calls.clone();
    add_pairs(&mut m, &pairs);
    ix.resolved_calls = m;
    proof {
        assert(keys@.take(keys@.len() as int) =~= keys@);
        assert forall|k: u32, t: u32| #[trigger] pairs@.contains((k, t)) == receiver_table(ix0, k, t) by {
            if receiver_table(ix0, k, t) {
                assert(keys@.to_set().contains(k));
            }
        }
        let rel = |k: u32, t: u32| receiver_table(ix0, k, t);
        assert forall|k: u32| #[trigger] ix.resolved_calls@.contains_key(k) <==> ix0.resolved_calls@.contains_key(k)
            || exists|t: u32| #[trigger] rel(k, t) by {
            if exists|t: u32| pairs@.contains((k, t)) {
                let t = choose|t: u32| pairs@.contains((k, t));
                assert(rel(k, t));
            }
            if exists|t: u32| #[trigger] rel(k, t) {
                let t = choose|t: u32| #[trigger] rel(k, t);
                assert(pairs@.contains((k, t)));
            }
        }
        assert(gains_links(ix0.resolved_calls@, ix.resolved_calls@, rel));
    }
}

} // verus!
