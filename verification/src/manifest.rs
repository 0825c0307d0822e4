//! What package manifests declare: the package's name, the external
//! libraries it depends on, and path aliases.
//!
//! JSON and TOML manifests are decoded by the caller into a
//! [`DecodedManifest`]; the line-based formats (`requirements.txt`, R's
//! `DESCRIPTION`) are read here from the text.

use vstd::prelude::*;
use vstd::hash_map::StringHashMap;
use vstd::hash_set::StringHashSet;
use crate::models::strings_view;
use crate::text::{
    trim_ws,
    take_until,
    replace_chars,
    split_on,
    lines_of,
    has_sub,
    first_pos,
    starts_with,
    trim_start_ws,
    lemma_first_pos,
    chars_of,
    string_of,
    string_of_range,
    str_eq,
    trim_whitespace,
    take_until_exec,
    replace_chars_exec,
    split_char,
    split_lines,
    find_exec,
    ws_set,
    trim_bounds,
    starts_with_exec,
    joined_lines,
};

verus! {

/// What a manifest declares.
pub struct ManifestResult {
    /// The name of the package the manifest defines (`@my-org/ui`,
    /// `my-crate`), used to resolve packages of the same workspace.
    pub package_name: Option<String>,
    /// The external libraries the package uses.
    pub externals: StringHashSet,
    /// Path aliases (`@/` to `src/`).
    pub aliases: StringHashMap<String>,
}

/// What the caller decoded from a JSON or TOML manifest: the package name
/// (`name` of package.json, `package.name` of Cargo.toml), the keys of the
/// dependency tables (regular and development dependencies; for
/// pyproject.toml those of `tool.poetry.dependencies`), and the
/// `compilerOptions.paths` of a tsconfig.json.
pub struct DecodedManifest {
    pub package_name: Option<String>,
    pub dependencies: Vec<String>,
    pub paths: Vec<(String, Vec<String>)>,
}

/// The model of what a manifest declares.
pub struct ManifestV {
    pub package_name: Option<Seq<char>>,
    pub externals: Set<Seq<char>>,
    pub aliases: Map<Seq<char>, Seq<char>>,
}

/// The model of an optional string.
pub open spec fn opt_chars(o: Option<String>) -> Option<Seq<char>> {
    match o {
        Some(s) => Some(s@),
        None => None,
    }
}

/// A manifest that declares nothing.
pub open spec fn empty_manifest() -> ManifestV {
    ManifestV { package_name: None, externals: Set::empty(), aliases: Map::empty() }
}

/// The package a line of requirements.txt names: what comes before any
/// version specifier, for a line that is neither blank nor a comment.
pub open spec fn requirement_name(line: Seq<char>) -> Option<Seq<char>> {
    let t = trim_ws(line);
    if t.len() == 0 || t[0] == '#' {
        None
    } else {
        let name = trim_ws(take_until(t, seq!['=', '<', '>']));
        if name.len() == 0 {
            None
        } else {
            Some(name)
        }
    }
}

/// The packages that the lines of requirements.txt name.
pub open spec fn requirement_names(lines: Seq<Seq<char>>) -> Set<Seq<char>>
    decreases lines.len(),
{
    if lines.len() == 0 {
        Set::empty()
    } else {
        let r = requirement_names(lines.drop_last());
        match requirement_name(lines.last()) {
            Some(n) => r.insert(n),
            None => r,
        }
    }
}

/// A package named in a dependency list of a DESCRIPTION file: the part
/// before any version constraint, unless it is empty or `R` itself.
pub open spec fn description_dep(part: Seq<char>) -> Option<Seq<char>> {
    let pkg = trim_ws(take_until(part, seq!['(']));
    if pkg.len() == 0 || pkg == "R"@ {
        None
    } else {
        Some(pkg)
    }
}

/// A package named on a continuation line of a DESCRIPTION field.
pub open spec fn continued_dep(trimmed: Seq<char>) -> Option<Seq<char>> {
    let pkg = trim_ws(replace_chars(take_until(trimmed, seq!['(']), seq![','], Seq::empty()));
    if pkg.len() == 0 || pkg == "R"@ {
        None
    } else {
        Some(pkg)
    }
}

/// The packages named in comma-separated parts.
pub open spec fn listed_deps(parts: Seq<Seq<char>>) -> Set<Seq<char>>
    decreases parts.len(),
{
    if parts.len() == 0 {
        Set::empty()
    } else {
        let r = listed_deps(parts.drop_last());
        match description_dep(parts.last()) {
            Some(n) => r.insert(n),
            None => r,
        }
    }
}

/// A field of a DESCRIPTION file that lists dependencies.
pub open spec fn is_dep_field(key: Seq<char>) -> bool {
    key == "Imports"@ || key == "Depends"@ || key == "Suggests"@ || key == "LinkingTo"@
}

/// The state of reading a DESCRIPTION file: whether the current field lists
/// dependencies, the package's name, and the packages found.
pub struct DescriptionState {
    pub in_deps: bool,
    pub package: Option<Seq<char>>,
    pub externals: Set<Seq<char>>,
}

/// Reading one line of a DESCRIPTION file.
pub open spec fn description_step(st: DescriptionState, line: Seq<char>) -> DescriptionState {
    let t = trim_ws(line);
    if t.len() == 0 {
        st
    } else if line[0] == ' ' || line[0] == '\t' {
        if st.in_deps {
            match continued_dep(t) {
                Some(p) => DescriptionState { externals: st.externals.insert(p), ..st },
                None => st,
            }
        } else {
            st
        }
    } else if has_sub(line, seq![':']) {
        let i = first_pos(line, seq![':']);
        let key = trim_ws(line.take(i));
        let value = line.skip(i + 1);
        if key == "Package"@ {
            DescriptionState { in_deps: false, package: Some(trim_ws(value)), externals: st.externals }
        } else if is_dep_field(key) {
            let d = trim_ws(value);
            DescriptionState {
                in_deps: true,
                package: st.package,
                externals: if d.len() == 0 {
                    st.externals
                } else {
                    st.externals + listed_deps(split_on(d, ','))
                },
            }
        } else {
            DescriptionState { in_deps: false, ..st }
        }
    } else {
        st
    }
}

/// Reading the lines of a DESCRIPTION file.
pub open spec fn description_fold(lines: Seq<Seq<char>>) -> DescriptionState
    decreases lines.len(),
{
    if lines.len() == 0 {
        DescriptionState { in_deps: false, package: None, externals: Set::empty() }
    } else {
        description_step(description_fold(lines.drop_last()), lines.last())
    }
}

/// The aliases of tsconfig paths: each key without `*` to its first target
/// without `*`, where both are left non-empty; a later key wins.
pub open spec fn alias_fold(paths: Seq<(Seq<char>, Seq<Seq<char>>)>) -> Map<Seq<char>, Seq<char>>
    decreases paths.len(),
{
    if paths.len() == 0 {
        Map::empty()
    } else {
        let m = alias_fold(paths.drop_last());
        let (key, targets) = paths.last();
        if targets.len() > 0 {
            let k = replace_chars(key, seq!['*'], Seq::empty());
            let t = replace_chars(targets[0], seq!['*'], Seq::empty());
            if k.len() > 0 && t.len() > 0 {
                m.insert(k, t)
            } else {
                m
            }
        } else {
            m
        }
    }
}

/// The model of decoded tsconfig paths.
pub open spec fn paths_view(v: Seq<(String, Vec<String>)>) -> Seq<(Seq<char>, Seq<Seq<char>>)> {
    v.map_values(|e: (String, Vec<String>)| (e.0@, strings_view(e.1@)))
}

/// What a manifest with this file name declares.
pub open spec fn manifest_of(
    filename: Seq<char>,
    content: Seq<char>,
    decoded: Option<DecodedManifest>,
) -> ManifestV {
    if filename == "package.json"@ || filename == "Cargo.toml"@ {
        match decoded {
            Some(d) => ManifestV {
                package_name: opt_chars(d.package_name),
                externals: strings_view(d.dependencies@).to_set(),
                aliases: Map::empty(),
            },
            None => empty_manifest(),
        }
    } else if filename == "requirements.txt"@ {
        ManifestV {
            package_name: None,
            externals: requirement_names(lines_of(content)),
            aliases: Map::empty(),
        }
    } else if filename == "pyproject.toml"@ {
        match decoded {
            Some(d) => ManifestV {
                package_name: None,
                externals: strings_view(d.dependencies@).to_set(),
                aliases: Map::empty(),
            },
            None => empty_manifest(),
        }
    } else if filename == "tsconfig.json"@ || filename == "jsconfig.json"@ {
        match decoded {
            Some(d) => ManifestV {
                package_name: None,
                externals: Set::empty(),
                aliases: alias_fold(paths_view(d.paths@)),
            },
            None => empty_manifest(),
        }
    } else if filename == "DESCRIPTION"@ {
        let st = description_fold(lines_of(content));
        ManifestV { package_name: st.package, externals: st.externals, aliases: Map::empty() }
    } else {
        empty_manifest()
    }
}

/// The lines of a JSON-with-comments text that are not `//` comments,
/// joined by newlines.
pub open spec fn kept_json_lines(lines: Seq<Seq<char>>) -> Seq<Seq<char>>
    decreases lines.len(),
{
    if lines.len() == 0 {
        Seq::empty()
    } else {
        let r = kept_json_lines(lines.drop_last());
        if starts_with(trim_start_ws(lines.last()), "//"@) {
            r
        } else {
            r.push(lines.last())
        }
    }
}

/// Drops the lines of a tsconfig.json that are `//` comments, so that the
/// rest can be decoded as JSON.
pub fn strip_line_comments(content: &str) -> (r: String)
    ensures
        r@ == joined_lines(kept_json_lines(lines_of(content@))),
{
    let lines = split_lines(content);
    let ghost ls = lines_of(content@);
    let mut out = String::new();
    let mut n: usize = 0;
    let mut i: usize = 0;
    let ws = ws_set();
    let slashes = chars_of("//");
    while i < lines.len()
        invariant
            lines@.map_values(|x: String| x@) == ls,
            ws@ == crate::text::ws_chars(),
            slashes@ == "//"@,
            0 <= i <= lines@.len(),
            out@ == joined_lines(kept_json_lines(ls.take(i as int))),
            n == kept_json_lines(ls.take(i as int)).len(),
            n <= i,
        decreases lines@.len() - i,
    {
        let line = chars_of(lines[i].as_str());
        proof {
            assert(ls.take(i + 1).drop_last() =~= ls.take(i as int));
            assert(ls.take(i + 1).last() == ls[i as int]);
            assert(line@ == ls[i as int]);
        }
        let (a, b) = trim_bounds(&line, &ws);
        let lead = chars_of(string_of_range(&line, a, line.len()).as_str());
        if !starts_with_exec(&lead, &slashes) {
            let ghost parts = kept_json_lines(ls.take(i as int));
            if n > 0 {
                out.append("\n");
            }
            out.append(lines[i].as_str());
            proof {
                reveal_strlit("\n");
                let np = parts.push(ls[i as int]);
                assert(np.drop_last() =~= parts);
                if n == 0 {
                    assert(out@ =~= np[0]);
                } else {
                    assert(out@ =~= joined_lines(parts) + seq!['\n'] + ls[i as int]);
                }
            }
            n = n + 1;
        }
        i = i + 1;
    }
    proof {
        assert(ls.take(lines@.len() as int) =~= ls);
    }
    out
}


/// `r` is what `m` says.
pub open spec fn declares(r: ManifestResult, m: ManifestV) -> bool {
    &&& opt_chars(r.package_name) == m.package_name
    &&& r.externals@ == m.externals
    &&& forall|k: Seq<char>| #[trigger] r.aliases@.contains_key(k) <==> m.aliases.contains_key(k)
    &&& forall|k: Seq<char>| #[trigger] r.aliases@.contains_key(k) ==> r.aliases@[k]@ == m.aliases[k]
}

fn empty_result() -> (r: ManifestResult)
    ensures
        declares(r, empty_manifest()),
{
    ManifestResult { package_name: None, externals: StringHashSet::new(), aliases: StringHashMap::new() }
}

/// The package a line of requirements.txt names.
fn requirement_name_exec(line: &str) -> (r: Option<String>)
    ensures
        opt_chars(r) == requirement_name(line@),
{
    let t = trim_whitespace(line);
    let tv = chars_of(t.as_str());
    if tv.len() == 0 || tv[0] == '#' {
        return None;
    }
    let mut stops: Vec<char> = Vec::new();
    stops.push('=');
    stops.push('<');
    stops.push('>');
    proof {
        assert(stops@ =~= seq!['=', '<', '>']);
    }
    let head = take_until_exec(&tv, &stops);
    let name = trim_whitespace(string_of(&head).as_str());
    let nv = chars_of(name.as_str());
    if nv.len() == 0 {
        None
    } else {
        Some(name)
    }
}

/// A package named in a dependency list of a DESCRIPTION file.
fn description_dep_exec(part: &str) -> (r: Option<String>)
    ensures
        opt_chars(r) == description_dep(part@),
{
    let pv = chars_of(part);
    let mut stops: Vec<char> = Vec::new();
    stops.push('(');
    proof {
        assert(stops@ =~= seq!['(']);
    }
    let head = take_until_exec(&pv, &stops);
    let pkg = trim_whitespace(string_of(&head).as_str());
    let kv = chars_of(pkg.as_str());
    if kv.len() == 0 || str_eq(pkg.as_str(), "R") {
        None
    } else {
        Some(pkg)
    }
}

/// A package named on a continuation line of a DESCRIPTION field.
fn continued_dep_exec(trimmed: &str) -> (r: Option<String>)
    ensures
        opt_chars(r) == continued_dep(trimmed@),
{
    let tv = chars_of(trimmed);
    let mut stops: Vec<char> = Vec::new();
    stops.push('(');
    proof {
        assert(stops@ =~= seq!['(']);
    }
    let head = take_until_exec(&tv, &stops);
    let mut commas: Vec<char> = Vec::new();
    commas.push(',');
    proof {
        assert(commas@ =~= seq![',']);
        reveal_strlit("");
        assert(""@ =~= Seq::<char>::empty());
    }
    let no_commas = replace_chars_exec(string_of(&head).as_str(), &commas, "");
    let pkg = trim_whitespace(no_commas.as_str());
    let kv = chars_of(pkg.as_str());
    if kv.len() == 0 || str_eq(pkg.as_str(), "R") {
        None
    } else {
        Some(pkg)
    }
}

/// Reads a DESCRIPTION file.
fn scan_description(content: &str) -> (r: ManifestResult)
    ensures
        ({
            let st = description_fold(lines_of(content@));
            declares(r, ManifestV { package_name: st.package, externals: st.externals, aliases: Map::empty() })
        }),
{
    let lines = split_lines(content);
    let ghost ls = lines_of(content@);
    let mut result = empty_result();
    let mut in_deps = false;
    let mut i: usize = 0;
    let colon = chars_of(":");
    proof {
        reveal_strlit(":");
        assert(colon@ =~= seq![':']);
    }
    while i < lines.len()
        invariant
            lines@.map_values(|x: String| x@) == ls,
            colon@ == seq![':'],
            0 <= i <= lines@.len(),
            ({
                let st = description_fold(ls.take(i as int));
                &&& in_deps == st.in_deps
                &&& opt_chars(result.package_name) == st.package
                &&& result.externals@ == st.externals
                &&& result.aliases@ == Map::<Seq<char>, String>::empty()
            }),
        decreases lines@.len() - i,
    {
        let line_s = &lines[i];
        let line = chars_of(line_s.as_str());
        proof {
            assert(ls.take(i + 1).drop_last() =~= ls.take(i as int));
            assert(ls.take(i + 1).last() == ls[i as int]);
            assert(line@ == ls[i as int]);
        }
        let trimmed = trim_whitespace(line_s.as_str());
        let tv = chars_of(trimmed.as_str());
        if tv.len() == 0 {
        } else if line[0] == ' ' || line[0] == '\t' {
            if in_deps {
                match continued_dep_exec(trimmed.as_str()) {
                    Some(p) => {
                        result.externals.insert(p);
                    },
                    None => {},
                }
            }
        } else {
            match find_exec(&line, &colon) {
                Some(ci) => {
                    proof {
                        lemma_first_pos(line@, colon@, ci as int);
                    }
                    let key = trim_whitespace(string_of_range(&line, 0, ci).as_str());
                    let value = string_of_range(&line, ci + 1, line.len());
                    proof {
                        assert(line@.subrange(0, ci as int) =~= line@.take(ci as int));
                        assert(line@.subrange(ci + 1, line@.len() as int) =~= line@.skip(ci + 1));
                    }
                    if str_eq(key.as_str(), "Package") {
                        result.package_name = Some(trim_whitespace(value.as_str()));
                        in_deps = false;
                    } else if str_eq(key.as_str(), "Imports") || str_eq(key.as_str(), "Depends")
                        || str_eq(key.as_str(), "Suggests") || str_eq(key.as_str(), "LinkingTo") {
                        in_deps = true;
                        let d = trim_whitespace(value.as_str());
                        let dv = chars_of(d.as_str());
                        if dv.len() > 0 {
                            let parts = split_char(d.as_str(), ',');
                            let ghost ps = split_on(d@, ',');
                            let ghost base = result.externals@;
                            let ghost pkg0 = result.package_name;
                            let mut k: usize = 0;
                            while k < parts.len()
                                invariant
                                    result.package_name == pkg0,
                                    parts@.map_values(|x: String| x@) == ps,
                                    0 <= k <= parts@.len(),
                                    result.externals@ == base + listed_deps(ps.take(k as int)),
                                    result.aliases@ == Map::<Seq<char>, String>::empty(),
                                decreases parts@.len() - k,
                            {
                                proof {
                                    assert(ps.take(k + 1).drop_last() =~= ps.take(k as int));
                                    assert(ps.take(k + 1).last() == ps[k as int]);
                                    assert(parts@[k as int]@ == ps[k as int]);
                                }
                                match description_dep_exec(parts[k].as_str()) {
                                    Some(p) => {
                                        let ghost pv = p@;
                                        result.externals.insert(p);
                                        proof {
                                            assert(result.externals@ =~= base + listed_deps(
                                                ps.take(k + 1),
                                            ));
                                        }
                                    },
                                    None => {},
                                }
                                k = k + 1;
                            }
                            proof {
                                assert(ps.take(parts@.len() as int) =~= ps);
                            }
                        }
                    } else {
                        in_deps = false;
                    }
                },
                None => {},
            }
        }
        i = i + 1;
    }
    proof {
        assert(ls.take(lines@.len() as int) =~= ls);
    }
    result
}

/// Reads requirements.txt.
fn scan_requirements(content: &str) -> (r: ManifestResult)
    ensures
        declares(
            r,
            ManifestV {
                package_name: None,
                externals: requirement_names(lines_of(content@)),
                aliases: Map::empty(),
            },
        ),
{
    let lines = split_lines(content);
    let ghost ls = lines_of(content@);
    let mut result = empty_result();
    let mut i: usize = 0;
    while i < lines.len()
        invariant
            lines@.map_values(|x: String| x@) == ls,
            0 <= i <= lines@.len(),
            result.package_name is None,
            result.externals@ == requirement_names(ls.take(i as int)),
            result.aliases@ == Map::<Seq<char>, String>::empty(),
        decreases lines@.len() - i,
    {
        proof {
            assert(ls.take(i + 1).drop_last() =~= ls.take(i as int));
            assert(ls.take(i + 1).last() == ls[i as int]);
            assert(lines@[i as int]@ == ls[i as int]);
        }
        match requirement_name_exec(lines[i].as_str()) {
            Some(n) => {
                result.externals.insert(n);
            },
            None => {},
        }
        i = i + 1;
    }
    proof {
        assert(ls.take(lines@.len() as int) =~= ls);
    }
    result
}

/// The dependencies and name of a decoded manifest.
fn from_decoded(d: &DecodedManifest, with_name: bool) -> (r: ManifestResult)
    ensures
        declares(
            r,
            ManifestV {
                package_name: if with_name {
                    opt_chars(d.package_name)
                } else {
                    None
                },
                externals: strings_view(d.dependencies@).to_set(),
                aliases: Map::empty(),
            },
        ),
{
    let mut result = empty_result();
    if with_name {
        result.package_name = d.package_name.clone();
        proof {
            assert(opt_chars(result.package_name) == opt_chars(d.package_name));
        }
    }
    let ghost deps = strings_view(d.dependencies@);
    let mut i: usize = 0;
    while i < d.dependencies.len()
        invariant
            deps == strings_view(d.dependencies@),
            0 <= i <= d.dependencies@.len(),
            with_name ==> opt_chars(result.package_name) == opt_chars(d.package_name),
            !with_name ==> result.package_name is None,
            result.externals@ == deps.take(i as int).to_set(),
            result.aliases@ == Map::<Seq<char>, String>::empty(),
        decreases d.dependencies@.len() - i,
    {
        let dep = d.dependencies[i].clone();
        proof {
            assert(deps.take(i + 1) =~= deps.take(i as int).push(dep@));
            crate::lemmas::lemma_push_to_set(deps.take(i as int), dep@);
        }
        result.externals.insert(dep);
        i = i + 1;
    }
    proof {
        assert(deps.take(d.dependencies@.len() as int) =~= deps);
    }
    result
}

/// Reads the path aliases of a decoded tsconfig.json.
fn aliases_from_paths(d: &DecodedManifest) -> (r: ManifestResult)
    ensures
        declares(
            r,
            ManifestV {
                package_name: None,
                externals: Set::empty(),
                aliases: alias_fold(paths_view(d.paths@)),
            },
        ),
{
    let mut result = empty_result();
    let ghost pv = paths_view(d.paths@);
    let mut star: Vec<char> = Vec::new();
    star.push('*');
    proof {
        assert(star@ =~= seq!['*']);
        reveal_strlit("");
        assert(""@ =~= Seq::<char>::empty());
    }
    let mut i: usize = 0;
    while i < d.paths.len()
        invariant
            pv == paths_view(d.paths@),
            star@ == seq!['*'],
            ""@ == Seq::<char>::empty(),
            0 <= i <= d.paths@.len(),
            result.package_name is None,
            result.externals@ == Set::<Seq<char>>::empty(),
            forall|k: Seq<char>| #[trigger]
                result.aliases@.contains_key(k) <==> alias_fold(pv.take(i as int)).contains_key(k),
            forall|k: Seq<char>| #[trigger]
                result.aliases@.contains_key(k) ==> result.aliases@[k]@ == alias_fold(
                    pv.take(i as int),
                )[k],
        decreases d.paths@.len() - i,
    {
        let entry = &d.paths[i];
        proof {
            assert(pv.take(i + 1).drop_last() =~= pv.take(i as int));
            assert(pv.take(i + 1).last() == pv[i as int]);
            assert(pv[i as int] == (entry.0@, strings_view(entry.1@)));
        }
        if entry.1.len() > 0 {
            let k = replace_chars_exec(entry.0.as_str(), &star, "");
            let t = replace_chars_exec(entry.1[0].as_str(), &star, "");
            proof {
                assert(strings_view(entry.1@)[0] == entry.1@[0]@);
            }
            let kv = chars_of(k.as_str());
            let tv = chars_of(t.as_str());
            if kv.len() > 0 && tv.len() > 0 {
                result.aliases.insert(k, t);
            }
        }
        i = i + 1;
    }
    proof {
        assert(pv.take(d.paths@.len() as int) =~= pv);
    }
    result
}

/// What a manifest declares, by its file name: the name and dependencies of
/// a package.json or Cargo.toml, the dependencies of a pyproject.toml, the
/// path aliases of a tsconfig.json or jsconfig.json (all from `decoded`,
/// which is `None` where the file could not be decoded), the packages named
/// in requirements.txt, or the name and dependencies of an R DESCRIPTION
/// file (both read from `content`). Any other file declares nothing.
pub fn scan_manifest_content(filename: &str, content: &str, decoded: Option<&DecodedManifest>) -> (r:
    ManifestResult)
    ensures
        declares(
            r,
            manifest_of(
                filename@,
                content@,
                match decoded {
                    Some(d) => Some(*d),
                    None => None,
                },
            ),
        ),
{
    if str_eq(filename, "package.json") || str_eq(filename, "Cargo.toml") {
        match decoded {
            Some(d) => from_decoded(d, true),
            None => empty_result(),
        }
    } else if str_eq(filename, "requirements.txt") {
        scan_requirements(content)
    } else if str_eq(filename, "pyproject.toml") {
        match decoded {
            Some(d) => from_decoded(d, false),
            None => empty_result(),
        }
    } else if str_eq(filename, "tsconfig.json") || str_eq(filename, "jsconfig.json") {
        match decoded {
            Some(d) => aliases_from_paths(d),
            None => empty_result(),
        }
    } else if str_eq(filename, "DESCRIPTION") {
        scan_description(content)
    } else {
        empty_result()
    }
}
/// An ASCII letter.
pub open spec fn ascii_letter(c: char) -> bool {
    ('a' <= c && c <= 'z') || ('A' <= c && c <= 'Z')
}

/// A non-empty word of ASCII letters.
pub open spec fn plain_word(k: Seq<char>) -> bool {
    k.len() > 0 && forall|i: int| 0 <= i < k.len() ==> ascii_letter(#[trigger] k[i])
}

proof fn lemma_letter_not_ws(c: char)
    requires
        ascii_letter(c),
    ensures
        !crate::text::ws_chars().contains(c),
{
    let w = crate::text::ws_chars();
    assert forall|i: int| 0 <= i < w.len() implies #[trigger] w[i] != c by {
        assert(w.len() == 25);
        assert((w[i] as u32) <= 32 || (w[i] as u32) >= 0x85) by {
            assert(w[0] == '\t');
            assert(w[1] == '\n');
            assert(w[2] == '\u{0B}');
            assert(w[3] == '\u{0C}');
            assert(w[4] == '\r');
            assert(w[5] == ' ');
            assert(w[6] == '\u{85}');
            assert(w[7] == '\u{A0}');
            assert(w[8] == '\u{1680}');
            assert(w[9] == '\u{2000}');
            assert(w[10] == '\u{2001}');
            assert(w[11] == '\u{2002}');
            assert(w[12] == '\u{2003}');
            assert(w[13] == '\u{2004}');
            assert(w[14] == '\u{2005}');
            assert(w[15] == '\u{2006}');
            assert(w[16] == '\u{2007}');
            assert(w[17] == '\u{2008}');
            assert(w[18] == '\u{2009}');
            assert(w[19] == '\u{200A}');
            assert(w[20] == '\u{2028}');
            assert(w[21] == '\u{2029}');
            assert(w[22] == '\u{202F}');
            assert(w[23] == '\u{205F}');
            assert(w[24] == '\u{3000}');
        }
    }
}

/// Trimming whitespace leaves a plain word as it is.
proof fn lemma_trim_word(k: Seq<char>)
    requires
        plain_word(k),
    ensures
        trim_ws(k) == k,
{
    lemma_letter_not_ws(k[0]);
    lemma_letter_not_ws(k.last());
    assert(crate::text::trim_start_set(k, crate::text::ws_chars()) == k);
    assert(crate::text::trim_end_set(k, crate::text::ws_chars()) == k);
}

/// Trimming the end of a sequence whose first character is not trimmed
/// leaves it non-empty.
proof fn lemma_trim_end_keeps_first(s: Seq<char>, set: Seq<char>)
    requires
        s.len() > 0,
        !set.contains(s[0]),
    ensures
        crate::text::trim_end_set(s, set).len() > 0,
    decreases s.len(),
{
    if s.len() > 1 && set.contains(s.last()) {
        assert(s.drop_last()[0] == s[0]);
        lemma_trim_end_keeps_first(s.drop_last(), set);
    }
}

/// Reading a line `key:value` whose key is a plain word: the key decides as
/// the field's name, and the value is what follows the colon.
proof fn lemma_field_line(st: DescriptionState, key: Seq<char>, value: Seq<char>)
    requires
        plain_word(key),
    ensures
        ({
            let line = key + seq![':'] + value;
            description_step(st, line) == if key == "Package"@ {
                DescriptionState { in_deps: false, package: Some(trim_ws(value)), externals: st.externals }
            } else if is_dep_field(key) {
                let d = trim_ws(value);
                DescriptionState {
                    in_deps: true,
                    package: st.package,
                    externals: if d.len() == 0 {
                        st.externals
                    } else {
                        st.externals + listed_deps(split_on(d, ','))
                    },
                }
            } else {
                DescriptionState { in_deps: false, ..st }
            }
        }),
{
    let line = key + seq![':'] + value;
    let n = key.len() as int;
    let ws = crate::text::ws_chars();
    assert(line[0] == key[0]);
    lemma_letter_not_ws(key[0]);
    assert(crate::text::trim_start_set(line, ws) == line);
    lemma_trim_end_keeps_first(line, ws);
    assert(trim_ws(line).len() > 0);
    assert(line[0] != ' ' && line[0] != '\t');
    assert(line.subrange(n, n + 1) =~= seq![':']);
    assert(crate::text::occurs_at(line, seq![':'], n));
    assert forall|j: int| 0 <= j < n implies !crate::text::occurs_at(line, seq![':'], j) by {
        assert(line[j] == key[j]);
        assert(line.subrange(j, j + 1)[0] == line[j]);
    }
    assert(crate::text::is_first_occurrence(line, seq![':'], n));
    lemma_first_pos(line, seq![':'], n);
    assert(has_sub(line, seq![':']));
    assert(line.take(n) =~= key);
    assert(line.skip(n + 1) =~= value);
    lemma_trim_word(key);
}

/// A `LinkingTo` field lists dependencies as `Imports` does: reading a line
/// `LinkingTo:<value>` has the effect of reading `Imports:<value>`, so its
/// packages join the externals and its continuation lines are read as
/// dependencies too.
pub proof fn law_linking_to_lists_dependencies(st: DescriptionState, value: Seq<char>)
    ensures
        description_step(st, "LinkingTo"@ + seq![':'] + value) == description_step(st, "Imports"@ + seq![':'] + value),
        description_step(st, "LinkingTo"@ + seq![':'] + value).in_deps,
{
    reveal_strlit("LinkingTo");
    reveal_strlit("Imports");
    reveal_strlit("Package");
    assert(plain_word("LinkingTo"@));
    assert(plain_word("Imports"@));
    lemma_field_line(st, "LinkingTo"@, value);
    lemma_field_line(st, "Imports"@, value);
    assert("LinkingTo"@ != "Package"@);
    assert("Imports"@[0] != "Package"@[0]);
    assert("Imports"@ != "Package"@);
}

/// Every dependency field (`Imports`, `Depends`, `Suggests`, `LinkingTo`)
/// adds the packages that its value lists to the externals.
pub proof fn law_dependency_fields_add_packages(st: DescriptionState, key: Seq<char>, value: Seq<char>)
    requires
        key == "Imports"@ || key == "Depends"@ || key == "Suggests"@ || key == "LinkingTo"@,
        trim_ws(value).len() > 0,
    ensures
        description_step(st, key + seq![':'] + value).externals == st.externals + listed_deps(
            split_on(trim_ws(value), ','),
        ),
        description_step(st, key + seq![':'] + value).package == st.package,
{
    reveal_strlit("LinkingTo");
    reveal_strlit("Imports");
    reveal_strlit("Depends");
    reveal_strlit("Suggests");
    reveal_strlit("Package");
    assert(plain_word(key));
    lemma_field_line(st, key, value);
    assert(key != "Package"@) by {
        if key == "Imports"@ {
            assert(key[0] != "Package"@[0]);
        }
        if key == "Depends"@ {
            assert(key[0] != "Package"@[0]);
        }
    }
}
} // verus!
