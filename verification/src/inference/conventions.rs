//! Definitions inferred from path conventions of web frameworks.

use vstd::prelude::*;
use crate::inference::InferenceRule;
use crate::inference::routes::{normalized, app_api_route, route_def, app_api_route_exec};
use crate::models::{FileBoundary, strings_view};
use crate::text::{
    has_sub,
    first_pos,
    last_pos,
    ends_with,
    trim_suffix_all,
    occurs_at,
    lemma_first_pos,
    lemma_last_pos,
    chars_of,
    string_of_range,
    string_of,
    find_exec,
    rfind_exec,
    ends_with_exec,
    replace_chars_exec,
};

verus! {

/// A path convention that implies a definition.
#[derive(Debug, Clone, Copy, PartialEq, Eq, Structural)]
pub enum Convention {
    /// `pages/api/user.ts` serves `route:/api/user`.
    NextJsPagesRouter,
    /// `app/api/auth/route.ts` serves `route:/api/auth`.
    NextJsAppRouter,
    /// `app/controllers/users_controller.rb` serves `controller:users`.
    RailsController,
}

/// The route of a pages-router file under the conventions engine: what
/// follows `/pages` up to the last dot, without any trailing `/index`, and
/// `/` where nothing is left.
pub open spec fn pages_convention_route(p: Seq<char>) -> Option<Seq<char>> {
    if has_sub(p, "/pages/api/"@) {
        let rel = p.skip(first_pos(p, "/pages/api/"@) + 6);
        if has_sub(rel, seq!['.']) {
            let route = rel.take(last_pos(rel, seq!['.']));
            let trimmed = if ends_with(route, "/index"@) {
                trim_suffix_all(route, "/index"@)
            } else {
                route
            };
            Some(
                if trimmed.len() == 0 {
                    seq!['/']
                } else {
                    trimmed
                },
            )
        } else {
            None
        }
    } else {
        None
    }
}

/// The controller named by a Rails controller file
/// (`app/controllers/<name>_controller.rb`): the last path component without
/// its `_controller.rb` suffix, where that leaves something.
pub open spec fn rails_controller_name(p: Seq<char>) -> Option<Seq<char>> {
    if has_sub(p, "app/controllers/"@) && ends_with(p, "_controller.rb"@) {
        let stem = p.take(p.len() - 14);
        let name = if has_sub(stem, seq!['/']) {
            stem.skip(last_pos(stem, seq!['/']) + 1)
        } else {
            stem
        };
        if name.len() > 0 {
            Some(name)
        } else {
            None
        }
    } else {
        None
    }
}

/// `controller:` followed by the controller's name, if there is one.
pub open spec fn controller_def(n: Option<Seq<char>>) -> Seq<Seq<char>> {
    match n {
        Some(name) => seq!["controller:"@ + name],
        None => Seq::empty(),
    }
}

/// The definitions that a convention infers from a normalized path.
pub open spec fn convention_defs(c: Convention, p: Seq<char>) -> Seq<Seq<char>> {
    match c {
        Convention::NextJsPagesRouter => route_def(pages_convention_route(p)),
        Convention::NextJsAppRouter => route_def(app_api_route(p)),
        Convention::RailsController => controller_def(rails_controller_name(p)),
    }
}

/// The definitions of the conventions `cs`, in order, for a normalized path.
pub open spec fn conventions_defs(cs: Seq<Convention>, p: Seq<char>) -> Seq<Seq<char>>
    decreases cs.len(),
{
    if cs.len() == 0 {
        Seq::empty()
    } else {
        conventions_defs(cs.drop_last(), p) + convention_defs(cs.last(), p)
    }
}

fn trim_index_suffixes(route: Vec<char>) -> (r: Vec<char>)
    ensures
        r@ == trim_suffix_all(route@, "/index"@),
{
    let index = chars_of("/index");
    proof {
        reveal_strlit("/index");
    }
    let mut cur = route;
    while ends_with_exec(&cur, &index)
        invariant
            index@ == "/index"@,
            index@.len() == 6,
            trim_suffix_all(cur@, "/index"@) == trim_suffix_all(route@, "/index"@),
        decreases cur@.len(),
    {
        let next = chars_of(string_of_range(&cur, 0, cur.len() - 6).as_str());
        proof {
            assert(next@ =~= cur@.take(cur@.len() - 6));
        }
        cur = next;
    }
    cur
}

/// The pages-router route of a normalized path under the conventions engine.
pub fn pages_convention_route_exec(p: &Vec<char>) -> (r: Option<Vec<char>>)
    ensures
        match r {
            Some(v) => pages_convention_route(p@) == Some(v@),
            None => pages_convention_route(p@) is None,
        },
{
    let marker = chars_of("/pages/api/");
    let plen = p.len();
    match find_exec(p, &marker) {
        Some(idx) => {
            proof {
                lemma_first_pos(p@, marker@, idx as int);
                reveal_strlit("/pages/api/");
                assert(marker@.len() == 11);
                assert(occurs_at(p@, marker@, idx as int));
                assert(idx + 11 <= plen);
            }
            let start = idx + 6;
            let rel = chars_of(string_of_range(p, start, p.len()).as_str());
            proof {
                assert(rel@ =~= p@.skip(start as int));
            }
            let dot = chars_of(".");
            proof {
                reveal_strlit(".");
                assert(dot@ =~= seq!['.']);
            }
            match rfind_exec(&rel, &dot) {
                Some(d) => {
                    proof {
                        lemma_last_pos(rel@, dot@, d as int);
                    }
                    let route = chars_of(string_of_range(&rel, 0, d).as_str());
                    proof {
                        assert(route@ =~= rel@.take(d as int));
                    }
                    let index = chars_of("/index");
                    let mut trimmed = if ends_with_exec(&route, &index) {
                        trim_index_suffixes(route)
                    } else {
                        route
                    };
                    if trimmed.len() == 0 {
                        trimmed.push('/');
                        proof {
                            assert(trimmed@ =~= seq!['/']);
                        }
                    }
                    Some(trimmed)
                },
                None => None,
            }
        },
        None => None,
    }
}

/// The controller named by a Rails controller file, as in
/// [`rails_controller_name`].
pub fn rails_controller_name_exec(p: &Vec<char>) -> (r: Option<Vec<char>>)
    ensures
        match r {
            Some(v) => rails_controller_name(p@) == Some(v@),
            None => rails_controller_name(p@) is None,
        },
{
    let dir = chars_of("app/controllers/");
    let suffix = chars_of("_controller.rb");
    proof {
        reveal_strlit("_controller.rb");
    }
    if find_exec(p, &dir).is_none() || !ends_with_exec(p, &suffix) {
        return None;
    }
    let stem = chars_of(string_of_range(p, 0, p.len() - 14).as_str());
    proof {
        assert(stem@ =~= p@.take(p@.len() - 14));
    }
    let slash = chars_of("/");
    proof {
        reveal_strlit("/");
        assert(slash@ =~= seq!['/']);
    }
    let name = match rfind_exec(&stem, &slash) {
        Some(i) => {
            proof {
                lemma_last_pos(stem@, slash@, i as int);
            }
            let n = chars_of(string_of_range(&stem, i + 1, stem.len()).as_str());
            proof {
                assert(n@ =~= stem@.skip(i + 1));
            }
            n
        },
        None => stem,
    };
    if name.len() > 0 {
        Some(name)
    } else {
        None
    }
}

/// `controller:` followed by `name`.
fn controller_string(name: &Vec<char>) -> (r: String)
    ensures
        r@ == "controller:"@ + name@,
{
    let mut s = String::new();
    s.append("controller:");
    let tail = string_of(name);
    s.append(tail.as_str());
    s
}

/// `route:` followed by `route`.
fn route_string(route: &Vec<char>) -> (r: String)
    ensures
        r@ == "route:"@ + route@,
{
    let mut s = String::new();
    s.append("route:");
    let tail = string_of(route);
    s.append(tail.as_str());
    s
}

/// The definitions that convention `c` infers from a normalized path.
pub fn convention_definitions(c: Convention, p: &Vec<char>) -> (r: Vec<String>)
    ensures
        strings_view(r@) == convention_defs(c, p@),
{
    let mut defs: Vec<String> = Vec::new();
    match c {
        Convention::NextJsPagesRouter => {
            match pages_convention_route_exec(p) {
                Some(route) => defs.push(route_string(&route)),
                None => {},
            }
        },
        Convention::NextJsAppRouter => {
            match app_api_route_exec(p) {
                Some(route) => defs.push(route_string(&route)),
                None => {},
            }
        },
        Convention::RailsController => {
            match rails_controller_name_exec(p) {
                Some(name) => defs.push(controller_string(&name)),
                None => {},
            }
        },
    }
    proof {
        assert(strings_view(defs@) =~= convention_defs(c, p@));
    }
    defs
}

/// Infers definitions from a file's path by the conventions it knows.
pub struct ConventionEngine {
    rules: Vec<Convention>,
}

impl ConventionEngine {
    /// The conventions applied, in order.
    pub closed spec fn conventions(&self) -> Seq<Convention> {
        self.rules@
    }

    /// An engine with the Next.js pages and app router conventions and the
    /// Rails controller convention.
    pub fn new() -> (r: Self)
        ensures
            r.conventions() == seq![
                Convention::NextJsPagesRouter,
                Convention::NextJsAppRouter,
                Convention::RailsController,
            ],
    {
        let mut rules: Vec<Convention> = Vec::new();
        rules.push(Convention::NextJsPagesRouter);
        rules.push(Convention::NextJsAppRouter);
        rules.push(Convention::RailsController);
        ConventionEngine { rules }
    }
}

impl InferenceRule for ConventionEngine {
    open spec fn inferred(&self, boundary: FileBoundary) -> Seq<Seq<char>> {
        conventions_defs(self.conventions(), normalized(boundary.path@))
    }

    /// What each convention infers from the file's path, with backslashes
    /// read as slashes, one convention after the other.
    fn infer_definitions(&self, boundary: &FileBoundary) -> (r: Vec<String>)
        ensures
            strings_view(r@) == conventions_defs(self.conventions(), normalized(boundary.path@)),
    {
        let slash = chars_of("\\");
        proof {
            reveal_strlit("\\");
            reveal_strlit("/");
            assert(slash@ =~= seq!['\\']);
            assert("/"@ =~= seq!['/']);
        }
        let norm = replace_chars_exec(boundary.path.as_str(), &slash, "/");
        let p = chars_of(norm.as_str());
        let mut defs: Vec<String> = Vec::new();
        let mut i: usize = 0;
        while i < self.rules.len()
            invariant
                0 <= i <= self.rules@.len(),
                p@ == normalized(boundary.path@),
                strings_view(defs@) == conventions_defs(self.rules@.take(i as int), p@),
            decreases self.rules@.len() - i,
        {
            let more = convention_definitions(self.rules[i], &p);
            let ghost (a, b) = (defs@, more@);
            let mut more = more;
            defs.append(&mut more);
            proof {
                assert(self.rules@.take(i + 1).drop_last() =~= self.rules@.take(i as int));
                assert(strings_view(a + b) =~= strings_view(a) + strings_view(b));
            }
            i = i + 1;
        }
        proof {
            assert(self.rules@.take(self.rules@.len() as int) =~= self.rules@);
        }
        defs
    }
}

} // verus!
