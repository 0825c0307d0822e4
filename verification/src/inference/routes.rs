//! The Next.js routing conventions: API routes of the pages router and route
//! handlers of the app router.

use vstd::prelude::*;
use crate::inference::InferenceRule;
use crate::models::{FileBoundary, strings_view};
use crate::text::{replace_chars, has_sub, first_pos, last_pos, ends_with, is_first_occurrence, is_last_occurrence, occurs_at, lemma_first_pos, lemma_last_pos, chars_of, string_of_range, string_of, find_exec, rfind_exec, ends_with_exec, replace_chars_exec};

verus! {

/// The path with backslashes turned into slashes.
pub open spec fn normalized(path: Seq<char>) -> Seq<char> {
    replace_chars(path, seq!['\\'], seq!['/'])
}

/// The API route of a pages-router file: what follows `/pages` up to the
/// last dot, without one trailing `/index`.
pub open spec fn pages_api_route(p: Seq<char>) -> Option<Seq<char>> {
    if has_sub(p, "/pages/api/"@) {
        let rel = p.skip(first_pos(p, "/pages/api/"@) + 6);
        if has_sub(rel, seq!['.']) {
            let route = rel.take(last_pos(rel, seq!['.']));
            if ends_with(route, "/index"@) {
                Some(route.take(route.len() - 6))
            } else {
                Some(route)
            }
        } else {
            None
        }
    } else {
        None
    }
}

/// The route of an app-router handler in a path that starts with `/`
/// (`.../app/<route>/route.ts` or `.js`): what lies between the first `/app`
/// and the last `/route.`.
pub open spec fn app_route_in(p: Seq<char>) -> Option<Seq<char>> {
    if (ends_with(p, "/route.ts"@) || ends_with(p, "/route.js"@)) && has_sub(p, "/app/"@) {
        Some(p.subrange(first_pos(p, "/app/"@) + 4, last_pos(p, "/route."@)))
    } else {
        None
    }
}

/// The route of an app-router handler (`app/<route>/route.ts` or `.js`,
/// anywhere in the path): the path is read as if it began with `/`, so that
/// `app/api/auth/route.ts` serves `/api/auth`.
pub open spec fn app_api_route(p: Seq<char>) -> Option<Seq<char>> {
    app_route_in(seq!['/'] + p)
}

/// `route:` followed by the route, if there is one.
pub open spec fn route_def(r: Option<Seq<char>>) -> Seq<Seq<char>> {
    match r {
        Some(route) => seq!["route:"@ + route],
        None => Seq::empty(),
    }
}

/// The route definitions of a file path.
pub open spec fn next_route_defs(path: Seq<char>) -> Seq<Seq<char>> {
    route_def(pages_api_route(normalized(path))) + route_def(app_api_route(normalized(path)))
}

/// A path that ends in `/route.ts` or `/route.js` has `/route.` nine
/// characters before its end.
proof fn lemma_route_marker_at_end(p: Seq<char>)
    requires
        ends_with(p, "/route.ts"@) || ends_with(p, "/route.js"@),
    ensures
        occurs_at(p, "/route."@, p.len() - 9),
        p[p.len() - 9] == '/' && p[p.len() - 8] == 'r' && p[p.len() - 7] == 'o' && p[p.len() - 6]
            == 'u' && p[p.len() - 5] == 't',
{
    reveal_strlit("/route.ts");
    reveal_strlit("/route.js");
    reveal_strlit("/route.");
    let n = p.len() as int;
    assert(p.subrange(n - 9, n)[0] == p[n - 9]);
    assert(p.subrange(n - 9, n)[1] == p[n - 8]);
    assert(p.subrange(n - 9, n)[2] == p[n - 7]);
    assert(p.subrange(n - 9, n)[3] == p[n - 6]);
    assert(p.subrange(n - 9, n)[4] == p[n - 5]);
    assert(p.subrange(n - 9, n - 2) =~= "/route."@) by {
        assert(p.subrange(n - 9, n - 2) =~= p.subrange(n - 9, n).take(7));
    }
}

/// In a path that ends in `/route.ts` or `/route.js`, the first `/app/`
/// ends no later than the last `/route.` begins.
proof fn lemma_app_before_route(p: Seq<char>, a: int, b: int)
    requires
        ends_with(p, "/route.ts"@) || ends_with(p, "/route.js"@),
        is_first_occurrence(p, "/app/"@, a),
        is_last_occurrence(p, "/route."@, b),
    ensures
        a + 4 <= b,
{
    reveal_strlit("/app/");
    lemma_route_marker_at_end(p);
    let n = p.len() as int;
    assert(b >= n - 9);
    if a + 4 > b {
        assert(p.subrange(a, a + 5)[0] == p[a]);
        assert(p.subrange(a, a + 5)[1] == p[a + 1]);
        assert(p.subrange(a, a + 5)[2] == p[a + 2]);
        assert(p.subrange(a, a + 5)[3] == p[a + 3]);
        assert(p[a] == '/' && p[a + 1] == 'a' && p[a + 2] == 'p' && p[a + 3] == 'p');
        assert(false);
    }
}

/// Characters of a string literal.
fn lit(s: &str) -> (v: Vec<char>)
    ensures
        v@ == s@,
{
    chars_of(s)
}

/// The pages-router API route of a normalized path.
pub fn pages_api_route_exec(p: &Vec<char>) -> (r: Option<Vec<char>>)
    ensures
        match r {
            Some(v) => pages_api_route(p@) == Some(v@),
            None => pages_api_route(p@) is None,
        },
{
    let marker = lit("/pages/api/");
    let plen = p.len();
    match find_exec(p, &marker) {
        Some(idx) => {
            proof {
                lemma_first_pos(p@, marker@, idx as int);
                reveal_strlit("/pages/api/");
                assert(marker@.len() == 11);
                assert(occurs_at(p@, marker@, idx as int));
                assert(idx + 11 <= plen);
            }
            let start = idx + 6;
            let rel = chars_of(string_of_range(p, start, p.len()).as_str());
            proof {
                assert(rel@ =~= p@.skip(start as int));
            }
            let dot = lit(".");
            proof {
                reveal_strlit(".");
                assert(dot@ =~= seq!['.']);
            }
            match rfind_exec(&rel, &dot) {
                Some(d) => {
                    proof {
                        lemma_last_pos(rel@, dot@, d as int);
                    }
                    let route = chars_of(string_of_range(&rel, 0, d).as_str());
                    proof {
                        assert(route@ =~= rel@.take(d as int));
                    }
                    let index = lit("/index");
                    if ends_with_exec(&route, &index) {
                        proof {
                            reveal_strlit("/index");
                        }
                        let cut = chars_of(string_of_range(&route, 0, route.len() - 6).as_str());
                        proof {
                            assert(cut@ =~= route@.take(route@.len() - 6));
                        }
                        Some(cut)
                    } else {
                        Some(route)
                    }
                },
                None => None,
            }
        },
        None => None,
    }
}

/// The app-router route of a normalized path.
pub fn app_api_route_exec(p: &Vec<char>) -> (r: Option<Vec<char>>)
    ensures
        match r {
            Some(v) => app_api_route(p@) == Some(v@),
            None => app_api_route(p@) is None,
        },
{
    let mut rooted: Vec<char> = Vec::new();
    rooted.push('/');
    let mut i: usize = 0;
    while i < p.len()
        invariant
            i <= p@.len(),
            rooted@ == seq!['/'] + p@.take(i as int),
        decreases p@.len() - i,
    {
        rooted.push(p[i]);
        i = i + 1;
        proof {
            assert(seq!['/'] + p@.take(i as int) =~= (seq!['/'] + p@.take(i - 1)).push(p@[i - 1]));
        }
    }
    proof {
        assert(p@.take(p@.len() as int) =~= p@);
    }
    app_route_in_exec(&rooted)
}

/// The app-router route of a normalized path that starts with `/`.
pub fn app_route_in_exec(p: &Vec<char>) -> (r: Option<Vec<char>>)
    ensures
        match r {
            Some(v) => app_route_in(p@) == Some(v@),
            None => app_route_in(p@) is None,
        },
{
    let ts = lit("/route.ts");
    let js = lit("/route.js");
    if !(ends_with_exec(p, &ts) || ends_with_exec(p, &js)) {
        return None;
    }
    let app = lit("/app/");
    let route_marker = lit("/route.");
    match find_exec(p, &app) {
        Some(app_idx) => {
            proof {
                lemma_first_pos(p@, app@, app_idx as int);
            }
            match rfind_exec(p, &route_marker) {
                Some(route_idx) => {
                    proof {
                        lemma_last_pos(p@, route_marker@, route_idx as int);
                        lemma_app_before_route(p@, app_idx as int, route_idx as int);
                    }
                    let rel = chars_of(string_of_range(p, app_idx + 4, route_idx).as_str());
                    Some(rel)
                },
                None => {
                    proof {
                        lemma_route_marker_at_end(p@);
                    }
                    None
                },
            }
        },
        None => None,
    }
}

/// `route:` followed by `route`.
fn route_string(route: &Vec<char>) -> (r: String)
    ensures
        r@ == "route:"@ + route@,
{
    let mut s = String::new();
    s.append("route:");
    let tail = string_of(route);
    s.append(tail.as_str());
    s
}

/// The route definitions of a file path under the Next.js conventions.
pub fn next_route_definitions(path: &str) -> (r: Vec<String>)
    ensures
        strings_view(r@) == next_route_defs(path@),
{
    let slash = lit("\\");
    proof {
        reveal_strlit("\\");
        reveal_strlit("/");
        assert(slash@ =~= seq!['\\']);
    }
    let norm = replace_chars_exec(path, &slash, "/");
    proof {
        assert("/"@ =~= seq!['/']);
    }
    let p = chars_of(norm.as_str());
    let mut defs: Vec<String> = Vec::new();
    match pages_api_route_exec(&p) {
        Some(route) => {
            defs.push(route_string(&route));
        },
        None => {},
    }
    let ghost first = strings_view(defs@);
    match app_api_route_exec(&p) {
        Some(route) => {
            defs.push(route_string(&route));
        },
        None => {},
    }
    proof {
        assert(first =~= route_def(pages_api_route(normalized(path@))));
        assert(strings_view(defs@) =~= next_route_defs(path@));
    }
    defs
}

/// Infers the routes that a Next.js file serves from its path.
pub struct NextJsRouteRule;

impl InferenceRule for NextJsRouteRule {
    open spec fn inferred(&self, boundary: FileBoundary) -> Seq<Seq<char>> {
        next_route_defs(boundary.path@)
    }

    /// `route:<route>` for a pages-router API file and for an app-router
    /// route handler.
    fn infer_definitions(&self, boundary: &FileBoundary) -> (r: Vec<String>)
        ensures
            strings_view(r@) == next_route_defs(boundary.path@),
    {
        next_route_definitions(boundary.path.as_str())
    }
}

} // verus!
