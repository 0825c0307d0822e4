//! Which files hold tests, and which routes files serve by their paths.

use vstd::prelude::*;
use crate::text::{split_on, lowercase, starts_with, ends_with, has_sub, chars_of, split_char, to_lower, replace_chars_exec, str_eq, str_ends_with, str_starts_with, str_contains, string_of};
use crate::inference::routes::{normalized, pages_api_route, app_route_in, pages_api_route_exec, app_route_in_exec};

verus! {

// ---------------------------------------------------------------------------
// Test files
// ---------------------------------------------------------------------------

/// A directory name that marks test code.
pub open spec fn is_test_dir(s: Seq<char>) -> bool {
    s == "test"@ || s == "tests"@ || s == "__tests__"@ || s == "spec"@ || s == "specs"@ || s
        == "integration-test"@ || s == "fixtures"@ || s == "__fixtures__"@ || s == "mocks"@ || s
        == "__mocks__"@ || s == "stubs"@
}

/// Some component of the slash-separated path `p` is a test directory.
pub open spec fn has_test_dir(p: Seq<char>) -> bool {
    exists|i: int| 0 <= i < split_on(p, '/').len() && is_test_dir(#[trigger] split_on(p, '/')[i])
}

/// The last part of `parts` that names something: neither empty nor `.`.
pub open spec fn last_named(parts: Seq<Seq<char>>) -> Option<Seq<char>>
    decreases parts.len(),
{
    if parts.len() == 0 {
        None
    } else if parts.last().len() == 0 || parts.last() == seq!['.'] {
        last_named(parts.drop_last())
    } else {
        Some(parts.last())
    }
}

/// The file name of a path (`Path::file_name`): its last component, empty
/// where that is `..` or where there is none.
pub open spec fn file_name(p: Seq<char>) -> Seq<char> {
    match last_named(split_on(p, '/')) {
        Some(n) => if n == seq!['.', '.'] {
            Seq::empty()
        } else {
            n
        },
        None => Seq::empty(),
    }
}

/// A (lower-case) file name of a test, a spec, a fixture or a mock.
pub open spec fn is_test_file_name(f: Seq<char>) -> bool {
    ||| ends_with(f, ".test.ts"@) || ends_with(f, ".test.tsx"@) || ends_with(f, ".spec.ts"@)
        || ends_with(f, ".spec.tsx"@) || ends_with(f, ".fixture.ts"@) || ends_with(f, ".mock.ts"@)
        || ends_with(f, ".test.js"@) || ends_with(f, ".test.jsx"@) || ends_with(f, ".spec.js"@)
        || ends_with(f, ".spec.jsx"@)
    ||| ends_with(f, "_test.rs"@) || ends_with(f, "_spec.rs"@) || f == "test.rs"@
    ||| starts_with(f, "test_"@) || ends_with(f, "_test.py"@)
    ||| ends_with(f, "test.java"@) || ends_with(f, "tests.java"@)
    ||| (has_sub(f, "mock"@) || has_sub(f, "fixture"@)) && (ends_with(f, ".ts"@) || ends_with(
        f,
        ".js"@,
    ) || ends_with(f, ".rs"@) || ends_with(f, ".py"@))
}

/// A path of test code: one of its directories (case aside, with
/// backslashes read as slashes) is a test directory, or its file name (case
/// aside) is that of a test file.
pub open spec fn is_test_path_spec(p: Seq<char>) -> bool {
    has_test_dir(lowercase(normalized(p))) || is_test_file_name(lowercase(file_name(p)))
}

pub(crate) fn is_test_dir_exec(s: &str) -> (r: bool)
    ensures
        r == is_test_dir(s@),
{
    str_eq(s, "test") || str_eq(s, "tests") || str_eq(s, "__tests__") || str_eq(s, "spec")
        || str_eq(s, "specs") || str_eq(s, "integration-test") || str_eq(s, "fixtures") || str_eq(
        s,
        "__fixtures__",
    ) || str_eq(s, "mocks") || str_eq(s, "__mocks__") || str_eq(s, "stubs")
}

pub(crate) fn is_test_file_name_exec(f: &str) -> (r: bool)
    ensures
        r == is_test_file_name(f@),
{
    let web = str_ends_with(f, ".test.ts") || str_ends_with(f, ".test.tsx") || str_ends_with(
        f,
        ".spec.ts",
    ) || str_ends_with(f, ".spec.tsx") || str_ends_with(f, ".fixture.ts") || str_ends_with(
        f,
        ".mock.ts",
    ) || str_ends_with(f, ".test.js") || str_ends_with(f, ".test.jsx") || str_ends_with(
        f,
        ".spec.js",
    ) || str_ends_with(f, ".spec.jsx");
    let rust = str_ends_with(f, "_test.rs") || str_ends_with(f, "_spec.rs") || str_eq(f, "test.rs");
    let python = str_starts_with(f, "test_") || str_ends_with(f, "_test.py");
    let java = str_ends_with(f, "test.java") || str_ends_with(f, "tests.java");
    let double = (str_contains(f, "mock") || str_contains(f, "fixture")) && (str_ends_with(f, ".ts")
        || str_ends_with(f, ".js") || str_ends_with(f, ".rs") || str_ends_with(f, ".py"));
    web || rust || python || java || double
}

/// The file name of a path (see [`file_name`]).
pub(crate) fn file_name_exec(p: &str) -> (r: String)
    ensures
        r@ == file_name(p@),
{
    let parts = split_char(p, '/');
    let ghost ps = split_on(p@, '/');
    let mut n: usize = parts.len();
    proof {
        assert(parts@.map_values(|x: String| x@).take(n as int) =~= ps);
    }
    while n > 0
        invariant
            0 <= n <= parts@.len(),
            ps == split_on(p@, '/'),
            parts@.map_values(|x: String| x@) == ps,
            last_named(ps.take(n as int)) == last_named(ps),
        decreases n,
    {
        let part = chars_of(parts[n - 1].as_str());
        proof {
            assert(ps.take(n as int).last() == part@);
            assert(ps.take(n as int).drop_last() =~= ps.take(n - 1));
        }
        if part.len() == 0 || (part.len() == 1 && part[0] == '.') {
            proof {
                if part@.len() == 1 {
                    assert(part@ =~= seq!['.']);
                }
            }
            n = n - 1;
        } else {
            proof {
                assert(part@ != seq!['.']);
            }
            proof {
                assert(last_named(ps.take(n as int)) == Some(part@));
            }
            if part.len() == 2 && part[0] == '.' && part[1] == '.' {
                proof {
                    assert(part@ =~= seq!['.', '.']);
                    assert(file_name(p@) =~= Seq::<char>::empty());
                }
                return String::new();
            }
            proof {
                assert(part@ != seq!['.', '.']);
                assert(file_name(p@) == part@);
            }
            return string_of(&part);
        }
    }
    String::new()
}

/// Whether a path (relative to the workspace root where it lies in it) is
/// test code: a directory named `test`, `tests`, `__tests__`, `spec`,
/// `specs`, `integration-test`, `fixtures`, `__fixtures__`, `mocks`,
/// `__mocks__` or `stubs`, or a file name of a test, spec, fixture or mock by
/// the conventions of TypeScript, JavaScript, Rust, Python and Java.
pub fn is_test_path(path: &str) -> (r: bool)
    ensures
        r == is_test_path_spec(path@),
{
    let back = chars_of("\\");
    proof {
        reveal_strlit("\\");
        reveal_strlit("/");
        assert(back@ =~= seq!['\\']);
        assert("/"@ =~= seq!['/']);
    }
    let norm = replace_chars_exec(path, &back, "/");
    let lower = to_lower(norm.as_str());
    let parts = split_char(lower.as_str(), '/');
    let ghost ps = split_on(lower@, '/');
    let mut i: usize = 0;
    while i < parts.len()
        invariant
            0 <= i <= parts@.len(),
            ps == split_on(lower@, '/'),
            parts@.map_values(|x: String| x@) == ps,
            lower@ == lowercase(normalized(path@)),
            forall|j: int| 0 <= j < i ==> !is_test_dir(#[trigger] ps[j]),
        decreases parts@.len() - i,
    {
        if is_test_dir_exec(parts[i].as_str()) {
            proof {
                assert(ps[i as int] == parts@[i as int]@);
                assert(is_test_dir(ps[i as int]));
                assert(0 <= i < split_on(lower@, '/').len() && is_test_dir(split_on(lower@, '/')[i as int]));
            }
            return true;
        }
        proof {
            assert(ps[i as int] == parts@[i as int]@);
        }
        i = i + 1;
    }
    proof {
        assert(!has_test_dir(lowercase(normalized(path@))));
    }
    let name = file_name_exec(path);
    let lname = to_lower(name.as_str());
    is_test_file_name_exec(lname.as_str())
}

// ---------------------------------------------------------------------------
// Routes served by a file
// ---------------------------------------------------------------------------

/// The route a file serves by the Next.js conventions: the pages-router API
/// route where there is one, else the app-router route of a path with an
/// `/app/` directory in it.
pub open spec fn framework_route(path: Seq<char>) -> Option<Seq<char>> {
    match pages_api_route(normalized(path)) {
        Some(r) => Some(r),
        None => app_route_in(normalized(path)),
    }
}

/// The route a file serves by its path (`/api/user` for
/// `src/pages/api/user.ts`, `/api/auth` for `web/app/api/auth/route.ts`).
pub fn detect_framework_route(path: &str) -> (r: Option<String>)
    ensures
        match r {
            Some(s) => framework_route(path@) == Some(s@),
            None => framework_route(path@) is None,
        },
{
    let back = chars_of("\\");
    proof {
        reveal_strlit("\\");
        reveal_strlit("/");
        assert(back@ =~= seq!['\\']);
        assert("/"@ =~= seq!['/']);
    }
    let norm = replace_chars_exec(path, &back, "/");
    let p = chars_of(norm.as_str());
    match pages_api_route_exec(&p) {
        Some(route) => {
            return Some(string_of(&route));
        },
        None => {},
    }
    match app_route_in_exec(&p) {
        Some(route) => Some(string_of(&route)),
        None => None,
    }
}

// ---------------------------------------------------------------------------
// Index keys
// ---------------------------------------------------------------------------

/// The key a file is indexed under, from its canonical path: the path
/// without a Windows verbatim prefix (`\\?\`).
pub open spec fn index_key_of(canonical: Seq<char>) -> Seq<char> {
    if starts_with(canonical, seq!['\\', '\\', '?', '\\']) {
        canonical.skip(4)
    } else {
        canonical
    }
}

/// The key a file is indexed under, from its canonical path.
pub fn index_key(canonical: &str) -> (r: String)
    ensures
        r@ == index_key_of(canonical@),
{
    proof {
        reveal_strlit("\\\\?\\");
        assert("\\\\?\\"@ =~= seq!['\\', '\\', '?', '\\']);
    }
    if str_starts_with(canonical, "\\\\?\\") {
        let v = chars_of(canonical);
        let r = crate::text::string_of_range(&v, 4, v.len());
        proof {
            assert(v@.subrange(4, v@.len() as int) =~= canonical@.skip(4));
        }
        r
    } else {
        crate::text::owned(canonical)
    }
}

} // verus!
