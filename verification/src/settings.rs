//! The application's global settings: the recently opened workspaces, most
//! recent first, and the last opened one.

use vstd::prelude::*;
use crate::text::str_eq;

verus! {

/// The most workspaces kept in the recent list.
pub const MAX_RECENT: usize = 10;

/// The settings kept between runs.
#[derive(Clone, Debug)]
pub struct GlobalSettings {
    pub recent_workspaces: Vec<String>,
    pub last_opened_path: Option<String>,
}

impl Default for GlobalSettings {
    fn default() -> (r: Self)
        ensures
            r.recent_workspaces@.len() == 0,
            r.last_opened_path is None,
    {
        GlobalSettings { recent_workspaces: Vec::new(), last_opened_path: None }
    }
}

/// The settings of a running application and the file they are saved to.
pub struct SettingsState {
    pub settings: GlobalSettings,
    pub file_path: String,
}

/// The paths of a list of workspaces.
pub open spec fn paths(v: Seq<String>) -> Seq<Seq<char>> {
    v.map_values(|s: String| s@)
}

/// `s` without the occurrences of `p`, in order.
pub open spec fn without(s: Seq<Seq<char>>, p: Seq<char>) -> Seq<Seq<char>>
    decreases s.len(),
{
    if s.len() == 0 {
        Seq::empty()
    } else if s.last() == p {
        without(s.drop_last(), p)
    } else {
        without(s.drop_last(), p).push(s.last())
    }
}

/// The recent list after `p` is opened: `p` first, then the others in their
/// order, at most [`MAX_RECENT`] of them in all.
pub open spec fn recent_after_open(s: Seq<Seq<char>>, p: Seq<char>) -> Seq<Seq<char>> {
    let l = seq![p] + without(s, p);
    if l.len() > MAX_RECENT {
        l.take(MAX_RECENT as int)
    } else {
        l
    }
}

/// A recent list has no path twice and at most [`MAX_RECENT`] of them.
pub open spec fn well_kept(s: Seq<Seq<char>>) -> bool {
    s.no_duplicates() && s.len() <= MAX_RECENT
}

proof fn lemma_without_contains(s: Seq<Seq<char>>, p: Seq<char>)
    ensures
        forall|x: Seq<char>| #[trigger] without(s, p).contains(x) <==> s.contains(x) && x != p,
        without(s, p).len() <= s.len(),
        s.no_duplicates() ==> without(s, p).no_duplicates(),
        !s.contains(p) ==> without(s, p) == s,
    decreases s.len(),
{
    if s.len() > 0 {
        let r = without(s.drop_last(), p);
        lemma_without_contains(s.drop_last(), p);
        crate::lemmas::lemma_push_contains(r, s.last());
        crate::lemmas::lemma_push_contains(s.drop_last(), s.last());
        assert(s.drop_last().push(s.last()) == s);
        if s.no_duplicates() {
            assert(s.drop_last().no_duplicates());
            assert(!s.drop_last().contains(s.last())) by {
                if s.drop_last().contains(s.last()) {
                    let i = choose|i: int| 0 <= i < s.drop_last().len() && s.drop_last()[i] == s.last();
                    assert(s[i] == s[s.len() - 1]);
                }
            }
            if s.last() != p {
                crate::lemmas::lemma_push_no_dup(r, s.last());
            }
        }
        if !s.contains(p) {
            assert(s[s.len() - 1] == s.last());
            assert(!s.drop_last().contains(p)) by {
                if s.drop_last().contains(p) {
                    let i = choose|i: int| 0 <= i < s.drop_last().len() && s.drop_last()[i] == p;
                    assert(s[i] == p);
                }
            }
        }
    }
}

/// The paths of `v` that differ from `p`, in order.
fn without_exec(v: &Vec<String>, p: &str) -> (r: Vec<String>)
    ensures
        paths(r@) == without(paths(v@), p@),
{
    let mut r: Vec<String> = Vec::new();
    let mut i: usize = 0;
    while i < v.len()
        invariant
            0 <= i <= v.len(),
            paths(r@) == without(paths(v@).take(i as int), p@),
        decreases v.len() - i,
    {
        proof {
            assert(paths(v@).take(i + 1).drop_last() == paths(v@).take(i as int));
            assert(paths(v@).take(i + 1).last() == v@[i as int]@);
        }
        if !str_eq(v[i].as_str(), p) {
            let c = v[i].clone();
            r.push(c);
            proof {
                assert(paths(r@) == paths(r@).drop_last().push(c@));
                assert(paths(r@).drop_last() == paths(r@.drop_last()));
            }
        }
        i = i + 1;
    }
    proof {
        assert(paths(v@).take(v@.len() as int) == paths(v@));
    }
    r
}

impl SettingsState {
    /// Records that `path` was opened: it becomes the last opened path and
    /// moves to the front of the recent list, which keeps at most
    /// [`MAX_RECENT`] paths.
    pub fn update_recent(&mut self, path: String)
        ensures
            final(self).file_path == old(self).file_path,
            final(self).settings.last_opened_path matches Some(p) && p@ == path@,
            paths(final(self).settings.recent_workspaces@) == recent_after_open(
                paths(old(self).settings.recent_workspaces@),
                path@,
            ),
    {
        self.settings.last_opened_path = Some(path.clone());
        let mut kept = without_exec(&self.settings.recent_workspaces, path.as_str());
        let ghost rest = paths(kept@);
        kept.insert(0, path);
        proof {
            assert(paths(kept@) =~= seq![path@] + rest);
        }
        if kept.len() > MAX_RECENT {
            let ghost before = paths(kept@);
            kept.truncate(MAX_RECENT);
            proof {
                assert(paths(kept@) =~= before.take(MAX_RECENT as int));
            }
        }
        self.settings.recent_workspaces = kept;
    }

    /// Forgets the recent list and the last opened path.
    pub fn clear_recent(&mut self)
        ensures
            final(self).file_path == old(self).file_path,
            final(self).settings.recent_workspaces@.len() == 0,
            final(self).settings.last_opened_path is None,
    {
        self.settings.recent_workspaces.clear();
        self.settings.last_opened_path = None;
    }

    /// Drops `path` from the recent list, and clears the last opened path if
    /// it was `path`.
    pub fn remove_recent(&mut self, path: &str)
        ensures
            final(self).file_path == old(self).file_path,
            paths(final(self).settings.recent_workspaces@) == without(
                paths(old(self).settings.recent_workspaces@),
                path@,
            ),
            final(self).settings.last_opened_path == (match old(
                self,
            ).settings.last_opened_path {
                Some(last) => if last@ == path@ {
                    None
                } else {
                    Some(last)
                },
                None => None,
            }),
    {
        self.settings.recent_workspaces = without_exec(&self.settings.recent_workspaces, path);
        let clear = match &self.settings.last_opened_path {
            Some(last) => str_eq(last.as_str(), path),
            None => false,
        };
        if clear {
            self.settings.last_opened_path = None;
        }
    }
}

/// Opening a path puts it first in the recent list, keeps it there once,
/// keeps the list free of repeats and no longer than [`MAX_RECENT`], and
/// keeps the other paths in their order.
pub proof fn law_open_puts_first(s: Seq<Seq<char>>, p: Seq<char>)
    requires
        well_kept(s),
    ensures
        recent_after_open(s, p)[0] == p,
        well_kept(recent_after_open(s, p)),
        forall|x: Seq<char>| #[trigger]
            recent_after_open(s, p).contains(x) && x != p ==> s.contains(x),
        recent_after_open(s, p).len() == (if s.contains(p) {
            s.len()
        } else if s.len() < MAX_RECENT {
            s.len() + 1
        } else {
            MAX_RECENT as nat
        }),
{
    lemma_without_contains(s, p);
    let w = without(s, p);
    let l = seq![p] + w;
    assert(!w.contains(p));
    assert(l.no_duplicates()) by {
        assert forall|i: int, j: int| 0 <= i < l.len() && 0 <= j < l.len() && i != j implies l[i]
            != l[j] by {
            if i == 0 {
                assert(w.contains(l[j]) || j == 0) by {
                    if j > 0 {
                        assert(l[j] == w[j - 1]);
                    }
                }
            } else if j == 0 {
                assert(l[i] == w[i - 1]);
            } else {
                assert(l[i] == w[i - 1]);
                assert(l[j] == w[j - 1]);
            }
        }
    }
    assert forall|x: Seq<char>| #[trigger]
        recent_after_open(s, p).contains(x) && x != p implies s.contains(x) by {
        let r = recent_after_open(s, p);
        let i = choose|i: int| 0 <= i < r.len() && r[i] == x;
        assert(l[i] == x);
        assert(i > 0);
        assert(w[i - 1] == x);
        assert(w.contains(x));
    }
    if s.contains(p) {
        assert(w.len() < s.len()) by {
            lemma_without_len(s, p);
        }
        assert(w.len() + 1 == s.len()) by {
            lemma_without_len(s, p);
        }
    } else {
        assert(w == s);
    }
}

/// How many paths removing `p` drops: one where it occurs in a list without
/// repeats, none otherwise.
proof fn lemma_without_len(s: Seq<Seq<char>>, p: Seq<char>)
    requires
        s.no_duplicates(),
    ensures
        without(s, p).len() == (if s.contains(p) {
            s.len() - 1
        } else {
            s.len() as int
        }),
    decreases s.len(),
{
    if s.len() > 0 {
        lemma_without_len(s.drop_last(), p);
        assert(s.drop_last().no_duplicates());
        if s.last() == p {
            assert(!s.drop_last().contains(p)) by {
                if s.drop_last().contains(p) {
                    let i = choose|i: int| 0 <= i < s.drop_last().len() && s.drop_last()[i] == p;
                    assert(s[i] == s[s.len() - 1]);
                }
            }
        } else {
            assert(s.contains(p) <==> s.drop_last().contains(p)) by {
                if s.contains(p) {
                    let i = choose|i: int| 0 <= i < s.len() && s[i] == p;
                    assert(i != s.len() - 1);
                    assert(s.drop_last()[i] == p);
                }
                if s.drop_last().contains(p) {
                    let i = choose|i: int| 0 <= i < s.drop_last().len() && s.drop_last()[i] == p;
                    assert(s[i] == p);
                }
            }
        }
        assert(s.contains(s.last())) by {
            assert(s[s.len() - 1] == s.last());
        }
    }
}

/// Opening the same path twice leaves the recent list as opening it once.
pub proof fn law_open_twice(s: Seq<Seq<char>>, p: Seq<char>)
    ensures
        recent_after_open(recent_after_open(s, p), p) == recent_after_open(s, p),
{
    let r = recent_after_open(s, p);
    let l = seq![p] + without(s, p);
    lemma_without_contains(s, p);
    lemma_without_contains(r, p);
    assert(r.len() > 0);
    assert(r[0] == p);
    assert(r.drop_first().len() + 1 == r.len());
    assert(without(r, p) == without(r.drop_first(), p)) by {
        lemma_without_drop_first(r, p);
    }
    assert(!r.drop_first().contains(p)) by {
        if r.drop_first().contains(p) {
            let i = choose|i: int| 0 <= i < r.drop_first().len() && r.drop_first()[i] == p;
            assert(l[i + 1] == p);
            assert(without(s, p)[i] == p);
            assert(without(s, p).contains(p));
        }
    }
    lemma_without_contains(r.drop_first(), p);
    assert(seq![p] + r.drop_first() =~= r);
}

proof fn lemma_without_drop_first(r: Seq<Seq<char>>, p: Seq<char>)
    requires
        r.len() > 0,
        r[0] == p,
    ensures
        without(r, p) == without(r.drop_first(), p),
    decreases r.len(),
{
    if r.len() == 1 {
        assert(r.drop_last().len() == 0);
        assert(r.drop_first().len() == 0);
        assert(r.last() == p);
        assert(without(r.drop_first(), p) == Seq::<Seq<char>>::empty());
        assert(without(r.drop_last(), p) == Seq::<Seq<char>>::empty());
    } else {
        assert(r.drop_last()[0] == p);
        lemma_without_drop_first(r.drop_last(), p);
        assert(r.drop_last().drop_first() =~= r.drop_first().drop_last());
        assert(r.drop_first().last() == r.last());
    }
}

/// Removing a path leaves it nowhere in the recent list, keeps the other
/// paths in their order, and keeps a well-kept list well kept.
pub proof fn law_remove_drops(s: Seq<Seq<char>>, p: Seq<char>)
    ensures
        !without(s, p).contains(p),
        forall|x: Seq<char>| x != p ==> (#[trigger] without(s, p).contains(x) <==> s.contains(x)),
        well_kept(s) ==> well_kept(without(s, p)),
{
    lemma_without_contains(s, p);
}

} // verus!
