//! Enumerating candidate manifest files under a root directory.
//!
//! The walker holds the traversal state: a stack of directories still to be
//! read, and the directory whose entries are currently being offered. The
//! caller reads directories and offers each entry (its name and whether it
//! is a directory); the walker decides. A hidden entry — name starting with
//! `.` — is skipped, and a hidden directory is pruned: it is never handed
//! back to be read, so nothing under it is ever offered or yielded. The
//! root itself is exempt from the hidden rule. Among visible files, exactly
//! those with extension `.json` whose path is not the excluded feed path
//! are yielded. Paths are composed with `/`.

use crate::text::{has_suffix, str_has_suffix};
use vstd::prelude::*;
use vstd::string::StringExecFns;
use vstd::string::StrSliceExecFns;

verus! {

/// A name that the traversal hides: it starts with `.`.
pub open spec fn hidden_name(name: Seq<char>) -> bool {
    name.len() > 0 && name[0] == '.'
}

/// A visible path component: nonempty, not hidden, without a separator.
pub open spec fn visible_component(name: Seq<char>) -> bool {
    name.len() > 0 && name[0] != '.' && !name.contains('/')
}

pub open spec fn all_visible(comps: Seq<Seq<char>>) -> bool {
    forall|i: int| 0 <= i < comps.len() ==> visible_component(#[trigger] comps[i])
}

/// The root path extended by components, joined with `/`.
pub open spec fn joined(root: Seq<char>, comps: Seq<Seq<char>>) -> Seq<char>
    decreases comps,
{
    if comps.len() == 0 {
        root
    } else {
        joined(root, comps.drop_last()) + seq!['/'] + comps.last()
    }
}

/// A candidate manifest file name: it ends with `.json`.
pub open spec fn json_name(name: Seq<char>) -> bool {
    has_suffix(name, ".json"@)
}

/// A path of visible components under the root never has a `.` after a `/`
/// beyond the root prefix: no hidden name occurs along it.
pub proof fn lemma_visible_path_hides_nothing(root: Seq<char>, comps: Seq<Seq<char>>)
    requires
        all_visible(comps),
    ensures
        joined(root, comps).len() >= root.len(),
        joined(root, comps).subrange(0, root.len() as int) == root,
        forall|i: int|
            root.len() <= i < joined(root, comps).len() - 1 && (#[trigger] joined(
                root,
                comps,
            )[i]) == '/' ==> joined(root, comps)[i + 1] != '.',
    decreases comps,
{
    let p = joined(root, comps);
    if comps.len() == 0 {
        assert(p.subrange(0, root.len() as int) =~= root);
    } else {
        assert forall|i: int|
            0 <= i < comps.drop_last().len() implies visible_component(
            #[trigger] comps.drop_last()[i],
        ) by {
            assert(comps.drop_last()[i] == comps[i]);
        }
        lemma_visible_path_hides_nothing(root, comps.drop_last());
        let prev = joined(root, comps.drop_last());
        let last = comps.last();
        assert(visible_component(last));
        assert(p == prev + seq!['/'] + last);
        assert(p.len() == prev.len() + 1 + last.len());
        assert forall|i: int| 0 <= i < prev.len() implies p[i] == prev[i] by {
            assert((prev + seq!['/'])[i] == prev[i]);
        }
        assert(p.subrange(0, root.len() as int) =~= root);
        assert(p[prev.len() as int] == '/');
        assert forall|i: int|
            root.len() <= i < p.len() - 1 && (#[trigger] p[i]) == '/' implies p[i + 1] != '.' by {
            if i < prev.len() - 1 {
                assert(p[i] == prev[i] && p[i + 1] == prev[i + 1]);
            } else if i == prev.len() - 1 {
                assert(p[i + 1] == '/');
            } else if i == prev.len() {
                assert(p[i + 1] == last[0]);
            } else {
                let j = i - prev.len() - 1;
                assert(p[i] == last[j]);
                assert(!last.contains('/'));
                assert(last[j] != '/');
            }
        }
    }
}

/// A directory awaiting its read: its path, and (for the proofs) the visible
/// components that lead to it from the root.
struct PendingDir {
    path: String,
    comps: Ghost<Seq<Seq<char>>>,
}

/// The traversal state over one root directory.
pub struct ManifestWalker {
    root: String,
    exclude: String,
    pending: Vec<PendingDir>,
    current: Option<PendingDir>,
}

impl ManifestWalker {
    /// A pending or current directory lies under the root along visible
    /// components.
    spec fn dir_wf(&self, d: PendingDir) -> bool {
        all_visible(d.comps@) && d.path@ == joined(self.root@, d.comps@)
    }

    pub closed spec fn wf(&self) -> bool {
        &&& forall|i: int|
            0 <= i < self.pending@.len() ==> self.dir_wf(#[trigger] self.pending@[i])
        &&& match self.current {
            Some(d) => self.dir_wf(d),
            None => true,
        }
    }

    pub closed spec fn root_view(&self) -> Seq<char> {
        self.root@
    }

    pub closed spec fn exclude_view(&self) -> Seq<char> {
        self.exclude@
    }

    /// A directory has been handed out and its entries may be offered.
    pub closed spec fn has_current(&self) -> bool {
        self.current is Some
    }

    /// The paths of the directories still to be read, oldest first; the
    /// next read takes the last.
    pub closed spec fn pending_paths(&self) -> Seq<Seq<char>> {
        Seq::new(self.pending@.len(), |i: int| self.pending@[i].path@)
    }

    /// The path of the directory whose entries are being offered.
    pub closed spec fn current_path(&self) -> Seq<char> {
        self.current->Some_0.path@
    }

    /// A walker over `root`, yielding no path equal to `exclude` (the feed
    /// file's own path). The root is never subject to the hidden rule.
    pub fn new(root: String, exclude: String) -> (w: ManifestWalker)
        ensures
            w.wf(),
            w.root_view() == root@,
            w.exclude_view() == exclude@,
            !w.has_current(),
            w.pending_paths() == seq![root@],
    {
        let start = PendingDir { path: root.clone(), comps: Ghost(Seq::empty()) };
        let mut pending: Vec<PendingDir> = Vec::new();
        pending.push(start);
        let w = ManifestWalker { root, exclude, pending, current: None };
        proof {
            assert(w.pending_paths() =~= seq![w.root@]);
        }
        w
    }

    /// The next directory to read, or `None` when the traversal is done.
    /// The directory handed out lies under the root along visible
    /// components only.
    pub fn next_dir(&mut self) -> (r: Option<String>)
        requires
            old(self).wf(),
        ensures
            final(self).wf(),
            final(self).root_view() == old(self).root_view(),
            final(self).exclude_view() == old(self).exclude_view(),
            r is Some <==> final(self).has_current(),
            r is Some <==> old(self).pending_paths().len() > 0,
            r matches Some(p) ==> {
                &&& p@ == final(self).current_path()
                &&& p@ == old(self).pending_paths().last()
                &&& final(self).pending_paths() == old(self).pending_paths().drop_last()
                &&& exists|comps: Seq<Seq<char>>|
                    all_visible(comps) && p@ == joined(final(self).root_view(), comps)
            },
            r is None ==> final(self).pending_paths() == old(self).pending_paths(),
    {
        match self.pending.pop() {
            Some(d) => {
                let p = d.path.clone();
                let ghost comps = d.comps@;
                self.current = Some(d);
                proof {
                    assert(all_visible(comps) && p@ == joined(self.root_view(), comps));
                    assert(final(self).pending_paths() =~= old(self).pending_paths().drop_last());
                }
                Some(p)
            },
            None => {
                self.current = None;
                proof {
                    assert(final(self).pending_paths() =~= old(self).pending_paths());
                }
                None
            },
        }
    }

    /// Offers one entry — name and kind — of the directory last handed out.
    ///
    /// A hidden entry is skipped; a hidden directory is thereby pruned with
    /// its whole subtree. A visible directory is queued for its own read. A
    /// visible file is yielded exactly when its name ends in `.json` and its
    /// path is not the excluded path. Every yielded path lies under the root
    /// along visible components: never inside a hidden directory.
    pub fn offer_entry(&mut self, name: &String, is_dir: bool) -> (r: Option<String>)
        requires
            old(self).wf(),
            name@.len() > 0,
            !name@.contains('/'),
        ensures
            final(self).wf(),
            final(self).root_view() == old(self).root_view(),
            final(self).exclude_view() == old(self).exclude_view(),
            final(self).has_current() == old(self).has_current(),
            old(self).has_current() ==> final(self).current_path() == old(self).current_path(),
            final(self).pending_paths() == if old(self).has_current() && is_dir && !hidden_name(
                name@,
            ) {
                old(self).pending_paths().push(old(self).current_path() + seq!['/'] + name@)
            } else {
                old(self).pending_paths()
            },
            (r is Some) == (old(self).has_current() && !is_dir && !hidden_name(name@)
                && json_name(name@) && old(self).current_path() + seq!['/'] + name@
                != old(self).exclude_view()),
            r matches Some(p) ==> {
                &&& p@ == old(self).current_path() + seq!['/'] + name@
                &&& json_name(name@)
                &&& !hidden_name(name@)
                &&& p@ != old(self).exclude_view()
                &&& exists|comps: Seq<Seq<char>>|
                    all_visible(comps) && p@ == joined(old(self).root_view(), comps)
            },
    {
        let first = name.as_str().get_char(0);
        if first == '.' {
            return None;
        }
        let (cur_path, cur_comps): (String, Ghost<Seq<Seq<char>>>) = match &self.current {
            Some(d) => (d.path.clone(), Ghost(d.comps@)),
            None => {
                return None;
            },
        };
        let mut p = cur_path;
        p.append("/");
        p.append(name.as_str());
        let ghost child_comps = cur_comps@.push(name@);
        proof {
            reveal_strlit("/");
            assert("/"@ =~= seq!['/']);
            assert(p@ == old(self).current_path() + seq!['/'] + name@);
            assert(visible_component(name@));
            assert(child_comps.drop_last() =~= cur_comps@);
            assert(all_visible(child_comps));
            assert(p@ == joined(self.root_view(), child_comps));
        }
        if is_dir {
            let child = PendingDir { path: p, comps: Ghost(child_comps) };
            self.pending.push(child);
            proof {
                assert forall|i: int|
                    0 <= i < self.pending@.len() implies self.dir_wf(
                    #[trigger] self.pending@[i],
                ) by {
                    if i < self.pending@.len() - 1 {
                        assert(self.pending@[i] == old(self).pending@[i]);
                    }
                }
                assert(self.pending_paths() =~= old(self).pending_paths().push(
                    old(self).current_path() + seq!['/'] + name@,
                ));
            }
            return None;
        }
        if !str_has_suffix(name.as_str(), ".json") {
            return None;
        }
        if p == self.exclude {
            return None;
        }
        Some(p)
    }
}

} // verus!
