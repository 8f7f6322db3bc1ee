//! The entry store: the whole tree as a map from canonical path to entry, and
//! the resolution of a path against it.

use vstd::prelude::*;
use crate::errors::PathError;
use crate::path::{all_real, is_real_component, has_separator, join, normalize, strings_view, lemma_normalize_real, normalized_components};
use crate::perms::{Mode, Permissions, UserInfo};
use crate::table::{Dir, Entry, EntryTable, table_entries};

verus! {

/// `c` is the path of an entry that sits directly in the directory at `d`:
/// `d`, a separator, and one non-empty name without a separator.
pub open spec fn is_child_of(c: Seq<char>, d: Seq<char>) -> bool {
    &&& c.len() > d.len() + 1
    &&& c.subrange(0, d.len() as int) == d
    &&& c[d.len() as int] == '/'
    &&& forall|i: int| d.len() < i < c.len() ==> c[i] != '/'
}

/// The stored paths that sit directly in the directory at `d`.
pub open spec fn children(m: Map<Seq<char>, Entry>, d: Seq<char>) -> Set<Seq<char>> {
    m.dom().filter(|c: Seq<char>| is_child_of(c, d))
}

pub open spec fn is_dir(m: Map<Seq<char>, Entry>, k: Seq<char>) -> bool {
    m.contains_key(k) && m[k] is Dir
}

/// Every directory's count equals the number of entries directly in it.
pub open spec fn children_counted(m: Map<Seq<char>, Entry>) -> bool {
    forall|d: Seq<char>| #[trigger] is_dir(m, d) ==> m[d]->Dir_0.children_count == children(m, d).len()
}

/// Every stored path but the root's sits directly in a stored directory.
pub open spec fn parents_present(m: Map<Seq<char>, Entry>) -> bool {
    forall|k: Seq<char>|
        #[trigger] m.contains_key(k) && k != Seq::<char>::empty() ==> exists|p: Seq<char>|
            is_dir(m, p) && #[trigger] is_child_of(k, p)
}

/// The invariant of a tree of entries.
pub open spec fn tree_wf(m: Map<Seq<char>, Entry>) -> bool {
    &&& m.dom().finite()
    &&& is_dir(m, Seq::<char>::empty())
    &&& parents_present(m)
    &&& children_counted(m)
}

/// Why resolution stops at the directory that should be at `k`, if it does.
pub open spec fn dir_failure(m: Map<Seq<char>, Entry>, k: Seq<char>, who: UserInfo) -> Option<PathError> {
    if !m.contains_key(k) {
        Some(PathError::MissingComponent)
    } else if m[k] is File {
        Some(PathError::ComponentNotADirectory)
    } else if !m[k]->Dir_0.perms.searchable_by(who) {
        Some(PathError::NoSearchPerms)
    } else {
        None
    }
}

/// The first failure met while walking through the first `n` ancestors of
/// the path made of `cs`, root first.
pub open spec fn first_failure(m: Map<Seq<char>, Entry>, cs: Seq<Seq<char>>, who: UserInfo, n: nat) -> Option<PathError>
    decreases n,
{
    if n == 0 {
        None
    } else {
        match first_failure(m, cs, who, (n - 1) as nat) {
            Some(e) => Some(e),
            None => dir_failure(m, join(cs.take(n - 1)), who),
        }
    }
}

/// The failure of resolving the path made of `cs`, if any: every ancestor
/// must be a stored directory that `who` may search.
pub open spec fn resolve_failure(m: Map<Seq<char>, Entry>, cs: Seq<Seq<char>>, who: UserInfo) -> Option<PathError> {
    first_failure(m, cs, who, cs.len())
}

pub proof fn lemma_child_unique(c: Seq<char>, d1: Seq<char>, d2: Seq<char>)
    requires
        is_child_of(c, d1),
        is_child_of(c, d2),
    ensures
        d1 == d2,
{
    if d1.len() < d2.len() {
        assert(c[d2.len() as int] == '/');
    } else if d2.len() < d1.len() {
        assert(c[d1.len() as int] == '/');
    }
}

pub proof fn lemma_join_child(cs: Seq<Seq<char>>)
    requires
        cs.len() > 0,
        is_real_component(cs.last()),
    ensures
        is_child_of(join(cs), join(cs.drop_last())),
{
    let d = join(cs.drop_last());
    let c = join(cs);
    let w = cs.last();
    assert(c == d + seq!['/'] + w);
    assert(c.subrange(0, d.len() as int) =~= d);
    assert forall|i: int| d.len() < i < c.len() implies c[i] != '/' by {
        assert(c[i] == w[i - d.len() - 1]);
        if w[i - d.len() - 1] == '/' {
            assert(has_separator(w));
        }
    }
}

pub proof fn lemma_first_failure_stays(m: Map<Seq<char>, Entry>, cs: Seq<Seq<char>>, who: UserInfo, i: nat, n: nat)
    requires
        i <= n,
        first_failure(m, cs, who, i) is Some,
    ensures
        first_failure(m, cs, who, n) == first_failure(m, cs, who, i),
    decreases n - i,
{
    if i < n {
        lemma_first_failure_stays(m, cs, who, i, (n - 1) as nat);
    }
}

pub proof fn lemma_join_shorter(cs: Seq<Seq<char>>, i: int)
    requires
        0 <= i < cs.len(),
    ensures
        join(cs.take(i)).len() < join(cs).len(),
    decreases cs.len(),
{
    if i == cs.len() - 1 {
        assert(cs.take(i) =~= cs.drop_last());
    } else {
        lemma_join_shorter(cs.drop_last(), i);
        assert(cs.drop_last().take(i) =~= cs.take(i));
    }
}

/// Resolution reads only the ancestors: two maps that agree on them give the
/// same failure.
pub proof fn lemma_first_failure_frame(m: Map<Seq<char>, Entry>, m2: Map<Seq<char>, Entry>, cs: Seq<Seq<char>>, who: UserInfo, n: nat)
    requires
        forall|j: int| 0 <= j < n ==> dir_failure(m, #[trigger] join(cs.take(j)), who) == dir_failure(m2, join(cs.take(j)), who),
    ensures
        first_failure(m, cs, who, n) == first_failure(m2, cs, who, n),
    decreases n,
{
    if n > 0 {
        lemma_first_failure_frame(m, m2, cs, who, (n - 1) as nat);
        assert(dir_failure(m, join(cs.take(n - 1)), who) == dir_failure(m2, join(cs.take(n - 1)), who));
    }
}

/// Where resolution succeeds on a path of at least one component, its parent
/// is a stored directory that it sits directly in.
pub proof fn lemma_resolved_parent(m: Map<Seq<char>, Entry>, cs: Seq<Seq<char>>, who: UserInfo)
    requires
        cs.len() > 0,
        all_real(cs),
        resolve_failure(m, cs, who) is None,
    ensures
        is_dir(m, join(cs.drop_last())),
        m[join(cs.drop_last())]->Dir_0.perms.searchable_by(who),
        is_child_of(join(cs), join(cs.drop_last())),
{
    assert(cs.take(cs.len() - 1) =~= cs.drop_last());
    assert(is_real_component(cs[cs.len() - 1]));
    lemma_join_child(cs);
}

pub proof fn lemma_children_bounded(m: Map<Seq<char>, Entry>, d: Seq<char>)
    requires
        m.dom().finite(),
    ensures
        children(m, d).len() <= m.dom().len(),
{
    vstd::set_lib::lemma_len_subset(children(m, d), m.dom());
}

/// Storing a new empty directory `k` directly in the stored directory `pk`,
/// whose count goes up by one, keeps a tree well formed.
pub proof fn lemma_insert_child(m: Map<Seq<char>, Entry>, pk: Seq<char>, k: Seq<char>, np: Dir, nd: Dir)
    requires
        tree_wf(m),
        is_dir(m, pk),
        is_child_of(k, pk),
        !m.contains_key(k),
        np.children_count == m[pk]->Dir_0.children_count + 1,
        nd.children_count == 0,
    ensures
        tree_wf(m.insert(pk, Entry::Dir(np)).insert(k, Entry::Dir(nd))),
{
    let m2 = m.insert(pk, Entry::Dir(np)).insert(k, Entry::Dir(nd));
    let root = Seq::<char>::empty();
    assert(m2.dom() =~= m.dom().insert(k));
    assert(is_dir(m2, root));
    assert forall|x: Seq<char>| #[trigger] m2.contains_key(x) && x != root implies exists|p: Seq<char>|
        is_dir(m2, p) && #[trigger] is_child_of(x, p) by {
        if x == k {
            assert(is_dir(m2, pk) && is_child_of(x, pk));
        } else {
            assert(m.contains_key(x));
            let p = choose|p: Seq<char>| is_dir(m, p) && #[trigger] is_child_of(x, p);
            assert(is_dir(m2, p) && is_child_of(x, p));
        }
    }
    assert forall|d: Seq<char>| #[trigger] is_dir(m2, d) implies m2[d]->Dir_0.children_count == children(m2, d).len() by {
        if d == k {
            assert forall|x: Seq<char>| !children(m2, k).contains(x) by {
                if children(m2, k).contains(x) {
                    assert(x != k);
                    assert(m.contains_key(x));
                    assert(x != root);
                    let p = choose|p: Seq<char>| is_dir(m, p) && #[trigger] is_child_of(x, p);
                    lemma_child_unique(x, p, k);
                }
            }
            assert(children(m2, k) =~= Set::<Seq<char>>::empty());
        } else if d == pk {
            assert(children(m2, pk) =~= children(m, pk).insert(k));
        } else {
            assert(is_dir(m, d));
            assert forall|x: Seq<char>| children(m2, d).contains(x) <==> children(m, d).contains(x) by {
                if x == k && is_child_of(x, d) {
                    lemma_child_unique(x, d, pk);
                }
            }
            assert(children(m2, d) =~= children(m, d));
        }
    }
}

/// Removing the stored entry `k`, a file or a directory that holds nothing,
/// from the stored directory `pk`, whose count goes down by one, keeps a tree
/// well formed.
pub proof fn lemma_remove_child(m: Map<Seq<char>, Entry>, pk: Seq<char>, k: Seq<char>, np: Dir)
    requires
        tree_wf(m),
        is_dir(m, pk),
        is_child_of(k, pk),
        m.contains_key(k),
        m[k] is Dir ==> m[k]->Dir_0.children_count == 0,
        np.children_count + 1 == m[pk]->Dir_0.children_count,
    ensures
        tree_wf(m.insert(pk, Entry::Dir(np)).remove(k)),
{
    let m2 = m.insert(pk, Entry::Dir(np)).remove(k);
    let root = Seq::<char>::empty();
    assert(m2.dom() =~= m.dom().remove(k));
    assert forall|x: Seq<char>| !children(m, k).contains(x) by {
        if children(m, k).contains(x) {
            if m[k] is Dir {
                assert(is_dir(m, k));
                assert(children(m, k).remove(x).len() + 1 == children(m, k).len());
            } else {
                assert(m.contains_key(x) && x != root);
                let p = choose|p: Seq<char>| is_dir(m, p) && #[trigger] is_child_of(x, p);
                lemma_child_unique(x, p, k);
            }
        }
    }
    assert(is_dir(m2, root));
    assert forall|x: Seq<char>| #[trigger] m2.contains_key(x) && x != root implies exists|p: Seq<char>|
        is_dir(m2, p) && #[trigger] is_child_of(x, p) by {
        assert(m.contains_key(x));
        let p = choose|p: Seq<char>| is_dir(m, p) && #[trigger] is_child_of(x, p);
        if p == k {
            assert(children(m, k).contains(x));
        }
        assert(is_dir(m2, p) && is_child_of(x, p));
    }
    assert forall|d: Seq<char>| #[trigger] is_dir(m2, d) implies m2[d]->Dir_0.children_count == children(m2, d).len() by {
        if d == pk {
            assert(children(m2, pk) =~= children(m, pk).remove(k));
        } else {
            assert(is_dir(m, d));
            assert forall|x: Seq<char>| children(m2, d).contains(x) <==> children(m, d).contains(x) by {
                if x == k && is_child_of(x, d) {
                    lemma_child_unique(x, d, pk);
                }
            }
            assert(children(m2, d) =~= children(m, d));
        }
    }
}

/// Replacing a stored entry by one of the same kind, a directory keeping its
/// count, keeps a tree well formed.
pub proof fn lemma_replace_entry(m: Map<Seq<char>, Entry>, k: Seq<char>, e: Entry)
    requires
        tree_wf(m),
        m.contains_key(k),
        m[k] is Dir <==> e is Dir,
        e is Dir ==> e->Dir_0.children_count == m[k]->Dir_0.children_count,
    ensures
        tree_wf(m.insert(k, e)),
{
    let m2 = m.insert(k, e);
    assert(m2.dom() =~= m.dom());
    assert forall|x: Seq<char>| #[trigger] m2.contains_key(x) && x != Seq::<char>::empty() implies exists|p: Seq<char>|
        is_dir(m2, p) && #[trigger] is_child_of(x, p) by {
        let p = choose|p: Seq<char>| is_dir(m, p) && #[trigger] is_child_of(x, p);
        assert(is_dir(m2, p));
    }
    assert forall|d: Seq<char>| #[trigger] is_dir(m2, d) implies m2[d]->Dir_0.children_count == children(m2, d).len() by {
        assert(is_dir(m, d));
        assert(children(m2, d) =~= children(m, d));
    }
}

/// A directory that holds the stored path `k` has a count of at least one.
pub proof fn lemma_parent_count_positive(m: Map<Seq<char>, Entry>, pk: Seq<char>, k: Seq<char>)
    requires
        tree_wf(m),
        is_dir(m, pk),
        is_child_of(k, pk),
        m.contains_key(k),
    ensures
        m[pk]->Dir_0.children_count >= 1,
{
    assert(children(m, pk).contains(k));
    assert(children(m, pk).remove(k).len() + 1 == children(m, pk).len());
}

/// What a successful resolution of the path made of `cs` gives: the parent's
/// path and directory, none for the root, and the entry stored at the path.
pub open spec fn resolved(
    m: Map<Seq<char>, Entry>,
    cs: Seq<Seq<char>>,
    parent: Option<(String, Dir)>,
    entry: Option<Entry>,
) -> bool {
    &&& (parent is None <==> cs.len() == 0)
    &&& (parent matches Some((pk, pd)) ==> pk@ == join(cs.drop_last()) && m.contains_key(pk@)
        && m[pk@] == Entry::Dir(pd))
    &&& entry == (if m.contains_key(join(cs)) {
        Some(m[join(cs)])
    } else {
        None
    })
}

/// The store of all entries, keyed by canonical path; the root directory is
/// stored under the empty path.
pub(crate) struct RootDir {
    pub(crate) entries: EntryTable,
}

/// The entries of a new file system: the root directory alone, owned by user
/// and group 0, open to its owner and readable and searchable by everyone else.
pub open spec fn initial_entries() -> Map<Seq<char>, Entry> {
    Map::<Seq<char>, Entry>::empty().insert(
        Seq::<char>::empty(),
        Entry::Dir(Dir {
            perms: Permissions { mode: root_mode(), userinfo: UserInfo { user: 0, group: 0 } },
            children_count: 0,
        }),
    )
}

pub open spec fn root_mode() -> Mode {
    Mode { bits: 0o755 }
}

impl RootDir {
    pub(crate) open spec fn view(&self) -> Map<Seq<char>, Entry> {
        table_entries(self.entries)
    }

    /// A store that holds only the root directory, owned by user and group 0,
    /// open to its owner and readable and searchable by everyone else.
    pub(crate) fn new() -> (r: RootDir)
        ensures
            r.view() == initial_entries(),
            tree_wf(r.view()),
    {
        let mut entries = EntryTable::new();
        let bits: u16 = Mode::RWXU | Mode::RGRP | Mode::XGRP | Mode::ROTH | Mode::XOTH;
        assert(bits == 0o755) by (bit_vector)
            requires
                bits == (0o700u16 | 0o040u16 | 0o010u16 | 0o004u16 | 0o001u16),
        ;
        let mode = Mode::new(bits);
        let root = Entry::Dir(Dir {
            perms: Permissions { mode, userinfo: UserInfo { user: 0, group: 0 } },
            children_count: 0,
        });
        entries.insert(String::new(), root);
        let r = RootDir { entries };
        let ghost m = r.view();
        assert(m.dom() =~= set![Seq::<char>::empty()]);
        assert(children(m, Seq::<char>::empty()) =~= Set::<Seq<char>>::empty());
        r
    }

    /// Resolves the path `path`: walks its ancestors root first, each of
    /// which must be a stored directory that `who` may search, then looks the
    /// path itself up. Gives the parent's path and directory (none for the
    /// root) and the entry stored at the path, if any.
    pub(crate) fn parent_and_entry(&self, path: &str, who: UserInfo) -> (r: Result<(Option<(String, Dir)>, Option<Entry>), PathError>)
        ensures
            resolve_failure(self.view(), normalize(path@), who) matches Some(e) ==> r == Err::<
                (Option<(String, Dir)>, Option<Entry>),
                PathError,
            >(e),
            resolve_failure(self.view(), normalize(path@), who) is None ==> r is Ok
                && resolved(self.view(), normalize(path@), r->Ok_0.0, r->Ok_0.1),
    {
        let comps = normalized_components(path);
        let ghost m = self.view();
        let ghost cs = normalize(path@);
        proof {
            lemma_normalize_real(path@);
        }
        let mut collected = String::new();
        let mut parent: Option<(String, Dir)> = None;
        let sep = "/";
        proof {
            reveal_strlit("/");
        }
        let mut i: usize = 0;
        assert(cs.take(0) =~= Seq::<Seq<char>>::empty());
        while i < comps.len()
            invariant
                strings_view(comps@) == cs,
                cs == normalize(path@),
                all_real(cs),
                m == self.view(),
                i <= cs.len(),
                sep@ == seq!['/'],
                collected@ == join(cs.take(i as int)),
                first_failure(m, cs, who, i as nat) is None,
                parent is None <==> i == 0,
                parent matches Some((pk, pd)) ==> pk@ == join(cs.take(i - 1)) && m.contains_key(pk@)
                    && m[pk@] == Entry::Dir(pd),
            decreases cs.len() - i,
        {
            assert(first_failure(m, cs, who, (i + 1) as nat) == dir_failure(m, join(cs.take(i as int)), who));
            match self.entries.get(&collected) {
                None => {
                    proof {
                        lemma_first_failure_stays(m, cs, who, (i + 1) as nat, cs.len());
                    }
                    return Err(PathError::MissingComponent);
                },
                Some(Entry::File(_)) => {
                    proof {
                        lemma_first_failure_stays(m, cs, who, (i + 1) as nat, cs.len());
                    }
                    return Err(PathError::ComponentNotADirectory);
                },
                Some(Entry::Dir(dir)) => {
                    if !who.can_execute(&dir.perms) {
                        proof {
                            lemma_first_failure_stays(m, cs, who, (i + 1) as nat, cs.len());
                        }
                        return Err(PathError::NoSearchPerms);
                    }
                    parent = Some((collected.clone(), dir));
                },
            }
            collected.append(sep);
            collected.append(comps[i].as_str());
            assert(cs.take(i + 1).drop_last() =~= cs.take(i as int));
            assert(cs.take(i + 1).last() == cs[i as int]);
            i = i + 1;
        }
        assert(cs.take(cs.len() as int) =~= cs);
        proof {
            if cs.len() > 0 {
                assert(cs.take(cs.len() - 1) =~= cs.drop_last());
            }
        }
        let entry = self.entries.get(&collected);
        Ok((parent, entry))
    }
}

} // verus!
