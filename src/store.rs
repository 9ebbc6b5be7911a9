use vstd::prelude::*;
use vstd::string::StringExecFns;

use crate::hook::{strs, Hook};

verus! {

broadcast use vstd::seq_lib::group_seq_properties;

/// Name of the manifest file at the root of a hook repository.
pub const MANIFEST_FILE: &'static str = ".pre-commit-hooks.yaml";

/// The path that `std::path::Path::join` makes of `base` and `name`.
pub uninterp spec fn path_join(base: Seq<char>, name: Seq<char>) -> Seq<char>;

/// Relies on std's `Path::join`: `name` appended to `base` as a path component.
#[verifier::external_body]
fn join_path(base: &str, name: &str) -> (r: String)
    ensures
        r@ == path_join(base@, name@),
{
    std::path::Path::new(base).join(name).to_string_lossy().into_owned()
}

/// Position of the last hook of `s` with id `id`, or -1.
pub open spec fn last_index(s: Seq<Hook>, id: Seq<char>) -> int
    decreases s.len(),
{
    if s.len() == 0 {
        -1
    } else if s.last().id@ == id {
        s.len() - 1
    } else {
        last_index(s.drop_last(), id)
    }
}

/// Hooks by id; where ids repeat, the last one counts.
pub open spec fn keyed(s: Seq<Hook>) -> Map<Seq<char>, Hook> {
    Map::new(|id: Seq<char>| last_index(s, id) >= 0, |id: Seq<char>| s[last_index(s, id)])
}

proof fn lemma_last_index(s: Seq<Hook>, id: Seq<char>, i: int)
    requires
        0 <= i <= s.len(),
        forall|j: int| i <= j < s.len() ==> s[j].id@ != id,
    ensures
        last_index(s, id) == last_index(s.take(i), id),
        -1 <= last_index(s, id) < s.len(),
        last_index(s, id) >= 0 ==> s[last_index(s, id)].id@ == id,
    decreases s.len() - i,
{
    if i < s.len() {
        assert(s.drop_last().take(i) == s.take(i));
        lemma_last_index(s.drop_last(), id, i);
    } else {
        assert(s.take(i) == s);
        lemma_last_index_range(s, id);
    }
}

proof fn lemma_last_index_range(s: Seq<Hook>, id: Seq<char>)
    ensures
        -1 <= last_index(s, id) < s.len(),
        last_index(s, id) >= 0 ==> s[last_index(s, id)].id@ == id,
    decreases s.len(),
{
    if s.len() > 0 && s.last().id@ != id {
        lemma_last_index_range(s.drop_last(), id);
    }
}

proof fn lemma_last_index_exists(s: Seq<Hook>, id: Seq<char>)
    ensures
        (last_index(s, id) >= 0) == (exists|j: int| 0 <= j < s.len() && s[j].id@ == id),
    decreases s.len(),
{
    lemma_last_index_range(s, id);
    if s.len() > 0 && s.last().id@ != id {
        lemma_last_index_exists(s.drop_last(), id);
        if exists|j: int| 0 <= j < s.len() && s[j].id@ == id {
            let j = choose|j: int| 0 <= j < s.len() && s[j].id@ == id;
            assert(s.drop_last()[j] == s[j]);
        }
        if exists|j: int| 0 <= j < s.drop_last().len() && s.drop_last()[j].id@ == id {
            let j = choose|j: int| 0 <= j < s.drop_last().len() && s.drop_last()[j].id@ == id;
            assert(s[j] == s.drop_last()[j]);
        }
    }
}

proof fn lemma_keyed_push(s: Seq<Hook>, h: Hook)
    ensures
        keyed(s.push(h)) == keyed(s).insert(h.id@, h),
{
    assert(s.push(h).drop_last() == s);
    assert forall|id: Seq<char>| #[trigger] last_index(s.push(h), id) == if h.id@ == id {
        s.len() as int
    } else {
        last_index(s, id)
    } by {}
    assert forall|id: Seq<char>| last_index(s, id) >= 0 implies #[trigger] s.push(h)[last_index(
        s,
        id,
    )] == s[last_index(s, id)] by {
        lemma_last_index_range(s, id);
    }
    assert(keyed(s.push(h)) =~= keyed(s).insert(h.id@, h));
}

/// No two hooks of `s` share an id.
pub open spec fn unique_ids(s: Seq<Hook>) -> bool {
    forall|i: int, j: int| 0 <= i < s.len() && 0 <= j < s.len() && i != j ==> #[trigger] s[i].id@
        != #[trigger] s[j].id@
}

/// `r` holds, once each, exactly the hooks that `k` maps to.
pub open spec fn lists_map(r: Seq<Hook>, k: Map<Seq<char>, Hook>) -> bool {
    &&& unique_ids(r)
    &&& forall|j: int|
        0 <= j < r.len() ==> k.contains_key(#[trigger] r[j].id@) && k[r[j].id@] == r[j]
    &&& forall|id: Seq<char>|
        #[trigger] k.contains_key(id) ==> exists|j: int| 0 <= j < r.len() && r[j].id@ == id
}

proof fn lemma_lists_map_keyed(r: Seq<Hook>, k: Map<Seq<char>, Hook>)
    requires
        lists_map(r, k),
    ensures
        keyed(r) == k,
{
    assert forall|id: Seq<char>| #[trigger] keyed(r).contains_key(id) == k.contains_key(id) by {
        lemma_last_index_exists(r, id);
        if keyed(r).contains_key(id) {
            let j = choose|j: int| 0 <= j < r.len() && r[j].id@ == id;
            assert(k.contains_key(r[j].id@));
        }
    }
    assert forall|id: Seq<char>| #[trigger] keyed(r).contains_key(id) implies keyed(r)[id] == k[id] by {
        lemma_last_index_range(r, id);
        let j = last_index(r, id);
        assert(k.contains_key(r[j].id@) && k[r[j].id@] == r[j]);
    }
    assert(keyed(r) =~= k);
}

/// Hooks of `manifest` with one hook per id, the last one the manifest lists.
fn last_per_id(manifest: Vec<Hook>) -> (r: Vec<Hook>)
    ensures
        lists_map(r@, keyed(manifest@)),
{
    let ghost m = manifest@;
    let mut rest = manifest;
    let mut r: Vec<Hook> = Vec::new();
    let ghost mut i: int = 0;
    while rest.len() > 0
        invariant
            0 <= i <= m.len(),
            rest@ == m.skip(i),
            lists_map(r@, keyed(m.take(i))),
        decreases rest.len(),
    {
        let h = rest.remove(0);
        proof {
            assert(h == m[i]);
            assert(m.take(i + 1) == m.take(i).push(h));
            lemma_keyed_push(m.take(i), h);
            assert(rest@ == m.skip(i + 1));
        }
        let ghost k0 = keyed(m.take(i));
        let ghost k1 = keyed(m.take(i + 1));
        let mut p: usize = 0;
        while p < r.len() && !crate::filter::str_eq(r[p].id.as_str(), h.id.as_str())
            invariant
                0 <= p <= r.len(),
                forall|q: int| 0 <= q < p ==> r@[q].id@ != h.id@,
            decreases r.len() - p,
        {
            p = p + 1;
        }
        let ghost before = r@;
        if p < r.len() {
            r.set(p, h);
            proof {
                assert forall|j: int| 0 <= j < r@.len() implies k1.contains_key(#[trigger] r@[j].id@)
                    && k1[r@[j].id@] == r@[j] by {
                    if j != p {
                        assert(before[j] == r@[j]);
                        assert(before[j].id@ != before[p as int].id@);
                    }
                }
                assert forall|id: Seq<char>| #[trigger] k1.contains_key(id) implies exists|j: int|
                    0 <= j < r@.len() && r@[j].id@ == id by {
                    if id == h.id@ {
                        assert(r@[p as int].id@ == id);
                    } else {
                        assert(k0.contains_key(id));
                        let j = choose|j: int| 0 <= j < before.len() && before[j].id@ == id;
                        assert(r@[j] == before[j]);
                    }
                }
                assert(unique_ids(r@)) by {
                    assert forall|a: int, b: int|
                        0 <= a < r@.len() && 0 <= b < r@.len() && a != b implies #[trigger] r@[a].id@
                        != #[trigger] r@[b].id@ by {
                        assert(before[a].id@ != before[b].id@);
                    }
                }
            }
        } else {
            r.push(h);
            proof {
                assert forall|j: int| 0 <= j < r@.len() implies k1.contains_key(#[trigger] r@[j].id@)
                    && k1[r@[j].id@] == r@[j] by {
                    if j < before.len() {
                        assert(before[j] == r@[j]);
                        assert(before[j].id@ != h.id@);
                    }
                }
                assert forall|id: Seq<char>| #[trigger] k1.contains_key(id) implies exists|j: int|
                    0 <= j < r@.len() && r@[j].id@ == id by {
                    if id == h.id@ {
                        assert(r@[before.len() as int].id@ == id);
                    } else {
                        assert(k0.contains_key(id));
                        let j = choose|j: int| 0 <= j < before.len() && before[j].id@ == id;
                        assert(r@[j] == before[j]);
                    }
                }
                assert(unique_ids(r@)) by {
                    assert forall|a: int, b: int|
                        0 <= a < r@.len() && 0 <= b < r@.len() && a != b implies #[trigger] r@[a].id@
                        != #[trigger] r@[b].id@ by {
                        if a < before.len() && b < before.len() {
                            assert(before[a].id@ != before[b].id@);
                        }
                    }
                }
            }
        }
        proof {
            i = i + 1;
        }
    }
    proof {
        assert(m.take(i) == m);
    }
    r
}

/// A hook repository: its name and revision, the path of its manifest, and
/// the hooks that the manifest declares, one per id.
#[derive(Debug)]
pub struct Repo {
    name: String,
    rev: String,
    path: String,
    hooks: Vec<Hook>,
}

impl Repo {
    pub closed spec fn name_view(&self) -> Seq<char> {
        self.name@
    }

    pub closed spec fn rev_view(&self) -> Seq<char> {
        self.rev@
    }

    pub closed spec fn path_view(&self) -> Seq<char> {
        self.path@
    }

    pub closed spec fn hook_list(&self) -> Seq<Hook> {
        self.hooks@
    }

    /// Hooks by id.
    pub open spec fn hook_map(&self) -> Map<Seq<char>, Hook> {
        keyed(self.hook_list())
    }

    /// The hooks are listed once per id.
    pub open spec fn wf(&self) -> bool {
        lists_map(self.hook_list(), self.hook_map())
    }

    /// The repository checked out at `path`, whose manifest declares
    /// `manifest_hooks`; its path is that of the manifest. Where the manifest
    /// repeats an id, the last hook with that id is kept.
    pub fn from_path(name: String, rev: String, path: &str, manifest_hooks: Vec<Hook>) -> (r: Self)
        ensures
            r.name_view() == name@,
            r.rev_view() == rev@,
            r.path_view() == path_join(path@, MANIFEST_FILE@),
            r.wf(),
            lists_map(r.hook_list(), keyed(manifest_hooks@)),
            r.hook_map() == keyed(manifest_hooks@),
    {
        let path = join_path(path, MANIFEST_FILE);
        let hooks = last_per_id(manifest_hooks);
        proof {
            lemma_lists_map_keyed(hooks@, keyed(manifest_hooks@));
        }
        Repo { name, rev, path, hooks }
    }

    pub fn name(&self) -> (r: &str)
        ensures
            r@ == self.name_view(),
    {
        self.name.as_str()
    }

    pub fn rev(&self) -> (r: &str)
        ensures
            r@ == self.rev_view(),
    {
        self.rev.as_str()
    }

    pub fn path(&self) -> (r: &str)
        ensures
            r@ == self.path_view(),
    {
        self.path.as_str()
    }

    /// The hooks, one per id.
    pub fn hooks(&self) -> (r: &[Hook])
        requires
            self.wf(),
        ensures
            r@ == self.hook_list(),
            lists_map(r@, self.hook_map()),
    {
        self.hooks.as_slice()
    }

    /// The hook with id `id`.
    pub fn hook(&self, id: &str) -> (r: Option<&Hook>)
        ensures
            r is Some == self.hook_map().contains_key(id@),
            r matches Some(h) ==> *h == self.hook_map()[id@],
    {
        let ghost s = self.hooks@;
        let mut i: usize = self.hooks.len();
        while i > 0
            invariant
                0 <= i <= self.hooks.len(),
                s == self.hooks@,
                forall|j: int| i <= j < s.len() ==> s[j].id@ != id@,
            decreases i,
        {
            if crate::filter::str_eq(self.hooks[i - 1].id.as_str(), id) {
                proof {
                    lemma_last_index(s, id@, i as int);
                    assert(s.take(i as int).last() == s[i - 1]);
                }
                return Some(&self.hooks[i - 1]);
            }
            i = i - 1;
        }
        proof {
            lemma_last_index(s, id@, 0);
        }
        None
    }

    /// `name@rev`.
    pub fn display(&self) -> (r: String)
        ensures
            r@ == self.name_view() + "@"@ + self.rev_view(),
    {
        let mut r = self.name.clone();
        r.append("@");
        r.append(self.rev.as_str());
        r
    }
}

/// The texts of `deps` separated by commas.
pub open spec fn comma_joined(deps: Seq<Seq<char>>) -> Seq<char>
    decreases deps.len(),
{
    if deps.len() == 0 {
        Seq::empty()
    } else if deps.len() == 1 {
        deps[0]
    } else {
        comma_joined(deps.drop_last()) + ","@ + deps.last()
    }
}

/// Cache key of a repository with extra dependencies: the repository, then,
/// where there are dependencies, a colon and the dependencies separated by
/// commas.
pub fn repo_name(repo: &str, deps: &[String]) -> (r: String)
    ensures
        deps.len() == 0 ==> r@ == repo@,
        deps.len() > 0 ==> r@ == repo@ + ":"@ + comma_joined(strs(deps@)),
{
    let mut name = String::from_str(repo);
    if deps.len() == 0 {
        return name;
    }
    name.append(":");
    let ghost start = name@;
    let mut i: usize = 0;
    while i < deps.len()
        invariant
            0 <= i <= deps.len(),
            name@ == start + comma_joined(strs(deps@).take(i as int)),
        decreases deps.len() - i,
    {
        let ghost before = name@;
        if i > 0 {
            name.append(",");
        }
        name.append(deps[i].as_str());
        proof {
            let t = strs(deps@).take(i + 1);
            assert(t.drop_last() == strs(deps@).take(i as int));
            if i == 0 {
                assert(comma_joined(strs(deps@).take(0)) == Seq::<char>::empty());
                assert(name@ == start + deps@[0]@);
            } else {
                assert(name@ == start + comma_joined(strs(deps@).take(i as int)) + ","@ + deps@[i as int]@);
            }
        }
        i = i + 1;
    }
    assert(strs(deps@).take(deps.len() as int) == strs(deps@));
    name
}

} // verus!
