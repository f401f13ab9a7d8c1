//! Permission model: identities, role definitions with inheritance, and the
//! expansion of roles into the permissions they grant.
//!
//! Permissions are plain strings in `resource:action` form; the string `*`
//! grants every permission.

use vstd::prelude::*;
use vstd::set_lib::*;
use crate::text::str_eq;

verus! {

/// A permission string such as `doc:read`.
pub type Permission = String;

/// The views of a sequence of strings.
pub open spec fn views(v: Seq<String>) -> Seq<Seq<char>> {
    v.map_values(|s: String| s@)
}

/// Whether `v` holds `s`.
pub fn contains_str(v: &Vec<String>, s: &str) -> (r: bool)
    ensures
        r == views(v@).contains(s@),
{
    let n = v.len();
    let mut i: usize = 0;
    while i < n
        invariant
            n == v@.len(),
            i <= n,
            forall|j: int| 0 <= j < i ==> v@[j]@ != s@,
        decreases n - i,
    {
        if str_eq(v[i].as_str(), s) {
            assert(views(v@)[i as int] == s@);
            return true;
        }
        i = i + 1;
    }
    assert forall|j: int| 0 <= j < views(v@).len() implies views(v@)[j] != s@ by {
        assert(views(v@)[j] == v@[j]@);
    }
    false
}

/// A user's identity: who they are, their roles and the permissions they hold.
pub struct Identity {
    /// Unique identifier of the user.
    pub id: String,
    /// Role names, such as `admin` or `editor`.
    pub roles: Vec<String>,
    /// Permissions granted directly.
    pub permissions: Vec<Permission>,
    /// Free-form key/value metadata.
    pub metadata: Vec<(String, String)>,
}

/// The abstract value of an identity.
pub struct IdentityView {
    pub id: Seq<char>,
    pub roles: Seq<Seq<char>>,
    pub permissions: Seq<Seq<char>>,
    pub metadata: Seq<(Seq<char>, Seq<char>)>,
}

impl View for Identity {
    type V = IdentityView;

    open spec fn view(&self) -> IdentityView {
        IdentityView {
            id: self.id@,
            roles: views(self.roles@),
            permissions: views(self.permissions@),
            metadata: self.metadata@.map_values(|e: (String, String)| (e.0@, e.1@)),
        }
    }
}

impl Identity {
    pub open spec fn permission_views(&self) -> Seq<Seq<char>> {
        views(self.permissions@)
    }

    pub open spec fn role_views(&self) -> Seq<Seq<char>> {
        views(self.roles@)
    }

    /// Whether this identity is granted `required`: it holds `*` or `required`.
    pub open spec fn grants(&self, required: Seq<char>) -> bool {
        self.permission_views().contains("*"@) || self.permission_views().contains(required)
    }

    /// Whether this identity holds the permission `required` (or the wildcard).
    pub fn has_permission(&self, required: &str) -> (r: bool)
        ensures
            r == self.grants(required@),
    {
        if contains_str(&self.permissions, "*") {
            return true;
        }
        contains_str(&self.permissions, required)
    }

    /// Whether this identity has the role `role`.
    pub fn has_role(&self, role: &str) -> (r: bool)
        ensures
            r == self.role_views().contains(role@),
    {
        contains_str(&self.roles, role)
    }

    /// Whether this identity is an administrator: it has the role `admin`.
    pub fn is_admin(&self) -> (r: bool)
        ensures
            r == self.role_views().contains("admin"@),
    {
        self.has_role("admin")
    }
}

impl Clone for Identity {
    fn clone(&self) -> (r: Self)
        ensures
            r@ == self@,
    {
        let roles = clone_strings(&self.roles);
        let permissions = clone_strings(&self.permissions);
        let metadata = clone_pairs(&self.metadata);
        let r = Identity { id: self.id.clone(), roles, permissions, metadata };
        assert(r@.metadata =~= self@.metadata);
        r
    }
}

/// A copy of a vector of strings.
pub fn clone_strings(v: &Vec<String>) -> (r: Vec<String>)
    ensures
        r@ == v@,
{
    let n = v.len();
    let mut out: Vec<String> = Vec::new();
    let mut i: usize = 0;
    while i < n
        invariant
            n == v@.len(),
            i <= n,
            out@ == v@.take(i as int),
        decreases n - i,
    {
        out.push(v[i].clone());
        assert(out@ =~= v@.take(i + 1));
        i = i + 1;
    }
    assert(v@.take(n as int) =~= v@);
    out
}

/// A copy of a vector of string pairs.
pub fn clone_pairs(v: &Vec<(String, String)>) -> (r: Vec<(String, String)>)
    ensures
        r@ == v@,
{
    let n = v.len();
    let mut out: Vec<(String, String)> = Vec::new();
    let mut i: usize = 0;
    while i < n
        invariant
            n == v@.len(),
            i <= n,
            out@ == v@.take(i as int),
        decreases n - i,
    {
        out.push((v[i].0.clone(), v[i].1.clone()));
        assert(out@ =~= v@.take(i + 1));
        i = i + 1;
    }
    assert(v@.take(n as int) =~= v@);
    out
}

/// A role definition: the permissions it grants and the roles it extends.
pub struct RoleDef {
    /// Permissions that the role grants itself.
    pub permissions: Vec<Permission>,
    /// Roles whose permissions this role inherits.
    pub extends: Vec<String>,
}

/// The role table. A name defined more than once is defined by its first
/// entry.
pub struct RoleConfig {
    pub roles: Vec<(String, RoleDef)>,
}

impl RoleConfig {
    pub open spec fn name_at(&self, i: int) -> Seq<char> {
        self.roles@[i].0@
    }

    /// Entry `i` is the first one named `name`.
    pub open spec fn is_first(&self, i: int, name: Seq<char>) -> bool {
        &&& 0 <= i < self.roles@.len()
        &&& self.name_at(i) == name
        &&& forall|j: int| 0 <= j < i ==> self.name_at(j) != name
    }

    /// Whether some entry defines `name`.
    pub open spec fn defines(&self, name: Seq<char>) -> bool {
        exists|i: int| 0 <= i < self.roles@.len() && self.name_at(i) == name
    }

    /// The entry that defines `name`, when it is defined.
    pub open spec fn first_index(&self, name: Seq<char>) -> int {
        choose|i: int| self.is_first(i, name)
    }

    /// The roles that `name` extends (none when `name` is not defined).
    pub open spec fn parents(&self, name: Seq<char>) -> Seq<Seq<char>> {
        if self.defines(name) {
            views(self.roles@[self.first_index(name)].1.extends@)
        } else {
            Seq::empty()
        }
    }

    /// The permissions that `name` grants itself (none when not defined).
    pub open spec fn own_permissions(&self, name: Seq<char>) -> Seq<Seq<char>> {
        if self.defines(name) {
            views(self.roles@[self.first_index(name)].1.permissions@)
        } else {
            Seq::empty()
        }
    }

    /// `path` starts at one of `roots` and each step goes to a role that the
    /// previous one extends.
    pub open spec fn is_chain(&self, roots: Seq<Seq<char>>, path: Seq<Seq<char>>) -> bool {
        &&& path.len() > 0
        &&& roots.contains(path[0])
        &&& forall|i: int| 0 <= i < path.len() - 1 ==> #[trigger] self.parents(path[i]).contains(path[i + 1])
    }

    /// `role` is one of `roots` or is inherited from one of them, at any depth.
    pub open spec fn reachable(&self, roots: Seq<Seq<char>>, role: Seq<char>) -> bool {
        exists|path: Seq<Seq<char>>| self.is_chain(roots, path) && path.last() == role
    }

    /// The permissions held by an identity with direct permissions `direct`
    /// and roles `roots`: the direct ones and those of every role reachable
    /// from `roots`.
    pub open spec fn resolved(&self, direct: Seq<Seq<char>>, roots: Seq<Seq<char>>) -> Set<Seq<char>> {
        Set::new(|p: Seq<char>| direct.contains(p) || exists|r: Seq<char>| self.reachable(roots, r) && #[trigger] self.own_permissions(r).contains(p))
    }

    pub proof fn lemma_first_unique(&self, i: int, name: Seq<char>)
        requires
            self.is_first(i, name),
        ensures
            self.defines(name),
            self.first_index(name) == i,
    {
        let k = self.first_index(name);
        assert(self.is_first(k, name));
        if k < i {
            assert(self.name_at(k) != name);
        } else if i < k {
            assert(self.name_at(i) != name);
        }
    }

    pub proof fn lemma_exists_first(&self, name: Seq<char>, i: int)
        requires
            0 <= i < self.roles@.len(),
            self.name_at(i) == name,
        ensures
            self.is_first(self.first_index(name), name),
        decreases i,
    {
        if forall|j: int| 0 <= j < i ==> self.name_at(j) != name {
            assert(self.is_first(i, name));
        } else {
            let j = choose|j: int| 0 <= j < i && self.name_at(j) == name;
            self.lemma_exists_first(name, j);
        }
    }

    pub proof fn lemma_defined_first(&self, name: Seq<char>)
        requires
            self.defines(name),
        ensures
            self.is_first(self.first_index(name), name),
    {
        let i = choose|i: int| 0 <= i < self.roles@.len() && self.name_at(i) == name;
        self.lemma_exists_first(name, i);
    }

    /// The entry that defines `name`, if any.
    pub fn find_role(&self, name: &str) -> (r: Option<usize>)
        ensures
            match r {
                Some(i) => self.is_first(i as int, name@),
                None => !self.defines(name@),
            },
    {
        let n = self.roles.len();
        let mut i: usize = 0;
        while i < n
            invariant
                n == self.roles@.len(),
                i <= n,
                forall|j: int| 0 <= j < i ==> self.name_at(j) != name@,
            decreases n - i,
        {
            if str_eq(self.roles[i].0.as_str(), name) {
                return Some(i);
            }
            i = i + 1;
        }
        None
    }

    /// A root is reachable from its roots.
    pub proof fn lemma_root_reachable(&self, roots: Seq<Seq<char>>, r: Seq<char>)
        requires
            roots.contains(r),
        ensures
            self.reachable(roots, r),
    {
        let path = seq![r];
        assert(self.is_chain(roots, path));
        assert(path.last() == r);
    }

    /// A role that a reachable role extends is reachable.
    pub proof fn lemma_reach_step(&self, roots: Seq<Seq<char>>, r: Seq<char>, c: Seq<char>)
        requires
            self.reachable(roots, r),
            self.parents(r).contains(c),
        ensures
            self.reachable(roots, c),
    {
        let path = choose|path: Seq<Seq<char>>| self.is_chain(roots, path) && path.last() == r;
        let p2 = path.push(c);
        assert forall|i: int| 0 <= i < p2.len() - 1 implies #[trigger] self.parents(p2[i]).contains(p2[i + 1]) by {
            if i < path.len() - 1 {
                assert(p2[i] == path[i] && p2[i + 1] == path[i + 1]);
            } else {
                assert(p2[i] == r && p2[i + 1] == c);
            }
        }
        assert(self.is_chain(roots, p2));
        assert(p2.last() == c);
    }

    /// In a table whose visited entries are closed under inheritance and
    /// include every defined root, every defined role on a chain is visited.
    proof fn lemma_chain_visited(&self, roots: Seq<Seq<char>>, visited: Seq<bool>, path: Seq<Seq<char>>)
        requires
            visited.len() == self.roles@.len(),
            self.is_chain(roots, path),
            forall|r: Seq<char>, k: int| #[trigger] roots.contains(r) && #[trigger] self.is_first(k, r) ==> visited[k],
            forall|j: int, c: Seq<char>, k: int|
                0 <= j < visited.len() && visited[j] && self.is_first(j, self.name_at(j))
                    && #[trigger] self.parents(self.name_at(j)).contains(c) && #[trigger] self.is_first(k, c)
                    ==> visited[k],
        ensures
            forall|k: int| #[trigger] self.is_first(k, path.last()) ==> visited[k],
        decreases path.len(),
    {
        if path.len() > 1 {
            let prev = path.drop_last();
            assert forall|i: int| 0 <= i < prev.len() - 1 implies #[trigger] self.parents(prev[i]).contains(prev[i + 1]) by {
                assert(prev[i] == path[i] && prev[i + 1] == path[i + 1]);
            }
            assert(prev[0] == path[0]);
            assert(self.is_chain(roots, prev));
            self.lemma_chain_visited(roots, visited, prev);
            let a = prev.last();
            let c = path.last();
            let i = path.len() - 2;
            assert(self.parents(path[i]).contains(path[i + 1]));
            assert(self.parents(a).contains(c));
            assert(self.defines(a));
            self.lemma_defined_first(a);
            let j = self.first_index(a);
            assert(self.name_at(j) == a);
            assert(visited[j]);
            assert forall|k: int| #[trigger] self.is_first(k, c) implies visited[k] by {
                assert(self.parents(self.name_at(j)).contains(c));
            }
        } else {
            assert(roots.contains(path[0]));
            assert(path.last() == path[0]);
        }
    }

    /// Marks the entry defining `name` as visited and schedules it, unless it
    /// is undefined or already visited.
    fn visit(
        &self,
        name: &str,
        visited: &mut Vec<bool>,
        stack: &mut Vec<usize>,
        Ghost(roots): Ghost<Seq<Seq<char>>>,
        Ghost(vset): Ghost<Set<int>>,
    ) -> (new_vset: Ghost<Set<int>>)
        requires
            old(visited)@.len() == self.roles@.len(),
            self.reachable(roots, name@),
            forall|j: int| 0 <= j < old(visited)@.len() && old(visited)@[j] ==> self.is_first(j, self.name_at(j)) && self.reachable(roots, self.name_at(j)),
            forall|j: int| #[trigger] vset.contains(j) <==> (0 <= j < old(visited)@.len() && old(visited)@[j]),
            vset.finite(),
            vset.len() <= self.roles@.len(),
        ensures
            final(visited)@.len() == self.roles@.len(),
            forall|j: int| 0 <= j < final(visited)@.len() && final(visited)@[j] ==> self.is_first(j, self.name_at(j)) && self.reachable(roots, self.name_at(j)),
            forall|j: int| #[trigger] new_vset@.contains(j) <==> (0 <= j < final(visited)@.len() && final(visited)@[j]),
            new_vset@.finite(),
            new_vset@.len() <= self.roles@.len(),
            forall|k: int| #[trigger] self.is_first(k, name@) ==> final(visited)@[k],
            forall|j: int| 0 <= j < old(visited)@.len() && old(visited)@[j] ==> final(visited)@[j],
            ({
                ||| final(visited)@ == old(visited)@ && final(stack)@ == old(stack)@ && new_vset@ == vset
                ||| exists|f: int| {
                        &&& 0 <= f < old(visited)@.len()
                        &&& !old(visited)@[f]
                        &&& final(visited)@ == old(visited)@.update(f, true)
                        &&& final(stack)@ == old(stack)@.push(f as usize)
                        &&& new_vset@ == vset.insert(f)
                        &&& new_vset@.len() == vset.len() + 1
                    }
            }),
    {
        match self.find_role(name) {
            None => Ghost(vset),
            Some(f) => {
                proof {
                    self.lemma_first_unique(f as int, name@);
                    assert forall|k: int| #[trigger] self.is_first(k, name@) implies k == f as int by {
                        self.lemma_first_unique(k, name@);
                    }
                }
                if visited[f] {
                    Ghost(vset)
                } else {
                    visited.set(f, true);
                    stack.push(f);
                    let ghost nv = vset.insert(f as int);
                    proof {
                        let range = set_int_range(0, self.roles@.len() as int);
                        assert(nv.subset_of(range));
                        lemma_int_range(0, self.roles@.len() as int);
                        lemma_len_subset(nv, range);
                        assert(!vset.contains(f as int));
                    }
                    Ghost(nv)
                }
            },
        }
    }

    /// The full set of permissions of `identity`: its direct permissions and
    /// those of every role it has or inherits, each once. Cyclic inheritance
    /// is followed only once around.
    pub fn resolve_permissions(&self, identity: &Identity) -> (r: Vec<Permission>)
        ensures
            views(r@).to_set() == self.resolved(identity.permission_views(), identity.role_views()),
            views(r@).no_duplicates(),
    {
        let ghost roots = identity.role_views();
        let ghost direct = identity.permission_views();
        let n = self.roles.len();
        let mut perms: Vec<Permission> = Vec::new();
        add_all(&mut perms, &identity.permissions);
        assert(views(perms@).to_set() =~= direct.to_set()) by {
            assert(views(Seq::<String>::empty()).to_set() =~= Set::empty());
        }

        let mut visited: Vec<bool> = Vec::new();
        let mut k: usize = 0;
        while k < n
            invariant
                k <= n,
                visited@.len() == k,
                forall|j: int| 0 <= j < k ==> !visited@[j],
            decreases n - k,
        {
            visited.push(false);
            k = k + 1;
        }
        let mut stack: Vec<usize> = Vec::new();
        let ghost mut vset: Set<int> = Set::empty();
        assert(vset.len() == 0);

        // Schedule every defined role of the identity.
        let nr = identity.roles.len();
        let mut i: usize = 0;
        while i < nr
            invariant
                nr == identity.roles@.len(),
                roots == identity.role_views(),
                n == self.roles@.len(),
                i <= nr,
                visited@.len() == n,
                forall|j: int| 0 <= j < n && visited@[j] ==> self.is_first(j, self.name_at(j)) && self.reachable(roots, self.name_at(j)),
                forall|j: int| #[trigger] vset.contains(j) <==> (0 <= j < n && visited@[j]),
                vset.finite(),
                vset.len() <= n,
                forall|q: int, k: int| 0 <= q < i && #[trigger] self.is_first(k, roots[q]) ==> visited@[k],
                forall|q: int| 0 <= q < stack@.len() ==> stack@[q] < n && visited@[stack@[q] as int],
                forall|j: int| 0 <= j < n && visited@[j] ==> stack@.contains(j as usize),
            decreases nr - i,
        {
            proof {
                assert(roots[i as int] == identity.roles@[i as int]@);
                self.lemma_root_reachable(roots, roots[i as int]);
            }
            let ghost old_visited = visited@;
            let ghost old_stack = stack@;
            let Ghost(nv) = self.visit(identity.roles[i].as_str(), &mut visited, &mut stack, Ghost(roots), Ghost(vset));
            proof {
                vset = nv;
                assert forall|q: int| 0 <= q < stack@.len() implies stack@[q] < n && visited@[stack@[q] as int] by {
                    if stack@ != old_stack {
                        if q < old_stack.len() {
                            assert(stack@[q] == old_stack[q]);
                        }
                    }
                }
                assert forall|j: int| 0 <= j < n && visited@[j] implies stack@.contains(j as usize) by {
                    if stack@ != old_stack && !old_visited[j] {
                        assert(stack@[stack@.len() - 1] == j as usize);
                    } else if stack@ != old_stack {
                        let q = choose|q: int| 0 <= q < old_stack.len() && old_stack[q] == j as usize;
                        assert(stack@[q] == j as usize);
                    }
                }
            }
            i = i + 1;
        }

        // Process scheduled roles until none is left.
        let ghost mut done: Set<int> = Set::empty();
        assert forall|r: Seq<char>, k: int| #[trigger] roots.contains(r) && #[trigger] self.is_first(k, r) implies visited@[k] by {
            let q = choose|q: int| 0 <= q < roots.len() && roots[q] == r;
            assert(self.is_first(k, roots[q]));
        }
        assert(views(perms@).to_set() =~= direct.to_set().union(
            Set::new(|p: Seq<char>| exists|j: int| done.contains(j) && #[trigger] self.own_permissions(self.name_at(j)).contains(p))));
        while stack.len() > 0
            invariant
                roots == identity.role_views(),
                direct == identity.permission_views(),
                n == self.roles@.len(),
                visited@.len() == n,
                forall|j: int| 0 <= j < n && visited@[j] ==> self.is_first(j, self.name_at(j)) && self.reachable(roots, self.name_at(j)),
                forall|j: int| #[trigger] vset.contains(j) <==> (0 <= j < n && visited@[j]),
                vset.finite(),
                vset.len() <= n,
                forall|r: Seq<char>, k: int| #[trigger] roots.contains(r) && #[trigger] self.is_first(k, r) ==> visited@[k],
                forall|q: int| 0 <= q < stack@.len() ==> stack@[q] < n && visited@[stack@[q] as int],
                forall|j: int| 0 <= j < n && visited@[j] ==> (done.contains(j) || stack@.contains(j as usize)),
                forall|j: int| done.contains(j) ==> 0 <= j < n && visited@[j],
                forall|j: int, c: Seq<char>, k: int|
                    done.contains(j) && #[trigger] self.parents(self.name_at(j)).contains(c) && #[trigger] self.is_first(k, c)
                        ==> visited@[k],
                views(perms@).to_set() == direct.to_set().union(
                    Set::new(|p: Seq<char>| exists|j: int| done.contains(j) && #[trigger] self.own_permissions(self.name_at(j)).contains(p))),
                views(perms@).no_duplicates(),
            decreases 2 * (n - vset.len()) + stack@.len(),
        {
            let ghost m0 = 2 * (n - vset.len()) + stack@.len();
            let ghost old_stack0 = stack@;
            let cur = stack.pop().unwrap();
            proof {
                assert(stack@ =~= old_stack0.drop_last());
                assert forall|j: int| 0 <= j < n && visited@[j] implies (done.contains(j) || j == cur || stack@.contains(j as usize)) by {
                    if !done.contains(j) {
                        let q = choose|q: int| 0 <= q < old_stack0.len() && old_stack0[q] == j as usize;
                        if q < old_stack0.len() - 1 {
                            assert(stack@[q] == j as usize);
                        }
                    }
                }
                assert(visited@[cur as int]);
                self.lemma_first_unique(cur as int, self.name_at(cur as int));
            }
            let def = &self.roles[cur].1;
            let ghost before = views(perms@).to_set();
            add_all(&mut perms, &def.permissions);
            assert(self.own_permissions(self.name_at(cur as int)) == views(def.permissions@));

            let ne = def.extends.len();
            let mut e: usize = 0;
            while e < ne
                invariant
                    roots == identity.role_views(),
                    n == self.roles@.len(),
                    ne == def.extends@.len(),
                    def == &self.roles@[cur as int].1,
                    cur < n,
                    self.is_first(cur as int, self.name_at(cur as int)),
                    self.reachable(roots, self.name_at(cur as int)),
                    self.parents(self.name_at(cur as int)) == views(def.extends@),
                    e <= ne,
                    visited@.len() == n,
                    visited@[cur as int],
                    forall|j: int| 0 <= j < n && visited@[j] ==> self.is_first(j, self.name_at(j)) && self.reachable(roots, self.name_at(j)),
                    forall|j: int| #[trigger] vset.contains(j) <==> (0 <= j < n && visited@[j]),
                    vset.finite(),
                    vset.len() <= n,
                    forall|r: Seq<char>, k: int| #[trigger] roots.contains(r) && #[trigger] self.is_first(k, r) ==> visited@[k],
                    forall|q: int| 0 <= q < stack@.len() ==> stack@[q] < n && visited@[stack@[q] as int],
                    forall|j: int| 0 <= j < n && visited@[j] ==> (done.contains(j) || j == cur || stack@.contains(j as usize)),
                    forall|j: int| done.contains(j) ==> 0 <= j < n && visited@[j],
                    forall|j: int, c: Seq<char>, k: int|
                        done.contains(j) && #[trigger] self.parents(self.name_at(j)).contains(c) && #[trigger] self.is_first(k, c)
                            ==> visited@[k],
                    forall|q: int, k: int| 0 <= q < e && #[trigger] self.is_first(k, views(def.extends@)[q]) ==> visited@[k],
                    2 * (n - vset.len()) + stack@.len() + 1 <= m0,
                decreases ne - e,
            {
                let ghost c = views(def.extends@)[e as int];
                proof {
                    assert(c == def.extends@[e as int]@);
                    assert(self.parents(self.name_at(cur as int)).contains(c));
                    self.lemma_reach_step(roots, self.name_at(cur as int), c);
                }
                let ghost old_visited = visited@;
                let ghost old_stack = stack@;
                let Ghost(nv) = self.visit(def.extends[e].as_str(), &mut visited, &mut stack, Ghost(roots), Ghost(vset));
                proof {
                    vset = nv;
                    assert forall|q: int| 0 <= q < stack@.len() implies stack@[q] < n && visited@[stack@[q] as int] by {
                        if stack@ != old_stack {
                            if q < old_stack.len() {
                                assert(stack@[q] == old_stack[q]);
                            }
                        }
                    }
                    assert forall|j: int| 0 <= j < n && visited@[j] implies (done.contains(j) || j == cur || stack@.contains(j as usize)) by {
                        if stack@ != old_stack && !old_visited[j] {
                            assert(stack@[stack@.len() - 1] == j as usize);
                        } else if stack@ != old_stack && !done.contains(j) && j != cur {
                            let q = choose|q: int| 0 <= q < old_stack.len() && old_stack[q] == j as usize;
                            assert(stack@[q] == j as usize);
                        }
                    }
                }
                e = e + 1;
            }
            proof {
                let ghost old_done = done;
                done = done.insert(cur as int);
                assert forall|j: int, c: Seq<char>, k: int|
                    done.contains(j) && #[trigger] self.parents(self.name_at(j)).contains(c) && #[trigger] self.is_first(k, c)
                        implies visited@[k] by {
                    if j == cur as int {
                        let q = choose|q: int| 0 <= q < views(def.extends@).len() && views(def.extends@)[q] == c;
                        assert(views(def.extends@)[q] == c);
                    } else {
                        assert(old_done.contains(j));
                    }
                }
                assert forall|j: int| 0 <= j < n && visited@[j] implies (done.contains(j) || stack@.contains(j as usize)) by {}
                let u_old = Set::new(|p: Seq<char>| exists|j: int| old_done.contains(j) && #[trigger] self.own_permissions(self.name_at(j)).contains(p));
                let u_new = Set::new(|p: Seq<char>| exists|j: int| done.contains(j) && #[trigger] self.own_permissions(self.name_at(j)).contains(p));
                assert(u_new =~= u_old.union(views(def.permissions@).to_set())) by {
                    assert forall|p: Seq<char>| u_new.contains(p) implies u_old.union(views(def.permissions@).to_set()).contains(p) by {
                        let j = choose|j: int| done.contains(j) && #[trigger] self.own_permissions(self.name_at(j)).contains(p);
                        if j != cur as int {
                            assert(u_old.contains(p));
                        }
                    }
                    assert forall|p: Seq<char>| u_old.union(views(def.permissions@).to_set()).contains(p) implies u_new.contains(p) by {
                        if u_old.contains(p) {
                            let j = choose|j: int| old_done.contains(j) && #[trigger] self.own_permissions(self.name_at(j)).contains(p);
                            assert(done.contains(j));
                        } else {
                            assert(done.contains(cur as int));
                            assert(self.own_permissions(self.name_at(cur as int)).contains(p));
                        }
                    }
                }
                assert(views(perms@).to_set() =~= direct.to_set().union(u_new));
            }
        }

        proof {
            // Every visited entry has been processed.
            assert forall|j: int| 0 <= j < n && visited@[j] implies done.contains(j) by {
                if !done.contains(j) {
                    assert(stack@.contains(j as usize));
                }
            }
            let target = self.resolved(direct, roots);
            let u = Set::new(|p: Seq<char>| exists|j: int| done.contains(j) && #[trigger] self.own_permissions(self.name_at(j)).contains(p));
            assert forall|p: Seq<char>| target.contains(p) implies direct.to_set().union(u).contains(p) by {
                if !direct.contains(p) {
                    let r = choose|r: Seq<char>| self.reachable(roots, r) && #[trigger] self.own_permissions(r).contains(p);
                    let path = choose|path: Seq<Seq<char>>| self.is_chain(roots, path) && path.last() == r;
                    assert forall|j: int, c: Seq<char>, k: int|
                        0 <= j < visited@.len() && visited@[j] && self.is_first(j, self.name_at(j))
                            && #[trigger] self.parents(self.name_at(j)).contains(c) && #[trigger] self.is_first(k, c)
                            implies visited@[k] by {
                        assert(done.contains(j));
                    }
                    self.lemma_chain_visited(roots, visited@, path);
                    assert(self.defines(r));
                    self.lemma_defined_first(r);
                    let j = self.first_index(r);
                    assert(self.is_first(j, r));
                    assert(visited@[j]);
                    assert(done.contains(j));
                    assert(self.name_at(j) == r);
                    assert(u.contains(p));
                }
            }
            assert forall|p: Seq<char>| direct.to_set().union(u).contains(p) implies target.contains(p) by {
                if u.contains(p) && !direct.contains(p) {
                    let j = choose|j: int| done.contains(j) && #[trigger] self.own_permissions(self.name_at(j)).contains(p);
                    assert(self.reachable(roots, self.name_at(j)));
                }
            }
            assert(views(perms@).to_set() =~= target);
        }
        perms
    }

    /// Whether `identity`, with every permission its roles grant or inherit,
    /// holds `required` (or the wildcard `*`).
    pub fn permits(&self, identity: &Identity, required: &str) -> (r: bool)
        ensures
            r == (self.resolved(identity.permission_views(), identity.role_views()).contains("*"@)
                || self.resolved(identity.permission_views(), identity.role_views()).contains(required@)),
    {
        let perms = self.resolve_permissions(identity);
        let full = Identity { id: String::new(), roles: Vec::new(), permissions: perms, metadata: Vec::new() };
        assert(full.permission_views() == views(perms@));
        full.has_permission(required)
    }

    /// An identity with `roles` whose permissions are everything those roles
    /// grant or inherit.
    pub fn build_identity(&self, id: &str, roles: Vec<String>) -> (r: Identity)
        ensures
            r.id@ == id@,
            r.roles@ == roles@,
            views(r.permissions@).to_set() == self.resolved(Seq::empty(), views(roles@)),
            views(r.permissions@).no_duplicates(),
            r.metadata@.len() == 0,
    {
        let probe = Identity {
            id: String::from_str(id),
            roles: roles,
            permissions: Vec::new(),
            metadata: Vec::new(),
        };
        assert(probe.permission_views() =~= Seq::<Seq<char>>::empty());
        let permissions = self.resolve_permissions(&probe);
        Identity { id: probe.id, roles: probe.roles, permissions, metadata: Vec::new() }
    }
}

/// A role inherits the permissions of the roles it extends: an identity
/// with role `a`, where `a` extends `b`, is granted everything `b` grants.
pub proof fn lemma_extended_role_inherited(
    cfg: &RoleConfig,
    direct: Seq<Seq<char>>,
    roots: Seq<Seq<char>>,
    a: Seq<char>,
    b: Seq<char>,
    p: Seq<char>,
)
    requires
        cfg.reachable(roots, a),
        cfg.parents(a).contains(b),
        cfg.own_permissions(b).contains(p),
    ensures
        cfg.resolved(direct, roots).contains(p),
{
    cfg.lemma_reach_step(roots, a, b);
}

/// Every role of an identity contributes its own permissions.
pub proof fn lemma_own_role_granted(
    cfg: &RoleConfig,
    direct: Seq<Seq<char>>,
    roots: Seq<Seq<char>>,
    a: Seq<char>,
    p: Seq<char>,
)
    requires
        roots.contains(a),
        cfg.own_permissions(a).contains(p),
    ensures
        cfg.resolved(direct, roots).contains(p),
{
    cfg.lemma_root_reachable(roots, a);
}

/// More roles never grant fewer permissions.
pub proof fn lemma_resolved_monotone(
    cfg: &RoleConfig,
    direct: Seq<Seq<char>>,
    roots: Seq<Seq<char>>,
    more_roots: Seq<Seq<char>>,
)
    requires
        forall|r: Seq<char>| roots.contains(r) ==> more_roots.contains(r),
    ensures
        cfg.resolved(direct, roots).subset_of(cfg.resolved(direct, more_roots)),
{
    assert forall|p: Seq<char>| cfg.resolved(direct, roots).contains(p) implies cfg.resolved(direct, more_roots).contains(p) by {
        if !direct.contains(p) {
            let r = choose|r: Seq<char>| cfg.reachable(roots, r) && #[trigger] cfg.own_permissions(r).contains(p);
            let path = choose|path: Seq<Seq<char>>| cfg.is_chain(roots, path) && path.last() == r;
            assert(cfg.is_chain(more_roots, path));
            assert(cfg.reachable(more_roots, r));
        }
    }
}

/// The wildcard permission `*` grants every permission.
pub proof fn lemma_wildcard_grants_all(identity: &Identity, required: Seq<char>)
    requires
        identity.permission_views().contains("*"@),
    ensures
        identity.grants(required),
{
}

/// An identity whose permissions are the resolution of its roles is granted
/// exactly the resolved permissions, or everything when `*` is among them.
pub proof fn lemma_resolved_identity_grants(
    cfg: &RoleConfig,
    identity: &Identity,
    direct: Seq<Seq<char>>,
    required: Seq<char>,
)
    requires
        identity.permission_views().to_set() == cfg.resolved(direct, identity.role_views()),
    ensures
        identity.grants(required) == (cfg.resolved(direct, identity.role_views()).contains("*"@)
            || cfg.resolved(direct, identity.role_views()).contains(required)),
{
}

/// The identity given to visitors that are not signed in: role `anonymous`,
/// permission `doc:read`.
pub fn anonymous() -> (r: Identity)
    ensures
        r.id@ == "anonymous"@,
        r.roles@.len() == 1,
        r.roles@[0]@ == "anonymous"@,
        r.permissions@.len() == 1,
        r.permissions@[0]@ == "doc:read"@,
        r.metadata@.len() == 0,
{
    let mut roles: Vec<String> = Vec::new();
    roles.push(String::from_str("anonymous"));
    let mut permissions: Vec<Permission> = Vec::new();
    permissions.push(String::from_str("doc:read"));
    Identity { id: String::from_str("anonymous"), roles, permissions, metadata: Vec::new() }
}

/// The identity of the site administrator: role `admin`, permission `*`.
pub fn admin_identity() -> (r: Identity)
    ensures
        r.id@ == "admin"@,
        r.roles@.len() == 1,
        r.roles@[0]@ == "admin"@,
        r.permissions@.len() == 1,
        r.permissions@[0]@ == "*"@,
        r.metadata@.len() == 0,
{
    let mut roles: Vec<String> = Vec::new();
    roles.push(String::from_str("admin"));
    let mut permissions: Vec<Permission> = Vec::new();
    permissions.push(String::from_str("*"));
    Identity { id: String::from_str("admin"), roles, permissions, metadata: Vec::new() }
}

/// The role table used when none is configured: `admin` grants `*`, `viewer`
/// grants `doc:read`, and neither extends another role.
pub fn default_role_config() -> (r: RoleConfig)
    ensures
        r.roles@.len() == 2,
        r.roles@[0].0@ == "admin"@,
        views(r.roles@[0].1.permissions@) == seq!["*"@],
        r.roles@[0].1.extends@.len() == 0,
        r.roles@[1].0@ == "viewer"@,
        views(r.roles@[1].1.permissions@) == seq!["doc:read"@],
        r.roles@[1].1.extends@.len() == 0,
{
    let mut admin_perms: Vec<Permission> = Vec::new();
    admin_perms.push(String::from_str("*"));
    let mut viewer_perms: Vec<Permission> = Vec::new();
    viewer_perms.push(String::from_str("doc:read"));
    let mut roles: Vec<(String, RoleDef)> = Vec::new();
    roles.push((String::from_str("admin"), RoleDef { permissions: admin_perms, extends: Vec::new() }));
    roles.push((String::from_str("viewer"), RoleDef { permissions: viewer_perms, extends: Vec::new() }));
    let r = RoleConfig { roles };
    assert(views(r.roles@[0].1.permissions@) =~= seq!["*"@]);
    assert(views(r.roles@[1].1.permissions@) =~= seq!["doc:read"@]);
    r
}

/// Appends to `perms` each string of `extra` that it does not hold yet.
pub fn add_all(perms: &mut Vec<String>, extra: &Vec<String>)
    requires
        views(old(perms)@).no_duplicates(),
    ensures
        views(final(perms)@).no_duplicates(),
        views(final(perms)@).to_set() == views(old(perms)@).to_set().union(views(extra@).to_set()),
{
    let n = extra.len();
    let mut i: usize = 0;
    while i < n
        invariant
            n == extra@.len(),
            i <= n,
            views(perms@).no_duplicates(),
            views(perms@).to_set() == views(old(perms)@).to_set().union(views(extra@.take(i as int)).to_set()),
        decreases n - i,
    {
        let ghost before = perms@;
        let ghost x = extra@[i as int]@;
        proof {
            assert(views(extra@.take(i + 1)) =~= views(extra@.take(i as int)).push(x));
            assert(views(extra@.take(i + 1)).to_set() =~= views(extra@.take(i as int)).to_set().insert(x)) by {
                let a = views(extra@.take(i + 1));
                let b = views(extra@.take(i as int));
                assert forall|y: Seq<char>| a.contains(y) implies b.to_set().insert(x).contains(y) by {
                    let q = choose|q: int| 0 <= q < a.len() && a[q] == y;
                    if q < b.len() {
                        assert(b[q] == y);
                    }
                }
                assert forall|y: Seq<char>| b.to_set().insert(x).contains(y) implies a.contains(y) by {
                    if y == x {
                        assert(a[b.len() as int] == x);
                    } else {
                        let q = choose|q: int| 0 <= q < b.len() && b[q] == y;
                        assert(a[q] == y);
                    }
                }
            }
        }
        if !contains_str(perms, extra[i].as_str()) {
            perms.push(extra[i].clone());
            proof {
                assert(views(perms@) =~= views(before).push(x));
                assert forall|a: int, b: int| 0 <= a < b < views(perms@).len() implies views(perms@)[a] != views(perms@)[b] by {
                    if b == views(perms@).len() - 1 {
                        assert(views(before).contains(views(before)[a]));
                    }
                }
                assert(views(perms@).to_set() =~= views(before).to_set().insert(x)) by {
                    let a = views(perms@);
                    let b = views(before);
                    assert forall|y: Seq<char>| a.contains(y) implies b.to_set().insert(x).contains(y) by {
                        let q = choose|q: int| 0 <= q < a.len() && a[q] == y;
                        if q < b.len() {
                            assert(b[q] == y);
                        }
                    }
                    assert forall|y: Seq<char>| b.to_set().insert(x).contains(y) implies a.contains(y) by {
                        if y == x {
                            assert(a[b.len() as int] == x);
                        } else {
                            let q = choose|q: int| 0 <= q < b.len() && b[q] == y;
                            assert(a[q] == y);
                        }
                    }
                }
            }
        } else {
            assert(views(before).to_set() =~= views(before).to_set().insert(x));
        }
        proof {
            assert(views(perms@).to_set() =~= views(old(perms)@).to_set().union(views(extra@.take(i + 1)).to_set()));
        }
        i = i + 1;
    }
    assert(extra@.take(n as int) =~= extra@);
}

} // verus!
