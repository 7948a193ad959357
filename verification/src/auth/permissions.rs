//! Permission system for API keys.
use vstd::prelude::*;
use crate::text::{chars_of, key_lt, lemma_key_lt_transitive, push_str, string_eq, to_string};

verus! {

/// Individual permission.
#[derive(Debug, Clone, Copy, PartialEq, Eq, Hash, Structural)]
pub enum Permission {
    /// Can read documents, search, query.
    Read,
    /// Can create/update/delete documents and tables.
    Write,
    /// Can manage API keys and configuration.
    Admin,
    /// Can access ingestion endpoints.
    Ingest,
    /// Can create document relationships.
    Relations,
    /// Can execute RQL queries.
    Query,
}

/// The name of a permission.
pub open spec fn permission_name(p: Permission) -> Seq<char> {
    match p {
        Permission::Read => "read"@,
        Permission::Write => "write"@,
        Permission::Admin => "admin"@,
        Permission::Ingest => "ingest"@,
        Permission::Relations => "relations"@,
        Permission::Query => "query"@,
    }
}

/// Every permission, in declaration order.
pub open spec fn all_permissions() -> Seq<Permission> {
    seq![
        Permission::Read,
        Permission::Write,
        Permission::Admin,
        Permission::Ingest,
        Permission::Relations,
        Permission::Query,
    ]
}

/// The permissions of a new key: all but `Admin`.
pub open spec fn default_permissions() -> Seq<Permission> {
    seq![
        Permission::Read,
        Permission::Write,
        Permission::Ingest,
        Permission::Relations,
        Permission::Query,
    ]
}

/// Every permission, in alphabetical order of its name.
pub open spec fn permissions_by_name() -> Seq<Permission> {
    seq![
        Permission::Admin,
        Permission::Ingest,
        Permission::Query,
        Permission::Read,
        Permission::Relations,
        Permission::Write,
    ]
}

/// The Unicode lower-case mapping of a string (`str::to_lowercase`).
pub uninterp spec fn unicode_lowercase(s: Seq<char>) -> Seq<char>;

/// The ASCII lower-case letter of an ASCII upper-case letter; any other
/// character unchanged.
pub open spec fn ascii_lower_char(c: char) -> char {
    if 'A' <= c <= 'Z' {
        ((c as u8) + 32) as char
    } else {
        c
    }
}

/// Whether every character is ASCII.
pub open spec fn all_ascii(s: Seq<char>) -> bool {
    forall|i: int| 0 <= i < s.len() ==> (s[i] as u32) < 128
}

/// `str::to_lowercase`: the Unicode lower-case mapping of `s`, named
/// `unicode_lowercase`; on ASCII text it maps exactly the letters `A`-`Z`
/// to `a`-`z` (std documentation: "Lowercase" per the Unicode Derived Core
/// Property, which on ASCII is that mapping).
#[verifier::external_body]
fn to_lowercase(s: &str) -> (r: String)
    ensures
        r@ == unicode_lowercase(s@),
        all_ascii(s@) ==> r@ == s@.map_values(|c: char| ascii_lower_char(c)),
{
    s.to_lowercase()
}

/// The lower-case form that `to_lowercase` gives of `s`: on ASCII text the
/// letters `A`-`Z` mapped to `a`-`z`, otherwise the Unicode mapping.
pub open spec fn lowercase_of(s: Seq<char>) -> Seq<char> {
    if all_ascii(s) {
        s.map_values(|c: char| ascii_lower_char(c))
    } else {
        unicode_lowercase(s)
    }
}

/// The permission with the given name, if any.
pub open spec fn permission_named(name: Seq<char>) -> Option<Permission> {
    if name == "read"@ {
        Some(Permission::Read)
    } else if name == "write"@ {
        Some(Permission::Write)
    } else if name == "admin"@ {
        Some(Permission::Admin)
    } else if name == "ingest"@ {
        Some(Permission::Ingest)
    } else if name == "relations"@ {
        Some(Permission::Relations)
    } else if name == "query"@ {
        Some(Permission::Query)
    } else {
        None
    }
}

impl Permission {
    /// Get all available permissions.
    pub fn all() -> (v: Vec<Permission>)
        ensures
            v@ == all_permissions(),
    {
        let v = vec![
            Permission::Read,
            Permission::Write,
            Permission::Admin,
            Permission::Ingest,
            Permission::Relations,
            Permission::Query,
        ];
        assert(v@ =~= all_permissions());
        v
    }

    /// Get the default permissions for a new key (no admin).
    pub fn default_set() -> (v: Vec<Permission>)
        ensures
            v@ == default_permissions(),
    {
        let v = vec![
            Permission::Read,
            Permission::Write,
            Permission::Ingest,
            Permission::Relations,
            Permission::Query,
        ];
        assert(v@ =~= default_permissions());
        v
    }

    /// The name of this permission (its text form).
    pub fn as_str(&self) -> (s: &'static str)
        ensures
            s@ == permission_name(*self),
    {
        match self {
            Permission::Read => "read",
            Permission::Write => "write",
            Permission::Admin => "admin",
            Permission::Ingest => "ingest",
            Permission::Relations => "relations",
            Permission::Query => "query",
        }
    }

    /// The name of this permission as a `String`.
    pub fn to_string(&self) -> (s: String)
        ensures
            s@ == permission_name(*self),
    {
        to_string(self.as_str())
    }

    /// Parse a permission name, ignoring case: the permission whose name is
    /// the lower-case form of `s`, else `Unknown permission: <s>`.
    pub fn parse_name(s: &str) -> (r: Result<Permission, String>)
        ensures
            match r {
                Ok(p) => permission_named(lowercase_of(s@)) == Some(p),
                Err(m) => permission_named(lowercase_of(s@)) is None && m@ == "Unknown permission: "@
                    + s@,
            },
    {
        let lower = to_lowercase(s);
        if string_eq(&lower, &to_string("read")) {
            return Ok(Permission::Read);
        }
        if string_eq(&lower, &to_string("write")) {
            return Ok(Permission::Write);
        }
        if string_eq(&lower, &to_string("admin")) {
            return Ok(Permission::Admin);
        }
        if string_eq(&lower, &to_string("ingest")) {
            return Ok(Permission::Ingest);
        }
        if string_eq(&lower, &to_string("relations")) {
            return Ok(Permission::Relations);
        }
        if string_eq(&lower, &to_string("query")) {
            return Ok(Permission::Query);
        }
        let mut msg = to_string("Unknown permission: ");
        push_str(&mut msg, s);
        Err(msg)
    }
}

impl std::str::FromStr for Permission {
    type Err = String;

    fn from_str(s: &str) -> (r: Result<Self, Self::Err>)
        ensures
            match r {
                Ok(p) => permission_named(lowercase_of(s@)) == Some(p),
                Err(m) => permission_named(lowercase_of(s@)) is None && m@ == "Unknown permission: "@
                    + s@,
            },
    {
        Permission::parse_name(s)
    }
}

/// A set of permissions for an API key.
pub struct Permissions {
    permissions: Vec<Permission>,
}

impl Permissions {
    /// No permission is held twice.
    #[verifier::type_invariant]
    closed spec fn no_repeats(&self) -> bool {
        self.permissions@.no_duplicates()
    }

    /// The permissions held.
    pub closed spec fn view(&self) -> Set<Permission> {
        self.permissions@.to_set()
    }

    /// An empty permission set.
    pub fn empty() -> (s: Self)
        ensures
            s.view() == Set::<Permission>::empty(),
    {
        let s = Permissions { permissions: Vec::new() };
        assert(s.view() =~= Set::<Permission>::empty());
        s
    }

    /// Create a permission set holding the given permissions.
    pub fn new(perms: Vec<Permission>) -> (s: Self)
        ensures
            s.view() == perms@.to_set(),
    {
        let mut s = Self::empty();
        let n = perms.len();
        let mut i: usize = 0;
        while i < n
            invariant
                n == perms@.len(),
                i <= n,
                s.view() == perms@.take(i as int).to_set(),
            decreases n - i,
        {
            s.add(perms[i]);
            assert(perms@.take(i + 1) =~= perms@.take(i as int).push(perms@[i as int]));
            proof {
                perms@.take(i as int).lemma_push_to_set_commute(perms@[i as int]);
            }
            i += 1;
        }
        assert(perms@.take(n as int) =~= perms@);
        s
    }

    /// Create a permission set with all permissions.
    pub fn all() -> (s: Self)
        ensures
            s.view() == all_permissions().to_set(),
    {
        Self::new(Permission::all())
    }

    /// Create a permission set with the default permissions (no admin).
    pub fn default_user() -> (s: Self)
        ensures
            s.view() == default_permissions().to_set(),
    {
        Self::new(Permission::default_set())
    }

    /// Create a read-only permission set: `Read` and `Query`.
    pub fn read_only() -> (s: Self)
        ensures
            s.view() == seq![Permission::Read, Permission::Query].to_set(),
    {
        let v = vec![Permission::Read, Permission::Query];
        assert(v@ =~= seq![Permission::Read, Permission::Query]);
        Self::new(v)
    }

    /// Whether this set contains a permission.
    pub fn has(&self, perm: Permission) -> (r: bool)
        ensures
            r == self.view().contains(perm),
    {
        let n = self.permissions.len();
        let mut i: usize = 0;
        while i < n
            invariant
                n == self.permissions@.len(),
                i <= n,
                forall|j: int| 0 <= j < i ==> self.permissions@[j] != perm,
            decreases n - i,
        {
            if self.permissions[i] == perm {
                assert(self.permissions@.contains(perm));
                return true;
            }
            i += 1;
        }
        false
    }

    /// Whether this set has all of the given permissions.
    pub fn has_all(&self, perms: &[Permission]) -> (r: bool)
        ensures
            r == (forall|i: int| 0 <= i < perms@.len() ==> self.view().contains(#[trigger] perms@[i])),
    {
        let n = perms.len();
        let mut i: usize = 0;
        while i < n
            invariant
                n == perms@.len(),
                i <= n,
                forall|j: int| 0 <= j < i ==> self.view().contains(#[trigger] perms@[j]),
            decreases n - i,
        {
            if !self.has(perms[i]) {
                return false;
            }
            i += 1;
        }
        true
    }

    /// Whether this set has any of the given permissions.
    pub fn has_any(&self, perms: &[Permission]) -> (r: bool)
        ensures
            r == (exists|i: int| 0 <= i < perms@.len() && self.view().contains(#[trigger] perms@[i])),
    {
        let n = perms.len();
        let mut i: usize = 0;
        while i < n
            invariant
                n == perms@.len(),
                i <= n,
                forall|j: int| 0 <= j < i ==> !self.view().contains(#[trigger] perms@[j]),
            decreases n - i,
        {
            if self.has(perms[i]) {
                return true;
            }
            i += 1;
        }
        false
    }

    /// Add a permission to this set.
    pub fn add(&mut self, perm: Permission)
        ensures
            final(self).view() == old(self).view().insert(perm),
    {
        proof {
            use_type_invariant(&*self);
        }
        if self.has(perm) {
            assert(self.view() =~= self.view().insert(perm));
            return;
        }
        let mut perms: Vec<Permission> = Vec::new();
        std::mem::swap(&mut perms, &mut self.permissions);
        let ghost before = perms@;
        perms.push(perm);
        proof {
            before.lemma_push_to_set_commute(perm);
            assert forall|i: int, j: int| 0 <= i < perms@.len() && 0 <= j < perms@.len() && i != j implies perms@[i]
                != perms@[j] by {
                if i < before.len() && j < before.len() {
                    assert(before[i] == perms@[i] && before[j] == perms@[j]);
                } else if i < before.len() {
                    assert(before.contains(perms@[i]));
                } else {
                    assert(before.contains(perms@[j]));
                }
            }
        }
        self.permissions = perms;
    }

    /// Remove a permission from this set.
    pub fn remove(&mut self, perm: Permission)
        ensures
            final(self).view() == old(self).view().remove(perm),
    {
        proof {
            use_type_invariant(&*self);
        }
        let mut perms: Vec<Permission> = Vec::new();
        std::mem::swap(&mut perms, &mut self.permissions);
        let ghost before = perms@;
        assert(old(self).view() == before.to_set());
        let n = perms.len();
        let mut i: usize = 0;
        while i < n
            invariant
                n == perms@.len(),
                perms@ == before,
                before.no_duplicates(),
                old(self).view() == before.to_set(),
                i <= n,
                forall|j: int| 0 <= j < i ==> perms@[j] != perm,
            decreases n - i,
        {
            if perms[i] == perm {
                perms.remove(i);
                proof {
                    assert(perms@ =~= before.remove(i as int));
                    assert forall|a: int, b: int| 0 <= a < perms@.len() && 0 <= b < perms@.len() && a != b implies perms@[a]
                        != perms@[b] by {
                        let a2 = if a < i { a } else { a + 1 };
                        let b2 = if b < i { b } else { b + 1 };
                        assert(perms@[a] == before[a2] && perms@[b] == before[b2]);
                    }
                    assert(perms@.to_set() =~= before.to_set().remove(perm)) by {
                        assert forall|x: Permission| perms@.to_set().contains(x) implies before.to_set().remove(
                            perm,
                        ).contains(x) by {
                            let k = choose|k: int| 0 <= k < perms@.len() && perms@[k] == x;
                            let k2 = if k < i { k } else { k + 1 };
                            assert(before[k2] == x);
                            assert(before[i as int] == perm);
                        }
                        assert forall|x: Permission| before.to_set().remove(perm).contains(x) implies perms@.to_set().contains(
                            x,
                        ) by {
                            let k = choose|k: int| 0 <= k < before.len() && before[k] == x;
                            if k < i {
                                assert(perms@[k] == x);
                            } else {
                                assert(k != i);
                                assert(perms@[k - 1] == x);
                            }
                        }
                    }
                }
                self.permissions = perms;
                assert(self.view() == before.to_set().remove(perm));
                return;
            }
            i += 1;
        }
        assert(!before.contains(perm)) by {
            if before.contains(perm) {
                let k = choose|k: int| 0 <= k < before.len() && before[k] == perm;
                assert(perms@[k] == perm);
            }
        }
        assert(before.to_set() =~= before.to_set().remove(perm));
        self.permissions = perms;
        assert(self.view() == before.to_set());
    }

    /// All permissions as a vector, each once.
    pub fn to_vec(&self) -> (v: Vec<Permission>)
        ensures
            v@.to_set() == self.view(),
            v@.no_duplicates(),
    {
        proof {
            use_type_invariant(self);
        }
        self.permissions.clone()
    }

    /// The names of the permissions held, in alphabetical order, joined by
    /// `", "`.
    pub fn to_string_list(&self) -> (s: String)
        ensures
            s@ == join_names(held_by_name(self.view(), 6)),
    {
        let order = [
            Permission::Admin,
            Permission::Ingest,
            Permission::Query,
            Permission::Read,
            Permission::Relations,
            Permission::Write,
        ];
        let mut s = String::new();
        let mut i: usize = 0;
        let mut any = false;
        assert(Seq::<char>::empty() =~= join_names(held_by_name(self.view(), 0)));
        while i < 6
            invariant
                i <= 6,
                any == (held_by_name(self.view(), i as nat).len() > 0),
                order@ == permissions_by_name(),
                s@ == join_names(held_by_name(self.view(), i as nat)),
            decreases 6 - i,
        {
            let p = order[i];
            if self.has(p) {
                if any {
                    push_str(&mut s, ", ");
                }
                push_str(&mut s, p.as_str());
                any = true;
                proof {
                    lemma_join_push(held_by_name(self.view(), i as nat), p);
                }
            }
            i += 1;
        }
        s
    }
}

/// The permissions of `set` among the first `n` in alphabetical order.
pub open spec fn held_by_name(set: Set<Permission>, n: nat) -> Seq<Permission>
    decreases n,
{
    if n == 0 {
        Seq::empty()
    } else {
        let rest = held_by_name(set, (n - 1) as nat);
        if n <= 6 && set.contains(permissions_by_name()[n - 1]) {
            rest.push(permissions_by_name()[n - 1])
        } else {
            rest
        }
    }
}

/// The names of the given permissions joined by `", "`.
pub open spec fn join_names(ps: Seq<Permission>) -> Seq<char>
    decreases ps.len(),
{
    if ps.len() == 0 {
        Seq::empty()
    } else if ps.len() == 1 {
        permission_name(ps[0])
    } else {
        join_names(ps.drop_last()) + ", "@ + permission_name(ps.last())
    }
}

/// Listing one more permission appends `", "` and its name (just its name
/// to an empty list).
pub proof fn lemma_join_push(ps: Seq<Permission>, p: Permission)
    ensures
        join_names(ps.push(p)) == if ps.len() == 0 {
            permission_name(p)
        } else {
            join_names(ps) + ", "@ + permission_name(p)
        },
{
    assert(ps.push(p).drop_last() =~= ps);
}

/// The names in alphabetical order strictly increase.
proof fn lemma_by_name_lt(a: int, b: int)
    requires
        0 <= a < b < 6,
    ensures
        key_lt(permission_name(permissions_by_name()[a]), permission_name(permissions_by_name()[b])),
    decreases b - a,
{
    reveal_strlit("read");
    reveal_strlit("write");
    reveal_strlit("admin");
    reveal_strlit("ingest");
    reveal_strlit("relations");
    reveal_strlit("query");
    let pbn = permissions_by_name();
    if b == a + 1 {
        if a == 3 {
            let x = "read"@;
            let y = "relations"@;
            assert(x[0] == y[0] && x.drop_first()[0] == y.drop_first()[0]);
            assert(x.drop_first().drop_first()[0] == 'a' && y.drop_first().drop_first()[0] == 'l');
            assert(key_lt(x.drop_first().drop_first(), y.drop_first().drop_first()));
            assert(key_lt(x.drop_first(), y.drop_first()));
        } else {
            assert(pbn[a] == permissions_by_name()[a]);
        }
    } else {
        lemma_by_name_lt(a, b - 1);
        lemma_by_name_lt(b - 1, b);
        lemma_key_lt_transitive(
            permission_name(pbn[a]),
            permission_name(pbn[b - 1]),
            permission_name(pbn[b]),
        );
    }
}

/// What the first `n` permissions in alphabetical order contribute: held
/// ones only, all of them, in increasing order of name.
proof fn lemma_held_by_name(set: Set<Permission>, n: nat)
    requires
        n <= 6,
    ensures
        forall|i: int|
            0 <= i < held_by_name(set, n).len() ==> set.contains(#[trigger] held_by_name(set, n)[i])
                && exists|k: int| 0 <= k < n && held_by_name(set, n)[i] == permissions_by_name()[k],
        forall|k: int|
            0 <= k < n && set.contains(permissions_by_name()[k]) ==> held_by_name(set, n).contains(
                #[trigger] permissions_by_name()[k],
            ),
        forall|i: int, j: int|
            0 <= i < j < held_by_name(set, n).len() ==> key_lt(
                permission_name(#[trigger] held_by_name(set, n)[i]),
                permission_name(#[trigger] held_by_name(set, n)[j]),
            ),
    decreases n,
{
    if n > 0 {
        let m = (n - 1) as nat;
        lemma_held_by_name(set, m);
        let rest = held_by_name(set, m);
        let l = held_by_name(set, n);
        let q = permissions_by_name()[m as int];
        if set.contains(q) {
            assert(l == rest.push(q));
            assert forall|i: int| 0 <= i < l.len() implies set.contains(#[trigger] l[i]) && exists|k: int|
                0 <= k < n && l[i] == permissions_by_name()[k] by {
                if i < rest.len() {
                    assert(l[i] == rest[i]);
                    let k = choose|k: int| 0 <= k < m && rest[i] == permissions_by_name()[k];
                } else {
                    assert(l[i] == permissions_by_name()[m as int]);
                }
            }
            assert forall|k: int| 0 <= k < n && set.contains(permissions_by_name()[k]) implies l.contains(
                #[trigger] permissions_by_name()[k],
            ) by {
                if k < m {
                    let i = choose|i: int| 0 <= i < rest.len() && rest[i] == permissions_by_name()[k];
                    assert(l[i] == rest[i]);
                } else {
                    assert(l[rest.len() as int] == q);
                }
            }
            assert forall|i: int, j: int| 0 <= i < j < l.len() implies key_lt(
                permission_name(#[trigger] l[i]),
                permission_name(#[trigger] l[j]),
            ) by {
                assert(l[i] == rest[i]);
                if j < rest.len() {
                    assert(l[j] == rest[j]);
                } else {
                    assert(l[j] == q);
                    let k = choose|k: int| 0 <= k < m && rest[i] == permissions_by_name()[k];
                    lemma_by_name_lt(k, m as int);
                }
            }
        } else {
            assert(l == rest);
            assert forall|i: int| 0 <= i < l.len() implies set.contains(#[trigger] l[i]) && exists|k: int|
                0 <= k < n && l[i] == permissions_by_name()[k] by {
                let k = choose|k: int| 0 <= k < m && rest[i] == permissions_by_name()[k];
            }
        }
    }
}

/// `to_string_list` lists the names of exactly the permissions held: a
/// permission is in the listed sequence exactly when the set holds it, and
/// the names strictly increase in alphabetical order (so none is listed
/// twice).
pub proof fn law_listed_permissions(set: Set<Permission>)
    ensures
        forall|p: Permission| #[trigger] held_by_name(set, 6).contains(p) <==> set.contains(p),
        forall|i: int, j: int|
            0 <= i < j < held_by_name(set, 6).len() ==> key_lt(
                permission_name(#[trigger] held_by_name(set, 6)[i]),
                permission_name(#[trigger] held_by_name(set, 6)[j]),
            ),
{
    lemma_held_by_name(set, 6);
    let pbn = permissions_by_name();
    let l = held_by_name(set, 6);
    assert forall|p: Permission| #[trigger] l.contains(p) <==> set.contains(p) by {
        let k: int = match p {
            Permission::Admin => 0,
            Permission::Ingest => 1,
            Permission::Query => 2,
            Permission::Read => 3,
            Permission::Relations => 4,
            Permission::Write => 5,
        };
        assert(pbn[k] == p);
        if l.contains(p) {
            let i = choose|i: int| 0 <= i < l.len() && l[i] == p;
            assert(set.contains(l[i]));
        }
    }
}

/// The name of a permission reads back as that permission, in any case of
/// its ASCII letters: `parse_name(as_str(p)) == Ok(p)`.
pub proof fn law_name_round_trip(p: Permission)
    ensures
        permission_named(lowercase_of(permission_name(p))) == Some(p),
{
    reveal_strlit("read");
    reveal_strlit("write");
    reveal_strlit("admin");
    reveal_strlit("ingest");
    reveal_strlit("relations");
    reveal_strlit("query");
    let n = permission_name(p);
    assert(all_ascii(n));
    assert(n.map_values(|c: char| ascii_lower_char(c)) =~= n);
    assert("read"@.len() == 4 && "ingest"@.len() == 6 && "relations"@.len() == 9);
    assert("write"@[0] == 'w' && "admin"@[0] == 'a' && "query"@[0] == 'q');
    assert("write"@ != "admin"@ && "write"@ != "query"@ && "admin"@ != "query"@);
}

/// `add` then `has` of the same permission is true; `remove` then `has` is
/// false; other permissions are unaffected by either.
pub proof fn law_add_remove_has(s: Set<Permission>, p: Permission, q: Permission)
    ensures
        s.insert(p).contains(p),
        !s.remove(p).contains(p),
        q != p ==> (s.insert(p).contains(q) == s.contains(q) && s.remove(p).contains(q)
            == s.contains(q)),
{
}

/// The full set holds every permission; the default set holds every one
/// but `Admin`; the read-only set holds exactly `Read` and `Query`.
pub proof fn law_permission_sets(p: Permission)
    ensures
        all_permissions().to_set().contains(p),
        default_permissions().to_set().contains(p) <==> p != Permission::Admin,
        seq![Permission::Read, Permission::Query].to_set().contains(p) <==> (p == Permission::Read
            || p == Permission::Query),
{
    match p {
        Permission::Read => assert(all_permissions()[0] == p && default_permissions()[0] == p),
        Permission::Write => assert(all_permissions()[1] == p && default_permissions()[1] == p),
        Permission::Admin => assert(all_permissions()[2] == p),
        Permission::Ingest => assert(all_permissions()[3] == p && default_permissions()[2] == p),
        Permission::Relations => assert(all_permissions()[4] == p && default_permissions()[3] == p),
        Permission::Query => assert(all_permissions()[5] == p && default_permissions()[4] == p),
    }
    assert(seq![Permission::Read, Permission::Query][0] == Permission::Read);
    assert(seq![Permission::Read, Permission::Query][1] == Permission::Query);
}

impl Default for Permissions {
    fn default() -> (s: Self)
        ensures
            s.view() == default_permissions().to_set(),
    {
        Self::default_user()
    }
}

} // verus!
