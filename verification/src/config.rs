//! Server configuration: tunables and the name -> permission table.

use vstd::prelude::*;

verus! {

/// A caller's privilege level; the levels form a total order
/// `Player < Admin < Developer`.
#[derive(Clone, Copy, PartialEq, Eq, Structural, Debug)]
pub enum Permission {
    Developer,
    Admin,
    Player,
}

/// Rank of a level in the total order; `check` is `>=` on ranks.
pub open spec fn spec_rank(p: Permission) -> int {
    match p {
        Permission::Player => 0,
        Permission::Admin => 1,
        Permission::Developer => 2,
    }
}

impl Permission {
    /// Parses the on-disk spelling of a level; anything unknown is `Player`.
    pub fn fromString(x: &str) -> (r: Self)
        ensures
            x@ == "dev"@ ==> r == Permission::Developer,
            x@ == "admin"@ ==> r == Permission::Admin,
            x@ != "dev"@ && x@ != "admin"@ ==> r == Permission::Player,
    {
        proof {
            reveal_strlit("dev");
            reveal_strlit("admin");
            assert("dev"@.len() == 3);
            assert("admin"@.len() == 5);
        }
        if crate::text::str_eq(x, "dev") {
            return Permission::Developer;
        }
        if crate::text::str_eq(x, "admin") {
            return Permission::Admin;
        }
        Permission::Player
    }

    /// The on-disk spelling of a level.
    pub fn toString(&self) -> (r: String)
        ensures
            *self == Permission::Developer ==> r@ == "dev"@,
            *self == Permission::Admin ==> r@ == "admin"@,
            *self == Permission::Player ==> r@ == "player"@,
    {
        match self {
            Permission::Developer => "dev".to_owned(),
            Permission::Admin => "admin".to_owned(),
            Permission::Player => "player".to_owned(),
        }
    }

    /// A held level satisfies a required level iff it is at least as high.
    pub fn check(&self, lvl: Permission) -> (r: bool)
        ensures
            r == (spec_rank(*self) >= spec_rank(lvl)),
    {
        match lvl {
            Permission::Player => true,
            Permission::Admin => *self == Permission::Admin || *self == Permission::Developer,
            Permission::Developer => *self == Permission::Developer,
        }
    }
}

/// The permission a name resolves to: the first matching entry of the table,
/// `Player` when none matches.
pub open spec fn spec_perm_lookup(table: Seq<(String, Permission)>, name: Seq<char>) -> Permission
    decreases table.len(),
{
    if table.len() == 0 {
        Permission::Player
    } else if table[0].0@ == name {
        table[0].1
    } else {
        spec_perm_lookup(table.drop_first(), name)
    }
}

/// The permission a name resolves to in a view-level table.
pub open spec fn spec_perm_lookup_v(
    table: Seq<(Seq<char>, Permission)>,
    name: Seq<char>,
) -> Permission
    decreases table.len(),
{
    if table.len() == 0 {
        Permission::Player
    } else if table[0].0 == name {
        table[0].1
    } else {
        spec_perm_lookup_v(table.drop_first(), name)
    }
}

/// The two lookup functions agree across the view.
pub proof fn lemma_perm_lookup_view(table: Seq<(String, Permission)>, name: Seq<char>)
    ensures
        spec_perm_lookup_v(table.map_values(|p: (String, Permission)| (p.0@, p.1)), name)
            == spec_perm_lookup(table, name),
    decreases table.len(),
{
    let mapped = table.map_values(|p: (String, Permission)| (p.0@, p.1));
    if table.len() > 0 {
        assert(mapped[0] == (table[0].0@, table[0].1));
        assert(mapped.drop_first() =~= table.drop_first().map_values(
            |p: (String, Permission)| (p.0@, p.1),
        ));
        lemma_perm_lookup_view(table.drop_first(), name);
    }
}

/// The permission a display name resolves to, the bridging collaborator's
/// identity pinned to `Developer`.
pub open spec fn spec_get_permission(table: Seq<(Seq<char>, Permission)>, name: Seq<char>) -> Permission {
    if name == "WebClient"@ {
        Permission::Developer
    } else {
        spec_perm_lookup_v(table, name)
    }
}

/// The view of the configuration.
#[verifier::ext_equal]
pub struct ConfigV {
    pub maxPlayersCount: u8,
    pub port: u16,
    pub tickRate: u8,
    pub sendTime: u64,
    pub recvTime: u64,
    pub permissions: Seq<(Seq<char>, Permission)>,
}

/// Running configuration: table capacity, socket tunables, the two cadence
/// intervals in milliseconds, and the name -> permission table.
pub struct Config {
    pub maxPlayersCount: u8,
    pub port: u16,
    pub tickRate: u8,
    /// Minimum interval between two state-channel broadcast phases, in ms.
    pub sendTime: u64,
    /// Minimum interval between two receive phases, in ms.
    pub recvTime: u64,
    pub permissions: Vec<(String, Permission)>,
}

impl View for Config {
    type V = ConfigV;

    open spec fn view(&self) -> ConfigV {
        ConfigV {
            maxPlayersCount: self.maxPlayersCount,
            port: self.port,
            tickRate: self.tickRate,
            sendTime: self.sendTime,
            recvTime: self.recvTime,
            permissions: self.permissions@.map_values(|p: (String, Permission)| (p.0@, p.1)),
        }
    }
}

impl Default for Config {
    /// The configuration used when none was loaded.
    fn default() -> (r: Self)
        ensures
            r.maxPlayersCount == 5,
            r.port == 0,
            r.tickRate == 1,
            r.sendTime == 1000,
            r.recvTime == 500,
            r.permissions@.len() == 0,
    {
        Config {
            maxPlayersCount: 5,
            port: 0,
            tickRate: 1,
            sendTime: 1000,
            recvTime: 500,
            permissions: Vec::new(),
        }
    }
}

impl Config {
    /// Resolves a display name to its permission level. The bridging
    /// collaborator's identity is pinned to `Developer`; unknown names are
    /// `Player`.
    #[verifier::loop_isolation(false)]
    pub fn getPermission(&self, name: &str) -> (r: Permission)
        ensures
            name@ == "WebClient"@ ==> r == Permission::Developer,
            name@ != "WebClient"@ ==> r == spec_perm_lookup(self.permissions@, name@),
    {
        if crate::text::str_eq(name, "WebClient") {
            return Permission::Developer;
        }
        let mut i: usize = 0;
        proof {
            assert(self.permissions@.skip(0) =~= self.permissions@);
        }
        while i < self.permissions.len()
            invariant
                i <= self.permissions@.len(),
                spec_perm_lookup(self.permissions@, name@) == spec_perm_lookup(
                    self.permissions@.skip(i as int),
                    name@,
                ),
            decreases self.permissions@.len() - i,
        {
            proof {
                assert(self.permissions@.skip(i as int).drop_first() =~= self.permissions@.skip(
                    i + 1,
                ));
            }
            if crate::text::str_eq(self.permissions[i].0.as_str(), name) {
                return self.permissions[i].1;
            }
            i = i + 1;
        }
        Permission::Player
    }

    /// Sets or replaces the permission level stored for a name; every other
    /// name resolves as before.
    #[verifier::loop_isolation(false)]
    pub fn setPermission(&mut self, name: String, group: Permission)
        ensures
            spec_perm_lookup(final(self).permissions@, name@) == group,
            forall|n: Seq<char>|
                n != name@ ==> spec_perm_lookup(final(self).permissions@, n)
                    == spec_perm_lookup(old(self).permissions@, n),
            final(self).maxPlayersCount == old(self).maxPlayersCount,
            final(self).port == old(self).port,
            final(self).tickRate == old(self).tickRate,
            final(self).sendTime == old(self).sendTime,
            final(self).recvTime == old(self).recvTime,
    {
        let mut i: usize = 0;
        while i < self.permissions.len()
            invariant
                i <= self.permissions@.len(),
                forall|k: int| 0 <= k < i ==> self.permissions@[k].0@ != name@,
                self == old(self),
            decreases self.permissions@.len() - i,
        {
            if crate::text::str_eq(self.permissions[i].0.as_str(), name.as_str()) {
                self.permissions[i] = (name, group);
                proof {
                    lemma_perm_lookup_update(old(self).permissions@, self.permissions@, i as int);
                }
                return;
            }
            i = i + 1;
        }
        self.permissions.push((name, group));
        proof {
            assert(self.permissions@.take(old(self).permissions@.len() as int)
                =~= old(self).permissions@);
            lemma_perm_lookup_append(old(self).permissions@, self.permissions@);
        }
    }
}

/// After replacing entry `i`, whose key equals the old key there and does not
/// occur earlier in the table, a lookup of that key gives the new value and
/// every other key resolves as before.
proof fn lemma_perm_lookup_update(
    before: Seq<(String, Permission)>,
    after: Seq<(String, Permission)>,
    i: int,
)
    requires
        0 <= i < before.len(),
        after == before.update(i, after[i]),
        before[i].0@ == after[i].0@,
        forall|k: int| 0 <= k < i ==> before[k].0@ != after[i].0@,
    ensures
        spec_perm_lookup(after, after[i].0@) == after[i].1,
        forall|n: Seq<char>|
            n != after[i].0@ ==> spec_perm_lookup(after, n) == spec_perm_lookup(before, n),
    decreases before.len(),
{
    if i == 0 {
        assert(after.drop_first() =~= before.drop_first());
    } else {
        assert(after[0] == before[0]);
        assert(after.drop_first() =~= before.drop_first().update(i - 1, after[i]));
        assert(after.drop_first()[i - 1] == after[i]);
        lemma_perm_lookup_update(before.drop_first(), after.drop_first(), i - 1);
        assert(spec_perm_lookup(after, after[i].0@) == after[i].1);
    }
    assert forall|n: Seq<char>| n != after[i].0@ implies spec_perm_lookup(after, n)
        == spec_perm_lookup(before, n) by {
        if i == 0 {
            assert(after.drop_first() =~= before.drop_first());
            assert(spec_perm_lookup(after, n) == spec_perm_lookup(after.drop_first(), n));
            assert(spec_perm_lookup(before, n) == spec_perm_lookup(before.drop_first(), n));
        } else {
            assert(n != after.drop_first()[i - 1].0@);
            assert(spec_perm_lookup(after.drop_first(), n) == spec_perm_lookup(
                before.drop_first(),
                n,
            ));
            assert(after[0] == before[0]);
        }
    }
}

/// Appending an entry whose key does not occur in the table makes that key
/// resolve to the appended value and leaves every other lookup unchanged.
proof fn lemma_perm_lookup_append(
    before: Seq<(String, Permission)>,
    after: Seq<(String, Permission)>,
)
    requires
        after.len() == before.len() + 1,
        after.take(before.len() as int) == before,
        forall|k: int| 0 <= k < before.len() ==> before[k].0@ != after.last().0@,
    ensures
        spec_perm_lookup(after, after.last().0@) == after.last().1,
        forall|n: Seq<char>|
            n != after.last().0@ ==> spec_perm_lookup(after, n) == spec_perm_lookup(before, n),
    decreases before.len(),
{
    if before.len() == 0 {
        assert(after.drop_first() =~= Seq::<(String, Permission)>::empty());
        assert forall|n: Seq<char>| n != after.last().0@ implies spec_perm_lookup(after, n)
            == spec_perm_lookup(before, n) by {
            assert(after[0] == after.last());
            assert(spec_perm_lookup(after, n) == spec_perm_lookup(after.drop_first(), n));
        }
    } else {
        assert(after[0] == before[0]);
        assert(after.drop_first().take(before.len() - 1) =~= before.drop_first());
        assert(after.drop_first().last() == after.last());
        lemma_perm_lookup_append(before.drop_first(), after.drop_first());
        assert forall|n: Seq<char>| n != after.last().0@ implies spec_perm_lookup(after, n)
            == spec_perm_lookup(before, n) by {
            assert(spec_perm_lookup(after.drop_first(), n) == spec_perm_lookup(
                before.drop_first(),
                n,
            ));
        }
    }
}

} // verus!
