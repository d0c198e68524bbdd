//! The state that outlives a run: the user registry, the operator list,
//! the block list, each user's last command time, and a few settings.
//!
//! The store is held as plain tables. Whoever keeps it on disk loads the
//! rows into it and writes them back; every rule about the rows is here.

use crate::command::{Instant, Millis};
use crate::table::{
    distinct_keys, distinct_values, lemma_position, lemma_remove_keeps_distinct,
    lemma_value_position, lookup, position, upsert, value_position, without, Table,
};
use vstd::prelude::*;
use vstd::string::*;

verus! {

/// The store's tables.
#[derive(Clone, Debug)]
pub struct Database {
    /// Each known user's identity, with the user's display name. No identity
    /// and no name occurs twice.
    pub users: Table<String>,
    /// The identities of the operators.
    pub operators: Table<()>,
    /// The identities of the blocked, each with the instant at which the
    /// block ends; a block without one does not end.
    pub blocked_users: Table<Option<Instant>>,
    /// For each identity the instant of the last command that the cooldown
    /// counted.
    pub last_command_time: Table<Instant>,
    /// Settings, as text under a text key.
    pub config_kv: Table<String>,
}

/// The store as a mathematical value.
pub struct DatabaseView {
    pub users: Seq<(Seq<char>, Seq<char>)>,
    pub operators: Seq<(Seq<char>, ())>,
    pub blocked_users: Seq<(Seq<char>, Option<Instant>)>,
    pub last_command_time: Seq<(Seq<char>, Instant)>,
    pub config_kv: Seq<(Seq<char>, Seq<char>)>,
}

impl View for Database {
    type V = DatabaseView;

    open spec fn view(&self) -> DatabaseView {
        DatabaseView {
            users: self.users.rows(),
            operators: self.operators.rows(),
            blocked_users: self.blocked_users.rows(),
            last_command_time: self.last_command_time.rows(),
            config_kv: self.config_kv.rows(),
        }
    }
}

/// The names under which the given identities are registered, in the order
/// of the identities. An identity that is not registered has none.
pub open spec fn registered_names<W>(
    users: Seq<(Seq<char>, Seq<char>)>,
    ids: Seq<(Seq<char>, W)>,
) -> Seq<Seq<char>>
    decreases ids.len(),
{
    if ids.len() == 0 {
        Seq::empty()
    } else {
        match lookup(users, ids.last().0) {
            Some(name) => registered_names(users, ids.drop_last()).push(name),
            None => registered_names(users, ids.drop_last()),
        }
    }
}

impl DatabaseView {
    /// No table holds a key twice, and no two users share a name.
    pub open spec fn wf(self) -> bool {
        &&& distinct_keys(self.users)
        &&& distinct_values(self.users)
        &&& distinct_keys(self.operators)
        &&& distinct_keys(self.blocked_users)
        &&& distinct_keys(self.last_command_time)
        &&& distinct_keys(self.config_kv)
    }

    /// The store with nothing in it.
    pub open spec fn empty() -> DatabaseView {
        DatabaseView {
            users: Seq::empty(),
            operators: Seq::empty(),
            blocked_users: Seq::empty(),
            last_command_time: Seq::empty(),
            config_kv: Seq::empty(),
        }
    }

    /// The identity that is registered under a name.
    pub open spec fn id_of(self, name: Seq<char>) -> Option<Seq<char>> {
        match value_position(self.users, name) {
            Some(i) => Some(self.users[i].0),
            None => None,
        }
    }

    /// The registry after `id` was seen under `name`: whoever held the
    /// identity or the name before is gone from it.
    pub open spec fn with_user(self, id: Seq<char>, name: Seq<char>) -> DatabaseView {
        let others = without(self.users, id);
        let free = match value_position(others, name) {
            Some(i) => others.remove(i),
            None => others,
        };
        DatabaseView { users: free.push((id, name)), ..self }
    }

    /// Whether the identity is on the operator list.
    pub open spec fn is_operator(self, id: Seq<char>) -> bool {
        position(self.operators, id) is Some
    }

    /// Whether a lookup at `now` finds `id` blocked: there is a block, and it
    /// has no end or its end lies after `now`.
    pub open spec fn is_blocked(self, id: Seq<char>, now: Instant) -> bool {
        match lookup(self.blocked_users, id) {
            Some(Some(end)) => end > now,
            Some(None) => true,
            None => false,
        }
    }

    /// The store after a lookup at `now` of whether `id` is blocked: a block
    /// that has ended is taken out.
    pub open spec fn after_block_lookup(self, id: Seq<char>, now: Instant) -> DatabaseView {
        match lookup(self.blocked_users, id) {
            Some(Some(end)) => if end <= now {
                DatabaseView { blocked_users: without(self.blocked_users, id), ..self }
            } else {
                self
            },
            _ => self,
        }
    }

    /// The store after the user of that name was blocked; unchanged where
    /// the name is not registered.
    pub open spec fn with_block(self, name: Seq<char>, until: Option<Instant>) -> DatabaseView {
        match self.id_of(name) {
            Some(id) => DatabaseView {
                blocked_users: upsert(self.blocked_users, id, until),
                ..self
            },
            None => self,
        }
    }

    /// The store after the block of the user of that name was lifted.
    pub open spec fn without_block(self, name: Seq<char>) -> DatabaseView {
        match self.id_of(name) {
            Some(id) => DatabaseView { blocked_users: without(self.blocked_users, id), ..self },
            None => self,
        }
    }

    /// The store after the user of that name was made an operator; unchanged
    /// where the name is not registered.
    pub open spec fn with_operator(self, name: Seq<char>) -> DatabaseView {
        match self.id_of(name) {
            Some(id) => DatabaseView { operators: upsert(self.operators, id, ()), ..self },
            None => self,
        }
    }

    /// The store after the user of that name lost the operator's rank.
    pub open spec fn without_operator(self, name: Seq<char>) -> DatabaseView {
        match self.id_of(name) {
            Some(id) => DatabaseView { operators: without(self.operators, id), ..self },
            None => self,
        }
    }

    /// Whether the cooldown of `id` has run out at `now`: the user has no
    /// last command, or it lies at least `cooldown` back.
    pub open spec fn cooldown_lapsed(self, id: Seq<char>, cooldown: Millis, now: Instant) -> bool {
        match lookup(self.last_command_time, id) {
            Some(last) => now >= last + cooldown,
            None => true,
        }
    }

    /// The store after `now` was noted as the last command of `id`.
    pub open spec fn with_last_command(self, id: Seq<char>, now: Instant) -> DatabaseView {
        DatabaseView { last_command_time: upsert(self.last_command_time, id, now), ..self }
    }

    /// The value of a setting.
    pub open spec fn kv(self, key: Seq<char>) -> Option<Seq<char>> {
        lookup(self.config_kv, key)
    }

    /// The store after a setting was set.
    pub open spec fn with_kv(self, key: Seq<char>, value: Seq<char>) -> DatabaseView {
        DatabaseView { config_kv: upsert(self.config_kv, key, value), ..self }
    }

    /// The store after a setting was read that gets `default` where it is
    /// not set.
    pub open spec fn with_kv_default(self, key: Seq<char>, default: Seq<char>) -> DatabaseView {
        match self.kv(key) {
            Some(_) => self,
            None => self.with_kv(key, default),
        }
    }

    /// The value of a setting that gets `default` where it is not set.
    pub open spec fn kv_or(self, key: Seq<char>, default: Seq<char>) -> Seq<char> {
        match self.kv(key) {
            Some(v) => v,
            None => default,
        }
    }

    /// The names of the blocked users that are registered.
    pub open spec fn blocked_names(self) -> Seq<Seq<char>> {
        registered_names(self.users, self.blocked_users)
    }

    /// The names of the operators that are registered.
    pub open spec fn operator_names(self) -> Seq<Seq<char>> {
        registered_names(self.users, self.operators)
    }

    /// The store without users, operators, blocks and command times. The
    /// settings stay.
    pub open spec fn cleared(self) -> DatabaseView {
        DatabaseView { config_kv: self.config_kv, ..DatabaseView::empty() }
    }
}

/// Registering a user keeps the registry free of repeated identities and
/// names.
pub proof fn lemma_with_user_wf(db: DatabaseView, id: Seq<char>, name: Seq<char>)
    requires
        db.wf(),
    ensures
        db.with_user(id, name).wf(),
        db.with_user(id, name).id_of(name) == Some(id),
        lookup(db.with_user(id, name).users, id) == Some(name),
{
    let others = without(db.users, id);
    lemma_position(db.users, id);
    crate::table::lemma_without(db.users, id, id);
    if position(db.users, id) is Some {
        lemma_remove_keeps_distinct(db.users, position(db.users, id)->0);
    }
    assert(distinct_values(others));
    lemma_value_position(others, name);
    let free = match value_position(others, name) {
        Some(i) => others.remove(i),
        None => others,
    };
    if value_position(others, name) is Some {
        lemma_remove_keeps_distinct(others, value_position(others, name)->0);
    }
    assert(distinct_keys(free) && distinct_values(free));
    lemma_position(others, id);
    assert forall|j: int| 0 <= j < free.len() implies (#[trigger] free[j]).0 != id && free[j].1
        != name by {
        match value_position(others, name) {
            Some(i) => {
                let j0 = if j < i {
                    j
                } else {
                    j + 1
                };
                assert(free[j] == others[j0]);
                if others[j0].1 == name {
                    assert(others[i].1 == others[j0].1);
                }
            },
            None => {},
        }
    }
    let after = free.push((id, name));
    assert(after == db.with_user(id, name).users);
    assert forall|a: int, b: int| 0 <= a < b < after.len() implies (#[trigger] after[a]).0 != (
    #[trigger] after[b]).0 && after[a].1 != after[b].1 by {
        assert(after[a] == free[a]);
        if b < free.len() {
            assert(after[b] == free[b]);
        }
    }
    assert(after.last() == (id, name));
}

impl Database {
    /// No table holds a key twice, and no two users share a name.
    pub open spec fn wf(&self) -> bool {
        &&& self.users.wf()
        &&& self.operators.wf()
        &&& self.blocked_users.wf()
        &&& self.last_command_time.wf()
        &&& self.config_kv.wf()
        &&& self@.wf()
    }

    /// A store of well-formed tables in which no two users share a name is
    /// well formed.
    pub proof fn lemma_wf(&self)
        requires
            self.users.wf(),
            self.operators.wf(),
            self.blocked_users.wf(),
            self.last_command_time.wf(),
            self.config_kv.wf(),
            distinct_values(self.users.rows()),
        ensures
            self.wf(),
    {
        self.users.lemma_wf();
        self.operators.lemma_wf();
        self.blocked_users.lemma_wf();
        self.last_command_time.lemma_wf();
        self.config_kv.lemma_wf();
    }
}

/// A store with nothing in it.
pub fn in_memory() -> (db: Database)
    ensures
        db.wf(),
        db@ == DatabaseView::empty(),
{
    let db = Database {
        users: Table::new(),
        operators: Table::new(),
        blocked_users: Table::new(),
        last_command_time: Table::new(),
        config_kv: Table::new(),
    };
    proof {
        db.lemma_wf();
    }
    db
}

/// Empties every table but the settings.
pub fn clear_db(db: &mut Database)
    requires
        old(db).wf(),
    ensures
        final(db).wf(),
        final(db)@ == old(db)@.cleared(),
{
    db.users.clear();
    db.operators.clear();
    db.blocked_users.clear();
    db.last_command_time.clear();
    proof {
        db.lemma_wf();
    }
}

/// Sets a setting.
pub fn set_kv(db: &mut Database, key: &str, value: &str)
    requires
        old(db).wf(),
    ensures
        final(db).wf(),
        final(db)@ == old(db)@.with_kv(key@, value@),
{
    db.config_kv.upsert(key.to_owned(), value.to_owned());
    proof {
        db.lemma_wf();
    }
}

/// Reads a setting.
pub fn get_kv(db: &Database, key: &str) -> (r: Option<String>)
    requires
        db.wf(),
    ensures
        r.deep_view() == db@.kv(key@),
{
    match db.config_kv.find(key) {
        Some(i) => Some(db.config_kv.value_at(i).clone()),
        None => None,
    }
}

/// Reads a setting, which is first set to `default` where it is not set.
pub fn get_or_set_kv(db: &mut Database, key: &str, default: String) -> (r: String)
    requires
        old(db).wf(),
    ensures
        final(db).wf(),
        final(db)@ == old(db)@.with_kv_default(key@, default@),
        r@ == old(db)@.kv_or(key@, default@),
{
    match db.config_kv.find(key) {
        Some(i) => db.config_kv.value_at(i).clone(),
        None => {
            let r: String = default.clone();
            db.config_kv.upsert(key.to_owned(), default);
            proof {
                db.lemma_wf();
            }
            r
        },
    }
}

/// Registers a user under an identity and a name. Whoever held the identity
/// or the name before is no longer registered.
pub fn update_user(db: &mut Database, id: &str, name: &str)
    requires
        old(db).wf(),
    ensures
        final(db).wf(),
        final(db)@ == old(db)@.with_user(id@, name@),
{
    let ghost before = db@;
    proof {
        lemma_with_user_wf(before, id@, name@);
        lemma_position(before.users, id@);
        if position(before.users, id@) is Some {
            lemma_remove_keeps_distinct(before.users, position(before.users, id@)->0);
        }
    }
    let _ = db.users.remove(id);
    let ghost others = db.users.rows();
    match db.users.find_value(name) {
        Some(i) => {
            proof {
                lemma_value_position(others, name@);
                lemma_remove_keeps_distinct(others, i as int);
            }
            db.users.remove_at(i);
        },
        None => {},
    }
    let ghost free = db.users.rows();
    proof {
        crate::table::lemma_position(free, id@);
        assert(position(free, id@) is None) by {
            lemma_position(others, id@);
            crate::table::lemma_without(before.users, id@, id@);
            if position(free, id@) is Some {
                let j = position(free, id@)->0;
                match value_position(others, name@) {
                    Some(i) => {
                        let j0 = if j < i {
                            j
                        } else {
                            j + 1
                        };
                        assert(free[j] == others[j0]);
                    },
                    None => {},
                }
            }
        }
    }
    db.users.upsert(id.to_owned(), name.to_owned());
    proof {
        assert(db.users.rows() == free.push((id@, name@)));
        assert(db@.users == before.with_user(id@, name@).users);
        db.lemma_wf();
    }
}

/// The identity that is registered under a name.
pub fn user_id_from_name(db: &Database, name: &str) -> (r: Option<String>)
    requires
        db.wf(),
    ensures
        r.deep_view() == db@.id_of(name@),
{
    match db.users.find_value(name) {
        Some(i) => Some(db.users.key_at(i).clone()),
        None => None,
    }
}

/// Says whether the cooldown of `id` has run out at `now`, and notes `now`
/// as the user's last command either way.
pub fn test_and_set_cooldown_lapsed(
    db: &mut Database,
    id: &str,
    cooldown: Millis,
    now: Instant,
) -> (r: bool)
    requires
        old(db).wf(),
    ensures
        final(db).wf(),
        r == old(db)@.cooldown_lapsed(id@, cooldown, now),
        final(db)@ == old(db)@.with_last_command(id@, now),
{
    let lapsed: bool = match db.last_command_time.find(id) {
        Some(i) => {
            let last: Instant = *db.last_command_time.value_at(i);
            (now as i128) >= (last as i128) + (cooldown as i128)
        },
        None => true,
    };
    db.last_command_time.upsert(id.to_owned(), now);
    proof {
        db.lemma_wf();
    }
    lapsed
}

/// Whether the identity is on the operator list.
pub fn is_operator(db: &Database, id: &str) -> (r: bool)
    requires
        db.wf(),
    ensures
        r == db@.is_operator(id@),
{
    db.operators.find(id).is_some()
}

/// Says whether `id` is blocked at `now`. A block that has ended is taken
/// out of the store.
pub fn is_blocked(db: &mut Database, id: &str, now: Instant) -> (r: bool)
    requires
        old(db).wf(),
    ensures
        final(db).wf(),
        r == old(db)@.is_blocked(id@, now),
        final(db)@ == old(db)@.after_block_lookup(id@, now),
{
    match db.blocked_users.find(id) {
        Some(i) => {
            let end: Option<Instant> = *db.blocked_users.value_at(i);
            match end {
                Some(t) => {
                    if t <= now {
                        let _ = db.blocked_users.remove(id);
                        proof {
                            db.lemma_wf();
                        }
                        false
                    } else {
                        true
                    }
                },
                None => true,
            }
        },
        None => false,
    }
}

/// Blocks the user of that name, until the given instant or for good, and
/// says whether the name is registered.
pub fn block_user(db: &mut Database, name: &str, until: Option<Instant>) -> (r: bool)
    requires
        old(db).wf(),
    ensures
        final(db).wf(),
        r == (old(db)@.id_of(name@) is Some),
        final(db)@ == old(db)@.with_block(name@, until),
{
    match user_id_from_name(db, name) {
        Some(id) => {
            db.blocked_users.upsert(id, until);
            proof {
                db.lemma_wf();
            }
            true
        },
        None => false,
    }
}

/// Lifts the block of the user of that name.
pub fn unblock_user(db: &mut Database, name: &str)
    requires
        old(db).wf(),
    ensures
        final(db).wf(),
        final(db)@ == old(db)@.without_block(name@),
{
    match user_id_from_name(db, name) {
        Some(id) => {
            let _ = db.blocked_users.remove(id.as_str());
            proof {
                db.lemma_wf();
            }
        },
        None => {},
    }
}

/// Makes the user of that name an operator, and says whether the name is
/// registered.
pub fn op_user(db: &mut Database, name: &str) -> (r: bool)
    requires
        old(db).wf(),
    ensures
        final(db).wf(),
        r == (old(db)@.id_of(name@) is Some),
        final(db)@ == old(db)@.with_operator(name@),
{
    match user_id_from_name(db, name) {
        Some(id) => {
            db.operators.upsert(id, ());
            proof {
                db.lemma_wf();
            }
            true
        },
        None => false,
    }
}

/// Takes the operator's rank from the user of that name.
pub fn deop_user(db: &mut Database, name: &str)
    requires
        old(db).wf(),
    ensures
        final(db).wf(),
        final(db)@ == old(db)@.without_operator(name@),
{
    match user_id_from_name(db, name) {
        Some(id) => {
            let _ = db.operators.remove(id.as_str());
            proof {
                db.lemma_wf();
            }
        },
        None => {},
    }
}

fn names_of<V: DeepView>(users: &Table<String>, ids: &Table<V>) -> (r: Vec<String>)
    requires
        users.wf(),
        ids.wf(),
    ensures
        r.deep_view() == registered_names(users.rows(), ids.rows()),
{
    let mut out: Vec<String> = Vec::new();
    let mut i: usize = 0;
    let n: usize = ids.len();
    assert(ids.rows().subrange(0, 0) =~= Seq::<(Seq<char>, V::V)>::empty());
    assert(out.deep_view() =~= Seq::<Seq<char>>::empty());
    while i < n
        invariant
            users.wf(),
            ids.wf(),
            n == ids.rows().len(),
            i <= n,
            out.deep_view() == registered_names(users.rows(), ids.rows().subrange(0, i as int)),
        decreases n - i,
    {
        let ghost before = ids.rows().subrange(0, i as int);
        let ghost after = ids.rows().subrange(0, i + 1);
        assert(after.drop_last() =~= before);
        assert(after.last() == ids.rows()[i as int]);
        let ghost previous = out.deep_view();
        match users.find(ids.key_at(i).as_str()) {
            Some(j) => {
                let name: String = users.value_at(j).clone();
                out.push(name);
                assert(out.deep_view() =~= previous.push(name@));
            },
            None => {},
        }
        i = i + 1;
    }
    assert(ids.rows().subrange(0, n as int) =~= ids.rows());
    out
}

/// The names of the blocked users.
pub fn list_blocked_users(db: &Database) -> (r: Vec<String>)
    requires
        db.wf(),
    ensures
        r.deep_view() == db@.blocked_names(),
{
    names_of(&db.users, &db.blocked_users)
}

/// The names of the operators.
pub fn list_op_users(db: &Database) -> (r: Vec<String>)
    requires
        db.wf(),
    ensures
        r.deep_view() == db@.operator_names(),
{
    names_of(&db.users, &db.operators)
}

/// A user whose block has ended is not found blocked, and the lookup takes
/// the block out of the store.
pub proof fn lemma_block_lapses(db: DatabaseView, id: Seq<char>, end: Instant, now: Instant)
    requires
        db.wf(),
        lookup(db.blocked_users, id) == Some(Some(end)),
        end <= now,
    ensures
        !db.is_blocked(id, now),
        lookup(db.after_block_lookup(id, now).blocked_users, id) is None,
        forall|later: Instant| !(#[trigger] db.after_block_lookup(id, now).is_blocked(id, later)),
{
    crate::table::lemma_without(db.blocked_users, id, id);
}

} // verus!
