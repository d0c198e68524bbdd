//! Laws of the arbiter: what holds of every state, store and message.

use crate::arbiter::{
    cooldown_applies, cooldown_key, effective_privilege, handled, mode_key, settled_cooldown,
    settled_mode, started, stored_mode, ArbiterView, MessageView,
};
use crate::command::{AnarchyType, CommandView, Instant};
use crate::config::ConstructedGameInfoView;
use crate::database::{lemma_with_user_wf, DatabaseView};
use crate::table::{lemma_upsert, lookup};
use crate::text::{int_text, lemma_int_text_round_trip, text_int};
use vstd::prelude::*;
use vstd::string::*;

verus! {

proof fn lemma_keys_differ()
    ensures
        mode_key() != cooldown_key(),
{
    reveal_strlit("anarchy_mode");
    reveal_strlit("cooldown");
    assert(mode_key().len() == 12);
    assert(cooldown_key().len() == 8);
}

/// A message keeps the store well formed.
pub proof fn lemma_handled_wf(
    a: ArbiterView,
    db: DatabaseView,
    msg: MessageView,
    now: Instant,
    end_text: Seq<char>,
)
    requires
        db.wf(),
    ensures
        handled(a, db, msg, now, end_text).db.wf(),
{
    let registered = db.with_user(msg.sender_id, msg.sender_name);
    lemma_with_user_wf(db, msg.sender_id, msg.sender_name);
    let p = effective_privilege(registered, msg.sender_id, msg.privilege);
    let noted = registered.with_last_command(msg.sender_id, now);
    lemma_upsert(registered.last_command_time, msg.sender_id, now, msg.sender_id);
    let base = if cooldown_applies(a, p) {
        noted
    } else {
        registered
    };
    assert(base.wf());
    match msg.command {
        CommandView::SetAnarchyMode(mode) => {
            lemma_upsert(base.config_kv, mode_key(), mode.name(), mode_key());
        },
        CommandView::SetCooldown(d) => {
            lemma_upsert(base.config_kv, cooldown_key(), int_text(d), cooldown_key());
        },
        CommandView::Movement(_) => {
            crate::table::lemma_without(base.blocked_users, msg.sender_id, msg.sender_id);
        },
        CommandView::AddOperator(user) => {
            if base.id_of(user) is Some {
                lemma_upsert(base.operators, base.id_of(user)->0, (), base.id_of(user)->0);
            }
        },
        CommandView::RemoveOperator(user) => {
            if base.id_of(user) is Some {
                crate::table::lemma_without(
                    base.operators,
                    base.id_of(user)->0,
                    base.id_of(user)->0,
                );
            }
        },
        CommandView::Block(user, until) => {
            if base.id_of(user) is Some {
                lemma_upsert(base.blocked_users, base.id_of(user)->0, until, base.id_of(user)->0);
            }
        },
        CommandView::Unblock(user) => {
            if base.id_of(user) is Some {
                crate::table::lemma_without(
                    base.blocked_users,
                    base.id_of(user)->0,
                    base.id_of(user)->0,
                );
            }
        },
        _ => {},
    }
}

/// Cooldown: while the mode is Democracy and a cooldown is set, of two
/// button commands that one sender sends in a row the first starts the
/// cooldown, and both are sent on to the gamepad only if the second comes
/// when the cooldown has run out, or the sender counts as an operator or
/// more.
pub proof fn lemma_cooldown_holds(
    a: ArbiterView,
    db: DatabaseView,
    first: MessageView,
    second: MessageView,
    t1: Instant,
    t2: Instant,
    text1: Seq<char>,
    text2: Seq<char>,
)
    requires
        db.wf(),
        a.anarchy_mode == AnarchyType::Democracy,
        a.cooldown > 0,
        first.command is Movement,
        second.command is Movement,
        first.sender_id == second.sender_id,
        first.sender_name == second.sender_name,
        first.privilege == second.privilege,
        t1 < t2,
    ensures
        ({
            let s1 = handled(a, db, first, t1, text1);
            let s2 = handled(s1.arbiter, s1.db, second, t2, text2);
            let p = effective_privilege(
                db.with_user(first.sender_id, first.sender_name),
                first.sender_id,
                first.privilege,
            );
            s1.forwards.len() > 0 && s2.forwards.len() > 0 ==> t2 >= t1 + a.cooldown || p.rank()
                >= 1
        }),
{
    let id = first.sender_id;
    let name = first.sender_name;
    let registered = db.with_user(id, name);
    lemma_with_user_wf(db, id, name);
    let p = effective_privilege(registered, id, first.privilege);
    if p.rank() < 1 {
        let noted = registered.with_last_command(id, t1);
        lemma_upsert(registered.last_command_time, id, t1, id);
        let s1 = handled(a, db, first, t1, text1);
        assert(s1.arbiter == a);
        assert(s1.db.last_command_time == noted.last_command_time);
        assert(s1.db.operators == db.operators);
        lemma_handled_wf(a, db, first, t1, text1);
        let again = s1.db.with_user(id, name);
        assert(again.last_command_time == noted.last_command_time);
        assert(again.operators == db.operators);
        assert(effective_privilege(again, id, second.privilege) == p);
        assert(lookup(again.last_command_time, id) == Some(t1));
    }
}

/// Restart fidelity: once a moderator has set the mode and then the
/// cooldown, the arbiter holds both, and an arbiter that is started anew on
/// the store holds both as well.
pub proof fn lemma_restart_fidelity(
    a: ArbiterView,
    db: DatabaseView,
    set_mode: MessageView,
    set_cooldown: MessageView,
    t1: Instant,
    t2: Instant,
    text1: Seq<char>,
    text2: Seq<char>,
    games: Seq<(Seq<char>, ConstructedGameInfoView)>,
    has_sfx: bool,
)
    requires
        db.wf(),
        set_mode.command is SetAnarchyMode,
        set_cooldown.command is SetCooldown,
        set_mode.privilege.rank() >= 2,
        set_cooldown.privilege.rank() >= 2,
    ensures
        ({
            let s1 = handled(a, db, set_mode, t1, text1);
            let s2 = handled(s1.arbiter, s1.db, set_cooldown, t2, text2);
            let again = started(s2.db, games, has_sfx);
            &&& s2.arbiter.anarchy_mode == set_mode.command->SetAnarchyMode_0
            &&& s2.arbiter.cooldown == set_cooldown.command->SetCooldown_0
            &&& again.arbiter.anarchy_mode == set_mode.command->SetAnarchyMode_0
            &&& again.arbiter.cooldown == set_cooldown.command->SetCooldown_0
            &&& again.db == s2.db
        }),
{
    let mode = set_mode.command->SetAnarchyMode_0;
    let d = set_cooldown.command->SetCooldown_0;
    lemma_keys_differ();
    mode.lemma_name_round_trip();
    lemma_int_text_round_trip(d);
    let r1 = db.with_user(set_mode.sender_id, set_mode.sender_name);
    lemma_with_user_wf(db, set_mode.sender_id, set_mode.sender_name);
    let s1 = handled(a, db, set_mode, t1, text1);
    assert(s1.db == r1.with_kv(mode_key(), mode.name()));
    lemma_upsert(r1.config_kv, mode_key(), mode.name(), mode_key());
    lemma_handled_wf(a, db, set_mode, t1, text1);
    let r2 = s1.db.with_user(set_cooldown.sender_id, set_cooldown.sender_name);
    lemma_with_user_wf(s1.db, set_cooldown.sender_id, set_cooldown.sender_name);
    let s2 = handled(s1.arbiter, s1.db, set_cooldown, t2, text2);
    assert(s2.db == r2.with_kv(cooldown_key(), int_text(d)));
    lemma_upsert(r2.config_kv, cooldown_key(), int_text(d), cooldown_key());
    lemma_upsert(r2.config_kv, cooldown_key(), int_text(d), mode_key());
    assert(s2.db.kv(mode_key()) == Some(mode.name()));
    assert(s2.db.kv(cooldown_key()) == Some(int_text(d)));
    assert(settled_mode(s2.db) == s2.db);
    assert(settled_cooldown(s2.db) == s2.db);
}

/// A store whose mode is no mode's name and whose cooldown is no number
/// starts the arbiter in Democracy without a cooldown, and holds these two
/// afterwards.
pub proof fn lemma_restart_resets_malformed(
    db: DatabaseView,
    games: Seq<(Seq<char>, ConstructedGameInfoView)>,
    has_sfx: bool,
)
    requires
        db.wf(),
        db.kv(mode_key()) is None || AnarchyType::named(db.kv(mode_key())->0) is None,
        db.kv(cooldown_key()) is None || text_int(db.kv(cooldown_key())->0) is None,
    ensures
        started(db, games, has_sfx).arbiter.anarchy_mode == AnarchyType::Democracy,
        started(db, games, has_sfx).arbiter.cooldown == 0,
        started(db, games, has_sfx).db.kv(mode_key()) == Some(AnarchyType::Democracy.name()),
        started(db, games, has_sfx).db.kv(cooldown_key()) == Some(int_text(0)),
        started(db, games, has_sfx).db.wf(),
{
    lemma_keys_differ();
    let with_mode = settled_mode(db);
    lemma_upsert(db.config_kv, mode_key(), AnarchyType::Democracy.name(), mode_key());
    lemma_upsert(db.config_kv, mode_key(), AnarchyType::Democracy.name(), cooldown_key());
    assert(with_mode.kv(cooldown_key()) == db.kv(cooldown_key()));
    lemma_upsert(with_mode.config_kv, cooldown_key(), "0"@, cooldown_key());
    lemma_upsert(with_mode.config_kv, cooldown_key(), "0"@, mode_key());
    reveal_strlit("0");
    assert("0"@ =~= int_text(0));
}

/// The store holds what the arbiter has in mind: its mode under the mode's
/// name, and its cooldown as a number.
pub open spec fn in_step(a: ArbiterView, db: DatabaseView) -> bool {
    &&& db.kv(mode_key()) == Some(a.anarchy_mode.name())
    &&& db.kv(cooldown_key()) is Some
    &&& text_int(db.kv(cooldown_key())->0) == Some(a.cooldown)
}

/// An arbiter that has started is in step with its store.
pub proof fn lemma_start_in_step(
    db: DatabaseView,
    games: Seq<(Seq<char>, ConstructedGameInfoView)>,
    has_sfx: bool,
)
    requires
        db.wf(),
    ensures
        in_step(started(db, games, has_sfx).arbiter, started(db, games, has_sfx).db),
        started(db, games, has_sfx).db.wf(),
{
    lemma_keys_differ();
    let with_mode = settled_mode(db);
    lemma_upsert(db.config_kv, mode_key(), AnarchyType::Democracy.name(), mode_key());
    lemma_upsert(db.config_kv, mode_key(), AnarchyType::Democracy.name(), cooldown_key());
    AnarchyType::Democracy.lemma_name_round_trip();
    assert(with_mode.wf());
    assert(with_mode.kv(mode_key()) == Some(stored_mode(db).name()));
    lemma_upsert(with_mode.config_kv, cooldown_key(), "0"@, cooldown_key());
    lemma_upsert(with_mode.config_kv, cooldown_key(), "0"@, mode_key());
    reveal_strlit("0");
    assert("0"@ =~= int_text(0));
    lemma_int_text_round_trip(0);
}

/// A message leaves the arbiter in step with its store.
pub proof fn lemma_handled_in_step(
    a: ArbiterView,
    db: DatabaseView,
    msg: MessageView,
    now: Instant,
    end_text: Seq<char>,
)
    requires
        db.wf(),
        in_step(a, db),
    ensures
        in_step(
            handled(a, db, msg, now, end_text).arbiter,
            handled(a, db, msg, now, end_text).db,
        ),
{
    lemma_keys_differ();
    let registered = db.with_user(msg.sender_id, msg.sender_name);
    lemma_with_user_wf(db, msg.sender_id, msg.sender_name);
    let noted = registered.with_last_command(msg.sender_id, now);
    let p = effective_privilege(registered, msg.sender_id, msg.privilege);
    let base = if cooldown_applies(a, p) {
        noted
    } else {
        registered
    };
    assert(base.config_kv == db.config_kv);
    match msg.command {
        CommandView::SetAnarchyMode(mode) => {
            lemma_upsert(base.config_kv, mode_key(), mode.name(), mode_key());
            lemma_upsert(base.config_kv, mode_key(), mode.name(), cooldown_key());
        },
        CommandView::SetCooldown(d) => {
            lemma_upsert(base.config_kv, cooldown_key(), int_text(d), cooldown_key());
            lemma_upsert(base.config_kv, cooldown_key(), int_text(d), mode_key());
            lemma_int_text_round_trip(d);
        },
        _ => {},
    }
}

/// Restart fidelity: an arbiter that is started on the store of one that
/// was in step with it has the same mode and the same cooldown, and leaves
/// the store as it is. By the two laws before this one, that is so after
/// whatever messages the first arbiter has taken.
pub proof fn lemma_restart_in_step(
    a: ArbiterView,
    db: DatabaseView,
    games: Seq<(Seq<char>, ConstructedGameInfoView)>,
    has_sfx: bool,
)
    requires
        in_step(a, db),
    ensures
        started(db, games, has_sfx).arbiter.anarchy_mode == a.anarchy_mode,
        started(db, games, has_sfx).arbiter.cooldown == a.cooldown,
        started(db, games, has_sfx).db == db,
{
    a.anarchy_mode.lemma_name_round_trip();
    assert(settled_mode(db) == db);
    assert(settled_cooldown(db) == db);
}

} // verus!
