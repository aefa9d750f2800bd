use crate::sync::action::{lawful, ActionExt, ActionView, ObjectExt};
use crate::sync::commit::CommitView;
use crate::sync::hooks::{applied, lemma_holder, lemma_storages_update, storages_wf};
use crate::sync::log::next_ancestor;
use crate::sync::object::{lemma_place, ObjectState};
use crate::sync::repo::{
    lemma_signed_commit_is_remote, lemma_single_action_applies, signed_commit, RepoState,
};
use crate::sync::session::SessionState;
use crate::sync::stamp::Timestamp;
use crate::sync::store::{find, lemma_find, lemma_found, lemma_push_wf, Storage, StorageState};
use vstd::prelude::*;

verus! {

/// An author, a server and a client before the author makes a commit: the
/// author has nothing to push, all three hold the same remote log, none has
/// a commit context open, and each holds a storage of the same name.
pub open spec fn in_step<T: ObjectExt, A: ActionExt<ObjectType = T>>(
    author: RepoState<Vec<Storage<T, A>>>,
    ka: int,
    server: RepoState<Vec<Storage<T, A>>>,
    ks: int,
    client: RepoState<Vec<Storage<T, A>>>,
    kc: int,
) -> bool {
    &&& author.wf() && server.wf() && client.wf()
    &&& 0 <= ka < author.storages.len()
    &&& 0 <= ks < server.storages.len()
    &&& 0 <= kc < client.storages.len()
    &&& server.storages[ks].id == author.storages[ka].id
    &&& client.storages[kc].id == author.storages[ka].id
    &&& !server.context_open && !client.context_open
    &&& author.log.local.len() == 0
    &&& server.log.remote == author.log.remote
    &&& client.log.remote == author.log.remote
}

/// A storage that takes a well-formed signed create for an object that is
/// no member holds that object at its end.
pub proof fn lemma_signed_create_arrives<T: ObjectExt, A: ActionExt<ObjectType = T>>(
    storages: Seq<StorageState<T, A>>,
    k: int,
    a: ActionView<T, A>,
    now: Timestamp,
)
    requires
        lawful::<T, A>(),
        storages_wf(storages),
        0 <= k < storages.len(),
        a.remote_signature is None,
        ObjectState::create_error(a) is None,
        a.storage_id == storages[k].id,
        !storages[k].has(a.object_id),
    ensures
        applied::<Vec<Storage<T, A>>>(storages, seq![a.signed().envelope()], now) is Ok,
        applied::<Vec<Storage<T, A>>>(storages, seq![a.signed().envelope()], now)->Ok_0[k].member(
            a.object_id,
        ) == ObjectState::created(a.signed()),
{
    a.lemma_signed_reads_back();
    assert(ObjectState::create_error(a.signed()) is None);
    lemma_single_action_applies(storages, k, a.signed(), now);
    let after = storages[k].with_action(a.signed(), now);
    lemma_found(storages[k].members, a.object_id);
    lemma_find(after.members, a.object_id, storages[k].members.len() as int);
}

/// Whether a commit is unsigned and holds one action object only: the
/// envelope of an unsigned action object.
pub open spec fn carries<T: ObjectExt, A: ActionExt<ObjectType = T>>(
    c: CommitView,
    a: ActionView<T, A>,
) -> bool {
    &&& c.remote_signature is None
    &&& c.actions == seq![a.envelope()]
    &&& a.remote_signature is None
}

/// The signed form of a commit that carries one action object carries the
/// signed form of that action object, and is a remote commit.
pub proof fn lemma_signed_carries<T: ObjectExt, A: ActionExt<ObjectType = T>>(
    c: CommitView,
    a: ActionView<T, A>,
)
    requires
        lawful::<T, A>(),
        carries(c, a),
    ensures
        signed_commit(c).actions == seq![a.signed().envelope()],
        signed_commit(c).is_remote_commit(),
        signed_commit(c).id == c.id,
        signed_commit(c).ancestor_id == c.ancestor_id,
        c.is_local_commit(),
{
    assert(c.actions_unsigned()) by {
        assert forall|i: int| 0 <= i < c.actions.len() implies (
        #[trigger] c.actions[i]).remote_signature is None by {}
    }
    lemma_signed_commit_is_remote(c);
    a.lemma_signed_reads_back();
    assert(signed_commit(c).actions =~= seq![a.signed().envelope()]);
}

/// The logs stay well formed when an unsigned commit with unsigned action
/// objects enters the local log.
pub proof fn lemma_local_appended_wf(log: crate::sync::log::LogState, c: CommitView)
    requires
        log.wf(),
        c.is_local_commit(),
    ensures
        log.local_appended(c).wf(),
{
    let after = log.local_appended(c);
    assert forall|i: int| 0 <= i < after.local.len() implies (
    #[trigger] after.local[i]).is_local_commit() by {
        if i < log.local.len() {
            assert(after.local[i] == log.local[i]);
        }
    }
    assert forall|i: int| 1 <= i < after.local.len() implies (
    #[trigger] after.local[i]).ancestor_id == after.local[i - 1].id by {
        if i < log.local.len() {
            assert(after.local[i] == log.local[i]);
            assert(after.local[i - 1] == log.local[i - 1]);
        }
    }
}

/// The author's side of a create: closing the commit with the create action
/// that `create_object` made is not refused; the storage then holds the new
/// object, and the commit that is pushed next carries the create as it was
/// made and names the last remote commit.
#[verifier::rlimit(60)]
pub proof fn lemma_created_is_pushed<T: ObjectExt, A: ActionExt<ObjectType = T>>(
    author: RepoState<Vec<Storage<T, A>>>,
    ka: int,
    session: SessionState,
    data: T,
    action_id: u128,
    object_id: u128,
    dtime: Timestamp,
    now: Timestamp,
)
    requires
        lawful::<T, A>(),
        author.wf(),
        0 <= ka < author.storages.len(),
        author.log.local.len() == 0,
        !author.storages[ka].has(object_id),
        session.commit.remote_signature is None,
        session.commit.actions.len() == 0,
    ensures
        ({
            let a = author.storages[ka].creates(
                session.uid,
                session.commit.id,
                data,
                action_id,
                object_id,
                dtime,
            );
            let c = session.with_action(a.envelope()).commit;
            let after = author.closed(c, now);
            &&& author.close_error(c, now) is None
            &&& after.wf()
            &&& !after.context_open
            &&& after.storages.len() == author.storages.len()
            &&& after.storages[ka].id == author.storages[ka].id
            &&& after.storages[ka].has(object_id)
            &&& after.storages[ka].member(object_id) == ObjectState::created(a)
            &&& after.log.remote == author.log.remote
            &&& after.log.local.len() == 1
            &&& after.log.local.first().id == c.id
            &&& carries(after.push_candidate(), a)
            &&& after.push_candidate().id == c.id
            &&& after.push_candidate().ancestor_id == next_ancestor(author.log.remote)
        }),
{
    let st = author.storages[ka];
    let a = st.creates(session.uid, session.commit.id, data, action_id, object_id, dtime);
    let e = a.envelope();
    let c = session.with_action(e).commit;
    assert(c.actions =~= seq![e]);
    crate::sync::store::lemma_create_is_accepted(
        st,
        session.uid,
        session.commit.id,
        data,
        action_id,
        object_id,
        dtime,
    );
    crate::sync::repo::lemma_own_action_closes(author, ka, session, a, now);
    let after = author.closed(c, now);
    let st1 = after.storages[ka];
    assert(st1 == st.with_action(a, now));
    lemma_found(st.members, object_id);
    lemma_find(st1.members, object_id, st.members.len() as int);
    assert(ObjectState::created(a).wf()) by {
        reveal(ObjectState::wf);
        crate::sync::object::lemma_rooted_single(a, false);
    }
    lemma_push_wf(st, ObjectState::created(a));
    assert(st1 == (StorageState { members: st.members.push(ObjectState::created(a)), ..st }));
    lemma_storages_update(author.storages, ka, st1);
    assert(after.storages =~= author.storages.update(ka, st1));
    assert(c.is_local_commit()) by {
        assert forall|i: int| 0 <= i < c.actions.len() implies (
        #[trigger] c.actions[i]).remote_signature is None by {}
    }
    lemma_local_appended_wf(author.log, c);
    let entry = after.log.local.first();
    assert(entry == author.log.local_entry(c));
    assert(entry.actions =~= seq![e]);
    lemma_rebased_head(after.storages, ka, a);
    assert(as_pushed(ObjectState::created(a), a) == a);
    assert(after.push_candidate().actions =~= seq![e]);
}

/// The server's side of a create: a pushed commit that carries a
/// well-formed create for an object that is no member of the storage it
/// names, and that names the last remote commit, is merged; the storage then
/// holds the object that the signed create makes, and the signed commit
/// stands at the end of the remote log.
pub proof fn lemma_create_is_merged<T: ObjectExt, A: ActionExt<ObjectType = T>>(
    server: RepoState<Vec<Storage<T, A>>>,
    ks: int,
    pushed: CommitView,
    a: ActionView<T, A>,
    now: Timestamp,
)
    requires
        lawful::<T, A>(),
        server.wf(),
        !server.context_open,
        0 <= ks < server.storages.len(),
        carries(pushed, a),
        pushed.ancestor_id == next_ancestor(server.log.remote),
        ObjectState::create_error(a) is None,
        a.storage_id == server.storages[ks].id,
        !server.storages[ks].has(a.object_id),
    ensures
        server.merge_error(pushed, now) is None,
        server.merged(pushed, now).storages[ks].member(a.object_id) == ObjectState::created(
            a.signed(),
        ),
        server.merged(pushed, now).log.remote == server.log.remote.push(signed_commit(pushed)),
{
    lemma_signed_carries(pushed, a);
    lemma_signed_create_arrives(server.storages, ks, a, now);
}

/// The client's side of a create: the signed form of such a commit is taken
/// in by a replica whose remote log it follows; the storage then holds the
/// object that the signed create makes.
pub proof fn lemma_create_is_pulled<T: ObjectExt, A: ActionExt<ObjectType = T>>(
    client: RepoState<Vec<Storage<T, A>>>,
    kc: int,
    pushed: CommitView,
    a: ActionView<T, A>,
    now: Timestamp,
)
    requires
        lawful::<T, A>(),
        client.wf(),
        !client.context_open,
        0 <= kc < client.storages.len(),
        carries(pushed, a),
        pushed.ancestor_id == next_ancestor(client.log.remote),
        ObjectState::create_error(a) is None,
        a.storage_id == client.storages[kc].id,
        !client.storages[kc].has(a.object_id),
    ensures
        client.pull_error(signed_commit(pushed), now) is None,
        client.pulled(signed_commit(pushed), now).storages[kc].member(a.object_id)
            == ObjectState::created(a.signed()),
        client.pulled(signed_commit(pushed), now).log.remote == client.log.remote.push(
            signed_commit(pushed),
        ),
{
    lemma_signed_carries(pushed, a);
    lemma_signed_create_arrives(client.storages, kc, a, now);
}

/// The author's side of the answer: the signed form of the commit that the
/// author pushed is taken in for the oldest local commit; the purely local
/// object that the create had made gets its remote side and is then the
/// object that the signed create makes, and the local commit has left the
/// local log.
pub proof fn lemma_create_is_acknowledged<T: ObjectExt, A: ActionExt<ObjectType = T>>(
    author: RepoState<Vec<Storage<T, A>>>,
    ka: int,
    pushed: CommitView,
    a: ActionView<T, A>,
    now: Timestamp,
)
    requires
        lawful::<T, A>(),
        author.wf(),
        !author.context_open,
        0 <= ka < author.storages.len(),
        carries(pushed, a),
        pushed.ancestor_id == next_ancestor(author.log.remote),
        author.log.local.len() == 1,
        author.log.local.first().id == pushed.id,
        ObjectState::create_error(a) is None,
        a.storage_id == author.storages[ka].id,
        author.storages[ka].has(a.object_id),
        author.storages[ka].member(a.object_id) == ObjectState::created(a),
    ensures
        author.acknowledge_error(signed_commit(pushed), now) is None,
        author.acknowledged(signed_commit(pushed), now).storages[ka].member(a.object_id)
            == ObjectState::created(a.signed()),
        author.acknowledged(signed_commit(pushed), now).log.local.len() == 0,
        author.acknowledged(signed_commit(pushed), now).log.remote == author.log.remote.push(
            signed_commit(pushed),
        ),
{
    lemma_signed_carries(pushed, a);
    let st = author.storages[ka];
    let own = st.member(a.object_id);
    let data = a.action->Create_0;
    assert(ObjectState::create_error(a.signed()) is None);
    assert(own.local_actions.skip(1) =~= Seq::<ActionView<T, A>>::empty());
    assert(own.promote_error(a.signed()) is None);
    assert(st.action_error(a.signed()) is None);
    lemma_single_action_applies(author.storages, ka, a.signed(), now);
    let st2 = st.with_action(a.signed(), now);
    lemma_found(st.members, a.object_id);
    let k = find(st.members, a.object_id);
    assert forall|j: int| 0 <= j < k implies (#[trigger] st2.members[j]).id != a.object_id by {
        assert(st2.members[j] == st.members[j]);
    }
    lemma_find(st2.members, a.object_id, k);
    assert(crate::sync::object::restamp(own.local_actions.skip(1), data, now) =~= Seq::<
        ActionView<T, A>,
    >::empty());
    assert(own.promoted(a.signed(), now) == ObjectState::created(a.signed()));
    assert(author.log.local.drop_first() =~= Seq::<CommitView>::empty());
}

/// What an author saw after closing a commit that creates an object is what
/// a client holds after the commit was pushed and pulled. The author closes
/// a commit with the create action that `create_object` made, pushes it,
/// and takes in the server's answer; the server merges it; a client that
/// was in step pulls it. Then nothing was refused; the object at the server
/// and at the client is the object that the signed create makes, with the
/// latest version that the author saw as its remote object; the author
/// holds the same object, and all three hold the same remote log.
pub proof fn lemma_pushed_create_is_handed_over<T: ObjectExt, A: ActionExt<ObjectType = T>>(
    author: RepoState<Vec<Storage<T, A>>>,
    ka: int,
    server: RepoState<Vec<Storage<T, A>>>,
    ks: int,
    client: RepoState<Vec<Storage<T, A>>>,
    kc: int,
    session: SessionState,
    data: T,
    action_id: u128,
    object_id: u128,
    dtime: Timestamp,
    closed_at: Timestamp,
    merged_at: Timestamp,
    pulled_at: Timestamp,
    acknowledged_at: Timestamp,
)
    requires
        lawful::<T, A>(),
        in_step(author, ka, server, ks, client, kc),
        !author.storages[ka].has(object_id),
        !server.storages[ks].has(object_id),
        !client.storages[kc].has(object_id),
        session.commit.remote_signature is None,
        session.commit.actions.len() == 0,
    ensures
        ({
            let a = author.storages[ka].creates(
                session.uid,
                session.commit.id,
                data,
                action_id,
                object_id,
                dtime,
            );
            let c = session.with_action(a.envelope()).commit;
            let after_close = author.closed(c, closed_at);
            let pushed = after_close.push_candidate();
            let signed = signed_commit(pushed);
            let at_server = server.merged(pushed, merged_at);
            let at_client = client.pulled(signed, pulled_at);
            let at_author = after_close.acknowledged(signed, acknowledged_at);
            &&& author.close_error(c, closed_at) is None
            &&& after_close.storages[ka].member(object_id).local_object == data
            &&& server.merge_error(pushed, merged_at) is None
            &&& client.pull_error(signed, pulled_at) is None
            &&& after_close.acknowledge_error(signed, acknowledged_at) is None
            &&& at_server.storages[ks].member(object_id) == ObjectState::created(a.signed())
            &&& at_client.storages[kc].member(object_id) == ObjectState::created(a.signed())
            &&& at_client.storages[kc].member(object_id).remote_object == Some(data)
            &&& at_author.storages[ka].member(object_id) == ObjectState::created(a.signed())
            &&& at_author.log.local.len() == 0
            &&& at_author.log.remote == at_server.log.remote
            &&& at_client.log.remote == at_server.log.remote
        }),
{
    let a = author.storages[ka].creates(
        session.uid,
        session.commit.id,
        data,
        action_id,
        object_id,
        dtime,
    );
    let c = session.with_action(a.envelope()).commit;
    lemma_created_is_pushed(author, ka, session, data, action_id, object_id, dtime, closed_at);
    let after_close = author.closed(c, closed_at);
    let pushed = after_close.push_candidate();
    lemma_create_is_merged(server, ks, pushed, a, merged_at);
    lemma_create_is_pulled(client, kc, pushed, a, pulled_at);
    lemma_create_is_acknowledged(after_close, ka, pushed, a, acknowledged_at);
}

/// An object stays well formed when a local patch that it accepts is added.
pub proof fn lemma_local_patched_wf<T: ObjectExt, A: ActionExt<ObjectType = T>>(
    o: ObjectState<T, A>,
    a: ActionView<T, A>,
)
    requires
        o.wf(),
        o.local_patch_error(a) is None,
    ensures
        o.local_patched(a).wf(),
{
    reveal(ObjectState::wf);
    let next = o.local_patched(a).local_object;
    match o.remote_object {
        None => {
            crate::sync::object::lemma_rooted_push(o.local_actions, false, o.local_object, a, next);
        },
        Some(r) => {
            crate::sync::object::lemma_patches_push(
                r,
                crate::sync::object::local_root(o.local_actions),
                o.local_actions,
                false,
                o.local_object,
                a,
                next,
            );
            assert(crate::sync::object::local_root(o.local_actions.push(a))
                == crate::sync::object::local_root(o.local_actions));
        },
    }
}

/// The patch action that `patch` made against an object, as it is pushed
/// while it is the only local action of the object: it names the last
/// remote action as its parent.
pub open spec fn as_pushed<T: ObjectExt, A: ActionExt<ObjectType = T>>(
    o: ObjectState<T, A>,
    a: ActionView<T, A>,
) -> ActionView<T, A> {
    ActionView { parent_action_id: crate::sync::object::tip(o.remote_actions), ..a }
}

/// Whether a replica holds an object as a member of a storage.
pub open spec fn holds_object<T: ObjectExt, A: ActionExt<ObjectType = T>>(
    repo: RepoState<Vec<Storage<T, A>>>,
    k: int,
    o: ObjectState<T, A>,
) -> bool {
    &&& 0 <= k < repo.storages.len()
    &&& repo.storages[k].id == o.storage_id
    &&& repo.storages[k].has(o.id)
    &&& repo.storages[k].member(o.id) == o
}

/// The member of a storage after a patch for it was accepted.
pub proof fn lemma_member_after_patch<T: ObjectExt, A: ActionExt<ObjectType = T>>(
    st: StorageState<T, A>,
    a: ActionView<T, A>,
    now: Timestamp,
)
    requires
        st.has(a.object_id),
        a.action is Patch,
    ensures
        st.with_action(a, now).has(a.object_id),
        st.with_action(a, now).member(a.object_id) == st.member(a.object_id).patched(a, now),
        st.with_action(a, now).id == st.id,
{
    lemma_found(st.members, a.object_id);
    let k = find(st.members, a.object_id);
    let after = st.with_action(a, now);
    assert forall|j: int| 0 <= j < k implies (#[trigger] after.members[j]).id != a.object_id by {
        assert(after.members[j] == st.members[j]);
    }
    lemma_find(after.members, a.object_id, k);
}

/// A patch that was made against an object without local actions, signed by
/// the server as it is pushed, is accepted as a remote patch by every
/// replica's copy of that object; the remote object is then the latest
/// version that the author saw, and nothing local is left. The author's own
/// copy, which holds the patch as its only local action, comes to the same
/// object.
pub proof fn lemma_signed_patch_is_accepted<T: ObjectExt, A: ActionExt<ObjectType = T>>(
    o: ObjectState<T, A>,
    uid: Seq<char>,
    commit_id: u128,
    patch: A,
    id: u128,
    dtime: Timestamp,
    now: Timestamp,
    then: Timestamp,
)
    requires
        lawful::<T, A>(),
        o.wf(),
        o.remote_object is Some,
        o.local_actions.len() == 0,
        crate::sync::action::patched_by(patch, o.local_object, uid) is Ok,
    ensures
        ({
            let a = o.makes(uid, commit_id, crate::sync::action::ActionKind::Patch(patch), id, dtime);
            let sent = as_pushed(o, a).signed();
            let seen = o.local_patched(a);
            &&& o.local_patch_error(a) is None
            &&& o.remote_patch_error(sent) is None
            &&& seen.remote_patch_error(sent) is None
            &&& o.remote_patched(sent, now).remote_object == Some(seen.local_object)
            &&& o.remote_patched(sent, now).local_object == seen.local_object
            &&& o.remote_patched(sent, now).local_actions.len() == 0
            &&& o.remote_patched(sent, now).remote_actions == o.remote_actions.push(sent)
            &&& seen.remote_patched(sent, then) == o.remote_patched(sent, now)
        }),
{
    let a = o.makes(uid, commit_id, crate::sync::action::ActionKind::Patch(patch), id, dtime);
    let sent = as_pushed(o, a).signed();
    let seen = o.local_patched(a);
    crate::sync::object::lemma_last_signature(o);
    as_pushed(o, a).lemma_signed_reads_back();
    let next = seen.local_object;
    assert(o.rest_after(sent) =~= Seq::<ActionView<T, A>>::empty());
    assert(seen.local_actions =~= seq![a]);
    assert(seen.rest_after(sent) =~= Seq::<ActionView<T, A>>::empty());
    assert(crate::sync::object::restamp(o.rest_after(sent), next, now) =~= Seq::<
        ActionView<T, A>,
    >::empty());
    assert(crate::sync::object::restamp(seen.rest_after(sent), next, then) =~= Seq::<
        ActionView<T, A>,
    >::empty());
}

/// The author's side of a patch: closing the commit with the patch action
/// that `patch` made against an object without local actions is not
/// refused; the object then holds the patch as its only local action, and
/// the commit that is pushed next carries the patch naming the last remote
/// action as its parent.
#[verifier::rlimit(60)]
pub proof fn lemma_patched_is_pushed<T: ObjectExt, A: ActionExt<ObjectType = T>>(
    author: RepoState<Vec<Storage<T, A>>>,
    ka: int,
    session: SessionState,
    o: ObjectState<T, A>,
    patch: A,
    id: u128,
    dtime: Timestamp,
    now: Timestamp,
)
    requires
        lawful::<T, A>(),
        author.wf(),
        holds_object(author, ka, o),
        author.log.local.len() == 0,
        o.remote_object is Some,
        o.local_actions.len() == 0,
        crate::sync::action::patched_by(patch, o.local_object, session.uid) is Ok,
        session.commit.remote_signature is None,
        session.commit.actions.len() == 0,
    ensures
        ({
            let a = o.makes(
                session.uid,
                session.commit.id,
                crate::sync::action::ActionKind::Patch(patch),
                id,
                dtime,
            );
            let c = session.with_action(a.envelope()).commit;
            let after = author.closed(c, now);
            &&& author.close_error(c, now) is None
            &&& after.wf()
            &&& !after.context_open
            &&& holds_object(after, ka, o.local_patched(a))
            &&& after.log.remote == author.log.remote
            &&& after.log.local.len() == 1
            &&& after.log.local.first().id == c.id
            &&& carries(after.push_candidate(), as_pushed(o, a))
            &&& after.push_candidate().id == c.id
            &&& after.push_candidate().ancestor_id == next_ancestor(author.log.remote)
        }),
{
    let st = author.storages[ka];
    let a = o.makes(
        session.uid,
        session.commit.id,
        crate::sync::action::ActionKind::Patch(patch),
        id,
        dtime,
    );
    let e = a.envelope();
    let c = session.with_action(e).commit;
    assert(c.actions =~= seq![e]);
    assert(st.wf());
    crate::sync::object::lemma_made_patch_is_accepted(
        o,
        session.uid,
        session.commit.id,
        patch,
        id,
        dtime,
    );
    assert(st.action_error(a) is None);
    crate::sync::repo::lemma_own_action_closes(author, ka, session, a, now);
    let after = author.closed(c, now);
    let st1 = after.storages[ka];
    assert(st1 == st.with_action(a, now));
    lemma_member_after_patch(st, a, now);
    lemma_found(st.members, o.id);
    assert(o.wf());
    lemma_local_patched_wf(o, a);
    crate::sync::store::lemma_update_wf(st, find(st.members, o.id), o.local_patched(a));
    lemma_storages_update(author.storages, ka, st1);
    assert(after.storages =~= author.storages.update(ka, st1));
    assert(c.is_local_commit()) by {
        assert forall|i: int| 0 <= i < c.actions.len() implies (
        #[trigger] c.actions[i]).remote_signature is None by {}
    }
    lemma_local_appended_wf(author.log, c);
    let entry = after.log.local.first();
    assert(entry == author.log.local_entry(c));
    assert(entry.actions =~= seq![e]);
    assert(o.local_patched(a).local_actions =~= seq![a]);
    lemma_rebased_head(after.storages, ka, a);
    assert(after.push_candidate().actions =~= seq![as_pushed(o, a).envelope()]);
}

/// An action object that stands first in the local chain of its object is
/// pushed as the chain holds it, naming the last remote action as its
/// parent.
pub proof fn lemma_rebased_head<T: ObjectExt, A: ActionExt<ObjectType = T>>(
    storages: Seq<StorageState<T, A>>,
    k: int,
    a: ActionView<T, A>,
)
    requires
        storages_wf(storages),
        0 <= k < storages.len(),
        a.storage_id == storages[k].id,
        storages[k].has(a.object_id),
        storages[k].member(a.object_id).local_actions.len() > 0,
        storages[k].member(a.object_id).local_actions[0] == a,
    ensures
        crate::sync::hooks::rebased_action(storages, a.envelope()) == as_pushed(
            storages[k].member(a.object_id),
            a,
        ).envelope(),
{
    let e = a.envelope();
    assert forall|j: int| 0 <= j < k implies (#[trigger] storages[j]).id != e.storage_id by {
        assert(storages[j].id != storages[k].id);
    }
    lemma_holder(storages, e.storage_id, k);
    lemma_place(storages[k].member(a.object_id).local_actions, a.id, 0);
}

/// A replica takes a signed patch for an object that it holds and whose
/// remote chain the patch goes on from: the handing round of the one action
/// object is not refused, and the object is then the object with the patch
/// on its remote side.
pub proof fn lemma_signed_patch_arrives<T: ObjectExt, A: ActionExt<ObjectType = T>>(
    repo: RepoState<Vec<Storage<T, A>>>,
    k: int,
    o: ObjectState<T, A>,
    sent: ActionView<T, A>,
    now: Timestamp,
)
    requires
        lawful::<T, A>(),
        repo.wf(),
        holds_object(repo, k, o),
        sent.storage_id == o.storage_id,
        sent.object_id == o.id,
        sent.action is Patch,
        sent.remote_signature is Some,
        o.remote_patch_error(sent) is None,
    ensures
        applied::<Vec<Storage<T, A>>>(repo.storages, seq![sent.envelope()], now) is Ok,
        applied::<Vec<Storage<T, A>>>(repo.storages, seq![sent.envelope()], now)->Ok_0[k].member(
            o.id,
        ) == o.remote_patched(sent, now),
{
    assert(repo.storages[k].action_error(sent) is None);
    lemma_single_action_applies(repo.storages, k, sent, now);
    lemma_member_after_patch(repo.storages[k], sent, now);
}

/// What an author saw after closing a commit that patches an object is what
/// a client holds after the commit was pushed and pulled. The author, the
/// server and a client hold the same object without local actions. The
/// author closes a commit with the patch action that `patch` made, pushes
/// it, and takes in the server's answer; the server merges it; the client
/// pulls it. Then nothing was refused, and all three hold the same object:
/// its remote object is the latest version that the author saw after
/// closing, its remote chain is the old one and the signed patch, and
/// nothing local is left.
pub proof fn lemma_pushed_patch_is_handed_over<T: ObjectExt, A: ActionExt<ObjectType = T>>(
    author: RepoState<Vec<Storage<T, A>>>,
    ka: int,
    server: RepoState<Vec<Storage<T, A>>>,
    ks: int,
    client: RepoState<Vec<Storage<T, A>>>,
    kc: int,
    session: SessionState,
    o: ObjectState<T, A>,
    patch: A,
    id: u128,
    dtime: Timestamp,
    closed_at: Timestamp,
    merged_at: Timestamp,
    pulled_at: Timestamp,
    acknowledged_at: Timestamp,
)
    requires
        lawful::<T, A>(),
        in_step(author, ka, server, ks, client, kc),
        holds_object(author, ka, o),
        holds_object(server, ks, o),
        holds_object(client, kc, o),
        o.remote_object is Some,
        o.local_actions.len() == 0,
        crate::sync::action::patched_by(patch, o.local_object, session.uid) is Ok,
        session.commit.remote_signature is None,
        session.commit.actions.len() == 0,
    ensures
        ({
            let a = o.makes(
                session.uid,
                session.commit.id,
                crate::sync::action::ActionKind::Patch(patch),
                id,
                dtime,
            );
            let sent = as_pushed(o, a).signed();
            let c = session.with_action(a.envelope()).commit;
            let after_close = author.closed(c, closed_at);
            let seen = after_close.storages[ka].member(o.id);
            let pushed = after_close.push_candidate();
            let signed = signed_commit(pushed);
            let at_server = server.merged(pushed, merged_at);
            let at_client = client.pulled(signed, pulled_at);
            let at_author = after_close.acknowledged(signed, acknowledged_at);
            &&& author.close_error(c, closed_at) is None
            &&& seen == o.local_patched(a)
            &&& server.merge_error(pushed, merged_at) is None
            &&& client.pull_error(signed, pulled_at) is None
            &&& after_close.acknowledge_error(signed, acknowledged_at) is None
            &&& at_client.storages[kc].member(o.id).remote_object == Some(seen.local_object)
            &&& at_client.storages[kc].member(o.id).local_object == seen.local_object
            &&& at_client.storages[kc].member(o.id).remote_actions == o.remote_actions.push(sent)
            &&& at_client.storages[kc].member(o.id).local_actions.len() == 0
            &&& at_server.storages[ks].member(o.id) == at_client.storages[kc].member(o.id)
            &&& at_author.storages[ka].member(o.id) == at_client.storages[kc].member(o.id)
            &&& at_author.log.local.len() == 0
            &&& at_author.log.remote == at_server.log.remote
            &&& at_client.log.remote == at_server.log.remote
        }),
{
    let a = o.makes(
        session.uid,
        session.commit.id,
        crate::sync::action::ActionKind::Patch(patch),
        id,
        dtime,
    );
    let sent = as_pushed(o, a).signed();
    let c = session.with_action(a.envelope()).commit;
    lemma_patched_is_pushed(author, ka, session, o, patch, id, dtime, closed_at);
    let after_close = author.closed(c, closed_at);
    let pushed = after_close.push_candidate();
    lemma_signed_carries(pushed, as_pushed(o, a));
    assert(author.storages[ka].wf());
    lemma_found(author.storages[ka].members, o.id);
    assert(o.wf());
    lemma_signed_patch_is_accepted(
        o,
        session.uid,
        session.commit.id,
        patch,
        id,
        dtime,
        merged_at,
        acknowledged_at,
    );
    lemma_signed_patch_is_accepted(
        o,
        session.uid,
        session.commit.id,
        patch,
        id,
        dtime,
        pulled_at,
        acknowledged_at,
    );
    lemma_signed_patch_arrives(server, ks, o, sent, merged_at);
    lemma_signed_patch_arrives(client, kc, o, sent, pulled_at);
    lemma_signed_patch_arrives(after_close, ka, o.local_patched(a), sent, acknowledged_at);
    assert(after_close.log.local.drop_first() =~= Seq::<CommitView>::empty());
}

} // verus!
