use crate::sync::action::{ActionExt, ActionView, Envelope, ObjectExt};
use crate::sync::commit::CommitView;
use crate::sync::error::SyncError;
use crate::sync::object::{lemma_refold_same, refold, restamp, ObjectState};
use crate::sync::hooks::{answering, applied, dispatch_error, dispatched};
use crate::sync::repo::RepoState;
use crate::sync::store::Storage;
use crate::sync::stamp::Timestamp;
use crate::sync::store::{find, StorageState};
use vstd::prelude::*;

verus! {

/// Whether two action objects differ at most in their time stamp.
pub open spec fn action_alike<T, A>(a: ActionView<T, A>, b: ActionView<T, A>) -> bool {
    b == (ActionView { dtime: b.dtime, ..a })
}

/// Whether two objects hold the same remote side and the same latest
/// version, and local chains that differ at most in their time stamps.
pub open spec fn object_alike<T, A>(a: ObjectState<T, A>, b: ObjectState<T, A>) -> bool {
    &&& a.id == b.id
    &&& a.storage_id == b.storage_id
    &&& a.remote_actions == b.remote_actions
    &&& a.remote_object == b.remote_object
    &&& a.local_object == b.local_object
    &&& a.local_actions.len() == b.local_actions.len()
    &&& forall|i: int|
        0 <= i < a.local_actions.len() ==> action_alike(
            a.local_actions[i],
            #[trigger] b.local_actions[i],
        )
}

/// Whether two storages hold alike objects in the same order.
pub open spec fn storage_alike<T, A>(a: StorageState<T, A>, b: StorageState<T, A>) -> bool {
    &&& a.id == b.id
    &&& a.members.len() == b.members.len()
    &&& forall|i: int|
        0 <= i < a.members.len() ==> object_alike(a.members[i], #[trigger] b.members[i])
}

/// Whether two sequences of storages hold alike storages in the same order.
pub open spec fn storages_alike<T, A>(
    a: Seq<StorageState<T, A>>,
    b: Seq<StorageState<T, A>>,
) -> bool {
    &&& a.len() == b.len()
    &&& forall|i: int| 0 <= i < a.len() ==> storage_alike(a[i], #[trigger] b[i])
}

/// Replaying alike chains over the same object at different times gives
/// alike chains.
pub proof fn lemma_restamp_alike<T: ObjectExt, A: ActionExt<ObjectType = T>>(
    a: Seq<ActionView<T, A>>,
    b: Seq<ActionView<T, A>>,
    start: T,
    a_at: Timestamp,
    b_at: Timestamp,
)
    requires
        a.len() == b.len(),
        forall|i: int| 0 <= i < a.len() ==> action_alike(a[i], #[trigger] b[i]),
    ensures
        refold(start, a) == refold(start, b),
        restamp(a, start, a_at).len() == restamp(b, start, b_at).len(),
        forall|i: int|
            0 <= i < a.len() ==> action_alike(
                restamp(a, start, a_at)[i],
                #[trigger] restamp(b, start, b_at)[i],
            ),
{
    lemma_refold_same(start, a, b);
    assert forall|i: int| 0 <= i < a.len() implies action_alike(
        restamp(a, start, a_at)[i],
        #[trigger] restamp(b, start, b_at)[i],
    ) by {
        assert(action_alike(a[i], b[i]));
        assert forall|k: int| 0 <= k < a.take(i + 1).len() implies (#[trigger] b.take(
            i + 1,
        )[k]).action == a.take(i + 1)[k].action && b.take(i + 1)[k].uid == a.take(i + 1)[k].uid by {
            assert(action_alike(a[k], b[k]));
        }
        lemma_refold_same(start, a.take(i + 1), b.take(i + 1));
    }
}

/// What is left of alike chains without their first actions is alike.
pub proof fn lemma_skip_alike<T, A>(a: Seq<ActionView<T, A>>, b: Seq<ActionView<T, A>>, k: int)
    requires
        a.len() == b.len(),
        0 <= k <= a.len(),
        forall|i: int| 0 <= i < a.len() ==> action_alike(a[i], #[trigger] b[i]),
    ensures
        a.skip(k).len() == b.skip(k).len(),
        forall|i: int| 0 <= i < a.skip(k).len() ==> action_alike(a.skip(k)[i], #[trigger] b.skip(k)[i]),
{
    assert forall|i: int| 0 <= i < a.skip(k).len() implies action_alike(
        a.skip(k)[i],
        #[trigger] b.skip(k)[i],
    ) by {
        assert(action_alike(a[i + k], b[i + k]));
    }
}

/// Alike objects refuse the same patches, and are alike again after a patch
/// that they accept, whenever each of them accepts it.
pub proof fn lemma_patched_alike<T: ObjectExt, A: ActionExt<ObjectType = T>>(
    a: ObjectState<T, A>,
    b: ObjectState<T, A>,
    x: ActionView<T, A>,
    a_at: Timestamp,
    b_at: Timestamp,
)
    requires
        object_alike(a, b),
    ensures
        a.patch_error(x) == b.patch_error(x),
        a.patch_error(x) is None ==> object_alike(a.patched(x, a_at), b.patched(x, b_at)),
{
    if a.local_actions.len() > 0 {
        assert(action_alike(a.local_actions.last(), b.local_actions.last()));
        assert(action_alike(a.local_actions[0], b.local_actions[0]));
    }
    if x.remote_signature is None {
        if a.patch_error(x) is None {
            let pa = a.patched(x, a_at);
            let pb = b.patched(x, b_at);
            assert forall|i: int| 0 <= i < pa.local_actions.len() implies action_alike(
                pa.local_actions[i],
                #[trigger] pb.local_actions[i],
            ) by {
                if i < a.local_actions.len() {
                    assert(action_alike(a.local_actions[i], b.local_actions[i]));
                }
            }
        }
    } else {
        if x.action is Patch && a.remote_object is Some {
            let next = a.remote_patched(x, a_at).remote_object->0;
            assert(a.acknowledged(x) == b.acknowledged(x));
            lemma_skip_alike(a.local_actions, b.local_actions, a.acknowledged(x));
            lemma_restamp_alike(a.rest_after(x), b.rest_after(x), next, a_at, b_at);
        }
    }
}

/// Alike objects refuse the same signed creates, and are alike again after
/// one that they accept, whenever each of them accepts it.
pub proof fn lemma_promoted_alike<T: ObjectExt, A: ActionExt<ObjectType = T>>(
    a: ObjectState<T, A>,
    b: ObjectState<T, A>,
    x: ActionView<T, A>,
    a_at: Timestamp,
    b_at: Timestamp,
)
    requires
        object_alike(a, b),
    ensures
        a.promote_error(x) == b.promote_error(x),
        a.promote_error(x) is None ==> object_alike(a.promoted(x, a_at), b.promoted(x, b_at)),
{
    if a.local_actions.len() > 0 {
        assert(action_alike(a.local_actions[0], b.local_actions[0]));
        lemma_skip_alike(a.local_actions, b.local_actions, 1);
        if x.action is Create {
            lemma_restamp_alike(
                a.local_actions.skip(1),
                b.local_actions.skip(1),
                x.action->Create_0,
                a_at,
                b_at,
            );
        }
    }
}

/// In sequences of objects with the same identifiers, an identifier is
/// found at the same place.
pub proof fn lemma_find_alike<T, A>(
    a: Seq<ObjectState<T, A>>,
    b: Seq<ObjectState<T, A>>,
    id: u128,
)
    requires
        a.len() == b.len(),
        forall|i: int| 0 <= i < a.len() ==> a[i].id == (#[trigger] b[i]).id,
    ensures
        find(a, id) == find(b, id),
    decreases a.len(),
{
    if a.len() > 0 {
        assert(a[0].id == b[0].id);
        if a.first().id != id {
            assert forall|i: int| 0 <= i < a.drop_first().len() implies a.drop_first()[i].id == (
            #[trigger] b.drop_first()[i]).id by {
                assert(a[i + 1].id == b[i + 1].id);
            }
            lemma_find_alike(a.drop_first(), b.drop_first(), id);
        }
    }
}

/// Alike storages give the same answer to an action object, and are alike
/// again after one that they accept.
pub proof fn lemma_accepted_alike<T: ObjectExt, A: ActionExt<ObjectType = T>>(
    a: StorageState<T, A>,
    b: StorageState<T, A>,
    e: Envelope,
    a_at: Timestamp,
    b_at: Timestamp,
)
    requires
        storage_alike(a, b),
    ensures
        a.answer(e) == b.answer(e),
        a.answer(e) == Some(None::<SyncError>) ==> storage_alike(
            a.accepted(e, a_at),
            b.accepted(e, b_at),
        ),
{
    if e.storage_id == a.id && ActionView::<T, A>::typed(e) is Some {
        let x = ActionView::<T, A>::typed(e)->0;
        assert forall|i: int| 0 <= i < a.members.len() implies a.members[i].id == (
        #[trigger] b.members[i]).id by {
            assert(object_alike(a.members[i], b.members[i]));
        }
        lemma_find_alike(a.members, b.members, x.object_id);
        crate::sync::store::lemma_found(a.members, x.object_id);
        let k = find(a.members, x.object_id);
        if k < a.members.len() {
            assert(object_alike(a.members[k], b.members[k]));
            lemma_patched_alike(a.members[k], b.members[k], x, a_at, b_at);
            lemma_promoted_alike(a.members[k], b.members[k], x, a_at, b_at);
        }
        if a.answer(e) == Some(None::<SyncError>) {
            let pa = a.accepted(e, a_at);
            let pb = b.accepted(e, b_at);
            assert(pa.members.len() == pb.members.len());
            assert forall|i: int| 0 <= i < pa.members.len() implies object_alike(
                pa.members[i],
                #[trigger] pb.members[i],
            ) by {
                if i < a.members.len() && i != k {
                    assert(object_alike(a.members[i], b.members[i]));
                }
            }
        }
    }
}

/// In alike sequences of storages, the same storage answers first.
pub proof fn lemma_answering_alike<T: ObjectExt, A: ActionExt<ObjectType = T>>(
    a: Seq<StorageState<T, A>>,
    b: Seq<StorageState<T, A>>,
    e: Envelope,
)
    requires
        storages_alike(a, b),
    ensures
        answering(a, e) == answering(b, e),
        0 <= answering(a, e) <= a.len(),
        answering(a, e) < a.len() ==> a[answering(a, e)].answer(e) is Some,
    decreases a.len(),
{
    if a.len() > 0 {
        assert(storage_alike(a[0], b[0]));
        lemma_accepted_alike(a[0], b[0], e, arbitrary(), arbitrary());
        if !(a.first().answer(e) is Some) {
            assert forall|i: int| 0 <= i < a.drop_first().len() implies storage_alike(
                a.drop_first()[i],
                #[trigger] b.drop_first()[i],
            ) by {
                assert(storage_alike(a[i + 1], b[i + 1]));
            }
            lemma_answering_alike(a.drop_first(), b.drop_first(), e);
        }
    }
}

/// Alike sequences of storages refuse the same action objects, and are
/// alike again after one that was handed round.
pub proof fn lemma_dispatched_alike<T: ObjectExt, A: ActionExt<ObjectType = T>>(
    a: Seq<StorageState<T, A>>,
    b: Seq<StorageState<T, A>>,
    e: Envelope,
    a_at: Timestamp,
    b_at: Timestamp,
)
    requires
        storages_alike(a, b),
    ensures
        dispatch_error(a, e) == dispatch_error(b, e),
        dispatch_error(a, e) is None ==> storages_alike(
            dispatched(a, e, a_at),
            dispatched(b, e, b_at),
        ),
{
    lemma_answering_alike(a, b, e);
    let k = answering(a, e);
    if k < a.len() {
        assert(storage_alike(a[k], b[k]));
        lemma_accepted_alike(a[k], b[k], e, a_at, b_at);
        if dispatch_error(a, e) is None {
            let da = dispatched(a, e, a_at);
            let db = dispatched(b, e, b_at);
            assert forall|i: int| 0 <= i < da.len() implies storage_alike(
                da[i],
                #[trigger] db[i],
            ) by {
                if i != k {
                    assert(storage_alike(a[i], b[i]));
                }
            }
        }
    }
}

/// Alike sequences of storages refuse the same commits, and are alike again
/// after a commit that they accept, whenever each of them takes it in.
pub proof fn lemma_applied_alike<T: ObjectExt, A: ActionExt<ObjectType = T>>(
    a: Seq<StorageState<T, A>>,
    b: Seq<StorageState<T, A>>,
    actions: Seq<Envelope>,
    a_at: Timestamp,
    b_at: Timestamp,
)
    requires
        storages_alike(a, b),
    ensures
        applied::<Vec<Storage<T, A>>>(a, actions, a_at) is Err ==> applied::<Vec<Storage<T, A>>>(b, actions, b_at) is Err && applied::<Vec<Storage<T, A>>>(
            a,
            actions,
            a_at,
        )->Err_0 == applied::<Vec<Storage<T, A>>>(b, actions, b_at)->Err_0,
        applied::<Vec<Storage<T, A>>>(a, actions, a_at) is Ok ==> applied::<Vec<Storage<T, A>>>(b, actions, b_at) is Ok && storages_alike(
            applied::<Vec<Storage<T, A>>>(a, actions, a_at)->Ok_0,
            applied::<Vec<Storage<T, A>>>(b, actions, b_at)->Ok_0,
        ),
    decreases actions.len(),
{
    if actions.len() > 0 {
        lemma_applied_alike(a, b, actions.drop_last(), a_at, b_at);
        if applied::<Vec<Storage<T, A>>>(a, actions.drop_last(), a_at) is Ok {
            lemma_dispatched_alike(
                applied::<Vec<Storage<T, A>>>(a, actions.drop_last(), a_at)->Ok_0,
                applied::<Vec<Storage<T, A>>>(b, actions.drop_last(), b_at)->Ok_0,
                actions.last(),
                a_at,
                b_at,
            );
        }
    }
}

/// Two replicas that hold the same remote log and alike storages refuse the
/// same pulled commits; after a commit that they take in, whenever each of
/// them does, they hold the same remote log and alike storages again: the
/// same remote actions and remote objects, and the same latest versions.
pub proof fn lemma_pulled_alike<T: ObjectExt, A: ActionExt<ObjectType = T>>(
    a: RepoState<Vec<Storage<T, A>>>,
    b: RepoState<Vec<Storage<T, A>>>,
    c: CommitView,
    a_at: Timestamp,
    b_at: Timestamp,
)
    requires
        a.log.remote == b.log.remote,
        a.context_open == b.context_open,
        storages_alike(a.storages, b.storages),
    ensures
        a.pull_error(c, a_at) == b.pull_error(c, b_at),
        a.pull_error(c, a_at) is None ==> a.pulled(c, a_at).log.remote == b.pulled(
            c,
            b_at,
        ).log.remote && storages_alike(a.pulled(c, a_at).storages, b.pulled(c, b_at).storages),
{
    lemma_applied_alike(a.storages, b.storages, c.actions, a_at, b_at);
}

} // verus!
