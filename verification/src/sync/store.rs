use crate::prelude::signature_of;
use crate::sync::action::{
    canonical_of, duplicate, lawful, patched_by, ActionExt, ActionKind, ActionObject, ActionView,
    Envelope, ObjectExt, UniversalActionObject,
};
use crate::sync::error::SyncError;
use crate::sync::object::{object_view, ObjectState, StorageObject};
use crate::sync::repo::{RepoState, Repository};
use crate::sync::commit::CommitView;
use crate::sync::session::{CommitContextGuard, SessionState};
use crate::sync::stamp::{fresh_id, now, Timestamp};
use vstd::prelude::*;

verus! {

/// What a storage does with an action object that it is handed: only check
/// that it would be accepted, or accept it.
#[derive(Clone, Copy, Debug, PartialEq, Eq, Structural)]
pub enum CallbackMode {
    Check,
    Apply,
}

/// A named collection of the objects of one type.
pub struct Storage<T, A> {
    id: String,
    members: Vec<StorageObject<T, A>>,
}

/// The mathematical content of a storage.
pub struct StorageState<T, A> {
    pub id: Seq<char>,
    pub members: Seq<ObjectState<T, A>>,
}

/// The contents of a sequence of storage objects.
pub open spec fn object_views<T, A>(members: Seq<StorageObject<T, A>>) -> Seq<ObjectState<T, A>> {
    members.map_values(|m: StorageObject<T, A>| m@)
}

/// The contents of a sequence of borrowed storage objects.
pub open spec fn borrowed_views<T, A>(members: Seq<&StorageObject<T, A>>) -> Seq<
    ObjectState<T, A>,
> {
    members.map_values(|m: &StorageObject<T, A>| m@)
}

/// The position of the first object with an identifier, or the number of
/// objects where none has it.
pub open spec fn find<T, A>(members: Seq<ObjectState<T, A>>, id: u128) -> int
    decreases members.len(),
{
    if members.len() == 0 {
        0
    } else if members.first().id == id {
        0
    } else {
        1 + find(members.drop_first(), id)
    }
}

/// Where the first object with an identifier stands.
pub proof fn lemma_find<T, A>(members: Seq<ObjectState<T, A>>, id: u128, i: int)
    requires
        0 <= i <= members.len(),
        forall|k: int| 0 <= k < i ==> (#[trigger] members[k]).id != id,
        i < members.len() ==> members[i].id == id,
    ensures
        find(members, id) == i,
    decreases members.len(),
{
    if members.len() > 0 && i > 0 {
        let rest = members.drop_first();
        assert(members[0].id != id);
        assert forall|k: int| 0 <= k < i - 1 implies (#[trigger] rest[k]).id != id by {
            assert(rest[k] == members[k + 1]);
        }
        if i < members.len() {
            assert(rest[i - 1] == members[i]);
        }
        lemma_find(rest, id, i - 1);
    }
}

/// What is found has the identifier, and nothing before it has.
pub proof fn lemma_found<T, A>(members: Seq<ObjectState<T, A>>, id: u128)
    ensures
        0 <= find(members, id) <= members.len(),
        find(members, id) < members.len() ==> members[find(members, id)].id == id,
        forall|k: int| 0 <= k < find(members, id) ==> (#[trigger] members[k]).id != id,
    decreases members.len(),
{
    if members.len() > 0 && members.first().id != id {
        let rest = members.drop_first();
        lemma_found(rest, id);
        assert forall|k: int| 0 <= k < find(members, id) implies (#[trigger] members[k]).id
            != id by {
            if k > 0 {
                assert(rest[k - 1] == members[k]);
            }
        }
        if find(members, id) < members.len() {
            assert(rest[find(rest, id)] == members[find(members, id)]);
        }
    }
}

/// The items that are kept, in order: those whose flag is set.
pub open spec fn kept<X>(items: Seq<X>, keep: Seq<bool>) -> Seq<X>
    decreases items.len(),
{
    if items.len() == 0 || keep.len() != items.len() {
        Seq::empty()
    } else if keep.last() {
        kept(items.drop_last(), keep.drop_last()).push(items.last())
    } else {
        kept(items.drop_last(), keep.drop_last())
    }
}

/// Whether `keep` holds, object by object, an answer of the filter to the
/// object's latest version.
pub open spec fn answers<T, A, F: Fn(&T) -> bool>(
    filter: F,
    members: Seq<ObjectState<T, A>>,
    keep: Seq<bool>,
) -> bool {
    &&& keep.len() == members.len()
    &&& forall|i: int|
        0 <= i < members.len() ==> call_ensures(
            filter,
            (&members[i].local_object,),
            #[trigger] keep[i],
        )
}

/// Whether an envelope is a patch action that was made against an object
/// for a commit, with some identifier and time stamp.
pub open spec fn is_patch_action<T: ObjectExt, A: ActionExt<ObjectType = T>>(
    o: ObjectState<T, A>,
    uid: Seq<char>,
    commit_id: u128,
    patch: A,
    e: Envelope,
) -> bool {
    patched_by(patch, o.local_object, uid) is Ok && exists|id: u128, dtime: Timestamp|
        e == #[trigger] o.makes(uid, commit_id, ActionKind::Patch(patch), id, dtime).envelope()
}

/// Whether the open commit `after` is `before` with one patch action more
/// for each of the first `n` objects, in order.
pub open spec fn deposited<T: ObjectExt, A: ActionExt<ObjectType = T>>(
    objects: Seq<ObjectState<T, A>>,
    patch: A,
    n: int,
    before: SessionState,
    after: SessionState,
) -> bool {
    &&& after.uid == before.uid
    &&& after.commit == (CommitView { actions: after.commit.actions, ..before.commit })
    &&& after.commit.actions.len() == before.commit.actions.len() + n
    &&& forall|i: int|
        0 <= i < before.commit.actions.len() ==> (#[trigger] after.commit.actions[i])
            == before.commit.actions[i]
    &&& forall|i: int|
        before.commit.actions.len() <= i < before.commit.actions.len() + n ==> is_patch_action(
            objects[i - before.commit.actions.len()],
            before.uid,
            before.commit.id,
            patch,
            #[trigger] after.commit.actions[i],
        )
}

impl<T: ObjectExt, A: ActionExt<ObjectType = T>> StorageState<T, A> {
    /// The invariant of a storage: every object is well formed and belongs
    /// to the storage, and no two objects share an identifier.
    pub open spec fn wf(self) -> bool {
        &&& forall|i: int|
            0 <= i < self.members.len() ==> (#[trigger] self.members[i]).wf()
                && self.members[i].storage_id
                == self.id
        &&& forall|i: int, j: int|
            0 <= i < self.members.len() && 0 <= j < self.members.len() && i != j ==> (
            #[trigger] self.members[i]).id != (#[trigger] self.members[j]).id
    }

    /// Whether an object with the identifier is a member.
    pub open spec fn has(self, object_id: u128) -> bool {
        find(self.members, object_id) < self.members.len()
    }

    /// The member with the identifier.
    pub open spec fn member(self, object_id: u128) -> ObjectState<T, A> {
        self.members[find(self.members, object_id)]
    }

    /// The identifiers of the members, in order.
    pub open spec fn member_ids(self) -> Seq<u128> {
        self.members.map_values(|m: ObjectState<T, A>| m.id)
    }

    /// What an action object is refused with. One that is addressed to
    /// another storage finds no object here; a create must be well formed,
    /// and where its object is a member already, it must be the signed form
    /// of the create that opens that purely local member; a patch must find
    /// its object and be accepted by it.
    pub open spec fn action_error(self, a: ActionView<T, A>) -> Option<SyncError> {
        if a.storage_id != self.id {
            Some(SyncError::NotFound)
        } else if a.action is Create {
            if self.has(a.object_id) {
                self.member(a.object_id).promote_error(a)
            } else {
                ObjectState::create_error(a)
            }
        } else if !self.has(a.object_id) {
            Some(SyncError::NotFound)
        } else {
            self.member(a.object_id).patch_error(a)
        }
    }

    /// The storage after an action object: a create adds its object, or
    /// gives the purely local member that it is for its remote side; a patch
    /// changes the object it is for.
    pub open spec fn with_action(self, a: ActionView<T, A>, now: Timestamp) -> Self {
        let k = find(self.members, a.object_id);
        if a.action is Create {
            if self.has(a.object_id) {
                StorageState {
                    members: self.members.update(k, self.members[k].promoted(a, now)),
                    ..self
                }
            } else {
                StorageState { members: self.members.push(ObjectState::created(a)), ..self }
            }
        } else {
            StorageState {
                members: self.members.update(k, self.members[k].patched(a, now)),
                ..self
            }
        }
    }

    /// Whether checking or accepting an action object at time `now` ends
    /// with `r` and leaves `after`. A refusal and a check leave the storage
    /// as it is. The object handed back is the object that the action
    /// object is for, as it is after it.
    pub open spec fn action_outcome(
        self,
        a: ActionView<T, A>,
        mode: CallbackMode,
        now: Timestamp,
        r: Result<ObjectState<T, A>, SyncError>,
        after: Self,
    ) -> bool {
        match r {
            Ok(object) => self.action_error(a) is None && object == self.with_action(
                a,
                now,
            ).member(a.object_id) && after == (if mode == CallbackMode::Apply {
                self.with_action(a, now)
            } else {
                self
            }),
            Err(e) => self.action_error(a) == Some(e) && after == self,
        }
    }

    /// An action object of a local commit as it is pushed: as the object
    /// that it is for holds it now, or as it is where no member is that
    /// object.
    pub open spec fn rebased(self, e: Envelope) -> Envelope {
        if self.has(e.object_id) {
            self.member(e.object_id).rebased(e)
        } else {
            e
        }
    }

    /// The unsigned create action that `create_object` makes for an object.
    pub open spec fn creates(
        self,
        uid: Seq<char>,
        commit_id: u128,
        data: T,
        action_id: u128,
        object_id: u128,
        dtime: Timestamp,
    ) -> ActionView<T, A> {
        ActionView {
            id: action_id,
            storage_id: self.id,
            object_id,
            uid,
            dtime,
            commit_id: Some(commit_id),
            parent_action_id: None,
            action: ActionKind::Create(data),
            object_signature: signature_of(canonical_of(data)),
            remote_signature: None,
        }
    }

    /// What the storage answers to a universal action object: nothing where
    /// it is addressed to another storage or cannot be read with this
    /// storage's types; else whether it is accepted, and if not, why.
    pub open spec fn answer(self, e: Envelope) -> Option<Option<SyncError>> {
        if e.storage_id != self.id {
            None
        } else {
            match ActionView::<T, A>::typed(e) {
                None => None,
                Some(a) => Some(self.action_error(a)),
            }
        }
    }

    /// The storage after a universal action object that it accepts.
    pub open spec fn accepted(self, e: Envelope, now: Timestamp) -> Self {
        self.with_action(ActionView::<T, A>::typed(e)->0, now)
    }
}

/// A storage stays well formed when one member makes way for a well-formed
/// object with the same identifier.
pub proof fn lemma_update_wf<T: ObjectExt, A: ActionExt<ObjectType = T>>(
    s: StorageState<T, A>,
    k: int,
    o: ObjectState<T, A>,
)
    requires
        s.wf(),
        0 <= k < s.members.len(),
        o.wf(),
        o.id == s.members[k].id,
        o.storage_id == s.id,
    ensures
        (StorageState { members: s.members.update(k, o), ..s }).wf(),
{
    let t = StorageState { members: s.members.update(k, o), ..s };
    assert forall|i: int| 0 <= i < t.members.len() implies (#[trigger] t.members[i]).wf()
        && t.members[i].storage_id == t.id by {
        if i != k {
            assert(t.members[i] == s.members[i]);
        }
    }
    assert forall|i: int, j: int|
        0 <= i < t.members.len() && 0 <= j < t.members.len() && i != j implies (
    #[trigger] t.members[i]).id != (#[trigger] t.members[j]).id by {
        assert(t.members[i].id == s.members[i].id);
        assert(t.members[j].id == s.members[j].id);
    }
}

/// A storage stays well formed when a well-formed object with a new
/// identifier joins it.
pub proof fn lemma_push_wf<T: ObjectExt, A: ActionExt<ObjectType = T>>(
    s: StorageState<T, A>,
    o: ObjectState<T, A>,
)
    requires
        s.wf(),
        o.wf(),
        !s.has(o.id),
        o.storage_id == s.id,
    ensures
        (StorageState { members: s.members.push(o), ..s }).wf(),
{
    let t = StorageState { members: s.members.push(o), ..s };
    lemma_found(s.members, o.id);
    assert forall|i: int| 0 <= i < t.members.len() implies (#[trigger] t.members[i]).wf()
        && t.members[i].storage_id == t.id by {
        if i < s.members.len() {
            assert(t.members[i] == s.members[i]);
        }
    }
    assert forall|i: int, j: int|
        0 <= i < t.members.len() && 0 <= j < t.members.len() && i != j implies (
    #[trigger] t.members[i]).id != (#[trigger] t.members[j]).id by {
        if i < s.members.len() {
            assert(t.members[i] == s.members[i]);
        }
        if j < s.members.len() {
            assert(t.members[j] == s.members[j]);
        }
    }
}

impl<T, A> View for Storage<T, A> {
    type V = StorageState<T, A>;

    closed spec fn view(&self) -> StorageState<T, A> {
        StorageState { id: self.id@, members: object_views(self.members@) }
    }
}

impl<T: ObjectExt, A: ActionExt<ObjectType = T>> Storage<T, A> {
    /// A storage without objects.
    pub fn init(storage_id: String) -> (storage: Self)
        ensures
            storage@.id == storage_id@,
            storage@.members.len() == 0,
            storage@.wf(),
    {
        Storage { id: storage_id, members: Vec::new() }
    }

    /// The storage of a name as a repository holds it, or a storage without
    /// objects where the repository holds none of that name.
    pub fn load_or_init(repo: &Repository<Vec<Storage<T, A>>>, storage_id: String) -> (storage: Self)
        requires
            lawful::<T, A>(),
            repo@.wf(),
        ensures
            storage@.id == storage_id@,
            storage@.wf(),
            repo@.has_storage(storage_id@) ==> exists|k: int|
                0 <= k < repo@.storages.len() && #[trigger] repo@.storages[k] == storage@,
            !repo@.has_storage(storage_id@) ==> storage@.members.len() == 0,
    {
        match repo.storage(storage_id.as_str()) {
            Some(held) => held.copy(),
            None => Self::init(storage_id),
        }
    }

    /// The name of the storage.
    pub fn storage_id(&self) -> (id: String)
        ensures
            id@ == self@.id,
    {
        self.id.clone()
    }

    /// The identifiers of the objects, in order.
    pub fn member_ids(&self) -> (ids: Vec<u128>)
        ensures
            ids@ == self@.member_ids(),
    {
        let mut ids: Vec<u128> = Vec::new();
        let mut i: usize = 0;
        while i < self.members.len()
            invariant
                i <= self.members.len(),
                ids@.len() == i,
                forall|k: int| 0 <= k < i ==> ids@[k] == (#[trigger] self@.members[k]).id,
            decreases self.members.len() - i,
        {
            ids.push(self.members[i].id());
            i += 1;
        }
        assert(ids@ =~= self@.member_ids());
        ids
    }

    /// The position of the object with an identifier.
    fn find_member(&self, object_id: u128) -> (at: Option<usize>)
        ensures
            match at {
                Some(k) => self@.has(object_id) && k == find(self@.members, object_id),
                None => !self@.has(object_id),
            },
    {
        let mut i: usize = 0;
        while i < self.members.len()
            invariant
                i <= self.members.len(),
                forall|k: int| 0 <= k < i ==> (#[trigger] self@.members[k]).id != object_id,
            decreases self.members.len() - i,
        {
            if self.members[i].id() == object_id {
                proof {
                    lemma_find(self@.members, object_id, i as int);
                }
                return Some(i);
            }
            i += 1;
        }
        proof {
            lemma_find(self@.members, object_id, i as int);
        }
        None
    }

    /// The object with an identifier.
    pub fn get_object_by_id(&self, object_id: u128) -> (r: Result<&StorageObject<T, A>, SyncError>)
        ensures
            match r {
                Ok(object) => self@.has(object_id) && object@ == self@.member(object_id),
                Err(e) => !self@.has(object_id) && e == SyncError::NotFound,
            },
    {
        match self.find_member(object_id) {
            Some(k) => Ok(&self.members[k]),
            None => Err(SyncError::NotFound),
        }
    }

    /// Every object, in order.
    pub fn get_all(&self) -> (all: &Vec<StorageObject<T, A>>)
        ensures
            object_views(all@) == self@.members,
    {
        &self.members
    }

    /// The objects whose latest version the filter answers with `true`, in
    /// order. The filter is asked once for each object.
    pub fn get_by_filter<F: Fn(&T) -> bool>(&self, filter: F) -> (found: Vec<&StorageObject<T, A>>)
        requires
            forall|t: &T| call_requires(filter, (t,)),
        ensures
            exists|keep: Seq<bool>|
                answers(filter, self@.members, keep) && borrowed_views(found@) == kept(
                    self@.members,
                    keep,
                ),
    {
        let mut found: Vec<&StorageObject<T, A>> = Vec::new();
        let ghost mut keep: Seq<bool> = Seq::empty();
        let ghost all = self@.members;
        let mut i: usize = 0;
        assert(all.take(0) =~= Seq::<ObjectState<T, A>>::empty());
        assert(borrowed_views(found@) =~= Seq::<ObjectState<T, A>>::empty());
        while i < self.members.len()
            invariant
                i <= self.members.len(),
                all == self@.members,
                forall|t: &T| call_requires(filter, (t,)),
                answers(filter, all.take(i as int), keep),
                borrowed_views(found@) == kept(all.take(i as int), keep),
            decreases self.members.len() - i,
        {
            let member = &self.members[i];
            let hit = filter(member.local_object());
            let ghost before = keep;
            proof {
                keep = keep.push(hit);
                assert(all.take(i + 1).drop_last() =~= all.take(i as int));
                assert(keep.drop_last() =~= before);
                assert(all.take(i + 1).last() == member@);
                assert forall|k: int| 0 <= k < all.take(i + 1).len() implies call_ensures(
                    filter,
                    (&all.take(i + 1)[k].local_object,),
                    #[trigger] keep[k],
                ) by {
                    if k < i {
                        assert(all.take(i as int)[k] == all.take(i + 1)[k]);
                        assert(before[k] == keep[k]);
                    }
                }
            }
            if hit {
                found.push(member);
                assert(borrowed_views(found@) =~= kept(all.take(i as int), before).push(member@));
            }
            i += 1;
        }
        assert(all.take(i as int) =~= all);
        found
    }

    /// The first object whose latest version the filter answers with
    /// `true`. The filter is asked once for each object.
    pub fn get_first_by_filter<F: Fn(&T) -> bool>(&self, filter: F) -> (r: Result<
        &StorageObject<T, A>,
        SyncError,
    >)
        requires
            forall|t: &T| call_requires(filter, (t,)),
        ensures
            exists|keep: Seq<bool>|
                answers(filter, self@.members, keep) && (match r {
                    Ok(object) => kept(self@.members, keep).len() > 0 && object@ == kept(
                        self@.members,
                        keep,
                    ).first(),
                    Err(e) => kept(self@.members, keep).len() == 0 && e == SyncError::NotFound,
                }),
    {
        let found = self.get_by_filter(filter);
        if found.len() == 0 {
            Err(SyncError::NotFound)
        } else {
            Ok(found[0])
        }
    }

    /// Makes the create action for a new object, with the given identifiers
    /// and time, and puts it at the end of the open commit.
    pub fn create_object_with(
        &self,
        data: T,
        commit: &mut CommitContextGuard,
        action_id: u128,
        object_id: u128,
        dtime: Timestamp,
    )
        requires
            lawful::<T, A>(),
        ensures
            final(commit)@ == old(commit)@.with_action(
                self@.creates(
                    old(commit)@.uid,
                    old(commit)@.commit.id,
                    data,
                    action_id,
                    object_id,
                    dtime,
                ).envelope(),
            ),
    {
        let object_signature = ActionObject::<T, A>::compute_object_signature(&data);
        let aob: ActionObject<T, A> = ActionObject {
            id: action_id,
            storage_id: self.id.clone(),
            object_id,
            uid: commit.uid().to_owned(),
            dtime,
            commit_id: Some(commit.commit_id()),
            parent_action_id: None,
            action: ActionKind::Create(data),
            object_signature,
            remote_signature: None,
        };
        commit.add_action_object(aob);
    }

    /// Makes the create action for a new object, with new identifiers and
    /// the current time, and puts it at the end of the open commit.
    pub fn create_object(&self, data: T, commit: &mut CommitContextGuard)
        requires
            lawful::<T, A>(),
        ensures
            exists|action_id: u128, object_id: u128, dtime: Timestamp|
                final(commit)@ == old(commit)@.with_action(
                    self@.creates(
                        old(commit)@.uid,
                        old(commit)@.commit.id,
                        data,
                        action_id,
                        object_id,
                        dtime,
                    ).envelope(),
                ),
    {
        let action_id = fresh_id();
        let object_id = fresh_id();
        let dtime = now();
        self.create_object_with(data, commit, action_id, object_id, dtime);
    }

    /// Makes a patch action with the same patch for every object whose
    /// latest version the filter answers with `true`, and puts each at the
    /// end of the open commit, in the order of the objects. Where the patch
    /// does not apply to one of them, its message is given, and the commit
    /// keeps the actions that were made for the objects before that one.
    pub fn patch_by_filter<F: Fn(&T) -> bool>(
        &self,
        ctx: &mut CommitContextGuard,
        filter: F,
        patch: A,
    ) -> (r: Result<(), SyncError>)
        requires
            lawful::<T, A>(),
            forall|t: &T| call_requires(filter, (t,)),
        ensures
            exists|keep: Seq<bool>|
                answers(filter, self@.members, keep) && (match r {
                    Ok(_) => deposited(
                        kept(self@.members, keep),
                        patch,
                        kept(self@.members, keep).len() as int,
                        old(ctx)@,
                        final(ctx)@,
                    ),
                    Err(e) => exists|n: int|
                        0 <= n < kept(self@.members, keep).len() && #[trigger] deposited(
                            kept(self@.members, keep),
                            patch,
                            n,
                            old(ctx)@,
                            final(ctx)@,
                        ) && patched_by(
                            patch,
                            kept(self@.members, keep)[n].local_object,
                            old(ctx)@.uid,
                        ) is Err && e == SyncError::PatchFailed(
                            patched_by(
                                patch,
                                kept(self@.members, keep)[n].local_object,
                                old(ctx)@.uid,
                            )->Err_0,
                        ),
                }),
    {
        let found = self.get_by_filter(filter);
        let ghost keep = choose|keep: Seq<bool>|
            answers(filter, self@.members, keep) && borrowed_views(found@) == kept(
                self@.members,
                keep,
            );
        let ghost objects = kept(self@.members, keep);
        let mut j: usize = 0;
        while j < found.len()
            invariant
                lawful::<T, A>(),
                j <= found.len(),
                objects == borrowed_views(found@),
                objects == kept(self@.members, keep),
                answers(filter, self@.members, keep),
                deposited(objects, patch, j as int, old(ctx)@, ctx@),
            decreases found.len() - j,
        {
            let ghost mid = ctx@;
            let object = found[j];
            assert(object@ == objects[j as int]);
            let r = object.patch(duplicate(&patch), ctx);
            match r {
                Ok(_) => {
                    proof {
                        let n0 = old(ctx)@.commit.actions.len() as int;
                        assert forall|i: int| n0 <= i < n0 + j + 1 implies is_patch_action(
                            objects[i - n0],
                            old(ctx)@.uid,
                            old(ctx)@.commit.id,
                            patch,
                            #[trigger] ctx@.commit.actions[i],
                        ) by {
                            if i < n0 + j {
                                assert(ctx@.commit.actions[i] == mid.commit.actions[i]);
                            }
                        }
                        assert forall|i: int| 0 <= i < n0 implies (#[trigger] ctx@.commit.actions[i])
                            == old(ctx)@.commit.actions[i] by {
                            assert(ctx@.commit.actions[i] == mid.commit.actions[i]);
                        }
                    }
                },
                Err(e) => {
                    proof {
                        assert(ctx@ == mid);
                        assert(mid.uid == old(ctx)@.uid);
                        assert(deposited(objects, patch, j as int, old(ctx)@, ctx@));
                        assert(patched_by(patch, objects[j as int].local_object, old(ctx)@.uid)
                            is Err);
                        assert(answers(filter, self@.members, keep));
                    }
                    return Err(e);
                },
            }
            j += 1;
        }
        Ok(())
    }

    /// Checks an action object, or accepts it, at time `now`, and hands back
    /// a copy of the object that the action object is for, as it is after
    /// it. A create makes a new object, or gives the purely local member
    /// that opens with the same create its remote side; a patch goes to the
    /// object it is for, on the side it belongs to. A refused action object
    /// leaves the storage as it is, and so does a check.
    pub fn add_action_object_at(
        &mut self,
        action_object: ActionObject<T, A>,
        mode: CallbackMode,
        now: Timestamp,
    ) -> (r: Result<StorageObject<T, A>, SyncError>)
        requires
            lawful::<T, A>(),
            old(self)@.wf(),
        ensures
            final(self)@.wf(),
            old(self)@.action_outcome(action_object@, mode, now, object_view(r), final(self)@),
    {
        if action_object.storage_id != self.id {
            return Err(SyncError::NotFound);
        }
        let at = self.find_member(action_object.object_id);
        let ghost a = action_object@;
        proof {
            lemma_found(self@.members, a.object_id);
        }
        let object = match at {
            None => {
                if action_object.is_kind_create() {
                    match StorageObject::new_from_aob(action_object) {
                        Ok(object) => object,
                        Err(e) => {
                            return Err(e);
                        },
                    }
                } else {
                    return Err(SyncError::NotFound);
                }
            },
            Some(k) => {
                assert(self@.members[k as int].wf());
                assert(self@.members[k as int] == self.members@[k as int]@);
                let mut object = self.members[k].copy();
                let outcome = if action_object.is_kind_create() {
                    object.promote_at(action_object, now)
                } else {
                    object.take_at(action_object, now)
                };
                match outcome {
                    Ok(_) => object,
                    Err(e) => {
                        return Err(e);
                    },
                }
            },
        };
        proof {
            let after = self@.with_action(a, now);
            match at {
                None => {
                    lemma_find(after.members, a.object_id, self@.members.len() as int);
                },
                Some(k) => {
                    assert forall|j: int| 0 <= j < k implies (#[trigger] after.members[j]).id
                        != a.object_id by {
                        assert(after.members[j] == self@.members[j]);
                    }
                    lemma_find(after.members, a.object_id, k as int);
                },
            }
        }
        match mode {
            CallbackMode::Check => Ok(object),
            CallbackMode::Apply => {
                let copy = object.copy();
                self.put(object, at);
                Ok(copy)
            },
        }
    }

    /// Puts an object into the storage: in the place of the member with the
    /// same identifier, or at the end.
    fn put(&mut self, object: StorageObject<T, A>, at: Option<usize>)
        requires
            old(self)@.wf(),
            object@.wf(),
            object@.storage_id == old(self)@.id,
            match at {
                Some(k) => old(self)@.has(object@.id) && k == find(old(self)@.members, object@.id),
                None => !old(self)@.has(object@.id),
            },
        ensures
            final(self)@.wf(),
            final(self)@ == (if old(self)@.has(object@.id) {
                StorageState {
                    members: old(self)@.members.update(
                        find(old(self)@.members, object@.id),
                        object@,
                    ),
                    ..old(self)@
                }
            } else {
                StorageState { members: old(self)@.members.push(object@), ..old(self)@ }
            }),
    {
        match at {
            Some(k) => {
                proof {
                    lemma_found(self@.members, object@.id);
                    lemma_update_wf(self@, k as int, object@);
                }
                let _ = self.members.remove(k);
                self.members.insert(k, object);
                assert(self@.members =~= old(self)@.members.update(k as int, object@));
            },
            None => {
                proof {
                    lemma_push_wf(self@, object@);
                }
                self.members.push(object);
                assert(self@.members =~= old(self)@.members.push(object@));
            },
        }
    }

    /// Checks an action object, or accepts it; a replayed local chain is
    /// stamped with the current time. Hands back a copy of the object that
    /// the action object is for, as it is after it.
    pub fn add_action_object(&mut self, action_object: ActionObject<T, A>, mode: CallbackMode) -> (r:
        Result<StorageObject<T, A>, SyncError>)
        requires
            lawful::<T, A>(),
            old(self)@.wf(),
        ensures
            final(self)@.wf(),
            exists|now: Timestamp| #[trigger]
                old(self)@.action_outcome(
                    action_object@,
                    mode,
                    now,
                    object_view(r),
                    final(self)@,
                ),
    {
        let t = now();
        let r = self.add_action_object_at(action_object, mode, t);
        assert(old(self)@.action_outcome(action_object@, mode, t, object_view(r), self@));
        r
    }

    /// Answers a universal action object as the repository hands it round:
    /// nothing where it is addressed to another storage or cannot be read
    /// with this storage's types; else the outcome of checking or accepting
    /// the action object that it stands for.
    pub fn accept_at(&mut self, aob: &UniversalActionObject, mode: CallbackMode, now: Timestamp) -> (r:
        Option<Result<(), SyncError>>)
        requires
            lawful::<T, A>(),
            old(self)@.wf(),
        ensures
            final(self)@.wf(),
            match r {
                None => old(self)@.answer(aob@) is None && final(self)@ == old(self)@,
                Some(Ok(_)) => old(self)@.answer(aob@) == Some(None::<SyncError>) && final(self)@
                    == (if mode == CallbackMode::Apply {
                    old(self)@.accepted(aob@, now)
                } else {
                    old(self)@
                }),
                Some(Err(e)) => old(self)@.answer(aob@) == Some(Some(e))
                    && final(self)@ == old(self)@,
            },
    {
        if aob.storage_id != self.id {
            return None;
        }
        match ActionObject::<T, A>::from_universal(aob) {
            Some(typed) => match self.add_action_object_at(typed, mode, now) {
                Ok(_) => Some(Ok(())),
                Err(e) => Some(Err(e)),
            },
            None => None,
        }
    }

    /// Registers the storage with a repository, which then hands it the
    /// action objects of every commit. While a commit context is open
    /// nothing can be registered; a name can be registered once.
    pub fn register(self, repo: &mut Repository<Vec<Storage<T, A>>>) -> (r: Result<(), SyncError>)
        requires
            old(repo)@.wf(),
            self@.wf(),
        ensures
            final(repo)@.wf(),
            match r {
                Ok(_) => !old(repo)@.context_open && !old(repo)@.has_storage(self@.id)
                    && final(repo)@ == (RepoState { storages: old(repo)@.storages.push(self@), ..old(repo)@ }),
                Err(e) => final(repo)@ == old(repo)@ && e == (if old(repo)@.context_open {
                    SyncError::ConcurrentCommitContext
                } else {
                    SyncError::DuplicateStorage
                }) && (old(repo)@.context_open || old(repo)@.has_storage(self@.id)),
            },
    {
        repo.add_storage_hook(self)
    }

    /// An action object of a local commit as it is pushed: as the object
    /// that it is for holds it now, or as it is where no member is that
    /// object.
    pub fn rebased(&self, aob: &UniversalActionObject) -> (r: UniversalActionObject)
        requires
            lawful::<T, A>(),
        ensures
            r@ == self@.rebased(aob@),
    {
        match self.find_member(aob.object_id) {
            Some(k) => {
                assert(self@.members[k as int] == self.members@[k as int]@);
                self.members[k].rebased(aob)
            },
            None => aob.copy(),
        }
    }

    /// An equal copy of the storage.
    pub fn copy(&self) -> (copy: Self)
        requires
            lawful::<T, A>(),
        ensures
            copy@ == self@,
    {
        let mut members: Vec<StorageObject<T, A>> = Vec::new();
        let mut i: usize = 0;
        while i < self.members.len()
            invariant
                lawful::<T, A>(),
                i <= self.members.len(),
                members@.len() == i,
                forall|k: int| 0 <= k < i ==> (#[trigger] members@[k])@ == self.members@[k]@,
            decreases self.members.len() - i,
        {
            members.push(self.members[i].copy());
            i += 1;
        }
        assert(object_views(members@) =~= object_views(self.members@));
        Storage { id: self.id.clone(), members }
    }
}

/// The create action that `create_object` makes is accepted by the storage
/// it was made for, unless the identifier drawn for the object is that of a
/// member.
pub proof fn lemma_create_is_accepted<T: ObjectExt, A: ActionExt<ObjectType = T>>(
    s: StorageState<T, A>,
    uid: Seq<char>,
    commit_id: u128,
    data: T,
    action_id: u128,
    object_id: u128,
    dtime: Timestamp,
)
    requires
        !s.has(object_id),
    ensures
        s.action_error(s.creates(uid, commit_id, data, action_id, object_id, dtime)) is None,
{
}

} // verus!
