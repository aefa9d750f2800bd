use crate::prelude::signature_of;
use crate::sync::action::{
    apply, canonical_of, duplicate, lawful, patched_by, views, ActionExt, ActionKind,
    ActionObject, ActionView, ObjectExt,
};
use crate::sync::error::SyncError;
use crate::sync::session::CommitContextGuard;
use crate::sync::stamp::{fresh_id, now, Timestamp};
use vstd::prelude::*;

verus! {

/// One versioned object: the chain of actions that the server signed, the
/// chain of local actions that are not published yet, and the object as each
/// chain leaves it.
pub struct StorageObject<T, A> {
    id: u128,
    storage_id: String,
    remote_actions: Vec<ActionObject<T, A>>,
    local_actions: Vec<ActionObject<T, A>>,
    remote_object: Option<T>,
    local_object: T,
}

/// The mathematical content of a storage object.
pub struct ObjectState<T, A> {
    pub id: u128,
    pub storage_id: Seq<char>,
    pub remote_actions: Seq<ActionView<T, A>>,
    pub local_actions: Seq<ActionView<T, A>>,
    pub remote_object: Option<T>,
    pub local_object: T,
}

/// What one action makes of an object. An action that is no patch leaves
/// the object as it is.
pub open spec fn step<T: ObjectExt, A: ActionExt<ObjectType = T>>(
    prev: T,
    action: ActionView<T, A>,
) -> Result<T, String> {
    match action.action {
        ActionKind::Patch(p) => patched_by(p, prev, action.uid),
        ActionKind::Create(_) => Ok(prev),
    }
}

/// The object that a sequence of actions makes of a starting object, or the
/// message of the first action that refuses.
pub open spec fn refold<T: ObjectExt, A: ActionExt<ObjectType = T>>(
    start: T,
    actions: Seq<ActionView<T, A>>,
) -> Result<T, String>
    decreases actions.len(),
{
    if actions.len() == 0 {
        Ok(start)
    } else {
        match refold(start, actions.drop_last()) {
            Ok(prev) => step(prev, actions.last()),
            Err(message) => Err(message),
        }
    }
}

/// The parent that the action at a position of a chain must name: the
/// action before it, or the root of the chain for the first.
pub open spec fn expected_parent<T, A>(
    root: Option<u128>,
    actions: Seq<ActionView<T, A>>,
    i: int,
) -> Option<u128> {
    if i == 0 {
        root
    } else {
        Some(actions[i - 1].id)
    }
}

/// Whether an action is on the side that a chain is for: a remote chain
/// holds actions with a valid remote signature, a local chain unsigned ones.
pub open spec fn on_side<T: ObjectExt, A: ActionExt<ObjectType = T>>(
    action: ActionView<T, A>,
    remote: bool,
) -> bool {
    if remote {
        action.envelope().remote_signature_valid()
    } else {
        action.remote_signature is None
    }
}

/// The shape of a chain of patches: each names its predecessor as parent,
/// the first names `root`, and each is a patch on the side of the chain.
pub open spec fn chain_shape<T: ObjectExt, A: ActionExt<ObjectType = T>>(
    root: Option<u128>,
    patches: Seq<ActionView<T, A>>,
    remote: bool,
) -> bool {
    &&& forall|i: int|
        0 <= i < patches.len() ==> (#[trigger] patches[i]).parent_action_id == expected_parent(
            root,
            patches,
            i,
        )
    &&& forall|i: int| 0 <= i < patches.len() ==> (#[trigger] patches[i]).action is Patch
    &&& forall|i: int| 0 <= i < patches.len() ==> on_side(#[trigger] patches[i], remote)
}

/// A well-formed chain of patches over a starting object: it has the shape
/// of a chain, each patch applies, each carries the signature of the object
/// it makes, and the last leaves `end`.
pub open spec fn patches_wf<T: ObjectExt, A: ActionExt<ObjectType = T>>(
    start: T,
    root: Option<u128>,
    patches: Seq<ActionView<T, A>>,
    remote: bool,
    end: T,
) -> bool {
    &&& chain_shape(root, patches, remote)
    &&& forall|i: int|
        0 <= i < patches.len() ==> (#[trigger] refold(start, patches.take(i + 1))) is Ok
            && patches[i].object_signature == signature_of(
            canonical_of(refold(start, patches.take(i + 1))->Ok_0),
        )
    &&& refold(start, patches) == Ok::<T, String>(end)
}

/// The parent that the first action of a chain names, if it has one.
pub open spec fn local_root<T, A>(actions: Seq<ActionView<T, A>>) -> Option<u128> {
    if actions.len() == 0 {
        None
    } else {
        actions[0].parent_action_id
    }
}

/// Whether an action can open a chain: a create without a parent, on the
/// right side, that carries the signature of the object it creates.
pub open spec fn create_wf<T: ObjectExt, A: ActionExt<ObjectType = T>>(
    action: ActionView<T, A>,
    remote: bool,
) -> bool {
    &&& action.action is Create
    &&& action.parent_action_id is None
    &&& on_side(action, remote)
    &&& action.object_signature == signature_of(canonical_of(action.action->Create_0))
}

/// A well-formed chain that opens with a create and leaves `end`.
pub open spec fn rooted_wf<T: ObjectExt, A: ActionExt<ObjectType = T>>(
    actions: Seq<ActionView<T, A>>,
    remote: bool,
    end: T,
) -> bool {
    &&& actions.len() > 0
    &&& create_wf(actions[0], remote)
    &&& patches_wf(
        actions[0].action->Create_0,
        Some(actions[0].id),
        actions.subrange(1, actions.len() as int),
        remote,
        end,
    )
}

/// The position of the first action with an identifier, or the length of
/// the chain where no action has it.
pub open spec fn place<T, A>(actions: Seq<ActionView<T, A>>, id: u128) -> int
    decreases actions.len(),
{
    if actions.len() == 0 {
        0
    } else if actions.first().id == id {
        0
    } else {
        1 + place(actions.drop_first(), id)
    }
}

/// Where the first action with an identifier stands.
pub proof fn lemma_place<T, A>(actions: Seq<ActionView<T, A>>, id: u128, i: int)
    requires
        0 <= i <= actions.len(),
        forall|k: int| 0 <= k < i ==> (#[trigger] actions[k]).id != id,
        i < actions.len() ==> actions[i].id == id,
    ensures
        place(actions, id) == i,
    decreases actions.len(),
{
    if actions.len() > 0 && i > 0 {
        let rest = actions.drop_first();
        assert(actions[0].id != id);
        assert forall|k: int| 0 <= k < i - 1 implies (#[trigger] rest[k]).id != id by {
            assert(rest[k] == actions[k + 1]);
        }
        if i < actions.len() {
            assert(rest[i - 1] == actions[i]);
        }
        lemma_place(rest, id, i - 1);
    }
}

/// The identifier of the last action of a chain, if it has one.
pub open spec fn tip<T, A>(actions: Seq<ActionView<T, A>>) -> Option<u128> {
    if actions.len() == 0 {
        None
    } else {
        Some(actions.last().id)
    }
}

/// A chain of patches replayed over `start` at time `now`: the same actions
/// in the same order, each with the signature of the object that it now
/// makes, and stamped with `now`. Nothing else of an action changes.
pub open spec fn restamp<T: ObjectExt, A: ActionExt<ObjectType = T>>(
    before: Seq<ActionView<T, A>>,
    start: T,
    now: Timestamp,
) -> Seq<ActionView<T, A>> {
    Seq::new(
        before.len(),
        |i: int|
            ActionView {
                object_signature: signature_of(
                    canonical_of(refold(start, before.take(i + 1))->Ok_0),
                ),
                dtime: now,
                ..before[i]
            },
    )
}

impl<T: ObjectExt, A: ActionExt<ObjectType = T>> ObjectState<T, A> {
    /// The invariant of a storage object. A purely local object has no
    /// remote side, and its local chain opens with its create. Any other
    /// object has a remote chain that opens with its create and leaves the
    /// remote object, and a local chain of patches over the remote object
    /// that leaves the local object.
    #[verifier::opaque]
    pub open spec fn wf(self) -> bool {
        match self.remote_object {
            None => self.remote_actions.len() == 0 && rooted_wf(
                self.local_actions,
                false,
                self.local_object,
            ),
            Some(r) => rooted_wf(self.remote_actions, true, r) && patches_wf(
                r,
                local_root(self.local_actions),
                self.local_actions,
                false,
                self.local_object,
            ),
        }
    }

    /// How many local actions a signed action acknowledges: one, where the
    /// local chain opens with the action of the same identifier, which is
    /// that action before the server signed it; else none.
    pub open spec fn acknowledged(self, a: ActionView<T, A>) -> int {
        if self.local_actions.len() > 0 && self.local_actions[0].id == a.id {
            1
        } else {
            0
        }
    }

    /// The local actions that stay local when a signed action arrives: all
    /// but the one that it acknowledges.
    pub open spec fn rest_after(self, a: ActionView<T, A>) -> Seq<ActionView<T, A>> {
        self.local_actions.skip(self.acknowledged(a))
    }

    /// What a create action is refused with: the first rule that it breaks,
    /// if it breaks one.
    pub open spec fn create_error(a: ActionView<T, A>) -> Option<SyncError> {
        if !(a.action is Create) {
            Some(SyncError::WrongKind)
        } else if a.parent_action_id is Some {
            Some(SyncError::ParentMismatch)
        } else if a.object_signature != signature_of(canonical_of(a.action->Create_0)) {
            Some(SyncError::SignatureMismatch)
        } else if a.remote_signature is Some && !a.envelope().remote_signature_valid() {
            Some(SyncError::SignatureMismatch)
        } else {
            None
        }
    }

    /// The object that a create action creates: purely local for an unsigned
    /// action, with only a remote side for a signed one.
    pub open spec fn created(a: ActionView<T, A>) -> Self {
        if a.remote_signature is None {
            ObjectState {
                id: a.object_id,
                storage_id: a.storage_id,
                remote_actions: Seq::empty(),
                local_actions: seq![a],
                remote_object: None,
                local_object: a.action->Create_0,
            }
        } else {
            ObjectState {
                id: a.object_id,
                storage_id: a.storage_id,
                remote_actions: seq![a],
                local_actions: Seq::empty(),
                remote_object: Some(a.action->Create_0),
                local_object: a.action->Create_0,
            }
        }
    }

    /// What a local patch is refused with: the first rule that it breaks, if
    /// it breaks one.
    pub open spec fn local_patch_error(self, a: ActionView<T, A>) -> Option<SyncError> {
        if a.remote_signature is Some {
            Some(SyncError::WrongSide)
        } else if !(a.action is Patch) {
            Some(SyncError::WrongKind)
        } else if a.parent_action_id != tip(self.local_actions) {
            Some(SyncError::ParentMismatch)
        } else {
            match patched_by(a.action->Patch_0, self.local_object, a.uid) {
                Err(message) => Some(SyncError::PatchFailed(message)),
                Ok(next) => if a.object_signature != signature_of(canonical_of(next)) {
                    Some(SyncError::SignatureMismatch)
                } else {
                    None
                },
            }
        }
    }

    /// The object with a local patch at the end of its local chain.
    pub open spec fn local_patched(self, a: ActionView<T, A>) -> Self {
        ObjectState {
            local_actions: self.local_actions.push(a),
            local_object: patched_by(a.action->Patch_0, self.local_object, a.uid)->Ok_0,
            ..self
        }
    }

    /// What replaying the local chain is refused with: a purely local object
    /// has nothing to replay over; else the message of the first local
    /// action that does not apply.
    pub open spec fn rebuild_error(self) -> Option<SyncError> {
        match self.remote_object {
            None => Some(SyncError::WrongSide),
            Some(base) => match refold(base, self.local_actions) {
                Err(message) => Some(SyncError::PatchFailed(message)),
                Ok(_) => None,
            },
        }
    }

    /// The object with its local chain replayed over its remote object.
    pub open spec fn rebuilt(self, now: Timestamp) -> Self {
        ObjectState {
            local_actions: restamp(self.local_actions, self.remote_object->0, now),
            local_object: refold(self.remote_object->0, self.local_actions)->Ok_0,
            ..self
        }
    }

    /// What a remote patch is refused with: the first rule that it breaks,
    /// if it breaks one, or the message of the first local action that
    /// stays local and does not apply over the advanced remote object.
    pub open spec fn remote_patch_error(self, a: ActionView<T, A>) -> Option<SyncError> {
        if a.remote_signature is None {
            Some(SyncError::MissingRemoteSignature)
        } else if a.parent_action_id != tip(self.remote_actions) {
            Some(SyncError::ParentMismatch)
        } else if self.remote_object is None {
            Some(SyncError::WrongSide)
        } else if !(a.action is Patch) {
            Some(SyncError::WrongKind)
        } else {
            match patched_by(a.action->Patch_0, self.remote_object->0, a.uid) {
                Err(message) => Some(SyncError::PatchFailed(message)),
                Ok(next) => if a.object_signature != signature_of(canonical_of(next)) {
                    Some(SyncError::SignatureMismatch)
                } else if !a.envelope().remote_signature_valid() {
                    Some(SyncError::SignatureMismatch)
                } else {
                    match refold(next, self.rest_after(a)) {
                        Err(message) => Some(SyncError::PatchFailed(message)),
                        Ok(_) => None,
                    }
                },
            }
        }
    }

    /// The object with a signed patch at the end of its remote chain, and
    /// the local actions that stay local replayed over the advanced remote
    /// object.
    pub open spec fn remote_patched(self, a: ActionView<T, A>, now: Timestamp) -> Self {
        let next = patched_by(a.action->Patch_0, self.remote_object->0, a.uid)->Ok_0;
        ObjectState {
            remote_actions: self.remote_actions.push(a),
            remote_object: Some(next),
            local_actions: restamp(self.rest_after(a), next, now),
            local_object: refold(next, self.rest_after(a))->Ok_0,
            ..self
        }
    }

    /// What a create for this object is refused with. The create must be
    /// well formed and signed, and the object purely local with a local
    /// chain that opens with the same create before the server signed it:
    /// the same identifier and the same object signature. The local patches
    /// must apply over the object that the create makes.
    pub open spec fn promote_error(self, a: ActionView<T, A>) -> Option<SyncError> {
        if ObjectState::create_error(a) is Some {
            ObjectState::create_error(a)
        } else if a.remote_signature is None || self.remote_object is Some
            || self.local_actions.len() == 0 || self.local_actions[0].id != a.id
            || self.local_actions[0].object_signature != a.object_signature {
            Some(SyncError::WrongKind)
        } else {
            match refold(a.action->Create_0, self.local_actions.skip(1)) {
                Err(message) => Some(SyncError::PatchFailed(message)),
                Ok(_) => None,
            }
        }
    }

    /// The purely local object after the server accepted its create: the
    /// signed create opens the remote chain, and the local patches are
    /// replayed over the object that it makes.
    pub open spec fn promoted(self, a: ActionView<T, A>, now: Timestamp) -> Self {
        ObjectState {
            remote_actions: seq![a],
            remote_object: Some(a.action->Create_0),
            local_actions: restamp(self.local_actions.skip(1), a.action->Create_0, now),
            local_object: refold(a.action->Create_0, self.local_actions.skip(1))->Ok_0,
            ..self
        }
    }

    /// What a patch is refused with, on the side it belongs to.
    pub open spec fn patch_error(self, a: ActionView<T, A>) -> Option<SyncError> {
        if a.remote_signature is None {
            self.local_patch_error(a)
        } else {
            self.remote_patch_error(a)
        }
    }

    /// The object with a patch on the side it belongs to.
    pub open spec fn patched(self, a: ActionView<T, A>, now: Timestamp) -> Self {
        if a.remote_signature is None {
            self.local_patched(a)
        } else {
            self.remote_patched(a, now)
        }
    }

    /// Whether adding a signed patch at time `now` ends with `r` and leaves
    /// `after`: a refusal leaves the object as it is; else the object is
    /// handed back as it is after the patch.
    pub open spec fn remote_outcome(
        self,
        a: ActionView<T, A>,
        now: Timestamp,
        r: Result<Self, SyncError>,
        after: Self,
    ) -> bool {
        match r {
            Ok(object) => self.remote_patch_error(a) is None && after == self.remote_patched(
                a,
                now,
            ) && object == after,
            Err(e) => self.remote_patch_error(a) == Some(e) && after == self,
        }
    }

    /// Whether adding a patch at time `now` ends with `r` and leaves
    /// `after`: a refusal leaves the object as it is; else the object is
    /// handed back as it is after the patch.
    pub open spec fn patch_outcome(
        self,
        a: ActionView<T, A>,
        now: Timestamp,
        r: Result<Self, SyncError>,
        after: Self,
    ) -> bool {
        match r {
            Ok(object) => self.patch_error(a) is None && after == self.patched(a, now) && object
                == after,
            Err(e) => self.patch_error(a) == Some(e) && after == self,
        }
    }

    /// An action object of a local commit as it is pushed. Where the local
    /// chain holds the action of the same identifier, that action goes as
    /// the chain holds it now, replayed; the first of the chain names the
    /// last remote action as its parent, as the server will ask. Any other
    /// action object goes as it is.
    pub open spec fn rebased(self, e: crate::sync::action::Envelope) -> crate::sync::action::Envelope {
        let j = place(self.local_actions, e.id);
        if j < self.local_actions.len() {
            (ActionView {
                parent_action_id: if j == 0 {
                    tip(self.remote_actions)
                } else {
                    self.local_actions[j].parent_action_id
                },
                ..self.local_actions[j]
            }).envelope()
        } else {
            e
        }
    }

    /// The object without its local changes.
    pub open spec fn cleared(self) -> Self {
        ObjectState {
            local_actions: Seq::empty(),
            local_object: self.remote_object->0,
            ..self
        }
    }

    /// The unsigned action object that carries `action`, made against this
    /// object for a commit: it names the last local action as its parent,
    /// and none where there is no local action, and carries the signature of
    /// the object that the action makes of the latest version.
    pub open spec fn makes(
        self,
        uid: Seq<char>,
        commit_id: u128,
        action: ActionKind<T, A>,
        id: u128,
        dtime: Timestamp,
    ) -> ActionView<T, A> {
        ActionView {
            id,
            storage_id: self.storage_id,
            object_id: self.id,
            uid,
            dtime,
            commit_id: Some(commit_id),
            parent_action_id: tip(self.local_actions),
            action,
            object_signature: signature_of(
                canonical_of(
                    match action {
                        ActionKind::Create(t) => t,
                        ActionKind::Patch(p) => patched_by(p, self.local_object, uid)->Ok_0,
                    },
                ),
            ),
            remote_signature: None,
        }
    }
}

/// The contents of a vector of actions with one more action at its end.
pub proof fn lemma_views_push<T, A>(actions: Seq<ActionObject<T, A>>, a: ActionObject<T, A>)
    ensures
        views(actions.push(a)) == views(actions).push(a@),
{
    assert(views(actions.push(a)) =~= views(actions).push(a@));
}

/// A chain of patches with one more patch at its end is a chain again.
pub proof fn lemma_patches_push<T: ObjectExt, A: ActionExt<ObjectType = T>>(
    start: T,
    root: Option<u128>,
    patches: Seq<ActionView<T, A>>,
    remote: bool,
    end: T,
    next: ActionView<T, A>,
    after: T,
)
    requires
        patches_wf(start, root, patches, remote, end),
        next.parent_action_id == (if patches.len() == 0 {
            root
        } else {
            tip(patches)
        }),
        next.action is Patch,
        on_side(next, remote),
        step(end, next) == Ok::<T, String>(after),
        next.object_signature == signature_of(canonical_of(after)),
    ensures
        patches_wf(start, root, patches.push(next), remote, after),
{
    let longer = patches.push(next);
    assert(longer.drop_last() =~= patches);
    assert(refold(start, longer) == Ok::<T, String>(after));
    assert forall|i: int| 0 <= i < longer.len() implies (#[trigger] refold(
        start,
        longer.take(i + 1),
    )) is Ok && longer[i].object_signature == signature_of(
        canonical_of(refold(start, longer.take(i + 1))->Ok_0),
    ) by {
        if i < patches.len() {
            assert(longer.take(i + 1) =~= patches.take(i + 1));
            assert(patches[i] == longer[i]);
        } else {
            assert(longer.take(i + 1) =~= longer);
        }
    }
    assert forall|i: int| 0 <= i < longer.len() implies (#[trigger] longer[i]).parent_action_id
        == expected_parent(root, longer, i) by {
        if i < patches.len() {
            assert(patches[i] == longer[i]);
            assert(patches[i].parent_action_id == expected_parent(root, patches, i));
        }
    }
    assert forall|i: int| 0 <= i < longer.len() implies (#[trigger] longer[i]).action is Patch by {
        if i < patches.len() {
            assert(patches[i] == longer[i]);
        }
    }
    assert forall|i: int| 0 <= i < longer.len() implies on_side(#[trigger] longer[i], remote) by {
        if i < patches.len() {
            assert(patches[i] == longer[i]);
        }
    }
}

/// A chain that opens with a create, with one more patch at its end, is such
/// a chain again.
pub proof fn lemma_rooted_push<T: ObjectExt, A: ActionExt<ObjectType = T>>(
    actions: Seq<ActionView<T, A>>,
    remote: bool,
    end: T,
    next: ActionView<T, A>,
    after: T,
)
    requires
        rooted_wf(actions, remote, end),
        next.parent_action_id == tip(actions),
        next.action is Patch,
        on_side(next, remote),
        step(end, next) == Ok::<T, String>(after),
        next.object_signature == signature_of(canonical_of(after)),
    ensures
        rooted_wf(actions.push(next), remote, after),
{
    let rest = actions.subrange(1, actions.len() as int);
    let longer = actions.push(next);
    assert(longer.subrange(1, longer.len() as int) =~= rest.push(next));
    if rest.len() > 0 {
        assert(rest.last() == actions.last());
    }
    lemma_patches_push(
        actions[0].action->Create_0,
        Some(actions[0].id),
        rest,
        remote,
        end,
        next,
        after,
    );
}

/// A create alone is a chain that leaves the object it creates.
pub proof fn lemma_rooted_single<T: ObjectExt, A: ActionExt<ObjectType = T>>(
    create: ActionView<T, A>,
    remote: bool,
)
    requires
        create_wf(create, remote),
    ensures
        rooted_wf(seq![create], remote, create.action->Create_0),
{
    let actions = seq![create];
    assert(actions.subrange(1, actions.len() as int) =~= Seq::<ActionView<T, A>>::empty());
}

/// Nothing at all is a chain of patches that leaves the object as it is.
pub proof fn lemma_patches_empty<T: ObjectExt, A: ActionExt<ObjectType = T>>(
    start: T,
    root: Option<u128>,
    remote: bool,
)
    ensures
        patches_wf(start, root, Seq::<ActionView<T, A>>::empty(), remote, start),
{
}

/// Replaying reads the action and the author of an action object, and
/// nothing else of it.
pub proof fn lemma_refold_same<T: ObjectExt, A: ActionExt<ObjectType = T>>(
    start: T,
    before: Seq<ActionView<T, A>>,
    after: Seq<ActionView<T, A>>,
)
    requires
        after.len() == before.len(),
        forall|i: int|
            0 <= i < before.len() ==> (#[trigger] after[i]).action == before[i].action
                && after[i].uid
                == before[i].uid,
    ensures
        refold(start, after) == refold(start, before),
    decreases before.len(),
{
    if before.len() > 0 {
        lemma_refold_same(start, before.drop_last(), after.drop_last());
        assert(after.last().action == before.last().action);
    }
}

/// Once an action of a chain refuses, the whole chain refuses with its
/// message.
pub proof fn lemma_refold_refusal<T: ObjectExt, A: ActionExt<ObjectType = T>>(
    start: T,
    actions: Seq<ActionView<T, A>>,
    k: int,
)
    requires
        0 <= k <= actions.len(),
        refold(start, actions.take(k)) is Err,
    ensures
        refold(start, actions) == refold(start, actions.take(k)),
    decreases actions.len() - k,
{
    if k < actions.len() {
        assert(actions.take(k + 1).drop_last() =~= actions.take(k));
        lemma_refold_refusal(start, actions, k + 1);
    } else {
        assert(actions.take(k) =~= actions);
    }
}

/// A chain of unsigned patches that is replayed over an object is a
/// well-formed chain over that object.
pub proof fn lemma_restamp_wf<T: ObjectExt, A: ActionExt<ObjectType = T>>(
    root: Option<u128>,
    before: Seq<ActionView<T, A>>,
    start: T,
    now: Timestamp,
    end: T,
)
    requires
        chain_shape(root, before, false),
        refold(start, before) == Ok::<T, String>(end),
    ensures
        patches_wf(start, root, restamp(before, start, now), false, end),
        local_root(restamp(before, start, now)) == local_root(before),
{
    let after = restamp(before, start, now);
    lemma_refold_same(start, before, after);
    assert forall|i: int| 0 <= i < after.len() implies (#[trigger] after[i]).parent_action_id
        == expected_parent(root, after, i) by {
        assert(before[i].parent_action_id == expected_parent(root, before, i));
    }
    assert forall|i: int| 0 <= i < after.len() implies (#[trigger] after[i]).action is Patch by {
        assert(before[i].action is Patch);
    }
    assert forall|i: int| 0 <= i < after.len() implies on_side(#[trigger] after[i], false) by {
        assert(on_side(before[i], false));
    }
    assert forall|i: int| 0 <= i < after.len() implies (#[trigger] refold(start, after.take(i + 1)))
        is Ok && after[i].object_signature == signature_of(
        canonical_of(refold(start, after.take(i + 1))->Ok_0),
    ) by {
        lemma_refold_same(start, before.take(i + 1), after.take(i + 1));
        if refold(start, before.take(i + 1)) is Err {
            lemma_refold_refusal(start, before, i + 1);
        }
    }
}

/// What is left of a chain without its first actions has the shape of a
/// chain, from the parent that its first action names.
pub proof fn lemma_shape_skip<T: ObjectExt, A: ActionExt<ObjectType = T>>(
    root: Option<u128>,
    patches: Seq<ActionView<T, A>>,
    remote: bool,
    k: int,
)
    requires
        chain_shape(root, patches, remote),
        0 <= k <= patches.len(),
    ensures
        chain_shape(local_root(patches.skip(k)), patches.skip(k), remote),
{
    let rest = patches.skip(k);
    assert forall|i: int| 0 <= i < rest.len() implies (#[trigger] rest[i]).parent_action_id
        == expected_parent(local_root(rest), rest, i) by {
        assert(rest[i] == patches[i + k]);
        assert(patches[i + k].parent_action_id == expected_parent(root, patches, i + k));
        if i > 0 {
            assert(rest[i - 1] == patches[i + k - 1]);
        }
    }
    assert forall|i: int| 0 <= i < rest.len() implies (#[trigger] rest[i]).action is Patch by {
        assert(rest[i] == patches[i + k]);
        assert(patches[i + k].action is Patch);
    }
    assert forall|i: int| 0 <= i < rest.len() implies on_side(#[trigger] rest[i], remote) by {
        assert(rest[i] == patches[i + k]);
        assert(on_side(patches[i + k], remote));
    }
}

impl<T, A> View for StorageObject<T, A> {
    type V = ObjectState<T, A>;

    closed spec fn view(&self) -> ObjectState<T, A> {
        ObjectState {
            id: self.id,
            storage_id: self.storage_id@,
            remote_actions: views(self.remote_actions@),
            local_actions: views(self.local_actions@),
            remote_object: self.remote_object,
            local_object: self.local_object,
        }
    }
}

/// The content of an outcome that hands back an object.
pub open spec fn object_view<T, A>(r: Result<StorageObject<T, A>, SyncError>) -> Result<
    ObjectState<T, A>,
    SyncError,
> {
    match r {
        Ok(object) => Ok(object@),
        Err(e) => Err(e),
    }
}

impl<T: ObjectExt, A: ActionExt<ObjectType = T>> StorageObject<T, A> {
    pub fn id(&self) -> (id: u128)
        ensures
            id == self@.id,
    {
        self.id
    }

    pub fn storage_id(&self) -> (id: &str)
        ensures
            id@ == self@.storage_id,
    {
        self.storage_id.as_str()
    }

    pub fn remote_actions(&self) -> (actions: &Vec<ActionObject<T, A>>)
        ensures
            views(actions@) == self@.remote_actions,
    {
        &self.remote_actions
    }

    pub fn local_actions(&self) -> (actions: &Vec<ActionObject<T, A>>)
        ensures
            views(actions@) == self@.local_actions,
    {
        &self.local_actions
    }

    pub fn remote_object(&self) -> (object: Option<&T>)
        ensures
            object is Some <==> self@.remote_object is Some,
            object matches Some(o) ==> *o == self@.remote_object->0,
    {
        self.remote_object.as_ref()
    }

    /// The object as the local chain leaves it: the latest version.
    pub fn local_object(&self) -> (object: &T)
        ensures
            *object == self@.local_object,
    {
        &self.local_object
    }

    /// Whether the object was never accepted by the server.
    pub fn is_local_object(&self) -> (b: bool)
        ensures
            b == self@.remote_object is None,
    {
        self.remote_object.is_none()
    }

    /// Whether the server accepted the object.
    pub fn is_remote_object(&self) -> (b: bool)
        ensures
            b == self@.remote_object is Some,
    {
        !self.is_local_object()
    }

    /// The identifier of the last local action, if there is one.
    pub fn last_local_id(&self) -> (id: Option<u128>)
        ensures
            id == tip(self@.local_actions),
    {
        let n = self.local_actions.len();
        if n == 0 {
            None
        } else {
            Some(self.local_actions[n - 1].id)
        }
    }

    /// The identifier of the last remote action, if there is one.
    pub fn last_remote_id(&self) -> (id: Option<u128>)
        ensures
            id == tip(self@.remote_actions),
    {
        let n = self.remote_actions.len();
        if n == 0 {
            None
        } else {
            Some(self.remote_actions[n - 1].id)
        }
    }

    /// Checks a create action and gives the object it creates.
    fn check_create(aob: &ActionObject<T, A>) -> (r: Result<T, SyncError>)
        requires
            lawful::<T, A>(),
        ensures
            match r {
                Ok(data) => ObjectState::create_error(aob@) is None && data
                    == aob@.action->Create_0,
                Err(e) => ObjectState::create_error(aob@) == Some(e),
            },
    {
        let data = match &aob.action {
            ActionKind::Create(data) => duplicate(data),
            ActionKind::Patch(_) => {
                return Err(SyncError::WrongKind);
            },
        };
        if aob.parent_action_id.is_some() {
            return Err(SyncError::ParentMismatch);
        }
        if !aob.signs_object(&data) {
            return Err(SyncError::SignatureMismatch);
        }
        if aob.is_remote() && !aob.has_valid_remote_signature() {
            return Err(SyncError::SignatureMismatch);
        }
        Ok(data)
    }

    /// Whether a create action would make an object, without making it.
    pub fn check_new_from_aob(aob: &ActionObject<T, A>) -> (r: Result<(), SyncError>)
        requires
            lawful::<T, A>(),
        ensures
            match r {
                Ok(_) => ObjectState::create_error(aob@) is None,
                Err(e) => ObjectState::create_error(aob@) == Some(e),
            },
    {
        match Self::check_create(aob) {
            Ok(_) => Ok(()),
            Err(e) => Err(e),
        }
    }

    /// Makes the object that a create action creates. The action must be a
    /// create without a parent that carries the signature of its object and,
    /// where it is signed, the right remote signature.
    pub fn new_from_aob(aob: ActionObject<T, A>) -> (r: Result<Self, SyncError>)
        requires
            lawful::<T, A>(),
        ensures
            match r {
                Ok(object) => ObjectState::create_error(aob@) is None && object@
                    == ObjectState::created(aob@) && object@.wf(),
                Err(e) => ObjectState::create_error(aob@) == Some(e),
            },
    {
        proof {
            reveal(ObjectState::wf);
        }
        let data = match Self::check_create(&aob) {
            Ok(data) => data,
            Err(e) => {
                return Err(e);
            },
        };
        let id = aob.object_id;
        let storage_id = aob.storage_id.clone();
        if aob.is_local() {
            proof {
                lemma_rooted_single(aob@, false);
            }
            let mut local_actions = Vec::new();
            local_actions.push(aob);
            let remote_actions: Vec<ActionObject<T, A>> = Vec::new();
            assert(views(local_actions@) =~= seq![aob@]);
            assert(views(remote_actions@) =~= Seq::<ActionView<T, A>>::empty());
            Ok(
                StorageObject {
                    id,
                    storage_id,
                    remote_actions,
                    local_actions,
                    remote_object: None,
                    local_object: data,
                },
            )
        } else {
            proof {
                lemma_rooted_single(aob@, true);
                lemma_patches_empty::<T, A>(data, None, false);
            }
            let remote = duplicate(&data);
            let mut remote_actions = Vec::new();
            remote_actions.push(aob);
            let local_actions: Vec<ActionObject<T, A>> = Vec::new();
            assert(views(remote_actions@) =~= seq![aob@]);
            assert(views(local_actions@) =~= Seq::<ActionView<T, A>>::empty());
            Ok(
                StorageObject {
                    id,
                    storage_id,
                    remote_actions,
                    local_actions,
                    remote_object: Some(remote),
                    local_object: data,
                },
            )
        }
    }

    /// Checks a local patch and gives the object that it makes.
    fn check_local(&self, aob: &ActionObject<T, A>) -> (r: Result<T, SyncError>)
        requires
            lawful::<T, A>(),
        ensures
            match r {
                Ok(patched) => self@.local_patch_error(aob@) is None && patched
                    == self@.local_patched(aob@).local_object,
                Err(e) => self@.local_patch_error(aob@) == Some(e),
            },
    {
        if aob.is_remote() {
            return Err(SyncError::WrongSide);
        }
        let patched = match &aob.action {
            ActionKind::Patch(action) => {
                if aob.parent_action_id != self.last_local_id() {
                    return Err(SyncError::ParentMismatch);
                }
                match apply(action, &self.local_object, aob.dtime, aob.uid.as_str()) {
                    Ok(patched) => patched,
                    Err(message) => {
                        return Err(SyncError::PatchFailed(message));
                    },
                }
            },
            ActionKind::Create(_) => {
                return Err(SyncError::WrongKind);
            },
        };
        if !aob.signs_object(&patched) {
            return Err(SyncError::SignatureMismatch);
        }
        Ok(patched)
    }

    /// Adds an unsigned patch at the end of the local chain. The patch must
    /// name the last local action as its parent, and none where there is no
    /// local action, apply to the local object, and carry the signature of
    /// the object it makes. A refused patch leaves the object as it is.
    pub fn take_local(&mut self, action_object: ActionObject<T, A>) -> (r: Result<
        (),
        SyncError,
    >)
        requires
            lawful::<T, A>(),
            old(self)@.wf(),
        ensures
            match r {
                Ok(_) => old(self)@.local_patch_error(action_object@) is None && final(self)@
                    == old(self)@.local_patched(action_object@),
                Err(e) => old(self)@.local_patch_error(action_object@) == Some(e) && final(self)@
                    == old(self)@,
            },
            final(self)@.wf(),
    {
        proof {
            reveal(ObjectState::wf);
        }
        let patched = match self.check_local(&action_object) {
            Ok(patched) => patched,
            Err(e) => {
                return Err(e);
            },
        };
        proof {
            lemma_views_push(self.local_actions@, action_object);
            match self@.remote_object {
                None => {
                    lemma_rooted_push(
                        self@.local_actions,
                        false,
                        self@.local_object,
                        action_object@,
                        patched,
                    );
                },
                Some(r) => {
                    lemma_patches_push(
                        r,
                        local_root(self@.local_actions),
                        self@.local_actions,
                        false,
                        self@.local_object,
                        action_object@,
                        patched,
                    );
                    assert(local_root(self@.local_actions.push(action_object@)) == local_root(
                        self@.local_actions,
                    ));
                },
            }
        }
        self.local_object = patched;
        self.local_actions.push(action_object);
        Ok(())
    }

    /// Replays the local chain but for its first `skip` actions over `base`
    /// at time `now`: a copy of each action with the signature of the object
    /// that it now makes and the new time stamp, and the object that the
    /// last one leaves.
    fn replayed(&self, base: &T, skip: usize, now: Timestamp) -> (r: Result<
        (Vec<ActionObject<T, A>>, T),
        SyncError,
    >)
        requires
            lawful::<T, A>(),
            skip <= self@.local_actions.len(),
            forall|i: int|
                skip <= i < self@.local_actions.len() ==> (#[trigger] self@.local_actions[i]).action
                    is Patch,
        ensures
            match r {
                Ok((actions, object)) => refold(*base, self@.local_actions.skip(skip as int))
                    == Ok::<T, String>(object) && views(actions@) == restamp(
                    self@.local_actions.skip(skip as int),
                    *base,
                    now,
                ),
                Err(e) => refold(*base, self@.local_actions.skip(skip as int)) is Err && e
                    == SyncError::PatchFailed(
                    refold(*base, self@.local_actions.skip(skip as int))->Err_0,
                ),
            },
    {
        let ghost chain = self@.local_actions.skip(skip as int);
        let mut rebuilt: Vec<ActionObject<T, A>> = Vec::new();
        let mut current = duplicate(base);
        let n = self.local_actions.len() - skip;
        let mut i: usize = 0;
        assert(chain.take(0) =~= Seq::<ActionView<T, A>>::empty());
        assert forall|k: int| 0 <= k < chain.len() implies (#[trigger] chain[k]).action is Patch by {
            assert(chain[k] == self@.local_actions[k + skip]);
        }
        while i < n
            invariant
                lawful::<T, A>(),
                skip + n == self.local_actions.len(),
                chain == views(self.local_actions@).skip(skip as int),
                i <= n,
                n == chain.len(),
                rebuilt@.len() == i,
                refold(*base, chain.take(i as int)) == Ok::<T, String>(current),
                forall|k: int| 0 <= k < chain.len() ==> (#[trigger] chain[k]).action is Patch,
                forall|k: int|
                    0 <= k < i ==> (#[trigger] rebuilt@[k])@ == restamp(chain, *base, now)[k],
            decreases n - i,
        {
            let action_object = &self.local_actions[skip + i];
            assert(action_object@ == chain[i as int]);
            assert(chain.take(i + 1).drop_last() =~= chain.take(i as int));
            assert(chain.take(i + 1).last() == chain[i as int]);
            match &action_object.action {
                ActionKind::Patch(action) => {
                    match apply(action, &current, action_object.dtime, action_object.uid.as_str()) {
                        Ok(patched) => {
                            let mut copy = action_object.copy();
                            copy.object_signature = ActionObject::<T, A>::compute_object_signature(
                                &patched,
                            );
                            copy.dtime = now;
                            rebuilt.push(copy);
                            current = patched;
                        },
                        Err(message) => {
                            proof {
                                lemma_refold_refusal(*base, chain, i + 1);
                            }
                            return Err(SyncError::PatchFailed(message));
                        },
                    }
                },
                ActionKind::Create(_) => {
                    assert(chain[i as int].action is Patch);
                    assert(false);
                },
            }
            i += 1;
        }
        assert(chain.take(i as int) =~= chain);
        assert(views(rebuilt@) =~= restamp(chain, *base, now));
        Ok((rebuilt, current))
    }

    /// Replays the local chain over the remote object at time `now`, as is
    /// due whenever the remote side has advanced: the local object is made
    /// anew, and each local action gets the signature of the object that it
    /// now makes and the new time stamp. A purely local object has nothing
    /// to replay over and is refused. Where a local action no longer
    /// applies, its message is handed on and the object is left as it is.
    #[verifier::rlimit(40)]
    pub fn rebuild_local_objects_at(&mut self, now: Timestamp) -> (r: Result<(), SyncError>)
        requires
            lawful::<T, A>(),
            old(self)@.wf(),
        ensures
            final(self)@.wf(),
            match r {
                Ok(_) => old(self)@.rebuild_error() is None && final(self)@ == old(self)@.rebuilt(
                    now,
                ),
                Err(e) => old(self)@.rebuild_error() == Some(e) && final(self)@ == old(self)@,
            },
    {
        proof {
            reveal(ObjectState::wf);
        }
        proof {
            assert(self@.local_actions.skip(0) =~= self@.local_actions);
            if self@.remote_object is Some {
                assert(chain_shape(local_root(self@.local_actions), self@.local_actions, false));
                assert forall|i: int| 0 <= i < self@.local_actions.len() implies (
                #[trigger] self@.local_actions[i]).action is Patch by {}
            }
        }
        let (actions, object) = match &self.remote_object {
            None => {
                return Err(SyncError::WrongSide);
            },
            Some(base) => match self.replayed(base, 0, now) {
                Ok(pair) => pair,
                Err(e) => {
                    return Err(e);
                },
            },
        };
        proof {
            lemma_restamp_wf(
                local_root(self@.local_actions),
                self@.local_actions,
                self@.remote_object->0,
                now,
                object,
            );
        }
        self.local_actions = actions;
        self.local_object = object;
        Ok(())
    }

    /// Replays the local chain over the remote object, stamped with the
    /// current time.
    pub fn rebuild_local_objects(&mut self) -> (r: Result<(), SyncError>)
        requires
            lawful::<T, A>(),
            old(self)@.wf(),
        ensures
            final(self)@.wf(),
            match r {
                Ok(_) => old(self)@.rebuild_error() is None && exists|now: Timestamp|
                    final(self)@ == old(self)@.rebuilt(now),
                Err(e) => old(self)@.rebuild_error() == Some(e) && final(self)@ == old(self)@,
            },
    {
        let t = now();
        self.rebuild_local_objects_at(t)
    }

    /// Checks a remote patch and gives the remote object that it makes, the
    /// replayed local chain and the local object that the chain leaves.
    fn check_remote(&self, aob: &ActionObject<T, A>, now: Timestamp) -> (r: Result<
        (T, Vec<ActionObject<T, A>>, T),
        SyncError,
    >)
        requires
            lawful::<T, A>(),
            self@.wf(),
        ensures
            match r {
                Ok((remote, actions, local)) => self@.remote_patch_error(aob@) is None && Some(
                    remote,
                ) == self@.remote_patched(aob@, now).remote_object && views(actions@)
                    == self@.remote_patched(aob@, now).local_actions && local
                    == self@.remote_patched(aob@, now).local_object,
                Err(e) => self@.remote_patch_error(aob@) == Some(e),
            },
    {
        proof {
            reveal(ObjectState::wf);
        }
        if !aob.is_remote() {
            return Err(SyncError::MissingRemoteSignature);
        }
        if aob.parent_action_id != self.last_remote_id() {
            return Err(SyncError::ParentMismatch);
        }
        let patched = match &self.remote_object {
            None => {
                return Err(SyncError::WrongSide);
            },
            Some(remote_object) => match &aob.action {
                ActionKind::Patch(action) => match apply(
                    action,
                    remote_object,
                    aob.dtime,
                    aob.uid.as_str(),
                ) {
                    Ok(patched) => patched,
                    Err(message) => {
                        return Err(SyncError::PatchFailed(message));
                    },
                },
                ActionKind::Create(_) => {
                    return Err(SyncError::WrongKind);
                },
            },
        };
        if !aob.signs_object(&patched) {
            return Err(SyncError::SignatureMismatch);
        }
        if !aob.has_valid_remote_signature() {
            return Err(SyncError::SignatureMismatch);
        }
        let skip: usize = if self.local_actions.len() > 0 && self.local_actions[0].id == aob.id {
            1
        } else {
            0
        };
        match self.replayed(&patched, skip, now) {
            Ok((actions, local)) => Ok((patched, actions, local)),
            Err(e) => Err(e),
        }
    }

    /// Adds a signed patch at the end of the remote chain and replays the
    /// local chain over the advanced remote object at time `now`. The patch
    /// must name the last remote action as its parent, apply to the remote
    /// object, and carry the signature of the object it makes and a valid
    /// remote signature. Where the local chain opens with the action of the
    /// same identifier, that local action is the one that the server signed:
    /// it leaves the local chain. A refused patch leaves the object as it
    /// is.
    #[verifier::rlimit(40)]
    pub fn take_remote_at(
        &mut self,
        action_object: ActionObject<T, A>,
        now: Timestamp,
    ) -> (r: Result<(), SyncError>)
        requires
            lawful::<T, A>(),
            old(self)@.wf(),
        ensures
            final(self)@.wf(),
            match r {
                Ok(_) => old(self)@.remote_patch_error(action_object@) is None && final(self)@
                    == old(self)@.remote_patched(action_object@, now),
                Err(e) => old(self)@.remote_patch_error(action_object@) == Some(e) && final(self)@
                    == old(self)@,
            },
    {
        proof {
            reveal(ObjectState::wf);
        }
        let (patched, actions, object) = match self.check_remote(&action_object, now) {
            Ok(triple) => triple,
            Err(e) => {
                return Err(e);
            },
        };
        proof {
            lemma_views_push(self.remote_actions@, action_object);
            lemma_rooted_push(
                self@.remote_actions,
                true,
                self@.remote_object->0,
                action_object@,
                patched,
            );
            assert(chain_shape(local_root(self@.local_actions), self@.local_actions, false));
            lemma_shape_skip(
                local_root(self@.local_actions),
                self@.local_actions,
                false,
                self@.acknowledged(action_object@),
            );
            lemma_restamp_wf(
                local_root(self@.rest_after(action_object@)),
                self@.rest_after(action_object@),
                patched,
                now,
                object,
            );
        }
        self.remote_object = Some(patched);
        self.remote_actions.push(action_object);
        self.local_actions = actions;
        self.local_object = object;
        Ok(())
    }

    /// Checks a signed create for this object and gives the object that it
    /// makes, the replayed local patches and the local object that they
    /// leave.
    fn check_promote(&self, aob: &ActionObject<T, A>, now: Timestamp) -> (r: Result<
        (T, Vec<ActionObject<T, A>>, T),
        SyncError,
    >)
        requires
            lawful::<T, A>(),
            self@.wf(),
        ensures
            match r {
                Ok((remote, actions, local)) => self@.promote_error(aob@) is None && remote
                    == aob@.action->Create_0 && views(actions@) == self@.promoted(
                    aob@,
                    now,
                ).local_actions && local == self@.promoted(aob@, now).local_object,
                Err(e) => self@.promote_error(aob@) == Some(e),
            },
    {
        proof {
            reveal(ObjectState::wf);
        }
        let data = match Self::check_create(aob) {
            Ok(data) => data,
            Err(e) => {
                return Err(e);
            },
        };
        if aob.is_local() || self.remote_object.is_some() || self.local_actions.len() == 0 {
            return Err(SyncError::WrongKind);
        }
        if self.local_actions[0].id != aob.id || self.local_actions[0].object_signature
            != aob.object_signature {
            return Err(SyncError::WrongKind);
        }
        proof {
            let local = self@.local_actions;
            let rest = local.subrange(1, local.len() as int);
            assert(local.skip(1) =~= rest);
            assert forall|i: int| 1 <= i < local.len() implies (#[trigger] local[i]).action
                is Patch by {
                assert(rest[i - 1] == local[i]);
                assert(rest[i - 1].action is Patch);
            }
        }
        match self.replayed(&data, 1, now) {
            Ok((actions, local)) => Ok((data, actions, local)),
            Err(e) => Err(e),
        }
    }

    /// Takes in the create of this purely local object as the server signed
    /// it, at time `now`: the signed create opens the remote chain, the
    /// local create leaves the local chain, and the local patches are
    /// replayed over the object that the signed create makes. The create
    /// must be well formed, and the local chain must open with the create of
    /// the same identifier and object signature. A refused create leaves the
    /// object as it is.
    pub fn promote_at(&mut self, action_object: ActionObject<T, A>, now: Timestamp) -> (r: Result<
        (),
        SyncError,
    >)
        requires
            lawful::<T, A>(),
            old(self)@.wf(),
        ensures
            final(self)@.wf(),
            match r {
                Ok(_) => old(self)@.promote_error(action_object@) is None && final(self)@
                    == old(self)@.promoted(action_object@, now),
                Err(e) => old(self)@.promote_error(action_object@) == Some(e) && final(self)@
                    == old(self)@,
            },
    {
        proof {
            reveal(ObjectState::wf);
        }
        let (data, actions, object) = match self.check_promote(&action_object, now) {
            Ok(triple) => triple,
            Err(e) => {
                return Err(e);
            },
        };
        proof {
            let local = self@.local_actions;
            let rest = local.subrange(1, local.len() as int);
            assert(local.skip(1) =~= rest);
            lemma_rooted_single(action_object@, true);
            lemma_shape_skip(Some(local[0].id), rest, false, 0);
            assert(rest.skip(0) =~= rest);
            lemma_restamp_wf(local_root(rest), rest, data, now, object);
        }
        let mut remote_actions = Vec::new();
        remote_actions.push(action_object);
        assert(views(remote_actions@) =~= seq![action_object@]);
        self.remote_object = Some(data);
        self.remote_actions = remote_actions;
        self.local_actions = actions;
        self.local_object = object;
        Ok(())
    }

    /// Whether a patch would be accepted on the side it belongs to, without
    /// adding it.
    pub fn check_action_object(&self, action_object: &ActionObject<T, A>) -> (r: Result<
        (),
        SyncError,
    >)
        requires
            lawful::<T, A>(),
            self@.wf(),
        ensures
            match r {
                Ok(_) => self@.patch_error(action_object@) is None,
                Err(e) => self@.patch_error(action_object@) == Some(e),
            },
    {
        if action_object.is_local() {
            match self.check_local(action_object) {
                Ok(_) => Ok(()),
                Err(e) => Err(e),
            }
        } else {
            match self.check_remote(action_object, action_object.dtime) {
                Ok(_) => Ok(()),
                Err(e) => Err(e),
            }
        }
    }

    /// Adds a patch on the side it belongs to: an unsigned one at the end of
    /// the local chain, a signed one at the end of the remote chain, with the
    /// local chain replayed at time `now`.
    pub fn take_at(&mut self, action_object: ActionObject<T, A>, now: Timestamp) -> (r:
        Result<(), SyncError>)
        requires
            lawful::<T, A>(),
            old(self)@.wf(),
        ensures
            final(self)@.wf(),
            match r {
                Ok(_) => old(self)@.patch_error(action_object@) is None
                    && final(self)@ == old(self)@.patched(action_object@, now),
                Err(e) => old(self)@.patch_error(action_object@) == Some(e)
                    && final(self)@ == old(self)@,
            },
    {
        if action_object.is_local() {
            self.take_local(action_object)
        } else {
            self.take_remote_at(action_object, now)
        }
    }

    /// Adds an unsigned patch at the end of the local chain, as `take_local`
    /// does, and hands back a copy of the object as it is after it.
    pub fn add_local_action_object(&mut self, action_object: ActionObject<T, A>) -> (r: Result<
        Self,
        SyncError,
    >)
        requires
            lawful::<T, A>(),
            old(self)@.wf(),
        ensures
            final(self)@.wf(),
            match r {
                Ok(object) => old(self)@.local_patch_error(action_object@) is None && final(self)@
                    == old(self)@.local_patched(action_object@) && object@ == final(self)@,
                Err(e) => old(self)@.local_patch_error(action_object@) == Some(e) && final(self)@
                    == old(self)@,
            },
    {
        match self.take_local(action_object) {
            Ok(_) => Ok(self.copy()),
            Err(e) => Err(e),
        }
    }

    /// Adds a signed patch at the end of the remote chain at time `now`, as
    /// `take_remote_at` does, and hands back a copy of the object as it is
    /// after it.
    pub fn add_remote_action_object_at(
        &mut self,
        action_object: ActionObject<T, A>,
        now: Timestamp,
    ) -> (r: Result<Self, SyncError>)
        requires
            lawful::<T, A>(),
            old(self)@.wf(),
        ensures
            final(self)@.wf(),
            match r {
                Ok(object) => old(self)@.remote_patch_error(action_object@) is None && final(self)@ == old(self)@.remote_patched(action_object@, now) && object@ == final(self)@,
                Err(e) => old(self)@.remote_patch_error(action_object@) == Some(e) && final(self)@
                    == old(self)@,
            },
    {
        match self.take_remote_at(action_object, now) {
            Ok(_) => Ok(self.copy()),
            Err(e) => Err(e),
        }
    }

    /// Adds a signed patch at the end of the remote chain and replays the
    /// local chain, stamped with the current time; hands back a copy of the
    /// object as it is after it.
    pub fn add_remote_action_object(&mut self, action_object: ActionObject<T, A>) -> (r: Result<
        Self,
        SyncError,
    >)
        requires
            lawful::<T, A>(),
            old(self)@.wf(),
        ensures
            final(self)@.wf(),
            exists|now: Timestamp| #[trigger]
                old(self)@.remote_outcome(action_object@, now, object_view(r), final(self)@),
    {
        let t = now();
        let r = self.add_remote_action_object_at(action_object, t);
        assert(old(self)@.remote_outcome(action_object@, t, object_view(r), self@));
        r
    }

    /// Adds a patch on the side it belongs to, at time `now`, as `take_at`
    /// does, and hands back a copy of the object as it is after it.
    pub fn add_action_object_at(&mut self, action_object: ActionObject<T, A>, now: Timestamp) -> (r:
        Result<Self, SyncError>)
        requires
            lawful::<T, A>(),
            old(self)@.wf(),
        ensures
            final(self)@.wf(),
            old(self)@.patch_outcome(action_object@, now, object_view(r), final(self)@),
    {
        match self.take_at(action_object, now) {
            Ok(_) => Ok(self.copy()),
            Err(e) => Err(e),
        }
    }

    /// Adds a patch on the side it belongs to; a replayed local chain is
    /// stamped with the current time. Hands back a copy of the object as it
    /// is after it.
    pub fn add_action_object(&mut self, action_object: ActionObject<T, A>) -> (r: Result<
        Self,
        SyncError,
    >)
        requires
            lawful::<T, A>(),
            old(self)@.wf(),
        ensures
            final(self)@.wf(),
            exists|now: Timestamp| #[trigger]
                old(self)@.patch_outcome(action_object@, now, object_view(r), final(self)@),
    {
        let t = now();
        let r = self.add_action_object_at(action_object, t);
        assert(old(self)@.patch_outcome(action_object@, t, object_view(r), self@));
        r
    }

    /// Drops every local action and takes the remote object for the local
    /// one. A purely local object has no remote object to go back to: it is
    /// refused and left as it is.
    pub fn clear_local_changes(&mut self) -> (r: Result<(), SyncError>)
        requires
            lawful::<T, A>(),
            old(self)@.wf(),
        ensures
            final(self)@.wf(),
            match old(self)@.remote_object {
                None => r == Err::<(), SyncError>(SyncError::WrongSide)
                    && final(self)@ == old(self)@,
                Some(_) => r is Ok && final(self)@ == old(self)@.cleared(),
            },
    {
        proof {
            reveal(ObjectState::wf);
        }
        let copy = match &self.remote_object {
            None => {
                return Err(SyncError::WrongSide);
            },
            Some(remote_object) => duplicate(remote_object),
        };
        proof {
            lemma_patches_empty::<T, A>(copy, None, false);
        }
        self.local_actions = Vec::new();
        self.local_object = copy;
        assert(views(self.local_actions@) =~= Seq::<ActionView<T, A>>::empty());
        Ok(())
    }

    /// Makes the unsigned action object that carries an action of the given
    /// author against this object, for a commit: it names the last local
    /// action as its parent, and none where there is no local action, and
    /// carries the signature of the object that the action makes of the
    /// local object. A patch that does not apply gives its message.
    pub fn create_action_object(
        &self,
        uid: &str,
        commit_id: u128,
        action: ActionKind<T, A>,
        id: u128,
        dtime: Timestamp,
    ) -> (r: Result<ActionObject<T, A>, SyncError>)
        requires
            lawful::<T, A>(),
        ensures
            match r {
                Ok(made) => made@ == self@.makes(uid@, commit_id, action, id, dtime) && (
                action matches ActionKind::Patch(p) ==> patched_by(p, self@.local_object, uid@)
                    is Ok),
                Err(e) => action matches ActionKind::Patch(p) && patched_by(
                    p,
                    self@.local_object,
                    uid@,
                ) is Err && e == SyncError::PatchFailed(
                    patched_by(p, self@.local_object, uid@)->Err_0,
                ),
            },
    {
        let object_signature = match &action {
            ActionKind::Create(t) => ActionObject::<T, A>::compute_object_signature(t),
            ActionKind::Patch(p) => match apply(p, &self.local_object, dtime, uid) {
                Ok(patched) => ActionObject::<T, A>::compute_object_signature(&patched),
                Err(message) => {
                    return Err(SyncError::PatchFailed(message));
                },
            },
        };
        Ok(
            ActionObject {
                id,
                storage_id: self.storage_id.clone(),
                object_id: self.id,
                uid: uid.to_owned(),
                dtime,
                commit_id: Some(commit_id),
                parent_action_id: self.last_local_id(),
                action,
                object_signature,
                remote_signature: None,
            },
        )
    }

    /// Makes the action object for a patch against this object, with the
    /// given identifier and time, and puts it at the end of the open commit.
    /// A patch that does not apply gives its message and leaves the commit
    /// as it is.
    pub fn patch_with(&self, action: A, commit: &mut CommitContextGuard, id: u128, dtime: Timestamp) -> (r:
        Result<(), SyncError>)
        requires
            lawful::<T, A>(),
        ensures
            match patched_by(action, self@.local_object, old(commit)@.uid) {
                Ok(_) => r is Ok && final(commit)@ == old(commit)@.with_action(
                    self@.makes(
                        old(commit)@.uid,
                        old(commit)@.commit.id,
                        ActionKind::Patch(action),
                        id,
                        dtime,
                    ).envelope(),
                ),
                Err(message) => r == Err::<(), SyncError>(SyncError::PatchFailed(message))
                    && final(commit)@ == old(commit)@,
            },
    {
        let made = self.create_action_object(
            commit.uid(),
            commit.commit_id(),
            ActionKind::Patch(action),
            id,
            dtime,
        );
        match made {
            Ok(aob) => {
                commit.add_action_object(aob);
                Ok(())
            },
            Err(e) => Err(e),
        }
    }

    /// Makes the action object for a patch against this object, with a new
    /// identifier and the current time, and puts it at the end of the open
    /// commit. A patch that does not apply gives its message and leaves the
    /// commit as it is.
    pub fn patch(&self, action: A, commit: &mut CommitContextGuard) -> (r: Result<(), SyncError>)
        requires
            lawful::<T, A>(),
        ensures
            match patched_by(action, self@.local_object, old(commit)@.uid) {
                Ok(_) => r is Ok && exists|id: u128, dtime: Timestamp|
                    final(commit)@ == old(commit)@.with_action(
                        self@.makes(
                            old(commit)@.uid,
                            old(commit)@.commit.id,
                            ActionKind::Patch(action),
                            id,
                            dtime,
                        ).envelope(),
                    ),
                Err(message) => r == Err::<(), SyncError>(SyncError::PatchFailed(message))
                    && final(commit)@ == old(commit)@,
            },
    {
        let id = fresh_id();
        let dtime = now();
        self.patch_with(action, commit, id, dtime)
    }

    /// An action object of a local commit as it is pushed: where the local
    /// chain holds the action of the same identifier, that action as the
    /// chain holds it now, the first of the chain naming the last remote
    /// action as its parent; else the action object as it is.
    pub fn rebased(&self, aob: &crate::sync::action::UniversalActionObject) -> (r:
        crate::sync::action::UniversalActionObject)
        requires
            lawful::<T, A>(),
        ensures
            r@ == self@.rebased(aob@),
    {
        let mut j: usize = 0;
        while j < self.local_actions.len()
            invariant
                lawful::<T, A>(),
                j <= self.local_actions.len(),
                forall|k: int| 0 <= k < j ==> (#[trigger] self@.local_actions[k]).id != aob@.id,
            decreases self.local_actions.len() - j,
        {
            assert(self@.local_actions[j as int] == self.local_actions@[j as int]@);
            if self.local_actions[j].id == aob.id {
                proof {
                    lemma_place(self@.local_actions, aob@.id, j as int);
                }
                let mut copy = self.local_actions[j].copy();
                if j == 0 {
                    copy.parent_action_id = self.last_remote_id();
                }
                return copy.to_universal();
            }
            j += 1;
        }
        proof {
            lemma_place(self@.local_actions, aob@.id, j as int);
        }
        aob.copy()
    }

    /// An equal copy of the object.
    pub fn copy(&self) -> (copy: Self)
        requires
            lawful::<T, A>(),
        ensures
            copy@ == self@,
    {
        let remote_object = match &self.remote_object {
            Some(o) => Some(duplicate(o)),
            None => None,
        };
        StorageObject {
            id: self.id,
            storage_id: self.storage_id.clone(),
            remote_actions: Self::copy_actions(&self.remote_actions),
            local_actions: Self::copy_actions(&self.local_actions),
            remote_object,
            local_object: duplicate(&self.local_object),
        }
    }

    fn copy_actions(actions: &Vec<ActionObject<T, A>>) -> (copy: Vec<ActionObject<T, A>>)
        requires
            lawful::<T, A>(),
        ensures
            copy@ == actions@,
    {
        let mut copy: Vec<ActionObject<T, A>> = Vec::new();
        let mut i: usize = 0;
        while i < actions.len()
            invariant
                lawful::<T, A>(),
                i <= actions.len(),
                copy@ == actions@.take(i as int),
            decreases actions.len() - i,
        {
            copy.push(actions[i].copy());
            assert(actions@.take(i + 1) =~= actions@.take(i as int).push(actions@[i as int]));
            i += 1;
        }
        assert(actions@.take(i as int) =~= actions@);
        copy
    }
}

/// The signature of the latest object is the object signature of the last
/// action: of the last local action where there is one, else of the last
/// remote action.
pub proof fn lemma_last_signature<T: ObjectExt, A: ActionExt<ObjectType = T>>(s: ObjectState<T, A>)
    requires
        s.wf(),
    ensures
        s.local_actions.len() > 0 ==> s.local_actions.last().object_signature == signature_of(
            canonical_of(s.local_object),
        ),
        s.local_actions.len() == 0 ==> s.remote_object == Some(s.local_object)
            && s.remote_actions.len() > 0,
        s.remote_object is Some ==> s.remote_actions.last().object_signature == signature_of(
            canonical_of(s.remote_object->0),
        ),
{
    reveal(ObjectState::wf);
    match s.remote_object {
        None => {
            lemma_rooted_last_signature(s.local_actions, false, s.local_object);
        },
        Some(r) => {
            lemma_rooted_last_signature(s.remote_actions, true, r);
            lemma_patches_last_signature(
                r,
                local_root(s.local_actions),
                s.local_actions,
                false,
                s.local_object,
            );
        },
    }
}

/// The last patch of a chain carries the signature of the object that the
/// chain leaves; a chain without patches leaves the object it started from.
pub proof fn lemma_patches_last_signature<T: ObjectExt, A: ActionExt<ObjectType = T>>(
    start: T,
    root: Option<u128>,
    patches: Seq<ActionView<T, A>>,
    remote: bool,
    end: T,
)
    requires
        patches_wf(start, root, patches, remote, end),
    ensures
        patches.len() > 0 ==> patches.last().object_signature == signature_of(canonical_of(end)),
        patches.len() == 0 ==> end == start,
{
    if patches.len() > 0 {
        let i = patches.len() - 1;
        assert(patches.take(i + 1) =~= patches);
        assert(refold(start, patches.take(i + 1)) is Ok);
    }
}

/// The last action of a chain that opens with a create carries the signature
/// of the object that the chain leaves.
pub proof fn lemma_rooted_last_signature<T: ObjectExt, A: ActionExt<ObjectType = T>>(
    actions: Seq<ActionView<T, A>>,
    remote: bool,
    end: T,
)
    requires
        rooted_wf(actions, remote, end),
    ensures
        actions.last().object_signature == signature_of(canonical_of(end)),
{
    let rest = actions.subrange(1, actions.len() as int);
    lemma_patches_last_signature(
        actions[0].action->Create_0,
        Some(actions[0].id),
        rest,
        remote,
        end,
    );
    if rest.len() > 0 {
        assert(rest.last() == actions.last());
    }
}

/// In a chain that opens with a create, the create has no parent and every
/// other action is a patch that names the action before it; all are on the
/// side of the chain.
pub proof fn lemma_rooted_linked<T: ObjectExt, A: ActionExt<ObjectType = T>>(
    actions: Seq<ActionView<T, A>>,
    remote: bool,
    end: T,
    i: int,
)
    requires
        rooted_wf(actions, remote, end),
    ensures
        0 <= i < actions.len() ==> actions[i].parent_action_id == expected_parent(
            None,
            actions,
            i,
        ) && on_side(actions[i], remote) && (actions[i].action is Create <==> i == 0),
{
    if 1 <= i < actions.len() {
        let rest = actions.subrange(1, actions.len() as int);
        assert(rest[i - 1] == actions[i]);
        assert(rest[i - 1].parent_action_id == expected_parent(Some(actions[0].id), rest, i - 1));
        assert(rest[i - 1].action is Patch);
        assert(on_side(rest[i - 1], remote));
        if i >= 2 {
            assert(rest[i - 2] == actions[i - 1]);
        }
    }
}

/// In each chain of an object every action but the first names the action
/// before it as its parent. The first action of an object, its create, has
/// no parent.
pub proof fn lemma_chains_linked<T: ObjectExt, A: ActionExt<ObjectType = T>>(
    s: ObjectState<T, A>,
    i: int,
)
    requires
        s.wf(),
    ensures
        0 <= i < s.remote_actions.len() ==> s.remote_actions[i].parent_action_id
            == expected_parent(None, s.remote_actions, i),
        0 < i < s.local_actions.len() ==> s.local_actions[i].parent_action_id == Some(
            s.local_actions[i - 1].id,
        ),
        s.remote_object is None ==> s.remote_actions.len() == 0 && s.local_actions.len() > 0
            && s.local_actions[0].parent_action_id is None && s.local_actions[0].action is Create,
        s.remote_object is Some ==> s.remote_actions.len() > 0
            && s.remote_actions[0].action is Create,
{
    reveal(ObjectState::wf);
    match s.remote_object {
        None => {
            lemma_rooted_linked(s.local_actions, false, s.local_object, i);
            lemma_rooted_linked(s.local_actions, false, s.local_object, 0);
        },
        Some(r) => {
            lemma_rooted_linked(s.remote_actions, true, r, i);
            lemma_rooted_linked(s.remote_actions, true, r, 0);
            if 0 < i < s.local_actions.len() {
                assert(s.local_actions[i].parent_action_id == expected_parent(
                    local_root(s.local_actions),
                    s.local_actions,
                    i,
                ));
            }
        },
    }
}

/// Every action of the remote chain carries a valid remote signature, and
/// no action of the local chain carries a remote signature.
pub proof fn lemma_sides<T: ObjectExt, A: ActionExt<ObjectType = T>>(s: ObjectState<T, A>, i: int)
    requires
        s.wf(),
    ensures
        0 <= i < s.remote_actions.len() ==> s.remote_actions[i].envelope().remote_signature_valid(),
        0 <= i < s.local_actions.len() ==> s.local_actions[i].remote_signature is None,
{
    reveal(ObjectState::wf);
    match s.remote_object {
        None => {
            lemma_rooted_linked(s.local_actions, false, s.local_object, i);
        },
        Some(r) => {
            lemma_rooted_linked(s.remote_actions, true, r, i);
            if 0 <= i < s.local_actions.len() {
                assert(on_side(s.local_actions[i], false));
            }
        },
    }
}

/// A patch that `create_action_object` made against an object is accepted
/// at the end of that object's local chain.
pub proof fn lemma_made_patch_is_accepted<T: ObjectExt, A: ActionExt<ObjectType = T>>(
    s: ObjectState<T, A>,
    uid: Seq<char>,
    commit_id: u128,
    patch: A,
    id: u128,
    dtime: Timestamp,
)
    requires
        patched_by(patch, s.local_object, uid) is Ok,
    ensures
        s.local_patch_error(s.makes(uid, commit_id, ActionKind::Patch(patch), id, dtime)) is None,
{
}

/// A chain that the server signed action by action leaves the object that
/// the unsigned chain of the same actions left for its author.
pub proof fn lemma_signed_chain_same_object<T: ObjectExt, A: ActionExt<ObjectType = T>>(
    local: Seq<ActionView<T, A>>,
    local_end: T,
    remote: Seq<ActionView<T, A>>,
    remote_end: T,
)
    requires
        rooted_wf(local, false, local_end),
        rooted_wf(remote, true, remote_end),
        remote.len() == local.len(),
        forall|i: int|
            0 <= i < local.len() ==> (#[trigger] remote[i]).action == local[i].action
                && remote[i].uid
                == local[i].uid,
    ensures
        remote_end == local_end,
{
    let l = local.subrange(1, local.len() as int);
    let r = remote.subrange(1, remote.len() as int);
    assert(remote[0].action == local[0].action);
    assert forall|i: int| 0 <= i < l.len() implies (#[trigger] r[i]).action == l[i].action
        && r[i].uid == l[i].uid by {
        assert(r[i] == remote[i + 1]);
        assert(l[i] == local[i + 1]);
    }
    lemma_refold_same(local[0].action->Create_0, l, r);
}

} // verus!
