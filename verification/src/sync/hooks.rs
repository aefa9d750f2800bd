use crate::sync::action::{lawful, ActionExt, Envelope, ObjectExt, UniversalActionObject};
use crate::sync::error::SyncError;
use crate::sync::stamp::Timestamp;
use crate::sync::store::{CallbackMode, Storage, StorageState};
use vstd::prelude::*;

verus! {

/// What a repository hands the action objects of its commits to: storages,
/// of one pair of types or of several. A list of storages of one pair of
/// types is such a thing, and so is a pair of such things; with pairs a
/// repository holds storages of as many types as it needs.
pub trait StorageHooks: Sized {
    /// The mathematical content of the storages.
    type State;

    /// The content of these storages.
    spec fn state(&self) -> Self::State;

    /// What is asked of the application's types that the storages hold.
    spec fn types_lawful() -> bool;

    /// The invariant of the storages.
    spec fn hooks_wf(s: Self::State) -> bool;

    /// Whether a storage of that name is among the storages.
    spec fn names(s: Self::State, name: Seq<char>) -> bool;

    /// What the storages answer to an action object: nothing where no
    /// storage takes it for its own; else whether the first storage that
    /// does accepts it, and if not, why.
    spec fn answer(s: Self::State, e: Envelope) -> Option<Option<SyncError>>;

    /// The storages after an action object that they accept.
    spec fn accepted(s: Self::State, e: Envelope, now: Timestamp) -> Self::State;

    /// An action object of a local commit as it is pushed: as the storage
    /// that it names holds it now, or as it is where no storage has that
    /// name.
    spec fn rebased(s: Self::State, e: Envelope) -> Envelope;

    /// Hands an action object to the storages, at time `now`. A refusal
    /// leaves the storages as they are.
    fn accept(&mut self, aob: &UniversalActionObject, now: Timestamp) -> (r: Option<
        Result<(), SyncError>,
    >)
        requires
            Self::types_lawful(),
            Self::hooks_wf(old(self).state()),
        ensures
            Self::hooks_wf(final(self).state()),
            forall|name: Seq<char>| #[trigger]
                Self::names(final(self).state(), name) == Self::names(old(self).state(), name),
            match r {
                None => Self::answer(old(self).state(), aob@) is None && final(self).state()
                    == old(self).state(),
                Some(Ok(_)) => Self::answer(old(self).state(), aob@) == Some(None::<SyncError>)
                    && final(self).state() == Self::accepted(old(self).state(), aob@, now),
                Some(Err(e)) => Self::answer(old(self).state(), aob@) == Some(Some(e))
                    && final(self).state() == old(self).state(),
            },
    ;

    /// An equal copy of the storages.
    fn copy(&self) -> (copy: Self)
        requires
            Self::types_lawful(),
        ensures
            copy.state() == self.state(),
    ;

    /// Whether a storage of that name is among the storages.
    fn holds(&self, name: &str) -> (b: bool)
        ensures
            b == Self::names(self.state(), name@),
    ;

    /// An action object of a local commit as it is pushed.
    fn rebase(&self, aob: &UniversalActionObject) -> (r: UniversalActionObject)
        requires
            Self::types_lawful(),
        ensures
            r@ == Self::rebased(self.state(), aob@),
    ;
}

/// The storages after the action objects of a commit were handed to them in
/// order, or the first refusal.
pub open spec fn applied<H: StorageHooks>(
    s: H::State,
    actions: Seq<Envelope>,
    now: Timestamp,
) -> Result<H::State, SyncError>
    decreases actions.len(),
{
    if actions.len() == 0 {
        Ok(s)
    } else {
        match applied::<H>(s, actions.drop_last(), now) {
            Err(e) => Err(e),
            Ok(before) => match H::answer(before, actions.last()) {
                Some(Some(e)) => Err(e),
                Some(None) => Ok(H::accepted(before, actions.last(), now)),
                None => Ok(before),
            },
        }
    }
}

/// Once an action object of a commit is refused, the commit is refused with
/// that refusal.
pub proof fn lemma_applied_refusal<H: StorageHooks>(
    s: H::State,
    actions: Seq<Envelope>,
    now: Timestamp,
    k: int,
)
    requires
        0 <= k <= actions.len(),
        applied::<H>(s, actions.take(k), now) is Err,
    ensures
        applied::<H>(s, actions, now) == applied::<H>(s, actions.take(k), now),
    decreases actions.len() - k,
{
    if k < actions.len() {
        assert(actions.take(k + 1).drop_last() =~= actions.take(k));
        lemma_applied_refusal::<H>(s, actions, now, k + 1);
    } else {
        assert(actions.take(k) =~= actions);
    }
}

/// The contents of a sequence of storages.
pub open spec fn storage_views<T, A>(storages: Seq<Storage<T, A>>) -> Seq<StorageState<T, A>> {
    storages.map_values(|s: Storage<T, A>| s@)
}

/// The position of the first storage that answers an action object, or the
/// number of storages where none answers.
pub open spec fn answering<T: ObjectExt, A: ActionExt<ObjectType = T>>(
    storages: Seq<StorageState<T, A>>,
    e: Envelope,
) -> int
    decreases storages.len(),
{
    if storages.len() == 0 {
        0
    } else if storages.first().answer(e) is Some {
        0
    } else {
        1 + answering(storages.drop_first(), e)
    }
}

/// Where the first storage that answers stands.
pub proof fn lemma_answering<T: ObjectExt, A: ActionExt<ObjectType = T>>(
    storages: Seq<StorageState<T, A>>,
    e: Envelope,
    i: int,
)
    requires
        0 <= i <= storages.len(),
        forall|k: int| 0 <= k < i ==> (#[trigger] storages[k]).answer(e) is None,
        i < storages.len() ==> storages[i].answer(e) is Some,
    ensures
        answering(storages, e) == i,
    decreases storages.len(),
{
    if storages.len() > 0 && i > 0 {
        let rest = storages.drop_first();
        assert(storages[0].answer(e) is None);
        assert forall|k: int| 0 <= k < i - 1 implies (#[trigger] rest[k]).answer(e) is None by {
            assert(rest[k] == storages[k + 1]);
        }
        if i < storages.len() {
            assert(rest[i - 1] == storages[i]);
        }
        lemma_answering(rest, e, i - 1);
    }
}

/// The position of the first storage of a name, or the number of storages
/// where none has it.
pub open spec fn holder<T, A>(storages: Seq<StorageState<T, A>>, id: Seq<char>) -> int
    decreases storages.len(),
{
    if storages.len() == 0 {
        0
    } else if storages.first().id == id {
        0
    } else {
        1 + holder(storages.drop_first(), id)
    }
}

/// Where the first storage of a name stands.
pub proof fn lemma_holder<T, A>(storages: Seq<StorageState<T, A>>, id: Seq<char>, i: int)
    requires
        0 <= i <= storages.len(),
        forall|k: int| 0 <= k < i ==> (#[trigger] storages[k]).id != id,
        i < storages.len() ==> storages[i].id == id,
    ensures
        holder(storages, id) == i,
    decreases storages.len(),
{
    if storages.len() > 0 && i > 0 {
        let rest = storages.drop_first();
        assert(storages[0].id != id);
        assert forall|k: int| 0 <= k < i - 1 implies (#[trigger] rest[k]).id != id by {
            assert(rest[k] == storages[k + 1]);
        }
        if i < storages.len() {
            assert(rest[i - 1] == storages[i]);
        }
        lemma_holder(rest, id, i - 1);
    }
}

/// Storages with the same names in the same order hold a name at the same
/// place.
pub proof fn lemma_holder_same<T, A>(
    a: Seq<StorageState<T, A>>,
    b: Seq<StorageState<T, A>>,
    id: Seq<char>,
)
    requires
        a.len() == b.len(),
        forall|i: int| 0 <= i < a.len() ==> a[i].id == (#[trigger] b[i]).id,
    ensures
        holder(a, id) == holder(b, id),
    decreases a.len(),
{
    if a.len() > 0 {
        assert(a[0].id == b[0].id);
        if a.first().id != id {
            assert forall|i: int| 0 <= i < a.drop_first().len() implies a.drop_first()[i].id == (
            #[trigger] b.drop_first()[i]).id by {
                assert(a[i + 1].id == b[i + 1].id);
            }
            lemma_holder_same(a.drop_first(), b.drop_first(), id);
        }
    }
}

/// An action object of a local commit as it is pushed: as the storage that
/// it names holds it now, or as it is where no storage has that name.
pub open spec fn rebased_action<T: ObjectExt, A: ActionExt<ObjectType = T>>(
    storages: Seq<StorageState<T, A>>,
    e: Envelope,
) -> Envelope {
    if holder(storages, e.storage_id) < storages.len() {
        storages[holder(storages, e.storage_id)].rebased(e)
    } else {
        e
    }
}

/// What handing an action object round the storages fails with: the refusal
/// of the first storage that answers, if it refuses.
pub open spec fn dispatch_error<T: ObjectExt, A: ActionExt<ObjectType = T>>(
    storages: Seq<StorageState<T, A>>,
    e: Envelope,
) -> Option<SyncError> {
    if answering(storages, e) < storages.len() {
        storages[answering(storages, e)].answer(e)->0
    } else {
        None
    }
}

/// The storages after an action object was handed round: the first storage
/// that answers has accepted it; where none answers, nothing has changed.
pub open spec fn dispatched<T: ObjectExt, A: ActionExt<ObjectType = T>>(
    storages: Seq<StorageState<T, A>>,
    e: Envelope,
    now: Timestamp,
) -> Seq<StorageState<T, A>> {
    if answering(storages, e) < storages.len() {
        storages.update(
            answering(storages, e),
            storages[answering(storages, e)].accepted(e, now),
        )
    } else {
        storages
    }
}

/// Storages that are well formed each, with names that differ.
pub open spec fn storages_wf<T: ObjectExt, A: ActionExt<ObjectType = T>>(
    storages: Seq<StorageState<T, A>>,
) -> bool {
    &&& forall|k: int| 0 <= k < storages.len() ==> (#[trigger] storages[k]).wf()
    &&& forall|i: int, j: int|
        0 <= i < storages.len() && 0 <= j < storages.len() && i != j ==> (
        #[trigger] storages[i]).id != (#[trigger] storages[j]).id
}

/// Storages stay well formed when one of them makes way for a well-formed
/// storage of the same name.
pub proof fn lemma_storages_update<T: ObjectExt, A: ActionExt<ObjectType = T>>(
    storages: Seq<StorageState<T, A>>,
    k: int,
    s: StorageState<T, A>,
)
    requires
        storages_wf(storages),
        0 <= k < storages.len(),
        s.wf(),
        s.id == storages[k].id,
    ensures
        storages_wf(storages.update(k, s)),
{
    let t = storages.update(k, s);
    assert forall|i: int| 0 <= i < t.len() implies (#[trigger] t[i]).wf() by {
        if i != k {
            assert(t[i] == storages[i]);
        }
    }
    assert forall|i: int, j: int| 0 <= i < t.len() && 0 <= j < t.len() && i != j implies (
    #[trigger] t[i]).id != (#[trigger] t[j]).id by {
        assert(t[i].id == storages[i].id);
        assert(t[j].id == storages[j].id);
    }
}

/// The position of the storage of a name in a list of storages.
pub fn find_by_name<T: ObjectExt, A: ActionExt<ObjectType = T>>(
    storages: &Vec<Storage<T, A>>,
    id: &str,
) -> (at: Option<usize>)
    ensures
        match at {
            Some(k) => k < storages@.len() && storages@[k as int]@.id == id@ && k == holder(
                storage_views(storages@),
                id@,
            ),
            None => holder(storage_views(storages@), id@) == storages@.len() && forall|k: int|
                0 <= k < storages@.len() ==> (#[trigger] storages@[k])@.id != id@,
        },
{
    let wanted = id.to_owned();
    let ghost views = storage_views(storages@);
    let mut k: usize = 0;
    while k < storages.len()
        invariant
            k <= storages.len(),
            wanted@ == id@,
            views == storage_views(storages@),
            forall|j: int| 0 <= j < k ==> (#[trigger] views[j]).id != id@,
        decreases storages.len() - k,
    {
        let name = storages[k].storage_id();
        assert(views[k as int] == storages@[k as int]@);
        if name == wanted {
            proof {
                lemma_holder(views, id@, k as int);
            }
            return Some(k);
        }
        k += 1;
    }
    proof {
        lemma_holder(views, id@, k as int);
        assert forall|j: int| 0 <= j < storages@.len() implies (#[trigger] storages@[j])@.id
            != id@ by {
            assert(views[j] == storages@[j]@);
        }
    }
    None
}

impl<T: ObjectExt, A: ActionExt<ObjectType = T>> StorageHooks for Vec<Storage<T, A>> {
    type State = Seq<StorageState<T, A>>;

    open spec fn state(&self) -> Seq<StorageState<T, A>> {
        storage_views(self@)
    }

    open spec fn types_lawful() -> bool {
        lawful::<T, A>()
    }

    open spec fn hooks_wf(s: Seq<StorageState<T, A>>) -> bool {
        storages_wf(s)
    }

    open spec fn names(s: Seq<StorageState<T, A>>, name: Seq<char>) -> bool {
        holder(s, name) < s.len()
    }

    open spec fn answer(s: Seq<StorageState<T, A>>, e: Envelope) -> Option<Option<SyncError>> {
        if answering(s, e) < s.len() {
            Some(dispatch_error(s, e))
        } else {
            None
        }
    }

    open spec fn accepted(s: Seq<StorageState<T, A>>, e: Envelope, now: Timestamp) -> Seq<
        StorageState<T, A>,
    > {
        dispatched(s, e, now)
    }

    open spec fn rebased(s: Seq<StorageState<T, A>>, e: Envelope) -> Envelope {
        rebased_action(s, e)
    }

    /// Hands an action object round the storages: the first that answers
    /// accepts it or refuses it.
    fn accept(&mut self, aob: &UniversalActionObject, now: Timestamp) -> (r: Option<
        Result<(), SyncError>,
    >) {
        let ghost before = storage_views(self@);
        let mut k: usize = 0;
        while k < self.len()
            invariant
                lawful::<T, A>(),
                k <= self.len(),
                storage_views(self@) == before,
                before == storage_views(old(self)@),
                storages_wf(before),
                forall|j: int| 0 <= j < k ==> (#[trigger] before[j]).answer(aob@) is None,
            decreases self.len() - k,
        {
            assert(before[k as int].wf());
            let mut storage = self.remove(k);
            assert(storage@ == before[k as int]);
            let answer = storage.accept_at(aob, CallbackMode::Apply, now);
            let ghost after = storage@;
            self.insert(k, storage);
            assert(storage_views(self@) =~= before.update(k as int, after));
            match answer {
                None => {
                    assert(before.update(k as int, after) =~= before);
                },
                Some(Ok(_)) => {
                    proof {
                        lemma_answering(before, aob@, k as int);
                        lemma_storages_update(before, k as int, after);
                        assert forall|name: Seq<char>| #[trigger]
                            Self::names(before.update(k as int, after), name) == Self::names(
                                before,
                                name,
                            ) by {
                            lemma_holder_same(before, before.update(k as int, after), name);
                        }
                    }
                    return Some(Ok(()));
                },
                Some(Err(e)) => {
                    proof {
                        lemma_answering(before, aob@, k as int);
                        assert(before.update(k as int, after) =~= before);
                    }
                    return Some(Err(e));
                },
            }
            k += 1;
        }
        proof {
            lemma_answering(before, aob@, k as int);
        }
        None
    }

    fn copy(&self) -> (copy: Self) {
        let mut copy: Vec<Storage<T, A>> = Vec::new();
        let mut k: usize = 0;
        while k < self.len()
            invariant
                lawful::<T, A>(),
                k <= self.len(),
                copy@.len() == k,
                forall|j: int| 0 <= j < k ==> (#[trigger] copy@[j])@ == self@[j]@,
            decreases self.len() - k,
        {
            copy.push(self[k].copy());
            k += 1;
        }
        assert(storage_views(copy@) =~= storage_views(self@));
        copy
    }

    fn holds(&self, name: &str) -> (b: bool) {
        find_by_name(self, name).is_some()
    }

    fn rebase(&self, aob: &UniversalActionObject) -> (r: UniversalActionObject) {
        match find_by_name(self, aob.storage_id.as_str()) {
            Some(k) => {
                assert(storage_views(self@)[k as int] == self@[k as int]@);
                self[k].rebased(aob)
            },
            None => aob.copy(),
        }
    }
}

impl<H1: StorageHooks, H2: StorageHooks> StorageHooks for (H1, H2) {
    type State = (H1::State, H2::State);

    open spec fn state(&self) -> (H1::State, H2::State) {
        (self.0.state(), self.1.state())
    }

    open spec fn types_lawful() -> bool {
        H1::types_lawful() && H2::types_lawful()
    }

    /// Both sides are well formed, and no name is on both sides.
    open spec fn hooks_wf(s: (H1::State, H2::State)) -> bool {
        &&& H1::hooks_wf(s.0)
        &&& H2::hooks_wf(s.1)
        &&& forall|name: Seq<char>| !(#[trigger] H1::names(s.0, name) && #[trigger] H2::names(s.1, name))
    }

    open spec fn names(s: (H1::State, H2::State), name: Seq<char>) -> bool {
        H1::names(s.0, name) || H2::names(s.1, name)
    }

    /// The answer of the first side, or of the second where the first gives
    /// none.
    open spec fn answer(s: (H1::State, H2::State), e: Envelope) -> Option<Option<SyncError>> {
        match H1::answer(s.0, e) {
            Some(answer) => Some(answer),
            None => H2::answer(s.1, e),
        }
    }

    open spec fn accepted(s: (H1::State, H2::State), e: Envelope, now: Timestamp) -> (
        H1::State,
        H2::State,
    ) {
        if H1::answer(s.0, e) is Some {
            (H1::accepted(s.0, e, now), s.1)
        } else {
            (s.0, H2::accepted(s.1, e, now))
        }
    }

    open spec fn rebased(s: (H1::State, H2::State), e: Envelope) -> Envelope {
        if H1::names(s.0, e.storage_id) {
            H1::rebased(s.0, e)
        } else {
            H2::rebased(s.1, e)
        }
    }

    fn accept(&mut self, aob: &UniversalActionObject, now: Timestamp) -> (r: Option<
        Result<(), SyncError>,
    >) {
        let first = self.0.accept(aob, now);
        match first {
            Some(answer) => Some(answer),
            None => self.1.accept(aob, now),
        }
    }

    fn copy(&self) -> (copy: Self) {
        (self.0.copy(), self.1.copy())
    }

    fn holds(&self, name: &str) -> (b: bool) {
        self.0.holds(name) || self.1.holds(name)
    }

    fn rebase(&self, aob: &UniversalActionObject) -> (r: UniversalActionObject) {
        if self.0.holds(aob.storage_id.as_str()) {
            self.0.rebase(aob)
        } else {
            self.1.rebase(aob)
        }
    }
}

} // verus!
