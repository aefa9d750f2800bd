use storage::prelude::sha1_signature;
use storage::sync::{
    ActionExt, ActionKind, ActionObject, CallbackMode, Commit, CommitContextGuard, Context,
    Decode, Encode, Mode, ObjectExt, Repository, Storage, StorageHooks, StorageObject,
    SyncError, Timestamp, UniversalActionObject,
};

#[derive(Clone, Debug, PartialEq)]
struct Counter {
    value: i64,
}

impl Encode for Counter {
    fn to_canonical(&self) -> Vec<u8> {
        format!("{}", self.value).into_bytes()
    }
}

impl Decode for Counter {
    fn from_canonical(bytes: &[u8]) -> Option<Self> {
        let text = String::from_utf8(bytes.to_vec()).ok()?;
        Some(Counter { value: text.parse().ok()? })
    }
}

impl ObjectExt for Counter {}

#[derive(Clone, Debug, PartialEq)]
enum Step {
    Add(i64),
    Halve,
}

impl Encode for Step {
    fn to_canonical(&self) -> Vec<u8> {
        match self {
            Step::Add(n) => format!("add {}", n).into_bytes(),
            Step::Halve => b"halve".to_vec(),
        }
    }
}

impl Decode for Step {
    fn from_canonical(bytes: &[u8]) -> Option<Self> {
        let text = String::from_utf8(bytes.to_vec()).ok()?;
        if text == "halve" {
            return Some(Step::Halve);
        }
        Some(Step::Add(text.strip_prefix("add ")?.parse().ok()?))
    }
}

impl ActionExt for Step {
    type ObjectType = Counter;

    fn apply_patch(&self, object: &Counter, _dtime: Timestamp, uid: &str) -> Result<Counter, String> {
        match self {
            Step::Add(n) => Ok(Counter { value: object.value + n }),
            Step::Halve => {
                if object.value % 2 == 0 {
                    Ok(Counter { value: object.value / 2 })
                } else {
                    Err(format!("{} cannot halve {}", uid, object.value))
                }
            }
        }
    }

    fn display(&self) -> String {
        match self {
            Step::Add(n) => format!("add {}", n),
            Step::Halve => "halve".to_string(),
        }
    }
}

type Object = StorageObject<Counter, Step>;
type Action = ActionObject<Counter, Step>;

const T0: Timestamp = Timestamp { secs: 100, nanos: 1 };

fn sig(value: i64) -> String {
    sha1_signature(&Counter { value }).unwrap()
}

fn create_action(id: u128, object_id: u128, value: i64) -> Action {
    ActionObject {
        id,
        storage_id: "counters".into(),
        object_id,
        uid: "peti".into(),
        dtime: T0,
        commit_id: Some(1),
        parent_action_id: None,
        action: ActionKind::Create(Counter { value }),
        object_signature: sig(value),
        remote_signature: None,
    }
}

fn patch_action(id: u128, object_id: u128, parent: Option<u128>, step: Step, result: i64) -> Action {
    ActionObject {
        id,
        storage_id: "counters".into(),
        object_id,
        uid: "peti".into(),
        dtime: T0,
        commit_id: Some(1),
        parent_action_id: parent,
        action: ActionKind::Patch(step),
        object_signature: sig(result),
        remote_signature: None,
    }
}

fn signed(mut action: Action) -> Action {
    action.remote_sign().unwrap();
    action
}

#[test]
fn create_makes_a_purely_local_object() {
    let object = Object::new_from_aob(create_action(1, 9, 10)).unwrap();
    assert_eq!(object.id(), 9);
    assert_eq!(object.storage_id(), "counters");
    assert!(object.is_local_object());
    assert!(!object.is_remote_object());
    assert_eq!(object.remote_object(), None);
    assert_eq!(object.local_object(), &Counter { value: 10 });
    assert_eq!(object.local_actions().len(), 1);
    assert_eq!(object.remote_actions().len(), 0);
    assert_eq!(object.last_local_id(), Some(1));
    assert_eq!(object.last_remote_id(), None);
}

#[test]
fn signed_create_makes_a_remote_object() {
    let object = Object::new_from_aob(signed(create_action(1, 9, 10))).unwrap();
    assert!(object.is_remote_object());
    assert_eq!(object.remote_object(), Some(&Counter { value: 10 }));
    assert_eq!(object.local_object(), &Counter { value: 10 });
    assert_eq!(object.local_actions().len(), 0);
    assert_eq!(object.remote_actions().len(), 1);
    assert_eq!(object.last_local_id(), None);
    assert_eq!(object.last_remote_id(), Some(1));
}

#[test]
fn create_is_checked() {
    let patch = patch_action(2, 9, None, Step::Add(1), 11);
    assert_eq!(Object::new_from_aob(patch).err(), Some(SyncError::WrongKind));
    let mut with_parent = create_action(1, 9, 10);
    with_parent.parent_action_id = Some(4);
    assert_eq!(Object::new_from_aob(with_parent).err(), Some(SyncError::ParentMismatch));
    let mut wrong = create_action(1, 9, 10);
    wrong.object_signature = sig(11);
    assert_eq!(Object::check_new_from_aob(&wrong), Err(SyncError::SignatureMismatch));
    assert_eq!(Object::new_from_aob(wrong).err(), Some(SyncError::SignatureMismatch));
    let mut forged = signed(create_action(1, 9, 10));
    forged.uid = "mallory".into();
    assert_eq!(Object::new_from_aob(forged).err(), Some(SyncError::SignatureMismatch));
    assert_eq!(Object::check_new_from_aob(&create_action(1, 9, 10)), Ok(()));
}

#[test]
fn local_patches_are_checked_and_applied() {
    let mut object = Object::new_from_aob(create_action(1, 9, 10)).unwrap();
    object.add_local_action_object(patch_action(2, 9, Some(1), Step::Add(5), 15)).unwrap();
    assert_eq!(object.local_object(), &Counter { value: 15 });
    assert_eq!(object.local_actions().len(), 2);
    // wrong parent
    let r = object.add_local_action_object(patch_action(3, 9, Some(1), Step::Add(1), 16)).map(|_| ());
    assert_eq!(r, Err(SyncError::ParentMismatch));
    let r = object.add_local_action_object(patch_action(3, 9, None, Step::Add(1), 16)).map(|_| ());
    assert_eq!(r, Err(SyncError::ParentMismatch));
    // wrong signature
    let r = object.add_local_action_object(patch_action(3, 9, Some(2), Step::Add(1), 17)).map(|_| ());
    assert_eq!(r, Err(SyncError::SignatureMismatch));
    // a patch that does not apply
    let r = object.add_local_action_object(patch_action(3, 9, Some(2), Step::Halve, 7)).map(|_| ());
    assert_eq!(r, Err(SyncError::PatchFailed("peti cannot halve 15".to_string())));
    // a signed action on the local side
    let r = object.add_local_action_object(signed(patch_action(3, 9, Some(2), Step::Add(1), 16))).map(|_| ());
    assert_eq!(r, Err(SyncError::WrongSide));
    // a create where a patch belongs
    let mut create = create_action(3, 9, 16);
    create.parent_action_id = Some(2);
    assert_eq!(object.add_local_action_object(create).map(|_| ()), Err(SyncError::WrongKind));
    // nothing of this has changed the object
    assert_eq!(object.local_object(), &Counter { value: 15 });
    assert_eq!(object.local_actions().len(), 2);
    assert_eq!(object.check_action_object(&patch_action(3, 9, Some(2), Step::Add(1), 16)), Ok(()));
    assert_eq!(object.local_actions().len(), 2);
}

#[test]
fn remote_patches_are_checked_and_applied() {
    let mut object = Object::new_from_aob(signed(create_action(1, 9, 10))).unwrap();
    // unsigned
    let r = object.add_remote_action_object(patch_action(2, 9, Some(1), Step::Add(2), 12)).map(|_| ());
    assert_eq!(r, Err(SyncError::MissingRemoteSignature));
    // wrong parent
    let r = object.add_remote_action_object(signed(patch_action(2, 9, Some(7), Step::Add(2), 12))).map(|_| ());
    assert_eq!(r, Err(SyncError::ParentMismatch));
    // a create where a patch belongs
    let mut create = create_action(2, 9, 12);
    create.parent_action_id = Some(1);
    assert_eq!(object.add_remote_action_object(signed(create)).map(|_| ()), Err(SyncError::WrongKind));
    // does not apply
    let r = object.add_remote_action_object(signed(patch_action(2, 9, Some(1), Step::Add(1), 11))).map(|_| ());
    assert_eq!(r, Ok(()));
    let r = object.add_remote_action_object(signed(patch_action(3, 9, Some(2), Step::Halve, 5))).map(|_| ());
    assert_eq!(r, Err(SyncError::PatchFailed("peti cannot halve 11".to_string())));
    // wrong object signature
    let r = object.add_remote_action_object(signed(patch_action(3, 9, Some(2), Step::Add(1), 13))).map(|_| ());
    assert_eq!(r, Err(SyncError::SignatureMismatch));
    // forged after signing
    let mut forged = signed(patch_action(3, 9, Some(2), Step::Add(1), 12));
    forged.dtime = Timestamp { secs: 0, nanos: 0 };
    assert_eq!(object.add_remote_action_object(forged).map(|_| ()), Err(SyncError::SignatureMismatch));
    assert_eq!(object.remote_object(), Some(&Counter { value: 11 }));
    assert_eq!(object.remote_actions().len(), 2);
    // a purely local object takes no remote patch
    let mut local = Object::new_from_aob(create_action(1, 9, 10)).unwrap();
    let r = local.add_remote_action_object(signed(patch_action(2, 9, None, Step::Add(2), 12))).map(|_| ());
    assert_eq!(r, Err(SyncError::WrongSide));
}

#[test]
fn first_local_patch_names_no_parent() {
    let mut object = Object::new_from_aob(signed(create_action(1, 9, 10))).unwrap();
    // a patch that names the last remote action is no local patch here
    let r = object.add_local_action_object(patch_action(2, 9, Some(1), Step::Add(4), 14));
    assert_eq!(r.map(|_| ()), Err(SyncError::ParentMismatch));
    let first = object
        .create_action_object("peti", 5, ActionKind::Patch(Step::Add(4)), 2, T0)
        .unwrap();
    assert_eq!(first.parent_action_id, None);
    assert_eq!(first.object_signature, sig(14));
    assert_eq!(first.commit_id, Some(5));
    assert_eq!(first.object_id, 9);
    assert_eq!(first.storage_id, "counters");
    assert_eq!(first.uid, "peti");
    assert!(first.is_local() && first.is_kind_patch() && !first.is_kind_create());
    let handed = object.add_action_object(first).unwrap();
    assert_eq!(handed.local_object(), &Counter { value: 14 });
    assert_eq!(handed.local_actions().len(), 1);
    assert_eq!(handed.remote_actions().len(), 1);
    assert_eq!(handed.id(), object.id());
    let second = object
        .create_action_object("peti", 5, ActionKind::Patch(Step::Halve), 3, T0)
        .unwrap();
    assert_eq!(second.parent_action_id, Some(2));
    object.add_action_object(second).unwrap();
    assert_eq!(object.local_object(), &Counter { value: 7 });
    assert_eq!(
        object.create_action_object("peti", 5, ActionKind::Patch(Step::Halve), 4, T0).err(),
        Some(SyncError::PatchFailed("peti cannot halve 7".to_string()))
    );
}

#[test]
fn rebuild_replays_the_local_chain() {
    let mut object = Object::new_from_aob(signed(create_action(1, 9, 10))).unwrap();
    object.add_action_object(patch_action(2, 9, None, Step::Halve, 5)).unwrap();
    object.add_action_object(patch_action(3, 9, Some(2), Step::Add(1), 6)).unwrap();
    // the remote side advances by 2: the local chain is replayed over 12
    let now = Timestamp { secs: 777, nanos: 8 };
    object
        .add_action_object_at(signed(patch_action(4, 9, Some(1), Step::Add(2), 12)), now).map(|_| ())
        .unwrap();
    assert_eq!(object.remote_object(), Some(&Counter { value: 12 }));
    assert_eq!(object.local_object(), &Counter { value: 7 });
    let chain = object.local_actions();
    assert_eq!(chain.len(), 2);
    assert_eq!(chain[0].parent_action_id, None);
    assert_eq!(chain[1].parent_action_id, Some(2));
    assert_eq!(chain[0].id, 2);
    assert_eq!(chain[1].id, 3);
    assert!(chain[0].is_local() && chain[1].is_local());
    assert_eq!(chain[0].object_signature, sig(6));
    assert_eq!(chain[1].object_signature, sig(7));
    assert_eq!(chain[0].dtime, now);
    assert_eq!(chain[1].dtime, now);
    // the remote side advances to an odd value: the local chain cannot be
    // replayed, and the remote patch is refused
    let r = object.add_action_object(signed(patch_action(5, 9, Some(4), Step::Add(1), 13))).map(|_| ());
    assert_eq!(r, Err(SyncError::PatchFailed("peti cannot halve 13".to_string())));
    assert_eq!(object.remote_object(), Some(&Counter { value: 12 }));
    assert_eq!(object.remote_actions().len(), 2);
    assert_eq!(object.local_object(), &Counter { value: 7 });
    // replaying in place changes the stamps only
    let later = Timestamp { secs: 778, nanos: 0 };
    object.rebuild_local_objects_at(later).unwrap();
    assert_eq!(object.local_object(), &Counter { value: 7 });
    assert_eq!(object.local_actions()[0].dtime, later);
    assert_eq!(object.local_actions()[0].object_signature, sig(6));
    object.rebuild_local_objects().unwrap();
    assert_eq!(object.local_object(), &Counter { value: 7 });
    let mut local = Object::new_from_aob(create_action(1, 9, 10)).unwrap();
    assert_eq!(local.rebuild_local_objects(), Err(SyncError::WrongSide));
}

#[test]
fn purely_local_object_cannot_be_cleared() {
    let mut local = Object::new_from_aob(create_action(1, 9, 10)).unwrap();
    local.add_action_object(patch_action(2, 9, Some(1), Step::Add(1), 11)).unwrap();
    assert_eq!(local.clear_local_changes(), Err(SyncError::WrongSide));
    assert_eq!(local.local_object(), &Counter { value: 11 });
    assert_eq!(local.local_actions().len(), 2);
    let mut remote = Object::new_from_aob(signed(create_action(1, 9, 10))).unwrap();
    remote.add_action_object(patch_action(2, 9, None, Step::Add(1), 11)).unwrap();
    assert_eq!(remote.clear_local_changes(), Ok(()));
    assert_eq!(remote.local_object(), &Counter { value: 10 });
    assert_eq!(remote.local_actions().len(), 0);
    assert_eq!(remote.remote_actions().len(), 1);
}

#[test]
fn remote_signature_is_taken_without_itself() {
    let mut action = create_action(1, 9, 10);
    assert!(action.is_local());
    assert!(!action.has_valid_remote_signature());
    action.remote_sign().unwrap();
    assert!(action.is_remote());
    assert!(action.has_valid_remote_signature());
    let signature = action.remote_signature.clone().unwrap();
    assert_eq!(signature.len(), 40);
    let mut cleared = action.copy();
    cleared.remote_signature = None;
    assert_eq!(signature, sha1_signature(&cleared.to_universal()).unwrap());
    assert_eq!(action.remote_sign(), Err(SyncError::WrongSide));
    assert_eq!(action.remote_signature, Some(signature.clone()));
    let mut universal: UniversalActionObject = cleared.to_universal();
    assert!(universal.is_local());
    universal.remote_sign().unwrap();
    assert_eq!(universal.remote_signature(), Some(signature.as_str()));
    assert_eq!(universal.remote_sign(), Err(SyncError::WrongSide));
    assert_eq!(universal.id(), 1);
    assert_eq!(universal.object_id(), 9);
    assert_eq!(universal.parent_action_id(), None);
    assert_eq!(universal.object_signature(), sig(10));
    let mut commit = Commit::new_with(3, T0, "peti".into(), "c".into());
    assert!(!commit.has_valid_remote_signature());
    commit.add_remote_signature().unwrap();
    assert!(commit.has_valid_remote_signature());
    assert_eq!(commit.add_remote_signature(), Err(SyncError::WrongSide));
    let stored = commit.remote_signature.clone().unwrap();
    let mut unsigned = commit.copy();
    unsigned.remote_signature = None;
    assert_eq!(stored, storage::prelude::sign_bytes(&unsigned.to_canonical_bytes()));
    assert_eq!(unsigned.to_canonical_bytes(), commit.signing_bytes());
}

#[test]
fn typed_and_universal_action_objects() {
    let action = patch_action(2, 9, Some(1), Step::Add(5), 15);
    let universal = action.to_universal();
    assert!(!universal.action.is_create);
    assert_eq!(universal.action.bytes, b"add 5".to_vec());
    let back = Action::from_universal(&universal).unwrap();
    assert_eq!(back.to_universal().to_canonical_bytes(), universal.to_canonical_bytes());
    let mut unreadable = universal.copy();
    unreadable.action.bytes = b"multiply 5".to_vec();
    assert!(Action::from_universal(&unreadable).is_none());
    let mut not_canonical = universal.copy();
    not_canonical.action.bytes = b"add +5".to_vec();
    assert!(Action::from_universal(&not_canonical).is_none());
}

fn counters() -> Storage<Counter, Step> {
    let mut storage = Storage::init("counters".to_string());
    storage.add_action_object(create_action(1, 9, 10), CallbackMode::Apply).unwrap();
    storage.add_action_object(create_action(2, 8, 20), CallbackMode::Apply).unwrap();
    storage
}

#[test]
fn storage_routes_action_objects() {
    let mut storage = counters();
    assert_eq!(storage.storage_id(), "counters");
    assert_eq!(storage.member_ids(), vec![9, 8]);
    assert_eq!(storage.get_all().len(), 2);
    assert_eq!(storage.get_object_by_id(8).unwrap().local_object(), &Counter { value: 20 });
    assert_eq!(storage.get_object_by_id(7).err(), Some(SyncError::NotFound));
    // a patch for an object that is no member
    let r = storage.add_action_object(
        patch_action(3, 7, None, Step::Add(1), 1),
        CallbackMode::Apply,
    ).map(|_| ());
    assert_eq!(r, Err(SyncError::NotFound));
    // an action object for another storage
    let mut elsewhere = patch_action(3, 9, Some(1), Step::Add(1), 11);
    elsewhere.storage_id = "others".into();
    assert_eq!(storage.add_action_object(elsewhere.copy(), CallbackMode::Apply).map(|_| ()), Err(SyncError::NotFound));
    assert_eq!(storage.accept_at(&elsewhere.to_universal(), CallbackMode::Apply, T0), None);
    // a check changes nothing
    let good = patch_action(3, 9, Some(1), Step::Add(1), 11);
    assert_eq!(storage.add_action_object(good.copy(), CallbackMode::Check).map(|_| ()), Ok(()));
    assert_eq!(storage.get_object_by_id(9).unwrap().local_object(), &Counter { value: 10 });
    assert_eq!(storage.accept_at(&good.to_universal(), CallbackMode::Apply, T0), Some(Ok(())));
    assert_eq!(storage.get_object_by_id(9).unwrap().local_object(), &Counter { value: 11 });
    assert_eq!(
        storage.accept_at(&good.to_universal(), CallbackMode::Check, T0),
        Some(Err(SyncError::ParentMismatch))
    );
    // a member is not created again
    let again = storage.add_action_object(create_action(1, 9, 10), CallbackMode::Apply);
    assert_eq!(again.map(|_| ()), Err(SyncError::WrongKind));
    let other = storage.add_action_object(signed(create_action(4, 9, 10)), CallbackMode::Apply);
    assert_eq!(other.map(|_| ()), Err(SyncError::WrongKind));
    let other = storage.add_action_object(signed(create_action(1, 9, 12)), CallbackMode::Check);
    assert_eq!(other.map(|_| ()), Err(SyncError::WrongKind));
    assert!(storage.get_object_by_id(9).unwrap().is_local_object());
    // the create of a purely local member, signed by the server, gives the
    // member its remote side and keeps its local patches
    let handed =
        storage.add_action_object(signed(create_action(1, 9, 10)), CallbackMode::Check).unwrap();
    assert!(handed.is_remote_object());
    assert!(storage.get_object_by_id(9).unwrap().is_local_object());
    storage.add_action_object(signed(create_action(1, 9, 10)), CallbackMode::Apply).unwrap();
    assert_eq!(storage.member_ids(), vec![9, 8]);
    let object = storage.get_object_by_id(9).unwrap();
    assert!(object.is_remote_object());
    assert_eq!(object.remote_actions().len(), 1);
    assert_eq!(object.remote_object(), Some(&Counter { value: 10 }));
    assert_eq!(object.local_actions().len(), 1);
    assert_eq!(object.local_actions()[0].id, 3);
    assert_eq!(object.local_actions()[0].parent_action_id, Some(1));
    assert_eq!(object.local_object(), &Counter { value: 11 });
    let twice = storage.add_action_object(signed(create_action(1, 9, 10)), CallbackMode::Apply);
    assert_eq!(twice.map(|_| ()), Err(SyncError::WrongKind));
    // the server signs the local patch: it leaves the local chain
    let mut published = patch_action(3, 9, Some(1), Step::Add(1), 11);
    published.remote_sign().unwrap();
    storage.add_action_object(published, CallbackMode::Apply).unwrap();
    let object = storage.get_object_by_id(9).unwrap();
    assert_eq!(object.remote_actions().len(), 2);
    assert_eq!(object.local_actions().len(), 0);
    assert_eq!(object.remote_object(), Some(&Counter { value: 11 }));
    assert_eq!(object.local_object(), &Counter { value: 11 });
}

#[test]
fn filters_and_patches_by_filter() {
    let storage = counters();
    let even: Vec<i64> = storage
        .get_by_filter(|c: &Counter| c.value % 20 == 0)
        .iter()
        .map(|o| o.local_object().value)
        .collect();
    assert_eq!(even, vec![20]);
    assert_eq!(storage.get_by_filter(|_c: &Counter| true).len(), 2);
    assert_eq!(storage.get_first_by_filter(|c: &Counter| c.value > 5).unwrap().id(), 9);
    assert_eq!(
        storage.get_first_by_filter(|c: &Counter| c.value > 50).err(),
        Some(SyncError::NotFound)
    );
    let mut ctx = CommitContextGuard::new_with("peti", "all", 70, T0);
    storage.patch_by_filter(&mut ctx, |_c: &Counter| true, Step::Halve).unwrap();
    assert_eq!(ctx.commit().actions.len(), 2);
    assert_eq!(ctx.commit().actions[0].object_id(), 9);
    assert_eq!(ctx.commit().actions[1].object_id(), 8);
    assert_eq!(ctx.commit().actions[0].object_signature(), sig(5));
    assert_eq!(ctx.commit().actions[1].object_signature(), sig(10));
    assert_eq!(ctx.commit().actions[0].commit_id, Some(70));
    assert_eq!(ctx.commit().actions[0].parent_action_id(), Some(1));
    assert_eq!(ctx.uid(), "peti");
    assert_eq!(ctx.commit_id(), 70);
    // the patch does not apply to the second object
    let mut storage = storage;
    storage.add_action_object(patch_action(3, 8, Some(2), Step::Add(1), 21), CallbackMode::Apply).unwrap();
    let mut ctx = CommitContextGuard::new_with("peti", "all", 71, T0);
    let r = storage.patch_by_filter(&mut ctx, |_c: &Counter| true, Step::Halve);
    assert_eq!(r, Err(SyncError::PatchFailed("peti cannot halve 21".to_string())));
    assert_eq!(ctx.commit().actions.len(), 1);
    let object = storage.get_object_by_id(8).unwrap();
    let mut ctx = CommitContextGuard::new_with("peti", "one", 72, T0);
    object.patch_with(Step::Add(1), &mut ctx, 90, T0).unwrap();
    assert_eq!(ctx.commit().actions[0].id(), 90);
    assert_eq!(ctx.commit().actions[0].parent_action_id(), Some(3));
    object.patch(Step::Add(1), &mut ctx).unwrap();
    assert_eq!(ctx.into_commit().actions.len(), 2);
}

fn repository() -> Repository<Vec<Storage<Counter, Step>>> {
    let mut repo = Repository::init(Context::init("/db".into(), "peti".into()), Mode::local());
    Storage::init("counters".to_string()).register(&mut repo).unwrap();
    repo
}

#[test]
fn one_commit_context_at_a_time() {
    let mut repo = repository();
    let ctx = repo.commit_ctx("first").unwrap();
    assert_eq!(repo.commit_ctx("second").err(), Some(SyncError::ConcurrentCommitContext));
    let other: Storage<Counter, Step> = Storage::init("others".to_string());
    assert_eq!(other.register(&mut repo), Err(SyncError::ConcurrentCommitContext));
    let unsigned = Commit::new_with(3, T0, "x".into(), "c".into());
    assert_eq!(
        repo.merge_pushed_commit(unsigned.copy()).err(),
        Some(SyncError::ConcurrentCommitContext)
    );
    assert_eq!(repo.apply_pulled_commit(unsigned), Err(SyncError::ConcurrentCommitContext));
    repo.close_commit(ctx).unwrap();
    assert_eq!(repo.local_commits().len(), 1);
    let ctx = repo.commit_ctx("second").unwrap();
    repo.abandon_commit(ctx);
    assert_eq!(repo.local_commits().len(), 1);
    assert!(repo.commit_ctx("third").is_ok());
}

#[test]
fn a_storage_name_registers_once() {
    let mut repo = repository();
    let again: Storage<Counter, Step> = Storage::init("counters".to_string());
    assert_eq!(again.register(&mut repo), Err(SyncError::DuplicateStorage));
    let other: Storage<Counter, Step> = Storage::init("others".to_string());
    assert_eq!(other.register(&mut repo), Ok(()));
    assert_eq!(repo.storages().len(), 2);
    assert!(repo.storage("others").is_some());
    let held = Storage::load_or_init(&repo, "others".to_string());
    assert_eq!(held.storage_id(), "others");
    let new: Storage<Counter, Step> = Storage::load_or_init(&repo, "more".to_string());
    assert_eq!(new.get_all().len(), 0);
    assert_eq!(new.register(&mut repo), Ok(()));
    assert_eq!(repo.storages().len(), 3);
    assert!(repo.storage("nothing").is_none());
    assert_eq!(repo.ctx().uid, "peti");
    assert_eq!(repo.ctx().db_root_path, "/db");
    assert_eq!(repo.mode(), &Mode::Local);
}

#[test]
fn pulled_commits_are_checked() {
    let mut server = repository();
    let mut client = repository();
    let mut ctx = CommitContextGuard::new_with("peti", "c", 50, T0);
    client.storage("counters").unwrap().create_object_with(Counter { value: 4 }, &mut ctx, 1, 9, T0);
    let pushed = ctx.into_commit();
    let signed = server.merge_pushed_commit(pushed.copy()).unwrap();
    // unsigned
    assert_eq!(client.apply_pulled_commit(pushed.copy()), Err(SyncError::MissingRemoteSignature));
    // forged
    let mut forged = signed.copy();
    forged.comment = "forged".into();
    assert_eq!(client.apply_pulled_commit(forged), Err(SyncError::SignatureMismatch));
    // an action object that was changed after signing, in a commit signed anew
    let mut inner = signed.copy();
    inner.actions[0].uid = "mallory".into();
    inner.remote_signature = None;
    inner.add_remote_signature().unwrap();
    assert_eq!(client.apply_pulled_commit(inner), Err(SyncError::SignatureMismatch));
    // taken in once; a second time it does not follow the log
    assert_eq!(client.apply_pulled_commit(signed.copy()), Ok(()));
    assert_eq!(client.apply_pulled_commit(signed.copy()), Err(SyncError::RemoteDivergence));
    assert_eq!(client.remote_commits().len(), 1);
    // a signed commit cannot be pushed
    assert_eq!(server.merge_pushed_commit(signed.copy()).err(), Some(SyncError::WrongSide));
    // nor can a commit with a signed action object
    let mut half = pushed.copy();
    half.id = 51;
    half.ancestor_id = 50;
    half.actions[0].remote_sign().unwrap();
    assert_eq!(server.merge_pushed_commit(half.copy()).err(), Some(SyncError::WrongSide));
    // the ancestor is looked at before the action objects
    half.ancestor_id = 49;
    assert_eq!(server.merge_pushed_commit(half).err(), Some(SyncError::StalePush));
    let mut both = signed.copy();
    both.ancestor_id = 49;
    assert_eq!(server.merge_pushed_commit(both).err(), Some(SyncError::WrongSide));
    // acknowledging without a local commit
    assert_eq!(client.acknowledge_push(signed), Err(SyncError::RemoteDivergence));
    assert!(client.next_push().is_none());
}

#[test]
fn a_refused_action_object_refuses_its_commit() {
    let mut server = repository();
    let mut ctx = CommitContextGuard::new_with("peti", "c", 50, T0);
    ctx.add_action_object(create_action(1, 9, 10));
    ctx.add_action_object(patch_action(2, 9, Some(1), Step::Halve, 5));
    ctx.add_action_object(patch_action(3, 9, Some(2), Step::Halve, 2));
    let commit = ctx.into_commit();
    assert_eq!(
        server.merge_pushed_commit(commit).err(),
        Some(SyncError::PatchFailed("peti cannot halve 5".to_string()))
    );
    assert_eq!(server.remote_commits().len(), 0);
    assert_eq!(server.storage("counters").unwrap().get_all().len(), 0);
    // the same commit without its last action object is merged as a whole
    let mut ctx = CommitContextGuard::new_with("peti", "c", 50, T0);
    ctx.add_action_object(create_action(1, 9, 10));
    ctx.add_action_object(patch_action(2, 9, Some(1), Step::Halve, 5));
    // an action object for a storage that is not registered is passed over
    let mut stray = create_action(4, 3, 1);
    stray.storage_id = "unknown".into();
    ctx.add_action_object(stray);
    let signed = server.merge_pushed_commit(ctx.into_commit()).unwrap();
    assert_eq!(signed.actions.len(), 3);
    assert_eq!(server.remote_commits().len(), 1);
    let object = server.storage("counters").unwrap().get_object_by_id(9).unwrap();
    assert_eq!(object.remote_object(), Some(&Counter { value: 5 }));
    assert_eq!(server.storage("counters").unwrap().get_all().len(), 1);
    assert_eq!(server.commit_log().index().latest_remote_commit_id, Some(50));
    assert_eq!(server.commit_log().index().latest_local_commit_id, None);
}

#[test]
fn errors_have_messages() {
    assert_eq!(SyncError::ParentMismatch.message(), "parent action id mismatch");
    assert_eq!(SyncError::SignatureMismatch.message(), "signature mismatch");
    assert_eq!(SyncError::MissingRemoteSignature.message(), "remote signature missing");
    assert_eq!(SyncError::WrongSide.message(), "record is on the wrong side");
    assert_eq!(SyncError::WrongKind.message(), "action is of the wrong kind");
    assert_eq!(SyncError::StalePush.message(), "commit ancestor is stale, pull required");
    assert_eq!(SyncError::RemoteDivergence.message(), "remote log diverged");
    assert_eq!(SyncError::PatchFailed("x".into()).message(), "patch failed");
    assert_eq!(SyncError::NotFound.message(), "object not found");
    assert_eq!(
        SyncError::ConcurrentCommitContext.message(),
        "a commit context is already open"
    );
    assert_eq!(SyncError::PersistenceError.message(), "persistence failed");
    assert_eq!(
        SyncError::DuplicateStorage.message(),
        "a storage of that name is registered already"
    );
    assert_eq!(SyncError::BadRequest.message(), "the request cannot be read");
}

#[test]
fn stamping_changes_the_time_only() {
    let later = Timestamp { secs: 2_000_000_000, nanos: 3 };
    let mut action = signed(patch_action(2, 9, Some(1), Step::Add(5), 15));
    let before = action.to_universal().to_canonical_bytes();
    action.reset_dtime_at(later);
    assert_eq!(action.dtime, later);
    let mut back = action.copy();
    back.reset_dtime_at(T0);
    assert_eq!(back.to_universal().to_canonical_bytes(), before);
    // the remote signature was taken over the old time
    assert!(!action.has_valid_remote_signature());
    assert!(back.has_valid_remote_signature());
    action.reset_dtime();
    assert!(action.dtime.secs > 1_600_000_000);
    assert_ne!(action.dtime, later);
    back = action.copy();
    back.reset_dtime_at(T0);
    assert_eq!(back.to_universal().to_canonical_bytes(), before);

    let mut commit = Commit::new_with(3, T0, "peti".into(), "c".into());
    commit.add_action_object(patch_action(2, 9, Some(1), Step::Add(5), 15).to_universal());
    let before = commit.to_canonical_bytes();
    commit.set_dtime_at(later);
    assert_eq!(commit.dtime, later);
    assert_ne!(commit.to_canonical_bytes(), before);
    commit.set_dtime();
    assert!(commit.dtime.secs > 1_600_000_000);
    assert_ne!(commit.dtime, later);
    assert_eq!(commit.id, 3);
    assert_eq!(commit.actions.len(), 1);
    commit.set_dtime_at(T0);
    assert_eq!(commit.to_canonical_bytes(), before);
}

#[derive(Clone, Debug, PartialEq)]
struct Label {
    text: String,
}

impl Encode for Label {
    fn to_canonical(&self) -> Vec<u8> {
        self.text.clone().into_bytes()
    }
}

impl Decode for Label {
    fn from_canonical(bytes: &[u8]) -> Option<Self> {
        Some(Label { text: String::from_utf8(bytes.to_vec()).ok()? })
    }
}

impl ObjectExt for Label {}

#[derive(Clone, Debug, PartialEq)]
struct Rename(String);

impl Encode for Rename {
    fn to_canonical(&self) -> Vec<u8> {
        self.0.clone().into_bytes()
    }
}

impl Decode for Rename {
    fn from_canonical(bytes: &[u8]) -> Option<Self> {
        Some(Rename(String::from_utf8(bytes.to_vec()).ok()?))
    }
}

impl ActionExt for Rename {
    type ObjectType = Label;

    fn apply_patch(&self, _object: &Label, _dtime: Timestamp, _uid: &str) -> Result<Label, String> {
        Ok(Label { text: self.0.clone() })
    }

    fn display(&self) -> String {
        format!("rename to {}", self.0)
    }
}

type Mixed = (Vec<Storage<Counter, Step>>, Vec<Storage<Label, Rename>>);

fn mixed(uid: &str) -> Repository<Mixed> {
    let storages: Mixed =
        (vec![Storage::init("counters".to_string())], vec![Storage::init("labels".to_string())]);
    Repository::init_with(Context::init("/db".into(), uid.into()), Mode::local(), storages)
}

#[test]
fn a_repository_holds_storages_of_several_types() {
    let mut author = mixed("peti");
    let mut server = mixed("server");
    assert!(author.hooks().holds("counters"));
    assert!(author.hooks().holds("labels"));
    assert!(!author.hooks().holds("others"));
    // one commit with an object of each type
    let mut ctx = author.commit_ctx("both").unwrap();
    author.hooks().0[0].create_object(Counter { value: 4 }, &mut ctx);
    author.hooks().1[0].create_object(Label { text: "old".into() }, &mut ctx);
    author.close_commit(ctx).unwrap();
    let mut ctx = author.commit_ctx("patch").unwrap();
    author.hooks().0[0].patch_by_filter(&mut ctx, |_c: &Counter| true, Step::Halve).unwrap();
    author.hooks().1[0].patch_by_filter(&mut ctx, |_l: &Label| true, Rename("new".into())).unwrap();
    author.close_commit(ctx).unwrap();
    assert_eq!(author.local_commits().len(), 2);
    assert_eq!(author.local_commits()[1].actions.len(), 2);
    assert_eq!(author.hooks().0[0].get_all()[0].local_object(), &Counter { value: 2 });
    assert_eq!(author.hooks().1[0].get_all()[0].local_object(), &Label { text: "new".into() });
    // a refused action object of one type refuses the commit for both
    let mut ctx = author.commit_ctx("odd").unwrap();
    author.hooks().1[0].patch_by_filter(&mut ctx, |_l: &Label| true, Rename("x".into())).unwrap();
    let mut bad = patch_action(77, 9, None, Step::Add(1), 3);
    bad.object_id = author.hooks().0[0].member_ids()[0];
    ctx.add_action_object(bad);
    assert_eq!(author.close_commit(ctx), Err(SyncError::ParentMismatch));
    assert_eq!(author.hooks().1[0].get_all()[0].local_object(), &Label { text: "new".into() });
    assert_eq!(author.local_commits().len(), 2);
    // the server takes both types
    while let Some(commit) = author.next_push() {
        let signed = server.merge_pushed_commit(commit).unwrap();
        author.acknowledge_push(signed).unwrap();
    }
    assert_eq!(server.remote_commits().len(), 2);
    assert_eq!(
        server.hooks().0[0].get_all()[0].remote_object(),
        Some(&Counter { value: 2 })
    );
    assert_eq!(
        server.hooks().1[0].get_all()[0].remote_object(),
        Some(&Label { text: "new".into() })
    );
    assert_eq!(author.local_commits().len(), 0);
    assert_eq!(author.hooks().0[0].get_all()[0].local_actions().len(), 0);
}

#[test]
fn a_signature_over_the_envelope_holds_for_the_typed_action() {
    let made = patch_action(2, 9, Some(1), Step::Add(5), 15);
    let mut envelope = made.to_universal();
    envelope.remote_sign().unwrap();
    let read = Action::from_universal(&envelope).unwrap();
    assert!(read.has_valid_remote_signature());
    assert_eq!(read.remote_signature, envelope.remote_signature);
    let mut cleared = read.copy();
    cleared.remote_signature = None;
    assert_eq!(
        cleared.to_universal().to_canonical_bytes(),
        made.to_universal().to_canonical_bytes()
    );
    assert_eq!(Action::from_universal(&made.to_universal()).unwrap().id, 2);
}

#[test]
fn the_object_is_changed_in_place_or_handed_back() {
    let mut object = Object::new_from_aob(signed(create_action(1, 9, 10))).unwrap();
    assert_eq!(object.take_local(patch_action(2, 9, None, Step::Add(1), 11)), Ok(()));
    assert_eq!(
        object.take_local(patch_action(3, 9, None, Step::Add(1), 12)),
        Err(SyncError::ParentMismatch)
    );
    let now = Timestamp { secs: 5, nanos: 5 };
    assert_eq!(object.take_at(signed(patch_action(4, 9, Some(1), Step::Add(2), 12)), now), Ok(()));
    assert_eq!(object.local_object(), &Counter { value: 13 });
    assert_eq!(
        object.take_remote_at(patch_action(5, 9, Some(4), Step::Add(2), 14), now),
        Err(SyncError::MissingRemoteSignature)
    );
    let handed = object
        .add_remote_action_object_at(signed(patch_action(5, 9, Some(4), Step::Add(2), 14)), now)
        .unwrap();
    assert_eq!(handed.remote_object(), object.remote_object());
    assert_eq!(handed.local_object(), &Counter { value: 15 });
    assert_eq!(handed.remote_actions().len(), 3);
    let handed = object.add_local_action_object(patch_action(6, 9, Some(2), Step::Add(1), 16)).unwrap();
    assert_eq!(handed.local_actions().len(), 2);
    assert_eq!(object.local_actions().len(), 2);
    // the server signs the first local action: it leaves the local chain
    let mut first = object.local_actions()[0].copy();
    first.parent_action_id = object.last_remote_id();
    first.remote_sign().unwrap();
    object.take_at(first, now).unwrap();
    assert_eq!(object.remote_actions().len(), 4);
    assert_eq!(object.local_actions().len(), 1);
    assert_eq!(object.local_actions()[0].id, 6);
    assert_eq!(object.local_actions()[0].parent_action_id, Some(2));
    assert_eq!(object.local_object(), &Counter { value: 16 });
    // a purely local object gets its remote side from its own create
    let mut local = Object::new_from_aob(create_action(1, 9, 10)).unwrap();
    local.take_local(patch_action(2, 9, Some(1), Step::Add(1), 11)).unwrap();
    assert_eq!(local.promote_at(create_action(1, 9, 10), now), Err(SyncError::WrongKind));
    assert_eq!(local.promote_at(signed(create_action(7, 9, 10)), now), Err(SyncError::WrongKind));
    assert_eq!(local.promote_at(signed(create_action(1, 9, 10)), now), Ok(()));
    assert_eq!(local.remote_object(), Some(&Counter { value: 10 }));
    assert_eq!(local.local_object(), &Counter { value: 11 });
    assert_eq!(local.local_actions().len(), 1);
    assert_eq!(local.local_actions()[0].dtime, now);
}
