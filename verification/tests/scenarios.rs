use storage::prelude::path_helper::id_file_name;
use storage::prelude::sha1_signature;
use storage::sync::{
    ActionExt, ActionKind, ActionObject, CallbackMode, Commit, Context, Decode, Encode, Mode,
    ObjectExt, Repository, Storage, StorageObject, SyncError, Timestamp,
};

#[derive(Clone, Debug, PartialEq)]
struct User {
    id: u32,
    name: String,
    age: i32,
}

impl Encode for User {
    fn to_canonical(&self) -> Vec<u8> {
        format!("{};{};{}", self.id, self.age, self.name).into_bytes()
    }
}

impl Decode for User {
    fn from_canonical(bytes: &[u8]) -> Option<Self> {
        let text = String::from_utf8(bytes.to_vec()).ok()?;
        let mut parts = text.splitn(3, ';');
        let id = parts.next()?.parse().ok()?;
        let age = parts.next()?.parse().ok()?;
        let name = parts.next()?.to_string();
        Some(User { id, name, age })
    }
}

impl ObjectExt for User {}

#[derive(Clone, Debug, PartialEq)]
enum UserAction {
    SetName(String),
    SetAge(i32),
}

impl Encode for UserAction {
    fn to_canonical(&self) -> Vec<u8> {
        match self {
            UserAction::SetName(n) => format!("name:{}", n).into_bytes(),
            UserAction::SetAge(a) => format!("age:{}", a).into_bytes(),
        }
    }
}

impl Decode for UserAction {
    fn from_canonical(bytes: &[u8]) -> Option<Self> {
        let text = String::from_utf8(bytes.to_vec()).ok()?;
        if let Some(n) = text.strip_prefix("name:") {
            return Some(UserAction::SetName(n.to_string()));
        }
        if let Some(a) = text.strip_prefix("age:") {
            return Some(UserAction::SetAge(a.parse().ok()?));
        }
        None
    }
}

impl ActionExt for UserAction {
    type ObjectType = User;

    fn apply_patch(&self, object: &User, _dtime: Timestamp, _uid: &str) -> Result<User, String> {
        let mut o = object.clone();
        match self {
            UserAction::SetName(n) => o.name = n.clone(),
            UserAction::SetAge(a) => o.age = *a,
        }
        Ok(o)
    }

    fn display(&self) -> String {
        match self {
            UserAction::SetName(n) => format!("SetName to {}", n),
            UserAction::SetAge(a) => format!("SetAge to {}", a),
        }
    }
}

type Repo = Repository<Vec<Storage<User, UserAction>>>;

fn new_repo(mode: Mode, uid: &str) -> Repo {
    let mut repo = Repository::init(Context::init("./data".into(), uid.into()), mode);
    Storage::init("demo".to_string()).register(&mut repo).unwrap();
    repo
}

fn peti() -> User {
    User { id: 1, name: "Peti".into(), age: 34 }
}

fn create(repo: &mut Repo, user: User, comment: &str) {
    let mut ctx = repo.commit_ctx(comment).unwrap();
    repo.storage("demo").unwrap().create_object(user, &mut ctx);
    repo.close_commit(ctx).unwrap();
}

fn patch(repo: &mut Repo, id: u32, action: UserAction, comment: &str) {
    let mut ctx = repo.commit_ctx(comment).unwrap();
    repo.storage("demo")
        .unwrap()
        .patch_by_filter(&mut ctx, |u: &User| u.id == id, action)
        .unwrap();
    repo.close_commit(ctx).unwrap();
}

fn find(repo: &Repo, id: u32) -> &StorageObject<User, UserAction> {
    repo.storage("demo").unwrap().get_first_by_filter(|u: &User| u.id == id).unwrap()
}

fn push_all(client: &mut Repo, server: &mut Repo) -> Result<(), SyncError> {
    while let Some(commit) = client.next_push() {
        let signed = server.merge_pushed_commit(commit)?;
        client.acknowledge_push(signed)?;
    }
    Ok(())
}

fn pull_all(client: &mut Repo, server: &Repo) -> Result<(), SyncError> {
    let after = match client.commit_log().latest_remote_commit_id() {
        Some(id) => id_file_name(id),
        None => String::new(),
    };
    let commits: Vec<Commit> = server.pull(&after)?.iter().map(|c| c.copy()).collect();
    for commit in commits {
        client.apply_pulled_commit(commit)?;
    }
    Ok(())
}

fn create_then_patch(repo: &mut Repo) {
    create(repo, peti(), "c1");
    patch(repo, 1, UserAction::SetAge(7), "c2");
}

#[test]
fn create_and_patch_local_only() {
    let mut repo = new_repo(Mode::local(), "mezeipetister");
    create_then_patch(&mut repo);
    assert_eq!(find(&repo, 1).local_object().age, 7);
    assert_eq!(find(&repo, 1).local_object().name, "Peti");
    assert_eq!(repo.local_commits().len(), 2);
    assert_eq!(repo.remote_commits().len(), 0);
    let object = find(&repo, 1);
    assert!(object.is_local_object());
    assert_eq!(object.local_actions().len(), 2);
    assert_eq!(object.remote_actions().len(), 0);
    assert_eq!(repo.local_commits()[0].comment, "c1");
    assert_eq!(repo.local_commits()[1].comment, "c2");
    assert_eq!(repo.local_commits()[0].uid, "mezeipetister");
}

#[test]
fn push_to_server() {
    let mut server = new_repo(Mode::server("[::1]:50059".into()), "server");
    let mut client = new_repo(Mode::remote("http://[::1]:50059".into()), "peti");
    create_then_patch(&mut client);
    push_all(&mut client, &mut server).unwrap();
    assert_eq!(client.local_commits().len(), 0);
    assert_eq!(client.remote_commits().len(), 2);
    for commit in client.remote_commits() {
        assert!(commit.has_valid_remote_signature());
        assert!(commit.has_signed_actions());
        assert_eq!(commit.actions.len(), 1);
        assert!(commit.actions[0].is_remote());
        assert!(commit.actions[0].has_valid_remote_signature());
    }
    assert_eq!(find(&client, 1).local_object().age, 7);
    assert_eq!(server.remote_commits().len(), 2);
    assert_eq!(find(&server, 1).local_object().age, 7);
    assert_eq!(find(&server, 1).remote_object().unwrap().age, 7);
}

#[test]
fn pull_on_second_client() {
    let mut server = new_repo(Mode::server("[::1]:50059".into()), "server");
    let mut first = new_repo(Mode::remote("http://[::1]:50059".into()), "peti");
    let mut second = new_repo(Mode::remote("http://[::1]:50059".into()), "kriszti");
    create_then_patch(&mut first);
    push_all(&mut first, &mut server).unwrap();
    pull_all(&mut second, &server).unwrap();
    assert_eq!(second.remote_commits().len(), first.remote_commits().len());
    for (a, b) in second.remote_commits().iter().zip(first.remote_commits().iter()) {
        assert_eq!(a.to_canonical_bytes(), b.to_canonical_bytes());
    }
    let object = find(&second, 1);
    assert_eq!(object.local_object().age, 7);
    assert_eq!(object.remote_object(), Some(object.local_object()));
    assert_eq!(object.local_actions().len(), 0);
    assert_eq!(second.local_commits().len(), 0);
}

#[test]
fn stale_push() {
    let mut server = new_repo(Mode::server("[::1]:50059".into()), "server");
    let mut a = new_repo(Mode::remote("http://[::1]:50059".into()), "a");
    let mut b = new_repo(Mode::remote("http://[::1]:50059".into()), "b");
    create(&mut a, peti(), "s");
    push_all(&mut a, &mut server).unwrap();
    pull_all(&mut b, &server).unwrap();
    // both hold state S now
    create(&mut a, User { id: 2, name: "A".into(), age: 1 }, "ca");
    create(&mut b, User { id: 3, name: "B".into(), age: 2 }, "cb");
    let cb = b.next_push().unwrap();
    push_all(&mut a, &mut server).unwrap();
    let before = server.remote_commits().len();
    assert_eq!(server.merge_pushed_commit(cb).err(), Some(SyncError::StalePush));
    assert_eq!(server.remote_commits().len(), before);
    pull_all(&mut b, &server).unwrap();
    assert_eq!(b.remote_commits().len(), 2);
    assert_eq!(find(&b, 2).local_object().name, "A");
    push_all(&mut b, &mut server).unwrap();
    assert_eq!(server.remote_commits().len(), 3);
    assert_eq!(b.local_commits().len(), 0);
    assert_eq!(find(&server, 3).local_object().name, "B");
    let last = &server.remote_commits()[2];
    assert_eq!(last.ancestor_id, server.remote_commits()[1].id);
}

#[test]
fn patch_signature_corruption() {
    let mut repo = new_repo(Mode::local(), "peti");
    create(&mut repo, peti(), "c1");
    let object_id = find(&repo, 1).id();
    let parent = find(&repo, 1).last_local_id();
    let bad: ActionObject<User, UserAction> = ActionObject {
        id: 77,
        storage_id: "demo".into(),
        object_id,
        uid: "peti".into(),
        dtime: Timestamp { secs: 1, nanos: 0 },
        commit_id: None,
        parent_action_id: parent,
        action: ActionKind::Patch(UserAction::SetAge(9)),
        object_signature: sha1_signature(&peti()).unwrap(),
        remote_signature: None,
    };
    let mut ctx = repo.commit_ctx("corrupt").unwrap();
    ctx.add_action_object(bad.copy());
    assert_eq!(repo.close_commit(ctx), Err(SyncError::SignatureMismatch));
    assert_eq!(repo.local_commits().len(), 1);
    assert_eq!(repo.remote_commits().len(), 0);
    assert_eq!(find(&repo, 1).local_object().age, 34);
    // the context is closed again: a new one can be opened
    let ctx = repo.commit_ctx("again").unwrap();
    repo.abandon_commit(ctx);
    // the same through a storage in check mode
    let mut storage: Storage<User, UserAction> = Storage::init("demo".to_string());
    let mut c = repo.commit_ctx("x").unwrap();
    storage.create_object_with(peti(), &mut c, 5, object_id, Timestamp { secs: 0, nanos: 0 });
    let created = ActionObject::<User, UserAction>::from_universal(&c.commit().actions[0]).unwrap();
    storage.add_action_object(created, CallbackMode::Apply).unwrap();
    let mut bad = bad;
    bad.parent_action_id = Some(5);
    assert_eq!(
        storage.add_action_object(bad, CallbackMode::Check).map(|_| ()),
        Err(SyncError::SignatureMismatch)
    );
}

#[test]
fn remote_advance_triggers_local_rebuild() {
    let mut server = new_repo(Mode::server("[::1]:50059".into()), "server");
    let mut author = new_repo(Mode::remote("http://[::1]:50059".into()), "author");
    let mut client = new_repo(Mode::remote("http://[::1]:50059".into()), "client");
    create(&mut author, peti(), "create");
    push_all(&mut author, &mut server).unwrap();
    pull_all(&mut client, &server).unwrap();
    // the client has a local patch Pl
    patch(&mut client, 1, UserAction::SetName("Lali".into()), "pl");
    let before = find(&client, 1).local_actions()[0].copy();
    assert_eq!(before.parent_action_id, None);
    // the author publishes Pr
    patch(&mut author, 1, UserAction::SetAge(7), "pr");
    push_all(&mut author, &mut server).unwrap();
    let pr = server.remote_commits()[1].copy();
    let stamp = Timestamp { secs: 4_000_000_000, nanos: 5 };
    client.apply_pulled_commit_at(pr, stamp).unwrap();
    let object = find(&client, 1);
    assert_eq!(object.remote_object().unwrap(), &User { id: 1, name: "Peti".into(), age: 7 });
    assert_eq!(object.remote_actions().len(), 2);
    assert_eq!(object.local_actions().len(), 1);
    assert_eq!(object.local_object(), &User { id: 1, name: "Lali".into(), age: 7 });
    let after = &object.local_actions()[0];
    assert_eq!(after.id, before.id);
    assert_eq!(after.action_is_patch_of(), Some(UserAction::SetName("Lali".into())));
    assert_ne!(after.object_signature, before.object_signature);
    assert_eq!(after.object_signature, sha1_signature(object.local_object()).unwrap());
    assert_eq!(after.dtime, stamp);
    assert_eq!(after.parent_action_id, before.parent_action_id);
    assert_eq!(after.uid, before.uid);
    assert!(after.is_local());
}

trait PatchOf {
    fn action_is_patch_of(&self) -> Option<UserAction>;
}

impl PatchOf for ActionObject<User, UserAction> {
    fn action_is_patch_of(&self) -> Option<UserAction> {
        match &self.action {
            ActionKind::Patch(a) => Some(a.clone()),
            ActionKind::Create(_) => None,
        }
    }
}

#[test]
fn first_local_commit_names_the_sentinel() {
    let mut repo = new_repo(Mode::local(), "peti");
    create_then_patch(&mut repo);
    let commits = repo.local_commits();
    assert_eq!(commits[0].ancestor_id, 0);
    assert_eq!(commits[0].ancestor_id, storage::sync::stamp::sentinel());
    assert_eq!(commits[1].ancestor_id, commits[0].id);
    let object = find(&repo, 1);
    assert_eq!(object.local_actions()[0].parent_action_id, None);
    assert_eq!(object.local_actions()[1].parent_action_id, Some(object.local_actions()[0].id));
}

#[test]
fn concurrent_pushes_serialize() {
    let mut server = new_repo(Mode::server("[::1]:50059".into()), "server");
    let mut a = new_repo(Mode::remote("u".into()), "a");
    let mut b = new_repo(Mode::remote("u".into()), "b");
    create(&mut a, User { id: 2, name: "A".into(), age: 1 }, "ca");
    create(&mut b, User { id: 3, name: "B".into(), age: 2 }, "cb");
    let ca = a.next_push().unwrap();
    let cb = b.next_push().unwrap();
    assert_eq!(ca.ancestor_id, cb.ancestor_id);
    let signed = server.merge_pushed_commit(ca).unwrap();
    assert_eq!(server.merge_pushed_commit(cb.copy()).err(), Some(SyncError::StalePush));
    assert_eq!(server.merge_pushed_commit(cb).err(), Some(SyncError::StalePush));
    a.acknowledge_push(signed).unwrap();
    pull_all(&mut b, &server).unwrap();
    let cb = b.next_push().unwrap();
    assert_eq!(cb.ancestor_id, server.remote_commits()[0].id);
    assert!(server.merge_pushed_commit(cb).is_ok());
}

#[test]
fn remote_log_holds_signed_linked_commits() {
    let mut server = new_repo(Mode::server("[::1]:50059".into()), "server");
    let mut client = new_repo(Mode::remote("u".into()), "peti");
    create_then_patch(&mut client);
    patch(&mut client, 1, UserAction::SetName("Lali".into()), "c3");
    push_all(&mut client, &mut server).unwrap();
    let log = server.remote_commits();
    assert_eq!(log.len(), 3);
    let mut ancestor = 0u128;
    for commit in log {
        assert!(commit.has_valid_remote_signature());
        assert!(commit.has_signed_actions());
        assert_eq!(commit.ancestor_id, ancestor);
        ancestor = commit.id;
    }
    // tampering with a signed commit is seen
    let mut forged = log[2].copy();
    forged.comment = "forged".into();
    assert!(!forged.has_valid_remote_signature());
    let mut forged = log[2].copy();
    forged.actions[0].uid = "someone".into();
    assert!(!forged.has_signed_actions());
}

#[test]
fn chains_are_linked_and_signed() {
    let mut server = new_repo(Mode::server("[::1]:50059".into()), "server");
    let mut client = new_repo(Mode::remote("u".into()), "peti");
    create_then_patch(&mut client);
    patch(&mut client, 1, UserAction::SetName("Lali".into()), "c3");
    let object = find(&client, 1);
    let chain = object.local_actions();
    assert_eq!(chain.len(), 3);
    assert_eq!(chain[0].parent_action_id, None);
    assert_eq!(chain[1].parent_action_id, Some(chain[0].id));
    assert_eq!(chain[2].parent_action_id, Some(chain[1].id));
    assert_eq!(chain[2].object_signature, sha1_signature(object.local_object()).unwrap());
    assert_eq!(chain[0].object_signature, sha1_signature(&peti()).unwrap());
    push_all(&mut client, &mut server).unwrap();
    let object = find(&server, 1);
    let chain = object.remote_actions();
    assert_eq!(chain.len(), 3);
    assert_eq!(chain[0].parent_action_id, None);
    assert_eq!(chain[1].parent_action_id, Some(chain[0].id));
    assert_eq!(chain[2].parent_action_id, Some(chain[1].id));
    for action in chain {
        assert!(action.has_valid_remote_signature());
    }
    assert_eq!(
        chain[2].object_signature,
        sha1_signature(object.remote_object().unwrap()).unwrap()
    );
    assert_eq!(object.remote_object().unwrap(), object.local_object());
}

#[test]
fn closing_a_commit_is_deterministic() {
    let mut one = new_repo(Mode::local(), "peti");
    let mut two = new_repo(Mode::local(), "peti");
    let stamp = Timestamp { secs: 10, nanos: 20 };
    for repo in [&mut one, &mut two] {
        let _ = repo.commit_ctx("ignored").unwrap();
        let mut ctx = storage::sync::CommitContextGuard::new_with("peti", "c1", 11, stamp);
        repo.storage("demo").unwrap().create_object_with(peti(), &mut ctx, 21, 31, stamp);
        repo.close_commit_at(ctx, stamp).unwrap();
    }
    assert_eq!(
        one.local_commits()[0].to_canonical_bytes(),
        two.local_commits()[0].to_canonical_bytes()
    );
    let (a, b) = (find(&one, 1), find(&two, 1));
    assert_eq!(a.id(), 31);
    assert_eq!(a.local_object(), b.local_object());
    assert_eq!(
        a.local_actions()[0].to_universal().to_canonical_bytes(),
        b.local_actions()[0].to_universal().to_canonical_bytes()
    );
}

#[test]
fn clients_converge_after_pull() {
    let mut server = new_repo(Mode::server("[::1]:50059".into()), "server");
    let mut author = new_repo(Mode::remote("u".into()), "peti");
    create_then_patch(&mut author);
    create(&mut author, User { id: 2, name: "Kriszti".into(), age: 30 }, "c3");
    push_all(&mut author, &mut server).unwrap();
    let mut one = new_repo(Mode::remote("u".into()), "one");
    let mut two = new_repo(Mode::remote("u".into()), "two");
    pull_all(&mut one, &server).unwrap();
    // the second client pulls in two steps
    let first: Vec<Commit> = server.pull("").unwrap().iter().map(|c| c.copy()).collect();
    two.apply_pulled_commit(first[0].copy()).unwrap();
    pull_all(&mut two, &server).unwrap();
    assert_eq!(one.remote_commits().len(), 3);
    assert_eq!(two.remote_commits().len(), 3);
    for (a, b) in one.remote_commits().iter().zip(two.remote_commits().iter()) {
        assert_eq!(a.to_canonical_bytes(), b.to_canonical_bytes());
    }
    let (s1, s2) = (one.storage("demo").unwrap(), two.storage("demo").unwrap());
    assert_eq!(s1.member_ids(), s2.member_ids());
    for (a, b) in s1.get_all().iter().zip(s2.get_all().iter()) {
        assert_eq!(a.remote_object(), b.remote_object());
        assert_eq!(a.remote_actions().len(), b.remote_actions().len());
        for (x, y) in a.remote_actions().iter().zip(b.remote_actions().iter()) {
            assert_eq!(
                x.to_universal().to_canonical_bytes(),
                y.to_universal().to_canonical_bytes()
            );
        }
    }
}

#[test]
fn push_then_pull_gives_what_the_author_saw() {
    let mut server = new_repo(Mode::server("[::1]:50059".into()), "server");
    let mut author = new_repo(Mode::remote("u".into()), "peti");
    create_then_patch(&mut author);
    let seen = find(&author, 1).local_object().clone();
    let seen_id = find(&author, 1).id();
    push_all(&mut author, &mut server).unwrap();
    let mut other = new_repo(Mode::remote("u".into()), "other");
    pull_all(&mut other, &server).unwrap();
    let object = other.storage("demo").unwrap().get_object_by_id(seen_id).unwrap();
    assert_eq!(object.local_object(), &seen);
    assert_eq!(object.remote_object(), Some(&seen));
    assert_eq!(find(&author, 1).local_object(), &seen);
    assert_eq!(find(&author, 1).remote_object(), Some(&seen));
}

#[test]
fn pull_answers_after_an_identifier() {
    let mut server = new_repo(Mode::server("[::1]:50059".into()), "server");
    let mut client = new_repo(Mode::remote("u".into()), "peti");
    create_then_patch(&mut client);
    push_all(&mut client, &mut server).unwrap();
    let first = server.remote_commits()[0].id;
    let second = server.remote_commits()[1].id;
    assert_eq!(server.pull("").unwrap().len(), 2);
    let hyphenated = uuid::Uuid::from_u128(first).hyphenated().to_string();
    let after = server.pull(&hyphenated).unwrap();
    assert_eq!(after.len(), 1);
    assert_eq!(after[0].id, second);
    assert_eq!(server.pull(&id_file_name(second)).unwrap().len(), 0);
    assert_eq!(server.pull(&id_file_name(12345)).unwrap().len(), 0);
    assert_eq!(server.pull("not an id").err(), Some(SyncError::BadRequest));
    assert_eq!(server.remote_commits_after(0).len(), 2);
    assert_eq!(server.remote_commits_after(first).len(), 1);
}

#[test]
fn new_identifiers_and_times() {
    let a = Commit::new("peti".into(), "one".into());
    let b = Commit::new("peti".into(), "two".into());
    assert_ne!(a.id, 0);
    assert_ne!(a.id, b.id);
    assert_eq!(uuid::Uuid::from_u128(a.id).get_version_num(), 4);
    assert!(a.dtime.secs > 1_600_000_000);
    assert!(a.dtime.nanos < 2_000_000_000);
    assert_eq!(a.ancestor_id, 0);
    assert!(a.is_local());
    assert_eq!(a.actions.len(), 0);
}

#[test]
fn stale_push_on_one_object() {
    let mut server = new_repo(Mode::server("[::1]:50059".into()), "server");
    let mut a = new_repo(Mode::remote("u".into()), "a");
    let mut b = new_repo(Mode::remote("u".into()), "b");
    create(&mut a, peti(), "s");
    push_all(&mut a, &mut server).unwrap();
    pull_all(&mut b, &server).unwrap();
    // both patch the same object
    patch(&mut a, 1, UserAction::SetAge(7), "ca");
    patch(&mut b, 1, UserAction::SetName("Lali".into()), "cb");
    let cb = b.next_push().unwrap();
    push_all(&mut a, &mut server).unwrap();
    assert_eq!(find(&a, 1).local_actions().len(), 0);
    assert_eq!(find(&a, 1).remote_actions().len(), 2);
    assert_eq!(server.merge_pushed_commit(cb).err(), Some(SyncError::StalePush));
    assert_eq!(server.remote_commits().len(), 2);
    pull_all(&mut b, &server).unwrap();
    assert_eq!(find(&b, 1).local_object(), &User { id: 1, name: "Lali".into(), age: 7 });
    assert_eq!(find(&b, 1).local_actions().len(), 1);
    // the commit goes with its action object as the object holds it now
    let cb = b.next_push().unwrap();
    assert_eq!(cb.ancestor_id, server.remote_commits()[1].id);
    assert_eq!(cb.actions.len(), 1);
    assert_eq!(cb.actions[0].parent_action_id(), find(&b, 1).last_remote_id());
    assert_eq!(cb.actions[0].object_signature(), find(&b, 1).local_actions()[0].object_signature);
    assert_eq!(b.local_commits()[0].actions[0].parent_action_id(), None);
    push_all(&mut b, &mut server).unwrap();
    assert_eq!(server.remote_commits().len(), 3);
    assert_eq!(b.local_commits().len(), 0);
    let expected = User { id: 1, name: "Lali".into(), age: 7 };
    assert_eq!(find(&server, 1).remote_object(), Some(&expected));
    assert_eq!(find(&b, 1).remote_object(), Some(&expected));
    assert_eq!(find(&b, 1).local_object(), &expected);
    assert_eq!(find(&b, 1).local_actions().len(), 0);
    assert_eq!(find(&b, 1).remote_actions().len(), 3);
    pull_all(&mut a, &server).unwrap();
    assert_eq!(find(&a, 1).local_object(), &expected);
    for commit in server.remote_commits() {
        assert!(commit.has_valid_remote_signature());
        assert!(commit.has_signed_actions());
    }
}

#[test]
fn a_partly_pushed_chain_stays_whole() {
    let mut server = new_repo(Mode::server("[::1]:50059".into()), "server");
    let mut author = new_repo(Mode::remote("u".into()), "peti");
    create_then_patch(&mut author);
    patch(&mut author, 1, UserAction::SetName("Lali".into()), "c3");
    let seen = find(&author, 1).local_object().clone();
    // only the first commit is pushed
    let first = author.next_push().unwrap();
    let signed = server.merge_pushed_commit(first).unwrap();
    author.acknowledge_push(signed).unwrap();
    let object = find(&author, 1);
    assert_eq!(object.remote_actions().len(), 1);
    assert_eq!(object.remote_object(), Some(&peti()));
    assert_eq!(object.local_actions().len(), 2);
    assert_eq!(object.local_object(), &seen);
    assert_eq!(author.local_commits().len(), 2);
    push_all(&mut author, &mut server).unwrap();
    let object = find(&author, 1);
    assert_eq!(object.remote_actions().len(), 3);
    assert_eq!(object.local_actions().len(), 0);
    assert_eq!(object.remote_object(), Some(&seen));
    assert_eq!(find(&server, 1).remote_object(), Some(&seen));
}
