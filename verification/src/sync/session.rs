use crate::sync::action::{lawful, ActionExt, ActionObject, ObjectExt, UniversalActionObject};
use crate::sync::commit::{Commit, CommitView};
use crate::sync::stamp::Timestamp;
use vstd::prelude::*;

verus! {

/// An open commit: the author and the pending commit that collects action
/// objects until the repository closes it.
pub struct CommitContextGuard {
    uid: String,
    temp_commit: Commit,
}

/// The mathematical content of an open commit.
pub struct SessionState {
    pub uid: Seq<char>,
    pub commit: CommitView,
}

impl View for CommitContextGuard {
    type V = SessionState;

    closed spec fn view(&self) -> SessionState {
        SessionState { uid: self.uid@, commit: self.temp_commit@ }
    }
}

impl SessionState {
    /// Whether this is a newly opened commit of an author: an empty unsigned
    /// commit with the comment, without an ancestor, whose identifier is not
    /// the sentinel.
    pub open spec fn fresh_for(self, uid: Seq<char>, comment: Seq<char>) -> bool {
        &&& self.uid == uid
        &&& self.commit == (CommitView {
            id: self.commit.id,
            uid,
            dtime: self.commit.dtime,
            comment,
            ancestor_id: crate::sync::stamp::sentinel_id(),
            actions: Seq::empty(),
            remote_signature: None,
        })
        &&& self.commit.id != crate::sync::stamp::sentinel_id()
    }

    /// The open commit with one more action object at its end.
    pub open spec fn with_action(self, e: crate::sync::action::Envelope) -> SessionState {
        SessionState {
            commit: CommitView { actions: self.commit.actions.push(e), ..self.commit },
            ..self
        }
    }
}

impl CommitContextGuard {
    /// Opens a commit of the given author, with a new identifier and the
    /// current time.
    pub fn new(uid: &str, commit_comment: &str) -> (ctx: Self)
        ensures
            ctx@.fresh_for(uid@, commit_comment@),
    {
        CommitContextGuard {
            uid: uid.to_owned(),
            temp_commit: Commit::new(uid.to_owned(), commit_comment.to_owned()),
        }
    }

    /// Opens a commit of the given author with the given identifier and
    /// time.
    pub fn new_with(uid: &str, commit_comment: &str, id: u128, dtime: Timestamp) -> (ctx: Self)
        ensures
            ctx@.uid == uid@,
            ctx@.commit == (CommitView {
                id,
                uid: uid@,
                dtime,
                comment: commit_comment@,
                ancestor_id: crate::sync::stamp::sentinel_id(),
                actions: Seq::empty(),
                remote_signature: None,
            }),
    {
        CommitContextGuard {
            uid: uid.to_owned(),
            temp_commit: Commit::new_with(id, dtime, uid.to_owned(), commit_comment.to_owned()),
        }
    }

    /// Opens a context around a commit that exists already.
    pub fn new_merge(uid: &str, temp_commit: Commit) -> (ctx: Self)
        ensures
            ctx@.uid == uid@,
            ctx@.commit == temp_commit@,
    {
        CommitContextGuard { uid: uid.to_owned(), temp_commit }
    }

    /// The author.
    pub fn uid(&self) -> (uid: &str)
        ensures
            uid@ == self@.uid,
    {
        self.uid.as_str()
    }

    /// The pending commit.
    pub fn commit(&self) -> (commit: &Commit)
        ensures
            commit@ == self@.commit,
    {
        &self.temp_commit
    }

    /// The identifier of the pending commit.
    pub fn commit_id(&self) -> (id: u128)
        ensures
            id == self@.commit.id,
    {
        self.temp_commit.id
    }

    /// Puts a universal action object at the end of the pending commit.
    pub fn add_universal(&mut self, aob: UniversalActionObject)
        ensures
            final(self)@ == old(self)@.with_action(aob@),
    {
        self.temp_commit.add_action_object(aob);
    }

    /// Puts an action object at the end of the pending commit.
    pub fn add_action_object<T: ObjectExt, A: ActionExt<ObjectType = T>>(
        &mut self,
        aob: ActionObject<T, A>,
    )
        requires
            lawful::<T, A>(),
        ensures
            final(self)@ == old(self)@.with_action(aob@.envelope()),
    {
        let universal = aob.to_universal();
        self.temp_commit.add_action_object(universal);
    }

    /// Ends the context and hands out the pending commit.
    pub fn into_commit(self) -> (commit: Commit)
        ensures
            commit@ == self@.commit,
    {
        self.temp_commit
    }
}

} // verus!
