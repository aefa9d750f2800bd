use crate::sync::action::{
    envelopes, lawful, ActionExt, Envelope, ObjectExt, UniversalActionObject,
};
use crate::sync::commit::{commit_views, Commit, CommitView};
use crate::sync::context::{Context, Mode, RepoDetails};
use crate::sync::error::SyncError;
use crate::sync::hooks::{
    applied, find_by_name, holder, lemma_answering, lemma_applied_refusal, storage_views,
    storages_wf, StorageHooks,
};
use crate::sync::log::{commits_after, next_ancestor, CommitLog, LogState};
use crate::sync::session::CommitContextGuard;
use crate::sync::stamp::{now, parse_id, parsed_id, sentinel_id, Timestamp};
use crate::sync::store::{Storage, StorageState};
use vstd::prelude::*;

verus! {

/// A replica: who writes with it, how it takes part, its two logs, and the
/// storages that take the action objects of its commits.
pub struct Repository<H> {
    ctx: Context,
    repo_details: RepoDetails,
    commit_log: CommitLog,
    storages: H,
    context_open: bool,
}

/// The mathematical content of a replica.
pub struct RepoState<H: StorageHooks> {
    pub uid: Seq<char>,
    pub db_root_path: Seq<char>,
    pub mode: Mode,
    pub log: LogState,
    pub storages: H::State,
    pub context_open: bool,
}

/// The action objects of a local commit as they are pushed.
pub open spec fn rebased_actions<H: StorageHooks>(
    storages: H::State,
    actions: Seq<Envelope>,
) -> Seq<Envelope> {
    Seq::new(actions.len(), |i: int| H::rebased(storages, actions[i]))
}

/// The content of the answer to a push.
pub open spec fn answer_view(r: Result<Commit, SyncError>) -> Result<CommitView, SyncError> {
    match r {
        Ok(c) => Ok(c@),
        Err(e) => Err(e),
    }
}

/// Each action object with a remote signature of its own.
pub open spec fn signed_actions(actions: Seq<Envelope>) -> Seq<Envelope> {
    actions.map_values(
        |e: Envelope| Envelope { remote_signature: Some(e.expected_remote_signature()), ..e },
    )
}

/// A pushed commit as the server signs it: each action object signed, then
/// the commit.
pub open spec fn signed_commit(c: CommitView) -> CommitView {
    let with_actions = CommitView { actions: signed_actions(c.actions), ..c };
    CommitView {
        remote_signature: Some(with_actions.expected_remote_signature()),
        ..with_actions
    }
}

/// A signed commit is a remote commit.
pub proof fn lemma_signed_commit_is_remote(c: CommitView)
    requires
        c.is_local_commit(),
    ensures
        signed_commit(c).is_remote_commit(),
        signed_commit(c).id == c.id,
        signed_commit(c).ancestor_id == c.ancestor_id,
{
    let s = signed_commit(c);
    assert forall|i: int| 0 <= i < s.actions.len() implies (
    #[trigger] s.actions[i]).remote_signature_valid() by {
        let e = c.actions[i];
        assert(e.remote_signature is None);
        assert(e.unsigned() == e);
        assert(s.actions[i].unsigned() == e);
    }
    let with_actions = CommitView { actions: signed_actions(c.actions), ..c };
    assert(s.unsigned() == with_actions.unsigned());
    assert(with_actions.unsigned() == with_actions);
}

impl<H: StorageHooks> RepoState<H> {
    /// The invariant of a replica: its logs and its storages are well
    /// formed.
    pub open spec fn wf(self) -> bool {
        self.log.wf() && H::hooks_wf(self.storages)
    }

    /// What closing a commit fails with: what the log refuses the commit
    /// with, else the first refusal of an action object by a storage.
    pub open spec fn close_error(self, c: CommitView, now: Timestamp) -> Option<SyncError> {
        let log_error = if c.remote_signature is Some {
            self.log.remote_error(c)
        } else {
            self.log.local_error(c)
        };
        if log_error is Some {
            log_error
        } else {
            match applied::<H>(self.storages, c.actions, now) {
                Err(e) => Some(e),
                Ok(_) => None,
            }
        }
    }

    /// The replica after a commit was closed: the commit stands at the end
    /// of the log it belongs to, the storages have accepted its action
    /// objects in order, and no commit context is open.
    pub open spec fn closed(self, c: CommitView, now: Timestamp) -> Self {
        RepoState {
            log: if c.remote_signature is Some {
                self.log.remote_appended(c)
            } else {
                self.log.local_appended(c)
            },
            storages: applied::<H>(self.storages, c.actions, now)->Ok_0,
            context_open: false,
            ..self
        }
    }

    /// What merging a pushed commit fails with, in this order: an open commit
    /// context; a commit that carries a remote signature; a commit that does
    /// not name the last remote commit; an action object that carries a
    /// remote signature; else the first refusal of a signed action object by
    /// a storage.
    pub open spec fn merge_error(self, c: CommitView, now: Timestamp) -> Option<SyncError> {
        if self.context_open {
            Some(SyncError::ConcurrentCommitContext)
        } else if c.remote_signature is Some {
            Some(SyncError::WrongSide)
        } else if c.ancestor_id != next_ancestor(self.log.remote) {
            Some(SyncError::StalePush)
        } else if !c.actions_unsigned() {
            Some(SyncError::WrongSide)
        } else {
            match applied::<H>(self.storages, signed_commit(c).actions, now) {
                Err(e) => Some(e),
                Ok(_) => None,
            }
        }
    }

    /// The replica after a pushed commit was merged: the signed commit
    /// stands at the end of the remote log, and the storages have accepted
    /// its action objects in order.
    pub open spec fn merged(self, c: CommitView, now: Timestamp) -> Self {
        RepoState {
            log: self.log.remote_appended(signed_commit(c)),
            storages: applied::<H>(self.storages, signed_commit(c).actions, now)->Ok_0,
            ..self
        }
    }

    /// What taking in a pulled commit fails with: an open commit context; a
    /// missing or wrong signature on the commit; a commit that does not name
    /// the last remote commit held here; a wrong signature on an action
    /// object; else the first refusal of an action object by a storage.
    pub open spec fn pull_error(self, c: CommitView, now: Timestamp) -> Option<SyncError> {
        if self.context_open {
            Some(SyncError::ConcurrentCommitContext)
        } else if c.remote_signature is None {
            Some(SyncError::MissingRemoteSignature)
        } else if !c.remote_signature_valid() {
            Some(SyncError::SignatureMismatch)
        } else if c.ancestor_id != next_ancestor(self.log.remote) {
            Some(SyncError::RemoteDivergence)
        } else if !c.actions_signed() {
            Some(SyncError::SignatureMismatch)
        } else {
            match applied::<H>(self.storages, c.actions, now) {
                Err(e) => Some(e),
                Ok(_) => None,
            }
        }
    }

    /// The replica after a pulled commit was taken in.
    pub open spec fn pulled(self, c: CommitView, now: Timestamp) -> Self {
        RepoState {
            log: self.log.remote_appended(c),
            storages: applied::<H>(self.storages, c.actions, now)->Ok_0,
            ..self
        }
    }

    /// The commit that is pushed next: the oldest local commit, naming the
    /// last remote commit held here as its ancestor, with each action object
    /// as its storage holds it now.
    pub open spec fn push_candidate(self) -> CommitView {
        CommitView {
            ancestor_id: next_ancestor(self.log.remote),
            actions: rebased_actions::<H>(self.storages, self.log.local.first().actions),
            ..self.log.local.first()
        }
    }

    /// What acknowledging a push fails with: there is no local commit, or
    /// the signed commit is not the oldest local commit; else what taking in
    /// the signed commit fails with.
    pub open spec fn acknowledge_error(self, c: CommitView, now: Timestamp) -> Option<SyncError> {
        if self.log.local.len() == 0 || self.log.local.first().id != c.id {
            Some(SyncError::RemoteDivergence)
        } else {
            self.pull_error(c, now)
        }
    }

    /// The replica after a push was acknowledged: the signed commit was
    /// taken in, and the oldest local commit has left the local log.
    pub open spec fn acknowledged(self, c: CommitView, now: Timestamp) -> Self {
        RepoState { log: self.pulled(c, now).log.first_local_dropped(), ..self.pulled(c, now) }
    }

    /// Whether closing a commit at time `now` ends with `r` and leaves
    /// `after`.
    pub open spec fn close_outcome(
        self,
        c: CommitView,
        now: Timestamp,
        r: Result<(), SyncError>,
        after: Self,
    ) -> bool {
        match r {
            Ok(_) => self.close_error(c, now) is None && after == self.closed(c, now),
            Err(e) => self.close_error(c, now) == Some(e) && after == (RepoState {
                context_open: false,
                ..self
            }),
        }
    }

    /// Whether merging a pushed commit at time `now` ends with `r` and
    /// leaves `after`.
    pub open spec fn merge_outcome(
        self,
        c: CommitView,
        now: Timestamp,
        r: Result<CommitView, SyncError>,
        after: Self,
    ) -> bool {
        match r {
            Ok(signed) => self.merge_error(c, now) is None && signed == signed_commit(c) && after
                == self.merged(c, now),
            Err(e) => self.merge_error(c, now) == Some(e) && after == self,
        }
    }

    /// Whether taking in a pulled commit at time `now` ends with `r` and
    /// leaves `after`.
    pub open spec fn pull_outcome(
        self,
        c: CommitView,
        now: Timestamp,
        r: Result<(), SyncError>,
        after: Self,
    ) -> bool {
        match r {
            Ok(_) => self.pull_error(c, now) is None && after == self.pulled(c, now),
            Err(e) => self.pull_error(c, now) == Some(e) && after == self,
        }
    }

    /// Whether acknowledging a push at time `now` ends with `r` and leaves
    /// `after`.
    pub open spec fn acknowledge_outcome(
        self,
        c: CommitView,
        now: Timestamp,
        r: Result<(), SyncError>,
        after: Self,
    ) -> bool {
        match r {
            Ok(_) => self.acknowledge_error(c, now) is None && after == self.acknowledged(c, now),
            Err(e) => self.acknowledge_error(c, now) == Some(e) && after == self,
        }
    }
}

impl<H: StorageHooks> View for Repository<H> {
    type V = RepoState<H>;

    closed spec fn view(&self) -> RepoState<H> {
        RepoState {
            uid: self.ctx.uid@,
            db_root_path: self.ctx.db_root_path@,
            mode: self.repo_details.mode,
            log: self.commit_log@,
            storages: self.storages.state(),
            context_open: self.context_open,
        }
    }
}

impl<T: ObjectExt, A: ActionExt<ObjectType = T>> RepoState<Vec<Storage<T, A>>> {
    /// Whether a storage of that name is registered.
    pub open spec fn has_storage(self, id: Seq<char>) -> bool {
        exists|k: int| 0 <= k < self.storages.len() && (#[trigger] self.storages[k]).id == id
    }
}

impl<H: StorageHooks> Repository<H> {
    /// A replica without commits, with the given storages.
    pub fn init_with(ctx: Context, mode: Mode, storages: H) -> (repo: Self)
        requires
            H::hooks_wf(storages.state()),
        ensures
            repo@.wf(),
            repo@.uid == ctx.uid@,
            repo@.db_root_path == ctx.db_root_path@,
            repo@.mode == mode,
            repo@.log.local.len() == 0,
            repo@.log.remote.len() == 0,
            repo@.storages == storages.state(),
            !repo@.context_open,
    {
        Repository {
            ctx,
            repo_details: RepoDetails { mode },
            commit_log: CommitLog::init(),
            storages,
            context_open: false,
        }
    }

    /// The storages.
    pub fn hooks(&self) -> (storages: &H)
        ensures
            storages.state() == self@.storages,
    {
        &self.storages
    }


    /// Where the replica keeps its files, and who writes with it.
    pub fn ctx(&self) -> (ctx: &Context)
        ensures
            ctx.uid@ == self@.uid,
            ctx.db_root_path@ == self@.db_root_path,
    {
        &self.ctx
    }

    /// How the replica takes part.
    pub fn mode(&self) -> (mode: &Mode)
        ensures
            *mode == self@.mode,
    {
        &self.repo_details.mode
    }

    /// The logs.
    pub fn commit_log(&self) -> (log: &CommitLog)
        ensures
            log@ == self@.log,
    {
        &self.commit_log
    }

    /// The commits that are not published yet, oldest first.
    pub fn local_commits(&self) -> (commits: &Vec<Commit>)
        ensures
            commit_views(commits@) == self@.log.local,
    {
        self.commit_log.load_locals()
    }

    /// The commits that the server accepted, oldest first.
    pub fn remote_commits(&self) -> (commits: &Vec<Commit>)
        ensures
            commit_views(commits@) == self@.log.remote,
    {
        self.commit_log.load_remotes()
    }

    /// The remote commits that follow the commit with the given identifier.
    pub fn remote_commits_after(&self, after_id: u128) -> (commits: &[Commit])
        ensures
            commit_views(commits@) == commits_after(self@.log.remote, after_id),
    {
        self.commit_log.load_remotes_after(after_id)
    }

    /// Opens a commit context for a commit of this replica's author. Only
    /// one can be open at a time.
    pub fn commit_ctx(&mut self, commit_comment: &str) -> (r: Result<CommitContextGuard, SyncError>)
        ensures
            match r {
                Ok(ctx) => !old(self)@.context_open && final(self)@ == (RepoState {
                    context_open: true,
                    ..old(self)@
                }) && ctx@.fresh_for(old(self)@.uid, commit_comment@),
                Err(e) => old(self)@.context_open && e == SyncError::ConcurrentCommitContext
                    && final(self)@ == old(self)@,
            },
    {
        if self.context_open {
            return Err(SyncError::ConcurrentCommitContext);
        }
        self.context_open = true;
        Ok(CommitContextGuard::new(self.ctx.uid.as_str(), commit_comment))
    }

    /// The storages as they are after the action objects were handed to
    /// them in order, on a copy; the first refusal ends it.
    fn stage(&self, actions: &Vec<UniversalActionObject>, now: Timestamp) -> (r: Result<
        H,
        SyncError,
    >)
        requires
            H::types_lawful(),
            self@.wf(),
        ensures
            match r {
                Ok(staged) => applied::<H>(self@.storages, envelopes(actions@), now) == Ok::<
                    H::State,
                    SyncError,
                >(staged.state()) && H::hooks_wf(staged.state()),
                Err(e) => applied::<H>(self@.storages, envelopes(actions@), now) == Err::<
                    H::State,
                    SyncError,
                >(e),
            },
    {
        let mut staged = self.storages.copy();
        let ghost all = envelopes(actions@);
        let mut i: usize = 0;
        assert(all.take(0) =~= Seq::<Envelope>::empty());
        while i < actions.len()
            invariant
                H::types_lawful(),
                i <= actions.len(),
                all == envelopes(actions@),
                H::hooks_wf(staged.state()),
                applied::<H>(self@.storages, all.take(i as int), now) == Ok::<
                    H::State,
                    SyncError,
                >(staged.state()),
            decreases actions.len() - i,
        {
            assert(all.take(i + 1).drop_last() =~= all.take(i as int));
            assert(all.take(i + 1).last() == actions@[i as int]@);
            match staged.accept(&actions[i], now) {
                Some(Err(e)) => {
                    proof {
                        lemma_applied_refusal::<H>(self@.storages, all, now, i + 1);
                    }
                    return Err(e);
                },
                _ => {},
            }
            i += 1;
        }
        assert(all.take(i as int) =~= all);
        Ok(staged)
    }

    /// Closes a commit context, at time `now`: the pending commit goes to
    /// the end of the remote log where it carries a remote signature, else
    /// to the end of the local log, and its action objects are handed round
    /// the storages in order; the first storage that answers an action
    /// object accepts it. Where the log or a storage refuses, nothing has
    /// changed but that the context is closed.
    pub fn close_commit_at(&mut self, ctx: CommitContextGuard, now: Timestamp) -> (r: Result<
        (),
        SyncError,
    >)
        requires
            H::types_lawful(),
            old(self)@.wf(),
        ensures
            final(self)@.wf(),
            old(self)@.close_outcome(ctx@.commit, now, r, final(self)@),
    {
        self.context_open = false;
        let commit = ctx.into_commit();
        let remote = commit.is_remote();
        if remote {
            match self.commit_log.check_remote_commit(&commit) {
                Ok(_) => {},
                Err(e) => {
                    return Err(e);
                },
            }
        } else {
            if !commit.has_unsigned_actions() {
                return Err(SyncError::WrongSide);
            }
        }
        let staged = match self.stage(&commit.actions, now) {
            Ok(staged) => staged,
            Err(e) => {
                return Err(e);
            },
        };
        let appended = if remote {
            self.commit_log.add_remote_commit(commit)
        } else {
            self.commit_log.add_local_commit(commit)
        };
        assert(appended is Ok);
        self.storages = staged;
        Ok(())
    }

    /// Closes a commit context at the current time.
    pub fn close_commit(&mut self, ctx: CommitContextGuard) -> (r: Result<(), SyncError>)
        requires
            H::types_lawful(),
            old(self)@.wf(),
        ensures
            final(self)@.wf(),
            exists|now: Timestamp| #[trigger]
                old(self)@.close_outcome(ctx@.commit, now, r, final(self)@),
    {
        let t = now();
        self.close_commit_at(ctx, t)
    }

    /// Closes a commit context without keeping its commit.
    pub fn abandon_commit(&mut self, ctx: CommitContextGuard)
        ensures
            final(self)@ == (RepoState { context_open: false, ..old(self)@ }),
    {
        self.context_open = false;
    }

    /// Merges a pushed commit, at time `now`, as the server does: the commit
    /// must be unsigned, as must its action objects, and name the last
    /// remote commit as its ancestor. Each action object is signed, the
    /// storages must accept the signed action objects in order, the commit
    /// is signed and put at the end of the remote log, and the signed commit
    /// is handed back. A refused commit leaves the replica as it is.
    pub fn merge_pushed_commit_at(&mut self, commit: Commit, now: Timestamp) -> (r: Result<
        Commit,
        SyncError,
    >)
        requires
            H::types_lawful(),
            old(self)@.wf(),
        ensures
            final(self)@.wf(),
            old(self)@.merge_outcome(commit@, now, answer_view(r), final(self)@),
    {
        if self.context_open {
            return Err(SyncError::ConcurrentCommitContext);
        }
        if commit.is_remote() {
            return Err(SyncError::WrongSide);
        }
        let expected = match self.commit_log.latest_remote_commit_id() {
            Some(id) => id,
            None => 0,
        };
        if commit.ancestor_id != expected {
            return Err(SyncError::StalePush);
        }
        if !commit.has_unsigned_actions() {
            return Err(SyncError::WrongSide);
        }
        let mut commit = commit;
        let ghost pushed = commit@;
        let mut signed: Vec<UniversalActionObject> = Vec::new();
        let mut i: usize = 0;
        while i < commit.actions.len()
            invariant
                i <= commit.actions.len(),
                commit@ == pushed,
                pushed.is_local_commit(),
                signed@.len() == i,
                forall|k: int|
                    0 <= k < i ==> (#[trigger] signed@[k])@ == signed_actions(pushed.actions)[k],
            decreases commit.actions.len() - i,
        {
            let mut aob = commit.actions[i].copy();
            assert(aob@ == pushed.actions[i as int]);
            let outcome = aob.remote_sign();
            assert(outcome is Ok);
            signed.push(aob);
            i += 1;
        }
        assert(envelopes(signed@) =~= signed_actions(pushed.actions));
        commit.actions = signed;
        let staged = match self.stage(&commit.actions, now) {
            Ok(staged) => staged,
            Err(e) => {
                return Err(e);
            },
        };
        let outcome = commit.add_remote_signature();
        assert(outcome is Ok);
        assert(commit@ == signed_commit(pushed));
        proof {
            lemma_signed_commit_is_remote(pushed);
        }
        let copy = commit.copy();
        let appended = self.commit_log.add_remote_commit(commit);
        assert(appended is Ok);
        self.storages = staged;
        Ok(copy)
    }

    /// Merges a pushed commit at the current time.
    pub fn merge_pushed_commit(&mut self, commit: Commit) -> (r: Result<Commit, SyncError>)
        requires
            H::types_lawful(),
            old(self)@.wf(),
        ensures
            final(self)@.wf(),
            exists|now: Timestamp| #[trigger]
                old(self)@.merge_outcome(commit@, now, answer_view(r), final(self)@),
    {
        let t = now();
        self.merge_pushed_commit_at(commit, t)
    }

    /// Whether a commit that was pulled from the server can be taken in, at
    /// time `now`, and the storages as they are after it.
    fn check_pulled(&self, commit: &Commit, now: Timestamp) -> (r: Result<H, SyncError>)
        requires
            H::types_lawful(),
            self@.wf(),
        ensures
            match r {
                Ok(staged) => self@.pull_error(commit@, now) is None && staged.state()
                    == self@.pulled(commit@, now).storages && H::hooks_wf(staged.state()),
                Err(e) => self@.pull_error(commit@, now) == Some(e),
            },
    {
        if self.context_open {
            return Err(SyncError::ConcurrentCommitContext);
        }
        if commit.is_local() {
            return Err(SyncError::MissingRemoteSignature);
        }
        if !commit.has_valid_remote_signature() {
            return Err(SyncError::SignatureMismatch);
        }
        let expected = match self.commit_log.latest_remote_commit_id() {
            Some(id) => id,
            None => 0,
        };
        if commit.ancestor_id != expected {
            return Err(SyncError::RemoteDivergence);
        }
        if !commit.has_signed_actions() {
            return Err(SyncError::SignatureMismatch);
        }
        self.stage(&commit.actions, now)
    }

    /// Takes in a commit that was pulled from the server, at time `now`:
    /// the commit must carry a valid signature, name the last remote commit
    /// held here as its ancestor, and hold action objects with valid
    /// signatures that the storages accept in order. It is put at the end of
    /// the remote log. A refused commit leaves the replica as it is.
    pub fn apply_pulled_commit_at(&mut self, commit: Commit, now: Timestamp) -> (r: Result<
        (),
        SyncError,
    >)
        requires
            H::types_lawful(),
            old(self)@.wf(),
        ensures
            final(self)@.wf(),
            old(self)@.pull_outcome(commit@, now, r, final(self)@),
    {
        let staged = match self.check_pulled(&commit, now) {
            Ok(staged) => staged,
            Err(e) => {
                return Err(e);
            },
        };
        let appended = self.commit_log.add_remote_commit(commit);
        assert(appended is Ok);
        self.storages = staged;
        Ok(())
    }

    /// Takes in a commit that was pulled from the server, at the current
    /// time.
    pub fn apply_pulled_commit(&mut self, commit: Commit) -> (r: Result<(), SyncError>)
        requires
            H::types_lawful(),
            old(self)@.wf(),
        ensures
            final(self)@.wf(),
            exists|now: Timestamp| #[trigger]
                old(self)@.pull_outcome(commit@, now, r, final(self)@),
    {
        let t = now();
        self.apply_pulled_commit_at(commit, t)
    }

    /// The commit to push next, if there is a local commit: the oldest
    /// local commit, naming the last remote commit held here as ancestor.
    /// Each of its action objects goes as its storage holds it now: replayed
    /// where the remote side has advanced since it was made, and naming the
    /// last remote action as its parent where it is the first local action
    /// of its object.
    pub fn next_push(&self) -> (commit: Option<Commit>)
        requires
            H::types_lawful(),
        ensures
            match commit {
                Some(c) => self@.log.local.len() > 0 && c@ == self@.push_candidate(),
                None => self@.log.local.len() == 0,
            },
    {
        let locals = self.commit_log.load_locals();
        if locals.len() == 0 {
            return None;
        }
        let oldest = &locals[0];
        assert(oldest@ == self@.log.local.first());
        let ghost made = oldest@.actions;
        let mut actions: Vec<UniversalActionObject> = Vec::new();
        let mut i: usize = 0;
        while i < oldest.actions.len()
            invariant
                H::types_lawful(),
                i <= oldest.actions.len(),
                made == envelopes(oldest.actions@),
                actions@.len() == i,
                forall|k: int|
                    0 <= k < i ==> (#[trigger] actions@[k])@ == H::rebased(
                        self@.storages,
                        made[k],
                    ),
            decreases oldest.actions.len() - i,
        {
            let aob = &oldest.actions[i];
            assert(aob@ == made[i as int]);
            let rebased = self.storages.rebase(aob);
            actions.push(rebased);
            i += 1;
        }
        assert(envelopes(actions@) =~= rebased_actions::<H>(self@.storages, made));
        let ancestor = match self.commit_log.latest_remote_commit_id() {
            Some(id) => id,
            None => 0,
        };
        Some(
            Commit {
                id: oldest.id,
                uid: oldest.uid.clone(),
                dtime: oldest.dtime,
                comment: oldest.comment.clone(),
                ancestor_id: ancestor,
                actions,
                remote_signature: crate::sync::action::copy_opt_text(&oldest.remote_signature),
            },
        )
    }

    /// Takes in the signed commit that the server answered a push with, at
    /// time `now`: it must be the oldest local commit, signed. It is taken
    /// in like a pulled commit, and the local commit leaves the local log. A
    /// refused commit leaves the replica as it is.
    pub fn acknowledge_push_at(&mut self, signed: Commit, now: Timestamp) -> (r: Result<
        (),
        SyncError,
    >)
        requires
            H::types_lawful(),
            old(self)@.wf(),
        ensures
            final(self)@.wf(),
            old(self)@.acknowledge_outcome(signed@, now, r, final(self)@),
    {
        let locals = self.commit_log.load_locals();
        if locals.len() == 0 {
            return Err(SyncError::RemoteDivergence);
        }
        assert(locals@[0]@ == self@.log.local.first());
        if locals[0].id != signed.id {
            return Err(SyncError::RemoteDivergence);
        }
        match self.apply_pulled_commit_at(signed, now) {
            Ok(_) => {},
            Err(e) => {
                return Err(e);
            },
        }
        let first = self.commit_log.take_first_local();
        assert(first is Some);
        Ok(())
    }

    /// Takes in the signed commit that the server answered a push with, at
    /// the current time.
    pub fn acknowledge_push(&mut self, signed: Commit) -> (r: Result<(), SyncError>)
        requires
            H::types_lawful(),
            old(self)@.wf(),
        ensures
            final(self)@.wf(),
            exists|now: Timestamp| #[trigger]
                old(self)@.acknowledge_outcome(signed@, now, r, final(self)@),
    {
        let t = now();
        self.acknowledge_push_at(signed, t)
    }

    /// Answers a pull request as the server does: every remote commit for
    /// an empty text; else the text must be read as an identifier, and the
    /// answer is the remote commits that follow the commit with it.
    pub fn pull(&self, after_commit_id: &str) -> (r: Result<&[Commit], SyncError>)
        ensures
            match r {
                Ok(commits) => commit_views(commits@) == (if after_commit_id@.len() == 0 {
                    self@.log.remote
                } else {
                    commits_after(self@.log.remote, parsed_id(after_commit_id@)->0)
                }) && (after_commit_id@.len() == 0 || parsed_id(after_commit_id@) is Some),
                Err(e) => e == SyncError::BadRequest && after_commit_id@.len() != 0 && parsed_id(
                    after_commit_id@,
                ) is None,
            },
    {
        if after_commit_id.unicode_len() == 0 {
            return Ok(self.commit_log.load_remotes_after(0));
        }
        match parse_id(after_commit_id) {
            Some(id) => Ok(self.commit_log.load_remotes_after(id)),
            None => Err(SyncError::BadRequest),
        }
    }
}

impl<T: ObjectExt, A: ActionExt<ObjectType = T>> Repository<Vec<Storage<T, A>>> {
    /// A replica without commits and without storages.
    pub fn init(ctx: Context, mode: Mode) -> (repo: Self)
        ensures
            repo@.wf(),
            repo@.uid == ctx.uid@,
            repo@.db_root_path == ctx.db_root_path@,
            repo@.mode == mode,
            repo@.log.local.len() == 0,
            repo@.log.remote.len() == 0,
            repo@.storages.len() == 0,
            !repo@.context_open,
    {
        Repository {
            ctx,
            repo_details: RepoDetails { mode },
            commit_log: CommitLog::init(),
            storages: Vec::new(),
            context_open: false,
        }
    }

    /// The registered storages, in the order of their registration.
    pub fn storages(&self) -> (storages: &Vec<Storage<T, A>>)
        ensures
            storage_views(storages@) == self@.storages,
    {
        &self.storages
    }

    /// The position of the storage of a name.
    fn find_storage(&self, id: &str) -> (at: Option<usize>)
        ensures
            match at {
                Some(k) => k < self@.storages.len() && self@.storages[k as int].id == id@ && k
                    == holder(self@.storages, id@),
                None => !self@.has_storage(id@) && holder(self@.storages, id@)
                    == self@.storages.len(),
            },
    {
        let at = find_by_name(&self.storages, id);
        proof {
            match at {
                Some(k) => {
                    assert(self@.storages[k as int] == self.storages@[k as int]@);
                },
                None => {
                    assert forall|k: int| 0 <= k < self@.storages.len() implies (
                    #[trigger] self@.storages[k]).id != id@ by {
                        assert(self@.storages[k] == self.storages@[k]@);
                    }
                },
            }
        }
        at
    }

    /// The storage of a name.
    pub fn storage(&self, id: &str) -> (storage: Option<&Storage<T, A>>)
        ensures
            match storage {
                Some(s) => self@.has_storage(id@) && s@.id == id@ && exists|k: int|
                    0 <= k < self@.storages.len() && #[trigger] self@.storages[k] == s@,
                None => !self@.has_storage(id@),
            },
    {
        match self.find_storage(id) {
            Some(k) => {
                assert(self@.storages[k as int] == self.storages@[k as int]@);
                Some(&self.storages[k])
            },
            None => None,
        }
    }

    /// Registers a storage at the end of the storages. While a commit
    /// context is open nothing can be registered; a name can be registered
    /// once.
    pub fn add_storage_hook(&mut self, storage: Storage<T, A>) -> (r: Result<(), SyncError>)
        requires
            old(self)@.wf(),
            storage@.wf(),
        ensures
            final(self)@.wf(),
            match r {
                Ok(_) => !old(self)@.context_open && !old(self)@.has_storage(storage@.id)
                    && final(self)@ == (RepoState {
                    storages: old(self)@.storages.push(storage@),
                    ..old(self)@
                }),
                Err(e) => final(self)@ == old(self)@ && e == (if old(self)@.context_open {
                    SyncError::ConcurrentCommitContext
                } else {
                    SyncError::DuplicateStorage
                }) && (old(self)@.context_open || old(self)@.has_storage(storage@.id)),
            },
    {
        if self.context_open {
            return Err(SyncError::ConcurrentCommitContext);
        }
        let name = storage.storage_id();
        if self.find_storage(name.as_str()).is_some() {
            return Err(SyncError::DuplicateStorage);
        }
        self.storages.push(storage);
        proof {
            let before = old(self)@.storages;
            let after = self@.storages;
            assert(after =~= before.push(storage@));
            assert forall|k: int| 0 <= k < after.len() implies (#[trigger] after[k]).wf() by {
                if k < before.len() {
                    assert(after[k] == before[k]);
                }
            }
            assert forall|i: int, j: int|
                0 <= i < after.len() && 0 <= j < after.len() && i != j implies (
            #[trigger] after[i]).id != (#[trigger] after[j]).id by {
                if i < before.len() {
                    assert(after[i] == before[i]);
                }
                if j < before.len() {
                    assert(after[j] == before[j]);
                }
            }
        }
        Ok(())
    }
}

/// A pushed commit that does not name the last remote commit is refused as
/// stale.
pub proof fn lemma_stale_push_is_refused<H: StorageHooks>(
    s: RepoState<H>,
    c: CommitView,
    now: Timestamp,
)
    requires
        !s.context_open,
        c.remote_signature is None,
        c.ancestor_id != next_ancestor(s.log.remote),
    ensures
        s.merge_error(c, now) == Some(SyncError::StalePush),
{
}

/// Of two commits that were made against the same remote log, the one that
/// is pushed second is refused as stale.
pub proof fn lemma_second_push_is_stale<H: StorageHooks>(
    s: RepoState<H>,
    first: CommitView,
    first_at: Timestamp,
    second: CommitView,
    second_at: Timestamp,
)
    requires
        s.merge_error(first, first_at) is None,
        second.remote_signature is None,
        second.ancestor_id == first.ancestor_id,
        first.id != first.ancestor_id,
    ensures
        s.merged(first, first_at).merge_error(second, second_at) == Some(SyncError::StalePush),
{
    let after = s.merged(first, first_at);
    assert(after.log.remote.last() == signed_commit(first));
}

/// A replica that holds the server's remote log pushes a commit that names
/// the ancestor that the server asks for.
pub proof fn lemma_push_after_pull_is_current<H: StorageHooks>(
    client: RepoState<H>,
    server: RepoState<H>,
)
    requires
        client.log.remote == server.log.remote,
        client.log.local.len() > 0,
    ensures
        client.push_candidate().ancestor_id == next_ancestor(server.log.remote),
{
}

/// Closing a commit is deterministic: the same replica, commit and time give
/// the same outcome and the same replica after it.
pub proof fn lemma_close_is_deterministic<H: StorageHooks>(
    s: RepoState<H>,
    c: CommitView,
    now: Timestamp,
    r1: Result<(), SyncError>,
    after1: RepoState<H>,
    r2: Result<(), SyncError>,
    after2: RepoState<H>,
)
    requires
        s.close_outcome(c, now, r1, after1),
        s.close_outcome(c, now, r2, after2),
    ensures
        r1 == r2,
        after1 == after2,
{
    match (r1, r2) {
        (Ok(u1), Ok(u2)) => {
            assert(u1 == u2);
        },
        (Err(e1), Err(e2)) => {
            assert(Some(e1) == Some(e2));
        },
        _ => {},
    }
}

/// Two replicas that hold the same remote log and take in the same commit
/// hold the same remote log after it, whenever each takes it in.
pub proof fn lemma_pull_same_log<H: StorageHooks>(
    a: RepoState<H>,
    a_at: Timestamp,
    b: RepoState<H>,
    b_at: Timestamp,
    c: CommitView,
)
    requires
        a.log.remote == b.log.remote,
    ensures
        a.pulled(c, a_at).log.remote == b.pulled(c, b_at).log.remote,
{
}

/// An action object that a storage of a list accepts is accepted by the
/// list: the storages before that storage pass it over, and that storage
/// reads it back as it was made.
pub proof fn lemma_single_action_applies<T: ObjectExt, A: ActionExt<ObjectType = T>>(
    storages: Seq<StorageState<T, A>>,
    k: int,
    a: crate::sync::action::ActionView<T, A>,
    now: Timestamp,
)
    requires
        lawful::<T, A>(),
        storages_wf(storages),
        0 <= k < storages.len(),
        storages[k].action_error(a) is None,
    ensures
        applied::<Vec<Storage<T, A>>>(storages, seq![a.envelope()], now) == Ok::<
            Seq<StorageState<T, A>>,
            SyncError,
        >(storages.update(k, storages[k].with_action(a, now))),
{
    let e = a.envelope();
    let actions = seq![e];
    a.lemma_reads_back();
    assert(actions.drop_last() =~= Seq::<Envelope>::empty());
    assert(actions.last() == e);
    assert(a.storage_id == storages[k].id);
    assert forall|j: int| 0 <= j < k implies (#[trigger] storages[j]).answer(e) is None by {
        assert(storages[j].id != storages[k].id);
    }
    assert(storages[k].answer(e) == Some(None::<SyncError>));
    lemma_answering(storages, e, k);
    assert(applied::<Vec<Storage<T, A>>>(storages, actions.drop_last(), now) == Ok::<
        Seq<StorageState<T, A>>,
        SyncError,
    >(storages));
}

/// An action object that a storage of the replica accepts, alone in an
/// unsigned commit, is not refused when the commit is closed.
pub proof fn lemma_own_action_closes<T: ObjectExt, A: ActionExt<ObjectType = T>>(
    s: RepoState<Vec<Storage<T, A>>>,
    k: int,
    session: crate::sync::session::SessionState,
    a: crate::sync::action::ActionView<T, A>,
    now: Timestamp,
)
    requires
        lawful::<T, A>(),
        s.wf(),
        0 <= k < s.storages.len(),
        session.commit.remote_signature is None,
        session.commit.actions.len() == 0,
        a.remote_signature is None,
        s.storages[k].action_error(a) is None,
    ensures
        s.close_error(session.with_action(a.envelope()).commit, now) is None,
        s.closed(session.with_action(a.envelope()).commit, now).storages == s.storages.update(
            k,
            s.storages[k].with_action(a, now),
        ),
{
    let e = a.envelope();
    let c = session.with_action(e).commit;
    assert(c.actions =~= seq![e]);
    lemma_single_action_applies(s.storages, k, a, now);
    assert(c.actions_unsigned()) by {
        assert forall|i: int| 0 <= i < c.actions.len() implies (
        #[trigger] c.actions[i]).remote_signature is None by {}
    }
}

/// A commit that holds nothing but the create action that `create_object`
/// made for a storage of the replica is not refused when it is closed,
/// unless the identifier drawn for the object is that of a member; the
/// storage then holds the new object at its end.
pub proof fn lemma_created_commit_closes<T: ObjectExt, A: ActionExt<ObjectType = T>>(
    s: RepoState<Vec<Storage<T, A>>>,
    k: int,
    session: crate::sync::session::SessionState,
    data: T,
    action_id: u128,
    object_id: u128,
    dtime: Timestamp,
    now: Timestamp,
)
    requires
        lawful::<T, A>(),
        s.wf(),
        0 <= k < s.storages.len(),
        !s.storages[k].has(object_id),
        session.commit.remote_signature is None,
        session.commit.actions.len() == 0,
    ensures
        ({
            let a = s.storages[k].creates(
                session.uid,
                session.commit.id,
                data,
                action_id,
                object_id,
                dtime,
            );
            let c = session.with_action(a.envelope()).commit;
            &&& s.close_error(c, now) is None
            &&& s.closed(c, now).storages[k].members == s.storages[k].members.push(
                crate::sync::object::ObjectState::created(a),
            )
            &&& s.closed(c, now).log.local == s.log.local.push(s.log.local_entry(c))
        }),
{
    let a = s.storages[k].creates(session.uid, session.commit.id, data, action_id, object_id, dtime);
    crate::sync::store::lemma_create_is_accepted(
        s.storages[k],
        session.uid,
        session.commit.id,
        data,
        action_id,
        object_id,
        dtime,
    );
    lemma_own_action_closes(s, k, session, a, now);
}

/// A commit that holds nothing but a patch action that `patch` made against
/// a member of a storage of the replica, with a patch that applies, is not
/// refused when it is closed; the member then holds the patch at the end of
/// its local chain.
pub proof fn lemma_patched_commit_closes<T: ObjectExt, A: ActionExt<ObjectType = T>>(
    s: RepoState<Vec<Storage<T, A>>>,
    k: int,
    j: int,
    session: crate::sync::session::SessionState,
    patch: A,
    id: u128,
    dtime: Timestamp,
    now: Timestamp,
)
    requires
        lawful::<T, A>(),
        s.wf(),
        0 <= k < s.storages.len(),
        0 <= j < s.storages[k].members.len(),
        session.commit.remote_signature is None,
        session.commit.actions.len() == 0,
        crate::sync::action::patched_by(patch, s.storages[k].members[j].local_object, session.uid)
            is Ok,
    ensures
        ({
            let o = s.storages[k].members[j];
            let a = o.makes(
                session.uid,
                session.commit.id,
                crate::sync::action::ActionKind::Patch(patch),
                id,
                dtime,
            );
            let c = session.with_action(a.envelope()).commit;
            &&& s.close_error(c, now) is None
            &&& s.closed(c, now).storages[k].members == s.storages[k].members.update(
                j,
                o.local_patched(a),
            )
        }),
{
    let st = s.storages[k];
    let o = st.members[j];
    let a = o.makes(
        session.uid,
        session.commit.id,
        crate::sync::action::ActionKind::Patch(patch),
        id,
        dtime,
    );
    assert(st.wf());
    assert(o.storage_id == st.id);
    assert forall|i: int| 0 <= i < j implies (#[trigger] st.members[i]).id != o.id by {}
    crate::sync::store::lemma_find(st.members, o.id, j);
    crate::sync::object::lemma_made_patch_is_accepted(
        o,
        session.uid,
        session.commit.id,
        patch,
        id,
        dtime,
    );
    lemma_own_action_closes(s, k, session, a, now);
}

} // verus!
