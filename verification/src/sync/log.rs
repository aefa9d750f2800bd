use crate::sync::commit::{commit_views, Commit, CommitView};
use crate::sync::error::SyncError;
use crate::sync::stamp::sentinel_id;
use vstd::prelude::*;
use vstd::slice::*;

verus! {

/// The identifier of the last commit of each log, if the log has one.
#[derive(Debug, PartialEq, Eq)]
pub struct CommitIndex {
    pub latest_local_commit_id: Option<u128>,
    pub latest_remote_commit_id: Option<u128>,
}

/// The two logs of a replica: the commits that are not published yet, and
/// the commits that the server accepted.
pub struct CommitLog {
    local: Vec<Commit>,
    remote: Vec<Commit>,
}

/// The mathematical content of the logs.
pub struct LogState {
    pub local: Seq<CommitView>,
    pub remote: Seq<CommitView>,
}

/// The identifier of the last commit of a log, if the log has one.
pub open spec fn last_id(commits: Seq<CommitView>) -> Option<u128> {
    if commits.len() == 0 {
        None
    } else {
        Some(commits.last().id)
    }
}

/// The ancestor that the next commit of a log names: the last commit of the
/// log, or the sentinel where the log is empty.
pub open spec fn next_ancestor(commits: Seq<CommitView>) -> u128 {
    match last_id(commits) {
        Some(id) => id,
        None => sentinel_id(),
    }
}

/// The position of the first commit with an identifier, or the length of
/// the log where no commit has it.
pub open spec fn position(commits: Seq<CommitView>, id: u128) -> int
    decreases commits.len(),
{
    if commits.len() == 0 {
        0
    } else if commits.first().id == id {
        0
    } else {
        1 + position(commits.drop_first(), id)
    }
}

/// The commits of a log that follow the first commit with an identifier:
/// all of them for the sentinel, none where no commit has the identifier.
pub open spec fn commits_after(commits: Seq<CommitView>, id: u128) -> Seq<CommitView> {
    if id == sentinel_id() {
        commits
    } else if position(commits, id) >= commits.len() {
        Seq::empty()
    } else {
        commits.subrange(position(commits, id) + 1, commits.len() as int)
    }
}

/// Where the first commit with an identifier stands.
pub proof fn lemma_position(commits: Seq<CommitView>, id: u128, i: int)
    requires
        0 <= i <= commits.len(),
        forall|k: int| 0 <= k < i ==> (#[trigger] commits[k]).id != id,
        i < commits.len() ==> commits[i].id == id,
    ensures
        position(commits, id) == i,
    decreases commits.len(),
{
    if commits.len() > 0 && i > 0 {
        let rest = commits.drop_first();
        assert(commits[0].id != id);
        assert forall|k: int| 0 <= k < i - 1 implies (#[trigger] rest[k]).id != id by {
            assert(rest[k] == commits[k + 1]);
        }
        if i < commits.len() {
            assert(rest[i - 1] == commits[i]);
        }
        lemma_position(rest, id, i - 1);
    }
}

impl LogState {
    /// The invariant of the logs. Every local commit is unsigned, with
    /// unsigned actions, and names the local commit before it. Every remote
    /// commit carries a valid signature, and so does each of its actions; it
    /// names the remote commit before it, and the first names the sentinel.
    pub open spec fn wf(self) -> bool {
        &&& forall|i: int| 0 <= i < self.local.len() ==> (#[trigger] self.local[i]).is_local_commit()
        &&& forall|i: int|
            1 <= i < self.local.len() ==> (#[trigger] self.local[i]).ancestor_id == self.local[i
                - 1].id
        &&& forall|i: int|
            0 <= i < self.remote.len() ==> (#[trigger] self.remote[i]).is_remote_commit()
        &&& forall|i: int|
            0 <= i < self.remote.len() ==> (#[trigger] self.remote[i]).ancestor_id == (if i == 0 {
                sentinel_id()
            } else {
                self.remote[i - 1].id
            })
    }

    /// What a commit is refused with at the end of the local log.
    pub open spec fn local_error(self, c: CommitView) -> Option<SyncError> {
        if !c.is_local_commit() {
            Some(SyncError::WrongSide)
        } else {
            None
        }
    }

    /// The commit as it enters the local log: with the last local commit, or
    /// the sentinel, for its ancestor.
    pub open spec fn local_entry(self, c: CommitView) -> CommitView {
        CommitView { ancestor_id: next_ancestor(self.local), ..c }
    }

    /// The logs with a commit at the end of the local log.
    pub open spec fn local_appended(self, c: CommitView) -> LogState {
        LogState { local: self.local.push(self.local_entry(c)), ..self }
    }

    /// What a commit is refused with at the end of the remote log: a commit
    /// that does not name the last remote commit is stale; an unsigned one
    /// lacks its signature; a wrong signature, on it or on one of its
    /// actions, is a mismatch.
    pub open spec fn remote_error(self, c: CommitView) -> Option<SyncError> {
        if c.ancestor_id != next_ancestor(self.remote) {
            Some(SyncError::StalePush)
        } else if c.remote_signature is None {
            Some(SyncError::MissingRemoteSignature)
        } else if !c.remote_signature_valid() {
            Some(SyncError::SignatureMismatch)
        } else if !c.actions_signed() {
            Some(SyncError::SignatureMismatch)
        } else {
            None
        }
    }

    /// The logs with a commit at the end of the remote log.
    pub open spec fn remote_appended(self, c: CommitView) -> LogState {
        LogState { remote: self.remote.push(c), ..self }
    }

    /// The logs without the first local commit.
    pub open spec fn first_local_dropped(self) -> LogState {
        LogState { local: self.local.drop_first(), ..self }
    }
}

impl View for CommitLog {
    type V = LogState;

    closed spec fn view(&self) -> LogState {
        LogState { local: commit_views(self.local@), remote: commit_views(self.remote@) }
    }
}

impl CommitLog {
    /// Two empty logs.
    pub fn init() -> (log: Self)
        ensures
            log@.local.len() == 0,
            log@.remote.len() == 0,
            log@.wf(),
    {
        CommitLog { local: Vec::new(), remote: Vec::new() }
    }

    /// The local log, oldest commit first.
    pub fn load_locals(&self) -> (commits: &Vec<Commit>)
        ensures
            commit_views(commits@) == self@.local,
    {
        &self.local
    }

    /// The remote log, oldest commit first.
    pub fn load_remotes(&self) -> (commits: &Vec<Commit>)
        ensures
            commit_views(commits@) == self@.remote,
    {
        &self.remote
    }

    /// The remote commits that follow the commit with the given identifier:
    /// all of them for the sentinel, none where no commit has it.
    pub fn load_remotes_after(&self, after_id: u128) -> (commits: &[Commit])
        ensures
            commit_views(commits@) == commits_after(self@.remote, after_id),
    {
        let all = self.remote.as_slice();
        if after_id == 0 {
            return all;
        }
        let mut i: usize = 0;
        while i < all.len()
            invariant
                i <= all.len(),
                after_id != sentinel_id(),
                all@ == self.remote@,
                forall|k: int| 0 <= k < i ==> (#[trigger] self@.remote[k]).id != after_id,
            decreases all.len() - i,
        {
            assert(self@.remote[i as int] == all@[i as int]@);
            if all[i].id == after_id {
                proof {
                    lemma_position(self@.remote, after_id, i as int);
                }
                let rest = slice_subrange(all, i + 1, all.len());
                assert(commit_views(rest@) =~= self@.remote.subrange(
                    i + 1,
                    self@.remote.len() as int,
                ));
                return rest;
            }
            i += 1;
        }
        proof {
            lemma_position(self@.remote, after_id, i as int);
        }
        let none = slice_subrange(all, i, all.len());
        assert(commit_views(none@) =~= Seq::<CommitView>::empty());
        none
    }

    /// The identifier of the last local commit, if there is one.
    pub fn latest_local_commit_id(&self) -> (id: Option<u128>)
        ensures
            id == last_id(self@.local),
    {
        let n = self.local.len();
        if n == 0 {
            None
        } else {
            Some(self.local[n - 1].id)
        }
    }

    /// The identifier of the last remote commit, if there is one.
    pub fn latest_remote_commit_id(&self) -> (id: Option<u128>)
        ensures
            id == last_id(self@.remote),
    {
        let n = self.remote.len();
        if n == 0 {
            None
        } else {
            Some(self.remote[n - 1].id)
        }
    }

    /// The identifier of the last commit of each log.
    pub fn index(&self) -> (index: CommitIndex)
        ensures
            index.latest_local_commit_id == last_id(self@.local),
            index.latest_remote_commit_id == last_id(self@.remote),
    {
        CommitIndex {
            latest_local_commit_id: self.latest_local_commit_id(),
            latest_remote_commit_id: self.latest_remote_commit_id(),
        }
    }

    /// Whether a commit would be accepted at the end of the remote log.
    pub fn check_remote_commit(&self, remote_commit: &Commit) -> (r: Result<(), SyncError>)
        ensures
            match r {
                Ok(_) => self@.remote_error(remote_commit@) is None,
                Err(e) => self@.remote_error(remote_commit@) == Some(e),
            },
    {
        let expected = match self.latest_remote_commit_id() {
            Some(id) => id,
            None => 0,
        };
        if remote_commit.ancestor_id != expected {
            return Err(SyncError::StalePush);
        }
        if remote_commit.is_local() {
            return Err(SyncError::MissingRemoteSignature);
        }
        if !remote_commit.has_valid_remote_signature() {
            return Err(SyncError::SignatureMismatch);
        }
        if !remote_commit.has_signed_actions() {
            return Err(SyncError::SignatureMismatch);
        }
        Ok(())
    }

    /// Puts a commit at the end of the local log, with the last local
    /// commit, or the sentinel, for its ancestor. A commit that is signed, or
    /// holds a signed action, is refused and the log left as it is.
    pub fn add_local_commit(&mut self, local_commit: Commit) -> (r: Result<(), SyncError>)
        requires
            old(self)@.wf(),
        ensures
            final(self)@.wf(),
            match r {
                Ok(_) => old(self)@.local_error(local_commit@) is None
                    && final(self)@ == old(self)@.local_appended(local_commit@),
                Err(e) => old(self)@.local_error(local_commit@) == Some(e)
                    && final(self)@ == old(self)@,
            },
    {
        if local_commit.is_remote() || !local_commit.has_unsigned_actions() {
            return Err(SyncError::WrongSide);
        }
        let mut local_commit = local_commit;
        let ancestor = match self.latest_local_commit_id() {
            Some(id) => id,
            None => 0,
        };
        local_commit.set_ancestor_id(ancestor);
        let ghost entry = local_commit@;
        self.local.push(local_commit);
        proof {
            assert(self@.local =~= old(self)@.local.push(entry));
            assert forall|i: int| 0 <= i < self@.local.len() implies (
            #[trigger] self@.local[i]).is_local_commit() by {
                if i < old(self)@.local.len() {
                    assert(self@.local[i] == old(self)@.local[i]);
                }
            }
            assert forall|i: int| 1 <= i < self@.local.len() implies (
            #[trigger] self@.local[i]).ancestor_id == self@.local[i - 1].id by {
                if i < old(self)@.local.len() {
                    assert(self@.local[i] == old(self)@.local[i]);
                    assert(self@.local[i - 1] == old(self)@.local[i - 1]);
                }
            }
        }
        Ok(())
    }

    /// Puts a commit at the end of the remote log. The commit must name the
    /// last remote commit, or the sentinel where there is none, as its
    /// ancestor, and carry a valid signature, as must each of its actions. A
    /// refused commit leaves the log as it is.
    pub fn add_remote_commit(&mut self, remote_commit: Commit) -> (r: Result<(), SyncError>)
        requires
            old(self)@.wf(),
        ensures
            final(self)@.wf(),
            match r {
                Ok(_) => old(self)@.remote_error(remote_commit@) is None
                    && final(self)@ == old(self)@.remote_appended(remote_commit@),
                Err(e) => old(self)@.remote_error(remote_commit@) == Some(e) && final(self)@
                    == old(self)@,
            },
    {
        match self.check_remote_commit(&remote_commit) {
            Ok(_) => {},
            Err(e) => {
                return Err(e);
            },
        }
        self.remote.push(remote_commit);
        proof {
            assert(self@.remote =~= old(self)@.remote.push(remote_commit@));
            assert forall|i: int| 0 <= i < self@.remote.len() implies (
            #[trigger] self@.remote[i]).is_remote_commit() by {
                if i < old(self)@.remote.len() {
                    assert(self@.remote[i] == old(self)@.remote[i]);
                }
            }
            assert forall|i: int| 0 <= i < self@.remote.len() implies (
            #[trigger] self@.remote[i]).ancestor_id == (if i == 0 {
                sentinel_id()
            } else {
                self@.remote[i - 1].id
            }) by {
                if i < old(self)@.remote.len() {
                    assert(self@.remote[i] == old(self)@.remote[i]);
                    if i > 0 {
                        assert(self@.remote[i - 1] == old(self)@.remote[i - 1]);
                    }
                }
            }
        }
        Ok(())
    }

    /// Takes the oldest commit out of the local log.
    pub fn take_first_local(&mut self) -> (first: Option<Commit>)
        requires
            old(self)@.wf(),
        ensures
            final(self)@.wf(),
            match first {
                Some(c) => old(self)@.local.len() > 0 && c@ == old(self)@.local.first()
                    && final(self)@ == old(self)@.first_local_dropped(),
                None => old(self)@.local.len() == 0 && final(self)@ == old(self)@,
            },
    {
        if self.local.len() == 0 {
            return None;
        }
        let first = self.local.remove(0);
        proof {
            assert(self@.local =~= old(self)@.local.drop_first());
            assert forall|i: int| 0 <= i < self@.local.len() implies (
            #[trigger] self@.local[i]).is_local_commit() by {
                assert(self@.local[i] == old(self)@.local[i + 1]);
            }
            assert forall|i: int| 1 <= i < self@.local.len() implies (
            #[trigger] self@.local[i]).ancestor_id == self@.local[i - 1].id by {
                assert(self@.local[i] == old(self)@.local[i + 1]);
                assert(self@.local[i - 1] == old(self)@.local[i]);
            }
        }
        Some(first)
    }
}

/// Every commit of the remote log carries a valid signature, and so does
/// each of its action objects; it names the commit before it as its
/// ancestor, and the first names the sentinel.
pub proof fn lemma_remote_log(log: LogState, i: int)
    requires
        log.wf(),
        0 <= i < log.remote.len(),
    ensures
        log.remote[i].remote_signature_valid(),
        log.remote[i].actions_signed(),
        log.remote[i].ancestor_id == (if i == 0 {
            sentinel_id()
        } else {
            log.remote[i - 1].id
        }),
{
    assert(log.remote[i].is_remote_commit());
}

/// The first commit that enters an empty local log names the sentinel as
/// its ancestor; every later one names the commit before it.
pub proof fn lemma_local_entry(log: LogState, c: CommitView)
    ensures
        log.local.len() == 0 ==> log.local_appended(c).local.last().ancestor_id == sentinel_id(),
        log.local.len() > 0 ==> log.local_appended(c).local.last().ancestor_id
            == log.local.last().id,
{
}

} // verus!
