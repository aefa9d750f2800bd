use crate::prelude::{sign_bytes, signature_of};
use crate::sync::action::{
    copy_opt_text, envelopes, opt_text, Encode, Envelope, UniversalActionObject,
};
use crate::sync::codec::{
    enc_bytes, enc_id, enc_opt_text, enc_text, enc_time, enc_u64, put_bytes, put_id,
    put_opt_text, put_text, put_time, put_u64, start_id,
};
use crate::sync::error::SyncError;
use crate::sync::stamp::{fresh_id, now, sentinel_id, Timestamp};
use vstd::prelude::*;

verus! {

/// A group of actions that enters a log as one.
pub struct Commit {
    pub id: u128,
    pub uid: String,
    pub dtime: Timestamp,
    pub comment: String,
    pub ancestor_id: u128,
    pub actions: Vec<UniversalActionObject>,
    pub remote_signature: Option<String>,
}

/// The mathematical content of a commit.
pub struct CommitView {
    pub id: u128,
    pub uid: Seq<char>,
    pub dtime: Timestamp,
    pub comment: Seq<char>,
    pub ancestor_id: u128,
    pub actions: Seq<Envelope>,
    pub remote_signature: Option<Seq<char>>,
}

/// The canonical bytes of a sequence of action objects: each behind its
/// length.
pub open spec fn actions_bytes(actions: Seq<Envelope>) -> Seq<u8>
    decreases actions.len(),
{
    if actions.len() == 0 {
        Seq::empty()
    } else {
        actions_bytes(actions.drop_last()) + enc_bytes(actions.last().canonical())
    }
}

impl CommitView {
    /// The same commit without a remote signature.
    pub open spec fn unsigned(self) -> CommitView {
        CommitView { remote_signature: None, ..self }
    }

    /// The canonical bytes of the commit, field by field.
    pub open spec fn canonical(self) -> Seq<u8> {
        enc_id(self.id) + enc_text(self.uid) + enc_time(self.dtime) + enc_text(self.comment)
            + enc_id(self.ancestor_id) + enc_u64(self.actions.len() as u64) + actions_bytes(
            self.actions,
        ) + enc_opt_text(self.remote_signature)
    }

    /// The signature that the server puts on the commit: taken over the
    /// canonical bytes with the remote signature cleared.
    pub open spec fn expected_remote_signature(self) -> Seq<char> {
        signature_of(self.unsigned().canonical())
    }

    /// Whether the commit carries the remote signature that belongs on it.
    pub open spec fn remote_signature_valid(self) -> bool {
        self.remote_signature == Some(self.expected_remote_signature())
    }

    /// Whether every action of the commit carries a valid remote signature.
    pub open spec fn actions_signed(self) -> bool {
        forall|i: int|
            0 <= i < self.actions.len() ==> (#[trigger] self.actions[i]).remote_signature_valid()
    }

    /// Whether no action of the commit carries a remote signature.
    pub open spec fn actions_unsigned(self) -> bool {
        forall|i: int|
            0 <= i < self.actions.len() ==> (#[trigger] self.actions[i]).remote_signature is None
    }

    /// A commit as the remote log holds it: signed by the server, and so is
    /// every action in it.
    pub open spec fn is_remote_commit(self) -> bool {
        self.remote_signature_valid() && self.actions_signed()
    }

    /// A commit as the local log holds it: unsigned, and so is every action
    /// in it.
    pub open spec fn is_local_commit(self) -> bool {
        self.remote_signature is None && self.actions_unsigned()
    }
}

impl View for Commit {
    type V = CommitView;

    open spec fn view(&self) -> CommitView {
        CommitView {
            id: self.id,
            uid: self.uid@,
            dtime: self.dtime,
            comment: self.comment@,
            ancestor_id: self.ancestor_id,
            actions: envelopes(self.actions@),
            remote_signature: opt_text(self.remote_signature),
        }
    }
}

/// The contents of a sequence of commits.
pub open spec fn commit_views(commits: Seq<Commit>) -> Seq<CommitView> {
    commits.map_values(|c: Commit| c@)
}

impl Commit {
    /// An empty unsigned commit without an ancestor.
    pub fn new_with(id: u128, dtime: Timestamp, uid: String, comment: String) -> (commit: Self)
        ensures
            commit@ == (CommitView {
                id,
                uid: uid@,
                dtime,
                comment: comment@,
                ancestor_id: sentinel_id(),
                actions: Seq::empty(),
                remote_signature: None,
            }),
    {
        let commit = Commit {
            id,
            uid,
            dtime,
            comment,
            ancestor_id: 0,
            actions: Vec::new(),
            remote_signature: None,
        };
        assert(envelopes(commit.actions@) =~= Seq::<Envelope>::empty());
        commit
    }

    /// An empty unsigned commit without an ancestor, with a new identifier
    /// and the current time.
    pub fn new(uid: String, comment: String) -> (commit: Self)
        ensures
            commit@ == (CommitView {
                id: commit@.id,
                uid: uid@,
                dtime: commit@.dtime,
                comment: comment@,
                ancestor_id: sentinel_id(),
                actions: Seq::empty(),
                remote_signature: None,
            }),
            commit@.id != sentinel_id(),
    {
        let id = fresh_id();
        proof {
            crate::sync::stamp::lemma_random_id_not_sentinel(id);
        }
        Self::new_with(id, now(), uid, comment)
    }

    /// Puts an action object at the end of the commit.
    pub fn add_action_object(&mut self, aob: UniversalActionObject)
        ensures
            final(self)@ == (CommitView { actions: old(self)@.actions.push(aob@), ..old(self)@ }),
    {
        self.actions.push(aob);
        assert(envelopes(self.actions@) =~= envelopes(old(self).actions@).push(aob@));
    }

    /// Stamps the commit with the current time.
    pub fn set_dtime(&mut self)
        ensures
            final(self)@ == (CommitView { dtime: final(self)@.dtime, ..old(self)@ }),
    {
        let t = now();
        self.set_dtime_at(t);
    }

    /// Stamps the commit with the given time. Nothing else of it changes.
    pub fn set_dtime_at(&mut self, dtime: Timestamp)
        ensures
            final(self)@ == (CommitView { dtime, ..old(self)@ }),
    {
        self.dtime = dtime;
    }

    pub fn set_ancestor_id(&mut self, ancestor_id: u128)
        ensures
            final(self)@ == (CommitView { ancestor_id, ..old(self)@ }),
    {
        self.ancestor_id = ancestor_id;
    }

    pub fn is_remote(&self) -> (b: bool)
        ensures
            b == self@.remote_signature is Some,
    {
        self.remote_signature.is_some()
    }

    pub fn is_local(&self) -> (b: bool)
        ensures
            b == self@.remote_signature is None,
    {
        !self.is_remote()
    }

    /// The canonical bytes of the actions.
    fn encode_actions(&self) -> (out: Vec<u8>)
        ensures
            out@ == actions_bytes(self@.actions),
    {
        let mut out: Vec<u8> = Vec::new();
        let mut i: usize = 0;
        let ghost all = self@.actions;
        assert(all.take(0) =~= Seq::<Envelope>::empty());
        while i < self.actions.len()
            invariant
                i <= self.actions.len(),
                all == envelopes(self.actions@),
                out@ == actions_bytes(all.take(i as int)),
            decreases self.actions.len() - i,
        {
            let bytes = self.actions[i].to_canonical_bytes();
            assert(all.take(i + 1).drop_last() =~= all.take(i as int));
            assert(all.take(i + 1).last() == self.actions@[i as int]@);
            put_bytes(&mut out, bytes.as_slice());
            i += 1;
        }
        assert(all.take(i as int) =~= all);
        out
    }

    /// The canonical bytes, with the remote signature or cleared of it.
    fn encode(&self, signed: bool) -> (out: Vec<u8>)
        ensures
            out@ == (if signed {
                self@.canonical()
            } else {
                self@.unsigned().canonical()
            }),
    {
        let mut out = start_id(self.id);
        put_text(&mut out, self.uid.as_str());
        put_time(&mut out, self.dtime);
        put_text(&mut out, self.comment.as_str());
        put_id(&mut out, self.ancestor_id);
        put_u64(&mut out, self.actions.len() as u64);
        let mut body = self.encode_actions();
        out.append(&mut body);
        let tail: Option<&str> = match &self.remote_signature {
            Some(s) => if signed {
                Some(s.as_str())
            } else {
                None
            },
            None => None,
        };
        put_opt_text(&mut out, tail);
        out
    }

    /// The canonical bytes of the commit.
    pub fn to_canonical_bytes(&self) -> (bytes: Vec<u8>)
        ensures
            bytes@ == self@.canonical(),
    {
        self.encode(true)
    }

    /// The bytes that the remote signature is taken over.
    pub fn signing_bytes(&self) -> (bytes: Vec<u8>)
        ensures
            bytes@ == self@.unsigned().canonical(),
    {
        self.encode(false)
    }

    /// Signs the commit for the remote side. A commit that is signed already
    /// is refused and left as it is.
    pub fn add_remote_signature(&mut self) -> (r: Result<(), SyncError>)
        ensures
            old(self)@.remote_signature is Some ==> r == Err::<(), SyncError>(
                SyncError::WrongSide,
            ) && *final(self) == *old(self),
            old(self)@.remote_signature is None ==> r is Ok && final(self)@ == (CommitView {
                remote_signature: Some(old(self)@.expected_remote_signature()),
                ..old(self)@
            }) && final(self)@.remote_signature_valid(),
    {
        if self.is_remote() {
            return Err(SyncError::WrongSide);
        }
        let bytes = self.signing_bytes();
        let signature = sign_bytes(bytes.as_slice());
        self.remote_signature = Some(signature);
        proof {
            assert(self@.unsigned() == old(self)@.unsigned());
            assert(old(self)@.unsigned() == old(self)@);
        }
        Ok(())
    }

    /// Whether the remote signature is there and is the right one.
    pub fn has_valid_remote_signature(&self) -> (valid: bool)
        ensures
            valid == self@.remote_signature_valid(),
    {
        match &self.remote_signature {
            Some(stored) => {
                let bytes = self.signing_bytes();
                let expected = sign_bytes(bytes.as_slice());
                *stored == expected
            },
            None => false,
        }
    }

    /// Whether every action carries a valid remote signature.
    pub fn has_signed_actions(&self) -> (b: bool)
        ensures
            b == self@.actions_signed(),
    {
        let mut i: usize = 0;
        while i < self.actions.len()
            invariant
                i <= self.actions.len(),
                forall|k: int|
                    0 <= k < i ==> (#[trigger] self@.actions[k]).remote_signature_valid(),
            decreases self.actions.len() - i,
        {
            if !self.actions[i].has_valid_remote_signature() {
                assert(!self@.actions[i as int].remote_signature_valid());
                return false;
            }
            i += 1;
        }
        true
    }

    /// Whether no action carries a remote signature.
    pub fn has_unsigned_actions(&self) -> (b: bool)
        ensures
            b == self@.actions_unsigned(),
    {
        let mut i: usize = 0;
        while i < self.actions.len()
            invariant
                i <= self.actions.len(),
                forall|k: int| 0 <= k < i ==> (#[trigger] self@.actions[k]).remote_signature is None,
            decreases self.actions.len() - i,
        {
            if self.actions[i].is_remote() {
                assert(self@.actions[i as int].remote_signature is Some);
                return false;
            }
            i += 1;
        }
        true
    }

    /// An equal copy of the commit.
    pub fn copy(&self) -> (copy: Self)
        ensures
            copy@ == self@,
    {
        let mut actions: Vec<UniversalActionObject> = Vec::new();
        let mut i: usize = 0;
        while i < self.actions.len()
            invariant
                i <= self.actions.len(),
                actions@.len() == i,
                forall|k: int| 0 <= k < i ==> (#[trigger] actions@[k])@ == self.actions@[k]@,
            decreases self.actions.len() - i,
        {
            actions.push(self.actions[i].copy());
            i += 1;
        }
        assert(envelopes(actions@) =~= envelopes(self.actions@));
        Commit {
            id: self.id,
            uid: self.uid.clone(),
            dtime: self.dtime,
            comment: self.comment.clone(),
            ancestor_id: self.ancestor_id,
            actions,
            remote_signature: copy_opt_text(&self.remote_signature),
        }
    }
}

impl Encode for Commit {
    fn to_canonical(&self) -> (bytes: Vec<u8>)
        ensures
            bytes@ == self@.canonical(),
    {
        self.encode(true)
    }
}

} // verus!
