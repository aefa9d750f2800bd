use crate::prelude::{sign_bytes, signature_of};
use crate::sync::codec::{
    enc_bytes, enc_flag, enc_id, enc_opt_id, enc_opt_text, enc_text, enc_time, put_bytes, put_flag,
    put_id, put_opt_id, put_opt_text, put_text, put_time, start_id,
};
use crate::sync::error::SyncError;
use crate::sync::stamp::{now, Timestamp};
use vstd::prelude::*;
use vstd::slice::*;

verus! {

/// A value that has a canonical serialization. The bytes must depend on the
/// value alone, in every process: signatures are taken over them.
pub trait Encode: Sized {
    fn to_canonical(&self) -> Vec<u8>;
}

/// A value that can be read back from bytes. What is read must depend on the
/// bytes alone.
pub trait Decode: Encode {
    fn from_canonical(bytes: &[u8]) -> Option<Self>;
}

/// What an application's object type has to offer. A clone must be equal to
/// what it was made from.
pub trait ObjectExt: Clone + Send + Decode {

}

/// What an application's action type has to offer: a deterministic patch.
///
/// The time stamp handed to `apply_patch` is informational. The result must
/// not depend on it: local actions are stamped anew whenever they are
/// replayed over an advanced remote state.
pub trait ActionExt: Clone + Send + Decode {
    /// The type of object that the action patches.
    type ObjectType;

    /// Patches an object: gives the patched object, or a message that says
    /// why the object cannot be patched. The object itself is not changed.
    fn apply_patch(&self, object: &Self::ObjectType, dtime: Timestamp, uid: &str) -> Result<
        Self::ObjectType,
        String,
    >;

    /// A text for people that says what the action does.
    fn display(&self) -> String;
}

/// The canonical bytes of a value: what `to_canonical` gives for it.
pub open spec fn canonical_of<T: Encode>(value: T) -> Seq<u8> {
    (choose|v: Vec<u8>| call_ensures(T::to_canonical, (&value,), v))@
}

/// The value that bytes stand for: what `from_canonical` makes of them.
pub open spec fn decoded_of<T: Decode>(bytes: Seq<u8>) -> Option<T> {
    (choose|b: &[u8], value: Option<T>|
        b@ == bytes && #[trigger] call_ensures(T::from_canonical, (b,), value)).1
}

/// What an action makes of an object for an author: what `apply_patch`
/// gives, whatever the time stamp.
pub open spec fn patched_by<A: ActionExt>(action: A, object: A::ObjectType, uid: Seq<char>) -> Result<
    A::ObjectType,
    String,
> {
    (choose|dtime: Timestamp, u: &str, r: Result<A::ObjectType, String>|
        u@ == uid && #[trigger] call_ensures(A::apply_patch, (&action, &object, dtime, u), r)).2
}

/// `to_canonical` is a function of the value.
pub open spec fn encodes_faithfully<T: Encode>() -> bool {
    forall|value: T, v: Vec<u8>| #[trigger]
        call_ensures(T::to_canonical, (&value,), v) ==> v@ == canonical_of(value)
}

/// `from_canonical` is a function of the bytes.
pub open spec fn decodes_faithfully<T: Decode>() -> bool {
    forall|b: &[u8], value: Option<T>| #[trigger]
        call_ensures(T::from_canonical, (b,), value) ==> value == decoded_of::<T>(b@)
}

/// `clone` gives an equal value.
pub open spec fn clones_faithfully<T: Clone>() -> bool {
    forall|a: T, b: T| #[trigger] cloned(a, b) ==> a == b
}

/// `apply_patch` is a function of the action, the object and the author.
pub open spec fn patches_faithfully<A: ActionExt>() -> bool {
    forall|action: A, object: A::ObjectType, dtime: Timestamp, u: &str, r: Result<A::ObjectType, String>|
     #[trigger]
        call_ensures(A::apply_patch, (&action, &object, dtime, u), r) ==> r == patched_by(
            action,
            object,
            u@,
        )
}

/// `from_canonical` reads back what `to_canonical` wrote.
pub open spec fn reads_back<T: Decode>() -> bool {
    forall|value: T| decoded_of::<T>(#[trigger] canonical_of(value)) == Some(value)
}

/// What the store asks of the application's types: serialization, cloning
/// and patching are deterministic, what was written is read back as it was,
/// and patching does not read the clock.
pub open spec fn lawful<T: ObjectExt, A: ActionExt<ObjectType = T>>() -> bool {
    &&& encodes_faithfully::<T>()
    &&& decodes_faithfully::<T>()
    &&& reads_back::<T>()
    &&& clones_faithfully::<T>()
    &&& encodes_faithfully::<A>()
    &&& decodes_faithfully::<A>()
    &&& reads_back::<A>()
    &&& clones_faithfully::<A>()
    &&& patches_faithfully::<A>()
}

/// A `to_canonical` whose result is stated as a function of the value is
/// faithful.
pub proof fn lemma_encodes_faithfully<T: Encode>(bytes_of: spec_fn(T) -> Seq<u8>)
    requires
        forall|value: T, v: Vec<u8>| #[trigger]
            call_ensures(T::to_canonical, (&value,), v) ==> v@ == bytes_of(value),
    ensures
        encodes_faithfully::<T>(),
{
    assert forall|value: T, v: Vec<u8>| #[trigger]
        call_ensures(T::to_canonical, (&value,), v) implies v@ == canonical_of(value) by {
        let w = choose|w: Vec<u8>| call_ensures(T::to_canonical, (&value,), w);
        assert(call_ensures(T::to_canonical, (&value,), w));
    }
}

/// A `from_canonical` whose result is stated as a function of the bytes is
/// faithful.
pub proof fn lemma_decodes_faithfully<T: Decode>(value_of: spec_fn(Seq<u8>) -> Option<T>)
    requires
        forall|b: &[u8], value: Option<T>| #[trigger]
            call_ensures(T::from_canonical, (b,), value) ==> value == value_of(b@),
    ensures
        decodes_faithfully::<T>(),
{
    assert forall|b: &[u8], value: Option<T>| #[trigger]
        call_ensures(T::from_canonical, (b,), value) implies value == decoded_of::<T>(b@) by {
        let (b2, v2) = choose|b2: &[u8], v2: Option<T>|
            b2@ == b@ && #[trigger] call_ensures(T::from_canonical, (b2,), v2);
        assert(b2@ == b@ && call_ensures(T::from_canonical, (b2,), v2));
    }
}

/// An `apply_patch` whose result is stated as a function of the action, the
/// object and the author is faithful.
pub proof fn lemma_patches_faithfully<A: ActionExt>(
    result_of: spec_fn(A, A::ObjectType, Seq<char>) -> Result<A::ObjectType, String>,
)
    requires
        forall|action: A, object: A::ObjectType, dtime: Timestamp, u: &str, r: Result<A::ObjectType, String>|
         #[trigger]
            call_ensures(A::apply_patch, (&action, &object, dtime, u), r) ==> r == result_of(
                action,
                object,
                u@,
            ),
    ensures
        patches_faithfully::<A>(),
{
    assert forall|action: A, object: A::ObjectType, dtime: Timestamp, u: &str, r: Result<A::ObjectType, String>|
     #[trigger]
        call_ensures(A::apply_patch, (&action, &object, dtime, u), r) implies r == patched_by(
        action,
        object,
        u@,
    ) by {
        let (d2, u2, r2) = choose|d2: Timestamp, u2: &str, r2: Result<A::ObjectType, String>|
            u2@ == u@ && #[trigger] call_ensures(A::apply_patch, (&action, &object, d2, u2), r2);
        assert(u2@ == u@ && call_ensures(A::apply_patch, (&action, &object, d2, u2), r2));
    }
}

/// The canonical bytes of a value.
pub fn encode<T: Encode>(value: &T) -> (bytes: Vec<u8>)
    requires
        encodes_faithfully::<T>(),
    ensures
        bytes@ == canonical_of(*value),
{
    value.to_canonical()
}

/// The value that bytes stand for, if any.
pub fn decode<T: Decode>(bytes: &[u8]) -> (value: Option<T>)
    requires
        decodes_faithfully::<T>(),
    ensures
        value == decoded_of::<T>(bytes@),
{
    T::from_canonical(bytes)
}

/// An equal copy of a value.
pub fn duplicate<T: Clone>(value: &T) -> (copy: T)
    requires
        clones_faithfully::<T>(),
    ensures
        copy == *value,
{
    let copy = value.clone();
    assert(cloned(*value, copy));
    copy
}

/// What an action makes of an object for an author.
pub fn apply<A: ActionExt>(action: &A, object: &A::ObjectType, dtime: Timestamp, uid: &str) -> (r:
    Result<A::ObjectType, String>)
    requires
        patches_faithfully::<A>(),
    ensures
        r == patched_by(*action, *object, uid@),
{
    action.apply_patch(object, dtime, uid)
}

/// What an action does: it creates an object or patches one.
pub enum ActionKind<T, A> {
    Create(T),
    Patch(A),
}

/// An action in its envelope of metadata and signatures.
pub struct ActionObject<T, A> {
    pub id: u128,
    pub storage_id: String,
    pub object_id: u128,
    pub uid: String,
    pub dtime: Timestamp,
    pub commit_id: Option<u128>,
    pub parent_action_id: Option<u128>,
    pub action: ActionKind<T, A>,
    pub object_signature: String,
    pub remote_signature: Option<String>,
}

/// The action of an envelope as bytes that only its storage can read.
pub struct ActionPayload {
    pub is_create: bool,
    pub bytes: Vec<u8>,
}

/// An action object whose action is kept as opaque bytes, so that it can be
/// carried, signed and checked without knowing the application's types.
pub struct UniversalActionObject {
    pub id: u128,
    pub storage_id: String,
    pub object_id: u128,
    pub uid: String,
    pub dtime: Timestamp,
    pub commit_id: Option<u128>,
    pub parent_action_id: Option<u128>,
    pub action: ActionPayload,
    pub object_signature: String,
    pub remote_signature: Option<String>,
}

/// The mathematical content of an action object, typed or universal.
pub struct Envelope {
    pub id: u128,
    pub storage_id: Seq<char>,
    pub object_id: u128,
    pub uid: Seq<char>,
    pub dtime: Timestamp,
    pub commit_id: Option<u128>,
    pub parent_action_id: Option<u128>,
    pub is_create: bool,
    pub payload: Seq<u8>,
    pub object_signature: Seq<char>,
    pub remote_signature: Option<Seq<char>>,
}

/// The content of an optional text.
pub open spec fn opt_text(o: Option<String>) -> Option<Seq<char>> {
    match o {
        Some(s) => Some(s@),
        None => None,
    }
}

impl Envelope {
    /// The same envelope without a remote signature.
    pub open spec fn unsigned(self) -> Envelope {
        Envelope { remote_signature: None, ..self }
    }

    /// The canonical bytes of the envelope, field by field.
    pub open spec fn canonical(self) -> Seq<u8> {
        enc_id(self.id) + enc_text(self.storage_id) + enc_id(self.object_id) + enc_text(self.uid)
            + enc_time(self.dtime) + enc_opt_id(self.commit_id) + enc_opt_id(
            self.parent_action_id,
        ) + enc_flag(self.is_create) + enc_bytes(self.payload) + enc_text(self.object_signature)
            + enc_opt_text(self.remote_signature)
    }

    /// The signature that the server puts on the envelope: taken over the
    /// canonical bytes with the remote signature cleared.
    pub open spec fn expected_remote_signature(self) -> Seq<char> {
        signature_of(self.unsigned().canonical())
    }

    /// Whether the envelope carries the remote signature that belongs on it.
    pub open spec fn remote_signature_valid(self) -> bool {
        self.remote_signature == Some(self.expected_remote_signature())
    }
}

/// An exact copy of an optional text.
pub fn copy_opt_text(o: &Option<String>) -> (r: Option<String>)
    ensures
        r == *o,
{
    match o {
        Some(s) => Some(s.clone()),
        None => None,
    }
}

/// An exact copy of a byte vector's content.
pub fn copy_bytes(b: &Vec<u8>) -> (r: Vec<u8>)
    ensures
        r@ == b@,
{
    slice_to_vec(b.as_slice())
}

impl View for UniversalActionObject {
    type V = Envelope;

    open spec fn view(&self) -> Envelope {
        Envelope {
            id: self.id,
            storage_id: self.storage_id@,
            object_id: self.object_id,
            uid: self.uid@,
            dtime: self.dtime,
            commit_id: self.commit_id,
            parent_action_id: self.parent_action_id,
            is_create: self.action.is_create,
            payload: self.action.bytes@,
            object_signature: self.object_signature@,
            remote_signature: opt_text(self.remote_signature),
        }
    }
}

impl UniversalActionObject {
    pub fn id(&self) -> (id: u128)
        ensures
            id == self.id,
    {
        self.id
    }

    pub fn object_id(&self) -> (id: u128)
        ensures
            id == self.object_id,
    {
        self.object_id
    }

    pub fn parent_action_id(&self) -> (id: Option<u128>)
        ensures
            id == self.parent_action_id,
    {
        self.parent_action_id
    }

    pub fn object_signature(&self) -> (s: &str)
        ensures
            s@ == self.object_signature@,
    {
        self.object_signature.as_str()
    }

    pub fn remote_signature(&self) -> (s: Option<&str>)
        ensures
            s is Some <==> self.remote_signature is Some,
            s matches Some(t) ==> t@ == self.remote_signature->0@,
    {
        match &self.remote_signature {
            Some(t) => Some(t.as_str()),
            None => None,
        }
    }

    pub fn is_remote(&self) -> (b: bool)
        ensures
            b == self.remote_signature is Some,
    {
        self.remote_signature.is_some()
    }

    pub fn is_local(&self) -> (b: bool)
        ensures
            b == self.remote_signature is None,
    {
        !self.is_remote()
    }

    /// The canonical bytes, with the remote signature or cleared of it.
    fn encode(&self, signed: bool) -> (out: Vec<u8>)
        ensures
            out@ == (if signed {
                self@.canonical()
            } else {
                self@.unsigned().canonical()
            }),
    {
        let mut out = start_id(self.id);
        put_text(&mut out, self.storage_id.as_str());
        put_id(&mut out, self.object_id);
        put_text(&mut out, self.uid.as_str());
        put_time(&mut out, self.dtime);
        put_opt_id(&mut out, self.commit_id);
        put_opt_id(&mut out, self.parent_action_id);
        put_flag(&mut out, self.action.is_create);
        put_bytes(&mut out, self.action.bytes.as_slice());
        put_text(&mut out, self.object_signature.as_str());
        let tail: Option<&str> = match &self.remote_signature {
            Some(s) => if signed {
                Some(s.as_str())
            } else {
                None
            },
            None => None,
        };
        put_opt_text(&mut out, tail);
        out
    }

    /// The bytes that the remote signature is taken over.
    pub fn signing_bytes(&self) -> (bytes: Vec<u8>)
        ensures
            bytes@ == self@.unsigned().canonical(),
    {
        self.encode(false)
    }

    /// The canonical bytes of the envelope.
    pub fn to_canonical_bytes(&self) -> (bytes: Vec<u8>)
        ensures
            bytes@ == self@.canonical(),
    {
        self.encode(true)
    }

    /// An equal copy of the action object.
    pub fn copy(&self) -> (copy: Self)
        ensures
            copy@ == self@,
    {
        UniversalActionObject {
            id: self.id,
            storage_id: self.storage_id.clone(),
            object_id: self.object_id,
            uid: self.uid.clone(),
            dtime: self.dtime,
            commit_id: self.commit_id,
            parent_action_id: self.parent_action_id,
            action: ActionPayload {
                is_create: self.action.is_create,
                bytes: copy_bytes(&self.action.bytes),
            },
            object_signature: self.object_signature.clone(),
            remote_signature: copy_opt_text(&self.remote_signature),
        }
    }

    /// Whether the remote signature is there and is the right one.
    pub fn has_valid_remote_signature(&self) -> (valid: bool)
        ensures
            valid == self@.remote_signature_valid(),
    {
        match &self.remote_signature {
            Some(stored) => {
                let bytes = self.signing_bytes();
                let expected = sign_bytes(bytes.as_slice());
                *stored == expected
            },
            None => false,
        }
    }

    /// Signs the envelope for the remote side. An envelope that is signed
    /// already is refused and left as it is.
    pub fn remote_sign(&mut self) -> (r: Result<(), SyncError>)
        ensures
            old(self).remote_signature is Some ==> r == Err::<(), SyncError>(SyncError::WrongSide)
                && *final(self) == *old(self),
            old(self).remote_signature is None ==> r is Ok && final(self)@ == (Envelope {
                remote_signature: Some(old(self)@.expected_remote_signature()),
                ..old(self)@
            }) && final(self)@.remote_signature_valid(),
    {
        if self.is_remote() {
            return Err(SyncError::WrongSide);
        }
        let bytes = self.signing_bytes();
        let signature = sign_bytes(bytes.as_slice());
        self.remote_signature = Some(signature);
        proof {
            assert(self@.unsigned() == old(self)@.unsigned());
            assert(old(self)@.unsigned() == old(self)@);
        }
        Ok(())
    }
}

/// Whether two byte strings are the same.
pub fn same_bytes(a: &[u8], b: &[u8]) -> (same: bool)
    ensures
        same == (a@ == b@),
{
    if a.len() != b.len() {
        return false;
    }
    let mut i: usize = 0;
    while i < a.len()
        invariant
            i <= a.len(),
            a.len() == b.len(),
            forall|k: int| 0 <= k < i ==> a@[k] == b@[k],
        decreases a.len() - i,
    {
        if a[i] != b[i] {
            return false;
        }
        i += 1;
    }
    assert(a@ =~= b@);
    true
}

/// The mathematical content of a typed action object.
pub struct ActionView<T, A> {
    pub id: u128,
    pub storage_id: Seq<char>,
    pub object_id: u128,
    pub uid: Seq<char>,
    pub dtime: Timestamp,
    pub commit_id: Option<u128>,
    pub parent_action_id: Option<u128>,
    pub action: ActionKind<T, A>,
    pub object_signature: Seq<char>,
    pub remote_signature: Option<Seq<char>>,
}

impl<T, A> View for ActionObject<T, A> {
    type V = ActionView<T, A>;

    open spec fn view(&self) -> ActionView<T, A> {
        ActionView {
            id: self.id,
            storage_id: self.storage_id@,
            object_id: self.object_id,
            uid: self.uid@,
            dtime: self.dtime,
            commit_id: self.commit_id,
            parent_action_id: self.parent_action_id,
            action: self.action,
            object_signature: self.object_signature@,
            remote_signature: opt_text(self.remote_signature),
        }
    }
}

/// The contents of a sequence of typed action objects.
pub open spec fn views<T, A>(actions: Seq<ActionObject<T, A>>) -> Seq<ActionView<T, A>> {
    actions.map_values(|a: ActionObject<T, A>| a@)
}

/// The contents of a sequence of universal action objects.
pub open spec fn envelopes(actions: Seq<UniversalActionObject>) -> Seq<Envelope> {
    actions.map_values(|u: UniversalActionObject| u@)
}

impl<T: ObjectExt, A: ActionExt<ObjectType = T>> ActionView<T, A> {
    /// The canonical bytes of the action that the action object carries.
    pub open spec fn payload(self) -> Seq<u8> {
        match self.action {
            ActionKind::Create(t) => canonical_of(t),
            ActionKind::Patch(a) => canonical_of(a),
        }
    }

    /// The same action object with its action as opaque bytes.
    pub open spec fn envelope(self) -> Envelope {
        Envelope {
            id: self.id,
            storage_id: self.storage_id,
            object_id: self.object_id,
            uid: self.uid,
            dtime: self.dtime,
            commit_id: self.commit_id,
            parent_action_id: self.parent_action_id,
            is_create: self.action is Create,
            payload: self.payload(),
            object_signature: self.object_signature,
            remote_signature: self.remote_signature,
        }
    }

    /// The action object around an action, with the metadata of an envelope.
    pub open spec fn around(e: Envelope, action: ActionKind<T, A>) -> Self {
        ActionView {
            id: e.id,
            storage_id: e.storage_id,
            object_id: e.object_id,
            uid: e.uid,
            dtime: e.dtime,
            commit_id: e.commit_id,
            parent_action_id: e.parent_action_id,
            action,
            object_signature: e.object_signature,
            remote_signature: e.remote_signature,
        }
    }

    /// The typed action object that an envelope stands for. There is none
    /// where the payload cannot be read, or is not in canonical form.
    pub open spec fn typed(e: Envelope) -> Option<Self> {
        if e.is_create {
            match decoded_of::<T>(e.payload) {
                Some(t) => if canonical_of(t) == e.payload {
                    Some(Self::around(e, ActionKind::Create(t)))
                } else {
                    None
                },
                None => None,
            }
        } else {
            match decoded_of::<A>(e.payload) {
                Some(a) => if canonical_of(a) == e.payload {
                    Some(Self::around(e, ActionKind::Patch(a)))
                } else {
                    None
                },
                None => None,
            }
        }
    }

    /// An action object is read back from its own envelope as it was.
    pub proof fn lemma_reads_back(self)
        requires
            reads_back::<T>(),
            reads_back::<A>(),
        ensures
            Self::typed(self.envelope()) == Some(self),
    {
        match self.action {
            ActionKind::Create(t) => {
                assert(decoded_of::<T>(canonical_of(t)) == Some(t));
            },
            ActionKind::Patch(a) => {
                assert(decoded_of::<A>(canonical_of(a)) == Some(a));
            },
        }
    }

    /// The action object as the server signs it: with the remote signature
    /// that is taken over its envelope.
    pub open spec fn signed(self) -> Self {
        ActionView {
            remote_signature: Some(self.envelope().expected_remote_signature()),
            ..self
        }
    }

    /// A signature that the server made over the envelope of an unsigned
    /// action object holds for the typed action object that is read from
    /// the signed envelope, and that action object is the first one but for
    /// the signature.
    pub proof fn lemma_signed_reads_back(self)
        requires
            reads_back::<T>(),
            reads_back::<A>(),
            self.remote_signature is None,
        ensures
            self.signed().envelope() == (Envelope {
                remote_signature: Some(self.envelope().expected_remote_signature()),
                ..self.envelope()
            }),
            Self::typed(self.signed().envelope()) == Some(self.signed()),
            self.signed().envelope().remote_signature_valid(),
    {
        self.signed().lemma_reads_back();
        assert(self.signed().envelope().unsigned() == self.envelope().unsigned());
        assert(self.envelope().unsigned() == self.envelope());
    }

    /// A typed action object has the content of the envelope it was read
    /// from.
    pub proof fn lemma_typed_keeps_content(e: Envelope)
        requires
            Self::typed(e) is Some,
        ensures
            Self::typed(e)->0.envelope() == e,
    {
    }
}

impl<T: ObjectExt, A: ActionExt<ObjectType = T>> ActionObject<T, A> {
    pub fn is_local(&self) -> (b: bool)
        ensures
            b == self@.remote_signature is None,
    {
        self.remote_signature.is_none()
    }

    pub fn is_remote(&self) -> (b: bool)
        ensures
            b == self@.remote_signature is Some,
    {
        self.remote_signature.is_some()
    }

    pub fn is_kind_patch(&self) -> (b: bool)
        ensures
            b == self@.action is Patch,
    {
        match &self.action {
            ActionKind::Patch(_) => true,
            ActionKind::Create(_) => false,
        }
    }

    pub fn is_kind_create(&self) -> (b: bool)
        ensures
            b == self@.action is Create,
    {
        match &self.action {
            ActionKind::Create(_) => true,
            ActionKind::Patch(_) => false,
        }
    }

    /// The same action object with its action as opaque bytes.
    pub fn to_universal(&self) -> (u: UniversalActionObject)
        requires
            lawful::<T, A>(),
        ensures
            u@ == self@.envelope(),
    {
        let action = match &self.action {
            ActionKind::Create(t) => ActionPayload { is_create: true, bytes: encode(t) },
            ActionKind::Patch(a) => ActionPayload { is_create: false, bytes: encode(a) },
        };
        UniversalActionObject {
            id: self.id,
            storage_id: self.storage_id.clone(),
            object_id: self.object_id,
            uid: self.uid.clone(),
            dtime: self.dtime,
            commit_id: self.commit_id,
            parent_action_id: self.parent_action_id,
            action,
            object_signature: self.object_signature.clone(),
            remote_signature: copy_opt_text(&self.remote_signature),
        }
    }

    /// Reads the action of a universal action object with this storage's
    /// types. A payload that cannot be read, or that is not the canonical
    /// form of what it reads as, gives nothing.
    pub fn from_universal(u: &UniversalActionObject) -> (r: Option<Self>)
        requires
            lawful::<T, A>(),
        ensures
            match r {
                Some(a) => ActionView::<T, A>::typed(u@) == Some(a@) && a@.envelope() == u@,
                None => ActionView::<T, A>::typed(u@) is None,
            },
    {
        let action = if u.action.is_create {
            match decode::<T>(u.action.bytes.as_slice()) {
                Some(t) => {
                    let again = encode(&t);
                    if !same_bytes(again.as_slice(), u.action.bytes.as_slice()) {
                        return None;
                    }
                    ActionKind::Create(t)
                },
                None => {
                    return None;
                },
            }
        } else {
            match decode::<A>(u.action.bytes.as_slice()) {
                Some(a) => {
                    let again = encode(&a);
                    if !same_bytes(again.as_slice(), u.action.bytes.as_slice()) {
                        return None;
                    }
                    ActionKind::Patch(a)
                },
                None => {
                    return None;
                },
            }
        };
        Some(
            ActionObject {
                id: u.id,
                storage_id: u.storage_id.clone(),
                object_id: u.object_id,
                uid: u.uid.clone(),
                dtime: u.dtime,
                commit_id: u.commit_id,
                parent_action_id: u.parent_action_id,
                action,
                object_signature: u.object_signature.clone(),
                remote_signature: copy_opt_text(&u.remote_signature),
            },
        )
    }

    /// The signature of an object: taken over its canonical bytes.
    pub fn compute_object_signature(candidate: &T) -> (signature: String)
        requires
            lawful::<T, A>(),
        ensures
            signature@ == signature_of(canonical_of(*candidate)),
    {
        let bytes = encode(candidate);
        sign_bytes(bytes.as_slice())
    }

    /// Whether the object signature is that of the given object.
    pub fn signs_object(&self, candidate: &T) -> (b: bool)
        requires
            lawful::<T, A>(),
        ensures
            b == (self@.object_signature == signature_of(canonical_of(*candidate))),
    {
        let expected = Self::compute_object_signature(candidate);
        self.object_signature == expected
    }

    /// Whether the remote signature is there and is the right one.
    pub fn has_valid_remote_signature(&self) -> (valid: bool)
        requires
            lawful::<T, A>(),
        ensures
            valid == self@.envelope().remote_signature_valid(),
    {
        self.to_universal().has_valid_remote_signature()
    }

    /// Signs the action object for the remote side. One that is signed
    /// already is refused and left as it is.
    pub fn remote_sign(&mut self) -> (r: Result<(), SyncError>)
        requires
            lawful::<T, A>(),
        ensures
            old(self)@.remote_signature is Some ==> r == Err::<(), SyncError>(SyncError::WrongSide)
                && *final(self) == *old(self),
            old(self)@.remote_signature is None ==> r is Ok && final(self)@ == (ActionView {
                remote_signature: Some(old(self)@.envelope().expected_remote_signature()),
                ..old(self)@
            }) && final(self)@.envelope().remote_signature_valid(),
    {
        if self.is_remote() {
            return Err(SyncError::WrongSide);
        }
        let bytes = self.to_universal().signing_bytes();
        let signature = sign_bytes(bytes.as_slice());
        self.remote_signature = Some(signature);
        proof {
            assert(self@.envelope().unsigned() == old(self)@.envelope().unsigned());
            assert(old(self)@.envelope().unsigned() == old(self)@.envelope());
        }
        Ok(())
    }

    /// An equal copy of the action object.
    pub fn copy(&self) -> (copy: Self)
        requires
            lawful::<T, A>(),
        ensures
            copy == *self,
    {
        let action = match &self.action {
            ActionKind::Create(t) => ActionKind::Create(duplicate(t)),
            ActionKind::Patch(a) => ActionKind::Patch(duplicate(a)),
        };
        ActionObject {
            id: self.id,
            storage_id: self.storage_id.clone(),
            object_id: self.object_id,
            uid: self.uid.clone(),
            dtime: self.dtime,
            commit_id: self.commit_id,
            parent_action_id: self.parent_action_id,
            action,
            object_signature: self.object_signature.clone(),
            remote_signature: copy_opt_text(&self.remote_signature),
        }
    }

    /// Stamps the action object with the current time.
    pub fn reset_dtime(&mut self)
        ensures
            final(self)@ == (ActionView { dtime: final(self)@.dtime, ..old(self)@ }),
    {
        let t = now();
        self.reset_dtime_at(t);
    }

    /// Stamps the action object with the given time. Nothing else of it
    /// changes; its signatures are left as they are.
    pub fn reset_dtime_at(&mut self, dtime: Timestamp)
        ensures
            final(self)@ == (ActionView { dtime, ..old(self)@ }),
    {
        self.dtime = dtime;
    }
}

impl Encode for UniversalActionObject {
    fn to_canonical(&self) -> (bytes: Vec<u8>)
        ensures
            bytes@ == self@.canonical(),
    {
        self.encode(true)
    }
}

} // verus!
