use std::collections::hash_map::DefaultHasher;
use std::hash::{Hash, Hasher};
use vstd::bytes::u64_to_le_bytes;
use vstd::prelude::*;

verus! {

/// `core::any::TypeId`, an opaque value that the compiler gives each type.
#[verifier::external_type_specification]
#[verifier::external_body]
pub struct ExCoreTypeId(core::any::TypeId);

/// Calls `core::any::TypeId::of::<T>()`. Nothing is claimed of the result:
/// its value is chosen by the compiler for each type.
#[verifier::external_body]
fn core_type_id_of<T: ?Sized + 'static>() -> core::any::TypeId {
    core::any::TypeId::of::<T>()
}

/// Calls `<H as Hash>::hash(value, &mut state)` and hands the hasher back. A
/// `Hash` impl can only feed the hasher, so what was written before stays and
/// new writes follow it; which bytes are written is not claimed: they depend
/// on the value's `Hash` impl and, for integers, on the machine's byte order.
#[verifier::external_body]
pub(crate) fn hash_after<H: Hash + ?Sized>(value: &H, state: DefaultHasher) -> (hashed: DefaultHasher)
    ensures
        exists|writes: Seq<Seq<u8>>| hashed@ == state@ + writes,
{
    let mut state = state;
    value.hash(&mut state);
    state
}

/// What a `DefaultHasher` finishes with after the writes `writes`.
pub open spec fn hasher_digest(writes: Seq<Seq<u8>>) -> u64 {
    <DefaultHasher as vstd::std_specs::hash::DefaultHasherAdditionalSpecFns>::spec_finish(writes)
}

/// The write that feeds a hasher the type identifier `type_id`.
pub open spec fn type_id_write(type_id: TypeId) -> Seq<u8> {
    vstd::bytes::spec_u64_to_le_bytes(type_id.value() as u64)
}

/// The writes that `<str as Hash>::hash` makes into a hasher for a text.
pub uninterp spec fn str_hash_writes(text: Seq<char>) -> Seq<Seq<u8>>;

/// Calls `<str as Hash>::hash(text, state)`. What it feeds the hasher is
/// decided by the text alone.
#[verifier::external_body]
pub(crate) fn hash_str(text: &str, state: &mut DefaultHasher)
    ensures
        final(state)@ == old(state)@ + str_hash_writes(text@),
{
    text.hash(state)
}

/// Feeds a hasher a type identifier, as the eight little-endian bytes of its
/// machine word.
pub(crate) fn hash_type_id(type_id: &TypeId, state: &mut DefaultHasher)
    ensures
        final(state)@ == old(state)@.push(vstd::bytes::spec_u64_to_le_bytes(type_id.value() as u64)),
{
    let bytes = u64_to_le_bytes(type_id.inner() as u64);
    state.write(bytes.as_slice());
}

/// An identifier of a type, held as a plain machine word.
#[derive(Debug, Clone, Copy, PartialEq, Eq, PartialOrd, Ord, Hash, Structural)]
pub struct TypeId(usize);

impl TypeId {
    /// The machine word that identifies the type.
    pub closed spec fn value(self) -> usize {
        self.0
    }

    /// An identifier for the type `T`: the compiler's `core::any::TypeId` of
    /// `T`, hashed with a fresh `DefaultHasher` and cut to a machine word.
    #[must_use]
    pub fn of<T: ?Sized + 'static>() -> (id: TypeId)
        ensures
            exists|writes: Seq<Seq<u8>>| id.value() == #[verifier::truncate] (hasher_digest(writes) as usize),
    {
        let core_id = core_type_id_of::<T>();
        let hashed = hash_after(&core_id, DefaultHasher::new());
        let digest: u64 = hashed.finish();
        assert(digest == hasher_digest(hashed@));
        TypeId(#[verifier::truncate] (digest as usize))
    }

    /// Two type identifiers are the same exactly when their machine words are.
    pub proof fn lemma_value_identifies(a: TypeId, b: TypeId)
        ensures
            (a.value() == b.value()) == (a == b),
    {
    }

    /// The machine word that identifies the type.
    #[must_use]
    pub fn inner(self) -> (value: usize)
        ensures
            value == self.value(),
    {
        self.0
    }
}

} // verus!
