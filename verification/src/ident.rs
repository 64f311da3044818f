use vstd::prelude::*;
use vstd::slice::slice_subrange;
use vstd::utf8::{decode_utf8, encode_utf8, valid_utf8};

verus! {

broadcast use {
    vstd::utf8::encode_utf8_valid_utf8,
    vstd::utf8::encode_utf8_decode_utf8,
    vstd::utf8::decode_utf8_encode_utf8,
};

/// The most bytes that an identifier keeps inline, without a heap allocation.
pub const INLINE_CAPACITY: usize = 14;

/// Calls `core::str::from_utf8(bytes)`. It gives back the text that the bytes
/// encode when they are well-formed UTF-8, and nothing otherwise.
#[verifier::external_body]
fn str_from_utf8(bytes: &[u8]) -> (text: Option<&str>)
    ensures
        text is Some <==> valid_utf8(bytes@),
        text matches Some(t) ==> encode_utf8(t@) == bytes@,
{
    core::str::from_utf8(bytes).ok()
}

enum IdentStorage {
    Inline([u8; 14]),
    Boxed(String),
}

/// A short piece of text: up to `INLINE_CAPACITY` bytes are kept inline, a
/// longer text lives on the heap. Its length in bytes fits in a `u16`.
pub struct Ident {
    len: u16,
    storage: IdentStorage,
}

impl View for Ident {
    type V = Seq<char>;

    closed spec fn view(&self) -> Seq<char> {
        match self.storage {
            IdentStorage::Inline(bytes) => decode_utf8(bytes@.subrange(0, self.len as int)),
            IdentStorage::Boxed(text) => text@,
        }
    }
}

impl Ident {
    #[verifier::type_invariant]
    spec fn well_formed(self) -> bool {
        match self.storage {
            IdentStorage::Inline(bytes) => {
                &&& self.len <= INLINE_CAPACITY
                &&& valid_utf8(bytes@.subrange(0, self.len as int))
            },
            IdentStorage::Boxed(text) => {
                &&& self.len > INLINE_CAPACITY
                &&& encode_utf8(text@).len() == self.len
            },
        }
    }

    /// The identifier that holds `value`.
    pub fn new(value: &str) -> (ident: Ident)
        requires
            encode_utf8(value@).len() <= u16::MAX,
        ensures
            ident@ == value@,
    {
        let n = value.len();
        if n <= INLINE_CAPACITY {
            let src = value.as_bytes();
            let mut bytes = [0u8; 14];
            let mut i: usize = 0;
            while i < n
                invariant
                    n <= INLINE_CAPACITY,
                    i <= n,
                    src@ == encode_utf8(value@),
                    src@.len() == n,
                    bytes@.len() == INLINE_CAPACITY,
                    forall|j: int| 0 <= j < i ==> bytes@[j] == src@[j],
                decreases n - i,
            {
                bytes[i] = src[i];
                i += 1;
            }
            assert(bytes@.subrange(0, n as int) =~= encode_utf8(value@));
            Ident { len: n as u16, storage: IdentStorage::Inline(bytes) }
        } else {
            let text = value.to_owned();
            Ident { len: n as u16, storage: IdentStorage::Boxed(text) }
        }
    }

    /// The text that the identifier holds.
    pub fn as_str(&self) -> (text: &str)
        ensures
            text@ == self@,
    {
        proof {
            use_type_invariant(self);
        }
        match &self.storage {
            IdentStorage::Inline(bytes) => {
                let used = slice_subrange(bytes.as_slice(), 0, self.len as usize);
                match str_from_utf8(used) {
                    Some(text) => text,
                    None => "",
                }
            },
            IdentStorage::Boxed(text) => text.as_str(),
        }
    }

    /// Tells whether the text is kept inline, that is, whether its UTF-8
    /// encoding takes at most `INLINE_CAPACITY` bytes.
    #[must_use]
    pub fn is_stack(&self) -> (inline: bool)
        ensures
            inline == (encode_utf8(self@).len() <= INLINE_CAPACITY),
    {
        proof {
            use_type_invariant(self);
        }
        self.len as usize <= INLINE_CAPACITY
    }
}

} // verus!
