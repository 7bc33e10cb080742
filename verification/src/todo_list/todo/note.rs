//! Notes: free text attached to a todo, stored under the SHA-1 digest of its
//! content written as forty lower-case hexadecimal digits.

use crate::storage::Storage;
use vstd::prelude::*;
use vstd::string::StringSliceAdditionalSpecFns;
use vstd::utf8::encode_utf8;

verus! {

/// The SHA-1 digest of a byte string.
pub uninterp spec fn sha1_digest(data: Seq<u8>) -> Seq<u8>;

/// `Digest::digest` of the `sha1` crate, on `Sha1`: the SHA-1 digest of
/// `data`, a function of the bytes alone and always twenty bytes long.
#[verifier::external_body]
fn digest(data: &[u8]) -> (d: Vec<u8>)
    ensures
        d@ == sha1_digest(data@),
        d@.len() == 20,
{
    <sha1::Sha1 as sha1::Digest>::digest(data).to_vec()
}

/// The lower-case hexadecimal digit for `n`.
pub open spec fn hex_digit(n: int) -> char {
    if n == 0 {
        '0'
    } else if n == 1 {
        '1'
    } else if n == 2 {
        '2'
    } else if n == 3 {
        '3'
    } else if n == 4 {
        '4'
    } else if n == 5 {
        '5'
    } else if n == 6 {
        '6'
    } else if n == 7 {
        '7'
    } else if n == 8 {
        '8'
    } else if n == 9 {
        '9'
    } else if n == 10 {
        'a'
    } else if n == 11 {
        'b'
    } else if n == 12 {
        'c'
    } else if n == 13 {
        'd'
    } else if n == 14 {
        'e'
    } else {
        'f'
    }
}

/// Whether `c` is a lower-case hexadecimal digit.
pub open spec fn is_hex_digit(c: char) -> bool {
    0x30 <= c as u32 <= 0x39 || 0x61 <= c as u32 <= 0x66
}

/// Whether `s` is a non-empty string of lower-case hexadecimal digits.
pub open spec fn is_hex_name(s: Seq<char>) -> bool {
    s.len() > 0 && forall|i: int| 0 <= i < s.len() ==> is_hex_digit(#[trigger] s[i])
}

/// `bytes` written out with two lower-case hexadecimal digits per byte.
pub open spec fn hex_lower(bytes: Seq<u8>) -> Seq<char>
    decreases bytes.len(),
{
    if bytes.len() == 0 {
        Seq::empty()
    } else {
        hex_lower(bytes.drop_last()).push(hex_digit(bytes.last() as int / 16)).push(
            hex_digit(bytes.last() as int % 16),
        )
    }
}

/// The SHA-1 digest of the UTF-8 encoding of `text`, in hexadecimal.
pub open spec fn sha1_hex(text: Seq<char>) -> Seq<char> {
    hex_lower(sha1_digest(encode_utf8(text)))
}

/// Hexadecimal text has two digits per byte, all of them hexadecimal digits.
pub proof fn lemma_hex_lower(bytes: Seq<u8>)
    ensures
        hex_lower(bytes).len() == 2 * bytes.len(),
        forall|i: int|
            0 <= i < hex_lower(bytes).len() ==> is_hex_digit(#[trigger] hex_lower(bytes)[i]),
    decreases bytes.len(),
{
    if bytes.len() > 0 {
        lemma_hex_lower(bytes.drop_last());
    }
}

fn hex_digit_of(n: u8) -> (c: char)
    requires
        n < 16,
    ensures
        c == hex_digit(n as int),
{
    if n == 0 {
        '0'
    } else if n == 1 {
        '1'
    } else if n == 2 {
        '2'
    } else if n == 3 {
        '3'
    } else if n == 4 {
        '4'
    } else if n == 5 {
        '5'
    } else if n == 6 {
        '6'
    } else if n == 7 {
        '7'
    } else if n == 8 {
        '8'
    } else if n == 9 {
        '9'
    } else if n == 10 {
        'a'
    } else if n == 11 {
        'b'
    } else if n == 12 {
        'c'
    } else if n == 13 {
        'd'
    } else if n == 14 {
        'e'
    } else {
        'f'
    }
}

/// The SHA-1 digest of `str`, as forty lower-case hexadecimal digits.
pub fn sha1(str: &String) -> (hash: String)
    ensures
        hash@ == sha1_hex(str@),
        hash@.len() == 40,
        is_hex_name(hash@),
{
    let d = digest(str.as_str().as_bytes());
    let mut hash = String::new();
    let mut i: usize = 0;
    while i < d.len()
        invariant
            i <= d.len(),
            hash@ == hex_lower(d@.take(i as int)),
        decreases d.len() - i,
    {
        let b: u8 = d[i];
        hash.push(hex_digit_of(b / 16));
        hash.push(hex_digit_of(b % 16));
        proof {
            assert(d@.take(i + 1).drop_last() =~= d@.take(i as int));
        }
        i += 1;
    }
    proof {
        assert(d@.take(d.len() as int) =~= d@);
        lemma_hex_lower(d@);
    }
    hash
}

/// Why a note could not be loaded.
#[derive(Debug, PartialEq, Eq, Clone, Copy)]
pub enum NoteError {
    /// Nothing is stored under the note's hash.
    NotFound,
}

/// Free text together with the hash of its content.
pub struct Note {
    content: String,
    hash: String,
}

impl View for Note {
    type V = Seq<char>;

    closed spec fn view(&self) -> Seq<char> {
        self.content@
    }
}

impl Note {
    /// The hash is always that of the content.
    #[verifier::type_invariant]
    spec fn hash_of_content(&self) -> bool {
        self.hash@ == sha1_hex(self.content@)
    }

    /// A note with the given content.
    pub fn new(content: String) -> (note: Self)
        ensures
            note@ == content@,
    {
        let hash = sha1(&content);
        Note { content, hash }
    }

    /// A note whose content is the text that came back from the editor.
    pub fn from_editor(edited: String) -> (note: Self)
        ensures
            note@ == edited@,
    {
        Note::new(edited)
    }

    /// The note's text.
    pub fn content(&self) -> (content: String)
        ensures
            content@ == self@,
    {
        self.content.clone()
    }

    /// The hash of the note's text.
    pub fn hash(&self) -> (hash: String)
        ensures
            hash@ == sha1_hex(self@),
    {
        proof {
            use_type_invariant(self);
        }
        self.hash.clone()
    }

    /// The name under which the note is stored: its hash.
    pub fn path(&self) -> (name: String)
        ensures
            name@ == sha1_hex(self@),
    {
        self.hash()
    }

    /// The note stored under `hash`; fails when nothing is stored there.
    pub fn from_hash(hash: &String, store: &Storage) -> (r: Result<Self, NoteError>)
        ensures
            match r {
                Ok(note) => store@.contains_key(hash@) && note@ == store@[hash@],
                Err(e) => !store@.contains_key(hash@) && e == NoteError::NotFound,
            },
    {
        match store.get(hash) {
            Some(content) => Ok(Note::new(content.clone())),
            None => Err(NoteError::NotFound),
        }
    }

    /// Stores the note's text under its hash.
    pub fn save(&self, store: &mut Storage)
        ensures
            final(store)@ == old(store)@.insert(sha1_hex(self@), self@),
    {
        store.put(self.hash(), self.content());
    }

    /// Removes what is stored under the note's hash, if anything.
    pub fn remove_file(&self, store: &mut Storage)
        ensures
            final(store)@ == old(store)@.remove(sha1_hex(self@)),
    {
        let name = self.hash();
        store.remove(&name);
    }

    /// Replaces the note's text by what came back from the editor and
    /// recomputes the hash. The store is left alone: persisting the new text
    /// and removing the old is up to the caller.
    pub fn edit_with_editor(&mut self, edited: String)
        ensures
            final(self)@ == edited@,
    {
        *self = Note::new(edited);
    }
}

} // verus!
