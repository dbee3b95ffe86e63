//! Names for strings: a 64-bit digest of the text, and a dictionary that
//! gives back the text of every digest it has handed out.

use std::collections::HashMap;
use vstd::prelude::*;
use xxhash_rust::xxh3::xxh3_64;

verus! {

broadcast use vstd::std_specs::hash::group_hash_axioms;

/// The XXH3 digest of 64 bits that `xxhash_rust::xxh3::xxh3_64` computes of
/// `bytes`, with its default seed and secret.
pub uninterp spec fn xxh3_64_digest(bytes: Seq<u8>) -> u64;

/// `xxhash_rust::xxh3::xxh3_64` reads nothing but its input, so that its
/// result is a function of the bytes.
pub assume_specification[ xxhash_rust::xxh3::xxh3_64 ](input: &[u8]) -> (digest: u64)
    ensures
        digest == xxh3_64_digest(input@),
;

/// The digest that names the string `text`: that of its UTF-8 bytes.
pub open spec fn string_digest(text: Seq<char>) -> u64 {
    xxh3_64_digest(vstd::utf8::encode_utf8(text))
}

/// The digest that names `value`.
pub fn hash(value: &str) -> (digest: u64)
    ensures
        digest == string_digest(value@),
{
    xxh3_64(value.as_bytes())
}

/// Hands out digests and remembers the string behind each.
pub struct HashTool {
    pub reverse_dict: HashMap<u64, String>,
}

impl View for HashTool {
    type V = Map<u64, Seq<char>>;

    /// The text remembered for each digest.
    open spec fn view(&self) -> Map<u64, Seq<char>> {
        self.reverse_dict@.map_values(|text: String| text@)
    }
}

impl HashTool {
    /// A tool that remembers nothing yet.
    pub fn new() -> (tool: Self)
        ensures
            tool@ == Map::<u64, Seq<char>>::empty(),
    {
        let tool = HashTool { reverse_dict: HashMap::new() };
        assert(tool@ == Map::<u64, Seq<char>>::empty());
        tool
    }

    /// The digest that names `value`. The tool remembers `value` under it,
    /// in the place of what it remembered there.
    pub fn hash(&mut self, value: &str) -> (digest: u64)
        ensures
            digest == string_digest(value@),
            final(self)@ == old(self)@.insert(digest, value@),
    {
        let digest = self::hash(value);
        self.reverse_dict.insert(digest, value.to_owned());
        assert(self@ == old(self)@.insert(digest, value@));
        digest
    }

    /// The string that was last hashed to `hash`, if there was one.
    pub fn un_hash(&mut self, hash: u64) -> (text: Option<String>)
        ensures
            final(self)@ == old(self)@,
            (match text {
                Some(text) => old(self)@.contains_key(hash) && text@ == old(self)@[hash],
                None => !old(self)@.contains_key(hash),
            }),
    {
        match self.reverse_dict.get(&hash) {
            Some(text) => Some(text.clone()),
            None => None,
        }
    }
}

} // verus!
