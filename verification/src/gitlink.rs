//! Linking a task to a local git repository: a task completes itself when a
//! new commit message contains its keyword.

use vstd::prelude::*;

use crate::text::{chars_of, contains_chars, contains_seq, string_of, trim, trim_str};

verus! {

/// What `str::to_lowercase` gives (full Unicode lower-case mapping).
pub uninterp spec fn spec_to_lowercase(s: Seq<char>) -> Seq<char>;

/// `str::to_lowercase`: the Unicode lower case of `s`; the contract names
/// its result.
#[verifier::external_body]
fn to_lowercase(s: &str) -> (r: String)
    ensures
        r@ == spec_to_lowercase(s@),
{
    s.to_lowercase()
}

/// Does the message contain the keyword, trimmed and without regard to
/// case? An empty keyword matches nothing.
pub open spec fn has_keyword(message: Seq<char>, keyword: Seq<char>) -> bool {
    let k = trim(keyword);
    k.len() > 0 && contains_seq(spec_to_lowercase(message), spec_to_lowercase(k))
}

/// A blank keyword never completes a task: no message matches it.
pub proof fn law_blank_keyword_never_matches(message: Seq<char>, keyword: Seq<char>)
    requires
        trim(keyword).len() == 0,
    ensures
        !has_keyword(message, keyword),
{
}

/// Does `message` contain `keyword` (trimmed, case-insensitive)?
pub fn message_has_keyword(message: &str, keyword: &str) -> (r: bool)
    ensures
        r == has_keyword(message@, keyword@),
{
    let k = trim_str(keyword);
    if k.len() == 0 {
        return false;
    }
    let ks = string_of(&k);
    let lm = chars_of(to_lowercase(message).as_str());
    let lk = chars_of(to_lowercase(ks.as_str()).as_str());
    contains_chars(&lm, &lk)
}

/// Does any of the commit messages contain the keyword? (The messages are
/// those of the new commits since the link was made.)
pub fn messages_contain_keyword(messages: &Vec<String>, keyword: &str) -> (r: bool)
    ensures
        r == exists|i: int| 0 <= i < messages@.len() && has_keyword(#[trigger] messages@[i]@, keyword@),
{
    let mut i: usize = 0;
    while i < messages.len()
        invariant
            i <= messages@.len(),
            forall|k: int| 0 <= k < i ==> !has_keyword(#[trigger] messages@[k]@, keyword@),
        decreases messages@.len() - i,
    {
        if message_has_keyword(messages[i].as_str(), keyword) {
            return true;
        }
        i = i + 1;
    }
    false
}

} // verus!
