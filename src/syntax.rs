use vstd::prelude::*;
use vstd::string::*;
use crate::files::{FileKey, FileToLoad};
use crate::tree::{DocInput, Slot, TreeInput};
use crate::value::Value;

verus! {

pub open spec fn starts_with(s: Seq<char>, prefix: Seq<char>) -> bool {
    prefix.len() <= s.len() && s.subrange(0, prefix.len() as int) == prefix
}

/// What a text field of the authoring format stands for: `template:<key>`
/// is a placeholder for the template value `key`, `file:<path>` refers to
/// the content of a file, and any other text is itself.
pub open spec fn text_slot(s: Seq<char>) -> Slot {
    if starts_with(s, "template:"@) {
        Slot::Template(s.subrange("template:"@.len() as int, s.len() as int))
    } else if starts_with(s, "file:"@) {
        Slot::Normal(
            DocInput::File(FileKey { path: s.subrange("file:"@.len() as int, s.len() as int), locale_dependant: false }),
        )
    } else {
        Slot::Normal(DocInput::Text(s))
    }
}

pub(crate) fn prefix_rest(s: &str, prefix: &str) -> (r: Option<String>)
    ensures
        r is Some <==> starts_with(s@, prefix@),
        r matches Some(rest) ==> rest@ == s@.subrange(prefix@.len() as int, s@.len() as int),
{
    let n = s.unicode_len();
    let m = prefix.unicode_len();
    if m > n {
        return None;
    }
    let mut i: usize = 0;
    while i < m
        invariant
            i <= m <= n,
            n == s@.len(),
            m == prefix@.len(),
            forall|j: int| 0 <= j < i ==> s@[j] == prefix@[j],
        decreases m - i,
    {
        if s.get_char(i) != prefix.get_char(i) {
            assert(s@.subrange(0, m as int)[i as int] != prefix@[i as int]);
            return None;
        }
        i += 1;
    }
    assert(s@.subrange(0, m as int) =~= prefix@);
    Some(String::from_str(s.substring_char(m, n)))
}

/// Reads a text field of the authoring format.
pub fn text_value(s: String) -> (r: Value<TreeInput>)
    ensures
        r@ == text_slot(s@),
{
    match prefix_rest(s.as_str(), "template:") {
        Some(key) => Value::Template(key),
        None => match prefix_rest(s.as_str(), "file:") {
            Some(path) => Value::Normal(TreeInput::File(FileToLoad { file_path: path, locale_dependant: false })),
            None => Value::Normal(TreeInput::Text(s)),
        },
    }
}

} // verus!
