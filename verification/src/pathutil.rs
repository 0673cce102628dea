//! Path handling: normalization, validation, and splitting a slash-delimited
//! path into its components.

use vstd::prelude::*;
use crate::errors::WalrusFsError;
use crate::MAX_STRING_LEN;
use crate::MAX_TAGS;

verus! {

/// Byte length of a string under UTF-8; the storage bounds are byte bounds.
pub open spec fn byte_len(s: Seq<char>) -> nat {
    vstd::utf8::encode_utf8(s).len()
}

/// Relies on str::len: the UTF-8 byte length of a string slice, which always
/// fits in usize.
#[verifier::external_body]
fn str_byte_length(s: &str) -> (n: usize)
    ensures
        n == byte_len(s@),
{
    s.len()
}

/// Index of the first separator in `s`, or `s.len()` if there is none.
pub open spec fn first_sep(s: Seq<char>) -> int
    decreases s.len(),
{
    if s.len() == 0 {
        0
    } else if s[0] == '/' {
        0
    } else {
        1 + first_sep(s.drop_first())
    }
}

pub proof fn lemma_first_sep(s: Seq<char>)
    ensures
        0 <= first_sep(s) <= s.len(),
        forall|j: int| 0 <= j < first_sep(s) ==> s[j] != '/',
        first_sep(s) < s.len() ==> s[first_sep(s)] == '/',
    decreases s.len(),
{
    if s.len() > 0 && s[0] != '/' {
        lemma_first_sep(s.drop_first());
        assert(forall|j: int| 0 <= j < first_sep(s.drop_first()) ==> s.drop_first()[j] != '/');
        assert forall|j: int| 0 <= j < first_sep(s) implies s[j] != '/' by {
            if j > 0 {
                assert(s.drop_first()[j - 1] != '/');
            }
        }
    }
}

/// The nonempty components of `s`, split on the separator.
pub open spec fn components_of(s: Seq<char>) -> Seq<Seq<char>>
    decreases s.len(),
    via components_of_decreases
{
    if s.len() == 0 {
        Seq::empty()
    } else if s[0] == '/' {
        components_of(s.drop_first())
    } else {
        seq![s.take(first_sep(s))] + components_of(s.skip(first_sep(s)))
    }
}

#[via_fn]
proof fn components_of_decreases(s: Seq<char>) {
    lemma_first_sep(s);
}

/// Strip one trailing separator, except from the bare root path.
pub open spec fn strip_trailing(s: Seq<char>) -> Seq<char> {
    if s.len() >= 2 && s[s.len() - 1] == '/' {
        s.drop_last()
    } else {
        s
    }
}

/// Append a trailing separator where one is missing.
pub open spec fn with_trailing(s: Seq<char>) -> Seq<char> {
    if s.len() > 0 && s[s.len() - 1] == '/' {
        s
    } else {
        s.push('/')
    }
}

/// Whether position `i` of `s` holds the separator.
pub open spec fn sep_at(s: Seq<char>, i: int) -> bool {
    s[i] == '/'
}

/// No two adjacent positions both hold the separator.
pub open spec fn double_sep_free(s: Seq<char>) -> bool {
    forall|i: int| 0 <= i < s.len() - 1 ==> !(#[trigger] sep_at(s, i) && sep_at(s, i + 1))
}

/// What a well-formed path looks like: nonempty, bounded, rooted at the
/// separator, and free of doubled separators.
pub open spec fn valid_path(s: Seq<char>) -> bool {
    &&& s.len() != 0
    &&& byte_len(s) <= MAX_STRING_LEN * 5
    &&& s[0] == '/'
    &&& double_sep_free(s)
}

/// The root path, as a character sequence.
pub open spec fn root_path() -> Seq<char> {
    seq!['/']
}

/// `remove_trailing_slash`, used by point operations before resolution.
pub fn remove_trailing_slash(path: &str) -> (r: String)
    ensures
        r@ == strip_trailing(path@),
{
    let n = path.unicode_len();
    if n >= 2 && path.get_char(n - 1) == '/' {
        let stripped = path.substring_char(0, n - 1);
        proof {
            assert(stripped@ =~= path@.drop_last());
        }
        stripped.to_owned()
    } else {
        path.to_owned()
    }
}

/// `ensure_trailing_slash`, used by enumeration before resolution.
pub fn ensure_trailing_slash(path: &str) -> (r: String)
    ensures
        r@ == with_trailing(path@),
{
    let n = path.unicode_len();
    if n > 0 && path.get_char(n - 1) == '/' {
        path.to_owned()
    } else {
        let mut s = path.to_owned();
        s.append("/");
        proof {
            reveal_strlit("/");
            assert(s@ =~= path@.push('/'));
        }
        s
    }
}

/// Path validation; all malformed paths report `PathError`.
pub fn validate_path(path: &str) -> (r: Result<(), WalrusFsError>)
    ensures
        r == if valid_path(path@) {
            Ok::<(), WalrusFsError>(())
        } else {
            Err::<(), WalrusFsError>(WalrusFsError::PathError)
        },
{
    if path.is_empty() {
        return Err(WalrusFsError::PathError);
    }
    if str_byte_length(path) > MAX_STRING_LEN * 5 {
        return Err(WalrusFsError::PathError);
    }
    if path.get_char(0) != '/' {
        return Err(WalrusFsError::PathError);
    }
    let n = path.unicode_len();
    let mut i: usize = 0;
    while i < n - 1
        invariant
            0 <= i <= n,
            1 <= n,
            n == path@.len(),
            forall|j: int| 0 <= j < i ==> !(#[trigger] sep_at(path@, j) && sep_at(path@, j + 1)),
        decreases n - i,
    {
        if path.get_char(i) == '/' && path.get_char(i + 1) == '/' {
            proof {
                assert(sep_at(path@, i as int) && sep_at(path@, i as int + 1));
            }
            return Err(WalrusFsError::PathError);
        }
        i = i + 1;
    }
    Ok(())
}

/// Bounded-string validation; an oversize string reports `StringTooLong`.
pub fn validate_string_len(s: &str) -> (r: Result<(), WalrusFsError>)
    ensures
        r == if byte_len(s@) <= MAX_STRING_LEN {
            Ok::<(), WalrusFsError>(())
        } else {
            Err::<(), WalrusFsError>(WalrusFsError::StringTooLong)
        },
{
    if str_byte_length(s) > MAX_STRING_LEN {
        Err(WalrusFsError::StringTooLong)
    } else {
        Ok(())
    }
}

/// What tag validation reports: the count bound first, then each tag's
/// length bound.
pub open spec fn spec_validate_tags(tags: Seq<Seq<char>>) -> Result<(), WalrusFsError> {
    if tags.len() > MAX_TAGS {
        Err(WalrusFsError::TooManyTags)
    } else if exists|i: int| 0 <= i < tags.len() && byte_len(tags[i]) > MAX_STRING_LEN {
        Err(WalrusFsError::StringTooLong)
    } else {
        Ok(())
    }
}

/// Tag-list validation.
pub fn validate_tags(tags: &Vec<String>) -> (r: Result<(), WalrusFsError>)
    ensures
        r == spec_validate_tags(tags.deep_view()),
{
    if tags.len() > MAX_TAGS {
        return Err(WalrusFsError::TooManyTags);
    }
    let mut i: usize = 0;
    while i < tags.len()
        invariant
            0 <= i <= tags@.len(),
            tags@.len() <= MAX_TAGS,
            forall|j: int| 0 <= j < i ==> byte_len(tags.deep_view()[j]) <= MAX_STRING_LEN,
        decreases tags@.len() - i,
    {
        match validate_string_len(tags[i].as_str()) {
            Ok(_) => {},
            Err(e) => {
                proof {
                    assert(byte_len(tags.deep_view()[i as int]) > MAX_STRING_LEN);
                }
                return Err(e);
            },
        }
        i = i + 1;
    }
    Ok(())
}

/// Index of the first separator, found by scanning.
pub fn find_first_sep(s: &str) -> (k: usize)
    ensures
        k as int == first_sep(s@),
{
    let n = s.unicode_len();
    let mut i: usize = 0;
    let mut found: usize = n;
    let mut done: bool = false;
    while i < n && !done
        invariant
            0 <= i <= n,
            n == s@.len(),
            forall|j: int| 0 <= j < i ==> s@[j] != '/',
            done ==> i < n && s@[i as int] == '/' && found == i,
            !done ==> found == n,
        decreases n - i + (if done { 0int } else { 1int }),
    {
        if s.get_char(i) == '/' {
            found = i;
            done = true;
        } else {
            i = i + 1;
        }
    }
    proof {
        lemma_first_sep(s@);
        if done {
            assert(forall|j: int| 0 <= j < found ==> s@[j] != '/');
            assert(s@[found as int] == '/');
        } else {
            assert(forall|j: int| 0 <= j < n ==> s@[j] != '/');
        }
    }
    found
}

/// Split a path into its nonempty components.
pub fn split_components(s: &str) -> (r: Vec<String>)
    ensures
        r.deep_view() == components_of(s@),
    decreases s@.len(),
{
    let n = s.unicode_len();
    if n == 0 {
        let r: Vec<String> = Vec::new();
        proof {
            assert(r.deep_view() =~= components_of(s@));
        }
        r
    } else if s.get_char(0) == '/' {
        let rest = s.substring_char(1, n);
        proof {
            assert(rest@ =~= s@.drop_first());
        }
        split_components(rest)
    } else {
        let k = find_first_sep(s);
        proof {
            lemma_first_sep(s@);
        }
        let head = s.substring_char(0, k);
        let tail = s.substring_char(k, n);
        proof {
            assert(head@ =~= s@.take(first_sep(s@)));
            assert(tail@ =~= s@.skip(first_sep(s@)));
        }
        let mut r = split_components(tail);
        r.insert(0, head.to_owned());
        proof {
            assert(r.deep_view() =~= seq![s@.take(first_sep(s@))] + components_of(
                s@.skip(first_sep(s@)),
            ));
        }
        r
    }
}

} // verus!
