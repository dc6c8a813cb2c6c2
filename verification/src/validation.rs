//! Which keys can be user-defined metadata keys, and the errors that say
//! why a key cannot.
use vstd::prelude::*;
use crate::extra::EntryView;
use crate::note::{first_reserved_key, is_reserved, is_reserved_key, strings_view};
use crate::text::{chars_of, concat, contains_char, owned, trim, trimmed, trim_start, trim_end, is_ws};
use crate::repository::{RepositoryError, is_validation};

verus! {

/// Why `key` cannot be a user-defined metadata key, if it cannot: once
/// trimmed, it is empty, reserved, or holds a `.`.
pub open spec fn key_error(key: Seq<char>) -> Option<Seq<char>> {
    let k = trimmed(key);
    if k.len() == 0 {
        Some("Metadata key cannot be empty"@)
    } else if is_reserved(k) {
        Some("Metadata key `"@ + k + "` is reserved and cannot be set via extra"@)
    } else if k.contains('.') {
        Some("Metadata key `"@ + k + "` is not supported: nested keys are not yet supported"@)
    } else {
        None
    }
}

/// Which keys are accepted: a key is accepted exactly when, trimmed of
/// white space, it is not empty, is none of `id`, `ctime`, `mtime` and
/// `aliases`, and holds no `.`; any other character, `-` and `_` among
/// them, is accepted.  A refused key is refused with a message that names
/// the trimmed key (or says that it is empty).
pub proof fn lemma_accepted_keys(key: Seq<char>)
    ensures
        key_error(key) is None <==> {
            let k = trimmed(key);
            &&& k.len() > 0
            &&& k != seq!['i', 'd']
            &&& k != seq!['c', 't', 'i', 'm', 'e']
            &&& k != seq!['m', 't', 'i', 'm', 'e']
            &&& k != seq!['a', 'l', 'i', 'a', 's', 'e', 's']
            &&& forall|i: int| 0 <= i < k.len() ==> k[i] != '.'
        },
{
    let k = trimmed(key);
    if forall|i: int| 0 <= i < k.len() ==> k[i] != '.' {
        assert(!k.contains('.'));
    } else {
        let i = choose|i: int| 0 <= i < k.len() && k[i] == '.';
        assert(k.contains('.'));
    }
}

/// The error of the first of `keys` that cannot be a user-defined key.
pub open spec fn first_key_error(keys: Seq<Seq<char>>) -> Option<Seq<char>>
    decreases keys.len(),
{
    if keys.len() == 0 {
        None
    } else {
        match first_key_error(keys.drop_last()) {
            Some(m) => Some(m),
            None => key_error(keys.last()),
        }
    }
}

/// The keys of the entries `s`.
pub open spec fn keys_of<V>(s: Seq<(Seq<char>, V)>) -> Seq<Seq<char>> {
    s.map_values(|e: (Seq<char>, V)| e.0)
}

pub(crate) fn validation(message: String) -> (r: RepositoryError)
    ensures
        r == RepositoryError::Validation(message),
{
    RepositoryError::Validation(message)
}

/// Checks that `key` can be a user-defined metadata key.
pub fn validate_extra_key(key: &str) -> (r: Result<(), RepositoryError>)
    ensures
        match key_error(key@) {
            None => r is Ok,
            Some(m) => is_validation(r, m),
        },
{
    let k = trim(key);
    let kv = chars_of(k.as_str());
    if kv.len() == 0 {
        return Err(validation(owned("Metadata key cannot be empty")));
    }
    if crate::note::is_reserved_key(k.as_str()) {
        return Err(
            validation(
                concat(
                    concat(owned("Metadata key `"), k.as_str()),
                    "` is reserved and cannot be set via extra",
                ),
            ),
        );
    }
    if contains_char(&kv, '.') {
        return Err(
            validation(
                concat(
                    concat(owned("Metadata key `"), k.as_str()),
                    "` is not supported: nested keys are not yet supported",
                ),
            ),
        );
    }
    Ok(())
}

/// Checks each of `keys` in turn.
pub(crate) fn validate_keys(keys: &Vec<String>) -> (r: Result<(), RepositoryError>)
    ensures
        match first_key_error(strings_view(keys@)) {
            None => r is Ok,
            Some(m) => is_validation(r, m),
        },
{
    let ghost ks = strings_view(keys@);
    let mut i: usize = 0;
    assert(ks.take(0) =~= Seq::<Seq<char>>::empty());
    while i < keys.len()
        invariant
            i <= keys@.len(),
            ks == strings_view(keys@),
            first_key_error(ks.take(i as int)) is None,
        decreases keys@.len() - i,
    {
        let ghost p = ks.take(i + 1);
        assert(p.drop_last() =~= ks.take(i as int));
        assert(p.last() == keys@[i as int]@);
        match validate_extra_key(keys[i].as_str()) {
            Ok(()) => {},
            Err(e) => {
                proof {
                    lemma_first_key_error_prefix(ks, i + 1);
                }
                return Err(e);
            },
        }
        i = i + 1;
    }
    assert(ks.take(keys@.len() as int) =~= ks);
    Ok(())
}

/// The error of a prefix of `keys` is the error of `keys`.
pub(crate) proof fn lemma_first_key_error_prefix(keys: Seq<Seq<char>>, n: int)
    requires
        0 <= n <= keys.len(),
        first_key_error(keys.take(n)) is Some,
    ensures
        first_key_error(keys) == first_key_error(keys.take(n)),
    decreases keys.len() - n,
{
    if n < keys.len() {
        let p = keys.take(n + 1);
        assert(p.drop_last() =~= keys.take(n));
        lemma_first_key_error_prefix(keys, n + 1);
    } else {
        assert(keys.take(n) =~= keys);
    }
}

/// A reserved key has no surrounding whitespace.
proof fn lemma_reserved_trimmed(k: Seq<char>)
    requires
        is_reserved(k),
    ensures
        trimmed(k) == k,
{
    assert(!is_ws(k[0]));
    assert(trim_start(k) == k);
    assert(!is_ws(k.last()));
    assert(trim_end(k) == k);
}

/// A key that can be a user-defined key is not reserved.
pub(crate) proof fn lemma_valid_key_not_reserved(k: Seq<char>)
    requires
        key_error(k) is None,
    ensures
        !is_reserved(k),
{
    if is_reserved(k) {
        lemma_reserved_trimmed(k);
    }
}

/// When no key has an error, no key is reserved.
pub(crate) proof fn lemma_first_key_error_none(keys: Seq<Seq<char>>)
    requires
        first_key_error(keys) is None,
    ensures
        forall|i: int| 0 <= i < keys.len() ==> !is_reserved(#[trigger] keys[i]),
    decreases keys.len(),
{
    if keys.len() > 0 {
        let t = keys.drop_last();
        lemma_first_key_error_none(t);
        lemma_valid_key_not_reserved(keys.last());
        assert forall|i: int| 0 <= i < keys.len() implies !is_reserved(#[trigger] keys[i]) by {
            if i < keys.len() - 1 {
                assert(keys[i] == t[i]);
            }
        }
    }
}

/// A table whose keys can all be user-defined keys has no reserved key.
pub(crate) proof fn lemma_no_reserved_key(s: Seq<EntryView>)
    requires
        forall|i: int| 0 <= i < s.len() ==> !is_reserved(#[trigger] s[i].0),
    ensures
        first_reserved_key(s) is None,
    decreases s.len(),
{
    if s.len() > 0 {
        let t = s.drop_first();
        assert forall|i: int| 0 <= i < t.len() implies !is_reserved(#[trigger] t[i].0) by {
            assert(t[i] == s[i + 1]);
        }
        lemma_no_reserved_key(t);
    }
}


} // verus!
