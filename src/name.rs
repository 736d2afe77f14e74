//! Deriving an instance name from an input path.
use vstd::prelude::*;

use crate::error::RegistryError;
use crate::path::{copy_range, file_name, final_component, views};
use crate::text::{chars_of, string_of};

verus! {

/// Whether `name` ends with `suffix` and keeps at least one character
/// before it.
pub open spec fn has_suffix(name: Seq<char>, suffix: Seq<char>) -> bool {
    &&& suffix.len() < name.len()
    &&& name.subrange(name.len() - suffix.len(), name.len() as int) == suffix
}

/// The length of the longest of `suffixes` that `name` ends with; 0 where
/// it ends with none.
pub open spec fn longest_suffix(name: Seq<char>, suffixes: Seq<Seq<char>>) -> nat
    decreases suffixes.len(),
{
    if suffixes.len() == 0 {
        0
    } else {
        let rest = longest_suffix(name, suffixes.drop_last());
        let s = suffixes.last();
        if has_suffix(name, s) && s.len() > rest {
            s.len()
        } else {
            rest
        }
    }
}

/// `name` without the longest of `suffixes` that it ends with.
pub open spec fn strip_suffix(name: Seq<char>, suffixes: Seq<Seq<char>>) -> Seq<char> {
    name.subrange(0, name.len() - longest_suffix(name, suffixes))
}

/// The instance name of the input `path`: its final component without the
/// longest recognised archive suffix; none where it has no final component.
pub open spec fn derived_name(path: Seq<char>, suffixes: Seq<Seq<char>>) -> Option<Seq<char>> {
    match final_component(path) {
        Some(f) => Some(strip_suffix(f, suffixes)),
        None => None,
    }
}

/// The archive suffixes recognised by default.
pub open spec fn default_suffixes() -> Seq<Seq<char>> {
    seq![".tar.gz"@, ".tar.xz"@, ".tar.bz2"@, ".tar.zst"@, ".tgz"@, ".txz"@, ".tar"@, ".zip"@, ".gz"@]
}

/// The archive suffixes recognised by default.
pub fn archive_suffixes() -> (r: Vec<&'static str>)
    ensures
        views(r@) == default_suffixes(),
{
    let r = vec![".tar.gz", ".tar.xz", ".tar.bz2", ".tar.zst", ".tgz", ".txz", ".tar", ".zip", ".gz"];
    assert(views(r@) =~= default_suffixes());
    r
}

fn ends_with(name: &[char], suffix: &[char]) -> (r: bool)
    ensures
        r == has_suffix(name@, suffix@),
{
    if suffix.len() >= name.len() {
        return false;
    }
    let off = name.len() - suffix.len();
    let mut i: usize = 0;
    while i < suffix.len()
        invariant
            off + suffix@.len() == name@.len(),
            name@.len() <= usize::MAX,
            i <= suffix@.len(),
            forall|k: int| 0 <= k < i ==> name@[off + k] == suffix@[k],
        decreases suffix.len() - i,
    {
        if name[off + i] != suffix[i] {
            assert(name@.subrange(off as int, name@.len() as int)[i as int] != suffix@[i as int]);
            return false;
        }
        i = i + 1;
    }
    assert(name@.subrange(off as int, name@.len() as int) =~= suffix@);
    true
}

/// The instance name of the input `path`, with `suffixes` as the recognised
/// archive suffixes: the final component of `path`, without the longest of
/// `suffixes` that it ends with. Fails with `InvalidName` exactly where
/// `path` has no final component.
pub fn derive_name_with(path: &str, suffixes: &[&str]) -> (r: Result<String, RegistryError>)
    ensures
        match derived_name(path@, views(suffixes@)) {
            Some(n) => r matches Ok(s) && s@ == n,
            None => r == Err::<String, RegistryError>(RegistryError::InvalidName),
        },
{
    let p = chars_of(path);
    let f = match file_name(p.as_slice()) {
        Some(f) => f,
        None => {
            return Err(RegistryError::InvalidName);
        },
    };
    let mut best: usize = 0;
    let mut i: usize = 0;
    while i < suffixes.len()
        invariant
            i <= suffixes@.len(),
            best == longest_suffix(f@, views(suffixes@.subrange(0, i as int))),
            best < f@.len() || best == 0,
        decreases suffixes.len() - i,
    {
        let s = chars_of(suffixes[i]);
        proof {
            let next = views(suffixes@.subrange(0, i + 1));
            assert(next.drop_last() =~= views(suffixes@.subrange(0, i as int)));
            assert(next.last() == suffixes@[i as int]@);
        }
        if ends_with(f.as_slice(), s.as_slice()) && s.len() > best {
            best = s.len();
        }
        i = i + 1;
    }
    assert(suffixes@.subrange(0, suffixes@.len() as int) =~= suffixes@);
    let stem = copy_range(f.as_slice(), 0, f.len() - best);
    Ok(string_of(stem.as_slice()))
}

/// The instance name of the input `path` with the default archive suffixes.
pub fn derive_name(path: &str) -> (r: Result<String, RegistryError>)
    ensures
        match derived_name(path@, default_suffixes()) {
            Some(n) => r matches Ok(s) && s@ == n,
            None => r == Err::<String, RegistryError>(RegistryError::InvalidName),
        },
{
    let suffixes = archive_suffixes();
    derive_name_with(path, suffixes.as_slice())
}

/// The longest match is 0 or the length of a listed suffix that matches,
/// and no matching listed suffix is longer.
pub proof fn lemma_longest_suffix(name: Seq<char>, suffixes: Seq<Seq<char>>)
    ensures
        longest_suffix(name, suffixes) == 0 || exists|k: int|
            0 <= k < suffixes.len() && has_suffix(name, suffixes[k]) && suffixes[k].len()
                == longest_suffix(name, suffixes),
        forall|k: int|
            0 <= k < suffixes.len() && has_suffix(name, suffixes[k]) ==> suffixes[k].len()
                <= longest_suffix(name, suffixes),
    decreases suffixes.len(),
{
    if suffixes.len() > 0 {
        let rest = suffixes.drop_last();
        lemma_longest_suffix(name, rest);
        assert forall|k: int| 0 <= k < rest.len() implies rest[k] == suffixes[k] by {}
        if longest_suffix(name, suffixes) != 0 && longest_suffix(name, suffixes) == longest_suffix(
            name,
            rest,
        ) {
            let k = choose|k: int|
                0 <= k < rest.len() && has_suffix(name, rest[k]) && rest[k].len()
                    == longest_suffix(name, rest);
            assert(suffixes[k] == rest[k]);
        }
    }
}

/// An input whose final component ends with a recognised suffix, and with
/// no longer recognised one, is named by that component with exactly that
/// suffix taken off.
pub proof fn lemma_archive_suffix_stripped(
    path: Seq<char>,
    stem: Seq<char>,
    suffix: Seq<char>,
    suffixes: Seq<Seq<char>>,
)
    requires
        final_component(path) == Some(stem + suffix),
        stem.len() > 0,
        suffixes.contains(suffix),
        forall|k: int|
            0 <= k < suffixes.len() && has_suffix(stem + suffix, suffixes[k]) ==> suffixes[k].len()
                <= suffix.len(),
    ensures
        derived_name(path, suffixes) == Some(stem),
{
    let f = stem + suffix;
    assert(f.subrange(f.len() - suffix.len(), f.len() as int) =~= suffix);
    lemma_longest_suffix(f, suffixes);
    let j = choose|j: int| 0 <= j < suffixes.len() && suffixes[j] == suffix;
    assert(has_suffix(f, suffixes[j]));
    assert(strip_suffix(f, suffixes) =~= stem);
}

/// An input whose final component ends with no recognised suffix, such as
/// a directory, is named by that component unchanged.
pub proof fn lemma_plain_component_kept(path: Seq<char>, suffixes: Seq<Seq<char>>)
    requires
        final_component(path) is Some,
        forall|k: int| 0 <= k < suffixes.len() ==> !has_suffix(final_component(path)->0, suffixes[k]),
    ensures
        derived_name(path, suffixes) == final_component(path),
{
    let f = final_component(path)->0;
    lemma_longest_suffix(f, suffixes);
    assert(strip_suffix(f, suffixes) =~= f);
}

} // verus!
