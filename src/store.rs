//! The store root as one listing of its entries: the instances are its real
//! directories, and the selection link and anything else are not.
use vstd::prelude::*;

use crate::path::{is_component, is_single_component};
use crate::text::chars_of;

verus! {

/// The name of the link that records the current selection.
pub const CURRENT_LINK: &'static str = "current";

/// The name under which a new selection link is made before it replaces
/// the current one.
pub const STAGING_LINK: &'static str = ".current.swap";

/// One entry directly under the store root, as the filesystem reports it
/// without following links.
#[derive(Debug)]
pub struct StoreEntry {
    pub name: String,
    pub is_dir: bool,
    pub is_symlink: bool,
}

/// An entry that is an installed instance: a directory, not a link.
pub open spec fn is_instance_entry(e: StoreEntry) -> bool {
    e.is_dir && !e.is_symlink
}

/// The names of the instances among `entries`, in order.
pub open spec fn listed(entries: Seq<StoreEntry>) -> Seq<Seq<char>>
    decreases entries.len(),
{
    if entries.len() == 0 {
        Seq::empty()
    } else {
        let rest = listed(entries.drop_last());
        if is_instance_entry(entries.last()) {
            rest.push(entries.last().name@)
        } else {
            rest
        }
    }
}

/// The names of all `entries`, whatever their kind.
pub open spec fn entry_names(entries: Seq<StoreEntry>) -> Seq<Seq<char>> {
    entries.map_values(|e: StoreEntry| e.name@)
}

/// A name that an instance can have: one component, and neither of the
/// names the selection links use.
pub open spec fn is_instance_name(n: Seq<char>) -> bool {
    &&& is_component(n)
    &&& n != CURRENT_LINK@
    &&& n != STAGING_LINK@
}

/// Whether `n` is a name that an instance can have.
pub fn instance_name_ok(n: &String) -> (r: bool)
    ensures
        r == is_instance_name(n@),
{
    let chars = chars_of(n.as_str());
    let current = CURRENT_LINK.to_owned();
    let staging = STAGING_LINK.to_owned();
    is_single_component(chars.as_slice()) && *n != current && *n != staging
}

/// The names of the installed instances in the store whose entries are
/// `entries`: those of the directories that are not links, in the order
/// given.
pub fn list(entries: &[StoreEntry]) -> (r: Vec<String>)
    ensures
        r@.map_values(|s: String| s@) == listed(entries@),
{
    let mut r: Vec<String> = Vec::new();
    let mut i: usize = 0;
    while i < entries.len()
        invariant
            i <= entries@.len(),
            r@.map_values(|s: String| s@) == listed(entries@.subrange(0, i as int)),
        decreases entries.len() - i,
    {
        let e = &entries[i];
        proof {
            assert(entries@.subrange(0, i + 1).drop_last() =~= entries@.subrange(0, i as int));
        }
        if e.is_dir && !e.is_symlink {
            let ghost before = r@;
            r.push(e.name.clone());
            assert(r@.map_values(|s: String| s@) =~= before.map_values(|s: String| s@).push(e.name@));
        }
        i = i + 1;
    }
    assert(entries@.subrange(0, entries@.len() as int) =~= entries@);
    r
}

/// Every listed name is the name of an instance entry, and every instance
/// entry's name is listed.
pub proof fn lemma_listed_members(entries: Seq<StoreEntry>)
    ensures
        forall|x: Seq<char>|
            listed(entries).contains(x) <==> exists|k: int|
                0 <= k < entries.len() && is_instance_entry(entries[k]) && entries[k].name@ == x,
    decreases entries.len(),
{
    if entries.len() > 0 {
        let rest = entries.drop_last();
        lemma_listed_members(rest);
        if is_instance_entry(entries.last()) {
            assert(listed(entries) == listed(rest).push(entries.last().name@));
        } else {
            assert(listed(entries) == listed(rest));
        }
        assert forall|x: Seq<char>|
            listed(entries).contains(x) <==> exists|k: int|
                0 <= k < entries.len() && is_instance_entry(entries[k]) && entries[k].name@
                    == x by {
            if listed(entries).contains(x) {
                if listed(rest).contains(x) {
                    let k = choose|k: int|
                        0 <= k < rest.len() && is_instance_entry(rest[k]) && rest[k].name@ == x;
                    assert(entries[k] == rest[k]);
                } else {
                    let j = choose|j: int| 0 <= j < listed(entries).len() && listed(entries)[j] == x;
                    assert(j == listed(rest).len());
                    assert(entries[entries.len() - 1] == entries.last());
                }
            }
            if exists|k: int|
                0 <= k < entries.len() && is_instance_entry(entries[k]) && entries[k].name@ == x {
                let k = choose|k: int|
                    0 <= k < entries.len() && is_instance_entry(entries[k]) && entries[k].name@
                        == x;
                if k < rest.len() {
                    assert(rest[k] == entries[k]);
                    assert(is_instance_entry(rest[k]) && rest[k].name@ == x);
                    assert(listed(rest).contains(x));
                    let j = choose|j: int| 0 <= j < listed(rest).len() && listed(rest)[j] == x;
                    if is_instance_entry(entries.last()) {
                        assert(listed(entries)[j] == listed(rest)[j]);
                    }
                } else {
                    assert(listed(entries)[listed(rest).len() as int] == x);
                }
            }
        }
    }
}

/// In a store whose entries have distinct names, a link (such as the
/// selection link) is never listed as an instance.
pub proof fn lemma_links_not_listed(entries: Seq<StoreEntry>, k: int)
    requires
        0 <= k < entries.len(),
        entries[k].is_symlink,
        forall|i: int, j: int|
            0 <= i < j < entries.len() ==> entries[i].name@ != entries[j].name@,
    ensures
        !listed(entries).contains(entries[k].name@),
{
    lemma_listed_members(entries);
}

} // verus!
