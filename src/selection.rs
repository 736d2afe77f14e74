//! The current selection: reading the `current` link, and planning its
//! replacement.
use vstd::prelude::*;

use crate::error::RegistryError;
use crate::path::{extend, file_name, final_component, lemma_final_component_of_extend, views};
use crate::path::extend_path;
use crate::store::{instance_name_ok, is_instance_entry, is_instance_name, listed, StoreEntry};
use crate::store::{CURRENT_LINK, STAGING_LINK};
use crate::text::{chars_of, string_of};

verus! {

/// What the store root holds under the name of the selection link.
#[derive(Debug)]
pub enum LinkState {
    /// Nothing: no instance is selected.
    Absent,
    /// A link whose target could not be read.
    Unreadable,
    /// A link to this target path.
    Target(String),
}

/// The instance selected by the link `link`: none where there is no link;
/// the final component of its target where it has one; `CorruptSelection`
/// where the target cannot be read or has no final component.
pub fn get(link: &LinkState) -> (r: Result<Option<String>, RegistryError>)
    ensures
        match link {
            LinkState::Absent => r == Ok::<Option<String>, RegistryError>(None),
            LinkState::Unreadable => r == Err::<Option<String>, RegistryError>(
                RegistryError::CorruptSelection,
            ),
            LinkState::Target(t) => match final_component(t@) {
                Some(n) => r matches Ok(Some(s)) && s@ == n,
                None => r == Err::<Option<String>, RegistryError>(RegistryError::CorruptSelection),
            },
        },
{
    match link {
        LinkState::Absent => Ok(None),
        LinkState::Unreadable => Err(RegistryError::CorruptSelection),
        LinkState::Target(t) => {
            let chars = chars_of(t.as_str());
            match file_name(chars.as_slice()) {
                Some(n) => Ok(Some(string_of(n.as_slice()))),
                None => Err(RegistryError::CorruptSelection),
            }
        },
    }
}

/// How to make an instance the current one: make a link at `staging` to
/// `target`, then rename it over `link`, so that readers of `link` see
/// either the old selection or the new one.
#[derive(Debug)]
pub struct SetPlan {
    pub target: String,
    pub link: String,
    pub staging: String,
}

/// Whether the store whose entries are `entries` holds an instance `name`.
pub open spec fn has_instance(entries: Seq<StoreEntry>, name: Seq<char>) -> bool {
    is_instance_name(name) && listed(entries).contains(name)
}

fn holds_instance(entries: &[StoreEntry], name: &String) -> (r: bool)
    ensures
        r == has_instance(entries@, name@),
{
    if !instance_name_ok(name) {
        return false;
    }
    proof {
        crate::store::lemma_listed_members(entries@);
    }
    let mut i: usize = 0;
    while i < entries.len()
        invariant
            i <= entries@.len(),
            is_instance_name(name@),
            forall|k: int|
                0 <= k < i ==> !(is_instance_entry(entries@[k]) && entries@[k].name@ == name@),
            forall|x: Seq<char>|
                listed(entries@).contains(x) <==> exists|k: int|
                    0 <= k < entries@.len() && is_instance_entry(entries@[k]) && entries@[k].name@
                        == x,
        decreases entries.len() - i,
    {
        let e = &entries[i];
        if e.is_dir && !e.is_symlink && e.name == *name {
            assert(is_instance_entry(entries@[i as int]) && entries@[i as int].name@ == name@);
            assert(listed(entries@).contains(name@));
            return true;
        }
        i = i + 1;
    }
    false
}

/// The plan that makes `name` the current instance of the store at `base`
/// whose entries are `entries`. Succeeds exactly where `name` is an
/// instance of the store; the link then goes to `base` joined with `name`.
/// Otherwise fails with `InstanceNotFound`, and nothing is to change.
pub fn set(base: &str, name: &str, entries: &[StoreEntry]) -> (r: Result<SetPlan, RegistryError>)
    ensures
        has_instance(entries@, name@) <==> r is Ok,
        !has_instance(entries@, name@) ==> r == Err::<SetPlan, RegistryError>(
            RegistryError::InstanceNotFound,
        ),
        r matches Ok(p) ==> {
            &&& p.target@ == extend(base@, seq![name@])
            &&& p.link@ == extend(base@, seq![CURRENT_LINK@])
            &&& p.staging@ == extend(base@, seq![STAGING_LINK@])
        },
{
    let owned = name.to_owned();
    if !holds_instance(entries, &owned) {
        return Err(RegistryError::InstanceNotFound);
    }
    let name_part = vec![name];
    let link_part = vec![CURRENT_LINK];
    let staging_part = vec![STAGING_LINK];
    proof {
        assert(views(name_part@) =~= seq![name@]);
        assert(views(link_part@) =~= seq![CURRENT_LINK@]);
        assert(views(staging_part@) =~= seq![STAGING_LINK@]);
    }
    let target = extend_path(base, name_part.as_slice());
    let link = extend_path(base, link_part.as_slice());
    let staging = extend_path(base, staging_part.as_slice());
    Ok(SetPlan { target, link, staging })
}

/// After `set` makes an instance of the store current, `get` on the link
/// that its plan makes returns that instance's name.
pub proof fn lemma_get_after_set(base: Seq<char>, name: Seq<char>, entries: Seq<StoreEntry>)
    requires
        has_instance(entries, name),
    ensures
        final_component(extend(base, seq![name])) == Some(name),
{
    lemma_final_component_of_extend(base, name);
}

} // verus!
