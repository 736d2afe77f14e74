//! Planning an `add`: which inputs are installed under which names, and
//! which are refused and why.
use vstd::prelude::*;

use crate::error::RegistryError;
use crate::name::{default_suffixes, derive_name, derived_name};
use crate::path::{extend, extend_path, views};
use crate::path::{final_component, lemma_final_component_of_extend};
use crate::store::{entry_names, instance_name_ok, is_instance_entry, is_instance_name, listed};
use crate::store::{lemma_listed_members, StoreEntry};

verus! {

/// One input of an `add`: the path as given, and the canonical form of it
/// that the filesystem resolved, none where it could not (such as a path
/// that does not exist).
#[derive(Debug)]
pub struct AddInput {
    pub path: String,
    pub canonical: Option<String>,
}

/// What is to be done with one input of an `add`.
#[derive(Debug)]
pub enum AddStep {
    /// Copy the tree at `source` to `dest`, the new instance `name`.
    Install { name: String, source: String, dest: String },
    /// Nothing: the input at this index has the same source and is handled
    /// there.
    SameAs(usize),
    /// Nothing: the input is refused for this reason.
    Refused(RegistryError),
}

/// The canonical path of an input, as a sequence.
pub open spec fn canon(inp: AddInput) -> Option<Seq<char>> {
    match inp.canonical {
        Some(c) => Some(c@),
        None => None,
    }
}

/// The instance name that an input derives.
pub open spec fn input_name(inp: AddInput) -> Option<Seq<char>> {
    derived_name(inp.path@, default_suffixes())
}

/// An input that can be installed on its own: it resolved, and it derives a
/// name that an instance can have.
pub open spec fn usable(inp: AddInput) -> bool {
    &&& canon(inp) is Some
    &&& input_name(inp) is Some
    &&& is_instance_name(input_name(inp)->0)
}

/// `a` is usable and resolves to the same place as `b`.
pub open spec fn same_source(a: AddInput, b: AddInput) -> bool {
    usable(a) && canon(a) == canon(b)
}

/// No input before `i` is usable with the source of input `i`.
pub open spec fn first_of_source(inputs: Seq<AddInput>, i: int) -> bool {
    forall|k: int| 0 <= k < i ==> !same_source(#[trigger] inputs[k], inputs[i])
}

/// Some usable input resolves elsewhere than input `i` and derives its name.
pub open spec fn collides(inputs: Seq<AddInput>, i: int) -> bool {
    exists|k: int|
        0 <= k < inputs.len() && usable(#[trigger] inputs[k]) && canon(inputs[k]) != canon(inputs[i])
            && input_name(inputs[k]) == input_name(inputs[i])
}

/// `step` is what an `add` into the store at `base` with entries `entries`
/// does with input `i` of `inputs`.
pub open spec fn step_for(
    base: Seq<char>,
    inputs: Seq<AddInput>,
    entries: Seq<StoreEntry>,
    i: int,
    step: AddStep,
) -> bool {
    let inp = inputs[i];
    if canon(inp) is None {
        step == AddStep::Refused(RegistryError::IoError)
    } else if !usable(inp) {
        step == AddStep::Refused(RegistryError::InvalidName)
    } else if !first_of_source(inputs, i) {
        step matches AddStep::SameAs(j) && j < i && same_source(inputs[j as int], inp)
            && first_of_source(inputs, j as int)
    } else if collides(inputs, i) {
        step == AddStep::Refused(RegistryError::NameCollision)
    } else if entry_names(entries).contains(input_name(inp)->0) {
        step == AddStep::Refused(RegistryError::AlreadyInstalled)
    } else {
        step matches AddStep::Install { name, source, dest } && name@ == input_name(inp)->0
            && source@ == canon(inp)->0 && dest@ == extend(base, seq![name@])
    }
}

/// `names` holds, for each of `inputs`, its derived name where it is usable.
pub open spec fn names_match(inputs: Seq<AddInput>, names: Seq<Option<String>>) -> bool {
    &&& names.len() == inputs.len()
    &&& forall|k: int|
        0 <= k < inputs.len() ==> {
            &&& (names[k] is Some <==> usable(#[trigger] inputs[k]))
            &&& (names[k] is Some ==> names[k]->0@ == input_name(inputs[k])->0)
        }
}

fn same_canonical(a: &Option<String>, b: &Option<String>) -> (r: bool)
    ensures
        r == ((match a {
            Some(x) => Some(x@),
            None => None::<Seq<char>>,
        }) == (match b {
            Some(x) => Some(x@),
            None => None::<Seq<char>>,
        })),
{
    match (a, b) {
        (Some(x), Some(y)) => *x == *y,
        (None, None) => true,
        _ => false,
    }
}

fn usable_names(inputs: &[AddInput]) -> (r: Vec<Option<String>>)
    ensures
        names_match(inputs@, r@),
{
    let mut r: Vec<Option<String>> = Vec::new();
    let mut i: usize = 0;
    while i < inputs.len()
        invariant
            i <= inputs@.len(),
            r@.len() == i,
            forall|k: int|
                0 <= k < i ==> {
                    &&& (r@[k] is Some <==> usable(#[trigger] inputs@[k]))
                    &&& (r@[k] is Some ==> r@[k]->0@ == input_name(inputs@[k])->0)
                },
        decreases inputs.len() - i,
    {
        let inp = &inputs[i];
        let mut found: Option<String> = None;
        if inp.canonical.is_some() {
            match derive_name(inp.path.as_str()) {
                Ok(n) => {
                    if instance_name_ok(&n) {
                        found = Some(n);
                    }
                },
                Err(_) => {},
            }
        }
        r.push(found);
        i = i + 1;
    }
    r
}

fn first_same_source(inputs: &[AddInput], names: &[Option<String>], i: usize) -> (r: Option<
    usize,
>)
    requires
        names_match(inputs@, names@),
        i < inputs@.len(),
    ensures
        r is None ==> first_of_source(inputs@, i as int),
        r matches Some(j) ==> j < i && same_source(inputs@[j as int], inputs@[i as int])
            && first_of_source(inputs@, j as int),
{
    let mut j: usize = 0;
    while j < i
        invariant
            names_match(inputs@, names@),
            i < inputs@.len(),
            j <= i,
            forall|k: int| 0 <= k < j ==> !same_source(#[trigger] inputs@[k], inputs@[i as int]),
        decreases i - j,
    {
        if names[j].is_some() && same_canonical(&inputs[j].canonical, &inputs[i].canonical) {
            assert(usable(inputs@[j as int]));
            assert forall|k: int| 0 <= k < j implies !same_source(
                #[trigger] inputs@[k],
                inputs@[j as int],
            ) by {
                assert(!same_source(inputs@[k], inputs@[i as int]));
            }
            return Some(j);
        }
        assert(!same_source(inputs@[j as int], inputs@[i as int]));
        j = j + 1;
    }
    None
}

fn has_collision(inputs: &[AddInput], names: &[Option<String>], i: usize) -> (r: bool)
    requires
        names_match(inputs@, names@),
        i < inputs@.len(),
        usable(inputs@[i as int]),
    ensures
        r == collides(inputs@, i as int),
{
    let name = match &names[i] {
        Some(n) => n,
        None => {
            return false;
        },
    };
    let mut k: usize = 0;
    while k < inputs.len()
        invariant
            names_match(inputs@, names@),
            i < inputs@.len(),
            usable(inputs@[i as int]),
            name@ == input_name(inputs@[i as int])->0,
            k <= inputs@.len(),
            forall|m: int|
                0 <= m < k ==> !(usable(#[trigger] inputs@[m]) && canon(inputs@[m]) != canon(
                    inputs@[i as int],
                ) && input_name(inputs@[m]) == input_name(inputs@[i as int])),
        decreases inputs.len() - k,
    {
        match &names[k] {
            Some(other) => {
                if !same_canonical(&inputs[k].canonical, &inputs[i].canonical) && *other == *name {
                    assert(usable(inputs@[k as int]));
                    return true;
                }
            },
            None => {},
        }
        k = k + 1;
    }
    false
}

fn name_taken(entries: &[StoreEntry], name: &String) -> (r: bool)
    ensures
        r == entry_names(entries@).contains(name@),
{
    let mut i: usize = 0;
    while i < entries.len()
        invariant
            i <= entries@.len(),
            forall|k: int| 0 <= k < i ==> entries@[k].name@ != name@,
        decreases entries.len() - i,
    {
        if entries[i].name == *name {
            assert(entry_names(entries@)[i as int] == name@);
            return true;
        }
        i = i + 1;
    }
    assert forall|k: int| 0 <= k < entry_names(entries@).len() implies entry_names(entries@)[k]
        != name@ by {
        assert(entry_names(entries@)[k] == entries@[k].name@);
    }
    false
}

fn step(base: &str, inputs: &[AddInput], names: &[Option<String>], entries: &[StoreEntry], i: usize) -> (r: AddStep)
    requires
        names_match(inputs@, names@),
        i < inputs@.len(),
    ensures
        step_for(base@, inputs@, entries@, i as int, r),
{
    let canonical = match &inputs[i].canonical {
        Some(c) => c,
        None => {
            return AddStep::Refused(RegistryError::IoError);
        },
    };
    let name = match &names[i] {
        Some(n) => n,
        None => {
            return AddStep::Refused(RegistryError::InvalidName);
        },
    };
    match first_same_source(inputs, names, i) {
        Some(j) => {
            return AddStep::SameAs(j);
        },
        None => {},
    }
    if has_collision(inputs, names, i) {
        return AddStep::Refused(RegistryError::NameCollision);
    }
    if name_taken(entries, name) {
        return AddStep::Refused(RegistryError::AlreadyInstalled);
    }
    let part = vec![name.as_str()];
    assert(views(part@) =~= seq![name@]);
    let dest = extend_path(base, part.as_slice());
    AddStep::Install { name: name.clone(), source: canonical.clone(), dest }
}

/// The plan of an `add` of `inputs` into the store at `base` whose entries
/// are `entries`: one step for each input, in order. An input that did not
/// resolve is refused with `IoError`; one that derives no usable name with
/// `InvalidName`; one that resolves to the same place as an earlier usable
/// input is left to that input; one that derives the name of a usable input
/// with another source with `NameCollision`; one whose name the store
/// already holds with `AlreadyInstalled`. Each other input is installed
/// under its name, at `base` joined with that name.
pub fn add(base: &str, inputs: &[AddInput], entries: &[StoreEntry]) -> (r: Vec<AddStep>)
    ensures
        r@.len() == inputs@.len(),
        forall|i: int| 0 <= i < inputs@.len() ==> step_for(base@, inputs@, entries@, i, #[trigger] r@[i]),
{
    let names = usable_names(inputs);
    let mut r: Vec<AddStep> = Vec::new();
    let mut i: usize = 0;
    while i < inputs.len()
        invariant
            names_match(inputs@, names@),
            i <= inputs@.len(),
            r@.len() == i,
            forall|k: int| 0 <= k < i ==> step_for(base@, inputs@, entries@, k, #[trigger] r@[k]),
        decreases inputs.len() - i,
    {
        let s = step(base, inputs, names.as_slice(), entries, i);
        r.push(s);
        i = i + 1;
    }
    r
}

/// Whether an `add` whose plan is `steps` succeeded, `copied` telling for
/// each step whether its copy went through: no input was refused and every
/// planned copy went through.
pub open spec fn add_ok(steps: Seq<AddStep>, copied: Seq<bool>) -> bool {
    forall|i: int|
        0 <= i < steps.len() ==> !(#[trigger] steps[i] is Refused) && (steps[i] is Install
            ==> copied[i])
}

/// Whether an `add` whose plan is `steps` succeeded, `copied[i]` telling
/// whether the copy of step `i` went through (it is not read for other
/// steps).
pub fn add_succeeded(steps: &[AddStep], copied: &[bool]) -> (r: bool)
    requires
        steps@.len() == copied@.len(),
    ensures
        r == add_ok(steps@, copied@),
{
    let mut i: usize = 0;
    while i < steps.len()
        invariant
            steps@.len() == copied@.len(),
            i <= steps@.len(),
            forall|k: int|
                0 <= k < i ==> !(#[trigger] steps@[k] is Refused) && (steps@[k] is Install
                    ==> copied@[k]),
        decreases steps.len() - i,
    {
        match &steps[i] {
            AddStep::Refused(_) => {
                return false;
            },
            AddStep::Install { .. } => {
                if !copied[i] {
                    return false;
                }
            },
            AddStep::SameAs(_) => {},
        }
        i = i + 1;
    }
    true
}

/// Adding the same input twice: where the first `add` installs it and the
/// store then holds the new instance, the second `add` refuses it with
/// `AlreadyInstalled`, and the store lists that instance exactly once.
pub proof fn lemma_add_twice_refused(
    base: Seq<char>,
    input: AddInput,
    entries: Seq<StoreEntry>,
    first: AddStep,
    added: StoreEntry,
    second: AddStep,
)
    requires
        step_for(base, seq![input], entries, 0, first),
        first matches AddStep::Install { name, .. } && added.name@ == name@,
        is_instance_entry(added),
        step_for(base, seq![input], entries.push(added), 0, second),
    ensures
        second == AddStep::Refused(RegistryError::AlreadyInstalled),
        !listed(entries).contains(added.name@),
        listed(entries.push(added)) == listed(entries).push(added.name@),
{
    let inputs = seq![input];
    let after = entries.push(added);
    assert(inputs[0] == input);
    assert(entries.push(added).drop_last() =~= entries);
    assert(entry_names(after)[entries.len() as int] == added.name@);
    assert(!collides(inputs, 0));
    lemma_listed_members(entries);
    if listed(entries).contains(added.name@) {
        let k = choose|k: int|
            0 <= k < entries.len() && is_instance_entry(entries[k]) && entries[k].name@
                == added.name@;
        assert(entry_names(entries)[k] == added.name@);
    }
}

/// Two inputs that resolve to different places and derive the same usable
/// name are both refused with `NameCollision`, so neither is installed.
pub proof fn lemma_colliding_pair_refused(
    base: Seq<char>,
    a: AddInput,
    b: AddInput,
    entries: Seq<StoreEntry>,
    step_a: AddStep,
    step_b: AddStep,
)
    requires
        usable(a),
        usable(b),
        canon(a) != canon(b),
        input_name(a) == input_name(b),
        step_for(base, seq![a, b], entries, 0, step_a),
        step_for(base, seq![a, b], entries, 1, step_b),
    ensures
        step_a == AddStep::Refused(RegistryError::NameCollision),
        step_b == AddStep::Refused(RegistryError::NameCollision),
{
    let inputs = seq![a, b];
    assert(inputs[0] == a && inputs[1] == b);
    assert(collides(inputs, 0));
    assert(collides(inputs, 1));
    assert(first_of_source(inputs, 1));
}

/// Inputs that resolve to distinct places and derive distinct usable names
/// that the store does not hold are all installed, each under its own name
/// and at its own destination, so no copy touches another's and the order
/// in which the copies run does not matter.
pub proof fn lemma_distinct_inputs_installed(
    base: Seq<char>,
    inputs: Seq<AddInput>,
    entries: Seq<StoreEntry>,
)
    requires
        forall|i: int| 0 <= i < inputs.len() ==> usable(#[trigger] inputs[i]),
        forall|i: int, j: int|
            0 <= i < j < inputs.len() ==> canon(#[trigger] inputs[i]) != canon(
                #[trigger] inputs[j],
            ) && input_name(inputs[i]) != input_name(inputs[j]),
        forall|i: int|
            0 <= i < inputs.len() ==> !entry_names(entries).contains(
                input_name(#[trigger] inputs[i])->0,
            ),
    ensures
        forall|i: int, s: AddStep|
            0 <= i < inputs.len() && #[trigger] step_for(base, inputs, entries, i, s) ==> (s matches AddStep::Install {
                name,
                ..
            } && name@ == input_name(inputs[i])->0),
        forall|i: int, j: int, s: AddStep, t: AddStep|
            0 <= i < j < inputs.len() && #[trigger] step_for(base, inputs, entries, i, s)
                && #[trigger] step_for(base, inputs, entries, j, t) ==> s->dest@ != t->dest@,
{
    assert forall|i: int| 0 <= i < inputs.len() implies first_of_source(inputs, i) && !collides(
        inputs,
        i,
    ) by {
        assert forall|k: int| 0 <= k < i implies !same_source(
            #[trigger] inputs[k],
            inputs[i],
        ) by {
            assert(canon(inputs[k]) != canon(inputs[i]));
        }
        if collides(inputs, i) {
            let k = choose|k: int|
                0 <= k < inputs.len() && usable(#[trigger] inputs[k]) && canon(inputs[k])
                    != canon(inputs[i]) && input_name(inputs[k]) == input_name(inputs[i]);
            if k < i {
                assert(input_name(inputs[k]) != input_name(inputs[i]));
            } else if k > i {
                assert(input_name(inputs[i]) != input_name(inputs[k]));
            }
        }
    }
    assert forall|i: int, j: int, s: AddStep, t: AddStep|
        0 <= i < j < inputs.len() && #[trigger] step_for(base, inputs, entries, i, s)
            && #[trigger] step_for(base, inputs, entries, j, t) implies s->dest@ != t->dest@ by {
        let ni = input_name(inputs[i])->0;
        let nj = input_name(inputs[j])->0;
        lemma_final_component_of_extend(base, ni);
        lemma_final_component_of_extend(base, nj);
        assert(input_name(inputs[i]) != input_name(inputs[j]));
        assert(final_component(s->dest@) != final_component(t->dest@));
    }
}

} // verus!
