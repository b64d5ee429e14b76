//! Blueprints: named, ordered lists of the modules that a service is made of.

use vstd::prelude::*;
use crate::error::ModuleError;
use crate::hash::{blake3_digest, hasher_finalize, hasher_input, hasher_new, hasher_update};
use crate::hex::hex_of;

verus! {

/// A reference to a module.
#[derive(Clone, Debug, PartialEq, Eq)]
pub enum Dependency {
    /// The module with this content hash.
    Hash(crate::hash::Hash),
    /// The module known under this name.
    Name(String),
}

/// A reference to a module as a mathematical value.
pub enum DependencyView {
    Hash(Seq<u8>),
    Name(Seq<char>),
}

impl View for Dependency {
    type V = DependencyView;

    open spec fn view(&self) -> DependencyView {
        match *self {
            Dependency::Hash(hash) => DependencyView::Hash(hash@),
            Dependency::Name(name) => DependencyView::Name(name@),
        }
    }
}

/// The references of a list as mathematical values.
pub open spec fn dependencies_view(list: Seq<Dependency>) -> Seq<DependencyView> {
    list.map_values(|d: Dependency| d@)
}

/// A request to store a blueprint.
#[derive(Clone, Debug, PartialEq, Eq)]
pub struct AddBlueprint {
    pub name: String,
    pub dependencies: Vec<Dependency>,
}

/// A stored blueprint. Its identifier is made from its dependencies alone.
#[derive(Clone, Debug, PartialEq, Eq)]
pub struct Blueprint {
    pub id: String,
    pub name: String,
    pub dependencies: Vec<Dependency>,
}

/// A blueprint as a mathematical value.
pub struct BlueprintView {
    pub id: Seq<char>,
    pub name: Seq<char>,
    pub dependencies: Seq<DependencyView>,
}

impl View for Blueprint {
    type V = BlueprintView;

    open spec fn view(&self) -> BlueprintView {
        BlueprintView {
            id: self.id@,
            name: self.name@,
            dependencies: dependencies_view(self.dependencies@),
        }
    }
}

/// The byte strings of `parts`, one after another.
pub open spec fn concat(parts: Seq<Seq<u8>>) -> Seq<u8>
    decreases parts.len(),
{
    if parts.len() == 0 {
        Seq::empty()
    } else {
        concat(parts.drop_last()) + parts.last()
    }
}

/// The first reference by name in `deps`, if there is one.
pub open spec fn first_name(deps: Seq<DependencyView>) -> Option<Seq<char>>
    decreases deps.len(),
{
    if deps.len() == 0 {
        None
    } else {
        match deps[0] {
            DependencyView::Name(name) => Some(name),
            DependencyView::Hash(_) => first_name(deps.drop_first()),
        }
    }
}

/// The hashes of `deps`, in order, where every one of them is a hash.
pub open spec fn hashes_of(deps: Seq<DependencyView>) -> Seq<Seq<u8>> {
    deps.map_values(
        |d: DependencyView|
            match d {
                DependencyView::Hash(bytes) => bytes,
                DependencyView::Name(_) => Seq::empty(),
            },
    )
}

/// Each of `hashes` as a reference by hash.
pub open spec fn as_references(hashes: Seq<Seq<u8>>) -> Seq<DependencyView> {
    hashes.map_values(|bytes: Seq<u8>| DependencyView::Hash(bytes))
}

/// The identifier of a blueprint whose dependencies have the hashes
/// `hashes`: the hexadecimal text of the digest of their bytes, in order.
pub open spec fn blueprint_id(hashes: Seq<Seq<u8>>) -> Seq<char> {
    hex_of(blake3_digest(concat(hashes)))
}

/// A list without a reference by name has no first one, and the other way
/// round.
pub proof fn lemma_first_name_none(deps: Seq<DependencyView>)
    ensures
        first_name(deps) is None <==> forall|i: int|
            0 <= i < deps.len() ==> (#[trigger] deps[i]) is Hash,
    decreases deps.len(),
{
    if deps.len() > 0 {
        lemma_first_name_none(deps.drop_first());
        if first_name(deps) is None {
            assert forall|i: int| 0 <= i < deps.len() implies (#[trigger] deps[i]) is Hash by {
                if i > 0 {
                    assert(deps[i] == deps.drop_first()[i - 1]);
                }
            }
        } else if deps[0] is Hash {
            let rest = deps.drop_first();
            let i = choose|i: int| 0 <= i < rest.len() && !((#[trigger] rest[i]) is Hash);
            assert(deps[i + 1] == rest[i]);
        }
    }
}

/// The first reference by name of a list that starts with hashes is that of
/// the rest.
pub proof fn lemma_first_name_skip(deps: Seq<DependencyView>, n: int)
    requires
        0 <= n <= deps.len(),
        forall|i: int| 0 <= i < n ==> (#[trigger] deps[i]) is Hash,
    ensures
        first_name(deps) == first_name(deps.skip(n)),
    decreases n,
{
    if n == 0 {
        assert(deps.skip(0) == deps);
    } else {
        let rest = deps.drop_first();
        assert forall|i: int| 0 <= i < n - 1 implies (#[trigger] rest[i]) is Hash by {
            assert(rest[i] == deps[i + 1]);
        }
        lemma_first_name_skip(rest, n - 1);
        assert(rest.skip(n - 1) == deps.skip(n));
    }
}

/// The hash of a list of dependencies: the digest of the bytes of their
/// hashes, in order. A reference by name has no bytes to give, so the first
/// one in the list is reported as an invalid reference.
pub fn hash_dependencies(deps: &Vec<Dependency>) -> (r: Result<crate::hash::Hash, ModuleError>)
    ensures
        match first_name(dependencies_view(deps@)) {
            None => r is Ok && r->Ok_0@ == blake3_digest(
                concat(hashes_of(dependencies_view(deps@))),
            ),
            Some(name) => r is Err && r->Err_0@ == crate::error::ModuleErrorView::InvalidModuleReference(
                name,
            ),
        },
{
    let ghost views = dependencies_view(deps@);
    let mut hasher = hasher_new();
    let mut i: usize = 0;
    while i < deps.len()
        invariant
            i <= deps@.len(),
            views == dependencies_view(deps@),
            forall|j: int| 0 <= j < i ==> (#[trigger] views[j]) is Hash,
            hasher_input(hasher) == concat(hashes_of(views.take(i as int))),
        decreases deps@.len() - i,
    {
        match &deps[i] {
            Dependency::Hash(hash) => {
                hasher_update(&mut hasher, hash.as_bytes().as_slice());
                proof {
                    let before = hashes_of(views.take(i as int));
                    let after = hashes_of(views.take(i + 1));
                    assert(after.drop_last() =~= before);
                    assert(after.last() == hash@);
                }
            },
            Dependency::Name(name) => {
                proof {
                    lemma_first_name_skip(views, i as int);
                    assert(views.skip(i as int)[0] == views[i as int]);
                }
                return Err(ModuleError::InvalidModuleReference { reference: name.clone() });
            },
        }
        i += 1;
    }
    proof {
        assert(views.take(i as int) == views);
        lemma_first_name_none(views);
    }
    Ok(crate::hash::Hash::from_bytes(hasher_finalize(&hasher)))
}

} // verus!
