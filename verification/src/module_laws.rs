//! What holds of the module repository across its operations.

use vstd::prelude::*;
use crate::blueprint::{as_references, blueprint_id, hashes_of, BlueprintView, DependencyView};
use crate::file_names::{module_stem, wasm_suffix};
use crate::hex::hex_of;
use crate::modules::{added_blueprint, migration_of, resolve, resolve_all};

verus! {

/// A list of references by hash resolves to those hashes, whatever the index
/// holds.
pub proof fn lemma_resolve_all_hashes(index: Map<Seq<char>, Seq<u8>>, deps: Seq<DependencyView>)
    requires
        forall|i: int| 0 <= i < deps.len() ==> (#[trigger] deps[i]) is Hash,
    ensures
        resolve_all(index, deps) == Ok::<Seq<Seq<u8>>, Seq<char>>(hashes_of(deps)),
        as_references(hashes_of(deps)) == deps,
    decreases deps.len(),
{
    if deps.len() > 0 {
        let front = deps.drop_last();
        assert forall|i: int| 0 <= i < front.len() implies (#[trigger] front[i]) is Hash by {
            assert(front[i] == deps[i]);
        }
        lemma_resolve_all_hashes(index, front);
        assert(deps.last() is Hash);
        assert(hashes_of(front).push(hashes_of(deps).last()) =~= hashes_of(deps));
    } else {
        assert(hashes_of(deps) =~= Seq::<Seq<u8>>::empty());
    }
    assert(as_references(hashes_of(deps)) =~= deps);
}

/// A blueprint whose dependencies are all given by hash is stored with just
/// those dependencies, and its identifier is the hexadecimal text of the
/// digest of their bytes in order: whatever its name is and whatever modules
/// are known.
pub proof fn lemma_blueprint_of_hashes(
    index: Map<Seq<char>, Seq<u8>>,
    name: Seq<char>,
    deps: Seq<DependencyView>,
)
    requires
        forall|i: int| 0 <= i < deps.len() ==> (#[trigger] deps[i]) is Hash,
    ensures
        added_blueprint(index, name, deps) == Ok::<BlueprintView, crate::error::ModuleErrorView>(
            BlueprintView { id: blueprint_id(hashes_of(deps)), name, dependencies: deps },
        ),
{
    lemma_resolve_all_hashes(index, deps);
}

/// Two blueprints with the same dependencies in the same order, made while
/// the same modules are known, are both stored or both refused, and where
/// they are stored they have the same identifier and the same dependencies,
/// whatever their names are.
pub proof fn lemma_blueprint_id_ignores_name(
    index: Map<Seq<char>, Seq<u8>>,
    first: Seq<char>,
    second: Seq<char>,
    deps: Seq<DependencyView>,
)
    ensures
        added_blueprint(index, first, deps) is Ok <==> added_blueprint(index, second, deps) is Ok,
        added_blueprint(index, first, deps) is Ok ==> {
            &&& added_blueprint(index, first, deps)->Ok_0.id == added_blueprint(
                index,
                second,
                deps,
            )->Ok_0.id
            &&& added_blueprint(index, first, deps)->Ok_0.dependencies == added_blueprint(
                index,
                second,
                deps,
            )->Ok_0.dependencies
        },
        added_blueprint(index, first, deps) is Err ==> added_blueprint(index, first, deps)
            == added_blueprint(index, second, deps),
{
}

/// Once a module is known under a name, a reference by that name stands for
/// the module's hash, and so does a blueprint that depends on that name
/// alone.
pub proof fn lemma_added_module_resolves(
    index: Map<Seq<char>, Seq<u8>>,
    name: Seq<char>,
    hash: Seq<u8>,
)
    ensures
        resolve(index.insert(name, hash), DependencyView::Name(name)) == Ok::<Seq<u8>, Seq<char>>(
            hash,
        ),
        resolve_all(index.insert(name, hash), seq![DependencyView::Name(name)]) == Ok::<
            Seq<Seq<u8>>,
            Seq<char>,
        >(seq![hash]),
{
    let deps = seq![DependencyView::Name(name)];
    assert(deps.drop_last() =~= Seq::<DependencyView>::empty());
    assert(resolve_all(index.insert(name, hash), deps.drop_last()) == Ok::<
        Seq<Seq<u8>>,
        Seq<char>,
    >(Seq::empty()));
    assert(Seq::<Seq<u8>>::empty().push(hash) =~= seq![hash]);
}

/// A migration renames the very file it was asked about, moves the module
/// and its configuration to names with one and the same stem, and leaves the
/// module under a name that needs no further migration.
pub proof fn lemma_migration_settles(file_name: Seq<char>, hash: Seq<u8>)
    requires
        migration_of(file_name, hash) is Some,
    ensures
        migration_of(file_name, hash)->Some_0.module_from == file_name,
        module_stem(migration_of(file_name, hash)->Some_0.module_to) == Some(hex_of(hash)),
        migration_of(migration_of(file_name, hash)->Some_0.module_to, hash) is None,
{
    let stem = module_stem(file_name)->Some_0;
    let suffix = wasm_suffix();
    assert(stem + suffix =~= file_name);
    let target = hex_of(hash) + suffix;
    assert(target.subrange(target.len() - suffix.len(), target.len() as int) =~= suffix);
    assert(target.take(target.len() - suffix.len()) =~= hex_of(hash));
}

} // verus!
