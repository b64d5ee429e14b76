//! The module repository: which module is known under which name, and what
//! each of its operations decides.
//!
//! The repository itself touches no file. Each operation says which files
//! are meant and what belongs in them; reading and writing is the caller's.

use vstd::prelude::*;
use vstd::string::StringExecFns;
use crate::blueprint::{
    as_references, blueprint_id, dependencies_view, first_name, hash_dependencies, hashes_of,
    lemma_first_name_none, AddBlueprint, Blueprint, BlueprintView, Dependency, DependencyView,
};
use crate::error::{ModuleError, ModuleErrorView, ParseError};
use crate::file_names::{
    blueprint_suffix, config_suffix, extract_module_file_name, is_blueprint, module_config_name,
    module_file_name, module_stem, wasm_suffix,
};
use crate::hash::{blake3_digest, parse_hash, HashParseError};
use crate::hex::hex_of;
use crate::str_map::StrMap;
use crate::text::{before_first, cut_before, has_prefix, has_suffix};

verus! {

/// `base64::DecodeError`, the reason for which the `base64` crate rejects a
/// text. It is carried through and written out, never looked into.
#[verifier::external_type_specification]
#[verifier::external_body]
pub struct ExDecodeError(base64::DecodeError);

/// The bytes that a base64 text stands for, as the `base64` crate decodes it
/// with its standard alphabet and padding; `None` where it rejects the text.
pub uninterp spec fn base64_decoded(text: Seq<char>) -> Option<Seq<u8>>;

/// `base64::decode`: the bytes that `text` stands for, or the decoder's
/// error where `text` is not base64. The decoder panics where the length of
/// its input in bytes, with seven added, overflows `usize`.
#[verifier::external_body]
fn base64_decode(text: &str) -> (r: Result<Vec<u8>, base64::DecodeError>)
    requires
        text.len() <= usize::MAX - 7,
    ensures
        match r {
            Ok(bytes) => base64_decoded(text@) == Some(bytes@),
            Err(_) => base64_decoded(text@) is None,
        },
{
    base64::decode(text)
}

/// The `Debug` form of a `base64::DecodeError`. Nothing is claimed of it.
#[verifier::external_body]
fn decode_error_text(error: &base64::DecodeError) -> (r: String) {
    format!("{:?}", error)
}

/// The words that start the message of a base64 error.
pub open spec fn base64_error_prefix() -> Seq<char> {
    "error decoding module from base64: "@
}

/// The words after which an error message goes on with a backtrace.
pub open spec fn backtrace_marker() -> Seq<char> {
    "Stack backtrace:"@
}

/// An error message without its backtrace: what stands before the first
/// backtrace marker.
pub fn strip_backtrace(message: &str) -> (r: String)
    ensures
        r@ == before_first(message@, backtrace_marker()),
{
    cut_before(message, "Stack backtrace:")
}

/// A module that is ready to be stored: its bytes, its hash, and the names of
/// the two files that hold it.
#[derive(Clone, Debug, PartialEq, Eq)]
pub struct NewModule {
    pub bytes: Vec<u8>,
    pub hash: crate::hash::Hash,
    pub module_file: String,
    pub config_file: String,
}

/// A module that is ready to be stored, as a mathematical value.
pub struct NewModuleView {
    pub bytes: Seq<u8>,
    pub hash: Seq<u8>,
    pub module_file: Seq<char>,
    pub config_file: Seq<char>,
}

impl View for NewModule {
    type V = NewModuleView;

    open spec fn view(&self) -> NewModuleView {
        NewModuleView {
            bytes: self.bytes@,
            hash: self.hash@,
            module_file: self.module_file@,
            config_file: self.config_file@,
        }
    }
}

/// The module with the bytes `bytes`, ready to be stored.
pub open spec fn new_module(bytes: Seq<u8>) -> NewModuleView {
    NewModuleView {
        bytes,
        hash: blake3_digest(bytes),
        module_file: hex_of(blake3_digest(bytes)) + wasm_suffix(),
        config_file: hex_of(blake3_digest(bytes)) + config_suffix(),
    }
}

impl NewModule {
    /// Names the module with the bytes `bytes` after its hash.
    pub fn from_bytes(bytes: Vec<u8>) -> (r: NewModule)
        ensures
            r@ == new_module(bytes@),
    {
        let hash = crate::hash::Hash::hash(bytes.as_slice());
        let module_file = module_file_name(&hash);
        let config_file = module_config_name(&hash);
        NewModule { bytes, hash, module_file, config_file }
    }
}

/// Reads a module from its base64 text and names it after its hash.
pub fn decode_module(module: &str) -> (r: Result<NewModule, ModuleError>)
    requires
        module.len() <= usize::MAX - 7,
    ensures
        match base64_decoded(module@) {
            Some(bytes) => r is Ok && r->Ok_0@ == new_module(bytes),
            None => r is Err && (r->Err_0 matches ModuleError::Parse(
                ParseError::Base64 { message },
            ) && has_prefix(message@, base64_error_prefix())),
        },
{
    match base64_decode(module) {
        Ok(bytes) => Ok(NewModule::from_bytes(bytes)),
        Err(error) => {
            let detail = decode_error_text(&error);
            let message = String::from_str("error decoding module from base64: ").concat(
                detail.as_str(),
            );
            assert(message@.take(base64_error_prefix().len() as int) =~= base64_error_prefix());
            Err(ModuleError::Parse(ParseError::Base64 { message }))
        },
    }
}

/// Two files to be renamed so that a module is stored under its hash.
#[derive(Clone, Debug, PartialEq, Eq)]
pub struct Migration {
    pub module_from: String,
    pub module_to: String,
    pub config_from: String,
    pub config_to: String,
}

/// A migration as a mathematical value.
pub struct MigrationView {
    pub module_from: Seq<char>,
    pub module_to: Seq<char>,
    pub config_from: Seq<char>,
    pub config_to: Seq<char>,
}

impl View for Migration {
    type V = MigrationView;

    open spec fn view(&self) -> MigrationView {
        MigrationView {
            module_from: self.module_from@,
            module_to: self.module_to@,
            config_from: self.config_from@,
            config_to: self.config_to@,
        }
    }
}

/// The renaming that a module file named `file_name` needs where its content
/// has the hash `hash`: none where the name has no module stem, and none
/// where the stem is the hash's hexadecimal text already; else the module
/// file and the configuration file beside it both move to their names under
/// the hash.
pub open spec fn migration_of(file_name: Seq<char>, hash: Seq<u8>) -> Option<MigrationView> {
    match module_stem(file_name) {
        None => None,
        Some(stem) => if stem == hex_of(hash) {
            None
        } else {
            Some(
                MigrationView {
                    module_from: stem + wasm_suffix(),
                    module_to: hex_of(hash) + wasm_suffix(),
                    config_from: stem + config_suffix(),
                    config_to: hex_of(hash) + config_suffix(),
                },
            )
        },
    }
}

/// One line of a listing of modules.
#[derive(Clone, Debug, PartialEq, Eq)]
pub enum ModuleListing {
    /// A module file named after a hash, and the name of the file that holds
    /// its configuration.
    Module { hash: crate::hash::Hash, config_file: String },
    /// A module file whose stem is no hash.
    Invalid { file_name: String, error: HashParseError },
}

/// A line of a listing as a mathematical value.
pub enum ModuleListingView {
    Module { hash: Seq<u8>, config_file: Seq<char> },
    Invalid { file_name: Seq<char>, error: HashParseError },
}

impl View for ModuleListing {
    type V = ModuleListingView;

    open spec fn view(&self) -> ModuleListingView {
        match *self {
            ModuleListing::Module { hash, config_file } => ModuleListingView::Module {
                hash: hash@,
                config_file: config_file@,
            },
            ModuleListing::Invalid { file_name, error } => ModuleListingView::Invalid {
                file_name: file_name@,
                error,
            },
        }
    }
}

/// The line that a file named `file_name` gets in a listing of modules: none
/// where the name has no module stem.
pub open spec fn listing_of(file_name: Seq<char>) -> Option<ModuleListingView> {
    match module_stem(file_name) {
        None => None,
        Some(stem) => match parse_hash(stem) {
            Ok(hash) => Some(
                ModuleListingView::Module { hash, config_file: hex_of(hash) + config_suffix() },
            ),
            Err(error) => Some(ModuleListingView::Invalid { file_name: stem, error }),
        },
    }
}

/// The listing of the files named `file_names`, in their order.
pub open spec fn listings(file_names: Seq<Seq<char>>) -> Seq<ModuleListingView>
    decreases file_names.len(),
{
    if file_names.len() == 0 {
        Seq::empty()
    } else {
        match listing_of(file_names.last()) {
            Some(line) => listings(file_names.drop_last()).push(line),
            None => listings(file_names.drop_last()),
        }
    }
}

/// Those of `file_names` that are names of blueprint files, in their order.
pub open spec fn blueprint_names(file_names: Seq<Seq<char>>) -> Seq<Seq<char>>
    decreases file_names.len(),
{
    if file_names.len() == 0 {
        Seq::empty()
    } else if has_suffix(file_names.last(), blueprint_suffix()) {
        blueprint_names(file_names.drop_last()).push(file_names.last())
    } else {
        blueprint_names(file_names.drop_last())
    }
}

/// The strings of a list as sequences of characters.
pub open spec fn strings_view(list: Seq<String>) -> Seq<Seq<char>> {
    list.map_values(|s: String| s@)
}

/// The lines of a listing as mathematical values.
pub open spec fn listings_view(list: Seq<ModuleListing>) -> Seq<ModuleListingView> {
    list.map_values(|l: ModuleListing| l@)
}

/// The hashes of a list as byte strings.
pub open spec fn hashes_view(list: Seq<crate::hash::Hash>) -> Seq<Seq<u8>> {
    list.map_values(|h: crate::hash::Hash| h@)
}

/// The names and hashes of a list as mathematical values.
pub open spec fn named_hashes_view(list: Seq<(String, crate::hash::Hash)>) -> Seq<
    (Seq<char>, Seq<u8>),
> {
    list.map_values(|e: (String, crate::hash::Hash)| (e.0@, e.1@))
}

/// The index that holds each name of `list` with its hash; of two entries
/// with one name the later one counts.
pub open spec fn index_of(list: Seq<(Seq<char>, Seq<u8>)>) -> Map<Seq<char>, Seq<u8>>
    decreases list.len(),
{
    if list.len() == 0 {
        Map::empty()
    } else {
        index_of(list.drop_last()).insert(list.last().0, list.last().1)
    }
}

/// The hash that a reference stands for: its own, or the one that the index
/// holds under its name. A name that the index does not hold is the error.
pub open spec fn resolve(index: Map<Seq<char>, Seq<u8>>, dep: DependencyView) -> Result<
    Seq<u8>,
    Seq<char>,
> {
    match dep {
        DependencyView::Hash(hash) => Ok(hash),
        DependencyView::Name(name) => if index.contains_key(name) {
            Ok(index[name])
        } else {
            Err(name)
        },
    }
}

/// The hashes that the references of `deps` stand for, in order, or the
/// first name among them that the index does not hold.
pub open spec fn resolve_all(index: Map<Seq<char>, Seq<u8>>, deps: Seq<DependencyView>) -> Result<
    Seq<Seq<u8>>,
    Seq<char>,
>
    decreases deps.len(),
{
    if deps.len() == 0 {
        Ok(Seq::empty())
    } else {
        match resolve_all(index, deps.drop_last()) {
            Err(name) => Err(name),
            Ok(hashes) => match resolve(index, deps.last()) {
                Ok(hash) => Ok(hashes.push(hash)),
                Err(name) => Err(name),
            },
        }
    }
}

/// What storing a blueprint named `name` with the dependencies `deps` gives:
/// the blueprint with every dependency resolved to a hash and the identifier
/// made from those hashes, or the first name that the index does not hold.
pub open spec fn added_blueprint(
    index: Map<Seq<char>, Seq<u8>>,
    name: Seq<char>,
    deps: Seq<DependencyView>,
) -> Result<BlueprintView, ModuleErrorView> {
    match resolve_all(index, deps) {
        Ok(hashes) => Ok(
            BlueprintView { id: blueprint_id(hashes), name, dependencies: as_references(hashes) },
        ),
        Err(unknown) => Err(ModuleErrorView::InvalidModuleName(unknown)),
    }
}

/// A name that cannot be resolved among the first references of a list is
/// what resolving the whole list reports.
pub proof fn lemma_resolve_all_prefix_error(
    index: Map<Seq<char>, Seq<u8>>,
    deps: Seq<DependencyView>,
    n: int,
)
    requires
        0 <= n <= deps.len(),
        resolve_all(index, deps.take(n)) is Err,
    ensures
        resolve_all(index, deps) == resolve_all(index, deps.take(n)),
    decreases deps.len() - n,
{
    if n < deps.len() {
        assert(deps.take(n + 1).drop_last() == deps.take(n));
        lemma_resolve_all_prefix_error(index, deps, n + 1);
    } else {
        assert(deps.take(n) == deps);
    }
}

/// The module repository: the hash of each module that is known by name.
pub struct ModuleRepository {
    modules_by_name: StrMap<crate::hash::Hash>,
}

impl ModuleRepository {
    /// The index is well formed.
    pub closed spec fn wf(&self) -> bool {
        self.modules_by_name.wf()
    }

    /// The hash of each module that is known by name.
    pub closed spec fn modules_by_name(&self) -> Map<Seq<char>, Seq<u8>> {
        self.modules_by_name@.map_values(|h: crate::hash::Hash| h@)
    }

    /// The repository that knows the modules of `modules` by their names; of
    /// two modules with one name the later one counts.
    pub fn new(modules: Vec<(String, crate::hash::Hash)>) -> (r: Self)
        ensures
            r.wf(),
            r.modules_by_name() == index_of(named_hashes_view(modules@)),
    {
        let mut index: StrMap<crate::hash::Hash> = StrMap::new();
        let ghost list = named_hashes_view(modules@);
        assert(index@.map_values(|h: crate::hash::Hash| h@) =~= index_of(list.take(0)));
        for entry in it: modules
            invariant
                it.seq() == modules@,
                list == named_hashes_view(modules@),
                index.wf(),
                index@.map_values(|h: crate::hash::Hash| h@) == index_of(
                    list.take(it.index() as int),
                ),
        {
            let ghost before = index@;
            let ghost i = it.index() as int;
            assert(list.take(i + 1).drop_last() == list.take(i));
            assert(list[i] == (entry.0@, entry.1@));
            let _ = index.insert(entry.0, entry.1);
            assert(index@.map_values(|h: crate::hash::Hash| h@) =~= before.map_values(
                |h: crate::hash::Hash| h@,
            ).insert(list[i].0, list[i].1));
        }
        assert(list.take(list.len() as int) == list);
        ModuleRepository { modules_by_name: index }
    }

    /// The renaming that the module file named `file_name` needs where its
    /// content has the hash `hash`.
    pub fn maybe_migrate_module(file_name: &str, hash: &crate::hash::Hash) -> (r: Option<Migration>)
        ensures
            match r {
                Some(m) => migration_of(file_name@, hash@) == Some(m@),
                None => migration_of(file_name@, hash@) is None,
            },
    {
        match extract_module_file_name(file_name) {
            None => None,
            Some(stem) => {
                let hex = hash.to_hex();
                if stem == hex {
                    None
                } else {
                    let module_from = stem.clone().concat(".wasm");
                    let config_from = stem.concat("_config.toml");
                    Some(
                        Migration {
                            module_from,
                            module_to: module_file_name(hash),
                            config_from,
                            config_to: module_config_name(hash),
                        },
                    )
                }
            },
        }
    }

    /// Makes `module` known under `name`, in place of any module known
    /// under that name before, and returns the hexadecimal text of its hash.
    pub fn add_module(&mut self, name: String, module: &NewModule) -> (r: String)
        requires
            old(self).wf(),
        ensures
            final(self).wf(),
            final(self).modules_by_name() == old(self).modules_by_name().insert(
                name@,
                module.hash@,
            ),
            r@ == hex_of(module.hash@),
    {
        let ghost key = name@;
        let _ = self.modules_by_name.insert(name, module.hash);
        assert(self.modules_by_name() =~= old(self).modules_by_name().insert(key, module.hash@));
        module.hash.to_hex()
    }

    /// The hash that `module` stands for.
    pub fn resolve_hash(&self, module: Dependency) -> (r: Result<crate::hash::Hash, ModuleError>)
        requires
            self.wf(),
        ensures
            match resolve(self.modules_by_name(), module@) {
                Ok(hash) => r is Ok && r->Ok_0@ == hash,
                Err(name) => r is Err && r->Err_0@ == ModuleErrorView::InvalidModuleName(name),
            },
    {
        match module {
            Dependency::Hash(hash) => Ok(hash),
            Dependency::Name(name) => {
                match self.modules_by_name.get(name.as_str()) {
                    Some(hash) => Ok(*hash),
                    None => Err(ModuleError::InvalidModuleName(name)),
                }
            },
        }
    }

    /// The hashes that the references of `deps` stand for, in order; the
    /// first name that is not known is the error.
    pub fn resolve_dependencies(&self, deps: Vec<Dependency>) -> (r: Result<
        Vec<crate::hash::Hash>,
        ModuleError,
    >)
        requires
            self.wf(),
        ensures
            match resolve_all(self.modules_by_name(), dependencies_view(deps@)) {
                Ok(hashes) => r is Ok && hashes_view(r->Ok_0@) == hashes,
                Err(name) => r is Err && r->Err_0@ == ModuleErrorView::InvalidModuleName(name),
            },
    {
        let ghost views = dependencies_view(deps@);
        let ghost index = self.modules_by_name();
        let mut hashes: Vec<crate::hash::Hash> = Vec::new();
        assert(hashes_view(hashes@) =~= Seq::<Seq<u8>>::empty());
        for dep in it: deps
            invariant
                it.seq() == deps@,
                views == dependencies_view(deps@),
                index == self.modules_by_name(),
                self.wf(),
                resolve_all(index, views.take(it.index() as int)) == Ok::<
                    Seq<Seq<u8>>,
                    Seq<char>,
                >(hashes_view(hashes@)),
        {
            let ghost i = it.index() as int;
            let ghost before = hashes@;
            assert(views.take(i + 1).drop_last() == views.take(i));
            assert(views[i] == dep@);
            match self.resolve_hash(dep) {
                Ok(hash) => {
                    hashes.push(hash);
                    assert(hashes_view(hashes@) =~= hashes_view(before).push(hash@));
                },
                Err(error) => {
                    proof {
                        lemma_resolve_all_prefix_error(index, views, i + 1);
                    }
                    return Err(error);
                },
            }
        }
        assert(views.take(views.len() as int) == views);
        Ok(hashes)
    }

    /// Makes the blueprint that `request` asks for: every dependency is
    /// resolved to a hash, and the identifier is made from those hashes.
    pub fn add_blueprint(&self, request: AddBlueprint) -> (r: Result<Blueprint, ModuleError>)
        requires
            self.wf(),
        ensures
            match added_blueprint(
                self.modules_by_name(),
                request.name@,
                dependencies_view(request.dependencies@),
            ) {
                Ok(blueprint) => r is Ok && r->Ok_0@ == blueprint,
                Err(error) => r is Err && r->Err_0@ == error,
            },
    {
        let hashes = match self.resolve_dependencies(request.dependencies) {
            Ok(hashes) => hashes,
            Err(error) => {
                return Err(error);
            },
        };
        let mut dependencies: Vec<Dependency> = Vec::new();
        let mut i: usize = 0;
        while i < hashes.len()
            invariant
                i <= hashes@.len(),
                dependencies_view(dependencies@) == as_references(hashes_view(hashes@).take(i as int)),
            decreases hashes@.len() - i,
        {
            let ghost before = dependencies@;
            dependencies.push(Dependency::Hash(hashes[i]));
            proof {
                let now = dependencies_view(dependencies@);
                let want = as_references(hashes_view(hashes@).take(i + 1));
                assert(hashes_view(hashes@).len() == hashes@.len());
                assert(dependencies_view(before).len() == before.len());
                assert(as_references(hashes_view(hashes@).take(i as int)).len() == i);
                assert(now.len() == want.len());
                assert forall|j: int| 0 <= j < now.len() implies now[j] == want[j] by {
                    if j < i {
                        assert(now[j] == dependencies_view(before)[j]);
                        assert(want[j] == as_references(hashes_view(hashes@).take(i as int))[j]);
                    }
                }
                assert(now =~= want);
            }
            i += 1;
        }
        proof {
            assert(hashes_view(hashes@).take(i as int) == hashes_view(hashes@));
            let views = dependencies_view(dependencies@);
            assert forall|j: int| 0 <= j < views.len() implies (#[trigger] views[j]) is Hash by {}
            lemma_first_name_none(views);
            assert(hashes_of(views) =~= hashes_view(hashes@));
        }
        match hash_dependencies(&dependencies) {
            Ok(hash) => Ok(Blueprint { id: hash.to_hex(), dependencies, name: request.name }),
            Err(error) => Err(error),
        }
    }

    /// The hashes of the modules that `blueprint` is made of, in order; the
    /// first name that is not known is the error.
    pub fn resolve_blueprint(&self, blueprint: Blueprint) -> (r: Result<
        Vec<crate::hash::Hash>,
        ModuleError,
    >)
        requires
            self.wf(),
        ensures
            match resolve_all(self.modules_by_name(), blueprint@.dependencies) {
                Ok(hashes) => r is Ok && hashes_view(r->Ok_0@) == hashes,
                Err(name) => r is Err && r->Err_0@ == ModuleErrorView::InvalidModuleName(name),
            },
    {
        self.resolve_dependencies(blueprint.dependencies)
    }

    /// The listing of the module files among the files named `file_names`.
    pub fn list_modules(&self, file_names: &Vec<String>) -> (r: Vec<ModuleListing>)
        ensures
            listings_view(r@) == listings(strings_view(file_names@)),
    {
        let ghost names = strings_view(file_names@);
        let mut lines: Vec<ModuleListing> = Vec::new();
        assert(listings_view(lines@) =~= listings(names.take(0)));
        let mut i: usize = 0;
        while i < file_names.len()
            invariant
                i <= file_names@.len(),
                names == strings_view(file_names@),
                listings_view(lines@) == listings(names.take(i as int)),
            decreases file_names@.len() - i,
        {
            let ghost before = lines@;
            assert(names.take(i + 1).drop_last() == names.take(i as int));
            assert(names.take(i + 1).last() == file_names@[i as int]@);
            match extract_module_file_name(file_names[i].as_str()) {
                None => {},
                Some(stem) => {
                    let line = match crate::hash::Hash::from_hex(stem.as_str()) {
                        Ok(hash) => ModuleListing::Module {
                            hash,
                            config_file: module_config_name(&hash),
                        },
                        Err(error) => ModuleListing::Invalid { file_name: stem, error },
                    };
                    lines.push(line);
                    assert(listings_view(lines@) =~= listings_view(before).push(line@));
                },
            }
            i += 1;
        }
        assert(names.take(i as int) == names);
        lines
    }

    /// The name of the file that holds the configuration of the module whose
    /// hash has the hexadecimal text `hash`; the interface of the module is
    /// read from that file.
    pub fn get_interface(&self, hash: &str) -> (r: Result<String, ModuleError>)
        ensures
            match parse_hash(hash@) {
                Ok(bytes) => r is Ok && r->Ok_0@ == hex_of(bytes) + config_suffix(),
                Err(error) => r is Err && r->Err_0@ == ModuleErrorView::InvalidHash(error),
            },
    {
        match crate::hash::Hash::from_hex(hash) {
            Ok(hash) => Ok(module_config_name(&hash)),
            Err(error) => Err(ModuleError::Parse(ParseError::Hash(error))),
        }
    }

    /// Those of `file_names` that are names of blueprint files, in their
    /// order.
    pub fn get_blueprints(&self, file_names: Vec<String>) -> (r: Vec<String>)
        ensures
            strings_view(r@) == blueprint_names(strings_view(file_names@)),
    {
        let ghost names = strings_view(file_names@);
        let mut kept: Vec<String> = Vec::new();
        assert(strings_view(kept@) =~= blueprint_names(names.take(0)));
        for name in it: file_names
            invariant
                it.seq() == file_names@,
                names == strings_view(file_names@),
                strings_view(kept@) == blueprint_names(names.take(it.index() as int)),
        {
            let ghost i = it.index() as int;
            let ghost before = kept@;
            assert(names.take(i + 1).drop_last() == names.take(i));
            assert(names.take(i + 1).last() == name@);
            if is_blueprint(name.as_str()) {
                kept.push(name);
                assert(strings_view(kept@) =~= strings_view(before).push(name@));
            }
        }
        assert(names.take(names.len() as int) == names);
        kept
    }
}

} // verus!
