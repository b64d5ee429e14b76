use particle_node::blueprint::{hash_dependencies, AddBlueprint, Blueprint, Dependency};
use particle_node::error::{ModuleError, ParseError};
use particle_node::file_names::{
    blueprint_file_name, extract_module_file_name, is_blueprint, is_module_wasm,
    module_config_name, module_file_name,
};
use particle_node::hash::HashParseError;
use particle_node::modules::{decode_module, Migration, ModuleListing, ModuleRepository, NewModule};

fn h(bytes: &[u8]) -> particle_node::hash::Hash {
    particle_node::hash::Hash::hash(bytes)
}

fn add_bp(repo: &ModuleRepository, name: String, deps: Vec<Dependency>) -> Blueprint {
    let request = AddBlueprint { name, dependencies: deps };
    repo.add_blueprint(request).unwrap()
}

fn expected_id(hashes: &[particle_node::hash::Hash]) -> String {
    let mut all = vec![];
    for hash in hashes {
        all.extend_from_slice(hash.as_bytes());
    }
    blake3::hash(&all).to_hex().to_string()
}

#[test]
fn test_add_blueprint() {
    let repo = ModuleRepository::new(vec![]);

    let dep1 = Dependency::Hash(h(&[1, 2, 3]));
    let dep2 = Dependency::Hash(h(&[3, 2, 1]));

    let name1 = "bp1".to_string();
    let bp1 = add_bp(&repo, name1.clone(), vec![dep1.clone(), dep2.clone()]);
    let files1 = vec![blueprint_file_name(&bp1)];
    let bps1 = repo.get_blueprints(files1.clone());
    assert_eq!(bps1.len(), 1);
    assert_eq!(bp1.name, name1);

    let name2 = "bp2".to_string();
    let bp2 = add_bp(&repo, "bp2".to_string(), vec![dep1, dep2]);
    let mut files2 = files1;
    if !files2.contains(&blueprint_file_name(&bp2)) {
        files2.push(blueprint_file_name(&bp2));
    }
    let bps2 = repo.get_blueprints(files2);
    assert_eq!(bps2.len(), 1);
    assert_eq!(bp2.name, name2);

    assert_eq!(blueprint_file_name(&bp1), blueprint_file_name(&bp2));
    assert_eq!(bp1.id, bp2.id);
}

#[test]
fn blueprint_id_is_digest_of_dependency_bytes() {
    let repo = ModuleRepository::new(vec![]);
    let h1 = h(&[1, 2, 3]);
    let h2 = h(&[3, 2, 1]);
    let bp = add_bp(&repo, "bp".to_string(), vec![Dependency::Hash(h1), Dependency::Hash(h2)]);
    assert_eq!(bp.id, expected_id(&[h1, h2]));
    assert_eq!(bp.dependencies, vec![Dependency::Hash(h1), Dependency::Hash(h2)]);
    assert_eq!(bp.name, "bp");
    let swapped = add_bp(&repo, "bp".to_string(), vec![Dependency::Hash(h2), Dependency::Hash(h1)]);
    assert_eq!(swapped.id, expected_id(&[h2, h1]));
    assert_ne!(swapped.id, bp.id);
}

#[test]
fn blueprint_without_dependencies() {
    let repo = ModuleRepository::new(vec![]);
    let bp = add_bp(&repo, "empty".to_string(), vec![]);
    assert_eq!(bp.id, "af1349b9f5f9a1a6a0404dea36dcc9499bcb25c9adc112b7cc9a93cae41f3262");
    assert_eq!(bp.dependencies, vec![]);
}

#[test]
fn blueprint_resolves_names() {
    let h1 = h(b"first module");
    let h2 = h(b"second module");
    let repo = ModuleRepository::new(vec![("m1".to_string(), h1)]);
    let bp = add_bp(
        &repo,
        "bp".to_string(),
        vec![Dependency::Name("m1".to_string()), Dependency::Hash(h2)],
    );
    assert_eq!(bp.id, expected_id(&[h1, h2]));
    assert_eq!(bp.dependencies, vec![Dependency::Hash(h1), Dependency::Hash(h2)]);
}

#[test]
fn blueprint_with_unknown_name_fails() {
    let repo = ModuleRepository::new(vec![]);
    let request = AddBlueprint {
        name: "bp".to_string(),
        dependencies: vec![Dependency::Name("unknown".to_string())],
    };
    assert_eq!(
        repo.add_blueprint(request),
        Err(ModuleError::InvalidModuleName("unknown".to_string()))
    );
}

#[test]
fn blueprint_reports_first_unknown_name() {
    let repo = ModuleRepository::new(vec![("known".to_string(), h(b"k"))]);
    let request = AddBlueprint {
        name: "bp".to_string(),
        dependencies: vec![
            Dependency::Name("known".to_string()),
            Dependency::Name("first".to_string()),
            Dependency::Name("second".to_string()),
        ],
    };
    assert_eq!(
        repo.add_blueprint(request),
        Err(ModuleError::InvalidModuleName("first".to_string()))
    );
}

#[test]
fn hash_dependencies_of_hashes() {
    let h1 = h(&[1]);
    let h2 = h(&[2]);
    let h3 = h(&[3]);
    let got = hash_dependencies(&vec![
        Dependency::Hash(h1),
        Dependency::Hash(h2),
        Dependency::Hash(h3),
    ])
    .unwrap();
    assert_eq!(got.to_hex(), expected_id(&[h1, h2, h3]));
    assert_ne!(got, h1);
}

#[test]
fn hash_dependencies_rejects_names() {
    let got = hash_dependencies(&vec![
        Dependency::Hash(h(&[1])),
        Dependency::Name("a".to_string()),
        Dependency::Name("b".to_string()),
    ]);
    assert_eq!(got, Err(ModuleError::InvalidModuleReference { reference: "a".to_string() }));
}

#[test]
fn add_module_returns_hash_hex() {
    let module = decode_module("AQID").unwrap();
    let expected = blake3::hash(&[1, 2, 3]).to_hex().to_string();
    assert_eq!(module.bytes, vec![1, 2, 3]);
    assert_eq!(module.hash.to_hex(), expected);
    assert_eq!(module.module_file, format!("{}.wasm", expected));
    assert_eq!(module.config_file, format!("{}_config.toml", expected));
    assert_eq!(extract_module_file_name(&module.module_file), Some(expected.clone()));

    let mut repo = ModuleRepository::new(vec![]);
    assert_eq!(repo.add_module("m1".to_string(), &module), expected);
    assert_eq!(repo.resolve_hash(Dependency::Name("m1".to_string())), Ok(module.hash));
    let bp = Blueprint {
        id: String::new(),
        name: "uses m1".to_string(),
        dependencies: vec![Dependency::Name("m1".to_string())],
    };
    assert_eq!(repo.resolve_blueprint(bp), Ok(vec![module.hash]));
}

#[test]
fn add_module_replaces_name() {
    let first = NewModule::from_bytes(vec![1]);
    let second = NewModule::from_bytes(vec![2]);
    let mut repo = ModuleRepository::new(vec![]);
    repo.add_module("m".to_string(), &first);
    repo.add_module("m".to_string(), &second);
    assert_eq!(repo.resolve_hash(Dependency::Name("m".to_string())), Ok(second.hash));
}

#[test]
fn decode_module_longer_text() {
    let module = decode_module("aGVsbG8gd29ybGQ=").unwrap();
    assert_eq!(module.bytes, b"hello world".to_vec());
    assert_eq!(module.hash, h(b"hello world"));
}

#[test]
fn decode_module_rejects_bad_base64() {
    match decode_module("not base64!") {
        Err(ModuleError::Parse(ParseError::Base64 { message })) => {
            assert!(message.starts_with("error decoding module from base64: "));
            assert!(message.len() > "error decoding module from base64: ".len());
        }
        other => panic!("unexpected {:?}", other),
    }
}

#[test]
fn new_module_from_bytes() {
    let module = NewModule::from_bytes(vec![9, 9]);
    let hex = h(&[9, 9]).to_hex();
    assert_eq!(module.bytes, vec![9, 9]);
    assert_eq!(module.hash, h(&[9, 9]));
    assert_eq!(module.module_file, module_file_name(&module.hash));
    assert_eq!(module.config_file, module_config_name(&module.hash));
    assert_eq!(module.module_file, format!("{}.wasm", hex));
}

#[test]
fn repository_keeps_later_entry() {
    let h1 = h(&[1]);
    let h2 = h(&[2]);
    let h3 = h(&[3]);
    let repo = ModuleRepository::new(vec![
        ("a".to_string(), h1),
        ("b".to_string(), h2),
        ("a".to_string(), h3),
    ]);
    assert_eq!(repo.resolve_hash(Dependency::Name("a".to_string())), Ok(h3));
    assert_eq!(repo.resolve_hash(Dependency::Name("b".to_string())), Ok(h2));
    assert_eq!(
        repo.resolve_hash(Dependency::Name("c".to_string())),
        Err(ModuleError::InvalidModuleName("c".to_string()))
    );
    assert_eq!(repo.resolve_hash(Dependency::Hash(h1)), Ok(h1));
}

#[test]
fn resolve_blueprint_in_order() {
    let h1 = h(&[1]);
    let h2 = h(&[2]);
    let repo = ModuleRepository::new(vec![("a".to_string(), h1)]);
    let bp = Blueprint {
        id: "x".to_string(),
        name: "n".to_string(),
        dependencies: vec![
            Dependency::Hash(h2),
            Dependency::Name("a".to_string()),
            Dependency::Hash(h1),
        ],
    };
    assert_eq!(repo.resolve_blueprint(bp), Ok(vec![h2, h1, h1]));
    let missing = Blueprint {
        id: "x".to_string(),
        name: "n".to_string(),
        dependencies: vec![Dependency::Hash(h2), Dependency::Name("zz".to_string())],
    };
    assert_eq!(
        repo.resolve_blueprint(missing),
        Err(ModuleError::InvalidModuleName("zz".to_string()))
    );
    assert_eq!(
        repo.resolve_dependencies(vec![Dependency::Name("a".to_string())]),
        Ok(vec![h1])
    );
}

#[test]
fn migration_for_legacy_name() {
    let hash = h(&[1, 2, 3]);
    let hex = hash.to_hex();
    assert_eq!(
        ModuleRepository::maybe_migrate_module("greeting.wasm", &hash),
        Some(Migration {
            module_from: "greeting.wasm".to_string(),
            module_to: format!("{}.wasm", hex),
            config_from: "greeting_config.toml".to_string(),
            config_to: format!("{}_config.toml", hex),
        })
    );
}

#[test]
fn no_migration_for_hash_name() {
    let hash = h(&[1, 2, 3]);
    let name = module_file_name(&hash);
    assert_eq!(ModuleRepository::maybe_migrate_module(&name, &hash), None);
    assert_eq!(ModuleRepository::maybe_migrate_module("greeting.txt", &hash), None);
    let other = h(&[4]);
    let moved = ModuleRepository::maybe_migrate_module(&name, &other).unwrap();
    assert_eq!(moved.module_from, name);
    assert_eq!(ModuleRepository::maybe_migrate_module(&moved.module_to, &other), None);
}

#[test]
fn list_modules_lines() {
    let repo = ModuleRepository::new(vec![]);
    let hash = h(&[7]);
    let hex = hash.to_hex();
    let files = vec![
        format!("{}.wasm", hex),
        format!("{}_config.toml", hex),
        "greeting.wasm".to_string(),
        "notes.txt".to_string(),
        format!("{}.wasm", "g".repeat(64)),
    ];
    assert_eq!(
        repo.list_modules(&files),
        vec![
            ModuleListing::Module { hash, config_file: format!("{}_config.toml", hex) },
            ModuleListing::Invalid {
                file_name: "greeting".to_string(),
                error: HashParseError::InvalidLength
            },
            ModuleListing::Invalid {
                file_name: "g".repeat(64),
                error: HashParseError::InvalidDigit
            },
        ]
    );
    assert_eq!(repo.list_modules(&vec![]), vec![]);
}

#[test]
fn get_interface_names_config_file() {
    let repo = ModuleRepository::new(vec![]);
    let hash = h(&[7]);
    assert_eq!(repo.get_interface(&hash.to_hex()), Ok(module_config_name(&hash)));
    assert_eq!(
        repo.get_interface("xyz"),
        Err(ModuleError::Parse(ParseError::Hash(HashParseError::InvalidLength)))
    );
    assert_eq!(
        repo.get_interface(&"x".repeat(64)),
        Err(ModuleError::Parse(ParseError::Hash(HashParseError::InvalidDigit)))
    );
}

#[test]
fn get_blueprints_keeps_blueprint_files() {
    let repo = ModuleRepository::new(vec![]);
    let files = vec![
        "abc_blueprint.toml".to_string(),
        "abc_config.toml".to_string(),
        "_blueprint.toml".to_string(),
        "abc_blueprint.toml.bak".to_string(),
        "def_blueprint.toml".to_string(),
    ];
    assert_eq!(
        repo.get_blueprints(files),
        vec![
            "abc_blueprint.toml".to_string(),
            "_blueprint.toml".to_string(),
            "def_blueprint.toml".to_string()
        ]
    );
}

#[test]
fn file_names() {
    let hash = h(&[1, 2, 3]);
    let hex = hash.to_hex();
    assert_eq!(module_file_name(&hash), format!("{}.wasm", hex));
    assert_eq!(module_config_name(&hash), format!("{}_config.toml", hex));
    let bp = Blueprint { id: "id1".to_string(), name: "n".to_string(), dependencies: vec![] };
    assert_eq!(blueprint_file_name(&bp), "id1_blueprint.toml");
    assert!(is_blueprint("id1_blueprint.toml"));
    assert!(!is_blueprint("id1_blueprint.tom"));
    assert!(is_module_wasm("a.wasm"));
    assert!(!is_module_wasm(".wasm"));
    assert!(!is_module_wasm("a.wasm.bak"));
    assert!(!is_module_wasm("wasm"));
    assert_eq!(extract_module_file_name("a.b.wasm"), Some("a.b".to_string()));
    assert_eq!(extract_module_file_name(".wasm"), Some(String::new()));
    assert_eq!(extract_module_file_name("a.toml"), None);
}
