use soroban_host::registry::{
    export_code_at, resolve_import, validate, Arg, Function, Module, RegistryError, Root,
    MAX_FUNCTIONS_PER_MODULE,
};

fn func(export: &str, name: &str) -> Function {
    Function {
        export: export.to_string(),
        name: name.to_string(),
        args: vec![Arg { name: "v".to_string(), ty: "RawVal".to_string() }],
        ret: "RawVal".to_string(),
        docs: None,
    }
}

fn module(name: &str, export: &str, n: usize) -> Module {
    Module {
        name: name.to_string(),
        export: export.to_string(),
        functions: (0..n).map(|i| func(&export_code_at(i), &format!("f{i}"))).collect(),
    }
}

#[test]
fn export_codes_follow_alphabet_then_pairs() {
    assert_eq!(export_code_at(0), "_");
    assert_eq!(export_code_at(1), "0");
    assert_eq!(export_code_at(10), "9");
    assert_eq!(export_code_at(11), "a");
    assert_eq!(export_code_at(37), "A");
    assert_eq!(export_code_at(62), "Z");
    assert_eq!(export_code_at(63), "__");
    assert_eq!(export_code_at(64), "_0");
    assert_eq!(export_code_at(126), "0_");
    assert_eq!(export_code_at(MAX_FUNCTIONS_PER_MODULE - 1), "ZZ");
}

#[test]
fn valid_table_is_accepted() {
    let root = Root { modules: vec![module("context", "x", 3), module("vec", "v", 70)] };
    assert!(matches!(validate(&root), Ok(())));
    let empty = Root { modules: vec![] };
    assert!(matches!(validate(&empty), Ok(())));
}

#[test]
fn out_of_order_code_is_rejected() {
    let mut m = module("map", "m", 5);
    m.functions[3].export = "4".to_string();
    let root = Root { modules: vec![module("context", "x", 2), m] };
    match validate(&root) {
        Err(RegistryError::SchemeViolation { module, function, expected }) => {
            assert_eq!((module, function), (1, 3));
            assert_eq!(expected, "2");
        }
        _ => panic!("expected a scheme violation"),
    }
}

#[test]
fn first_mismatch_is_reported() {
    let mut m = module("map", "m", 5);
    m.functions[1].export = "x".to_string();
    m.functions[4].export = "y".to_string();
    let root = Root { modules: vec![m] };
    assert!(matches!(
        validate(&root),
        Err(RegistryError::SchemeViolation { module: 0, function: 1, .. })
    ));
}

#[test]
fn duplicate_pair_across_modules_is_rejected() {
    let root = Root {
        modules: vec![module("a", "x", 2), module("b", "y", 1), module("c", "x", 3)],
    };
    assert!(matches!(
        validate(&root),
        Err(RegistryError::DuplicateExport {
            module: 2,
            function: 0,
            existing_module: 0,
            existing_function: 0
        })
    ));
}

#[test]
fn too_many_functions_is_rejected() {
    let root = Root {
        modules: vec![module("small", "s", 1), module("big", "b", MAX_FUNCTIONS_PER_MODULE)],
    };
    assert!(matches!(validate(&root), Ok(())));
    let mut big = module("big", "b", MAX_FUNCTIONS_PER_MODULE);
    big.functions.push(func("ZZ", "extra"));
    let root = Root { modules: vec![module("small", "s", 1), big] };
    match validate(&root) {
        Err(RegistryError::CapacityExceeded { module, have, limit }) => {
            assert_eq!(module, 1);
            assert_eq!(have, 4033);
            assert_eq!(limit, 4032);
        }
        _ => panic!("expected a capacity error"),
    }
}

#[test]
fn imports_resolve_to_their_function() {
    let root = Root { modules: vec![module("context", "x", 3), module("vec", "v", 70)] };
    let r = |m: &str, f: &str| resolve_import(&root, &m.to_string(), &f.to_string());
    assert_eq!(r("x", "0"), Some((0, 1)));
    assert_eq!(r("v", "_0"), Some((1, 64)));
    assert_eq!(r("v", "Z"), Some((1, 62)));
    assert_eq!(r("x", "2"), None);
    assert_eq!(r("q", "_"), None);
}
