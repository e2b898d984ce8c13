use sui_summary_explorer::address::{parse_address_literal, to_canonical_literal};
use sui_summary_explorer::catalog::{Definition, Module, Named, PackageTree, QueryError};
use sui_summary_explorer::parser::{
    parse_summaries, resolve_addresses, CatalogError, ModuleFile, ModuleSource, PackageDir, SummaryListing,
};
use sui_summary_explorer::model::{Fields, Function, Struct, Visibility};
use sui_summary_explorer::service::{DefinitionRequest, ListModulesRequest, ModuleRequest, SuiService};

fn empty_module(name: &str) -> Module {
    Module { name: name.to_string(), functions: vec![], structs: vec![], enums: vec![] }
}

fn parsed(stem: &str, module: Module) -> ModuleFile {
    ModuleFile { stem: stem.to_string(), path: format!("dir/{}.json", stem), source: ModuleSource::Parsed(module) }
}

fn simple_fn() -> Function {
    Function { visibility: Visibility::Public, type_parameters: vec![], parameters: vec![], return_: vec![] }
}

fn simple_struct() -> Struct {
    Struct { type_parameters: vec![], fields: Fields { positional_fields: false, fields: vec![] } }
}

fn coin_module() -> Module {
    Module {
        name: "coin".to_string(),
        functions: vec![Named { name: "value".to_string(), value: simple_fn() }],
        structs: vec![
            Named { name: "Coin".to_string(), value: simple_struct() },
            Named { name: "value".to_string(), value: simple_struct() },
        ],
        enums: vec![],
    }
}

fn listing(mapping: &str, packages: Vec<PackageDir>) -> SummaryListing {
    SummaryListing { root_is_dir: true, address_mapping: Some(mapping.to_string()), metadata: None, packages }
}

fn sample() -> SummaryListing {
    listing(
        r#"{"sui": "0x2", "std": "0x1", "other": "0x3"}"#,
        vec![
            PackageDir { name: "sui".to_string(), modules: vec![parsed("coin", coin_module()), parsed("object", empty_module("object"))] },
            PackageDir { name: "unmapped".to_string(), modules: vec![parsed("x", empty_module("x"))] },
            PackageDir { name: "std".to_string(), modules: vec![parsed("vector", empty_module("vector"))] },
        ],
    )
}

#[test]
fn missing_mapping_file_gives_no_catalog() {
    let l = SummaryListing { root_is_dir: true, address_mapping: None, metadata: None, packages: vec![] };
    assert!(matches!(PackageTree::new(l), Err(CatalogError::MissingMappingFile)));
}

#[test]
fn root_that_is_no_directory() {
    let l = SummaryListing { root_is_dir: false, address_mapping: Some("{}".to_string()), metadata: None, packages: vec![] };
    assert!(matches!(PackageTree::new(l), Err(CatalogError::InvalidRootPath)));
}

#[test]
fn malformed_mapping_file() {
    let l = listing(r#"{"sui": 2}"#, vec![]);
    assert!(matches!(PackageTree::new(l), Err(CatalogError::MappingParseError)));
    let l = listing("not json", vec![]);
    assert!(matches!(PackageTree::new(l), Err(CatalogError::MappingParseError)));
}

#[test]
fn invalid_address_literal_names_the_entry() {
    let l = listing(r#"{"a": "0x1", "b": "0xzz"}"#, vec![]);
    match PackageTree::new(l) {
        Err(CatalogError::InvalidAddressLiteral { symbol, literal }) => {
            assert_eq!(symbol, "b");
            assert_eq!(literal, "0xzz");
        }
        _ => panic!("expected an invalid address literal"),
    }
}

#[test]
fn malformed_metadata_file() {
    let mut l = listing(r#"{"sui": "0x2"}"#, vec![]);
    l.metadata = Some("{ nope".to_string());
    assert!(matches!(PackageTree::new(l), Err(CatalogError::MetadataParseError)));
    let mut l = listing(r#"{"sui": "0x2"}"#, vec![]);
    l.metadata = Some(r#"{"any": [1, 2]}"#.to_string());
    assert!(PackageTree::new(l).is_ok());
}

#[test]
fn module_file_errors_abort_ingestion() {
    let bad = ModuleFile { stem: "broken".to_string(), path: "sui/broken.json".to_string(), source: ModuleSource::Malformed };
    let l = listing(r#"{"sui": "0x2"}"#, vec![PackageDir { name: "sui".to_string(), modules: vec![parsed("coin", coin_module()), bad] }]);
    match PackageTree::new(l) {
        Err(CatalogError::ModuleParseError { path }) => assert_eq!(path, "sui/broken.json"),
        _ => panic!("expected a module parse error"),
    }
    let unreadable = ModuleFile { stem: "gone".to_string(), path: "sui/gone.json".to_string(), source: ModuleSource::Unreadable };
    let l = listing(r#"{"sui": "0x2"}"#, vec![PackageDir { name: "sui".to_string(), modules: vec![unreadable] }]);
    match PackageTree::new(l) {
        Err(CatalogError::ModuleFileUnreadable { path }) => assert_eq!(path, "sui/gone.json"),
        _ => panic!("expected an unreadable module file"),
    }
}

#[test]
fn unreadable_file_in_unmapped_directory_is_ignored() {
    let unreadable = ModuleFile { stem: "gone".to_string(), path: "x/gone.json".to_string(), source: ModuleSource::Unreadable };
    let l = listing(r#"{"sui": "0x2"}"#, vec![PackageDir { name: "x".to_string(), modules: vec![unreadable] }]);
    let (tree, skipped) = parse_summaries(l).ok().unwrap();
    assert_eq!(tree.list_packages(), Vec::<String>::new());
    assert_eq!(skipped, vec!["x".to_string()]);
}

#[test]
fn packages_are_listed_in_address_order_and_unmapped_ones_skipped() {
    let (tree, skipped) = parse_summaries(sample()).ok().unwrap();
    assert_eq!(tree.list_packages(), vec!["std".to_string(), "sui".to_string()]);
    assert_eq!(skipped, vec!["unmapped".to_string()]);
}

#[test]
fn module_names_per_package() {
    let tree = PackageTree::new(sample()).ok().unwrap();
    assert_eq!(tree.list_modules("sui"), Ok(vec!["coin".to_string(), "object".to_string()]));
    assert_eq!(tree.list_modules("std"), Ok(vec!["vector".to_string()]));
}

#[test]
fn unmapped_package_is_not_found() {
    let tree = PackageTree::new(sample()).ok().unwrap();
    assert_eq!(tree.list_modules("unmapped"), Err(QueryError::PackageNotFound));
    assert!(tree.get_package("unmapped").is_none());
    assert!(matches!(tree.get_module("unmapped", "x"), Err(QueryError::PackageNotFound)));
    assert!(matches!(tree.get_definition("unmapped", "x", "y"), Err(QueryError::PackageNotFound)));
}

#[test]
fn queries_are_case_sensitive() {
    let tree = PackageTree::new(sample()).ok().unwrap();
    assert_eq!(tree.list_modules("SUI"), Err(QueryError::PackageNotFound));
    assert!(matches!(tree.get_module("sui", "Coin"), Err(QueryError::ModuleNotFound)));
}

#[test]
fn definitions_resolve_function_then_struct_then_enum() {
    let tree = PackageTree::new(sample()).ok().unwrap();
    assert!(matches!(tree.get_definition("sui", "coin", "value"), Ok(Definition::Function(_))));
    assert!(matches!(tree.get_definition("sui", "coin", "Coin"), Ok(Definition::Struct(_))));
    assert!(matches!(tree.get_definition("sui", "coin", "missing"), Err(QueryError::DefinitionNotFound)));
    assert!(matches!(tree.get_definition("sui", "nope", "Coin"), Err(QueryError::ModuleNotFound)));
    assert!(tree.get_function("sui", "coin", "value").is_some());
    assert!(tree.get_struct("sui", "coin", "Coin").is_some());
    assert!(tree.get_enum("sui", "coin", "Coin").is_none());
}

#[test]
fn later_directory_replaces_earlier_at_same_address() {
    let l = listing(
        r#"{"a": "0x5", "b": "0x05"}"#,
        vec![
            PackageDir { name: "a".to_string(), modules: vec![parsed("m1", empty_module("m1"))] },
            PackageDir { name: "b".to_string(), modules: vec![parsed("m2", empty_module("m2"))] },
        ],
    );
    let tree = PackageTree::new(l).ok().unwrap();
    assert_eq!(tree.list_packages(), vec!["b".to_string()]);
}

#[test]
fn later_file_with_same_stem_replaces_earlier() {
    let l = listing(
        r#"{"p": "0x7"}"#,
        vec![PackageDir { name: "p".to_string(), modules: vec![parsed("m", empty_module("first")), parsed("m", empty_module("second"))] }],
    );
    let tree = PackageTree::new(l).ok().unwrap();
    assert_eq!(tree.list_modules("p"), Ok(vec!["second".to_string()]));
}

#[test]
fn package_and_module_counts() {
    let mods = |p: &str| vec![parsed("a", empty_module(&format!("{}a", p))), parsed("b", empty_module(&format!("{}b", p))), parsed("c", empty_module(&format!("{}c", p)))];
    let l = listing(
        r#"{"x": "0x10", "y": "0x11"}"#,
        vec![PackageDir { name: "x".to_string(), modules: mods("x") }, PackageDir { name: "y".to_string(), modules: mods("y") }],
    );
    let tree = PackageTree::new(l).ok().unwrap();
    let names = tree.list_packages();
    assert!(names.len() <= 2);
    for n in names {
        assert_eq!(tree.list_modules(&n).ok().unwrap().len(), 3);
    }
}

#[test]
fn address_literals_parse_with_leading_zeros_left_out() {
    let a = parse_address_literal("0x2").unwrap();
    assert_eq!(a.bytes.len(), 32);
    assert_eq!(a.bytes[31], 2);
    assert!(a.bytes[..31].iter().all(|b| *b == 0));
    let b = parse_address_literal("0xAbCd").unwrap();
    assert_eq!(b.bytes[30], 0xab);
    assert_eq!(b.bytes[31], 0xcd);
    let empty = parse_address_literal("0x").unwrap();
    assert!(empty.bytes.iter().all(|b| *b == 0));
    assert!(parse_address_literal("2").is_none());
    assert!(parse_address_literal("0X2").is_none());
    assert!(parse_address_literal("0xg").is_none());
    let too_long = format!("0x{}", "1".repeat(65));
    assert!(parse_address_literal(&too_long).is_none());
    let full = format!("0x{}", "f".repeat(64));
    assert!(parse_address_literal(&full).unwrap().bytes.iter().all(|b| *b == 0xff));
}

#[test]
fn resolved_mapping_keeps_size_and_round_trips() {
    let entries = vec![
        ("a".to_string(), "0x1".to_string()),
        ("b".to_string(), "0xdeadBEEF".to_string()),
        ("c".to_string(), "0x".to_string()),
    ];
    let resolved = resolve_addresses(&entries).ok().unwrap();
    assert_eq!(resolved.len(), entries.len());
    for (_, addr) in &resolved {
        let text = to_canonical_literal(addr);
        assert_eq!(text.len(), 66);
        let back = parse_address_literal(&text).unwrap();
        assert_eq!(back.bytes, addr.bytes);
    }
    assert_eq!(
        to_canonical_literal(&resolved[1].1),
        format!("0x{}deadbeef", "0".repeat(56))
    );
}

#[test]
fn service_answers_from_the_catalog() {
    let service = SuiService::new(PackageTree::new(sample()).ok().unwrap());
    assert_eq!(service.list_packages(), vec!["std".to_string(), "sui".to_string()]);
    assert_eq!(
        service.list_modules(&ListModulesRequest { package: "sui".to_string() }),
        Ok(vec!["coin".to_string(), "object".to_string()])
    );
    let summary = service.read_module(&ModuleRequest { package: "sui".to_string(), module: "coin".to_string() }).ok().unwrap();
    assert_eq!(summary.functions, vec!["value".to_string()]);
    assert_eq!(summary.structs, vec!["Coin".to_string(), "value".to_string()]);
    assert!(summary.enums.is_empty());
    let req = DefinitionRequest { package: "sui".to_string(), module: "coin".to_string(), definition: "Coin".to_string() };
    assert!(matches!(service.read_module_definition(&req), Ok(Definition::Struct(_))));
    let req = DefinitionRequest { package: "nope".to_string(), module: "coin".to_string(), definition: "Coin".to_string() };
    assert!(matches!(service.read_module_definition(&req), Err(QueryError::PackageNotFound)));
}
