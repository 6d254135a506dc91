use r55::contracts::{sort_generated_contracts, CompileError};
use r55::{get_contract_name, ContractTarget, GeneratedContract};

fn contract(name: &str, deps: &[&str]) -> GeneratedContract {
    GeneratedContract {
        path: format!("target/{}", name),
        name: name.to_string(),
        deps: deps.iter().map(|d| (d.to_string(), true)).collect(),
        original_source_path: format!("src/{}.rs", name),
    }
}

#[test]
fn contract_names_are_camel_cased() {
    assert_eq!(get_contract_name("erc20"), "ERC20");
    assert_eq!(get_contract_name("Erc721"), "ERC721");
    assert_eq!(get_contract_name("uniswap-v2"), "UniswapV2");
    assert_eq!(get_contract_name("evm_caller"), "EvmCaller");
    assert_eq!(get_contract_name("my-erc20x_pair"), "MyERC20XPair");
    assert_eq!(get_contract_name(""), "");
    assert_eq!(get_contract_name("a--b"), "AB");
}

#[test]
fn self_reference_matches_module_or_package() {
    let t = ContractTarget {
        ident: "Factory".to_string(),
        module: "factory".to_string(),
        source_file: "src/factory.rs".to_string(),
        generated_package: "uniswap-v2-factory".to_string(),
    };
    assert!(t.is_self_reference(&"factory".to_string()));
    assert!(t.is_self_reference(&"uniswap-v2-factory".to_string()));
    assert!(!t.is_self_reference(&"pair".to_string()));
}

#[test]
fn original_name_drops_project_prefix() {
    let mut c = contract("uniswap-v2-factory", &[]);
    c.original_source_path = "examples/uniswap-v2.rs".to_string();
    assert_eq!(c.get_original_name(&"uniswap_v2_factory".to_string()), "factory");
    assert_eq!(c.get_original_name(&"x_uniswap_v2_pair".to_string()), "pair");
    assert_eq!(c.get_original_name(&"erc20".to_string()), "erc20");
    c.original_source_path = "a/b.tar.gz".to_string();
    assert_eq!(c.get_original_name(&"b.tar_x".to_string()), "x");
    c.original_source_path = "dir/.hidden".to_string();
    assert_eq!(c.get_original_name(&".hidden_m".to_string()), "m");
    c.original_source_path = "ab/".to_string();
    assert_eq!(c.get_original_name(&"q_ab_x".to_string()), "x");
    c.original_source_path = "dir/foo.txt/.".to_string();
    assert_eq!(c.get_original_name(&"foo_bar".to_string()), "bar");
    c.original_source_path = "dir/..".to_string();
    assert_eq!(c.get_original_name(&"q_x".to_string()), "x");
    c.original_source_path = ".".to_string();
    assert_eq!(c.get_original_name(&"no_prefix".to_string()), "prefix");
    c.original_source_path = "plain".to_string();
    assert_eq!(c.get_original_name(&"plain_y".to_string()), "y");
}

#[test]
fn compile_prefixes_the_guest_marker() {
    let c = contract("erc20", &[]);
    assert_eq!(c.compile(&[0x7f, 0x45]), vec![0xff, 0x7f, 0x45]);
    assert_eq!(c.compile(&[]), vec![0xff]);
}

#[test]
fn sort_places_dependencies_first() {
    let input = vec![
        contract("pair-user", &["factory", "pair"]),
        contract("factory", &["pair"]),
        contract("pair", &[]),
        contract("token", &[]),
    ];
    let sorted = sort_generated_contracts(input).ok().unwrap();
    let names: Vec<String> = sorted.iter().map(|c| c.name.clone()).collect();
    assert_eq!(names, vec!["pair", "token", "factory", "pair-user"]);
}

#[test]
fn sort_reports_cycles_and_missing_dependencies() {
    let cyclic = vec![contract("a", &["b"]), contract("b", &["a"]), contract("c", &[])];
    assert!(matches!(sort_generated_contracts(cyclic), Err(CompileError::CyclicDependency)));
    let missing = vec![contract("a", &["nowhere"])];
    assert!(matches!(sort_generated_contracts(missing), Err(CompileError::CyclicDependency)));
    assert_eq!(sort_generated_contracts(vec![]).ok().unwrap().len(), 0);
}

#[test]
fn deployable_deps_skip_the_target_itself() {
    let t = ContractTarget {
        ident: "Factory".to_string(),
        module: "factory".to_string(),
        source_file: "src/factory.rs".to_string(),
        generated_package: "uniswap-v2-factory".to_string(),
    };
    let deps = vec![
        ("uniswap-v2-pair".to_string(), true),
        ("factory".to_string(), true),
        ("erc20".to_string(), false),
        ("uniswap-v2-factory".to_string(), true),
    ];
    let kept = r55::contracts::get_deployable_deps(&deps, &t);
    assert_eq!(kept, vec![("uniswap-v2-pair".to_string(), true), ("erc20".to_string(), false)]);
}

#[test]
fn generated_contract_describes_itself() {
    assert_eq!(contract("erc20", &[]).describe(), "erc20");
    assert_eq!(
        contract("factory", &["pair", "erc20"]).describe(),
        "factory with deps: [pair, erc20]"
    );
}

#[test]
fn sort_keeps_an_ordered_input() {
    let input = vec![contract("pair", &[]), contract("factory", &["pair"]), contract("router", &["factory", "pair"])];
    let sorted = sort_generated_contracts(input.clone()).ok().unwrap();
    let names: Vec<String> = sorted.iter().map(|c| c.name.clone()).collect();
    assert_eq!(names, vec!["pair", "factory", "router"]);
}
