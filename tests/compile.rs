use foundry_common::compiler::{
    compile_mode, compile_target_plan, output_action, CompileError, CompileMode, CompileOutcome,
    CompileStep, OutputAction, ProjectCompiler, TargetPlan,
};
use foundry_common::filter::{SkipBuildFilter, SkipBuildFilters};
use foundry_common::text::{str_contains, str_eq, str_less, str_starts_with};
use foundry_common::remap::{etherscan_remappings, trim_start_slashes, Remapping};
use foundry_common::size::{
    contract_info, deployed_contract_size, is_dev_contract, is_dev_function, size_band,
    size_margin, BytecodeObject, ContractArtifact, ContractInfo, SizeBand, SizeReport,
    CONTRACT_SIZE_LIMIT,
};

#[test]
fn test_build_filter() {
    let file = "A.t.sol";
    assert!(!SkipBuildFilter::Tests.is_match(file));
    assert!(SkipBuildFilter::Scripts.is_match(file));
    assert!(!SkipBuildFilter::Custom("A.t".to_string()).is_match(file));

    let file = "A.s.sol";
    assert!(SkipBuildFilter::Tests.is_match(file));
    assert!(!SkipBuildFilter::Scripts.is_match(file));
    assert!(!SkipBuildFilter::Custom("A.s".to_string()).is_match(file));
}

#[test]
fn filter_reads_only_the_file_name() {
    assert!(SkipBuildFilter::Tests.is_match("src/a.t.sol/Counter.sol"));
    assert!(!SkipBuildFilter::Tests.is_match("test/Counter.t.sol"));
    assert!(!SkipBuildFilter::Scripts.is_match("/abs/script/Deploy.s.sol"));
    assert!(SkipBuildFilter::Scripts.is_match("src/Counter.sol"));
}

#[test]
fn filter_keeps_paths_without_a_file_name() {
    assert!(SkipBuildFilter::Custom("..".to_string()).is_match(".."));
    assert!(SkipBuildFilter::Custom("/".to_string()).is_match("/"));
    assert!(SkipBuildFilter::Tests.included_in_sparse_output(None));
    assert!(!SkipBuildFilter::Tests.included_in_sparse_output(Some("X.t.sol")));
    assert!(SkipBuildFilter::Tests.included_in_sparse_output(Some("X.s.sol")));
}

#[test]
fn empty_custom_pattern_excludes_every_named_file() {
    assert!(!SkipBuildFilter::Custom(String::new()).is_match("A.sol"));
}

#[test]
fn file_patterns() {
    assert_eq!(SkipBuildFilter::Tests.file_pattern(), ".t.sol");
    assert_eq!(SkipBuildFilter::Scripts.file_pattern(), ".s.sol");
    assert_eq!(SkipBuildFilter::Custom("Foo".to_string()).file_pattern(), "Foo");
}

#[test]
fn parse_filter_words() {
    let f: SkipBuildFilter = "test".into();
    assert_eq!(f, SkipBuildFilter::Tests);
    assert_eq!(SkipBuildFilter::from("tests"), SkipBuildFilter::Tests);
    assert_eq!(SkipBuildFilter::from("script"), SkipBuildFilter::Scripts);
    let f: SkipBuildFilter = "scripts".into();
    assert_eq!(f, SkipBuildFilter::Scripts);
    let f: SkipBuildFilter = "Foo.sol".into();
    assert_eq!(f, SkipBuildFilter::Custom("Foo.sol".to_string()));
    assert_eq!(SkipBuildFilter::parse("Tests"), SkipBuildFilter::Custom("Tests".to_string()));
    assert_eq!(SkipBuildFilter::parse(""), SkipBuildFilter::Custom(String::new()));
}

#[test]
fn filter_set_is_conjunction() {
    let set = SkipBuildFilters(vec![SkipBuildFilter::Tests, SkipBuildFilter::Scripts]);
    assert!(set.is_match("src/Counter.sol"));
    assert!(!set.is_match("test/Counter.t.sol"));
    assert!(!set.is_match("script/Deploy.s.sol"));
    assert!(SkipBuildFilters(vec![]).is_match("test/Counter.t.sol"));
    for p in ["a/B.t.sol", "a/B.s.sol", "a/B.sol", "Foo.sol"] {
        let f1 = SkipBuildFilter::Tests;
        let f2 = SkipBuildFilter::Custom("Foo".to_string());
        let both = SkipBuildFilters(vec![f1.clone(), f2.clone()]);
        assert_eq!(both.is_match(p), f1.is_match(p) && f2.is_match(p));
    }
}

#[test]
fn linked_and_unlinked_sizes_agree() {
    let n = 5;
    let linked = BytecodeObject::Bytecode(vec![0x60; n]);
    let hex = format!("0x{}", "ab".repeat(n));
    let unlinked = BytecodeObject::Unlinked(hex);
    assert_eq!(deployed_contract_size(Some(&linked)), Some(n));
    assert_eq!(deployed_contract_size(Some(&unlinked)), Some(n));
    let placeholder = format!("0x6060{}6060", "__$0123456789abcdef0123456789abcdef01$__");
    assert_eq!(deployed_contract_size(Some(&BytecodeObject::Unlinked(placeholder))), Some(24));
}

#[test]
fn unlinked_size_without_prefix_and_empty() {
    assert_eq!(deployed_contract_size(Some(&BytecodeObject::Unlinked("abcd".to_string()))), Some(2));
    assert_eq!(deployed_contract_size(Some(&BytecodeObject::Unlinked("0x".to_string()))), Some(0));
    assert_eq!(deployed_contract_size(Some(&BytecodeObject::Unlinked("abc".to_string()))), Some(1));
    assert_eq!(deployed_contract_size(Some(&BytecodeObject::Bytecode(vec![]))), Some(0));
    assert_eq!(deployed_contract_size(None), None);
}

#[test]
fn dev_function_names() {
    assert!(is_dev_function("testDeposit"));
    assert!(is_dev_function("test"));
    assert!(is_dev_function("IS_TEST"));
    assert!(is_dev_function("IS_SCRIPT"));
    assert!(!is_dev_function("IS_TESTS"));
    assert!(!is_dev_function("setUp"));
    assert!(!is_dev_function("Test"));
    assert!(is_dev_contract(&vec!["setUp".to_string(), "testA".to_string()]));
    assert!(!is_dev_contract(&vec!["transfer".to_string()]));
    assert!(!is_dev_contract(&vec![]));
}

fn artifact(name: &str, size: usize, functions: &[&str]) -> ContractArtifact {
    ContractArtifact {
        name: name.to_string(),
        deployed_bytecode: Some(BytecodeObject::Bytecode(vec![0u8; size])),
        function_names: functions.iter().map(|f| f.to_string()).collect(),
    }
}

#[test]
fn missing_deployed_bytecode_counts_as_zero() {
    let a = ContractArtifact {
        name: "I".to_string(),
        deployed_bytecode: None,
        function_names: vec![],
    };
    let info = contract_info(&a);
    assert_eq!(info.size, 0);
    assert!(!info.is_dev_contract);
    let report = SizeReport::build(&vec![a]);
    assert!(report.rows().is_empty());
}

#[test]
fn scenario_warning_band() {
    let report = SizeReport::build(&vec![artifact("Token", 20_000, &["transfer"])]);
    assert!(!report.exceeds_size_limit());
    assert_eq!(report.max_size(), 20_000);
    let rows = report.rows();
    assert_eq!(rows.len(), 1);
    assert_eq!(rows[0].name, "Token");
    assert_eq!(rows[0].band, SizeBand::Warning);
    assert_eq!(rows[0].margin, 4_576);
    assert_eq!(rows[0].margin as f64 / 1000.0, 4.576);
}

#[test]
fn scenario_critical_band() {
    let report = SizeReport::build(&vec![artifact("Token", 30_000, &["transfer"])]);
    assert!(report.exceeds_size_limit());
    let rows = report.rows();
    assert_eq!(rows.len(), 1);
    assert_eq!(rows[0].band, SizeBand::Critical);
    assert!(rows[0].margin < 0);
    assert_eq!(rows[0].margin, -5_424);
}

#[test]
fn scenario_dev_contract_exempt() {
    let report = SizeReport::build(&vec![artifact("CounterTest", 50_000, &["IS_TEST", "setUp"])]);
    assert_eq!(report.max_size(), 0);
    assert!(!report.exceeds_size_limit());
    assert!(report.rows().is_empty());
}

#[test]
fn exceeds_limit_only_for_non_dev_contracts() {
    let mut report = SizeReport::new();
    report.insert("Big".to_string(), ContractInfo { size: 40_000, is_dev_contract: true });
    report.insert("Ok".to_string(), ContractInfo { size: CONTRACT_SIZE_LIMIT, is_dev_contract: false });
    assert!(!report.exceeds_size_limit());
    assert_eq!(report.max_size(), CONTRACT_SIZE_LIMIT);
    report.insert("Ok".to_string(), ContractInfo { size: CONTRACT_SIZE_LIMIT + 1, is_dev_contract: false });
    assert_eq!(report.contracts.len(), 2);
    assert!(report.exceeds_size_limit());
}

#[test]
fn later_artifact_replaces_earlier() {
    let report = SizeReport::build(&vec![
        artifact("A", 10, &[]),
        artifact("B", 0, &[]),
        artifact("A", 30, &["testX"]),
    ]);
    assert_eq!(report.contracts.len(), 2);
    assert_eq!(report.contracts[0].0, "A");
    assert_eq!(report.contracts[0].1.size, 30);
    assert!(report.contracts[0].1.is_dev_contract);
    assert!(report.rows().is_empty());
}

#[test]
fn bands_and_margins() {
    assert_eq!(size_band(0), SizeBand::Normal);
    assert_eq!(size_band(17_999), SizeBand::Normal);
    assert_eq!(size_band(18_000), SizeBand::Warning);
    assert_eq!(size_band(24_576), SizeBand::Warning);
    assert_eq!(size_band(24_577), SizeBand::Critical);
    assert_eq!(size_margin(0), 24_576);
    assert_eq!(size_margin(24_577), -1);
}

#[test]
fn compile_mode_follows_filters() {
    assert_eq!(compile_mode(vec![]), CompileMode::Full);
    assert_eq!(
        compile_mode(vec![SkipBuildFilter::Tests]),
        CompileMode::Sparse(SkipBuildFilters(vec![SkipBuildFilter::Tests]))
    );
}

#[test]
fn compile_steps() {
    assert_eq!(ProjectCompiler::new(true, true).compile_step(false), CompileStep::NothingToCompile);
    assert_eq!(ProjectCompiler::new(false, false).compile_step(true), CompileStep::Run(CompileMode::Full));
    let c = ProjectCompiler::with_filter(false, true, vec![SkipBuildFilter::Scripts]);
    assert!(c.print_sizes && !c.print_names);
    assert_eq!(
        c.compile_step(true),
        CompileStep::Run(CompileMode::Sparse(SkipBuildFilters(vec![SkipBuildFilter::Scripts])))
    );
}

#[test]
fn output_actions() {
    assert_eq!(output_action(true, true), OutputAction::Fail);
    assert_eq!(output_action(true, false), OutputAction::Fail);
    assert_eq!(output_action(false, true), OutputAction::Unchanged);
    assert_eq!(output_action(false, false), OutputAction::Print);
}

#[test]
fn outcome_after_report() {
    let big = SizeReport::build(&vec![artifact("Token", 30_000, &[])]);
    assert_eq!(ProjectCompiler::new(false, true).outcome(&big), CompileOutcome::SizeLimitExceeded);
    assert_eq!(ProjectCompiler::new(false, false).outcome(&big), CompileOutcome::Success);
    let small = SizeReport::build(&vec![artifact("Token", 100, &[])]);
    assert_eq!(ProjectCompiler::new(true, true).outcome(&small), CompileOutcome::Success);
}

#[test]
fn scenario_standalone_target() {
    assert_eq!(
        compile_target_plan(false, false, true, vec![SkipBuildFilter::Tests]),
        Err(CompileError::StandaloneVerifyRejected)
    );
    assert_eq!(
        compile_target_plan(false, true, false, vec![SkipBuildFilter::Tests]),
        Ok(TargetPlan::CompileFiles { silent: true })
    );
}

#[test]
fn member_target_plans() {
    assert_eq!(
        compile_target_plan(true, true, true, vec![]),
        Ok(TargetPlan::SuppressCompile(CompileMode::Full))
    );
    assert_eq!(
        compile_target_plan(true, false, true, vec![SkipBuildFilter::Tests]),
        Ok(TargetPlan::Compile { filters: vec![SkipBuildFilter::Tests] })
    );
}

#[test]
fn trims_leading_slashes() {
    assert_eq!(trim_start_slashes("//a/b"), "a/b");
    assert_eq!(trim_start_slashes("a/"), "a/");
    assert_eq!(trim_start_slashes("///"), "");
}

#[test]
fn remappings_made_absolute_with_default() {
    let rs = vec![Remapping { name: "ds-test/".to_string(), path: "/lib/ds-test/src".to_string() }];
    let out = etherscan_remappings("/tmp/root/Token", rs);
    assert_eq!(out.len(), 2);
    assert_eq!(out[0].name, "ds-test/");
    assert_eq!(out[0].path, "/tmp/root/Token/lib/ds-test/src");
    assert_eq!(out[1].name, "@openzeppelin/");
    assert_eq!(out[1].path, "/tmp/root/Token/@openzeppelin");
}

#[test]
fn remappings_keep_declared_openzeppelin() {
    let rs = vec![Remapping {
        name: "@openzeppelin/contracts/".to_string(),
        path: "oz/contracts".to_string(),
    }];
    let out = etherscan_remappings("/r/C", rs);
    assert_eq!(out.len(), 1);
    assert_eq!(out[0].path, "/r/C/oz/contracts");
}

#[test]
fn filter_from_str_and_default_compiler() {
    let f: SkipBuildFilter = "scripts".parse().unwrap();
    assert_eq!(f, SkipBuildFilter::Scripts);
    let c = ProjectCompiler::default();
    assert!(!c.print_names && !c.print_sizes && c.filters.is_empty());
}

#[test]
fn names_grouped_by_version() {
    let arts = vec![
        ("B".to_string(), (0u64, 8u64, 19u64)),
        ("A".to_string(), (0, 8, 10)),
        ("C".to_string(), (0, 8, 19)),
        ("D".to_string(), (0, 7, 6)),
    ];
    let groups = foundry_common::compiler::names_by_version(&arts);
    assert_eq!(groups.len(), 3);
    assert_eq!(groups[0], ((0, 7, 6), vec!["D".to_string()]));
    assert_eq!(groups[1], ((0, 8, 10), vec!["A".to_string()]));
    assert_eq!(groups[2], ((0, 8, 19), vec!["B".to_string(), "C".to_string()]));
    assert!(foundry_common::compiler::names_by_version(&vec![]).is_empty());
}

#[test]
fn report_keeps_names_in_order() {
    let report = SizeReport::build(&vec![
        artifact("Vault", 300, &[]),
        artifact("Token", 200, &[]),
        artifact("Vault2", 100, &[]),
        artifact("Alpha", 50, &[]),
    ]);
    let names: Vec<&str> = report.contracts.iter().map(|(n, _)| n.as_str()).collect();
    assert_eq!(names, vec!["Alpha", "Token", "Vault", "Vault2"]);
    let rows = report.rows();
    assert_eq!(rows[0].name, "Alpha");
    assert_eq!(rows[3].name, "Vault2");
}

#[test]
fn text_order_and_search() {
    assert!(str_less("A", "B"));
    assert!(str_less("Vault", "Vault2"));
    assert!(!str_less("Vault2", "Vault"));
    assert!(!str_less("a", "a"));
    assert!(str_less("Z", "a"));
    assert!(str_less("", "a"));
    assert!(str_contains("Counter.t.sol", ".t.sol"));
    assert!(!str_contains("Counter.sol", ".t.sol"));
    assert!(str_contains("x", ""));
    assert!(str_starts_with("testFoo", "test"));
    assert!(!str_starts_with("tes", "test"));
    assert!(str_eq("abc", "abc"));
    assert!(!str_eq("abc", "abd"));
}
