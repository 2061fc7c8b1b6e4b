use scry::tools::{ExternalTool, ToolRegistry};

fn installed(cmds: &[&str]) -> Vec<String> {
    cmds.iter().map(|s| s.to_string()).collect()
}

#[test]
fn catalog_lists_eight_tools() {
    let tools = ExternalTool::all_tools();
    let names: Vec<&str> = tools.iter().map(|t| t.name.as_str()).collect();
    assert_eq!(names, vec!["jless", "fx", "visidata", "tabview", "lnav", "gonzo", "csvtk", "less"]);
    assert_eq!(tools[2].check_cmd, "vd");
    assert_eq!(tools[2].run_cmd, "vd");
    assert_eq!(tools[2].args, vec!["-f".to_string(), "jsonl".to_string()]);
    assert_eq!(tools[7].args, vec!["-R".to_string(), "-S".to_string()]);
    assert_eq!(tools[0].description, "JSON viewer with syntax highlighting and navigation");
    assert!(tools.iter().all(|t| t.reads_stdin && !t.needs_file));
}

#[test]
fn available_tools_by_check_command() {
    let got = ExternalTool::get_available_tools(&installed(&["vd", "less", "nothing"]));
    let names: Vec<&str> = got.iter().map(|t| t.name.as_str()).collect();
    assert_eq!(names, vec!["visidata", "less"]);
    assert!(ExternalTool::get_available_tools(&installed(&[])).is_empty());
}

#[test]
fn registry_lookup() {
    let reg = ToolRegistry::new();
    assert_eq!(reg.get("lnav").map(|t| t.run_cmd.as_str()), Some("lnav"));
    assert_eq!(reg.get("visidata").map(|t| t.check_cmd.as_str()), Some("vd"));
    assert!(reg.get("vd").is_none());
    assert!(reg.get("").is_none());
}

#[test]
fn registry_available_names_and_descriptions() {
    let reg = ToolRegistry::default();
    let inst = installed(&["fx", "csvtk"]);
    assert_eq!(reg.get_available(&inst).len(), 2);
    assert_eq!(reg.get_available_names(&inst), vec!["fx".to_string(), "csvtk".to_string()]);
    assert_eq!(
        reg.get_available_descriptions(&inst),
        "fx: Interactive JSON viewer with search and filtering\ncsvtk: CSV/TSV viewer and processor"
    );
    assert_eq!(reg.get_available_descriptions(&installed(&[])), "");
}
