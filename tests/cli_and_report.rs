use allocscope::commandline::{get_trace_filename_from_command, CommandLineArguments, CommandLineError};
use allocscope::report::{
    demangle_function_name, find_top_leaf_index, format_function_tree_row, format_table_value,
    ReportLine, StackEntryRow,
};
use allocscope::view_commandline::CommandLineArguments as ViewArguments;
use std::collections::HashSet;

fn args(list: &[&str]) -> Vec<String> {
    list.iter().map(|s| s.to_string()).collect()
}

#[test]
fn command_line_with_command() {
    let a = CommandLineArguments::parse(&args(&["tracer", "./loop", "-o", "x"])).unwrap();
    assert_eq!(a.command, args(&["./loop", "-o", "x"]));
    assert_eq!(a.atrace_filename, "loop.atrace");
    assert_eq!(a.target_pid, None);
    assert!(!a.show_help && !a.report_version);
}

#[test]
fn command_line_options() {
    let a = CommandLineArguments::parse(&args(&["tracer", "-p", "1234", "--output", "t.atrace"])).unwrap();
    assert_eq!(a.target_pid, Some(1234));
    assert_eq!(a.atrace_filename, "t.atrace");
    assert!(a.command.is_empty());
    let a = CommandLineArguments::parse(&args(&["tracer", "-vh"])).unwrap();
    assert!(a.report_version && a.show_help);
    assert_eq!(a.atrace_filename, "alloc-trace.atrace");
    let a = CommandLineArguments::parse(&args(&["tracer", "--bogus", "-x"])).unwrap();
    assert!(a.show_help);
    let a = CommandLineArguments::parse(&args(&["tracer", "--version"])).unwrap();
    assert!(a.report_version && !a.show_help);
    assert_eq!(
        CommandLineArguments::parse(&args(&["tracer", "--pid", "12x"])).unwrap_err(),
        CommandLineError::InvalidTargetPid
    );
    assert_eq!(
        CommandLineArguments::parse(&args(&["tracer", "-p", "4294967296"])).unwrap_err(),
        CommandLineError::InvalidTargetPid
    );
    let a = CommandLineArguments::parse(&args(&["tracer", "-p", "+4294967295"])).unwrap();
    assert_eq!(a.target_pid, Some(4294967295));
    let a = CommandLineArguments::parse(&args(&[])).unwrap();
    assert!(a.command.is_empty());
}

#[test]
fn trace_filenames() {
    assert_eq!(get_trace_filename_from_command(&args(&["/usr/bin/ls", "-l"])), "ls.atrace");
    assert_eq!(get_trace_filename_from_command(&args(&[])), "alloc-trace.atrace");
    assert_eq!(get_trace_filename_from_command(&args(&[".."])), "alloc-trace.atrace");
}

#[test]
fn table_values() {
    assert_eq!(format_table_value(0, 1024), "    0");
    assert_eq!(format_table_value(1024, 1000), " 1024");
    assert_eq!(format_table_value(99998, 1024), "99998");
    assert_eq!(format_table_value(99999, 1000), "  99k");
    assert_eq!(format_table_value(1024 * 1024, 1024), "1024k");
    assert_eq!(format_table_value(512 * 1024, 1024), " 512k");
    assert_eq!(format_table_value(20 * 1024 * 1024 * 1024, 1024), "  20G");
    assert_eq!(format_table_value(u64::MAX, 1024), "16383P");
    assert_eq!(format_table_value(10_000_000, 1000), "  10M");
}

fn row(depth: usize, finals: Vec<bool>, has_children: bool, function: &str, offset: u64) -> StackEntryRow {
    StackEntryRow {
        id: 7,
        depth,
        final_child_of_depth: finals,
        has_children,
        address: 0x4011ab,
        function: function.to_string(),
        offset,
        maximum_size: 0,
        total_blocks: 1,
        unfreed_blocks: 0,
    }
}

#[test]
fn tree_rows() {
    assert_eq!(format_function_tree_row(None, &row(0, vec![], true, "main", 0)), "| main");
    assert_eq!(
        format_function_tree_row(None, &row(3, vec![true, false], false, "malloc", 0x1f)),
        "  | +-- malloc + 0x1f"
    );
    assert_eq!(format_function_tree_row(None, &row(1, vec![], false, "", 0)), "+-- 0x4011ab");
    let mut collapsed = HashSet::new();
    collapsed.insert(7u64);
    assert_eq!(format_function_tree_row(Some(&collapsed), &row(0, vec![], true, "main", 0)), "# main");
    assert_eq!(format_function_tree_row(Some(&collapsed), &row(0, vec![], false, "main", 0)), "- main");
}

fn line(tree: &str) -> ReportLine {
    ReportLine {
        bytes: "1024k".to_string(),
        blocks: "1024".to_string(),
        leaks: "0".to_string(),
        tree: tree.to_string(),
        name: "malloc".to_string(),
    }
}

#[test]
fn top_leaf() {
    assert_eq!(find_top_leaf_index(&vec![]), None);
    assert_eq!(find_top_leaf_index(&vec![line("| ")]), Some(0));
    let t = vec![line("| "), line("+-| "), line("  +-| "), line("    +-- "), line("+-- ")];
    assert_eq!(find_top_leaf_index(&t), Some(3));
}

#[test]
fn demangling() {
    let n = demangle_function_name("_ZN4rust4iter17h0123456789abcdefE", None);
    assert!(n.starts_with("rust::iter"));
    assert_eq!(demangle_function_name("malloc", None), "malloc");
    assert_eq!(demangle_function_name("_Z4iterm", Some("iter(unsigned long)".to_string())), "iter(unsigned long)");
}

#[test]
fn viewer_command_line() {
    let a = ViewArguments::parse(&args(&["viewer", "-r", "trace.atrace"]));
    assert!(a.report_mode && !a.show_help && !a.report_perf);
    assert_eq!(a.atrace_filename.as_deref(), Some("trace.atrace"));
    let a = ViewArguments::parse(&args(&["viewer", "a", "b"]));
    assert!(a.show_help);
    assert_eq!(a.atrace_filename.as_deref(), Some("a"));
    let a = ViewArguments::parse(&args(&["viewer", "--perf", "--version", "-hx"]));
    assert!(a.report_perf && a.report_version && a.show_help);
    assert_eq!(a.atrace_filename, None);
    let a = ViewArguments::parse(&args(&["viewer", "--report"]));
    assert!(a.report_mode && !a.show_help);
}
