use zsh_tool_exec::alan::init_schema;
use zsh_tool_exec::alan::manopt::{
    build_table, cache_at, extract_options_section, get_cached, parse_manopt, parse_options,
    run_and_cache,
};

const LS_PAGE: &str = "LS(1)                User Commands               LS(1)\n\nNAME\n       ls - list directory contents\n\nSYNOPSIS\n       ls [OPTION]... [FILE]...\n\nDESCRIPTION\n       List information about the FILEs.\n\n       -a, --all\n\tdo not ignore entries starting with .\n\n       -l     use a long listing format\n\n       --color[=WHEN]\n\tcolor the output WHEN\n\nAUTHOR\n       Written by someone.\n";

#[test]
fn test_parse_options_basic() {
    let lines = vec![
        "       -a, --all".to_string(),
        "\tdo not ignore entries starting with .".to_string(),
        "       -l".to_string(),
        "\tuse a long listing format".to_string(),
    ];
    let entries = parse_options(&lines);
    assert_eq!(entries.len(), 2);
    assert_eq!(entries[0].0, "-a, --all");
    assert!(entries[0].1.contains("do not ignore"));
    assert_eq!(entries[1].0, "-l");
}

#[test]
fn test_build_table_output() {
    let entries = vec![
        ("-a, --all".to_string(), "show all".to_string()),
        ("-l".to_string(), "long format".to_string()),
    ];
    let table = build_table("ls", &entries, 60);
    assert!(table.contains("ls options"));
    assert!(table.contains("-a, --all"));
    assert!(table.contains("-l"));
}

#[test]
fn test_parse_manopt_ls() {
    if let Some(table) = parse_manopt("ls", LS_PAGE, 100) {
        assert!(table.contains("ls options"));
        assert!(table.contains("-l") || table.contains("--all"));
    }
}

#[test]
fn manopt_reads_the_description_when_no_section_lists_options() {
    let table = parse_manopt("ls", LS_PAGE, 100).unwrap();
    let lines: Vec<&str> = table.lines().collect();
    assert_eq!(lines.len(), 7);
    assert!(lines[3].contains("-a, --all") && lines[3].contains("do not ignore entries starting with ."));
    assert!(lines[4].contains("-l") && lines[4].contains("use a long listing format"));
    assert!(lines[5].contains("--color[=WHEN]") && lines[5].contains("color the output WHEN"));
    assert_eq!(parse_manopt("x", "NAME\n       x - nothing\n", 100), None);
    assert_eq!(parse_manopt("x", "", 100), None);
}

#[test]
fn options_section_is_preferred_over_description() {
    let page = "DESCRIPTION\n       -x  from description\nOPTIONS\n       -a  first\n\nGENERAL OPTIONS\n       -g  general\nALL OPTIONS\n       -z  all\nSEE ALSO\n       more\nOPTIONS\n       -b  second\n";
    assert_eq!(
        extract_options_section(page),
        vec![
            "       -z  all".to_string(),
            "       -a  first".to_string(),
            "".to_string(),
            "       -b  second".to_string(),
            "       -g  general".to_string(),
        ]
    );
    assert_eq!(
        extract_options_section("NAME\n x\nDESCRIPTION\n  text\r\n  more\nFILES\n  f\n"),
        vec!["  text".to_string(), "  more".to_string()]
    );
    assert_eq!(extract_options_section("no headings here\n"), Vec::<String>::new());
}

#[test]
fn options_are_deduplicated_and_trimmed() {
    let lines: Vec<String> = [
        "       -v, --verbose  be loud",
        "\tvery loud ",
        "\t  indeed",
        "not an option",
        "       -v, --verbose:",
        "       -q.",
        "    --long-option=VALUE   takes a value",
        "  -x too little indent",
        "       - ",
    ]
    .iter()
    .map(|s| s.to_string())
    .collect();
    assert_eq!(
        parse_options(&lines),
        vec![
            ("-v, --verbose".to_string(), "be loud very loud  indeed".to_string()),
            ("-q".to_string(), "".to_string()),
            ("--long-option=VALUE".to_string(), "takes a value".to_string()),
            ("-".to_string(), "".to_string()),
        ]
    );
    assert_eq!(parse_options(&vec![]), Vec::<(String, String)>::new());
}

#[test]
fn table_is_drawn_exactly() {
    let entries = vec![
        ("-a".to_string(), "all".to_string()),
        ("--long".to_string(), "a description that is too long".to_string()),
    ];
    let table = build_table("ls", &entries, 24);
    let expected = [
        "┌──────────────────────┐",
        "│       ls options     │",
        "├────────┬─────────────┤",
        "│ -a     │ all         │",
        "│ --long │ a descript… │",
        "└────────┴─────────────┘",
    ]
    .join("\n");
    assert_eq!(table, expected);
    assert_eq!(build_table("ls", &vec![], 24), "No options found for 'ls'.");
}

#[test]
fn table_with_odd_widths() {
    let entries = vec![("-abcdefghijklmnopqrstuvwxyz0123456789".to_string(), "d".to_string())];
    let narrow = build_table("x", &entries, 0);
    let lines: Vec<&str> = narrow.lines().collect();
    assert_eq!(lines[0], "┌┐");
    assert_eq!(lines[1], "│  x options│");
    assert_eq!(lines[3], "│ -abcdefghijklmnopqrstuvwxyz012345… │ … │");
    let wide = build_table("cmd", &vec![("-a".to_string(), "".to_string())], 21);
    let lines: Vec<&str> = wide.lines().collect();
    assert_eq!(lines[1], "│     cmd options   │");
    assert_eq!(lines[3], "│ -a │              │");
}

#[test]
fn cached_table_replaces_the_older_one() {
    let mut store = init_schema();
    assert_eq!(get_cached(&store, "ls"), None);
    cache_at(&mut store, "ls", "old table", "t1");
    cache_at(&mut store, "cat", "cat table", "t2");
    cache_at(&mut store, "ls", "new table", "t3");
    assert_eq!(store.manopt_cache.len(), 2);
    assert_eq!(get_cached(&store, "ls").as_deref(), Some("new table"));
    assert_eq!(get_cached(&store, "cat").as_deref(), Some("cat table"));
    let table = run_and_cache(&mut store, "ls", LS_PAGE).unwrap();
    assert_eq!(get_cached(&store, "ls"), Some(table));
    assert_eq!(run_and_cache(&mut store, "cat", "nothing"), None);
    assert_eq!(get_cached(&store, "cat").as_deref(), Some("cat table"));
}
