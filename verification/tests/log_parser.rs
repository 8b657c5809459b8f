use eir_svc::signals::log_parser::{
    excerpt, extract_errors, extract_program, parse, rank_of_line, severity_rank,
    MAX_EXCERPT_CHARS, MAX_LINE_CHARS, MAX_SNIPPETS,
};

fn always_new(_: &str) -> bool {
    true
}

#[test]
fn lines_already_reported_are_neither_excerpted_nor_counted() {
    let seen = ["FATAL crash in renderer"];
    let unseen = |line: &str| !seen.contains(&line);
    let (snippets, severity) = extract_errors(
        "ok\nFATAL crash in renderer\nfine\nWARN retry failed\nend\n",
        &unseen,
    );
    assert_eq!(
        severity, "WARN",
        "the old FATAL line no longer raises the severity"
    );
    assert_eq!(snippets.len(), 1);
    assert!(snippets[0].contains("WARN retry failed"));

    let (snippets, severity) = extract_errors("FATAL crash in renderer\n", &unseen);
    assert!(snippets.is_empty());
    assert_eq!(severity, "INFO", "only repeats means nothing new to report");
}

#[test]
fn excerpt_lines_are_clipped() {
    let long = format!("ERROR {}", "x".repeat(10_000));
    let (snippets, _) = extract_errors(&long, &always_new);
    assert_eq!(snippets[0].chars().count(), MAX_LINE_CHARS);
    assert!(snippets[0].ends_with('…'));
}

#[test]
fn severity_ranks_order_fatal_over_error_over_warn() {
    assert!(severity_rank("FATAL") > severity_rank("ERROR"));
    assert!(severity_rank("ERROR") > severity_rank("WARN"));
    assert!(severity_rank("WARN") > severity_rank("INFO"));
}

#[test]
fn error_snippets_do_not_share_a_line() {
    let (snippets, severity) =
        extract_errors("a\nb\nERROR one\nc\nd\nERROR two\ne\nf\n", &always_new);
    assert_eq!(severity, "ERROR");
    assert!(
        snippets.iter().any(|s| s.contains("ERROR one")),
        "the first match must still be captured"
    );
    let mut seen: Vec<&str> = Vec::new();
    for line in snippets.iter().flat_map(|s| s.lines()) {
        assert!(!seen.contains(&line), "line {line:?} is in two snippets");
        seen.push(line);
    }
}

#[test]
fn a_log_is_parsed_whole() {
    let event = parse(
        r"C:\ProgramData\Acme\Logs\app.log",
        "start\nERROR broke\nend\n",
        always_new,
    );
    assert_eq!(event.severity, "ERROR");
    assert_eq!(event.error_snippets, ["start\nERROR broke\nend"]);
    assert_eq!(event.log_path, r"C:\ProgramData\Acme\Logs\app.log");
    assert_eq!(event.program, extract_program(r"C:\ProgramData\Acme\Logs\app.log"));
    assert!(event.content_excerpt.contains("ERROR broke"));
    assert_eq!(excerpt(" short \n"), "short");
    let long = excerpt(&"x".repeat(9_000));
    assert_eq!(
        long,
        format!("{}\n…[truncated]", "x".repeat(MAX_EXCERPT_CHARS))
    );
    let many = "ERROR e\n\n\n\n\n".repeat(20);
    assert_eq!(extract_errors(&many, &always_new).0.len(), MAX_SNIPPETS);
    assert!(rank_of_line("FATAL: out of memory") > rank_of_line("a warning"));
    assert_eq!(rank_of_line("all is well"), 0);
}
