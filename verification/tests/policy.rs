use ksud::patch::{
    apply, apply_from_file, file_statements, holds_statement, inline_statements, ApplyReport, PatchAction, PatchRun,
    Verdict,
};
use ksud::sepolicy::{check, check_name, read_keyword, Keyword, PolicyError};

fn lines(texts: &[&str]) -> Vec<Vec<u8>> {
    texts.iter().map(|t| t.as_bytes().to_vec()).collect()
}

#[test]
fn check_reads_a_rule_with_one_permission() {
    let s = check(b"allow untrusted_app system_file file read").unwrap();
    assert_eq!(s.keyword, Keyword::Allow);
    assert_eq!(s.subjects, lines(&["untrusted_app", "system_file", "file"]));
    assert_eq!(s.members, lines(&["read"]));
}

#[test]
fn check_reads_a_rule_with_a_braced_set() {
    let s = check(b"  dontaudit su   kernel\tprocess { fork  sigchld } ").unwrap();
    assert_eq!(s.keyword, Keyword::DontAudit);
    assert_eq!(s.subjects, lines(&["su", "kernel", "process"]));
    assert_eq!(s.members, lines(&["fork", "sigchld"]));
}

#[test]
fn check_reads_every_keyword() {
    assert_eq!(check(b"deny a b c d").unwrap().keyword, Keyword::Deny);
    assert_eq!(check(b"auditallow a b c d").unwrap().keyword, Keyword::AuditAllow);
    assert_eq!(check(b"permissive su").unwrap().keyword, Keyword::Permissive);
    assert_eq!(check(b"enforce su").unwrap().keyword, Keyword::Enforce);
    assert_eq!(check(b"attribute mlstrustedsubject").unwrap().keyword, Keyword::Attribute);
    let t = check(b"type ksu_file file_type mlstrustedobject").unwrap();
    assert_eq!(t.keyword, Keyword::Type);
    assert_eq!(t.subjects, lines(&["ksu_file"]));
    assert_eq!(t.members, lines(&["file_type", "mlstrustedobject"]));
    let ta = check(b"typeattribute su domain").unwrap();
    assert_eq!(ta.keyword, Keyword::TypeAttribute);
    assert_eq!(ta.members, lines(&["domain"]));
}

#[test]
fn check_leaves_single_name_statements_without_members() {
    let s = check(b"permissive su").unwrap();
    assert_eq!(s.subjects, lines(&["su"]));
    assert!(s.members.is_empty());
}

#[test]
fn check_refuses_malformed_statements() {
    let bad: [&[u8]; 14] = [
        b"",
        b"   ",
        b"grant a b c d",
        b"Allow a b c d",
        b"allow a b c",
        b"allow a b c { }",
        b"allow a b c { read",
        b"allow a b c read write",
        b"allow a-b c d e",
        b"allow a b c {read}",
        b"type ksu_file",
        b"permissive",
        b"permissive a b",
        b"attribute a.b",
    ];
    for text in bad {
        assert_eq!(check(text).unwrap_err(), PolicyError::ParseError { index: 0 });
    }
}

#[test]
fn keywords_are_case_sensitive() {
    assert_eq!(read_keyword(b"allow"), Some(Keyword::Allow));
    assert_eq!(read_keyword(b"ALLOW"), None);
    assert_eq!(read_keyword(b"allowed"), None);
    assert_eq!(read_keyword(b"typeattribute"), Some(Keyword::TypeAttribute));
}

#[test]
fn names_are_letters_digits_and_underscores() {
    assert!(check_name(b"untrusted_app_29"));
    assert!(!check_name(b""));
    assert!(!check_name(b"a b"));
    assert!(!check_name(b"{"));
    assert!(!check_name(b"a:b"));
}

#[test]
fn a_file_gives_its_statement_lines() {
    let text = b"# header\n\nallow a b c d\n   \n  # indented comment\npermissive su\nbroken line\n";
    assert_eq!(
        file_statements(text),
        lines(&["allow a b c d", "permissive su", "broken line"])
    );
    assert!(file_statements(b"").is_empty());
    assert!(file_statements(b"\n\n# only comments\n").is_empty());
}

#[test]
fn a_semicolon_separates_inline_statements() {
    assert_eq!(
        inline_statements(b"allow a b c d; permissive su;;\nenforce x"),
        lines(&["allow a b c d", " permissive su", "enforce x"])
    );
    assert_eq!(file_statements(b"allow a b c d; permissive su"), lines(&["allow a b c d; permissive su"]));
}

#[test]
fn blank_and_comment_lines_hold_no_statement() {
    assert!(holds_statement(b"allow a b c d"));
    assert!(holds_statement(b"nonsense"));
    assert!(!holds_statement(b""));
    assert!(!holds_statement(b" \t "));
    assert!(!holds_statement(b"#allow a b c d"));
    assert!(!holds_statement(b"   # note"));
}

#[test]
fn apply_stops_at_the_first_malformed_statement() {
    let patch = lines(&["allow a b c d", "permissive su", "allow a b", "enforce su"]);
    let verdicts = vec![Verdict::Applied; 4];
    let report = apply(&patch, true, &verdicts);
    assert_eq!(
        report,
        ApplyReport { applied: 2, first_error: Some(PolicyError::ParseError { index: 2 }) }
    );
}

#[test]
fn apply_submits_nothing_behind_a_malformed_statement() {
    let patch = lines(&["bogus", "permissive su"]);
    let mut run = PatchRun::begin(true);
    match run.next(&patch) {
        PatchAction::Finish(report) => assert_eq!(
            report,
            ApplyReport { applied: 0, first_error: Some(PolicyError::ParseError { index: 0 }) }
        ),
        PatchAction::Submit(_) => panic!("a malformed statement was submitted"),
    }
    run.record(&patch, Verdict::Applied);
    assert!(matches!(run.next(&patch), PatchAction::Finish(_)));
    assert_eq!(run.cursor, 0);
}

#[test]
fn apply_goes_on_after_a_kernel_refusal() {
    let patch = lines(&["allow a b c d", "permissive su", "enforce su"]);
    let verdicts = vec![Verdict::Applied, Verdict::Rejected, Verdict::Applied];
    assert_eq!(
        apply(&patch, true, &verdicts),
        ApplyReport { applied: 2, first_error: Some(PolicyError::KernelPolicyError { index: 1 }) }
    );
}

#[test]
fn apply_keeps_the_first_error() {
    let patch = lines(&["allow a b c d", "permissive su", "enforce"]);
    let verdicts = vec![Verdict::Rejected, Verdict::Rejected, Verdict::Applied];
    assert_eq!(
        apply(&patch, true, &verdicts),
        ApplyReport { applied: 0, first_error: Some(PolicyError::KernelPolicyError { index: 0 }) }
    );
}

#[test]
fn apply_of_a_clean_patch_reports_no_error() {
    let patch = lines(&["allow a b c { d e }", "type t a", "attribute x"]);
    assert_eq!(
        apply(&patch, true, &vec![Verdict::Applied; 3]),
        ApplyReport { applied: 3, first_error: None }
    );
    assert_eq!(apply(&Vec::new(), true, &Vec::new()), ApplyReport { applied: 0, first_error: None });
}

#[test]
fn apply_on_a_kernel_without_live_patching() {
    let patch = lines(&["allow a b c d"]);
    assert_eq!(
        apply(&patch, false, &vec![Verdict::Applied]),
        ApplyReport { applied: 0, first_error: Some(PolicyError::NotSupported) }
    );
    let mut run = PatchRun::begin(false);
    assert!(matches!(run.next(&patch), PatchAction::Finish(_)));
}

#[test]
fn a_run_hands_out_the_statements_in_order() {
    let patch = lines(&["permissive a", "enforce b"]);
    let mut run = PatchRun::begin(true);
    let mut seen = Vec::new();
    let report = loop {
        match run.next(&patch) {
            PatchAction::Submit(s) => {
                seen.push((s.keyword, s.subjects.clone()));
                run.record(&patch, Verdict::Applied);
            }
            PatchAction::Finish(report) => break report,
        }
    };
    assert_eq!(
        seen,
        vec![(Keyword::Permissive, lines(&["a"])), (Keyword::Enforce, lines(&["b"]))]
    );
    assert_eq!(report, ApplyReport { applied: 2, first_error: None });
    let before = run;
    run.record(&patch, Verdict::Rejected);
    assert_eq!(run, before);
}

#[test]
fn a_patch_file_is_applied_line_by_line() {
    let content = b"# patch\nallow a b c d\n\npermissive su\nnot a statement\nenforce su\n";
    let verdicts = vec![Verdict::Applied; 4];
    assert_eq!(
        apply_from_file(content, true, &verdicts),
        ApplyReport { applied: 2, first_error: Some(PolicyError::ParseError { index: 2 }) }
    );
}
