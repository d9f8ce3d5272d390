use fwob::cli::discovery::{discover_files, has_fwob_extension, list_files};
use fwob::cli::output::{
    aligned_table, confirmation, confirmation_refusal, error_report, is_yes, log_line,
    Confirmation, LogKind,
};

fn texts(values: &[&str]) -> Vec<String> {
    values.iter().map(|value| value.to_string()).collect()
}

#[test]
fn log_lines_are_painted_on_terminals() {
    assert_eq!(log_line(false, LogKind::Info, "x"), "x");
    assert_eq!(log_line(true, LogKind::Info, "x"), "\x1b[38;2;139;148;158mx\x1b[0m");
    assert_eq!(log_line(true, LogKind::Warning, "x"), "\x1b[38;2;227;179;65mx\x1b[0m");
    assert_eq!(log_line(true, LogKind::Success, "x"), "\x1b[38;2;63;185;80mx\x1b[0m");
    assert_eq!(log_line(true, LogKind::Error, "x"), "\x1b[38;2;248;81;73mx\x1b[0m");
}

#[test]
fn errors_are_reported_with_their_causes() {
    assert_eq!(
        error_report(false, &texts(&["outer", "inner", "core"])),
        ["error: outer", "  caused by: inner", "  caused by: core"]
    );
    assert_eq!(
        error_report(true, &texts(&["outer"])),
        ["\x1b[38;2;248;81;73merror: outer\x1b[0m"]
    );
}

#[test]
fn destructive_work_needs_a_yes() {
    assert_eq!(confirmation(true, false), Confirmation::Proceed);
    assert_eq!(confirmation(false, true), Confirmation::Ask);
    assert_eq!(confirmation(false, false), Confirmation::Refuse);
    assert!(confirmation_refusal().ends_with("pass --yes to confirm"));
    for answer in ["y\n", " YES ", "Yes"] {
        assert!(is_yes(answer), "{answer}");
    }
    for answer in ["", "n", "yess", "ye s"] {
        assert!(!is_yes(answer), "{answer}");
    }
}

#[test]
fn tables_line_up() {
    assert_eq!(
        aligned_table(
            &texts(&["rank", "codec"]),
            &vec![texts(&["1", "zstd"]), texts(&["10,000", "uncompressed"])],
            &[true, false],
        ),
        "rank    codec       \n     1  zstd        \n10,000  uncompressed\n"
    );
    assert_eq!(aligned_table(&texts(&["a"]), &Vec::new(), &[true]), "a\n");
}

#[test]
fn only_fwob_files_are_found() {
    assert!(has_fwob_extension(Some("fwob")));
    assert!(has_fwob_extension(Some("FwOb")));
    assert!(!has_fwob_extension(Some("fwob2")));
    assert!(!has_fwob_extension(None));
}

#[test]
fn files_are_listed_once_without_regard_to_case() {
    let names = texts(&["b.fwob", "A.fwob", "./b.fwob", "\u{c9}.fwob", "c.FWOB"]);
    let identities = texts(&["/x/b.fwob", "/x/A.fwob", "/x/b.fwob", "/x/E.fwob", "/x/c.FWOB"]);
    assert_eq!(discover_files(&names, &identities), [1, 0, 4, 3]);
    assert_eq!(list_files(&names), [2, 1, 0, 4, 3]);
    assert_eq!(list_files(&texts(&["B", "b", "a"])), [2, 0, 1]);
}
