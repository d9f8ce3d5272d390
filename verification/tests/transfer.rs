use fwob::cli::transfer::{
    check_appendable, check_inputs, ensure_distinct_inputs, ensure_distinct_paths, failure_report,
    frames_in, plan_destination, progress_text, worker_count, Destination, FrameStream, PathKind,
    Progress,
};
use fwob::schema::{Field, FieldSemantic, FieldType, Schema};
use fwob::FormatVersion;

fn schema(semantic: FieldSemantic) -> Schema {
    Schema::new(
        "Tick",
        vec![Field::new("time", FieldType::SignedInteger, 4, 0).with_semantic(semantic)],
        0,
    )
    .unwrap()
}

#[test]
fn destinations_follow_input_and_output() {
    for (input, output, has_extension, destination) in [
        (PathKind::File, PathKind::File, true, Destination::Output),
        (PathKind::File, PathKind::File, false, Destination::Output),
        (PathKind::File, PathKind::Missing, true, Destination::Output),
        (PathKind::File, PathKind::Missing, false, Destination::IntoDirectory),
        (PathKind::File, PathKind::Directory, true, Destination::IntoDirectory),
        (PathKind::Directory, PathKind::Missing, true, Destination::AllIntoDirectory),
        (PathKind::Directory, PathKind::Directory, false, Destination::AllIntoDirectory),
    ] {
        assert_eq!(
            plan_destination(input, output, has_extension).unwrap(),
            destination
        );
    }
    assert_eq!(
        plan_destination(PathKind::Directory, PathKind::File, true).unwrap_err(),
        "a directory input requires a directory output"
    );
    assert_eq!(
        plan_destination(PathKind::Other, PathKind::Missing, true).unwrap_err(),
        "conversion input must be a regular file or directory"
    );
}

#[test]
fn inputs_are_checked() {
    assert!(check_inputs(1).is_ok());
    assert_eq!(
        check_inputs(0).unwrap_err(),
        "input directory contains no immediate *.fwob files"
    );
    assert!(ensure_distinct_paths("2f61", "2f62", "/a").is_ok());
    assert_eq!(
        ensure_distinct_paths("2f61", "2f61", "/a").unwrap_err(),
        "conversion input and output must be different: /a"
    );
}

#[test]
fn files_are_not_appended_to_themselves() {
    let path = |value: &str| Some(value.to_owned());
    assert!(ensure_distinct_inputs(path("/a"), &[path("/b"), None]).is_ok());
    assert!(ensure_distinct_inputs(None, &[path("/b"), None]).is_ok());
    assert_eq!(
        ensure_distinct_inputs(path("/a"), &[path("/b"), path("/a")]).unwrap_err(),
        "target and input must be different files"
    );
}

#[test]
fn streams_go_on_where_they_stopped() {
    let stream = FrameStream::start(5, 16);
    assert_eq!(stream.next_frame(), Some(0));
    let stream = stream.received(48).unwrap();
    assert_eq!(stream.next_frame(), Some(3));
    assert!(stream.received(0).is_none());
    let stream = stream.received(32).unwrap();
    assert_eq!(stream.next_frame(), None);
    assert_eq!(stream.read_frames, 5);
}

#[test]
fn workers_do_not_outnumber_jobs() {
    assert_eq!(worker_count(None, 8, 3), 3);
    assert_eq!(worker_count(Some(2), 8, 3), 2);
    assert_eq!(worker_count(None, 8, 0), 1);
}

#[test]
fn failures_are_reported_in_the_order_of_the_jobs() {
    assert_eq!(failure_report(&[None, None]), None);
    assert_eq!(
        failure_report(&[Some("first".to_owned()), None, Some("third".to_owned())]).unwrap(),
        "2 conversion job(s) failed:\n  first\n  third"
    );
}

#[test]
fn progress_is_reported_at_every_step_and_at_the_end() {
    let mut progress = Progress::start(12_000_000);
    assert!(!progress.is_due(4_999_999));
    assert!(progress.is_due(5_000_000));
    assert!(!progress.is_due(9_000_000));
    assert!(progress.is_due(11_000_000));
    assert!(!progress.is_due(11_500_000));
    assert!(progress.is_due(12_000_000));
    assert_eq!(
        progress_text("a.fwob", 5_000_000, 12_000_000, "41.7", "0.5"),
        "converted a.fwob: 5,000,000/12,000,000 frames (41.7%) in 0.5s"
    );
    assert_eq!(frames_in(160, 16), 10);
}

#[test]
fn appended_files_fit_their_target() {
    let fixed = FieldSemantic::FixedPoint(2);
    let plain = FieldSemantic::Plain;
    let strings = vec!["MSFT".to_owned()];
    let check = |target, target_semantic, input, input_semantic, input_strings: &[String]| {
        check_appendable(
            target,
            &schema(target_semantic),
            &strings,
            input,
            &schema(input_semantic),
            input_strings,
        )
    };
    let (v1, v2) = (FormatVersion::V1, FormatVersion::V2);
    assert!(check(v2, fixed, v2, fixed, &strings).is_ok());
    assert!(check(v2, fixed, v1, plain, &strings).is_ok());
    assert!(check(v1, plain, v2, fixed, &strings).is_ok());
    assert_eq!(
        check(v2, fixed, v2, plain, &strings).unwrap_err(),
        "input schema does not match target schema"
    );
    assert_eq!(
        check(v2, fixed, v1, plain, &[]).unwrap_err(),
        "input string table does not match target string table"
    );
}
