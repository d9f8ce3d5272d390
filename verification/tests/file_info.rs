use fwob::cli::file_info::{
    data_bytes, display_cells, display_path, display_text, info_object, json_line, parse_targets,
    shown_path, write_csv, write_markdown, write_table, FileInfo, InfoFormat,
};
use fwob::formatting::rows::csv_field;
use fwob::FormatVersion;

fn info(path: &str, title: &str) -> FileInfo {
    FileInfo {
        display_path: path.to_owned(),
        format: FormatVersion::V1,
        title: title.to_owned(),
        frame_type: "Tick".to_owned(),
        key_field_index: 0,
        field_count: 3,
        frame_length: 16,
        frame_count: 3000,
        first_key: Some("0".to_owned()),
        last_key: None,
        data_bytes: 48_000,
        physical_ratio: Some("1.5000".to_owned()),
    }
}

#[test]
fn parses_default_and_explicit_formats() {
    let (paths, format) = parse_targets(&[]).unwrap();
    assert_eq!(paths, ["."]);
    assert_eq!(format, InfoFormat::Table);

    let (paths, format) = parse_targets(&["data".into(), "csv".into()]).unwrap();
    assert_eq!(paths, ["data"]);
    assert_eq!(format, InfoFormat::Csv);
}

#[test]
fn csv_quotes_structural_characters() {
    assert_eq!(csv_field("plain"), "plain");
    assert_eq!(csv_field("a,b"), "\"a,b\"");
    assert_eq!(csv_field("a\"b"), "\"a\"\"b\"");
}

#[test]
fn one_format_word_is_enough() {
    assert_eq!(
        parse_targets(&["md".into(), "csv".into()]).unwrap_err(),
        "info accepts at most one output format token"
    );
    assert_eq!(InfoFormat::parse("table"), Some(InfoFormat::Table));
    assert_eq!(InfoFormat::parse("md"), Some(InfoFormat::Markdown));
    assert_eq!(InfoFormat::parse("jsonl"), Some(InfoFormat::JsonLines));
    assert_eq!(InfoFormat::parse("CSV"), None);
}

#[test]
fn cells_group_numbers_only_for_display() {
    let cells = display_cells(&info("a.fwob", "x\ty"), true);
    assert_eq!(
        cells,
        [
            "a.fwob", "fwob-v1", "x y", "Tick", "0", "3", "16", "3,000", "0", "-", "48,000",
            "1.5000"
        ]
    );
    assert_eq!(display_cells(&info("a", "b"), false)[7], "3000");
    assert_eq!(display_text("a\r\nb\tc"), "a  b c");
}

#[test]
fn tables_count_columns_on_the_screen() {
    let table = write_table(&[info("a.fwob", "日本"), info("bb.fwob", "x")]);
    let lines: Vec<&str> = table.lines().collect();
    assert_eq!(lines.len(), 3);
    assert!(lines[0].starts_with("file     format   title  frame_type"));
    assert!(lines[1].starts_with("a.fwob   fwob-v1  日本   Tick"));
    assert!(lines[2].starts_with("bb.fwob  fwob-v1  x      Tick"));
    assert!(lines[1].ends_with("        0         -      48,000          1.5000"));
    assert_eq!(lines[0].chars().count(), lines[2].chars().count());
    assert_eq!(lines[0].chars().count(), lines[1].chars().count() + 2);
}

#[test]
fn markdown_and_csv_summaries() {
    let rows = [info("a|b", "x,y")];
    assert_eq!(
        write_markdown(&rows),
        "| file | format | title | frame_type | key_field_index | field_count | frame_length | \
         frame_count | first_key | last_key | data_bytes | physical_ratio |\n\
         | --- | --- | --- | --- | ---: | ---: | ---: | ---: | ---: | ---: | ---: | ---: |\n\
         | a\\|b | fwob-v1 | x,y | Tick | 0 | 3 | 16 | 3,000 | 0 | - | 48,000 | 1.5000 |\n"
    );
    assert_eq!(
        write_csv(&rows),
        "file,format,title,frame_type,key_field_index,field_count,frame_length,frame_count,\
         first_key,last_key,data_bytes,physical_ratio\n\
         a|b,fwob-v1,\"x,y\",Tick,0,3,16,3000,0,-,48000,1.5000\n"
    );
    assert_eq!(write_csv(&[]).lines().count(), 1);
}

#[test]
fn json_lines_hold_every_field() {
    let line = json_line(&info("a\"b", "t"), serde_json::Value::from(1.5));
    assert_eq!(
        line,
        "{\"data_bytes\":48000,\"field_count\":3,\"file\":\"a\\\"b\",\"first_key\":\"0\",\
         \"format\":\"fwob-v1\",\"frame_count\":3000,\"frame_length\":16,\"frame_type\":\"Tick\",\
         \"key_field_index\":0,\"last_key\":null,\"physical_ratio\":1.5,\"title\":\"t\"}\n"
    );
    let object = info_object(&info("a", "t"), serde_json::Value::Null);
    assert_eq!(object.len(), 12);
    assert_eq!(object["frame_count"], serde_json::Value::from(3000));
    assert!(object["physical_ratio"].is_null());
}

#[test]
fn paths_are_shown_from_the_current_directory() {
    assert_eq!(display_path("/data/x/a.fwob", "/data/x"), "a.fwob");
    assert_eq!(display_path("/data/x", "/data/x"), "");
    assert_eq!(display_path("/data/y/a.fwob", "/data/x"), "../y/a.fwob");
    assert_eq!(display_path("/data/x/archive/ticks.fwob", "/data/x"), "archive/ticks.fwob");
    assert_eq!(display_path("/home/a.fwob", "/data/x/y"), "../../../home/a.fwob");
    assert_eq!(display_path("/data", "/data/x/y"), "../..");
    assert_eq!(display_path("/data/a.fwob", "/"), "data/a.fwob");
    assert_eq!(display_path("/", "/data"), "..");
    assert_eq!(display_path("old/a.fwob", "new/b"), "../../old/a.fwob");
    assert_eq!(display_path("/data/a.fwob", "data"), "/data/a.fwob");
    assert_eq!(shown_path("/data/a", None), "/data/a");
    assert_eq!(shown_path("/data/a", Some("a".to_owned())), "a");
}

#[test]
fn shown_paths_lead_to_their_files() {
    for (path, current_dir) in [
        ("/data/y/a.fwob", "/data/x"),
        ("/data/x/archive/ticks.fwob", "/data/x"),
        ("/home/a.fwob", "/data/x/y"),
        ("/data", "/data/x/y"),
    ] {
        let mut place: Vec<String> = current_dir.split('/').map(str::to_owned).collect();
        for step in display_path(path, current_dir).split('/') {
            if step == ".." {
                place.pop();
            } else {
                place.push(step.to_owned());
            }
        }
        assert_eq!(place.join("/"), path);
    }
}

#[test]
fn data_bytes_do_not_overflow() {
    assert_eq!(data_bytes(3, 16), Ok(48));
    assert_eq!(
        data_bytes(u64::MAX, 2).unwrap_err(),
        "raw data byte count overflows u64"
    );
}
