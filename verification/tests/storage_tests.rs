use socrates::event::Event;
use socrates::error::Error;
use socrates::file_system_storage::{
    decode_file_name, find_stem_problem, parse_u32, EventKind, FileSystemStorage, StemProblem,
    StoredFileName,
};

#[test]
fn event_file_path_joins_folder_id_source_and_extension() {
    let storage = FileSystemStorage::new("dms\\sink".to_string());
    assert_eq!(storage.path(), "dms\\sink");
    let text = Event::Text("create_folder".to_string(), "{}".to_string());
    assert_eq!(storage.event_file_path(12, &text), "dms\\sink\\12_create_folder.txt");
    let binary = Event::Binary("blob".to_string(), vec![1, 2]);
    assert_eq!(storage.event_file_path(0, &binary), "dms\\sink\\0_blob.bin");
    assert_eq!(storage.event_file_path(u32::MAX, &binary), "dms\\sink\\4294967295_blob.bin");
}

#[test]
fn file_names_decode() {
    assert_eq!(
        decode_file_name("12_create_folder", "txt"),
        Ok(StoredFileName { id: 12, source: "create_folder".to_string(), kind: EventKind::Text })
    );
    assert_eq!(
        decode_file_name("7_blob", "bin"),
        Ok(StoredFileName { id: 7, source: "blob".to_string(), kind: EventKind::Binary })
    );
    assert_eq!(
        decode_file_name("+3_", "txt"),
        Ok(StoredFileName { id: 3, source: "".to_string(), kind: EventKind::Text })
    );
    assert_eq!(decode_file_name("1_a", "json"), Err(Error::new("Invalid file extension")));
}

#[test]
fn unreadable_stems_are_told_apart() {
    assert_eq!(find_stem_problem("12_create"), None);
    assert_eq!(find_stem_problem("12create"), Some(StemProblem::MissingSeparator));
    assert_eq!(find_stem_problem("notes"), Some(StemProblem::MissingSeparator));
    assert_eq!(find_stem_problem("x1_create"), Some(StemProblem::InvalidId));
    assert_eq!(find_stem_problem("_create"), Some(StemProblem::InvalidId));
    assert_eq!(find_stem_problem("99999999999_a"), Some(StemProblem::InvalidId));
}

#[test]
fn written_file_names_decode_to_the_event() {
    for (id, source) in [(0u32, "a_b"), (10, "x"), (4294967295, "")] {
        let stem = format!("{}_{}", id, source);
        assert_eq!(find_stem_problem(&stem), None);
        assert_eq!(
            decode_file_name(&stem, "bin"),
            Ok(StoredFileName { id, source: source.to_string(), kind: EventKind::Binary })
        );
    }
}

#[test]
fn parse_u32_matches_std() {
    for s in ["0", "007", "+5", "4294967295", "4294967296", "", "+", "-1", " 1", "1 ", "12a", "99999999999999999999"] {
        assert_eq!(parse_u32(s), s.parse::<u32>().ok(), "{}", s);
    }
}

#[test]
fn content_bytes_are_what_is_written() {
    let text = Event::Text("s".to_string(), "héllo".to_string());
    assert_eq!(text.content_bytes(), "héllo".as_bytes());
    let binary = Event::Binary("s".to_string(), vec![0, 255]);
    assert_eq!(binary.content_bytes(), &[0u8, 255][..]);
}
