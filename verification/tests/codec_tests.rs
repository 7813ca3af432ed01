use vocab::codec::{encode_record, read_records, write_records};
use vocab::numeric::{fmt_u32, parse_counter};
use vocab::{Translation, VocabStoreError};

const HEADER: &str =
    "local,foreign,guesses_local_total,guesses_local_correct,guesses_foreign_total,guesses_foreign_correct";

#[test]
fn test_fmt_u32_exact() {
    assert_eq!(fmt_u32(0), "0");
    assert_eq!(fmt_u32(7), "7");
    assert_eq!(fmt_u32(1234567890), "1234567890");
    assert_eq!(fmt_u32(u32::MAX), "4294967295");
}

#[test]
fn test_parse_counter_exact() {
    assert_eq!(parse_counter("123", 0, 3), Some(123));
    assert_eq!(parse_counter("4294967295", 0, 10), Some(u32::MAX));
    assert_eq!(parse_counter("4294967296", 0, 10), None);
    assert_eq!(parse_counter("", 0, 0), None);
    assert_eq!(parse_counter("12a", 0, 3), None);
    assert_eq!(parse_counter("007", 0, 3), Some(7));
}

#[test]
fn test_encode_record_exact_line() {
    let mut t = Translation::new("yes", "はい");
    t.guesses_local_total = 2;
    t.guesses_local_correct = 1;
    let line = encode_record(&t).unwrap();
    assert_eq!(line, "yes,はい,2,1,0,0");
}

#[test]
fn test_encode_record_refuses_reserved_characters() {
    assert!(encode_record(&Translation::new("a,b", "c")).is_none());
    assert!(encode_record(&Translation::new("a", "c\nd")).is_none());
    assert!(encode_record(&Translation::new("a\"b", "c")).is_none());
    assert!(write_records(&vec![Translation::new("a,b", "c")]).is_none());
}

#[test]
fn test_write_records_exact_document() {
    let mut t = Translation::new("yes", "はい");
    t.guesses_foreign_total = 3;
    t.guesses_foreign_correct = 2;
    let document = write_records(&vec![t]).unwrap();
    assert_eq!(document, format!("{}\nyes,はい,0,0,3,2\n", HEADER));
}

#[test]
fn test_write_records_empty() {
    let document = write_records(&vec![]).unwrap();
    assert_eq!(document, format!("{}\n", HEADER));
    assert_eq!(read_records(&document).unwrap().len(), 0);
}

#[test]
fn test_read_records_empty_input() {
    assert_eq!(read_records("").unwrap().len(), 0);
}

#[test]
fn test_round_trip() {
    let mut a = Translation::new("yes", "はい");
    a.guesses_local_total = 5;
    a.guesses_local_correct = 4;
    let mut b = Translation::new("no", "いいえ");
    b.guesses_foreign_total = 7;
    b.guesses_foreign_correct = 2;
    let c = Translation::new("japan", "日本");
    let document = write_records(&vec![a, b, c]).unwrap();
    let back = read_records(&document).unwrap();
    assert_eq!(back.len(), 3);
    assert_eq!(back[0].local, "yes");
    assert_eq!(back[0].foreign, "はい");
    assert_eq!(back[0].guesses_local_total, 5);
    assert_eq!(back[0].guesses_local_correct, 4);
    assert_eq!(back[1].local, "no");
    assert_eq!(back[1].guesses_foreign_total, 7);
    assert_eq!(back[1].guesses_foreign_correct, 2);
    assert_eq!(back[2].local, "japan");
    assert_eq!(back[2].foreign, "日本");
}

#[test]
fn test_read_skips_blank_lines() {
    let document = format!("{}\n\nyes,はい,0,0,0,0\n\n", HEADER);
    let back = read_records(&document).unwrap();
    assert_eq!(back.len(), 1);
    assert_eq!(back[0].local, "yes");
}

#[test]
fn test_read_malformed_rows() {
    let five_columns = format!("{}\nyes,はい,0,0,0\n", HEADER);
    assert_eq!(
        read_records(&five_columns),
        Err(VocabStoreError::MalformedRecord)
    );
    let seven_columns = format!("{}\nyes,はい,0,0,0,0,0\n", HEADER);
    assert_eq!(
        read_records(&seven_columns),
        Err(VocabStoreError::MalformedRecord)
    );
    let bad_counter = format!("{}\nyes,はい,zero,0,0,0\n", HEADER);
    assert_eq!(
        read_records(&bad_counter),
        Err(VocabStoreError::MalformedRecord)
    );
    let oversized = format!("{}\nyes,はい,4294967296,0,0,0\n", HEADER);
    assert_eq!(
        read_records(&oversized),
        Err(VocabStoreError::MalformedRecord)
    );
}

#[test]
fn test_csv_crate_reads_written_document() {
    let mut t = Translation::new("yes", "はい");
    t.guesses_local_total = 9;
    let document = write_records(&vec![t]).unwrap();

    let mut reader = csv::Reader::from_reader(document.as_bytes());
    let headers = reader.headers().unwrap().clone();
    assert_eq!(&headers[0], "local");
    assert_eq!(&headers[5], "guesses_foreign_correct");
    let rows: Vec<csv::StringRecord> = reader.records().map(|r| r.unwrap()).collect();
    assert_eq!(rows.len(), 1);
    assert_eq!(&rows[0][0], "yes");
    assert_eq!(&rows[0][1], "はい");
    assert_eq!(&rows[0][2], "9");
    assert_eq!(&rows[0][3], "0");
}

#[test]
fn test_reads_csv_crate_output() {
    let mut writer = csv::Writer::from_writer(vec![]);
    writer
        .write_record(&[
            "local",
            "foreign",
            "guesses_local_total",
            "guesses_local_correct",
            "guesses_foreign_total",
            "guesses_foreign_correct",
        ])
        .unwrap();
    writer
        .write_record(&["yes", "はい", "3", "1", "2", "2"])
        .unwrap();
    let document = String::from_utf8(writer.into_inner().unwrap()).unwrap();

    let back = read_records(&document).unwrap();
    assert_eq!(back.len(), 1);
    assert_eq!(back[0].local, "yes");
    assert_eq!(back[0].foreign, "はい");
    assert_eq!(back[0].guesses_local_total, 3);
    assert_eq!(back[0].guesses_local_correct, 1);
    assert_eq!(back[0].guesses_foreign_total, 2);
    assert_eq!(back[0].guesses_foreign_correct, 2);
}
