use rustohebru::files::{detect_file_type, sheet_from_records, sheet_rows, ExcelCell, ExcelSheet, FileType};
use rustohebru::metadata::{DocumentMetadata, DocumentType, ReviewStatus, SecurityLevel};

#[test]
fn file_types_follow_the_extension() {
    assert_eq!(detect_file_type("docs/spec.pdf"), FileType::PDF);
    assert_eq!(detect_file_type("a.b/report.docx"), FileType::DOCX);
    assert_eq!(detect_file_type("notes.txt"), FileType::TXT);
    assert_eq!(detect_file_type("book.xls"), FileType::XLSX);
    assert_eq!(detect_file_type("book.xlsx"), FileType::XLSX);
    assert_eq!(detect_file_type("table.csv"), FileType::CSV);
    assert_eq!(detect_file_type("dir/table.csv/"), FileType::CSV);
    assert_eq!(detect_file_type("SPEC.PDF"), FileType::Unknown);
    assert_eq!(detect_file_type(".pdf"), FileType::Unknown);
    assert_eq!(detect_file_type("archive.tar.gz"), FileType::Unknown);
    assert_eq!(detect_file_type("noext"), FileType::Unknown);
}

#[test]
fn csv_records_become_row_major_cells() {
    let records = vec![
        vec!["מונח".to_string(), "термин".to_string()],
        vec!["ברז".to_string(), "кран".to_string()],
    ];
    let sheet = sheet_from_records(&records);
    assert_eq!(sheet.name, "Sheet1");
    assert_eq!(sheet.cells.len(), 4);
    assert_eq!(sheet.cells[2].value, "ברז");
    assert_eq!((sheet.cells[3].row, sheet.cells[3].col), (1, 1));
    assert!(sheet.cells.iter().all(|c| !c.is_formula));
    assert!(sheet_from_records(&vec![]).cells.is_empty());
}

#[test]
fn new_metadata_defaults() {
    let m = DocumentMetadata::new_at("מפרט".to_string(), "dana".to_string(), DocumentType::Technical, 42);
    assert_eq!(m.version, "1.0.0");
    assert_eq!(m.source_language, "he");
    assert_eq!(m.target_language, "ru");
    assert_eq!(m.created_date, 42);
    assert_eq!(m.security_level, SecurityLevel::Internal);
    assert_eq!(m.review_status, ReviewStatus::Draft);
    assert_eq!(m.document_type, DocumentType::Technical);
}

#[test]
fn standards_and_tags_are_kept_once() {
    let mut m = DocumentMetadata::new_at("t".to_string(), "a".to_string(), DocumentType::Other("x".to_string()), 0);
    m.add_standard_at("NFPA 13".to_string(), 5);
    m.add_standard_at("NFPA 13".to_string(), 9);
    m.add_tag_at("כיבוי".to_string(), 6);
    m.add_tag_at("כיבוי".to_string(), 10);
    assert_eq!(m.standards, vec!["NFPA 13"]);
    assert_eq!(m.tags, vec!["כיבוי"]);
    assert_eq!(m.modified_date, 6);
    m.set_custom_property_at("k".to_string(), "1".to_string(), 11);
    m.set_custom_property_at("k".to_string(), "2".to_string(), 12);
    assert_eq!(m.custom_properties, vec![("k".to_string(), "2".to_string())]);
    assert_eq!(m.modified_date, 12);
}

#[test]
fn version_increments_its_third_number() {
    let mut m = DocumentMetadata::new_at("t".to_string(), "a".to_string(), DocumentType::Manual, 0);
    m.increment_version_at(7);
    assert_eq!(m.version, "1.0.1");
    assert_eq!(m.modified_date, 7);
    m.version = "2.x.9.10".to_string();
    m.increment_version_at(8);
    assert_eq!(m.version, "2.9.11");
    m.version = "1.2".to_string();
    m.increment_version_at(9);
    assert_eq!(m.version, "1.2");
    assert_eq!(m.modified_date, 8);
    m.version = "+1.02.4294967295".to_string();
    m.increment_version_at(10);
    assert_eq!(m.version, "+1.02.4294967295");
    m.version = "+1.02.3".to_string();
    m.increment_version_at(11);
    assert_eq!(m.version, "1.2.4");
}

fn cell(value: &str, row: u32, col: u32) -> ExcelCell {
    ExcelCell { value: value.to_string(), row, col, is_formula: false }
}

#[test]
fn csv_rows_group_by_row_and_order_by_column() {
    let sheet = ExcelSheet {
        name: "s".to_string(),
        cells: vec![cell("c", 2, 1), cell("a", 0, 1), cell("b", 0, 0), cell("d", 2, 0), cell("e", 2, 1)],
    };
    assert_eq!(sheet_rows(&sheet), vec![vec!["b", "a"], vec!["d", "c", "e"]]);
    let empty = ExcelSheet { name: "s".to_string(), cells: vec![] };
    assert!(sheet_rows(&empty).is_empty());
    let records = vec![vec!["1".to_string(), "2".to_string()], vec!["3".to_string()]];
    let round = sheet_rows(&sheet_from_records(&records));
    assert_eq!(round, records);
}
