use mod_manager::canonical::framed_document;
use mod_manager::decimal::{decimal, signed_decimal};
use mod_manager::layout::{
    archive_kind, check_finalize, extraction_dir_name, new_extraction_dir_name, new_staging_dir_name,
    staging_dir_name, with_declaration, ArchiveKind, ManagerError,
};
use mod_manager::names::{names_match, texts_equal};

#[test]
fn zip_and_rar_are_recognised_in_any_case() {
    assert_eq!(archive_kind("zip"), Ok(ArchiveKind::Zip));
    assert_eq!(archive_kind("ZiP"), Ok(ArchiveKind::Zip));
    assert_eq!(archive_kind("RAR"), Ok(ArchiveKind::Rar));
}

#[test]
fn other_extensions_are_unsupported() {
    assert_eq!(archive_kind("7z"), Err(ManagerError::UnsupportedFormat));
    assert_eq!(archive_kind(""), Err(ManagerError::UnsupportedFormat));
    assert_eq!(archive_kind("zipx"), Err(ManagerError::UnsupportedFormat));
}

#[test]
fn finalize_needs_the_temp_folder() {
    assert_eq!(check_finalize(false, "New", &vec![]), Err(ManagerError::TempFolderMissing));
}

#[test]
fn finalize_refuses_taken_name() {
    let siblings = vec!["Existing".to_string(), "temp_extract_1".to_string()];
    assert_eq!(check_finalize(true, "existing", &siblings), Err(ManagerError::AlreadyExists));
}

#[test]
fn finalize_accepts_free_name() {
    let siblings = vec!["Existing".to_string()];
    assert_eq!(check_finalize(true, "Fresh", &siblings), Ok(()));
}

#[test]
fn temp_dir_names_carry_the_time() {
    assert_eq!(extraction_dir_name(1700000000123), "temp_extract_1700000000123");
    assert_eq!(staging_dir_name(0), "temp_staging_0");
    assert_eq!(extraction_dir_name(-1500), "temp_extract_-1500");
    let fresh = new_extraction_dir_name();
    let millis: u64 = fresh.strip_prefix("temp_extract_").unwrap().parse().unwrap();
    assert!(millis > 1_600_000_000_000);
    let staged = new_staging_dir_name();
    let millis: u64 = staged.strip_prefix("temp_staging_").unwrap().parse().unwrap();
    assert!(millis > 1_600_000_000_000);
}

#[test]
fn decimal_text() {
    assert_eq!(decimal(0), "0");
    assert_eq!(decimal(7), "7");
    assert_eq!(decimal(10), "10");
    assert_eq!(decimal(u64::MAX), "18446744073709551615");
}

#[test]
fn names_compare_without_ascii_case() {
    assert!(names_match("MyMod", "mymod"));
    assert!(!names_match("MyMod", "MyMod2"));
    assert!(!names_match("a", "b"));
    assert!(texts_equal("Name", "Name"));
    assert!(!texts_equal("Name", "name"));
}

#[test]
fn declaration_comes_first() {
    assert_eq!(with_declaration("<Data />"), "<?xml version=\"1.0\" encoding=\"utf-8\"?>\n<Data />");
}

#[test]
fn signed_decimal_text() {
    assert_eq!(signed_decimal(0), "0");
    assert_eq!(signed_decimal(-7), "-7");
    assert_eq!(signed_decimal(42), "42");
    assert_eq!(signed_decimal(i64::MIN), "-9223372036854775808");
    assert_eq!(signed_decimal(i64::MAX), "9223372036854775807");
}

#[test]
fn framing_puts_declaration_first() {
    assert_eq!(
        framed_document(Some("<Data/>".to_string())),
        Ok("<?xml version=\"1.0\" encoding=\"utf-8\"?>\n<Data/>".to_string())
    );
    assert_eq!(framed_document(None), Err(ManagerError::SerializeFailure));
}
