use shelfie::config::Config;
use shelfie::file_analyzer::{AnalyzedFile, FileContent};
use shelfie::providers::{LLMProvider, Provider};
use shelfie::scanner::file_name_of;
use shelfie::text::{i64_to_string, u64_to_string};

#[test]
fn decimal_rendering() {
    assert_eq!(u64_to_string(0), "0");
    assert_eq!(u64_to_string(7), "7");
    assert_eq!(u64_to_string(907), "907");
    assert_eq!(i64_to_string(-42), "-42");
    assert_eq!(i64_to_string(1000), "1000");
}

#[test]
fn file_names_come_from_the_last_component() {
    assert_eq!(file_name_of("/r/sub/file1.txt"), "file1.txt");
    assert_eq!(file_name_of("plain.md"), "plain.md");
    assert_eq!(file_name_of("/r/dir/"), "");
}

#[test]
fn analyzed_file_splits_stem_and_extension() {
    let analyzed = AnalyzedFile::from_scan("/r/test.txt", 13, b"Hello, world!", Ok(
        "Hello, world!".to_string(),
    ));
    assert_eq!(analyzed.name, "test");
    assert_eq!(analyzed.extension, Some("txt".to_string()));
    assert_eq!(analyzed.size, 13);
    assert_eq!(analyzed.path, "/r/test.txt");
    match analyzed.content {
        FileContent::Preview(ref content) => assert!(content.contains("Hello, world!")),
        FileContent::Unparsable(_) => panic!("preview should have been kept"),
    }
}

#[test]
fn analyzed_file_keeps_double_extensions_apart() {
    let analyzed = AnalyzedFile::from_scan(
        "/r/very_long_filename_with_multiple_parts_and_extensions.tar.gz",
        15,
        b"compressed data",
        Ok("compressed data".to_string()),
    );
    assert_eq!(analyzed.name, "very_long_filename_with_multiple_parts_and_extensions.tar");
    assert_eq!(analyzed.extension, Some("gz".to_string()));
}

#[test]
fn analyzed_file_marks_unreadable_content() {
    let analyzed =
        AnalyzedFile::from_scan("/r/broken.bin", 4, &[0, 1, 2, 3], Err("timed out".to_string()));
    match analyzed.content {
        FileContent::Unparsable(ref reason) => {
            assert_eq!(reason, "Failed to read file content: timed out");
        },
        FileContent::Preview(_) => panic!("there was no preview to keep"),
    }
}

#[test]
fn detected_type_comes_from_the_leading_bytes() {
    let png_header: Vec<u8> = vec![0x89, 0x50, 0x4E, 0x47, 0x0D, 0x0A, 0x1A, 0x0A];
    let analyzed = AnalyzedFile::from_scan("/r/12.png", 75037, &png_header, Ok(String::new()));
    assert_eq!(analyzed.detected_type, "image/png");
    assert_eq!(analyzed.get_type_description(), "image/png");

    let plain = AnalyzedFile::from_scan("/r/notes.txt", 5, b"notes", Ok("notes".to_string()));
    assert_eq!(analyzed.name, "12");
    assert_eq!(plain.detected_type, "Unknown");
}

#[test]
fn type_description_is_never_empty() {
    let analyzed = AnalyzedFile::from_scan("/r/test.txt", 7, b"content", Ok("content".to_string()));
    let type_desc = analyzed.get_type_description();
    assert!(!type_desc.is_empty());
}

#[test]
fn provider_carries_its_configuration() {
    let provider = LLMProvider::from_parts(Provider::Ollama, "test-model".to_string());
    assert_eq!(provider.get_model_name(), "test-model");
    assert!(matches!(provider.get_provider(), Provider::Ollama));
    let copy = provider.clone();
    assert_eq!(copy.get_model_name(), "test-model");
}

#[test]
fn config_path_sits_under_the_home_directory() {
    match Config::get_config_file_path() {
        Ok(path) => assert!(path.ends_with("/.fs-organiser/config.json")),
        Err(e) => {
            assert_eq!(e, shelfie::config::ConfigError::NoHomeDirectory);
        },
    }
}
