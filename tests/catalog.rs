use filecabinet::{
    archive_file_name, archive_path, document_of, extension, is_document_name, is_normalized,
    list_files, read_docs, ArchiveError, Filter, OptDoc,
};

fn names(v: &[&str]) -> Option<Vec<String>> {
    Some(v.iter().map(|s| s.to_string()).collect())
}

#[test]
fn missing_directory_lists_nothing() {
    assert!(list_files(&None, true).is_empty());
    assert!(read_docs("/no/such/dir", &None, true).is_empty());
}

#[test]
fn scan_keeps_allowed_extensions_case_insensitively() {
    let listing = names(&["a.pdf", "b.txt", "c.PNG"]);
    assert_eq!(list_files(&listing, false), vec!["a.pdf".to_string(), "c.PNG".to_string()]);
}

#[test]
fn scan_archives_and_extensionless_files() {
    let listing = names(&["x.cocoon", "README", "y.jpg", ".pdf"]);
    assert_eq!(list_files(&listing, false), vec!["y.jpg".to_string()]);
    assert_eq!(
        list_files(&listing, true),
        vec!["x.cocoon".to_string(), "y.jpg".to_string()]
    );
    assert!(!is_document_name("README", true));
    assert!(is_document_name("scan.JPG", false));
}

#[test]
fn report_without_tokens_is_not_normalized() {
    assert!(!is_normalized("report.pdf"));
    assert!(!OptDoc::new("report.pdf").is_parseable());
}

#[test]
fn path_level_normalization() {
    assert!(is_normalized("docs/2020-04-03_bank_statement_1.pdf"));
    assert!(is_normalized("/srv/docs/2020-04-03_bank_statement_1.pdf"));
    assert!(!is_normalized("docs/2020-04-03_bank_statement_1.Pdf"));
    assert!(!is_normalized("/"));
    assert!(!is_normalized(""));
}

#[test]
fn path_level_identity_and_extension() {
    let d = OptDoc::new("docs/2019_gov_id_pg4.jpg");
    assert_eq!(d.date, Some("2019-01-01".to_string()));
    assert_eq!(d.page, Some("4".to_string()));
    assert_eq!(extension("dir/File.PDF"), "pdf");
    assert_eq!(extension("dir/noext"), "");
    assert_eq!(extension("/"), "");
}

#[test]
fn catalog_entries() {
    let listing = names(&["2020-04-03_bank_statement_1.pdf", "notes.txt", "scan.png"]);
    let docs = read_docs("cabinet", &listing, false);
    assert_eq!(docs.len(), 2);
    assert_eq!(docs[0].path, "cabinet/2020-04-03_bank_statement_1.pdf");
    assert!(docs[0].normalized);
    assert!(docs[0].identity.is_parseable());
    assert_eq!(docs[1].path, "cabinet/scan.png");
    assert!(!docs[1].normalized);
    assert!(Filter::Normalized.matches(&docs[0]));
    assert!(!Filter::Normalized.matches(&docs[1]));
    assert!(Filter::Unnormalized.matches(&docs[1]));
    assert!(Filter::All.matches(&docs[1]));
    assert_eq!(Filter::default(), Filter::All);
    assert_eq!(document_of("cabinet", "scan.png"), docs[1]);
}

#[test]
fn archive_names() {
    let d = OptDoc {
        date: Some("2020-04-03".to_string()),
        institution: Some("bank".to_string()),
        name: Some("statement".to_string()),
        page: None,
    };
    assert_eq!(
        archive_file_name(&d),
        Ok("2020-04-03_bank_statement_1.cocoon".to_string())
    );
    assert_eq!(
        archive_path("/archive", &d),
        Ok("/archive/2020-04-03_bank_statement_1.cocoon".to_string())
    );
    let mut incomplete = d.clone();
    incomplete.date = None;
    assert_eq!(archive_file_name(&incomplete), Err(ArchiveError::IncompleteIdentity));
    assert_eq!(archive_path("/archive", &incomplete), Err(ArchiveError::IncompleteIdentity));
}
