use filecabinet::{
    camelcase_words, is_normalized_name, name_extension, parse_date, parse_file_name, parse_page,
    render, to_camelcase, OptDoc, RenderError,
};

fn doc(date: &str, institution: &str, name: &str, page: Option<&str>) -> OptDoc {
    OptDoc {
        date: Some(date.to_string()),
        institution: Some(institution.to_string()),
        name: Some(name.to_string()),
        page: page.map(|p| p.to_string()),
    }
}

#[test]
fn test_to_camelcase() {
    assert_eq!(to_camelcase("hello this is a test"), "HelloThisIsATest");
    assert_eq!(to_camelcase("_a"), "_a");
    assert_eq!(to_camelcase("boopLoop"), "BoopLoop");
}

#[test]
fn camelcase_trims_surrounding_white_space() {
    assert_eq!(to_camelcase("\thello world\n"), "HelloWorld");
    assert_eq!(camelcase_words("\thello world"), "\thelloWorld");
    assert_eq!(to_camelcase(""), "");
}

#[test]
fn test_parse_page() {
    assert_eq!(parse_page(&""), None);
    assert_eq!(parse_page(&"pg"), None);
    assert_eq!(parse_page(&"01"), Some("01".to_owned()));
    assert_eq!(parse_page(&"20"), Some("20".to_owned()));
    assert_eq!(parse_page(&"pg20"), Some("20".to_owned()));
}

#[test]
fn parse_page_takes_first_run_of_digits() {
    assert_eq!(parse_page("a1b22"), Some("1".to_owned()));
    assert_eq!(parse_page("p007x"), Some("007".to_owned()));
}

#[test]
fn test_parse_date_hyphens() {
    assert_eq!(
        parse_date(&"2020-04-03_boop_loop"),
        Some("2020-04-03".to_string())
    )
}

#[test]
fn test_parse_date_no_hyphens() {
    assert_eq!(
        parse_date(&"20180530_boop_loop"),
        Some("2018-05-30".to_string())
    )
}

#[test]
fn test_parse_date_year_only() {
    assert_eq!(
        parse_date(&"2018_boop_loop"),
        Some("2018-01-01".to_string())
    )
}

#[test]
fn parse_date_edge_cases() {
    assert_eq!(parse_date("report"), None);
    assert_eq!(parse_date("201"), None);
    assert_eq!(parse_date("2020-4-03"), Some("2020-01-01".to_string()));
    assert_eq!(parse_date("20201340"), Some("2020-13-40".to_string()));
}

#[test]
fn compact_date_wins_over_year_only() {
    let d = OptDoc::parse("20200403_x_y_1");
    assert_eq!(d.date, Some("2020-04-03".to_string()));
    assert_eq!(d.institution, Some("x".to_string()));
    assert_eq!(d.name, Some("y".to_string()));
    assert_eq!(d.page, Some("1".to_string()));
}

#[test]
fn parse_missing_and_extra_tokens() {
    let d = OptDoc::parse("2020_bank");
    assert_eq!(d.date, Some("2020-01-01".to_string()));
    assert_eq!(d.institution, Some("bank".to_string()));
    assert_eq!(d.name, None);
    assert_eq!(d.page, None);
    assert!(!d.is_parseable());
    let e = OptDoc::parse("2020-01-02_a_b_pg3_extra");
    assert_eq!(e.page, Some("3".to_string()));
    assert!(e.is_parseable());
}

#[test]
fn render_canonical_name() {
    let d = doc("2020-04-03", "bank", "statement", Some("2"));
    assert_eq!(
        render(&d, "PDF"),
        Ok("2020-04-03_bank_statement_2.pdf".to_string())
    );
    let no_page = doc("2020-04-03", "bank", "statement", None);
    assert_eq!(
        render(&no_page, "jpg"),
        Ok("2020-04-03_bank_statement_1.jpg".to_string())
    );
    let mut incomplete = doc("2020-04-03", "bank", "statement", None);
    incomplete.name = None;
    assert_eq!(render(&incomplete, "pdf"), Err(RenderError::IncompleteIdentity));
}

#[test]
fn render_then_parse_round_trip() {
    let d = doc("2021-12-31", "city", "tax", Some("12"));
    let f = render(&d, "Png").unwrap();
    assert_eq!(f, "2021-12-31_city_tax_12.png");
    assert_eq!(parse_file_name(&f), d);
    assert!(is_normalized_name(&f));
}

#[test]
fn normalized_names() {
    assert!(is_normalized_name("2020-04-03_bank_statement_1.pdf"));
    assert!(!is_normalized_name("2020-04-03_bank_statement_1.PDF"));
    assert!(!is_normalized_name("20200403_bank_statement_1.pdf"));
    assert!(!is_normalized_name("2020-04-03_bank_statement_pg1.pdf"));
    assert!(!is_normalized_name("report.pdf"));
    assert!(!is_normalized_name("2020-04-03_bank_statement_1"));
    assert!(is_normalized_name("2020-04-03_bank_statement_1."));
}

#[test]
fn file_name_extensions() {
    assert_eq!(name_extension("a.PDF"), "pdf");
    assert_eq!(name_extension("a.tar.Gz"), "gz");
    assert_eq!(name_extension(".bashrc"), "");
    assert_eq!(name_extension("noext"), "");
    assert_eq!(name_extension(".."), "");
}
