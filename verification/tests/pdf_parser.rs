use tax_engine::domain::entities::ParserError;
use tax_engine::infrastructure::pdf_parser::{
    apply_sign, detect_counterparty, extract_date_and_body, is_noise_line, normalize_page_text, parse_pages,
    split_amount_from_text, PdfParserAdapter, SignHint,
};
use tax_engine::money::Amount;

fn chars(s: &str) -> Vec<char> {
    s.chars().collect()
}

fn text(v: &[char]) -> String {
    v.iter().collect()
}

#[test]
fn page_text_is_split_collapsed_and_blank_lines_dropped() {
    let lines = normalize_page_text("  Date   Narration \r\n\n\u{a0}\n01/02/2026\tSALARY   500,000.00\n   ");
    let lines: Vec<String> = lines.iter().map(|l| text(l)).collect();
    assert_eq!(lines, vec!["Date Narration".to_string(), "01/02/2026 SALARY 500,000.00".to_string()]);
}

#[test]
fn headers_and_page_numbers_are_noise() {
    assert!(is_noise_line(&chars("Page 1 of 3")));
    assert!(is_noise_line(&chars("BALANCE")));
    assert!(is_noise_line(&chars("Running Balance")));
    assert!(!is_noise_line(&chars("POS purchase 2,000")));
}

#[test]
fn dates_of_every_form_are_recognised() {
    let cases = [
        ("01/02/2026 rest", "01/02/2026", "rest"),
        ("01-02-26 rest", "01-02-26", "rest"),
        ("2026-02-01 rest", "2026-02-01", "rest"),
        ("1 January 2026 rest", "1 January 2026", "rest"),
        ("Jan 12, 2026 rest", "Jan 12, 2026", "rest"),
        ("01/02/2026", "01/02/2026", ""),
    ];
    for (line, date, body) in cases {
        let (d, b) = extract_date_and_body(&chars(line)).expect("a date");
        assert_eq!(text(&d), date);
        assert_eq!(text(&b), body);
    }
    assert!(extract_date_and_body(&chars("salary 01/02/2026")).is_none());
    assert!(extract_date_and_body(&chars("1 Ja 2026 x")).is_none());
}

#[test]
fn trailing_amount_is_split_off_with_its_hint() {
    let (n, a, h) = split_amount_from_text(&chars("Transfer to John Doe - 12,500.50 CR"));
    assert_eq!(text(&n), "Transfer to John Doe ");
    assert!(a.unwrap() == Amount::new(1250050, 2));
    assert_eq!(h, SignHint::Positive);

    let (n, a, h) = split_amount_from_text(&chars("POS purchase (2,000.00)"));
    assert_eq!(text(&n), "POS purchase");
    assert!(a.unwrap() == Amount::new(200000, 2));
    assert_eq!(h, SignHint::Negative);

    let (n, a, h) = split_amount_from_text(&chars("no amount here"));
    assert_eq!(text(&n), "no amount here");
    assert!(a.is_none());
    assert_eq!(h, SignHint::Unknown);
}

#[test]
fn sign_follows_the_hint() {
    let v = Amount::new(500, 0);
    assert!(apply_sign(v, SignHint::Negative, &chars("x")) == Amount::new(-500, 0));
    assert!(apply_sign(v, SignHint::Positive, &chars("x")) == v);
    assert!(apply_sign(v, SignHint::Unknown, &chars("ATM DR")) == Amount::new(-500, 0));
    assert!(apply_sign(v, SignHint::Unknown, &chars("refund")) == v);
}

#[test]
fn counterparty_follows_a_direction_word() {
    assert_eq!(detect_counterparty(&chars("Transfer to Ade Bello")).map(|c| text(&c)), Some("Ade Bello".to_string()));
    assert_eq!(detect_counterparty(&chars("Payment FROM Acme Ltd")).map(|c| text(&c)), Some("Acme Ltd".to_string()));
    assert_eq!(detect_counterparty(&chars("POS purchase")), None);
}

#[test]
fn wrapped_rows_are_reassembled() {
    let page = "Date Narration Amount\n\
                01/02/2026 Salary payment\n\
                from Acme Ltd 500,000.00 CR\n\
                02/02/2026 ATM withdrawal 20,000.00 DR\n\
                Page 1 of 1\n";
    let rows = parse_pages(vec![page.to_string()]).expect("rows");
    assert_eq!(rows.len(), 2);
    assert_eq!(rows[0].date, "01/02/2026");
    assert_eq!(rows[0].narration, "Salary payment from Acme Ltd");
    assert!(rows[0].amount == Amount::new(500000, 0));
    assert_eq!(rows[0].counterparty, None);
    assert_eq!(rows[1].date, "02/02/2026");
    assert_eq!(rows[1].narration, "ATM withdrawal");
    assert!(rows[1].amount == Amount::new(-20000, 0));
}

#[test]
fn rows_without_amount_are_dropped_and_empty_statements_are_unknown() {
    assert_eq!(parse_pages(vec!["01/02/2026 no money here\n".to_string()]).unwrap_err(), ParserError::UnknownFormat);
    assert_eq!(parse_pages(vec![]).unwrap_err(), ParserError::UnknownFormat);
}

#[test]
fn rows_of_every_page_are_kept_in_order() {
    let rows = parse_pages(vec!["01/02/2026 first 10\n".to_string(), "03/02/2026 second 20 DR\n".to_string()]).unwrap();
    assert_eq!(rows.len(), 2);
    assert_eq!(rows[0].narration, "first");
    assert_eq!(rows[1].narration, "second");
    assert!(rows[1].amount == Amount::new(-20, 0));
}

#[test]
fn unreadable_pdf_is_a_file_error() {
    let parser = PdfParserAdapter::new();
    assert_eq!(parser.parse_pdf(None).unwrap_err(), ParserError::FileError);
}
