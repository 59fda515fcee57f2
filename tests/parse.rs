use budgit::model::Date;
use budgit::parse::{parse_amount, parse_date};

#[test]
fn dates() {
    assert_eq!(parse_date("2021-06-05"), Some(Date { year: 2021, month: 6, day: 5 }));
    assert_eq!(parse_date("2000-02-29"), Some(Date { year: 2000, month: 2, day: 29 }));
    assert_eq!(parse_date("1900-02-29"), None);
    assert_eq!(parse_date("2021-04-31"), None);
    assert_eq!(parse_date("2021-00-10"), None);
    assert_eq!(parse_date("2021-6-05"), None);
    assert_eq!(parse_date("2021/06/05"), None);
    assert_eq!(parse_date(""), None);
}

#[test]
fn amounts() {
    assert_eq!(parse_amount("45.50"), Some(4550));
    assert_eq!(parse_amount("45.5"), Some(4550));
    assert_eq!(parse_amount("300"), Some(30000));
    assert_eq!(parse_amount("-0.07"), Some(-7));
    assert_eq!(parse_amount("999999999999999.99"), Some(99999999999999999));
    assert_eq!(parse_amount("1000000000000000"), None);
    assert_eq!(parse_amount("."), None);
    assert_eq!(parse_amount("5."), None);
    assert_eq!(parse_amount(".5"), None);
    assert_eq!(parse_amount("-"), None);
    assert_eq!(parse_amount("1,50"), None);
    assert_eq!(parse_amount(""), None);
}
