use regression_sampler::ghcn::{tmax_records, MyError, TmaxRecord, EXPECTED_HEADER};

const DAY: i64 = 86400;

fn text(lines: &[&str]) -> String {
    let mut s = String::from(EXPECTED_HEADER);
    for l in lines {
        s.push('\n');
        s.push_str(l);
    }
    s
}

#[test]
fn keeps_unflagged_tmax_records() {
    let raw = text(&[
        "USW00094728,19700101,TMAX,-17,,,X,2400",
        "USW00094728,19700101,TMIN,-83,,,X,2400",
        "USW00094728,19700102,TMAX,250,,S,X,2400",
        "  USW00094728,00000301,TMAX,+5,,,X,2400  ",
    ]);
    let records = tmax_records(&format!("\n  {}\n\n", raw)).unwrap();
    assert_eq!(
        records,
        vec![
            // 719528 days from 0000-01-01 to 1970-01-01
            TmaxRecord { seconds: 719528 * DAY, tenths: -17 },
            // year 0 is a leap year: 31 + 29 days before March 1st
            TmaxRecord { seconds: 60 * DAY, tenths: 5 },
        ]
    );
}

#[test]
fn header_only_gives_no_record() {
    assert_eq!(tmax_records(EXPECTED_HEADER), Ok(vec![]));
}

#[test]
fn year_zero_and_negative_years() {
    let records = tmax_records(&text(&["A,00000101,TMAX,0,,,,", "A,-0010101,TMAX,1,,,,"])).unwrap();
    assert_eq!(records[0].seconds, 0);
    // year -1 has 365 days
    assert_eq!(records[1].seconds, -365 * DAY);
}

#[test]
fn unexpected_header_is_refused() {
    assert_eq!(tmax_records("ID,DATE,ELEMENT\nA,19700101,TMAX,1,,,,"), Err(MyError::UnexpectedRawDataHeader));
    assert_eq!(tmax_records(""), Err(MyError::UnexpectedRawDataHeader));
    let crlf = format!("{}\r\nA,19700101,TMAX,1,,,,", EXPECTED_HEADER);
    assert_eq!(tmax_records(&crlf), Err(MyError::UnexpectedRawDataHeader));
}

#[test]
fn invalid_dates_are_refused() {
    assert_eq!(tmax_records(&text(&["A,19700230,TMAX,1,,,,"])), Err(MyError::InvalidDateFormat));
    assert_eq!(tmax_records(&text(&["A,19001329,TMAX,1,,,,"])), Err(MyError::InvalidDateFormat));
    assert_eq!(tmax_records(&text(&["A,1970011,TMAX,1,,,,"])), Err(MyError::InvalidDateFormat));
    assert_eq!(tmax_records(&text(&["A,19x00101,TMAX,1,,,,"])), Err(MyError::InvalidDateFormat));
    // 1900 is no leap year, 2000 is one
    assert_eq!(tmax_records(&text(&["A,19000229,TMAX,1,,,,"])), Err(MyError::InvalidDateFormat));
    assert!(tmax_records(&text(&["A,20000229,TMAX,1,,,,"])).is_ok());
    // a rejected element is not read
    assert_eq!(tmax_records(&text(&["A,19700230,TMIN,1,,,,"])), Ok(vec![]));
}

#[test]
fn short_lines_are_refused() {
    assert_eq!(tmax_records(&text(&["A,19700101,TMAX,1,"])), Err(MyError::MissingField));
    assert_eq!(tmax_records(&text(&["A,19700101,TMAX,1,,,,", "", "A,19700101,TMAX,1,,,,"])), Err(MyError::MissingField));
    // a trailing empty line goes with the trimming of the whole text
    assert!(tmax_records(&text(&["A,19700101,TMAX,1,,,,", ""])).is_ok());
}

#[test]
fn invalid_values_are_refused() {
    assert_eq!(tmax_records(&text(&["A,19700101,TMAX,1.5,,,,"])), Err(MyError::InvalidDataValue));
    assert_eq!(tmax_records(&text(&["A,19700101,TMAX,,,,,"])), Err(MyError::InvalidDataValue));
    assert_eq!(tmax_records(&text(&["A,19700101,TMAX,2147483648,,,,"])), Err(MyError::InvalidDataValue));
    let r = tmax_records(&text(&["A,19700101,TMAX,-2147483648,,,,"])).unwrap();
    assert_eq!(r[0].tenths, i32::MIN);
    // the first failing line decides
    assert_eq!(
        tmax_records(&text(&["A,19700101,TMAX,x,,,,", "A,19700230,TMAX,1,,,,"])),
        Err(MyError::InvalidDataValue)
    );
}

#[test]
fn unicode_whitespace_is_trimmed_like_str_trim() {
    // U+00A0 before the header and U+3000, U+2029 after the text
    let raw = format!("\u{a0}{}\u{3000}\u{2029}", text(&["A,19700101,TMAX,7,,,X,1"]));
    assert_eq!(tmax_records(&raw), Ok(vec![TmaxRecord { seconds: 719528 * DAY, tenths: 7 }]));
    // a six-field TMAX line ending in U+00A0: the trimmed Q_FLAG is empty
    let six = text(&["A,19700101,TMAX,3,,\u{a0}", "A,19700102,TMAX,4,,\u{2003}\u{85}\u{1680}"]);
    assert_eq!(
        tmax_records(&six),
        Ok(vec![TmaxRecord { seconds: 719528 * DAY, tenths: 3 }, TmaxRecord { seconds: 719529 * DAY, tenths: 4 }])
    );
    // whitespace inside a field is kept, so the quality flag is not empty
    let inner = text(&["A,19700101,TMAX,3,,\u{a0},X"]);
    assert_eq!(tmax_records(&inner), Ok(vec![]));
    // other non-ASCII characters are not whitespace
    let other = format!("\u{e9}{}", EXPECTED_HEADER);
    assert_eq!(tmax_records(&other), Err(MyError::UnexpectedRawDataHeader));
}
