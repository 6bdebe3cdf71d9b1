use flux_viewer::parser::{parse, ParseError};

const GOOD_FILE: &[u8] =
    b"HDR\np0 p1 p2 p3 p4 p5 p6 p7 p8 p9 p10 p11 p12 p13 p14 p15 p16 3.5, p18 p19 0.1,\n0.0 1.0 0.0\n1.0 1.1 0.05\n\n";

#[test]
fn two_sample_file_decodes() {
    let parsed = parse(GOOD_FILE).unwrap();
    assert_eq!(parsed.he, b"3.5".to_vec());
    assert_eq!(parsed.gamma, b"0.1".to_vec());
    assert_eq!(parsed.samples.len(), 2);
    assert_eq!(parsed.samples[0].x, b"0.0".to_vec());
    assert_eq!(parsed.samples[0].y, b"1.0".to_vec());
    assert_eq!(parsed.samples[0].yp, b"0.0".to_vec());
    assert_eq!(parsed.samples[1].x, b"1.0".to_vec());
    assert_eq!(parsed.samples[1].y, b"1.1".to_vec());
    assert_eq!(parsed.samples[1].yp, b"0.05".to_vec());
}

#[test]
fn reparsing_gives_identical_results() {
    let a = parse(GOOD_FILE).unwrap();
    let b = parse(GOOD_FILE).unwrap();
    assert_eq!(a.he, b.he);
    assert_eq!(a.gamma, b.gamma);
    assert_eq!(a.samples.len(), b.samples.len());
    for i in 0..a.samples.len() {
        assert_eq!(a.samples[i].x, b.samples[i].x);
        assert_eq!(a.samples[i].y, b.samples[i].y);
        assert_eq!(a.samples[i].yp, b.samples[i].yp);
    }
}

#[test]
fn short_parameter_line_is_malformed_header() {
    // Twenty tokens only.
    let file = b"HDR\np0 p1 p2 p3 p4 p5 p6 p7 p8 p9 p10 p11 p12 p13 p14 p15 p16 3.5, p18 p19\n0.0 1.0 0.0\n";
    assert_eq!(parse(file), Err(ParseError::MalformedHeader));
}

#[test]
fn file_without_parameter_line_is_malformed_header() {
    assert_eq!(parse(b"HDR"), Err(ParseError::MalformedHeader));
    assert_eq!(parse(b""), Err(ParseError::MalformedHeader));
}

#[test]
fn two_token_data_line_is_malformed_sample() {
    let file = b"HDR\np0 p1 p2 p3 p4 p5 p6 p7 p8 p9 p10 p11 p12 p13 p14 p15 p16 3.5, p18 p19 0.1,\n0.0 1.0\n\n";
    assert_eq!(parse(file), Err(ParseError::MalformedSample(0)));
}

#[test]
fn malformed_sample_reports_first_bad_line() {
    let file = b"HDR\np0 p1 p2 p3 p4 p5 p6 p7 p8 p9 p10 p11 p12 p13 p14 p15 p16 3.5, p18 p19 0.1,\n0.0 1.0 0.0\n1.0 oops 0.05\n\n";
    assert_eq!(parse(file), Err(ParseError::MalformedSample(1)));
}

#[test]
fn non_numeric_token_is_malformed_sample() {
    let file = b"HDR\np0 p1 p2 p3 p4 p5 p6 p7 p8 p9 p10 p11 p12 p13 p14 p15 p16 3.5, p18 p19 0.1,\n1.2.3 1.0 0.0\n\n";
    assert_eq!(parse(file), Err(ParseError::MalformedSample(0)));
}

#[test]
fn file_with_no_data_lines_decodes_empty() {
    let file = b"HDR\np0 p1 p2 p3 p4 p5 p6 p7 p8 p9 p10 p11 p12 p13 p14 p15 p16 3.5, p18 p19 0.1,\n";
    let parsed = parse(file).unwrap();
    assert_eq!(parsed.samples.len(), 0);
    assert_eq!(parsed.he, b"3.5".to_vec());
    assert_eq!(parsed.gamma, b"0.1".to_vec());
}

#[test]
fn extra_tokens_on_a_data_line_are_ignored() {
    let file = b"HDR\np0 p1 p2 p3 p4 p5 p6 p7 p8 p9 p10 p11 p12 p13 p14 p15 p16 3.5, p18 p19 0.1,\n0.5 2.5 3.5 junk more\n\n";
    let parsed = parse(file).unwrap();
    assert_eq!(parsed.samples.len(), 1);
    assert_eq!(parsed.samples[0].x, b"0.5".to_vec());
    assert_eq!(parsed.samples[0].y, b"2.5".to_vec());
    assert_eq!(parsed.samples[0].yp, b"3.5".to_vec());
}

#[test]
fn repeated_trailing_commas_are_stripped() {
    let file = b"HDR\np0 p1 p2 p3 p4 p5 p6 p7 p8 p9 p10 p11 p12 p13 p14 p15 p16 3.5,, p18 p19 0.1,,,\n";
    let parsed = parse(file).unwrap();
    assert_eq!(parsed.he, b"3.5".to_vec());
    assert_eq!(parsed.gamma, b"0.1".to_vec());
}

#[test]
fn blank_line_between_data_lines_is_malformed_sample() {
    let file = b"HDR\np0 p1 p2 p3 p4 p5 p6 p7 p8 p9 p10 p11 p12 p13 p14 p15 p16 3.5, p18 p19 0.1,\n0.0 1.0 0.0\n\n1.0 1.1 0.05\n\n";
    assert_eq!(parse(file), Err(ParseError::MalformedSample(1)));
}
