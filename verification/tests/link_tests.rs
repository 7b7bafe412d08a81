use ribbot::api::{next_page, PageStep, MAX_PAGES};
use ribbot::link::{parse_link_url, parse_next, split_2_trim, trim_ends, LinkError};

const GITHUB_LINK: &str = "<https://api.github.com/repositories/1/pulls?state=closed&page=2>; rel=\"next\", <https://api.github.com/repositories/1/pulls?state=closed&page=7>; rel=\"last\"";

#[test]
fn parse_link_url_strips_angle_brackets() {
    assert_eq!(parse_link_url("<https://example.com/a>"), Ok("https://example.com/a"));
    assert_eq!(parse_link_url("  <x>\t"), Ok("x"));
    assert_eq!(parse_link_url("<>"), Ok(""));
}

#[test]
fn parse_link_url_rejects_unenclosed() {
    assert_eq!(parse_link_url("<"), Err(LinkError::BadTrim));
    assert_eq!(parse_link_url("https://example.com"), Err(LinkError::BadTrim));
    assert_eq!(parse_link_url("<abc"), Err(LinkError::BadTrim));
    assert_eq!(parse_link_url(""), Err(LinkError::BadTrim));
}

#[test]
fn trim_ends_with_other_delimiters() {
    assert_eq!(trim_ends(" \"next\" ", b'"', b'"'), Ok("next"));
    assert_eq!(trim_ends("(a)", b'[', b']'), Err(LinkError::BadTrim));
}

#[test]
fn trim_ends_with_non_ascii_delimiter_never_matches() {
    // The first byte of "é" is 0xc3, not 0xe9.
    assert_eq!(trim_ends("éx", 0xe9, b'x'), Err(LinkError::BadTrim));
    assert_eq!(trim_ends("<a>", 0xe9, b'>'), Err(LinkError::BadTrim));
}

#[test]
fn split_2_trim_splits_at_first_separator() {
    assert_eq!(split_2_trim(" a ; b ", ';'), Some(("a", "b")));
    assert_eq!(split_2_trim("a;b;c", ';'), Some(("a", "b;c")));
    assert_eq!(split_2_trim(";", ';'), Some(("", "")));
    assert_eq!(split_2_trim("abc", ';'), None);
    assert_eq!(split_2_trim("rel = \"next\"", '='), Some(("rel", "\"next\"")));
}

#[test]
fn parse_next_finds_next_page() {
    let r = parse_next(Some(GITHUB_LINK.as_bytes()));
    assert_eq!(
        r,
        Ok(Some("https://api.github.com/repositories/1/pulls?state=closed&page=2".to_string()))
    );
}

#[test]
fn parse_next_without_next_entry() {
    let h = "<https://api.github.com/x?page=1>; rel=\"prev\", <https://api.github.com/x?page=1>; rel=\"first\"";
    assert_eq!(parse_next(Some(h.as_bytes())), Ok(None));
    assert_eq!(parse_next(None), Ok(None));
}

#[test]
fn parse_next_errors() {
    assert_eq!(parse_next(Some(b"garbage")), Err(LinkError::UnexpectedLinkHeader));
    assert_eq!(parse_next(Some(b"<a>; rel")), Err(LinkError::UnexpectedRelPair));
    assert_eq!(parse_next(Some(b"<a>; foo=\"next\"")), Err(LinkError::UnexpectedRelWord));
    assert_eq!(parse_next(Some(b"<a; rel=\"next\"")), Err(LinkError::BadTrim));
    assert_eq!(parse_next(Some(b"<a>; rel=\"next\"\x01")), Err(LinkError::NotVisibleAscii));
    assert_eq!(parse_next(Some(&[0xc3u8, 0xa9][..])), Err(LinkError::NotVisibleAscii));
}

#[test]
fn parse_next_stops_at_first_deciding_entry() {
    // The malformed entry after the next link is never read.
    assert_eq!(parse_next(Some(b"<u>; rel=\"next\", junk")), Ok(Some("u".to_string())));
    // An entry before it that is malformed is an error.
    assert_eq!(parse_next(Some(b"junk, <u>; rel=\"next\"")), Err(LinkError::UnexpectedLinkHeader));
}

#[test]
fn next_page_decisions() {
    assert_eq!(next_page(1, false, Some(GITHUB_LINK.as_bytes())), Ok(PageStep::Stop));
    assert_eq!(next_page(1, false, Some(b"garbage")), Ok(PageStep::Stop));
    assert_eq!(
        next_page(1, true, Some(GITHUB_LINK.as_bytes())),
        Ok(PageStep::Fetch("https://api.github.com/repositories/1/pulls?state=closed&page=2".to_string()))
    );
    assert_eq!(next_page(MAX_PAGES, true, Some(GITHUB_LINK.as_bytes())), Ok(PageStep::MaxPagesReached));
    assert_eq!(next_page(MAX_PAGES, true, None), Ok(PageStep::Stop));
    assert_eq!(next_page(MAX_PAGES, true, Some(b"garbage")), Err(LinkError::UnexpectedLinkHeader));
    assert_eq!(MAX_PAGES, 10);
}
