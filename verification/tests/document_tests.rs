use noer::content::BlogMeta;
use noer::parser::str2blog;
use noer::parser::ParseError;

fn v(s: &str) -> Vec<u8> {
    s.as_bytes().to_vec()
}

fn meta_for(path: &str) -> BlogMeta {
    let mut m = BlogMeta::new();
    m.path = v(path);
    m
}

#[test]
fn round_trip_full_document() {
    let doc = "preamble\n---\ntitle: X\npublished: true\ntags:\n  - a\n  - b\n---\nteaser text\n<!--break-->\nrest text\n";
    let blog = str2blog(&v(doc), &meta_for("19-10-07-x.rmd")).unwrap();
    assert_eq!(blog.tags, vec![v("a"), v("b")]);
    assert!(blog.published);
    assert_eq!(blog.content.len(), 2);
    assert_eq!(blog.content[0], v("teaser text"));
    assert_eq!(blog.content[1], v("rest text"));
    assert!(!blog.ignored);
    assert_eq!(blog.meta.timestamp, 1634860800);
}

#[test]
fn single_segment_without_break() {
    let doc = "---\ntitle: X\npublished: false\n---\nall one piece";
    let blog = str2blog(&v(doc), &meta_for("19-10-07-x.rmd")).unwrap();
    assert!(!blog.published);
    assert_eq!(blog.content, vec![v("all one piece")]);
}

#[test]
fn missing_published_is_an_error() {
    let doc = "---\ntitle: X\n---\nbody";
    let r = str2blog(&v(doc), &meta_for("19-10-07-x.rmd"));
    assert_eq!(r, Err(ParseError::MissingPublished));
}

#[test]
fn missing_title_is_an_error() {
    let doc = "---\npublished: true\n---\nbody";
    let r = str2blog(&v(doc), &meta_for("19-10-07-x.rmd"));
    assert_eq!(r, Err(ParseError::MissingTitle));
}

#[test]
fn bad_boolean_is_an_error() {
    let doc = "---\ntitle: X\npublished: maybe\n---\nbody";
    let r = str2blog(&v(doc), &meta_for("19-10-07-x.rmd"));
    assert_eq!(r, Err(ParseError::InvalidBool));
}

#[test]
fn missing_delimiters_is_an_error() {
    assert_eq!(
        str2blog(&v("no sections at all"), &meta_for("19-10-07-x.rmd")),
        Err(ParseError::MissingDelimiters)
    );
    assert_eq!(
        str2blog(&v("---\nonly one delimiter"), &meta_for("19-10-07-x.rmd")),
        Err(ParseError::MissingDelimiters)
    );
}

#[test]
fn date_field_overrides_path() {
    // an explicit date resolves with the date-string year offset
    let doc = "---\ntitle: X\npublished: true\ndate: 19-1-1\n---\nbody";
    let blog = str2blog(&v(doc), &meta_for("no-date-path")).unwrap();
    // year 19 + 2000 = 2019
    let expected = 2019u64 * 31536000 + 2592000 + 86400;
    assert_eq!(blog.meta.timestamp, expected);
    assert!(!blog.ignored);
}

#[test]
fn unresolvable_timestamp_marks_ignored() {
    let doc = "---\ntitle: X\npublished: true\n---\nbody";
    let blog = str2blog(&v(doc), &meta_for("no-date-path")).unwrap();
    assert!(blog.ignored);
}

#[test]
fn identity_recomputed_after_parse() {
    let doc = "---\ntitle: X\npublished: true\n---\nbody";
    let meta = meta_for("19-10-07-x.rmd");
    let blog = str2blog(&v(doc), &meta).unwrap();
    // the parse resolves a timestamp from the path and rehashes
    let mut expect = meta.clone();
    expect.timestamp = blog.meta.timestamp;
    expect.get_hash();
    assert_eq!(blog.meta.id, expect.id);
}

#[test]
fn multi_line_values_concatenate() {
    let doc = "---\ntitle: X\npublished: true\nsummary: first\n  second line\n---\nbody";
    let blog = str2blog(&v(doc), &meta_for("19-10-07-x.rmd")).unwrap();
    // the continuation is trimmed and concatenated with no separator;
    // the parse succeeds and the summary does not disturb the rest
    assert!(blog.published);
    assert_eq!(blog.content, vec![v("body")]);
}

#[test]
fn blank_line_ends_continuation() {
    // after a blank line the indented line attaches to no key and the
    // tag item attaches to no list
    let doc = "---\ntitle: X\npublished: true\n\n  - stray\n---\nbody";
    let blog = str2blog(&v(doc), &meta_for("19-10-07-x.rmd")).unwrap();
    assert!(blog.tags.is_empty());
}

#[test]
fn tag_items_need_the_tags_cursor() {
    // a dash line under a non-tags cursor is a continuation of that
    // key, not a tag item
    let doc = "---\ntitle: X\npublished: true\nnote: n\n  - two\ntags:\n  - one\n---\nbody";
    let blog = str2blog(&v(doc), &meta_for("19-10-07-x.rmd")).unwrap();
    assert_eq!(blog.tags, vec![v("one")]);
    assert!(blog.published);
}

#[test]
fn dash_continuation_corrupts_scalar() {
    // a dash line right under the published key concatenates onto its
    // value, which then fails the boolean check
    let doc = "---\ntitle: X\npublished: true\n  - two\n---\nbody";
    let r = str2blog(&v(doc), &meta_for("19-10-07-x.rmd"));
    assert_eq!(r, Err(ParseError::InvalidBool));
}

#[test]
fn indented_key_lines_still_bind() {
    let doc = "---\n  title: X\n  published: true\n---\nbody";
    let blog = str2blog(&v(doc), &meta_for("19-10-07-x.rmd")).unwrap();
    assert!(blog.published);
}
