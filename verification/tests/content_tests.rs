use noer::content::Blog;
use noer::content::BlogMeta;

fn v(s: &str) -> Vec<u8> {
    s.as_bytes().to_vec()
}

fn empty_blog() -> Blog {
    Blog {
        meta: BlogMeta::new(),
        tags: vec![],
        content: vec![],
        published: false,
        ignored: false,
    }
}

#[test]
fn test_date_info() {
    let mut blog = empty_blog();
    blog.date_info(Some(&v("2019-10-07")));
    blog.date_info(Some(&v("2019-10-07-02-01")));
    blog.date_info(Some(&v("2019/10/07/02/01")));
    blog.date_info(Some(&v("2019/10/07 19:57")));
    blog.date_info(Some(&v("2019-10/07 19:57:36")));
    blog.date_info(None);
}

#[test]
fn date_info_values() {
    let mut blog = empty_blog();
    blog.date_info(Some(&v("2019-10-07")));
    assert_eq!(blog.meta.timestamp, 63697708800);
    blog.date_info(Some(&v("2019-10-07-02-01")));
    assert_eq!(blog.meta.timestamp, 63697716060);
    blog.date_info(Some(&v("2019/10/07 19:57")));
    assert_eq!(blog.meta.timestamp, 63697780620);
    blog.date_info(Some(&v("2019-10/07 19:57:36")));
    assert_eq!(blog.meta.timestamp, 63697780656);
    assert!(!blog.ignored);
}

#[test]
fn date_info_unresolved_marks_ignored() {
    // no date field and a path without a date run: the record is kept
    // but marked ignored, and the timestamp is left alone
    let mut blog = empty_blog();
    blog.meta.timestamp = 7;
    blog.date_info(None);
    assert!(blog.ignored);
    assert_eq!(blog.meta.timestamp, 7);
}

#[test]
fn date_info_falls_back_to_path() {
    let mut blog = empty_blog();
    blog.meta.path = v("19-10-07-title.rmd");
    // the date string holds no date run, so the path resolves it,
    // with the filename year offset
    blog.date_info(Some(&v("no date here")));
    assert_eq!(blog.meta.timestamp, 1634860800);
    assert!(!blog.ignored);
}

#[test]
fn with_path_short_year_offset() {
    // a two-digit year reads below 100 and takes the filename offset
    let m = BlogMeta::with_path(&v("99-1-1-my-title.rmd")).unwrap();
    assert_eq!(m.timestamp, 4133894400);
    assert_eq!(m.title, v("my-title"));
}

#[test]
fn with_path_full_year_no_offset() {
    let m = BlogMeta::with_path(&v("2099-1-1-my-title.rmd")).unwrap();
    assert_eq!(m.timestamp, 66196742400);
    assert_eq!(m.title, v("my-title"));
}

#[test]
fn with_path_strips_directory() {
    let m = BlogMeta::with_path(&v("data/19-10-07-13-bolg-title-here.rmd")).unwrap();
    assert_eq!(m.title, v("bolg-title-here"));
    assert_eq!(m.timestamp, 1634907600);
    assert_eq!(m.path, v("data/19-10-07-13-bolg-title-here.rmd"));
}

#[test]
fn with_path_numeric_title_backtracks() {
    // the last group is given up so that the separator and title fit
    let m = BlogMeta::with_path(&v("19-10-07-05.rmd")).unwrap();
    assert_eq!(m.title, v("05"));
    assert_eq!(m.timestamp, 1634860800);
}

#[test]
fn with_path_rejections() {
    assert!(BlogMeta::with_path(&v("hello.rmd")).is_none());
    assert!(BlogMeta::with_path(&v("19-10.rmd")).is_none());
    assert!(BlogMeta::with_path(&v("19-10-07-.rmd")).is_none());
    assert!(BlogMeta::with_path(&v("19-10-07-title.md")).is_none());
    assert!(BlogMeta::with_path(&v("19-10-07-title.rmd/")).is_none());
    assert!(BlogMeta::with_path(&v("")).is_none());
}

#[test]
fn with_path_deterministic() {
    let a = BlogMeta::with_path(&v("99-1-1-my-title.rmd")).unwrap();
    let b = BlogMeta::with_path(&v("99-1-1-my-title.rmd")).unwrap();
    assert_eq!(a.id, b.id);
    assert_eq!(a.title, b.title);
    assert_eq!(a.timestamp, b.timestamp);
}

#[test]
fn identity_is_pure_in_the_triple() {
    // records that agree on title, timestamp and path hash alike,
    // whatever the other fields hold
    let mut a = BlogMeta::new();
    a.title = v("a-title");
    a.timestamp = 123;
    a.path = v("p.rmd");
    let mut b = a.clone();
    b.hero = v("something-else");
    b.id = 999;
    a.get_hash();
    b.get_hash();
    assert_eq!(a.id, b.id);
}

#[test]
fn identity_tracks_timestamp() {
    let mut a = BlogMeta::new();
    a.title = v("a-title");
    a.timestamp = 123;
    a.path = v("p.rmd");
    a.get_hash();
    let first = a.id;
    a.timestamp = 124;
    a.get_hash();
    assert_ne!(first, a.id);
}

#[test]
fn image_url_uses_clock_and_counter() {
    let mut m = BlogMeta::new();
    m.image_url(1000, 5);
    assert_eq!(m.hero, v("https://source.unsplash.com/random/600x300&sig=1005"));
    m.image_url(65535, 0);
    assert_eq!(m.hero, v("https://source.unsplash.com/random/600x300&sig=0"));
}
