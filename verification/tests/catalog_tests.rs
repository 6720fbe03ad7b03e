use noer::content::Blog;
use noer::content::BlogMeta;
use noer::parser::parse_dir_index;
use noer::parser::str2blog;
use noer::parser::Order;
use noer::parser::ParseAct;
use noer::parser::Parser;
use noer::ITEMS_PER_PAGE;

fn v(s: &str) -> Vec<u8> {
    s.as_bytes().to_vec()
}

fn blog_with(id: u64, timestamp: u64) -> Blog {
    let mut meta = BlogMeta::new();
    meta.id = id;
    meta.timestamp = timestamp;
    Blog {
        meta,
        tags: vec![],
        content: vec![],
        published: true,
        ignored: false,
    }
}

fn paths(n: usize) -> Vec<Vec<u8>> {
    let mut r = Vec::new();
    for i in 0..n {
        r.push(v(&format!("19-1-1-post-{}.rmd", i)));
    }
    r
}

#[test]
fn new_catalog_is_empty() {
    let p = Parser::new();
    assert_eq!(p.len(), 0);
    assert_eq!(p.offset, 0);
    assert!(!p.parsed);
    assert_eq!(p.order, Order::Dec);
    assert_eq!(p.display, v("listTile"));
    assert_eq!(p.all_page(), 0);
    assert_eq!(p.total_page(), 0);
}

#[test]
fn pagination_rounds_up() {
    let mut p = Parser::new();
    p.reduce(ParseAct::BlogPath(paths(25)));
    assert_eq!(p.all_page(), 3);
    p.reduce(ParseAct::BlogPath(paths(24)));
    assert_eq!(p.all_page(), 2);
    p.reduce(ParseAct::BlogPath(paths(1)));
    assert_eq!(p.all_page(), 1);
}

#[test]
fn load_meta_in_batches() {
    assert_eq!(ITEMS_PER_PAGE, 12);
    let mut p = Parser::new();
    p.reduce(ParseAct::BlogPath(paths(20)));
    p.reduce(ParseAct::MoreBlogMeta);
    assert_eq!(p.offset, 12);
    assert_eq!(p.ids.len(), 12);
    assert!(p.parsed);
    p.reduce(ParseAct::MoreBlogMeta);
    assert_eq!(p.offset, 20);
    assert_eq!(p.ids.len(), 20);
    p.reduce(ParseAct::MoreBlogMeta);
    assert_eq!(p.offset, 20);
    assert_eq!(p.ids.len(), 20);
    assert_eq!(p.total_page(), 2);
}

#[test]
fn load_meta_skips_bad_paths_but_counts_them() {
    let mut p = Parser::new();
    p.reduce(ParseAct::BlogPath(vec![
        v("19-1-1-good.rmd"),
        v("not-a-post.txt"),
        v("19-1-2-also-good.rmd"),
    ]));
    p.load_meta(12);
    assert_eq!(p.offset, 3);
    assert_eq!(p.ids.len(), 2);
    let first = p.get_meta(&p.ids[0]).unwrap();
    assert_eq!(first.title, v("good"));
}

#[test]
fn cache_is_idempotent_but_counts() {
    let mut p = Parser::new();
    let b = blog_with(42, 1000);
    p.reduce(ParseAct::CacheBlog(b.clone()));
    p.reduce(ParseAct::CacheBlog(b.clone()));
    assert_eq!(p.inner().blogs.len(), 1);
    assert_eq!(p.inner().indexs.len(), 2);
    assert_eq!(p.len(), 2);
    assert_eq!(p.inner().attempts(&42), 2);
    assert_eq!(p.inner().attempts(&7), 0);
    assert_eq!(p.inner().get_blog(&42).unwrap(), &b);
}

#[test]
fn ordering_sorts_by_key() {
    let mut p = Parser::new();
    p.insert(1, blog_with(1, 50));
    p.insert(2, blog_with(2, 10));
    p.insert(3, blog_with(3, 30));
    p.change_ord(Order::Inc);
    let keys: Vec<u64> = p.inner().indexs.iter().map(|e| e.0).collect();
    assert_eq!(keys, vec![10, 30, 50]);
    p.change_ord(Order::Dec);
    let keys: Vec<u64> = p.inner().indexs.iter().map(|e| e.0).collect();
    assert_eq!(keys, vec![50, 30, 10]);
    // the most-attempted order compares exactly as descending does
    p.change_ord(Order::Hot);
    let keys: Vec<u64> = p.inner().indexs.iter().map(|e| e.0).collect();
    assert_eq!(keys, vec![50, 30, 10]);
}

#[test]
fn change_ord_same_order_keeps_insertion_order() {
    let mut p = Parser::new();
    p.insert(1, blog_with(1, 50));
    p.insert(2, blog_with(2, 10));
    // the catalog starts in descending order; asking for it again does
    // not re-sort
    p.change_ord(Order::Dec);
    let keys: Vec<u64> = p.inner().indexs.iter().map(|e| e.0).collect();
    assert_eq!(keys, vec![50, 10]);
}

#[test]
fn get_and_iter_follow_the_index() {
    let mut p = Parser::new();
    p.insert(1, blog_with(1, 50));
    p.insert(2, blog_with(2, 10));
    p.change_ord(Order::Inc);
    assert_eq!(p.get(0).unwrap().meta.id, 2);
    assert_eq!(p.get(1).unwrap().meta.id, 1);
    assert!(p.get(2).is_none());
    let mut it = p.iter();
    assert_eq!(it.next(p.inner()).unwrap().meta.id, 2);
    assert_eq!(it.next(p.inner()).unwrap().meta.id, 1);
    assert!(it.next(p.inner()).is_none());
}

#[test]
fn display_mode_toggles() {
    let mut p = Parser::new();
    assert_eq!(p.display, v("listTile"));
    p.reduce(ParseAct::ChangeDisplayMode);
    assert_eq!(p.display, v("gridCard"));
    p.reduce(ParseAct::ChangeDisplayMode);
    assert_eq!(p.display, v("listTile"));
    p.display = v("other");
    p.reduce(ParseAct::ChangeDisplayMode);
    assert_eq!(p.display, v("other"));
}

#[test]
fn load_step_counts_every_attempt() {
    let mut p = Parser::new();
    p.reduce(ParseAct::BlogPath(vec![v("19-10-07-x.rmd")]));
    p.load_meta(12);
    let id = p.ids[0];
    // a failed fetch still bumps the counter and caches nothing
    assert!(!p.load_step(id, None));
    assert_eq!(p.inner().attempts(&id), 1);
    assert_eq!(p.len(), 0);
    // a successful fetch parses and caches the record
    let doc = v("---\ntitle: X\npublished: true\n---\nbody");
    assert!(p.load_step(id, Some(&doc)));
    assert_eq!(p.inner().attempts(&id), 2);
    assert_eq!(p.len(), 1);
    let cached = p.inner().get_blog(&id).unwrap();
    assert!(cached.published);
    // an empty fetch counts but caches nothing
    let empty = v("");
    assert!(p.load_step(id, Some(&empty)));
    assert_eq!(p.inner().attempts(&id), 3);
    assert_eq!(p.len(), 1);
}

#[test]
fn load_step_drops_malformed_documents() {
    let mut p = Parser::new();
    p.reduce(ParseAct::BlogPath(vec![v("19-10-07-x.rmd")]));
    p.load_meta(12);
    let id = p.ids[0];
    let doc = v("---\ntitle: X\n---\nno published field");
    assert!(p.load_step(id, Some(&doc)));
    assert_eq!(p.inner().attempts(&id), 1);
    assert_eq!(p.len(), 0);
}

#[test]
fn dir_index_keeps_matching_lines() {
    let text = v("a.rmd\n\n  b.rmd  \nc.txt\nx.rmd");
    let entries = parse_dir_index(&text);
    assert_eq!(entries, vec![v("a.rmd"), v("b.rmd"), v("x.rmd")]);
}

#[test]
fn full_pipeline_from_listing_to_record() {
    let mut p = Parser::new();
    let listing = v("19-10-07-first-post.rmd\nnotes.txt\n20-1-2-second-post.rmd\n");
    p.reduce(ParseAct::BlogPath(parse_dir_index(&listing)));
    assert_eq!(p.paths.len(), 2);
    p.reduce(ParseAct::MoreBlogMeta);
    assert_eq!(p.ids.len(), 2);
    let id = p.ids[0];
    let meta = p.get_meta(&id).unwrap().clone();
    assert_eq!(meta.title, v("first-post"));
    let doc = v("---\ntitle: First\npublished: true\ntags:\n  - verse\n---\nhello\n<!--break-->\nworld");
    let blog = str2blog(&doc, &meta).unwrap();
    p.reduce(ParseAct::CacheBlog(blog.clone()));
    assert_eq!(p.len(), 1);
    assert_eq!(p.get(0).unwrap(), &blog);
}
