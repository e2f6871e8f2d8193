use sitegen::feed::plan_feed;
use sitegen::index::{build_index, RenderList};
use sitegen::listing::ListItem;
use sitegen::loader::{find_duplicate, finish_sections, link_entries, Entry, LoadError};
use sitegen::order::{positions_upto, sort_positions, Ranked};
use sitegen::page::{Page, Section};
use sitegen::paths::{has_trailing_slash, join_path, join_with_slash, last_segment, nest, split_segments};
use sitegen::render::{plan_links, plan_page, StaticAction};
use sitegen::site::{parent_of, Config, Site, SiteState};
use sitegen::text::text_at_or_before;

fn page(path: &str, title: &str, date: Option<u64>, category: Option<&str>, tags: Option<Vec<&str>>) -> Page {
    Page {
        file_path: path.to_string(),
        parent_path: parent_of(path),
        title: title.to_string(),
        date,
        category: category.map(|c| c.to_string()),
        tags: tags.map(|t| t.into_iter().map(|x| x.to_string()).collect()),
        url: title.to_string(),
        assets: vec![],
        content: String::new(),
    }
}

fn section(path: &str, components: Vec<&str>) -> Section {
    Section {
        file_path: path.to_string(),
        parent_path: parent_of(path),
        components: components.into_iter().map(|c| c.to_string()).collect(),
        pages: vec![],
        subsections: vec![],
    }
}

fn config(base_url: &str) -> Config {
    Config {
        base_url: base_url.to_string(),
        generate_categories_pages: true,
        generate_tags_pages: true,
        generate_rss: true,
    }
}

fn sample_entries() -> Vec<Entry> {
    vec![
        Entry::Section(section("content/_index.md", vec![])),
        Entry::Page(page("content/post.md", "post", Some(3), Some("rust"), Some(vec!["a"]))),
        Entry::Section(section("content/sub/_index.md", vec!["sub"])),
        Entry::Page(page("content/sub/child.md", "child", None, None, None)),
    ]
}

fn loaded_sample() -> Site {
    let mut site = Site::new("", config("https://example.com"));
    site.parse(sample_entries()).unwrap();
    site
}

#[test]
fn new_site_is_empty_and_writes_to_public() {
    let site = Site::new("some/dir", config("https://example.com"));
    assert_eq!(site.state, SiteState::Unloaded);
    assert_eq!(site.base_path, "some/dir");
    assert_eq!(site.output_path, "public");
    assert!(!site.live_reload);
    assert!(site.pages.is_empty());
    assert!(site.sections.is_empty());
    assert!(site.tags.is_empty());
    assert!(site.categories.is_empty());
}

#[test]
fn setters_change_one_field() {
    let mut site = Site::new("", config("https://example.com"));
    site.enable_live_reload();
    assert!(site.live_reload);
    site.set_output_path("tmp/out");
    assert_eq!(site.output_path, "tmp/out");
    assert!(site.live_reload);
}

#[test]
fn parse_links_sections_pages_and_indices() {
    let site = loaded_sample();
    assert_eq!(site.state, SiteState::Loaded);
    assert_eq!(site.pages.len(), 2);
    assert_eq!(site.sections.len(), 2);
    let top = &site.sections[0];
    assert_eq!(top.parent_path, "content");
    assert_eq!(top.pages, vec![0]);
    assert_eq!(site.pages[top.pages[0]].file_path, "content/post.md");
    assert_eq!(top.subsections, vec![1]);
    assert_eq!(site.sections[1].parent_path, "content/sub");
    assert_eq!(site.sections[1].pages, vec![1]);
    assert!(site.sections[1].subsections.is_empty());
    assert_eq!(site.tags.len(), 1);
    assert_eq!(site.tags[0].name, "a");
    assert_eq!(site.tags[0].pages, vec![0]);
    assert_eq!(site.categories.len(), 1);
    assert_eq!(site.categories[0].name, "rust");
    assert_eq!(site.categories[0].pages, vec![0]);
}

#[test]
fn parse_twice_gives_the_same_state() {
    let mut site = loaded_sample();
    let first = format!("{:?}", site);
    site.parse(sample_entries()).unwrap();
    assert_eq!(format!("{:?}", site), first);
}

#[test]
fn parse_replaces_what_was_loaded() {
    let mut site = loaded_sample();
    site.parse(vec![Entry::Page(page("content/only.md", "only", None, None, None))]).unwrap();
    assert_eq!(site.pages.len(), 1);
    assert!(site.sections.is_empty());
    assert!(site.tags.is_empty());
    assert!(site.categories.is_empty());
}

#[test]
fn page_before_its_section_is_not_linked() {
    let mut site = Site::new("", config("https://example.com"));
    site.parse(vec![
        Entry::Page(page("content/2017.md", "early", None, None, None)),
        Entry::Section(section("content/_index.md", vec![])),
        Entry::Page(page("content/z.md", "late", None, None, None)),
    ]).unwrap();
    assert_eq!(site.pages.len(), 2);
    assert_eq!(site.sections[0].pages, vec![1]);
}

#[test]
fn orphan_page_is_loaded_without_a_section() {
    let mut site = Site::new("", config("https://example.com"));
    site.parse(vec![Entry::Page(page("content/lonely/post.md", "p", None, Some("c"), None))]).unwrap();
    assert_eq!(site.pages.len(), 1);
    assert!(site.sections.is_empty());
    assert_eq!(site.categories[0].pages, vec![0]);
    assert_eq!(site.build_pages().index_pages, vec![0]);
}

#[test]
fn later_section_with_the_same_key_takes_the_place() {
    let (pages, sections) = link_entries(vec![
        Entry::Section(section("content/_index.md", vec!["first"])),
        Entry::Page(page("content/a.md", "a", None, None, None)),
        Entry::Section(section("content/_index.md", vec!["second"])),
        Entry::Page(page("content/b.md", "b", None, None, None)),
    ]);
    assert_eq!(pages.len(), 2);
    assert_eq!(sections.len(), 1);
    assert_eq!(sections[0].components, vec!["second".to_string()]);
    assert_eq!(sections[0].pages, vec![1]);
}

#[test]
fn section_pages_are_put_in_listing_order() {
    let (pages, mut sections) = link_entries(vec![
        Entry::Section(section("content/_index.md", vec![])),
        Entry::Page(page("content/a.md", "undated", None, None, None)),
        Entry::Page(page("content/b.md", "old", Some(1), None, None)),
        Entry::Page(page("content/c.md", "new", Some(9), None, None)),
    ]);
    assert_eq!(sections[0].pages, vec![0, 1, 2]);
    finish_sections(&pages, &mut sections);
    assert_eq!(sections[0].pages, vec![2, 1, 0]);
}

#[test]
fn dated_pages_sort_by_date_descending() {
    let newer = page("a.md", "zzz", Some(20), None, None);
    let older = page("b.md", "aaa", Some(10), None, None);
    assert!(newer.at_or_before(&older));
    assert!(!older.at_or_before(&newer));
}

#[test]
fn undated_pages_sort_after_dated_ones() {
    let dated = page("a.md", "zzz", Some(0), None, None);
    let undated = page("b.md", "aaa", None, None, None);
    assert!(dated.at_or_before(&undated));
    assert!(!undated.at_or_before(&dated));
}

#[test]
fn equal_dates_sort_by_title() {
    let a = page("a.md", "alpha", Some(5), None, None);
    let b = page("b.md", "beta", Some(5), None, None);
    assert!(a.at_or_before(&b));
    assert!(!b.at_or_before(&a));
    let u = page("u.md", "alpha", None, None, None);
    let v = page("v.md", "beta", None, None, None);
    assert!(u.at_or_before(&v));
    assert!(!v.at_or_before(&u));
    assert!(a.at_or_before(&a));
}

#[test]
fn text_order_is_dictionary_order() {
    assert!(text_at_or_before("", ""));
    assert!(text_at_or_before("", "a"));
    assert!(!text_at_or_before("a", ""));
    assert!(text_at_or_before("ab", "abc"));
    assert!(!text_at_or_before("abc", "ab"));
    assert!(text_at_or_before("abc", "abd"));
    assert!(!text_at_or_before("b", "abc"));
    assert!(text_at_or_before("same", "same"));
}

#[test]
fn sort_positions_keeps_ties_in_place() {
    let pages = vec![
        page("0.md", "same", Some(1), None, None),
        page("1.md", "same", Some(2), None, None),
        page("2.md", "same", Some(1), None, None),
        page("3.md", "same", None, None, None),
        page("4.md", "same", Some(2), None, None),
    ];
    assert_eq!(positions_upto(5), vec![0, 1, 2, 3, 4]);
    assert_eq!(sort_positions(&pages, &positions_upto(5)), vec![1, 4, 0, 2, 3]);
    assert_eq!(sort_positions(&pages, &vec![3, 2]), vec![2, 3]);
    assert_eq!(sort_positions(&pages, &vec![]), Vec::<usize>::new());
}

#[test]
fn index_lists_a_page_under_each_of_its_tags_only() {
    let pages = vec![
        page("0.md", "post0", None, None, Some(vec!["a", "b"])),
        page("1.md", "post1", None, Some("x"), None),
        page("2.md", "post2", None, Some("x"), Some(vec!["b", "b", "c"])),
        page("3.md", "post3", None, None, Some(vec![])),
    ];
    let tags = build_index(&pages, RenderList::Tags);
    assert_eq!(tags.len(), 3);
    assert_eq!(tags[0].name, "a");
    assert_eq!(tags[0].pages, vec![0]);
    assert_eq!(tags[1].name, "b");
    assert_eq!(tags[1].pages, vec![0, 2]);
    assert_eq!(tags[2].name, "c");
    assert_eq!(tags[2].pages, vec![2]);
    let categories = build_index(&pages, RenderList::Categories);
    assert_eq!(categories.len(), 1);
    assert_eq!(categories[0].name, "x");
    assert_eq!(categories[0].pages, vec![1, 2]);
}

#[test]
fn list_item_has_the_slug_of_its_name() {
    let item = ListItem::new("My Test String!!!1!1", 4);
    assert_eq!(item.name, "My Test String!!!1!1");
    assert_eq!(item.slug, "my-test-string-1-1");
    assert_eq!(item.count, 4);
}

#[test]
fn overview_sorts_by_count_then_key_order() {
    let mut site = Site::new("", config("https://example.com"));
    site.parse(vec![
        Entry::Page(page("0.md", "post0", Some(1), None, Some(vec!["a", "Big Tag"]))),
        Entry::Page(page("1.md", "post1", Some(2), None, Some(vec!["Big Tag"]))),
        Entry::Page(page("2.md", "post2", None, None, Some(vec!["c", "Big Tag"]))),
    ]).unwrap();
    let listing = site.render_categories_and_tags(RenderList::Tags).unwrap();
    assert_eq!(listing.list_template, "tags.html");
    assert_eq!(listing.single_template, "tag.html");
    assert_eq!(listing.name, "tags");
    assert_eq!(listing.var_name, "tag");
    assert_eq!(listing.directory, "public/tags");
    assert_eq!(listing.file, "public/tags/index.html");
    assert_eq!(listing.ranking, vec![1, 0, 2]);
    let names: Vec<&str> = listing.items.iter().map(|i| i.name.as_str()).collect();
    assert_eq!(names, vec!["Big Tag", "a", "c"]);
    let counts: Vec<usize> = listing.items.iter().map(|i| i.count).collect();
    assert_eq!(counts, vec![3, 1, 1]);
    assert_eq!(listing.items[0].slug, "big-tag");
    assert_eq!(listing.details.len(), 3);
    assert_eq!(listing.details[1].name, "Big Tag");
    assert_eq!(listing.details[1].slug, "big-tag");
    assert_eq!(listing.details[1].pages, vec![1, 0, 2]);
    assert_eq!(listing.details[1].directory, "public/tags/big-tag");
    assert_eq!(listing.details[1].file, "public/tags/big-tag/index.html");
    assert_eq!(listing.details[0].pages, vec![0]);
    assert!(site.render_categories_and_tags(RenderList::Categories).is_none());
}

#[test]
fn categories_listing_uses_its_own_names() {
    let site = loaded_sample();
    let listing = site.render_categories_and_tags(RenderList::Categories).unwrap();
    assert_eq!(listing.list_template, "categories.html");
    assert_eq!(listing.single_template, "category.html");
    assert_eq!(listing.name, "categories");
    assert_eq!(listing.var_name, "category");
    assert_eq!(listing.directory, "public/categories");
    assert_eq!(listing.details[0].directory, "public/categories/rust");
}

#[test]
fn no_tags_means_no_tag_listing() {
    let mut site = Site::new("", config("https://example.com"));
    site.parse(vec![Entry::Page(page("0.md", "post0", Some(1), Some("c"), None))]).unwrap();
    assert!(site.config.generate_tags_pages);
    assert!(site.render_categories_and_tags(RenderList::Tags).is_none());
    let build = site.build_pages();
    assert!(build.tags.is_none());
    assert!(build.categories.is_some());
}

#[test]
fn listing_toggles_switch_listings_off() {
    let mut cfg = config("https://example.com");
    cfg.generate_categories_pages = false;
    cfg.generate_tags_pages = false;
    let mut site = Site::new("", cfg);
    site.parse(sample_entries()).unwrap();
    let build = site.build_pages();
    assert!(build.categories.is_none());
    assert!(build.tags.is_none());
    let sitemap = site.render_sitemap();
    assert!(sitemap.categories.is_empty());
    assert!(sitemap.tags.is_empty());
}

#[test]
fn feed_is_absent_without_dated_pages() {
    let pages = vec![page("0.md", "post0", None, None, None), page("1.md", "post1", None, None, None)];
    assert!(plan_feed(&pages, "https://example.com", "public").is_none());
    assert!(plan_feed(&vec![], "https://example.com", "public").is_none());
}

#[test]
fn feed_lists_the_fifteen_most_recent() {
    let mut pages = vec![];
    for d in 1..=20u64 {
        pages.push(page(&format!("{}.md", d), &format!("post{}", d), Some(d), None, None));
        pages.push(page(&format!("u{}.md", d), &format!("u{}", d), None, None, None));
    }
    let feed = plan_feed(&pages, "https://example.com", "public").unwrap();
    assert_eq!(feed.pages.len(), 15);
    let dates: Vec<u64> = feed.pages.iter().map(|&p| pages[p].date.unwrap()).collect();
    assert_eq!(dates, (6..=20u64).rev().collect::<Vec<u64>>());
    assert_eq!(feed.last_build_date, 20);
    assert_eq!(feed.file, "public/rss.xml");
}

#[test]
fn feed_with_few_dated_pages_lists_them_all() {
    let pages = vec![
        page("0.md", "post0", Some(3), None, None),
        page("1.md", "post1", None, None, None),
        page("2.md", "post2", Some(7), None, None),
    ];
    let feed = plan_feed(&pages, "https://example.com/", "out").unwrap();
    assert_eq!(feed.pages, vec![2, 0]);
    assert_eq!(feed.last_build_date, 7);
    assert_eq!(feed.file, "out/rss.xml");
}

#[test]
fn feed_url_has_exactly_one_slash() {
    let pages = vec![page("0.md", "post0", Some(3), None, None)];
    let plain = plan_feed(&pages, "https://example.com", "public").unwrap();
    assert_eq!(plain.feed_url, "https://example.com/feed.xml");
    let slashed = plan_feed(&pages, "https://example.com/", "public").unwrap();
    assert_eq!(slashed.feed_url, "https://example.com/feed.xml");
}

#[test]
fn rss_toggle_switches_the_feed_off() {
    let mut cfg = config("https://example.com");
    cfg.generate_rss = false;
    let mut site = Site::new("", cfg);
    let build = site.rebuild_after_content_change(sample_entries()).unwrap();
    assert_eq!(site.state, SiteState::Built);
    assert!(build.feed.is_none());
    assert!(site.render_rss_feed().is_some());
}

#[test]
fn permalink_joins_with_one_slash() {
    assert_eq!(config("https://example.com").make_permalink("tags"), "https://example.com/tags");
    assert_eq!(config("https://example.com/").make_permalink("tags"), "https://example.com/tags");
    assert_eq!(config("").make_permalink("tags"), "/tags");
}

#[test]
fn paths_join_and_split() {
    assert!(has_trailing_slash("a/"));
    assert!(!has_trailing_slash("a"));
    assert!(!has_trailing_slash(""));
    assert_eq!(join_with_slash("a", "b"), "a/b");
    assert_eq!(join_with_slash("a/", "b"), "a/b");
    assert_eq!(join_path("", "b"), "b");
    assert_eq!(join_path("a", "b"), "a/b");
    assert_eq!(join_path("a/", "b"), "a/b");
    assert_eq!(split_segments("a/b/c"), vec!["a", "b", "c"]);
    assert_eq!(split_segments("abc"), vec!["abc"]);
    assert_eq!(split_segments(""), vec![""]);
    assert_eq!(split_segments("a//b/"), vec!["a", "", "b", ""]);
    assert_eq!(last_segment("content/post/image.png"), "image.png");
    assert_eq!(last_segment("image.png"), "image.png");
    assert_eq!(parent_of("content/sub/_index.md"), "content/sub");
    assert_eq!(parent_of("content"), "");
    assert_eq!(parent_of(""), "");
    let (dirs, deepest) = nest("public", &vec!["a".to_string(), "b".to_string()]);
    assert_eq!(dirs, vec!["public/a", "public/a/b"]);
    assert_eq!(deepest, "public/a/b");
    let (none, root) = nest("public", &vec![]);
    assert!(none.is_empty());
    assert_eq!(root, "public");
}

#[test]
fn page_goes_into_the_directory_of_its_url() {
    let mut p = page("content/posts/hello/index.md", "hello", None, None, None);
    p.url = "posts/hello".to_string();
    p.assets = vec!["content/posts/hello/cat.png".to_string()];
    let o = plan_page(&p, 7, "public");
    assert_eq!(o.page, 7);
    assert_eq!(o.directories, vec!["public/posts", "public/posts/hello"]);
    assert_eq!(o.file, "public/posts/hello/index.html");
    assert_eq!(o.assets.len(), 1);
    assert_eq!(o.assets[0].from, "content/posts/hello/cat.png");
    assert_eq!(o.assets[0].to, "public/posts/hello/cat.png");
}

#[test]
fn sitemap_links_overview_and_details() {
    let mut site = Site::new("", config("https://example.com/"));
    site.parse(vec![
        Entry::Page(page("0.md", "post0", Some(1), Some("Dev Ops"), Some(vec!["a"]))),
        Entry::Page(page("1.md", "post1", Some(2), Some("rust"), None)),
    ]).unwrap();
    let sitemap = site.render_sitemap();
    assert_eq!(
        sitemap.categories,
        vec![
            "https://example.com/categories",
            "https://example.com/categories/dev-ops",
            "https://example.com/categories/rust",
        ]
    );
    assert_eq!(sitemap.tags, vec!["https://example.com/tags", "https://example.com/tags/a"]);
    assert_eq!(sitemap.file, "public/sitemap.xml");
    assert_eq!(sitemap.pages, vec![0, 1]);
    assert!(plan_links(&site.config, RenderList::Tags, &site.tags, false).is_empty());
    assert!(plan_links(&site.config, RenderList::Tags, &vec![], true).is_empty());
}

#[test]
fn sections_are_written_in_key_order() {
    let mut site = Site::new("", config("https://example.com"));
    site.parse(vec![
        Entry::Section(section("content/zoo/_index.md", vec!["zoo"])),
        Entry::Section(section("content/_index.md", vec![])),
        Entry::Section(section("content/zoo/apes/_index.md", vec!["zoo", "apes"])),
    ]).unwrap();
    assert_eq!(site.sections[0].subsections, vec![2]);
    assert_eq!(site.sections[1].subsections, vec![0]);
    let outputs = site.render_sections();
    let order: Vec<usize> = outputs.iter().map(|o| o.section).collect();
    assert_eq!(order, vec![1, 0, 2]);
    assert!(outputs[0].directories.is_empty());
    assert_eq!(outputs[0].file, "public/index.html");
    assert_eq!(outputs[2].directories, vec!["public/zoo", "public/zoo/apes"]);
    assert_eq!(outputs[2].file, "public/zoo/apes/index.html");
    assert_eq!(site.render_sitemap().sections, vec![1, 0, 2]);
}

#[test]
fn build_plans_every_step() {
    let mut site = loaded_sample();
    site.set_output_path("out");
    let build = site.build();
    assert_eq!(site.state, SiteState::Built);
    assert_eq!(build.clean, "out");
    assert_eq!(build.copy_static_to, "out");
    assert_eq!(build.pages.root, "out");
    assert_eq!(build.pages.pages.len(), 2);
    assert_eq!(build.pages.pages[0].file, "out/post/index.html");
    assert_eq!(build.pages.index_pages, vec![0, 1]);
    assert_eq!(build.pages.index_file, "out/index.html");
    assert!(build.pages.tags.is_some());
    assert!(build.pages.categories.is_some());
    assert_eq!(build.feed.unwrap().pages, vec![0]);
    assert_eq!(build.sections.len(), 2);
    assert_eq!(build.sitemap.file, "out/sitemap.xml");
}

#[test]
fn template_change_writes_only_pages_again() {
    let site = loaded_sample();
    let outputs = site.rebuild_after_template_change();
    assert_eq!(outputs.len(), 2);
    assert_eq!(outputs[1].page, 1);
    assert_eq!(outputs[1].file, "public/child/index.html");
}

#[test]
fn live_reload_script_goes_before_the_body_end() {
    let mut site = Site::new("", config("https://example.com"));
    let html = "<html><body>hi</body></html>".to_string();
    assert_eq!(site.inject_livereload(html.clone()), html);
    site.enable_live_reload();
    assert_eq!(
        site.inject_livereload(html),
        "<html><body>hi<script src=\"/livereload.js?port=1112&mindelay=10\"></script></body></html>"
    );
    assert_eq!(site.inject_livereload("no body".to_string()), "no body");
}

#[test]
fn clean_deletes_only_what_is_present() {
    let site = Site::new("", config("https://example.com"));
    assert_eq!(site.clean(true), Some("public".to_string()));
    assert_eq!(site.clean(false), None);
}

#[test]
fn static_copy_is_additive() {
    let site = Site::new("", config("https://example.com"));
    assert_eq!(site.copy_static_directory("css", true, true), StaticAction::Nothing);
    assert_eq!(
        site.copy_static_directory("css", true, false),
        StaticAction::CreateDirectory { target: "public/css".to_string() }
    );
    assert_eq!(
        site.copy_static_directory("css/site.css", false, true),
        StaticAction::CopyFile { target: "public/css/site.css".to_string(), replace: true }
    );
    assert_eq!(
        site.copy_static_directory("css/site.css", false, false),
        StaticAction::CopyFile { target: "public/css/site.css".to_string(), replace: false }
    );
}

#[test]
fn reindexing_follows_the_pages() {
    let mut site = loaded_sample();
    site.pages[1].tags = Some(vec!["a".to_string(), "z".to_string()]);
    site.parse_tags_and_categories();
    assert_eq!(site.tags.len(), 2);
    assert_eq!(site.tags[0].pages, vec![0, 1]);
    assert_eq!(site.tags[1].name, "z");
    assert_eq!(site.tags[1].pages, vec![1]);
}

#[test]
fn two_pages_at_one_path_are_refused() {
    let mut site = loaded_sample();
    let before = format!("{:?}", site);
    let twice = vec![
        Entry::Page(page("content/a.md", "a", None, None, None)),
        Entry::Page(page("content/b.md", "b", None, None, None)),
        Entry::Page(page("content/a.md", "again", None, None, None)),
    ];
    assert_eq!(
        site.parse(twice),
        Err(LoadError::DuplicatePath { file_path: "content/a.md".to_string() })
    );
    assert_eq!(format!("{:?}", site), before);
    let again = vec![
        Entry::Page(page("x.md", "x", None, None, None)),
        Entry::Page(page("x.md", "x", None, None, None)),
    ];
    assert!(site.rebuild_after_content_change(again).is_err());
    assert_eq!(format!("{:?}", site), before);
}

#[test]
fn duplicate_search_finds_the_later_page() {
    let pages = vec![
        page("a.md", "a", None, None, None),
        page("b.md", "b", None, None, None),
        page("c.md", "c", None, None, None),
        page("b.md", "d", None, None, None),
    ];
    assert_eq!(find_duplicate(&pages), Some(3));
    assert_eq!(find_duplicate(&pages[..3].iter().map(|p| page(&p.file_path, "t", None, None, None)).collect()), None);
    assert_eq!(find_duplicate(&vec![]), None);
}
