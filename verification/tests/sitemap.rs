use stayhydated::site::sitemap_xml;
use stayhydated::sitemap::render;

#[test]
fn renders_root_and_nested_paths() {
    let sitemap = render("https://example.test/project", &["/", "/demos/", "llms.txt"]);

    assert!(sitemap.contains("<loc>https://example.test/project/</loc>"));
    assert!(sitemap.contains("<loc>https://example.test/project/demos/</loc>"));
    assert!(sitemap.contains("<loc>https://example.test/project/llms.txt</loc>"));
}

#[test]
fn sitemap_includes_index_and_project_sites() {
    let sitemap = sitemap_xml();

    assert!(sitemap.contains("<loc>https://stayhydated.github.io/</loc>"));
    assert!(sitemap.contains("<loc>https://stayhydated.github.io/koruma/</loc>"));
    assert!(sitemap.contains("<loc>https://stayhydated.github.io/es-fluent/</loc>"));
}

#[test]
fn renders_the_exact_document() {
    let sitemap = render("https://x.test/", &["//a"]);
    assert_eq!(
        sitemap,
        "<?xml version=\"1.0\" encoding=\"UTF-8\"?>\n<urlset xmlns=\"http://www.sitemaps.org/schemas/sitemap/0.9\">\n  <url><loc>https://x.test/a</loc></url>\n</urlset>\n"
    );
}

#[test]
fn renders_an_empty_sitemap() {
    assert_eq!(
        render("https://x.test", &[]),
        "<?xml version=\"1.0\" encoding=\"UTF-8\"?>\n<urlset xmlns=\"http://www.sitemaps.org/schemas/sitemap/0.9\">\n</urlset>\n"
    );
}

#[test]
fn site_sitemap_lists_every_language_in_order() {
    let sitemap = sitemap_xml();
    let root = sitemap.find("<loc>https://stayhydated.github.io/</loc>").unwrap();
    let fr = sitemap.find("<loc>https://stayhydated.github.io/fr/</loc>").unwrap();
    let zh = sitemap.find("<loc>https://stayhydated.github.io/zh/</loc>").unwrap();
    let koruma = sitemap.find("<loc>https://stayhydated.github.io/koruma/</loc>").unwrap();
    assert!(root < fr && fr < zh && zh < koruma);
    assert_eq!(sitemap.matches("<url>").count(), 5);
}
