use stayhydated::llms::{build_llms_full_txt, build_llms_txt, workspace_book_dirs, workspace_llms_config, ChapterInfo};
use stayhydated::paths::{join_path, workspace_root_from_xtask_manifest_dir};
use stayhydated::web_build::{workspace_web_build_config, CopyPath, WebBuildConfig};

fn pairs(copies: &[CopyPath]) -> Vec<(&str, &str)> {
    copies.iter().map(|c| (c.source.as_str(), c.destination.as_str())).collect()
}

#[test]
fn github_pages_build_plan() {
    let config = WebBuildConfig::github_pages("/ws").package("site").build();
    assert_eq!(config.command_current_dir, "/ws");
    assert_eq!(
        config.dioxus_args,
        [
            "build", "--package", "site", "--platform", "web", "--ssg", "--release",
            "--debug-symbols", "false", "--force-sequential", "true",
        ]
    );
    assert_eq!(config.dx_public_dir, "/ws/target/dx/web/release/web/public");
    assert_eq!(config.dist_dir, "/ws/web/dist");
    assert_eq!(
        pairs(&config.copy_dirs),
        [
            ("/ws/web/public/assets", "/ws/web/dist/assets"),
            ("/ws/web/public/book", "/ws/web/dist/book"),
            ("/ws/web/public/llms", "/ws/web/dist/llms"),
        ]
    );
    assert_eq!(
        pairs(&config.copy_files),
        [
            ("/ws/web/public/.nojekyll", "/ws/web/dist/.nojekyll"),
            ("/ws/web/public/llms.txt", "/ws/web/dist/llms.txt"),
            ("/ws/web/public/llms-full.txt", "/ws/web/dist/llms-full.txt"),
        ]
    );
    assert!(config.write_404_from_index);
    assert_eq!(config.sitemap_xml, None);
}

#[test]
fn builder_extras_follow_the_fixed_copies() {
    let config = WebBuildConfig::github_pages("/ws/")
        .no_public_assets_dir()
        .command_current_dir("elsewhere")
        .extra_dir("demos/out", "demos")
        .extra_file("CNAME", "/abs/CNAME")
        .sitemap_xml("<xml/>".to_owned())
        .build();
    assert_eq!(config.command_current_dir, "elsewhere");
    assert_eq!(config.dioxus_args.len(), 9);
    assert_eq!(
        pairs(&config.copy_dirs),
        [
            ("/ws/web/public/book", "/ws/web/dist/book"),
            ("/ws/web/public/llms", "/ws/web/dist/llms"),
            ("/ws/demos/out", "/ws/web/dist/demos"),
        ]
    );
    assert_eq!(pairs(&config.copy_files)[3], ("/ws/CNAME", "/abs/CNAME"));
    assert_eq!(config.sitemap_xml.as_deref(), Some("<xml/>"));
}

#[test]
fn public_assets_dir_can_be_moved() {
    let config = WebBuildConfig::github_pages("ws").public_assets_dir("static").build();
    assert_eq!(pairs(&config.copy_dirs)[0], ("ws/static", "ws/web/dist/assets"));
}

#[test]
fn workspace_web_build_runs_dx_in_web_and_writes_the_sitemap() {
    let config = workspace_web_build_config("/ws");
    assert_eq!(config.command_current_dir, "/ws/web");
    assert!(config.sitemap_xml.unwrap().contains("<loc>https://stayhydated.github.io/</loc>"));
}

#[test]
fn paths_join_like_unix_paths() {
    assert_eq!(join_path("/a", "b"), "/a/b");
    assert_eq!(join_path("/a/", "b"), "/a/b");
    assert_eq!(join_path("", "b"), "b");
    assert_eq!(join_path("/a", "/b"), "/b");
    assert_eq!(join_path("a", ""), "a/");
}

#[test]
fn workspace_root_is_the_parent_of_the_xtask_directory() {
    assert_eq!(workspace_root_from_xtask_manifest_dir("/repo/xtask").unwrap(), "/repo");
    assert_eq!(workspace_root_from_xtask_manifest_dir("/repo/xtask/").unwrap(), "/repo");
    assert_eq!(
        workspace_root_from_xtask_manifest_dir("/").unwrap_err(),
        "failed to resolve workspace root from xtask manifest directory"
    );
}

fn chapters() -> Vec<ChapterInfo> {
    vec![
        ChapterInfo { name: "Intro".to_owned(), path: "intro.md".to_owned(), content: "# Intro".to_owned() },
        ChapterInfo { name: "Guide".to_owned(), path: "guide/start.md".to_owned(), content: "Start".to_owned() },
    ]
}

#[test]
fn llms_index_links_every_chapter() {
    assert_eq!(
        build_llms_txt(&chapters(), "# Book", "https://x.test", "llms"),
        "# Book\n## Docs\n\n- [Intro](https://x.test/llms/intro.md)\n- [Guide](https://x.test/llms/guide/start.md)\n"
    );
}

#[test]
fn llms_full_holds_every_chapter() {
    assert_eq!(
        build_llms_full_txt(&chapters(), "# Book"),
        "# Book\n## Docs\n\n# Intro\n\n---\n\nStart\n\n---\n\n"
    );
}

#[test]
fn workspace_llms_paths() {
    let config = workspace_llms_config("/ws", "https://x.test", "# H", None);
    assert_eq!(config.book_root, "/ws/book");
    assert_eq!(config.llms_path, "/ws/web/public/llms.txt");
    assert_eq!(config.llms_full_path, "/ws/web/public/llms-full.txt");
    assert_eq!(config.llms_markdown_dir, "/ws/web/public/llms");
    assert_eq!(config.markdown_dir_name, "llms");
    let named = workspace_llms_config("/ws", "u", "h", Some("md"));
    assert_eq!(named.llms_markdown_dir, "/ws/web/public/md");
}

#[test]
fn workspace_book_paths() {
    assert_eq!(
        workspace_book_dirs("/ws"),
        ("/ws/book".to_owned(), "/ws/web/public/book".to_owned())
    );
}
