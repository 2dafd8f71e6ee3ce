use stayhydated::layout::{button_link_class, grid_class, join_classes, nav_link_class, panel_class, PanelKind};
use stayhydated::site::{
    all_routes, app_route, generated_top_level_dirs, is_locale_dir_name, language_change,
    locale_switch_route,
    page_href, relative_path, site_route_from_path, site_route_from_path_with_base_path,
    static_route_hrefs, generated_root_files, AppRoute, LocaleSegment, PageKind, SiteLanguage,
    SiteRoute, GENERATED_ROUTE_CACHE_MARKER,
};

#[test]
fn parses_localized_routes() {
    assert_eq!(
        site_route_from_path_with_base_path("/your_repo/zh/", Some("your_repo")),
        SiteRoute::new(SiteLanguage::ZhCn, PageKind::Home)
    );
    assert_eq!(
        site_route_from_path("/fr/"),
        SiteRoute::new(SiteLanguage::FrFr, PageKind::Home)
    );
    assert_eq!(
        site_route_from_path("/unknown"),
        SiteRoute::new(SiteLanguage::EnUs, PageKind::Home)
    );
}

#[test]
fn languages_and_their_slugs() {
    assert_eq!(SiteLanguage::all(), [SiteLanguage::EnUs, SiteLanguage::FrFr, SiteLanguage::ZhCn]);
    assert_eq!(SiteLanguage::default(), SiteLanguage::EnUs);
    assert!(SiteLanguage::EnUs.is_default());
    assert_eq!(SiteLanguage::EnUs.route_slug(), None);
    assert_eq!(SiteLanguage::ZhCn.route_slug().as_deref(), Some("zh"));
    assert_eq!(SiteLanguage::FrFr.html_lang(), "fr-FR");
    assert_eq!(SiteLanguage::from_route_slug("zh"), Some(SiteLanguage::ZhCn));
    assert_eq!(SiteLanguage::from_route_slug("en"), None);
    assert_eq!(SiteLanguage::from_route_slug(""), None);
}

#[test]
fn every_language_slug_round_trips() {
    for language in SiteLanguage::all() {
        if let Some(slug) = language.route_slug() {
            assert_eq!(SiteLanguage::from_route_slug(&slug), Some(language));
        }
    }
}

#[test]
fn routes_and_paths() {
    let routes = all_routes();
    assert_eq!(routes.len(), 3);
    assert_eq!(routes[0].path(), "/");
    assert_eq!(routes[1].path(), "/fr/");
    assert_eq!(routes[2].output_dir(), "zh");
    assert_eq!(relative_path(SiteLanguage::EnUs, PageKind::Home), "");
    assert_eq!(PageKind::Home.title(), "stayhydated");
}

#[test]
fn hrefs_under_a_base_path() {
    assert_eq!(page_href(None, SiteLanguage::EnUs, PageKind::Home), "/");
    assert_eq!(page_href(Some("/repo/"), SiteLanguage::ZhCn, PageKind::Home), "/repo/zh/");
    assert_eq!(static_route_hrefs(Some("repo")), ["/repo/", "/repo/fr/", "/repo/zh/"]);
}

#[test]
fn locale_segments_parse_and_print() {
    assert_eq!("fr".parse::<LocaleSegment>(), Ok(LocaleSegment(SiteLanguage::FrFr)));
    assert_eq!(
        LocaleSegment::parse("de"),
        Err("unsupported locale route segment: de".to_owned())
    );
    assert_eq!(LocaleSegment(SiteLanguage::ZhCn).to_slug().as_deref(), Some("zh"));
    assert_eq!(LocaleSegment(SiteLanguage::EnUs).to_slug(), None);
    assert_eq!(LocaleSegment(SiteLanguage::FrFr).language(), SiteLanguage::FrFr);
}

#[test]
fn app_routes_and_locale_switches() {
    assert_eq!(app_route(SiteLanguage::EnUs, PageKind::Home), AppRoute::Home {});
    assert_eq!(
        app_route(SiteLanguage::ZhCn, PageKind::Home),
        AppRoute::LocalizedHome { locale: LocaleSegment(SiteLanguage::ZhCn) }
    );
    assert_eq!(locale_switch_route(SiteLanguage::FrFr, SiteLanguage::FrFr, PageKind::Home), None);
    assert_eq!(
        locale_switch_route(SiteLanguage::FrFr, SiteLanguage::EnUs, PageKind::Home),
        Some(AppRoute::Home {})
    );
}

#[test]
fn generated_route_cache_directories() {
    assert_eq!(generated_top_level_dirs(), ["fr", "zh"]);
    assert!(is_locale_dir_name("zh"));
    assert!(!is_locale_dir_name("koruma"));
    assert!(!is_locale_dir_name("assets"));
}

#[test]
fn layout_classes() {
    assert_eq!(PanelKind::Code.class(), "code-band");
    assert_eq!(panel_class(PanelKind::Hero, "wide"), "hero wide");
    assert_eq!(join_classes("grid", ""), "grid");
    assert_eq!(join_classes("grid", " \t\u{2003}"), "grid");
    assert_eq!(join_classes("grid", " x "), "grid  x ");
    assert_eq!(grid_class(Some(2), ""), "grid columns-2");
    assert_eq!(grid_class(Some(3), "a"), "grid columns-3 a");
    assert_eq!(grid_class(Some(4), ""), "grid");
    assert_eq!(grid_class(None, "b"), "grid b");
    assert_eq!(nav_link_class(true), "header-nav-item is-active");
    assert_eq!(nav_link_class(false), "header-nav-item");
    assert_eq!(button_link_class("primary"), "button-link primary");
}

#[test]
fn page_links_read_back_as_their_pages() {
    for base in [None, Some(""), Some("/"), Some("repo"), Some("/a/b/")] {
        for language in SiteLanguage::all() {
            let link = page_href(base, language, PageKind::Home);
            assert_eq!(
                site_route_from_path_with_base_path(&link, base),
                SiteRoute::new(language, PageKind::Home),
                "{link} under {base:?}"
            );
        }
    }
}

#[test]
fn blank_extra_classes_follow_the_white_space_set() {
    assert_eq!(join_classes("grid", "\u{85}\u{a0}\u{1680}\u{200a}\u{2028}\u{2029}\u{202f}\u{205f}\u{3000}"), "grid");
    assert_eq!(join_classes("grid", "\u{200b}"), "grid \u{200b}");
    assert_eq!(join_classes("grid", "\u{1c}"), "grid \u{1c}");
}

#[test]
fn language_picker_reports_only_real_changes() {
    let (en, fr, zh) = (SiteLanguage::EnUs, SiteLanguage::FrFr, SiteLanguage::ZhCn);
    assert_eq!(language_change(Some(en), Some(fr)), Some(fr));
    assert_eq!(language_change(Some(zh), Some(zh)), None);
    assert_eq!(language_change(Some(en), None), None);
    assert_eq!(language_change(None, Some(en)), Some(en));
    assert_eq!(language_change(None, None), None);
}

#[test]
fn route_cache_owns_root_pages_and_language_dirs() {
    assert_eq!(generated_root_files(), vec!["index.html".to_owned(), "404.html".to_owned()]);
    assert_eq!(GENERATED_ROUTE_CACHE_MARKER, ".stayhydated-generated-route-cache");
    let dirs = generated_top_level_dirs();
    assert!(dirs.iter().all(|dir| is_locale_dir_name(dir)));
    assert!(!dirs.iter().any(|dir| dir == "koruma" || dir == "assets"));
}
