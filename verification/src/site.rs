//! The pages of the stayhydated project index: its languages, routes, links and sitemap.
use vstd::prelude::*;
use crate::routing::{base_href, href, opt_view, spec_base_href, spec_href, spec_normalized_path_segments};
use crate::routing::normalized_path_segments;
use crate::sitemap::{render, spec_render};
use crate::text::{
    concat3, join_seq, join_strings, lemma_path_segments_no_slash, lemma_path_segments_nonempty,
    lemma_path_segments_split_at_slash, path_segments, segments_from, str_eq, str_views, string_views,
    trim_char,
};

verus! {

/// The address the site is published at.
pub const SITE_URL: &'static str = "https://stayhydated.github.io";

/// The name of the site.
pub const SITE_NAME: &'static str = "stayhydated";

/// The description of the home page.
pub const HOME_PAGE_DESCRIPTION: &'static str = "Type-safe Rust projects from stayhydated";

/// Where the koruma project's site lives.
pub const KORUMA_SITE_URL: &'static str = "/koruma/";

/// Where the es-fluent project's site lives.
pub const ES_FLUENT_SITE_URL: &'static str = "/es-fluent/";

/// The koruma repository.
pub const KORUMA_GITHUB_URL: &'static str = "https://github.com/stayhydated/koruma";

/// The es-fluent repository.
pub const ES_FLUENT_GITHUB_URL: &'static str = "https://github.com/stayhydated/es-fluent";

/// A language the site is translated into.
#[derive(Clone, Copy, Debug, PartialEq, Eq, Structural)]
pub enum SiteLanguage {
    EnUs,
    FrFr,
    ZhCn,
}

/// The languages of the site, default first.
pub open spec fn spec_all_languages() -> Seq<SiteLanguage> {
    seq![SiteLanguage::EnUs, SiteLanguage::FrFr, SiteLanguage::ZhCn]
}

/// The BCP 47 tag of a language.
pub open spec fn spec_lang_tag(l: SiteLanguage) -> Seq<char> {
    match l {
        SiteLanguage::EnUs => "en-US"@,
        SiteLanguage::FrFr => "fr-FR"@,
        SiteLanguage::ZhCn => "zh-CN"@,
    }
}

/// The language subtag of a language's tag.
pub open spec fn spec_language_code(l: SiteLanguage) -> Seq<char> {
    match l {
        SiteLanguage::EnUs => "en"@,
        SiteLanguage::FrFr => "fr"@,
        SiteLanguage::ZhCn => "zh"@,
    }
}

/// The URL segment of a language: none for the default language, else its language subtag.
pub open spec fn spec_route_slug(l: SiteLanguage) -> Option<Seq<char>> {
    if l == SiteLanguage::EnUs {
        None
    } else {
        Some(spec_language_code(l))
    }
}

impl Default for SiteLanguage {
    /// The default language of the site, served without a URL segment.
    fn default() -> (r: Self)
        ensures
            r == SiteLanguage::EnUs,
    {
        SiteLanguage::EnUs
    }
}

impl SiteLanguage {
    /// Every language of the site, the default first.
    pub fn all() -> (r: Vec<SiteLanguage>)
        ensures
            r@ == spec_all_languages(),
    {
        let r = vec![SiteLanguage::EnUs, SiteLanguage::FrFr, SiteLanguage::ZhCn];
        assert(r@ =~= spec_all_languages());
        r
    }

    /// The BCP 47 tag of this language.
    pub fn lang_tag(self) -> (r: &'static str)
        ensures
            r@ == spec_lang_tag(self),
    {
        match self {
            SiteLanguage::EnUs => "en-US",
            SiteLanguage::FrFr => "fr-FR",
            SiteLanguage::ZhCn => "zh-CN",
        }
    }

    /// The value of the `lang` attribute of pages in this language.
    pub fn html_lang(self) -> (r: String)
        ensures
            r@ == spec_lang_tag(self),
    {
        self.lang_tag().to_owned()
    }

    /// Whether this is the default language.
    pub fn is_default(self) -> (r: bool)
        ensures
            r == (self == SiteLanguage::EnUs),
    {
        self == SiteLanguage::EnUs
    }

    /// The URL segment of this language, none for the default language.
    pub fn route_slug(self) -> (r: Option<String>)
        ensures
            match r {
                Some(s) => spec_route_slug(self) == Some(s@),
                None => spec_route_slug(self) is None,
            },
    {
        match self {
            SiteLanguage::EnUs => None,
            SiteLanguage::FrFr => Some("fr".to_owned()),
            SiteLanguage::ZhCn => Some("zh".to_owned()),
        }
    }

    /// The language whose URL segment is `slug`, if any.
    pub fn from_route_slug(slug: &str) -> (r: Option<Self>)
        ensures
            match r {
                Some(l) => spec_route_slug(l) == Some(slug@),
                None => forall|l: SiteLanguage| spec_route_slug(l) != Some(slug@),
            },
    {
        if str_eq(slug, "fr") {
            Some(SiteLanguage::FrFr)
        } else if str_eq(slug, "zh") {
            Some(SiteLanguage::ZhCn)
        } else {
            None
        }
    }
}

/// No two languages share a URL segment.
pub proof fn lemma_route_slug_injective(a: SiteLanguage, b: SiteLanguage)
    ensures
        spec_route_slug(a) is Some && spec_route_slug(a) == spec_route_slug(b) ==> a == b,
{
    reveal_strlit("fr");
    reveal_strlit("zh");
    assert("fr"@[0] != "zh"@[0]);
}

/// Each language other than the default is found again from its URL segment.
pub proof fn lemma_route_slug_round_trip(l: SiteLanguage)
    requires
        l != SiteLanguage::EnUs,
    ensures
        spec_route_slug(l) matches Some(s) && forall|m: SiteLanguage| spec_route_slug(m) == Some(s) ==> m == l,
{
    assert forall|m: SiteLanguage| spec_route_slug(m) == spec_route_slug(l) implies m == l by {
        lemma_route_slug_injective(m, l);
    }
}

/// A page of the site, independent of its language.
#[derive(Clone, Copy, Debug, PartialEq, Eq, Structural)]
pub enum PageKind {
    Home,
}

/// The route segment of a page below its language segment.
pub open spec fn spec_page_route(page: PageKind) -> Seq<char> {
    match page {
        PageKind::Home => ""@,
    }
}

impl PageKind {
    /// The route segment of this page; empty for the home page.
    pub fn route(self) -> (r: &'static str)
        ensures
            r@ == spec_page_route(self),
    {
        match self {
            PageKind::Home => "",
        }
    }

    /// The title of this page.
    pub fn title(self) -> (r: &'static str)
        ensures
            r@ == SITE_NAME@,
    {
        match self {
            PageKind::Home => SITE_NAME,
        }
    }

    /// The description of this page.
    pub fn description(self) -> (r: &'static str)
        ensures
            r@ == HOME_PAGE_DESCRIPTION@,
    {
        match self {
            PageKind::Home => HOME_PAGE_DESCRIPTION,
        }
    }
}

/// A page of the site in one language.
#[derive(Clone, Copy, Debug, PartialEq, Eq, Structural)]
pub struct SiteRoute {
    pub locale: SiteLanguage,
    pub page: PageKind,
}

/// The non-empty route segments of a page in a language: the language segment, then the
/// page segment.
pub open spec fn spec_route_segments(locale: SiteLanguage, page: PageKind) -> Seq<Seq<char>> {
    (match spec_route_slug(locale) {
        Some(s) => seq![s],
        None => seq![],
    }) + (if spec_page_route(page).len() == 0 {
        seq![]
    } else {
        seq![spec_page_route(page)]
    })
}

/// The directory, relative to the site root, that a page in a language is written to.
pub open spec fn spec_relative_path(locale: SiteLanguage, page: PageKind) -> Seq<char> {
    join_seq(spec_route_segments(locale, page), "/"@)
}

/// The absolute path of a page in a language: `/` for the root, else `/{dir}/`.
pub open spec fn spec_route_path(route: SiteRoute) -> Seq<char> {
    let relative = spec_relative_path(route.locale, route.page);
    if relative.len() == 0 {
        "/"@
    } else {
        "/"@ + relative + "/"@
    }
}

/// The directory of a page in a language, relative to the site root.
pub fn relative_path(locale: SiteLanguage, page: PageKind) -> (r: String)
    ensures
        r@ == spec_relative_path(locale, page),
{
    let mut segments: Vec<String> = Vec::new();
    match locale.route_slug() {
        Some(slug) => {
            segments.push(slug);
        },
        None => {},
    }
    let page_segment = page.route();
    if page_segment.unicode_len() > 0 {
        segments.push(page_segment.to_owned());
    }
    assert(string_views(segments@) =~= spec_route_segments(locale, page));
    join_strings(&segments, "/")
}

impl SiteRoute {
    /// The page `page` in the language `locale`.
    pub fn new(locale: SiteLanguage, page: PageKind) -> (r: Self)
        ensures
            r == (SiteRoute { locale, page }),
    {
        SiteRoute { locale, page }
    }

    /// The directory this page is written to, relative to the site root.
    pub fn output_dir(self) -> (r: String)
        ensures
            r@ == spec_relative_path(self.locale, self.page),
    {
        relative_path(self.locale, self.page)
    }

    /// The absolute path of this page.
    pub fn path(self) -> (r: String)
        ensures
            r@ == spec_route_path(self),
    {
        let relative = self.output_dir();
        if relative.as_str().unicode_len() == 0 {
            "/".to_owned()
        } else {
            concat3("/", relative.as_str(), "/")
        }
    }
}

/// Every page of the site: the home page in each language, default first.
pub open spec fn spec_all_routes() -> Seq<SiteRoute> {
    Seq::new(
        spec_all_languages().len(),
        |i: int| SiteRoute { locale: spec_all_languages()[i], page: PageKind::Home },
    )
}

/// Every page of the site.
pub fn all_routes() -> (r: Vec<SiteRoute>)
    ensures
        r@ == spec_all_routes(),
{
    let languages = SiteLanguage::all();
    let mut routes: Vec<SiteRoute> = Vec::new();
    let mut i: usize = 0;
    while i < languages.len()
        invariant
            languages@ == spec_all_languages(),
            i <= languages@.len(),
            routes@ =~= spec_all_routes().take(i as int),
        decreases languages@.len() - i,
    {
        routes.push(SiteRoute::new(languages[i], PageKind::Home));
        i = i + 1;
    }
    assert(spec_all_routes().take(3) =~= spec_all_routes());
    routes
}

/// The link to a page in a language, for a site served under `base_path`.
pub fn page_href(base_path: Option<&str>, locale: SiteLanguage, page: PageKind) -> (r: String)
    ensures
        r@ == spec_href(spec_base_href(opt_view(base_path)), spec_relative_path(locale, page)),
{
    let base = base_href(base_path);
    let relative = relative_path(locale, page);
    href(base.as_str(), relative.as_str())
}

/// The links to every page of the site, in the order of [`all_routes`].
pub fn static_route_hrefs(base_path: Option<&str>) -> (r: Vec<String>)
    ensures
        r@.len() == spec_all_routes().len(),
        forall|i: int|
            0 <= i < r@.len() ==> #[trigger] r@[i]@ == spec_href(
                spec_base_href(opt_view(base_path)),
                spec_relative_path(spec_all_routes()[i].locale, spec_all_routes()[i].page),
            ),
{
    let routes = all_routes();
    let mut out: Vec<String> = Vec::new();
    let mut i: usize = 0;
    while i < routes.len()
        invariant
            routes@ == spec_all_routes(),
            i <= routes@.len(),
            out@.len() == i,
            forall|k: int|
                0 <= k < i ==> #[trigger] out@[k]@ == spec_href(
                    spec_base_href(opt_view(base_path)),
                    spec_relative_path(spec_all_routes()[k].locale, spec_all_routes()[k].page),
                ),
        decreases routes@.len() - i,
    {
        out.push(page_href(base_path, routes[i].locale, routes[i].page));
        i = i + 1;
    }
    out
}

/// The language segment of a URL.
#[derive(Clone, Debug, PartialEq, Eq)]
pub struct LocaleSegment(pub SiteLanguage);

impl LocaleSegment {
    /// The language this segment stands for.
    pub fn language(&self) -> (r: SiteLanguage)
        ensures
            r == self.0,
    {
        self.0
    }

    /// The segment `s` of a URL, when it names a language.
    pub fn parse(s: &str) -> (r: Result<LocaleSegment, String>)
        ensures
            match r {
                Ok(seg) => spec_route_slug(seg.0) == Some(s@),
                Err(message) => (forall|l: SiteLanguage| spec_route_slug(l) != Some(s@))
                    && message@ == "unsupported locale route segment: "@ + s@,
            },
    {
        match SiteLanguage::from_route_slug(s) {
            Some(l) => Ok(LocaleSegment(l)),
            None => {
                let mut message = "unsupported locale route segment: ".to_owned();
                message.append(s);
                Err(message)
            },
        }
    }

    /// How this segment is written in a URL; the default language has no segment.
    pub fn to_slug(&self) -> (r: Option<String>)
        ensures
            match r {
                Some(s) => spec_route_slug(self.0) == Some(s@),
                None => spec_route_slug(self.0) is None,
            },
    {
        self.0.route_slug()
    }
}

impl std::str::FromStr for LocaleSegment {
    type Err = String;

    fn from_str(s: &str) -> (r: Result<Self, Self::Err>)
        ensures
            match r {
                Ok(seg) => spec_route_slug(seg.0) == Some(s@),
                Err(message) => (forall|l: SiteLanguage| spec_route_slug(l) != Some(s@))
                    && message@ == "unsupported locale route segment: "@ + s@,
            },
    {
        LocaleSegment::parse(s)
    }
}

/// A route of the site's router.
#[derive(Clone, Debug, PartialEq, Eq)]
pub enum AppRoute {
    Home {},
    LocalizedHome { locale: LocaleSegment },
}

/// The router route of a page in a language.
pub fn app_route(locale: SiteLanguage, page: PageKind) -> (r: AppRoute)
    ensures
        match r {
            AppRoute::Home {  } => locale == SiteLanguage::EnUs,
            AppRoute::LocalizedHome { locale: seg } => locale != SiteLanguage::EnUs && seg.0 == locale,
        },
{
    match (locale.route_slug(), page) {
        (None, PageKind::Home) => AppRoute::Home {  },
        (Some(_), PageKind::Home) => AppRoute::LocalizedHome { locale: LocaleSegment(locale) },
    }
}

/// The language that the first segment of a path names, the default language otherwise.
pub open spec fn spec_locale_of_segments(segments: Seq<Seq<char>>) -> SiteLanguage {
    if segments.len() > 0 && exists|l: SiteLanguage| spec_route_slug(l) == Some(segments[0]) {
        choose|l: SiteLanguage| spec_route_slug(l) == Some(segments[0])
    } else {
        SiteLanguage::EnUs
    }
}

/// The page at `path` of a site served under `base_path`: the home page in the language
/// that the first segment after the base names, or in the default language.
pub fn site_route_from_path_with_base_path(path: &str, base_path: Option<&str>) -> (r: SiteRoute)
    ensures
        r.page == PageKind::Home,
        r.locale == spec_locale_of_segments(spec_normalized_path_segments(path@, opt_view(base_path))),
{
    let segments = normalized_path_segments(path, base_path);
    let ghost segs = spec_normalized_path_segments(path@, opt_view(base_path));
    let locale = if segments.len() > 0 {
        assert(str_views(segments@)[0] == segments@[0]@);
        assert(segments@[0]@ == segs[0]);
        match SiteLanguage::from_route_slug(segments[0]) {
            Some(l) => {
                proof {
                    let c = choose|m: SiteLanguage| spec_route_slug(m) == Some(segs[0]);
                    lemma_route_slug_injective(c, l);
                }
                l
            },
            None => SiteLanguage::EnUs,
        }
    } else {
        SiteLanguage::EnUs
    };
    SiteRoute::new(locale, PageKind::Home)
}

/// The page at `path` of a site served at the root.
pub fn site_route_from_path(path: &str) -> (r: SiteRoute)
    ensures
        r.page == PageKind::Home,
        r.locale == spec_locale_of_segments(spec_normalized_path_segments(path@, None)),
{
    site_route_from_path_with_base_path(path, None)
}

/// The text of `s` before its first `/`.
pub open spec fn before_first_slash(s: Seq<char>) -> Seq<char>
    decreases s.len(),
{
    if s.len() == 0 || s[0] == '/' {
        seq![]
    } else {
        seq![s[0]] + before_first_slash(s.drop_first())
    }
}

/// The top-level directories that the pages of the site are written to, in route order.
pub open spec fn spec_generated_top_level_dirs(routes: Seq<SiteRoute>) -> Seq<Seq<char>>
    decreases routes.len(),
{
    if routes.len() == 0 {
        seq![]
    } else {
        let prev = spec_generated_top_level_dirs(routes.drop_last());
        let first = before_first_slash(spec_relative_path(routes.last().locale, routes.last().page));
        if first.len() == 0 {
            prev
        } else {
            prev.push(first)
        }
    }
}

/// The text of `s` before its first `/`.
fn first_segment(s: &str) -> (r: &str)
    ensures
        r@ == before_first_slash(s@),
{
    let n = s.unicode_len();
    let mut i: usize = 0;
    while i < n && s.get_char(i) != '/'
        invariant
            n == s@.len(),
            i <= n,
            forall|k: int| 0 <= k < i ==> s@[k] != '/',
        decreases n - i,
    {
        i = i + 1;
    }
    proof {
        lemma_before_first_slash(s@, i as int);
    }
    s.substring_char(0, i)
}

/// The text before the first `/` is the prefix up to the first `/` found.
proof fn lemma_before_first_slash(s: Seq<char>, i: int)
    requires
        0 <= i <= s.len(),
        forall|k: int| 0 <= k < i ==> s[k] != '/',
        i == s.len() || s[i] == '/',
    ensures
        before_first_slash(s) == s.subrange(0, i),
    decreases i,
{
    if i > 0 {
        lemma_before_first_slash(s.drop_first(), i - 1);
        assert(seq![s[0]] + s.drop_first().subrange(0, i - 1) =~= s.subrange(0, i));
    } else {
        assert(s.subrange(0, 0) =~= Seq::<char>::empty());
    }
}

/// The top-level directories that the pages of the site are generated into.
pub fn generated_top_level_dirs() -> (r: Vec<String>)
    ensures
        string_views(r@) == spec_generated_top_level_dirs(spec_all_routes()),
{
    let routes = all_routes();
    let mut dirs: Vec<String> = Vec::new();
    let mut i: usize = 0;
    assert(routes@.take(0) =~= Seq::<SiteRoute>::empty());
    while i < routes.len()
        invariant
            routes@ == spec_all_routes(),
            i <= routes@.len(),
            string_views(dirs@) == spec_generated_top_level_dirs(routes@.take(i as int)),
        decreases routes@.len() - i,
    {
        assert(routes@.take(i + 1).drop_last() =~= routes@.take(i as int));
        assert(routes@.take(i + 1).last() == routes@[i as int]);
        let dir = routes[i].output_dir();
        let first = first_segment(dir.as_str());
        if first.unicode_len() > 0 {
            let ghost before = dirs@;
            dirs.push(first.to_owned());
            assert(string_views(dirs@) =~= string_views(before).push(first@));
        }
        i = i + 1;
    }
    assert(routes@.take(3) =~= routes@);
    dirs
}

/// The file that marks a public directory whose generated pages the site server owns.
pub const GENERATED_ROUTE_CACHE_MARKER: &'static str = ".stayhydated-generated-route-cache";

/// The text of the route cache marker.
pub const GENERATED_ROUTE_CACHE_MARKER_TEXT: &'static str =
    "Generated route cache owned by stayhydated web server.\n";

/// The pages that the server generates at the top of the public directory.
pub open spec fn spec_generated_root_files() -> Seq<Seq<char>> {
    seq!["index.html"@, "404.html"@]
}

/// The pages that the server generates at the top of the public directory: the default
/// language's home page and the not-found page.
pub fn generated_root_files() -> (r: Vec<String>)
    ensures
        string_views(r@) == spec_generated_root_files(),
{
    let r = vec!["index.html".to_owned(), "404.html".to_owned()];
    assert(string_views(r@) =~= spec_generated_root_files());
    r
}

/// Whether a directory of the published site named `name` belongs to a language.
pub fn is_locale_dir_name(name: &str) -> (r: bool)
    ensures
        r == exists|l: SiteLanguage| spec_route_slug(l) == Some(name@),
{
    match SiteLanguage::from_route_slug(name) {
        Some(l) => true,
        None => false,
    }
}

/// The paths that the sitemap lists: every page of the site, then the project sites.
pub open spec fn spec_sitemap_paths() -> Seq<Seq<char>> {
    Seq::new(spec_all_routes().len(), |i: int| spec_route_path(spec_all_routes()[i])) + seq![
        "/koruma/"@,
        "/es-fluent/"@,
    ]
}

/// The sitemap of the site: every page in every language, then the project sites.
pub fn sitemap_xml() -> (r: String)
    ensures
        r@ == spec_render(SITE_URL@, spec_sitemap_paths()),
{
    let routes = all_routes();
    let mut paths: Vec<String> = Vec::new();
    let mut i: usize = 0;
    while i < routes.len()
        invariant
            routes@ == spec_all_routes(),
            i <= routes@.len(),
            paths@.len() == i,
            forall|k: int| 0 <= k < i ==> #[trigger] paths@[k]@ == spec_route_path(routes@[k]),
        decreases routes@.len() - i,
    {
        paths.push(routes[i].path());
        i = i + 1;
    }
    paths.push("/koruma/".to_owned());
    paths.push("/es-fluent/".to_owned());
    assert(string_views(paths@) =~= spec_sitemap_paths());
    let mut refs: Vec<&str> = Vec::new();
    let mut j: usize = 0;
    while j < paths.len()
        invariant
            j <= paths@.len(),
            refs@.len() == j,
            forall|k: int| 0 <= k < j ==> #[trigger] refs@[k]@ == paths@[k]@,
        decreases paths@.len() - j,
    {
        refs.push(paths[j].as_str());
        j = j + 1;
    }
    assert(str_views(refs@) =~= string_views(paths@));
    render(SITE_URL, refs.as_slice())
}

/// Where the language switcher leads when the reader picks `next` on `page` shown in
/// `current`: nowhere when it is the same language, else the page in the new language.
pub fn locale_switch_route(current: SiteLanguage, next: SiteLanguage, page: PageKind) -> (r: Option<AppRoute>)
    ensures
        match r {
            None => next == current,
            Some(route) => next != current && match route {
                AppRoute::Home {  } => next == SiteLanguage::EnUs,
                AppRoute::LocalizedHome { locale: seg } => next != SiteLanguage::EnUs && seg.0 == next,
            },
        },
{
    if next == current {
        None
    } else {
        Some(app_route(next, page))
    }
}

/// The language a language picker reports when the reader picks `next` while `current` is
/// selected: `next` itself when it is a language other than the selected one, else nothing.
pub open spec fn spec_language_change(current: Option<SiteLanguage>, next: Option<SiteLanguage>) -> Option<SiteLanguage> {
    match next {
        Some(v) => if Some(v) != current {
            Some(v)
        } else {
            None
        },
        None => None,
    }
}

/// The change a language picker reports when the reader picks `next` while `current` is
/// selected: `Some(v)` exactly when `next` is `Some(v)` and differs from `current`; an empty
/// pick or the selected language again reports nothing.
pub fn language_change(current: Option<SiteLanguage>, next: Option<SiteLanguage>) -> (r: Option<SiteLanguage>)
    ensures
        r == spec_language_change(current, next),
        forall|v: SiteLanguage| r == Some(v) <==> (next == Some(v) && Some(v) != current),
{
    match next {
        Some(v) => {
            let changed = match current {
                Some(c) => c != v,
                None => true,
            };
            if changed {
                Some(v)
            } else {
                None
            }
        },
        None => None,
    }
}

/// The language segment of a language, or nothing for the default language.
proof fn lemma_relative_path_home(l: SiteLanguage)
    ensures
        spec_relative_path(l, PageKind::Home) == match spec_route_slug(l) {
            Some(s) => s,
            None => seq![],
        },
        spec_relative_path(l, PageKind::Home).len() == 0 <==> l == SiteLanguage::EnUs,
        forall|k: int|
            0 <= k < spec_relative_path(l, PageKind::Home).len() ==> spec_relative_path(
                l,
                PageKind::Home,
            )[k] != '/',
{
    reveal_strlit("");
    reveal_strlit("fr");
    reveal_strlit("zh");
    let segs = spec_route_segments(l, PageKind::Home);
    match spec_route_slug(l) {
        Some(s) => {
            assert(segs =~= seq![s]);
        },
        None => {
            assert(segs =~= Seq::<Seq<char>>::empty());
        },
    }
}

/// Reading back the link to a page in a language, on a site under any base path, gives
/// the page in that language: `page_href` and `site_route_from_path_with_base_path` agree.
pub proof fn lemma_page_href_round_trip(base_path: Option<Seq<char>>, l: SiteLanguage)
    ensures
        spec_locale_of_segments(
            spec_normalized_path_segments(
                spec_href(spec_base_href(base_path), spec_relative_path(l, PageKind::Home)),
                base_path,
            ),
        ) == l,
{
    let rel = spec_relative_path(l, PageKind::Home);
    lemma_relative_path_home(l);
    let t = match base_path {
        Some(b) => trim_char(b, '/'),
        None => seq![],
    };
    if let Some(b) = base_path {
        crate::routing::lemma_trim_char_ends(b, '/');
    }
    let bh = spec_base_href(base_path);
    assert(bh == if t.len() == 0 {
        seq!['/']
    } else {
        seq!['/'] + t + seq!['/']
    });
    assert(bh.last() == '/');
    assert(crate::routing::spec_trailing_slash(bh) == bh);
    if rel.len() > 0 {
        crate::routing::lemma_trim_char_fixed(rel, '/');
    } else {
        assert(trim_char(rel, '/') == rel);
    }
    let path = spec_href(bh, rel);
    let empty: Seq<char> = seq![];
    // The pieces of the base.
    let base_segs = crate::routing::base_path_segments(base_path);
    assert(base_segs == path_segments(t)) by {
        if base_path is None {
            assert(segments_from(empty, empty) == Seq::<Seq<char>>::empty());
        }
    }
    if t.len() > 0 {
        lemma_path_segments_nonempty(t);
    } else {
        assert(path_segments(t) == Seq::<Seq<char>>::empty());
    }
    // The pieces of the part after the base.
    let tail_segs: Seq<Seq<char>> = if rel.len() == 0 {
        seq![]
    } else {
        seq![rel]
    };
    assert(path_segments(empty) == Seq::<Seq<char>>::empty());
    if rel.len() > 0 {
        lemma_path_segments_no_slash(rel);
        lemma_path_segments_split_at_slash(rel, empty);
        assert(rel + seq!['/'] + empty =~= rel + seq!['/']);
    }
    let after: Seq<char> = if rel.len() == 0 {
        empty
    } else {
        rel + seq!['/']
    };
    assert(path_segments(after) == tail_segs) by {
        if rel.len() > 0 {
            assert(path_segments(rel) + path_segments(empty) =~= tail_segs);
        }
    }
    // The pieces of the whole link.
    let segs = path_segments(path);
    if t.len() == 0 {
        assert(path =~= empty + seq!['/'] + after);
        lemma_path_segments_split_at_slash(empty, after);
        assert(segs =~= tail_segs);
    } else {
        assert(path =~= empty + seq!['/'] + (t + seq!['/'] + after));
        lemma_path_segments_split_at_slash(empty, t + seq!['/'] + after);
        lemma_path_segments_split_at_slash(t, after);
        assert(segs =~= path_segments(t) + tail_segs);
        assert(segs.take(path_segments(t).len() as int) =~= path_segments(t));
        assert(segs.skip(path_segments(t).len() as int) =~= tail_segs);
    }
    let normalized = spec_normalized_path_segments(path, base_path);
    assert(normalized == tail_segs);
    if rel.len() > 0 {
        assert(spec_route_slug(l) == Some(normalized[0]));
        let c = choose|m: SiteLanguage| spec_route_slug(m) == Some(normalized[0]);
        lemma_route_slug_injective(c, l);
    }
}

} // verus!
