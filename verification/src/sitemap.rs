//! XML sitemaps listing the pages of a site.
use vstd::prelude::*;
use crate::routing::spec_trailing_slash;
use crate::text::{contains_seq, str_views, trim_start_char, trim_start_slashes, ends_with_char, concat2};

verus! {

/// The absolute URL of `path` on the site at `site_url`: the site URL with one trailing
/// slash, followed by the path without its leading slashes.
pub open spec fn spec_absolute_url(site_url: Seq<char>, path: Seq<char>) -> Seq<char> {
    let base = spec_trailing_slash(site_url);
    let p = trim_start_char(path, '/');
    if p.len() == 0 {
        base
    } else {
        base + p
    }
}

/// The start of a sitemap document, up to the opening `urlset` tag and its line break.
pub open spec fn sitemap_header() -> Seq<char> {
    "<?xml version=\"1.0\" encoding=\"UTF-8\"?>\n<urlset xmlns=\"http://www.sitemaps.org/schemas/sitemap/0.9\">\n"@
}

/// The end of a sitemap document.
pub open spec fn sitemap_footer() -> Seq<char> {
    "</urlset>\n"@
}

/// The line of a sitemap that lists `url`.
pub open spec fn sitemap_entry(url: Seq<char>) -> Seq<char> {
    "  <url><loc>"@ + url + "</loc></url>\n"@
}

/// The lines that list each of `paths` on the site at `site_url`, in order.
pub open spec fn sitemap_entries(site_url: Seq<char>, paths: Seq<Seq<char>>) -> Seq<char>
    decreases paths.len(),
{
    if paths.len() == 0 {
        seq![]
    } else {
        sitemap_entries(site_url, paths.drop_last()) + sitemap_entry(
            spec_absolute_url(site_url, paths.last()),
        )
    }
}

/// The sitemap document that lists `paths` on the site at `site_url`.
pub open spec fn spec_render(site_url: Seq<char>, paths: Seq<Seq<char>>) -> Seq<char> {
    sitemap_header() + sitemap_entries(site_url, paths) + sitemap_footer()
}

/// The sitemap document that lists `paths`, each made absolute against `site_url`.
pub fn render(site_url: &str, paths: &[&str]) -> (r: String)
    ensures
        r@ == spec_render(site_url@, str_views(paths@)),
{
    let ghost views = str_views(paths@);
    let mut r = "<?xml version=\"1.0\" encoding=\"UTF-8\"?>\n<urlset xmlns=\"http://www.sitemaps.org/schemas/sitemap/0.9\">\n".to_owned();
    let n = paths.len();
    let mut i: usize = 0;
    assert(views.take(0) =~= Seq::<Seq<char>>::empty());
    while i < n
        invariant
            n == paths@.len(),
            views == str_views(paths@),
            i <= n,
            r@ == sitemap_header() + sitemap_entries(site_url@, views.take(i as int)),
        decreases n - i,
    {
        let url = absolute_url(site_url, paths[i]);
        r.append("  <url><loc>");
        r.append(url.as_str());
        r.append("</loc></url>\n");
        assert(views.take(i + 1).drop_last() =~= views.take(i as int));
        assert(views.take(i + 1).last() == paths@[i as int]@);
        i = i + 1;
    }
    assert(views.take(n as int) =~= views);
    r.append("</urlset>\n");
    r
}

/// `path` made absolute against `site_url`.
fn absolute_url(site_url: &str, path: &str) -> (r: String)
    ensures
        r@ == spec_absolute_url(site_url@, path@),
{
    proof {
        reveal_strlit("/");
    }
    let base_url = if ends_with_char(site_url, '/') {
        site_url.to_owned()
    } else {
        concat2(site_url, "/")
    };
    let path = trim_start_slashes(path);
    if path.unicode_len() == 0 {
        base_url
    } else {
        concat2(base_url.as_str(), path)
    }
}

/// Every listed path appears in its sitemap's entries as the entry for its absolute URL.
pub proof fn lemma_entries_list_every_path(site_url: Seq<char>, paths: Seq<Seq<char>>, k: int)
    requires
        0 <= k < paths.len(),
    ensures
        contains_seq(
            sitemap_entries(site_url, paths),
            sitemap_entry(spec_absolute_url(site_url, paths[k])),
        ),
    decreases paths.len(),
{
    let e = sitemap_entry(spec_absolute_url(site_url, paths[k]));
    let prev = sitemap_entries(site_url, paths.drop_last());
    let whole = sitemap_entries(site_url, paths);
    if k == paths.len() - 1 {
        let i = prev.len() as int;
        assert(whole.subrange(i, i + e.len()) =~= e);
    } else {
        lemma_entries_list_every_path(site_url, paths.drop_last(), k);
        assert(paths.drop_last()[k] == paths[k]);
        let i = choose|i: int|
            0 <= i && i + e.len() <= prev.len() && #[trigger] prev.subrange(i, i + e.len()) == e;
        assert(whole.subrange(i, i + e.len()) =~= prev.subrange(i, i + e.len()));
    }
}

/// A rendered sitemap lists every given path, made absolute against the site URL, as a
/// `<url><loc>..</loc></url>` entry.
pub proof fn lemma_render_lists_every_path(site_url: Seq<char>, paths: Seq<Seq<char>>, k: int)
    requires
        0 <= k < paths.len(),
    ensures
        contains_seq(
            spec_render(site_url, paths),
            sitemap_entry(spec_absolute_url(site_url, paths[k])),
        ),
{
    lemma_entries_list_every_path(site_url, paths, k);
    let e = sitemap_entry(spec_absolute_url(site_url, paths[k]));
    let entries = sitemap_entries(site_url, paths);
    let i = choose|i: int|
        0 <= i && i + e.len() <= entries.len() && #[trigger] entries.subrange(i, i + e.len()) == e;
    let h = sitemap_header().len() as int;
    assert(spec_render(site_url, paths).subrange(h + i, h + i + e.len()) =~= entries.subrange(
        i,
        i + e.len(),
    ));
}

} // verus!
