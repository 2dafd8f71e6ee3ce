//! The plan of a static web build: the `dx` arguments, the output directories and the
//! files and directories copied into the published site.
use vstd::prelude::*;
use crate::paths::{join_path, spec_join_path};
use crate::text::string_views;

verus! {

/// A file or directory copied from `source` to `destination`.
pub struct CopyPath {
    pub source: String,
    pub destination: String,
}

/// The views of the source and destination of each copy.
pub open spec fn copy_views(v: Seq<CopyPath>) -> Seq<(Seq<char>, Seq<char>)> {
    Seq::new(v.len(), |i: int| (v[i].source@, v[i].destination@))
}

/// The view of an optional string.
pub open spec fn opt_string_view(o: Option<String>) -> Option<Seq<char>> {
    match o {
        Some(s) => Some(s@),
        None => None,
    }
}

/// Everything a static web build does.
pub struct WebBuildConfig {
    pub command_current_dir: String,
    pub dioxus_args: Vec<String>,
    pub dx_public_dir: String,
    pub dist_dir: String,
    pub copy_dirs: Vec<CopyPath>,
    pub copy_files: Vec<CopyPath>,
    pub write_404_from_index: bool,
    pub sitemap_xml: Option<String>,
}

/// The settings from which a [`WebBuildConfig`] for a GitHub Pages site is made.
pub struct WebBuildConfigBuilder {
    pub workspace_root: String,
    pub command_current_dir: Option<String>,
    pub package: Option<String>,
    pub extra_copy_dirs: Vec<CopyPath>,
    pub extra_copy_files: Vec<CopyPath>,
    pub public_assets_dir: Option<String>,
    pub sitemap_xml: Option<String>,
}

/// The directory that the published site is assembled in.
pub open spec fn spec_dist_dir(workspace_root: Seq<char>) -> Seq<char> {
    spec_join_path(workspace_root, "web/dist"@)
}

/// The arguments of `dx` for a release static-site build, of `package` when one is given.
pub open spec fn spec_dioxus_args(package: Option<Seq<char>>) -> Seq<Seq<char>> {
    seq!["build"@] + (match package {
        Some(p) => seq!["--package"@, p],
        None => seq![],
    }) + seq![
        "--platform"@,
        "web"@,
        "--ssg"@,
        "--release"@,
        "--debug-symbols"@,
        "false"@,
        "--force-sequential"@,
        "true"@,
    ]
}

/// The directories copied into the site: the public assets when there are any, the book,
/// the llms pages, then the extra directories.
pub open spec fn spec_copy_dirs(
    root: Seq<char>,
    public_assets_dir: Option<Seq<char>>,
    extra: Seq<(Seq<char>, Seq<char>)>,
) -> Seq<(Seq<char>, Seq<char>)> {
    let dist = spec_dist_dir(root);
    (match public_assets_dir {
        Some(a) => seq![(spec_join_path(root, a), spec_join_path(dist, "assets"@))],
        None => seq![],
    }) + seq![
        (spec_join_path(root, "web/public/book"@), spec_join_path(dist, "book"@)),
        (spec_join_path(root, "web/public/llms"@), spec_join_path(dist, "llms"@)),
    ] + extra
}

/// The files copied into the site: `.nojekyll`, `llms.txt` and `llms-full.txt`, then the
/// extra files.
pub open spec fn spec_copy_files(root: Seq<char>, extra: Seq<(Seq<char>, Seq<char>)>) -> Seq<(Seq<char>, Seq<char>)> {
    let dist = spec_dist_dir(root);
    seq![
        (spec_join_path(root, "web/public/.nojekyll"@), spec_join_path(dist, ".nojekyll"@)),
        (spec_join_path(root, "web/public/llms.txt"@), spec_join_path(dist, "llms.txt"@)),
        (spec_join_path(root, "web/public/llms-full.txt"@), spec_join_path(dist, "llms-full.txt"@)),
    ] + extra
}

/// The configuration that building `b` gives.
pub open spec fn built_from(r: WebBuildConfig, b: WebBuildConfigBuilder) -> bool {
    &&& r.command_current_dir@ == match b.command_current_dir {
        Some(d) => d@,
        None => b.workspace_root@,
    }
    &&& string_views(r.dioxus_args@) == spec_dioxus_args(opt_string_view(b.package))
    &&& r.dx_public_dir@ == spec_join_path(b.workspace_root@, "target/dx/web/release/web/public"@)
    &&& r.dist_dir@ == spec_dist_dir(b.workspace_root@)
    &&& copy_views(r.copy_dirs@) == spec_copy_dirs(
        b.workspace_root@,
        opt_string_view(b.public_assets_dir),
        copy_views(b.extra_copy_dirs@),
    )
    &&& copy_views(r.copy_files@) == spec_copy_files(b.workspace_root@, copy_views(b.extra_copy_files@))
    &&& r.write_404_from_index
    &&& r.sitemap_xml == b.sitemap_xml
}

/// `b` keeps everything of `old` but the fields that the caller names otherwise.
pub open spec fn same_root_and_extras(b: WebBuildConfigBuilder, old: WebBuildConfigBuilder) -> bool {
    &&& b.workspace_root == old.workspace_root
    &&& b.extra_copy_dirs == old.extra_copy_dirs
    &&& b.extra_copy_files == old.extra_copy_files
}

impl WebBuildConfig {
    /// The settings of a GitHub Pages build of the workspace at `workspace_root`: public
    /// assets from `web/public/assets`, and nothing else set.
    pub fn github_pages(workspace_root: &str) -> (r: WebBuildConfigBuilder)
        ensures
            r.workspace_root@ == workspace_root@,
            r.command_current_dir is None,
            r.package is None,
            r.extra_copy_dirs@.len() == 0,
            r.extra_copy_files@.len() == 0,
            opt_string_view(r.public_assets_dir) == Some("web/public/assets"@),
            r.sitemap_xml is None,
    {
        WebBuildConfigBuilder {
            workspace_root: workspace_root.to_owned(),
            command_current_dir: None,
            package: None,
            extra_copy_dirs: Vec::new(),
            extra_copy_files: Vec::new(),
            public_assets_dir: Some("web/public/assets".to_owned()),
            sitemap_xml: None,
        }
    }
}

impl WebBuildConfigBuilder {
    /// These settings, running `dx` in `path`.
    pub fn command_current_dir(self, path: &str) -> (r: Self)
        ensures
            same_root_and_extras(r, self),
            opt_string_view(r.command_current_dir) == Some(path@),
            r.package == self.package,
            r.public_assets_dir == self.public_assets_dir,
            r.sitemap_xml == self.sitemap_xml,
    {
        WebBuildConfigBuilder { command_current_dir: Some(path.to_owned()), ..self }
    }

    /// These settings, building the workspace package `package`.
    pub fn package(self, package: &str) -> (r: Self)
        ensures
            same_root_and_extras(r, self),
            r.command_current_dir == self.command_current_dir,
            opt_string_view(r.package) == Some(package@),
            r.public_assets_dir == self.public_assets_dir,
            r.sitemap_xml == self.sitemap_xml,
    {
        WebBuildConfigBuilder { package: Some(package.to_owned()), ..self }
    }

    /// These settings, without public assets.
    pub fn no_public_assets_dir(self) -> (r: Self)
        ensures
            same_root_and_extras(r, self),
            r.command_current_dir == self.command_current_dir,
            r.package == self.package,
            r.public_assets_dir is None,
            r.sitemap_xml == self.sitemap_xml,
    {
        WebBuildConfigBuilder { public_assets_dir: None, ..self }
    }

    /// These settings, with the public assets taken from `path`.
    pub fn public_assets_dir(self, path: &str) -> (r: Self)
        ensures
            same_root_and_extras(r, self),
            r.command_current_dir == self.command_current_dir,
            r.package == self.package,
            opt_string_view(r.public_assets_dir) == Some(path@),
            r.sitemap_xml == self.sitemap_xml,
    {
        WebBuildConfigBuilder { public_assets_dir: Some(path.to_owned()), ..self }
    }

    /// These settings, also copying the directory `source` of the workspace to
    /// `destination` in the site.
    pub fn extra_dir(self, source: &str, destination: &str) -> (r: Self)
        ensures
            r.workspace_root == self.workspace_root,
            r.command_current_dir == self.command_current_dir,
            r.package == self.package,
            r.public_assets_dir == self.public_assets_dir,
            r.sitemap_xml == self.sitemap_xml,
            r.extra_copy_files == self.extra_copy_files,
            copy_views(r.extra_copy_dirs@) == copy_views(self.extra_copy_dirs@).push(
                (
                    spec_join_path(self.workspace_root@, source@),
                    spec_join_path(spec_dist_dir(self.workspace_root@), destination@),
                ),
            ),
    {
        let copy = CopyPath {
            source: join_path(self.workspace_root.as_str(), source),
            destination: join_path(self.dist_dir().as_str(), destination),
        };
        let mut b = self;
        let ghost before = b.extra_copy_dirs@;
        b.extra_copy_dirs.push(copy);
        assert(copy_views(b.extra_copy_dirs@) =~= copy_views(before).push(
            (copy.source@, copy.destination@),
        ));
        b
    }

    /// These settings, also copying the file `source` of the workspace to `destination` in
    /// the site.
    pub fn extra_file(self, source: &str, destination: &str) -> (r: Self)
        ensures
            r.workspace_root == self.workspace_root,
            r.command_current_dir == self.command_current_dir,
            r.package == self.package,
            r.public_assets_dir == self.public_assets_dir,
            r.sitemap_xml == self.sitemap_xml,
            r.extra_copy_dirs == self.extra_copy_dirs,
            copy_views(r.extra_copy_files@) == copy_views(self.extra_copy_files@).push(
                (
                    spec_join_path(self.workspace_root@, source@),
                    spec_join_path(spec_dist_dir(self.workspace_root@), destination@),
                ),
            ),
    {
        let copy = CopyPath {
            source: join_path(self.workspace_root.as_str(), source),
            destination: join_path(self.dist_dir().as_str(), destination),
        };
        let mut b = self;
        let ghost before = b.extra_copy_files@;
        b.extra_copy_files.push(copy);
        assert(copy_views(b.extra_copy_files@) =~= copy_views(before).push(
            (copy.source@, copy.destination@),
        ));
        b
    }

    /// These settings, also writing `sitemap_xml` as the site's `sitemap.xml`.
    pub fn sitemap_xml(self, sitemap_xml: String) -> (r: Self)
        ensures
            same_root_and_extras(r, self),
            r.command_current_dir == self.command_current_dir,
            r.package == self.package,
            r.public_assets_dir == self.public_assets_dir,
            r.sitemap_xml == Some(sitemap_xml),
    {
        WebBuildConfigBuilder { sitemap_xml: Some(sitemap_xml), ..self }
    }

    /// The directory that the site is assembled in: `web/dist` under the workspace root.
    pub fn dist_dir(&self) -> (r: String)
        ensures
            r@ == spec_dist_dir(self.workspace_root@),
    {
        join_path(self.workspace_root.as_str(), "web/dist")
    }

    /// The build configuration: `dx build` for the web platform as a release static-site
    /// build, output under `web/dist`, the assets, book and llms directories and the
    /// `.nojekyll` and llms files copied in, and `404.html` written from the index.
    pub fn build(self) -> (r: WebBuildConfig)
        ensures
            built_from(r, self),
    {
        let ghost old = self;
        let root = self.workspace_root.as_str();
        let dist_dir = self.dist_dir();
        let mut dioxus_args: Vec<String> = vec!["build".to_owned()];
        match &self.package {
            Some(package) => {
                dioxus_args.push("--package".to_owned());
                dioxus_args.push(package.clone());
            },
            None => {},
        }
        let ghost head = string_views(dioxus_args@);
        assert(head =~= seq!["build"@] + (match opt_string_view(self.package) {
            Some(p) => seq!["--package"@, p],
            None => seq![],
        }));
        let tail: Vec<String> = vec![
            "--platform".to_owned(),
            "web".to_owned(),
            "--ssg".to_owned(),
            "--release".to_owned(),
            "--debug-symbols".to_owned(),
            "false".to_owned(),
            "--force-sequential".to_owned(),
            "true".to_owned(),
        ];
        let mut t: usize = 0;
        while t < tail.len()
            invariant
                t <= tail@.len(),
                string_views(dioxus_args@) =~= head + string_views(tail@).take(t as int),
            decreases tail@.len() - t,
        {
            let ghost before = dioxus_args@;
            dioxus_args.push(tail[t].clone());
            assert(string_views(dioxus_args@) =~= string_views(before).push(tail@[t as int]@));
            assert(string_views(tail@).take(t + 1) =~= string_views(tail@).take(t as int).push(tail@[t as int]@));
            t = t + 1;
        }
        assert(string_views(tail@).take(tail@.len() as int) =~= string_views(tail@));
        assert(string_views(dioxus_args@) =~= spec_dioxus_args(opt_string_view(self.package)));

        let mut copy_dirs: Vec<CopyPath> = Vec::new();
        match &self.public_assets_dir {
            Some(public_assets_dir) => {
                copy_dirs.push(
                    CopyPath {
                        source: join_path(root, public_assets_dir.as_str()),
                        destination: join_path(dist_dir.as_str(), "assets"),
                    },
                );
            },
            None => {},
        }
        copy_dirs.push(
            CopyPath {
                source: join_path(root, "web/public/book"),
                destination: join_path(dist_dir.as_str(), "book"),
            },
        );
        copy_dirs.push(
            CopyPath {
                source: join_path(root, "web/public/llms"),
                destination: join_path(dist_dir.as_str(), "llms"),
            },
        );
        let ghost fixed_dirs = copy_views(copy_dirs@);
        assert(fixed_dirs =~= spec_copy_dirs(
            old.workspace_root@,
            opt_string_view(old.public_assets_dir),
            Seq::empty(),
        ));
        let mut k: usize = 0;
        while k < self.extra_copy_dirs.len()
            invariant
                k <= self.extra_copy_dirs@.len(),
                copy_views(copy_dirs@) =~= fixed_dirs + copy_views(self.extra_copy_dirs@).take(k as int),
            decreases self.extra_copy_dirs@.len() - k,
        {
            let c = &self.extra_copy_dirs[k];
            let ghost before = copy_dirs@;
            copy_dirs.push(CopyPath { source: c.source.clone(), destination: c.destination.clone() });
            assert(copy_views(copy_dirs@) =~= copy_views(before).push((c.source@, c.destination@)));
            assert(copy_views(self.extra_copy_dirs@).take(k + 1) =~= copy_views(self.extra_copy_dirs@).take(k as int).push((c.source@, c.destination@)));
            k = k + 1;
        }
        assert(copy_views(self.extra_copy_dirs@).take(self.extra_copy_dirs@.len() as int) =~= copy_views(self.extra_copy_dirs@));

        let mut copy_files: Vec<CopyPath> = Vec::new();
        copy_files.push(
            CopyPath {
                source: join_path(root, "web/public/.nojekyll"),
                destination: join_path(dist_dir.as_str(), ".nojekyll"),
            },
        );
        copy_files.push(
            CopyPath {
                source: join_path(root, "web/public/llms.txt"),
                destination: join_path(dist_dir.as_str(), "llms.txt"),
            },
        );
        copy_files.push(
            CopyPath {
                source: join_path(root, "web/public/llms-full.txt"),
                destination: join_path(dist_dir.as_str(), "llms-full.txt"),
            },
        );
        let ghost fixed_files = copy_views(copy_files@);
        assert(fixed_files =~= spec_copy_files(old.workspace_root@, Seq::empty()));
        let mut f: usize = 0;
        while f < self.extra_copy_files.len()
            invariant
                f <= self.extra_copy_files@.len(),
                copy_views(copy_files@) =~= fixed_files + copy_views(self.extra_copy_files@).take(f as int),
            decreases self.extra_copy_files@.len() - f,
        {
            let c = &self.extra_copy_files[f];
            let ghost before = copy_files@;
            copy_files.push(CopyPath { source: c.source.clone(), destination: c.destination.clone() });
            assert(copy_views(copy_files@) =~= copy_views(before).push((c.source@, c.destination@)));
            assert(copy_views(self.extra_copy_files@).take(f + 1) =~= copy_views(self.extra_copy_files@).take(f as int).push((c.source@, c.destination@)));
            f = f + 1;
        }
        assert(copy_views(self.extra_copy_files@).take(self.extra_copy_files@.len() as int) =~= copy_views(self.extra_copy_files@));

        let command_current_dir = match &self.command_current_dir {
            Some(dir) => dir.clone(),
            None => self.workspace_root.clone(),
        };
        let dx_public_dir = join_path(root, "target/dx/web/release/web/public");
        WebBuildConfig {
            command_current_dir,
            dioxus_args,
            dx_public_dir,
            dist_dir,
            copy_dirs,
            copy_files,
            write_404_from_index: true,
            sitemap_xml: self.sitemap_xml,
        }
    }
}

/// The build of the project index site of the workspace at `workspace_root`: the GitHub
/// Pages settings, with `dx` run in `web/` and the site's sitemap written out.
pub fn workspace_web_build_config(workspace_root: &str) -> (r: WebBuildConfig)
    ensures
        r.command_current_dir@ == spec_join_path(workspace_root@, "web"@),
        string_views(r.dioxus_args@) == spec_dioxus_args(None),
        r.dx_public_dir@ == spec_join_path(workspace_root@, "target/dx/web/release/web/public"@),
        r.dist_dir@ == spec_dist_dir(workspace_root@),
        copy_views(r.copy_dirs@) == spec_copy_dirs(workspace_root@, Some("web/public/assets"@), seq![]),
        copy_views(r.copy_files@) == spec_copy_files(workspace_root@, seq![]),
        r.write_404_from_index,
        opt_string_view(r.sitemap_xml) == Some(
            crate::sitemap::spec_render(crate::site::SITE_URL@, crate::site::spec_sitemap_paths()),
        ),
{
    let web_dir = join_path(workspace_root, "web");
    let builder = WebBuildConfig::github_pages(workspace_root).command_current_dir(web_dir.as_str()).sitemap_xml(
        crate::site::sitemap_xml(),
    );
    assert(copy_views(builder.extra_copy_dirs@) =~= Seq::<(Seq<char>, Seq<char>)>::empty());
    assert(copy_views(builder.extra_copy_files@) =~= Seq::<(Seq<char>, Seq<char>)>::empty());
    builder.build()
}

/// Every fixed copy of a build lands inside the directory the site is assembled in.
pub proof fn lemma_fixed_copies_land_in_dist(root: Seq<char>, public_assets_dir: Option<Seq<char>>)
    ensures
        forall|i: int|
            0 <= i < spec_copy_dirs(root, public_assets_dir, seq![]).len() ==> #[trigger] spec_copy_dirs(
                root,
                public_assets_dir,
                seq![],
            )[i].1.take(spec_dist_dir(root).len() as int) == spec_dist_dir(root),
        forall|i: int|
            0 <= i < spec_copy_files(root, seq![]).len() ==> #[trigger] spec_copy_files(
                root,
                seq![],
            )[i].1.take(spec_dist_dir(root).len() as int) == spec_dist_dir(root),
{
    reveal_strlit("web/dist");
    reveal_strlit("assets");
    reveal_strlit("book");
    reveal_strlit("llms");
    reveal_strlit(".nojekyll");
    reveal_strlit("llms.txt");
    reveal_strlit("llms-full.txt");
    let dist = spec_dist_dir(root);
    assert(dist.len() > 0);
    crate::paths::lemma_join_relative_stays_under(dist, "assets"@);
    crate::paths::lemma_join_relative_stays_under(dist, "book"@);
    crate::paths::lemma_join_relative_stays_under(dist, "llms"@);
    crate::paths::lemma_join_relative_stays_under(dist, ".nojekyll"@);
    crate::paths::lemma_join_relative_stays_under(dist, "llms.txt"@);
    crate::paths::lemma_join_relative_stays_under(dist, "llms-full.txt"@);
    let d = spec_copy_dirs(root, public_assets_dir, seq![]);
    let f = spec_copy_files(root, seq![]);
    assert forall|i: int| 0 <= i < d.len() implies #[trigger] d[i].1.take(dist.len() as int) == dist by {
        match public_assets_dir {
            Some(a) => {
                if i == 0 {
                    assert(d[i].1 == spec_join_path(dist, "assets"@));
                } else if i == 1 {
                    assert(d[i].1 == spec_join_path(dist, "book"@));
                } else {
                    assert(d[i].1 == spec_join_path(dist, "llms"@));
                }
            },
            None => {
                if i == 0 {
                    assert(d[i].1 == spec_join_path(dist, "book"@));
                } else {
                    assert(d[i].1 == spec_join_path(dist, "llms"@));
                }
            },
        }
    }
    assert forall|i: int| 0 <= i < f.len() implies #[trigger] f[i].1.take(dist.len() as int) == dist by {
        if i == 0 {
            assert(f[i].1 == spec_join_path(dist, ".nojekyll"@));
        } else if i == 1 {
            assert(f[i].1 == spec_join_path(dist, "llms.txt"@));
        } else {
            assert(f[i].1 == spec_join_path(dist, "llms-full.txt"@));
        }
    }
}

} // verus!
