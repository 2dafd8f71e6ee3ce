//! URL and path normalisation for sites served under an optional base path.
use vstd::prelude::*;
use crate::text::{
    concat2, concat3, ends_with_char, path_segments, repeat_seq, segments_from, split_segments, str_eq,
    str_views, trim_char, trim_end_char, trim_slashes, trim_start_char, clean_segments,
    lemma_path_segments_shape,
};

verus! {

/// The href prefix of a site served under `base_path`: `/` alone, or `/{base}/` with the
/// base stripped of its own slashes.
pub open spec fn spec_base_href(base_path: Option<Seq<char>>) -> Seq<char> {
    match base_path {
        Some(p) => {
            let t = trim_char(p, '/');
            if t.len() == 0 {
                seq!['/']
            } else {
                seq!['/'] + t + seq!['/']
            }
        },
        None => seq!['/'],
    }
}

/// `value` with a `/` appended unless it already ends with one.
pub open spec fn spec_trailing_slash(value: Seq<char>) -> Seq<char> {
    if value.len() > 0 && value.last() == '/' {
        value
    } else {
        value + seq!['/']
    }
}

/// The href of `route` under `base_href`: the route stripped of slashes, placed after the
/// base and followed by `/`.
pub open spec fn spec_href(base_href: Seq<char>, route: Seq<char>) -> Seq<char> {
    let base = spec_trailing_slash(base_href);
    let r = trim_char(route, '/');
    if r.len() == 0 {
        base
    } else {
        base + r + seq!['/']
    }
}

/// The relative prefix that leads from a page written to `output_dir` back to the site
/// root: `./` for the root itself, else one `../` per directory level.
pub open spec fn spec_site_root_prefix(output_dir: Seq<char>) -> Seq<char> {
    if output_dir.len() == 0 {
        seq!['.', '/']
    } else {
        repeat_seq(seq!['.', '.', '/'], path_segments(output_dir).len())
    }
}

/// The segments of a base path, as given or absent.
pub open spec fn base_path_segments(base_path: Option<Seq<char>>) -> Seq<Seq<char>> {
    match base_path {
        Some(b) => path_segments(trim_char(b, '/')),
        None => seq![],
    }
}

/// The segments of `path`, with the segments of `base_path` removed from the front when
/// the base is non-empty and `path` starts with it.
pub open spec fn spec_normalized_path_segments(
    path: Seq<char>,
    base_path: Option<Seq<char>>,
) -> Seq<Seq<char>> {
    let segs = path_segments(path);
    let base = base_path_segments(base_path);
    if base.len() > 0 && base.len() <= segs.len() && segs.take(base.len() as int) == base {
        segs.skip(base.len() as int)
    } else {
        segs
    }
}

/// The view of an optional string slice.
pub open spec fn opt_view(o: Option<&str>) -> Option<Seq<char>> {
    match o {
        Some(s) => Some(s@),
        None => None,
    }
}

/// The href prefix of a site served under `base_path`.
pub fn base_href(base_path: Option<&str>) -> (r: String)
    ensures
        r@ == spec_base_href(opt_view(base_path)),
        r@.len() > 0,
        r@[0] == '/',
        r@.last() == '/',
{
    proof {
        reveal_strlit("/");
    }
    match base_path {
        Some(base_path) => {
            let t = trim_slashes(base_path);
            if t.unicode_len() == 0 {
                "/".to_owned()
            } else {
                concat3("/", t, "/")
            }
        },
        None => "/".to_owned(),
    }
}

/// `route` under `base_href`, always ending with `/`.
pub fn href(base_href: &str, route: &str) -> (r: String)
    ensures
        r@ == spec_href(base_href@, route@),
        r@.len() > 0,
        r@.last() == '/',
{
    proof {
        reveal_strlit("/");
    }
    let base = trailing_slash(base_href);
    let route = trim_slashes(route);
    if route.unicode_len() == 0 {
        base
    } else {
        concat3(base.as_str(), route, "/")
    }
}

/// `../` once per directory level of `output_dir`, or `./` for the site root.
pub fn site_root_prefix(output_dir: &str) -> (r: String)
    ensures
        r@ == spec_site_root_prefix(output_dir@),
{
    proof {
        reveal_strlit("./");
        reveal_strlit("../");
    }
    if output_dir.unicode_len() == 0 {
        return "./".to_owned();
    }
    let count = split_segments(output_dir).len();
    let mut r = String::new();
    let mut i: usize = 0;
    while i < count
        invariant
            i <= count,
            count == path_segments(output_dir@).len(),
            r@ == repeat_seq(seq!['.', '.', '/'], i as nat),
            "../"@ == seq!['.', '.', '/'],
        decreases count - i,
    {
        r.append("../");
        i = i + 1;
    }
    r
}

/// The segments of `path`, with a matching `base_path` prefix removed.
pub fn normalized_path_segments<'a>(path: &'a str, base_path: Option<&str>) -> (r: Vec<&'a str>)
    ensures
        str_views(r@) == spec_normalized_path_segments(path@, opt_view(base_path)),
{
    let segments = split_segments(path);
    let base_segments: Vec<&str> = match base_path {
        Some(b) => split_segments(trim_slashes(b)),
        None => Vec::new(),
    };
    let ghost segs = str_views(segments@);
    let ghost base = str_views(base_segments@);
    assert(base == base_path_segments(opt_view(base_path)));
    let blen = base_segments.len();
    let slen = segments.len();
    if blen == 0 || blen > slen {
        assert(spec_normalized_path_segments(path@, opt_view(base_path)) == segs);
        return segments;
    }
    let mut i: usize = 0;
    while i < blen
        invariant
            blen == base.len(),
            slen == segs.len(),
            blen <= slen,
            base == str_views(base_segments@),
            segs == str_views(segments@),
            i <= blen,
            forall|k: int| 0 <= k < i ==> segs[k] == base[k],
            segs == path_segments(path@),
            base == base_path_segments(opt_view(base_path)),
            blen > 0,
        decreases blen - i,
    {
        if !str_eq(segments[i], base_segments[i]) {
            assert(segs.take(blen as int)[i as int] != base[i as int]);
            assert(segs.take(blen as int) != base);
            return segments;
        }
        i = i + 1;
    }
    assert(segs.take(blen as int) =~= base);
    let mut out: Vec<&'a str> = Vec::new();
    let mut j: usize = blen;
    while j < slen
        invariant
            blen <= j <= slen,
            slen == segs.len(),
            segs == str_views(segments@),
            str_views(out@) =~= segs.subrange(blen as int, j as int),
        decreases slen - j,
    {
        let ghost before = out@;
        out.push(segments[j]);
        assert(str_views(out@) =~= str_views(before).push(segs[j as int]));
        j = j + 1;
    }
    assert(segs.skip(blen as int) =~= segs.subrange(blen as int, slen as int));
    out
}

/// `value` with a `/` appended unless it already ends with one.
pub fn trailing_slash(value: &str) -> (r: String)
    ensures
        r@ == spec_trailing_slash(value@),
        r@.len() > 0,
        r@.last() == '/',
{
    proof {
        reveal_strlit("/");
    }
    if ends_with_char(value, '/') {
        value.to_owned()
    } else {
        concat2(value, "/")
    }
}

/// A trimmed sequence neither starts nor ends with the trimmed character.
pub proof fn lemma_trim_char_ends(s: Seq<char>, c: char)
    ensures
        trim_char(s, c).len() > 0 ==> trim_char(s, c)[0] != c && trim_char(s, c).last() != c,
    decreases s.len(),
{
    lemma_trim_start_char_shape(s, c);
    lemma_trim_end_char_prefix(trim_start_char(s, c), c);
}

/// Trimming the front leaves a suffix that does not start with the trimmed character.
pub proof fn lemma_trim_start_char_shape(s: Seq<char>, c: char)
    ensures
        trim_start_char(s, c).len() > 0 ==> trim_start_char(s, c)[0] != c,
        trim_start_char(s, c).len() <= s.len(),
    decreases s.len(),
{
    if s.len() > 0 && s[0] == c {
        lemma_trim_start_char_shape(s.drop_first(), c);
    }
}

/// Trimming the back leaves a prefix that does not end with the trimmed character.
pub proof fn lemma_trim_end_char_prefix(s: Seq<char>, c: char)
    ensures
        trim_end_char(s, c).len() <= s.len(),
        trim_end_char(s, c) == s.take(trim_end_char(s, c).len() as int),
        trim_end_char(s, c).len() > 0 ==> trim_end_char(s, c).last() != c,
    decreases s.len(),
{
    if s.len() > 0 && s.last() == c {
        lemma_trim_end_char_prefix(s.drop_last(), c);
        let r = trim_end_char(s.drop_last(), c);
        assert(s.drop_last().take(r.len() as int) =~= s.take(r.len() as int));
    } else {
        assert(s.take(s.len() as int) =~= s);
    }
}

/// A sequence that neither starts nor ends with `c` is unchanged by trimming `c`.
pub proof fn lemma_trim_char_fixed(t: Seq<char>, c: char)
    requires
        t.len() > 0,
        t[0] != c,
        t.last() != c,
    ensures
        trim_char(t, c) == t,
{
}

/// Normalising a base href again gives the same href: `base_href` is idempotent.
pub proof fn lemma_base_href_idempotent(base_path: Option<Seq<char>>)
    ensures
        spec_base_href(Some(spec_base_href(base_path))) == spec_base_href(base_path),
{
    let b = spec_base_href(base_path);
    let t = match base_path {
        Some(p) => trim_char(p, '/'),
        None => seq![],
    };
    if let Some(p) = base_path {
        lemma_trim_char_ends(p, '/');
    }
    if t.len() == 0 {
        assert(b == seq!['/']);
        assert(trim_start_char(seq!['/'], '/') == trim_start_char(seq!['/'].drop_first(), '/'));
        assert(seq!['/'].drop_first() =~= Seq::<char>::empty());
        assert(trim_char(b, '/') =~= Seq::<char>::empty());
    } else {
        assert(b == seq!['/'] + t + seq!['/']);
        assert(b.drop_first() =~= t + seq!['/']);
        assert(trim_start_char(b, '/') == trim_start_char(t + seq!['/'], '/'));
        assert((t + seq!['/'])[0] == t[0]);
        assert(trim_start_char(t + seq!['/'], '/') == t + seq!['/']);
        assert((t + seq!['/']).drop_last() =~= t);
        assert(trim_end_char(t + seq!['/'], '/') == trim_end_char(t, '/'));
        assert(t.drop_last().len() < t.len());
        assert(trim_end_char(t, '/') == t);
        assert(trim_char(b, '/') == t);
    }
}

/// The segments that remain after removing the base are non-empty and slash-free, and are
/// the tail of the segments of the whole path.
pub proof fn lemma_normalized_segments_shape(path: Seq<char>, base_path: Option<Seq<char>>)
    ensures
        clean_segments(spec_normalized_path_segments(path, base_path)),
        path_segments(path).len() >= spec_normalized_path_segments(path, base_path).len(),
        spec_normalized_path_segments(path, base_path) == path_segments(path).skip(
            path_segments(path).len() - spec_normalized_path_segments(path, base_path).len(),
        ),
{
    let segs = path_segments(path);
    lemma_path_segments_shape(path);
    let r = spec_normalized_path_segments(path, base_path);
    assert(segs.skip(0) =~= segs);
    assert forall|i: int| 0 <= i < r.len() implies {
        &&& #[trigger] r[i].len() > 0
        &&& forall|k: int| 0 <= k < r[i].len() ==> r[i][k] != '/'
    } by {
        assert(r[i] == segs[i + (segs.len() - r.len())]);
    }
}

/// Where a site served under `base_path` is mounted: the nested prefix `/{base}/` and the
/// bare route `/{base}`, with the base stripped of its own slashes.
pub fn base_path_mount_points(base_path: &str) -> (r: (String, String))
    ensures
        r.0@ == seq!['/'] + trim_char(base_path@, '/') + seq!['/'],
        r.1@ == seq!['/'] + trim_char(base_path@, '/'),
{
    proof {
        reveal_strlit("/");
    }
    let base = trim_slashes(base_path);
    (concat3("/", base, "/"), concat2("/", base))
}


/// The number of directory levels in `s`: one for each character other than `/` that
/// starts the text (when `after_slash` holds) or follows a `/`.
pub open spec fn level_count(s: Seq<char>, after_slash: bool) -> nat
    decreases s.len(),
{
    if s.len() == 0 {
        0
    } else {
        (if s[0] != '/' && after_slash {
            1nat
        } else {
            0nat
        }) + level_count(s.drop_first(), s[0] == '/')
    }
}

/// The pieces read from `s` after a piece `cur` number the levels that start in `s`, plus
/// one for `cur` when it is not empty.
proof fn lemma_segments_from_len(s: Seq<char>, cur: Seq<char>)
    ensures
        segments_from(s, cur).len() == level_count(s, cur.len() == 0) + (if cur.len() > 0 {
            1nat
        } else {
            0nat
        }),
    decreases s.len(),
{
    if s.len() > 0 {
        if s[0] == '/' {
            lemma_segments_from_len(s.drop_first(), seq![]);
        } else {
            lemma_segments_from_len(s.drop_first(), cur.push(s[0]));
        }
    }
}

/// `n` copies of a three-character piece are `3 * n` characters long, the piece over and over.
proof fn lemma_repeat_three(p: Seq<char>, n: nat)
    requires
        p.len() == 3,
    ensures
        repeat_seq(p, n).len() == 3 * n,
        forall|k: int| 0 <= k < 3 * n ==> #[trigger] repeat_seq(p, n)[k] == p[k % 3],
    decreases n,
{
    if n > 0 {
        let m = (n - 1) as nat;
        lemma_repeat_three(p, m);
        let r = repeat_seq(p, n);
        assert forall|k: int| 0 <= k < 3 * n implies #[trigger] r[k] == p[k % 3] by {
            if k < 3 * m {
                assert(r[k] == repeat_seq(p, m)[k]);
            } else {
                let j = k - 3 * m;
                assert(k % 3 == j) by (nonlinear_arith)
                    requires
                        k == 3 * m + j,
                        0 <= j < 3,
                ;
            }
        }
    }
}

/// The prefix from a page back to the site root climbs one directory per level of its
/// output directory: `./` for the root itself, else `../` repeated once for each non-empty
/// `/`-separated segment, so three characters per segment.
pub proof fn lemma_site_root_prefix_climbs_each_level(output_dir: Seq<char>)
    ensures
        output_dir.len() == 0 ==> spec_site_root_prefix(output_dir) == seq!['.', '/'],
        output_dir.len() > 0 ==> spec_site_root_prefix(output_dir).len() == 3 * level_count(
            output_dir,
            true,
        ),
        output_dir.len() > 0 ==> forall|k: int|
            0 <= k < spec_site_root_prefix(output_dir).len() ==> #[trigger] spec_site_root_prefix(
                output_dir,
            )[k] == seq!['.', '.', '/'][k % 3],
{
    if output_dir.len() > 0 {
        lemma_segments_from_len(output_dir, seq![]);
        lemma_repeat_three(seq!['.', '.', '/'], path_segments(output_dir).len());
    }
}


/// A sequence made only of `c` trims to nothing.
proof fn lemma_trim_all_same(s: Seq<char>, c: char)
    requires
        forall|k: int| 0 <= k < s.len() ==> s[k] == c,
    ensures
        trim_char(s, c).len() == 0,
    decreases s.len(),
{
    if s.len() > 0 {
        lemma_trim_all_same(s.drop_first(), c);
    }
}

/// Appending a trailing slash: the result always ends with `/`, is the value itself when it
/// already ends with one, and is the value followed by one `/` otherwise.
pub proof fn lemma_trailing_slash_appends_once(value: Seq<char>)
    ensures
        spec_trailing_slash(value).len() > 0,
        spec_trailing_slash(value).last() == '/',
        (value.len() > 0 && value.last() == '/') ==> spec_trailing_slash(value) == value,
        !(value.len() > 0 && value.last() == '/') ==> spec_trailing_slash(value) == value.push('/'),
{
    assert(value + seq!['/'] =~= value.push('/'));
}

/// A route's href starts with the base href (given a trailing slash) and ends with `/`; a
/// route without slashes at its ends is placed verbatim between them, and a route made only
/// of slashes, or empty, leads to the base itself.
pub proof fn lemma_href_places_route_under_base(base: Seq<char>, route: Seq<char>)
    ensures
        spec_href(base, route).len() > 0,
        spec_href(base, route).last() == '/',
        spec_href(base, route).len() >= spec_trailing_slash(base).len(),
        spec_href(base, route).take(spec_trailing_slash(base).len() as int) == spec_trailing_slash(
            base,
        ),
        (route.len() > 0 && route[0] != '/' && route.last() != '/') ==> spec_href(base, route)
            == spec_trailing_slash(base) + route + seq!['/'],
        (forall|k: int| 0 <= k < route.len() ==> route[k] == '/') ==> spec_href(base, route)
            == spec_trailing_slash(base),
{
    let b = spec_trailing_slash(base);
    let t = trim_char(route, '/');
    lemma_trailing_slash_appends_once(base);
    if t.len() == 0 {
        assert(b.take(b.len() as int) =~= b);
    } else {
        assert((b + t + seq!['/']).take(b.len() as int) =~= b);
    }
    if route.len() > 0 && route[0] != '/' && route.last() != '/' {
        lemma_trim_char_fixed(route, '/');
    }
    if forall|k: int| 0 <= k < route.len() ==> route[k] == '/' {
        lemma_trim_all_same(route, '/');
    }
}

/// The base href of a site: `/` alone when there is no base path or it is made only of
/// slashes; a base path without slashes at its ends is placed verbatim between two slashes.
pub proof fn lemma_base_href_wraps_base_path(base_path: Option<Seq<char>>)
    ensures
        base_path is None ==> spec_base_href(base_path) == seq!['/'],
        base_path is Some && (forall|k: int|
            0 <= k < base_path->0.len() ==> base_path->0[k] == '/') ==> spec_base_href(base_path)
            == seq!['/'],
        base_path is Some && base_path->0.len() > 0 && base_path->0[0] != '/'
            && base_path->0.last() != '/' ==> spec_base_href(base_path) == seq!['/']
            + base_path->0 + seq!['/'],
{
    if let Some(p) = base_path {
        if forall|k: int| 0 <= k < p.len() ==> p[k] == '/' {
            lemma_trim_all_same(p, '/');
        }
        if p.len() > 0 && p[0] != '/' && p.last() != '/' {
            lemma_trim_char_fixed(p, '/');
        }
    }
}
} // verus!
