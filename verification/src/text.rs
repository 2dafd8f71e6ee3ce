//! Character-level string helpers shared by the routing, sitemap and release code.
use vstd::prelude::*;

verus! {

/// `s` with every leading occurrence of `c` removed.
pub open spec fn trim_start_char(s: Seq<char>, c: char) -> Seq<char>
    decreases s.len(),
{
    if s.len() > 0 && s[0] == c {
        trim_start_char(s.drop_first(), c)
    } else {
        s
    }
}

/// `s` with every trailing occurrence of `c` removed.
pub open spec fn trim_end_char(s: Seq<char>, c: char) -> Seq<char>
    decreases s.len(),
{
    if s.len() > 0 && s.last() == c {
        trim_end_char(s.drop_last(), c)
    } else {
        s
    }
}

/// `s` with every leading and trailing occurrence of `c` removed (`str::trim_matches`).
pub open spec fn trim_char(s: Seq<char>, c: char) -> Seq<char> {
    trim_end_char(trim_start_char(s, c), c)
}

/// The pieces of `s` between `/` characters, dropping empty pieces, continuing a
/// piece `cur` that has already been read.
pub open spec fn segments_from(s: Seq<char>, cur: Seq<char>) -> Seq<Seq<char>>
    decreases s.len(),
{
    if s.len() == 0 {
        if cur.len() == 0 {
            seq![]
        } else {
            seq![cur]
        }
    } else if s[0] == '/' {
        (if cur.len() == 0 {
            seq![]
        } else {
            seq![cur]
        }) + segments_from(s.drop_first(), seq![])
    } else {
        segments_from(s.drop_first(), cur.push(s[0]))
    }
}

/// `s.split('/').filter(|p| !p.is_empty())`: the non-empty pieces of `s` between slashes.
pub open spec fn path_segments(s: Seq<char>) -> Seq<Seq<char>> {
    segments_from(s, seq![])
}

/// `n` copies of `s`, one after the other.
pub open spec fn repeat_seq(s: Seq<char>, n: nat) -> Seq<char>
    decreases n,
{
    if n == 0 {
        seq![]
    } else {
        repeat_seq(s, (n - 1) as nat) + s
    }
}

/// `pat` occurs in `s` as a contiguous piece.
pub open spec fn contains_seq(s: Seq<char>, pat: Seq<char>) -> bool {
    exists|i: int| 0 <= i && i + pat.len() <= s.len() && #[trigger] s.subrange(i, i + pat.len()) == pat
}

/// The views of a sequence of string slices.
pub open spec fn str_views(v: Seq<&str>) -> Seq<Seq<char>> {
    Seq::new(v.len(), |i: int| v[i]@)
}

/// The views of a sequence of owned strings.
pub open spec fn string_views(v: Seq<String>) -> Seq<Seq<char>> {
    Seq::new(v.len(), |i: int| v[i]@)
}

/// `list[0] + sep + list[1] + sep + ...`: the pieces joined by `sep`.
pub open spec fn join_seq(list: Seq<Seq<char>>, sep: Seq<char>) -> Seq<char>
    decreases list.len(),
{
    if list.len() == 0 {
        seq![]
    } else if list.len() == 1 {
        list[0]
    } else {
        join_seq(list.drop_last(), sep) + sep + list.last()
    }
}

/// Every piece is non-empty and holds no `/`.
pub open spec fn clean_segments(v: Seq<Seq<char>>) -> bool {
    forall|i: int|
        0 <= i < v.len() ==> {
            &&& #[trigger] v[i].len() > 0
            &&& forall|k: int| 0 <= k < v[i].len() ==> v[i][k] != '/'
        }
}

/// Joining two lists of clean pieces gives a list of clean pieces.
pub proof fn lemma_clean_concat(a: Seq<Seq<char>>, b: Seq<Seq<char>>)
    requires
        clean_segments(a),
        clean_segments(b),
    ensures
        clean_segments(a + b),
{
    assert forall|i: int| 0 <= i < (a + b).len() implies {
        &&& #[trigger] (a + b)[i].len() > 0
        &&& forall|k: int| 0 <= k < (a + b)[i].len() ==> (a + b)[i][k] != '/'
    } by {
        if i < a.len() {
            assert((a + b)[i] == a[i]);
        } else {
            assert((a + b)[i] == b[i - a.len()]);
        }
    }
}

/// Every piece of `segments_from(s, cur)` is non-empty and holds no `/`, given that `cur` holds none.
pub proof fn lemma_segments_from_shape(s: Seq<char>, cur: Seq<char>)
    requires
        forall|k: int| 0 <= k < cur.len() ==> cur[k] != '/',
    ensures
        clean_segments(segments_from(s, cur)),
    decreases s.len(),
{
    let head: Seq<Seq<char>> = if cur.len() == 0 {
        seq![]
    } else {
        seq![cur]
    };
    assert(clean_segments(head)) by {
        if cur.len() > 0 {
            assert forall|i: int| 0 <= i < head.len() implies {
                &&& #[trigger] head[i].len() > 0
                &&& forall|k: int| 0 <= k < head[i].len() ==> head[i][k] != '/'
            } by {
                assert(head[i] == cur);
            }
        }
    }
    if s.len() == 0 {
    } else if s[0] == '/' {
        lemma_segments_from_shape(s.drop_first(), seq![]);
        lemma_clean_concat(head, segments_from(s.drop_first(), seq![]));
    } else {
        let next = cur.push(s[0]);
        assert forall|k: int| 0 <= k < next.len() implies next[k] != '/' by {
            if k < cur.len() {
                assert(next[k] == cur[k]);
            }
        }
        lemma_segments_from_shape(s.drop_first(), next);
    }
}

/// The non-empty pieces between slashes are non-empty and hold no slash.
pub proof fn lemma_path_segments_shape(s: Seq<char>)
    ensures
        clean_segments(path_segments(s)),
{
    lemma_segments_from_shape(s, seq![]);
}

/// Reading `x`, a slash and `y` splits `x` (continuing `cur`) and `y` separately.
pub proof fn lemma_segments_from_split_at_slash(x: Seq<char>, y: Seq<char>, cur: Seq<char>)
    ensures
        segments_from(x + seq!['/'] + y, cur) == segments_from(x, cur) + segments_from(y, seq![]),
    decreases x.len(),
{
    let whole = x + seq!['/'] + y;
    if x.len() == 0 {
        assert(whole[0] == '/');
        assert(whole.drop_first() =~= y);
        let head: Seq<Seq<char>> = if cur.len() == 0 {
            seq![]
        } else {
            seq![cur]
        };
        assert(segments_from(x, cur) == head);
    } else {
        assert(whole[0] == x[0]);
        assert(whole.drop_first() =~= x.drop_first() + seq!['/'] + y);
        if x[0] == '/' {
            lemma_segments_from_split_at_slash(x.drop_first(), y, seq![]);
            let head: Seq<Seq<char>> = if cur.len() == 0 {
                seq![]
            } else {
                seq![cur]
            };
            assert(head + (segments_from(x.drop_first(), seq![]) + segments_from(y, seq![])) =~= (head
                + segments_from(x.drop_first(), seq![])) + segments_from(y, seq![]));
        } else {
            lemma_segments_from_split_at_slash(x.drop_first(), y, cur.push(x[0]));
        }
    }
}

/// The pieces of `x`, a slash and `y` are the pieces of `x` followed by those of `y`.
pub proof fn lemma_path_segments_split_at_slash(x: Seq<char>, y: Seq<char>)
    ensures
        path_segments(x + seq!['/'] + y) == path_segments(x) + path_segments(y),
{
    lemma_segments_from_split_at_slash(x, y, seq![]);
}

/// A text without slashes, read after `cur`, is one piece (when anything was read).
pub proof fn lemma_segments_from_no_slash(s: Seq<char>, cur: Seq<char>)
    requires
        forall|k: int| 0 <= k < s.len() ==> s[k] != '/',
    ensures
        segments_from(s, cur) == (if cur.len() + s.len() == 0 {
            seq![]
        } else {
            seq![cur + s]
        }),
    decreases s.len(),
{
    if s.len() == 0 {
        assert(cur + s =~= cur);
    } else {
        lemma_segments_from_no_slash(s.drop_first(), cur.push(s[0]));
        assert(cur.push(s[0]) + s.drop_first() =~= cur + s);
    }
}

/// A non-empty text without slashes is a single piece.
pub proof fn lemma_path_segments_no_slash(s: Seq<char>)
    requires
        s.len() > 0,
        forall|k: int| 0 <= k < s.len() ==> s[k] != '/',
    ensures
        path_segments(s) == seq![s],
{
    lemma_segments_from_no_slash(s, seq![]);
    assert(Seq::<char>::empty() + s =~= s);
}

/// Once a piece has been started, reading on yields at least one piece.
pub proof fn lemma_segments_from_started(s: Seq<char>, cur: Seq<char>)
    requires
        cur.len() > 0,
    ensures
        segments_from(s, cur).len() > 0,
    decreases s.len(),
{
    if s.len() > 0 && s[0] != '/' {
        lemma_segments_from_started(s.drop_first(), cur.push(s[0]));
    }
}

/// A text that starts with a character other than a slash has at least one piece.
pub proof fn lemma_path_segments_nonempty(s: Seq<char>)
    requires
        s.len() > 0,
        s[0] != '/',
    ensures
        path_segments(s).len() > 0,
{
    lemma_segments_from_started(s.drop_first(), seq![s[0]]);
    assert(Seq::<char>::empty().push(s[0]) =~= seq![s[0]]);
}

/// Whether two string slices hold the same characters.
pub fn str_eq(a: &str, b: &str) -> (r: bool)
    ensures
        r == (a@ == b@),
{
    let n = a.unicode_len();
    let m = b.unicode_len();
    if n != m {
        return false;
    }
    let mut i: usize = 0;
    while i < n
        invariant
            n == a@.len(),
            m == b@.len(),
            n == m,
            i <= n,
            forall|k: int| 0 <= k < i ==> a@[k] == b@[k],
        decreases n - i,
    {
        if a.get_char(i) != b.get_char(i) {
            return false;
        }
        i = i + 1;
    }
    assert(a@ =~= b@);
    true
}

/// `s.trim_matches('/')`.
pub fn trim_slashes(s: &str) -> (r: &str)
    ensures
        r@ == trim_char(s@, '/'),
{
    let n = s.unicode_len();
    let mut i: usize = 0;
    assert(s@.skip(0) =~= s@);
    while i < n && s.get_char(i) == '/'
        invariant
            n == s@.len(),
            i <= n,
            trim_start_char(s@, '/') == trim_start_char(s@.skip(i as int), '/'),
        decreases n - i,
    {
        assert(s@.skip(i as int).drop_first() =~= s@.skip(i + 1));
        i = i + 1;
    }
    assert(trim_start_char(s@, '/') == s@.subrange(i as int, n as int)) by {
        assert(s@.skip(i as int) =~= s@.subrange(i as int, n as int));
    }
    let mut j: usize = n;
    while j > i && s.get_char(j - 1) == '/'
        invariant
            n == s@.len(),
            i <= j <= n,
            trim_end_char(s@.subrange(i as int, n as int), '/') == trim_end_char(
                s@.subrange(i as int, j as int),
                '/',
            ),
        decreases j,
    {
        assert(s@.subrange(i as int, j as int).drop_last() =~= s@.subrange(i as int, j - 1));
        j = j - 1;
    }
    s.substring_char(i, j)
}

/// `s.trim_start_matches('/')`.
pub fn trim_start_slashes(s: &str) -> (r: &str)
    ensures
        r@ == trim_start_char(s@, '/'),
{
    let n = s.unicode_len();
    let mut i: usize = 0;
    assert(s@.skip(0) =~= s@);
    while i < n && s.get_char(i) == '/'
        invariant
            n == s@.len(),
            i <= n,
            trim_start_char(s@, '/') == trim_start_char(s@.skip(i as int), '/'),
        decreases n - i,
    {
        assert(s@.skip(i as int).drop_first() =~= s@.skip(i + 1));
        i = i + 1;
    }
    assert(s@.skip(i as int) =~= s@.subrange(i as int, n as int));
    s.substring_char(i, n)
}

/// `value.ends_with(c)`.
pub fn ends_with_char(value: &str, c: char) -> (r: bool)
    ensures
        r == (value@.len() > 0 && value@.last() == c),
{
    let n = value.unicode_len();
    n > 0 && value.get_char(n - 1) == c
}

/// The non-empty pieces of `s` between slashes, as slices of `s`.
pub fn split_segments<'a>(s: &'a str) -> (r: Vec<&'a str>)
    ensures
        str_views(r@) == path_segments(s@),
{
    let n = s.unicode_len();
    let mut out: Vec<&'a str> = Vec::new();
    let mut start: usize = 0;
    let mut i: usize = 0;
    assert(s@.skip(0) =~= s@);
    assert(s@.subrange(0, 0) =~= Seq::<char>::empty());
    while i < n
        invariant
            n == s@.len(),
            start <= i <= n,
            path_segments(s@) == str_views(out@) + segments_from(
                s@.skip(i as int),
                s@.subrange(start as int, i as int),
            ),
        decreases n - i,
    {
        let ghost cur = s@.subrange(start as int, i as int);
        let ghost rest = s@.skip(i as int);
        assert(rest.drop_first() =~= s@.skip(i + 1));
        if s.get_char(i) == '/' {
            if start < i {
                let piece = s.substring_char(start, i);
                let ghost before = str_views(out@);
                out.push(piece);
                assert(str_views(out@) =~= before + seq![cur]);
            } else {
                assert(cur =~= Seq::<char>::empty());
            }
            assert(s@.subrange(i + 1, i + 1) =~= Seq::<char>::empty());
            i = i + 1;
            start = i;
        } else {
            assert(cur.push(s@[i as int]) =~= s@.subrange(start as int, i + 1));
            i = i + 1;
        }
    }
    assert(s@.skip(n as int) =~= Seq::<char>::empty());
    if start < n {
        let piece = s.substring_char(start, n);
        let ghost before = str_views(out@);
        out.push(piece);
        assert(str_views(out@) =~= before + seq![s@.subrange(start as int, n as int)]);
    } else {
        assert(str_views(out@) =~= str_views(out@) + Seq::<Seq<char>>::empty());
    }
    out
}

/// `a` followed by `b`, as a new string.
pub fn concat2(a: &str, b: &str) -> (r: String)
    ensures
        r@ == a@ + b@,
{
    let mut r = a.to_owned();
    r.append(b);
    r
}

/// `a`, `b` and `c` one after the other, as a new string.
pub fn concat3(a: &str, b: &str, c: &str) -> (r: String)
    ensures
        r@ == a@ + b@ + c@,
{
    let mut r = a.to_owned();
    r.append(b);
    r.append(c);
    r
}

/// The strings of `list` joined by `sep`.
pub fn join_strings(list: &Vec<String>, sep: &str) -> (r: String)
    ensures
        r@ == join_seq(string_views(list@), sep@),
{
    let ghost views = string_views(list@);
    let mut r = String::new();
    let n = list.len();
    let mut i: usize = 0;
    assert(views.take(0) =~= Seq::<Seq<char>>::empty());
    while i < n
        invariant
            n == list@.len(),
            views == string_views(list@),
            i <= n,
            r@ == join_seq(views.take(i as int), sep@),
        decreases n - i,
    {
        assert(views.take(i + 1).drop_last() =~= views.take(i as int));
        if i == 0 {
            assert(views.take(1) =~= seq![views[0]]);
        } else {
            r.append(sep);
        }
        r.append(list[i].as_str());
        i = i + 1;
    }
    assert(views.take(n as int) =~= views);
    r
}

/// Whether `pat` occurs in `s`.
pub fn contains_str(s: &str, pat: &str) -> (r: bool)
    ensures
        r == contains_seq(s@, pat@),
{
    let n = s.unicode_len();
    let m = pat.unicode_len();
    if m > n {
        assert forall|i: int| 0 <= i && i + pat@.len() <= s@.len() implies #[trigger] s@.subrange(
            i,
            i + pat@.len(),
        ) != pat@ by {}
        return false;
    }
    let mut i: usize = 0;
    while i <= n - m
        invariant
            n == s@.len(),
            m == pat@.len(),
            m <= n,
            i <= n - m + 1,
            forall|j: int| 0 <= j < i ==> #[trigger] s@.subrange(j, j + m) != pat@,
        decreases n - i,
    {
        let mut k: usize = 0;
        let mut same = true;
        while k < m
            invariant
                n == s@.len(),
                m == pat@.len(),
                i + m <= n,
                k <= m,
                same == (forall|t: int| 0 <= t < k ==> s@[i + t] == pat@[t]),
            decreases m - k,
        {
            if s.get_char(i + k) != pat.get_char(k) {
                same = false;
            }
            k = k + 1;
        }
        if same {
            assert(s@.subrange(i as int, i + m) =~= pat@);
            return true;
        } else {
            let ghost t = choose|t: int| 0 <= t < m && s@[i + t] != pat@[t];
            assert(s@.subrange(i as int, i + m)[t] != pat@[t]);
        }
        i = i + 1;
    }
    false
}

} // verus!
