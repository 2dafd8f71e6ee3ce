//! The `llms.txt` index and `llms-full.txt` dump of a book, and where the book tooling
//! reads and writes in a workspace.
use vstd::prelude::*;
use crate::paths::{join_path, spec_join_path};
use crate::text::contains_seq;

verus! {

/// A chapter of the book: its title, its Markdown path with `/` separators, and its text.
pub struct ChapterInfo {
    pub name: String,
    pub path: String,
    pub content: String,
}

/// Where the llms files of a book are written, and how they are introduced and linked.
pub struct LlmsConfig {
    pub book_root: String,
    pub llms_path: String,
    pub llms_full_path: String,
    pub llms_markdown_dir: String,
    pub base_url: String,
    pub header: String,
    pub markdown_dir_name: String,
}

/// The heading that follows the header in both llms files.
pub open spec fn docs_heading() -> Seq<char> {
    "\n## Docs\n\n"@
}

/// The index line of chapter `c`: a Markdown link to its copy under `base_url/dir`.
pub open spec fn llms_index_line(c: ChapterInfo, base_url: Seq<char>, dir: Seq<char>) -> Seq<char> {
    "- ["@ + c.name@ + "]("@ + base_url + "/"@ + dir + "/"@ + c.path@ + ")\n"@
}

/// The index lines of `chapters`, in order.
pub open spec fn llms_index_lines(chapters: Seq<ChapterInfo>, base_url: Seq<char>, dir: Seq<char>) -> Seq<char>
    decreases chapters.len(),
{
    if chapters.len() == 0 {
        seq![]
    } else {
        llms_index_lines(chapters.drop_last(), base_url, dir) + llms_index_line(
            chapters.last(),
            base_url,
            dir,
        )
    }
}

/// The text of `chapters`, each followed by a horizontal rule.
pub open spec fn llms_full_body(chapters: Seq<ChapterInfo>) -> Seq<char>
    decreases chapters.len(),
{
    if chapters.len() == 0 {
        seq![]
    } else {
        llms_full_body(chapters.drop_last()) + chapters.last().content@ + "\n\n---\n\n"@
    }
}

/// The `llms.txt` index: the header, a Docs heading and one link line per chapter.
pub fn build_llms_txt(chapters: &[ChapterInfo], header: &str, base_url: &str, markdown_dir_name: &str) -> (r: String)
    ensures
        r@ == header@ + docs_heading() + llms_index_lines(chapters@, base_url@, markdown_dir_name@),
{
    let mut output = header.to_owned();
    output.append("\n## Docs\n\n");
    let n = chapters.len();
    let mut i: usize = 0;
    assert(chapters@.take(0) =~= Seq::<ChapterInfo>::empty());
    while i < n
        invariant
            n == chapters@.len(),
            i <= n,
            output@ == header@ + docs_heading() + llms_index_lines(
                chapters@.take(i as int),
                base_url@,
                markdown_dir_name@,
            ),
        decreases n - i,
    {
        let chapter = &chapters[i];
        output.append("- [");
        output.append(chapter.name.as_str());
        output.append("](");
        output.append(base_url);
        output.append("/");
        output.append(markdown_dir_name);
        output.append("/");
        output.append(chapter.path.as_str());
        output.append(")\n");
        assert(chapters@.take(i + 1).drop_last() =~= chapters@.take(i as int));
        assert(chapters@.take(i + 1).last() == chapters@[i as int]);
        i = i + 1;
    }
    assert(chapters@.take(n as int) =~= chapters@);
    output
}

/// The `llms-full.txt` dump: the header, a Docs heading and the text of every chapter,
/// each followed by a horizontal rule.
pub fn build_llms_full_txt(chapters: &[ChapterInfo], header: &str) -> (r: String)
    ensures
        r@ == header@ + docs_heading() + llms_full_body(chapters@),
{
    let mut output = header.to_owned();
    output.append("\n## Docs\n\n");
    let n = chapters.len();
    let mut i: usize = 0;
    assert(chapters@.take(0) =~= Seq::<ChapterInfo>::empty());
    while i < n
        invariant
            n == chapters@.len(),
            i <= n,
            output@ == header@ + docs_heading() + llms_full_body(chapters@.take(i as int)),
        decreases n - i,
    {
        output.append(chapters[i].content.as_str());
        output.append("\n\n---\n\n");
        assert(chapters@.take(i + 1).drop_last() =~= chapters@.take(i as int));
        assert(chapters@.take(i + 1).last() == chapters@[i as int]);
        i = i + 1;
    }
    assert(chapters@.take(n as int) =~= chapters@);
    output
}

/// The llms configuration of the workspace at `workspace_root`: the book in `book/`, the
/// files in `web/public/`, the chapter copies in the directory `markdown_dir_name`
/// (`llms` when none is given) beside them.
pub fn workspace_llms_config(
    workspace_root: &str,
    base_url: &str,
    header: &str,
    markdown_dir_name: Option<&str>,
) -> (r: LlmsConfig)
    ensures
        r.markdown_dir_name@ == match markdown_dir_name {
            Some(d) => d@,
            None => "llms"@,
        },
        r.book_root@ == spec_join_path(workspace_root@, "book"@),
        r.llms_path@ == spec_join_path(
            spec_join_path(spec_join_path(workspace_root@, "web"@), "public"@),
            "llms.txt"@,
        ),
        r.llms_full_path@ == spec_join_path(
            spec_join_path(spec_join_path(workspace_root@, "web"@), "public"@),
            "llms-full.txt"@,
        ),
        r.llms_markdown_dir@ == spec_join_path(
            spec_join_path(spec_join_path(workspace_root@, "web"@), "public"@),
            r.markdown_dir_name@,
        ),
        r.base_url@ == base_url@,
        r.header@ == header@,
{
    let markdown_dir_name = match markdown_dir_name {
        Some(d) => d,
        None => "llms",
    };
    let web = join_path(workspace_root, "web");
    let output_dir = join_path(web.as_str(), "public");
    LlmsConfig {
        book_root: join_path(workspace_root, "book"),
        llms_path: join_path(output_dir.as_str(), "llms.txt"),
        llms_full_path: join_path(output_dir.as_str(), "llms-full.txt"),
        llms_markdown_dir: join_path(output_dir.as_str(), markdown_dir_name),
        base_url: base_url.to_owned(),
        header: header.to_owned(),
        markdown_dir_name: markdown_dir_name.to_owned(),
    }
}

/// The book source directory (`book/`) of the workspace at `workspace_root`, and the
/// directory its HTML is built into (`web/public/book/`).
pub fn workspace_book_dirs(workspace_root: &str) -> (r: (String, String))
    ensures
        r.0@ == spec_join_path(workspace_root@, "book"@),
        r.1@ == spec_join_path(
            spec_join_path(spec_join_path(workspace_root@, "web"@), "public"@),
            "book"@,
        ),
{
    let web = join_path(workspace_root, "web");
    let public = join_path(web.as_str(), "public");
    (join_path(workspace_root, "book"), join_path(public.as_str(), "book"))
}


/// The index lines of `chapters` hold the link line of each chapter.
proof fn lemma_index_lines_hold_each_chapter(chapters: Seq<ChapterInfo>, base_url: Seq<char>, dir: Seq<char>, k: int)
    requires
        0 <= k < chapters.len(),
    ensures
        contains_seq(llms_index_lines(chapters, base_url, dir), llms_index_line(chapters[k], base_url, dir)),
    decreases chapters.len(),
{
    let e = llms_index_line(chapters[k], base_url, dir);
    let prev = llms_index_lines(chapters.drop_last(), base_url, dir);
    let whole = llms_index_lines(chapters, base_url, dir);
    if k == chapters.len() - 1 {
        let i = prev.len() as int;
        assert(whole.subrange(i, i + e.len()) =~= e);
    } else {
        lemma_index_lines_hold_each_chapter(chapters.drop_last(), base_url, dir, k);
        assert(chapters.drop_last()[k] == chapters[k]);
        let i = choose|i: int| 0 <= i && i + e.len() <= prev.len() && #[trigger] prev.subrange(i, i + e.len()) == e;
        assert(whole.subrange(i, i + e.len()) =~= prev.subrange(i, i + e.len()));
    }
}

/// The full text holds the text of each chapter followed by a horizontal rule.
proof fn lemma_full_body_holds_each_chapter(chapters: Seq<ChapterInfo>, k: int)
    requires
        0 <= k < chapters.len(),
    ensures
        contains_seq(llms_full_body(chapters), chapters[k].content@ + "\n\n---\n\n"@),
    decreases chapters.len(),
{
    let e = chapters[k].content@ + "\n\n---\n\n"@;
    let prev = llms_full_body(chapters.drop_last());
    let whole = llms_full_body(chapters);
    if k == chapters.len() - 1 {
        let i = prev.len() as int;
        assert(whole.subrange(i, i + e.len()) =~= e);
    } else {
        lemma_full_body_holds_each_chapter(chapters.drop_last(), k);
        assert(chapters.drop_last()[k] == chapters[k]);
        let i = choose|i: int| 0 <= i && i + e.len() <= prev.len() && #[trigger] prev.subrange(i, i + e.len()) == e;
        assert(whole.subrange(i, i + e.len()) =~= prev.subrange(i, i + e.len()));
    }
}

/// The `llms.txt` index starts with the header, followed by the Docs heading, and links
/// every chapter with a line `- [name](base_url/dir/path)`.
pub proof fn lemma_llms_txt_links_every_chapter(
    chapters: Seq<ChapterInfo>,
    header: Seq<char>,
    base_url: Seq<char>,
    dir: Seq<char>,
    k: int,
)
    requires
        0 <= k < chapters.len(),
    ensures
        ({
            let out = header + docs_heading() + llms_index_lines(chapters, base_url, dir);
            &&& out.take(header.len() as int) == header
            &&& out.subrange(header.len() as int, header.len() + 10int) == "\n## Docs\n\n"@
            &&& contains_seq(
                out,
                "- ["@ + chapters[k].name@ + "]("@ + base_url + "/"@ + dir + "/"@ + chapters[k].path@
                    + ")\n"@,
            )
        }),
{
    reveal_strlit("\n## Docs\n\n");
    let lines = llms_index_lines(chapters, base_url, dir);
    let out = header + docs_heading() + lines;
    assert(out.take(header.len() as int) =~= header);
    assert(out.subrange(header.len() as int, header.len() + 10int) =~= docs_heading());
    lemma_index_lines_hold_each_chapter(chapters, base_url, dir, k);
    let e = llms_index_line(chapters[k], base_url, dir);
    let i = choose|i: int| 0 <= i && i + e.len() <= lines.len() && #[trigger] lines.subrange(i, i + e.len()) == e;
    let h = header.len() + docs_heading().len();
    assert(out.subrange(h + i, h + i + e.len()) =~= lines.subrange(i, i + e.len()));
}

/// The `llms-full.txt` dump starts with the header, followed by the Docs heading, and holds
/// the text of every chapter followed by a horizontal rule.
pub proof fn lemma_llms_full_txt_holds_every_chapter(chapters: Seq<ChapterInfo>, header: Seq<char>, k: int)
    requires
        0 <= k < chapters.len(),
    ensures
        ({
            let out = header + docs_heading() + llms_full_body(chapters);
            &&& out.take(header.len() as int) == header
            &&& out.subrange(header.len() as int, header.len() + 10int) == "\n## Docs\n\n"@
            &&& contains_seq(out, chapters[k].content@ + "\n\n---\n\n"@)
        }),
{
    reveal_strlit("\n## Docs\n\n");
    let body = llms_full_body(chapters);
    let out = header + docs_heading() + body;
    assert(out.take(header.len() as int) =~= header);
    assert(out.subrange(header.len() as int, header.len() + 10int) =~= docs_heading());
    lemma_full_body_holds_each_chapter(chapters, k);
    let e = chapters[k].content@ + "\n\n---\n\n"@;
    let i = choose|i: int| 0 <= i && i + e.len() <= body.len() && #[trigger] body.subrange(i, i + e.len()) == e;
    let h = header.len() + docs_heading().len();
    assert(out.subrange(h + i, h + i + e.len()) =~= body.subrange(i, i + e.len()));
}
} // verus!
