//! Putting a manual together as one Typst document.

use vstd::prelude::*;

use crate::docs::clean::{clean_markdown, cleaned_page};
use crate::docs::escape::{esc_markup, esc_string, literal, markup};
use crate::docs::images::{CacheView, ImageCache, ImageJob};
use crate::docs::markdown::{convert, markdown_events, typst_of};
use crate::docs::options::{path_of, qualifiers, theme_of, Manual, Opts, Size, ThemeView};
use crate::paths::file_stem;
use crate::text::texts;

verus! {

// ---------------------------------------------------------------------------
// Preamble and cover
// ---------------------------------------------------------------------------

/// The line that sets the page.
pub open spec fn page_line(o: Opts) -> Seq<char> {
    match o.size {
        Size::Fold => "#set page(width: 130mm, height: 150mm, margin: 6mm)\n"@,
        Size::Phone => "#set page(width: 72mm, height: 156mm, margin: 4mm)\n"@,
        Size::Desktop => "#set page(paper: \"a4\", margin: "@ + (if o.manual == Manual::User {
            "2.4cm"@
        } else {
            "2cm"@
        }) + ")\n"@,
    }
}

/// The line that fills the page, where the theme does so.
pub open spec fn fill_line(t: ThemeView) -> Seq<char> {
    match t.page_bg {
        Some(bg) => "#set page(fill: rgb(\"#"@ + bg + "\"))\n"@,
        None => seq![],
    }
}

/// The line that sets the text.
pub open spec fn text_line(o: Opts) -> Seq<char> {
    let t = theme_of(o);
    "#set text(font: \""@ + t.font + "\", size: "@ + (if o.size == Size::Desktop {
        "11pt"@
    } else {
        "9pt"@
    }) + ", fill: rgb(\"#"@ + t.ink + "\"))\n"@
}

/// The lines that set paragraphs, headings, links and code.
pub open spec fn show_lines(o: Opts) -> Seq<char> {
    let t = theme_of(o);
    "#set par(justify: true, leading: 0.65em)\n"@ + "#set heading(numbering: \"1.1\")\n"@
        + "#show heading: it => text(fill: rgb(\"#"@ + t.accent + "\"), it)\n"@
        + "#show link: it => text(fill: rgb(\"#"@ + t.accent + "\"), it)\n"@
        + "#show raw.where(block: true): it => block(fill: rgb(\"#"@ + t.code_bg
        + "\"), inset: 8pt, radius: 3pt, width: 100%, text(size: 0.9em, it))\n"@
        + "#show raw: set text(font: \"IBM Plex Mono\")\n"@ + (if o.dark && o.manual
        == Manual::User {
        "#show raw: set text(fill: rgb(\"#E8EDF5\"))\n"@
    } else {
        seq![]
    })
}

/// The set-up of a document.
pub open spec fn preamble_of(o: Opts) -> Seq<char> {
    page_line(o) + fill_line(theme_of(o)) + text_line(o) + show_lines(o)
}

/// Writes the line that sets the page.
fn write_page_line(o: &Opts) -> (r: String)
    ensures
        r@ == page_line(*o),
{
    match o.size {
        Size::Fold => "#set page(width: 130mm, height: 150mm, margin: 6mm)\n".to_owned(),
        Size::Phone => "#set page(width: 72mm, height: 156mm, margin: 4mm)\n".to_owned(),
        Size::Desktop => {
            let mut r = "#set page(paper: \"a4\", margin: ".to_owned();
            if o.manual == Manual::User {
                r.append("2.4cm");
            } else {
                r.append("2cm");
            }
            r.append(")\n");
            r
        },
    }
}

/// Writes the lines that set paragraphs, headings, links and code.
fn write_show_lines(o: &Opts) -> (r: String)
    ensures
        r@ == show_lines(*o),
{
    let t = o.theme();
    let mut s = "#set par(justify: true, leading: 0.65em)\n".to_owned();
    s.append("#set heading(numbering: \"1.1\")\n");
    s.append("#show heading: it => text(fill: rgb(\"#");
    s.append(t.accent);
    s.append("\"), it)\n");
    s.append("#show link: it => text(fill: rgb(\"#");
    s.append(t.accent);
    s.append("\"), it)\n");
    s.append("#show raw.where(block: true): it => block(fill: rgb(\"#");
    s.append(t.code_bg);
    s.append("\"), inset: 8pt, radius: 3pt, width: 100%, text(size: 0.9em, it))\n");
    s.append("#show raw: set text(font: \"IBM Plex Mono\")\n");
    if o.dark && o.manual == Manual::User {
        s.append("#show raw: set text(fill: rgb(\"#E8EDF5\"))\n");
    }
    assert(s@ =~= show_lines(*o));
    s
}

/// Writes the set-up of a document.
pub fn preamble(o: &Opts) -> (r: String)
    ensures
        r@ == preamble_of(*o),
{
    let t = o.theme();
    let mut s = write_page_line(o);
    match t.page_bg {
        Some(bg) => {
            s.append("#set page(fill: rgb(\"#");
            s.append(bg);
            s.append("\"))\n");
        },
        None => {},
    }
    assert(s@ =~= page_line(*o) + fill_line(t@));
    let ghost head = s@;
    s.append("#set text(font: \"");
    s.append(t.font);
    s.append("\", size: ");
    if o.size == Size::Desktop {
        s.append("11pt");
    } else {
        s.append("9pt");
    }
    s.append(", fill: rgb(\"#");
    s.append(t.ink);
    s.append("\"))\n");
    assert(s@ =~= head + text_line(*o));
    let rest = write_show_lines(o);
    s.append(rest.as_str());
    s
}

/// The title of a manual.
pub open spec fn title_of(o: Opts) -> Seq<char> {
    if o.manual == Manual::User {
        "Local Desktop — User Manual"@
    } else {
        "Local Desktop — Developer Manual"@
    }
}

/// What stands below the title.
pub open spec fn subtitle_of(o: Opts, version: Seq<char>) -> Seq<char> {
    if o.manual == Manual::User {
        "Running Linux on Android · v"@ + version
    } else {
        "v"@ + version
    }
}

/// The logo on the cover of the user manual.
pub open spec fn logo_lines(o: Opts, logo: Seq<char>) -> Seq<char> {
    if o.manual == Manual::User {
        "#v(1.2cm)\n"@ + "#align(center, image(\"/"@ + literal(logo)
            + "\", width: 40%))\n#v(0.6em)\n"@
    } else {
        seq![]
    }
}

/// The cover and the table of contents.
pub open spec fn cover_of(o: Opts, version: Seq<char>, logo: Seq<char>) -> Seq<char> {
    let ink = theme_of(o).ink;
    logo_lines(o, logo) + "#align(center, text(size: "@ + (if o.size == Size::Desktop {
        "22pt"@
    } else {
        "16pt"@
    }) + ", weight: \"bold\", fill: rgb(\"#"@ + ink + "\"))["@ + markup(title_of(o)) + "])\n\n"@
        + "#align(center, text(size: 11pt, fill: rgb(\"#"@ + ink + "\"))["@ + markup(
        subtitle_of(o, version),
    ) + "])\n\n"@ + "#v(1.5em)\n"@ + "#show outline.entry: set text(fill: rgb(\"#"@ + ink
        + "\"))\n"@ + "#outline(title: [Contents], depth: 2, indent: auto)\n"@
        + "#pagebreak()\n\n"@
}

/// Writes the cover and the table of contents. `logo` is the path of the logo
/// in the colour of the text; only the user manual shows it.
pub fn cover_and_toc(o: &Opts, version: &str, logo: &str) -> (r: String)
    ensures
        r@ == cover_of(*o, version@, logo@),
{
    let t = o.theme();
    let mut s = String::new();
    if o.manual == Manual::User {
        let l = esc_string(logo);
        s.append("#v(1.2cm)\n");
        s.append("#align(center, image(\"/");
        s.append(l.as_str());
        s.append("\", width: 40%))\n#v(0.6em)\n");
    }
    assert(s@ =~= logo_lines(*o, logo@));
    let title: &str = if o.manual == Manual::User {
        "Local Desktop — User Manual"
    } else {
        "Local Desktop — Developer Manual"
    };
    let mut subtitle: String = if o.manual == Manual::User {
        "Running Linux on Android · v".to_owned()
    } else {
        "v".to_owned()
    };
    subtitle.append(version);
    let title = esc_markup(title);
    let subtitle = esc_markup(subtitle.as_str());
    s.append("#align(center, text(size: ");
    if o.size == Size::Desktop {
        s.append("22pt");
    } else {
        s.append("16pt");
    }
    s.append(", weight: \"bold\", fill: rgb(\"#");
    s.append(t.ink);
    s.append("\"))[");
    s.append(title.as_str());
    s.append("])\n\n");
    s.append("#align(center, text(size: 11pt, fill: rgb(\"#");
    s.append(t.ink);
    s.append("\"))[");
    s.append(subtitle.as_str());
    s.append("])\n\n");
    s.append("#v(1.5em)\n");
    s.append("#show outline.entry: set text(fill: rgb(\"#");
    s.append(t.ink);
    s.append("\"))\n");
    s.append("#outline(title: [Contents], depth: 2, indent: auto)\n");
    s.append("#pagebreak()\n\n");
    s
}

// ---------------------------------------------------------------------------
// Pages
// ---------------------------------------------------------------------------

/// Why a page could not be converted.
pub enum PageError<S> {
    /// A pattern does not compile.
    Pattern,
    /// This image has to be prepared first.
    Image(ImageJob<S>),
}

impl PageError<String> {
    /// The error over the views of its texts.
    pub open spec fn seen(self) -> PageError<Seq<char>> {
        match self {
            PageError::Pattern => PageError::Pattern,
            PageError::Image(job) => PageError::Image(job.seen()),
        }
    }
}

/// The markup of the markdown page `raw` of the file `path` in `base_dir`.
pub open spec fn page_of(
    path: Seq<char>,
    base_dir: Seq<char>,
    hshift: usize,
    raw: Seq<char>,
    cache: CacheView,
) -> Result<Seq<char>, PageError<Seq<char>>> {
    match cleaned_page(path, raw) {
        Some(md) => match typst_of(base_dir, hshift, cache, markdown_events(md, true, true)) {
            Ok(s) => Ok(s),
            Err(job) => Err(PageError::Image(job)),
        },
        None => Err(PageError::Pattern),
    }
}

/// Cleans and converts a markdown page.
pub fn page(path: &str, base_dir: &str, hshift: usize, raw: &str, cache: &ImageCache) -> (r: Result<
    String,
    PageError<String>,
>)
    requires
        file_stem(path@) is Some,
    ensures
        match r {
            Ok(s) => page_of(path@, base_dir@, hshift, raw@, cache@) == Ok::<
                _,
                PageError<Seq<char>>,
            >(s@),
            Err(e) => page_of(path@, base_dir@, hshift, raw@, cache@) == Err::<Seq<char>, _>(
                e.seen(),
            ),
        },
{
    match clean_markdown(path, raw) {
        Some(md) => match convert(base_dir, hshift, md.as_str(), cache) {
            Ok(s) => Ok(s),
            Err(job) => Err(PageError::Image(job)),
        },
        None => Err(PageError::Pattern),
    }
}

/// Where a page stands in a manual.
#[derive(Clone, Copy, PartialEq, Eq, Structural)]
pub enum Place {
    Readme,
    Docs,
    Blog,
    Architecture,
}

/// By how many levels the headings of a page move down. The documentation in
/// the user manual is made of chapters; every other page stands below a part.
pub fn heading_shift(manual: Manual, place: Place) -> (r: usize)
    ensures
        r == (if manual == Manual::User && place == Place::Docs {
            0usize
        } else {
            1usize
        }),
{
    if manual == Manual::User && place == Place::Docs {
        0
    } else {
        1
    }
}

/// The directories of the documentation of a manual, in order.
pub open spec fn docs_dirs_of(manual: Manual) -> Seq<Seq<char>> {
    let user = seq!["gh-pages/docs/user"@, "gh-pages/docs/user/app-compatibility"@];
    if manual == Manual::User {
        user
    } else {
        user + seq!["gh-pages/docs/developer"@, "gh-pages/docs/developer/bug-cheat-sheet"@]
    }
}

/// Lists the directories of the documentation of a manual.
pub fn docs_dirs(manual: Manual) -> (r: Vec<String>)
    ensures
        texts(r@) == docs_dirs_of(manual),
{
    let mut v: Vec<String> = Vec::new();
    v.push("gh-pages/docs/user".to_owned());
    v.push("gh-pages/docs/user/app-compatibility".to_owned());
    if manual == Manual::Developer {
        v.push("gh-pages/docs/developer".to_owned());
        v.push("gh-pages/docs/developer/bug-cheat-sheet".to_owned());
    }
    assert(texts(v@) =~= docs_dirs_of(manual));
    v
}

// ---------------------------------------------------------------------------
// The document
// ---------------------------------------------------------------------------

/// The heading of a part, on a page of its own.
pub open spec fn part_of(title: Seq<char>) -> Seq<char> {
    "#pagebreak(weak: true)\n= "@ + markup(title) + "\n\n"@
}

/// Writes the heading of a part.
pub fn part(title: &str) -> (r: String)
    ensures
        r@ == part_of(title@),
{
    let t = esc_markup(title);
    let mut r = "#pagebreak(weak: true)\n= ".to_owned();
    r.append(t.as_str());
    r.append("\n\n");
    r
}

/// Pages one behind the other, each on a page of its own.
pub open spec fn broken(pages: Seq<Seq<char>>) -> Seq<char>
    decreases pages.len(),
{
    if pages.len() == 0 {
        seq![]
    } else {
        broken(pages.drop_last()) + "#pagebreak(weak: true)\n"@ + pages.last()
    }
}

/// Pages one behind the other, with a page break between each two.
pub open spec fn parted(pages: Seq<Seq<char>>) -> Seq<char> {
    if pages.len() == 0 {
        seq![]
    } else {
        pages[0] + broken(pages.drop_first())
    }
}

/// The user manual: its pages, then the blog with the newest entry first.
pub open spec fn user_manual(
    o: Opts,
    version: Seq<char>,
    logo: Seq<char>,
    docs: Seq<Seq<char>>,
    blog: Seq<Seq<char>>,
) -> Seq<char> {
    preamble_of(o) + cover_of(o, version, logo) + parted(docs) + "#pagebreak()\n= Blog\n\n"@
        + broken(blog.reverse())
}

/// The heading of the part on the architecture.
pub open spec fn architecture_title(o: Opts) -> Seq<char> {
    if o.callgraph {
        "Architecture — Generated Call Graph"@
    } else {
        "Architecture — A Guided Call Stack"@
    }
}

/// The developer manual: the read-me, the documentation, the blog and the
/// architecture.
pub open spec fn developer_manual(
    o: Opts,
    version: Seq<char>,
    readme: Seq<char>,
    docs: Seq<Seq<char>>,
    blog: Seq<Seq<char>>,
    architecture: Seq<char>,
) -> Seq<char> {
    preamble_of(o) + cover_of(o, version, seq![]) + part_of("Local Desktop"@) + readme + part_of(
        "Documentation"@,
    ) + broken(docs) + part_of("Blog"@) + broken(blog) + part_of(architecture_title(o))
        + architecture
}

/// Adds pages, each on a page of its own, in order or in reverse.
fn push_pages(out: &mut String, pages: &Vec<String>, from: usize, reversed: bool)
    requires
        from <= pages.len(),
        reversed ==> from == 0,
    ensures
        final(out)@ == old(out)@ + broken(
            if reversed {
                texts(pages@).reverse()
            } else {
                texts(pages@).skip(from as int)
            },
        ),
{
    let ghost was = out@;
    let ghost seq = if reversed {
        texts(pages@).reverse()
    } else {
        texts(pages@).skip(from as int)
    };
    let n: usize = pages.len() - from;
    let mut i: usize = 0;
    assert(seq.take(0) =~= seq![]);
    assert(was + broken(seq.take(0)) =~= was);
    while i < n
        invariant
            i <= n,
            n + from == pages.len(),
            reversed ==> from == 0,
            seq == if reversed {
                texts(pages@).reverse()
            } else {
                texts(pages@).skip(from as int)
            },
            out@ == was + broken(seq.take(i as int)),
        decreases n - i,
    {
        let at: usize = if reversed {
            n - 1 - i
        } else {
            from + i
        };
        assert(seq.take(i + 1).drop_last() =~= seq.take(i as int));
        assert(seq.take(i + 1).last() == pages@[at as int]@);
        out.append("#pagebreak(weak: true)\n");
        out.append(pages[at].as_str());
        assert(out@ =~= was + broken(seq.take(i + 1)));
        i = i + 1;
    }
    assert(seq.take(i as int) =~= seq);
}

/// Puts the user manual together from its converted pages. The blog is given
/// with the oldest entry first.
pub fn assemble_user(o: &Opts, version: &str, logo: &str, docs: &Vec<String>, blog: &Vec<String>) -> (r:
    String)
    requires
        o.manual == Manual::User,
    ensures
        r@ == user_manual(*o, version@, logo@, texts(docs@), texts(blog@)),
{
    let mut doc = preamble(o);
    let cover = cover_and_toc(o, version, logo);
    doc.append(cover.as_str());
    let ghost head = doc@;
    if docs.len() > 0 {
        doc.append(docs[0].as_str());
        push_pages(&mut doc, docs, 1, false);
        assert(texts(docs@).skip(1) =~= texts(docs@).drop_first());
        assert(texts(docs@)[0] == docs@[0]@);
    }
    assert(doc@ =~= head + parted(texts(docs@)));
    doc.append("#pagebreak()\n= Blog\n\n");
    push_pages(&mut doc, blog, 0, true);
    doc
}

/// Puts the developer manual together from its converted pages.
pub fn assemble_developer(
    o: &Opts,
    version: &str,
    readme: &str,
    docs: &Vec<String>,
    blog: &Vec<String>,
    architecture: &str,
) -> (r: String)
    requires
        o.manual == Manual::Developer,
    ensures
        r@ == developer_manual(
            *o,
            version@,
            readme@,
            texts(docs@),
            texts(blog@),
            architecture@,
        ),
{
    let mut doc = preamble(o);
    let cover = cover_and_toc(o, version, "");
    assert(cover@ == cover_of(*o, version@, seq![]));
    doc.append(cover.as_str());
    let p = part("Local Desktop");
    doc.append(p.as_str());
    doc.append(readme);
    let p = part("Documentation");
    doc.append(p.as_str());
    assert(texts(docs@).skip(0) =~= texts(docs@));
    push_pages(&mut doc, docs, 0, false);
    let p = part("Blog");
    doc.append(p.as_str());
    assert(texts(blog@).skip(0) =~= texts(blog@));
    push_pages(&mut doc, blog, 0, false);
    let p: String = if o.callgraph {
        part("Architecture — Generated Call Graph")
    } else {
        part("Architecture — A Guided Call Stack")
    };
    doc.append(p.as_str());
    doc.append(architecture);
    doc
}

/// The call graph is for developers: the user manual does not change with it.
pub proof fn law_the_call_graph_is_for_developers(
    a: Opts,
    b: Opts,
    version: Seq<char>,
    logo: Seq<char>,
    docs: Seq<Seq<char>>,
    blog: Seq<Seq<char>>,
)
    requires
        a.manual == Manual::User,
        b == (Opts { callgraph: !a.callgraph, ..a }),
    ensures
        user_manual(a, version, logo, docs, blog) == user_manual(b, version, logo, docs, blog),
        path_of(a) == path_of(b),
{
    assert(qualifiers(a) == qualifiers(b));
}

/// The dark theme is for users: the developer manual does not change with it.
pub proof fn law_the_dark_theme_is_for_users(
    a: Opts,
    b: Opts,
    version: Seq<char>,
    readme: Seq<char>,
    docs: Seq<Seq<char>>,
    blog: Seq<Seq<char>>,
    architecture: Seq<char>,
)
    requires
        a.manual == Manual::Developer,
        b == (Opts { dark: !a.dark, ..a }),
    ensures
        preamble_of(a) == preamble_of(b),
        developer_manual(a, version, readme, docs, blog, architecture) == developer_manual(
            b,
            version,
            readme,
            docs,
            blog,
            architecture,
        ),
        path_of(a) == path_of(b),
{
    assert(theme_of(a) == theme_of(b));
    assert(qualifiers(a) == qualifiers(b));
}

/// Pages follow one another in the order in which they are given, each behind a
/// page break of its own.
pub proof fn law_pages_follow_in_order(a: Seq<Seq<char>>, b: Seq<Seq<char>>, page: Seq<char>)
    ensures
        broken(a + b) == broken(a) + broken(b),
        broken(seq![page]) == "#pagebreak(weak: true)\n"@ + page,
        broken(Seq::<Seq<char>>::empty()) == Seq::<char>::empty(),
        parted(seq![page] + a) == page + broken(a),
        parted(Seq::<Seq<char>>::empty()) == Seq::<char>::empty(),
    decreases b.len(),
{
    let one = seq![page];
    assert(one.drop_last() =~= seq![]);
    assert(broken(one.drop_last()) =~= seq![]);
    assert(broken(one) =~= "#pagebreak(weak: true)\n"@ + page);
    assert((one + a).drop_first() =~= a);
    if b.len() == 0 {
        assert(a + b =~= a);
        assert(broken(a) + broken(b) =~= broken(a));
    } else {
        law_pages_follow_in_order(a, b.drop_last(), page);
        assert((a + b).drop_last() =~= a + b.drop_last());
        assert(broken(a + b) =~= broken(a) + broken(b));
    }
}

/// In the user manual the newest entry of the blog, which is given last, comes
/// first, and the older ones follow it. The documentation stands before the blog,
/// in the order in which it is given.
pub proof fn law_the_newest_entry_comes_first(
    o: Opts,
    version: Seq<char>,
    logo: Seq<char>,
    docs: Seq<Seq<char>>,
    page: Seq<char>,
    blog: Seq<Seq<char>>,
    newest: Seq<char>,
)
    ensures
        ({
            let none = Seq::<Seq<char>>::empty();
            let break_ = "#pagebreak(weak: true)\n"@;
            let front = user_manual(o, version, logo, docs, none);
            let head = preamble_of(o) + cover_of(o, version, logo);
            let tail = "#pagebreak()\n= Blog\n\n"@;
            &&& user_manual(o, version, logo, none, none) == head + tail
            &&& user_manual(o, version, logo, seq![page], none) == head + page + tail
            &&& docs.len() > 0 ==> front == head + parted(docs) + tail && user_manual(
                o,
                version,
                logo,
                docs.push(page),
                none,
            ) == head + (parted(docs) + break_ + page) + tail
            &&& exists|older: Seq<char>|
                user_manual(o, version, logo, docs, blog) == #[trigger] (front + older)
                    && user_manual(o, version, logo, docs, blog.push(newest)) == front + (break_
                    + newest + older)
        }),
{
    let none = Seq::<Seq<char>>::empty();
    let break_ = "#pagebreak(weak: true)\n"@;
    let older = broken(blog.reverse());
    let front = user_manual(o, version, logo, docs, none);
    let head = preamble_of(o) + cover_of(o, version, logo);
    let tail = "#pagebreak()\n= Blog\n\n"@;
    assert(none.reverse() =~= none);
    assert(broken(none) =~= seq![]);
    assert(parted(none) =~= seq![]);
    assert(user_manual(o, version, logo, none, none) =~= head + tail);
    law_pages_follow_in_order(none, none, page);
    assert(seq![page] + none =~= seq![page]);
    assert(parted(seq![page]) =~= page);
    assert(user_manual(o, version, logo, seq![page], none) =~= head + page + tail);
    assert(blog.push(newest).reverse() =~= seq![newest] + blog.reverse());
    law_pages_follow_in_order(seq![newest], blog.reverse(), newest);
    assert(user_manual(o, version, logo, docs, blog) =~= front + older);
    assert(user_manual(o, version, logo, docs, blog.push(newest)) =~= front + (break_ + newest
        + older));
    if docs.len() > 0 {
        let rest = docs.drop_first();
        law_pages_follow_in_order(rest, seq![page], page);
        assert(docs.push(page).drop_first() =~= rest + seq![page]);
        assert(parted(docs.push(page)) =~= parted(docs) + break_ + page);
        assert(front =~= head + parted(docs) + tail);
        assert(user_manual(o, version, logo, docs.push(page), none) =~= head + (parted(docs)
            + break_ + page) + tail);
    }
}

/// The developer manual has four parts, each behind its heading: the read-me, the
/// documentation, the blog and the architecture. Pages are added at the end of
/// their part.
pub proof fn law_developer_parts_follow_in_order(
    o: Opts,
    version: Seq<char>,
    readme: Seq<char>,
    docs: Seq<Seq<char>>,
    blog: Seq<Seq<char>>,
    architecture: Seq<char>,
    page: Seq<char>,
)
    ensures
        ({
            let break_ = "#pagebreak(weak: true)\n"@;
            let arch = if o.callgraph {
                "Architecture — Generated Call Graph"@
            } else {
                "Architecture — A Guided Call Stack"@
            };
            let a = preamble_of(o) + cover_of(o, version, seq![]) + (break_ + "= "@ + markup(
                "Local Desktop"@,
            ) + "\n\n"@) + readme + (break_ + "= "@ + markup("Documentation"@) + "\n\n"@);
            let b = break_ + "= "@ + markup("Blog"@) + "\n\n"@;
            let c = break_ + "= "@ + markup(arch) + "\n\n"@ + architecture;
            &&& developer_manual(o, version, readme, docs, blog, architecture) == a + broken(docs)
                + b + broken(blog) + c
            &&& developer_manual(o, version, readme, docs.push(page), blog, architecture) == a
                + broken(docs) + break_ + page + b + broken(blog) + c
            &&& developer_manual(o, version, readme, docs, blog.push(page), architecture) == a
                + broken(docs) + b + broken(blog) + break_ + page + c
        }),
{
    let break_ = "#pagebreak(weak: true)\n"@;
    reveal_strlit("#pagebreak(weak: true)\n= ");
    reveal_strlit("#pagebreak(weak: true)\n");
    reveal_strlit("= ");
    assert(break_ + "= "@ =~= "#pagebreak(weak: true)\n= "@);
    let arch = architecture_title(o);
    let a = preamble_of(o) + cover_of(o, version, seq![]) + (break_ + "= "@ + markup(
        "Local Desktop"@,
    ) + "\n\n"@) + readme + (break_ + "= "@ + markup("Documentation"@) + "\n\n"@);
    let b = break_ + "= "@ + markup("Blog"@) + "\n\n"@;
    let c = break_ + "= "@ + markup(arch) + "\n\n"@ + architecture;
    assert(docs.push(page).drop_last() =~= docs);
    assert(blog.push(page).drop_last() =~= blog);
    assert(developer_manual(o, version, readme, docs, blog, architecture) =~= a + broken(docs) + b
        + broken(blog) + c);
    assert(developer_manual(o, version, readme, docs.push(page), blog, architecture) =~= a
        + broken(docs) + break_ + page + b + broken(blog) + c);
    assert(developer_manual(o, version, readme, docs, blog.push(page), architecture) =~= a
        + broken(docs) + b + broken(blog) + break_ + page + c);
}

/// The size of the page goes by the size of the manual alone, but that a full
/// sheet has wider margins for users. Texts are set in the font and the ink of
/// the theme, larger on a full sheet.
pub proof fn law_pages_go_by_size(o: Opts)
    ensures
        o.size == Size::Fold ==> page_line(o)
            == "#set page(width: 130mm, height: 150mm, margin: 6mm)\n"@,
        o.size == Size::Phone ==> page_line(o)
            == "#set page(width: 72mm, height: 156mm, margin: 4mm)\n"@,
        o.size == Size::Desktop && o.manual == Manual::User ==> page_line(o)
            == "#set page(paper: \"a4\", margin: "@ + "2.4cm"@ + ")\n"@,
        o.size == Size::Desktop && o.manual == Manual::Developer ==> page_line(o)
            == "#set page(paper: \"a4\", margin: "@ + "2cm"@ + ")\n"@,
        o.size == Size::Desktop ==> text_line(o) == "#set text(font: \""@ + theme_of(o).font
            + "\", size: "@ + "11pt"@ + ", fill: rgb(\"#"@ + theme_of(o).ink + "\"))\n"@,
        o.size != Size::Desktop ==> text_line(o) == "#set text(font: \""@ + theme_of(o).font
            + "\", size: "@ + "9pt"@ + ", fill: rgb(\"#"@ + theme_of(o).ink + "\"))\n"@,
        theme_of(o).page_bg is None ==> preamble_of(o) == page_line(o) + text_line(o) + show_lines(
            o,
        ),
        theme_of(o).page_bg is Some ==> preamble_of(o) == page_line(o) + (
        "#set page(fill: rgb(\"#"@ + theme_of(o).page_bg->0 + "\"))\n"@) + text_line(o)
            + show_lines(o),
{
    if theme_of(o).page_bg is None {
        assert(preamble_of(o) =~= page_line(o) + text_line(o) + show_lines(o));
    }
}

/// The cover of the user manual alone shows the logo. Both covers show the title
/// of the manual and its version, and the contents stand behind them.
pub proof fn law_the_cover_shows_title_and_version(
    o: Opts,
    version: Seq<char>,
    logo: Seq<char>,
)
    ensures
        ({
            let ink = theme_of(o).ink;
            let size = if o.size == Size::Desktop {
                "22pt"@
            } else {
                "16pt"@
            };
            let title = if o.manual == Manual::User {
                "Local Desktop — User Manual"@
            } else {
                "Local Desktop — Developer Manual"@
            };
            let subtitle = if o.manual == Manual::User {
                "Running Linux on Android · v"@ + version
            } else {
                "v"@ + version
            };
            let picture = if o.manual == Manual::User {
                "#v(1.2cm)\n"@ + "#align(center, image(\"/"@ + literal(logo)
                    + "\", width: 40%))\n#v(0.6em)\n"@
            } else {
                seq![]
            };
            cover_of(o, version, logo) == picture + "#align(center, text(size: "@ + size
                + ", weight: \"bold\", fill: rgb(\"#"@ + ink + "\"))["@ + markup(title)
                + "])\n\n"@ + "#align(center, text(size: 11pt, fill: rgb(\"#"@ + ink + "\"))["@
                + markup(subtitle) + "])\n\n"@ + "#v(1.5em)\n"@
                + "#show outline.entry: set text(fill: rgb(\"#"@ + ink + "\"))\n"@
                + "#outline(title: [Contents], depth: 2, indent: auto)\n"@ + "#pagebreak()\n\n"@
        }),
{
}

/// The user reads the documentation for users; the developer reads that, and
/// then the documentation for developers.
pub proof fn law_developers_read_the_user_docs_too()
    ensures
        docs_dirs_of(Manual::User) == seq![
            "gh-pages/docs/user"@,
            "gh-pages/docs/user/app-compatibility"@,
        ],
        docs_dirs_of(Manual::Developer) == docs_dirs_of(Manual::User) + seq![
            "gh-pages/docs/developer"@,
            "gh-pages/docs/developer/bug-cheat-sheet"@,
        ],
{
}

/// A page is its cleaned markdown, converted; where an image has to be prepared,
/// the page says which.
pub proof fn law_a_page_is_cleaned_then_converted(
    path: Seq<char>,
    base_dir: Seq<char>,
    hshift: usize,
    raw: Seq<char>,
    cache: CacheView,
)
    ensures
        match page_of(path, base_dir, hshift, raw, cache) {
            Ok(s) => cleaned_page(path, raw) is Some && typst_of(
                base_dir,
                hshift,
                cache,
                markdown_events(cleaned_page(path, raw)->0, true, true),
            ) == Ok::<_, ImageJob<Seq<char>>>(s),
            Err(PageError::Pattern) => cleaned_page(path, raw) is None,
            Err(PageError::Image(job)) => cleaned_page(path, raw) is Some && typst_of(
                base_dir,
                hshift,
                cache,
                markdown_events(cleaned_page(path, raw)->0, true, true),
            ) == Err::<Seq<char>, _>(job),
        },
{
}

} // verus!
