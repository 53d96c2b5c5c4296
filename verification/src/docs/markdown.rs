//! Markdown as Typst markup.
//!
//! The `pulldown-cmark` crate parses; the events it finds have a name here.

use vstd::prelude::*;

use pulldown_cmark::{CodeBlockKind, Event, Options, Parser, Tag, TagEnd};

use crate::docs::escape::{esc_markup, esc_string, law_escaping_joins, literal, markup};
use crate::docs::images::{CacheView, Embed, ImageCache, ImageJob};
use crate::text::{drop_back, opt_text, repeat, repeated, trim, trimmed, without_back, Class};

verus! {

/// A step of a markdown document.
pub enum MdEvent<S> {
    /// A heading of this level begins.
    Heading(usize),
    Strong,
    Emphasis,
    Strikethrough,
    /// A link to this address begins.
    Link(S),
    /// An image at this address begins.
    Image(S),
    /// A code block begins: a fenced one in this language, or an indented one.
    CodeBlock(Option<S>),
    /// A list begins, with its first number if it is ordered.
    List(Option<u64>),
    Item,
    BlockQuote,
    EndHeading,
    EndParagraph,
    EndStrong,
    EndEmphasis,
    EndStrikethrough,
    EndLink,
    EndImage,
    EndCodeBlock,
    EndList,
    EndItem,
    EndBlockQuote,
    Text(S),
    Code(S),
    SoftBreak,
    HardBreak,
    Rule,
    /// Anything else: raw HTML, paragraphs, tables and the like.
    Other,
}

impl MdEvent<String> {
    /// The event over the views of its texts.
    pub open spec fn seen(self) -> MdEvent<Seq<char>> {
        match self {
            MdEvent::Heading(l) => MdEvent::Heading(l),
            MdEvent::Strong => MdEvent::Strong,
            MdEvent::Emphasis => MdEvent::Emphasis,
            MdEvent::Strikethrough => MdEvent::Strikethrough,
            MdEvent::Link(s) => MdEvent::Link(s@),
            MdEvent::Image(s) => MdEvent::Image(s@),
            MdEvent::CodeBlock(s) => MdEvent::CodeBlock(opt_text(s)),
            MdEvent::List(n) => MdEvent::List(n),
            MdEvent::Item => MdEvent::Item,
            MdEvent::BlockQuote => MdEvent::BlockQuote,
            MdEvent::EndHeading => MdEvent::EndHeading,
            MdEvent::EndParagraph => MdEvent::EndParagraph,
            MdEvent::EndStrong => MdEvent::EndStrong,
            MdEvent::EndEmphasis => MdEvent::EndEmphasis,
            MdEvent::EndStrikethrough => MdEvent::EndStrikethrough,
            MdEvent::EndLink => MdEvent::EndLink,
            MdEvent::EndImage => MdEvent::EndImage,
            MdEvent::EndCodeBlock => MdEvent::EndCodeBlock,
            MdEvent::EndList => MdEvent::EndList,
            MdEvent::EndItem => MdEvent::EndItem,
            MdEvent::EndBlockQuote => MdEvent::EndBlockQuote,
            MdEvent::Text(s) => MdEvent::Text(s@),
            MdEvent::Code(s) => MdEvent::Code(s@),
            MdEvent::SoftBreak => MdEvent::SoftBreak,
            MdEvent::HardBreak => MdEvent::HardBreak,
            MdEvent::Rule => MdEvent::Rule,
            MdEvent::Other => MdEvent::Other,
        }
    }
}

/// The views of events.
pub open spec fn event_views(v: Seq<MdEvent<String>>) -> Seq<MdEvent<Seq<char>>> {
    Seq::new(v.len(), |i: int| v[i].seen())
}

// ---------------------------------------------------------------------------
// Parsing
// ---------------------------------------------------------------------------

/// `pulldown_cmark::Event`, carried from the parser to the functions that read it.
#[verifier::external_type_specification]
#[verifier::external_body]
pub struct ExEvent<'a>(pulldown_cmark::Event<'a>);

/// The events of a markdown text, read with or without the extensions for
/// strikethrough and tables.
pub uninterp spec fn markdown_events(md: Seq<char>, strikethrough: bool, tables: bool) -> Seq<
    MdEvent<Seq<char>>,
>;

/// What an event of the parser holds, as far as the conversion reads it: the
/// step it stands for, with its level, number, address, language or text.
pub uninterp spec fn event_content(ev: Event) -> MdEvent<Seq<char>>;

/// Whether a span begins here.
pub open spec fn begins_span(ev: MdEvent<Seq<char>>) -> bool {
    ev is Strong || ev is Emphasis || ev is Strikethrough || ev is Link || ev is Image
}

/// Whether a block begins here that the conversion marks.
pub open spec fn begins_block(ev: MdEvent<Seq<char>>) -> bool {
    ev is Heading || ev is CodeBlock || ev is List || ev is Item || ev is BlockQuote
}

/// Whether a span ends here.
pub open spec fn ends_span(ev: MdEvent<Seq<char>>) -> bool {
    ev is EndStrong || ev is EndEmphasis || ev is EndStrikethrough || ev is EndLink
        || ev is EndImage
}

/// Whether a block ends here that the conversion marks.
pub open spec fn ends_block(ev: MdEvent<Seq<char>>) -> bool {
    ev is EndHeading || ev is EndParagraph || ev is EndCodeBlock || ev is EndList || ev is EndItem
        || ev is EndBlockQuote
}

/// Whether this neither begins nor ends a span or a block that the conversion marks.
pub open spec fn is_leaf(ev: MdEvent<Seq<char>>) -> bool {
    ev is Text || ev is Code || ev is SoftBreak || ev is HardBreak || ev is Rule || ev is Other
}

/// Tells the variants of `pulldown_cmark::Event` apart that begin a span, and
/// gives what such an event holds; any other event is handed back as it is.
#[verifier::external_body]
fn read_span<'a>(ev: Event<'a>) -> (r: Result<MdEvent<String>, Event<'a>>)
    ensures
        match r {
            Ok(e) => e.seen() == event_content(ev),
            Err(other) => other == ev,
        },
        r is Ok <==> begins_span(event_content(ev)),
{
    match ev {
        Event::Start(Tag::Strong) => Ok(MdEvent::Strong),
        Event::Start(Tag::Emphasis) => Ok(MdEvent::Emphasis),
        Event::Start(Tag::Strikethrough) => Ok(MdEvent::Strikethrough),
        Event::Start(Tag::Link { dest_url, .. }) => Ok(MdEvent::Link(dest_url.to_string())),
        Event::Start(Tag::Image { dest_url, .. }) => Ok(MdEvent::Image(dest_url.to_string())),
        other => Err(other),
    }
}

/// Tells the variants of `pulldown_cmark::Event` apart that begin a block, and
/// gives what such an event holds; any other event is handed back as it is.
#[verifier::external_body]
fn read_block<'a>(ev: Event<'a>) -> (r: Result<MdEvent<String>, Event<'a>>)
    ensures
        match r {
            Ok(e) => e.seen() == event_content(ev),
            Err(other) => other == ev,
        },
        r is Ok <==> begins_block(event_content(ev)),
{
    match ev {
        Event::Start(Tag::Heading { level, .. }) => Ok(MdEvent::Heading(level as usize)),
        Event::Start(Tag::CodeBlock(CodeBlockKind::Fenced(l))) => Ok(
            MdEvent::CodeBlock(Some(l.to_string())),
        ),
        Event::Start(Tag::CodeBlock(CodeBlockKind::Indented)) => Ok(
            MdEvent::CodeBlock(None),
        ),
        Event::Start(Tag::List(n)) => Ok(MdEvent::List(n)),
        Event::Start(Tag::Item) => Ok(MdEvent::Item),
        Event::Start(Tag::BlockQuote(_)) => Ok(MdEvent::BlockQuote),
        other => Err(other),
    }
}

/// Tells the variants of `pulldown_cmark::Event` apart that end a span, and
/// gives what such an event holds; any other event is handed back as it is.
#[verifier::external_body]
fn read_span_end<'a>(ev: Event<'a>) -> (r: Result<MdEvent<String>, Event<'a>>)
    ensures
        match r {
            Ok(e) => e.seen() == event_content(ev),
            Err(other) => other == ev,
        },
        r is Ok <==> ends_span(event_content(ev)),
{
    match ev {
        Event::End(TagEnd::Strong) => Ok(MdEvent::EndStrong),
        Event::End(TagEnd::Emphasis) => Ok(MdEvent::EndEmphasis),
        Event::End(TagEnd::Strikethrough) => Ok(MdEvent::EndStrikethrough),
        Event::End(TagEnd::Link) => Ok(MdEvent::EndLink),
        Event::End(TagEnd::Image) => Ok(MdEvent::EndImage),
        other => Err(other),
    }
}

/// Tells the variants of `pulldown_cmark::Event` apart that end a block, and
/// gives what such an event holds; any other event is handed back as it is.
#[verifier::external_body]
fn read_block_end<'a>(ev: Event<'a>) -> (r: Result<MdEvent<String>, Event<'a>>)
    ensures
        match r {
            Ok(e) => e.seen() == event_content(ev),
            Err(other) => other == ev,
        },
        r is Ok <==> ends_block(event_content(ev)),
{
    match ev {
        Event::End(TagEnd::Heading(_)) => Ok(MdEvent::EndHeading),
        Event::End(TagEnd::Paragraph) => Ok(MdEvent::EndParagraph),
        Event::End(TagEnd::CodeBlock) => Ok(MdEvent::EndCodeBlock),
        Event::End(TagEnd::List(_)) => Ok(MdEvent::EndList),
        Event::End(TagEnd::Item) => Ok(MdEvent::EndItem),
        Event::End(TagEnd::BlockQuote(_)) => Ok(MdEvent::EndBlockQuote),
        other => Err(other),
    }
}

/// Tells the variants of `pulldown_cmark::Event` apart that stand for
/// themselves, and gives what such an event holds. An event that the
/// conversion passes over holds `Other`.
#[verifier::external_body]
fn read_leaf<'a>(ev: Event<'a>) -> (r: MdEvent<String>)
    requires
        is_leaf(event_content(ev)),
    ensures
        r.seen() == event_content(ev),
{
    match ev {
        Event::Text(t) => MdEvent::Text(t.to_string()),
        Event::Code(t) => MdEvent::Code(t.to_string()),
        Event::SoftBreak => MdEvent::SoftBreak,
        Event::HardBreak => MdEvent::HardBreak,
        Event::Rule => MdEvent::Rule,
        Event::Start(_) | Event::End(_) => MdEvent::Other,
        Event::Html(_) | Event::InlineHtml(_) => MdEvent::Other,
        Event::InlineMath(_) | Event::DisplayMath(_) => MdEvent::Other,
        Event::FootnoteReference(_) | Event::TaskListMarker(_) => MdEvent::Other,
    }
}

/// Reads one event of the parser: what it holds.
fn read_event<'a>(ev: Event<'a>) -> (r: MdEvent<String>)
    ensures
        r.seen() == event_content(ev),
{
    let ev = match read_span(ev) {
        Ok(e) => {
            return e;
        },
        Err(ev) => ev,
    };
    let ev = match read_block(ev) {
        Ok(e) => {
            return e;
        },
        Err(ev) => ev,
    };
    let ev = match read_span_end(ev) {
        Ok(e) => {
            return e;
        },
        Err(ev) => ev,
    };
    match read_block_end(ev) {
        Ok(e) => e,
        Err(ev) => read_leaf(ev),
    }
}

/// Calls `pulldown_cmark::Parser::new_ext` and collects what it yields: the
/// events are those of `markdown_events`.
#[verifier::external_body]
fn parse_markdown(md: &str, strikethrough: bool, tables: bool) -> (r: Vec<MdEvent<String>>)
    ensures
        event_views(r@) == markdown_events(md@, strikethrough, tables),
{
    let mut opts = Options::empty();
    opts.set(Options::ENABLE_STRIKETHROUGH, strikethrough);
    opts.set(Options::ENABLE_TABLES, tables);
    Parser::new_ext(md, opts).map(|ev| read_event(ev)).collect()
}

// ---------------------------------------------------------------------------
// Converting
// ---------------------------------------------------------------------------

/// A conversion under way.
pub struct MdToTypst {
    /// The markup so far.
    pub out: String,
    /// By how many levels headings move down.
    pub hshift: usize,
    /// The directory of the page.
    pub base_dir: String,
    /// The language and the text of the code block that is open.
    pub code: Option<(String, String)>,
    /// The address and the caption of the image that is open.
    pub image: Option<(String, String)>,
    /// The lists that are open, with their first number if they are ordered.
    pub list_stack: Vec<Option<u64>>,
}

/// A conversion over views.
#[verifier::ext_equal]
pub struct MdState {
    pub out: Seq<char>,
    pub hshift: usize,
    pub base_dir: Seq<char>,
    pub code: Option<(Seq<char>, Seq<char>)>,
    pub image: Option<(Seq<char>, Seq<char>)>,
    pub lists: Seq<Option<u64>>,
}

/// The views of two texts.
pub open spec fn opt_pair(o: Option<(String, String)>) -> Option<(Seq<char>, Seq<char>)> {
    match o {
        Some((a, b)) => Some((a@, b@)),
        None => None,
    }
}

impl View for MdToTypst {
    type V = MdState;

    open spec fn view(&self) -> MdState {
        MdState {
            out: self.out@,
            hshift: self.hshift,
            base_dir: self.base_dir@,
            code: opt_pair(self.code),
            image: opt_pair(self.image),
            lists: self.list_stack@,
        }
    }
}

/// The level of a heading that is moved down: no deeper than the sixth.
pub open spec fn shifted(level: int, hshift: int) -> int {
    if level + hshift < 6 {
        level + hshift
    } else {
        6
    }
}

/// What the beginning of something writes.
pub open spec fn opening(st: MdState, ev: MdEvent<Seq<char>>) -> Seq<char> {
    match ev {
        MdEvent::Heading(l) => "\n"@ + repeat("="@, shifted(l as int, st.hshift as int) as nat)
            + " "@,
        MdEvent::Strong => "#strong["@,
        MdEvent::Emphasis => "#emph["@,
        MdEvent::Strikethrough => "#strike["@,
        MdEvent::Link(url) => "#link(\""@ + literal(url) + "\")["@,
        MdEvent::Item => repeat(
            "  "@,
            if st.lists.len() > 0 {
                (st.lists.len() - 1) as nat
            } else {
                0
            },
        ) + if st.lists.len() > 0 && st.lists.last() is Some {
            "+ "@
        } else {
            "- "@
        },
        MdEvent::BlockQuote => "#quote(block: true)["@,
        _ => seq![],
    }
}

/// A figure, where the image was embedded, or its caption alone.
pub open spec fn figure(rel: Option<Seq<char>>, alt: Seq<char>) -> Seq<char> {
    match rel {
        Some(path) => "\n#figure(image(\"/"@ + literal(path) + "\", width: 80%), caption: ["@
            + markup(trim(alt)) + "])\n\n"@,
        None => "#emph[(figure: "@ + markup(trim(alt)) + ")]"@,
    }
}

/// A block of code. Its text stays as it is, but for line feeds at its end.
pub open spec fn code_block(lang: Seq<char>, buf: Seq<char>) -> Seq<char> {
    "\n#raw(\""@ + literal(drop_back(buf, Class::One('\n'))) + "\", block: true"@ + (if lang.len()
        == 0 {
        seq![]
    } else {
        ", lang: \""@ + literal(lang) + "\""@
    }) + ")\n\n"@
}

/// The conversion after the beginning of something.
pub open spec fn started(st: MdState, ev: MdEvent<Seq<char>>) -> MdState {
    let st = MdState { out: st.out + opening(st, ev), ..st };
    match ev {
        MdEvent::Image(url) => MdState { image: Some((url, seq![])), ..st },
        MdEvent::CodeBlock(lang) => MdState {
            code: Some(
                (
                    match lang {
                        Some(l) => l,
                        None => seq![],
                    },
                    seq![],
                ),
            ),
            ..st
        },
        MdEvent::List(n) => MdState { lists: st.lists.push(n), ..st },
        _ => st,
    }
}

/// The lists that stay open when one ends.
pub open spec fn popped(lists: Seq<Option<u64>>) -> Seq<Option<u64>> {
    if lists.len() > 0 {
        lists.drop_last()
    } else {
        lists
    }
}

/// The conversion after the end of a code block.
pub open spec fn code_ended(st: MdState) -> MdState {
    match st.code {
        Some((lang, buf)) => MdState { out: st.out + code_block(lang, buf), code: None, ..st },
        None => st,
    }
}

/// The conversion after the end of something, or the image that has to be
/// prepared first.
pub open spec fn ended(st: MdState, cache: CacheView, ev: MdEvent<Seq<char>>) -> Result<
    MdState,
    ImageJob<Seq<char>>,
> {
    match ev {
        MdEvent::EndHeading | MdEvent::EndParagraph => Ok(MdState { out: st.out + "\n\n"@, ..st }),
        MdEvent::EndStrong | MdEvent::EndEmphasis | MdEvent::EndStrikethrough
        | MdEvent::EndLink => Ok(MdState { out: st.out + "]"@, ..st }),
        MdEvent::EndImage => match st.image {
            Some((dest, alt)) => match cache.embed(st.base_dir, dest) {
                Embed::Refused => Ok(
                    MdState { out: st.out + figure(None, alt), image: None, ..st },
                ),
                Embed::Known(rel) => Ok(
                    MdState { out: st.out + figure(rel, alt), image: None, ..st },
                ),
                Embed::Prepare(job) => Err(job),
            },
            None => Ok(st),
        },
        MdEvent::EndCodeBlock => Ok(code_ended(st)),
        MdEvent::EndList => Ok(
            MdState {
                out: if popped(st.lists).len() == 0 {
                    st.out + "\n"@
                } else {
                    st.out
                },
                lists: popped(st.lists),
                ..st
            },
        ),
        MdEvent::EndItem => Ok(MdState { out: st.out + "\n"@, ..st }),
        MdEvent::EndBlockQuote => Ok(MdState { out: st.out + "]\n\n"@, ..st }),
        _ => Ok(st),
    }
}

/// The conversion after a text: code and captions keep it, elsewhere it is escaped.
pub open spec fn with_text(st: MdState, t: Seq<char>) -> MdState {
    match st.code {
        Some((lang, buf)) => MdState { code: Some((lang, buf + t)), ..st },
        None => match st.image {
            Some((dest, alt)) => MdState { image: Some((dest, alt + t)), ..st },
            None => MdState { out: st.out + markup(t), ..st },
        },
    }
}

/// The conversion after one event, or the image that has to be prepared first.
pub open spec fn stepped(st: MdState, cache: CacheView, ev: MdEvent<Seq<char>>) -> Result<
    MdState,
    ImageJob<Seq<char>>,
> {
    match ev {
        MdEvent::Text(t) => Ok(with_text(st, t)),
        MdEvent::Code(t) => Ok(MdState { out: st.out + ("#raw(\""@ + literal(t) + "\")"@), ..st }),
        MdEvent::SoftBreak => Ok(MdState { out: st.out + " "@, ..st }),
        MdEvent::HardBreak => Ok(MdState { out: st.out + " \\ "@, ..st }),
        MdEvent::Rule => Ok(
            MdState {
                out: st.out + "\n#line(length: 100%, stroke: 0.5pt + gray)\n\n"@,
                ..st
            },
        ),
        MdEvent::Heading(_) | MdEvent::Strong | MdEvent::Emphasis | MdEvent::Strikethrough
        | MdEvent::Link(_) | MdEvent::Image(_) | MdEvent::CodeBlock(_) | MdEvent::List(_)
        | MdEvent::Item | MdEvent::BlockQuote => Ok(started(st, ev)),
        MdEvent::Other => Ok(st),
        _ => ended(st, cache, ev),
    }
}

/// The conversion after several events, or the first image that has to be prepared.
pub open spec fn ran(st: MdState, cache: CacheView, evs: Seq<MdEvent<Seq<char>>>) -> Result<
    MdState,
    ImageJob<Seq<char>>,
>
    decreases evs.len(),
{
    if evs.len() == 0 {
        Ok(st)
    } else {
        match stepped(st, cache, evs[0]) {
            Ok(next) => ran(next, cache, evs.drop_first()),
            Err(job) => Err(job),
        }
    }
}

/// A conversion that has read nothing.
pub open spec fn fresh(base_dir: Seq<char>, hshift: usize) -> MdState {
    MdState { out: seq![], hshift, base_dir, code: None, image: None, lists: seq![] }
}

/// The markup of a page whose events are given.
pub open spec fn typst_of(
    base_dir: Seq<char>,
    hshift: usize,
    cache: CacheView,
    evs: Seq<MdEvent<Seq<char>>>,
) -> Result<Seq<char>, ImageJob<Seq<char>>> {
    match ran(fresh(base_dir, hshift), cache, evs) {
        Ok(st) => Ok(st.out),
        Err(job) => Err(job),
    }
}

impl MdToTypst {
    /// A conversion of a page in `base_dir` with its headings moved down.
    pub fn new(base_dir: &str, hshift: usize) -> (r: MdToTypst)
        ensures
            r@ == fresh(base_dir@, hshift),
    {
        let r = MdToTypst {
            out: String::new(),
            hshift,
            base_dir: base_dir.to_owned(),
            code: None,
            image: None,
            list_stack: Vec::new(),
        };
        assert(r@ =~= fresh(base_dir@, hshift));
        r
    }

    /// Writes markup.
    pub fn push(&mut self, s: &str)
        ensures
            final(self)@ == (MdState { out: old(self)@.out + s@, ..old(self)@ }),
    {
        self.out.append(s);
    }

    /// Begins a heading.
    fn start_heading(&mut self, level: usize)
        ensures
            final(self)@ == started(old(self)@, MdEvent::Heading(level)),
    {
        let lvl: usize = if self.hshift >= 6 || level >= 6 || level + self.hshift >= 6 {
            6
        } else {
            level + self.hshift
        };
        let marks = repeated("=", lvl);
        let mut s = "\n".to_owned();
        s.append(marks.as_str());
        s.append(" ");
        self.push(s.as_str());
    }

    /// Begins an item of a list.
    fn start_item(&mut self)
        ensures
            final(self)@ == started(old(self)@, MdEvent::Item),
    {
        let n: usize = self.list_stack.len();
        let depth: usize = if n > 0 {
            n - 1
        } else {
            0
        };
        let mut s = repeated("  ", depth);
        let ordered: bool = n > 0 && self.list_stack[n - 1].is_some();
        if ordered {
            s.append("+ ");
        } else {
            s.append("- ");
        }
        self.push(s.as_str());
    }

    /// Begins something.
    pub fn start(&mut self, ev: &MdEvent<String>)
        requires
            ev is Heading || ev is Strong || ev is Emphasis || ev is Strikethrough || ev is Link
                || ev is Image || ev is CodeBlock || ev is List || ev is Item || ev is BlockQuote,
        ensures
            final(self)@ == started(old(self)@, ev.seen()),
    {
        let ghost was = self@;
        assert(was.out + seq![] =~= was.out);
        match ev {
            MdEvent::Heading(level) => {
                self.start_heading(*level);
            },
            MdEvent::Strong => {
                self.push("#strong[");
            },
            MdEvent::Emphasis => {
                self.push("#emph[");
            },
            MdEvent::Strikethrough => {
                self.push("#strike[");
            },
            MdEvent::Link(url) => {
                let u = esc_string(url.as_str());
                let mut s = "#link(\"".to_owned();
                s.append(u.as_str());
                s.append("\")[");
                self.push(s.as_str());
            },
            MdEvent::Image(url) => {
                let url = url.clone();
                let alt = String::new();
                self.image = Some((url, alt));
                assert(self@ =~~= started(was, ev.seen()));
            },
            MdEvent::CodeBlock(lang) => {
                let lang: String = match lang {
                    Some(l) => l.clone(),
                    None => String::new(),
                };
                let buf = String::new();
                self.code = Some((lang, buf));
                assert(self@ =~~= started(was, ev.seen()));
            },
            MdEvent::List(n) => {
                self.list_stack.push(*n);
            },
            MdEvent::Item => {
                self.start_item();
            },
            MdEvent::BlockQuote => {
                self.push("#quote(block: true)[");
            },
            _ => {},
        }
    }

    /// Ends an image.
    fn end_image(&mut self, cache: &ImageCache) -> (r: Result<(), ImageJob<String>>)
        ensures
            match r {
                Ok(_) => ended(old(self)@, cache@, MdEvent::EndImage) == Ok::<
                    _,
                    ImageJob<Seq<char>>,
                >(final(self)@),
                Err(job) => final(self)@ == old(self)@ && ended(
                    old(self)@,
                    cache@,
                    MdEvent::EndImage,
                ) == Err::<MdState, _>(job.seen()),
            },
    {
        let mut s = String::new();
        match &self.image {
            Some(open) => {
                let rel: Option<String> = match cache.embed(self.base_dir.as_str(), open.0.as_str()) {
                    Embed::Refused => None,
                    Embed::Known(rel) => rel,
                    Embed::Prepare(job) => {
                        return Err(job);
                    },
                };
                let alt = trimmed(open.1.as_str());
                let cap = esc_markup(alt.as_str());
                match &rel {
                    Some(path) => {
                        let p = esc_string(path.as_str());
                        s.append("\n#figure(image(\"/");
                        s.append(p.as_str());
                        s.append("\", width: 80%), caption: [");
                        s.append(cap.as_str());
                        s.append("])\n\n");
                    },
                    None => {
                        s.append("#emph[(figure: ");
                        s.append(cap.as_str());
                        s.append(")]");
                    },
                }
                assert(s@ =~= figure(opt_text(rel), open.1@));
            },
            None => {
                return Ok(());
            },
        }
        self.image = None;
        self.push(s.as_str());
        Ok(())
    }

    /// Ends a code block.
    fn end_code(&mut self)
        ensures
            final(self)@ == code_ended(old(self)@),
    {
        let mut s = "\n#raw(\"".to_owned();
        match &self.code {
            Some(open) => {
                let t = without_back(open.1.as_str(), Class::One('\n'));
                let t = esc_string(t.as_str());
                s.append(t.as_str());
                s.append("\", block: true");
                if !open.0.as_str().is_empty() {
                    let l = esc_string(open.0.as_str());
                    s.append(", lang: \"");
                    s.append(l.as_str());
                    s.append("\"");
                }
                s.append(")\n\n");
                assert(s@ =~= code_block(open.0@, open.1@));
            },
            None => {
                return;
            },
        }
        self.code = None;
        self.push(s.as_str());
    }

    /// Ends something, or hands back the image that has to be prepared first.
    pub fn end(&mut self, ev: &MdEvent<String>, cache: &ImageCache) -> (r: Result<
        (),
        ImageJob<String>,
    >)
        ensures
            match r {
                Ok(_) => ended(old(self)@, cache@, ev.seen()) == Ok::<_, ImageJob<Seq<char>>>(
                    final(self)@,
                ),
                Err(job) => final(self)@ == old(self)@ && ended(old(self)@, cache@, ev.seen())
                    == Err::<MdState, _>(job.seen()),
            },
    {
        match ev {
            MdEvent::EndHeading => {
                self.push("\n\n");
            },
            MdEvent::EndParagraph => {
                self.push("\n\n");
            },
            MdEvent::EndStrong => {
                self.push("]");
            },
            MdEvent::EndEmphasis => {
                self.push("]");
            },
            MdEvent::EndStrikethrough => {
                self.push("]");
            },
            MdEvent::EndLink => {
                self.push("]");
            },
            MdEvent::EndImage => {
                return self.end_image(cache);
            },
            MdEvent::EndCodeBlock => {
                self.end_code();
            },
            MdEvent::EndList => {
                let ghost was = self@;
                let _last = self.list_stack.pop();
                assert(self@.lists =~= popped(was.lists));
                if self.list_stack.len() == 0 {
                    self.push("\n");
                }
            },
            MdEvent::EndItem => {
                self.push("\n");
            },
            MdEvent::EndBlockQuote => {
                self.push("]\n\n");
            },
            _ => {},
        }
        Ok(())
    }

    /// Takes up a text.
    fn text(&mut self, t: &str)
        ensures
            final(self)@ == with_text(old(self)@, t@),
    {
        let ghost was = self@;
        let code = self.code.take();
        match code {
            Some(open) => {
                let (lang, buf) = open;
                let mut buf = buf;
                buf.append(t);
                self.code = Some((lang, buf));
            },
            None => {
                let image = self.image.take();
                match image {
                    Some(open) => {
                        let (dest, alt) = open;
                        let mut alt = alt;
                        alt.append(t);
                        self.image = Some((dest, alt));
                    },
                    None => {
                        let e = esc_markup(t);
                        self.push(e.as_str());
                    },
                }
            },
        }
        assert(self@ =~~= with_text(was, t@));
    }

    /// Takes up one event, or hands back the image that has to be prepared first.
    pub fn event(&mut self, ev: &MdEvent<String>, cache: &ImageCache) -> (r: Result<
        (),
        ImageJob<String>,
    >)
        ensures
            match r {
                Ok(_) => stepped(old(self)@, cache@, ev.seen()) == Ok::<_, ImageJob<Seq<char>>>(
                    final(self)@,
                ),
                Err(job) => final(self)@ == old(self)@ && stepped(old(self)@, cache@, ev.seen())
                    == Err::<MdState, _>(job.seen()),
            },
    {
        match ev {
            MdEvent::Text(t) => {
                self.text(t.as_str());
            },
            MdEvent::Code(t) => {
                let e = esc_string(t.as_str());
                let mut s = "#raw(\"".to_owned();
                s.append(e.as_str());
                s.append("\")");
                self.push(s.as_str());
            },
            MdEvent::SoftBreak => {
                self.push(" ");
            },
            MdEvent::HardBreak => {
                self.push(" \\ ");
            },
            MdEvent::Rule => {
                self.push("\n#line(length: 100%, stroke: 0.5pt + gray)\n\n");
            },
            MdEvent::Heading(_) | MdEvent::Strong | MdEvent::Emphasis | MdEvent::Strikethrough
            | MdEvent::Link(_) | MdEvent::Image(_) | MdEvent::CodeBlock(_) | MdEvent::List(_)
            | MdEvent::Item | MdEvent::BlockQuote => {
                self.start(ev);
            },
            MdEvent::Other => {},
            _ => {
                return self.end(ev, cache);
            },
        }
        Ok(())
    }
}

/// Converts a page whose events are given.
pub fn convert_events(
    base_dir: &str,
    hshift: usize,
    events: &Vec<MdEvent<String>>,
    cache: &ImageCache,
) -> (r: Result<String, ImageJob<String>>)
    ensures
        match r {
            Ok(s) => typst_of(base_dir@, hshift, cache@, event_views(events@)) == Ok::<
                _,
                ImageJob<Seq<char>>,
            >(s@),
            Err(job) => typst_of(base_dir@, hshift, cache@, event_views(events@)) == Err::<
                Seq<char>,
                _,
            >(job.seen()),
        },
{
    let mut st = MdToTypst::new(base_dir, hshift);
    let ghost all = event_views(events@);
    let ghost start = st@;
    let mut i: usize = 0;
    assert(all.skip(0) =~= all);
    while i < events.len()
        invariant
            i <= events.len(),
            all == event_views(events@),
            ran(st@, cache@, all.skip(i as int)) == ran(start, cache@, all),
            start == fresh(base_dir@, hshift),
        decreases events.len() - i,
    {
        assert(all.skip(i as int)[0] == events@[i as int].seen());
        assert(all.skip(i as int).drop_first() =~= all.skip(i + 1));
        match st.event(&events[i], cache) {
            Ok(_) => {},
            Err(job) => {
                return Err(job);
            },
        }
        i = i + 1;
    }
    assert(all.skip(i as int).len() == 0);
    Ok(st.out)
}

/// Converts a markdown page to Typst markup. Where it shows an image that is
/// not in the cache, the job to prepare it is handed back; the page is converted
/// again once the outcome is recorded.
pub fn convert(base_dir: &str, hshift: usize, md: &str, cache: &ImageCache) -> (r: Result<
    String,
    ImageJob<String>,
>)
    ensures
        match r {
            Ok(s) => typst_of(base_dir@, hshift, cache@, markdown_events(md@, true, true)) == Ok::<
                _,
                ImageJob<Seq<char>>,
            >(s@),
            Err(job) => typst_of(base_dir@, hshift, cache@, markdown_events(md@, true, true))
                == Err::<Seq<char>, _>(job.seen()),
        },
{
    let events = parse_markdown(md, true, true);
    convert_events(base_dir, hshift, &events, cache)
}

/// Converting only adds to the markup: what an event found written stays in front.
pub proof fn law_markup_only_grows(st: MdState, cache: CacheView, ev: MdEvent<Seq<char>>)
    requires
        stepped(st, cache, ev) is Ok,
    ensures
        st.out.len() <= stepped(st, cache, ev)->Ok_0.out.len(),
        stepped(st, cache, ev)->Ok_0.out.take(st.out.len() as int) == st.out,
{
    let out = stepped(st, cache, ev)->Ok_0.out;
    assert(out.take(st.out.len() as int) =~= st.out);
}

/// A run of equals signs.
pub open spec fn signs(n: int) -> Seq<char> {
    Seq::new(n as nat, |i: int| '=')
}

proof fn lemma_signs(n: nat)
    ensures
        repeat("="@, n) == signs(n as int),
    decreases n,
{
    reveal_strlit("=");
    if n > 0 {
        lemma_signs((n - 1) as nat);
        assert(repeat("="@, n) =~= signs(n as int));
    } else {
        assert(repeat("="@, n) =~= signs(0));
    }
}

/// Moving headings down keeps their nesting. A heading is written on a line of
/// its own with one sign for each level, those of the page's shift included, but
/// with six at most. So of two headings on one page, as long as both lie within
/// six levels, the deeper one has as many signs more as it lies deeper.
pub proof fn law_headings_keep_their_nesting(
    st: MdState,
    cache: CacheView,
    l: usize,
    m: usize,
)
    ensures
        ({
            let a = stepped(st, cache, MdEvent::Heading(l));
            let b = stepped(st, cache, MdEvent::Heading(m));
            &&& a is Ok && b is Ok
            &&& a->Ok_0 == (MdState { out: a->Ok_0.out, ..st })
            &&& l + st.hshift <= 6 ==> a->Ok_0.out == st.out + (seq!['\n'] + signs(l + st.hshift)
                + seq![' '])
            &&& l + st.hshift >= 6 ==> a->Ok_0.out == st.out + (seq!['\n'] + signs(6) + seq![' '])
            &&& l <= m && m + st.hshift <= 6 ==> b->Ok_0.out.len() - a->Ok_0.out.len() == m - l
            &&& l <= m ==> a->Ok_0.out.len() <= b->Ok_0.out.len()
        }),
{
    reveal_strlit("\n");
    reveal_strlit(" ");
    assert("\n"@ =~= seq!['\n']);
    assert(" "@ =~= seq![' ']);
    lemma_signs(shifted(l as int, st.hshift as int) as nat);
    lemma_signs(shifted(m as int, st.hshift as int) as nat);
}

/// Events take effect one after the other: running two lists of them is running
/// the second on what the first has left, unless the first stops at an image.
pub proof fn law_events_run_in_order(
    st: MdState,
    cache: CacheView,
    a: Seq<MdEvent<Seq<char>>>,
    b: Seq<MdEvent<Seq<char>>>,
)
    ensures
        ran(st, cache, a + b) == (match ran(st, cache, a) {
            Ok(mid) => ran(mid, cache, b),
            Err(job) => Err(job),
        }),
        a.len() == 1 ==> ran(st, cache, a) == stepped(st, cache, a[0]),
    decreases a.len(),
{
    if a.len() == 0 {
        assert(a + b =~= b);
    } else {
        assert((a + b)[0] == a[0]);
        assert((a + b).drop_first() =~= a.drop_first() + b);
        match stepped(st, cache, a[0]) {
            Ok(next) => {
                law_events_run_in_order(next, cache, a.drop_first(), b);
                if a.len() == 1 {
                    assert(a.drop_first() =~= seq![]);
                }
            },
            Err(_) => {},
        }
    }
}

/// What an event writes, where no code block and no image takes it up.
pub open spec fn writes(
    st: MdState,
    cache: CacheView,
    ev: MdEvent<Seq<char>>,
    text: Seq<char>,
) -> bool {
    stepped(st, cache, ev) == Ok::<_, ImageJob<Seq<char>>>(MdState { out: st.out + text, ..st })
}

/// A span is written as a call of Typst with the text of the span between
/// brackets: what begins it opens one bracket, and what ends it closes one. So
/// does a quote. A link names its address. Nothing else changes.
pub proof fn law_spans_are_put_in_brackets(
    st: MdState,
    mid: MdState,
    cache: CacheView,
    url: Seq<char>,
)
    ensures
        writes(st, cache, MdEvent::Strong, "#strong["@),
        writes(mid, cache, MdEvent::EndStrong, "]"@),
        writes(st, cache, MdEvent::Emphasis, "#emph["@),
        writes(mid, cache, MdEvent::EndEmphasis, "]"@),
        writes(st, cache, MdEvent::Strikethrough, "#strike["@),
        writes(mid, cache, MdEvent::EndStrikethrough, "]"@),
        writes(st, cache, MdEvent::Link(url), "#link(\""@ + literal(url) + "\")["@),
        writes(mid, cache, MdEvent::EndLink, "]"@),
        writes(st, cache, MdEvent::BlockQuote, "#quote(block: true)["@),
        writes(mid, cache, MdEvent::EndBlockQuote, "]\n\n"@),
{
}

/// Paragraphs and headings end with an empty line; a soft break is a blank, a
/// hard one a break of Typst; a rule is a line across the page; inline code is
/// raw text. What the conversion passes over changes nothing.
pub proof fn law_breaks_and_rules_are_written(st: MdState, cache: CacheView, t: Seq<char>)
    ensures
        writes(st, cache, MdEvent::EndParagraph, "\n\n"@),
        writes(st, cache, MdEvent::EndHeading, "\n\n"@),
        writes(st, cache, MdEvent::SoftBreak, " "@),
        writes(st, cache, MdEvent::HardBreak, " \\ "@),
        writes(st, cache, MdEvent::Rule, "\n#line(length: 100%, stroke: 0.5pt + gray)\n\n"@),
        writes(st, cache, MdEvent::Code(t), "#raw(\""@ + literal(t) + "\")"@),
        stepped(st, cache, MdEvent::Other) == Ok::<_, ImageJob<Seq<char>>>(st),
{
    assert("#raw(\""@ + literal(t) + "\")"@ == ("#raw(\""@ + literal(t)) + "\")"@);
}

/// The events of texts.
pub open spec fn text_events(ts: Seq<Seq<char>>) -> Seq<MdEvent<Seq<char>>> {
    Seq::new(ts.len(), |i: int| MdEvent::Text(ts[i]))
}

/// The texts, one behind the other.
pub open spec fn all_text(ts: Seq<Seq<char>>) -> Seq<char>
    decreases ts.len(),
{
    if ts.len() == 0 {
        seq![]
    } else {
        all_text(ts.drop_last()) + ts.last()
    }
}

/// The conversion after texts: an open code block gathers them, an image gathers
/// them for its caption, and elsewhere they are written, escaped.
pub open spec fn gathered(st: MdState, t: Seq<char>) -> MdState {
    match st.code {
        Some((lang, buf)) => MdState { code: Some((lang, buf + t)), ..st },
        None => match st.image {
            Some((dest, alt)) => MdState { image: Some((dest, alt + t)), ..st },
            None => MdState { out: st.out + markup(t), ..st },
        },
    }
}

proof fn lemma_texts_gather(st: MdState, cache: CacheView, ts: Seq<Seq<char>>)
    ensures
        ran(st, cache, text_events(ts)) == Ok::<_, ImageJob<Seq<char>>>(
            gathered(st, all_text(ts)),
        ),
    decreases ts.len(),
{
    if ts.len() == 0 {
        assert(text_events(ts) =~= seq![]);
        match (st.code, st.image) {
            (Some((lang, buf)), _) => {
                assert(buf + all_text(ts) =~= buf);
            },
            (None, Some((dest, alt))) => {
                assert(alt + all_text(ts) =~= alt);
            },
            (None, None) => {
                assert(st.out + markup(all_text(ts)) =~= st.out);
            },
        }
    } else {
        let front = ts.drop_last();
        let one = seq![MdEvent::Text(ts.last())];
        lemma_texts_gather(st, cache, front);
        assert(text_events(ts) =~= text_events(front) + one);
        law_events_run_in_order(st, cache, text_events(front), one);
        let mid = ran(st, cache, text_events(front))->Ok_0;
        law_events_run_in_order(mid, cache, one, seq![]);
        match (st.code, st.image) {
            (Some((lang, buf)), _) => {
                assert(buf + all_text(front) + ts.last() =~= buf + all_text(ts));
            },
            (None, Some((dest, alt))) => {
                assert(alt + all_text(front) + ts.last() =~= alt + all_text(ts));
            },
            (None, None) => {
                law_escaping_joins(all_text(front), ts.last());
                assert(st.out + markup(all_text(front)) + markup(ts.last()) =~= st.out + markup(
                    all_text(ts),
                ));
            },
        }
    }
}

/// A paragraph shows its text: what is written for texts outside code and images
/// is their text, escaped.
pub proof fn law_texts_are_escaped(st: MdState, cache: CacheView, ts: Seq<Seq<char>>)
    requires
        st.code is None,
        st.image is None,
    ensures
        ran(st, cache, text_events(ts)) == Ok::<_, ImageJob<Seq<char>>>(
            MdState { out: st.out + markup(all_text(ts)), ..st },
        ),
{
    lemma_texts_gather(st, cache, ts);
}

/// A code block is written as raw text: all that stands in it, in order, with
/// nothing taken off but line feeds at its end, and with its language, if it has
/// one. No block is open behind it.
pub proof fn law_code_blocks_keep_their_text(
    st: MdState,
    cache: CacheView,
    lang: Option<Seq<char>>,
    ts: Seq<Seq<char>>,
)
    ensures
        ({
            let evs = seq![MdEvent::CodeBlock(lang)] + text_events(ts) + seq![
                MdEvent::EndCodeBlock,
            ];
            let body = drop_back(all_text(ts), Class::One('\n'));
            ran(st, cache, evs) == Ok::<_, ImageJob<Seq<char>>>(
                MdState {
                    out: st.out + ("\n#raw(\""@ + literal(body) + "\", block: true"@ + (
                    if lang is Some && lang->0.len() > 0 {
                        ", lang: \""@ + literal(lang->0) + "\""@
                    } else {
                        seq![]
                    }) + ")\n\n"@),
                    code: None,
                    ..st
                },
            )
        }),
{
    let first = seq![MdEvent::CodeBlock(lang)];
    let last = seq![MdEvent::EndCodeBlock::<Seq<char>>];
    law_events_run_in_order(st, cache, first + text_events(ts), last);
    law_events_run_in_order(st, cache, first, text_events(ts));
    let open = stepped(st, cache, first[0])->Ok_0;
    assert(open.out =~= st.out);
    lemma_texts_gather(open, cache, ts);
    let full = ran(open, cache, text_events(ts))->Ok_0;
    assert(Seq::<char>::empty() + all_text(ts) =~= all_text(ts));
    law_events_run_in_order(full, cache, last, seq![]);
}

/// An image is written as a figure with its text as caption, if the cache has
/// its file, and as its text alone, if the cache has refused it. An image that
/// the cache does not know stops the conversion and is asked for.
pub proof fn law_images_become_figures(
    st: MdState,
    cache: CacheView,
    url: Seq<char>,
    ts: Seq<Seq<char>>,
)
    requires
        st.code is None,
    ensures
        ({
            let evs = seq![MdEvent::Image(url)] + text_events(ts) + seq![MdEvent::EndImage];
            let alt = markup(trim(all_text(ts)));
            match cache.embed(st.base_dir, url) {
                Embed::Prepare(job) => ran(st, cache, evs) == Err::<MdState, _>(job),
                Embed::Known(Some(path)) => ran(st, cache, evs) == Ok::<_, ImageJob<Seq<char>>>(
                    MdState {
                        out: st.out + ("\n#figure(image(\"/"@ + literal(path)
                            + "\", width: 80%), caption: ["@ + alt + "])\n\n"@),
                        image: None,
                        ..st
                    },
                ),
                _ => ran(st, cache, evs) == Ok::<_, ImageJob<Seq<char>>>(
                    MdState {
                        out: st.out + ("#emph[(figure: "@ + alt + ")]"@),
                        image: None,
                        ..st
                    },
                ),
            }
        }),
{
    let first = seq![MdEvent::Image(url)];
    let last = seq![MdEvent::EndImage::<Seq<char>>];
    law_events_run_in_order(st, cache, first + text_events(ts), last);
    law_events_run_in_order(st, cache, first, text_events(ts));
    let open = stepped(st, cache, first[0])->Ok_0;
    assert(open.out =~= st.out);
    lemma_texts_gather(open, cache, ts);
    let full = ran(open, cache, text_events(ts))->Ok_0;
    assert(Seq::<char>::empty() + all_text(ts) =~= all_text(ts));
    law_events_run_in_order(full, cache, last, seq![]);
}

/// A run of blanks.
pub open spec fn blanks(n: nat) -> Seq<char> {
    Seq::new(n, |i: int| ' ')
}

proof fn lemma_blanks(n: nat)
    ensures
        repeat("  "@, n) == blanks(2 * n),
    decreases n,
{
    reveal_strlit("  ");
    if n > 0 {
        lemma_blanks((n - 1) as nat);
        assert(repeat("  "@, n) =~= blanks(2 * n));
    } else {
        assert(repeat("  "@, n) =~= blanks(0));
    }
}

/// Lists nest: each list that is opened is the innermost one until it ends, and
/// then the one around it is again. An item of the innermost list is indented by
/// two blanks for each list around that one, and marked by whether the innermost
/// list is ordered. The outermost list ends with an empty line.
pub proof fn law_lists_nest(st: MdState, cache: CacheView, n: Option<u64>)
    ensures
        ({
            let open = stepped(st, cache, MdEvent::List(n));
            let inner = open->Ok_0;
            let mark = if n is Some {
                '+'
            } else {
                '-'
            };
            &&& open is Ok && inner == (MdState { lists: st.lists.push(n), ..st })
            &&& writes(
                inner,
                cache,
                MdEvent::Item,
                blanks(2 * st.lists.len()) + seq![mark, ' '],
            )
            &&& writes(inner, cache, MdEvent::EndItem, "\n"@)
            &&& stepped(inner, cache, MdEvent::EndList) == Ok::<_, ImageJob<Seq<char>>>(
                MdState {
                    out: if st.lists.len() == 0 {
                        st.out + "\n"@
                    } else {
                        st.out
                    },
                    ..st
                },
            )
        }),
{
    reveal_strlit("+ ");
    reveal_strlit("- ");
    assert("+ "@ =~= seq!['+', ' ']);
    assert("- "@ =~= seq!['-', ' ']);
    let inner = stepped(st, cache, MdEvent::List(n))->Ok_0;
    assert(inner.out =~= st.out);
    lemma_blanks(st.lists.len());
    assert(inner.lists.drop_last() =~= st.lists);
}

/// A page is what its events write, beginning with nothing.
pub proof fn law_a_page_is_what_its_events_write(
    base_dir: Seq<char>,
    hshift: usize,
    cache: CacheView,
    evs: Seq<MdEvent<Seq<char>>>,
)
    ensures
        ({
            let st = MdState {
                out: seq![],
                hshift,
                base_dir,
                code: None,
                image: None,
                lists: seq![],
            };
            match ran(st, cache, evs) {
                Ok(end) => typst_of(base_dir, hshift, cache, evs) == Ok::<_, ImageJob<Seq<char>>>(
                    end.out,
                ),
                Err(job) => typst_of(base_dir, hshift, cache, evs) == Err::<Seq<char>, _>(job),
            }
        }),
{
}

} // verus!
