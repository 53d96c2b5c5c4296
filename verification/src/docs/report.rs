//! The call graph as a section of the developer manual.

use vstd::prelude::*;

use crate::docs::callgraph::{
    build_graph, display, find_fit, first_fit, fits, graph_of, in_graph, law_walk_is_sound,
    lemma_first_fit_is_first, reached, reached_from, shown, walk, walked, Graph, GraphView, Visit,
    Walk, WalkView, Want,
};
use crate::docs::escape::{esc_markup, esc_string, literal, markup};
use crate::docs::index::{build_index, defs, index, Def};
use crate::lines::{join, joined};
use crate::numbers::{dec, to_dec};
use crate::text::{drop_back, pairs, texts, without_back, Class};

verus! {

/// A function from which the graph is walked.
pub struct Seed {
    /// The heading of its section.
    pub label: &'static str,
    /// The file that defines it.
    pub file: &'static str,
    /// Its name.
    pub func: &'static str,
    /// The directories and files that are indexed for it.
    pub roots: Vec<String>,
    /// How deep the walk goes.
    pub max_depth: usize,
}

/// A seed over views.
pub struct SeedView {
    pub label: Seq<char>,
    pub file: Seq<char>,
    pub func: Seq<char>,
    pub roots: Seq<Seq<char>>,
    pub max_depth: usize,
}

impl View for Seed {
    type V = SeedView;

    open spec fn view(&self) -> SeedView {
        SeedView {
            label: self.label@,
            file: self.file@,
            func: self.func@,
            roots: texts(self.roots@),
            max_depth: self.max_depth,
        }
    }
}

/// The seeds, in the order of their sections.
pub open spec fn seed_views() -> Seq<SeedView> {
    seq![
        SeedView {
            label: "`android_main` — the one entry point"@,
            file: "src/android/main.rs"@,
            func: "android_main"@,
            roots: seq!["src/android"@, "src/core"@],
            max_depth: 4,
        },
        SeedView {
            label: "`command::build` — the cross-compiling (xbuild) path"@,
            file: "patches/xbuild/xbuild/src/command/build.rs"@,
            func: "build"@,
            roots: seq!["patches/xbuild/xbuild/src"@],
            max_depth: 2,
        },
        SeedView {
            label: "`apk::build` — the on-device build path"@,
            file: "src/bin/build_apk.rs"@,
            func: "build"@,
            roots: seq!["src/bin/build_apk.rs"@],
            max_depth: 4,
        },
    ]
}

/// The seed of section `i`.
pub fn seed_at(i: usize) -> (r: Seed)
    requires
        i < 3,
    ensures
        r@ == seed_views()[i as int],
{
    let mut roots: Vec<String> = Vec::new();
    if i == 0 {
        roots.push("src/android".to_owned());
        roots.push("src/core".to_owned());
        assert(texts(roots@) =~= seq!["src/android"@, "src/core"@]);
        Seed {
            label: "`android_main` — the one entry point",
            file: "src/android/main.rs",
            func: "android_main",
            roots,
            max_depth: 4,
        }
    } else if i == 1 {
        roots.push("patches/xbuild/xbuild/src".to_owned());
        assert(texts(roots@) =~= seq!["patches/xbuild/xbuild/src"@]);
        Seed {
            label: "`command::build` — the cross-compiling (xbuild) path",
            file: "patches/xbuild/xbuild/src/command/build.rs",
            func: "build",
            roots,
            max_depth: 2,
        }
    } else {
        roots.push("src/bin/build_apk.rs".to_owned());
        assert(texts(roots@) =~= seq!["src/bin/build_apk.rs"@]);
        Seed {
            label: "`apk::build` — the on-device build path",
            file: "src/bin/build_apk.rs",
            func: "build",
            roots,
            max_depth: 4,
        }
    }
}

/// How a function was reached.
pub open spec fn crumb(g: GraphView, v: Visit) -> Seq<char> {
    match v.caller {
        None => "entry point"@,
        Some(c) => "depth "@ + dec(v.depth as nat) + ", called by "@ + shown(g.defs[c as int]),
    }
}

/// The entry of one function.
pub open spec fn entry(g: GraphView, v: Visit) -> Seq<char> {
    let d = g.defs[v.def as int];
    "#heading(level: 2, outlined: false, numbering: none)[#raw(\""@ + literal(shown(d))
        + "\")]\n\n"@ + "#emph["@ + markup(crumb(g, v)) + "] · #raw(\""@ + literal(d.file)
        + "\")\n\n"@ + "#raw(\""@ + literal(drop_back(d.text, Class::Space))
        + "\", block: true, lang: \"rust\")\n\n"@
}

/// The entries of the functions of a walk.
pub open spec fn entries(g: GraphView, order: Seq<Visit>) -> Seq<char>
    decreases order.len(),
{
    if order.len() == 0 {
        seq![]
    } else {
        entries(g, order.drop_last()) + entry(g, order.last())
    }
}

/// What stands above the entries of a section.
pub open spec fn section_head(seed: SeedView, root: Def<Seq<char>>, w: WalkView) -> Seq<char> {
    "#pagebreak(weak: true)\n= "@ + markup(seed.label) + "\n\n"@
        + "#emph[Auto-generated by walking the call graph from #raw(\""@ + literal(shown(root))
        + "\") to depth "@ + dec(seed.max_depth as nat) + " over "@ + markup(join(seed.roots, ", "@))
        + ". Lexical and intra-crate: trait/dyn dispatch is invisible, same-name methods are resolved heuristically, external calls omitted. "@
        + dec(w.order.len()) + " functions reached"@ + (if w.truncated {
        ", node cap hit — truncated"@
    } else {
        ""@
    }) + ".]\n\n"@
}

/// The section of a seed in the graph of its sources; nothing where they do not
/// define it.
pub open spec fn section(seed: SeedView, g: GraphView) -> Seq<char> {
    match first_fit(g.defs, seed.func, Want::File(seed.file), 0) {
        Some(root) => {
            let w = walked(g, root as usize, seed.max_depth);
            section_head(seed, g.defs[root], w) + entries(g, w.order)
        },
        None => seq![],
    }
}

/// The section of a seed, given the files of its roots.
pub open spec fn seed_section(seed: SeedView, files: Seq<(Seq<char>, Seq<char>)>) -> Option<
    Seq<char>,
> {
    match index(files) {
        Some(ds) => match graph_of(ds) {
            Some(g) => Some(section(seed, g)),
            None => None,
        },
        None => None,
    }
}

/// The sections of the first `n` seeds, given the files of each.
pub open spec fn sections(files: Seq<Seq<(Seq<char>, Seq<char>)>>, n: int) -> Option<Seq<char>>
    decreases n,
{
    if n <= 0 {
        Some(seq![])
    } else {
        match sections(files, n - 1) {
            Some(done) => match seed_section(seed_views()[n - 1], files[n - 1]) {
                Some(s) => Some(done + s),
                None => None,
            },
            None => None,
        }
    }
}

/// Writes how a function was reached.
fn write_crumb(g: &Graph, v: Visit) -> (r: String)
    requires
        v.caller is Some ==> v.caller->0 < g.defs.len(),
    ensures
        r@ == crumb(g@, v),
{
    match v.caller {
        None => "entry point".to_owned(),
        Some(c) => {
            let mut r = "depth ".to_owned();
            let n = to_dec(v.depth as u64);
            r.append(n.as_str());
            r.append(", called by ");
            assert(g@.defs[c as int] == g.defs@[c as int].seen());
            let d = display(&g.defs[c]);
            r.append(d.as_str());
            r
        },
    }
}

/// Writes the entry of one function.
fn write_entry(g: &Graph, v: Visit) -> (r: String)
    requires
        v.def < g.defs.len(),
        v.caller is Some ==> v.caller->0 < g.defs.len(),
    ensures
        r@ == entry(g@, v),
{
    let d = &g.defs[v.def];
    assert(g@.defs[v.def as int] == d.seen());
    let name = display(d);
    let name = esc_string(name.as_str());
    let how = write_crumb(g, v);
    let how = esc_markup(how.as_str());
    let file = esc_string(d.file.as_str());
    let text = without_back(d.text.as_str(), Class::Space);
    let text = esc_string(text.as_str());
    let mut r = "#heading(level: 2, outlined: false, numbering: none)[#raw(\"".to_owned();
    r.append(name.as_str());
    r.append("\")]\n\n");
    r.append("#emph[");
    r.append(how.as_str());
    r.append("] · #raw(\"");
    r.append(file.as_str());
    r.append("\")\n\n");
    r.append("#raw(\"");
    r.append(text.as_str());
    r.append("\", block: true, lang: \"rust\")\n\n");
    r
}

/// Writes the entries of a walk.
fn write_entries(g: &Graph, w: &Walk) -> (r: String)
    requires
        in_graph(g@, w@),
        forall|i: int|
            0 <= i < w@.order.len() ==> ((#[trigger] w@.order[i]).caller is Some
                ==> w@.order[i].caller->0 < g@.defs.len()),
    ensures
        r@ == entries(g@, w@.order),
{
    let mut r = String::new();
    let mut i: usize = 0;
    assert(w@.order.take(0) =~= seq![]);
    while i < w.order.len()
        invariant
            i <= w.order.len(),
            in_graph(g@, w@),
            forall|i: int|
                0 <= i < w@.order.len() ==> ((#[trigger] w@.order[i]).caller is Some
                    ==> w@.order[i].caller->0 < g@.defs.len()),
            r@ == entries(g@, w@.order.take(i as int)),
        decreases w.order.len() - i,
    {
        assert(w@.order.take(i + 1).drop_last() =~= w@.order.take(i as int));
        assert(w@.order.take(i + 1).last() == w@.order[i as int]);
        let e = write_entry(g, w.order[i]);
        r.append(e.as_str());
        i = i + 1;
    }
    assert(w@.order.take(i as int) =~= w@.order);
    r
}

/// Writes what stands above the entries.
fn write_head(seed: &Seed, root: &Def<String>, w: &Walk) -> (r: String)
    ensures
        r@ == section_head(seed@, root.seen(), w@),
{
    let label = esc_markup(seed.label);
    let name = display(root);
    let name = esc_string(name.as_str());
    let depth = to_dec(seed.max_depth as u64);
    let roots = joined(&seed.roots, ", ");
    let roots = esc_markup(roots.as_str());
    let count = to_dec(w.order.len() as u64);
    let mut r = "#pagebreak(weak: true)\n= ".to_owned();
    r.append(label.as_str());
    r.append("\n\n");
    r.append("#emph[Auto-generated by walking the call graph from #raw(\"");
    r.append(name.as_str());
    r.append("\") to depth ");
    r.append(depth.as_str());
    r.append(" over ");
    r.append(roots.as_str());
    r.append(
        ". Lexical and intra-crate: trait/dyn dispatch is invisible, same-name methods are resolved heuristically, external calls omitted. ",
    );
    r.append(count.as_str());
    r.append(" functions reached");
    if w.truncated {
        r.append(", node cap hit — truncated");
    } else {
        r.append("");
    }
    r.append(".]\n\n");
    r
}

/// Writes the section of a seed.
pub fn write_section(seed: &Seed, g: &Graph) -> (r: String)
    requires
        g@.wf(),
    ensures
        r@ == section(seed@, g@),
{
    match find_fit(&g.defs, seed.func, Want::File(seed.file)) {
        Some(root) => {
            let w = walk(g, root, seed.max_depth);
            proof {
                law_walk_is_sound(g@, root, seed.max_depth);
                assert forall|i: int|
                    0 <= i < w@.order.len() && (#[trigger] w@.order[i]).caller is Some implies w@.order[
                i].caller->0 < g@.defs.len() by {
                    if i > 0 {
                        assert(reached(g@, w@, i));
                        let j = choose|j: int| reached_from(g@, w@, j, i);
                        assert(w@.order[j].def < g@.defs.len());
                    }
                }
                assert(g@.defs[root as int] == g.defs@[root as int].seen());
            }
            let mut r = write_head(seed, &g.defs[root], &w);
            let e = write_entries(g, &w);
            r.append(e.as_str());
            r
        },
        None => String::new(),
    }
}

/// The views of lists of files.
pub open spec fn file_lists(v: Seq<Vec<(String, String)>>) -> Seq<Seq<(Seq<char>, Seq<char>)>> {
    Seq::new(v.len(), |i: int| pairs(v[i]@))
}

/// Emits the whole call-graph part as Typst markup, given for each seed the
/// paths and the texts of the files below its roots. There is none where a
/// pattern does not compile or a match cannot be cut out of its source.
pub fn callgraph_typst(files: &Vec<Vec<(String, String)>>) -> (r: Option<String>)
    requires
        files.len() == 3,
    ensures
        match r {
            Some(s) => sections(file_lists(files@), 3) == Some(s@),
            None => sections(file_lists(files@), 3) is None,
        },
{
    let mut out = String::new();
    let ghost all = file_lists(files@);
    let mut i: usize = 0;
    assert(out@ =~= seq![]);
    while i < 3
        invariant
            i <= 3,
            files.len() == 3,
            all == file_lists(files@),
            sections(all, i as int) == Some(out@),
        decreases 3 - i,
    {
        let seed = seed_at(i);
        assert(all[i as int] == pairs(files@[i as int]@));
        match build_index(&files[i]) {
            Some(ds) => match build_graph(ds) {
                Some(g) => {
                    let s = write_section(&seed, &g);
                    out.append(s.as_str());
                },
                None => {
                    proof {
                        lemma_sections_fail(all, i + 1, 3);
                    }
                    return None;
                },
            },
            None => {
                proof {
                    lemma_sections_fail(all, i + 1, 3);
                }
                return None;
            },
        }
        i = i + 1;
    }
    Some(out)
}

/// A failure among the first sections is one among more of them.
proof fn lemma_sections_fail(files: Seq<Seq<(Seq<char>, Seq<char>)>>, m: int, n: int)
    requires
        m <= n,
        sections(files, m) is None,
    ensures
        sections(files, n) is None,
    decreases n,
{
    if m < n && n > 0 {
        lemma_sections_fail(files, m, n - 1);
    }
}

/// The functions of a walk are shown in its order.
pub proof fn law_entries_follow_the_walk(g: GraphView, a: Seq<Visit>, b: Seq<Visit>, v: Visit)
    ensures
        entries(g, a + b) == entries(g, a) + entries(g, b),
        entries(g, seq![v]) == entry(g, v),
        entries(g, Seq::<Visit>::empty()) == Seq::<char>::empty(),
    decreases b.len(),
{
    let one = seq![v];
    assert(one.drop_last() =~= seq![]);
    assert(entries(g, one.drop_last()) =~= seq![]);
    assert(entries(g, one) =~= entry(g, v));
    if b.len() == 0 {
        assert(a + b =~= a);
        assert(entries(g, a) + entries(g, b) =~= entries(g, a));
    } else {
        law_entries_follow_the_walk(g, a, b.drop_last(), v);
        assert((a + b).drop_last() =~= a + b.drop_last());
        assert(entries(g, a + b) =~= entries(g, a) + entries(g, b));
    }
}

/// An entry shows its function: its name with its owner, how it was reached, its
/// file, and its whole text but for white space at the end.
pub proof fn law_an_entry_shows_its_function(g: GraphView, v: Visit)
    ensures
        ({
            let d = g.defs[v.def as int];
            let name = match d.owner {
                Some(o) => o + "::"@ + d.name,
                None => d.name,
            };
            let how = match v.caller {
                None => "entry point"@,
                Some(c) => "depth "@ + dec(v.depth as nat) + ", called by "@ + shown(
                    g.defs[c as int],
                ),
            };
            entry(g, v) == "#heading(level: 2, outlined: false, numbering: none)[#raw(\""@
                + literal(name) + "\")]\n\n"@ + "#emph["@ + markup(how) + "] · #raw(\""@ + literal(
                d.file,
            ) + "\")\n\n"@ + "#raw(\""@ + literal(drop_back(d.text, Class::Space))
                + "\", block: true, lang: \"rust\")\n\n"@
        }),
{
}

/// A section walks from the first function with the name and in the file of its
/// seed, and shows every function that the walk reached. It counts them, and
/// says so where the walk left some out. Without such a function there is none.
pub proof fn law_a_section_shows_its_walk(seed: SeedView, g: GraphView, root: int)
    requires
        g.defs.len() <= usize::MAX,
    ensures
        ({
            let is_root = |i: int| g.defs[i].name == seed.func && g.defs[i].file == seed.file;
            let w = walked(g, root as usize, seed.max_depth);
            &&& (0 <= root < g.defs.len() && is_root(root) && forall|i: int|
                0 <= i < root ==> !(#[trigger] is_root(i))) ==> section(seed, g)
                == "#pagebreak(weak: true)\n= "@ + markup(seed.label) + "\n\n"@
                + "#emph[Auto-generated by walking the call graph from #raw(\""@ + literal(
                shown(g.defs[root]),
            ) + "\") to depth "@ + dec(seed.max_depth as nat) + " over "@ + markup(
                join(seed.roots, ", "@),
            )
                + ". Lexical and intra-crate: trait/dyn dispatch is invisible, same-name methods are resolved heuristically, external calls omitted. "@
                + dec(w.order.len()) + " functions reached"@ + (if w.truncated {
                ", node cap hit — truncated"@
            } else {
                ""@
            }) + ".]\n\n"@ + entries(g, w.order)
            &&& (forall|i: int| 0 <= i < g.defs.len() ==> !(#[trigger] is_root(i))) ==> section(
                seed,
                g,
            ) == Seq::<char>::empty()
        }),
{
    let is_root = |i: int| g.defs[i].name == seed.func && g.defs[i].file == seed.file;
    let want = Want::File(seed.file);
    lemma_first_fit_is_first(g.defs, seed.func, want, 0);
    match first_fit(g.defs, seed.func, want, 0) {
        Some(p) => {
            assert(is_root(p));
            if 0 <= root < g.defs.len() && is_root(root) && forall|i: int|
                0 <= i < root ==> !(#[trigger] is_root(i)) {
                assert(p == root) by {
                    if root < p {
                        assert(!fits(g.defs[root], seed.func, want));
                    }
                }
            }
        },
        None => {
            if 0 <= root < g.defs.len() && is_root(root) {
                assert(!fits(g.defs[root], seed.func, want));
            }
        },
    }
}

/// The sections stand in the order of their seeds, each made from its own files;
/// one that cannot be made leaves none.
pub proof fn law_sections_stand_in_order(files: Seq<Seq<(Seq<char>, Seq<char>)>>)
    ensures
        sections(files, 3) == (match (
            seed_section(seed_views()[0], files[0]),
            seed_section(seed_views()[1], files[1]),
            seed_section(seed_views()[2], files[2]),
        ) {
            (Some(a), Some(b), Some(c)) => Some(a + b + c),
            _ => None,
        }),
{
    reveal_with_fuel(sections, 4);
    match seed_section(seed_views()[0], files[0]) {
        Some(a) => {
            assert(Seq::<char>::empty() + a =~= a);
        },
        None => {},
    }
}

/// The walks begin at the entry of the app and at the two builds, each in the
/// sources that it runs through.
pub proof fn law_walks_begin_at_the_three_entries()
    ensures
        seed_views().len() == 3,
        seed_views()[0].func == "android_main"@ && seed_views()[0].file == "src/android/main.rs"@
            && seed_views()[0].roots == seq!["src/android"@, "src/core"@]
            && seed_views()[0].max_depth == 4,
        seed_views()[1].func == "build"@ && seed_views()[1].file
            == "patches/xbuild/xbuild/src/command/build.rs"@ && seed_views()[1].roots == seq![
            "patches/xbuild/xbuild/src"@,
        ] && seed_views()[1].max_depth == 2,
        seed_views()[2].func == "build"@ && seed_views()[2].file == "src/bin/build_apk.rs"@
            && seed_views()[2].roots == seq!["src/bin/build_apk.rs"@] && seed_views()[2].max_depth
            == 4,
{
}

} // verus!
