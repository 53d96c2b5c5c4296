//! Which manuals are rendered, and how they look.

use vstd::prelude::*;

use crate::lines::{join, joined};
use crate::paths::{join_path, path_join};
use crate::text::{same, texts};

verus! {

/// Which manual.
#[derive(Clone, Copy, PartialEq, Eq, Structural)]
pub enum Manual {
    Developer,
    User,
}

/// The page size: a full sheet, the near-square inner screen of a foldable, or
/// the narrow screen of a phone.
#[derive(Clone, Copy, PartialEq, Eq, Structural)]
pub enum Size {
    Desktop,
    Fold,
    Phone,
}

/// The name of a size; the full sheet has none.
pub open spec fn size_label(size: Size) -> Option<Seq<char>> {
    match size {
        Size::Desktop => None,
        Size::Fold => Some("Fold"@),
        Size::Phone => Some("Phone"@),
    }
}

impl Size {
    /// The name of the size; the full sheet has none.
    pub fn label(self) -> (r: Option<&'static str>)
        ensures
            match r {
                Some(l) => size_label(self) == Some(l@),
                None => size_label(self) is None,
            },
    {
        match self {
            Size::Desktop => None,
            Size::Fold => Some("Fold"),
            Size::Phone => Some("Phone"),
        }
    }
}

/// One manual to render.
#[derive(Clone, Copy, PartialEq, Eq, Structural)]
pub struct Opts {
    pub manual: Manual,
    pub callgraph: bool,
    pub size: Size,
    pub dark: bool,
}

/// The colours and the font of a manual. Colours are six hexadecimal digits.
pub struct Theme {
    pub accent: &'static str,
    pub ink: &'static str,
    pub code_bg: &'static str,
    pub page_bg: Option<&'static str>,
    pub font: &'static str,
}

/// A theme over views.
pub struct ThemeView {
    pub accent: Seq<char>,
    pub ink: Seq<char>,
    pub code_bg: Seq<char>,
    pub page_bg: Option<Seq<char>>,
    pub font: Seq<char>,
}

impl View for Theme {
    type V = ThemeView;

    open spec fn view(&self) -> ThemeView {
        ThemeView {
            accent: self.accent@,
            ink: self.ink@,
            code_bg: self.code_bg@,
            page_bg: match self.page_bg {
                Some(bg) => Some(bg@),
                None => None,
            },
            font: self.font@,
        }
    }
}

/// The theme of a manual: the user manual looks like the website, light or
/// dark; the developer manual looks like a book.
pub open spec fn theme_of(o: Opts) -> ThemeView {
    if o.manual == Manual::User {
        if o.dark {
            ThemeView {
                accent: "2DD4BF"@,
                ink: "E8EDF5"@,
                code_bg: "0E2622"@,
                page_bg: Some("071018"@),
                font: "Lato"@,
            }
        } else {
            ThemeView {
                accent: "0D9488"@,
                ink: "0F172A"@,
                code_bg: "E6F4F2"@,
                page_bg: None,
                font: "Lato"@,
            }
        }
    } else {
        ThemeView {
            accent: "1F3A93"@,
            ink: "111111"@,
            code_bg: "F4F4F4"@,
            page_bg: None,
            font: "Cardo"@,
        }
    }
}

/// What sets a manual apart from the plain one, in the order of its file name.
pub open spec fn qualifiers(o: Opts) -> Seq<Seq<char>> {
    let a: Seq<Seq<char>> = if o.manual == Manual::Developer && o.callgraph {
        seq!["Call Graph"@]
    } else {
        seq![]
    };
    let b: Seq<Seq<char>> = match size_label(o.size) {
        Some(l) => a.push(l),
        None => a,
    };
    if o.manual == Manual::User && o.dark {
        b.push("Dark"@)
    } else {
        b
    }
}

/// The file name of a manual.
pub open spec fn file_name_of(o: Opts) -> Seq<char> {
    let base = if o.manual == Manual::User {
        "Local Desktop - User Manual"@
    } else {
        "Local Desktop - Developer Manual"@
    };
    let quals = qualifiers(o);
    if quals.len() == 0 {
        base + ".pdf"@
    } else {
        base + " ("@ + join(quals, ", "@) + ")"@ + ".pdf"@
    }
}

/// The path of a manual.
pub open spec fn path_of(o: Opts) -> Seq<char> {
    join_path("manuals"@, file_name_of(o))
}

impl Opts {
    /// The theme of the manual.
    pub fn theme(&self) -> (r: Theme)
        ensures
            r@ == theme_of(*self),
    {
        if self.manual == Manual::User {
            if self.dark {
                Theme {
                    accent: "2DD4BF",
                    ink: "E8EDF5",
                    code_bg: "0E2622",
                    page_bg: Some("071018"),
                    font: "Lato",
                }
            } else {
                Theme {
                    accent: "0D9488",
                    ink: "0F172A",
                    code_bg: "E6F4F2",
                    page_bg: None,
                    font: "Lato",
                }
            }
        } else {
            Theme {
                accent: "1F3A93",
                ink: "111111",
                code_bg: "F4F4F4",
                page_bg: None,
                font: "Cardo",
            }
        }
    }

    /// Where the manual goes, below the root of the repository.
    pub fn out_path(&self) -> (r: String)
        ensures
            r@ == path_of(*self),
    {
        let mut name: String = if self.manual == Manual::User {
            "Local Desktop - User Manual".to_owned()
        } else {
            "Local Desktop - Developer Manual".to_owned()
        };
        let mut quals: Vec<String> = Vec::new();
        if self.manual == Manual::Developer && self.callgraph {
            quals.push("Call Graph".to_owned());
        }
        match self.size.label() {
            Some(l) => {
                quals.push(l.to_owned());
            },
            None => {},
        }
        if self.manual == Manual::User && self.dark {
            quals.push("Dark".to_owned());
        }
        assert(texts(quals@) =~= qualifiers(*self));
        if quals.len() > 0 {
            let list = joined(&quals, ", ");
            name.append(" (");
            name.append(list.as_str());
            name.append(")");
        }
        name.append(".pdf");
        path_join("manuals", name.as_str())
    }
}

// ---------------------------------------------------------------------------
// Arguments
// ---------------------------------------------------------------------------

/// The options before any argument was read.
pub open spec fn plain_opts() -> Opts {
    Opts { manual: Manual::Developer, callgraph: false, size: Size::Desktop, dark: false }
}

/// The options after an argument; none for an argument that is not known.
pub open spec fn with_arg(o: Opts, arg: Seq<char>) -> Option<Opts> {
    if arg == "developer"@ {
        Some(Opts { manual: Manual::Developer, ..o })
    } else if arg == "user"@ {
        Some(Opts { manual: Manual::User, ..o })
    } else if arg == "curated"@ {
        Some(Opts { callgraph: false, ..o })
    } else if arg == "callgraph"@ {
        Some(Opts { callgraph: true, ..o })
    } else if arg == "normal"@ || arg == "desktop"@ {
        Some(Opts { size: Size::Desktop, ..o })
    } else if arg == "compact"@ || arg == "fold"@ || arg == "foldable"@ {
        Some(Opts { size: Size::Fold, ..o })
    } else if arg == "phone"@ || arg == "mobile"@ {
        Some(Opts { size: Size::Phone, ..o })
    } else if arg == "light"@ {
        Some(Opts { dark: false, ..o })
    } else if arg == "dark"@ {
        Some(Opts { dark: true, ..o })
    } else {
        None
    }
}

/// What is said of an argument that is not known.
pub open spec fn unknown_note(arg: Seq<char>) -> Seq<char> {
    "Ignoring unknown argument '"@ + arg + "'."@
}

/// The options and the notes after the arguments, read one by one.
pub open spec fn args_read(args: Seq<Seq<char>>) -> (Opts, Seq<Seq<char>>)
    decreases args.len(),
{
    if args.len() == 0 {
        (plain_opts(), seq![])
    } else {
        let (o, notes) = args_read(args.drop_last());
        match with_arg(o, args.last()) {
            Some(next) => (next, notes),
            None => (o, notes.push(unknown_note(args.last()))),
        }
    }
}

/// The options that the arguments select, and what is said of them. The
/// developer manual is never dark.
pub open spec fn chosen(args: Seq<Seq<char>>) -> (Opts, Seq<Seq<char>>) {
    let (o, notes) = args_read(args);
    if o.dark && o.manual != Manual::User {
        (
            Opts { dark: false, ..o },
            notes.push("Note: 'dark' only styles the user manual; ignoring."@),
        )
    } else {
        (o, notes)
    }
}

/// Reads one argument.
pub fn read_arg(o: Opts, arg: &str) -> (r: Option<Opts>)
    ensures
        r == with_arg(o, arg@),
{
    if same(arg, "developer") {
        Some(Opts { manual: Manual::Developer, ..o })
    } else if same(arg, "user") {
        Some(Opts { manual: Manual::User, ..o })
    } else if same(arg, "curated") {
        Some(Opts { callgraph: false, ..o })
    } else if same(arg, "callgraph") {
        Some(Opts { callgraph: true, ..o })
    } else if same(arg, "normal") || same(arg, "desktop") {
        Some(Opts { size: Size::Desktop, ..o })
    } else if same(arg, "compact") || same(arg, "fold") || same(arg, "foldable") {
        Some(Opts { size: Size::Fold, ..o })
    } else if same(arg, "phone") || same(arg, "mobile") {
        Some(Opts { size: Size::Phone, ..o })
    } else if same(arg, "light") {
        Some(Opts { dark: false, ..o })
    } else if same(arg, "dark") {
        Some(Opts { dark: true, ..o })
    } else {
        None
    }
}

/// Selects the manual that the arguments ask for, with the notes for the user.
pub fn select(args: &Vec<String>) -> (r: (Opts, Vec<String>))
    ensures
        (r.0, texts(r.1@)) == chosen(texts(args@)),
{
    let mut o = Opts {
        manual: Manual::Developer,
        callgraph: false,
        size: Size::Desktop,
        dark: false,
    };
    let mut notes: Vec<String> = Vec::new();
    let ghost all = texts(args@);
    let mut i: usize = 0;
    assert(all.take(0) =~= seq![]);
    assert(texts(notes@) =~= seq![]);
    while i < args.len()
        invariant
            i <= args.len(),
            all == texts(args@),
            (o, texts(notes@)) == args_read(all.take(i as int)),
        decreases args.len() - i,
    {
        let ghost was = texts(notes@);
        assert(all.take(i + 1).drop_last() =~= all.take(i as int));
        assert(all.take(i + 1).last() == args@[i as int]@);
        match read_arg(o, args[i].as_str()) {
            Some(next) => {
                o = next;
            },
            None => {
                let mut note = "Ignoring unknown argument '".to_owned();
                note.append(args[i].as_str());
                note.append("'.");
                notes.push(note);
                assert(texts(notes@) =~= was.push(note@));
            },
        }
        i = i + 1;
    }
    assert(all.take(i as int) =~= all);
    if o.dark && o.manual != Manual::User {
        let ghost was = texts(notes@);
        let note = "Note: 'dark' only styles the user manual; ignoring.".to_owned();
        notes.push(note);
        assert(texts(notes@) =~= was.push(note@));
        o = Opts { dark: false, ..o };
    }
    (o, notes)
}

/// Whether the arguments ask for all manuals.
pub fn wants_all(args: &Vec<String>) -> (r: bool)
    ensures
        r == texts(args@).contains("all"@),
{
    let mut i: usize = 0;
    while i < args.len()
        invariant
            i <= args.len(),
            forall|j: int| 0 <= j < i ==> texts(args@)[j] != "all"@,
        decreases args.len() - i,
    {
        if same(args[i].as_str(), "all") {
            assert(texts(args@)[i as int] == "all"@);
            return true;
        }
        i = i + 1;
    }
    false
}

/// All manuals, in the order in which they are rendered: the developer manual
/// for both larger sizes, curated and as a call graph; the user manual for every
/// size, light and dark.
pub open spec fn all_manuals() -> Seq<Opts> {
    seq![
        Opts { manual: Manual::Developer, callgraph: false, size: Size::Desktop, dark: false },
        Opts { manual: Manual::Developer, callgraph: true, size: Size::Desktop, dark: false },
        Opts { manual: Manual::Developer, callgraph: false, size: Size::Fold, dark: false },
        Opts { manual: Manual::Developer, callgraph: true, size: Size::Fold, dark: false },
        Opts { manual: Manual::User, callgraph: false, size: Size::Desktop, dark: false },
        Opts { manual: Manual::User, callgraph: false, size: Size::Desktop, dark: true },
        Opts { manual: Manual::User, callgraph: false, size: Size::Fold, dark: false },
        Opts { manual: Manual::User, callgraph: false, size: Size::Fold, dark: true },
        Opts { manual: Manual::User, callgraph: false, size: Size::Phone, dark: false },
        Opts { manual: Manual::User, callgraph: false, size: Size::Phone, dark: true },
    ]
}

/// Adds the two manuals of a size.
fn push_size(v: &mut Vec<Opts>, manual: Manual, size: Size)
    ensures
        final(v)@ == old(v)@ + seq![
            Opts { manual, callgraph: false, size, dark: false },
            Opts {
                manual,
                callgraph: manual == Manual::Developer,
                size,
                dark: manual == Manual::User,
            },
        ],
{
    v.push(Opts { manual, callgraph: false, size, dark: false });
    v.push(
        Opts {
            manual,
            callgraph: manual == Manual::Developer,
            size,
            dark: manual == Manual::User,
        },
    );
}

/// Lists all manuals.
pub fn all_variants() -> (r: Vec<Opts>)
    ensures
        r@ == all_manuals(),
{
    let mut v: Vec<Opts> = Vec::new();
    push_size(&mut v, Manual::Developer, Size::Desktop);
    push_size(&mut v, Manual::Developer, Size::Fold);
    push_size(&mut v, Manual::User, Size::Desktop);
    push_size(&mut v, Manual::User, Size::Fold);
    push_size(&mut v, Manual::User, Size::Phone);
    assert(v@ =~= all_manuals());
    v
}

/// Only the user manual is ever dark, whatever the arguments.
pub proof fn law_only_the_user_manual_is_dark(args: Seq<Seq<char>>)
    ensures
        chosen(args).0.dark ==> chosen(args).0.manual == Manual::User,
{
}

/// The last argument that sets a knob decides it: an argument read again
/// changes nothing.
pub proof fn law_repeating_an_argument_changes_nothing(o: Opts, arg: Seq<char>)
    requires
        with_arg(o, arg) is Some,
    ensures
        with_arg(with_arg(o, arg)->0, arg) == with_arg(o, arg),
{
}

/// Options whose knobs belong to their manual.
pub open spec fn is_plain(o: Opts) -> bool {
    &&& o.callgraph ==> o.manual == Manual::Developer
    &&& o.dark ==> o.manual == Manual::User
}

/// What the file name of a manual says behind its title.
proof fn lemma_qualifiers(o: Opts)
    ensures
        qualifiers(o).len() > 0 ==> join(qualifiers(o), ", "@).len() == (if o.manual
            == Manual::Developer && o.callgraph {
            10int
        } else {
            0int
        }) + (match o.size {
            Size::Desktop => 0int,
            Size::Fold => 4,
            Size::Phone => 5,
        }) + (if o.manual == Manual::User && o.dark {
            4int
        } else {
            0int
        }) + 2 * (qualifiers(o).len() - 1),
        qualifiers(o).len() > 0 ==> join(qualifiers(o), ", "@).len() > 0 && join(
            qualifiers(o),
            ", "@,
        )[0] == qualifiers(o)[0][0],
{
    reveal_strlit("Call Graph");
    reveal_strlit("Fold");
    reveal_strlit("Phone");
    reveal_strlit("Dark");
    reveal_strlit(", ");
    let q = qualifiers(o);
    reveal_with_fuel(join, 3);
    if q.len() == 2 {
        assert(q.drop_last() =~= seq![q[0]]);
    }
}

/// Every manual has a file of its own: two manuals that differ in a knob of
/// theirs have different paths.
pub proof fn law_manuals_have_their_own_files(a: Opts, b: Opts)
    requires
        is_plain(a),
        is_plain(b),
        path_of(a) == path_of(b),
    ensures
        a == b,
{
    reveal_strlit("Local Desktop - User Manual");
    reveal_strlit("Local Desktop - Developer Manual");
    reveal_strlit("manuals");
    reveal_strlit("Call Graph");
    reveal_strlit("Fold");
    reveal_strlit("Phone");
    reveal_strlit("Dark");
    reveal_strlit(" (");
    reveal_strlit(")");
    reveal_strlit(".pdf");
    lemma_qualifiers(a);
    lemma_qualifiers(b);
    let p = path_of(a);
    assert(file_name_of(a)[0] == 'L' && file_name_of(b)[0] == 'L');
    assert(p[24] == file_name_of(a)[16]);
    assert(p[24] == file_name_of(b)[16]);
    assert(a.manual == b.manual);
    let n = if a.manual == Manual::User {
        27int
    } else {
        32int
    };
    let x = join(qualifiers(a), ", "@);
    let y = join(qualifiers(b), ", "@);
    assert(p.len() == 12 + n + if qualifiers(a).len() > 0 {
        3 + x.len()
    } else {
        0
    });
    assert(p.len() == 12 + n + if qualifiers(b).len() > 0 {
        3 + y.len()
    } else {
        0
    });
    if qualifiers(a).len() > 0 {
        assert(p[8 + n + 2] == x[0]);
    }
    if qualifiers(b).len() > 0 {
        assert(p[8 + n + 2] == y[0]);
    }
    assert(a.size == b.size && a.dark == b.dark && a.callgraph == b.callgraph);
}

/// All manuals are rendered, each once: every one whose knobs belong to it, but
/// for the developer manual on a phone.
pub proof fn law_all_manuals_are_rendered(o: Opts)
    ensures
        all_manuals().contains(o) <==> is_plain(o) && !(o.manual == Manual::Developer && o.size
            == Size::Phone),
        all_manuals().no_duplicates(),
        all_manuals().len() == 10,
{
    let all = all_manuals();
    if is_plain(o) && !(o.manual == Manual::Developer && o.size == Size::Phone) {
        let k: int = if o.manual == Manual::Developer {
            (if o.size == Size::Desktop {
                0int
            } else {
                2
            }) + (if o.callgraph {
                1int
            } else {
                0
            })
        } else {
            (match o.size {
                Size::Desktop => 4int,
                Size::Fold => 6,
                Size::Phone => 8,
            }) + (if o.dark {
                1int
            } else {
                0
            })
        };
        assert(all[k] == o);
    }
}

/// Arguments are read one after the other: of several that set one knob the last
/// counts, and one that is not known sets nothing and is noted.
pub proof fn law_arguments_are_read_in_order(args: Seq<Seq<char>>, arg: Seq<char>)
    ensures
        ({
            let (o, notes) = args_read(args);
            let r = args_read(args.push(arg));
            &&& with_arg(o, arg) is Some ==> r == (with_arg(o, arg)->0, notes)
            &&& with_arg(o, arg) is None ==> r == (
                o,
                notes.push("Ignoring unknown argument '"@ + arg + "'."@),
            )
            &&& args_read(Seq::<Seq<char>>::empty()) == (
                Opts {
                    manual: Manual::Developer,
                    callgraph: false,
                    size: Size::Desktop,
                    dark: false,
                },
                Seq::<Seq<char>>::empty(),
            )
        }),
{
    assert(args.push(arg).drop_last() =~= args);
}

/// Each argument sets one knob and leaves the others.
pub proof fn law_each_argument_sets_one_knob(o: Opts)
    ensures
        with_arg(o, "developer"@) == Some(Opts { manual: Manual::Developer, ..o }),
        with_arg(o, "user"@) == Some(Opts { manual: Manual::User, ..o }),
        with_arg(o, "curated"@) == Some(Opts { callgraph: false, ..o }),
        with_arg(o, "callgraph"@) == Some(Opts { callgraph: true, ..o }),
        with_arg(o, "normal"@) == Some(Opts { size: Size::Desktop, ..o }),
        with_arg(o, "desktop"@) == Some(Opts { size: Size::Desktop, ..o }),
        with_arg(o, "compact"@) == Some(Opts { size: Size::Fold, ..o }),
        with_arg(o, "fold"@) == Some(Opts { size: Size::Fold, ..o }),
        with_arg(o, "foldable"@) == Some(Opts { size: Size::Fold, ..o }),
        with_arg(o, "phone"@) == Some(Opts { size: Size::Phone, ..o }),
        with_arg(o, "mobile"@) == Some(Opts { size: Size::Phone, ..o }),
        with_arg(o, "light"@) == Some(Opts { dark: false, ..o }),
        with_arg(o, "dark"@) == Some(Opts { dark: true, ..o }),
{
    reveal_strlit("developer");
    reveal_strlit("user");
    reveal_strlit("curated");
    reveal_strlit("callgraph");
    reveal_strlit("normal");
    reveal_strlit("desktop");
    reveal_strlit("compact");
    reveal_strlit("fold");
    reveal_strlit("foldable");
    reveal_strlit("phone");
    reveal_strlit("mobile");
    reveal_strlit("light");
    reveal_strlit("dark");
    assert("callgraph"@[0] == 'c' && "developer"@[0] == 'd');
    assert("desktop"@[0] == 'd' && "curated"@[0] == 'c' && "curated"@[1] == 'u');
    assert("compact"@[0] == 'c' && "compact"@[1] == 'o');
    assert("fold"@[0] == 'f' && "user"@[0] == 'u' && "dark"@[0] == 'd');
    assert("mobile"@[0] == 'm' && "normal"@[0] == 'n');
    assert("light"@[0] == 'l' && "phone"@[0] == 'p');
    assert("developer"@.len() == 9 && "desktop"@.len() == 7 && "dark"@.len() == 4);
}

/// Options that the arguments select are what was read, but that a developer
/// manual is not dark, which is noted then and only then.
pub proof fn law_dark_is_refused_for_developers(args: Seq<Seq<char>>)
    ensures
        ({
            let (o, notes) = args_read(args);
            let (c, said) = chosen(args);
            &&& c.manual == o.manual && c.callgraph == o.callgraph && c.size == o.size
            &&& c.dark == (o.dark && o.manual == Manual::User)
            &&& c.dark == o.dark ==> said == notes
            &&& c.dark != o.dark ==> said == notes.push(
                "Note: 'dark' only styles the user manual; ignoring."@,
            )
        }),
{
}

/// A manual is named by its title and, in brackets, by what sets it apart from
/// the plain one: the call graph, then the size, then the dark theme.
pub proof fn law_files_are_named_by_their_knobs(size: Size, callgraph: bool, dark: bool)
    ensures
        ({
            let dev = |c: bool, s: Size|
                file_name_of(
                    Opts { manual: Manual::Developer, callgraph: c, size: s, dark: false },
                );
            let user = |s: Size, d: bool|
                file_name_of(Opts { manual: Manual::User, callgraph: false, size: s, dark: d });
            let label = match size {
                Size::Fold => "Fold"@,
                _ => "Phone"@,
            };
            &&& dev(false, Size::Desktop) == "Local Desktop - Developer Manual"@ + ".pdf"@
            &&& user(Size::Desktop, false) == "Local Desktop - User Manual"@ + ".pdf"@
            &&& dev(true, Size::Desktop) == "Local Desktop - Developer Manual"@ + " ("@
                + "Call Graph"@ + ")"@ + ".pdf"@
            &&& user(Size::Desktop, true) == "Local Desktop - User Manual"@ + " ("@ + "Dark"@
                + ")"@ + ".pdf"@
            &&& size != Size::Desktop ==> dev(false, size) == "Local Desktop - Developer Manual"@
                + " ("@ + label + ")"@ + ".pdf"@
            &&& size != Size::Desktop ==> user(size, false) == "Local Desktop - User Manual"@
                + " ("@ + label + ")"@ + ".pdf"@
            &&& size != Size::Desktop ==> dev(true, size) == "Local Desktop - Developer Manual"@
                + " ("@ + ("Call Graph"@ + ", "@ + label) + ")"@ + ".pdf"@
            &&& size != Size::Desktop ==> user(size, true) == "Local Desktop - User Manual"@
                + " ("@ + (label + ", "@ + "Dark"@) + ")"@ + ".pdf"@
        }),
{
    let label = match size {
        Size::Fold => "Fold"@,
        _ => "Phone"@,
    };
    let a: Seq<Seq<char>> = seq![];
    assert(a.push(label) =~= seq![label]);
    assert(a.push("Dark"@) =~= seq!["Dark"@]);
    assert(seq!["Call Graph"@].push(label).drop_last() =~= seq!["Call Graph"@]);
    assert(a.push(label).push("Dark"@).drop_last() =~= seq![label]);
    assert(join(seq![label], ", "@) == label);
    assert(join(seq!["Dark"@], ", "@) == "Dark"@);
    assert(join(seq!["Call Graph"@], ", "@) == "Call Graph"@);
    assert(join(seq!["Call Graph"@].push(label), ", "@) == "Call Graph"@ + ", "@ + label);
    assert(join(a.push(label).push("Dark"@), ", "@) == label + ", "@ + "Dark"@);
}

/// Every manual lies in the same directory.
pub proof fn law_manuals_lie_together(o: Opts)
    ensures
        path_of(o) == "manuals/"@ + file_name_of(o),
{
    reveal_strlit("manuals");
    reveal_strlit("manuals/");
    reveal_strlit("Local Desktop - User Manual");
    reveal_strlit("Local Desktop - Developer Manual");
    assert(file_name_of(o)[0] == 'L');
    assert("manuals"@.push('/') =~= "manuals/"@);
}

/// Only the theme of the user manual changes, and only with the dark knob: its
/// colours do, its font does not. The pages of a light manual are not filled.
pub proof fn law_themes_go_by_manual_and_dark(a: Opts, b: Opts)
    ensures
        a.manual == b.manual && a.dark == b.dark ==> theme_of(a) == theme_of(b),
        a.manual == Manual::Developer ==> theme_of(a) == (ThemeView {
            accent: "1F3A93"@,
            ink: "111111"@,
            code_bg: "F4F4F4"@,
            page_bg: None,
            font: "Cardo"@,
        }),
        a.manual == Manual::User && !a.dark ==> theme_of(a) == (ThemeView {
            accent: "0D9488"@,
            ink: "0F172A"@,
            code_bg: "E6F4F2"@,
            page_bg: None,
            font: "Lato"@,
        }),
        a.manual == Manual::User && a.dark ==> theme_of(a) == (ThemeView {
            accent: "2DD4BF"@,
            ink: "E8EDF5"@,
            code_bg: "0E2622"@,
            page_bg: Some("071018"@),
            font: "Lato"@,
        }),
{
}

} // verus!
