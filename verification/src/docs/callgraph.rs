//! Walking the call graph of the indexed functions.
//!
//! The graph is lexical and stays inside one crate: a call is resolved by its
//! name, its receiver and the file of its caller.

use vstd::prelude::*;

use crate::docs::index::{call_views, called, calls, defs, same_opt, Def};
use crate::text::{opt_text, same};

verus! {

/// How many functions one walk reaches at most.
pub const MAX_NODES: usize = 60;

// ---------------------------------------------------------------------------
// Resolving
// ---------------------------------------------------------------------------

/// What a definition has to be besides having the right name.
pub enum Want<S> {
    Owner(S),
    File(S),
    Any,
}

/// Whether a definition is what is wanted.
pub open spec fn fits(d: Def<Seq<char>>, name: Seq<char>, want: Want<Seq<char>>) -> bool {
    d.name == name && match want {
        Want::Owner(o) => d.owner == Some(o),
        Want::File(f) => d.file == f,
        Want::Any => true,
    }
}

/// The first definition from `i` on that fits.
pub open spec fn first_fit(
    ds: Seq<Def<Seq<char>>>,
    name: Seq<char>,
    want: Want<Seq<char>>,
    i: int,
) -> Option<int>
    decreases ds.len() - i,
{
    if i < 0 || i >= ds.len() {
        None
    } else if fits(ds[i], name, want) {
        Some(i)
    } else {
        first_fit(ds, name, want, i + 1)
    }
}

/// The owner that a receiver names for a caller: `Self` is the caller's own, if it has one.
pub open spec fn receiver(recv: Option<Seq<char>>, caller: Def<Seq<char>>) -> Option<Seq<char>> {
    match recv {
        Some(r) => if r == "Self"@ && caller.owner is Some {
            caller.owner
        } else {
            recv
        },
        None => None,
    }
}

/// The definition that a call means: that of the receiver, else one in the
/// caller's file, else the first of that name.
pub open spec fn resolved(
    ds: Seq<Def<Seq<char>>>,
    name: Seq<char>,
    recv: Option<Seq<char>>,
    caller: Def<Seq<char>>,
) -> Option<int> {
    let r = receiver(recv, caller);
    if r is Some && first_fit(ds, name, Want::Owner(r->0), 0) is Some {
        first_fit(ds, name, Want::Owner(r->0), 0)
    } else if first_fit(ds, name, Want::File(caller.file), 0) is Some {
        first_fit(ds, name, Want::File(caller.file), 0)
    } else {
        first_fit(ds, name, Want::Any, 0)
    }
}

/// The wanted over the view of its text.
pub open spec fn want_view(want: Want<&str>) -> Want<Seq<char>> {
    match want {
        Want::Owner(o) => Want::Owner(o@),
        Want::File(f) => Want::File(f@),
        Want::Any => Want::Any,
    }
}

/// Finds the first definition that fits.
pub fn find_fit(ds: &Vec<Def<String>>, name: &str, want: Want<&str>) -> (r: Option<usize>)
    ensures
        match r {
            Some(i) => i < ds.len() && first_fit(defs(ds@), name@, want_view(want), 0) == Some(
                i as int,
            ),
            None => first_fit(defs(ds@), name@, want_view(want), 0) is None,
        },
{
    let ghost all = defs(ds@);
    let ghost w = want_view(want);
    let mut i: usize = 0;
    while i < ds.len()
        invariant
            i <= ds.len(),
            all == defs(ds@),
            w == want_view(want),
            first_fit(all, name@, w, i as int) == first_fit(all, name@, w, 0),
        decreases ds.len() - i,
    {
        assert(all[i as int] == ds@[i as int].seen());
        if same(ds[i].name.as_str(), name) {
            let ok: bool = match &want {
                Want::Owner(o) => match &ds[i].owner {
                    Some(have) => same(have.as_str(), o),
                    None => false,
                },
                Want::File(f) => same(ds[i].file.as_str(), f),
                Want::Any => true,
            };
            if ok {
                return Some(i);
            }
        }
        i = i + 1;
    }
    None
}

/// Finds the definition that a call means.
pub fn resolve(ds: &Vec<Def<String>>, name: &str, recv: &Option<String>, caller: &Def<String>) -> (r:
    Option<usize>)
    ensures
        match r {
            Some(i) => i < ds.len() && resolved(defs(ds@), name@, opt_text(*recv), caller.seen())
                == Some(i as int),
            None => resolved(defs(ds@), name@, opt_text(*recv), caller.seen()) is None,
        },
{
    match recv {
        Some(r) => {
            let own: Option<usize> = if same(r.as_str(), "Self") {
                match &caller.owner {
                    Some(o) => find_fit(ds, name, Want::Owner(o.as_str())),
                    None => find_fit(ds, name, Want::Owner(r.as_str())),
                }
            } else {
                find_fit(ds, name, Want::Owner(r.as_str()))
            };
            if own.is_some() {
                return own;
            }
        },
        None => {},
    }
    let near = find_fit(ds, name, Want::File(caller.file.as_str()));
    if near.is_some() {
        return near;
    }
    find_fit(ds, name, Want::Any)
}

/// How a function is shown: with its owner in front.
pub open spec fn shown(d: Def<Seq<char>>) -> Seq<char> {
    match d.owner {
        Some(o) => o + "::"@ + d.name,
        None => d.name,
    }
}

/// Shows a function.
pub fn display(d: &Def<String>) -> (r: String)
    ensures
        r@ == shown(d.seen()),
{
    match &d.owner {
        Some(o) => {
            let mut r = o.clone();
            r.append("::");
            r.append(d.name.as_str());
            r
        },
        None => d.name.clone(),
    }
}

// ---------------------------------------------------------------------------
// The graph
// ---------------------------------------------------------------------------

/// The functions and, for each, what it calls.
pub struct Graph {
    pub defs: Vec<Def<String>>,
    pub calls: Vec<Vec<(String, Option<String>)>>,
}

/// A graph over views.
pub struct GraphView {
    pub defs: Seq<Def<Seq<char>>>,
    pub calls: Seq<Seq<(Seq<char>, Option<Seq<char>>)>>,
}

impl View for Graph {
    type V = GraphView;

    open spec fn view(&self) -> GraphView {
        GraphView {
            defs: defs(self.defs@),
            calls: Seq::new(self.calls@.len(), |i: int| call_views(self.calls@[i]@)),
        }
    }
}

impl GraphView {
    /// Every function has its list of calls.
    pub open spec fn wf(self) -> bool {
        self.calls.len() == self.defs.len()
    }

    /// The function that the `k`th call of `d` means.
    pub open spec fn callee(self, d: int, k: int) -> Option<int> {
        resolved(self.defs, self.calls[d][k].0, self.calls[d][k].1, self.defs[d])
    }
}

/// The calls of all functions; `None` for a pattern that does not compile.
pub open spec fn all_called(ds: Seq<Def<Seq<char>>>) -> Option<
    Seq<Seq<(Seq<char>, Option<Seq<char>>)>>,
>
    decreases ds.len(),
{
    if ds.len() == 0 {
        Some(seq![])
    } else {
        match all_called(ds.drop_last()) {
            Some(v) => match called(ds.last().body) {
                Some(c) => Some(v.push(c)),
                None => None,
            },
            None => None,
        }
    }
}

/// The graph of the definitions.
pub open spec fn graph_of(ds: Seq<Def<Seq<char>>>) -> Option<GraphView> {
    match all_called(ds) {
        Some(calls) => Some(GraphView { defs: ds, calls }),
        None => None,
    }
}

/// Every function gets its list.
proof fn lemma_all_called(ds: Seq<Def<Seq<char>>>)
    ensures
        all_called(ds) is Some ==> all_called(ds)->0.len() == ds.len(),
    decreases ds.len(),
{
    if ds.len() > 0 {
        lemma_all_called(ds.drop_last());
    }
}

/// A failure among the first functions is one among all of them.
proof fn lemma_all_called_fail(ds: Seq<Def<Seq<char>>>, n: int)
    requires
        0 <= n <= ds.len(),
        all_called(ds.take(n)) is None,
    ensures
        all_called(ds) is None,
    decreases ds.len(),
{
    if n == ds.len() {
        assert(ds.take(n) =~= ds);
    } else {
        assert(ds.drop_last().take(n) =~= ds.take(n));
        lemma_all_called_fail(ds.drop_last(), n);
    }
}

/// Makes the graph of the definitions.
pub fn build_graph(ds: Vec<Def<String>>) -> (r: Option<Graph>)
    ensures
        match r {
            Some(g) => g@.wf() && graph_of(defs(ds@)) == Some(g@),
            None => graph_of(defs(ds@)) is None,
        },
{
    let mut out: Vec<Vec<(String, Option<String>)>> = Vec::new();
    let ghost all = defs(ds@);
    let mut i: usize = 0;
    assert(all.take(0) =~= seq![]);
    assert(Seq::new(out@.len(), |k: int| call_views(out@[k]@)) =~= seq![]);
    while i < ds.len()
        invariant
            i <= ds.len(),
            all == defs(ds@),
            all_called(all.take(i as int)) == Some(
                Seq::new(out@.len(), |k: int| call_views(out@[k]@)),
            ),
        decreases ds.len() - i,
    {
        let ghost was = Seq::new(out@.len(), |k: int| call_views(out@[k]@));
        assert(all.take(i + 1).drop_last() =~= all.take(i as int));
        assert(all.take(i + 1).last() == ds@[i as int].seen());
        match calls(ds[i].body.as_str()) {
            Some(c) => {
                out.push(c);
                assert(Seq::new(out@.len(), |k: int| call_views(out@[k]@)) =~= was.push(
                    call_views(c@),
                ));
            },
            None => {
                proof {
                    lemma_all_called_fail(all, i + 1);
                }
                return None;
            },
        }
        i = i + 1;
    }
    assert(all.take(i as int) =~= all);
    proof {
        lemma_all_called(all);
    }
    Some(Graph { defs: ds, calls: out })
}

// ---------------------------------------------------------------------------
// Walking
// ---------------------------------------------------------------------------

/// A function that a walk reached: which one, how deep, and from where.
#[derive(Clone, Copy)]
pub struct Visit {
    pub def: usize,
    pub depth: usize,
    pub caller: Option<usize>,
}

/// What a walk has reached, and whether it left something out.
pub struct Walk {
    pub order: Vec<Visit>,
    pub truncated: bool,
}

/// A walk over views.
pub struct WalkView {
    pub order: Seq<Visit>,
    pub truncated: bool,
}

impl View for Walk {
    type V = WalkView;

    open spec fn view(&self) -> WalkView {
        WalkView { order: self.order@, truncated: self.truncated }
    }
}

/// Two definitions that count as one: the same name, owner and file.
pub open spec fn same_key(a: Def<Seq<char>>, b: Def<Seq<char>>) -> bool {
    a.name == b.name && a.owner == b.owner && a.file == b.file
}

/// Whether the walk has been at `d`.
pub open spec fn visited(g: GraphView, w: WalkView, d: int) -> bool {
    exists|i: int|
        0 <= i < w.order.len() && same_key(
            g.defs[(#[trigger] w.order[i]).def as int],
            g.defs[d],
        )
}

/// The walk after a visit to `d`: it is taken up, then what it calls is visited,
/// one level deeper, as far as `max` levels.
pub open spec fn visit(
    g: GraphView,
    max: usize,
    d: usize,
    depth: usize,
    caller: Option<usize>,
    w: WalkView,
) -> WalkView
    decreases 2 * (max - depth) + 1, 0int,
{
    if depth > max || visited(g, w, d as int) {
        w
    } else if w.order.len() >= MAX_NODES {
        WalkView { order: w.order, truncated: true }
    } else {
        let taken = WalkView {
            order: w.order.push(Visit { def: d, depth, caller }),
            truncated: w.truncated,
        };
        if depth >= max {
            taken
        } else {
            visit_calls(g, max, d, depth, 0, taken)
        }
    }
}

/// The walk after visits to what `d` calls, from the `k`th call on.
pub open spec fn visit_calls(
    g: GraphView,
    max: usize,
    d: usize,
    depth: usize,
    k: int,
    w: WalkView,
) -> WalkView
    decreases 2 * (max - depth), g.calls[d as int].len() - k,
{
    if depth >= max || k < 0 || k >= g.calls[d as int].len() {
        w
    } else {
        let next = match g.callee(d as int, k) {
            Some(c) => visit(g, max, c as usize, (depth + 1) as usize, Some(d), w),
            None => w,
        };
        visit_calls(g, max, d, depth, k + 1, next)
    }
}

/// The walk from `root`.
pub open spec fn walked(g: GraphView, root: usize, max: usize) -> WalkView {
    visit(g, max, root, 0, None, WalkView { order: seq![], truncated: false })
}

/// Whether two definitions count as one.
fn keys_match(a: &Def<String>, b: &Def<String>) -> (r: bool)
    ensures
        r == same_key(a.seen(), b.seen()),
{
    same(a.name.as_str(), b.name.as_str()) && same_opt(&a.owner, &b.owner) && same(
        a.file.as_str(),
        b.file.as_str(),
    )
}

/// What every walk keeps: its functions are in the graph.
pub open spec fn in_graph(g: GraphView, w: WalkView) -> bool {
    forall|i: int| 0 <= i < w.order.len() ==> (#[trigger] w.order[i]).def < g.defs.len()
}

/// Whether the walk has been at `d`.
fn was_visited(g: &Graph, w: &Walk, d: usize) -> (r: bool)
    requires
        d < g.defs.len(),
        in_graph(g@, w@),
    ensures
        r == visited(g@, w@, d as int),
{
    let mut i: usize = 0;
    while i < w.order.len()
        invariant
            i <= w.order.len(),
            d < g.defs.len(),
            in_graph(g@, w@),
            forall|j: int|
                0 <= j < i ==> !same_key(
                    g@.defs[(#[trigger] w@.order[j]).def as int],
                    g@.defs[d as int],
                ),
        decreases w.order.len() - i,
    {
        let v: Visit = w.order[i];
        assert(w@.order[i as int] == v);
        assert(g@.defs[v.def as int] == g.defs@[v.def as int].seen());
        assert(g@.defs[d as int] == g.defs@[d as int].seen());
        if keys_match(&g.defs[v.def], &g.defs[d]) {
            return true;
        }
        i = i + 1;
    }
    false
}

/// Visits `d` and, through it, what it calls.
pub fn dfs(g: &Graph, max: usize, d: usize, depth: usize, caller: Option<usize>, w: &mut Walk)
    requires
        g@.wf(),
        d < g.defs.len(),
        depth <= max,
        in_graph(g@, old(w)@),
    ensures
        final(w)@ == visit(g@, max, d, depth, caller, old(w)@),
        in_graph(g@, final(w)@),
    decreases max - depth,
{
    if was_visited(g, w, d) {
        return;
    }
    if w.order.len() >= MAX_NODES {
        w.truncated = true;
        assert(w@ == visit(g@, max, d, depth, caller, old(w)@));
        return;
    }
    w.order.push(Visit { def: d, depth, caller });
    if depth >= max {
        assert(w@ == visit(g@, max, d, depth, caller, old(w)@));
        return;
    }
    let ghost taken = w@;
    let cs = &g.calls[d];
    assert(g@.calls[d as int] == call_views(cs@));
    let mut k: usize = 0;
    while k < cs.len()
        invariant
            k <= cs.len(),
            g@.wf(),
            d < g.defs.len(),
            depth < max,
            g@.calls[d as int] == call_views(cs@),
            in_graph(g@, w@),
            visit_calls(g@, max, d, depth, k as int, w@) == visit_calls(
                g@,
                max,
                d,
                depth,
                0,
                taken,
            ),
        decreases cs.len() - k,
    {
        assert(g@.calls[d as int][k as int] == (cs@[k as int].0@, opt_text(cs@[k as int].1)));
        assert(g@.defs[d as int] == g.defs@[d as int].seen());
        match resolve(&g.defs, cs[k].0.as_str(), &cs[k].1, &g.defs[d]) {
            Some(c) => {
                dfs(g, max, c, depth + 1, Some(d), w);
            },
            None => {},
        }
        k = k + 1;
    }
}

/// Walks the graph from `root`, `max` levels deep.
pub fn walk(g: &Graph, root: usize, max: usize) -> (w: Walk)
    requires
        g@.wf(),
        root < g.defs.len(),
    ensures
        w@ == walked(g@, root, max),
        in_graph(g@, w@),
{
    let mut w = Walk { order: Vec::new(), truncated: false };
    assert(w@.order =~= seq![]);
    dfs(g, max, root, 0, None, &mut w);
    w
}

// ---------------------------------------------------------------------------
// What holds of every walk
// ---------------------------------------------------------------------------

/// `j` is where the walk came to entry `i` from: an earlier entry, one level
/// up, whose function calls that of `i`.
pub open spec fn reached_from(g: GraphView, w: WalkView, j: int, i: int) -> bool {
    &&& 0 <= j < i
    &&& w.order[i].caller == Some(w.order[j].def)
    &&& w.order[i].depth == w.order[j].depth + 1
    &&& exists|k: int|
        0 <= k < g.calls[w.order[j].def as int].len() && #[trigger] g.callee(
            w.order[j].def as int,
            k,
        ) == Some(w.order[i].def as int)
}

/// The walk came to entry `i` from another one.
pub open spec fn reached(g: GraphView, w: WalkView, i: int) -> bool {
    exists|j: int| reached_from(g, w, j, i)
}

/// What a walk from `root` keeps as it goes.
pub open spec fn sound(g: GraphView, root: usize, max: usize, w: WalkView) -> bool {
    &&& in_graph(g, w)
    &&& w.order.len() <= MAX_NODES
    &&& w.truncated ==> w.order.len() == MAX_NODES
    &&& forall|i: int| 0 <= i < w.order.len() ==> (#[trigger] w.order[i]).depth <= max
    &&& w.order.len() > 0 ==> w.order[0] == (Visit { def: root, depth: 0, caller: None })
    &&& forall|i: int| 0 < i < w.order.len() ==> #[trigger] reached(g, w, i)
    &&& forall|i: int, j: int|
        0 <= i < j < w.order.len() ==> !same_key(
            g.defs[(#[trigger] w.order[i]).def as int],
            g.defs[(#[trigger] w.order[j]).def as int],
        )
}

/// `b` is `a` walked further.
pub open spec fn extends(a: WalkView, b: WalkView) -> bool {
    a.order.len() <= b.order.len() && b.order.take(a.order.len() as int) == a.order
}

/// What a definition resolves to is in the graph.
proof fn lemma_first_fit(ds: Seq<Def<Seq<char>>>, name: Seq<char>, want: Want<Seq<char>>, i: int)
    ensures
        first_fit(ds, name, want, i) is Some ==> 0 <= first_fit(ds, name, want, i)->0 < ds.len(),
    decreases ds.len() - i,
{
    if !(i < 0 || i >= ds.len()) {
        lemma_first_fit(ds, name, want, i + 1);
    }
}

proof fn lemma_callee(g: GraphView, d: int, k: int)
    ensures
        g.callee(d, k) is Some ==> 0 <= g.callee(d, k)->0 < g.defs.len(),
{
    let name = g.calls[d][k].0;
    let r = receiver(g.calls[d][k].1, g.defs[d]);
    if r is Some {
        lemma_first_fit(g.defs, name, Want::Owner(r->0), 0);
    }
    lemma_first_fit(g.defs, name, Want::File(g.defs[d].file), 0);
    lemma_first_fit(g.defs, name, Want::Any, 0);
}

/// A visit keeps a sound walk sound.
proof fn lemma_visit(
    g: GraphView,
    root: usize,
    max: usize,
    d: usize,
    depth: usize,
    caller: Option<usize>,
    w: WalkView,
)
    requires
        g.wf(),
        g.defs.len() <= usize::MAX,
        d < g.defs.len(),
        depth <= max,
        sound(g, root, max, w),
        if w.order.len() == 0 {
            d == root && depth == 0 && caller is None
        } else {
            exists|j: int, k: int|
                0 <= j < w.order.len() && caller == Some((#[trigger] w.order[j]).def) && depth
                    == w.order[j].depth + 1 && 0 <= k < g.calls[w.order[j].def as int].len()
                    && #[trigger] g.callee(w.order[j].def as int, k) == Some(d as int)
        },
    ensures
        sound(g, root, max, visit(g, max, d, depth, caller, w)),
        extends(w, visit(g, max, d, depth, caller, w)),
    decreases 2 * (max - depth) + 1, 0int,
{
    assert(w.order.take(w.order.len() as int) =~= w.order);
    if visited(g, w, d as int) {
    } else if w.order.len() >= MAX_NODES {
        let t = WalkView { order: w.order, truncated: true };
        assert forall|i: int| 0 < i < t.order.len() implies #[trigger] reached(g, t, i) by {
            assert(reached(g, w, i));
            let j = choose|j: int| reached_from(g, w, j, i);
            assert(reached_from(g, t, j, i));
        }
    } else {
        let v = Visit { def: d, depth, caller };
        let t = WalkView { order: w.order.push(v), truncated: w.truncated };
        let n = w.order.len() as int;
        assert forall|i: int| 0 < i < t.order.len() implies #[trigger] reached(g, t, i) by {
            if i < n {
                assert(reached(g, w, i));
                let j = choose|j: int| reached_from(g, w, j, i);
                assert(t.order[i] == w.order[i] && t.order[j] == w.order[j]);
                assert(reached_from(g, t, j, i));
            } else {
                let (j, k) = choose|j: int, k: int|
                    0 <= j < w.order.len() && caller == Some((#[trigger] w.order[j]).def) && depth
                        == w.order[j].depth + 1 && 0 <= k < g.calls[w.order[j].def as int].len()
                        && #[trigger] g.callee(w.order[j].def as int, k) == Some(d as int);
                assert(t.order[j] == w.order[j]);
                assert(reached_from(g, t, j, i));
            }
        }
        assert(t.order.take(n) =~= w.order);
        assert(sound(g, root, max, t));
        if depth < max {
            lemma_visit_calls(g, root, max, d, depth, 0, t, n);
            let e = visit_calls(g, max, d, depth, 0, t);
            assert(e.order.take(n) =~= e.order.take(n + 1).take(n));
        }
    }
}

/// Visits to what the entry at `at` calls keep a sound walk sound.
proof fn lemma_visit_calls(
    g: GraphView,
    root: usize,
    max: usize,
    d: usize,
    depth: usize,
    k: int,
    w: WalkView,
    at: int,
)
    requires
        g.wf(),
        g.defs.len() <= usize::MAX,
        d < g.defs.len(),
        depth < max,
        0 <= k,
        sound(g, root, max, w),
        0 <= at < w.order.len(),
        w.order[at].def == d,
        w.order[at].depth == depth,
    ensures
        sound(g, root, max, visit_calls(g, max, d, depth, k, w)),
        extends(w, visit_calls(g, max, d, depth, k, w)),
    decreases 2 * (max - depth), g.calls[d as int].len() - k,
{
    assert(w.order.take(w.order.len() as int) =~= w.order);
    if k < g.calls[d as int].len() {
        let n = w.order.len() as int;
        match g.callee(d as int, k) {
            Some(c) => {
                lemma_callee(g, d as int, k);
                assert(g.callee(w.order[at].def as int, k) == Some((c as usize) as int));
                lemma_visit(g, root, max, c as usize, (depth + 1) as usize, Some(d), w);
                let next = visit(g, max, c as usize, (depth + 1) as usize, Some(d), w);
                assert(next.order.take(n)[at] == w.order[at]);
                lemma_visit_calls(g, root, max, d, depth, k + 1, next, at);
                let e = visit_calls(g, max, d, depth, k + 1, next);
                assert(e.order.take(n) =~= e.order.take(next.order.len() as int).take(n));
            },
            None => {
                lemma_visit_calls(g, root, max, d, depth, k + 1, w, at);
            },
        }
    }
}

/// A walk begins with its root, reaches no function twice and no more than the
/// cap, goes no deeper than asked, comes to every other function by a call from
/// an earlier one that lies one level up, and leaves something out only when
/// the cap is reached.
pub proof fn law_walk_is_sound(g: GraphView, root: usize, max: usize)
    requires
        g.wf(),
        g.defs.len() <= usize::MAX,
        root < g.defs.len(),
    ensures
        sound(g, root, max, walked(g, root, max)),
        walked(g, root, max).order.len() > 0,
{
    let w = WalkView { order: seq![], truncated: false };
    lemma_visit(g, root, max, root, 0, None, w);
    let t = WalkView {
        order: w.order.push(Visit { def: root, depth: 0, caller: None }),
        truncated: false,
    };
    assert(!visited(g, w, root as int));
    if max > 0 {
        assert(sound(g, root, max, t)) by {
            assert(sound(g, root, max, walked(g, root, 0))) by {
                lemma_visit(g, root, 0, root, 0, None, w);
                assert(walked(g, root, 0) == t);
                assert forall|i: int| 0 <= i < t.order.len() implies (#[trigger] t.order[i]).depth
                    <= max by {}
            }
        }
        lemma_visit_calls(g, root, max, root, 0, 0, t, 0);
    }
}

/// Among the visits is one to function `c`, or to one with its name, its owner
/// and its file.
pub open spec fn among(g: GraphView, order: Seq<Visit>, c: int) -> bool {
    exists|i: int|
        0 <= i < order.len() && g.defs[(#[trigger] order[i]).def as int].name == g.defs[c].name
            && g.defs[order[i].def as int].owner == g.defs[c].owner
            && g.defs[order[i].def as int].file == g.defs[c].file
}

/// Every function that entry `i` calls is among the visits.
pub open spec fn followed(g: GraphView, order: Seq<Visit>, i: int) -> bool {
    forall|k: int|
        0 <= k < g.calls[order[i].def as int].len() && (#[trigger] g.callee(
            order[i].def as int,
            k,
        )) is Some ==> among(g, order, g.callee(order[i].def as int, k)->0)
}

/// Entry `i` was reached by the `k`th call of entry `j`: everything between the
/// two lies deeper than `j`, and what `j` calls before that was reached before.
pub open spec fn reached_by(g: GraphView, order: Seq<Visit>, i: int, j: int, k: int) -> bool {
    &&& 0 <= j < i
    &&& order[i].caller == Some(order[j].def)
    &&& order[i].depth == order[j].depth + 1
    &&& 0 <= k < g.calls[order[j].def as int].len()
    &&& g.callee(order[j].def as int, k) == Some(order[i].def as int)
    &&& forall|m: int| j < m < i ==> (#[trigger] order[m]).depth > order[j].depth
    &&& forall|n: int|
        0 <= n < k && (#[trigger] g.callee(order[j].def as int, n)) is Some ==> among(
            g,
            order.take(i),
            g.callee(order[j].def as int, n)->0,
        )
}

/// Entry `i` was reached by some call of an earlier entry.
pub open spec fn reached_in_order(g: GraphView, order: Seq<Visit>, i: int) -> bool {
    exists|j: int, k: int| reached_by(g, order, i, j, k)
}

/// What is among the first visits is among all of them.
proof fn lemma_among_more(g: GraphView, a: Seq<Visit>, b: Seq<Visit>, c: int)
    requires
        a.len() <= b.len(),
        b.take(a.len() as int) == a,
        among(g, a, c),
    ensures
        among(g, b, c),
{
    let i = choose|i: int|
        0 <= i < a.len() && g.defs[(#[trigger] a[i]).def as int].name == g.defs[c].name
            && g.defs[a[i].def as int].owner == g.defs[c].owner && g.defs[a[i].def as int].file
            == g.defs[c].file;
    assert(b.take(a.len() as int)[i] == a[i]);
    assert(b[i] == a[i]);
}

/// An entry that was followed stays so.
proof fn lemma_followed_more(g: GraphView, a: Seq<Visit>, b: Seq<Visit>, i: int)
    requires
        a.len() <= b.len(),
        b.take(a.len() as int) == a,
        0 <= i < a.len(),
        followed(g, a, i),
    ensures
        followed(g, b, i),
{
    assert(b.take(a.len() as int)[i] == a[i]);
    assert forall|k: int|
        0 <= k < g.calls[b[i].def as int].len() && (#[trigger] g.callee(b[i].def as int, k))
            is Some implies among(g, b, g.callee(b[i].def as int, k)->0) by {
        lemma_among_more(g, a, b, g.callee(a[i].def as int, k)->0);
    }
}

/// How an entry was reached stays so.
proof fn lemma_reached_more(g: GraphView, a: Seq<Visit>, b: Seq<Visit>, i: int)
    requires
        a.len() <= b.len(),
        b.take(a.len() as int) == a,
        0 <= i < a.len(),
        reached_in_order(g, a, i),
    ensures
        reached_in_order(g, b, i),
{
    let (j, k) = choose|j: int, k: int| reached_by(g, a, i, j, k);
    assert forall|m: int| 0 <= m < a.len() implies b[m] == a[m] by {
        assert(b.take(a.len() as int)[m] == a[m]);
    }
    assert(b.take(i) =~= a.take(i));
    assert(reached_by(g, b, i, j, k));
}

/// Something was left out: an entry above the deepest level calls a function that
/// is not among the visits.
pub open spec fn left_out(g: GraphView, order: Seq<Visit>, max: int) -> bool {
    exists|i: int|
        0 <= i < order.len() && (#[trigger] order[i]).depth < max && !followed(g, order, i)
}

/// What a visit adds: each new entry lies as deep as the visit or deeper, was
/// reached in order, and is followed where nothing was left out. Something is left
/// out only where there is no room.
pub open spec fn grew(
    g: GraphView,
    max: usize,
    depth: int,
    w: WalkView,
    after: WalkView,
) -> bool {
    &&& extends(w, after)
    &&& w.truncated ==> after.truncated
    &&& forall|i: int|
        w.order.len() <= i < after.order.len() ==> (#[trigger] after.order[i]).depth >= depth
    &&& forall|i: int|
        w.order.len() <= i < after.order.len() && i > 0 ==> #[trigger] reached_in_order(
            g,
            after.order,
            i,
        )
    &&& !after.truncated ==> forall|i: int|
        w.order.len() <= i < after.order.len() && (#[trigger] after.order[i]).depth < max
            ==> followed(g, after.order, i)
    &&& after.truncated && !w.truncated ==> after.order.len() >= MAX_NODES && left_out(
        g,
        after.order,
        max as int,
    )
}

/// Growing twice is growing.
proof fn lemma_grew_twice(
    g: GraphView,
    max: usize,
    depth: int,
    a: WalkView,
    b: WalkView,
    c: WalkView,
)
    requires
        grew(g, max, depth, a, b),
        grew(g, max, depth, b, c),
        b.truncated ==> c.order == b.order,
    ensures
        grew(g, max, depth, a, c),
{
    assert(c.order.take(a.order.len() as int) =~= c.order.take(b.order.len() as int).take(
        a.order.len() as int,
    ));
    assert forall|i: int| 0 <= i < b.order.len() implies c.order[i] == #[trigger] b.order[i] by {
        assert(c.order.take(b.order.len() as int)[i] == b.order[i]);
    }
    assert forall|i: int|
        a.order.len() <= i < c.order.len() && i > 0 implies #[trigger] reached_in_order(
        g,
        c.order,
        i,
    ) by {
        if i < b.order.len() {
            assert(reached_in_order(g, b.order, i));
            lemma_reached_more(g, b.order, c.order, i);
        }
    }
    if !c.truncated {
        assert forall|i: int|
            a.order.len() <= i < c.order.len() && (#[trigger] c.order[i]).depth < max implies followed(
            g,
            c.order,
            i,
        ) by {
            if i < b.order.len() {
                assert(b.order[i].depth < max);
                lemma_followed_more(g, b.order, c.order, i);
            }
        }
    }
    assert forall|i: int| a.order.len() <= i < c.order.len() implies (#[trigger] c.order[i]).depth
        >= depth by {
        if i < b.order.len() {
            assert(b.order[i].depth >= depth);
        }
    }
}

/// A walk that was at `d` has it among its visits.
proof fn lemma_visited_is_among(g: GraphView, w: WalkView, d: int)
    ensures
        visited(g, w, d) == among(g, w.order, d),
{
    if visited(g, w, d) {
        let i = choose|i: int|
            0 <= i < w.order.len() && same_key(
                g.defs[(#[trigger] w.order[i]).def as int],
                g.defs[d],
            );
        assert(g.defs[w.order[i].def as int].name == g.defs[d].name);
        assert(among(g, w.order, d));
    }
    if among(g, w.order, d) {
        let i = choose|i: int|
            0 <= i < w.order.len() && g.defs[(#[trigger] w.order[i]).def as int].name
                == g.defs[d].name && g.defs[w.order[i].def as int].owner == g.defs[d].owner
                && g.defs[w.order[i].def as int].file == g.defs[d].file;
        assert(same_key(g.defs[w.order[i].def as int], g.defs[d]));
        assert(visited(g, w, d));
    }
}

/// A walk that is full takes up nothing more.
proof fn lemma_full_walk_stays(
    g: GraphView,
    max: usize,
    d: usize,
    depth: usize,
    k: int,
    w: WalkView,
)
    requires
        w.order.len() >= MAX_NODES,
        depth < max,
    ensures
        visit_calls(g, max, d, depth, k, w).order == w.order,
    decreases g.calls[d as int].len() - k,
{
    if 0 <= k < g.calls[d as int].len() {
        let next = match g.callee(d as int, k) {
            Some(c) => visit(g, max, c as usize, (depth + 1) as usize, Some(d), w),
            None => w,
        };
        assert(next.order == w.order);
        lemma_full_walk_stays(g, max, d, depth, k + 1, next);
    }
}

/// A visit to `d`, by the `k`th call of entry `j`.
proof fn lemma_visit_grows(
    g: GraphView,
    max: usize,
    d: usize,
    depth: usize,
    caller: Option<usize>,
    w: WalkView,
    j: int,
    k: int,
)
    requires
        g.wf(),
        g.defs.len() <= usize::MAX,
        d < g.defs.len(),
        depth <= max,
        w.truncated ==> w.order.len() >= MAX_NODES,
        w.order.len() > 0 ==> {
            &&& 0 <= j < w.order.len()
            &&& caller == Some(w.order[j].def)
            &&& depth == w.order[j].depth + 1
            &&& 0 <= k < g.calls[w.order[j].def as int].len()
            &&& g.callee(w.order[j].def as int, k) == Some(d as int)
        },
        w.order.len() > 0 && w.order.len() < MAX_NODES ==> {
            &&& forall|m: int|
                j < m < w.order.len() ==> (#[trigger] w.order[m]).depth > w.order[j].depth
            &&& forall|n: int|
                0 <= n < k && (#[trigger] g.callee(w.order[j].def as int, n)) is Some ==> among(
                    g,
                    w.order,
                    g.callee(w.order[j].def as int, n)->0,
                )
        },
    ensures
        grew(g, max, depth as int, w, visit(g, max, d, depth, caller, w)),
        among(g, visit(g, max, d, depth, caller, w).order, d as int) || (visit(
            g,
            max,
            d,
            depth,
            caller,
            w,
        ).truncated && visit(g, max, d, depth, caller, w).order.len() >= MAX_NODES),
    decreases 2 * (max - depth) + 1, 0int,
{
    lemma_visited_is_among(g, w, d as int);
    assert(w.order.take(w.order.len() as int) =~= w.order);
    if visited(g, w, d as int) {
    } else if w.order.len() >= MAX_NODES {
        assert(!followed(g, w.order, j)) by {
            assert(g.callee(w.order[j].def as int, k) is Some);
        }
        assert(left_out(g, w.order, max as int));
    } else {
        let v = Visit { def: d, depth, caller };
        let t = WalkView { order: w.order.push(v), truncated: w.truncated };
        let n = w.order.len() as int;
        assert(t.order[n] == v);
        assert(t.order.take(n) =~= w.order);
        assert(among(g, t.order, d as int));
        if n > 0 {
            assert(reached_by(g, t.order, n, j, k)) by {
                assert forall|m: int| j < m < n implies (#[trigger] t.order[m]).depth
                    > t.order[j].depth by {
                    assert(t.order[m] == w.order[m]);
                }
            }
            assert(reached_in_order(g, t.order, n));
        }
        if depth < max {
            lemma_visit_calls_grow(g, max, d, depth, 0, t, n);
            let e = visit_calls(g, max, d, depth, 0, t);
            lemma_among_more(g, t.order, e.order, d as int);
            assert(e.order.take(n + 1)[n] == v);
            assert(e.order.take(n) =~= e.order.take(n + 1).take(n));
            assert forall|i: int|
                n <= i < e.order.len() && i > 0 implies #[trigger] reached_in_order(
                g,
                e.order,
                i,
            ) by {
                if i == n {
                    lemma_reached_more(g, t.order, e.order, n);
                }
            }
        }
    }
}

/// Visits to what entry `at` calls, from the `k`th call on.
proof fn lemma_visit_calls_grow(
    g: GraphView,
    max: usize,
    d: usize,
    depth: usize,
    k: int,
    w: WalkView,
    at: int,
)
    requires
        g.wf(),
        g.defs.len() <= usize::MAX,
        d < g.defs.len(),
        depth < max,
        0 <= k,
        w.truncated ==> w.order.len() >= MAX_NODES,
        0 <= at < w.order.len(),
        w.order[at].def == d,
        w.order[at].depth == depth,
        forall|m: int| at < m < w.order.len() ==> (#[trigger] w.order[m]).depth > depth,
        w.order.len() >= MAX_NODES || forall|n: int|
            0 <= n < k && (#[trigger] g.callee(d as int, n)) is Some ==> among(
                g,
                w.order,
                g.callee(d as int, n)->0,
            ),
    ensures
        grew(g, max, depth + 1, w, visit_calls(g, max, d, depth, k, w)),
        !visit_calls(g, max, d, depth, k, w).truncated ==> forall|n: int|
            k <= n < g.calls[d as int].len() && (#[trigger] g.callee(d as int, n)) is Some
                ==> among(
                g,
                visit_calls(g, max, d, depth, k, w).order,
                g.callee(d as int, n)->0,
            ),
    decreases 2 * (max - depth), g.calls[d as int].len() - k,
{
    assert(w.order.take(w.order.len() as int) =~= w.order);
    let e = visit_calls(g, max, d, depth, k, w);
    if k < g.calls[d as int].len() {
        match g.callee(d as int, k) {
            Some(c) => {
                lemma_callee(g, d as int, k);
                lemma_visit_grows(
                    g,
                    max,
                    c as usize,
                    (depth + 1) as usize,
                    Some(d),
                    w,
                    at,
                    k,
                );
                let next = visit(g, max, c as usize, (depth + 1) as usize, Some(d), w);
                assert(next.order.take(w.order.len() as int)[at] == w.order[at]);
                assert forall|m: int| at < m < next.order.len() implies (#[trigger] next.order[m]).depth
                    > depth by {
                    if m < w.order.len() {
                        assert(next.order.take(w.order.len() as int)[m] == w.order[m]);
                    }
                }
                if next.order.len() < MAX_NODES {
                    assert forall|n: int|
                        0 <= n < k + 1 && (#[trigger] g.callee(d as int, n)) is Some implies among(
                        g,
                        next.order,
                        g.callee(d as int, n)->0,
                    ) by {
                        if n < k {
                            lemma_among_more(g, w.order, next.order, g.callee(d as int, n)->0);
                        }
                    }
                }
                lemma_visit_calls_grow(g, max, d, depth, k + 1, next, at);
                if next.truncated {
                    lemma_full_walk_stays(g, max, d, depth, k + 1, next);
                }
                lemma_grew_twice(g, max, depth + 1, w, next, e);
                if !e.truncated {
                    assert(!next.truncated);
                    lemma_among_more(g, next.order, e.order, c);
                }
            },
            None => {
                lemma_visit_calls_grow(g, max, d, depth, k + 1, w, at);
            },
        }
    }
}

/// A walk is complete and goes deep first. It says that it is truncated where it
/// has sixty functions and left one out, and only there. Where nothing was left
/// out, every function that an entry above the deepest level calls is among the
/// visits, up to functions with the same name, owner and file. Each entry behind
/// the first was reached by a call of an earlier one, before anything else at the
/// level of that one or above, and after everything that it calls before.
pub proof fn law_walk_is_complete(g: GraphView, root: usize, max: usize)
    requires
        g.wf(),
        g.defs.len() <= usize::MAX,
        root < g.defs.len(),
    ensures
        ({
            let w = walked(g, root, max);
            &&& w.order.len() > 0 && w.order[0].def == root
            &&& w.order.len() <= 60
            &&& w.truncated ==> w.order.len() == 60 && left_out(g, w.order, max as int)
            &&& forall|i: int| 0 < i < w.order.len() ==> #[trigger] reached_in_order(g, w.order, i)
            &&& !w.truncated ==> forall|i: int|
                0 <= i < w.order.len() && (#[trigger] w.order[i]).depth < max ==> followed(
                    g,
                    w.order,
                    i,
                )
        }),
{
    let w = WalkView { order: seq![], truncated: false };
    lemma_visit_grows(g, max, root, 0, None, w, 0, 0);
    law_walk_is_sound(g, root, max);
}

/// A definition with this name and, where they are given, this owner and file.
pub open spec fn is_called(
    d: Def<Seq<char>>,
    name: Seq<char>,
    owner: Option<Seq<char>>,
    file: Option<Seq<char>>,
) -> bool {
    d.name == name && (owner is Some ==> d.owner == owner) && (file is Some ==> d.file == file->0)
}

/// `p` is the first such definition.
pub open spec fn first_called(
    ds: Seq<Def<Seq<char>>>,
    name: Seq<char>,
    owner: Option<Seq<char>>,
    file: Option<Seq<char>>,
    p: int,
) -> bool {
    &&& 0 <= p < ds.len()
    &&& is_called(ds[p], name, owner, file)
    &&& forall|i: int| 0 <= i < p ==> !is_called(#[trigger] ds[i], name, owner, file)
}

/// There is no such definition.
pub open spec fn none_called(
    ds: Seq<Def<Seq<char>>>,
    name: Seq<char>,
    owner: Option<Seq<char>>,
    file: Option<Seq<char>>,
) -> bool {
    forall|i: int| 0 <= i < ds.len() ==> !is_called(#[trigger] ds[i], name, owner, file)
}

/// A call of a function of a type, where the type has such a function, means the
/// first of them, and `Self` is the caller's own type. Any other call means the
/// first function of that name in the caller's file; where that has none, the
/// first of that name at all; and nothing only where no function has the name.
pub proof fn law_calls_are_resolved_by_owner_then_file(
    ds: Seq<Def<Seq<char>>>,
    name: Seq<char>,
    recv: Option<Seq<char>>,
    caller: Def<Seq<char>>,
)
    ensures
        ({
            let owner = if recv == Some("Self"@) && caller.owner is Some {
                caller.owner
            } else {
                recv
            };
            let file = Some(caller.file);
            match resolved(ds, name, recv, caller) {
                Some(p) => if owner is Some && !none_called(ds, name, owner, None) {
                    first_called(ds, name, owner, None, p)
                } else if !none_called(ds, name, None, file) {
                    first_called(ds, name, None, file, p)
                } else {
                    first_called(ds, name, None, None, p)
                },
                None => none_called(ds, name, None, None),
            }
        }),
{
    let owner = receiver(recv, caller);
    if owner is Some {
        lemma_fits_is_called(ds, name, Want::Owner(owner->0), owner, None);
    }
    lemma_fits_is_called(ds, name, Want::File(caller.file), None, Some(caller.file));
    lemma_fits_is_called(ds, name, Want::Any, None, None);
}

/// The first definition that fits what is wanted is the first such definition.
proof fn lemma_fits_is_called(
    ds: Seq<Def<Seq<char>>>,
    name: Seq<char>,
    want: Want<Seq<char>>,
    owner: Option<Seq<char>>,
    file: Option<Seq<char>>,
)
    requires
        match want {
            Want::Owner(o) => owner == Some(o) && file is None,
            Want::File(f) => owner is None && file == Some(f),
            Want::Any => owner is None && file is None,
        },
    ensures
        match first_fit(ds, name, want, 0) {
            Some(p) => first_called(ds, name, owner, file, p) && !none_called(
                ds,
                name,
                owner,
                file,
            ),
            None => none_called(ds, name, owner, file),
        },
{
    lemma_first_fit_is_first(ds, name, want, 0);
    assert forall|i: int| 0 <= i < ds.len() implies is_called(#[trigger] ds[i], name, owner, file)
        == fits(ds[i], name, want) by {}
}

/// What is found first fits, and nothing before it does.
pub proof fn lemma_first_fit_is_first(
    ds: Seq<Def<Seq<char>>>,
    name: Seq<char>,
    want: Want<Seq<char>>,
    from: int,
)
    requires
        0 <= from,
    ensures
        match first_fit(ds, name, want, from) {
            Some(p) => from <= p < ds.len() && fits(ds[p], name, want) && forall|i: int|
                from <= i < p ==> !fits(#[trigger] ds[i], name, want),
            None => forall|i: int| from <= i < ds.len() ==> !fits(#[trigger] ds[i], name, want),
        },
    decreases ds.len() - from,
{
    if from < ds.len() && !fits(ds[from], name, want) {
        lemma_first_fit_is_first(ds, name, want, from + 1);
    }
}

/// A function of a type is shown behind the type, any other by its name.
pub proof fn law_functions_are_shown_with_their_owner(d: Def<Seq<char>>)
    ensures
        d.owner is None ==> shown(d) == d.name,
        d.owner is Some ==> shown(d) == d.owner->0 + seq![':', ':'] + d.name,
{
    reveal_strlit("::");
    assert("::"@ =~= seq![':', ':']);
}

/// The graph holds the definitions as they are, and for each what its body calls;
/// a call means what it resolves to for its caller.
pub proof fn law_the_graph_holds_what_bodies_call(ds: Seq<Def<Seq<char>>>, d: int, k: int)
    ensures
        match graph_of(ds) {
            Some(g) => g.defs == ds && g.calls.len() == ds.len() && (0 <= d < ds.len() ==> Some(
                g.calls[d],
            ) == called(ds[d].body)) && (0 <= d < ds.len() && 0 <= k < g.calls[d].len()
                ==> g.callee(d, k) == resolved(ds, g.calls[d][k].0, g.calls[d][k].1, ds[d])),
            None => exists|i: int| 0 <= i < ds.len() && called((#[trigger] ds[i]).body) is None,
        },
    decreases ds.len(),
{
    if ds.len() > 0 {
        let front = ds.drop_last();
        law_the_graph_holds_what_bodies_call(front, d, k);
        lemma_all_called(ds);
        lemma_all_called(front);
        match graph_of(ds) {
            Some(g) => {
                if 0 <= d < front.len() {
                    assert(front[d] == ds[d]);
                    assert(g.calls[d] == all_called(front)->0[d]);
                }
            },
            None => {
                if graph_of(front) is None {
                    let i = choose|i: int|
                        0 <= i < front.len() && called((#[trigger] front[i]).body) is None;
                    assert(ds[i] == front[i]);
                } else {
                    assert(called(ds[ds.len() - 1].body) is None);
                }
            },
        }
    }
}

} // verus!
