use vstd::prelude::*;
use crate::graph::{
    Graph, TargetKind, dependency_package, has_kind, lib_name_of, package_target, primary_target,
    root_lib_name, target_is,
};
use crate::source::{SourceFile, SrcPath, Stem, copy_items, copy_strings, find_file, names, path_view};
use crate::tree::{
    Item, ItemV, Token, lemma_view_seq_add, lemma_view_seq_front, lemma_view_seq_push, render_items,
    render_items_into, strip_leading, strip_leading_segment, texts, view_item, view_seq,
};
use crate::expansion::{
    Failure, Scope, added, after, expand_spec, extern_one, extern_spec, failure_of, lemma_added, lemma_after_after,
    bundle_spec, lemma_after_nothing, lemma_drop_uses_view, library_spec, load_spec, visit_seq_spec, visit_spec,
};

verus! {

/// How many module and package expansions may nest; a run that goes deeper is
/// taken to follow a circular reference.
pub const NESTING_LIMIT: usize = 512;

/// Why a bundling run failed.
#[derive(Debug)]
pub enum BundleError {
    /// The root package has neither a binary nor a library target.
    NoTarget,
    /// A dependency package, named here, has no library target.
    NoLibrary(String),
    /// A file that the run needs is not among its source files.
    Unreadable,
    /// A file that the run needs did not parse.
    Unparsable,
    /// No file backs the module named here.
    ModuleNotFound(String),
    /// Expansions nest deeper than `NESTING_LIMIT`: a circular reference.
    TooDeep,
}

/// What a bundling run works on: the package graph, the source files of its
/// packages, and the names of external crates that are never expanded.
pub struct Workspace {
    pub graph: Graph,
    pub files: Vec<SourceFile>,
    pub skip: Vec<String>,
}

impl Workspace {
    pub open spec fn wf(&self) -> bool {
        self.graph.wf()
    }

    pub open spec fn skip_names(&self) -> Seq<Seq<char>> {
        names(self.skip@)
    }
}

/// Where an expansion stands: the directory that module files are looked up in,
/// the package being expanded, and whether its chosen target is its binary.
struct Cx {
    base: Vec<String>,
    package: usize,
    bin: bool,
}

/// `b` starts with the elements of `a`.
pub open spec fn extends(a: Seq<String>, b: Seq<String>) -> bool {
    a.len() <= b.len() && forall|i: int| 0 <= i < a.len() ==> b[i] == a[i]
}

/// `it` is no external-crate declaration, or one of a name in `skip`.
pub open spec fn extern_skipped(it: Item, skip: Seq<Seq<char>>) -> bool {
    match it {
        Item::ExternCrate { name, .. } => skip.contains(name@),
        _ => true,
    }
}

/// No pending module or non-skipped external-crate declaration is left in `it`.
pub open spec fn item_closed(it: Item, skip: Seq<Seq<char>>) -> bool
    decreases it,
{
    match it {
        Item::Module { content, .. } => match content {
            None => false,
            Some(v) => forall|i: int| 0 <= i < v@.len() ==> item_closed(#[trigger] v@[i], skip),
        },
        Item::ExternCrate { name, .. } => skip.contains(name@),
        _ => true,
    }
}

pub open spec fn items_closed(s: Seq<Item>, skip: Seq<Seq<char>>) -> bool {
    forall|i: int| 0 <= i < s.len() ==> item_closed(#[trigger] s[i], skip)
}

/// `it` is a `use` declaration whose path starts with the segment `seg`.
pub open spec fn use_led_by(it: Item, seg: Seq<char>) -> bool {
    match it {
        Item::Use { lead, .. } => match lead {
            Some(l) => l@ == seg,
            None => false,
        },
        _ => false,
    }
}

/// `s` without its `use` declarations that start with `seg`, in order.
pub open spec fn without_uses_of(s: Seq<Item>, seg: Seq<char>) -> Seq<Item>
    decreases s.len(),
{
    if s.len() == 0 {
        s
    } else {
        let rest = without_uses_of(s.drop_last(), seg);
        if use_led_by(s.last(), seg) {
            rest
        } else {
            rest.push(s.last())
        }
    }
}

proof fn lemma_without_uses(s: Seq<Item>, seg: Seq<char>)
    ensures
        forall|x: Item| #[trigger] without_uses_of(s, seg).contains(x) ==> s.contains(x) && !use_led_by(x, seg),
    decreases s.len(),
{
    if s.len() > 0 {
        lemma_without_uses(s.drop_last(), seg);
        let rest = without_uses_of(s.drop_last(), seg);
        assert forall|x: Item| #[trigger] without_uses_of(s, seg).contains(x) implies s.contains(x) && !use_led_by(x, seg) by {
            if rest.contains(x) {
                let j = choose|j: int| 0 <= j < s.drop_last().len() && s.drop_last()[j] == x;
                assert(s[j] == x);
            } else {
                assert(x == s.last());
                assert(s[s.len() - 1] == x);
            }
        }
    }
}

/// Whether `name` is one of `v`.
pub fn name_in(v: &Vec<String>, name: &String) -> (r: bool)
    ensures
        r == names(v@).contains(name@),
{
    let mut i: usize = 0;
    while i < v.len()
        invariant
            0 <= i <= v.len(),
            forall|j: int| 0 <= j < i ==> v@[j]@ != name@,
        decreases v.len() - i,
    {
        if v[i] == *name {
            proof {
                assert(names(v@)[i as int] == name@);
            }
            return true;
        }
        i = i + 1;
    }
    proof {
        if names(v@).contains(name@) {
            let j = choose|j: int| 0 <= j < names(v@).len() && names(v@)[j] == name@;
            assert(v@[j]@ == name@);
        }
    }
    false
}

/// Whether `item` is a `use` declaration whose path starts with `seg`.
pub fn is_use_path(item: &Item, seg: &String) -> (r: bool)
    ensures
        r == use_led_by(*item, seg@),
{
    match item {
        Item::Use { lead, .. } => match lead {
            Some(l) => *l == *seg,
            None => false,
        },
        _ => false,
    }
}

/// Drops the `use` declarations of `items` whose path starts with `seg`.
pub fn prune_imports(items: Vec<Item>, seg: &String) -> (r: Vec<Item>)
    ensures
        r@ == without_uses_of(items@, seg@),
{
    let ghost orig = items@;
    let mut rest = items;
    let mut out: Vec<Item> = Vec::new();
    while rest.len() > 0
        invariant
            rest@.len() <= orig.len(),
            rest@ == orig.subrange(orig.len() - rest@.len(), orig.len() as int),
            out@ == without_uses_of(orig.subrange(0, orig.len() - rest@.len()), seg@),
        decreases rest.len(),
    {
        let ghost k = orig.len() - rest@.len();
        let it = rest.remove(0);
        proof {
            assert(it == orig[k]);
            assert(orig.subrange(0, k + 1).drop_last() =~= orig.subrange(0, k));
            assert(rest@ =~= orig.subrange(k + 1, orig.len() as int));
        }
        if !is_use_path(&it, seg) {
            out.push(it);
        }
    }
    proof {
        assert(orig.subrange(0, orig.len() as int) =~= orig);
    }
    out
}

/// The tokens of an item of the package of `cx` once paths are rewritten: in the
/// root package, paths that start with the root library's name lose that segment.
fn rewrite_paths(ws: &Workspace, lib: &String, cx: &Cx, tokens: Vec<Token>) -> (r: Vec<Token>)
    ensures
        r@ == if cx.package == ws.graph.root { strip_leading(tokens@, lib@) } else { tokens@ },
{
    if cx.package == ws.graph.root {
        strip_leading_segment(&tokens, lib)
    } else {
        tokens
    }
}

spec fn scope_of(cx: Cx) -> Scope {
    Scope { base: names(cx.base@), package: cx.package as int, bin: cx.bin }
}

/// The items of the file at `path`, copied.
fn load(ws: &Workspace, path: &SrcPath) -> (r: Result<Vec<Item>, BundleError>)
    ensures
        !(r matches Err(BundleError::NoTarget)),
        match r {
            Ok(v) => load_spec(ws.files@, path_view(*path)) == Ok::<Seq<ItemV>, Failure>(view_seq(v@)),
            Err(e) => load_spec(ws.files@, path_view(*path)) == Err::<Seq<ItemV>, Failure>(failure_of(e)),
        },
{
    match find_file(&ws.files, path) {
        Some(f) => match &ws.files[f].items {
            Some(v) => Ok(copy_items(v)),
            None => Err(BundleError::Unparsable),
        },
        None => Err(BundleError::Unreadable),
    }
}

/// Expands the items of one level of a tree: first the external-crate
/// declarations, then (at the top of a file of the root package) the imports of
/// the root library are dropped, then every item is visited.
fn expand_items(
    ws: &Workspace,
    lib: &String,
    cx: &Cx,
    items: Vec<Item>,
    file_level: bool,
    warnings: &mut Vec<String>,
    fuel: usize,
) -> (r: Result<Vec<Item>, BundleError>)
    requires
        ws.wf(),
        cx.package < ws.graph.packages@.len(),
    ensures
        !(r matches Err(BundleError::NoTarget)),
        extends(old(warnings)@, final(warnings)@),
        match r {
            Ok(v) => items_closed(v@, ws.skip_names())
                && (file_level && cx.package == ws.graph.root ==> forall|i: int|
                0 <= i < v@.len() ==> !use_led_by(#[trigger] v@[i], lib@))
                && expand_spec(*ws, lib@, scope_of(*cx), view_seq(items@), file_level, fuel as nat)
                == Ok::<(Seq<ItemV>, Seq<Seq<char>>), Failure>((view_seq(v@), added(old(warnings)@, final(warnings)@))),
            Err(e) => expand_spec(*ws, lib@, scope_of(*cx), view_seq(items@), file_level, fuel as nat)
                == Err::<(Seq<ItemV>, Seq<Seq<char>>), Failure>(failure_of(e)),
        },
    decreases fuel, 5usize,
{
    let ghost w0 = warnings@;
    let expanded = match expand_extern_crates(ws, lib, cx, items, warnings, fuel) {
        Ok(v) => v,
        Err(e) => return Err(e),
    };
    let ghost w1 = warnings@;
    let ghost before = expanded@;
    let kept = if file_level && cx.package == ws.graph.root {
        let k = prune_imports(expanded, lib);
        proof {
            lemma_without_uses(before, lib@);
            lemma_drop_uses_view(before, lib@);
            assert forall|i: int| 0 <= i < k@.len() implies extern_skipped(#[trigger] k@[i], ws.skip_names())
                && !use_led_by(k@[i], lib@) by {
                assert(without_uses_of(before, lib@).contains(k@[i]));
            }
        }
        k
    } else {
        expanded
    };
    let r = visit_items(ws, lib, cx, kept, warnings, fuel);
    let ghost rg = r;
    proof {
        lemma_added(w0, w1, warnings@);
        match rg {
            Ok(v) => {
                assert(Seq::<ItemV>::empty() + view_seq(v@) =~= view_seq(v@));
            },
            Err(_) => {},
        }
    }
    r
}

/// Replaces each external-crate declaration of `items` whose name is not skipped:
/// by the root library's items, flat, where the binary of the root package names
/// its own library; by a public module of the dependency's expanded library,
/// under the declared name, where the graph resolves the name; and by nothing,
/// with the name added to `warnings`, where it does not.
fn expand_extern_crates(
    ws: &Workspace,
    lib: &String,
    cx: &Cx,
    items: Vec<Item>,
    warnings: &mut Vec<String>,
    fuel: usize,
) -> (r: Result<Vec<Item>, BundleError>)
    requires
        ws.wf(),
        cx.package < ws.graph.packages@.len(),
    ensures
        !(r matches Err(BundleError::NoTarget)),
        extends(old(warnings)@, final(warnings)@),
        match r {
            Ok(v) => (forall|i: int| 0 <= i < v@.len() ==> extern_skipped(#[trigger] v@[i], ws.skip_names()))
                && extern_spec(*ws, lib@, scope_of(*cx), view_seq(items@), fuel as nat)
                == Ok::<(Seq<ItemV>, Seq<Seq<char>>), Failure>((view_seq(v@), added(old(warnings)@, final(warnings)@))),
            Err(e) => extern_spec(*ws, lib@, scope_of(*cx), view_seq(items@), fuel as nat)
                == Err::<(Seq<ItemV>, Seq<Seq<char>>), Failure>(failure_of(e)),
        },
    decreases fuel, 4usize,
{
    let ghost w0 = warnings@;
    let ghost sc = scope_of(*cx);
    let ghost orig = items@;
    let mut rest = items;
    let mut out: Vec<Item> = Vec::new();
    proof {
        lemma_added(w0, w0, w0);
        lemma_after_nothing(extern_spec(*ws, lib@, sc, view_seq(orig), fuel as nat));
    }
    while rest.len() > 0
        invariant
            ws.wf(),
            cx.package < ws.graph.packages@.len(),
            sc == scope_of(*cx),
            w0 == old(warnings)@,
            orig == items@,
            extends(w0, warnings@),
            forall|i: int| 0 <= i < out@.len() ==> extern_skipped(#[trigger] out@[i], ws.skip_names()),
            extern_spec(*ws, lib@, sc, view_seq(orig), fuel as nat) == after(
                (view_seq(out@), added(w0, warnings@)),
                extern_spec(*ws, lib@, sc, view_seq(rest@), fuel as nat),
            ),
        decreases rest.len(),
    {
        let ghost r0 = rest@;
        let ghost ob = out@;
        let ghost wb = warnings@;
        let it = rest.remove(0);
        proof {
            lemma_view_seq_front(r0);
            assert(rest@ =~= r0.subrange(1, r0.len() as int));
        }
        let ghost tail = extern_spec(*ws, lib@, sc, view_seq(rest@), fuel as nat);
        let ghost one = extern_one(*ws, lib@, sc, view_item(it), fuel as nat);
        let step = expand_extern_one(ws, lib, cx, it, &mut out, warnings, fuel);
        proof {
            lemma_added(w0, wb, warnings@);
        }
        proof {
            let s0 = view_seq(r0);
            assert(s0.subrange(1, s0.len() as int) == view_seq(rest@));
            assert(s0[0] == view_item(it));
            assert(extern_spec(*ws, lib@, sc, s0, fuel as nat) == match one {
                Err(e) => Err(e),
                Ok(d) => after(d, tail),
            });
        }
        match step {
            Ok(()) => {
                proof {
                    let d = one->Ok_0;
                    lemma_after_after((view_seq(ob), added(w0, wb)), d, tail);
                }
            },
            Err(e) => {
                proof {
                    assert(extends(w0, warnings@));
                }
                return Err(e);
            },
        }
    }
    proof {
        assert(view_seq(out@) + Seq::<ItemV>::empty() =~= view_seq(out@));
        assert(added(w0, warnings@) + Seq::<Seq<char>>::empty() =~= added(w0, warnings@));
    }
    Ok(out)
}

/// Puts in `out` what the external-crate pass puts in place of `it`.
fn expand_extern_one(
    ws: &Workspace,
    lib: &String,
    cx: &Cx,
    it: Item,
    out: &mut Vec<Item>,
    warnings: &mut Vec<String>,
    fuel: usize,
) -> (r: Result<(), BundleError>)
    requires
        ws.wf(),
        cx.package < ws.graph.packages@.len(),
        forall|i: int| 0 <= i < old(out)@.len() ==> extern_skipped(#[trigger] old(out)@[i], ws.skip_names()),
    ensures
        !(r matches Err(BundleError::NoTarget)),
        extends(old(warnings)@, final(warnings)@),
        forall|i: int| 0 <= i < final(out)@.len() ==> extern_skipped(#[trigger] final(out)@[i], ws.skip_names()),
        match r {
            Ok(_) => extern_one(*ws, lib@, scope_of(*cx), view_item(it), fuel as nat) is Ok && {
                let d = extern_one(*ws, lib@, scope_of(*cx), view_item(it), fuel as nat)->Ok_0;
                view_seq(final(out)@) == view_seq(old(out)@) + d.0 && added(old(warnings)@, final(warnings)@) == d.1
            },
            Err(e) => extern_one(*ws, lib@, scope_of(*cx), view_item(it), fuel as nat)
                == Err::<(Seq<ItemV>, Seq<Seq<char>>), Failure>(failure_of(e)),
        },
    decreases fuel, 3usize,
{
    let ghost ob = out@;
    let ghost wb = warnings@;
    let ghost vi = view_item(it);
    proof {
        lemma_added(wb, wb, wb);
        lemma_view_seq_push(ob, it);
    }
    match it {
        Item::ExternCrate { name, tokens } => {
            if name_in(&ws.skip, &name) {
                out.push(Item::ExternCrate { name, tokens });
                proof {
                    assert(view_seq(ob) + seq![vi] =~= view_seq(ob).push(vi));
                }
            } else {
                let root_lib = cx.package == ws.graph.root && cx.bin && name == *lib;
                let dep = if root_lib {
                    Some(ws.graph.root)
                } else {
                    dependency_package(&ws.graph.packages[cx.package], &name)
                };
                match dep {
                    None => {
                        let ghost n = name@;
                        warnings.push(name);
                        proof {
                            assert(view_seq(ob) + Seq::<ItemV>::empty() =~= view_seq(ob));
                            assert(added(wb, warnings@) =~= seq![n]);
                        }
                    },
                    Some(p) => {
                        let lib_items = match expand_library(ws, lib, p, warnings, fuel) {
                            Ok(v) => v,
                            Err(e) => return Err(e),
                        };
                        let ghost l = view_seq(lib_items@);
                        if root_lib {
                            let ghost lv = lib_items@;
                            let mut moved = lib_items;
                            out.append(&mut moved);
                            proof {
                                lemma_view_seq_add(ob, lv);
                                assert forall|i: int| 0 <= i < out@.len() implies extern_skipped(#[trigger] out@[i], ws.skip_names()) by {
                                    if i >= ob.len() {
                                        assert(out@[i] == lv[i - ob.len()]);
                                        assert(item_closed(lv[i - ob.len()], ws.skip_names()));
                                    } else {
                                        assert(out@[i] == ob[i]);
                                    }
                                }
                            }
                        } else {
                            let ghost n = name@;
                            let pub_word = "pub".to_owned();
                            let head = vec![Token::Ident(pub_word)];
                            let m = Item::Module { head, name, content: Some(lib_items) };
                            proof {
                                assert(texts(head@) =~= seq!["pub"@]);
                                lemma_view_seq_push(ob, m);
                                assert(view_seq(ob) + seq![view_item(m)] =~= view_seq(ob).push(view_item(m)));
                            }
                            out.push(m);
                        }
                    },
                }
            }
        },
        other => {
            out.push(other);
            proof {
                assert(view_seq(ob) + seq![vi] =~= view_seq(ob).push(vi));
            }
        },
    }
    Ok(())
}

/// The expanded items of the library of package `p`.
fn expand_library(ws: &Workspace, lib: &String, p: usize, warnings: &mut Vec<String>, fuel: usize) -> (r:
    Result<Vec<Item>, BundleError>)
    requires
        ws.wf(),
        p < ws.graph.packages@.len(),
    ensures
        !(r matches Err(BundleError::NoTarget)),
        extends(old(warnings)@, final(warnings)@),
        match r {
            Ok(v) => items_closed(v@, ws.skip_names()) && library_spec(*ws, lib@, p as int, fuel as nat)
                == Ok::<(Seq<ItemV>, Seq<Seq<char>>), Failure>((view_seq(v@), added(old(warnings)@, final(warnings)@))),
            Err(e) => library_spec(*ws, lib@, p as int, fuel as nat)
                == Err::<(Seq<ItemV>, Seq<Seq<char>>), Failure>(failure_of(e)),
        },
    decreases fuel, 2usize,
{
    if fuel == 0 {
        return Err(BundleError::TooDeep);
    }
    let pkg = &ws.graph.packages[p];
    let t = match package_target(pkg, TargetKind::Lib) {
        Some(t) => t,
        None => return Err(BundleError::NoLibrary(pkg.name.clone())),
    };
    let target = &pkg.targets[t];
    let items = match load(ws, &target.src_path) {
        Ok(v) => v,
        Err(e) => return Err(e),
    };
    let cx = Cx { base: copy_strings(&target.src_path.dir), package: p, bin: false };
    expand_items(ws, lib, &cx, items, true, warnings, fuel - 1)
}

/// Visits each item of `items` in turn.
fn visit_items(
    ws: &Workspace,
    lib: &String,
    cx: &Cx,
    items: Vec<Item>,
    warnings: &mut Vec<String>,
    fuel: usize,
) -> (r: Result<Vec<Item>, BundleError>)
    requires
        ws.wf(),
        cx.package < ws.graph.packages@.len(),
        forall|i: int| 0 <= i < items@.len() ==> extern_skipped(#[trigger] items@[i], ws.skip_names()),
    ensures
        !(r matches Err(BundleError::NoTarget)),
        extends(old(warnings)@, final(warnings)@),
        match r {
            Ok(v) => v@.len() == items@.len() && items_closed(v@, ws.skip_names())
                && (forall|i: int| 0 <= i < v@.len() && use_led_by(#[trigger] v@[i], lib@)
                ==> use_led_by(items@[i], lib@))
                && visit_seq_spec(*ws, lib@, scope_of(*cx), view_seq(items@), fuel as nat)
                == Ok::<(Seq<ItemV>, Seq<Seq<char>>), Failure>((view_seq(v@), added(old(warnings)@, final(warnings)@))),
            Err(e) => visit_seq_spec(*ws, lib@, scope_of(*cx), view_seq(items@), fuel as nat)
                == Err::<(Seq<ItemV>, Seq<Seq<char>>), Failure>(failure_of(e)),
        },
    decreases fuel, 1usize,
{
    let ghost w0 = warnings@;
    let ghost sc = scope_of(*cx);
    let ghost orig = items@;
    let mut rest = items;
    let mut out: Vec<Item> = Vec::new();
    proof {
        lemma_added(w0, w0, w0);
        lemma_after_nothing(visit_seq_spec(*ws, lib@, sc, view_seq(orig), fuel as nat));
    }
    while rest.len() > 0
        invariant
            ws.wf(),
            cx.package < ws.graph.packages@.len(),
            sc == scope_of(*cx),
            w0 == old(warnings)@,
            orig == items@,
            extends(w0, warnings@),
            rest@.len() <= orig.len(),
            rest@ == orig.subrange(orig.len() - rest@.len(), orig.len() as int),
            out@.len() == orig.len() - rest@.len(),
            forall|i: int| 0 <= i < orig.len() ==> extern_skipped(#[trigger] orig[i], ws.skip_names()),
            items_closed(out@, ws.skip_names()),
            forall|i: int| 0 <= i < out@.len() && use_led_by(#[trigger] out@[i], lib@) ==> use_led_by(orig[i], lib@),
            visit_seq_spec(*ws, lib@, sc, view_seq(orig), fuel as nat) == after(
                (view_seq(out@), added(w0, warnings@)),
                visit_seq_spec(*ws, lib@, sc, view_seq(rest@), fuel as nat),
            ),
        decreases rest.len(),
    {
        let ghost k = orig.len() - rest@.len();
        let ghost r0 = rest@;
        let ghost ob = out@;
        let ghost wb = warnings@;
        let it = rest.remove(0);
        proof {
            assert(it == orig[k]);
            assert(rest@ =~= orig.subrange(k + 1, orig.len() as int));
            lemma_view_seq_front(r0);
            assert(rest@ =~= r0.subrange(1, r0.len() as int));
        }
        let ghost tail = visit_seq_spec(*ws, lib@, sc, view_seq(rest@), fuel as nat);
        let ghost one = visit_spec(*ws, lib@, sc, view_item(it), fuel as nat);
        proof {
            let s0 = view_seq(r0);
            assert(s0.subrange(1, s0.len() as int) == view_seq(rest@));
            assert(s0[0] == view_item(it));
            assert(visit_seq_spec(*ws, lib@, sc, s0, fuel as nat) == match one {
                Err(e) => Err(e),
                Ok((x, w)) => after((seq![x], w), tail),
            });
        }
        let v = match visit_item(ws, lib, cx, it, warnings, fuel) {
            Ok(v) => v,
            Err(e) => {
                proof {
                    lemma_added(w0, wb, warnings@);
                    assert(extends(w0, warnings@));
                }
                return Err(e);
            },
        };
        proof {
            lemma_added(w0, wb, warnings@);
            lemma_view_seq_push(ob, v);
            lemma_after_after((view_seq(ob), added(w0, wb)), (seq![view_item(v)], added(wb, warnings@)), tail);
            assert(view_seq(ob) + seq![view_item(v)] =~= view_seq(ob).push(view_item(v)));
        }
        out.push(v);
    }
    proof {
        assert(view_seq(out@) + Seq::<ItemV>::empty() =~= view_seq(out@));
        assert(added(w0, warnings@) + Seq::<Seq<char>>::empty() =~= added(w0, warnings@));
    }
    Ok(out)
}

/// Visits one item: a pending module gets the expanded items of the file that
/// backs it (`<base>/<name>.rs`, else `<base>/<name>/mod.rs`); an inline module
/// gets its items expanded; the paths of other items are rewritten.
fn visit_item(ws: &Workspace, lib: &String, cx: &Cx, item: Item, warnings: &mut Vec<String>, fuel: usize) -> (r:
    Result<Item, BundleError>)
    requires
        ws.wf(),
        cx.package < ws.graph.packages@.len(),
        extern_skipped(item, ws.skip_names()),
    ensures
        !(r matches Err(BundleError::NoTarget)),
        extends(old(warnings)@, final(warnings)@),
        match r {
            Ok(v) => item_closed(v, ws.skip_names()) && (match item {
                Item::Use { .. } | Item::ExternCrate { .. } => v == item,
                Item::Module { .. } => v is Module,
                Item::Other { tokens } => match v {
                    Item::Other { tokens: t } => t@ == if cx.package == ws.graph.root {
                        strip_leading(tokens@, lib@)
                    } else {
                        tokens@
                    },
                    _ => false,
                },
            }) && visit_spec(*ws, lib@, scope_of(*cx), view_item(item), fuel as nat)
                == Ok::<(ItemV, Seq<Seq<char>>), Failure>((view_item(v), added(old(warnings)@, final(warnings)@))),
            Err(e) => visit_spec(*ws, lib@, scope_of(*cx), view_item(item), fuel as nat)
                == Err::<(ItemV, Seq<Seq<char>>), Failure>(failure_of(e)),
        },
    decreases fuel, 0usize,
{
    let ghost w0 = warnings@;
    proof {
        lemma_added(w0, w0, w0);
    }
    match item {
        Item::Module { head, name, content } => {
            if fuel == 0 {
                return Err(BundleError::TooDeep);
            }
            let expanded = match content {
                Some(v) => expand_items(ws, lib, cx, v, false, warnings, fuel - 1),
                None => {
                    let sibling = SrcPath { dir: copy_strings(&cx.base), stem: Stem::Named(name.clone()) };
                    let (base, path) = match find_file(&ws.files, &sibling) {
                        Some(_) => (copy_strings(&cx.base), sibling),
                        None => {
                            let mut dir = copy_strings(&cx.base);
                            dir.push(name.clone());
                            let sub = SrcPath { dir: copy_strings(&dir), stem: Stem::ModRs };
                            proof {
                                assert(names(dir@) =~= names(cx.base@).push(name@));
                            }
                            match find_file(&ws.files, &sub) {
                                Some(_) => (dir, sub),
                                None => return Err(BundleError::ModuleNotFound(name)),
                            }
                        },
                    };
                    let items = match load(ws, &path) {
                        Ok(v) => v,
                        Err(e) => return Err(e),
                    };
                    let inner = Cx { base, package: cx.package, bin: cx.bin };
                    expand_items(ws, lib, &inner, items, true, warnings, fuel - 1)
                },
            };
            match expanded {
                Ok(v) => Ok(Item::Module { head, name, content: Some(v) }),
                Err(e) => Err(e),
            }
        },
        Item::Other { tokens } => Ok(Item::Other { tokens: rewrite_paths(ws, lib, cx, tokens) }),
        other => Ok(other),
    }
}

/// Whether the root package of `graph` has neither a binary nor a library target.
pub open spec fn no_target(graph: Graph) -> bool {
    let t = graph.packages@[graph.root as int].targets@;
    forall|j: int| 0 <= j < t.len()
        ==> !has_kind(#[trigger] t[j], TargetKind::Bin) && !has_kind(t[j], TargetKind::Lib)
}

/// Creates a single-tree version of the root package of `ws`, expanded from its
/// binary if it has one, else from its library. Names of external crates that
/// the graph does not resolve are added to `warnings`.
pub fn bundle(ws: &Workspace, warnings: &mut Vec<String>) -> (r: Result<Vec<Item>, BundleError>)
    requires
        ws.wf(),
    ensures
        extends(old(warnings)@, final(warnings)@),
        (r matches Err(BundleError::NoTarget)) <==> no_target(ws.graph),
        match r {
            Ok(v) => bundle_spec(*ws) == Ok::<(Seq<ItemV>, Seq<Seq<char>>), Failure>(
                (view_seq(v@), added(old(warnings)@, final(warnings)@)),
            ) && items_closed(v@, ws.skip_names()) && forall|i: int|
                0 <= i < v@.len() ==> !use_led_by(#[trigger] v@[i], lib_name_of(ws.graph.packages@[ws.graph.root as int])),
            Err(e) => bundle_spec(*ws) == Err::<(Seq<ItemV>, Seq<Seq<char>>), Failure>(failure_of(e)),
        },
{
    let root = &ws.graph.packages[ws.graph.root];
    let t = match primary_target(root) {
        Some(t) => t,
        None => return Err(BundleError::NoTarget),
    };
    let target = &root.targets[t];
    let items = match load(ws, &target.src_path) {
        Ok(v) => v,
        Err(e) => return Err(e),
    };
    let lib = root_lib_name(&ws.graph);
    let cx = Cx { base: copy_strings(&target.src_path.dir), package: ws.graph.root, bin: target_is(target, TargetKind::Bin) };
    expand_items(ws, &lib, &cx, items, true, warnings, NESTING_LIMIT)
}

/// The token texts of `items`, in order.
pub fn render(items: &Vec<Item>) -> (r: Vec<String>)
    ensures
        names(r@) == render_items(items@),
{
    let mut out: Vec<String> = Vec::new();
    proof {
        assert(names(out@) =~= Seq::empty());
    }
    render_items_into(items, &mut out);
    proof {
        assert(Seq::<Seq<char>>::empty() + render_items(items@) =~= render_items(items@));
    }
    out
}

/// The text a run prints: the formatter's output when formatting succeeded,
/// else the unformatted text.
pub fn formatted_or_raw(raw: String, formatted: Option<String>) -> (r: String)
    ensures
        r@ == match formatted {
            Some(f) => f@,
            None => raw@,
        },
{
    match formatted {
        Some(f) => f,
        None => raw,
    }
}

} // verus!
