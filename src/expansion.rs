use vstd::prelude::*;
use crate::engine::{BundleError, NESTING_LIMIT, Workspace, use_led_by, without_uses_of};
use crate::graph::{Package, TargetKind, dep_named, first_target_of, has_kind, lib_name_of};
use crate::source::{SourceFile, first_file, names, path_view};
use crate::tree::{Item, ItemV, strip_leading, view_item, view_seq};

verus! {

/// Why a run fails, as mathematical values.
pub enum Failure {
    NoTarget,
    NoLibrary(Seq<char>),
    Unreadable,
    Unparsable,
    ModuleNotFound(Seq<char>),
    TooDeep,
}

pub open spec fn failure_of(e: BundleError) -> Failure {
    match e {
        BundleError::NoTarget => Failure::NoTarget,
        BundleError::NoLibrary(n) => Failure::NoLibrary(n@),
        BundleError::Unreadable => Failure::Unreadable,
        BundleError::Unparsable => Failure::Unparsable,
        BundleError::ModuleNotFound(n) => Failure::ModuleNotFound(n@),
        BundleError::TooDeep => Failure::TooDeep,
    }
}

/// Where an expansion stands: the directory that module files are looked up in,
/// the package being expanded, and whether its chosen target is its binary.
pub struct Scope {
    pub base: Seq<Seq<char>>,
    pub package: int,
    pub bin: bool,
}

/// The expanded items and the names warned about, or why expansion fails.
pub type Expansion = Result<(Seq<ItemV>, Seq<Seq<char>>), Failure>;

/// `r` after `done`: items and warnings of `done` come first.
pub open spec fn after(done: (Seq<ItemV>, Seq<Seq<char>>), r: Expansion) -> Expansion {
    match r {
        Ok((a, w)) => Ok((done.0 + a, done.1 + w)),
        Err(e) => Err(e),
    }
}

/// The items of the first file at `p`.
pub open spec fn load_spec(files: Seq<SourceFile>, p: (Seq<Seq<char>>, Option<Seq<char>>)) -> Result<Seq<ItemV>, Failure> {
    match first_file(files, p) {
        None => Err(Failure::Unreadable),
        Some(f) => match files[f].items {
            None => Err(Failure::Unparsable),
            Some(v) => Ok(view_seq(v@)),
        },
    }
}

pub open spec fn use_led_by_v(it: ItemV, seg: Seq<char>) -> bool {
    match it {
        ItemV::Use { lead, .. } => lead == Some(seg),
        _ => false,
    }
}

/// `s` without its `use` declarations that start with `seg`, in order.
pub open spec fn drop_uses(s: Seq<ItemV>, seg: Seq<char>) -> Seq<ItemV>
    decreases s.len(),
{
    if s.len() == 0 {
        s
    } else {
        let rest = drop_uses(s.drop_last(), seg);
        if use_led_by_v(s.last(), seg) {
            rest
        } else {
            rest.push(s.last())
        }
    }
}

pub proof fn lemma_drop_uses_view(s: Seq<Item>, seg: Seq<char>)
    ensures
        view_seq(without_uses_of(s, seg)) == drop_uses(view_seq(s), seg),
    decreases s.len(),
{
    if s.len() > 0 {
        lemma_drop_uses_view(s.drop_last(), seg);
        let v = view_seq(s);
        assert(v.drop_last() =~= view_seq(s.drop_last()));
        assert(use_led_by(s.last(), seg) == use_led_by_v(view_item(s.last()), seg));
        crate::tree::lemma_view_seq_push(without_uses_of(s.drop_last(), seg), s.last());
    }
}

/// The names pushed onto `a` to give `b`.
pub open spec fn added(a: Seq<String>, b: Seq<String>) -> Seq<Seq<char>> {
    names(b).subrange(a.len() as int, b.len() as int)
}

pub proof fn lemma_added(a: Seq<String>, b: Seq<String>, c: Seq<String>)
    requires
        crate::engine::extends(a, b),
        crate::engine::extends(b, c),
    ensures
        crate::engine::extends(a, c),
        added(a, c) == added(a, b) + added(b, c),
        added(a, a) == Seq::<Seq<char>>::empty(),
{
    assert(added(a, c) =~= added(a, b) + added(b, c));
    assert(added(a, a) =~= Seq::<Seq<char>>::empty());
}

pub proof fn lemma_after_nothing(r: Expansion)
    ensures
        after((Seq::empty(), Seq::empty()), r) == r,
{
    match r {
        Ok((a, w)) => {
            assert(Seq::<ItemV>::empty() + a =~= a);
            assert(Seq::<Seq<char>>::empty() + w =~= w);
        },
        Err(_) => {},
    }
}

pub proof fn lemma_after_after(d1: (Seq<ItemV>, Seq<Seq<char>>), d2: (Seq<ItemV>, Seq<Seq<char>>), r: Expansion)
    ensures
        after(d1, after(d2, r)) == after((d1.0 + d2.0, d1.1 + d2.1), r),
{
    match r {
        Ok((a, w)) => {
            assert(d1.0 + (d2.0 + a) =~= (d1.0 + d2.0) + a);
            assert(d1.1 + (d2.1 + w) =~= (d1.1 + d2.1) + w);
        },
        Err(_) => {},
    }
}

pub open spec fn is_root(ws: Workspace, sc: Scope) -> bool {
    sc.package == ws.graph.root as int
}

/// One level of a tree expanded: external crates first, then (at the top of a
/// file of the root package) the root library's imports dropped, then each item
/// visited.
pub open spec fn expand_spec(ws: Workspace, lib: Seq<char>, sc: Scope, s: Seq<ItemV>, file_level: bool, fuel: nat) -> Expansion
    decreases fuel, 4nat, 0nat,
{
    match extern_spec(ws, lib, sc, s, fuel) {
        Err(e) => Err(e),
        Ok((a, w1)) => {
            let b = if file_level && is_root(ws, sc) { drop_uses(a, lib) } else { a };
            after((Seq::empty(), w1), visit_seq_spec(ws, lib, sc, b, fuel))
        },
    }
}

/// The package that external crate `name` stands for, seen from `sc`, and whether
/// it is the root library named from the root binary.
pub open spec fn crate_target(ws: Workspace, lib: Seq<char>, sc: Scope, name: Seq<char>) -> (Option<int>, bool) {
    if is_root(ws, sc) && sc.bin && name == lib {
        (Some(ws.graph.root as int), true)
    } else {
        let pkg = ws.graph.packages@[sc.package];
        match dep_named(pkg, name) {
            Some(i) => (Some(pkg.deps@[i].pkg as int), false),
            None => (None, false),
        }
    }
}

/// What the external-crate pass puts in place of one item: the item itself,
/// unless it declares an external crate whose name is not skipped.
pub open spec fn extern_one(ws: Workspace, lib: Seq<char>, sc: Scope, it: ItemV, fuel: nat) -> Expansion
    decreases fuel, 3nat, 0nat,
{
    match it {
        ItemV::ExternCrate { name, .. } => if names(ws.skip@).contains(name) {
            Ok((seq![it], Seq::empty()))
        } else {
            match crate_target(ws, lib, sc, name) {
                (None, _) => Ok((Seq::empty(), seq![name])),
                (Some(p), flat) => match library_spec(ws, lib, p, fuel) {
                    Err(e) => Err(e),
                    Ok((l, w)) => Ok((
                        if flat {
                            l
                        } else {
                            seq![ItemV::Module { head: seq!["pub"@], name, content: Some(l) }]
                        },
                        w,
                    )),
                },
            }
        },
        _ => Ok((seq![it], Seq::empty())),
    }
}

/// The external-crate pass over `s`.
pub open spec fn extern_spec(ws: Workspace, lib: Seq<char>, sc: Scope, s: Seq<ItemV>, fuel: nat) -> Expansion
    decreases fuel, 3nat, s.len() + 1,
{
    if s.len() == 0 {
        Ok((Seq::empty(), Seq::empty()))
    } else {
        match extern_one(ws, lib, sc, s[0], fuel) {
            Err(e) => Err(e),
            Ok(d) => after(d, extern_spec(ws, lib, sc, s.subrange(1, s.len() as int), fuel)),
        }
    }
}

/// The library of package `p`, expanded.
pub open spec fn library_spec(ws: Workspace, lib: Seq<char>, p: int, fuel: nat) -> Expansion
    decreases fuel, 2nat, 0nat,
{
    if fuel == 0 {
        Err(Failure::TooDeep)
    } else if !(0 <= p < ws.graph.packages@.len()) {
        Err(Failure::Unreadable)
    } else {
        let pkg = ws.graph.packages@[p];
        match first_target_of(pkg, TargetKind::Lib) {
            None => Err(Failure::NoLibrary(pkg.name@)),
            Some(t) => {
                let src = pkg.targets@[t].src_path;
                match load_spec(ws.files@, path_view(src)) {
                    Err(e) => Err(e),
                    Ok(items) => expand_spec(ws, lib, Scope { base: names(src.dir@), package: p, bin: false },
                        items, true, (fuel - 1) as nat),
                }
            },
        }
    }
}

/// Each item of `s` visited, in order.
pub open spec fn visit_seq_spec(ws: Workspace, lib: Seq<char>, sc: Scope, s: Seq<ItemV>, fuel: nat) -> Expansion
    decreases fuel, 1nat, s.len(),
{
    if s.len() == 0 {
        Ok((Seq::empty(), Seq::empty()))
    } else {
        match visit_spec(ws, lib, sc, s[0], fuel) {
            Err(e) => Err(e),
            Ok((it, w)) => after((seq![it], w), visit_seq_spec(ws, lib, sc, s.subrange(1, s.len() as int), fuel)),
        }
    }
}

/// One item visited: a pending module gets the expanded items of
/// `<base>/<name>.rs`, else of `<base>/<name>/mod.rs`; an inline module gets its
/// items expanded; in the root package, paths of other items that start with the
/// root library's name lose that segment.
pub open spec fn visit_spec(ws: Workspace, lib: Seq<char>, sc: Scope, it: ItemV, fuel: nat) -> Result<(ItemV, Seq<Seq<char>>), Failure>
    decreases fuel, 0nat, 0nat,
{
    match it {
        ItemV::Module { head, name, content } => if fuel == 0 {
            Err(Failure::TooDeep)
        } else {
            let sibling = (sc.base, Some(name));
            let sub = (sc.base.push(name), None::<Seq<char>>);
            let r = match content {
                Some(v) => expand_spec(ws, lib, sc, v, false, (fuel - 1) as nat),
                None => if first_file(ws.files@, sibling) is Some {
                    match load_spec(ws.files@, sibling) {
                        Err(e) => Err(e),
                        Ok(items) => expand_spec(ws, lib, sc, items, true, (fuel - 1) as nat),
                    }
                } else if first_file(ws.files@, sub) is Some {
                    match load_spec(ws.files@, sub) {
                        Err(e) => Err(e),
                        Ok(items) => expand_spec(ws, lib, Scope { base: sub.0, ..sc }, items, true, (fuel - 1) as nat),
                    }
                } else {
                    Err(Failure::ModuleNotFound(name))
                },
            };
            match r {
                Err(e) => Err(e),
                Ok((c, w)) => Ok((ItemV::Module { head, name, content: Some(c) }, w)),
            }
        },
        ItemV::Other { tokens } => Ok((
            ItemV::Other { tokens: if is_root(ws, sc) { strip_leading(tokens, lib) } else { tokens } },
            Seq::empty(),
        )),
        _ => Ok((it, Seq::empty())),
    }
}

/// The target a package is expanded from: its first binary, else its first library.
pub open spec fn primary_of(pkg: Package) -> Option<int> {
    match first_target_of(pkg, TargetKind::Bin) {
        Some(i) => Some(i),
        None => first_target_of(pkg, TargetKind::Lib),
    }
}

/// A whole run: the root package's primary target's file, expanded from the
/// directory that holds it.
pub open spec fn bundle_spec(ws: Workspace) -> Expansion {
    let root = ws.graph.packages@[ws.graph.root as int];
    match primary_of(root) {
        None => Err(Failure::NoTarget),
        Some(t) => {
            let target = root.targets@[t];
            match load_spec(ws.files@, path_view(target.src_path)) {
                Err(e) => Err(e),
                Ok(items) => expand_spec(
                    ws,
                    lib_name_of(root),
                    Scope {
                        base: names(target.src_path.dir@),
                        package: ws.graph.root as int,
                        bin: has_kind(target, TargetKind::Bin),
                    },
                    items,
                    true,
                    NESTING_LIMIT as nat,
                ),
            }
        },
    }
}

/// A declaration of a skipped external crate is kept as it is by the
/// external-crate pass and by the visit, and no library is expanded for it.
pub proof fn lemma_skipped_crate_kept(ws: Workspace, lib: Seq<char>, sc: Scope, it: ItemV, fuel: nat)
    requires
        it is ExternCrate,
        names(ws.skip@).contains(it->ExternCrate_name),
    ensures
        extern_one(ws, lib, sc, it, fuel) == Ok::<(Seq<ItemV>, Seq<Seq<char>>), Failure>((seq![it], Seq::empty())),
        visit_spec(ws, lib, sc, it, fuel) == Ok::<(ItemV, Seq<Seq<char>>), Failure>((it, Seq::empty())),
{
}

/// In the root package, the paths of an item that start with the root library's
/// name lose that segment; in other packages they are kept.
pub proof fn lemma_paths_rewritten(ws: Workspace, lib: Seq<char>, sc: Scope, tokens: Seq<crate::tree::Token>, fuel: nat)
    ensures
        visit_spec(ws, lib, sc, ItemV::Other { tokens }, fuel) == Ok::<(ItemV, Seq<Seq<char>>), Failure>((
            ItemV::Other { tokens: if is_root(ws, sc) { strip_leading(tokens, lib) } else { tokens } },
            Seq::empty(),
        )),
{
}

/// Where the binary of the root package declares the root library, the
/// library's expanded items take the declaration's place as they are, with no
/// module around them.
pub proof fn lemma_root_library_flat(ws: Workspace, lib: Seq<char>, sc: Scope, it: ItemV, fuel: nat)
    requires
        it is ExternCrate,
        it->ExternCrate_name == lib,
        !names(ws.skip@).contains(lib),
        is_root(ws, sc),
        sc.bin,
    ensures
        extern_one(ws, lib, sc, it, fuel) == library_spec(ws, lib, ws.graph.root as int, fuel),
{
    match library_spec(ws, lib, ws.graph.root as int, fuel) {
        Ok((l, w)) => {},
        Err(e) => {},
    }
}

/// An expanded tree holds no `use` declaration of the root library at the top
/// of a file of the root package.
pub proof fn lemma_drop_uses_complete(s: Seq<ItemV>, seg: Seq<char>)
    ensures
        forall|i: int| 0 <= i < drop_uses(s, seg).len() ==> !use_led_by_v(#[trigger] drop_uses(s, seg)[i], seg),
    decreases s.len(),
{
    if s.len() > 0 {
        lemma_drop_uses_complete(s.drop_last(), seg);
        let rest = drop_uses(s.drop_last(), seg);
        assert forall|i: int| 0 <= i < drop_uses(s, seg).len() implies !use_led_by_v(#[trigger] drop_uses(s, seg)[i], seg) by {
            if i < rest.len() {
                assert(drop_uses(s, seg)[i] == rest[i]);
            }
        }
    }
}

} // verus!
