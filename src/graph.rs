use vstd::prelude::*;

verus! {

/// The kind of a build target.
#[derive(PartialEq, Eq, Structural, Clone, Copy, Debug)]
pub enum TargetKind {
    Bin,
    Lib,
    Other,
}

/// A build target: a named artifact with one entry-point source file.
pub struct Target {
    pub name: String,
    pub kinds: Vec<TargetKind>,
    /// Path of the entry-point file.
    pub src_path: crate::source::SrcPath,
}

pub open spec fn has_kind(t: Target, kind: TargetKind) -> bool {
    t.kinds@.contains(kind)
}

/// Whether `target` is of kind `kind`.
pub fn target_is(target: &Target, kind: TargetKind) -> (r: bool)
    ensures
        r == has_kind(*target, kind),
{
    let mut i: usize = 0;
    while i < target.kinds.len()
        invariant
            0 <= i <= target.kinds.len(),
            forall|j: int| 0 <= j < i ==> target.kinds@[j] != kind,
        decreases target.kinds.len() - i,
    {
        if target.kinds[i] == kind {
            return true;
        }
        i = i + 1;
    }
    false
}


/// A resolved dependency edge: the name used in source and the package it denotes.
pub struct Dep {
    pub name: String,
    pub pkg: usize,
}

/// A package: a named unit of source with its targets and resolved dependency edges.
pub struct Package {
    pub name: String,
    pub targets: Vec<Target>,
    pub deps: Vec<Dep>,
}

/// The package graph of one bundling run; packages are identified by index.
pub struct Graph {
    pub root: usize,
    pub packages: Vec<Package>,
}

impl Graph {
    /// Every package index the graph mentions stands for a package.
    pub open spec fn wf(&self) -> bool {
        &&& self.root < self.packages@.len()
        &&& forall|p: int, d: int|
            0 <= p < self.packages@.len() && 0 <= d < self.packages@[p].deps@.len()
                ==> #[trigger] self.packages@[p].deps@[d].pkg < self.packages@.len()
    }
}

/// Index of the first target of `pkg` that has kind `kind`.
pub open spec fn first_target_of(pkg: Package, kind: TargetKind) -> Option<int> {
    if exists|i: int| 0 <= i < pkg.targets@.len() && has_kind(#[trigger] pkg.targets@[i], kind) {
        Some(choose|i: int|
            0 <= i < pkg.targets@.len() && has_kind(#[trigger] pkg.targets@[i], kind)
                && forall|j: int| 0 <= j < i ==> !has_kind(#[trigger] pkg.targets@[j], kind))
    } else {
        None
    }
}

/// The first target of `package` of kind `kind`, by index.
pub fn package_target(package: &Package, kind: TargetKind) -> (r: Option<usize>)
    ensures
        r is None <==> first_target_of(*package, kind) is None,
        match r {
            Some(i) => i < package.targets@.len() && has_kind(package.targets@[i as int], kind)
                && forall|j: int| 0 <= j < i ==> !has_kind(#[trigger] package.targets@[j], kind)
                && first_target_of(*package, kind) == Some(i as int),
            None => forall|j: int|
                0 <= j < package.targets@.len() ==> !has_kind(#[trigger] package.targets@[j], kind),
        },
{
    let mut i: usize = 0;
    while i < package.targets.len()
        invariant
            0 <= i <= package.targets.len(),
            forall|j: int| 0 <= j < i ==> !has_kind(#[trigger] package.targets@[j], kind),
        decreases package.targets.len() - i,
    {
        if target_is(&package.targets[i], kind) {
            proof {
                let t = package.targets@;
                let c = choose|c: int| 0 <= c < t.len() && has_kind(#[trigger] t[c], kind)
                    && forall|j: int| 0 <= j < c ==> !has_kind(#[trigger] t[j], kind);
                if c < i {
                } else if c > i {
                }
            }
            return Some(i);
        }
        i = i + 1;
    }
    None
}

/// The target a package is expanded from: its binary if it has one, else its library.
pub fn primary_target(package: &Package) -> (r: Option<usize>)
    ensures
        r is None <==> crate::expansion::primary_of(*package) is None,
        r is Some ==> crate::expansion::primary_of(*package) == Some(r->Some_0 as int),
        match r {
            Some(i) => i < package.targets@.len() && (
                has_kind(package.targets@[i as int], TargetKind::Bin)
                || (has_kind(package.targets@[i as int], TargetKind::Lib)
                    && forall|j: int| 0 <= j < package.targets@.len()
                        ==> !has_kind(#[trigger] package.targets@[j], TargetKind::Bin))),
            None => forall|j: int| 0 <= j < package.targets@.len()
                ==> !has_kind(#[trigger] package.targets@[j], TargetKind::Bin)
                    && !has_kind(package.targets@[j], TargetKind::Lib),
        },
{
    match package_target(package, TargetKind::Bin) {
        Some(i) => Some(i),
        None => package_target(package, TargetKind::Lib),
    }
}

/// The name under which the root package's library is referenced: the library
/// target's name, or the package's name when it has no library.
pub open spec fn lib_name_of(pkg: Package) -> Seq<char> {
    if exists|i: int| 0 <= i < pkg.targets@.len() && has_kind(#[trigger] pkg.targets@[i], TargetKind::Lib) {
        let i = choose|i: int|
            0 <= i < pkg.targets@.len() && has_kind(#[trigger] pkg.targets@[i], TargetKind::Lib)
                && forall|j: int| 0 <= j < i ==> !has_kind(#[trigger] pkg.targets@[j], TargetKind::Lib);
        pkg.targets@[i].name@
    } else {
        pkg.name@
    }
}

/// Index of the first edge of `pkg` named `name`.
pub open spec fn dep_named(pkg: Package, name: Seq<char>) -> Option<int> {
    if exists|i: int| 0 <= i < pkg.deps@.len() && #[trigger] pkg.deps@[i].name@ == name {
        Some(choose|i: int|
            0 <= i < pkg.deps@.len() && #[trigger] pkg.deps@[i].name@ == name
                && forall|j: int| 0 <= j < i ==> #[trigger] pkg.deps@[j].name@ != name)
    } else {
        None
    }
}

/// The package that `name` denotes as a dependency of `package`, if the graph records it.
pub fn dependency_package(package: &Package, name: &String) -> (r: Option<usize>)
    ensures
        r == match dep_named(*package, name@) {
            Some(i) => Some(package.deps@[i].pkg),
            None => None::<usize>,
        },
        match r {
            Some(p) => exists|i: int| 0 <= i < package.deps@.len()
                && #[trigger] package.deps@[i].name@ == name@ && package.deps@[i].pkg == p,
            None => forall|i: int| 0 <= i < package.deps@.len()
                ==> #[trigger] package.deps@[i].name@ != name@,
        },
{
    let mut i: usize = 0;
    while i < package.deps.len()
        invariant
            0 <= i <= package.deps.len(),
            forall|j: int| 0 <= j < i ==> #[trigger] package.deps@[j].name@ != name@,
        decreases package.deps.len() - i,
    {
        if package.deps[i].name == *name {
            proof {
                let d = package.deps@;
                let c = choose|c: int| 0 <= c < d.len() && #[trigger] d[c].name@ == name@
                    && forall|j: int| 0 <= j < c ==> #[trigger] d[j].name@ != name@;
                if c < i {
                } else if c > i {
                }
            }
            return Some(package.deps[i].pkg);
        }
        i = i + 1;
    }
    None
}

/// The name of the root package's library, as it is referenced from the binary.
pub fn root_lib_name(graph: &Graph) -> (r: String)
    requires
        graph.wf(),
    ensures
        r@ == lib_name_of(graph.packages@[graph.root as int]),
{
    let root = &graph.packages[graph.root];
    match package_target(root, TargetKind::Lib) {
        Some(i) => {
            proof {
                let t = root.targets@;
                assert(0 <= i < t.len() && has_kind(t[i as int], TargetKind::Lib));
                let c = choose|c: int| 0 <= c < t.len() && has_kind(#[trigger] t[c], TargetKind::Lib)
                    && forall|j: int| 0 <= j < c ==> !has_kind(#[trigger] t[j], TargetKind::Lib);
                if c < i {
                } else if c > i {
                }
            }
            root.targets[i].name.clone()
        },
        None => root.name.clone(),
    }
}

} // verus!
