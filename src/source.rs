use vstd::prelude::*;
use crate::tree::{Item, copy_token, lemma_view_seq_eq, view_item, view_seq};

verus! {

/// The last component of a source file's path.
pub enum Stem {
    /// `mod.rs`, the entry file of a module directory.
    ModRs,
    /// `<name>.rs`, kept without its extension.
    Named(String),
}

/// Where a source file lies: its directory, one component per element, and its stem.
pub struct SrcPath {
    pub dir: Vec<String>,
    pub stem: Stem,
}

/// A source file of the run, with its items, or `None` when its text did not parse.
pub struct SourceFile {
    pub path: SrcPath,
    pub items: Option<Vec<Item>>,
}

pub open spec fn names(v: Seq<String>) -> Seq<Seq<char>> {
    v.map_values(|s: String| s@)
}

pub open spec fn stem_view(s: Stem) -> Option<Seq<char>> {
    match s {
        Stem::ModRs => None,
        Stem::Named(n) => Some(n@),
    }
}

pub open spec fn path_view(p: SrcPath) -> (Seq<Seq<char>>, Option<Seq<char>>) {
    (names(p.dir@), stem_view(p.stem))
}

/// Whether `a` and `b` hold the same strings.
pub fn strings_eq(a: &Vec<String>, b: &Vec<String>) -> (r: bool)
    ensures
        r == (names(a@) == names(b@)),
{
    if a.len() != b.len() {
        proof {
            assert(names(a@).len() != names(b@).len());
        }
        return false;
    }
    let mut i: usize = 0;
    while i < a.len()
        invariant
            a.len() == b.len(),
            0 <= i <= a.len(),
            forall|j: int| 0 <= j < i ==> a@[j]@ == b@[j]@,
        decreases a.len() - i,
    {
        if a[i] != b[i] {
            proof {
                assert(names(a@)[i as int] != names(b@)[i as int]);
            }
            return false;
        }
        i = i + 1;
    }
    proof {
        assert(names(a@) =~= names(b@));
    }
    true
}

/// A copy of `v`.
pub fn copy_strings(v: &Vec<String>) -> (r: Vec<String>)
    ensures
        r@ == v@,
{
    let mut out: Vec<String> = Vec::new();
    let mut i: usize = 0;
    while i < v.len()
        invariant
            0 <= i <= v.len(),
            out@ == v@.subrange(0, i as int),
        decreases v.len() - i,
    {
        out.push(v[i].clone());
        proof {
            assert(out@ =~= v@.subrange(0, i + 1));
        }
        i = i + 1;
    }
    proof {
        assert(out@ =~= v@);
    }
    out
}

/// Whether `a` and `b` name the same file.
pub fn same_path(a: &SrcPath, b: &SrcPath) -> (r: bool)
    ensures
        r == (path_view(*a) == path_view(*b)),
{
    let stems = match (&a.stem, &b.stem) {
        (Stem::ModRs, Stem::ModRs) => true,
        (Stem::Named(x), Stem::Named(y)) => *x == *y,
        _ => false,
    };
    stems && strings_eq(&a.dir, &b.dir)
}

/// Index of the first file of `files` at `p`.
pub open spec fn first_file(files: Seq<SourceFile>, p: (Seq<Seq<char>>, Option<Seq<char>>)) -> Option<int> {
    if exists|i: int| 0 <= i < files.len() && path_view(#[trigger] files[i].path) == p {
        Some(choose|i: int|
            0 <= i < files.len() && path_view(#[trigger] files[i].path) == p
                && forall|j: int| 0 <= j < i ==> path_view(#[trigger] files[j].path) != p)
    } else {
        None
    }
}

/// The first file of `files` at `path`.
pub fn find_file(files: &Vec<SourceFile>, path: &SrcPath) -> (r: Option<usize>)
    ensures
        match r {
            Some(i) => i < files@.len() && path_view(files@[i as int].path) == path_view(*path)
                && first_file(files@, path_view(*path)) == Some(i as int),
            None => forall|j: int|
                0 <= j < files@.len() ==> path_view(#[trigger] files@[j].path) != path_view(*path),
        },
        r is None <==> first_file(files@, path_view(*path)) is None,
{
    let mut i: usize = 0;
    while i < files.len()
        invariant
            0 <= i <= files.len(),
            forall|j: int| 0 <= j < i ==> path_view(#[trigger] files@[j].path) != path_view(*path),
        decreases files.len() - i,
    {
        if same_path(&files[i].path, path) {
            proof {
                let p = path_view(*path);
                let c = choose|c: int| 0 <= c < files@.len() && path_view(#[trigger] files@[c].path) == p
                    && forall|j: int| 0 <= j < c ==> path_view(#[trigger] files@[j].path) != p;
                if c < i {
                } else if c > i {
                }
            }
            return Some(i);
        }
        i = i + 1;
    }
    None
}

fn copy_tokens(v: &Vec<crate::tree::Token>) -> (r: Vec<crate::tree::Token>)
    ensures
        r@ == v@,
{
    let mut out: Vec<crate::tree::Token> = Vec::new();
    let mut i: usize = 0;
    while i < v.len()
        invariant
            0 <= i <= v.len(),
            out@ == v@.subrange(0, i as int),
        decreases v.len() - i,
    {
        out.push(copy_token(&v[i]));
        proof {
            assert(out@ =~= v@.subrange(0, i + 1));
        }
        i = i + 1;
    }
    proof {
        assert(out@ =~= v@);
    }
    out
}

/// `b` holds what `a` holds, at every depth.
pub open spec fn same_item(a: Item, b: Item) -> bool
    decreases a,
{
    match a {
        Item::Module { head: h1, name: n1, content: c1 } => match b {
            Item::Module { head: h2, name: n2, content: c2 } => h1@ == h2@ && n1@ == n2@
                && match c1 {
                None => c2 is None,
                Some(v1) => match c2 {
                    None => false,
                    Some(v2) => v1@.len() == v2@.len() && forall|i: int|
                        0 <= i < v1@.len() ==> same_item(#[trigger] v1@[i], v2@[i]),
                },
            },
            _ => false,
        },
        Item::ExternCrate { name: n1, tokens: t1 } => match b {
            Item::ExternCrate { name: n2, tokens: t2 } => n1@ == n2@ && t1@ == t2@,
            _ => false,
        },
        Item::Use { lead: l1, tokens: t1 } => match b {
            Item::Use { lead: l2, tokens: t2 } => l1 == l2 && t1@ == t2@,
            _ => false,
        },
        Item::Other { tokens: t1 } => match b {
            Item::Other { tokens: t2 } => t1@ == t2@,
            _ => false,
        },
    }
}

/// Items that hold the same have the same view.
pub proof fn lemma_same_item_view(a: Item, b: Item)
    requires
        same_item(a, b),
    ensures
        view_item(a) == view_item(b),
    decreases a,
{
    match a {
        Item::Module { content: c1, .. } => match b {
            Item::Module { content: c2, .. } => match c1 {
                Some(v1) => match c2 {
                    Some(v2) => {
                        assert forall|i: int| 0 <= i < v1@.len() implies view_item(#[trigger] v1@[i])
                            == view_item(v2@[i]) by {
                            lemma_same_item_view(v1@[i], v2@[i]);
                        }
                        lemma_view_seq_eq(v1@, v2@);
                    },
                    None => {},
                },
                None => {},
            },
            _ => {},
        },
        _ => {},
    }
}

/// A deep copy of `item`.
pub fn copy_item(item: &Item) -> (r: Item)
    ensures
        same_item(*item, r),
        view_item(r) == view_item(*item),
    decreases item,
{
    let r = match item {
        Item::Module { head, name, content } => {
            let c = match content {
                Some(v) => Some(copy_items(v)),
                None => None,
            };
            Item::Module { head: copy_tokens(head), name: name.clone(), content: c }
        },
        Item::ExternCrate { name, tokens } => Item::ExternCrate {
            name: name.clone(),
            tokens: copy_tokens(tokens),
        },
        Item::Use { lead, tokens } => {
            let l = match lead {
                Some(s) => Some(s.clone()),
                None => None,
            };
            Item::Use { lead: l, tokens: copy_tokens(tokens) }
        },
        Item::Other { tokens } => Item::Other { tokens: copy_tokens(tokens) },
    };
    proof {
        lemma_same_item_view(*item, r);
    }
    r
}

/// A deep copy of `items`.
pub fn copy_items(items: &Vec<Item>) -> (r: Vec<Item>)
    ensures
        r@.len() == items@.len(),
        forall|i: int| 0 <= i < items@.len() ==> same_item(#[trigger] items@[i], r@[i]),
        view_seq(r@) == view_seq(items@),
    decreases items,
{
    let mut out: Vec<Item> = Vec::new();
    let mut i: usize = 0;
    while i < items.len()
        invariant
            0 <= i <= items.len(),
            out@.len() == i,
            forall|j: int| 0 <= j < i ==> same_item(#[trigger] items@[j], out@[j]),
        decreases items.len() - i,
    {
        out.push(copy_item(&items[i]));
        i = i + 1;
    }
    proof {
        assert forall|j: int| 0 <= j < items@.len() implies view_item(#[trigger] items@[j]) == view_item(out@[j]) by {
            lemma_same_item_view(items@[j], out@[j]);
        }
        lemma_view_seq_eq(items@, out@);
    }
    out
}

} // verus!
