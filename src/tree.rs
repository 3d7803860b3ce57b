use vstd::prelude::*;
use crate::source::names;

verus! {

/// One lexical token of an item that the bundler passes through.
#[derive(Debug)]
pub enum Token {
    Ident(String),
    /// The path separator `::`.
    PathSep,
    /// The field-access dot `.`.
    Dot,
    /// Any other token, kept as its text.
    Other(String),
}

/// A top-level item of a source file, as the bundler sees it.
#[derive(Debug)]
pub enum Item {
    /// `mod name;` (no content yet) or `mod name { .. }`; `head` holds the
    /// attribute and visibility tokens in front of `mod`.
    Module { head: Vec<Token>, name: String, content: Option<Vec<Item>> },
    /// `extern crate name;`, with all of its tokens.
    ExternCrate { name: String, tokens: Vec<Token> },
    /// A `use` declaration; `lead` is its first path segment when its tree starts with one.
    Use { lead: Option<String>, tokens: Vec<Token> },
    /// Any other item, as its tokens.
    Other { tokens: Vec<Token> },
}

pub open spec fn is_ident(t: Token, s: Seq<char>) -> bool {
    match t {
        Token::Ident(x) => x@ == s,
        _ => false,
    }
}

pub open spec fn ends_path(t: Token) -> bool {
    match t {
        Token::PathSep | Token::Dot => true,
        _ => false,
    }
}

pub open spec fn is_path_sep(t: Token) -> bool {
    match t {
        Token::PathSep => true,
        _ => false,
    }
}

/// Position `i` of `t` starts a path whose leading segment is `seg`: the identifier
/// `seg`, followed by `::`, and not itself following `::` or `.`.
pub open spec fn starts_path_with(t: Seq<Token>, i: int, seg: Seq<char>) -> bool {
    &&& 0 <= i
    &&& i + 1 < t.len()
    &&& is_ident(t[i], seg)
    &&& is_path_sep(t[i + 1])
    &&& !(i > 0 && ends_path(t[i - 1]))
}

/// The tokens of `t` from `i` on, with the leading segment `seg` (and its `::`)
/// dropped from every path that starts with it.
pub open spec fn strip_from(t: Seq<Token>, seg: Seq<char>, i: int) -> Seq<Token>
    decreases t.len() - i,
{
    if i < 0 || i >= t.len() {
        Seq::empty()
    } else if starts_path_with(t, i, seg) {
        strip_from(t, seg, i + 2)
    } else {
        seq![t[i]] + strip_from(t, seg, i + 1)
    }
}

pub open spec fn strip_leading(t: Seq<Token>, seg: Seq<char>) -> Seq<Token> {
    strip_from(t, seg, 0)
}

proof fn lemma_strip_from_unchanged(t: Seq<Token>, seg: Seq<char>, i: int)
    requires
        0 <= i <= t.len(),
        forall|j: int| 0 <= j < t.len() ==> !starts_path_with(t, j, seg),
    ensures
        strip_from(t, seg, i) == t.subrange(i, t.len() as int),
    decreases t.len() - i,
{
    if i < t.len() {
        lemma_strip_from_unchanged(t, seg, i + 1);
        assert(seq![t[i]] + t.subrange(i + 1, t.len() as int) =~= t.subrange(i, t.len() as int));
    } else {
        assert(t.subrange(i, t.len() as int) =~= Seq::<Token>::empty());
    }
}

/// Rewriting leaves a token sequence in which no path starts with `seg` as it is.
pub proof fn lemma_strip_keeps_other_paths(t: Seq<Token>, seg: Seq<char>)
    requires
        forall|i: int| 0 <= i < t.len() ==> !starts_path_with(t, i, seg),
    ensures
        strip_leading(t, seg) == t,
{
    lemma_strip_from_unchanged(t, seg, 0);
    assert(t.subrange(0, t.len() as int) =~= t);
}

/// A copy of `t`.
pub fn copy_token(t: &Token) -> (r: Token)
    ensures
        r == *t,
{
    match t {
        Token::Ident(s) => Token::Ident(s.clone()),
        Token::PathSep => Token::PathSep,
        Token::Dot => Token::Dot,
        Token::Other(s) => Token::Other(s.clone()),
    }
}

fn token_is_ident(t: &Token, s: &String) -> (r: bool)
    ensures
        r == is_ident(*t, s@),
{
    match t {
        Token::Ident(x) => *x == *s,
        _ => false,
    }
}

fn token_ends_path(t: &Token) -> (r: bool)
    ensures
        r == ends_path(*t),
{
    match t {
        Token::PathSep | Token::Dot => true,
        _ => false,
    }
}

fn token_is_path_sep(t: &Token) -> (r: bool)
    ensures
        r == is_path_sep(*t),
{
    match t {
        Token::PathSep => true,
        _ => false,
    }
}

/// Whether position `i` of `tokens` starts a path whose leading segment is `seg`.
pub fn path_starts_with(tokens: &Vec<Token>, i: usize, seg: &String) -> (r: bool)
    ensures
        r == starts_path_with(tokens@, i as int, seg@),
{
    if i < tokens.len() && i + 1 < tokens.len() && token_is_ident(&tokens[i], seg)
        && token_is_path_sep(&tokens[i + 1]) {
        !(i > 0 && token_ends_path(&tokens[i - 1]))
    } else {
        false
    }
}

/// Drops the leading segment `seg` from every path of `tokens` that starts with it.
pub fn strip_leading_segment(tokens: &Vec<Token>, seg: &String) -> (r: Vec<Token>)
    ensures
        r@ == strip_leading(tokens@, seg@),
{
    let mut out: Vec<Token> = Vec::new();
    let mut i: usize = 0;
    while i < tokens.len()
        invariant
            0 <= i <= tokens.len() + 1,
            out@ + strip_from(tokens@, seg@, i as int) == strip_leading(tokens@, seg@),
        decreases tokens.len() + 1 - i,
    {
        if path_starts_with(tokens, i, seg) {
            i = i + 2;
        } else {
            let t = copy_token(&tokens[i]);
            proof {
                assert(out@.push(t) + strip_from(tokens@, seg@, i + 1)
                    =~= out@ + strip_from(tokens@, seg@, i as int));
            }
            out.push(t);
            i = i + 1;
        }
    }
    proof {
        assert(out@ + strip_from(tokens@, seg@, i as int) =~= out@);
    }
    out
}


/// The text of a token.
pub open spec fn token_text(t: Token) -> Seq<char> {
    match t {
        Token::Ident(s) => s@,
        Token::PathSep => "::"@,
        Token::Dot => "."@,
        Token::Other(s) => s@,
    }
}

pub open spec fn texts(t: Seq<Token>) -> Seq<Seq<char>> {
    t.map_values(|x: Token| token_text(x))
}

/// The token texts of `it`, in order: a module is its head, `mod`, its name, and
/// then its items in braces, or `;` while it has none.
pub open spec fn render_item(it: Item) -> Seq<Seq<char>>
    decreases it,
{
    match it {
        Item::Module { head, name, content } => texts(head@) + seq!["mod"@, name@] + match content {
            Some(v) => seq!["{"@] + render_items(v@) + seq!["}"@],
            None => seq![";"@],
        },
        Item::ExternCrate { tokens, .. } => texts(tokens@),
        Item::Use { tokens, .. } => texts(tokens@),
        Item::Other { tokens } => texts(tokens@),
    }
}

/// The token texts of the items of `s`, one after the other.
pub open spec fn render_items(s: Seq<Item>) -> Seq<Seq<char>>
    decreases s,
{
    if s.len() == 0 {
        Seq::empty()
    } else {
        render_items(s.drop_last()) + render_item(s.last())
    }
}

fn text_of(t: &Token) -> (r: String)
    ensures
        r@ == token_text(*t),
{
    match t {
        Token::Ident(s) => s.clone(),
        Token::PathSep => "::".to_owned(),
        Token::Dot => ".".to_owned(),
        Token::Other(s) => s.clone(),
    }
}

fn push_texts(tokens: &Vec<Token>, out: &mut Vec<String>)
    ensures
        names(final(out)@) == names(old(out)@) + texts(tokens@),
{
    let ghost start = names(out@);
    let mut i: usize = 0;
    while i < tokens.len()
        invariant
            0 <= i <= tokens.len(),
            names(out@) == start + texts(tokens@.subrange(0, i as int)),
        decreases tokens.len() - i,
    {
        let ghost before = out@;
        let t = text_of(&tokens[i]);
        out.push(t);
        proof {
            assert(names(out@) =~= names(before).push(t@));
            assert(texts(tokens@.subrange(0, i + 1)) =~= texts(tokens@.subrange(0, i as int)).push(token_text(tokens@[i as int])));
            assert(names(out@) =~= start + texts(tokens@.subrange(0, i + 1)));
        }
        i = i + 1;
    }
    proof {
        assert(tokens@.subrange(0, i as int) =~= tokens@);
    }
}

/// Appends the token texts of `item` to `out`.
pub fn render_item_into(item: &Item, out: &mut Vec<String>)
    ensures
        names(final(out)@) == names(old(out)@) + render_item(*item),
    decreases item,
{
    let ghost start = names(out@);
    match item {
        Item::Module { head, name, content } => {
            push_texts(head, out);
            let ghost a = out@;
            let m = "mod".to_owned();
            out.push(m);
            let n = name.clone();
            out.push(n);
            let ghost mid = names(out@);
            proof {
                assert(names(out@) =~= names(a).push(m@).push(n@));
                assert(mid =~= start + texts(head@) + seq!["mod"@, name@]);
            }
            match content {
                Some(v) => {
                    let o = "{".to_owned();
                    out.push(o);
                    proof {
                        assert(names(out@) =~= mid.push(o@));
                    }
                    render_items_into(v, out);
                    let ghost b = out@;
                    let c = "}".to_owned();
                    out.push(c);
                    proof {
                        assert(names(out@) =~= names(b).push(c@));
                        assert(names(out@) =~= mid + seq!["{"@] + render_items(v@) + seq!["}"@]);
                        assert(names(out@) =~= start + render_item(*item));
                    }
                },
                None => {
                    let c = ";".to_owned();
                    out.push(c);
                    proof {
                        assert(names(out@) =~= mid.push(c@));
                        assert(names(out@) =~= start + render_item(*item));
                    }
                },
            }
        },
        Item::ExternCrate { tokens, .. } => push_texts(tokens, out),
        Item::Use { tokens, .. } => push_texts(tokens, out),
        Item::Other { tokens } => push_texts(tokens, out),
    }
}

/// Appends the token texts of `items` to `out`.
pub fn render_items_into(items: &Vec<Item>, out: &mut Vec<String>)
    ensures
        names(final(out)@) == names(old(out)@) + render_items(items@),
    decreases items,
{
    let ghost start = names(out@);
    let mut i: usize = 0;
    while i < items.len()
        invariant
            0 <= i <= items.len(),
            names(out@) == start + render_items(items@.subrange(0, i as int)),
        decreases items.len() - i,
    {
        render_item_into(&items[i], out);
        proof {
            assert(items@.subrange(0, i + 1).drop_last() =~= items@.subrange(0, i as int));
            assert(names(out@) =~= start + render_items(items@.subrange(0, i + 1)));
        }
        i = i + 1;
    }
    proof {
        assert(items@.subrange(0, i as int) =~= items@);
    }
}


/// What an item holds, as mathematical values.
pub enum ItemV {
    Module { head: Seq<Seq<char>>, name: Seq<char>, content: Option<Seq<ItemV>> },
    ExternCrate { name: Seq<char>, tokens: Seq<Token> },
    Use { lead: Option<Seq<char>>, tokens: Seq<Token> },
    Other { tokens: Seq<Token> },
}

pub open spec fn view_item(it: Item) -> ItemV
    decreases it,
{
    match it {
        Item::Module { head, name, content } => ItemV::Module {
            head: texts(head@),
            name: name@,
            content: match content {
                Some(v) => Some(view_seq(v@)),
                None => None,
            },
        },
        Item::ExternCrate { name, tokens } => ItemV::ExternCrate { name: name@, tokens: tokens@ },
        Item::Use { lead, tokens } => ItemV::Use {
            lead: match lead {
                Some(l) => Some(l@),
                None => None,
            },
            tokens: tokens@,
        },
        Item::Other { tokens } => ItemV::Other { tokens: tokens@ },
    }
}

pub open spec fn view_seq(s: Seq<Item>) -> Seq<ItemV>
    decreases s,
{
    if s.len() == 0 {
        Seq::empty()
    } else {
        view_seq(s.drop_last()).push(view_item(s.last()))
    }
}

pub proof fn lemma_view_seq_len(s: Seq<Item>)
    ensures
        view_seq(s).len() == s.len(),
        forall|i: int| 0 <= i < s.len() ==> #[trigger] view_seq(s)[i] == view_item(s[i]),
    decreases s.len(),
{
    if s.len() > 0 {
        lemma_view_seq_len(s.drop_last());
    }
}

/// Sequences of equal length whose items have equal views have equal views.
pub proof fn lemma_view_seq_eq(a: Seq<Item>, b: Seq<Item>)
    requires
        a.len() == b.len(),
        forall|i: int| 0 <= i < a.len() ==> view_item(#[trigger] a[i]) == view_item(b[i]),
    ensures
        view_seq(a) == view_seq(b),
{
    lemma_view_seq_len(a);
    lemma_view_seq_len(b);
    assert(view_seq(a) =~= view_seq(b));
}

pub proof fn lemma_view_seq_front(s: Seq<Item>)
    requires
        s.len() > 0,
    ensures
        view_seq(s)[0] == view_item(s[0]),
        view_seq(s).subrange(1, s.len() as int) == view_seq(s.subrange(1, s.len() as int)),
        view_seq(s).len() == s.len(),
{
    lemma_view_seq_len(s);
    lemma_view_seq_len(s.subrange(1, s.len() as int));
    assert(view_seq(s).subrange(1, s.len() as int) =~= view_seq(s.subrange(1, s.len() as int)));
}

pub proof fn lemma_view_seq_add(a: Seq<Item>, b: Seq<Item>)
    ensures
        view_seq(a + b) == view_seq(a) + view_seq(b),
{
    lemma_view_seq_len(a);
    lemma_view_seq_len(b);
    lemma_view_seq_len(a + b);
    assert(view_seq(a + b) =~= view_seq(a) + view_seq(b));
}

pub proof fn lemma_view_seq_push(s: Seq<Item>, it: Item)
    ensures
        view_seq(s.push(it)) == view_seq(s).push(view_item(it)),
{
    assert(s.push(it).drop_last() =~= s);
}

} // verus!
