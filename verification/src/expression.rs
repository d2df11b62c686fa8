//! Expression trees: the syntax that every descriptor is written in.
//!
//! A node is a name, optionally followed by a parenthesised list of nodes
//! separated by commas: `name`, `name()` or `name(node,node,...)`. A name is
//! a non-empty run of characters other than `(`, `)` and `,`. Nothing here
//! knows what a name means.

use vstd::prelude::*;
use vstd::slice::slice_subrange;

use crate::error::Error;
use crate::text::{from_chars, to_chars};

verus! {

/// A node of an expression: its name and its arguments, in order.
#[derive(Debug, PartialEq, Eq)]
pub struct Tree {
    pub name: String,
    pub args: Vec<Tree>,
}

/// The mathematical value of a `Tree`.
pub struct TreeView {
    pub name: Seq<char>,
    pub args: Seq<TreeView>,
}

impl View for Tree {
    type V = TreeView;

    open spec fn view(&self) -> TreeView
        decreases self,
    {
        TreeView {
            name: self.name@,
            args: Seq::new(
                self.args@.len(),
                |i: int|
                    if 0 <= i < self.args@.len() {
                        self.args@[i]@
                    } else {
                        arbitrary()
                    },
            ),
        }
    }
}

/// The views of a sequence of trees.
pub open spec fn trees_view(trees: Seq<Tree>) -> Seq<TreeView> {
    Seq::new(trees.len(), |i: int| trees[i]@)
}

/// The arguments of a tree's view are the views of its arguments.
pub proof fn lemma_view_args(tree: Tree)
    ensures
        tree@.name == tree.name@,
        tree@.args == trees_view(tree.args@),
{
    reveal_with_fuel(<Tree as View>::view, 2);
    assert(tree@.args =~= trees_view(tree.args@));
}

/// The characters that end a name.
pub open spec fn is_delimiter(c: char) -> bool {
    c == '(' || c == ')' || c == ','
}

/// A name as the parser reads one: not empty, and free of delimiters.
pub open spec fn valid_name(name: Seq<char>) -> bool {
    &&& name.len() > 0
    &&& forall|i: int| 0 <= i < name.len() ==> !is_delimiter(#[trigger] name[i])
}

/// The grammar: whether `s` is a text of `tree`. A node without arguments is
/// written as its name, or as its name and `()`; one with arguments as its
/// name and, between parentheses, the texts of its arguments.
pub open spec fn spells(s: Seq<char>, tree: TreeView) -> bool
    decreases tree, 0nat,
{
    let n = tree.name.len() as int;
    &&& valid_name(tree.name)
    &&& if tree.args.len() == 0 {
        s == tree.name || s == tree.name + seq!['(', ')']
    } else {
        &&& s.len() >= n + 2
        &&& s.take(n) == tree.name
        &&& s[n] == '('
        &&& s.last() == ')'
        &&& spells_args(s.subrange(n + 1, s.len() - 1), tree.args)
    }
}

/// Whether `s` is a text of the one or more trees `args`: texts of each,
/// in order, with a `,` between one and the next.
pub open spec fn spells_args(s: Seq<char>, args: Seq<TreeView>) -> bool
    decreases args, 1nat,
{
    if args.len() == 0 {
        false
    } else if args.len() == 1 {
        spells(s, args[0])
    } else {
        exists|k: int|
            0 <= k < s.len() && s[k] == ',' && spells(#[trigger] s.take(k), args[0])
                && spells_args(s.skip(k + 1), args.drop_first())
    }
}

/// A tree whose names, at every node, are valid.
pub open spec fn well_formed(tree: TreeView) -> bool
    decreases tree,
{
    &&& valid_name(tree.name)
    &&& forall|i: int| 0 <= i < tree.args.len() ==> well_formed(#[trigger] tree.args[i])
}

/// The text of a tree: its name, and where it has arguments, their texts
/// between parentheses, separated by commas.
pub open spec fn render(tree: TreeView) -> Seq<char>
    decreases tree, 0nat,
{
    if tree.args.len() == 0 {
        tree.name
    } else {
        tree.name + seq!['('] + render_args(tree.args) + seq![')']
    }
}

/// The texts of `args`, separated by commas.
pub open spec fn render_args(args: Seq<TreeView>) -> Seq<char>
    decreases args, 1nat,
{
    if args.len() == 0 {
        Seq::empty()
    } else if args.len() == 1 {
        render(args[0])
    } else {
        render(args[0]) + seq![','] + render_args(args.drop_first())
    }
}

/// The length of the name at the start of `s`: the characters before the
/// first delimiter.
pub open spec fn name_len(s: Seq<char>) -> nat
    decreases s.len(),
{
    if s.len() == 0 || is_delimiter(s[0]) {
        0
    } else {
        1 + name_len(s.drop_first())
    }
}

/// Reads one node from the start of `s` and returns it with the text that
/// follows it, or nothing where `s` does not start with a node.
pub open spec fn parse_node(s: Seq<char>) -> Option<(TreeView, Seq<char>)>
    decreases s.len(), 0nat,
{
    let n = name_len(s);
    let name = s.take(n as int);
    let rest = s.skip(n as int);
    if n == 0 || n > s.len() {
        None
    } else if rest.len() > 0 && rest[0] == '(' {
        let inner = rest.drop_first();
        if inner.len() > 0 && inner[0] == ')' {
            Some((TreeView { name, args: Seq::empty() }, inner.drop_first()))
        } else {
            match parse_args(inner) {
                Some((args, after)) => Some((TreeView { name, args }, after)),
                None => None,
            }
        }
    } else {
        Some((TreeView { name, args: Seq::empty() }, rest))
    }
}

/// Reads one or more nodes separated by commas and the `)` that closes
/// them, and returns the nodes with the text after the `)`.
pub open spec fn parse_args(s: Seq<char>) -> Option<(Seq<TreeView>, Seq<char>)>
    decreases s.len(), 1nat,
{
    match parse_node(s) {
        None => None,
        Some((first, rest)) => {
            if rest.len() == 0 || rest.len() > s.len() {
                None
            } else if rest[0] == ')' {
                Some((seq![first], rest.drop_first()))
            } else if rest[0] == ',' {
                match parse_args(rest.drop_first()) {
                    Some((more, after)) => Some((seq![first] + more, after)),
                    None => None,
                }
            } else {
                None
            }
        },
    }
}

/// The tree that `s` is the text of: one node with nothing after it.
pub open spec fn parse_tree(s: Seq<char>) -> Option<TreeView> {
    match parse_node(s) {
        Some((tree, rest)) => if rest.len() == 0 {
            Some(tree)
        } else {
            None
        },
        None => None,
    }
}

/// Whether a node can end before `rest`: at the end of the text, or before
/// a `,` or a `)`.
pub open spec fn ends_node(rest: Seq<char>) -> bool {
    rest.len() == 0 || rest[0] == ')' || rest[0] == ','
}

/// A valid name is read whole where the end of the text or a delimiter
/// follows it.
pub proof fn lemma_name_len_of_name(name: Seq<char>, rest: Seq<char>)
    requires
        forall|i: int| 0 <= i < name.len() ==> !is_delimiter(#[trigger] name[i]),
        rest.len() == 0 || is_delimiter(rest[0]),
    ensures
        name_len(name + rest) == name.len(),
    decreases name.len(),
{
    let s = name + rest;
    if name.len() == 0 {
        assert(s =~= rest);
    } else {
        assert(s[0] == name[0]);
        assert(s.drop_first() =~= name.drop_first() + rest);
        assert forall|i: int| 0 <= i < name.drop_first().len() implies !is_delimiter(
            #[trigger] name.drop_first()[i],
        ) by {
            assert(name.drop_first()[i] == name[i + 1]);
        }
        lemma_name_len_of_name(name.drop_first(), rest);
    }
}

/// The name at the start of a text lies within the text, holds no
/// delimiter, and ends at the end of the text or before a delimiter.
pub proof fn lemma_name_len_bounds(s: Seq<char>)
    ensures
        name_len(s) <= s.len(),
        forall|i: int| 0 <= i < name_len(s) ==> !is_delimiter(#[trigger] s[i]),
        name_len(s) < s.len() ==> is_delimiter(s[name_len(s) as int]),
    decreases s.len(),
{
    if s.len() == 0 || is_delimiter(s[0]) {
    } else {
        let t = s.drop_first();
        lemma_name_len_bounds(t);
        assert forall|i: int| 0 <= i < name_len(s) implies !is_delimiter(#[trigger] s[i]) by {
            if i > 0 {
                assert(s[i] == t[i - 1]);
            }
        }
        if name_len(s) < s.len() {
            assert(s[name_len(s) as int] == t[name_len(t) as int]);
        }
    }
}

/// A text of a tree starts with a character of its name.
pub proof fn lemma_spelled_starts_with_name(s: Seq<char>, tree: TreeView)
    requires
        spells(s, tree),
    ensures
        s.len() > 0,
        !is_delimiter(s[0]),
{
    assert(!is_delimiter(tree.name[0]));
    if tree.args.len() == 0 {
        if s != tree.name {
            assert((tree.name + seq!['(', ')'])[0] == tree.name[0]);
        }
    } else {
        assert(s.take(tree.name.len() as int)[0] == s[0]);
    }
}

/// A text of one or more trees starts with a character of the first one's
/// name.
pub proof fn lemma_spelled_args_start_with_name(s: Seq<char>, args: Seq<TreeView>)
    requires
        spells_args(s, args),
    ensures
        s.len() > 0,
        !is_delimiter(s[0]),
{
    if args.len() == 1 {
        lemma_spelled_starts_with_name(s, args[0]);
    } else {
        let k = choose|k: int|
            0 <= k < s.len() && s[k] == ',' && spells(#[trigger] s.take(k), args[0])
                && spells_args(s.skip(k + 1), args.drop_first());
        lemma_spelled_starts_with_name(s.take(k), args[0]);
        assert(s.take(k)[0] == s[0]);
    }
}

/// Reading a text of a tree gives the tree, and leaves what follows the
/// text.
pub proof fn lemma_spelled_node_parses(s: Seq<char>, tree: TreeView, rest: Seq<char>)
    requires
        spells(s, tree),
        ends_node(rest),
    ensures
        parse_node(s + rest) == Some((tree, rest)),
    decreases tree, 0nat,
{
    let text = s + rest;
    let n = tree.name.len() as int;
    if tree.args.len() == 0 {
        assert(tree.args =~= Seq::<TreeView>::empty());
        if s == tree.name {
            lemma_name_len_of_name(tree.name, rest);
            assert(text.take(n) =~= tree.name);
            assert(text.skip(n) =~= rest);
        } else {
            let tail = seq!['(', ')'] + rest;
            assert(text =~= tree.name + tail);
            lemma_name_len_of_name(tree.name, tail);
            assert(text.take(n) =~= tree.name);
            assert(text.skip(n) =~= tail);
            assert(tail.drop_first() =~= seq![')'] + rest);
            assert(tail.drop_first().drop_first() =~= rest);
        }
    } else {
        let mid = s.subrange(n + 1, s.len() - 1);
        let inner = mid + seq![')'] + rest;
        let tail = seq!['('] + inner;
        assert(s =~= s.take(n) + seq!['('] + mid + seq![')']);
        assert(text =~= tree.name + tail);
        lemma_name_len_of_name(tree.name, tail);
        assert(text.take(n) =~= tree.name);
        assert(text.skip(n) =~= tail);
        assert(tail.drop_first() =~= inner);
        lemma_spelled_args_start_with_name(mid, tree.args);
        assert(inner[0] == mid[0]);
        lemma_spelled_args_parse(mid, tree.args, rest);
    }
}

/// Reading a text of one or more trees and the `)` after it gives the
/// trees, and leaves what follows the `)`.
pub proof fn lemma_spelled_args_parse(s: Seq<char>, args: Seq<TreeView>, rest: Seq<char>)
    requires
        spells_args(s, args),
    ensures
        parse_args(s + seq![')'] + rest) == Some((args, rest)),
    decreases args, 1nat,
{
    let text = s + seq![')'] + rest;
    let first = args[0];
    if args.len() == 1 {
        let after = seq![')'] + rest;
        assert(text =~= s + after);
        lemma_spelled_node_parses(s, first, after);
        assert(after.drop_first() =~= rest);
        assert(seq![first] =~= args);
    } else {
        let k = choose|k: int|
            0 <= k < s.len() && s[k] == ',' && spells(#[trigger] s.take(k), args[0])
                && spells_args(s.skip(k + 1), args.drop_first());
        let others = args.drop_first();
        let after = seq![','] + (s.skip(k + 1) + seq![')'] + rest);
        assert(text =~= s.take(k) + after);
        lemma_spelled_node_parses(s.take(k), first, after);
        assert(after.drop_first() =~= s.skip(k + 1) + seq![')'] + rest);
        lemma_spelled_args_parse(s.skip(k + 1), others, rest);
        assert(seq![first] + others =~= args);
    }
}

/// What the parser reads at the start of a text is a tree that the text
/// before the rest is a text of.
pub proof fn lemma_parsed_node_spelled(s: Seq<char>)
    requires
        parse_node(s) is Some,
    ensures
        ({
            let (tree, rest) = parse_node(s)->Some_0;
            &&& rest.len() < s.len()
            &&& s.skip(s.len() - rest.len()) == rest
            &&& spells(s.take(s.len() - rest.len()), tree)
        }),
    decreases s.len(), 0nat,
{
    let (tree, rest) = parse_node(s)->Some_0;
    let n = name_len(s) as int;
    lemma_name_len_bounds(s);
    let name = s.take(n);
    let rest0 = s.skip(n);
    assert(valid_name(name));
    if rest0.len() > 0 && rest0[0] == '(' {
        let inner = rest0.drop_first();
        assert(inner =~= s.skip(n + 1));
        if inner.len() > 0 && inner[0] == ')' {
            assert(rest =~= s.skip(n + 2));
            assert(s.take(n + 2) =~= name + seq!['(', ')']);
        } else {
            lemma_parsed_args_spelled(inner);
            let (args, after) = parse_args(inner)->Some_0;
            let m = inner.len() - after.len() - 1;
            let mid = inner.take(m);
            let p = s.take(s.len() - after.len());
            assert(after == rest);
            assert(s.skip(s.len() - rest.len()) =~= inner.skip(inner.len() - after.len()));
            assert(p.take(n) =~= name);
            assert(p[n] == '(');
            assert(p.last() == inner[m]);
            assert(p.subrange(n + 1, p.len() - 1) =~= mid);
        }
    } else {
        assert(rest == rest0);
        assert(s.skip(s.len() - rest.len()) =~= rest);
        assert(s.take(s.len() - rest.len()) =~= name);
    }
}

/// What the parser reads as arguments are one or more trees that the text
/// before the closing `)` is a text of.
pub proof fn lemma_parsed_args_spelled(s: Seq<char>)
    requires
        parse_args(s) is Some,
    ensures
        ({
            let (args, rest) = parse_args(s)->Some_0;
            let m = s.len() - rest.len() - 1;
            &&& rest.len() < s.len()
            &&& s.skip(s.len() - rest.len()) == rest
            &&& s[m] == ')'
            &&& spells_args(s.take(m), args)
        }),
    decreases s.len(), 1nat,
{
    let (args, rest) = parse_args(s)->Some_0;
    lemma_parsed_node_spelled(s);
    let (first, rest1) = parse_node(s)->Some_0;
    let k = s.len() - rest1.len();
    let p1 = s.take(k);
    assert(rest1[0] == s[k]);
    assert(rest1.drop_first() =~= s.skip(k + 1));
    if rest1[0] == ')' {
        assert(args =~= seq![first]);
        assert(s.skip(s.len() - rest.len()) =~= rest);
    } else {
        let tail = rest1.drop_first();
        lemma_parsed_args_spelled(tail);
        let (more, after) = parse_args(tail)->Some_0;
        let m2 = tail.len() - after.len() - 1;
        let mid2 = tail.take(m2);
        let m = s.len() - rest.len() - 1;
        let mid = s.take(m);
        assert(rest == after);
        assert(args =~= seq![first] + more);
        assert(s.skip(s.len() - rest.len()) =~= tail.skip(tail.len() - after.len()));
        assert(s[m] == tail[m2]);
        assert(mid[k] == ',');
        assert(mid.take(k) =~= p1);
        assert(mid.skip(k + 1) =~= mid2);
        assert(args.drop_first() =~= more);
        assert(more.len() >= 1) by {
            if more.len() == 0 {
                assert(!spells_args(mid2, more));
            }
        }
    }
}

/// The parser reads exactly the grammar: a text is parsed as a tree if and
/// only if it is a text of that tree.
pub proof fn lemma_parse_tree_is_grammar(s: Seq<char>, tree: TreeView)
    ensures
        parse_tree(s) == Some(tree) <==> spells(s, tree),
{
    if spells(s, tree) {
        lemma_spelled_node_parses(s, tree, Seq::empty());
        assert(s + Seq::<char>::empty() =~= s);
    }
    if parse_tree(s) == Some(tree) {
        lemma_parsed_node_spelled(s);
        assert(s.take(s.len() as int) =~= s);
    }
}

/// The text that `render` gives for a well-formed tree is a text of it.
pub proof fn lemma_render_spells(tree: TreeView)
    requires
        well_formed(tree),
    ensures
        spells(render(tree), tree),
    decreases tree, 0nat,
{
    if tree.args.len() > 0 {
        let s = render(tree);
        let n = tree.name.len() as int;
        lemma_render_args_spell(tree.args);
        assert(s.take(n) =~= tree.name);
        assert(s.subrange(n + 1, s.len() - 1) =~= render_args(tree.args));
    }
}

/// The text that `render_args` gives for well-formed trees is a text of
/// them.
pub proof fn lemma_render_args_spell(args: Seq<TreeView>)
    requires
        args.len() > 0,
        forall|i: int| 0 <= i < args.len() ==> well_formed(#[trigger] args[i]),
    ensures
        spells_args(render_args(args), args),
    decreases args, 1nat,
{
    lemma_render_spells(args[0]);
    if args.len() > 1 {
        let s = render_args(args);
        let others = args.drop_first();
        let k = render(args[0]).len() as int;
        assert forall|i: int| 0 <= i < others.len() implies well_formed(#[trigger] others[i]) by {
            assert(others[i] == args[i + 1]);
        }
        lemma_render_args_spell(others);
        assert(s.take(k) =~= render(args[0]));
        assert(s.skip(k + 1) =~= render_args(others));
        assert(s[k] == ',');
    }
}

/// Parsing the text of a well-formed tree gives the tree back.
pub proof fn lemma_parse_render(tree: TreeView)
    requires
        well_formed(tree),
    ensures
        parse_tree(render(tree)) == Some(tree),
{
    lemma_render_spells(tree);
    lemma_parse_tree_is_grammar(render(tree), tree);
}

/// What `parse_args` gives when the nodes in `done` stand before the text
/// that `rest` is the result for.
pub open spec fn prepend_args(
    done: Seq<TreeView>,
    rest: Option<(Seq<TreeView>, Seq<char>)>,
) -> Option<(Seq<TreeView>, Seq<char>)> {
    match rest {
        Some((more, after)) => Some((done + more, after)),
        None => None,
    }
}

/// The node whose name is `name` and whose arguments and following text are
/// the result `args` of `parse_args`.
pub open spec fn node_of_args(
    name: Seq<char>,
    args: Option<(Seq<TreeView>, Seq<char>)>,
) -> Option<(TreeView, Seq<char>)> {
    match args {
        Some((args, after)) => Some((TreeView { name, args }, after)),
        None => None,
    }
}

/// The name at `s` grows by one character with each character that is no
/// delimiter.
proof fn lemma_name_len_skip(s: Seq<char>, i: int)
    requires
        0 <= i < s.len(),
        !is_delimiter(s[i]),
    ensures
        name_len(s.skip(i)) == 1 + name_len(s.skip(i + 1)),
{
    assert(s.skip(i).drop_first() == s.skip(i + 1));
}

/// At the end of the text and at a delimiter the name is empty.
proof fn lemma_name_len_at_end(s: Seq<char>, i: int)
    requires
        0 <= i <= s.len(),
        i < s.len() ==> is_delimiter(s[i]),
    ensures
        name_len(s.skip(i)) == 0,
{
    if i < s.len() {
        assert(s.skip(i)[0] == s[i]);
    }
}

/// Finds the end of the name that starts at `pos`.
fn name_end(text: &[char], pos: usize) -> (end: usize)
    requires
        pos <= text.len(),
    ensures
        pos <= end <= text.len(),
        end - pos == name_len(text@.skip(pos as int)),
{
    let mut i: usize = pos;
    while i < text.len() && !(text[i] == '(' || text[i] == ')' || text[i] == ',')
        invariant
            pos <= i <= text.len(),
            name_len(text@.skip(pos as int)) == (i - pos) + name_len(text@.skip(i as int)),
        decreases text.len() - i,
    {
        proof {
            lemma_name_len_skip(text@, i as int);
        }
        i += 1;
    }
    proof {
        lemma_name_len_at_end(text@, i as int);
    }
    i
}

/// Reads the node that starts at `pos` and returns it with the position
/// after it.
fn parse_node_at(text: &[char], pos: usize) -> (r: Option<(Tree, usize)>)
    requires
        pos <= text.len(),
    ensures
        match r {
            Some((tree, end)) => pos < end <= text.len() && parse_node(text@.skip(pos as int))
                == Some((tree@, text@.skip(end as int))),
            None => parse_node(text@.skip(pos as int)) is None,
        },
    decreases text.len() - pos,
{
    let ghost s = text@.skip(pos as int);
    let end = name_end(text, pos);
    if end == pos {
        return None;
    }
    let name = from_chars(slice_subrange(text, pos, end));
    proof {
        assert(s.take((end - pos) as int) =~= text@.subrange(pos as int, end as int));
        assert(s.skip((end - pos) as int) =~= text@.skip(end as int));
        if end < text.len() {
            assert(text@.skip(end as int)[0] == text@[end as int]);
            assert(text@.skip(end as int).drop_first() =~= text@.skip(end as int + 1));
        }
    }
    if end < text.len() && text[end] == '(' {
        if end + 1 < text.len() && text[end + 1] == ')' {
            proof {
                assert(text@.skip(end as int + 1)[0] == text@[end as int + 1]);
                assert(text@.skip(end as int + 1).drop_first() =~= text@.skip(end as int + 2));
            }
            let tree = Tree::new(name, Vec::new());
            assert(tree@.args =~= Seq::<TreeView>::empty());
            return Some((tree, end + 2));
        }
        let mut args: Vec<Tree> = Vec::new();
        let mut cur: usize = end + 1;
        let ghost inner = text@.skip(end as int + 1);
        assert(prepend_args(Seq::empty(), parse_args(inner)) == parse_args(inner)) by {
            match parse_args(inner) {
                Some((more, after)) => {
                    assert(Seq::<TreeView>::empty() + more =~= more);
                },
                None => {},
            }
        }
        assert(parse_node(s) == node_of_args(name@, parse_args(inner)));
        loop
            invariant
                end < cur <= text.len(),
                pos < end,
                s == text@.skip(pos as int),
                inner == text@.skip(end as int + 1),
                parse_node(s) == node_of_args(name@, parse_args(inner)),
                parse_args(inner) == prepend_args(
                    trees_view(args@),
                    parse_args(text@.skip(cur as int)),
                ),
            decreases text.len() - cur,
        {
            match parse_node_at(text, cur) {
                None => {
                    return None;
                },
                Some((arg, after)) => {
                    let ghost before = trees_view(args@);
                    args.push(arg);
                    assert(trees_view(args@) =~= before + seq![arg@]);
                    if after >= text.len() {
                        return None;
                    }
                    proof {
                        assert(text@.skip(after as int)[0] == text@[after as int]);
                        assert(text@.skip(after as int).drop_first() =~= text@.skip(
                            after as int + 1,
                        ));
                    }
                    if text[after] == ')' {
                        let tree = Tree::new(name, args);
                        return Some((tree, after + 1));
                    } else if text[after] == ',' {
                        proof {
                            match parse_args(text@.skip(after as int + 1)) {
                                Some((more, rest)) => {
                                    assert(before + (seq![arg@] + more) =~= (before + seq![
                                        arg@,
                                    ]) + more);
                                },
                                None => {},
                            }
                        }
                        cur = after + 1;
                    } else {
                        return None;
                    }
                },
            }
        }
    } else {
        let tree = Tree::new(name, Vec::new());
        assert(tree@.args =~= Seq::<TreeView>::empty());
        Some((tree, end))
    }
}

impl Clone for Tree {
    /// A copy of the tree.
    fn clone(&self) -> (r: Tree)
        ensures
            r@ == self@,
        decreases self,
    {
        let mut args: Vec<Tree> = Vec::new();
        let mut i: usize = 0;
        while i < self.args.len()
            invariant
                i <= self.args.len(),
                args@.len() == i,
                forall|k: int| 0 <= k < i ==> args@[k]@ == self.args@[k]@,
            decreases self.args.len() - i,
        {
            args.push(self.args[i].clone());
            i += 1;
        }
        proof {
            lemma_view_args(*self);
            assert(trees_view(args@) =~= trees_view(self.args@));
        }
        Tree::new(self.name.clone(), args)
    }
}

impl Tree {
    /// The node with the given name and arguments.
    pub fn new(name: String, args: Vec<Tree>) -> (tree: Tree)
        ensures
            tree.name == name,
            tree.args == args,
            tree@ == (TreeView { name: name@, args: trees_view(args@) }),
    {
        let tree = Tree { name, args };
        proof {
            lemma_view_args(tree);
        }
        tree
    }

    /// Parses a whole text as one expression: succeeds on the texts of the
    /// grammar, and on no other.
    pub fn from_str(s: &str) -> (r: Result<Tree, Error>)
        ensures
            match r {
                Ok(tree) => spells(s@, tree@) && parse_tree(s@) == Some(tree@),
                Err(e) => e == Error::Parse && parse_tree(s@) is None && forall|t: TreeView|
                    !#[trigger] spells(s@, t),
            },
    {
        let chars = to_chars(s);
        Tree::from_chars(chars.as_slice())
    }

    /// Parses a whole text, given as characters, as one expression.
    pub fn from_chars(text: &[char]) -> (r: Result<Tree, Error>)
        ensures
            match r {
                Ok(tree) => spells(text@, tree@) && parse_tree(text@) == Some(tree@),
                Err(e) => e == Error::Parse && parse_tree(text@) is None && forall|t: TreeView|
                    !#[trigger] spells(text@, t),
            },
    {
        assert(text@.skip(0) =~= text@);
        proof {
            assert forall|t: TreeView| #[trigger]
                spells(text@, t) == (parse_tree(text@) == Some(t)) by {
                lemma_parse_tree_is_grammar(text@, t);
            }
        }
        match parse_node_at(text, 0) {
            Some((tree, end)) => {
                if end == text.len() {
                    Ok(tree)
                } else {
                    Err(Error::Parse)
                }
            },
            None => Err(Error::Parse),
        }
    }
}

} // verus!
