//! The directory tree model, the depth-first walk with hidden-entry
//! pruning, and the query functions that combine the walk with the match
//! predicate.

use vstd::prelude::*;
use crate::args::Argument;
use crate::matching::do_search_item;
use crate::matching::match_spec;
use crate::text::chars_of;
use crate::text::contains_chars;
use crate::text::contains_seq;

verus! {

/// One filesystem object as the walk yields it: its full path, its final
/// name component, and whether it is a directory.
pub struct Entry {
    pub path: String,
    pub name: String,
    pub is_dir: bool,
}

/// The mathematical model of an [`Entry`]: the same three components with
/// the strings taken as character sequences.
pub ghost struct EntryV {
    pub path: Seq<char>,
    pub name: Seq<char>,
    pub is_dir: bool,
}

impl View for Entry {
    type V = EntryV;

    open spec fn view(&self) -> EntryV {
        EntryV { path: self.path@, name: self.name@, is_dir: self.is_dir }
    }
}

impl DeepView for Entry {
    type V = EntryV;

    open spec fn deep_view(&self) -> EntryV {
        self.view()
    }
}

/// A directory tree held as a plain value: every node carries the path and
/// name the walk would report for it, and its children in the order the
/// filesystem iteration produced them.
pub struct TreeNode {
    pub path: String,
    pub name: String,
    pub is_dir: bool,
    pub children: Vec<TreeNode>,
}

/// The mathematical model of a [`TreeNode`].
#[verifier::ext_equal]
pub ghost struct TreeV {
    pub path: Seq<char>,
    pub name: Seq<char>,
    pub is_dir: bool,
    pub children: Seq<TreeV>,
}

/// The model a [`TreeNode`] stands for.
pub open spec fn tree_view(t: TreeNode) -> TreeV
    decreases t,
{
    TreeV {
        path: t.path@,
        name: t.name@,
        is_dir: t.is_dir,
        children: Seq::new(
            t.children@.len(),
            |i: int|
                if 0 <= i < t.children@.len() {
                    tree_view(t.children@[i])
                } else {
                    arbitrary()
                },
        ),
    }
}

impl View for TreeNode {
    type V = TreeV;

    open spec fn view(&self) -> TreeV {
        tree_view(*self)
    }
}

/// A name marks its entry as hidden when it begins with the `.` convention
/// character.  A platform's native hidden-attribute bit would be folded in
/// here where one exists; on platforms without one, the name convention is
/// the whole visibility policy.
pub open spec fn hidden_name(name: Seq<char>) -> bool {
    name.len() > 0 && name[0] == '.'
}

/// The entry a node contributes to the walk.
pub open spec fn entry_of(t: TreeV) -> EntryV {
    EntryV { path: t.path, name: t.name, is_dir: t.is_dir }
}

/// The sequence of entries a depth-first pre-order walk of `t` yields.
/// The root itself is always yielded, whatever its name: only descent is
/// subject to the visibility policy.  When `prune` is set, a child with a
/// hidden name is skipped together with its whole subtree.
pub open spec fn walk_spec(t: TreeV, prune: bool) -> Seq<EntryV>
    decreases t, 1nat,
{
    seq![entry_of(t)] + walk_children_spec(t.children, prune)
}

/// The entries the walk yields for a sequence of sibling subtrees.
pub open spec fn walk_children_spec(cs: Seq<TreeV>, prune: bool) -> Seq<EntryV>
    decreases cs, 0nat,
{
    if cs.len() == 0 {
        Seq::empty()
    } else {
        let head = if prune && hidden_name(cs[0].name) {
            Seq::<EntryV>::empty()
        } else {
            walk_spec(cs[0], prune)
        };
        head + walk_children_spec(cs.skip(1), prune)
    }
}

/// What one subtree contributes to a walk of its parent: nothing when it
/// is pruned away, its own walk otherwise.
pub open spec fn child_contribution(c: TreeV, prune: bool) -> Seq<EntryV> {
    if prune && hidden_name(c.name) {
        Seq::<EntryV>::empty()
    } else {
        walk_spec(c, prune)
    }
}

/// Extending a sibling sequence by one subtree appends that subtree's
/// contribution to the walk.
pub proof fn lemma_walk_children_push(cs: Seq<TreeV>, c: TreeV, prune: bool)
    ensures
        walk_children_spec(cs.push(c), prune) == walk_children_spec(cs, prune)
            + child_contribution(c, prune),
    decreases cs.len(),
{
    if cs.len() == 0 {
        assert(cs.push(c)[0] == c);
        assert(cs.push(c).skip(1) =~= Seq::<TreeV>::empty());
        assert(walk_children_spec(cs.push(c).skip(1), prune) == Seq::<EntryV>::empty());
        assert(walk_children_spec(cs.push(c), prune) == child_contribution(c, prune)
            + Seq::<EntryV>::empty());
        assert(walk_children_spec(cs.push(c), prune) =~= walk_children_spec(cs, prune)
            + child_contribution(c, prune));
    } else {
        lemma_walk_children_push(cs.skip(1), c, prune);
        assert(cs.push(c)[0] == cs[0]);
        assert(cs.push(c).skip(1) =~= cs.skip(1).push(c));
        assert(walk_children_spec(cs.push(c), prune) =~= walk_children_spec(cs, prune)
            + child_contribution(c, prune));
    }
}

/// Checks whether a name marks its entry as hidden.
pub fn is_hidden_name(name: &String) -> (r: bool)
    ensures
        r == hidden_name(name@),
{
    let s = name.as_str();
    s.unicode_len() > 0 && s.get_char(0) == '.'
}

/// Walks the tree depth-first, yielding the root and then each visible
/// subtree's entries in order; when `prune_hidden` is set, children with
/// hidden names are skipped together with their subtrees.
pub fn walk(t: &TreeNode, prune_hidden: bool) -> (r: Vec<Entry>)
    ensures
        r.deep_view() == walk_spec(t@, prune_hidden),
    decreases *t,
{
    let mut r: Vec<Entry> = Vec::new();
    r.push(Entry { path: t.path.clone(), name: t.name.clone(), is_dir: t.is_dir });
    proof {
        assert(r.deep_view() =~~= seq![entry_of(t@)] + walk_children_spec(
            t@.children.take(0),
            prune_hidden,
        ));
    }
    let mut i: usize = 0;
    while i < t.children.len()
        invariant
            i <= t.children@.len(),
            t@.children.len() == t.children@.len(),
            r.deep_view() == seq![entry_of(t@)] + walk_children_spec(
                t@.children.take(i as int),
                prune_hidden,
            ),
        decreases t.children@.len() - i,
    {
        let c = &t.children[i];
        let ghost r0 = r.deep_view();
        if !(prune_hidden && is_hidden_name(&c.name)) {
            proof {
                assert(decreases_to!(*t => t.children@[i as int]));
            }
            let mut sub = walk(c, prune_hidden);
            let ghost sub0 = sub.deep_view();
            r.append(&mut sub);
            proof {
                assert(r.deep_view() =~~= r0 + sub0);
            }
        }
        proof {
            assert(c@ == t@.children[i as int]);
            lemma_walk_children_push(t@.children.take(i as int), t@.children[i as int],
                prune_hidden);
            assert(t@.children.take(i + 1 as int) =~= t@.children.take(i as int).push(
                t@.children[i as int],
            ));
            assert(r.deep_view() =~~= seq![entry_of(t@)] + walk_children_spec(
                t@.children.take(i + 1 as int),
                prune_hidden,
            ));
        }
        i += 1;
    }
    proof {
        assert(t@.children.take(t.children@.len() as int) =~= t@.children);
    }
    r
}

/// The paths of the entries that satisfy `pred`, in walk order.
pub open spec fn selected_paths(es: Seq<EntryV>, pred: spec_fn(EntryV) -> bool) -> Seq<Seq<char>>
    decreases es.len(),
{
    if es.len() == 0 {
        Seq::empty()
    } else {
        let rest = selected_paths(es.skip(1), pred);
        if pred(es[0]) {
            seq![es[0].path] + rest
        } else {
            rest
        }
    }
}

/// Extending the entry sequence by one entry appends its path exactly
/// when it satisfies the predicate.
pub proof fn lemma_selected_paths_push(es: Seq<EntryV>, e: EntryV, pred: spec_fn(EntryV) -> bool)
    ensures
        selected_paths(es.push(e), pred) == selected_paths(es, pred) + (if pred(e) {
            seq![e.path]
        } else {
            Seq::<Seq<char>>::empty()
        }),
    decreases es.len(),
{
    let tail = if pred(e) {
        seq![e.path]
    } else {
        Seq::<Seq<char>>::empty()
    };
    if es.len() == 0 {
        assert(es.push(e)[0] == e);
        assert(es.push(e).skip(1) =~= Seq::<EntryV>::empty());
        assert(selected_paths(es.push(e).skip(1), pred) == Seq::<Seq<char>>::empty());
        assert(selected_paths(es.push(e), pred) =~~= selected_paths(es, pred) + tail);
    } else {
        lemma_selected_paths_push(es.skip(1), e, pred);
        assert(es.push(e)[0] == es[0]);
        assert(es.push(e).skip(1) =~= es.skip(1).push(e));
        assert(selected_paths(es.push(e), pred) =~~= selected_paths(es, pred) + tail);
    }
}

/// An entry of `es` that satisfies `pred` carries this path.
pub open spec fn path_has_source(es: Seq<EntryV>, pred: spec_fn(EntryV) -> bool, p: Seq<char>) -> bool {
    exists|k: int| 0 <= k < es.len() && #[trigger] pred(es[k]) && es[k].path == p
}

/// Every selected path is the path of an entry that satisfies the
/// predicate: nothing else can reach the result.
pub proof fn lemma_selected_paths_sources(es: Seq<EntryV>, pred: spec_fn(EntryV) -> bool)
    ensures
        forall|j: int|
            0 <= j < selected_paths(es, pred).len() ==> path_has_source(
                es,
                pred,
                #[trigger] selected_paths(es, pred)[j],
            ),
    decreases es.len(),
{
    if es.len() == 0 {
    } else {
        lemma_selected_paths_sources(es.skip(1), pred);
        let sel = selected_paths(es, pred);
        let rest = selected_paths(es.skip(1), pred);
        assert forall|j: int| 0 <= j < sel.len() implies path_has_source(
            es,
            pred,
            #[trigger] sel[j],
        ) by {
            if pred(es[0]) && j == 0 {
                assert(pred(es[0]) && es[0].path == sel[j]);
            } else {
                let jr = if pred(es[0]) {
                    j - 1
                } else {
                    j
                };
                assert(sel[j] == rest[jr]);
                assert(path_has_source(es.skip(1), pred, rest[jr]));
                let k = choose|k: int|
                    0 <= k < es.skip(1).len() && #[trigger] pred(es.skip(1)[k]) && es.skip(1)[k].path
                        == rest[jr];
                assert(es.skip(1)[k] == es[k + 1]);
                assert(pred(es[k + 1]) && es[k + 1].path == sel[j]);
            }
        }
    }
}

/// The paths `search` returns: the path of every entry of the walk that
/// satisfies the match predicate, in walk order; hidden entries are
/// pruned away unless the query asks for them.
pub open spec fn search_spec(t: TreeV, args: Argument) -> Seq<Seq<char>> {
    selected_paths(walk_spec(t, !args.search_hidden), |e: EntryV| match_spec(e, args))
}

/// Runs one query against the tree: walks it, pruning hidden subtrees
/// unless `search_hidden` is set, and collects the paths of the entries
/// the match predicate accepts, in walk order.
pub fn search(tree: &TreeNode, args: &Argument) -> (r: Vec<String>)
    ensures
        r.deep_view() == search_spec(tree@, *args),
{
    let entries = walk(tree, !args.search_hidden);
    let ghost es = entries.deep_view();
    let ghost pred = |e: EntryV| match_spec(e, *args);
    let mut r: Vec<String> = Vec::new();
    proof {
        assert(r.deep_view() =~~= selected_paths(es.take(0), pred));
    }
    let mut i: usize = 0;
    while i < entries.len()
        invariant
            i <= entries@.len(),
            es == entries.deep_view(),
            pred == (|e: EntryV| match_spec(e, *args)),
            r.deep_view() == selected_paths(es.take(i as int), pred),
        decreases entries@.len() - i,
    {
        let e = &entries[i];
        proof {
            assert(e@ == es[i as int]);
        }
        if do_search_item(e, args) {
            let ghost r0 = r.deep_view();
            r.push(e.path.clone());
            proof {
                assert(r.deep_view() =~~= r0.push(es[i as int].path));
            }
        }
        proof {
            lemma_selected_paths_push(es.take(i as int), es[i as int], pred);
            assert(es.take(i + 1 as int) =~= es.take(i as int).push(es[i as int]));
            assert(r.deep_view() =~~= selected_paths(es.take(i + 1 as int), pred));
        }
        i += 1;
    }
    proof {
        assert(es.take(entries@.len() as int) =~= es);
    }
    r
}

/// The paths `search_files` returns: the path of every entry of the
/// pruned walk whose name contains `target_name`, in walk order.
pub open spec fn search_files_spec(t: TreeV, target_name: Seq<char>) -> Seq<Seq<char>> {
    selected_paths(walk_spec(t, true), |e: EntryV| contains_seq(e.name, target_name))
}

/// The simple query: walks the tree with hidden entries always pruned and
/// collects the paths of the entries whose name contains `target_name`.
pub fn search_files(tree: &TreeNode, target_name: &str) -> (r: Vec<String>)
    ensures
        r.deep_view() == search_files_spec(tree@, target_name@),
{
    let entries = walk(tree, true);
    let ghost es = entries.deep_view();
    let ghost pred = |e: EntryV| contains_seq(e.name, target_name@);
    let needle = chars_of(target_name);
    let mut r: Vec<String> = Vec::new();
    proof {
        assert(r.deep_view() =~~= selected_paths(es.take(0), pred));
    }
    let mut i: usize = 0;
    while i < entries.len()
        invariant
            i <= entries@.len(),
            es == entries.deep_view(),
            needle@ == target_name@,
            pred == (|e: EntryV| contains_seq(e.name, target_name@)),
            r.deep_view() == selected_paths(es.take(i as int), pred),
        decreases entries@.len() - i,
    {
        let e = &entries[i];
        proof {
            assert(e@ == es[i as int]);
        }
        if contains_chars(&chars_of(e.name.as_str()), &needle) {
            let ghost r0 = r.deep_view();
            r.push(e.path.clone());
            proof {
                assert(r.deep_view() =~~= r0.push(es[i as int].path));
            }
        }
        proof {
            lemma_selected_paths_push(es.take(i as int), es[i as int], pred);
            assert(es.take(i + 1 as int) =~= es.take(i as int).push(es[i as int]));
            assert(r.deep_view() =~~= selected_paths(es.take(i + 1 as int), pred));
        }
        i += 1;
    }
    proof {
        assert(es.take(entries@.len() as int) =~= es);
    }
    r
}

/// The tree with every hidden-named subtree removed, at every depth; the
/// root is kept whatever its name.
pub open spec fn remove_hidden(t: TreeV) -> TreeV
    decreases t, 1nat,
{
    TreeV {
        path: t.path,
        name: t.name,
        is_dir: t.is_dir,
        children: remove_hidden_children(t.children),
    }
}

/// The visible subtrees among a sequence of siblings, each with its own
/// hidden subtrees removed.
pub open spec fn remove_hidden_children(cs: Seq<TreeV>) -> Seq<TreeV>
    decreases cs, 0nat,
{
    if cs.len() == 0 {
        Seq::empty()
    } else {
        let rest = remove_hidden_children(cs.skip(1));
        if hidden_name(cs[0].name) {
            rest
        } else {
            seq![remove_hidden(cs[0])] + rest
        }
    }
}

/// Pruning during the walk equals walking the tree from which every
/// hidden subtree has been removed: no entry from within a hidden
/// subtree can appear in a pruned walk.
pub proof fn lemma_pruned_walk_removes_hidden(t: TreeV)
    ensures
        walk_spec(t, true) == walk_spec(remove_hidden(t), false),
    decreases t, 1nat,
{
    lemma_pruned_walk_removes_hidden_children(t.children);
    assert(walk_spec(t, true) =~= walk_spec(remove_hidden(t), false));
}

/// The sibling-sequence half of the pruning argument.
pub proof fn lemma_pruned_walk_removes_hidden_children(cs: Seq<TreeV>)
    ensures
        walk_children_spec(cs, true) == walk_children_spec(remove_hidden_children(cs), false),
    decreases cs, 0nat,
{
    if cs.len() == 0 {
    } else {
        lemma_pruned_walk_removes_hidden_children(cs.skip(1));
        if hidden_name(cs[0].name) {
            assert(walk_children_spec(cs, true) =~= walk_children_spec(
                remove_hidden_children(cs),
                false,
            ));
        } else {
            lemma_pruned_walk_removes_hidden(cs[0]);
            let rs = remove_hidden_children(cs);
            assert(rs == seq![remove_hidden(cs[0])] + remove_hidden_children(cs.skip(1)));
            assert(rs[0] == remove_hidden(cs[0]));
            assert(rs.skip(1) =~= remove_hidden_children(cs.skip(1)));
            assert(walk_children_spec(cs, true) =~= walk_children_spec(rs, false));
        }
    }
}

/// The entry stands somewhere in the tree.
pub open spec fn in_tree(e: EntryV, t: TreeV) -> bool
    decreases t, 1nat,
{
    e == entry_of(t) || in_forest(e, t.children)
}

/// The entry stands somewhere in one of the subtrees.
pub open spec fn in_forest(e: EntryV, cs: Seq<TreeV>) -> bool
    decreases cs, 0nat,
{
    cs.len() > 0 && (in_tree(e, cs[0]) || in_forest(e, cs.skip(1)))
}

/// An unpruned walk is complete: it yields exactly the entries of the
/// tree, hidden ones included.
pub proof fn lemma_unpruned_walk_complete(t: TreeV)
    ensures
        forall|e: EntryV| #[trigger] walk_spec(t, false).contains(e) <==> in_tree(e, t),
    decreases t, 1nat,
{
    lemma_unpruned_forest_complete(t.children);
    assert forall|e: EntryV| #[trigger] walk_spec(t, false).contains(e) <==> in_tree(e, t) by {
        let w = walk_spec(t, false);
        if w.contains(e) {
            let j = choose|j: int| 0 <= j < w.len() && w[j] == e;
            if j == 0 {
                assert(e == entry_of(t));
            } else {
                assert(w[j] == walk_children_spec(t.children, false)[j - 1]);
                assert(walk_children_spec(t.children, false).contains(e));
            }
        }
        if in_tree(e, t) {
            if e == entry_of(t) {
                assert(w[0] == e);
                assert(w.contains(e));
            } else {
                let wc = walk_children_spec(t.children, false);
                assert(wc.contains(e));
                let j = choose|j: int| 0 <= j < wc.len() && wc[j] == e;
                assert(w[j + 1] == e);
                assert(w.contains(e));
            }
        }
    }
}

/// The sibling-sequence half of the completeness argument.
pub proof fn lemma_unpruned_forest_complete(cs: Seq<TreeV>)
    ensures
        forall|e: EntryV| #[trigger] walk_children_spec(cs, false).contains(e) <==> in_forest(
            e,
            cs,
        ),
    decreases cs, 0nat,
{
    if cs.len() == 0 {
    } else {
        lemma_unpruned_walk_complete(cs[0]);
        lemma_unpruned_forest_complete(cs.skip(1));
        assert forall|e: EntryV| #[trigger] walk_children_spec(cs, false).contains(e) <==> in_forest(
            e,
            cs,
        ) by {
            let w = walk_children_spec(cs, false);
            let head = walk_spec(cs[0], false);
            let rest = walk_children_spec(cs.skip(1), false);
            if w.contains(e) {
                let j = choose|j: int| 0 <= j < w.len() && w[j] == e;
                if j < head.len() {
                    assert(head[j] == e);
                    assert(head.contains(e));
                } else {
                    assert(rest[j - head.len()] == e);
                    assert(rest.contains(e));
                }
            }
            if in_forest(e, cs) {
                assert(w == head + rest);
                if in_tree(e, cs[0]) {
                    assert(head.contains(e));
                    let j = choose|j: int| 0 <= j < head.len() && head[j] == e;
                    assert(w[j] == e);
                    assert(w.contains(e));
                } else {
                    assert(rest.contains(e));
                    let j = choose|j: int| 0 <= j < rest.len() && rest[j] == e;
                    assert(w[head.len() + j] == e);
                    assert(w.contains(e));
                }
            }
        }
    }
}

/// The path belongs to some entry that the query's walk yields, that
/// matches, and that is not a directory.
pub open spec fn file_path_in_walk(t: TreeV, args: Argument, p: Seq<char>) -> bool {
    exists|e: EntryV| #[trigger] in_walk_as_file(e, t, args) && e.path == p
}

/// A file-only query returns no directory's path: every returned path is
/// the path of a non-directory entry of the walk.
pub proof fn lemma_file_only_excludes_directories(t: TreeV, args: Argument)
    requires
        args.file_only,
    ensures
        forall|j: int|
            0 <= j < search_spec(t, args).len() ==> file_path_in_walk(
                t,
                args,
                #[trigger] search_spec(t, args)[j],
            ),
{
    let es = walk_spec(t, !args.search_hidden);
    let pred = |e: EntryV| match_spec(e, args);
    lemma_selected_paths_sources(es, pred);
    assert forall|j: int| 0 <= j < search_spec(t, args).len() implies file_path_in_walk(
        t,
        args,
        #[trigger] search_spec(t, args)[j],
    ) by {
        assert(path_has_source(es, pred, search_spec(t, args)[j]));
        let k = choose|k: int|
            0 <= k < es.len() && #[trigger] pred(es[k]) && es[k].path == search_spec(t, args)[j];
        assert(in_walk_as_file(es[k], t, args));
    }
}

/// The entry is yielded by the query's walk, matches, and is not a
/// directory.
pub open spec fn in_walk_as_file(e: EntryV, t: TreeV, args: Argument) -> bool {
    walk_spec(t, !args.search_hidden).contains(e) && match_spec(e, args) && !e.is_dir
}

/// Running the same query twice against an unchanged tree yields the same
/// sequence of paths: the result is a function of the tree and the
/// arguments alone.
pub proof fn lemma_search_idempotent(t: TreeV, args: Argument, r1: Seq<Seq<char>>, r2: Seq<
    Seq<char>,
>)
    requires
        r1 == search_spec(t, args),
        r2 == search_spec(t, args),
    ensures
        r1 == r2,
{
}

/// At the query level: when hidden entries are not asked for, the search
/// sees exactly the walk of the tree with every hidden subtree removed,
/// so nothing from within a hidden subtree can be returned.
pub proof fn lemma_search_prunes_hidden(t: TreeV, args: Argument)
    requires
        !args.search_hidden,
    ensures
        search_spec(t, args) == selected_paths(
            walk_spec(remove_hidden(t), false),
            |e: EntryV| match_spec(e, args),
        ),
{
    lemma_pruned_walk_removes_hidden(t);
}

} // verus!
