//! What holds of the rewriting of spawn calls.

use crate::rewrite::{SpawnRewriter, SpawnTarget, Stmt, UseTree};
use vstd::prelude::*;

verus! {

impl SpawnRewriter {
    /// The rewriter for a function with the body `stmts`.
    pub open spec fn is_for(self, stmts: Seq<Stmt>) -> bool {
        &&& crate::rewrite::texts(self.aliases.spawn@) == crate::rewrite::with_default(
            crate::rewrite::names_in_body(stmts, "spawn"@),
            "spawn"@,
        )
        &&& crate::rewrite::texts(self.aliases.spawn_blocking@) == crate::rewrite::with_default(
            crate::rewrite::names_in_body(stmts, "spawn_blocking"@),
            "spawn_blocking"@,
        )
    }
}

/// `tokio::spawn(..)` and `tokio::task::spawn_blocking(..)` are rewritten in every
/// function, and labelled as they are written.
pub proof fn law_tokio_paths_are_rewritten(rewriter: SpawnRewriter)
    ensures
        rewriter.target_of(seq!["tokio"@, "spawn"@], 1) == Some(SpawnTarget::Task),
        rewriter.target_of(seq!["tokio"@, "task"@, "spawn_blocking"@], 1) == Some(
            SpawnTarget::Blocking,
        ),
        crate::rewrite::path_text(seq!["tokio"@, "spawn"@]) == "tokio::spawn"@,
        crate::rewrite::path_text(seq!["tokio"@, "task"@, "spawn_blocking"@])
            == "tokio::task::spawn_blocking"@,
{
    reveal_strlit("tokio");
    reveal_strlit("spawn");
    reveal_strlit("task");
    reveal_strlit("spawn_blocking");
    reveal_strlit("::");
    reveal_strlit("tokio::spawn");
    reveal_strlit("tokio::task::spawn_blocking");
    reveal_with_fuel(crate::rewrite::path_text, 3);
    let two = seq!["tokio"@, "spawn"@];
    let three = seq!["tokio"@, "task"@, "spawn_blocking"@];
    assert(two.drop_last() =~= seq!["tokio"@]);
    assert(three.drop_last() =~= seq!["tokio"@, "task"@]);
    assert(three.drop_last().drop_last() =~= seq!["tokio"@]);
    assert(crate::rewrite::path_text(two) =~= "tokio::spawn"@);
    assert(crate::rewrite::path_text(three) =~= "tokio::task::spawn_blocking"@);
    assert(two != three) by {
        assert(two.len() != three.len());
    }
}

/// A name under which a `use` item of the body brings `spawn` in is rewritten, and so is
/// `spawn` itself.
pub proof fn law_spawn_names_are_rewritten(
    rewriter: SpawnRewriter,
    stmts: Seq<Stmt>,
    name: Seq<char>,
)
    requires
        rewriter.is_for(stmts),
        name == "spawn"@ || crate::rewrite::names_in_body(stmts, "spawn"@).contains(name),
    ensures
        rewriter.target_of(seq![name], 1) == Some(SpawnTarget::Task),
        crate::rewrite::path_text(seq![name]) == name,
{
    lemma_with_default(crate::rewrite::names_in_body(stmts, "spawn"@), "spawn"@);
}

/// A name under which a `use` item of the body brings `spawn_blocking` in is rewritten,
/// and so is `spawn_blocking` itself, where it is no name for `spawn`.
pub proof fn law_spawn_blocking_names_are_rewritten(
    rewriter: SpawnRewriter,
    stmts: Seq<Stmt>,
    name: Seq<char>,
)
    requires
        rewriter.is_for(stmts),
        name == "spawn_blocking"@ || crate::rewrite::names_in_body(
            stmts,
            "spawn_blocking"@,
        ).contains(name),
        name != "spawn"@,
        !crate::rewrite::names_in_body(stmts, "spawn"@).contains(name),
    ensures
        rewriter.target_of(seq![name], 1) == Some(SpawnTarget::Blocking),
        crate::rewrite::path_text(seq![name]) == name,
{
    lemma_with_default(crate::rewrite::names_in_body(stmts, "spawn"@), "spawn"@);
    lemma_with_default(
        crate::rewrite::names_in_body(stmts, "spawn_blocking"@),
        "spawn_blocking"@,
    );
}

/// Every other call stays as it is: one of another name, one of a path that is not
/// exactly one of the two, and one that has not one argument.
pub proof fn law_other_calls_stay(
    rewriter: SpawnRewriter,
    stmts: Seq<Stmt>,
    segments: Seq<Seq<char>>,
    args: nat,
)
    requires
        rewriter.is_for(stmts),
        args == 1 && segments.len() == 1 ==> {
            &&& segments[0] != "spawn"@
            &&& segments[0] != "spawn_blocking"@
            &&& !crate::rewrite::names_in_body(stmts, "spawn"@).contains(segments[0])
            &&& !crate::rewrite::names_in_body(stmts, "spawn_blocking"@).contains(segments[0])
        },
        args == 1 ==> segments != seq!["tokio"@, "spawn"@] && segments != seq![
            "tokio"@,
            "task"@,
            "spawn_blocking"@,
        ],
    ensures
        rewriter.target_of(segments, args) is None,
{
    lemma_with_default(crate::rewrite::names_in_body(stmts, "spawn"@), "spawn"@);
    lemma_with_default(
        crate::rewrite::names_in_body(stmts, "spawn_blocking"@),
        "spawn_blocking"@,
    );
}

/// The names that a body gives to an item are those of its first part, then those of the
/// rest.
pub proof fn law_names_follow_the_body(first: Seq<Stmt>, rest: Seq<Stmt>, item: Seq<char>)
    ensures
        crate::rewrite::names_in_body(first + rest, item) == crate::rewrite::names_in_body(
            first,
            item,
        ) + crate::rewrite::names_in_body(rest, item),
    decreases rest.len(),
{
    if rest.len() == 0 {
        assert(first + rest =~= first);
    } else {
        law_names_follow_the_body(first, rest.drop_last(), item);
        assert((first + rest).drop_last() =~= first + rest.drop_last());
        assert((first + rest).last() == rest.last());
    }
    assert(crate::rewrite::names_in_body(first + rest, item) =~= crate::rewrite::names_in_body(
        first,
        item,
    ) + crate::rewrite::names_in_body(rest, item));
}

proof fn lemma_with_default(names: Seq<Seq<char>>, item: Seq<char>)
    ensures
        forall|name: Seq<char>| #[trigger]
            crate::rewrite::with_default(names, item).contains(name) <==> name == item
                || names.contains(name),
{
    let all = crate::rewrite::with_default(names, item);
    assert forall|name: Seq<char>| #[trigger] all.contains(name) <==> name == item
        || names.contains(name) by {
        if names.contains(name) {
            let i = choose|i: int| 0 <= i < names.len() && names[i] == name;
            assert(all[i] == name);
        }
        if name == item && !names.contains(item) {
            assert(all[names.len() as int] == item);
        }
    }
}

/// The texts of strings are theirs one by one.
pub proof fn law_texts(strings: Seq<String>)
    ensures
        crate::rewrite::texts(strings).len() == strings.len(),
        forall|i: int|
            0 <= i < strings.len() ==> #[trigger] crate::rewrite::texts(strings)[i]
                == strings[i]@,
{
}

/// What stands before a name in a path does not matter, be it a name or a whole tree.
pub proof fn law_leading_segments_do_not_matter(tree: UseTree, item: Seq<char>)
    ensures
        crate::rewrite::names_for(UseTree::Path(Box::new(tree)), item)
            == crate::rewrite::names_for(tree, item),
{
}

/// A leaf names what it spells: `item` is called so, `item as rename` is called `rename`,
/// and any other leaf, like a glob, gives no name.
pub proof fn law_leaves(ident: String, rename: String, item: Seq<char>)
    ensures
        ident@ == item ==> crate::rewrite::names_for(UseTree::Name(ident), item) == seq![item],
        ident@ == item ==> crate::rewrite::names_for(UseTree::Rename(ident, rename), item) == seq![
            rename@,
        ],
        ident@ != item ==> crate::rewrite::names_for(UseTree::Name(ident), item).len() == 0,
        ident@ != item ==> crate::rewrite::names_for(UseTree::Rename(ident, rename), item).len()
            == 0,
        crate::rewrite::names_for(UseTree::Glob, item).len() == 0,
{
}

/// The names that a group gives are those of its trees, one tree after the other.
pub proof fn law_groups(trees: Vec<UseTree>, item: Seq<char>)
    ensures
        crate::rewrite::names_for(UseTree::Group(trees), item) == trees@.map_values(
            |tree: UseTree| crate::rewrite::names_for(tree, item),
        ).flatten(),
{
    lemma_group_flat(trees@, item);
}

proof fn lemma_group_flat(trees: Seq<UseTree>, item: Seq<char>)
    ensures
        crate::rewrite::names_in_group(trees, item) == trees.map_values(
            |tree: UseTree| crate::rewrite::names_for(tree, item),
        ).flatten(),
    decreases trees.len(),
{
    let f = |tree: UseTree| crate::rewrite::names_for(tree, item);
    let lists = trees.map_values(f);
    lists.lemma_flatten_and_flatten_alt_are_equivalent();
    if trees.len() > 0 {
        lemma_group_flat(trees.drop_last(), item);
        let shorter = trees.drop_last().map_values(f);
        shorter.lemma_flatten_and_flatten_alt_are_equivalent();
        assert(lists.drop_last() =~= shorter);
        assert(lists.last() == crate::rewrite::names_for(trees.last(), item));
    }
}

/// The names that a body gives are those of its `use` items, one after the other.
pub proof fn law_bodies(stmts: Seq<Stmt>, item: Seq<char>)
    ensures
        crate::rewrite::names_in_body(stmts, item) == stmts.map_values(
            |stmt: Stmt|
                match stmt {
                    Stmt::Use(tree) => crate::rewrite::names_for(tree, item),
                    Stmt::Other => seq![],
                },
        ).flatten(),
    decreases stmts.len(),
{
    let f = |stmt: Stmt|
        match stmt {
            Stmt::Use(tree) => crate::rewrite::names_for(tree, item),
            Stmt::Other => seq![],
        };
    let lists = stmts.map_values(f);
    lists.lemma_flatten_and_flatten_alt_are_equivalent();
    if stmts.len() > 0 {
        law_bodies(stmts.drop_last(), item);
        let shorter = stmts.drop_last().map_values(f);
        shorter.lemma_flatten_and_flatten_alt_are_equivalent();
        assert(lists.drop_last() =~= shorter);
        assert(lists.last() == f(stmts.last()));
    }
}

/// The leaf that a route leads to: each step goes behind the first segment of a path, or to
/// the tree at that position of a group.
pub open spec fn leaf_at(tree: UseTree, route: Seq<int>) -> Option<UseTree>
    decreases route.len(),
{
    match tree {
        UseTree::Path(rest) => if route.len() > 0 {
            leaf_at(*rest, route.drop_first())
        } else {
            None
        },
        UseTree::Group(trees) => if route.len() > 0 && 0 <= route[0] < trees@.len() {
            leaf_at(trees@[route[0]], route.drop_first())
        } else {
            None
        },
        _ => if route.len() == 0 {
            Some(tree)
        } else {
            None
        },
    }
}

/// The leaf is `item` with that name, or `item as name`.
pub open spec fn leaf_calls(leaf: Option<UseTree>, item: Seq<char>, name: Seq<char>) -> bool {
    match leaf {
        Some(UseTree::Name(ident)) => ident@ == item && name == item,
        Some(UseTree::Rename(ident, rename)) => ident@ == item && rename@ == name,
        _ => false,
    }
}

/// A name is an alias exactly where some leaf of the tree gives it, however many paths and
/// groups lead there.
pub proof fn law_aliases_are_leaves(tree: UseTree, item: Seq<char>, name: Seq<char>)
    ensures
        crate::rewrite::names_for(tree, item).contains(name) <==> exists|route: Seq<int>|
            leaf_calls(#[trigger] leaf_at(tree, route), item, name),
    decreases tree,
{
    let names = crate::rewrite::names_for(tree, item);
    let none = Seq::<int>::empty();
    match tree {
        UseTree::Path(rest) => {
            law_aliases_are_leaves(*rest, item, name);
            if names.contains(name) {
                let route = choose|route: Seq<int>|
                    leaf_calls(#[trigger] leaf_at(*rest, route), item, name);
                let longer = seq![0int] + route;
                assert(longer.drop_first() =~= route);
                assert(leaf_calls(leaf_at(tree, longer), item, name));
            }
            if exists|route: Seq<int>| leaf_calls(#[trigger] leaf_at(tree, route), item, name) {
                let route = choose|route: Seq<int>|
                    leaf_calls(#[trigger] leaf_at(tree, route), item, name);
                assert(leaf_calls(leaf_at(*rest, route.drop_first()), item, name));
            }
        },
        UseTree::Group(trees) => {
            lemma_group_contains(trees@, item, name);
            if names.contains(name) {
                let k = choose|k: int|
                    0 <= k < trees@.len() && crate::rewrite::names_for(
                        #[trigger] trees@[k],
                        item,
                    ).contains(name);
                assert(decreases_to!(tree => tree->Group_0));
                assert(decreases_to!(trees => trees@));
                assert(decreases_to!(trees@ => trees@[k]));
                law_aliases_are_leaves(trees@[k], item, name);
                let route = choose|route: Seq<int>|
                    leaf_calls(#[trigger] leaf_at(trees@[k], route), item, name);
                let longer = seq![k] + route;
                assert(longer.drop_first() =~= route);
                assert(leaf_calls(leaf_at(tree, longer), item, name));
            }
            if exists|route: Seq<int>| leaf_calls(#[trigger] leaf_at(tree, route), item, name) {
                let route = choose|route: Seq<int>|
                    leaf_calls(#[trigger] leaf_at(tree, route), item, name);
                let k = route[0];
                assert(decreases_to!(tree => tree->Group_0));
                assert(decreases_to!(trees => trees@));
                assert(decreases_to!(trees@ => trees@[k]));
                law_aliases_are_leaves(trees@[k], item, name);
                assert(leaf_calls(leaf_at(trees@[k], route.drop_first()), item, name));
                assert(crate::rewrite::names_for(trees@[k], item).contains(name));
            }
        },
        UseTree::Name(ident) => {
            assert(leaf_at(tree, none) == Some(tree));
            if ident@ == item {
                assert(names[0] == item);
            }
        },
        UseTree::Rename(ident, rename) => {
            assert(leaf_at(tree, none) == Some(tree));
            if ident@ == item {
                assert(names[0] == rename@);
            }
        },
        UseTree::Glob => {},
    }
}

proof fn lemma_group_contains(trees: Seq<UseTree>, item: Seq<char>, name: Seq<char>)
    ensures
        crate::rewrite::names_in_group(trees, item).contains(name) <==> exists|k: int|
            0 <= k < trees.len() && crate::rewrite::names_for(#[trigger] trees[k], item).contains(
                name,
            ),
    decreases trees.len(),
{
    if trees.len() > 0 {
        let rest = trees.drop_last();
        let before = crate::rewrite::names_in_group(rest, item);
        let added = crate::rewrite::names_for(trees.last(), item);
        lemma_group_contains(rest, item, name);
        lemma_concat_contains(before, added, name);
        if before.contains(name) {
            let k = choose|k: int|
                0 <= k < rest.len() && crate::rewrite::names_for(#[trigger] rest[k], item).contains(
                    name,
                );
            assert(trees[k] == rest[k]);
        }
        if added.contains(name) {
            assert(trees[trees.len() - 1] == trees.last());
        }
        if exists|k: int|
            0 <= k < trees.len() && crate::rewrite::names_for(#[trigger] trees[k], item).contains(
                name,
            ) {
            let k = choose|k: int|
                0 <= k < trees.len() && crate::rewrite::names_for(
                    #[trigger] trees[k],
                    item,
                ).contains(name);
            if k < rest.len() {
                assert(rest[k] == trees[k]);
            }
        }
    }
}

proof fn lemma_concat_contains<T>(a: Seq<T>, b: Seq<T>, x: T)
    ensures
        (a + b).contains(x) <==> a.contains(x) || b.contains(x),
{
    if a.contains(x) {
        let i = choose|i: int| 0 <= i < a.len() && a[i] == x;
        assert((a + b)[i] == x);
    }
    if b.contains(x) {
        let i = choose|i: int| 0 <= i < b.len() && b[i] == x;
        assert((a + b)[a.len() + i] == x);
    }
}

/// A name that a leaf of some `use` item of the body gives to `spawn` is rewritten to the
/// monitored task, one that a leaf gives to `spawn_blocking` and none to `spawn` to the
/// monitored blocking task.
pub proof fn law_imported_names_are_rewritten(
    rewriter: SpawnRewriter,
    stmts: Seq<Stmt>,
    at: int,
    tree: UseTree,
    route: Seq<int>,
    name: Seq<char>,
)
    requires
        rewriter.is_for(stmts),
        0 <= at < stmts.len(),
        stmts[at] == Stmt::Use(tree),
    ensures
        leaf_calls(leaf_at(tree, route), "spawn"@, name) ==> rewriter.target_of(seq![name], 1)
            == Some(SpawnTarget::Task),
        leaf_calls(leaf_at(tree, route), "spawn_blocking"@, name) ==> rewriter.target_of(
            seq![name],
            1,
        ) is Some,
        leaf_calls(leaf_at(tree, route), "spawn_blocking"@, name) && name != "spawn"@
            && !crate::rewrite::names_in_body(stmts, "spawn"@).contains(name)
            ==> rewriter.target_of(seq![name], 1) == Some(SpawnTarget::Blocking),
{
    law_aliases_are_leaves(tree, "spawn"@, name);
    law_aliases_are_leaves(tree, "spawn_blocking"@, name);
    lemma_body_contains(stmts, at, tree, "spawn"@, name);
    lemma_body_contains(stmts, at, tree, "spawn_blocking"@, name);
    lemma_with_default(crate::rewrite::names_in_body(stmts, "spawn"@), "spawn"@);
    lemma_with_default(
        crate::rewrite::names_in_body(stmts, "spawn_blocking"@),
        "spawn_blocking"@,
    );
}

proof fn lemma_body_contains(
    stmts: Seq<Stmt>,
    at: int,
    tree: UseTree,
    item: Seq<char>,
    name: Seq<char>,
)
    requires
        0 <= at < stmts.len(),
        stmts[at] == Stmt::Use(tree),
    ensures
        crate::rewrite::names_for(tree, item).contains(name) ==> crate::rewrite::names_in_body(
            stmts,
            item,
        ).contains(name),
    decreases stmts.len(),
{
    let before = crate::rewrite::names_in_body(stmts.drop_last(), item);
    let added = match stmts.last() {
        Stmt::Use(tree) => crate::rewrite::names_for(tree, item),
        Stmt::Other => seq![],
    };
    lemma_concat_contains(before, added, name);
    if at < stmts.len() - 1 {
        lemma_body_contains(stmts.drop_last(), at, tree, item, name);
    }
}

/// The default name is always among the names, at the end where no `use` item gives it, and
/// nothing else is added or lost.
pub proof fn law_default_name(names: Seq<Seq<char>>, item: Seq<char>)
    ensures
        names.contains(item) ==> crate::rewrite::with_default(names, item) == names,
        !names.contains(item) ==> crate::rewrite::with_default(names, item) == names + seq![item],
        crate::rewrite::with_default(names, item).contains(item),
{
    lemma_with_default(names, item);
    assert(names.push(item) =~= names + seq![item]);
}

/// The label of a path is its segments with `::` between them.
pub proof fn law_path_text(segments: Seq<Seq<char>>, segment: Seq<char>)
    ensures
        crate::rewrite::path_text(seq![segment]) == segment,
        segments.len() > 0 ==> crate::rewrite::path_text(segments.push(segment))
            == crate::rewrite::path_text(segments) + seq![':', ':'] + segment,
{
    reveal_strlit("::");
    assert("::"@ =~= seq![':', ':']);
    assert(segments.push(segment).drop_last() =~= segments);
}

/// A call is rewritten exactly where it has one argument and its path is a known name alone
/// or one of the two tokio paths, and to what that name stands for; a name for both stands
/// for `spawn`.
pub proof fn law_targets(rewriter: SpawnRewriter, segments: Seq<Seq<char>>, args: nat)
    ensures
        rewriter.target_of(segments, args) == Some(SpawnTarget::Task) <==> args == 1 && ((
        segments.len() == 1 && (exists|i: int|
            0 <= i < rewriter.aliases.spawn@.len() && (#[trigger] rewriter.aliases.spawn@[i])@
                == segments[0])) || (segments.len() == 2 && segments[0] == "tokio"@ && segments[1]
            == "spawn"@)),
        rewriter.target_of(segments, args) == Some(SpawnTarget::Blocking) <==> args == 1 && ((
        segments.len() == 1 && (exists|i: int|
            0 <= i < rewriter.aliases.spawn_blocking@.len() && (
            #[trigger] rewriter.aliases.spawn_blocking@[i])@ == segments[0]) && !(exists|i: int|
            0 <= i < rewriter.aliases.spawn@.len() && (#[trigger] rewriter.aliases.spawn@[i])@
                == segments[0])) || (segments.len() == 3 && segments[0] == "tokio"@ && segments[1]
            == "task"@ && segments[2] == "spawn_blocking"@)),
{
    let two = seq!["tokio"@, "spawn"@];
    let three = seq!["tokio"@, "task"@, "spawn_blocking"@];
    lemma_among(rewriter.aliases.spawn@, segments[0]);
    lemma_among(rewriter.aliases.spawn_blocking@, segments[0]);
    assert(two.len() == 2 && three.len() == 3);
    if segments.len() == 2 && segments[0] == "tokio"@ && segments[1] == "spawn"@ {
        assert(segments =~= two);
    }
    if segments.len() == 3 && segments[0] == "tokio"@ && segments[1] == "task"@ && segments[2]
        == "spawn_blocking"@ {
        assert(segments =~= three);
    }
}

proof fn lemma_among(strings: Seq<String>, name: Seq<char>)
    ensures
        crate::rewrite::texts(strings).contains(name) <==> exists|i: int|
            0 <= i < strings.len() && (#[trigger] strings[i])@ == name,
{
    let all = crate::rewrite::texts(strings);
    if all.contains(name) {
        let i = choose|i: int| 0 <= i < all.len() && all[i] == name;
        assert(strings[i]@ == name);
    }
    if exists|i: int| 0 <= i < strings.len() && (#[trigger] strings[i])@ == name {
        let i = choose|i: int| 0 <= i < strings.len() && (#[trigger] strings[i])@ == name;
        assert(all[i] == name);
    }
}

} // verus!
