//! Which calls in a monitored function are rewritten, and to what.

use vstd::prelude::*;
use vstd::string::*;

verus! {

/// The tree of a `use` item, with the names that matter here: a path is the tree
/// behind its first segment.
#[derive(Debug)]
pub enum UseTree {
    /// `segment::tree`
    Path(Box<UseTree>),
    /// `ident`
    Name(String),
    /// `ident as rename`
    Rename(String, String),
    /// `*`
    Glob,
    /// `{tree, tree, ..}`
    Group(Vec<UseTree>),
}

/// A statement of a function body: a `use` item, or anything else.
#[derive(Debug)]
pub enum Stmt {
    Use(UseTree),
    Other,
}

/// The texts of a sequence of strings.
pub open spec fn texts(strings: Seq<String>) -> Seq<Seq<char>> {
    strings.map_values(|s: String| s@)
}

/// The local names, in order, that a `use` tree gives to `item`.
pub open spec fn names_for(tree: UseTree, item: Seq<char>) -> Seq<Seq<char>>
    decreases tree,
{
    match tree {
        UseTree::Path(rest) => names_for(*rest, item),
        UseTree::Name(ident) => if ident@ == item {
            seq![ident@]
        } else {
            seq![]
        },
        UseTree::Rename(ident, rename) => if ident@ == item {
            seq![rename@]
        } else {
            seq![]
        },
        UseTree::Glob => seq![],
        UseTree::Group(trees) => names_in_group(trees@, item),
    }
}

/// The local names, in order, that the trees of a group give to `item`.
pub open spec fn names_in_group(trees: Seq<UseTree>, item: Seq<char>) -> Seq<Seq<char>>
    decreases trees,
{
    if trees.len() == 0 {
        seq![]
    } else {
        names_in_group(trees.drop_last(), item) + names_for(trees.last(), item)
    }
}

/// The local names, in order, that the `use` items of a body give to `item`.
pub open spec fn names_in_body(stmts: Seq<Stmt>, item: Seq<char>) -> Seq<Seq<char>>
    decreases stmts.len(),
{
    if stmts.len() == 0 {
        seq![]
    } else {
        names_in_body(stmts.drop_last(), item) + match stmts.last() {
            Stmt::Use(tree) => names_for(tree, item),
            Stmt::Other => seq![],
        }
    }
}

/// `names` with `item` itself at the end, unless it is there already.
pub open spec fn with_default(names: Seq<Seq<char>>, item: Seq<char>) -> Seq<Seq<char>> {
    if names.contains(item) {
        names
    } else {
        names.push(item)
    }
}

/// The names under which the spawn functions are called.
#[derive(Debug)]
pub struct RewriteAliases {
    pub spawn: Vec<String>,
    pub spawn_blocking: Vec<String>,
}

impl Default for RewriteAliases {
    fn default() -> (aliases: Self)
        ensures
            aliases.spawn@.len() == 0,
            aliases.spawn_blocking@.len() == 0,
    {
        RewriteAliases { spawn: Vec::new(), spawn_blocking: Vec::new() }
    }
}

fn is_among(name: &String, names: &Vec<String>) -> (found: bool)
    ensures
        found == texts(names@).contains(name@),
{
    let mut i: usize = 0;
    while i < names.len()
        invariant
            i <= names@.len(),
            forall|k: int| 0 <= k < i ==> (#[trigger] names@[k])@ != name@,
        decreases names@.len() - i,
    {
        if names[i] == *name {
            assert(texts(names@)[i as int] == name@);
            return true;
        }
        i = i + 1;
    }
    false
}

/// Adds `name` to `names`.
fn add_name(names: &mut Vec<String>, name: String)
    ensures
        texts(final(names)@) == texts(old(names)@).push(name@),
{
    names.push(name);
    assert(texts(names@) =~= texts(old(names)@).push(name@));
}

/// Adds the names that a `use` tree gives to the spawn functions.
pub fn collect_from_use_tree(tree: &UseTree, aliases: &mut RewriteAliases)
    ensures
        texts(final(aliases).spawn@) == texts(old(aliases).spawn@) + names_for(*tree, "spawn"@),
        texts(final(aliases).spawn_blocking@) == texts(old(aliases).spawn_blocking@) + names_for(
            *tree,
            "spawn_blocking"@,
        ),
    decreases tree,
{
    proof {
        reveal_strlit("spawn");
        reveal_strlit("spawn_blocking");
        assert("spawn"@.len() != "spawn_blocking"@.len());
    }
    match tree {
        UseTree::Path(rest) => {
            // Recurse into the path
            collect_from_use_tree(rest, aliases);
        },
        UseTree::Name(ident) => {
            if *ident == "spawn".to_string() {
                add_name(&mut aliases.spawn, ident.clone());
            } else if *ident == "spawn_blocking".to_string() {
                add_name(&mut aliases.spawn_blocking, ident.clone());
            }
        },
        UseTree::Rename(ident, rename) => {
            if *ident == "spawn".to_string() {
                add_name(&mut aliases.spawn, rename.clone());
            } else if *ident == "spawn_blocking".to_string() {
                add_name(&mut aliases.spawn_blocking, rename.clone());
            }
        },
        UseTree::Glob => {},
        UseTree::Group(trees) => {
            let mut i: usize = 0;
            while i < trees.len()
                invariant
                    i <= trees@.len(),
                    *tree == UseTree::Group(*trees),
                    texts(aliases.spawn@) == texts(old(aliases).spawn@) + names_in_group(
                        trees@.take(i as int),
                        "spawn"@,
                    ),
                    texts(aliases.spawn_blocking@) == texts(old(aliases).spawn_blocking@)
                        + names_in_group(trees@.take(i as int), "spawn_blocking"@),
                decreases trees@.len() - i,
            {
                assert(trees@.take(i + 1).drop_last() =~= trees@.take(i as int));
                assert(trees@.take(i + 1).last() == trees@[i as int]);
                assert(decreases_to!(*tree => trees@[i as int])) by {
                    assert(decreases_to!(*tree => tree->Group_0));
                    assert(decreases_to!(*trees => trees@));
                    assert(decreases_to!(trees@ => trees@[i as int]));
                }
                collect_from_use_tree(&trees[i], aliases);
                i = i + 1;
            }
            assert(trees@.take(i as int) =~= trees@);
        },
    }
}

/// Collects all relevant aliases from the use statements of a function body. The
/// default names are always among them.
pub fn collect_rewrite_aliases(stmts: &[Stmt]) -> (aliases: RewriteAliases)
    ensures
        texts(aliases.spawn@) == with_default(names_in_body(stmts@, "spawn"@), "spawn"@),
        texts(aliases.spawn_blocking@) == with_default(
            names_in_body(stmts@, "spawn_blocking"@),
            "spawn_blocking"@,
        ),
{
    let mut aliases = RewriteAliases::default();
    let mut i: usize = 0;
    while i < stmts.len()
        invariant
            i <= stmts@.len(),
            texts(aliases.spawn@) == names_in_body(stmts@.take(i as int), "spawn"@),
            texts(aliases.spawn_blocking@) == names_in_body(
                stmts@.take(i as int),
                "spawn_blocking"@,
            ),
        decreases stmts@.len() - i,
    {
        assert(stmts@.take(i + 1).drop_last() =~= stmts@.take(i as int));
        if let Stmt::Use(tree) = &stmts[i] {
            collect_from_use_tree(tree, &mut aliases);
        }
        i = i + 1;
    }
    assert(stmts@.take(i as int) =~= stmts@);
    // Always include default names
    let spawn = "spawn".to_string();
    if !is_among(&spawn, &aliases.spawn) {
        add_name(&mut aliases.spawn, spawn);
    }
    let spawn_blocking = "spawn_blocking".to_string();
    if !is_among(&spawn_blocking, &aliases.spawn_blocking) {
        add_name(&mut aliases.spawn_blocking, spawn_blocking);
    }
    aliases
}

/// The monitored function that a call is rewritten to.
#[derive(Debug, Clone, Copy, PartialEq, Eq, Structural)]
pub enum SpawnTarget {
    /// `spawn_monitored`
    Task,
    /// `spawn_blocking_monitored`
    Blocking,
}

/// What a call is rewritten to: a call of `target` with `label` before its argument.
#[derive(Debug)]
pub struct Rewritten {
    pub target: SpawnTarget,
    pub label: String,
}

/// The segments of a path, joined by `::`.
pub open spec fn path_text(segments: Seq<Seq<char>>) -> Seq<char>
    decreases segments.len(),
{
    if segments.len() == 0 {
        seq![]
    } else if segments.len() == 1 {
        segments[0]
    } else {
        path_text(segments.drop_last()) + "::"@ + segments.last()
    }
}

fn join_path(segments: &Vec<String>) -> (text: String)
    ensures
        text@ == path_text(texts(segments@)),
{
    let ghost all = texts(segments@);
    let mut text = String::new();
    let mut i: usize = 0;
    while i < segments.len()
        invariant
            i <= segments@.len(),
            all == texts(segments@),
            text@ == path_text(all.take(i as int)),
        decreases segments@.len() - i,
    {
        assert(all.take(i + 1).drop_last() =~= all.take(i as int));
        if i > 0 {
            text.append("::");
        }
        text.append(segments[i].as_str());
        assert(text@ =~= path_text(all.take(i + 1)));
        i = i + 1;
    }
    assert(all.take(i as int) =~= all);
    text
}

/// Rewrites the calls of a function body to their monitored versions. It looks for path
/// segments exactly matching the patterns.
#[derive(Debug)]
pub struct SpawnRewriter {
    pub aliases: RewriteAliases,
}

impl SpawnRewriter {
    /// The monitored function for a call of the path `segments` with `args` arguments: a
    /// known name alone, `tokio::spawn` or `tokio::task::spawn_blocking`, with one
    /// argument.
    pub open spec fn target_of(self, segments: Seq<Seq<char>>, args: nat) -> Option<SpawnTarget> {
        if args != 1 {
            None
        } else if segments.len() == 1 && texts(self.aliases.spawn@).contains(segments[0]) {
            Some(SpawnTarget::Task)
        } else if segments.len() == 1 && texts(self.aliases.spawn_blocking@).contains(
            segments[0],
        ) {
            Some(SpawnTarget::Blocking)
        } else if segments == seq!["tokio"@, "spawn"@] {
            Some(SpawnTarget::Task)
        } else if segments == seq!["tokio"@, "task"@, "spawn_blocking"@] {
            Some(SpawnTarget::Blocking)
        } else {
            None
        }
    }

    /// What a call of the path `segments` with `args` arguments is rewritten to, or None
    /// where it stays as it is. The label is the path as it is called.
    pub fn rewrite_call(&self, segments: &Vec<String>, args: usize) -> (rewritten: Option<
        Rewritten,
    >)
        ensures
            match self.target_of(texts(segments@), args as nat) {
                Some(target) => {
                    &&& rewritten matches Some(call)
                    &&& call.target == target
                    &&& call.label@ == path_text(texts(segments@))
                },
                None => rewritten is None,
            },
    {
        if args != 1 {
            return None;
        }
        let ghost path = texts(segments@);
        let count = segments.len();
        assert forall|k: int| 0 <= k < path.len() implies #[trigger] path[k] == segments@[k]@ by {}
        let target = if count == 1 && is_among(&segments[0], &self.aliases.spawn) {
            Some(SpawnTarget::Task)
        } else if count == 1 && is_among(&segments[0], &self.aliases.spawn_blocking) {
            Some(SpawnTarget::Blocking)
        } else if count == 2 && segments[0] == "tokio".to_string() && segments[1]
            == "spawn".to_string() {
            assert(path =~= seq!["tokio"@, "spawn"@]);
            Some(SpawnTarget::Task)
        } else if count == 3 && segments[0] == "tokio".to_string() && segments[1]
            == "task".to_string() && segments[2] == "spawn_blocking".to_string() {
            assert(path =~= seq!["tokio"@, "task"@, "spawn_blocking"@]);
            Some(SpawnTarget::Blocking)
        } else {
            proof {
                if path == seq!["tokio"@, "spawn"@] {
                    assert(path[0] == "tokio"@ && path[1] == "spawn"@);
                }
                if path == seq!["tokio"@, "task"@, "spawn_blocking"@] {
                    assert(path[0] == "tokio"@ && path[1] == "task"@ && path[2]
                        == "spawn_blocking"@);
                }
            }
            None
        };
        match target {
            Some(target) => Some(Rewritten { target, label: join_path(segments) }),
            None => None,
        }
    }
}

} // verus!
