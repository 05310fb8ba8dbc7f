//! The rule-resolving tree walker: given a content tree, emit one node per
//! directory holding artifacts, each carrying the rules in effect there.
//!
//! A directory with an override file replaces the inherited rules for
//! itself and everything beneath it; siblings never observe it.  Reading
//! directories and parsing override files off disk happens outside the
//! library; the walk itself is pure.

use vstd::prelude::*;

verus! {

use crate::common::{
    copy_rules,
    default_render_rules,
    spec_content_digest,
    spec_default_rules,
    spec_out_path,
    spec_page_type,
    spec_url_path,
    ContentFileModel,
    RenderRules,
    RenderRulesModel,
    SiteEntry,
    SiteEntryModel,
    SiteNode,
    SiteNodeModel,
};
use vstd::string::StringExecFns;

broadcast use crate::text::lemma_chars_deep_view;

/// One file of a directory: its name and its contents.
pub struct DirEntryFile {
    pub name: String,
    pub contents: String,
}

/// One directory of the content tree: its name, its parsed override file if
/// one exists, its files and its subdirectories.
pub struct DirTree {
    pub name: String,
    pub rules: Option<RenderRules>,
    pub files: Vec<DirEntryFile>,
    pub subdirs: Vec<DirTree>,
}

/// A path segment appended to a directory path.
pub open spec fn spec_child_path(dir: Seq<char>, name: Seq<char>) -> Seq<char> {
    if dir.len() == 0 {
        name
    } else {
        dir + seq!['/'] + name
    }
}

/// The entry a file produces, when its extension is recognized.
pub open spec fn spec_entry_of(
    pages_dir: Seq<char>,
    dir: Seq<char>,
    name: Seq<char>,
    contents: Seq<char>,
) -> Option<SiteEntryModel> {
    let rel = spec_child_path(dir, name);
    let abs = pages_dir + seq!['/'] + rel;
    if spec_page_type(rel) is Some {
        Some(
            SiteEntryModel {
                file: ContentFileModel {
                    abs_path: abs,
                    rel_path: rel,
                    contents: contents,
                    hash: spec_content_digest(contents),
                },
                out_path: spec_out_path(rel),
                url_path: spec_url_path(rel),
            },
        )
    } else {
        None
    }
}

/// The entries of one directory's files, in listing order.
pub open spec fn spec_entries(pages_dir: Seq<char>, dir: Seq<char>, files: Seq<DirEntryFile>) -> Seq<
    SiteEntryModel,
>
    decreases files.len(),
{
    if files.len() == 0 {
        Seq::empty()
    } else {
        let rest = spec_entries(pages_dir, dir, files.drop_first());
        match spec_entry_of(pages_dir, dir, files[0].name@, files[0].contents@) {
            Some(e) => seq![e] + rest,
            None => rest,
        }
    }
}

/// The rules in effect inside a directory: its own override, or what it
/// inherited.
pub open spec fn spec_effective(inherited: RenderRulesModel, t: DirTree) -> RenderRulesModel {
    match t.rules {
        Some(r) => r@,
        None => inherited,
    }
}

/// Every node the walk of one directory produces: its own node when it
/// holds artifacts, then its subtrees' nodes, each child walked under the
/// rules in effect here.
pub open spec fn spec_collect(
    pages_dir: Seq<char>,
    t: DirTree,
    inherited: RenderRulesModel,
    dir: Seq<char>,
) -> Seq<SiteNodeModel>
    decreases t,
{
    proof {
        assert(decreases_to!(t => t.subdirs));
        assert(decreases_to!(t.subdirs => t.subdirs@));
    }
    let eff = spec_effective(inherited, t);
    let entries = spec_entries(pages_dir, dir, t.files@);
    let own = if entries.len() > 0 {
        seq![SiteNodeModel { dir: dir, render_rules: eff, site_entries: entries }]
    } else {
        Seq::<SiteNodeModel>::empty()
    };
    own + spec_collect_children(pages_dir, t.subdirs@, eff, dir)
}

/// The nodes of a list of subtrees, walked in order.
pub open spec fn spec_collect_children(
    pages_dir: Seq<char>,
    children: Seq<DirTree>,
    eff: RenderRulesModel,
    dir: Seq<char>,
) -> Seq<SiteNodeModel>
    decreases children,
{
    if children.len() == 0 {
        Seq::empty()
    } else {
        proof {
            assert(decreases_to!(children => children[0]));
            assert(children.drop_first() == children.subrange(1, children.len() as int));
            assert(decreases_to!(children => children.subrange(1, children.len() as int)));
        }
        spec_collect(pages_dir, children[0], eff, spec_child_path(dir, children[0].name@))
            + spec_collect_children(pages_dir, children.drop_first(), eff, dir)
    }
}

/// The model of a node vector.
pub open spec fn nodes_model(v: Seq<SiteNode>) -> Seq<SiteNodeModel> {
    v.map_values(|n: SiteNode| n@)
}

/// Append a path segment.
fn child_path(dir: &String, name: &String) -> (r: String)
    ensures
        r@ == spec_child_path(dir@, name@),
{
    if dir.as_str().is_empty() {
        name.clone()
    } else {
        let mut r = dir.clone();
        r.append("/");
        r.append(name.as_str());
        proof {
            reveal_strlit("/");
            assert("/"@ =~= seq!['/']);
            assert(dir@ + "/"@ + name@ =~= spec_child_path(dir@, name@));
        }
        r
    }
}

/// Walk a whole content tree under the default rules.
pub fn collect_site_nodes(pages_dir: &str, tree: &DirTree) -> (r: Vec<SiteNode>)
    ensures
        nodes_model(r@) == spec_collect(pages_dir@, *tree, spec_default_rules(), Seq::empty()),
{
    let mut out: Vec<SiteNode> = Vec::new();
    let rules = default_render_rules();
    let dir = String::new();
    proof {
        assert(dir@ =~= Seq::<char>::empty());
        assert(nodes_model(out@) =~~= Seq::<SiteNodeModel>::empty());
    }
    walk_dir(pages_dir, tree, &rules, &dir, &mut out);
    proof {
        assert(Seq::<SiteNodeModel>::empty() + spec_collect(
            pages_dir@,
            *tree,
            spec_default_rules(),
            Seq::empty(),
        ) =~~= spec_collect(pages_dir@, *tree, spec_default_rules(), Seq::empty()));
    }
    out
}

/// Walk one directory: emit its node when it holds artifacts, then walk
/// each subdirectory under the rules in effect here.
fn walk_dir(
    pages_dir: &str,
    t: &DirTree,
    inherited: &RenderRules,
    dir: &String,
    out: &mut Vec<SiteNode>,
)
    ensures
        nodes_model(final(out)@) == nodes_model(old(out)@) + spec_collect(
            pages_dir@,
            *t,
            inherited@,
            dir@,
        ),
    decreases *t,
{
    let ghost base = nodes_model(out@);
    let eff: &RenderRules = match &t.rules {
        Some(r) => r,
        None => inherited,
    };
    proof {
        assert(eff@ == spec_effective(inherited@, *t));
    }
    // Classify this directory's files.
    let mut entries: Vec<SiteEntry> = Vec::new();
    let nf = t.files.len();
    proof {
        assert(t.files@.skip(0) =~= t.files@);
        assert(entries@.map_values(|e: SiteEntry| e@) + spec_entries(pages_dir@, dir@, t.files@)
            =~~= spec_entries(pages_dir@, dir@, t.files@));
    }
    for i in 0..nf
        invariant
            nf == t.files.len(),
            spec_entries(pages_dir@, dir@, t.files@) == entries@.map_values(|e: SiteEntry| e@)
                + spec_entries(pages_dir@, dir@, t.files@.skip(i as int)),
    {
        let ghost rest = t.files@.skip(i as int);
        proof {
            assert(rest[0] == t.files@[i as int]);
            assert(rest.drop_first() =~= t.files@.skip(i + 1));
        }
        let f = &t.files[i];
        let rel = child_path(dir, &f.name);
        if !rel.as_str().is_empty() {
            let mut abs = pages_dir.to_owned();
            abs.append("/");
            abs.append(rel.as_str());
            proof {
                reveal_strlit("/");
                assert(abs@ == pages_dir@ + "/"@ + rel@);
                assert("/"@ =~= seq!['/']);
                assert(abs@ =~= pages_dir@ + seq!['/'] + rel@);
                assert(abs@.len() > pages_dir@.len() + 1);
                assert(abs@.subrange(0, pages_dir@.len() as int) =~= pages_dir@);
                assert(abs@[pages_dir@.len() as int] == '/');
                assert(abs@.skip(pages_dir@.len() + 1int) =~= rel@);
            }
            match SiteEntry::try_new(pages_dir, abs.as_str(), f.contents.clone()) {
                Ok(e) => {
                    let ghost before = entries@.map_values(|e2: SiteEntry| e2@);
                    let ghost em = spec_entry_of(
                        pages_dir@,
                        dir@,
                        f.name@,
                        f.contents@,
                    )->Some_0;
                    proof {
                        assert(e@ == em);
                    }
                    entries.push(e);
                    proof {
                        assert(entries@.map_values(|e2: SiteEntry| e2@) =~~= before.push(em));
                        assert(before.push(em) + spec_entries(
                            pages_dir@,
                            dir@,
                            t.files@.skip(i + 1),
                        ) =~~= before + (seq![em] + spec_entries(
                            pages_dir@,
                            dir@,
                            t.files@.skip(i + 1),
                        )));
                    }
                },
                Err(_) => {},
            }
        } else {
            proof {
                assert(spec_page_type(rel@) is None);
            }
        }
    }
    proof {
        assert(t.files@.skip(nf as int) =~= Seq::<DirEntryFile>::empty());
        assert(entries@.map_values(|e: SiteEntry| e@) + Seq::<SiteEntryModel>::empty()
            =~~= entries@.map_values(|e: SiteEntry| e@));
    }
    let ghost entries_m = entries@.map_values(|e: SiteEntry| e@);
    // Emit this directory's node when it holds artifacts.
    if entries.len() > 0 {
        let node = SiteNode { dir: dir.clone(), render_rules: copy_rules(eff), site_entries: entries };
        let ghost nodev = node@;
        out.push(node);
        proof {
            assert(nodes_model(out@) =~~= base.push(nodev));
            assert(base.push(nodev) =~~= base + seq![nodev]);
        }
    }
    let ghost own: Seq<SiteNodeModel> = if entries_m.len() > 0 {
        seq![SiteNodeModel { dir: dir@, render_rules: eff@, site_entries: entries_m }]
    } else {
        Seq::<SiteNodeModel>::empty()
    };
    proof {
        assert(nodes_model(out@) =~~= base + own);
    }
    // Walk the subdirectories, each under the rules in effect here.
    let nc = t.subdirs.len();
    proof {
        assert(t.subdirs@.skip(0) =~= t.subdirs@);
        assert(base + own + spec_collect_children(pages_dir@, t.subdirs@, eff@, dir@) =~~= (base
            + own) + spec_collect_children(pages_dir@, t.subdirs@, eff@, dir@));
    }
    for i in 0..nc
        invariant
            nc == t.subdirs.len(),
            nodes_model(out@) + spec_collect_children(
                pages_dir@,
                t.subdirs@.skip(i as int),
                eff@,
                dir@,
            ) =~~= base + own + spec_collect_children(pages_dir@, t.subdirs@, eff@, dir@),
        decreases nc - i,
    {
        let ghost rest = t.subdirs@.skip(i as int);
        proof {
            assert(rest[0] == t.subdirs@[i as int]);
            assert(rest.drop_first() =~= t.subdirs@.skip(i + 1));
            assert(decreases_to!(*t => t.subdirs));
            assert(decreases_to!(t.subdirs => t.subdirs@));
            assert(decreases_to!(t.subdirs@ => t.subdirs@[i as int]));
        }
        let child = &t.subdirs[i];
        let cdir = child_path(dir, &child.name);
        let ghost out_before = nodes_model(out@);
        walk_dir(pages_dir, child, eff, &cdir, out);
        proof {
            assert(spec_collect_children(pages_dir@, rest, eff@, dir@) == spec_collect(
                pages_dir@,
                rest[0],
                eff@,
                spec_child_path(dir@, rest[0].name@),
            ) + spec_collect_children(pages_dir@, rest.drop_first(), eff@, dir@));
            assert(nodes_model(out@) =~~= out_before + spec_collect(
                pages_dir@,
                t.subdirs@[i as int],
                eff@,
                cdir@,
            ));
            assert(nodes_model(out@) + spec_collect_children(
                pages_dir@,
                t.subdirs@.skip(i + 1),
                eff@,
                dir@,
            ) =~~= out_before + spec_collect_children(pages_dir@, rest, eff@, dir@));
        }
    }
    proof {
        assert(t.subdirs@.skip(nc as int) =~= Seq::<DirTree>::empty());
        assert(nodes_model(out@) + Seq::<SiteNodeModel>::empty() =~~= nodes_model(out@));
        assert(nodes_model(out@) =~~= base + (own + spec_collect_children(
            pages_dir@,
            t.subdirs@,
            eff@,
            dir@,
        )));
    }
}

// ---------------------------------------------------------------------------
// Rule scoping.
// ---------------------------------------------------------------------------
/// A directory with its own override is shielded from everything above and
/// beside it: the nodes of its subtree are the same whatever rules it would
/// otherwise have inherited.
pub proof fn lemma_override_cut(
    pages_dir: Seq<char>,
    t: DirTree,
    inh1: RenderRulesModel,
    inh2: RenderRulesModel,
    dir: Seq<char>,
)
    requires
        t.rules is Some,
    ensures
        spec_collect(pages_dir, t, inh1, dir) == spec_collect(pages_dir, t, inh2, dir),
{
    assert(spec_effective(inh1, t) == spec_effective(inh2, t));
}

/// Sibling subtrees do not observe each other: the nodes a subtree
/// contributes depend only on that subtree and the rules in effect at its
/// parent.
pub proof fn lemma_sibling_scope(
    pages_dir: Seq<char>,
    t1: DirTree,
    t2: DirTree,
    k: int,
    inh: RenderRulesModel,
    dir: Seq<char>,
    j: int,
)
    requires
        t1.rules == t2.rules,
        t1.subdirs@.len() == t2.subdirs@.len(),
        0 <= j < t1.subdirs@.len(),
        j != k,
        t1.subdirs@[j] == t2.subdirs@[j],
    ensures
        spec_collect(
            pages_dir,
            t1.subdirs@[j],
            spec_effective(inh, t1),
            spec_child_path(dir, t1.subdirs@[j].name@),
        ) == spec_collect(
            pages_dir,
            t2.subdirs@[j],
            spec_effective(inh, t2),
            spec_child_path(dir, t2.subdirs@[j].name@),
        ),
{
    assert(spec_effective(inh, t1) == spec_effective(inh, t2));
}

/// No override anywhere below this directory's root.
pub open spec fn spec_subtree_clean(t: DirTree) -> bool
    decreases t,
{
    proof {
        assert(decreases_to!(t => t.subdirs));
        assert(decreases_to!(t.subdirs => t.subdirs@));
    }
    spec_children_clean(t.subdirs@)
}

pub open spec fn spec_children_clean(children: Seq<DirTree>) -> bool
    decreases children,
{
    if children.len() == 0 {
        true
    } else {
        proof {
            assert(decreases_to!(children => children[0]));
            assert(children.drop_first() == children.subrange(1, children.len() as int));
            assert(decreases_to!(children => children.subrange(1, children.len() as int)));
        }
        &&& children[0].rules is None
        &&& spec_subtree_clean(children[0])
        &&& spec_children_clean(children.drop_first())
    }
}

/// An override governs every artifact beneath it until a deeper override
/// replaces it: when no deeper override exists, every node of the subtree
/// carries the rules in effect at its root.
pub proof fn lemma_rules_govern_subtree(
    pages_dir: Seq<char>,
    t: DirTree,
    inherited: RenderRulesModel,
    dir: Seq<char>,
)
    requires
        spec_subtree_clean(t),
    ensures
        forall|n: int|
            0 <= n < spec_collect(pages_dir, t, inherited, dir).len() ==> #[trigger] spec_collect(
                pages_dir,
                t,
                inherited,
                dir,
            )[n].render_rules == spec_effective(inherited, t),
    decreases t,
{
    let eff = spec_effective(inherited, t);
    lemma_rules_govern_children(pages_dir, t.subdirs@, eff, dir);
}

proof fn lemma_rules_govern_children(
    pages_dir: Seq<char>,
    children: Seq<DirTree>,
    eff: RenderRulesModel,
    dir: Seq<char>,
)
    requires
        spec_children_clean(children),
    ensures
        forall|n: int|
            0 <= n < spec_collect_children(pages_dir, children, eff, dir).len()
                ==> #[trigger] spec_collect_children(
                pages_dir,
                children,
                eff,
                dir,
            )[n].render_rules == eff,
    decreases children,
{
    if children.len() == 0 {
    } else {
        let head = children[0];
        let cdir = spec_child_path(dir, head.name@);
        assert(spec_effective(eff, head) == eff);
        lemma_rules_govern_subtree(pages_dir, head, eff, cdir);
        lemma_rules_govern_children(pages_dir, children.drop_first(), eff, dir);
        let whole = spec_collect_children(pages_dir, children, eff, dir);
        let first = spec_collect(pages_dir, head, eff, cdir);
        let rest = spec_collect_children(pages_dir, children.drop_first(), eff, dir);
        assert forall|n: int| 0 <= n < whole.len() implies #[trigger] whole[n].render_rules
            == eff by {
            if n < first.len() {
                assert(whole[n] == first[n]);
            } else {
                assert(whole[n] == rest[n - first.len()]);
            }
        }
    }
}

} // verus!
