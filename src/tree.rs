use vstd::prelude::*;
use crate::story::{
    ChoiceBundle, Fade, NodeView, SingleStory, Story, StoryId, choice_view, choices_view,
    lemma_refs_mono, refs_below, views,
};

verus! {

broadcast use vstd::std_specs::vec::group_vec_axioms, vstd::seq::group_seq_axioms;

/// An owned story tree, as a loader produces it: the same four kinds of node as
/// [`Story`], with children owned.
#[derive(Debug, PartialEq, Eq)]
pub enum StoryTree {
    Choices(ChoiceBundle<Box<StoryTree>>),
    File(String),
    Fade(Fade<Box<StoryTree>>),
    Title { text: String, size: u32 },
}

/// Number of nodes in a tree.
pub open spec fn tree_size(t: StoryTree) -> nat
    decreases t,
{
    match t {
        StoryTree::Choices(cb) => 1 + choices_size(cb.0@),
        StoryTree::Fade(f) => 1 + tree_size(*f.node) + match f.followup {
            Some(x) => tree_size(*x),
            None => 0,
        },
        _ => 1,
    }
}

/// Number of nodes under a list of choices.
pub open spec fn choices_size(cs: Seq<(String, Box<StoryTree>)>) -> nat
    decreases cs,
{
    if cs.len() == 0 {
        0
    } else {
        choices_size(cs.drop_last()) + tree_size(*cs.last().1)
    }
}

/// The flat nodes of a tree whose identifiers start at `base`, children before parents.
pub open spec fn flat(t: StoryTree, base: nat) -> Seq<NodeView>
    decreases t,
{
    match t {
        StoryTree::Choices(cb) => {
            let kids = flat_choices(cb.0@, base);
            kids.0.push(NodeView::Choices(kids.1, cb.1 as nat))
        },
        StoryTree::File(s) => seq![NodeView::File(s@)],
        StoryTree::Fade(f) => {
            let a = flat(*f.node, base);
            let node_id = (base + a.len() - 1) as nat;
            match f.followup {
                Some(x) => {
                    let b = flat(*x, base + a.len());
                    (a + b).push(NodeView::Fade {
                        milliseconds: f.milliseconds as nat,
                        start: f.start as nat,
                        node: node_id,
                        followup: Some((base + a.len() + b.len() - 1) as nat),
                    })
                },
                None => a.push(NodeView::Fade {
                    milliseconds: f.milliseconds as nat,
                    start: f.start as nat,
                    node: node_id,
                    followup: None,
                }),
            }
        },
        StoryTree::Title { text, size } => seq![NodeView::Title { text: text@, size: size as nat }],
    }
}

/// The flat nodes under a list of choices, and each choice's label with the identifier
/// of its root.
pub open spec fn flat_choices(cs: Seq<(String, Box<StoryTree>)>, base: nat) -> (Seq<NodeView>, Seq<(Seq<char>, nat)>)
    decreases cs,
{
    if cs.len() == 0 {
        (seq![], seq![])
    } else {
        let p = flat_choices(cs.drop_last(), base);
        let last = flat(*cs.last().1, base + p.0.len());
        (p.0 + last, p.1.push((cs.last().0@, (base + p.0.len() + last.len() - 1) as nat)))
    }
}

/// Every node refers only to nodes stored before it.
pub open spec fn closed(m: Seq<NodeView>) -> bool {
    forall|i: int| 0 <= i < m.len() ==> refs_below(#[trigger] m[i], i as nat)
}

pub proof fn lemma_flat_len(t: StoryTree, base: nat)
    ensures
        flat(t, base).len() == tree_size(t),
        tree_size(t) >= 1,
    decreases t,
{
    match t {
        StoryTree::Choices(cb) => lemma_flat_choices_len(cb.0@, base),
        StoryTree::Fade(f) => {
            lemma_flat_len(*f.node, base);
            match f.followup {
                Some(x) => lemma_flat_len(*x, base + tree_size(*f.node)),
                None => {},
            }
        },
        _ => {},
    }
}

pub proof fn lemma_flat_choices_len(cs: Seq<(String, Box<StoryTree>)>, base: nat)
    ensures
        flat_choices(cs, base).0.len() == choices_size(cs),
        flat_choices(cs, base).1.len() == cs.len(),
    decreases cs,
{
    if cs.len() > 0 {
        lemma_flat_choices_len(cs.drop_last(), base);
        lemma_flat_len(*cs.last().1, base + choices_size(cs.drop_last()));
    }
}

/// A list of choices with ids below `bound` for every label.
pub open spec fn ids_below(ids: Seq<(Seq<char>, nat)>, bound: nat) -> bool {
    forall|j: int| 0 <= j < ids.len() ==> #[trigger] ids[j].1 < bound
}

pub proof fn lemma_flat_closed(t: StoryTree, base: nat)
    ensures
        forall|i: int| 0 <= i < flat(t, base).len() ==> refs_below(#[trigger] flat(t, base)[i], (base + i) as nat),
    decreases t,
{
    lemma_flat_len(t, base);
    match t {
        StoryTree::Choices(cb) => {
            lemma_flat_choices_closed(cb.0@, base);
            lemma_flat_choices_len(cb.0@, base);
        },
        StoryTree::Fade(f) => {
            lemma_flat_closed(*f.node, base);
            lemma_flat_len(*f.node, base);
            let a = flat(*f.node, base);
            match f.followup {
                Some(x) => {
                    lemma_flat_closed(*x, base + a.len());
                    lemma_flat_len(*x, base + a.len());
                    let b = flat(*x, base + a.len());
                    assert forall|i: int| 0 <= i < flat(t, base).len() implies refs_below(
                        #[trigger] flat(t, base)[i],
                        (base + i) as nat,
                    ) by {
                        if i < a.len() {
                            assert(flat(t, base)[i] == a[i]);
                        } else if i < a.len() + b.len() {
                            assert(flat(t, base)[i] == b[i - a.len()]);
                        }
                    }
                },
                None => {
                    assert forall|i: int| 0 <= i < flat(t, base).len() implies refs_below(
                        #[trigger] flat(t, base)[i],
                        (base + i) as nat,
                    ) by {
                        if i < a.len() {
                            assert(flat(t, base)[i] == a[i]);
                        }
                    }
                },
            }
        },
        _ => {},
    }
}

pub proof fn lemma_flat_choices_closed(cs: Seq<(String, Box<StoryTree>)>, base: nat)
    ensures
        forall|i: int|
            0 <= i < flat_choices(cs, base).0.len() ==> refs_below(
                #[trigger] flat_choices(cs, base).0[i],
                (base + i) as nat,
            ),
        ids_below(flat_choices(cs, base).1, base + flat_choices(cs, base).0.len()),
    decreases cs,
{
    if cs.len() > 0 {
        let p = flat_choices(cs.drop_last(), base);
        lemma_flat_choices_closed(cs.drop_last(), base);
        let last = flat(*cs.last().1, base + p.0.len());
        lemma_flat_closed(*cs.last().1, base + p.0.len());
        lemma_flat_len(*cs.last().1, base + p.0.len());
        let r = flat_choices(cs, base);
        assert forall|i: int| 0 <= i < r.0.len() implies refs_below(#[trigger] r.0[i], (base + i) as nat) by {
            if i >= p.0.len() {
                assert(r.0[i] == last[i - p.0.len()]);
            } else {
                assert(r.0[i] == p.0[i]);
            }
        }
        assert forall|j: int| 0 <= j < r.1.len() implies #[trigger] r.1[j].1 < base + r.0.len() by {
            if j < p.1.len() {
                assert(r.1[j] == p.1[j]);
            }
        }
    }
}

/// Sizes of prefixes of a list of choices grow with the prefix.
pub proof fn lemma_choices_prefix_size(cs: Seq<(String, Box<StoryTree>)>, i: int)
    requires
        0 <= i <= cs.len(),
    ensures
        choices_size(cs.subrange(0, i)) <= choices_size(cs),
    decreases cs.len(),
{
    if i == cs.len() {
        assert(cs.subrange(0, i) =~= cs);
    } else {
        lemma_choices_prefix_size(cs.drop_last(), i);
        assert(cs.drop_last().subrange(0, i) =~= cs.subrange(0, i));
    }
}

impl StoryTree {
    /// Appends the flat nodes of this tree to `sm`, children before parents, and returns
    /// the identifier of this tree's root, which is its index in `sm`.
    pub fn add_single_story(&self, sm: &mut Vec<SingleStory>) -> (r: StoryId)
        requires
            old(sm).len() + tree_size(*self) <= 0x1_0000_0000,
        ensures
            views(final(sm)@) == views(old(sm)@) + flat(*self, old(sm).len() as nat),
            r.0 as nat == old(sm).len() + tree_size(*self) - 1,
        decreases self,
    {
        let ghost base = sm.len() as nat;
        proof { lemma_flat_len(*self, base); }
        match self {
            StoryTree::Choices(cb) => {
                let mut ids: Vec<(String, StoryId)> = Vec::new();
                let mut i: usize = 0;
                let ghost cs = cb.0@;
                assert(cs.subrange(0, 0) =~= seq![]);
                while i < cb.0.len()
                    invariant
                        *self == StoryTree::Choices(*cb),
                        cs == cb.0@,
                        i <= cs.len(),
                        base + tree_size(*self) <= 0x1_0000_0000,
                        tree_size(*self) == 1 + choices_size(cs),
                        base == old(sm).len(),
                        views(sm@) == views(old(sm)@) + flat_choices(cs.subrange(0, i as int), base).0,
                        choices_view(ids@) == flat_choices(cs.subrange(0, i as int), base).1,
                    decreases cs.len() - i,
                {
                    let ghost pre = cs.subrange(0, i as int);
                    let ghost next = cs.subrange(0, i as int + 1);
                    assert(next.drop_last() =~= pre);
                    assert(next.last() == cs[i as int]);
                    proof {
                        lemma_choices_prefix_size(cs, i as int + 1);
                        lemma_flat_choices_len(pre, base);
                        lemma_flat_len(*cs[i as int].1, base + choices_size(pre));
                    }
                    let entry = &cb.0[i];
                    assert(decreases_to!(*self => *cb));
                    assert(decreases_to!(*cb => cb.0));
                    assert(decreases_to!(cb.0 => cb.0[i as int]));
                    assert(decreases_to!(cb.0[i as int] => cb.0[i as int].1));
                    assert(decreases_to!(*self => *entry.1));
                    assert(choices_size(next) == choices_size(pre) + tree_size(*cs[i as int].1));
                    assert(sm.len() == views(sm@).len());
                    let ghost ids_before = ids@;
                    let id = entry.1.add_single_story(sm);
                    ids.push((entry.0.clone(), id));
                    proof {
                        assert(choices_view(ids@) =~= choices_view(ids_before).push(choice_view(ids@.last())));
                        assert(views(sm@) =~= views(old(sm)@) + flat_choices(next, base).0);
                    }
                    i = i + 1;
                }
                assert(cs.subrange(0, cs.len() as int) =~= cs);
                proof { lemma_flat_choices_len(cs, base); }
                assert(sm.len() == views(sm@).len());
                let id = StoryId(sm.len() as u32);
                let ghost sm_before = sm@;
                let ghost kids = flat_choices(cs, base);
                let node = Story::Choices(ChoiceBundle(ids, cb.1));
                assert(node@ == NodeView::Choices(kids.1, cb.1 as nat));
                sm.push(node);
                assert(views(sm@) =~= views(sm_before).push(node@));
                assert(flat(*self, base) == kids.0.push(NodeView::Choices(kids.1, cb.1 as nat)));
                assert(views(sm@) =~= views(old(sm)@) + flat(*self, base));
                id
            },
            StoryTree::File(s) => {
                let id = StoryId(sm.len() as u32);
                let ghost sm_before = sm@;
                let n = Story::File(s.clone());
                sm.push(n);
                assert(views(sm@) =~= views(sm_before).push(n@));
                assert(views(sm@) =~= views(old(sm)@) + flat(*self, base));
                id
            },
            StoryTree::Fade(f) => {
                proof { lemma_flat_len(*f.node, base); }
                let node = f.node.add_single_story(sm);
                let ghost a = flat(*f.node, base);
                assert(views(sm@) == views(old(sm)@) + a);
                assert(sm.len() == views(sm@).len());
                let followup = match &f.followup {
                    Some(x) => {
                        proof { lemma_flat_len(**x, base + tree_size(*f.node)); }
                        let r = x.add_single_story(sm);
                        assert(views(sm@) =~= views(old(sm)@) + (a + flat(**x, base + a.len())));
                        Some(r)
                    },
                    None => None,
                };
                assert(sm.len() == views(sm@).len());
                let id = StoryId(sm.len() as u32);
                let ghost sm_before = sm@;
                let n = Story::Fade(Fade { milliseconds: f.milliseconds, start: f.start, node, followup });
                sm.push(n);
                assert(views(sm@) =~= views(sm_before).push(n@));
                assert(views(sm@) =~= views(old(sm)@) + flat(*self, base));
                id
            },
            StoryTree::Title { text, size } => {
                let id = StoryId(sm.len() as u32);
                let ghost sm_before = sm@;
                let n = Story::Title { text: text.clone(), size: *size };
                sm.push(n);
                assert(views(sm@) =~= views(sm_before).push(n@));
                assert(views(sm@) =~= views(old(sm)@) + flat(*self, base));
                id
            },
        }
    }
}

impl StoryTree {
    /// The flat graph of this tree: children before parents, the root last, each node
    /// identified by its index.
    pub fn flatten(&self) -> (r: Vec<SingleStory>)
        requires
            tree_size(*self) <= 0x1_0000_0000,
        ensures
            views(r@) == flat(*self, 0),
    {
        let mut sm: Vec<SingleStory> = Vec::new();
        self.add_single_story(&mut sm);
        assert(views(sm@) =~= flat(*self, 0));
        sm
    }
}

/// Flattening a tree of `n` nodes gives a graph of exactly `n` nodes, the root last,
/// in which every identifier that a node refers to is a node of the graph (stored
/// before the node that refers to it).
pub proof fn lemma_flatten_complete(t: StoryTree)
    ensures
        flat(t, 0).len() == tree_size(t),
        closed(flat(t, 0)),
        forall|i: int| 0 <= i < flat(t, 0).len() ==> refs_below(#[trigger] flat(t, 0)[i], flat(t, 0).len()),
{
    lemma_flat_len(t, 0);
    lemma_flat_closed(t, 0);
    let m = flat(t, 0);
    assert forall|i: int| 0 <= i < m.len() implies refs_below(#[trigger] m[i], m.len()) by {
        lemma_refs_mono(m[i], i as nat, m.len());
    }
}

/// The identifiers that flattening from `base` gives the nodes of a tree, children
/// before parents: each node's is its index in the flat graph.
pub open spec fn tree_ids(t: StoryTree, base: nat) -> Seq<nat>
    decreases t,
{
    match t {
        StoryTree::Choices(cb) => choices_ids(cb.0@, base).push(base + choices_size(cb.0@)),
        StoryTree::Fade(f) => {
            let a = tree_ids(*f.node, base);
            let own = (base + tree_size(t) - 1) as nat;
            match f.followup {
                Some(x) => (a + tree_ids(*x, base + tree_size(*f.node))).push(own),
                None => a.push(own),
            }
        },
        _ => seq![base],
    }
}

/// The identifiers of the nodes under a list of choices.
pub open spec fn choices_ids(cs: Seq<(String, Box<StoryTree>)>, base: nat) -> Seq<nat>
    decreases cs,
{
    if cs.len() == 0 {
        seq![]
    } else {
        choices_ids(cs.drop_last(), base) + tree_ids(*cs.last().1, base + choices_size(cs.drop_last()))
    }
}

/// The identifiers from `base` of `n` consecutive nodes.
pub open spec fn id_range(base: nat, n: nat) -> Seq<nat> {
    Seq::new(n, |i: int| (base + i) as nat)
}

/// No two nodes of a tree get the same identifier: the `n` nodes get `base`,
/// `base + 1`, ..., `base + n - 1`, one each, and node `k` is stored at index
/// `base + k`.
pub proof fn lemma_identifiers_unique(t: StoryTree, base: nat)
    ensures
        tree_ids(t, base) == id_range(base, tree_size(t)),
        tree_ids(t, base).len() == flat(t, base).len(),
        tree_ids(t, base).no_duplicates(),
{
    lemma_tree_ids(t, base);
    lemma_flat_len(t, base);
}

proof fn lemma_tree_ids(t: StoryTree, base: nat)
    ensures
        tree_ids(t, base) == id_range(base, tree_size(t)),
    decreases t,
{
    lemma_flat_len(t, base);
    match t {
        StoryTree::Choices(cb) => {
            lemma_choices_ids(cb.0@, base);
            assert(tree_ids(t, base) =~= id_range(base, tree_size(t)));
        },
        StoryTree::Fade(f) => {
            lemma_tree_ids(*f.node, base);
            match f.followup {
                Some(x) => {
                    lemma_tree_ids(*x, base + tree_size(*f.node));
                },
                None => {},
            }
            assert(tree_ids(t, base) =~= id_range(base, tree_size(t)));
        },
        _ => {
            assert(tree_ids(t, base) =~= id_range(base, tree_size(t)));
        },
    }
}

proof fn lemma_choices_ids(cs: Seq<(String, Box<StoryTree>)>, base: nat)
    ensures
        choices_ids(cs, base) == id_range(base, choices_size(cs)),
    decreases cs,
{
    if cs.len() == 0 {
        assert(choices_ids(cs, base) =~= id_range(base, 0));
    } else {
        lemma_choices_ids(cs.drop_last(), base);
        lemma_tree_ids(*cs.last().1, base + choices_size(cs.drop_last()));
        assert(choices_ids(cs, base) =~= id_range(base, choices_size(cs)));
    }
}

} // verus!
