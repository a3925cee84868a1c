use vstd::prelude::*;
use crate::story::{
    ChoiceBundle, Fade, NodeView, SingleStory, Story, StoryId, choices_view, complete_at, elapsed_at,
    lemma_refs_mono, refs_below, restarted, views,
};
use crate::tree::{StoryTree, closed, flat, lemma_flat_closed, lemma_flat_len, tree_size};
use crate::draw::{Draw, DrawCmd, DrawView, Pen, draw_views, render_node, render_seq};

verus! {

/// The input events of one frame.
#[derive(Clone, Copy, Debug, PartialEq, Eq, Structural)]
pub struct Input {
    pub confirm: bool,
    pub prev: bool,
    pub next: bool,
}

/// Selection after moving down one entry of `k`, wrapping to the first.
pub open spec fn next_index(s: nat, k: nat) -> nat {
    if s + 1 >= k {
        0
    } else {
        s + 1
    }
}

/// Selection after moving up one entry of `k`, wrapping to the last.
pub open spec fn prev_index(s: nat, k: nat) -> nat {
    if s == 0 || s >= k {
        (k - 1) as nat
    } else {
        (s - 1) as nat
    }
}

/// Selection after the navigation events of one frame: next first, then previous.
/// An empty list of choices does not navigate.
pub open spec fn navigated(s: nat, k: nat, input: Input) -> nat {
    let s1 = if input.next && k > 0 {
        next_index(s, k)
    } else {
        s
    };
    if input.prev && k > 0 {
        prev_index(s1, k)
    } else {
        s1
    }
}

/// Model of the runtime: the flat graph, the current node with its identifier, the
/// retained nodes, and the speed multiplier of fades.
pub struct NodesView {
    pub map: Seq<NodeView>,
    pub current: Option<(nat, NodeView)>,
    pub retained: Seq<NodeView>,
    pub speed: nat,
}

/// Entering node `id`: a copy from the graph with its fade timer restarted at `now`.
pub open spec fn fresh(map: Seq<NodeView>, id: nat, now: nat) -> (nat, NodeView) {
    (id, restarted(map[id as int], now))
}

/// The state after one frame with `input` at time `now`.
pub open spec fn step(v: NodesView, input: Input, now: nat) -> NodesView {
    match v.current {
        None => v,
        Some((id, n)) => match n {
            NodeView::Choices(cs, s) => if input.confirm && s < cs.len() {
                NodesView { current: Some(fresh(v.map, cs[s as int].1, now)), ..v }
            } else {
                NodesView {
                    current: Some((id, NodeView::Choices(cs, navigated(s, cs.len(), input)))),
                    ..v
                }
            },
            NodeView::Fade { milliseconds, start, node, followup } => if complete_at(
                milliseconds,
                start,
                now,
                v.speed,
            ) {
                NodesView {
                    current: match followup {
                        Some(t) => Some(fresh(v.map, t, now)),
                        None => None,
                    },
                    retained: v.retained.push(v.map[node as int]),
                    ..v
                }
            } else {
                v
            },
            _ => v,
        },
    }
}

/// The graph refers only to nodes stored earlier, and the current and retained nodes
/// refer only to nodes of the graph.
pub open spec fn wf_view(v: NodesView) -> bool {
    &&& closed(v.map)
    &&& v.map.len() <= 0x1_0000_0000
    &&& match v.current {
        Some((id, n)) => id < v.map.len() && refs_below(n, v.map.len()),
        None => true,
    }
    &&& forall|i: int| 0 <= i < v.retained.len() ==> refs_below(#[trigger] v.retained[i], v.map.len())
}

/// Everything one frame draws: the retained nodes in the order they were kept, then
/// the current node, starting at full opacity at the top.
pub open spec fn frame(v: NodesView, now: nat) -> Seq<DrawView> {
    let (kept, pen) = render_seq(v.map, v.retained, v.retained.len(), now, v.speed, Pen { alpha: 255, y: 0 });
    match v.current {
        Some((_, n)) => kept + render_node(v.map, n, v.map.len(), now, v.speed, pen).0,
        None => kept,
    }
}

/// The running story: an immutable graph, the node that takes input, and the nodes
/// that stay on screen.
pub struct Nodes {
    story_map: Vec<SingleStory>,
    current_story: Option<(StoryId, SingleStory)>,
    scene: Vec<SingleStory>,
    speed: u64,
}

impl View for Nodes {
    type V = NodesView;

    closed spec fn view(&self) -> NodesView {
        NodesView {
            map: views(self.story_map@),
            current: match self.current_story {
                Some((id, s)) => Some((id.0 as nat, s@)),
                None => None,
            },
            retained: views(self.scene@),
            speed: self.speed as nat,
        }
    }
}

impl Nodes {
    /// Flattens `story` and enters its root at time `now`. Fades run `speed` times
    /// faster than the clock.
    pub fn new(story: &StoryTree, now: u64, speed: u64) -> (r: Self)
        requires
            tree_size(*story) <= 0x1_0000_0000,
        ensures
            r@.map == flat(*story, 0),
            r@.current == Some(fresh(r@.map, (tree_size(*story) - 1) as nat, now as nat)),
            r@.retained == Seq::<NodeView>::empty(),
            r@.speed == speed as nat,
            wf_view(r@),
    {
        let mut story_map: Vec<SingleStory> = Vec::new();
        let root = story.add_single_story(&mut story_map);
        proof {
            lemma_flat_len(*story, 0);
            lemma_flat_closed(*story, 0);
            assert(views(story_map@) =~= flat(*story, 0));
            assert(closed(views(story_map@)));
        }
        let mut n = Nodes { story_map, current_story: None, scene: Vec::new(), speed };
        let cur = n.freshen_story(root, now);
        n.current_story = Some(cur);
        proof {
            let m = n@.map;
            lemma_refs_mono(m[root.0 as int], root.0 as nat, m.len());
            assert(n@.retained =~= Seq::<NodeView>::empty());
        }
        n
    }

    /// A copy of graph node `id` to enter at time `now`, with its fade timer restarted.
    fn freshen_story(&self, id: StoryId, now: u64) -> (r: (StoryId, SingleStory))
        requires
            (id.0 as nat) < self.story_map@.len(),
        ensures
            r.0 == id,
            r.1@ == restarted(views(self.story_map@)[id.0 as int], now as nat),
    {
        let story = self.story_map[id.0 as usize].snapshot();
        match story {
            Story::Fade(f) => (
                id,
                Story::Fade(Fade { milliseconds: f.milliseconds, start: now, node: f.node, followup: f.followup }),
            ),
            other => (id, other),
        }
    }

    /// Advances one frame: applies the input to a menu, or finishes a fade that has
    /// run its course.
    pub fn update(&mut self, input: Input, now: u64)
        requires
            wf_view(old(self)@),
        ensures
            final(self)@ == step(old(self)@, input, now as nat),
            final(self)@.map == old(self)@.map,
            wf_view(final(self)@),
    {
        let ghost v0 = self@;
        let cur = self.current_story.take();
        let next = match cur {
            None => None,
            Some((id, story)) => match story {
                Story::Choices(ChoiceBundle(choices, selected)) => {
                    let len = choices.len();
                    if input.confirm && selected < len {
                        let target = choices[selected].1;
                        proof {
                            let cs = choices_view(choices@);
                            assert(cs[selected as int].1 == target.0 as nat);
                            assert(cs[selected as int].1 < v0.map.len());
                            lemma_refs_mono(v0.map[target.0 as int], target.0 as nat, v0.map.len());
                        }
                        Some(self.freshen_story(target, now))
                    } else {
                        let mut sel = selected;
                        if input.next && len > 0 {
                            sel = if sel >= len - 1 { 0 } else { sel + 1 };
                        }
                        if input.prev && len > 0 {
                            sel = if sel == 0 || sel >= len { len - 1 } else { sel - 1 };
                        }
                        Some((id, Story::Choices(ChoiceBundle(choices, sel))))
                    }
                },
                Story::Fade(f) => {
                    if f.complete(now, self.speed) {
                        let kept = self.story_map[f.node.0 as usize].snapshot();
                        let ghost scene_before = self.scene@;
                        self.scene.push(kept);
                        proof {
                            assert(views(self.scene@) =~= views(scene_before).push(kept@));
                            lemma_refs_mono(v0.map[f.node.0 as int], f.node.0 as nat, v0.map.len());
                        }
                        match f.followup {
                            Some(t) => {
                                proof {
                                    lemma_refs_mono(v0.map[t.0 as int], t.0 as nat, v0.map.len());
                                }
                                Some(self.freshen_story(t, now))
                            },
                            None => None,
                        }
                    } else {
                        Some((id, Story::Fade(f)))
                    }
                },
                other => Some((id, other)),
            },
        };
        self.current_story = next;
    }

    /// The flat graph.
    pub fn story_map(&self) -> (r: &Vec<SingleStory>)
        ensures
            views(r@) == self@.map,
    {
        &self.story_map
    }

    /// The node that takes input, with its identifier.
    pub fn current(&self) -> (r: Option<(StoryId, SingleStory)>)
        ensures
            match r {
                Some((id, n)) => self@.current == Some((id.0 as nat, n@)),
                None => self@.current is None,
            },
    {
        match &self.current_story {
            Some((id, n)) => Some((*id, n.snapshot())),
            None => None,
        }
    }

    /// The nodes that stay on screen, in the order they were kept.
    pub fn retained(&self) -> (r: &Vec<SingleStory>)
        ensures
            views(r@) == self@.retained,
    {
        &self.scene
    }

    /// The draw commands of one frame at time `now`.
    pub fn render(&self, now: u64) -> (r: Vec<DrawCmd>)
        requires
            wf_view(self@),
        ensures
            draw_views(r@) == frame(self@, now as nat),
    {
        let ghost v = self@;
        let mut draw = Draw::new();
        let mut out: Vec<DrawCmd> = Vec::new();
        let mut i: usize = 0;
        assert(draw_views(out@) =~= Seq::<DrawView>::empty());
        while i < self.scene.len()
            invariant
                v == self@,
                wf_view(v),
                i <= self.scene.len(),
                draw_views(out@) == render_seq(v.map, v.retained, i as nat, now as nat, v.speed, Pen { alpha: 255, y: 0 }).0,
                draw.pen() == render_seq(v.map, v.retained, i as nat, now as nat, v.speed, Pen { alpha: 255, y: 0 }).1,
            decreases self.scene.len() - i,
        {
            assert(self.scene@[i as int]@ == v.retained[i as int]);
            assert(refs_below(v.retained[i as int], v.map.len()));
            draw.render(&self.story_map, &self.scene[i], Ghost(self.story_map@.len() as nat), now, self.speed, &mut out);
            i = i + 1;
        }
        match &self.current_story {
            Some((_, cs)) => {
                draw.render(&self.story_map, cs, Ghost(self.story_map@.len() as nat), now, self.speed, &mut out);
            },
            None => {},
        }
        out
    }
}

/// A frame in which only "next" is pressed.
pub open spec fn next_only() -> Input {
    Input { confirm: false, prev: false, next: true }
}

/// A frame in which only "previous" is pressed.
pub open spec fn prev_only() -> Input {
    Input { confirm: false, prev: true, next: false }
}

/// A frame without input.
pub open spec fn no_input() -> Input {
    Input { confirm: false, prev: false, next: false }
}

/// `n` frames with the same input at the same time.
pub open spec fn repeat_step(v: NodesView, input: Input, now: nat, n: nat) -> NodesView
    decreases n,
{
    if n == 0 {
        v
    } else {
        step(repeat_step(v, input, now, (n - 1) as nat), input, now)
    }
}

/// On a menu of `k > 0` entries with entry `s` selected, "next" selects `(s + 1) mod k`,
/// "previous" selects `(s - 1 + k) mod k`, and `k` frames of "next" come back to `s`.
pub proof fn lemma_choice_wrap_around(v: NodesView, id: nat, cs: Seq<(Seq<char>, nat)>, s: nat, now: nat)
    requires
        v.current == Some((id, NodeView::Choices(cs, s))),
        s < cs.len(),
    ensures
        step(v, next_only(), now) == (NodesView {
            current: Some((id, NodeView::Choices(cs, ((s + 1) as int % (cs.len() as int)) as nat))),
            ..v
        }),
        step(v, prev_only(), now) == (NodesView {
            current: Some((id, NodeView::Choices(cs, ((s - 1 + cs.len()) as int % (cs.len() as int)) as nat))),
            ..v
        }),
        repeat_step(v, next_only(), now, cs.len()) == v,
{
    let k = cs.len();
    lemma_next_is_mod(s, k);
    lemma_prev_is_mod(s, k);
    lemma_repeat_next(v, id, cs, s, now, k);
    vstd::arithmetic::div_mod::lemma_mod_self_0(k as int);
    vstd::arithmetic::div_mod::lemma_add_mod_noop(s as int, k as int, k as int);
    vstd::arithmetic::div_mod::lemma_small_mod(s, k);
}

proof fn lemma_next_is_mod(s: nat, k: nat)
    requires
        s < k,
    ensures
        next_index(s, k) == (s + 1) as int % (k as int),
{
    if s + 1 == k {
        vstd::arithmetic::div_mod::lemma_mod_self_0(k as int);
    } else {
        vstd::arithmetic::div_mod::lemma_small_mod((s + 1) as nat, k);
    }
}

proof fn lemma_prev_is_mod(s: nat, k: nat)
    requires
        s < k,
    ensures
        prev_index(s, k) == (s - 1 + k) as int % (k as int),
{
    if s == 0 {
        vstd::arithmetic::div_mod::lemma_small_mod((k - 1) as nat, k);
    } else {
        vstd::arithmetic::div_mod::lemma_mod_add_multiples_vanish((s - 1) as int, k as int);
        vstd::arithmetic::div_mod::lemma_small_mod((s - 1) as nat, k);
    }
}

proof fn lemma_repeat_next(v: NodesView, id: nat, cs: Seq<(Seq<char>, nat)>, s: nat, now: nat, n: nat)
    requires
        v.current == Some((id, NodeView::Choices(cs, s))),
        s < cs.len(),
    ensures
        repeat_step(v, next_only(), now, n) == (NodesView {
            current: Some((id, NodeView::Choices(cs, ((s + n) as int % (cs.len() as int)) as nat))),
            ..v
        }),
    decreases n,
{
    let k = cs.len();
    if n == 0 {
        vstd::arithmetic::div_mod::lemma_small_mod(s, k);
    } else {
        lemma_repeat_next(v, id, cs, s, now, (n - 1) as nat);
        let r = ((s + n - 1) as int % (k as int)) as nat;
        vstd::arithmetic::div_mod::lemma_mod_bound((s + n - 1) as int, k as int);
        lemma_next_is_mod(r, k);
        vstd::arithmetic::div_mod::lemma_add_mod_noop((s + n - 1) as int, 1, k as int);
        if k == 1 {
            vstd::arithmetic::div_mod::lemma_mod_self_0(1);
            vstd::arithmetic::div_mod::lemma_mod_bound((s + n) as int, 1);
        } else {
            vstd::arithmetic::div_mod::lemma_small_mod(1, k);
        }
    }
}

/// Entering a fade restarts its timer: right after, no time has elapsed, and a fade
/// with a positive duration is not complete.
pub proof fn lemma_fade_freshening(map: Seq<NodeView>, id: nat, now: nat, speed: nat)
    requires
        id < map.len(),
        map[id as int] is Fade,
    ensures
        fresh(map, id, now).1 is Fade,
        fresh(map, id, now).1->Fade_start == now,
        elapsed_at(fresh(map, id, now).1->Fade_start, now, speed) == 0,
        map[id as int]->Fade_milliseconds > 0 ==> !complete_at(
            fresh(map, id, now).1->Fade_milliseconds,
            fresh(map, id, now).1->Fade_start,
            now,
            speed,
        ),
{
}

/// A fade whose time has run out, such as one of zero milliseconds on any frame after
/// it started, completes on the next frame: the node it shows is kept on screen, and
/// its follow-up, freshly entered, becomes current (or nothing does).
pub proof fn lemma_fade_completion(v: NodesView, input: Input, now: nat)
    requires
        v.current matches Some((_, NodeView::Fade { milliseconds, start, .. })) && (complete_at(
            milliseconds,
            start,
            now,
            v.speed,
        ) || (milliseconds == 0 && start < now && v.speed > 0)),
    ensures
        step(v, input, now).retained == v.retained.push(v.map[v.current->Some_0.1->Fade_node as int]),
        step(v, input, now).current == match v.current->Some_0.1->Fade_followup {
            Some(t) => Some(fresh(v.map, t, now)),
            None => None,
        },
        step(v, input, now).map == v.map,
{
    let start = v.current->Some_0.1->Fade_start;
    if start < now && v.speed > 0 {
        assert((now - start) * v.speed > 0) by (nonlinear_arith)
            requires
                now > start,
                v.speed > 0,
        ;
    }
}

/// A frame draws every retained node before the current one, in the order they were
/// kept: the commands of the first `n` retained nodes begin the frame.
pub proof fn lemma_render_order(v: NodesView, now: nat, n: nat)
    requires
        n <= v.retained.len(),
    ensures
        ({
            let first = render_seq(v.map, v.retained, n, now, v.speed, Pen { alpha: 255, y: 0 }).0;
            frame(v, now).subrange(0, first.len() as int) == first
        }),
{
    lemma_render_seq_prefix(v.map, v.retained, n, v.retained.len(), now, v.speed, Pen { alpha: 255, y: 0 });
    let first = render_seq(v.map, v.retained, n, now, v.speed, Pen { alpha: 255, y: 0 }).0;
    let all = render_seq(v.map, v.retained, v.retained.len(), now, v.speed, Pen { alpha: 255, y: 0 }).0;
    assert(frame(v, now).subrange(0, all.len() as int) =~= all);
    assert(frame(v, now).subrange(0, first.len() as int) =~= all.subrange(0, first.len() as int));
}

proof fn lemma_render_seq_prefix(map: Seq<NodeView>, nodes: Seq<NodeView>, n: nat, m: nat, now: nat, speed: nat, pen: Pen)
    requires
        n <= m <= nodes.len(),
    ensures
        ({
            let a = render_seq(map, nodes, n, now, speed, pen).0;
            let b = render_seq(map, nodes, m, now, speed, pen).0;
            a.len() <= b.len() && b.subrange(0, a.len() as int) == a
        }),
    decreases m,
{
    let a = render_seq(map, nodes, n, now, speed, pen).0;
    if n == m {
        assert(a.subrange(0, a.len() as int) =~= a);
    } else {
        lemma_render_seq_prefix(map, nodes, n, (m - 1) as nat, now, speed, pen);
        let b1 = render_seq(map, nodes, (m - 1) as nat, now, speed, pen).0;
        let b = render_seq(map, nodes, m, now, speed, pen).0;
        assert(b.subrange(0, a.len() as int) =~= b1.subrange(0, a.len() as int));
    }
}

/// A menu that gets a frame without input stays as it is, and so does what the
/// frame draws.
pub proof fn lemma_menu_idle(v: NodesView, now: nat)
    requires
        v.current matches Some((_, n)) && n is Choices,
    ensures
        step(v, no_input(), now) == v,
        frame(step(v, no_input(), now), now) == frame(v, now),
{
}

} // verus!
