use vstd::prelude::*;

verus! {

/// Identifier of a node in a flattened story graph: its index in the arena.
#[derive(Clone, Copy, Debug, PartialEq, Eq, Structural)]
pub struct StoryId(pub u32);

/// An ordered list of labelled choices and the index of the selected one.
#[derive(Clone, Debug, PartialEq, Eq)]
pub struct ChoiceBundle<R>(pub Vec<(String, R)>, pub usize);

/// A node shown while fading in, with an optional node to move on to afterwards.
///
/// Times are readings of a monotonic clock in nanoseconds.
#[derive(Clone, Debug, PartialEq, Eq)]
pub struct Fade<R> {
    pub milliseconds: usize,
    pub start: u64,
    pub node: R,
    pub followup: Option<R>,
}

/// One unit of narrative content, generic over how child nodes are referenced.
#[derive(Clone, Debug, PartialEq, Eq)]
pub enum Story<R> {
    Choices(ChoiceBundle<R>),
    File(String),
    Fade(Fade<R>),
    Title { text: String, size: u32 },
}

/// A node of the flat graph: children are referenced by identifier.
pub type SingleStory = Story<StoryId>;

/// Mathematical model of a flat-graph node.
pub enum NodeView {
    Choices(Seq<(Seq<char>, nat)>, nat),
    File(Seq<char>),
    Fade { milliseconds: nat, start: nat, node: nat, followup: Option<nat> },
    Title { text: Seq<char>, size: nat },
}

pub open spec fn choice_view(c: (String, StoryId)) -> (Seq<char>, nat) {
    (c.0@, c.1.0 as nat)
}

/// Models of a list of labelled choices.
pub open spec fn choices_view(cs: Seq<(String, StoryId)>) -> Seq<(Seq<char>, nat)> {
    cs.map_values(|c: (String, StoryId)| choice_view(c))
}

impl View for Story<StoryId> {
    type V = NodeView;

    open spec fn view(&self) -> NodeView {
        match self {
            Story::Choices(cb) => NodeView::Choices(choices_view(cb.0@), cb.1 as nat),
            Story::File(s) => NodeView::File(s@),
            Story::Fade(f) => NodeView::Fade {
                milliseconds: f.milliseconds as nat,
                start: f.start as nat,
                node: f.node.0 as nat,
                followup: match f.followup {
                    Some(t) => Some(t.0 as nat),
                    None => None,
                },
            },
            Story::Title { text, size } => NodeView::Title { text: text@, size: *size as nat },
        }
    }
}

/// Models of a sequence of flat-graph nodes.
pub open spec fn views(s: Seq<SingleStory>) -> Seq<NodeView> {
    s.map_values(|n: SingleStory| n@)
}

/// Every identifier that a node refers to is below `bound`.
pub open spec fn refs_below(n: NodeView, bound: nat) -> bool {
    match n {
        NodeView::Choices(cs, _) => forall|i: int| 0 <= i < cs.len() ==> #[trigger] cs[i].1 < bound,
        NodeView::Fade { node, followup, .. } => node < bound && match followup {
            Some(t) => t < bound,
            None => true,
        },
        _ => true,
    }
}

/// A bound on references holds of every larger bound.
pub proof fn lemma_refs_mono(n: NodeView, a: nat, b: nat)
    requires
        refs_below(n, a),
        a <= b,
    ensures
        refs_below(n, b),
{
}

/// The node with its fade timer restarted at `now`; other nodes are unchanged.
pub open spec fn restarted(n: NodeView, now: nat) -> NodeView {
    match n {
        NodeView::Fade { milliseconds, node, followup, .. } => NodeView::Fade {
            milliseconds,
            start: now,
            node,
            followup,
        },
        _ => n,
    }
}

/// Time elapsed since `start`, in nanoseconds, scaled by `speed` (zero if `now` is earlier).
pub open spec fn elapsed_at(start: nat, now: nat, speed: nat) -> nat {
    if now <= start {
        0
    } else {
        ((now - start) * speed) as nat
    }
}

/// A duration of `milliseconds`, in nanoseconds.
pub open spec fn duration_of(milliseconds: nat) -> nat {
    milliseconds * 1_000_000
}

pub open spec fn complete_at(milliseconds: nat, start: nat, now: nat, speed: nat) -> bool {
    elapsed_at(start, now, speed) > duration_of(milliseconds)
}

/// Opacity of a fade: its progress scaled to 0..=255 and clamped.
pub open spec fn alpha_at(milliseconds: nat, start: nat, now: nat, speed: nat) -> nat {
    let e = elapsed_at(start, now, speed);
    let d = duration_of(milliseconds);
    if d == 0 {
        if e == 0 { 0 } else { 255 }
    } else if e >= d {
        255
    } else {
        e * 255 / d
    }
}

impl<R> Fade<R> {
    /// Time since the fade started, in nanoseconds, multiplied by `speed`.
    pub fn elapsed(&self, now: u64, speed: u64) -> (r: u128)
        ensures
            r as nat == elapsed_at(self.start as nat, now as nat, speed as nat),
    {
        if now <= self.start {
            0
        } else {
            let d: u64 = now - self.start;
            assert((d as nat) * (speed as nat) <= 0xffff_ffff_ffff_ffffnat * 0xffff_ffff_ffff_ffffnat)
                by (nonlinear_arith)
                requires
                    d <= 0xffff_ffff_ffff_ffffnat,
                    speed <= 0xffff_ffff_ffff_ffffnat,
            ;
            (d as u128) * (speed as u128)
        }
    }

    /// The configured length of the fade, in nanoseconds.
    pub fn duration(&self) -> (r: u128)
        ensures
            r as nat == duration_of(self.milliseconds as nat),
    {
        (self.milliseconds as u128) * 1_000_000
    }

    /// Whether the elapsed time strictly exceeds the duration.
    pub fn complete(&self, now: u64, speed: u64) -> (r: bool)
        ensures
            r == complete_at(self.milliseconds as nat, self.start as nat, now as nat, speed as nat),
    {
        self.elapsed(now, speed) > self.duration()
    }

    /// Progress of the fade as an 8-bit opacity, clamped to 255.
    pub fn progress_alpha(&self, now: u64, speed: u64) -> (r: u8)
        ensures
            r as nat == alpha_at(self.milliseconds as nat, self.start as nat, now as nat, speed as nat),
    {
        let e = self.elapsed(now, speed);
        let d = self.duration();
        if d == 0 {
            if e == 0 { 0 } else { 255 }
        } else if e >= d {
            255
        } else {
            let en: u128 = e;
            let dn: u128 = d;
            assert(dn <= 0xffff_ffff_ffff_ffffnat * 1_000_000);
            assert((en as int) * 255 / (dn as int) < 255) by (nonlinear_arith)
                requires
                    en < dn,
                    dn > 0,
            ;
            (e * 255 / d) as u8
        }
    }
}

impl Story<StoryId> {
    /// A copy of this node with the same model.
    pub fn snapshot(&self) -> (r: Self)
        ensures
            r@ == self@,
    {
        match self {
            Story::Choices(cb) => {
                let mut v: Vec<(String, StoryId)> = Vec::new();
                let mut i: usize = 0;
                while i < cb.0.len()
                    invariant
                        i <= cb.0.len(),
                        v@.len() == i,
                        choices_view(v@) == choices_view(cb.0@.subrange(0, i as int)),
                    decreases cb.0.len() - i,
                {
                    let ghost before = v@;
                    v.push((cb.0[i].0.clone(), cb.0[i].1));
                    assert forall|j: int| 0 <= j < i + 1 implies #[trigger] choices_view(v@)[j]
                        == choices_view(cb.0@.subrange(0, i + 1))[j] by {
                        if j < i {
                            assert(v@[j] == before[j]);
                            assert(choices_view(before)[j] == choices_view(cb.0@.subrange(0, i as int))[j]);
                        }
                    }
                    assert(choices_view(v@) =~= choices_view(cb.0@.subrange(0, i + 1)));
                    i = i + 1;
                }
                assert(cb.0@.subrange(0, cb.0.len() as int) =~= cb.0@);
                Story::Choices(ChoiceBundle(v, cb.1))
            },
            Story::File(s) => Story::File(s.clone()),
            Story::Fade(f) => Story::Fade(
                Fade { milliseconds: f.milliseconds, start: f.start, node: f.node, followup: f.followup },
            ),
            Story::Title { text, size } => Story::Title { text: text.clone(), size: *size },
        }
    }
}

} // verus!
