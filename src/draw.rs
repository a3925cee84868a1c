use vstd::prelude::*;
use crate::story::{NodeView, SingleStory, Story, alpha_at, refs_below, views};
use crate::tree::closed;

verus! {

/// One line of text to draw: position, size and opacity.
#[derive(Clone, Debug, PartialEq, Eq)]
pub struct DrawCmd {
    pub text: String,
    pub x: u32,
    pub y: u64,
    pub size: u32,
    pub alpha: u8,
}

/// Model of a draw command.
pub struct DrawView {
    pub text: Seq<char>,
    pub x: nat,
    pub y: nat,
    pub size: nat,
    pub alpha: nat,
}

impl View for DrawCmd {
    type V = DrawView;

    open spec fn view(&self) -> DrawView {
        DrawView {
            text: self.text@,
            x: self.x as nat,
            y: self.y as nat,
            size: self.size as nat,
            alpha: self.alpha as nat,
        }
    }
}

pub open spec fn draw_views(s: Seq<DrawCmd>) -> Seq<DrawView> {
    s.map_values(|c: DrawCmd| c@)
}

/// Model of the drawing state: the opacity in force and the vertical cursor.
pub struct Pen {
    pub alpha: nat,
    pub y: nat,
}

/// Keeps a cursor position within `u64`.
pub open spec fn sat(x: nat) -> nat {
    if x > u64::MAX {
        u64::MAX as nat
    } else {
        x
    }
}

/// Horizontal position of titles and of the selection marker.
pub const TEXT_X: u32 = 20;

/// Horizontal position of choice labels.
pub const CHOICE_X: u32 = 40;

/// Text size of choice labels and of the selection marker.
pub const CHOICE_SIZE: u32 = 20;

/// A line of text at the cursor; the cursor moves down by the size and a margin.
pub open spec fn text_at(text: Seq<char>, x: nat, size: nat, pen: Pen) -> (DrawView, Pen) {
    (
        DrawView { text, x, y: sat(pen.y + 10), size, alpha: pen.alpha },
        Pen { alpha: pen.alpha, y: sat(pen.y + size + 20) },
    )
}

/// The first `n` rows of a menu: each label, and the marker beside the selected one.
pub open spec fn choice_rows(cs: Seq<(Seq<char>, nat)>, sel: nat, pen: Pen, n: nat) -> (Seq<DrawView>, Pen)
    decreases n,
{
    if n == 0 || n > cs.len() {
        (seq![], pen)
    } else {
        let (p, pen1) = choice_rows(cs, sel, pen, (n - 1) as nat);
        let (line, pen2) = text_at(cs[n - 1].0, CHOICE_X as nat, CHOICE_SIZE as nat, pen1);
        let row = if n - 1 == sel {
            seq![line, DrawView { text: seq!['>'], x: TEXT_X as nat, y: line.y, size: CHOICE_SIZE as nat, alpha: pen1.alpha }]
        } else {
            seq![line]
        };
        (p + row, pen2)
    }
}

/// What a node draws, with graph nodes below `bound` in reach: a fade sets the
/// opacity from its progress and draws the node it wraps.
pub open spec fn render_node(map: Seq<NodeView>, n: NodeView, bound: nat, now: nat, speed: nat, pen: Pen) -> (Seq<DrawView>, Pen)
    decreases bound,
{
    match n {
        NodeView::Choices(cs, sel) => choice_rows(cs, sel, pen, cs.len()),
        NodeView::File(_) => (seq![], pen),
        NodeView::Fade { milliseconds, start, node, .. } => {
            let pen1 = Pen { alpha: alpha_at(milliseconds, start, now, speed), y: pen.y };
            if node < bound {
                render_node(map, map[node as int], node, now, speed, pen1)
            } else {
                (seq![], pen1)
            }
        },
        NodeView::Title { text, size } => {
            let (line, pen1) = text_at(text, TEXT_X as nat, size, pen);
            (seq![line], pen1)
        },
    }
}

/// What the first `n` of `nodes` draw, one after another.
pub open spec fn render_seq(map: Seq<NodeView>, nodes: Seq<NodeView>, n: nat, now: nat, speed: nat, pen: Pen) -> (Seq<DrawView>, Pen)
    decreases n,
{
    if n == 0 || n > nodes.len() {
        (seq![], pen)
    } else {
        let (a, pen1) = render_seq(map, nodes, (n - 1) as nat, now, speed, pen);
        let (b, pen2) = render_node(map, nodes[n - 1], map.len(), now, speed, pen1);
        (a + b, pen2)
    }
}

/// Cursor and opacity of one drawing pass.
pub struct Draw {
    pub transparency: u8,
    pub cursor_y: u64,
}

impl Draw {
    pub open spec fn pen(&self) -> Pen {
        Pen { alpha: self.transparency as nat, y: self.cursor_y as nat }
    }

    /// Full opacity, cursor at the top.
    pub fn new() -> (r: Self)
        ensures
            r.pen() == (Pen { alpha: 255, y: 0 }),
    {
        Draw { transparency: 255, cursor_y: 0 }
    }

    /// Emits `text` at the cursor and moves the cursor down.
    pub fn draw_cursor_text(&mut self, text: String, size: u32, x: u32, out: &mut Vec<DrawCmd>)
        ensures
            draw_views(final(out)@) == draw_views(old(out)@).push(text_at(text@, x as nat, size as nat, old(self).pen()).0),
            final(self).pen() == text_at(text@, x as nat, size as nat, old(self).pen()).1,
    {
        let ghost before = out@;
        out.push(DrawCmd { text, x, y: self.cursor_y.saturating_add(10), size, alpha: self.transparency });
        assert(draw_views(out@) =~= draw_views(before).push(out@.last()@));
        self.cursor_y = self.cursor_y.saturating_add(size as u64).saturating_add(20);
    }

    /// Emits the draw commands of `story`, whose references are below `bound`.
    pub fn render(
        &mut self,
        map: &Vec<SingleStory>,
        story: &SingleStory,
        bound: Ghost<nat>,
        now: u64,
        speed: u64,
        out: &mut Vec<DrawCmd>,
    )
        requires
            closed(views(map@)),
            bound@ <= map@.len(),
            refs_below(story@, bound@),
        ensures
            draw_views(final(out)@) == draw_views(old(out)@) + render_node(
                views(map@),
                story@,
                bound@,
                now as nat,
                speed as nat,
                old(self).pen(),
            ).0,
            final(self).pen() == render_node(
                views(map@),
                story@,
                bound@,
                now as nat,
                speed as nat,
                old(self).pen(),
            ).1,
        decreases bound@,
    {
        let ghost out0 = out@;
        let ghost pen0 = self.pen();
        match story {
            Story::Choices(cb) => {
                let ghost cs = crate::story::choices_view(cb.0@);
                let ghost sel = cb.1 as nat;
                let mut i: usize = 0;
                while i < cb.0.len()
                    invariant
                        i <= cb.0.len(),
                        cs == crate::story::choices_view(cb.0@),
                        sel == cb.1 as nat,
                        draw_views(out@) == draw_views(out0) + choice_rows(cs, sel, pen0, i as nat).0,
                        self.pen() == choice_rows(cs, sel, pen0, i as nat).1,
                    decreases cb.0.len() - i,
                {
                    let ghost pen1 = self.pen();
                    let y = self.cursor_y.saturating_add(10);
                    let alpha = self.transparency;
                    self.draw_cursor_text(cb.0[i].0.clone(), CHOICE_SIZE, CHOICE_X, out);
                    let ghost p = choice_rows(cs, sel, pen0, i as nat).0;
                    let ghost line = text_at(cs[i as int].0, CHOICE_X as nat, CHOICE_SIZE as nat, pen1).0;
                    assert(draw_views(out@) =~= draw_views(out0) + (p + seq![line]));
                    if i == cb.1 {
                        let ghost before = out@;
                        let marker = DrawCmd { text: ">".to_owned(), x: TEXT_X, y, size: CHOICE_SIZE, alpha };
                        let ghost mark = DrawView {
                            text: seq!['>'],
                            x: TEXT_X as nat,
                            y: line.y,
                            size: CHOICE_SIZE as nat,
                            alpha: pen1.alpha,
                        };
                        proof {
                            reveal_strlit(">");
                            assert(marker@.text =~= seq!['>']);
                            assert(marker@ == mark);
                        }
                        out.push(marker);
                        assert(draw_views(out@) =~= draw_views(before).push(mark));
                        assert(draw_views(out@) =~= draw_views(out0) + (p + seq![line, mark]));
                    }
                    i = i + 1;
                }
            },
            Story::File(_) => {
                assert(draw_views(out@) =~= draw_views(out0) + Seq::<DrawView>::empty());
            },
            Story::Fade(f) => {
                self.transparency = f.progress_alpha(now, speed);
                proof {
                    let m = views(map@);
                    assert(refs_below(m[f.node.0 as int], f.node.0 as nat));
                }
                self.render(map, &map[f.node.0 as usize], Ghost(f.node.0 as nat), now, speed, out);
            },
            Story::Title { text, size } => {
                self.draw_cursor_text(text.clone(), *size, TEXT_X, out);
                let ghost line = text_at(text@, TEXT_X as nat, *size as nat, pen0).0;
                assert(draw_views(out@) =~= draw_views(out0) + seq![line]);
            },
        }
    }
}

} // verus!
