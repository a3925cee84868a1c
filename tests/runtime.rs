use story_nodes::draw::{Draw, DrawCmd};
use story_nodes::nodes::{Input, Nodes};
use story_nodes::story::{ChoiceBundle, Fade, SingleStory, Story, StoryId};
use story_nodes::tree::StoryTree;

const NONE: Input = Input { confirm: false, prev: false, next: false };
const CONFIRM: Input = Input { confirm: true, prev: false, next: false };
const NEXT: Input = Input { confirm: false, prev: false, next: true };
const PREV: Input = Input { confirm: false, prev: true, next: false };

fn title(text: &str, size: u32) -> StoryTree {
    StoryTree::Title { text: text.to_string(), size }
}

fn fade(milliseconds: usize, node: StoryTree, followup: Option<StoryTree>) -> StoryTree {
    StoryTree::Fade(Fade {
        milliseconds,
        start: 0,
        node: Box::new(node),
        followup: followup.map(Box::new),
    })
}

fn menu(entries: Vec<(&str, StoryTree)>) -> StoryTree {
    StoryTree::Choices(ChoiceBundle(
        entries.into_iter().map(|(l, t)| (l.to_string(), Box::new(t))).collect(),
        0,
    ))
}

fn flat_title(text: &str, size: u32) -> SingleStory {
    Story::Title { text: text.to_string(), size }
}

fn selected(n: &Nodes) -> usize {
    match n.current() {
        Some((_, Story::Choices(ChoiceBundle(_, s)))) => s,
        other => panic!("not a menu: {:?}", other),
    }
}

fn end_to_end_tree() -> StoryTree {
    menu(vec![("Start", fade(0, title("Mid", 30), Some(title("End", 30))))])
}

#[test]
fn end_to_end_fade_scenario() {
    let mut n = Nodes::new(&end_to_end_tree(), 0, 1);
    assert_eq!(n.current().unwrap().0, StoryId(3));
    n.update(CONFIRM, 5);
    match n.current() {
        Some((id, Story::Fade(f))) => {
            assert_eq!(id, StoryId(2));
            assert_eq!(f.start, 5);
            assert_eq!(f.node, StoryId(0));
            assert_eq!(f.followup, Some(StoryId(1)));
        }
        other => panic!("expected the fade, got {:?}", other),
    }
    assert!(n.retained().is_empty());
    n.update(NONE, 6);
    assert_eq!(n.retained(), &vec![flat_title("Mid", 30)]);
    assert_eq!(n.current(), Some((StoryId(1), flat_title("End", 30))));
    n.update(NONE, 7);
    n.update(CONFIRM, 8);
    assert_eq!(n.retained(), &vec![flat_title("Mid", 30)]);
    assert_eq!(n.current(), Some((StoryId(1), flat_title("End", 30))));
}

#[test]
fn menu_without_input_is_unchanged() {
    let tree = menu(vec![("A", title("a", 10)), ("B", title("b", 10))]);
    let mut n = Nodes::new(&tree, 0, 1);
    n.update(NEXT, 1);
    let before = n.current();
    let frame_before = n.render(1);
    n.update(NONE, 2);
    assert_eq!(n.current(), before);
    assert_eq!(n.render(2), frame_before);
}

#[test]
fn choice_wrap_around() {
    let tree = menu(vec![("A", title("a", 10)), ("B", title("b", 10)), ("C", title("c", 10))]);
    let mut n = Nodes::new(&tree, 0, 1);
    assert_eq!(selected(&n), 0);
    n.update(PREV, 1);
    assert_eq!(selected(&n), 2);
    n.update(NEXT, 2);
    assert_eq!(selected(&n), 0);
    n.update(NEXT, 3);
    assert_eq!(selected(&n), 1);
    n.update(PREV, 4);
    assert_eq!(selected(&n), 0);
    for t in 0..3 {
        n.update(NEXT, 5 + t);
    }
    assert_eq!(selected(&n), 0);
    n.update(Input { confirm: false, prev: true, next: true }, 9);
    assert_eq!(selected(&n), 0);
}

#[test]
fn confirm_enters_selected_choice() {
    let tree = menu(vec![("A", title("a", 10)), ("B", title("b", 12))]);
    let mut n = Nodes::new(&tree, 0, 1);
    n.update(NEXT, 1);
    n.update(Input { confirm: true, prev: false, next: true }, 2);
    assert_eq!(n.current(), Some((StoryId(1), flat_title("b", 12))));
}

#[test]
fn empty_menu_ignores_input() {
    let tree = menu(vec![]);
    let mut n = Nodes::new(&tree, 0, 1);
    let before = n.current();
    n.update(CONFIRM, 1);
    n.update(NEXT, 2);
    n.update(PREV, 3);
    assert_eq!(n.current(), before);
    assert!(n.render(3).is_empty());
}

#[test]
fn fade_freshening_restarts_timer() {
    let tree = menu(vec![("Go", fade(1000, title("x", 10), None))]);
    let mut n = Nodes::new(&tree, 0, 1);
    n.update(CONFIRM, 5_000_000_000);
    match n.current() {
        Some((_, Story::Fade(f))) => {
            assert_eq!(f.start, 5_000_000_000);
            assert_eq!(f.elapsed(5_000_000_000, 1), 0);
            assert!(!f.complete(5_000_000_000, 1));
        }
        other => panic!("expected the fade, got {:?}", other),
    }
    n.update(NONE, 5_000_000_000 + 999_999_999);
    assert!(n.retained().is_empty());
    n.update(NONE, 5_000_000_000 + 1_000_000_000);
    assert!(n.retained().is_empty());
    n.update(NONE, 5_000_000_000 + 1_000_000_001);
    assert_eq!(n.retained(), &vec![flat_title("x", 10)]);
    assert_eq!(n.current(), None);
}

#[test]
fn fade_completion_without_followup_ends() {
    let tree = fade(0, title("only", 16), None);
    let mut n = Nodes::new(&tree, 10, 1);
    n.update(NONE, 10);
    assert!(n.current().is_some());
    n.update(NONE, 11);
    assert_eq!(n.current(), None);
    assert_eq!(n.retained(), &vec![flat_title("only", 16)]);
    n.update(NONE, 12);
    assert_eq!(n.current(), None);
    assert_eq!(n.retained().len(), 1);
}

#[test]
fn speed_multiplier_scales_fades() {
    let tree = fade(1, title("t", 10), None);
    let mut n = Nodes::new(&tree, 0, 100);
    n.update(NONE, 10_001);
    assert_eq!(n.current(), None);
    let mut slow = Nodes::new(&tree, 0, 1);
    slow.update(NONE, 10_001);
    assert!(slow.current().is_some());
}

#[test]
fn render_retained_before_current() {
    let tree = fade(0, title("first", 10), Some(fade(0, title("second", 14), Some(title("last", 18)))));
    let mut n = Nodes::new(&tree, 0, 1);
    n.update(NONE, 1);
    n.update(NONE, 2);
    assert_eq!(n.retained(), &vec![flat_title("first", 10), flat_title("second", 14)]);
    let cmds = n.render(2);
    let texts: Vec<&str> = cmds.iter().map(|c| c.text.as_str()).collect();
    assert_eq!(texts, vec!["first", "second", "last"]);
    assert_eq!(cmds[0].y, 10);
    assert_eq!(cmds[1].y, 40);
    assert_eq!(cmds[2].y, 74);
    assert_eq!(cmds[2].x, 20);
    assert_eq!(cmds[2].size, 18);
}

#[test]
fn render_menu_rows_and_marker() {
    let tree = menu(vec![("A", title("a", 10)), ("B", title("b", 10))]);
    let mut n = Nodes::new(&tree, 0, 1);
    n.update(NEXT, 1);
    let cmds = n.render(1);
    let expect = vec![
        DrawCmd { text: "A".to_string(), x: 40, y: 10, size: 20, alpha: 255 },
        DrawCmd { text: "B".to_string(), x: 40, y: 50, size: 20, alpha: 255 },
        DrawCmd { text: ">".to_string(), x: 20, y: 50, size: 20, alpha: 255 },
    ];
    assert_eq!(cmds, expect);
}

#[test]
fn render_fade_alpha_follows_progress() {
    let tree = menu(vec![("Go", fade(1000, title("x", 10), None))]);
    let mut n = Nodes::new(&tree, 0, 1);
    n.update(CONFIRM, 0);
    let cmds = n.render(500_000_000);
    assert_eq!(cmds.len(), 1);
    assert_eq!(cmds[0].alpha, 127);
    assert_eq!(n.render(0)[0].alpha, 0);
    assert_eq!(n.render(2_000_000_000)[0].alpha, 255);
}

#[test]
fn fade_helpers_exact_values() {
    let f: Fade<StoryId> = Fade { milliseconds: 3, start: 100, node: StoryId(0), followup: None };
    assert_eq!(f.duration(), 3_000_000);
    assert_eq!(f.elapsed(50, 7), 0);
    assert_eq!(f.elapsed(300, 7), 1400);
    assert!(!f.complete(3_000_100, 1));
    assert!(f.complete(3_000_101, 1));
    assert_eq!(f.progress_alpha(1_500_100, 1), 127);
    assert_eq!(f.progress_alpha(100 + 3_000_000 * 4, 1), 255);
    let z: Fade<StoryId> = Fade { milliseconds: 0, start: 5, node: StoryId(0), followup: None };
    assert_eq!(z.progress_alpha(5, 1), 0);
    assert_eq!(z.progress_alpha(6, 1), 255);
    assert_eq!(z.elapsed(u64::MAX, u64::MAX), (u64::MAX as u128 - 5) * u64::MAX as u128);
}

#[test]
fn draw_cursor_advances() {
    let mut d = Draw::new();
    let mut out = Vec::new();
    d.draw_cursor_text("hello".to_string(), 30, 20, &mut out);
    assert_eq!(d.cursor_y, 50);
    assert_eq!(out, vec![DrawCmd { text: "hello".to_string(), x: 20, y: 10, size: 30, alpha: 255 }]);
    let mut far = Draw { transparency: 9, cursor_y: u64::MAX - 5 };
    far.draw_cursor_text("x".to_string(), 1, 20, &mut out);
    assert_eq!(far.cursor_y, u64::MAX);
    assert_eq!(out[1].y, u64::MAX);
    assert_eq!(out[1].alpha, 9);
}

#[test]
fn snapshot_keeps_node() {
    let n: SingleStory = Story::Choices(ChoiceBundle(vec![("a".to_string(), StoryId(4)), ("b".to_string(), StoryId(2))], 1));
    assert_eq!(n.snapshot(), n);
    let f: SingleStory = Story::File("other.yaml".to_string());
    assert_eq!(f.snapshot(), f);
}
