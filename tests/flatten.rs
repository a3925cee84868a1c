use story_nodes::story::{ChoiceBundle, Fade, SingleStory, Story, StoryId};
use story_nodes::tree::StoryTree;

fn title(text: &str) -> StoryTree {
    StoryTree::Title { text: text.to_string(), size: 20 }
}

fn refs(n: &SingleStory) -> Vec<StoryId> {
    match n {
        Story::Choices(ChoiceBundle(cs, _)) => cs.iter().map(|c| c.1).collect(),
        Story::Fade(f) => {
            let mut v = vec![f.node];
            v.extend(f.followup);
            v
        }
        _ => vec![],
    }
}

fn sample() -> StoryTree {
    StoryTree::Choices(ChoiceBundle(
        vec![
            ("one".to_string(), Box::new(title("t1"))),
            (
                "two".to_string(),
                Box::new(StoryTree::Fade(Fade {
                    milliseconds: 10,
                    start: 3,
                    node: Box::new(title("t2")),
                    followup: Some(Box::new(StoryTree::File("more.yaml".to_string()))),
                })),
            ),
            ("one".to_string(), Box::new(title("t3"))),
        ],
        1,
    ))
}

#[test]
fn flatten_has_one_entry_per_node() {
    let m = sample().flatten();
    assert_eq!(m.len(), 6);
    for (i, n) in m.iter().enumerate() {
        for r in refs(n) {
            assert!((r.0 as usize) < i);
        }
    }
}

#[test]
fn flatten_keeps_structure() {
    let m = sample().flatten();
    assert_eq!(m[0], Story::Title { text: "t1".to_string(), size: 20 });
    assert_eq!(m[1], Story::Title { text: "t2".to_string(), size: 20 });
    assert_eq!(m[2], Story::File("more.yaml".to_string()));
    assert_eq!(
        m[3],
        Story::Fade(Fade { milliseconds: 10, start: 3, node: StoryId(1), followup: Some(StoryId(2)) })
    );
    assert_eq!(m[4], Story::Title { text: "t3".to_string(), size: 20 });
    assert_eq!(
        m[5],
        Story::Choices(ChoiceBundle(
            vec![("one".to_string(), StoryId(0)), ("two".to_string(), StoryId(3)), ("one".to_string(), StoryId(4))],
            1
        ))
    );
}

#[test]
fn flatten_appends_after_existing_nodes() {
    let mut m = vec![Story::File("x".to_string())];
    let root = title("a").add_single_story(&mut m);
    assert_eq!(root, StoryId(1));
    let root = sample().add_single_story(&mut m);
    assert_eq!(root, StoryId(7));
    assert_eq!(m.len(), 8);
    assert_eq!(m[2], Story::Title { text: "t1".to_string(), size: 20 });
}

#[test]
fn identifiers_are_distinct() {
    let m = sample().flatten();
    let mut seen: Vec<StoryId> = Vec::new();
    for n in &m {
        for r in refs(n) {
            assert!(!seen.contains(&r));
            seen.push(r);
        }
    }
    assert_eq!(seen.len(), m.len() - 1);
}

#[test]
fn single_node_tree() {
    let m = title("alone").flatten();
    assert_eq!(m, vec![Story::Title { text: "alone".to_string(), size: 20 }]);
}
