use engine2d::generation::Obstacles;
use engine2d::objects::{MovingRect, Vec2};
use engine2d::responsetree::ListTreeNode;
use engine2d::storyparser::{NamedScene, Response, Scene, Story};

fn pair(x: i32) -> (MovingRect, MovingRect) {
    (
        MovingRect::new(x, 0, 1, 1, Vec2::new(0, 0)),
        MovingRect::new(x, 10, 1, 1, Vec2::new(0, 0)),
    )
}

#[test]
fn select_obstacle_walks_the_weights() {
    let table = Obstacles {
        obstacles: vec![pair(1), pair(2), pair(3)],
        frequency_values: vec![1, 2, 3],
    };
    assert_eq!(table.select_obstacle(0), pair(1));
    assert_eq!(table.select_obstacle(1), pair(2));
    assert_eq!(table.select_obstacle(2), pair(2));
    assert_eq!(table.select_obstacle(3), pair(3));
    assert_eq!(table.select_obstacle(5), pair(3));
    // a draw past every weight falls back to the last entry
    assert_eq!(table.select_obstacle(100), pair(3));
}

#[test]
fn select_obstacle_with_fewer_weights_than_entries() {
    let table = Obstacles {
        obstacles: vec![pair(1), pair(2)],
        frequency_values: vec![1],
    };
    assert_eq!(table.select_obstacle(0), pair(1));
    // the walk runs past the zipped lists and falls back to the last entry
    assert_eq!(table.select_obstacle(1), pair(2));
}

#[test]
fn generate_obstacles_returns_a_table_entry() {
    let table = Obstacles {
        obstacles: vec![pair(1), pair(2), pair(3)],
        frequency_values: vec![1, 1, 1],
    };
    for _ in 0..50 {
        let got = table.generate_obstacles();
        assert!(got == pair(1) || got == pair(2) || got == pair(3));
    }
}

#[test]
fn generate_obstacles_with_total_weight_one_is_deterministic() {
    // the only valid draw below a total weight of 1 is 0, which selects
    // the first entry; the second entry is only reachable by an
    // out-of-range draw
    let table = Obstacles {
        obstacles: vec![pair(1), pair(2)],
        frequency_values: vec![1],
    };
    for _ in 0..20 {
        assert_eq!(table.generate_obstacles(), pair(1));
    }
}

#[test]
fn tree_node_new_starts_at_the_beginning() {
    let node = ListTreeNode::new(
        "hello".to_string(),
        vec!["yes".to_string(), "no".to_string()],
        Vec::new(),
    );
    assert_eq!(node.message, "hello");
    assert_eq!(node.text_index, 0);
    assert_eq!(node.response_index, 0);
    assert_eq!(node.responses.len(), 2);
    assert!(node.children.is_empty());
}

#[test]
fn tree_node_add_appends_a_child() {
    let mut node = ListTreeNode::new("root".to_string(), Vec::new(), Vec::new());
    node.add("child".to_string(), vec!["ok".to_string()], Vec::new());
    assert_eq!(node.children.len(), 1);
    assert_eq!(node.children[0].message, "child");
    assert_eq!(node.children[0].responses, vec!["ok".to_string()]);
    assert_eq!(node.message, "root");
}

#[test]
fn tree_node_next_descends_into_a_branch() {
    let grandchild = ListTreeNode::new("deep".to_string(), Vec::new(), Vec::new());
    let mut node = ListTreeNode::new("root".to_string(), vec!["go".to_string()], Vec::new());
    node.add(
        "left".to_string(),
        vec!["a".to_string()],
        vec![grandchild],
    );
    node.add("right".to_string(), vec!["b".to_string()], Vec::new());
    node.next(1);
    assert_eq!(node.message, "right");
    assert_eq!(node.text_index, 0);
    assert_eq!(node.responses, vec!["b".to_string()]);
    assert_eq!(node.response_index, 0);
    assert!(node.children.is_empty());
}

#[test]
fn story_data_holds_scenes_and_responses() {
    let story = Story {
        story_name: "voyage".to_string(),
        scenes: vec![NamedScene {
            scene_name: "intro".to_string(),
            scene: Scene {
                name: "intro".to_string(),
                message: "welcome aboard".to_string(),
                response_message: "what do you do".to_string(),
                responses: vec![Response {
                    response: "set sail".to_string(),
                    goto: "sea".to_string(),
                }],
            },
        }],
    };
    assert_eq!(story.scenes.len(), 1);
    assert_eq!(story.scenes[0].scene.responses[0].goto, "sea");
}
