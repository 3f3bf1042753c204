use canvas_relay::canvas::{AuthorSteps, Canvas};
use canvas_relay::event::{Event, Step};

fn step(id: i32, coords: Vec<i32>, color: &str) -> Step {
    Step { id, coords, color: color.to_string() }
}

fn steps_of<'a>(snapshot: &'a [AuthorSteps], author: &str) -> Option<&'a Vec<Step>> {
    snapshot.iter().find(|e| e.author == author).map(|e| &e.steps)
}

fn summary(steps: &[Step]) -> Vec<(i32, Vec<i32>, String)> {
    steps.iter().map(|s| (s.id, s.coords.clone(), s.color.clone())).collect()
}

#[test]
fn same_id_merges_coords_and_latest_color() {
    let mut canvas = Canvas::new();
    canvas.apply("alice".to_string(), step(1, vec![0, 0], "red"));
    canvas.apply("alice".to_string(), step(1, vec![1, 1], "blue"));
    let snap = canvas.snapshot();
    assert_eq!(snap.len(), 1);
    let alice = steps_of(&snap, "alice").unwrap();
    assert_eq!(summary(alice), vec![(1, vec![0, 0, 1, 1], "blue".to_string())]);
}

#[test]
fn resending_a_step_appends_its_coords_again() {
    let mut once = Canvas::new();
    once.apply("bob".to_string(), step(4, vec![2, 3], "green"));
    let mut twice = Canvas::new();
    twice.apply("bob".to_string(), step(4, vec![2, 3], "green"));
    twice.apply("bob".to_string(), step(4, vec![2, 3], "green"));
    let a = once.snapshot();
    let b = twice.snapshot();
    assert_eq!(summary(steps_of(&a, "bob").unwrap()), vec![(4, vec![2, 3], "green".to_string())]);
    assert_eq!(summary(steps_of(&b, "bob").unwrap()), vec![(4, vec![2, 3, 2, 3], "green".to_string())]);
}

#[test]
fn distinct_ids_are_ordered_whatever_the_arrival() {
    let mut up = Canvas::new();
    up.apply("carol".to_string(), step(1, vec![0, 0], "red"));
    up.apply("carol".to_string(), step(2, vec![5, 5], "blue"));
    let mut down = Canvas::new();
    down.apply("carol".to_string(), step(2, vec![5, 5], "blue"));
    down.apply("carol".to_string(), step(1, vec![0, 0], "red"));
    let expected = vec![(1, vec![0, 0], "red".to_string()), (2, vec![5, 5], "blue".to_string())];
    assert_eq!(summary(steps_of(&up.snapshot(), "carol").unwrap()), expected);
    assert_eq!(summary(steps_of(&down.snapshot(), "carol").unwrap()), expected);
}

#[test]
fn steps_are_inserted_in_id_order_among_others() {
    let mut canvas = Canvas::new();
    for id in [7, -3, 12, 0, 7] {
        canvas.apply("dan".to_string(), step(id, vec![id, id], "black"));
    }
    let snap = canvas.snapshot();
    let ids: Vec<i32> = steps_of(&snap, "dan").unwrap().iter().map(|s| s.id).collect();
    assert_eq!(ids, vec![-3, 0, 7, 12]);
    let seven = steps_of(&snap, "dan").unwrap().iter().find(|s| s.id == 7).unwrap();
    assert_eq!(seven.coords, vec![7, 7, 7, 7]);
}

#[test]
fn authors_are_kept_apart() {
    let mut canvas = Canvas::new();
    canvas.apply("alice".to_string(), step(1, vec![0, 0], "red"));
    canvas.apply("bob".to_string(), step(1, vec![9, 9], "blue"));
    let snap = canvas.snapshot();
    assert_eq!(snap.len(), 2);
    assert_eq!(summary(steps_of(&snap, "alice").unwrap()), vec![(1, vec![0, 0], "red".to_string())]);
    assert_eq!(summary(steps_of(&snap, "bob").unwrap()), vec![(1, vec![9, 9], "blue".to_string())]);
}

#[test]
fn empty_canvas_has_empty_snapshot() {
    let canvas = Canvas::new();
    assert!(canvas.snapshot().is_empty());
}

#[test]
fn snapshot_is_a_copy() {
    let mut canvas = Canvas::new();
    canvas.apply("erin".to_string(), step(1, vec![1, 2], "red"));
    let mut snap = canvas.snapshot();
    snap[0].steps[0].coords.push(99);
    snap[0].author.push('x');
    let again = canvas.snapshot();
    assert_eq!(summary(steps_of(&again, "erin").unwrap()), vec![(1, vec![1, 2], "red".to_string())]);
}

#[test]
fn record_applies_only_canvas_steps() {
    let mut canvas = Canvas::new();
    canvas.record(&Event::Chat { author: "fay".to_string(), text: "hi".to_string() });
    canvas.record(&Event::Canvas { author: "fay".to_string(), step: None });
    assert!(canvas.snapshot().is_empty());
    canvas.record(&Event::Canvas { author: "fay".to_string(), step: Some(step(3, vec![4, 4], "pink")) });
    let snap = canvas.snapshot();
    assert_eq!(summary(steps_of(&snap, "fay").unwrap()), vec![(3, vec![4, 4], "pink".to_string())]);
}

#[test]
fn extreme_ids_keep_their_order() {
    let mut canvas = Canvas::new();
    canvas.apply("gus".to_string(), step(i32::MAX, vec![], "a"));
    canvas.apply("gus".to_string(), step(i32::MIN, vec![], "b"));
    let snap = canvas.snapshot();
    let ids: Vec<i32> = steps_of(&snap, "gus").unwrap().iter().map(|s| s.id).collect();
    assert_eq!(ids, vec![i32::MIN, i32::MAX]);
}
