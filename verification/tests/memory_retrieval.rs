use tepora_core::memory::retrieval::{ContiguityWalk, WalkStep};
use tepora_core::memory::two_stage::{combine_and_deduplicate, contiguous_neighbours};

fn key(id: &str, seq: Option<u64>) -> (String, Option<u64>) {
    (id.to_string(), seq)
}

#[test]
fn walk_follows_links_within_budget() {
    // a -> b -> c, a -> d; budget 2.
    let links = |id: &str| -> Vec<&'static str> {
        match id {
            "a" => vec!["b", "d"],
            "b" => vec!["c"],
            _ => vec![],
        }
    };
    let mut walk = ContiguityWalk::new(vec!["a".to_string()], 2);
    let mut fetched = Vec::new();
    loop {
        match walk.next_step() {
            WalkStep::Done => break,
            WalkStep::FetchLinks(id) => {
                fetched.push(id.clone());
                for to in links(&id) {
                    if walk.wants(to) {
                        walk.take_event(to.to_string());
                    }
                }
            }
        }
    }
    assert_eq!(fetched, vec!["a"]);
    assert_eq!(
        walk.into_admitted(),
        vec![("b".to_string(), 1), ("d".to_string(), 1)]
    );
}

#[test]
fn walk_goes_deeper_layer_by_layer() {
    let links = |id: &str| -> Vec<&'static str> {
        match id {
            "a" => vec!["b", "a"],
            "b" => vec!["c"],
            "c" => vec!["d"],
            _ => vec![],
        }
    };
    let mut walk = ContiguityWalk::new(vec!["a".to_string()], 5);
    loop {
        match walk.next_step() {
            WalkStep::Done => break,
            WalkStep::FetchLinks(id) => {
                for to in links(&id) {
                    if walk.wants(to) {
                        walk.take_event(to.to_string());
                    }
                }
            }
        }
    }
    assert_eq!(
        walk.into_admitted(),
        vec![("b".to_string(), 1), ("c".to_string(), 2), ("d".to_string(), 3)]
    );
}

#[test]
fn neighbours_by_sequence_number() {
    let events = vec![
        key("e0", Some(0)),
        key("e1", Some(1)),
        key("e2", Some(2)),
        key("e3", None),
        key("e5", Some(5)),
    ];
    let similar = vec![key("e1", Some(1))];
    assert_eq!(contiguous_neighbours(&events, &similar, 1), vec![0]);
    assert_eq!(contiguous_neighbours(&events, &similar, 2), vec![0, 2]);
    assert!(contiguous_neighbours(&events, &similar, 0).is_empty());
    assert!(contiguous_neighbours(&events, &vec![], 3).is_empty());
}

#[test]
fn merge_dedupes_and_orders() {
    let similar = vec![key("b", Some(5)), key("a", Some(2)), key("b", Some(5))];
    let neighbours = vec![key("c", Some(3)), key("a", Some(2)), key("n", None), key("d", Some(1))];
    let out = combine_and_deduplicate(similar.clone(), neighbours.clone(), 10);
    assert_eq!(
        out,
        vec![key("d", Some(1)), key("a", Some(2)), key("c", Some(3)), key("b", Some(5)), key("n", None)]
    );
    let out = combine_and_deduplicate(similar, neighbours, 3);
    assert_eq!(out, vec![key("a", Some(2)), key("c", Some(3)), key("b", Some(5))]);
}

#[test]
fn walk_visits_layer_by_layer_in_order() {
    // a -> c, b -> d, c -> e, d -> a (a seed, skipped); budget 5.
    let links = |id: &str| -> Vec<&'static str> {
        match id {
            "a" => vec!["c"],
            "b" => vec!["d"],
            "c" => vec!["e"],
            "d" => vec!["a"],
            _ => vec![],
        }
    };
    let mut walk = ContiguityWalk::new(vec!["a".to_string(), "b".to_string()], 5);
    let mut fetched = Vec::new();
    loop {
        match walk.next_step() {
            WalkStep::Done => break,
            WalkStep::FetchLinks(id) => {
                fetched.push((id.clone(), walk.layer()));
                for to in links(&id) {
                    if walk.wants(to) {
                        walk.take_event(to.to_string());
                    }
                }
            }
        }
    }
    assert_eq!(
        fetched,
        vec![
            ("a".to_string(), 1),
            ("b".to_string(), 1),
            ("c".to_string(), 2),
            ("d".to_string(), 2),
            ("e".to_string(), 3)
        ]
    );
    assert_eq!(
        walk.into_admitted(),
        vec![("c".to_string(), 1), ("d".to_string(), 1), ("e".to_string(), 2)]
    );
}
