use tepora_core::memory::compression::{
    count_merge, fallback_merge_content, fusion_messages, group_candidates, merged_content,
    merged_layer, nothing_to_compress,
};
use tepora_core::memory::types::{CompressionResult, MemoryLayer};

#[test]
fn groups_follow_leaders() {
    let t = true;
    let f = false;
    let sim = vec![
        vec![f, t, f, t],
        vec![t, f, t, f],
        vec![f, t, f, t],
        vec![t, f, t, f],
    ];
    assert_eq!(group_candidates(&sim), vec![vec![0, 1, 3]]);
    let lonely = vec![vec![f, f], vec![f, f]];
    assert!(group_candidates(&lonely).is_empty());
    let pairs = vec![vec![f, f, t, f], vec![f, f, f, t], vec![t, f, f, f], vec![f, t, f, f]];
    assert_eq!(group_candidates(&pairs), vec![vec![0, 2], vec![1, 3]]);
}

#[test]
fn merge_texts() {
    let contents = vec![" a ".to_string(), "   ".to_string(), "b".to_string()];
    assert_eq!(fallback_merge_content(&contents), "a\n---\nb");
    assert_eq!(merged_content(Some("summary".to_string()), &contents), "summary");
    assert_eq!(merged_content(Some("  ".to_string()), &contents), "a\n---\nb");
    assert_eq!(merged_content(None, &contents), "a\n---\nb");
    let m = fusion_messages(&vec!["x".to_string(), "y".to_string()]);
    assert_eq!(m.len(), 2);
    assert_eq!(m[0].role, "system");
    assert!(m[1].content.ends_with("\n\n[1] x\n\n[2] y"));
}

#[test]
fn merged_layer_and_counts() {
    assert_eq!(merged_layer(&vec![MemoryLayer::SML, MemoryLayer::LML]), MemoryLayer::LML);
    assert_eq!(merged_layer(&vec![MemoryLayer::SML]), MemoryLayer::SML);
    assert!(nothing_to_compress(5).is_none());
    let r = nothing_to_compress(1).unwrap();
    assert_eq!((r.scanned_events, r.merged_groups), (1, 0));
    let mut result = CompressionResult { scanned_events: 4, merged_groups: 0, replaced_events: 0, created_events: 0 };
    count_merge(&mut result, 3);
    assert_eq!((result.merged_groups, result.replaced_events, result.created_events), (1, 3, 1));
}
