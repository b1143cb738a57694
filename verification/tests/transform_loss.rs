use codex_chat_bridge::transform_loss::{TransformLoss, TransformLossCollector};

#[test]
fn kind_name_matches_python_member_names() {
    assert_eq!(
        TransformLoss::SkippedNonDictItem.name(),
        "SkippedNonDictItem"
    );
    assert_eq!(
        TransformLoss::DowngradedOrphanToolOutput.name(),
        "DowngradedOrphanToolOutput"
    );
    assert_eq!(
        TransformLoss::DowngradedInvalidRole.name(),
        "DowngradedInvalidRole"
    );
}

#[test]
fn collector_starts_empty_and_accumulates() {
    let mut c = TransformLossCollector::new();
    assert!(c.is_empty());
    c.record(
        TransformLoss::SkippedUnknownItemType,
        Some("mystery"),
        "unrecognized".to_owned(),
    );
    c.record(TransformLoss::DroppedEmptyReasoning, None, "empty".to_owned());
    assert!(!c.is_empty());
    assert_eq!(c.events().len(), 2);
    assert_eq!(c.events()[0].item_type.as_deref(), Some("mystery"));
    assert_eq!(c.events()[1].item_type, None);
}
