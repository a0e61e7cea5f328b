//! Label normalization behavior.

use imap_filter::label::Label;

#[test]
fn test_label_inbox() {
    assert_eq!(Label::new("INBOX"), Label::Inbox);
    assert_eq!(Label::new("inbox"), Label::Inbox);
    assert_eq!(Label::new("Inbox"), Label::Inbox);
}

#[test]
fn test_label_important() {
    assert_eq!(Label::new("IMPORTANT"), Label::Important);
    assert_eq!(Label::new("important"), Label::Important);
    assert_eq!(Label::new("\\Important"), Label::Important);
}

#[test]
fn test_label_starred() {
    assert_eq!(Label::new("STARRED"), Label::Starred);
    assert_eq!(Label::new("starred"), Label::Starred);
    assert_eq!(Label::new("FLAGGED"), Label::Starred);
    assert_eq!(Label::new("\\Flagged"), Label::Starred);
}

#[test]
fn test_label_sent() {
    assert_eq!(Label::new("SENT"), Label::Sent);
    assert_eq!(Label::new("sent"), Label::Sent);
}

#[test]
fn test_label_draft() {
    assert_eq!(Label::new("DRAFT"), Label::Draft);
    assert_eq!(Label::new("\\Draft"), Label::Draft);
}

#[test]
fn test_label_trash() {
    assert_eq!(Label::new("TRASH"), Label::Trash);
    assert_eq!(Label::new("trash"), Label::Trash);
}

#[test]
fn test_label_spam() {
    assert_eq!(Label::new("SPAM"), Label::Spam);
    assert_eq!(Label::new("spam"), Label::Spam);
}

#[test]
fn test_label_custom() {
    assert_eq!(Label::new("MyLabel"), Label::Custom("MyLabel".to_string()));
    assert_eq!(
        Label::new("work/projects"),
        Label::Custom("work/projects".to_string())
    );
}

#[test]
fn test_label_strips_backslash() {
    // \Seen becomes Custom("Seen") since Seen is not a well-known label
    assert_eq!(Label::new("\\Seen"), Label::Custom("Seen".to_string()));
}

#[test]
fn test_label_case_fold_is_consistent() {
    // the three spellings of the same well-known name coincide
    assert_eq!(Label::new("INBOX"), Label::new("inbox"));
    assert_eq!(Label::new("inbox"), Label::new("\\Inbox"));
    assert_eq!(Label::new("Starred"), Label::new("\\FLAGGED"));
}
