//! The sample parser.

use imap_filter::fixtures::parse_eml;

#[test]
fn test_parse_simple_eml() {
    let content = "From: sender@example.com\n\
To: recipient@example.com\n\
Subject: Test Subject\n\
Date: Mon, 1 Jan 2024 10:00:00 +0000\n\
Message-ID: <test-001@example.com>\n\
\n\
This is the body.\n";

    let message = parse_eml(content).unwrap();
    assert_eq!(message.subject, "Test Subject");
    assert_eq!(message.from, vec!["sender@example.com"]);
    assert_eq!(message.to, vec!["recipient@example.com"]);
    assert_eq!(message.message_id, Some("<test-001@example.com>".to_string()));
}

#[test]
fn test_parse_eml_with_display_names() {
    let content = "From: John Doe <john@example.com>\n\
To: Jane Smith <jane@example.com>\n\
Subject: Hello\n\
Date: Mon, 1 Jan 2024 10:00:00 +0000\n\
\n\
Body\n";

    let message = parse_eml(content).unwrap();
    assert_eq!(message.from, vec!["john@example.com"]);
    assert_eq!(message.to, vec!["jane@example.com"]);
}

#[test]
fn test_parse_eml_with_cc() {
    let content = "From: sender@example.com\n\
To: recipient@example.com\n\
Cc: cc1@example.com, cc2@example.com\n\
Subject: With CC\n\
Date: Mon, 1 Jan 2024 10:00:00 +0000\n\
\n\
Body\n";

    let message = parse_eml(content).unwrap();
    assert_eq!(message.cc.len(), 2);
    assert!(message.cc.contains(&"cc1@example.com".to_string()));
    assert!(message.cc.contains(&"cc2@example.com".to_string()));
}

#[test]
fn test_parse_eml_with_threading_headers() {
    let content = "From: sender@example.com\n\
To: recipient@example.com\n\
Subject: Reply\n\
Date: Mon, 1 Jan 2024 10:00:00 +0000\n\
Message-ID: <reply@example.com>\n\
In-Reply-To: <original@example.com>\n\
References: <root@example.com> <original@example.com>\n\
\n\
Body\n";

    let message = parse_eml(content).unwrap();
    assert_eq!(message.message_id, Some("<reply@example.com>".to_string()));
    assert_eq!(
        message.in_reply_to,
        Some("<original@example.com>".to_string())
    );
    assert_eq!(message.references.len(), 2);
}

#[test]
fn test_parse_eml_missing_from_fails() {
    let content = "To: recipient@example.com\n\
Subject: No From\n\
Date: Mon, 1 Jan 2024 10:00:00 +0000\n\
\n\
Body\n";

    let result = parse_eml(content);
    assert!(result.is_err());
}

#[test]
fn test_extract_email() {
    // the parser reduces a display-name form to the bare address
    let content = "From: John Doe <john@example.com>\n\nBody\n";
    assert_eq!(parse_eml(content).unwrap().from, vec!["john@example.com"]);

    let bare = "From: <bare@example.com>\n\nBody\n";
    assert_eq!(parse_eml(bare).unwrap().from, vec!["bare@example.com"]);

    let spaced = "From:   spaced@example.com  \n\nBody\n";
    assert_eq!(parse_eml(spaced).unwrap().from, vec!["spaced@example.com"]);
}
