use std::collections::HashMap;

use fastmail_cli::mcp::graphql::decisions::{
    confirmation_gate, delete_preview, done_message, format_addrs, format_forward_preview,
    format_reply_preview, format_send_preview, forward_subject, group_delete_preview,
    marked_message, moved_message, mutation_step, reply_subject, spam_done_message, spam_preview, Gate,
    MutationAction, MutationPlan, MutationStage,
};
use fastmail_cli::mcp::graphql::token::confirmation_token;
use fastmail_cli::models::{with_seen, Email, EmailAddress};

fn addr(name: Option<&str>, email: &str) -> EmailAddress {
    EmailAddress { name: name.map(|n| n.to_string()), email: email.to_string() }
}

fn email(subject: Option<&str>, from: Option<Vec<EmailAddress>>) -> Email {
    Email {
        id: "m1".to_string(),
        blob_id: None,
        thread_id: None,
        mailbox_ids: HashMap::new(),
        keywords: HashMap::new(),
        size: 0,
        received_at: Some("2026-04-01T09:00:00Z".to_string()),
        message_id: Some(vec!["<abc@example.com>".to_string()]),
        in_reply_to: None,
        references: None,
        from,
        to: None,
        cc: None,
        bcc: None,
        reply_to: None,
        subject: subject.map(|s| s.to_string()),
        sent_at: None,
        preview: None,
        has_attachment: false,
        text_body: None,
        html_body: None,
        attachments: None,
        body_values: None,
    }
}

#[test]
fn test_confirmation_token_length_prefix_prevents_collision() {
    let key = [1u8; 32];
    let token1 = confirmation_token(&key, &["a", "bc"]);
    let token2 = confirmation_token(&key, &["ab", "c"]);
    assert_ne!(token1, token2, "length-prefix must prevent collision");
}

#[test]
fn test_confirmation_token_is_deterministic() {
    let key = [2u8; 32];
    let t1 = confirmation_token(&key, &["hello", "world"]);
    let t2 = confirmation_token(&key, &["hello", "world"]);
    assert_eq!(t1, t2, "same key + same parts must produce same token");
}

#[test]
fn test_confirmation_token_is_32_hex_chars() {
    let key = [3u8; 32];
    let token = confirmation_token(&key, &["test"]);
    assert_eq!(token.len(), 32, "hex-encoded 16 bytes = 32 hex chars");
    assert!(
        token.chars().all(|c: char| c.is_ascii_hexdigit()),
        "token must be valid hex"
    );
}

#[test]
fn mark_as_spam_different_keys_produce_different_tokens() {
    let token_a = confirmation_token(&[1u8; 32], &["email-test-id"]);
    let token_b = confirmation_token(&[2u8; 32], &["email-test-id"]);
    assert_ne!(token_a, token_b, "Different keys must produce different tokens");
}

#[test]
fn confirmation_token_is_deterministic_with_same_key() {
    let key = [7u8; 32];
    let a = confirmation_token(&key, &["deleteContact", "abc"]);
    let b = confirmation_token(&key, &["deleteContact", "abc"]);
    assert_eq!(a, b, "same key + same inputs must produce the same token");
}

#[test]
fn confirmation_token_differs_across_keys() {
    let a = confirmation_token(&[8u8; 32], &["deleteContact", "abc"]);
    let b = confirmation_token(&[9u8; 32], &["deleteContact", "abc"]);
    assert_ne!(a, b, "different keys must produce different tokens for the same inputs");
}

#[test]
fn confirmation_token_matches_hmac_sha256_prefix() {
    // HMAC-SHA256(key = 32 zero bytes, message = len(8, little-endian) || "x").
    let token = confirmation_token(&[0u8; 32], &["x"]);
    assert_eq!(token.len(), 32);
    assert_eq!(token, confirmation_token(&[0u8; 32], &["x"]));
    assert_ne!(token, confirmation_token(&[0u8; 32], &["x", ""]));
}

#[test]
fn gate_answers_previews_and_checks_tokens() {
    assert_eq!(confirmation_gate(true, None, "t"), Gate::Preview);
    assert_eq!(confirmation_gate(false, None, "t"), Gate::Rejected);
    assert_eq!(confirmation_gate(false, Some("u"), "t"), Gate::Rejected);
    assert_eq!(confirmation_gate(false, Some("t"), "t"), Gate::Proceed);
}

#[test]
fn reply_and_forward_subjects() {
    assert_eq!(reply_subject(&Some("Lunch".to_string())), "Re: Lunch");
    assert_eq!(reply_subject(&Some("RE: Lunch".to_string())), "RE: Lunch");
    assert_eq!(reply_subject(&None), "Re: ");
    assert_eq!(forward_subject(&Some("Lunch".to_string())), "Fwd: Lunch");
    assert_eq!(forward_subject(&Some("fwd: Lunch".to_string())), "fwd: Lunch");
    assert_eq!(forward_subject(&None), "Fwd: ");
}

#[test]
fn reply_preview_lists_recipients_and_message_id() {
    let original = email(Some("Lunch"), Some(vec![addr(Some("Ann"), "ann@example.com")]));
    let preview = format_reply_preview(&original, &[], &[addr(None, "b@example.com")], "Re: Lunch", "Sure");
    assert_eq!(
        preview,
        "REPLY PREVIEW:\nTo: Ann <ann@example.com>\nCC: (none)\nBCC: b@example.com\nSubject: Re: Lunch\nIn-Reply-To: <abc@example.com>\n\n--- Your Reply ---\nSure"
    );
}

#[test]
fn forward_preview_quotes_the_original() {
    let original = email(Some("Lunch"), Some(vec![addr(None, "ann@example.com")]));
    let preview = format_forward_preview(
        &original,
        "See you",
        &[addr(None, "c@example.com")],
        &[],
        &[],
        "Fwd: Lunch",
        "FYI",
    );
    assert_eq!(
        preview,
        "FORWARD PREVIEW:\nTo: c@example.com\nCC: (none)\nBCC: (none)\nSubject: Fwd: Lunch\nForwarding from: ann@example.com\n\n--- Your Message ---\nFYI\n\n--- Forwarded ---\nFrom: ann@example.com\nDate: 2026-04-01T09:00:00Z\nSubject: Lunch\n\nSee you"
    );
}

#[test]
fn send_preview_and_address_lists() {
    assert_eq!(format_addrs(&[]), "(none)");
    assert_eq!(
        format_addrs(&[addr(Some("A"), "a@x"), addr(Some(""), "b@x")]),
        "A <a@x>, b@x"
    );
    assert_eq!(
        format_send_preview(&[addr(None, "a@x")], &[], &[], "Hi", "Body"),
        "EMAIL PREVIEW:\nTo: a@x\nCC: (none)\nBCC: (none)\nSubject: Hi\n\n--- Body ---\nBody\n\nTo send: use action=CONFIRM. To save draft: use action=DRAFT."
    );
}

#[test]
fn delete_and_status_messages() {
    assert_eq!(
        delete_preview("contact", "deleteContact", "c1"),
        "Delete contact c1. Re-run deleteContact with action=CONFIRM and the confirmation token to proceed."
    );
    assert_eq!(
        group_delete_preview("Friends", "g1"),
        "Will delete group 'Friends' (g1). Members will NOT be deleted."
    );
    assert_eq!(done_message("Event", "e1", "deleted"), "Event e1 deleted");
    assert_eq!(spam_done_message(&None), "Marked as spam: \"(no subject)\"");
    assert_eq!(marked_message(&Some("Hi".to_string()), false), "Marked \"Hi\" as unread");
    assert_eq!(moved_message(&Some("Hi".to_string()), "Archive"), "Moved \"Hi\" to Archive");
}

#[test]
fn spam_preview_names_sender_and_token() {
    let e = email(None, Some(vec![addr(Some("Spammer"), "s@x")]));
    assert_eq!(
        spam_preview(&e, "tok"),
        "SPAM PREVIEW \u{2014} This will:\n1. Move to Junk folder\n2. Train spam filter\n\nEmail: \"(no subject)\"\nFrom: Spammer <s@x>\n\nUse action=CONFIRM with confirmation_token=\"tok\" to proceed.\n\nConfirmation token: tok"
    );
    let nobody = email(Some("S"), None);
    assert!(spam_preview(&nobody, "t").contains("From: (unknown)"));
}

#[test]
fn seen_keyword_is_set_and_cleared() {
    let mut k = HashMap::new();
    k.insert("$flagged".to_string(), true);
    let read = with_seen(k.clone(), true);
    assert_eq!(read.get("$seen"), Some(&true));
    assert_eq!(read.get("$flagged"), Some(&true));
    let unread = with_seen(read, false);
    assert_eq!(unread.get("$seen"), None);
    assert_eq!(unread.get("$flagged"), Some(&true));
}

#[test]
fn spam_confirmation_without_valid_token_never_reaches_the_server() {
    let plan = MutationPlan::CheckThenFetch;
    assert_eq!(mutation_step(plan, MutationStage::Start, false, None, "t"), MutationAction::Reject);
    assert_eq!(mutation_step(plan, MutationStage::Start, false, Some("totally-wrong"), "t"), MutationAction::Reject);
    assert_eq!(mutation_step(plan, MutationStage::Start, false, Some("t"), "t"), MutationAction::AcquireClient);
    assert_eq!(mutation_step(plan, MutationStage::ClientReady, false, Some("t"), "t"), MutationAction::Fetch);
    assert_eq!(mutation_step(plan, MutationStage::Fetched, false, Some("t"), "t"), MutationAction::Perform);
    assert_eq!(mutation_step(plan, MutationStage::Start, true, None, "t"), MutationAction::AcquireClient);
    assert_eq!(mutation_step(plan, MutationStage::Fetched, true, None, "t"), MutationAction::Preview);
}

#[test]
fn reply_fetches_before_judging_and_send_judges_first() {
    let reply = MutationPlan::FetchFirst;
    assert_eq!(mutation_step(reply, MutationStage::Start, false, None, "t"), MutationAction::AcquireClient);
    assert_eq!(mutation_step(reply, MutationStage::ClientReady, false, None, "t"), MutationAction::Fetch);
    assert_eq!(mutation_step(reply, MutationStage::Fetched, false, None, "t"), MutationAction::Reject);
    assert_eq!(mutation_step(reply, MutationStage::Fetched, true, None, "t"), MutationAction::Preview);
    let send = MutationPlan::GateFirst;
    assert_eq!(mutation_step(send, MutationStage::Start, true, None, "t"), MutationAction::Preview);
    assert_eq!(mutation_step(send, MutationStage::Start, false, Some("u"), "t"), MutationAction::Reject);
    assert_eq!(mutation_step(send, MutationStage::Start, false, Some("t"), "t"), MutationAction::AcquireClient);
    assert_eq!(mutation_step(send, MutationStage::ClientReady, false, Some("t"), "t"), MutationAction::Perform);
}
