use std::collections::HashMap;
use std::sync::Arc;

use fastmail_cli::carddav::{Contact, ContactGroup};
use fastmail_cli::mcp::graphql::types::{GqlContactGroup, GqlEmail, GqlEmailSummary};
use fastmail_cli::models::{Email, EmailAddress, EmailBodyPart};

fn make_email_with_from(count: usize) -> Email {
    let from_addrs: Option<Vec<EmailAddress>> = if count > 0 {
        Some(
            (0..count)
                .map(|i| EmailAddress {
                    name: Some(format!("Name {i}")),
                    email: format!("addr{i}@example.com"),
                })
                .collect(),
        )
    } else {
        None
    };
    Email {
        id: "test-id".to_string(),
        blob_id: None,
        thread_id: None,
        mailbox_ids: HashMap::new(),
        keywords: HashMap::new(),
        size: 0,
        received_at: None,
        message_id: None,
        in_reply_to: None,
        references: None,
        from: from_addrs,
        to: None,
        cc: None,
        bcc: None,
        reply_to: None,
        subject: None,
        sent_at: None,
        preview: None,
        has_attachment: false,
        text_body: None,
        html_body: None,
        attachments: None,
        body_values: None,
    }
}

#[test]
fn gqlemail_addresses_are_arc_shared() {
    let email = make_email_with_from(3);
    let g = GqlEmail::new(email);
    assert_eq!(g.from.len(), 3);
    let _h1 = Arc::clone(&g.from);
    let _h2 = Arc::clone(&g.from);
    assert!(Arc::strong_count(&g.from) >= 3);
}

#[test]
fn gqlemail_empty_to_is_arc_shared() {
    let email = make_email_with_from(0);
    let g = GqlEmail::new(email);
    assert_eq!(g.to.len(), 0);
    let _h = Arc::clone(&g.to);
    assert!(Arc::strong_count(&g.to) >= 2);
}

#[test]
fn gql_contact_group_from_maps_all_fields() {
    let group = ContactGroup {
        id: "uid-1".to_string(),
        name: "Test Group".to_string(),
        member_uids: vec!["uid-a".to_string(), "uid-b".to_string()],
        href: Some("/addressbooks/user/default/group-1.vcf".to_string()),
        etag: Some("\"abc123\"".to_string()),
    };
    let gql: GqlContactGroup = GqlContactGroup::from(group);
    assert_eq!(gql.id, "uid-1");
    assert_eq!(gql.name, "Test Group");
    assert_eq!(gql.member_count, 2);
    assert!(gql.members.is_empty());
    assert_eq!(gql.href.as_deref(), Some("/addressbooks/user/default/group-1.vcf"));
    assert_eq!(gql.etag.as_deref(), Some("\"abc123\""));
}

#[test]
fn gql_contact_group_from_empty_member_uids() {
    let group = ContactGroup {
        id: "uid-empty".to_string(),
        name: "Empty Group".to_string(),
        member_uids: vec![],
        href: None,
        etag: None,
    };
    let gql: GqlContactGroup = GqlContactGroup::from(group);
    assert_eq!(gql.member_count, 0);
    assert!(gql.members.is_empty());
    assert!(gql.href.is_none());
    assert!(gql.etag.is_none());
}

#[test]
fn gql_contact_group_with_members_converts_contacts() {
    let group = ContactGroup {
        id: "g".to_string(),
        name: "G".to_string(),
        member_uids: vec!["a".to_string()],
        href: None,
        etag: None,
    };
    let member = Contact {
        id: "a".to_string(),
        name: "Ann".to_string(),
        emails: vec![],
        phones: vec![],
        organization: None,
        title: None,
        notes: None,
        address: None,
        href: None,
        etag: None,
    };
    let gql = GqlContactGroup::with_members(group, vec![member]);
    assert_eq!(gql.member_count, 1);
    assert_eq!(gql.members.len(), 1);
    assert_eq!(gql.members[0].name, "Ann");
}

#[test]
fn make_attachments_skips_parts_without_blob() {
    let mut email = make_email_with_from(1);
    email.attachments = Some(vec![
        EmailBodyPart {
            part_id: None,
            blob_id: Some("b1".into()),
            size: 10,
            name: Some("a.txt".into()),
            content_type: Some("text/plain".into()),
            disposition: None,
        },
        EmailBodyPart {
            part_id: None,
            blob_id: None,
            size: 5,
            name: None,
            content_type: None,
            disposition: None,
        },
    ]);
    let g = GqlEmail::new(email);
    let atts = g.make_attachments();
    assert_eq!(atts.len(), 1);
    assert_eq!(atts[0].blob_id, "b1");
    assert_eq!(atts[0].size, 10);
}

#[test]
fn email_summary_flags_from_keywords() {
    let mut email = make_email_with_from(2);
    email.keywords.insert("$flagged".to_string(), true);
    let s = GqlEmailSummary::from(email);
    assert!(s.is_unread);
    assert!(s.is_flagged);
    assert_eq!(s.sender.len(), 2);
    assert!(s.recipients.is_empty());
}
