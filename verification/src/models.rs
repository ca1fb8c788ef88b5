//! JMAP mail objects as the library reads them.
use vstd::prelude::*;
use std::collections::HashMap;
use crate::carddav::{clone_opt, opt_view};

verus! {

/// A named e-mail address.
#[derive(Debug, Clone, PartialEq, Eq)]
pub struct EmailAddress {
    pub name: Option<String>,
    pub email: String,
}

/// A MIME body part or attachment of an e-mail.
#[derive(Debug, Clone)]
pub struct EmailBodyPart {
    pub part_id: Option<String>,
    pub blob_id: Option<String>,
    pub size: u64,
    pub name: Option<String>,
    pub content_type: Option<String>,
    pub disposition: Option<String>,
}

/// The decoded text of a body part.
#[derive(Debug, Clone)]
pub struct EmailBodyValue {
    pub value: String,
}

/// A JMAP Email object.
#[derive(Debug, Clone)]
pub struct Email {
    pub id: String,
    pub blob_id: Option<String>,
    pub thread_id: Option<String>,
    pub mailbox_ids: HashMap<String, bool>,
    pub keywords: HashMap<String, bool>,
    pub size: u64,
    pub received_at: Option<String>,
    pub message_id: Option<Vec<String>>,
    pub in_reply_to: Option<Vec<String>>,
    pub references: Option<Vec<String>>,
    pub from: Option<Vec<EmailAddress>>,
    pub to: Option<Vec<EmailAddress>>,
    pub cc: Option<Vec<EmailAddress>>,
    pub bcc: Option<Vec<EmailAddress>>,
    pub reply_to: Option<Vec<EmailAddress>>,
    pub subject: Option<String>,
    pub sent_at: Option<String>,
    pub preview: Option<String>,
    pub has_attachment: bool,
    pub text_body: Option<Vec<EmailBodyPart>>,
    pub html_body: Option<Vec<EmailBodyPart>>,
    pub attachments: Option<Vec<EmailBodyPart>>,
    pub body_values: Option<HashMap<String, EmailBodyValue>>,
}

/// A JMAP Mailbox object.
#[derive(Debug, Clone)]
pub struct Mailbox {
    pub id: String,
    pub name: String,
    pub parent_id: Option<String>,
    pub role: Option<String>,
    pub total_emails: u32,
    pub unread_emails: u32,
    pub total_threads: u32,
    pub unread_threads: u32,
    pub sort_order: u32,
}

/// A JMAP Identity object.
#[derive(Debug, Clone)]
pub struct Identity {
    pub id: String,
    pub name: String,
    pub email: String,
    pub may_delete: bool,
    pub text_signature: Option<String>,
    pub html_signature: Option<String>,
    pub reply_to: Option<Vec<EmailAddress>>,
    pub bcc: Option<Vec<EmailAddress>>,
}

/// A Fastmail masked e-mail address.
#[derive(Debug, Clone)]
pub struct MaskedEmail {
    pub id: String,
    pub email: String,
    pub state: Option<String>,
    pub for_domain: Option<String>,
    pub description: Option<String>,
    pub last_message_at: Option<String>,
    pub created_at: Option<String>,
    pub created_by: Option<String>,
    pub url: Option<String>,
}

/// Model of an address.
pub struct AddressModel {
    pub name: Option<Seq<char>>,
    pub email: Seq<char>,
}

impl View for EmailAddress {
    type V = AddressModel;

    open spec fn view(&self) -> AddressModel {
        AddressModel { name: opt_view(self.name), email: self.email@ }
    }
}

/// Models of a list of addresses.
pub open spec fn addresses_view(v: Seq<EmailAddress>) -> Seq<AddressModel> {
    v.map_values(|a: EmailAddress| a@)
}

/// The addresses of an optional list; none when absent.
pub open spec fn opt_addresses_view(o: Option<Vec<EmailAddress>>) -> Seq<AddressModel> {
    match o {
        Some(v) => addresses_view(v@),
        None => seq![],
    }
}

/// Copies an address.
pub fn clone_address(a: &EmailAddress) -> (r: EmailAddress)
    ensures
        r@ == a@,
{
    EmailAddress { name: clone_opt(&a.name), email: a.email.clone() }
}

/// Copies an optional list of addresses.
pub fn clone_opt_addresses(o: &Option<Vec<EmailAddress>>) -> (r: Option<Vec<EmailAddress>>)
    ensures
        opt_addresses_view(r) == opt_addresses_view(*o),
        r is Some <==> o is Some,
{
    match o {
        Some(v) => {
            let mut r: Vec<EmailAddress> = Vec::new();
            for i in 0..v.len()
                invariant
                    r.len() == i,
                    forall|j: int| 0 <= j < i ==> (#[trigger] r@[j])@ == v@[j]@,
            {
                r.push(clone_address(&v[i]));
            }
            assert(addresses_view(r@) =~= addresses_view(v@));
            Some(r)
        },
        None => None,
    }
}

/// The keywords (`$seen`, `$flagged`, ...) an e-mail's keyword map holds, with their values.
pub uninterp spec fn keyword_entries(m: HashMap<String, bool>) -> Map<Seq<char>, bool>;

/// Calls `HashMap::get` on a keyword map. The contract claims what std
/// documents: the value stored under the key, `None` when it is absent.
#[verifier::external_body]
fn keyword_value(m: &HashMap<String, bool>, key: &str) -> (r: Option<bool>)
    ensures
        r == (if keyword_entries(*m).dom().contains(key@) {
            Some(keyword_entries(*m)[key@])
        } else {
            None
        }),
{
    m.get(key).copied()
}

impl Email {
    /// The e-mail carries `keyword` (JMAP keywords are present with value `true`).
    pub open spec fn has_keyword(&self, keyword: Seq<char>) -> bool {
        keyword_entries(self.keywords).dom().contains(keyword)
    }

    /// Not yet read: no `$seen` keyword.
    pub fn is_unread(&self) -> (r: bool)
        ensures
            r == !self.has_keyword("$seen"@),
    {
        keyword_value(&self.keywords, "$seen").is_none()
    }

    /// Flagged: the `$flagged` keyword.
    pub fn is_flagged(&self) -> (r: bool)
        ensures
            r == self.has_keyword("$flagged"@),
    {
        keyword_value(&self.keywords, "$flagged").is_some()
    }

    /// A draft: the `$draft` keyword.
    pub fn is_draft(&self) -> (r: bool)
        ensures
            r == self.has_keyword("$draft"@),
    {
        keyword_value(&self.keywords, "$draft").is_some()
    }
}

/// Calls `HashMap::insert` on a keyword map. The contract claims what std
/// documents: afterwards the key maps to the value, every other entry kept.
#[verifier::external_body]
fn keyword_insert(m: &mut HashMap<String, bool>, key: String, value: bool)
    ensures
        keyword_entries(*final(m)) == keyword_entries(*old(m)).insert(key@, value),
{
    m.insert(key, value);
}

/// Calls `HashMap::remove` on a keyword map. The contract claims what std
/// documents: afterwards the key is absent, every other entry kept.
#[verifier::external_body]
fn keyword_remove(m: &mut HashMap<String, bool>, key: &str)
    ensures
        keyword_entries(*final(m)) == keyword_entries(*old(m)).remove(key@),
{
    m.remove(key);
}

/// The keywords of an e-mail marked read (`$seen` set) or unread (`$seen`
/// removed), the others unchanged.
pub fn with_seen(keywords: HashMap<String, bool>, read: bool) -> (r: HashMap<String, bool>)
    ensures
        read ==> keyword_entries(r) == keyword_entries(keywords).insert("$seen"@, true),
        !read ==> keyword_entries(r) == keyword_entries(keywords).remove("$seen"@),
{
    let mut m = keywords;
    if read {
        keyword_insert(&mut m, "$seen".to_string(), true);
    } else {
        keyword_remove(&mut m, "$seen");
    }
    m
}

} // verus!
