//! What the GraphQL mutations decide between their calls to the servers:
//! whether a request is a preview, is refused or may proceed, and the text
//! of a send preview.
use vstd::prelude::*;
use crate::caldav::strings_view;
use crate::carddav::opt_view;
use crate::models::{AddressModel, Email, EmailAddress, addresses_view, opt_addresses_view};
use crate::text::{
    chars_of, eq_chars, extend_chars, extend_str, join, join_chars, starts_with, string_of, to_lowercase,
    unicode_lower,
};

verus! {

/// The step a destructive mutation takes.
#[derive(Debug, Copy, Clone, PartialEq, Eq, Structural)]
pub enum Gate {
    /// Answer with a preview and the confirmation token.
    Preview,
    /// Refuse: the confirmation token is missing or wrong.
    Rejected,
    /// Carry out the mutation.
    Proceed,
}

/// The step for a request: previews are always answered; anything else
/// proceeds only when it carries exactly the expected token.
pub open spec fn gate_for(preview: bool, supplied: Option<Seq<char>>, expected: Seq<char>) -> Gate {
    if preview {
        Gate::Preview
    } else if supplied == Some(expected) {
        Gate::Proceed
    } else {
        Gate::Rejected
    }
}

/// Decide what a preview/confirm mutation does with the token it was given.
pub fn confirmation_gate(preview: bool, supplied: Option<&str>, expected: &str) -> (g: Gate)
    ensures
        g == gate_for(
            preview,
            match supplied {
                Some(s) => Some(s@),
                None => None,
            },
            expected@,
        ),
{
    if preview {
        return Gate::Preview;
    }
    match supplied {
        Some(s) => {
            let a = chars_of(s);
            let b = chars_of(expected);
            if eq_chars(&a, &b) {
                Gate::Proceed
            } else {
                Gate::Rejected
            }
        },
        None => Gate::Rejected,
    }
}

/// A mutation proceeds only with the token it expects: a request that is not
/// a preview and carries no token, or any other token, is refused.
pub proof fn lemma_gate_requires_token(preview: bool, supplied: Option<Seq<char>>, expected: Seq<char>)
    ensures
        gate_for(preview, supplied, expected) == Gate::Proceed <==> (!preview && supplied == Some(expected)),
        !preview && supplied != Some(expected) ==> gate_for(preview, supplied, expected) == Gate::Rejected,
{
}

/// The order in which a preview/confirm mutation reaches the mail server.
#[derive(Debug, Copy, Clone, PartialEq, Eq, Structural)]
pub enum MutationPlan {
    /// The request is judged first; the server is reached only to carry it
    /// out (sending a new message, deleting a record).
    GateFirst,
    /// The record is fetched first, since the preview shows it, and the
    /// request is judged once it is in hand (reply, forward).
    FetchFirst,
    /// A confirmation with a wrong token is refused before the server is
    /// reached; otherwise the record is fetched, then previewed or acted on
    /// (marking as spam).
    CheckThenFetch,
}

/// How far a mutation has come.
#[derive(Debug, Copy, Clone, PartialEq, Eq, Structural)]
pub enum MutationStage {
    /// Nothing done yet.
    Start,
    /// The mail client is in hand.
    ClientReady,
    /// The record the mutation concerns is in hand.
    Fetched,
}

/// What a mutation does next.
#[derive(Debug, Copy, Clone, PartialEq, Eq, Structural)]
pub enum MutationAction {
    /// Answer with a preview and the confirmation token.
    Preview,
    /// Refuse: the confirmation token is missing or wrong.
    Reject,
    /// Acquire the mail client.
    AcquireClient,
    /// Fetch the record the mutation concerns.
    Fetch,
    /// Carry the mutation out.
    Perform,
}

/// The action for a gate's decision.
pub open spec fn gate_action(g: Gate) -> MutationAction {
    match g {
        Gate::Preview => MutationAction::Preview,
        Gate::Rejected => MutationAction::Reject,
        Gate::Proceed => MutationAction::Perform,
    }
}

/// The next action of a mutation with the given plan at the given stage.
pub open spec fn mutation_next(
    plan: MutationPlan,
    stage: MutationStage,
    preview: bool,
    supplied: Option<Seq<char>>,
    expected: Seq<char>,
) -> MutationAction {
    let g = gate_for(preview, supplied, expected);
    match plan {
        MutationPlan::GateFirst => match stage {
            MutationStage::Start => if g == Gate::Proceed {
                MutationAction::AcquireClient
            } else {
                gate_action(g)
            },
            _ => gate_action(g),
        },
        MutationPlan::FetchFirst => match stage {
            MutationStage::Start => MutationAction::AcquireClient,
            MutationStage::ClientReady => MutationAction::Fetch,
            MutationStage::Fetched => gate_action(g),
        },
        MutationPlan::CheckThenFetch => if g == Gate::Rejected {
            MutationAction::Reject
        } else {
            match stage {
                MutationStage::Start => MutationAction::AcquireClient,
                MutationStage::ClientReady => MutationAction::Fetch,
                MutationStage::Fetched => gate_action(g),
            }
        },
    }
}

/// Decide the next step of a preview/confirm mutation.
pub fn mutation_step(
    plan: MutationPlan,
    stage: MutationStage,
    preview: bool,
    supplied: Option<&str>,
    expected: &str,
) -> (a: MutationAction)
    ensures
        a == mutation_next(
            plan,
            stage,
            preview,
            match supplied {
                Some(s) => Some(s@),
                None => None,
            },
            expected@,
        ),
{
    let g = confirmation_gate(preview, supplied, expected);
    let judged = match g {
        Gate::Preview => MutationAction::Preview,
        Gate::Rejected => MutationAction::Reject,
        Gate::Proceed => MutationAction::Perform,
    };
    match plan {
        MutationPlan::GateFirst => match stage {
            MutationStage::Start => if g == Gate::Proceed {
                MutationAction::AcquireClient
            } else {
                judged
            },
            _ => judged,
        },
        MutationPlan::FetchFirst => match stage {
            MutationStage::Start => MutationAction::AcquireClient,
            MutationStage::ClientReady => MutationAction::Fetch,
            MutationStage::Fetched => judged,
        },
        MutationPlan::CheckThenFetch => if g == Gate::Rejected {
            MutationAction::Reject
        } else {
            match stage {
                MutationStage::Start => MutationAction::AcquireClient,
                MutationStage::ClientReady => MutationAction::Fetch,
                MutationStage::Fetched => judged,
            }
        },
    }
}

/// A mutation is carried out only with the token it expects, whatever its
/// plan and stage; with a gate-first or check-first plan, a confirmation
/// with a missing or wrong token never reaches the mail server, and a
/// preview is never carried out.
pub proof fn lemma_mutation_needs_token(
    plan: MutationPlan,
    stage: MutationStage,
    preview: bool,
    supplied: Option<Seq<char>>,
    expected: Seq<char>,
)
    ensures
        mutation_next(plan, stage, preview, supplied, expected) == MutationAction::Perform ==> !preview && supplied
            == Some(expected),
        plan != MutationPlan::FetchFirst && !preview && supplied != Some(expected) ==> mutation_next(
            plan,
            stage,
            preview,
            supplied,
            expected,
        ) == MutationAction::Reject,
{
}

/// How an address is shown: `Name <email>` when it has a non-empty name.
pub open spec fn address_text(a: AddressModel) -> Seq<char> {
    match a.name {
        Some(n) => if n.len() > 0 {
            n + " <"@ + a.email + ">"@
        } else {
            a.email
        },
        None => a.email,
    }
}

/// An address list as shown in a preview: comma-separated, `(none)` when empty.
pub open spec fn addresses_text(addrs: Seq<AddressModel>) -> Seq<char> {
    if addrs.len() == 0 {
        "(none)"@
    } else {
        join(addrs.map_values(|a: AddressModel| address_text(a)), ", "@)
    }
}

fn address_chars(a: &EmailAddress) -> (r: Vec<char>)
    ensures
        r@ == address_text(a@),
{
    match &a.name {
        Some(n) => {
            if n.as_str().is_empty() {
                chars_of(a.email.as_str())
            } else {
                let mut v = chars_of(n.as_str());
                extend_str(&mut v, " <");
                extend_str(&mut v, a.email.as_str());
                extend_str(&mut v, ">");
                v
            }
        },
        None => chars_of(a.email.as_str()),
    }
}

fn addresses_chars(addrs: &[EmailAddress]) -> (r: Vec<char>)
    ensures
        r@ == addresses_text(addresses_view(addrs@)),
{
    if addrs.len() == 0 {
        let v = chars_of("(none)");
        return v;
    }
    let mut parts: Vec<Vec<char>> = Vec::new();
    for i in 0..addrs.len()
        invariant
            parts.len() == i,
            forall|j: int| 0 <= j < i ==> (#[trigger] parts@[j])@ == address_text(addrs@[j]@),
    {
        parts.push(address_chars(&addrs[i]));
    }
    assert(parts@.map_values(|l: Vec<char>| l@) =~= addresses_view(addrs@).map_values(
        |a: AddressModel| address_text(a),
    ));
    join_chars(&parts, ", ")
}

/// Format an address list for a preview.
pub fn format_addrs(addrs: &[EmailAddress]) -> (r: String)
    ensures
        r@ == addresses_text(addresses_view(addrs@)),
{
    let v = addresses_chars(addrs);
    string_of(&v)
}

/// The text of a send preview.
pub open spec fn send_preview_text(
    to: Seq<AddressModel>,
    cc: Seq<AddressModel>,
    bcc: Seq<AddressModel>,
    subject: Seq<char>,
    body: Seq<char>,
) -> Seq<char> {
    "EMAIL PREVIEW:\nTo: "@ + addresses_text(to) + "\nCC: "@ + addresses_text(cc) + "\nBCC: "@
        + addresses_text(bcc) + "\nSubject: "@ + subject + "\n\n--- Body ---\n"@ + body
        + "\n\nTo send: use action=CONFIRM. To save draft: use action=DRAFT."@
}

/// The preview shown before an e-mail is sent or saved as a draft.
pub fn format_send_preview(
    to: &[EmailAddress],
    cc: &[EmailAddress],
    bcc: &[EmailAddress],
    subject: &str,
    body: &str,
) -> (r: String)
    ensures
        r@ == send_preview_text(addresses_view(to@), addresses_view(cc@), addresses_view(bcc@), subject@, body@),
{
    let mut out: Vec<char> = Vec::new();
    extend_str(&mut out, "EMAIL PREVIEW:\nTo: ");
    let t = addresses_chars(to);
    extend_chars(&mut out, &t);
    extend_str(&mut out, "\nCC: ");
    let c = addresses_chars(cc);
    extend_chars(&mut out, &c);
    extend_str(&mut out, "\nBCC: ");
    let b = addresses_chars(bcc);
    extend_chars(&mut out, &b);
    extend_str(&mut out, "\nSubject: ");
    extend_str(&mut out, subject);
    extend_str(&mut out, "\n\n--- Body ---\n");
    extend_str(&mut out, body);
    extend_str(&mut out, "\n\nTo send: use action=CONFIRM. To save draft: use action=DRAFT.");
    string_of(&out)
}

/// The subject of a reply or forward: the original one when it already
/// starts (in lower case) with `marker`, else `prefix` before it.
pub open spec fn prefixed_subject(subject: Option<Seq<char>>, marker: Seq<char>, prefix: Seq<char>) -> Seq<char> {
    match subject {
        Some(s) => if marker.is_prefix_of(unicode_lower(s)) {
            s
        } else {
            prefix + s
        },
        None => prefix,
    }
}

fn prefixed(subject: &Option<String>, marker: &str, prefix: &str) -> (r: String)
    ensures
        r@ == prefixed_subject(opt_view(*subject), marker@, prefix@),
{
    match subject {
        Some(s) => {
            let lower = chars_of(to_lowercase(s.as_str()).as_str());
            if starts_with(&lower, marker) {
                s.clone()
            } else {
                let mut v = chars_of(prefix);
                extend_str(&mut v, s.as_str());
                string_of(&v)
            }
        },
        None => prefix.to_string(),
    }
}

/// The subject of a reply: `Re: ` before the original one, unless it already
/// starts with `re:` in any case.
pub fn reply_subject(subject: &Option<String>) -> (r: String)
    ensures
        r@ == prefixed_subject(opt_view(*subject), "re:"@, "Re: "@),
{
    prefixed(subject, "re:", "Re: ")
}

/// The subject of a forward: `Fwd: ` before the original one, unless it
/// already starts with `fwd:` in any case.
pub fn forward_subject(subject: &Option<String>) -> (r: String)
    ensures
        r@ == prefixed_subject(opt_view(*subject), "fwd:"@, "Fwd: "@),
{
    prefixed(subject, "fwd:", "Fwd: ")
}

/// A text, or a fallback when it is absent.
pub open spec fn text_or(o: Option<Seq<char>>, fallback: Seq<char>) -> Seq<char> {
    match o {
        Some(t) => t,
        None => fallback,
    }
}

/// The first Message-ID of an e-mail, `(none)` when it has none.
pub open spec fn first_message_id(ids: Option<Seq<Seq<char>>>) -> Seq<char> {
    match ids {
        Some(v) => if v.len() > 0 {
            v[0]
        } else {
            "(none)"@
        },
        None => "(none)"@,
    }
}

/// The text of a reply preview.
pub open spec fn reply_preview_text(
    to: Seq<AddressModel>,
    cc: Seq<AddressModel>,
    bcc: Seq<AddressModel>,
    subject: Seq<char>,
    in_reply_to: Seq<char>,
    body: Seq<char>,
) -> Seq<char> {
    "REPLY PREVIEW:\nTo: "@ + addresses_text(to) + "\nCC: "@ + addresses_text(cc) + "\nBCC: "@
        + addresses_text(bcc) + "\nSubject: "@ + subject + "\nIn-Reply-To: "@ + in_reply_to
        + "\n\n--- Your Reply ---\n"@ + body
}

/// The preview shown before a reply is sent or saved: it goes to the
/// original's senders, under `subject`, in reply to its first Message-ID.
pub fn format_reply_preview(
    original: &Email,
    cc: &[EmailAddress],
    bcc: &[EmailAddress],
    subject: &str,
    body: &str,
) -> (r: String)
    ensures
        r@ == reply_preview_text(
            opt_addresses_view(original.from),
            addresses_view(cc@),
            addresses_view(bcc@),
            subject@,
            first_message_id(
                match original.message_id {
                    Some(v) => Some(strings_view(v@)),
                    None => None,
                },
            ),
            body@,
        ),
{
    let mut out: Vec<char> = Vec::new();
    extend_str(&mut out, "REPLY PREVIEW:\nTo: ");
    let to = match &original.from {
        Some(v) => addresses_chars(v.as_slice()),
        None => {
            let e: Vec<EmailAddress> = Vec::new();
            assert(addresses_view(e@) =~= Seq::<AddressModel>::empty());
            addresses_chars(e.as_slice())
        },
    };
    extend_chars(&mut out, &to);
    extend_str(&mut out, "\nCC: ");
    let c = addresses_chars(cc);
    extend_chars(&mut out, &c);
    extend_str(&mut out, "\nBCC: ");
    let b = addresses_chars(bcc);
    extend_chars(&mut out, &b);
    extend_str(&mut out, "\nSubject: ");
    extend_str(&mut out, subject);
    extend_str(&mut out, "\nIn-Reply-To: ");
    match &original.message_id {
        Some(v) => {
            if v.len() > 0 {
                extend_str(&mut out, v[0].as_str());
            } else {
                extend_str(&mut out, "(none)");
            }
        },
        None => extend_str(&mut out, "(none)"),
    }
    extend_str(&mut out, "\n\n--- Your Reply ---\n");
    extend_str(&mut out, body);
    string_of(&out)
}

/// The text of a forward preview.
pub open spec fn forward_preview_text(
    to: Seq<AddressModel>,
    cc: Seq<AddressModel>,
    bcc: Seq<AddressModel>,
    subject: Seq<char>,
    sender: Seq<AddressModel>,
    body: Seq<char>,
    received_at: Option<Seq<char>>,
    original_subject: Option<Seq<char>>,
    original_body: Seq<char>,
) -> Seq<char> {
    "FORWARD PREVIEW:\nTo: "@ + addresses_text(to) + "\nCC: "@ + addresses_text(cc) + "\nBCC: "@
        + addresses_text(bcc) + "\nSubject: "@ + subject + "\nForwarding from: "@ + addresses_text(sender)
        + "\n\n--- Your Message ---\n"@ + body + "\n\n--- Forwarded ---\nFrom: "@ + addresses_text(sender)
        + "\nDate: "@ + text_or(received_at, "unknown"@) + "\nSubject: "@ + text_or(original_subject, ""@)
        + "\n\n"@ + original_body
}

/// The preview shown before a forward is sent or saved: the new recipients
/// and message, then the original's sender, date, subject and text.
pub fn format_forward_preview(
    original: &Email,
    original_body: &str,
    to: &[EmailAddress],
    cc: &[EmailAddress],
    bcc: &[EmailAddress],
    subject: &str,
    body: &str,
) -> (r: String)
    ensures
        r@ == forward_preview_text(
            addresses_view(to@),
            addresses_view(cc@),
            addresses_view(bcc@),
            subject@,
            opt_addresses_view(original.from),
            body@,
            opt_view(original.received_at),
            opt_view(original.subject),
            original_body@,
        ),
{
    let sender = match &original.from {
        Some(v) => addresses_chars(v.as_slice()),
        None => {
            let e: Vec<EmailAddress> = Vec::new();
            assert(addresses_view(e@) =~= Seq::<AddressModel>::empty());
            addresses_chars(e.as_slice())
        },
    };
    let mut out: Vec<char> = Vec::new();
    extend_str(&mut out, "FORWARD PREVIEW:\nTo: ");
    let t = addresses_chars(to);
    extend_chars(&mut out, &t);
    extend_str(&mut out, "\nCC: ");
    let c = addresses_chars(cc);
    extend_chars(&mut out, &c);
    extend_str(&mut out, "\nBCC: ");
    let b = addresses_chars(bcc);
    extend_chars(&mut out, &b);
    extend_str(&mut out, "\nSubject: ");
    extend_str(&mut out, subject);
    extend_str(&mut out, "\nForwarding from: ");
    extend_chars(&mut out, &sender);
    extend_str(&mut out, "\n\n--- Your Message ---\n");
    extend_str(&mut out, body);
    extend_str(&mut out, "\n\n--- Forwarded ---\nFrom: ");
    extend_chars(&mut out, &sender);
    extend_str(&mut out, "\nDate: ");
    match &original.received_at {
        Some(d) => extend_str(&mut out, d.as_str()),
        None => extend_str(&mut out, "unknown"),
    }
    extend_str(&mut out, "\nSubject: ");
    match &original.subject {
        Some(s) => extend_str(&mut out, s.as_str()),
        None => {
            proof {
                reveal_strlit("");
            }
            assert(out@ =~= out@ + ""@);
        },
    }
    extend_str(&mut out, "\n\n");
    extend_str(&mut out, original_body);
    string_of(&out)
}

// ===================== Messages =====================

/// The preview of deleting a contact, calendar or event: what `mutation`
/// must be re-run with to proceed.
pub open spec fn delete_preview_text(kind: Seq<char>, mutation: Seq<char>, id: Seq<char>) -> Seq<char> {
    "Delete "@ + kind + " "@ + id + ". Re-run "@ + mutation
        + " with action=CONFIRM and the confirmation token to proceed."@
}

/// The preview of deleting a contact, calendar or event.
pub fn delete_preview(kind: &str, mutation: &str, id: &str) -> (r: String)
    ensures
        r@ == delete_preview_text(kind@, mutation@, id@),
{
    let mut v = chars_of("Delete ");
    extend_str(&mut v, kind);
    extend_str(&mut v, " ");
    extend_str(&mut v, id);
    extend_str(&mut v, ". Re-run ");
    extend_str(&mut v, mutation);
    extend_str(&mut v, " with action=CONFIRM and the confirmation token to proceed.");
    string_of(&v)
}

/// The preview of deleting a group.
pub open spec fn group_delete_preview_text(name: Seq<char>, id: Seq<char>) -> Seq<char> {
    "Will delete group '"@ + name + "' ("@ + id + "). Members will NOT be deleted."@
}

/// The preview of deleting a group: its members stay.
pub fn group_delete_preview(name: &str, id: &str) -> (r: String)
    ensures
        r@ == group_delete_preview_text(name@, id@),
{
    let mut v = chars_of("Will delete group '");
    extend_str(&mut v, name);
    extend_str(&mut v, "' (");
    extend_str(&mut v, id);
    extend_str(&mut v, "). Members will NOT be deleted.");
    string_of(&v)
}

/// `<What> <id> <done>`, as in `Contact abc deleted`.
pub fn done_message(what: &str, id: &str, done: &str) -> (r: String)
    ensures
        r@ == what@ + " "@ + id@ + " "@ + done@,
{
    let mut v = chars_of(what);
    extend_str(&mut v, " ");
    extend_str(&mut v, id);
    extend_str(&mut v, " ");
    extend_str(&mut v, done);
    string_of(&v)
}

/// A subject as quoted in a status message.
pub open spec fn subject_or_none(subject: Option<Seq<char>>) -> Seq<char> {
    text_or(subject, "(no subject)"@)
}

fn push_subject(v: &mut Vec<char>, subject: &Option<String>)
    ensures
        final(v)@ == old(v)@ + subject_or_none(opt_view(*subject)),
{
    match subject {
        Some(s) => extend_str(v, s.as_str()),
        None => extend_str(v, "(no subject)"),
    }
}

/// The sender shown in a spam preview: the first address, `(unknown)`
/// without one.
pub open spec fn first_sender(from: Option<Seq<AddressModel>>) -> Seq<char> {
    match from {
        Some(v) => if v.len() > 0 {
            address_text(v[0])
        } else {
            "(unknown)"@
        },
        None => "(unknown)"@,
    }
}

/// The preview of reporting an e-mail as spam.
pub open spec fn spam_preview_text(subject: Option<Seq<char>>, sender: Seq<char>, token: Seq<char>) -> Seq<char> {
    "SPAM PREVIEW \u{2014} This will:\n1. Move to Junk folder\n2. Train spam filter\n\nEmail: \""@
        + subject_or_none(subject) + "\"\nFrom: "@ + sender + "\n\nUse action=CONFIRM with confirmation_token=\""@
        + token + "\" to proceed.\n\nConfirmation token: "@ + token
}

/// The preview of reporting an e-mail as spam, carrying the token that
/// confirms it.
pub fn spam_preview(email: &Email, token: &str) -> (r: String)
    ensures
        r@ == spam_preview_text(
            opt_view(email.subject),
            first_sender(
                match email.from {
                    Some(v) => Some(addresses_view(v@)),
                    None => None,
                },
            ),
            token@,
        ),
{
    let mut v = chars_of("SPAM PREVIEW \u{2014} This will:\n1. Move to Junk folder\n2. Train spam filter\n\nEmail: \"");
    push_subject(&mut v, &email.subject);
    extend_str(&mut v, "\"\nFrom: ");
    match &email.from {
        Some(addrs) => {
            if addrs.len() > 0 {
                let a = address_chars(&addrs[0]);
                extend_chars(&mut v, &a);
            } else {
                extend_str(&mut v, "(unknown)");
            }
        },
        None => extend_str(&mut v, "(unknown)"),
    }
    extend_str(&mut v, "\n\nUse action=CONFIRM with confirmation_token=\"");
    extend_str(&mut v, token);
    extend_str(&mut v, "\" to proceed.\n\nConfirmation token: ");
    extend_str(&mut v, token);
    string_of(&v)
}

/// The message after reporting spam.
pub fn spam_done_message(subject: &Option<String>) -> (r: String)
    ensures
        r@ == "Marked as spam: \""@ + subject_or_none(opt_view(*subject)) + "\""@,
{
    let mut v = chars_of("Marked as spam: \"");
    push_subject(&mut v, subject);
    extend_str(&mut v, "\"");
    string_of(&v)
}

/// The message after marking an e-mail read or unread.
pub fn marked_message(subject: &Option<String>, read: bool) -> (r: String)
    ensures
        r@ == "Marked \""@ + subject_or_none(opt_view(*subject)) + "\" as "@ + if read {
            "read"@
        } else {
            "unread"@
        },
{
    let mut v = chars_of("Marked \"");
    push_subject(&mut v, subject);
    extend_str(&mut v, "\" as ");
    if read {
        extend_str(&mut v, "read");
    } else {
        extend_str(&mut v, "unread");
    }
    string_of(&v)
}

/// The message after moving an e-mail to a mailbox.
pub fn moved_message(subject: &Option<String>, mailbox: &str) -> (r: String)
    ensures
        r@ == "Moved \""@ + subject_or_none(opt_view(*subject)) + "\" to "@ + mailbox@,
{
    let mut v = chars_of("Moved \"");
    push_subject(&mut v, subject);
    extend_str(&mut v, "\" to ");
    extend_str(&mut v, mailbox);
    string_of(&v)
}

} // verus!
