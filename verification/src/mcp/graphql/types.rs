//! GraphQL object types wrapping the library's model structs.
use vstd::prelude::*;
use std::sync::Arc;
use crate::caldav::{
    AttendeeModel, CalendarModel, DateTimeModel, EventModel, RecurrenceModel, ReminderModel, Calendar,
    CalendarEvent, EventAttendee, EventDateTime, EventRecurrence, EventReminder, attendees_view,
    reminders_view, strings_view,
};
use crate::carddav::{Contact, ContactEmail, ContactGroup, ContactModel, ContactPhone, EmailModel, PhoneModel, opt_view};
use crate::models::{
    AddressModel, Email, EmailAddress, EmailBodyPart, Identity, Mailbox, MaskedEmail,
    addresses_view, clone_opt_addresses, opt_addresses_view,
};
use crate::carddav::clone_opt;

verus! {

// ============ Mail ============

pub struct GqlMailbox {
    pub id: String,
    pub name: String,
    pub parent_id: Option<String>,
    pub role: Option<String>,
    pub total_emails: u32,
    pub unread_emails: u32,
    pub total_threads: u32,
    pub unread_threads: u32,
    pub sort_order: u32,
}

impl GqlMailbox {
    pub fn from(m: Mailbox) -> (r: Self)
        ensures
            r.id == m.id,
            r.name == m.name,
            r.parent_id == m.parent_id,
            r.role == m.role,
            r.total_emails == m.total_emails,
            r.unread_emails == m.unread_emails,
            r.total_threads == m.total_threads,
            r.unread_threads == m.unread_threads,
            r.sort_order == m.sort_order,
    {
        GqlMailbox {
            id: m.id,
            name: m.name,
            parent_id: m.parent_id,
            role: m.role,
            total_emails: m.total_emails,
            unread_emails: m.unread_emails,
            total_threads: m.total_threads,
            unread_threads: m.unread_threads,
            sort_order: m.sort_order,
        }
    }
}

#[derive(Debug, Clone)]
pub struct GqlEmailAddress {
    pub name: Option<String>,
    pub email: String,
}

impl View for GqlEmailAddress {
    type V = AddressModel;

    open spec fn view(&self) -> AddressModel {
        AddressModel { name: opt_view(self.name), email: self.email@ }
    }
}

/// Models of a list of GraphQL addresses.
pub open spec fn gql_addresses_view(v: Seq<GqlEmailAddress>) -> Seq<AddressModel> {
    v.map_values(|a: GqlEmailAddress| a@)
}

impl GqlEmailAddress {
    pub fn from(a: EmailAddress) -> (r: Self)
        ensures
            r@ == a@,
    {
        GqlEmailAddress { name: a.name, email: a.email }
    }
}

/// The GraphQL form of an optional address list; empty when absent.
pub fn convert_addrs(addrs: Option<Vec<EmailAddress>>) -> (r: Vec<GqlEmailAddress>)
    ensures
        gql_addresses_view(r@) == opt_addresses_view(addrs),
{
    let mut out: Vec<GqlEmailAddress> = Vec::new();
    match addrs {
        Some(v) => {
            for i in 0..v.len()
                invariant
                    out.len() == i,
                    forall|j: int| 0 <= j < i ==> (#[trigger] out@[j])@ == v@[j]@,
            {
                out.push(GqlEmailAddress { name: clone_opt(&v[i].name), email: v[i].email.clone() });
            }
            assert(gql_addresses_view(out@) =~= addresses_view(v@));
        },
        None => {
            assert(gql_addresses_view(out@) =~= Seq::<AddressModel>::empty());
        },
    }
    out
}

/// Compact e-mail summary returned by list and search queries.
pub struct GqlEmailSummary {
    pub id: String,
    pub thread_id: Option<String>,
    pub subject: Option<String>,
    pub sender: Vec<GqlEmailAddress>,
    pub recipients: Vec<GqlEmailAddress>,
    pub cc_recipients: Vec<GqlEmailAddress>,
    pub received_at: Option<String>,
    pub preview: Option<String>,
    pub has_attachment: bool,
    pub is_unread: bool,
    pub is_flagged: bool,
    pub size: u64,
}

impl GqlEmailSummary {
    pub fn from(e: Email) -> (r: Self)
        ensures
            r.id == e.id,
            r.thread_id == e.thread_id,
            r.subject == e.subject,
            gql_addresses_view(r.sender@) == opt_addresses_view(e.from),
            gql_addresses_view(r.recipients@) == opt_addresses_view(e.to),
            gql_addresses_view(r.cc_recipients@) == opt_addresses_view(e.cc),
            r.received_at == e.received_at,
            r.preview == e.preview,
            r.has_attachment == e.has_attachment,
            r.is_unread == !e.has_keyword("$seen"@),
            r.is_flagged == e.has_keyword("$flagged"@),
            r.size == e.size,
    {
        let is_unread = e.is_unread();
        let is_flagged = e.is_flagged();
        GqlEmailSummary {
            id: e.id,
            thread_id: e.thread_id,
            subject: e.subject,
            sender: convert_addrs(e.from),
            recipients: convert_addrs(e.to),
            cc_recipients: convert_addrs(e.cc),
            received_at: e.received_at,
            preview: e.preview,
            has_attachment: e.has_attachment,
            is_unread,
            is_flagged,
            size: e.size,
        }
    }
}

/// Full e-mail with body content; its address lists are converted once and shared.
pub struct GqlEmail {
    pub inner: Email,
    pub from: Arc<Vec<GqlEmailAddress>>,
    pub to: Arc<Vec<GqlEmailAddress>>,
    pub cc: Arc<Vec<GqlEmailAddress>>,
    pub bcc: Arc<Vec<GqlEmailAddress>>,
    pub reply_to: Arc<Vec<GqlEmailAddress>>,
}

/// Attachment metadata; its content is fetched on demand by the server.
#[derive(Debug, Clone)]
pub struct GqlAttachment {
    pub blob_id: String,
    pub name: Option<String>,
    pub content_type: Option<String>,
    pub size: u64,
    pub disposition: Option<String>,
}

/// Model of attachment metadata.
pub struct AttachmentModel {
    pub blob_id: Seq<char>,
    pub name: Option<Seq<char>>,
    pub content_type: Option<Seq<char>>,
    pub size: u64,
    pub disposition: Option<Seq<char>>,
}

impl View for GqlAttachment {
    type V = AttachmentModel;

    open spec fn view(&self) -> AttachmentModel {
        AttachmentModel {
            blob_id: self.blob_id@,
            name: opt_view(self.name),
            content_type: opt_view(self.content_type),
            size: self.size,
            disposition: opt_view(self.disposition),
        }
    }
}

/// The downloadable attachments among body parts: those with a blob id, in order.
pub open spec fn attachments_of(parts: Seq<EmailBodyPart>) -> Seq<AttachmentModel>
    decreases parts.len(),
{
    if parts.len() == 0 {
        seq![]
    } else {
        let rest = attachments_of(parts.drop_last());
        let p = parts.last();
        match p.blob_id {
            Some(b) => rest.push(
                AttachmentModel {
                    blob_id: b@,
                    name: opt_view(p.name),
                    content_type: opt_view(p.content_type),
                    size: p.size,
                    disposition: opt_view(p.disposition),
                },
            ),
            None => rest,
        }
    }
}

impl GqlEmail {
    /// Wrap an e-mail, converting each address list once.
    pub fn new(email: Email) -> (r: Self)
        ensures
            r.inner == email,
            gql_addresses_view(r.from@) == opt_addresses_view(email.from),
            gql_addresses_view(r.to@) == opt_addresses_view(email.to),
            gql_addresses_view(r.cc@) == opt_addresses_view(email.cc),
            gql_addresses_view(r.bcc@) == opt_addresses_view(email.bcc),
            gql_addresses_view(r.reply_to@) == opt_addresses_view(email.reply_to),
    {
        let from = Arc::new(convert_addrs(clone_opt_addresses(&email.from)));
        let to = Arc::new(convert_addrs(clone_opt_addresses(&email.to)));
        let cc = Arc::new(convert_addrs(clone_opt_addresses(&email.cc)));
        let bcc = Arc::new(convert_addrs(clone_opt_addresses(&email.bcc)));
        let reply_to = Arc::new(convert_addrs(clone_opt_addresses(&email.reply_to)));
        GqlEmail { inner: email, from, to, cc, bcc, reply_to }
    }

    /// The attachments of the wrapped e-mail that can be downloaded.
    pub fn make_attachments(&self) -> (r: Vec<GqlAttachment>)
        ensures
            r@.map_values(|a: GqlAttachment| a@) == match self.inner.attachments {
                Some(v) => attachments_of(v@),
                None => seq![],
            },
    {
        let mut out: Vec<GqlAttachment> = Vec::new();
        match &self.inner.attachments {
            Some(atts) => {
                assert(atts@.take(0) =~= Seq::<EmailBodyPart>::empty());
                assert(out@.map_values(|a: GqlAttachment| a@) =~= Seq::<AttachmentModel>::empty());
                for i in 0..atts.len()
                    invariant
                        out@.map_values(|a: GqlAttachment| a@) == attachments_of(atts@.take(i as int)),
                {
                    assert(atts@.take(i + 1).drop_last() =~= atts@.take(i as int));
                    assert(atts@.take(i + 1).last() == atts@[i as int]);
                    let a = &atts[i];
                    match &a.blob_id {
                        Some(b) => {
                            let ghost before = out@;
                            out.push(
                                GqlAttachment {
                                    blob_id: b.clone(),
                                    name: clone_opt(&a.name),
                                    content_type: clone_opt(&a.content_type),
                                    size: a.size,
                                    disposition: clone_opt(&a.disposition),
                                },
                            );
                            assert(out@.map_values(|x: GqlAttachment| x@) =~= before.map_values(
                                |x: GqlAttachment| x@,
                            ).push(out@.last()@));
                        },
                        None => {},
                    }
                }
                assert(atts@.take(atts.len() as int) =~= atts@);
            },
            None => {
                assert(out@.map_values(|a: GqlAttachment| a@) =~= Seq::<AttachmentModel>::empty());
            },
        }
        out
    }
}

/// Downloaded attachment content: base64 for images, text for documents.
pub struct GqlAttachmentContent {
    pub size: usize,
    pub base64_content: Option<String>,
    pub text_content: Option<String>,
    pub info: Option<String>,
}

pub struct GqlIdentity {
    pub id: String,
    pub name: String,
    pub email: String,
    pub may_delete: bool,
    pub text_signature: Option<String>,
    pub html_signature: Option<String>,
    pub reply_to: Vec<GqlEmailAddress>,
    pub bcc: Vec<GqlEmailAddress>,
}

impl GqlIdentity {
    pub fn from(i: Identity) -> (r: Self)
        ensures
            r.id == i.id,
            r.name == i.name,
            r.email == i.email,
            r.may_delete == i.may_delete,
            r.text_signature == i.text_signature,
            r.html_signature == i.html_signature,
            gql_addresses_view(r.reply_to@) == opt_addresses_view(i.reply_to),
            gql_addresses_view(r.bcc@) == opt_addresses_view(i.bcc),
    {
        GqlIdentity {
            id: i.id,
            name: i.name,
            email: i.email,
            may_delete: i.may_delete,
            text_signature: i.text_signature,
            html_signature: i.html_signature,
            reply_to: convert_addrs(i.reply_to),
            bcc: convert_addrs(i.bcc),
        }
    }
}

pub struct GqlMaskedEmail {
    pub id: String,
    pub email: String,
    pub state: Option<String>,
    pub for_domain: Option<String>,
    pub description: Option<String>,
    pub last_message_at: Option<String>,
    pub created_at: Option<String>,
    pub created_by: Option<String>,
    pub url: Option<String>,
}

impl GqlMaskedEmail {
    pub fn from(m: MaskedEmail) -> (r: Self)
        ensures
            r.id == m.id,
            r.email == m.email,
            r.state == m.state,
            r.for_domain == m.for_domain,
            r.description == m.description,
            r.last_message_at == m.last_message_at,
            r.created_at == m.created_at,
            r.created_by == m.created_by,
            r.url == m.url,
    {
        GqlMaskedEmail {
            id: m.id,
            email: m.email,
            state: m.state,
            for_domain: m.for_domain,
            description: m.description,
            last_message_at: m.last_message_at,
            created_at: m.created_at,
            created_by: m.created_by,
            url: m.url,
        }
    }
}

// ============ Contacts ============

#[derive(Debug, Clone)]
pub struct GqlContactEmail {
    pub email: String,
    pub label: Option<String>,
}

impl View for GqlContactEmail {
    type V = EmailModel;

    open spec fn view(&self) -> EmailModel {
        EmailModel { email: self.email@, label: opt_view(self.label) }
    }
}

impl GqlContactEmail {
    pub fn from(e: ContactEmail) -> (r: Self)
        ensures
            r@ == e@,
    {
        GqlContactEmail { email: e.email, label: e.label }
    }
}

#[derive(Debug, Clone)]
pub struct GqlContactPhone {
    pub number: String,
    pub label: Option<String>,
}

impl View for GqlContactPhone {
    type V = PhoneModel;

    open spec fn view(&self) -> PhoneModel {
        PhoneModel { number: self.number@, label: opt_view(self.label) }
    }
}

impl GqlContactPhone {
    pub fn from(p: ContactPhone) -> (r: Self)
        ensures
            r@ == p@,
    {
        GqlContactPhone { number: p.number, label: p.label }
    }
}

#[derive(Debug, Clone)]
pub struct GqlContact {
    pub id: String,
    pub name: String,
    pub emails: Vec<GqlContactEmail>,
    pub phones: Vec<GqlContactPhone>,
    pub organization: Option<String>,
    pub title: Option<String>,
    pub notes: Option<String>,
    pub address: Option<String>,
    pub href: Option<String>,
    pub etag: Option<String>,
}

impl View for GqlContact {
    type V = ContactModel;

    open spec fn view(&self) -> ContactModel {
        ContactModel {
            id: self.id@,
            name: self.name@,
            emails: self.emails@.map_values(|e: GqlContactEmail| e@),
            phones: self.phones@.map_values(|p: GqlContactPhone| p@),
            organization: opt_view(self.organization),
            title: opt_view(self.title),
            notes: opt_view(self.notes),
            address: opt_view(self.address),
            href: opt_view(self.href),
            etag: opt_view(self.etag),
        }
    }
}

impl GqlContact {
    pub fn from(c: Contact) -> (r: Self)
        ensures
            r@ == c@,
    {
        let mut emails: Vec<GqlContactEmail> = Vec::new();
        for i in 0..c.emails.len()
            invariant
                emails.len() == i,
                forall|j: int| 0 <= j < i ==> (#[trigger] emails@[j])@ == c.emails@[j]@,
        {
            emails.push(GqlContactEmail { email: c.emails[i].email.clone(), label: clone_opt(&c.emails[i].label) });
        }
        let mut phones: Vec<GqlContactPhone> = Vec::new();
        for i in 0..c.phones.len()
            invariant
                phones.len() == i,
                forall|j: int| 0 <= j < i ==> (#[trigger] phones@[j])@ == c.phones@[j]@,
        {
            phones.push(GqlContactPhone { number: c.phones[i].number.clone(), label: clone_opt(&c.phones[i].label) });
        }
        assert(emails@.map_values(|e: GqlContactEmail| e@) =~= c.emails@.map_values(|e: ContactEmail| e@));
        assert(phones@.map_values(|p: GqlContactPhone| p@) =~= c.phones@.map_values(|p: ContactPhone| p@));
        GqlContact {
            id: c.id,
            name: c.name,
            emails,
            phones,
            organization: c.organization,
            title: c.title,
            notes: c.notes,
            address: c.address,
            href: c.href,
            etag: c.etag,
        }
    }
}

/// A contact group with its member count and, when resolved, its members.
pub struct GqlContactGroup {
    pub id: String,
    pub name: String,
    pub member_count: i32,
    pub members: Vec<GqlContact>,
    pub href: Option<String>,
    pub etag: Option<String>,
}

impl GqlContactGroup {
    /// A group without resolved members.
    pub fn from(g: ContactGroup) -> (r: Self)
        ensures
            r.id == g.id,
            r.name == g.name,
            r.member_count == g.member_uids@.len() as i32,
            r.members@.len() == 0,
            r.href == g.href,
            r.etag == g.etag,
    {
        let n = g.member_uids.len();
        GqlContactGroup {
            member_count: n as i32,
            id: g.id,
            name: g.name,
            members: Vec::new(),
            href: g.href,
            etag: g.etag,
        }
    }

    /// A group with its resolved member contacts.
    pub fn with_members(group: ContactGroup, contacts: Vec<Contact>) -> (r: Self)
        ensures
            r.id == group.id,
            r.name == group.name,
            r.member_count == group.member_uids@.len() as i32,
            r.members@.map_values(|c: GqlContact| c@) == contacts@.map_values(|c: Contact| c@),
            r.href == group.href,
            r.etag == group.etag,
    {
        let n = group.member_uids.len();
        let mut members: Vec<GqlContact> = Vec::new();
        let mut rest = contacts;
        let ghost all = rest@;
        let mut i: usize = 0;
        while i < rest.len()
            invariant
                rest@ == all,
                i <= rest.len(),
                members.len() == i,
                forall|j: int| 0 <= j < i ==> (#[trigger] members@[j])@ == all[j]@,
            decreases rest.len() - i,
        {
            let c = Contact {
                id: rest[i].id.clone(),
                name: rest[i].name.clone(),
                emails: crate::carddav::clone_emails(&rest[i].emails),
                phones: crate::carddav::clone_phones(&rest[i].phones),
                organization: clone_opt(&rest[i].organization),
                title: clone_opt(&rest[i].title),
                notes: clone_opt(&rest[i].notes),
                address: clone_opt(&rest[i].address),
                href: clone_opt(&rest[i].href),
                etag: clone_opt(&rest[i].etag),
            };
            members.push(GqlContact::from(c));
            i = i + 1;
        }
        assert(members@.map_values(|c: GqlContact| c@) =~= all.map_values(|c: Contact| c@));
        GqlContactGroup {
            id: group.id,
            name: group.name,
            member_count: n as i32,
            members,
            href: group.href,
            etag: group.etag,
        }
    }
}

// ============ Calendars ============

#[derive(Debug, Clone)]
pub struct GqlCalendar {
    pub id: String,
    pub name: String,
    pub color: Option<String>,
    pub description: Option<String>,
    pub href: String,
    pub etag: Option<String>,
    pub ctag: Option<String>,
    pub is_default: bool,
}

impl View for GqlCalendar {
    type V = CalendarModel;

    open spec fn view(&self) -> CalendarModel {
        CalendarModel {
            id: self.id@,
            name: self.name@,
            color: opt_view(self.color),
            description: opt_view(self.description),
            href: self.href@,
            etag: opt_view(self.etag),
            ctag: opt_view(self.ctag),
            is_default: self.is_default,
        }
    }
}

impl GqlCalendar {
    pub fn from(calendar: Calendar) -> (r: Self)
        ensures
            r@ == calendar@,
    {
        GqlCalendar {
            id: calendar.id,
            name: calendar.name,
            color: calendar.color,
            description: calendar.description,
            href: calendar.href,
            etag: calendar.etag,
            ctag: calendar.ctag,
            is_default: calendar.is_default,
        }
    }
}

#[derive(Debug, Clone)]
pub struct GqlEventDateTime {
    pub value: String,
    pub timezone: Option<String>,
    pub all_day: bool,
}

impl View for GqlEventDateTime {
    type V = DateTimeModel;

    open spec fn view(&self) -> DateTimeModel {
        DateTimeModel { value: self.value@, timezone: opt_view(self.timezone), all_day: self.all_day }
    }
}

impl GqlEventDateTime {
    pub fn from(value: EventDateTime) -> (r: Self)
        ensures
            r@ == value@,
    {
        GqlEventDateTime { value: value.value, timezone: value.timezone, all_day: value.all_day }
    }
}

#[derive(Debug, Clone)]
pub struct GqlEventAttendee {
    pub email: String,
    pub name: Option<String>,
    pub role: Option<String>,
    pub partstat: Option<String>,
    pub rsvp: Option<bool>,
}

impl View for GqlEventAttendee {
    type V = AttendeeModel;

    open spec fn view(&self) -> AttendeeModel {
        AttendeeModel {
            email: self.email@,
            name: opt_view(self.name),
            role: opt_view(self.role),
            partstat: opt_view(self.partstat),
            rsvp: self.rsvp,
        }
    }
}

impl GqlEventAttendee {
    pub fn from(attendee: EventAttendee) -> (r: Self)
        ensures
            r@ == attendee@,
    {
        GqlEventAttendee {
            email: attendee.email,
            name: attendee.name,
            role: attendee.role,
            partstat: attendee.partstat,
            rsvp: attendee.rsvp,
        }
    }
}

#[derive(Debug, Clone)]
pub struct GqlEventRecurrence {
    pub frequency: String,
    pub interval: Option<u32>,
    pub count: Option<u32>,
    pub until: Option<String>,
    pub by_day: Vec<String>,
}

impl View for GqlEventRecurrence {
    type V = RecurrenceModel;

    open spec fn view(&self) -> RecurrenceModel {
        RecurrenceModel {
            frequency: self.frequency@,
            interval: self.interval,
            count: self.count,
            until: opt_view(self.until),
            by_day: strings_view(self.by_day@),
        }
    }
}

impl GqlEventRecurrence {
    pub fn from(recurrence: EventRecurrence) -> (r: Self)
        ensures
            r@ == recurrence@,
    {
        GqlEventRecurrence {
            frequency: recurrence.frequency,
            interval: recurrence.interval,
            count: recurrence.count,
            until: recurrence.until,
            by_day: recurrence.by_day,
        }
    }
}

#[derive(Debug, Clone)]
pub struct GqlEventReminder {
    pub minutes_before: i32,
    pub action: Option<String>,
}

impl View for GqlEventReminder {
    type V = ReminderModel;

    open spec fn view(&self) -> ReminderModel {
        ReminderModel { minutes_before: self.minutes_before as int, action: opt_view(self.action) }
    }
}

impl GqlEventReminder {
    pub fn from(reminder: EventReminder) -> (r: Self)
        ensures
            r@ == reminder@,
    {
        GqlEventReminder { minutes_before: reminder.minutes_before, action: reminder.action }
    }
}

#[derive(Debug, Clone)]
pub struct GqlCalendarEvent {
    pub id: String,
    pub calendar_id: String,
    pub calendar_name: Option<String>,
    pub href: Option<String>,
    pub etag: Option<String>,
    pub title: String,
    pub start: GqlEventDateTime,
    pub end: GqlEventDateTime,
    pub location: Option<String>,
    pub description: Option<String>,
    pub attendees: Vec<GqlEventAttendee>,
    pub recurrence: Option<GqlEventRecurrence>,
    pub reminders: Vec<GqlEventReminder>,
}

impl View for GqlCalendarEvent {
    type V = EventModel;

    open spec fn view(&self) -> EventModel {
        EventModel {
            id: self.id@,
            calendar_id: self.calendar_id@,
            calendar_name: opt_view(self.calendar_name),
            href: opt_view(self.href),
            etag: opt_view(self.etag),
            title: self.title@,
            start: self.start@,
            end: self.end@,
            location: opt_view(self.location),
            description: opt_view(self.description),
            attendees: self.attendees@.map_values(|a: GqlEventAttendee| a@),
            recurrence: match self.recurrence {
                Some(r) => Some(r@),
                None => None,
            },
            reminders: self.reminders@.map_values(|r: GqlEventReminder| r@),
        }
    }
}

impl GqlCalendarEvent {
    pub fn from(event: CalendarEvent) -> (r: Self)
        ensures
            r@ == event@,
    {
        let mut attendees: Vec<GqlEventAttendee> = Vec::new();
        for i in 0..event.attendees.len()
            invariant
                attendees.len() == i,
                forall|j: int| 0 <= j < i ==> (#[trigger] attendees@[j])@ == event.attendees@[j]@,
        {
            let a = crate::caldav::clone_attendee(&event.attendees[i]);
            attendees.push(GqlEventAttendee::from(a));
        }
        let mut reminders: Vec<GqlEventReminder> = Vec::new();
        for i in 0..event.reminders.len()
            invariant
                reminders.len() == i,
                forall|j: int| 0 <= j < i ==> (#[trigger] reminders@[j])@ == event.reminders@[j]@,
        {
            reminders.push(
                GqlEventReminder {
                    minutes_before: event.reminders[i].minutes_before,
                    action: clone_opt(&event.reminders[i].action),
                },
            );
        }
        assert(attendees@.map_values(|a: GqlEventAttendee| a@) =~= attendees_view(event.attendees@));
        assert(reminders@.map_values(|r: GqlEventReminder| r@) =~= reminders_view(event.reminders@));
        let recurrence = match event.recurrence {
            Some(r) => Some(GqlEventRecurrence::from(r)),
            None => None,
        };
        GqlCalendarEvent {
            id: event.id,
            calendar_id: event.calendar_id,
            calendar_name: event.calendar_name,
            href: event.href,
            etag: event.etag,
            title: event.title,
            start: GqlEventDateTime::from(event.start),
            end: GqlEventDateTime::from(event.end),
            location: event.location,
            description: event.description,
            attendees,
            recurrence,
            reminders,
        }
    }
}

// ============ Inputs ============

#[derive(Debug, Clone)]
pub struct GqlEventAttendeeInput {
    pub email: String,
    pub name: Option<String>,
    pub role: Option<String>,
    pub partstat: Option<String>,
    pub rsvp: Option<bool>,
}

impl EventAttendee {
    pub fn from(attendee: GqlEventAttendeeInput) -> (r: Self)
        ensures
            r.email == attendee.email,
            r.name == attendee.name,
            r.role == attendee.role,
            r.partstat == attendee.partstat,
            r.rsvp == attendee.rsvp,
    {
        EventAttendee {
            email: attendee.email,
            name: attendee.name,
            role: attendee.role,
            partstat: attendee.partstat,
            rsvp: attendee.rsvp,
        }
    }
}

#[derive(Debug, Clone)]
pub struct GqlEventRecurrenceInput {
    pub frequency: String,
    pub interval: Option<u32>,
    pub count: Option<u32>,
    pub until: Option<String>,
    pub by_day: Option<Vec<String>>,
}

impl EventRecurrence {
    /// A recurrence rule from GraphQL input; missing BYDAY means none.
    pub fn from(recurrence: GqlEventRecurrenceInput) -> (r: Self)
        ensures
            r.frequency == recurrence.frequency,
            r.interval == recurrence.interval,
            r.count == recurrence.count,
            r.until == recurrence.until,
            r.by_day@ == match recurrence.by_day {
                Some(v) => v@,
                None => Seq::<String>::empty(),
            },
    {
        EventRecurrence {
            frequency: recurrence.frequency,
            interval: recurrence.interval,
            count: recurrence.count,
            until: recurrence.until,
            by_day: match recurrence.by_day {
                Some(v) => v,
                None => Vec::new(),
            },
        }
    }
}

#[derive(Debug, Clone)]
pub struct GqlEventReminderInput {
    pub minutes_before: i32,
    pub action: Option<String>,
}

impl EventReminder {
    pub fn from(reminder: GqlEventReminderInput) -> (r: Self)
        ensures
            r.minutes_before == reminder.minutes_before,
            r.action == reminder.action,
    {
        EventReminder { minutes_before: reminder.minutes_before, action: reminder.action }
    }
}

// ============ Actions ============

#[derive(Debug, Copy, Clone, PartialEq, Eq, Structural)]
pub enum SendAction {
    /// Preview the e-mail before sending.
    Preview,
    /// Send the e-mail (requires a prior preview).
    Confirm,
    /// Save as draft without sending.
    Draft,
}

#[derive(Debug, Copy, Clone, PartialEq, Eq, Structural)]
pub enum SpamAction {
    Preview,
    Confirm,
}

#[derive(Debug, Copy, Clone, PartialEq, Eq, Structural)]
pub enum ContactDeleteAction {
    Preview,
    Confirm,
}

#[derive(Debug, Copy, Clone, PartialEq, Eq, Structural)]
pub enum CalendarDeleteAction {
    Preview,
    Confirm,
}

#[derive(Debug, Copy, Clone, PartialEq, Eq, Structural)]
pub enum EventDeleteAction {
    Preview,
    Confirm,
}

#[derive(Debug, Copy, Clone, PartialEq, Eq, Structural)]
pub enum GroupDeleteAction {
    Preview,
    Confirm,
}

// ============ Results ============

pub struct GqlComposeResult {
    pub success: bool,
    pub email_id: Option<String>,
    pub preview: Option<String>,
    pub confirmation_token: Option<String>,
    pub error: Option<String>,
}

pub struct GqlStatus {
    pub success: bool,
    pub message: Option<String>,
    pub error: Option<String>,
}

pub struct GqlContactMutationResult {
    pub success: bool,
    pub contact: Option<GqlContact>,
    pub message: Option<String>,
    pub error: Option<String>,
}

pub struct GqlContactDeleteResult {
    pub success: bool,
    pub deleted_id: Option<String>,
    pub preview: Option<String>,
    pub confirmation_token: Option<String>,
    pub message: Option<String>,
    pub error: Option<String>,
}

pub struct GqlGroupMutationResult {
    pub success: bool,
    pub group: Option<GqlContactGroup>,
    pub message: Option<String>,
    pub error: Option<String>,
}

pub struct GqlGroupDeleteResult {
    pub success: bool,
    pub deleted_id: Option<String>,
    pub preview: Option<String>,
    pub confirmation_token: Option<String>,
    pub message: Option<String>,
    pub error: Option<String>,
}

pub struct GqlCalendarMutationResult {
    pub success: bool,
    pub calendar: Option<GqlCalendar>,
    pub message: Option<String>,
    pub error: Option<String>,
}

pub struct GqlCalendarDeleteResult {
    pub success: bool,
    pub deleted_id: Option<String>,
    pub preview: Option<String>,
    pub confirmation_token: Option<String>,
    pub message: Option<String>,
    pub error: Option<String>,
}

pub struct GqlEventMutationResult {
    pub success: bool,
    pub event: Option<GqlCalendarEvent>,
    pub message: Option<String>,
    pub error: Option<String>,
}

pub struct GqlEventDeleteResult {
    pub success: bool,
    pub deleted_id: Option<String>,
    pub preview: Option<String>,
    pub confirmation_token: Option<String>,
    pub message: Option<String>,
    pub error: Option<String>,
}

/// All e-mails of a conversation.
pub struct GqlThread {
    pub emails: Vec<Email>,
    pub total: usize,
}

} // verus!
