# fastmail-cli

A command-line client for Fastmail calendars (CalDAV) and contacts (CardDAV),
written in Verus.

- `src/` is the library: Verus proves every function there against its
  `requires`/`ensures` contract, except the trusted wrappers (marked
  `#[verifier::external_body]`) that call std and the outside crates, whose
  contracts are believed as their doc comments say.
  - `text`, `folding`, `xml`: character-level primitives, content-line
    folding (at most 75 octets per physical line, undone by unfolding) and
    escaping, and the small XML reader used on WebDAV replies.
  - `carddav`: the contact model, the vCard 3.0 reader and writer
    (`readback` proves that a written vCard reads back as the same contact),
    the multistatus readers and the lookups over contact lists.
  - `caldav`: the event and calendar model, the iCalendar reader and writer
    (`readback` proves what a written event reads back as, and that an event
    with canonical dates and times reads back unchanged), the multistatus
    readers, recurrence expansion over a time range (`recurrence`), date
    handling (`clock`) and the outcome of each write.
  - `commands`: argument handling of the command-line commands (event and
    contact input, patches, list ranges, attachment file names).
  - `mcp::graphql`: the value types of the assistant interface, the
    confirmation tokens that gate every destructive action, the order in
    which each such action judges its token and reaches the mail server,
    and the previews and messages it shows.
- `app/` is the program around the library: argument parsing, the
  configuration file, the HTTP clients and the JSON output. It offers the
  calendar and contact commands only: the mail (JMAP) client, the attachment
  download command, the contact-group commands and the assistant (MCP)
  server are not part of this project; of them, `src/` holds the decisions
  that need no mail client (the attachment file names, the confirmation
  gate and the order of each mutation's steps, the reply and forward
  subjects and the previews).
- `tests/` exercises the library with concrete values.

Outside crates are reached from `src/` only through trusted items marked
`#[verifier::external_body]`, each with a doc comment that says what its
contract claims of the outside function.
