# metw-mailer

A templated e-mail sender behind a small REST API. Mails are written once, in
template files that hold a version per language, and are sent through an SMTP
relay.

## Layout

- `src/` — the library, verified with Verus:
  - `lib.rs`: the locales and how their names are read;
  - `text.rs`: the character-level operations of the template format (lines,
    trimming, `{{`/`}}` unescaping);
  - `table.rs`: the map type of the library, a table with unique keys;
  - `mailfmt/`: the template file format (`template.rs`), loading a set of
    template files and formatting a mail in the reader's preferred locale
    (`mod.rs`), and the calls into `strfmt` and `html-minifier` (`render.rs`);
  - `mailer/`: choosing the MIME boundary, composing the multipart body and
    preparing a mail for the transport;
  - `web/`: the decisions of the HTTP interface (authorization, answers).
- `app/` — the service: environment, template directory, SMTP transport, HTTP
  server, and the serde forms of the requests and answers.
- `tests/` — tests of the library.

## Configuration

```env
HTTP_HOST="0.0.0.0:3000"
MAILER_RELAY="example.com"
MAILER_NOREPLY="no-reply@example.com"
TOKEN="example"
```

Template files are read from the `mails/` directory of the working directory;
each file's stem is the template's name.
