# smtp_test_tool (verified core)

The decision-making core of an e-mail connectivity tester, written in Verus
with its behaviour stated in contracts and proved.

Layout:

- `src/dns.rs` and `src/dns/`: the report types of a DNS audit of a mail
  domain; `records` parses SPF and DMARC records, `lookup` decides what the
  lookups need (the domain to audit, the DMARC record name, MX exchange
  names and order, the choice among TXT records), `hints` turns a report
  into hints ordered by severity, `render` writes the text report.
- `src/locale.rs`: normalisation of an OS locale string, and the bare
  language code (at most three lowercase ASCII letters) detected from it.
- `src/fonts.rs`: OS-typical font families to try per locale.
- `src/cli.rs`: choosing a provider preset from a name given on the
  command line, and cleaning up what is typed at a prompt.
- `src/text.rs`: character-level text handling shared by the above.
- `app/`: the I/O around the library (live DNS lookups with
  hickory-resolver and tokio, the OS locale, OS fonts for the GUI, prompts
  on the terminal, and the serde/thiserror forms of the report types).
- `tests/`: tests of the library on concrete values.

What is trusted rather than proved: three calls into std, each behind a
small wrapper in `src/text.rs` whose contract Verus takes on trust.
`String::push` appends one character; `str::to_lowercase` is named by its
result (`unicode_lowercase`), with the one stated fact that ASCII text comes
back as its ASCII lowercase; `String::from_utf8_lossy` is named by its result
(`utf8_lossy`), with the stated fact that valid UTF-8 is decoded as such.

What is not here: there is no command-line binary.  The tester's `main`
drives profiles, a configuration file, a keychain, the provider presets and
the SMTP, IMAP and POP3 probes, and the modules that hold those are not part
of this code base; `app/` keeps only the pieces of the command line whose
logic lives in the library (provider choice, prompts, colour detection).
