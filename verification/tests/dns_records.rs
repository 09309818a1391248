use smtp_test_tool::dns::{
    dmarc_from_txt_records, dmarc_name, exchange_host, spf_from_txt_records, interpret, parse_dmarc, parse_spf, prepare_domain, render_report,
    sort_mx_records, txt_record_matching, DnsError, DnsHint, DnsReport, DmarcRecord, MxRecord,
    Severity, SpfRecord,
};

// ---- SPF parser -------------------------------------------------

#[test]
fn spf_parses_minus_all() {
    let r = parse_spf("v=spf1 ip4:192.0.2.0/24 -all");
    assert_eq!(r.all_qualifier.as_deref(), Some("-"));
}

#[test]
fn spf_parses_tilde_all() {
    let r = parse_spf("v=spf1 mx ~all");
    assert_eq!(r.all_qualifier.as_deref(), Some("~"));
}

#[test]
fn spf_parses_plus_all_explicit() {
    let r = parse_spf("v=spf1 +all");
    assert_eq!(r.all_qualifier.as_deref(), Some("+"));
}

#[test]
fn spf_parses_question_all() {
    let r = parse_spf("v=spf1 ?all");
    assert_eq!(r.all_qualifier.as_deref(), Some("?"));
}

#[test]
fn spf_handles_no_all() {
    let r = parse_spf("v=spf1 include:_spf.google.com");
    assert!(r.all_qualifier.is_none());
}

#[test]
fn spf_bare_all_means_plus_and_first_all_wins() {
    let r = parse_spf("v=spf1 all -all");
    assert_eq!(r.all_qualifier.as_deref(), Some("+"));
    let r = parse_spf("  v=spf1\t~all  ?all ");
    assert_eq!(r.all_qualifier.as_deref(), Some("~"));
    assert_eq!(r.raw, "  v=spf1\t~all  ?all ");
}

#[test]
fn spf_all_must_be_a_whole_term() {
    assert!(parse_spf("v=spf1 -allx include:all.example.com").all_qualifier.is_none());
    assert!(parse_spf("v=spf1 --all").all_qualifier.is_none());
    assert!(parse_spf("").all_qualifier.is_none());
    // Unicode whitespace separates terms too.
    let r = parse_spf("v=spf1\u{3000}-all");
    assert_eq!(r.all_qualifier.as_deref(), Some("-"));
}

// ---- DMARC parser -----------------------------------------------

#[test]
fn dmarc_parses_reject_policy() {
    let r = parse_dmarc("v=DMARC1; p=reject; rua=mailto:postmaster@example.com");
    assert_eq!(r.policy.as_deref(), Some("reject"));
    assert!(r.subdomain_policy.is_none());
    assert!(r.pct.is_none());
}

#[test]
fn dmarc_parses_quarantine_with_sp_and_pct() {
    let r = parse_dmarc("v=DMARC1; p=quarantine; sp=reject; pct=50");
    assert_eq!(r.policy.as_deref(), Some("quarantine"));
    assert_eq!(r.subdomain_policy.as_deref(), Some("reject"));
    assert_eq!(r.pct, Some(50));
}

#[test]
fn dmarc_tolerates_whitespace_chaos() {
    let r = parse_dmarc("v=DMARC1 ; p = none ;   pct=100");
    assert_eq!(r.policy.as_deref(), Some("none"));
    assert_eq!(r.pct, Some(100));
}

#[test]
fn dmarc_pct_follows_u8_parsing() {
    assert_eq!(parse_dmarc("v=DMARC1; pct=+7").pct, Some(7));
    assert_eq!(parse_dmarc("v=DMARC1; pct=007").pct, Some(7));
    assert_eq!(parse_dmarc("v=DMARC1; pct=255").pct, Some(255));
    assert_eq!(parse_dmarc("v=DMARC1; pct=256").pct, None);
    assert_eq!(parse_dmarc("v=DMARC1; pct=-1").pct, None);
    assert_eq!(parse_dmarc("v=DMARC1; pct=").pct, None);
    assert_eq!(parse_dmarc("v=DMARC1; pct=+").pct, None);
    // A later tag overrides an earlier one, even with an unparsable value.
    assert_eq!(parse_dmarc("v=DMARC1; pct=20; pct=x").pct, None);
    assert_eq!(parse_dmarc("v=DMARC1; p=none; p=reject").policy.as_deref(), Some("reject"));
}

#[test]
fn dmarc_ignores_tags_without_equals_and_keeps_raw() {
    let raw = "v=DMARC1;;p;sp=none;P=reject; p=a=b";
    let r = parse_dmarc(raw);
    assert_eq!(r.raw, raw);
    assert_eq!(r.policy.as_deref(), Some("a=b"));
    assert_eq!(r.subdomain_policy.as_deref(), Some("none"));
    assert_eq!(r.pct, None);
}

// ---- Interpretation --------------------------------------------

fn mx(preference: u16, exchange: &str, ips: &[&str]) -> MxRecord {
    MxRecord {
        preference,
        exchange: exchange.to_string(),
        ips: ips.iter().map(|s| s.to_string()).collect(),
    }
}

#[test]
fn interpret_flags_missing_mx_as_critical() {
    let report = DnsReport {
        domain: "example.com".into(),
        mx: vec![],
        spf: None,
        dmarc: None,
    };
    let hints = interpret(&report);
    assert!(hints.iter().any(|h| h.id == "no_mx"));
    assert!(hints.iter().find(|h| h.id == "no_mx").unwrap().severity == Severity::Critical);
}

#[test]
fn interpret_flags_plus_all_as_critical() {
    let report = DnsReport {
        domain: "example.com".into(),
        mx: vec![mx(10, "mx.example.com", &["192.0.2.1"])],
        spf: Some(parse_spf("v=spf1 +all")),
        dmarc: None,
    };
    let hints = interpret(&report);
    let spf_hint = hints.iter().find(|h| h.id == "spf_plus_all").unwrap();
    assert_eq!(spf_hint.severity, Severity::Critical);
}

#[test]
fn interpret_quiet_when_everything_healthy() {
    let report = DnsReport {
        domain: "example.com".into(),
        mx: vec![mx(10, "mx.example.com", &["192.0.2.1"])],
        spf: Some(parse_spf("v=spf1 mx -all")),
        dmarc: Some(parse_dmarc(
            "v=DMARC1; p=reject; rua=mailto:dmarc@example.com",
        )),
    };
    let hints = interpret(&report);
    // Only acceptable hint here would be an info-level one, never
    // critical or warning.
    assert!(hints.iter().all(|h| h.severity == Severity::Info));
}

#[test]
fn render_includes_domain_and_hint_badges() {
    let report = DnsReport {
        domain: "example.com".into(),
        mx: vec![],
        spf: None,
        dmarc: None,
    };
    let hints = interpret(&report);
    let s = render_report(&report, &hints);
    assert!(s.contains("example.com"));
    assert!(s.contains("[CRIT]"));
    assert!(s.contains("(none)"));
}

#[test]
fn interpret_orders_hints_by_severity() {
    let report = DnsReport {
        domain: "example.com".into(),
        mx: vec![mx(10, "a.example.com", &[]), mx(20, "b.example.com", &["192.0.2.7"]), mx(30, "c.example.com", &[])],
        spf: Some(SpfRecord { raw: "v=spf1".into(), all_qualifier: None }),
        dmarc: Some(DmarcRecord {
            raw: "v=DMARC1; p=block; pct=25".into(),
            policy: Some("block".into()),
            subdomain_policy: None,
            pct: Some(25),
        }),
    };
    let hints = interpret(&report);
    let ids: Vec<&str> = hints.iter().map(|h| h.id).collect();
    assert_eq!(ids, vec!["mx_no_a", "spf_no_all", "dmarc_p_unknown", "dmarc_pct_low"]);
    assert_eq!(
        hints[0].text,
        "MX hostname(s) without A/AAAA records: a.example.com, c.example.com.  Receivers will fail to resolve where to deliver - fix the forward DNS for these hosts."
    );
    assert_eq!(
        hints[2].text,
        "DMARC policy 'p=block' is not a value any receiver recognises.  Use 'none', 'quarantine', or 'reject'."
    );
    assert_eq!(
        hints[3].text,
        "DMARC pct=25: only that percentage of non-aligned mail is acted on.  Fine while rolling out, but raise to pct=100 once reports are clean."
    );
    assert_eq!(hints[3].severity, Severity::Info);
}

#[test]
fn interpret_texts_for_a_bare_domain() {
    let report = DnsReport {
        domain: "example.org".into(),
        mx: vec![],
        spf: None,
        dmarc: None,
    };
    let hints = interpret(&report);
    let ids: Vec<&str> = hints.iter().map(|h| h.id).collect();
    assert_eq!(ids, vec!["no_mx", "no_spf", "no_dmarc"]);
    assert_eq!(
        hints[0].text,
        "example.org has no MX records.  Mail to this domain will bounce with 'unrouteable address' on every receiver."
    );
    assert_eq!(
        hints[2].text,
        "example.org has no DMARC record at _dmarc.example.org.  Without DMARC, receivers will not honour your SPF / DKIM alignment - spoofing of your domain is harder to block."
    );
    assert_eq!(hints[1].severity, Severity::Warning);
}

#[test]
fn interpret_spf_and_dmarc_variants() {
    let base = |spf: &str, dmarc: &str| DnsReport {
        domain: "example.net".into(),
        mx: vec![mx(5, "mx.example.net", &["2001:db8::1"])],
        spf: Some(parse_spf(spf)),
        dmarc: Some(parse_dmarc(dmarc)),
    };
    let ids = |r: &DnsReport| -> Vec<&'static str> { interpret(r).iter().map(|h| h.id).collect() };
    assert_eq!(ids(&base("v=spf1 ?all", "v=DMARC1; p=none")), vec!["spf_neutral_all", "dmarc_p_none"]);
    assert_eq!(ids(&base("v=spf1 ~all", "v=DMARC1; p=quarantine; pct=100")), Vec::<&str>::new());
    assert_eq!(ids(&base("v=spf1 ~all", "v=DMARC1")), vec!["dmarc_no_p"]);
    let plus = interpret(&base("v=spf1 +all", "v=DMARC1; p=reject"));
    assert_eq!(
        plus[0].text,
        "SPF record ends with '+all' - this means 'anyone in the world may send as example.net'.  Effectively no policy. Change to '-all' (strict) or '~all' (softfail)."
    );
}

#[test]
fn render_lays_out_every_section() {
    let report = DnsReport {
        domain: "example.com".into(),
        mx: vec![mx(5, "mx1.example.com", &["192.0.2.1", "192.0.2.2"]), mx(1000, "mx2.example.com", &[])],
        spf: Some(parse_spf("v=spf1 -all")),
        dmarc: Some(parse_dmarc("v=DMARC1; p=reject")),
    };
    let hints = vec![DnsHint { id: "x", text: "look here".into(), severity: Severity::Warning }];
    let s = render_report(&report, &hints);
    let expected = format!(
        "DNS audit for example.com\n{}\n\nMX:\n    5  {:<40}  [192.0.2.1, 192.0.2.2]\n  1000  {:<40}  [<unresolved>]\n\nSPF:   v=spf1 -all\n         (all-qualifier: '-all')\n\nDMARC: v=DMARC1; p=reject\n\nHints:\n  [WARN] look here\n",
        "-".repeat(31),
        "mx1.example.com",
        "mx2.example.com"
    );
    assert_eq!(s, expected);
    assert!(!s.contains('\u{1b}'));
}

#[test]
fn render_healthy_report_and_byte_length_underline() {
    let report = DnsReport {
        domain: "bücher.de".into(),
        mx: vec![],
        spf: None,
        dmarc: None,
    };
    let s = render_report(&report, &[]);
    let expected = format!(
        "DNS audit for bücher.de\n{}\n\nMX:    (none)\n\nSPF:   (none)\n\nDMARC: (none)\n\nHints: (none - the basics look healthy)\n",
        "-".repeat(20 + "bücher.de".len())
    );
    assert_eq!(s, expected);
}

// ---- Lookups' pure parts ---------------------------------------

#[test]
fn mx_records_sort_stably_by_preference() {
    let sorted = sort_mx_records(vec![
        mx(20, "b", &[]),
        mx(10, "a", &[]),
        mx(20, "c", &[]),
        mx(5, "d", &[]),
        mx(10, "e", &[]),
    ]);
    let names: Vec<&str> = sorted.iter().map(|m| m.exchange.as_str()).collect();
    assert_eq!(names, vec!["d", "a", "e", "b", "c"]);
    assert!(sort_mx_records(vec![]).is_empty());
}

#[test]
fn exchange_and_dmarc_names() {
    assert_eq!(exchange_host("mx.example.com."), "mx.example.com");
    assert_eq!(exchange_host("mx.example.com..."), "mx.example.com");
    assert_eq!(exchange_host("."), "");
    assert_eq!(dmarc_name("example.com"), "_dmarc.example.com");
}

#[test]
fn txt_records_are_joined_and_selected_by_prefix() {
    let records = vec![
        vec![b"google-site-verification=abc".to_vec()],
        vec![b"v=spf1 include:_spf.".to_vec(), b"example.com -all".to_vec()],
        vec![b"v=spf1 second".to_vec()],
    ];
    assert_eq!(
        txt_record_matching(&records, "v=spf1").as_deref(),
        Some("v=spf1 include:_spf.example.com -all")
    );
    assert_eq!(txt_record_matching(&records, "V=SPF1"), None);
    assert_eq!(txt_record_matching(&records, "v=DMARC1"), None);
    let lossy = vec![vec![b"v=DMARC1; p=\xff".to_vec()]];
    assert_eq!(txt_record_matching(&lossy, "v=DMARC1").as_deref(), Some("v=DMARC1; p=\u{fffd}"));
}

#[test]
fn domains_are_normalised_and_checked() {
    assert_eq!(prepare_domain("  Example.COM.  ").unwrap(), "example.com");
    assert_eq!(prepare_domain("mail.example.org..").unwrap(), "mail.example.org");
    match prepare_domain("  LocalHost. ") {
        Err(DnsError::BadDomain(d)) => assert_eq!(d, "localhost"),
        other => panic!("expected BadDomain, got {other:?}"),
    }
    match prepare_domain(" . ") {
        Err(DnsError::BadDomain(d)) => assert_eq!(d, ""),
        other => panic!("expected BadDomain, got {other:?}"),
    }
}

#[test]
fn spf_and_dmarc_records_come_from_the_matching_txt_record() {
    let apex = vec![
        vec![b"v=spf2.0/pra not this".to_vec()],
        vec![b"v=spf1 mx".to_vec(), b" ~all".to_vec()],
    ];
    let spf = spf_from_txt_records(&apex).unwrap();
    assert_eq!(spf.raw, "v=spf1 mx ~all");
    assert_eq!(spf.all_qualifier.as_deref(), Some("~"));
    assert!(dmarc_from_txt_records(&apex).is_none());
    let dmarc = vec![vec![b"v=DMARC1; p=quarantine; pct=10".to_vec()]];
    let d = dmarc_from_txt_records(&dmarc).unwrap();
    assert_eq!(d.policy.as_deref(), Some("quarantine"));
    assert_eq!(d.pct, Some(10));
    assert!(spf_from_txt_records(&vec![]).is_none());
}
