//! DNS-side checks for a mail domain.
//!
//! Missing SPF records, a `p=none` DMARC policy, a forgotten MX or an MX
//! host without addresses cause most mail-flow failures.  This module holds
//! what turns raw DNS answers into a report and the report into
//! IT-actionable hints: the SPF and DMARC record parsers, the selection of
//! TXT records, the ordering of MX records, the interpretation of a report
//! and its text rendering.  The lookups themselves are made by the caller.

pub mod hints;
pub mod lookup;
pub mod records;
pub mod render;

pub use hints::interpret;
pub use lookup::{
    check_domain, dmarc_from_txt_records, dmarc_name, exchange_host, prepare_domain,
    select_with_prefix, sort_mx_records, spf_from_txt_records, txt_record_matching,
};
pub use records::{parse_dmarc, parse_spf};
pub use render::render_report;

use vstd::prelude::*;

verus! {

// =====================================================================
// Public types
// =====================================================================

/// One MX record from the apex domain.
#[derive(Debug, Clone, PartialEq, Eq)]
pub struct MxRecord {
    /// Preference / priority value (lower = preferred).
    pub preference: u16,
    /// Exchange hostname (trailing dots stripped).
    pub exchange: String,
    /// Forward A / AAAA addresses of the exchange host, in their textual
    /// form.  Empty means the lookup was tried and failed: receivers will
    /// not be able to deliver there.
    pub ips: Vec<String>,
}

/// SPF record (TXT at the apex starting with `v=spf1`).
#[derive(Debug, Clone, PartialEq, Eq)]
pub struct SpfRecord {
    /// The full raw `v=spf1 ...` string.
    pub raw: String,
    /// Detected "all" mechanism qualifier:
    ///   - `Some("-")` = `-all`     (fail / hard reject)
    ///   - `Some("~")` = `~all`     (softfail)
    ///   - `Some("?")` = `?all`     (neutral)
    ///   - `Some("+")` = `+all`     (pass anything - effectively no policy)
    ///   - `None`      = no `all` mechanism present
    pub all_qualifier: Option<String>,
}

/// DMARC record (TXT at `_dmarc.<domain>` starting with `v=DMARC1`).
#[derive(Debug, Clone, PartialEq, Eq)]
pub struct DmarcRecord {
    pub raw: String,
    /// `p=` value: usually `none`, `quarantine`, `reject`.
    pub policy: Option<String>,
    /// `sp=` value (subdomain policy).
    pub subdomain_policy: Option<String>,
    /// `pct=` value (sampling rate).
    pub pct: Option<u8>,
}

/// Full audit report for one domain.
#[derive(Debug, Clone)]
pub struct DnsReport {
    pub domain: String,
    pub mx: Vec<MxRecord>,
    pub spf: Option<SpfRecord>,
    pub dmarc: Option<DmarcRecord>,
}

impl Default for DnsReport {
    /// An empty report: no domain, no MX records, no SPF and no DMARC record.
    fn default() -> (r: Self)
        ensures
            r.domain@ == Seq::<char>::empty(),
            r.mx@.len() == 0,
            r.spf is None,
            r.dmarc is None,
    {
        DnsReport { domain: String::new(), mx: Vec::new(), spf: None, dmarc: None }
    }
}

/// One IT-actionable hint produced by `interpret`.
#[derive(Debug, Clone, PartialEq, Eq)]
pub struct DnsHint {
    /// Stable ID for translation lookup, e.g. `"no_mx"`, `"spf_plus_all"`.
    pub id: &'static str,
    /// English fallback text.
    pub text: String,
    /// Severity for UI colouring.
    pub severity: Severity,
}

#[derive(Debug, Clone, Copy, PartialEq, Eq, Structural)]
pub enum Severity {
    /// "Your mail will be silently dropped" - bright red.
    Critical,
    /// "Your mail looks suspicious; deliverability suffers" - amber.
    Warning,
    /// "Worth knowing but not urgent."
    Info,
}

/// Why an audit could not run.  Each variant carries the message of its
/// cause.
#[derive(Debug)]
pub enum DnsError {
    /// The domain name given is not usable (empty, or without a dot).
    BadDomain(String),
    /// The runtime that performs the lookups could not be started.
    Runtime(String),
    /// The resolver could not be configured.
    Resolver(String),
}

// ---------------------------------------------------------------------
// Views
// ---------------------------------------------------------------------

pub struct MxView {
    pub preference: u16,
    pub exchange: Seq<char>,
    pub ips: Seq<Seq<char>>,
}

pub struct SpfView {
    pub raw: Seq<char>,
    pub all_qualifier: Option<Seq<char>>,
}

pub struct DmarcView {
    pub raw: Seq<char>,
    pub policy: Option<Seq<char>>,
    pub subdomain_policy: Option<Seq<char>>,
    pub pct: Option<u8>,
}

pub struct ReportView {
    pub domain: Seq<char>,
    pub mx: Seq<MxView>,
    pub spf: Option<SpfView>,
    pub dmarc: Option<DmarcView>,
}

pub struct HintView {
    pub id: Seq<char>,
    pub text: Seq<char>,
    pub severity: Severity,
}

impl View for MxRecord {
    type V = MxView;

    open spec fn view(&self) -> MxView {
        MxView {
            preference: self.preference,
            exchange: self.exchange@,
            ips: self.ips@.map_values(|s: String| s@),
        }
    }
}

impl View for SpfRecord {
    type V = SpfView;

    open spec fn view(&self) -> SpfView {
        SpfView { raw: self.raw@, all_qualifier: self.all_qualifier.deep_view() }
    }
}

impl View for DmarcRecord {
    type V = DmarcView;

    open spec fn view(&self) -> DmarcView {
        DmarcView {
            raw: self.raw@,
            policy: self.policy.deep_view(),
            subdomain_policy: self.subdomain_policy.deep_view(),
            pct: self.pct,
        }
    }
}

impl View for DnsReport {
    type V = ReportView;

    open spec fn view(&self) -> ReportView {
        ReportView {
            domain: self.domain@,
            mx: self.mx@.map_values(|m: MxRecord| m@),
            spf: match self.spf {
                Some(s) => Some(s@),
                None => None,
            },
            dmarc: match self.dmarc {
                Some(d) => Some(d@),
                None => None,
            },
        }
    }
}

impl View for DnsHint {
    type V = HintView;

    open spec fn view(&self) -> HintView {
        HintView { id: self.id@, text: self.text@, severity: self.severity }
    }
}

} // verus!
