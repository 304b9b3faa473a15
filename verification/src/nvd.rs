//! What the scanner reads from an answer of the NVD API, and how it folds
//! that into a vulnerability. Scores are kept in tenths of a CVSS point.
use vstd::prelude::*;
use crate::services::{Vulnerability, VulnerabilityView, text, copy_string};
use crate::text::{chars_of, string_of, append_chars};

verus! {

/// An answer of the NVD API.
#[derive(Debug, Clone)]
pub struct NvdCveResponse {
    pub result: Option<NvdResult>,
}

#[derive(Debug, Clone)]
pub struct NvdResult {
    pub cve_items: Option<Vec<CveItem>>,
}

#[derive(Debug, Clone)]
pub struct CveItem {
    pub cve: CveData,
    pub impact: Option<Impact>,
}

#[derive(Debug, Clone)]
pub struct CveData {
    pub id: String,
    pub description: Option<DescriptionData>,
}

#[derive(Debug, Clone)]
pub struct DescriptionData {
    pub description_data: Option<Vec<DescriptionItem>>,
}

#[derive(Debug, Clone)]
pub struct DescriptionItem {
    pub value: String,
}

#[derive(Debug, Clone)]
pub struct Impact {
    pub base_metric_v3: Option<BaseMetricV3>,
    pub base_metric_v2: Option<BaseMetricV2>,
}

#[derive(Debug, Clone)]
pub struct BaseMetricV3 {
    pub cvss_v3: Option<CvssV3>,
}

#[derive(Debug, Clone)]
pub struct CvssV3 {
    pub base_severity: Option<String>,
    /// The base score in tenths of a point.
    pub base_score_tenths: u16,
}

#[derive(Debug, Clone)]
pub struct BaseMetricV2 {
    pub cvss_v2: Option<CvssV2>,
}

#[derive(Debug, Clone)]
pub struct CvssV2 {
    /// The base score in tenths of a point.
    pub base_score_tenths: u16,
}

/// The description kept where the answer gives none.
pub open spec fn no_description() -> Seq<char> {
    "No description available"@
}

/// The first description of a CVE entry, if there is one.
pub open spec fn description_of(cve: CveData) -> Seq<char> {
    match cve.description {
        Some(d) => match d.description_data {
            Some(items) => if items@.len() > 0 {
                items@[0].value@
            } else {
                no_description()
            },
            None => no_description(),
        },
        None => no_description(),
    }
}

pub open spec fn v3_score(impact: Impact) -> Option<u16> {
    match impact.base_metric_v3 {
        Some(b) => match b.cvss_v3 {
            Some(c) => Some(c.base_score_tenths),
            None => None,
        },
        None => None,
    }
}

pub open spec fn v2_score(impact: Impact) -> Option<u16> {
    match impact.base_metric_v2 {
        Some(b) => match b.cvss_v2 {
            Some(c) => Some(c.base_score_tenths),
            None => None,
        },
        None => None,
    }
}

/// The CVSS v3 base score, else the v2 one, else zero.
pub open spec fn score_of(impact: Option<Impact>) -> u16 {
    match impact {
        Some(i) => match v3_score(i) {
            Some(s) => s,
            None => match v2_score(i) {
                Some(s) => s,
                None => 0,
            },
        },
        None => 0,
    }
}

/// The description and score of the first CVE entry of an answer, if the
/// answer holds any entry.
pub open spec fn details_of(r: NvdCveResponse) -> Option<(Seq<char>, u16)> {
    match r.result {
        Some(res) => match res.cve_items {
            Some(items) => if items@.len() > 0 {
                Some((description_of(items@[0].cve), score_of(items@[0].impact)))
            } else {
                None
            },
            None => None,
        },
        None => None,
    }
}

fn first_description(cve: &CveData) -> (res: String)
    ensures
        res@ == description_of(*cve),
{
    match &cve.description {
        Some(d) => match &d.description_data {
            Some(items) => if items.len() > 0 {
                copy_string(&items[0].value)
            } else {
                text("No description available")
            },
            None => text("No description available"),
        },
        None => text("No description available"),
    }
}

fn best_score(impact: &Option<Impact>) -> (res: u16)
    ensures
        res == score_of(*impact),
{
    match impact {
        Some(i) => {
            let v3: Option<u16> = match &i.base_metric_v3 {
                Some(b) => match &b.cvss_v3 {
                    Some(c) => Some(c.base_score_tenths),
                    None => None,
                },
                None => None,
            };
            match v3 {
                Some(s) => s,
                None => match &i.base_metric_v2 {
                    Some(b) => match &b.cvss_v2 {
                        Some(c) => c.base_score_tenths,
                        None => 0,
                    },
                    None => 0,
                },
            }
        },
        None => 0,
    }
}

/// The description and score (in tenths) that an answer gives for the CVE
/// it was asked about: those of its first entry.
pub fn cve_details(resp: &NvdCveResponse) -> (res: Option<(String, u16)>)
    ensures
        match res {
            Some((d, s)) => details_of(*resp) == Some((d@, s)),
            None => details_of(*resp) is None,
        },
{
    match &resp.result {
        Some(r) => match &r.cve_items {
            Some(items) => if items.len() > 0 {
                let item = &items[0];
                Some((first_description(&item.cve), best_score(&item.impact)))
            } else {
                None
            },
            None => None,
        },
        None => None,
    }
}

/// The NVD query for a CVE identifier.
pub open spec fn query_url_of(cve_id: Seq<char>) -> Seq<char> {
    "https://services.nvd.nist.gov/rest/json/cves/1.0?keyword="@ + cve_id
}

/// The URL that asks the NVD API about a CVE.
pub fn nvd_query_url(cve_id: &str) -> (res: String)
    ensures
        res@ == query_url_of(cve_id@),
{
    let mut u = chars_of("https://services.nvd.nist.gov/rest/json/cves/1.0?keyword=");
    let id = chars_of(cve_id);
    append_chars(&mut u, id.as_slice());
    string_of(u.as_slice())
}

/// Takes the description and score found for a vulnerability, where some
/// were found; the rest of it stays as it was.
pub fn apply_details(vuln: &mut Vulnerability, details: Option<(String, u16)>)
    ensures
        match details {
            Some((d, s)) => final(vuln)@ == VulnerabilityView {
                description: d@,
                cvss_tenths: s,
                ..old(vuln)@
            },
            None => final(vuln)@ == old(vuln)@,
        },
{
    match details {
        Some((d, s)) => {
            vuln.description = d;
            vuln.cvss_tenths = s;
        },
        None => {},
    }
}

/// What to do for a vulnerability while enriching a report.
#[derive(Debug)]
pub enum EnrichAction {
    /// The cache holds its description and score (in tenths): apply them.
    Apply(String, u16),
    /// The cache holds nothing: ask the NVD, apply what it answers
    /// (`apply_details`) and store the result in the cache.
    Fetch,
}

/// The cache comes first: what it holds for a vulnerability is applied,
/// and the NVD is asked only where it holds nothing.
pub fn enrich_action(cached: Option<(String, u16)>) -> (a: EnrichAction)
    ensures
        match cached {
            Some((d, s)) => a matches EnrichAction::Apply(d2, s2) && d2@ == d@ && s2 == s,
            None => a is Fetch,
        },
{
    match cached {
        Some((d, s)) => EnrichAction::Apply(d, s),
        None => EnrichAction::Fetch,
    }
}

} // verus!
