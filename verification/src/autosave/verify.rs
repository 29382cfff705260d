//! The comparison of saved values with live PV values, and its report.
use vstd::prelude::*;
use crate::autosave::save_file::{
    parse_save_value, same_value, save_text, save_value_of, value_round_trip, value_to_save_str,
    SaveEntry, SaveModel,
};
use crate::record::FieldValue;
use crate::text::{chars_of, decimal, push_all, push_decimal, push_str, string_of_vec};

verus! {

/// Result of comparing one PV.
#[derive(Debug, Clone)]
pub enum MatchResult {
    Match,
    Mismatch { saved: String, live: String },
    PvNotFound,
    ParseError,
}

/// A single verify entry.
#[derive(Debug, Clone)]
pub struct VerifyEntry {
    pub pv_name: String,
    pub saved_value: String,
    pub live_value: Option<String>,
    pub result: MatchResult,
}

/// What a comparison found.
pub enum MatchModel {
    Match,
    Mismatch(Seq<char>, Seq<char>),
    PvNotFound,
    ParseError,
}

/// What a verify entry says.
pub struct VerifyModel {
    pub pv_name: Seq<char>,
    pub saved: Seq<char>,
    pub live: Option<Seq<char>>,
    pub result: MatchModel,
}

impl VerifyEntry {
    pub open spec fn model(&self) -> VerifyModel {
        VerifyModel {
            pv_name: self.pv_name@,
            saved: self.saved_value@,
            live: match self.live_value {
                Some(l) => Some(l@),
                None => None,
            },
            result: match self.result {
                MatchResult::Match => MatchModel::Match,
                MatchResult::Mismatch { saved, live } => MatchModel::Mismatch(saved@, live@),
                MatchResult::PvNotFound => MatchModel::PvNotFound,
                MatchResult::ParseError => MatchModel::ParseError,
            },
        }
    }
}

/// The comparison of a saved entry with the live value of its PV (`None`
/// when the PV was not found): an entry saved without a value is skipped;
/// otherwise the saved text, read as a value of the live value's kind,
/// matches when it is that value.
pub open spec fn verify_outcome(e: SaveModel, live: Option<FieldValue>) -> Option<VerifyModel> {
    if !e.connected {
        None
    } else {
        match live {
            None => Some(VerifyModel { pv_name: e.pv_name, saved: e.value, live: None, result: MatchModel::PvNotFound }),
            Some(v) => {
                let ls = save_text(v);
                match save_value_of(e.value, v) {
                    None => Some(VerifyModel { pv_name: e.pv_name, saved: e.value, live: Some(ls), result: MatchModel::ParseError }),
                    Some(m) => Some(VerifyModel {
                        pv_name: e.pv_name,
                        saved: e.value,
                        live: Some(ls),
                        result: if m == v.model() { MatchModel::Match } else { MatchModel::Mismatch(e.value, ls) },
                    }),
                }
            },
        }
    }
}

/// Compares one saved entry with the live value of its PV.
pub fn verify_entry(entry: &SaveEntry, live: &Option<FieldValue>) -> (r: Option<VerifyEntry>)
    ensures
        match r {
            Some(v) => verify_outcome(entry.model(), *live) == Some(v.model()),
            None => verify_outcome(entry.model(), *live) is None,
        },
{
    if !entry.connected {
        return None;
    }
    match live {
        None => Some(VerifyEntry {
            pv_name: entry.pv_name.clone(),
            saved_value: entry.value.clone(),
            live_value: None,
            result: MatchResult::PvNotFound,
        }),
        Some(v) => {
            let live_str = value_to_save_str(v);
            match parse_save_value(entry.value.as_str(), v) {
                None => Some(VerifyEntry {
                    pv_name: entry.pv_name.clone(),
                    saved_value: entry.value.clone(),
                    live_value: Some(live_str),
                    result: MatchResult::ParseError,
                }),
                Some(parsed) => {
                    let result = if same_value(&parsed, v) {
                        MatchResult::Match
                    } else {
                        MatchResult::Mismatch { saved: entry.value.clone(), live: live_str.clone() }
                    };
                    Some(VerifyEntry {
                        pv_name: entry.pv_name.clone(),
                        saved_value: entry.value.clone(),
                        live_value: Some(live_str),
                        result,
                    })
                },
            }
        },
    }
}

/// An entry saved from a live value verifies as a match while the PV
/// still holds that value.
pub proof fn saved_value_verifies(name: Seq<char>, v: FieldValue)
    ensures
        verify_outcome(SaveModel { pv_name: name, value: save_text(v), connected: true }, Some(v))
            == Some(VerifyModel { pv_name: name, saved: save_text(v), live: Some(save_text(v)), result: MatchModel::Match }),
{
    value_round_trip(v);
}

/// The report line of one entry (none for a match).
pub open spec fn report_line(e: VerifyEntry) -> Seq<char> {
    match e.result {
        MatchResult::Match => seq![],
        MatchResult::Mismatch { saved, live } => "MISMATCH: "@ + e.pv_name@ + " saved="@ + saved@
            + " live="@ + live@ + "\n"@,
        MatchResult::PvNotFound => "NOT_FOUND: "@ + e.pv_name@ + "\n"@,
        MatchResult::ParseError => "PARSE_ERROR: "@ + e.pv_name@ + " saved="@ + e.saved_value@
            + "\n"@,
    }
}

pub open spec fn report_lines(es: Seq<VerifyEntry>) -> Seq<char>
    decreases es.len(),
{
    if es.len() == 0 {
        seq![]
    } else {
        report_lines(es.drop_last()) + report_line(es.last())
    }
}

/// How many entries have the result kind `k` (0 match, 1 mismatch, 2 not
/// found, 3 parse error).
pub open spec fn kind_of(r: MatchResult) -> nat {
    match r {
        MatchResult::Match => 0,
        MatchResult::Mismatch { .. } => 1,
        MatchResult::PvNotFound => 2,
        MatchResult::ParseError => 3,
    }
}

pub open spec fn count_kind(es: Seq<VerifyEntry>, k: nat) -> nat
    decreases es.len(),
{
    if es.len() == 0 {
        0
    } else {
        count_kind(es.drop_last(), k) + if kind_of(es.last().result) == k {
            1nat
        } else {
            0nat
        }
    }
}

pub proof fn lemma_count_kind_le(es: Seq<VerifyEntry>, k: nat)
    ensures
        count_kind(es, k) <= es.len(),
    decreases es.len(),
{
    if es.len() > 0 {
        lemma_count_kind_le(es.drop_last(), k);
    }
}

/// The whole report: one line per entry that is not a match, then a summary.
pub open spec fn verify_report(es: Seq<VerifyEntry>) -> Seq<char> {
    report_lines(es) + "\nSummary: "@ + decimal(count_kind(es, 0)) + " match, "@ + decimal(
        count_kind(es, 1),
    ) + " mismatch, "@ + decimal(count_kind(es, 2)) + " not found, "@ + decimal(count_kind(es, 3))
        + " parse errors\n"@
}

/// Format a human-readable verify report.
pub fn format_verify_report(entries: &[VerifyEntry]) -> (r: String)
    ensures
        r@ == verify_report(entries@),
{
    let mut report: Vec<char> = Vec::new();
    let mut match_count: u64 = 0;
    let mut mismatch_count: u64 = 0;
    let mut not_found_count: u64 = 0;
    let mut parse_error_count: u64 = 0;
    let mut i: usize = 0;
    while i < entries.len()
        invariant
            i <= entries@.len(),
            report@ == report_lines(entries@.subrange(0, i as int)),
            match_count == count_kind(entries@.subrange(0, i as int), 0),
            mismatch_count == count_kind(entries@.subrange(0, i as int), 1),
            not_found_count == count_kind(entries@.subrange(0, i as int), 2),
            parse_error_count == count_kind(entries@.subrange(0, i as int), 3),
        decreases entries.len() - i,
    {
        let entry = &entries[i];
        proof {
            let pre = entries@.subrange(0, i + 1);
            assert(pre.drop_last() =~= entries@.subrange(0, i as int));
            assert(pre.last() == *entry);
            lemma_count_kind_le(entries@.subrange(0, i as int), 0);
            lemma_count_kind_le(entries@.subrange(0, i as int), 1);
            lemma_count_kind_le(entries@.subrange(0, i as int), 2);
            lemma_count_kind_le(entries@.subrange(0, i as int), 3);
        }
        match &entry.result {
            MatchResult::Match => {
                match_count = match_count + 1;
            },
            MatchResult::Mismatch { saved, live } => {
                mismatch_count = mismatch_count + 1;
                push_str(&mut report, "MISMATCH: ");
                push_str(&mut report, entry.pv_name.as_str());
                push_str(&mut report, " saved=");
                push_str(&mut report, saved.as_str());
                push_str(&mut report, " live=");
                push_str(&mut report, live.as_str());
                push_str(&mut report, "\n");
            },
            MatchResult::PvNotFound => {
                not_found_count = not_found_count + 1;
                push_str(&mut report, "NOT_FOUND: ");
                push_str(&mut report, entry.pv_name.as_str());
                push_str(&mut report, "\n");
            },
            MatchResult::ParseError => {
                parse_error_count = parse_error_count + 1;
                push_str(&mut report, "PARSE_ERROR: ");
                push_str(&mut report, entry.pv_name.as_str());
                push_str(&mut report, " saved=");
                push_str(&mut report, entry.saved_value.as_str());
                push_str(&mut report, "\n");
            },
        }
        i = i + 1;
    }
    assert(entries@.subrange(0, i as int) =~= entries@);
    push_str(&mut report, "\nSummary: ");
    push_decimal(&mut report, match_count);
    push_str(&mut report, " match, ");
    push_decimal(&mut report, mismatch_count);
    push_str(&mut report, " mismatch, ");
    push_decimal(&mut report, not_found_count);
    push_str(&mut report, " not found, ");
    push_decimal(&mut report, parse_error_count);
    push_str(&mut report, " parse errors\n");
    string_of_vec(&report)
}

} // verus!
