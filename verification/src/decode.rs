//! The record decoder: reads the entity identity, the entity name and the
//! kind-specific payload out of a record already classified as interesting.
//!
//! The accepted layout is the compact archive form, and it is part of the
//! design: the entity object opens with its id, written `"repo":{"id":`
//! directly followed by the digits; the entity name follows the id as
//! `"name":"` and runs to the next quote, with no escapes; the payload
//! fields are unspaced, `"action":"<value>"` and `"distinct_size":<digits>`.
//! A record of a recognized kind whose bytes deviate from this layout —
//! spaced, reordered, or escaped — is a decode failure: the line is skipped
//! and the file goes on, it is never aborted. The spec functions below state
//! that grammar exactly, and the decoder is proved equal to them.

use vstd::prelude::*;

use crate::classify::EventKind;
use crate::classify::classify;
use crate::classify::spec_classify;
use crate::record::DecodedRecord;
use crate::record::RecordView;
use crate::scan::digit_run;
use crate::scan::digit_run_end;
use crate::scan::find_from;
use crate::scan::first_occurrence;
use crate::scan::parse_u64;
use crate::scan::parse_u64_at;
use crate::scan::raw_string_at;
use crate::scan::scan_string;

verus! {

/// The bytes of `"repo":{"id":`, the start of the entity identity.
pub open spec fn repo_id_pat() -> Seq<u8> {
    seq![
        34u8,
        114u8,
        101u8,
        112u8,
        111u8,
        34u8,
        58u8,
        123u8,
        34u8,
        105u8,
        100u8,
        34u8,
        58u8,
    ]
}

/// The bytes of `"name":"`, the start of the entity name.
pub open spec fn name_pat() -> Seq<u8> {
    seq![34u8, 110u8, 97u8, 109u8, 101u8, 34u8, 58u8, 34u8]
}

/// The bytes of `"action":"`, the start of an opened-candidate's action.
pub open spec fn action_pat() -> Seq<u8> {
    seq![34u8, 97u8, 99u8, 116u8, 105u8, 111u8, 110u8, 34u8, 58u8, 34u8]
}

/// The bytes of `"distinct_size":`, the start of a push-candidate's unit
/// count.
pub open spec fn distinct_pat() -> Seq<u8> {
    seq![
        34u8,
        100u8,
        105u8,
        115u8,
        116u8,
        105u8,
        110u8,
        99u8,
        116u8,
        95u8,
        115u8,
        105u8,
        122u8,
        101u8,
        34u8,
        58u8,
    ]
}

/// The entity id of the record, with the position right after its digits:
/// the number after the leftmost `"repo":{"id":`.
pub open spec fn repo_ref(s: Seq<u8>) -> Option<(u64, int)> {
    match first_occurrence(s, repo_id_pat(), 0) {
        None => None,
        Some(i) => {
            let d = i + repo_id_pat().len();
            match parse_u64_at(s, d) {
                None => None,
                Some(id) => Some((id, d + digit_run(s, d))),
            }
        },
    }
}

/// The entity name: the string after the leftmost `"name":"` at or after
/// `from`, the end of the id, so that the name read is the one of the
/// entity object and not one of a later payload field.
pub open spec fn name_after(s: Seq<u8>, from: int) -> Option<Seq<u8>> {
    match first_occurrence(s, name_pat(), from) {
        None => None,
        Some(i) => raw_string_at(s, i + name_pat().len()),
    }
}

/// The entity identity of the record: id and name.
pub open spec fn spec_repo(s: Seq<u8>) -> Option<(u64, Seq<u8>)> {
    match repo_ref(s) {
        None => None,
        Some((id, after)) => match name_after(s, after) {
            None => None,
            Some(name) => Some((id, name)),
        },
    }
}

/// The string value after the leftmost occurrence of `pat`.
pub open spec fn string_field(s: Seq<u8>, pat: Seq<u8>) -> Option<Seq<u8>> {
    match first_occurrence(s, pat, 0) {
        None => None,
        Some(i) => raw_string_at(s, i + pat.len()),
    }
}

/// The number after the leftmost occurrence of `pat`.
pub open spec fn u64_field(s: Seq<u8>, pat: Seq<u8>) -> Option<u64> {
    match first_occurrence(s, pat, 0) {
        None => None,
        Some(i) => parse_u64_at(s, i + pat.len()),
    }
}

/// What decoding an opened-candidate record yields: entity identity plus the
/// action string, or nothing when a required field is missing or malformed.
pub open spec fn spec_decode_opened(s: Seq<u8>) -> Option<RecordView> {
    match spec_repo(s) {
        None => None,
        Some((id, name)) => match string_field(s, action_pat()) {
            None => None,
            Some(action) => Some(RecordView::Opened { id, name, action }),
        },
    }
}

/// What decoding a push-candidate record yields: entity identity plus the
/// unit count, or nothing when a required field is missing or malformed.
pub open spec fn spec_decode_push(s: Seq<u8>) -> Option<RecordView> {
    match spec_repo(s) {
        None => None,
        Some((id, name)) => match u64_field(s, distinct_pat()) {
            None => None,
            Some(units) => Some(RecordView::Pushed { id, name, units }),
        },
    }
}

/// What the whole selective decoder yields for one record: the typed payload
/// of a record classified as one of the recognized kinds, nothing for all
/// other records.
pub open spec fn spec_decode(s: Seq<u8>) -> Option<RecordView> {
    match spec_classify(s) {
        Some(EventKind::PullRequest) => spec_decode_opened(s),
        Some(EventKind::Push) => spec_decode_push(s),
        _ => None,
    }
}

/// The view of a decode result.
pub open spec fn opt_record_view(r: Option<DecodedRecord>) -> Option<RecordView> {
    match r {
        Some(rec) => Some(rec@),
        None => None,
    }
}

/// The byte vector of `repo_id_pat`.
fn repo_id_pat_vec() -> (v: Vec<u8>)
    ensures
        v@ == repo_id_pat(),
{
    let mut v: Vec<u8> = Vec::new();
    v.push(34);
    v.push(114);
    v.push(101);
    v.push(112);
    v.push(111);
    v.push(34);
    v.push(58);
    v.push(123);
    v.push(34);
    v.push(105);
    v.push(100);
    v.push(34);
    v.push(58);
    assert(v@ =~= repo_id_pat());
    v
}

/// The byte vector of `name_pat`.
fn name_pat_vec() -> (v: Vec<u8>)
    ensures
        v@ == name_pat(),
{
    let mut v: Vec<u8> = Vec::new();
    v.push(34);
    v.push(110);
    v.push(97);
    v.push(109);
    v.push(101);
    v.push(34);
    v.push(58);
    v.push(34);
    assert(v@ =~= name_pat());
    v
}

/// The byte vector of `action_pat`.
fn action_pat_vec() -> (v: Vec<u8>)
    ensures
        v@ == action_pat(),
{
    let mut v: Vec<u8> = Vec::new();
    v.push(34);
    v.push(97);
    v.push(99);
    v.push(116);
    v.push(105);
    v.push(111);
    v.push(110);
    v.push(34);
    v.push(58);
    v.push(34);
    assert(v@ =~= action_pat());
    v
}

/// The byte vector of `distinct_pat`.
fn distinct_pat_vec() -> (v: Vec<u8>)
    ensures
        v@ == distinct_pat(),
{
    let mut v: Vec<u8> = Vec::new();
    v.push(34);
    v.push(100);
    v.push(105);
    v.push(115);
    v.push(116);
    v.push(105);
    v.push(110);
    v.push(99);
    v.push(116);
    v.push(95);
    v.push(115);
    v.push(105);
    v.push(122);
    v.push(101);
    v.push(34);
    v.push(58);
    assert(v@ =~= distinct_pat());
    v
}

/// Read the entity identity out of a record.
fn repo(line: &Vec<u8>) -> (r: Option<(u64, Vec<u8>)>)
    ensures
        match r {
            Some(p) => spec_repo(line@) == Some((p.0, p.1@)),
            None => spec_repo(line@) is None,
        },
{
    let pat = repo_id_pat_vec();
    match find_from(line, &pat, 0) {
        None => None,
        Some(i) => {
            let d: usize = i + pat.len();
            match parse_u64(line, d) {
                None => None,
                Some(id) => {
                    let e: usize = digit_run_end(line, d);
                    let npat = name_pat_vec();
                    match find_from(line, &npat, e) {
                        None => None,
                        Some(j) => {
                            match scan_string(line, j + npat.len()) {
                                None => None,
                                Some(name) => Some((id, name)),
                            }
                        },
                    }
                },
            }
        },
    }
}

/// Decode a record already classified as an opened-candidate.
fn decode_opened(line: &Vec<u8>) -> (r: Option<DecodedRecord>)
    ensures
        opt_record_view(r) == spec_decode_opened(line@),
{
    match repo(line) {
        None => None,
        Some((id, name)) => {
            let apat = action_pat_vec();
            match find_from(line, &apat, 0) {
                None => None,
                Some(i) => {
                    match scan_string(line, i + apat.len()) {
                        None => None,
                        Some(action) => Some(DecodedRecord::Opened { id, name, action }),
                    }
                },
            }
        },
    }
}

/// Decode a record already classified as a push-candidate.
fn decode_push(line: &Vec<u8>) -> (r: Option<DecodedRecord>)
    ensures
        opt_record_view(r) == spec_decode_push(line@),
{
    match repo(line) {
        None => None,
        Some((id, name)) => {
            let dpat = distinct_pat_vec();
            match find_from(line, &dpat, 0) {
                None => None,
                Some(i) => {
                    match parse_u64(line, i + dpat.len()) {
                        None => None,
                        Some(units) => Some(DecodedRecord::Pushed { id, name, units }),
                    }
                },
            }
        },
    }
}

/// Classify one record and, when it is of a recognized kind, decode it.
pub fn decode(line: &Vec<u8>) -> (r: Option<DecodedRecord>)
    ensures
        opt_record_view(r) == spec_decode(line@),
{
    match classify(line) {
        Some(EventKind::PullRequest) => decode_opened(line),
        Some(EventKind::Push) => decode_push(line),
        _ => None,
    }
}

} // verus!
