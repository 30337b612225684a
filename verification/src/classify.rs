//! The event classifier: a cheap pattern scan that reads a record's declared
//! kind tag without decoding the record.

use vstd::prelude::*;

use crate::scan::letter_run;
use crate::scan::letter_run_end;
use crate::scan::match_at;
use crate::scan::occurs_at;

verus! {

/// The kind tag of one record: the two kinds that are decoded, and
/// everything else, which is skipped.
#[derive(Clone, Copy, Debug, PartialEq, Eq, Structural)]
pub enum EventKind {
    /// The tag `PullRequestEvent`: an opened-candidate record.
    PullRequest,
    /// The tag `PushEvent`: a push-candidate record.
    Push,
    /// Any other well-formed tag: not decoded.
    Other,
}

/// The bytes of `"type":"`, the start of a well-formed tag field.
pub open spec fn type_pat() -> Seq<u8> {
    seq![34u8, 116u8, 121u8, 112u8, 101u8, 34u8, 58u8, 34u8]
}

/// The bytes of the tag `PullRequestEvent`.
pub open spec fn pr_tag() -> Seq<u8> {
    seq![
        80u8,
        117u8,
        108u8,
        108u8,
        82u8,
        101u8,
        113u8,
        117u8,
        101u8,
        115u8,
        116u8,
        69u8,
        118u8,
        101u8,
        110u8,
        116u8,
    ]
}

/// The bytes of the tag `PushEvent`.
pub open spec fn push_tag() -> Seq<u8> {
    seq![80u8, 117u8, 115u8, 104u8, 69u8, 118u8, 101u8, 110u8, 116u8]
}

/// A well-formed tag field stands at `i`: the field start, then at least one
/// ASCII letter, then a closing quote right after the letters.
pub open spec fn tag_match_at(s: Seq<u8>, i: int) -> bool {
    &&& occurs_at(s, type_pat(), i)
    &&& letter_run(s, i + 8) >= 1
    &&& i + 8 + letter_run(s, i + 8) < s.len()
    &&& s[i + 8 + letter_run(s, i + 8)] == 34
}

/// The leftmost well-formed tag field at or after `i`.
pub open spec fn first_tag_match(s: Seq<u8>, i: int) -> Option<int>
    decreases s.len() - i,
{
    if i < 0 || i + 8 > s.len() {
        None
    } else if tag_match_at(s, i) {
        Some(i)
    } else {
        first_tag_match(s, i + 1)
    }
}

/// The tag the record declares: the letters of the leftmost well-formed tag
/// field, if there is one.
pub open spec fn spec_tag(s: Seq<u8>) -> Option<Seq<u8>> {
    match first_tag_match(s, 0) {
        Some(i) => Some(s.subrange(i + 8, i + 8 + letter_run(s, i + 8))),
        None => None,
    }
}

/// What the classifier reads from one record: the kind of interest its tag
/// names, `Other` for any other tag, nothing when no well-formed tag field
/// occurs in the record.
pub open spec fn spec_classify(s: Seq<u8>) -> Option<EventKind> {
    match spec_tag(s) {
        Some(t) => if t == pr_tag() {
            Some(EventKind::PullRequest)
        } else if t == push_tag() {
            Some(EventKind::Push)
        } else {
            Some(EventKind::Other)
        },
        None => None,
    }
}

/// The byte vector of `type_pat`.
fn type_pat_vec() -> (v: Vec<u8>)
    ensures
        v@ == type_pat(),
{
    let mut v: Vec<u8> = Vec::new();
    v.push(34);
    v.push(116);
    v.push(121);
    v.push(112);
    v.push(101);
    v.push(34);
    v.push(58);
    v.push(34);
    assert(v@ =~= type_pat());
    v
}

/// The byte vector of `pr_tag`.
fn pr_tag_vec() -> (v: Vec<u8>)
    ensures
        v@ == pr_tag(),
{
    let mut v: Vec<u8> = Vec::new();
    v.push(80);
    v.push(117);
    v.push(108);
    v.push(108);
    v.push(82);
    v.push(101);
    v.push(113);
    v.push(117);
    v.push(101);
    v.push(115);
    v.push(116);
    v.push(69);
    v.push(118);
    v.push(101);
    v.push(110);
    v.push(116);
    assert(v@ =~= pr_tag());
    v
}

/// The byte vector of `push_tag`.
fn push_tag_vec() -> (v: Vec<u8>)
    ensures
        v@ == push_tag(),
{
    let mut v: Vec<u8> = Vec::new();
    v.push(80);
    v.push(117);
    v.push(115);
    v.push(104);
    v.push(69);
    v.push(118);
    v.push(101);
    v.push(110);
    v.push(116);
    assert(v@ =~= push_tag());
    v
}

/// Classify one record by its declared kind tag, without decoding it:
/// the kind named by the leftmost well-formed tag field, `Other` for an
/// uninteresting tag, `None` when no well-formed tag field occurs.
pub fn classify(line: &Vec<u8>) -> (r: Option<EventKind>)
    ensures
        r == spec_classify(line@),
{
    let n: usize = line.len();
    if n < 8 {
        return None;
    }
    let tp = type_pat_vec();
    let pr = pr_tag_vec();
    let pu = push_tag_vec();
    let mut i: usize = 0;
    while i <= n - 8
        invariant
            n == line@.len(),
            8 <= n,
            tp@ == type_pat(),
            pr@ == pr_tag(),
            pu@ == push_tag(),
            i <= n - 8 + 1,
            first_tag_match(line@, 0) == first_tag_match(line@, i as int),
        decreases n - i,
    {
        if match_at(line, &tp, i) {
            let run_start: usize = i + 8;
            let run_end: usize = letter_run_end(line, run_start);
            if run_end > run_start && run_end < n && line[run_end] == 34 {
                proof {
                    assert(tag_match_at(line@, i as int));
                }
                let ghost t = line@.subrange(
                    run_start as int,
                    run_start + letter_run(line@, run_start as int),
                );
                let run: usize = run_end - run_start;
                if run == 16 && match_at(line, &pr, run_start) {
                    proof {
                        assert(t =~= line@.subrange(run_start as int, run_start + 16));
                    }
                    return Some(EventKind::PullRequest);
                }
                proof {
                    if t == pr_tag() {
                        assert(t.len() == 16);
                        assert(occurs_at(line@, pr_tag(), run_start as int));
                    }
                }
                if run == 9 && match_at(line, &pu, run_start) {
                    proof {
                        assert(t =~= line@.subrange(run_start as int, run_start + 9));
                    }
                    return Some(EventKind::Push);
                }
                proof {
                    if t == push_tag() {
                        assert(t.len() == 9);
                        assert(occurs_at(line@, push_tag(), run_start as int));
                    }
                }
                return Some(EventKind::Other);
            } else {
                proof {
                    assert(!tag_match_at(line@, i as int));
                }
            }
        }
        i = i + 1;
    }
    None
}

} // verus!
