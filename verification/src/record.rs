//! Typed payloads of the recognized record kinds.

use vstd::prelude::*;

verus! {

/// The bytes of the action value `"opened"`, the only action that is counted.
pub open spec fn opened_bytes() -> Seq<u8> {
    seq![111u8, 112u8, 101u8, 110u8, 101u8, 100u8]
}

/// Mathematical model of a decoded record.
#[verifier::ext_equal]
pub enum RecordView {
    /// An opened-candidate record: entity identity, name, and its action string.
    Opened { id: u64, name: Seq<u8>, action: Seq<u8> },
    /// A push-candidate record: entity identity, name, and its distinct unit count.
    Pushed { id: u64, name: Seq<u8>, units: u64 },
}

/// A fully decoded record of one of the recognized kinds. It carries exactly
/// the fields the aggregation store needs.
pub enum DecodedRecord {
    Opened { id: u64, name: Vec<u8>, action: Vec<u8> },
    Pushed { id: u64, name: Vec<u8>, units: u64 },
}

impl View for DecodedRecord {
    type V = RecordView;

    open spec fn view(&self) -> RecordView {
        match self {
            DecodedRecord::Opened { id, name, action } => RecordView::Opened {
                id: *id,
                name: name@,
                action: action@,
            },
            DecodedRecord::Pushed { id, name, units } => RecordView::Pushed {
                id: *id,
                name: name@,
                units: *units,
            },
        }
    }
}

/// True of the action vector exactly when it spells `"opened"`.
pub fn is_opened_action(action: &Vec<u8>) -> (r: bool)
    ensures
        r == (action@ == opened_bytes()),
{
    let r = action.len() == 6 && action[0] == 111 && action[1] == 112 && action[2] == 101
        && action[3] == 110 && action[4] == 101 && action[5] == 100;
    if r {
        assert(action@ =~= opened_bytes());
    } else {
        assert(action@ != opened_bytes());
    }
    r
}

} // verus!
