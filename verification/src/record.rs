use vstd::prelude::*;

verus! {

/// Which standard stream a record is destined for.
#[derive(Clone, Copy, PartialEq, Eq, Structural, Debug)]
pub enum StreamSelector {
    Stdout,
    Stderr,
}

/// Mathematical image of a record: its destination stream and its bytes.
#[verifier::ext_equal]
pub ghost struct RecordView {
    pub selector: StreamSelector,
    pub payload: Seq<u8>,
}

/// One formatted, immutable log line plus its target stream. The payload is
/// opaque bytes; formatting is the caller's business.
pub struct Record {
    pub selector: StreamSelector,
    pub payload: Vec<u8>,
}

impl View for Record {
    type V = RecordView;

    open spec fn view(&self) -> RecordView {
        RecordView { selector: self.selector, payload: self.payload@ }
    }
}

impl Record {
    pub fn new(selector: StreamSelector, payload: Vec<u8>) -> (r: Record)
        ensures
            r@ == (RecordView { selector, payload: payload@ }),
    {
        Record { selector, payload }
    }
}

} // verus!
