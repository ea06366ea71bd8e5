//! The progress stream: records separated by form feeds, of which only the
//! latest complete one matters.
use vstd::prelude::*;
use crate::decode::{byte_rows, split_records, RecordSplitter};

verus! {

/// The byte that ends a progress record.
pub const RECORD_END: u8 = 12;

/// The latest complete record among `bytes`, if any record has ended.
pub open spec fn latest_record(bytes: Seq<u8>) -> Option<Seq<u8>> {
    let done = split_records(bytes, RECORD_END).0;
    if done.len() == 0 {
        None
    } else {
        Some(done.last())
    }
}

/// The state of the progress stream.
pub struct Progress {
    splitter: RecordSplitter,
    latest: Option<Vec<u8>>,
}

impl Progress {
    /// All bytes received from the progress stream.
    pub closed spec fn fed(&self) -> Seq<u8> {
        self.splitter.fed()
    }

    /// The record shown: the latest complete one.
    pub closed spec fn latest_spec(&self) -> Option<Seq<u8>> {
        match self.latest {
            Some(v) => Some(v@),
            None => None,
        }
    }

    /// The record shown is the latest of what was received.
    pub closed spec fn wf(&self) -> bool {
        &&& self.splitter.wf()
        &&& self.splitter.separator() == RECORD_END
        &&& self.latest_spec() == latest_record(self.splitter.fed())
    }

    /// Progress that has received nothing.
    pub fn new() -> (r: Progress)
        ensures
            r.wf(),
            r.fed() == Seq::<u8>::empty(),
            r.latest_spec() is None,
    {
        let r = Progress { splitter: RecordSplitter::new(RECORD_END), latest: None };
        assert(split_records(Seq::<u8>::empty(), RECORD_END).0.len() == 0);
        r
    }

    /// Takes a chunk of the progress stream; a record that it completes
    /// supersedes every earlier one.
    pub fn feed(&mut self, chunk: &[u8])
        requires
            old(self).wf(),
        ensures
            final(self).wf(),
            final(self).fed() == old(self).fed() + chunk@,
            final(self).latest_spec() == latest_record(old(self).fed() + chunk@),
    {
        let mut done = self.splitter.feed(chunk);
        let ghost after = self.splitter.fed();
        let ghost before = split_records(old(self).splitter.fed(), RECORD_END).0;
        let ghost records = byte_rows(done@);
        if done.len() > 0 {
            let last = done.pop().unwrap();
            proof {
                let all = split_records(after, RECORD_END).0;
                assert(all == before + records);
                assert(all.last() == records.last());
            }
            self.latest = Some(last);
        } else {
            proof {
                assert(byte_rows(done@) =~= Seq::<Seq<u8>>::empty());
                assert(before + byte_rows(done@) =~= before);
            }
        }
    }

    /// The latest complete record, if one has ended.
    pub fn latest(&self) -> (r: Option<&[u8]>)
        ensures
            r is Some == self.latest_spec() is Some,
            r matches Some(s) ==> self.latest_spec() == Some(s@),
    {
        match &self.latest {
            Some(v) => Some(v.as_slice()),
            None => None,
        }
    }
}

} // verus!
