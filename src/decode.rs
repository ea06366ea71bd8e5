//! Splitting a byte stream into records at a separator byte, as the bytes
//! arrive in chunks of any size.
use vstd::prelude::*;

verus! {

/// The records completed by `bytes` when split at `sep`, and the bytes
/// after the last separator, which wait for their record to end.
pub open spec fn split_records(bytes: Seq<u8>, sep: u8) -> (Seq<Seq<u8>>, Seq<u8>)
    decreases bytes.len(),
{
    if bytes.len() == 0 {
        (Seq::empty(), Seq::empty())
    } else {
        let (done, pending) = split_records(bytes.drop_last(), sep);
        if bytes.last() == sep {
            (done.push(pending), Seq::empty())
        } else {
            (done, pending.push(bytes.last()))
        }
    }
}

/// The views of a vector of byte vectors.
pub open spec fn byte_rows(v: Seq<Vec<u8>>) -> Seq<Seq<u8>> {
    v.map_values(|l: Vec<u8>| l@)
}

proof fn lemma_split_push(bytes: Seq<u8>, b: u8, sep: u8)
    ensures
        split_records(bytes.push(b), sep) == (if b == sep {
            (split_records(bytes, sep).0.push(split_records(bytes, sep).1), Seq::<u8>::empty())
        } else {
            (split_records(bytes, sep).0, split_records(bytes, sep).1.push(b))
        }),
{
    assert(bytes.push(b).drop_last() =~= bytes);
}

/// Splits a stream at `sep` incrementally: the bytes of an unfinished
/// record are kept until its separator arrives.
pub struct RecordSplitter {
    sep: u8,
    pending: Vec<u8>,
    fed: Ghost<Seq<u8>>,
}

impl RecordSplitter {
    /// All bytes fed so far.
    pub closed spec fn fed(&self) -> Seq<u8> {
        self.fed@
    }

    /// The separator byte.
    pub closed spec fn separator(&self) -> u8 {
        self.sep
    }

    /// The bytes kept for the unfinished record match what was fed.
    pub closed spec fn wf(&self) -> bool {
        self.pending@ == split_records(self.fed@, self.sep).1
    }

    /// A splitter that has seen nothing yet.
    pub fn new(sep: u8) -> (r: RecordSplitter)
        ensures
            r.wf(),
            r.fed() == Seq::<u8>::empty(),
            r.separator() == sep,
    {
        RecordSplitter { sep, pending: Vec::new(), fed: Ghost(Seq::empty()) }
    }

    /// Feeds a chunk and returns the records that it completes, in order.
    pub fn feed(&mut self, chunk: &[u8]) -> (r: Vec<Vec<u8>>)
        requires
            old(self).wf(),
        ensures
            final(self).wf(),
            final(self).separator() == old(self).separator(),
            final(self).fed() == old(self).fed() + chunk@,
            split_records(old(self).fed(), old(self).separator()).0 + byte_rows(r@)
                == split_records(final(self).fed(), old(self).separator()).0,
    {
        let mut out: Vec<Vec<u8>> = Vec::new();
        let ghost start = self.fed@;
        let mut i: usize = 0;
        while i < chunk.len()
            invariant
                0 <= i <= chunk@.len(),
                self.wf(),
                self.sep == old(self).sep,
                start == old(self).fed@,
                self.fed@ == start + chunk@.take(i as int),
                split_records(start, self.sep).0 + byte_rows(out@)
                    == split_records(self.fed@, self.sep).0,
            decreases chunk@.len() - i,
        {
            let b = chunk[i];
            proof {
                lemma_split_push(self.fed@, b, self.sep);
                assert(chunk@.take(i as int + 1) =~= chunk@.take(i as int).push(b));
            }
            let ghost before = self.fed@;
            self.fed = Ghost(self.fed@.push(b));
            if b == self.sep {
                let mut done: Vec<u8> = Vec::new();
                std::mem::swap(&mut done, &mut self.pending);
                let ghost prev = out@;
                out.push(done);
                proof {
                    assert(byte_rows(out@) =~= byte_rows(prev).push(done@));
                }
            } else {
                self.pending.push(b);
            }
            i = i + 1;
        }
        assert(chunk@.take(chunk@.len() as int) =~= chunk@);
        out
    }

    /// Ends the stream: returns the unfinished record, if it holds any byte.
    pub fn finish(&mut self) -> (r: Option<Vec<u8>>)
        requires
            old(self).wf(),
        ensures
            final(self).wf(),
            final(self).fed() == Seq::<u8>::empty(),
            final(self).separator() == old(self).separator(),
            r is None <==> split_records(old(self).fed(), old(self).separator()).1.len() == 0,
            r matches Some(v) ==> v@ == split_records(old(self).fed(), old(self).separator()).1,
    {
        let mut rest: Vec<u8> = Vec::new();
        std::mem::swap(&mut rest, &mut self.pending);
        self.fed = Ghost(Seq::empty());
        if rest.len() == 0 {
            None
        } else {
            Some(rest)
        }
    }
}

} // verus!
