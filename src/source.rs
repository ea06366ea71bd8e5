//! A source: one input stream, decoded into an append-only sequence of
//! lines, with its load state.
use vstd::prelude::*;
use crate::decode::{byte_rows, split_records, RecordSplitter};

verus! {

/// The byte that ends a line.
pub const LINE_END: u8 = 10;

/// How far a source has loaded.
pub enum LoadState {
    /// The stream may still deliver bytes.
    Loading,
    /// The stream has ended.
    Loaded,
    /// Reading the stream failed, for the reason given; what was read stays.
    Failed(String),
}

/// One registered stream and the lines decoded from it so far.
pub struct Source {
    index: usize,
    title: String,
    lines: Vec<Vec<u8>>,
    state: LoadState,
    splitter: RecordSplitter,
}

impl Source {
    /// The lines published so far, in order.
    pub closed spec fn lines_view(&self) -> Seq<Seq<u8>> {
        byte_rows(self.lines@)
    }

    /// The index the source was registered under.
    pub closed spec fn index_spec(&self) -> usize {
        self.index
    }

    /// The source's title.
    pub closed spec fn title_spec(&self) -> Seq<char> {
        self.title@
    }

    /// The load state.
    pub closed spec fn load_state(&self) -> LoadState {
        self.state
    }

    /// Whether the stream has ended, cleanly or not.
    pub open spec fn loaded_spec(&self) -> bool {
        !(self.load_state() is Loading)
    }

    /// The bytes received since the last complete line.
    pub open spec fn unfinished(&self) -> Seq<u8> {
        split_records(self.fed(), LINE_END).1
    }

    /// The bytes received that the lines published so far do not yet cover.
    pub closed spec fn fed(&self) -> Seq<u8> {
        self.splitter.fed()
    }

    /// The splitter ends lines at `LINE_END` and matches what it was fed.
    pub closed spec fn wf(&self) -> bool {
        &&& self.splitter.wf()
        &&& self.splitter.separator() == LINE_END
    }

    /// Whether `later` is this source after appends only: same identity,
    /// every line published here still published there, unchanged.
    pub open spec fn grows_into(&self, later: &Source) -> bool {
        &&& later.index_spec() == self.index_spec()
        &&& later.title_spec() == self.title_spec()
        &&& self.lines_view().len() <= later.lines_view().len()
        &&& self.lines_view() == later.lines_view().take(self.lines_view().len() as int)
    }

    /// Whether `later` is this source after it took `chunk` of its stream.
    pub open spec fn fed_into(&self, chunk: Seq<u8>, later: &Source) -> bool {
        &&& later.wf()
        &&& self.grows_into(later)
        &&& later.fed() == self.fed() + chunk
        &&& split_records(self.fed(), LINE_END).0
            + later.lines_view().skip(self.lines_view().len() as int)
            == split_records(later.fed(), LINE_END).0
        &&& later.load_state() == self.load_state()
    }

    /// Whether `later` is this source after its stream ended, with the
    /// failure given, if any. At a clean end the unfinished line is
    /// published; after a failure it is dropped, so the source holds exactly
    /// the lines completed before the error.
    pub open spec fn finished_into(&self, failure: Option<String>, later: &Source) -> bool {
        &&& later.wf()
        &&& self.grows_into(later)
        &&& later.fed() == Seq::<u8>::empty()
        &&& later.lines_view() == (if failure is Some || self.unfinished().len() == 0 {
            self.lines_view()
        } else {
            self.lines_view().push(self.unfinished())
        })
        &&& (failure is None ==> later.load_state() is Loaded)
        &&& (failure matches Some(m) ==> later.load_state() == LoadState::Failed(m))
    }

    /// A new, empty source that is still loading.
    pub fn new(index: usize, title: &str) -> (r: Source)
        ensures
            r.wf(),
            r.index_spec() == index,
            r.title_spec() == title@,
            r.lines_view() == Seq::<Seq<u8>>::empty(),
            r.fed() == Seq::<u8>::empty(),
            !r.loaded_spec(),
    {
        let lines: Vec<Vec<u8>> = Vec::new();
        proof { assert(byte_rows(lines@) =~= Seq::<Seq<u8>>::empty()); }
        Source {
            index,
            title: title.to_string(),
            lines,
            state: LoadState::Loading,
            splitter: RecordSplitter::new(LINE_END),
        }
    }

    /// The index the source was registered under.
    pub fn index(&self) -> (r: usize)
        ensures
            r == self.index_spec(),
    {
        self.index
    }

    /// The source's title.
    pub fn title(&self) -> (r: &str)
        ensures
            r@ == self.title_spec(),
    {
        self.title.as_str()
    }

    /// The load state.
    pub fn state(&self) -> (r: &LoadState)
        ensures
            *r == self.load_state(),
            (r is Loading) == !self.loaded_spec(),
    {
        &self.state
    }

    /// Whether the stream has ended, cleanly or with an error.
    pub fn is_loaded(&self) -> (r: bool)
        ensures
            r == self.loaded_spec(),
    {
        match self.state {
            LoadState::Loading => false,
            _ => true,
        }
    }

    /// The number of lines published so far.
    pub fn line_count(&self) -> (r: usize)
        ensures
            r == self.lines_view().len(),
    {
        self.lines.len()
    }

    /// The line at `index`, if it has been published.
    pub fn line(&self, index: usize) -> (r: Option<&[u8]>)
        ensures
            r is Some <==> index < self.lines_view().len(),
            r matches Some(s) ==> s@ == self.lines_view()[index as int],
    {
        if index < self.lines.len() {
            Some(self.lines[index].as_slice())
        } else {
            None
        }
    }

    /// Calls `f` on the line at `index` and returns what it returns, if the
    /// line has been published; otherwise returns `None`.
    pub fn with_line<R, F: Fn(&[u8]) -> R>(&self, index: usize, f: F) -> (r: Option<R>)
        requires
            forall|s: &[u8]| #[trigger] f.requires((s,)),
        ensures
            r is Some <==> index < self.lines_view().len(),
            r is Some ==> exists|s: &[u8]|
                s@ == self.lines_view()[index as int] && #[trigger] f.ensures((s,), r->0),
    {
        match self.line(index) {
            Some(s) => {
                let v = f(s);
                let r = Some(v);
                assert(s@ == self.lines_view()[index as int] && f.ensures((s,), r->0));
                assert(exists|t: &[u8]|
                    t@ == self.lines_view()[index as int] && #[trigger] f.ensures((t,), r->0));
                r
            },
            None => None,
        }
    }

    /// Publishes one more line at the end.
    pub fn append_line(&mut self, line: Vec<u8>)
        requires
            old(self).wf(),
        ensures
            final(self).wf(),
            old(self).grows_into(&*final(self)),
            final(self).lines_view() == old(self).lines_view().push(line@),
            final(self).fed() == old(self).fed(),
            final(self).load_state() == old(self).load_state(),
            final(self).loaded_spec() == old(self).loaded_spec(),
    {
        let ghost prev = self.lines@;
        self.lines.push(line);
        proof {
            assert(byte_rows(self.lines@) =~= byte_rows(prev).push(line@));
            assert(byte_rows(self.lines@).take(prev.len() as int) =~= byte_rows(prev));
        }
    }

    /// Takes a chunk of the stream: every line that it completes is
    /// published, in order; the bytes of an unfinished line wait.
    pub fn feed(&mut self, chunk: &[u8])
        requires
            old(self).wf(),
        ensures
            old(self).fed_into(chunk@, &*final(self)),
    {
        let done = self.splitter.feed(chunk);
        let ghost start = *self;
        let ghost n0 = self.lines_view().len();
        proof {
            lemma_grows_reflexive(start);
            assert(self.lines_view().skip(n0 as int) =~= byte_rows(done@).take(0));
        }
        let mut i: usize = 0;
        while i < done.len()
            invariant
                0 <= i <= done@.len(),
                self.wf(),
                start.grows_into(&*self),
                self.fed() == start.fed(),
                self.load_state() == start.load_state(),
                self.lines_view().len() == n0 + i,
                self.lines_view().skip(n0 as int) == byte_rows(done@).take(i as int),
                start.lines_view().len() == n0,
            decreases done@.len() - i,
        {
            let ghost prev = *self;
            self.append_line(done[i].clone());
            proof {
                assert(byte_rows(done@).take(i as int + 1)
                    =~= byte_rows(done@).take(i as int).push(done@[i as int]@));
                assert(self.lines_view().skip(n0 as int)
                    =~= prev.lines_view().skip(n0 as int).push(done@[i as int]@));
                assert(self.lines_view().take(n0 as int) =~= prev.lines_view().take(n0 as int));
            }
            i = i + 1;
        }
        proof {
            assert(byte_rows(done@).take(done@.len() as int) =~= byte_rows(done@));
        }
    }

    /// Ends the stream. At a clean end the unfinished line, if it holds any
    /// byte, is published and the source is marked loaded; where a failure
    /// is given, the unfinished bytes are dropped and the source is marked
    /// failed with that reason.
    pub fn finish(&mut self, failure: Option<String>)
        requires
            old(self).wf(),
        ensures
            old(self).finished_into(failure, &*final(self)),
            final(self).loaded_spec(),
    {
        let rest = self.splitter.finish();
        let ghost prev = *self;
        match rest {
            Some(line) if failure.is_none() => {
                let ghost before = self.lines@;
                self.lines.push(line);
                proof {
                    assert(byte_rows(self.lines@) =~= byte_rows(before).push(line@));
                    assert(byte_rows(self.lines@).take(before.len() as int) =~= byte_rows(before));
                }
            },
            _ => {
                proof { lemma_grows_reflexive(prev); }
            },
        }
        self.state = match failure {
            Some(reason) => LoadState::Failed(reason),
            None => LoadState::Loaded,
        };
    }
}

} // verus!

verus! {

proof fn lemma_grows_reflexive(s: Source)
    ensures
        s.grows_into(&s),
{
    assert(s.lines_view().take(s.lines_view().len() as int) =~= s.lines_view());
}

/// Appending lines to a source, in any number of steps, never lowers its
/// line count, and every line that a reader saw published stays at its
/// index with the same bytes.
pub proof fn law_appends_keep_published_lines(a: Source, b: Source, c: Source)
    requires
        a.grows_into(&b),
        b.grows_into(&c),
    ensures
        a.grows_into(&c),
        a.lines_view().len() <= b.lines_view().len() <= c.lines_view().len(),
        forall|i: int| 0 <= i < a.lines_view().len() ==> #[trigger] c.lines_view()[i] == a.lines_view()[i],
{
    let na = a.lines_view().len() as int;
    let nb = b.lines_view().len() as int;
    assert forall|i: int| 0 <= i < na implies #[trigger] c.lines_view()[i] == a.lines_view()[i] by {
        assert(a.lines_view()[i] == b.lines_view().take(na)[i]);
        assert(b.lines_view()[i] == c.lines_view().take(nb)[i]);
    }
    assert(a.lines_view() =~= c.lines_view().take(na));
}

} // verus!
