//! The pager's registry: its sources, which of them pair with an error
//! stream, the progress stream, and what each event does to them.
use vstd::prelude::*;
use vec_map::VecMap;
use crate::event::{Event, InputKind};
use crate::progress::{latest_record, Progress};
use crate::source::Source;

verus! {

#[verifier::external_type_specification]
#[verifier::external_body]
#[verifier::reject_recursive_types(V)]
pub struct ExVecMap<V>(VecMap<V>);

/// The entries of an index map, key to value.
pub uninterp spec fn entries_of(m: VecMap<usize>) -> Map<usize, usize>;

/// Relies on `vec_map::VecMap::new`: a map with no entries.
#[verifier::external_body]
fn index_map_new() -> (r: VecMap<usize>)
    ensures
        entries_of(r).dom() == Set::<usize>::empty(),
{
    VecMap::new()
}

/// Relies on `vec_map::VecMap::insert`: the key maps to the value, every
/// other entry stays; the former value is returned. The key must be below
/// `usize::MAX`, since the map grows its storage to `key + 1` slots.
#[verifier::external_body]
fn index_map_insert(m: &mut VecMap<usize>, key: usize, value: usize) -> (r: Option<usize>)
    requires
        key < usize::MAX,
    ensures
        entries_of(*final(m)) == entries_of(*old(m)).insert(key, value),
        r == (if entries_of(*old(m)).contains_key(key) {
            Some(entries_of(*old(m))[key])
        } else {
            None::<usize>
        }),
{
    m.insert(key, value)
}

/// Relies on `vec_map::VecMap::get`: the value under the key, if any.
#[verifier::external_body]
fn index_map_get(m: &VecMap<usize>, key: usize) -> (r: Option<usize>)
    ensures
        r == (if entries_of(*m).contains_key(key) {
            Some(entries_of(*m)[key])
        } else {
            None::<usize>
        }),
{
    m.get(key).copied()
}

/// Relies on `vec_map::VecMap::len`: the number of entries.
#[verifier::external_body]
fn index_map_len(m: &VecMap<usize>) -> (r: usize)
    ensures
        r == entries_of(*m).len(),
{
    m.len()
}

/// The pager's sources and settings, built before it runs.
pub struct Pager {
    files: Vec<Source>,
    error_files: VecMap<usize>,
    last_output: Option<usize>,
    progress: Option<Progress>,
    delay_fullscreen: bool,
}

impl Pager {
    /// The sources, in registration order.
    pub closed spec fn files_view(&self) -> Seq<Source> {
        self.files@
    }

    /// The error-file map: an output source's index to the index of the
    /// source holding its error stream.
    pub closed spec fn error_map(&self) -> Map<usize, usize> {
        entries_of(self.error_files)
    }

    /// The index of the output stream registered last, if any.
    pub closed spec fn last_output_spec(&self) -> Option<usize> {
        self.last_output
    }

    /// The progress stream's state, if one was set.
    pub closed spec fn progress_spec(&self) -> Option<Progress> {
        self.progress
    }

    /// Whether to wait and see if the content fits one screen.
    pub closed spec fn delay_spec(&self) -> bool {
        self.delay_fullscreen
    }

    /// Each source is well formed and sits at its own index; the error map
    /// pairs an earlier source with a later one.
    pub open spec fn wf(&self) -> bool {
        &&& forall|i: int| 0 <= i < self.files_view().len() ==> {
            &&& (#[trigger] self.files_view()[i]).wf()
            &&& self.files_view()[i].index_spec() == i
        }
        &&& forall|k: usize| #[trigger] self.error_map().dom().contains(k)
            ==> k < self.error_map()[k] < self.files_view().len()
        &&& (self.progress_spec() matches Some(p) ==> p.wf())
        &&& (self.last_output_spec() matches Some(k) ==> k < self.files_view().len())
    }

    proof fn lemma_error_map_frame(a: Pager, b: Pager)
        requires
            a.wf(),
            b.error_map() == a.error_map(),
            a.files_view().len() <= b.files_view().len(),
        ensures
            forall|k: usize| #[trigger] b.error_map().dom().contains(k)
                ==> k < b.error_map()[k] < b.files_view().len(),
    {
        assert forall|k: usize| #[trigger] b.error_map().dom().contains(k)
            implies k < b.error_map()[k] < b.files_view().len() by {
            assert(a.error_map().dom().contains(k));
        }
    }

    proof fn lemma_wf_frame(a: Pager, b: Pager)
        requires
            a.wf(),
            b.error_map() == a.error_map(),
            b.files_view() == a.files_view(),
            b.last_output_spec() == a.last_output_spec(),
            b.progress_spec() matches Some(p) ==> p.wf(),
        ensures
            b.wf(),
    {
        Pager::lemma_error_map_frame(a, b);
        assert forall|i: int| 0 <= i < b.files_view().len() implies {
            &&& (#[trigger] b.files_view()[i]).wf()
            &&& b.files_view()[i].index_spec() == i
        } by {
            assert(a.files_view()[i].wf());
        }
    }

    /// Whether `after` is `before` once `event` has been applied: bytes go to
    /// their source, an end of stream finishes it, progress bytes go to the
    /// progress state; events naming no registered source change nothing.
    pub open spec fn applied(before: Pager, event: Event, after: Pager) -> bool {
        &&& after.error_map() == before.error_map()
        &&& after.delay_spec() == before.delay_spec()
        &&& after.last_output_spec() == before.last_output_spec()
        &&& after.files_view().len() == before.files_view().len()
        &&& match event {
            Event::Received(i, bytes) => {
                &&& after.progress_spec() == before.progress_spec()
                &&& forall|j: int| 0 <= j < before.files_view().len() && j != i
                    ==> after.files_view()[j] == before.files_view()[j]
                &&& i < before.files_view().len() ==> before.files_view()[i as int].fed_into(
                    bytes@, &after.files_view()[i as int])
                &&& i >= before.files_view().len() ==> after.files_view() == before.files_view()
            },
            Event::Loaded(i) => {
                &&& after.progress_spec() == before.progress_spec()
                &&& forall|j: int| 0 <= j < before.files_view().len() && j != i
                    ==> after.files_view()[j] == before.files_view()[j]
                &&& i < before.files_view().len() ==> before.files_view()[i as int].finished_into(
                    None, &after.files_view()[i as int])
                &&& i >= before.files_view().len() ==> after.files_view() == before.files_view()
            },
            Event::Failed(i, reason) => {
                &&& after.progress_spec() == before.progress_spec()
                &&& forall|j: int| 0 <= j < before.files_view().len() && j != i
                    ==> after.files_view()[j] == before.files_view()[j]
                &&& i < before.files_view().len() ==> before.files_view()[i as int].finished_into(
                    Some(reason), &after.files_view()[i as int])
                &&& i >= before.files_view().len() ==> after.files_view() == before.files_view()
            },
            Event::ProgressUpdated(bytes) => {
                &&& after.files_view() == before.files_view()
                &&& before.progress_spec() is None ==> after.progress_spec() is None
                &&& before.progress_spec() matches Some(p) ==> after.progress_spec() matches Some(q)
                    && q.fed() == p.fed() + bytes@
                    && q.latest_spec() == latest_record(p.fed() + bytes@)
            },
            Event::Input(_) => {
                &&& after.files_view() == before.files_view()
                &&& after.progress_spec() == before.progress_spec()
            },
        }
    }

    /// A pager with no sources, no progress stream, and the fit delay on.
    pub fn new() -> (r: Pager)
        ensures
            r.wf(),
            r.files_view().len() == 0,
            r.error_map() == Map::<usize, usize>::empty(),
            r.progress_spec() is None,
            r.last_output_spec() is None,
            r.delay_spec(),
    {
        let error_files = index_map_new();
        assert(entries_of(error_files) =~= Map::<usize, usize>::empty());
        Pager {
            files: Vec::new(),
            error_files,
            last_output: None,
            progress: None,
            delay_fullscreen: true,
        }
    }

    /// Registers an output stream under the next index, which it returns.
    pub fn add_output_stream(&mut self, title: &str) -> (r: usize)
        requires
            old(self).wf(),
            old(self).files_view().len() < usize::MAX,
        ensures
            final(self).wf(),
            r == old(self).files_view().len(),
            final(self).files_view().len() == r + 1,
            final(self).files_view().take(r as int) == old(self).files_view(),
            final(self).files_view()[r as int].title_spec() == title@,
            final(self).files_view()[r as int].lines_view().len() == 0,
            final(self).files_view()[r as int].fed() == Seq::<u8>::empty(),
            !final(self).files_view()[r as int].loaded_spec(),
            final(self).last_output_spec() == Some(r),
            final(self).error_map() == old(self).error_map(),
            final(self).progress_spec() == old(self).progress_spec(),
            final(self).delay_spec() == old(self).delay_spec(),
    {
        let index = self.files.len();
        let file = Source::new(index, title);
        self.files.push(file);
        self.last_output = Some(index);
        proof { Pager::lemma_error_map_frame(*old(self), *self); }
        assert(self.files@.take(index as int) =~= old(self).files@);
        assert forall|i: int| 0 <= i < self.files_view().len() implies {
            &&& (#[trigger] self.files_view()[i]).wf()
            &&& self.files_view()[i].index_spec() == i
        } by {
            if i < index {
                assert(self.files_view()[i] == old(self).files_view()[i]);
            }
        }
        index
    }

    /// Registers an error stream under the next index, which it returns,
    /// and pairs it with the output stream registered most recently, if
    /// there is one; error streams registered since then do not count.
    pub fn add_error_stream(&mut self, title: &str) -> (r: usize)
        requires
            old(self).wf(),
            old(self).files_view().len() < usize::MAX,
        ensures
            final(self).wf(),
            r == old(self).files_view().len(),
            final(self).files_view().len() == r + 1,
            final(self).files_view().take(r as int) == old(self).files_view(),
            final(self).files_view()[r as int].title_spec() == title@,
            final(self).files_view()[r as int].lines_view().len() == 0,
            final(self).files_view()[r as int].fed() == Seq::<u8>::empty(),
            !final(self).files_view()[r as int].loaded_spec(),
            final(self).last_output_spec() == old(self).last_output_spec(),
            old(self).last_output_spec() is None ==> final(self).error_map() == old(self).error_map(),
            old(self).last_output_spec() matches Some(k) ==> final(self).error_map()
                == old(self).error_map().insert(k, r),
            final(self).progress_spec() == old(self).progress_spec(),
            final(self).delay_spec() == old(self).delay_spec(),
    {
        let index = self.files.len();
        let file = Source::new(index, title);
        match self.last_output {
            Some(out_index) => {
                index_map_insert(&mut self.error_files, out_index, index);
            },
            None => {},
        }
        self.files.push(file);
        proof {
            assert forall|k: usize| #[trigger] self.error_map().dom().contains(k)
                implies k < self.error_map()[k] < self.files_view().len() by {
                if old(self).last_output_spec() != Some(k) {
                    assert(old(self).error_map().dom().contains(k));
                }
            }
        }
        assert(self.files@.take(index as int) =~= old(self).files@);
        assert forall|i: int| 0 <= i < self.files_view().len() implies {
            &&& (#[trigger] self.files_view()[i]).wf()
            &&& self.files_view()[i].index_spec() == i
        } by {
            if i < index {
                assert(self.files_view()[i] == old(self).files_view()[i]);
            }
        }
        index
    }

    /// Sets up the progress stream's state, replacing any earlier one.
    pub fn set_progress_stream(&mut self)
        requires
            old(self).wf(),
        ensures
            final(self).wf(),
            final(self).progress_spec() matches Some(p) && p.fed().len() == 0
                && p.latest_spec() is None,
            final(self).files_view() == old(self).files_view(),
            final(self).error_map() == old(self).error_map(),
            final(self).delay_spec() == old(self).delay_spec(),
    {
        self.progress = Some(Progress::new());
        proof { Pager::lemma_wf_frame(*old(self), *self); }
    }

    /// Sets whether to wait and see if the content fits one screen.
    pub fn set_delay_fullscreen(&mut self, value: bool)
        requires
            old(self).wf(),
        ensures
            final(self).wf(),
            final(self).delay_spec() == value,
            final(self).files_view() == old(self).files_view(),
            final(self).error_map() == old(self).error_map(),
            final(self).progress_spec() == old(self).progress_spec(),
    {
        self.delay_fullscreen = value;
        proof { Pager::lemma_wf_frame(*old(self), *self); }
    }

    /// Whether the fit delay is on.
    pub fn delay_fullscreen(&self) -> (r: bool)
        ensures
            r == self.delay_spec(),
    {
        self.delay_fullscreen
    }

    /// The number of registered sources.
    pub fn file_count(&self) -> (r: usize)
        ensures
            r == self.files_view().len(),
    {
        self.files.len()
    }

    /// The source with this index, if it is registered.
    pub fn file(&self, index: usize) -> (r: Option<&Source>)
        ensures
            r is Some <==> index < self.files_view().len(),
            r matches Some(f) ==> *f == self.files_view()[index as int],
    {
        if index < self.files.len() {
            Some(&self.files[index])
        } else {
            None
        }
    }

    /// All registered sources, in order.
    pub fn files(&self) -> (r: &[Source])
        ensures
            r@ == self.files_view(),
    {
        self.files.as_slice()
    }

    /// The index of the error source paired with the source at `index`.
    pub fn error_file(&self, index: usize) -> (r: Option<usize>)
        ensures
            r == (if self.error_map().contains_key(index) {
                Some(self.error_map()[index])
            } else {
                None::<usize>
            }),
    {
        index_map_get(&self.error_files, index)
    }

    /// The number of sources that have an error source paired with them.
    pub fn error_file_count(&self) -> (r: usize)
        ensures
            r == self.error_map().len(),
    {
        index_map_len(&self.error_files)
    }

    /// The progress state, if a progress stream was set.
    pub fn progress(&self) -> (r: Option<&Progress>)
        ensures
            r is Some == self.progress_spec() is Some,
            r matches Some(p) ==> self.progress_spec() == Some(*p),
    {
        match &self.progress {
            Some(p) => Some(p),
            None => None,
        }
    }

    /// Applies an event from a worker or the terminal.
    pub fn apply(&mut self, event: Event)
        requires
            old(self).wf(),
        ensures
            final(self).wf(),
            Pager::applied(*old(self), event, *final(self)),
    {
        let ghost ev = event;
        match event {
            Event::Received(i, bytes) => {
                if i < self.files.len() {
                    assert(self.files_view()[i as int].wf());
                    self.files[i].feed(bytes.as_slice());
                    assert(self.files@ =~= old(self).files@.update(i as int, self.files@[i as int]));
                }
            },
            Event::Loaded(i) => {
                if i < self.files.len() {
                    assert(self.files_view()[i as int].wf());
                    self.files[i].finish(None);
                    assert(self.files@ =~= old(self).files@.update(i as int, self.files@[i as int]));
                }
            },
            Event::Failed(i, reason) => {
                if i < self.files.len() {
                    assert(self.files_view()[i as int].wf());
                    self.files[i].finish(Some(reason));
                    assert(self.files@ =~= old(self).files@.update(i as int, self.files@[i as int]));
                }
            },
            Event::ProgressUpdated(bytes) => {
                match &mut self.progress {
                    Some(p) => p.feed(bytes.as_slice()),
                    None => {},
                }
            },
            Event::Input(_) => {},
        }
        proof { Pager::lemma_error_map_frame(*old(self), *self); }
    }
}

} // verus!

verus! {

/// Whatever event is applied, every source keeps its identity and every
/// line it had published, at the same index with the same bytes; so the
/// line count that any reader observes never decreases.
pub proof fn law_events_keep_published_lines(before: Pager, event: Event, after: Pager)
    requires
        before.wf(),
        Pager::applied(before, event, after),
    ensures
        forall|i: int| 0 <= i < before.files_view().len()
            ==> (#[trigger] before.files_view()[i]).grows_into(&after.files_view()[i]),
{
    assert forall|i: int| 0 <= i < before.files_view().len()
        implies (#[trigger] before.files_view()[i]).grows_into(&after.files_view()[i]) by {
        let s = before.files_view()[i];
        assert(s.lines_view().take(s.lines_view().len() as int) =~= s.lines_view());
    }
}

} // verus!
