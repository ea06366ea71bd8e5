//! The pager's lifecycle: an optional wait to see whether all content fits
//! one screen, then either a direct flush or the interactive pager.
use vstd::prelude::*;
use vstd::slice::slice_to_vec;
use crate::decode::byte_rows;
use crate::event::{Event, InputKind};
use crate::fit::{files_fit, source_lines, total_rows};
use crate::pager::Pager;
use crate::source::Source;

verus! {

/// How long, in milliseconds, to wait to see whether the content fits one
/// screen.
pub const LOAD_DELAY_MS: u64 = 2000;

/// How long, in milliseconds, one wait for an event may last while the fit
/// is decided.
pub const POLL_SLICE_MS: u64 = 50;

/// Where the lifecycle stands.
#[derive(PartialEq, Eq, Structural, Clone, Copy, Debug)]
pub enum Phase {
    /// Waiting, within a deadline, to see whether all content fits.
    DecidingFit,
    /// All content fits one screen: print it and stop.
    DirectFlush,
    /// Hand everything to the interactive pager.
    Interactive,
}

/// Whether every source's stream has ended.
pub open spec fn all_loaded(files: Seq<Source>) -> bool {
    forall|i: int| 0 <= i < files.len() ==> (#[trigger] files[i]).loaded_spec()
}

/// Whether the event is a key press.
pub open spec fn is_key_press(event: Option<Event>) -> bool {
    event matches Some(Event::Input(InputKind::Key))
}

/// The phase that the fit wait moves to: a key press ends the wait at
/// once; once every source has loaded, the content fits or it does not;
/// content that overflows the screen ends the wait early; so does the
/// deadline.
pub open spec fn fit_decision(key: bool, loaded: bool, fits: bool, deadline_passed: bool) -> Phase {
    if key {
        Phase::Interactive
    } else if loaded {
        if fits {
            Phase::DirectFlush
        } else {
            Phase::Interactive
        }
    } else if !fits || deadline_passed {
        Phase::Interactive
    } else {
        Phase::DecidingFit
    }
}

/// The fit wait's rules: a key press always leads to the interactive
/// pager; once every source has loaded, content that fits is flushed and
/// content that does not is paged; content that overflows the screen ends
/// the wait without waiting for the rest to load or for the deadline; and
/// once the deadline has passed the wait is over.
pub proof fn law_fit_policy(key: bool, loaded: bool, fits: bool, deadline_passed: bool)
    ensures
        key ==> fit_decision(key, loaded, fits, deadline_passed) == Phase::Interactive,
        !key && loaded && fits ==> fit_decision(key, loaded, fits, deadline_passed)
            == Phase::DirectFlush,
        !fits ==> fit_decision(key, loaded, fits, deadline_passed) == Phase::Interactive,
        deadline_passed ==> fit_decision(key, loaded, fits, deadline_passed) != Phase::DecidingFit,
        fit_decision(key, loaded, fits, deadline_passed) == Phase::DirectFlush ==> loaded && fits,
{
}

/// All lines of all sources, source after source, each in order.
pub open spec fn all_lines(files: Seq<Seq<Seq<u8>>>) -> Seq<Seq<u8>>
    decreases files.len(),
{
    if files.len() == 0 {
        Seq::empty()
    } else {
        all_lines(files.drop_last()) + files.last()
    }
}

/// A running pager: its sources, the terminal's size, and its phase.
pub struct Session {
    pager: Pager,
    phase: Phase,
    cols: usize,
    rows: usize,
}

impl Pager {
    /// Starts the lifecycle on a terminal of `cols` by `rows`: with the fit
    /// delay on, the session waits to decide; otherwise it goes
    /// interactive at once.
    pub fn run(self, cols: usize, rows: usize) -> (r: Session)
        requires
            self.wf(),
        ensures
            r.wf(),
            r.pager_spec() == self,
            r.cols_spec() == cols,
            r.rows_spec() == rows,
            r.phase_spec() == (if self.delay_spec() {
                Phase::DecidingFit
            } else {
                Phase::Interactive
            }),
    {
        let phase = if self.delay_fullscreen() {
            Phase::DecidingFit
        } else {
            Phase::Interactive
        };
        Session { pager: self, phase, cols, rows }
    }
}

impl Session {
    /// The sources and settings.
    pub closed spec fn pager_spec(&self) -> Pager {
        self.pager
    }

    /// The current phase.
    pub closed spec fn phase_spec(&self) -> Phase {
        self.phase
    }

    /// The terminal's columns.
    pub closed spec fn cols_spec(&self) -> usize {
        self.cols
    }

    /// The terminal's rows.
    pub closed spec fn rows_spec(&self) -> usize {
        self.rows
    }

    /// The sources are well formed.
    pub open spec fn wf(&self) -> bool {
        self.pager_spec().wf()
    }

    /// Whether all content, wrapped at the current width, fits the current
    /// rows.
    pub open spec fn content_fits(&self) -> bool {
        total_rows(source_lines(self.pager_spec().files_view()), self.cols_spec() as nat)
            <= self.rows_spec()
    }

    /// The current phase.
    pub fn phase(&self) -> (r: Phase)
        ensures
            r == self.phase_spec(),
    {
        self.phase
    }

    /// The sources and settings.
    pub fn pager(&self) -> (r: &Pager)
        ensures
            *r == self.pager_spec(),
    {
        &self.pager
    }

    /// The terminal's size, columns then rows.
    pub fn screen_size(&self) -> (r: (usize, usize))
        ensures
            r == (self.cols_spec(), self.rows_spec()),
    {
        (self.cols, self.rows)
    }

    /// Ends the session, handing back the sources and settings.
    pub fn into_pager(self) -> (r: Pager)
        ensures
            r == self.pager_spec(),
    {
        self.pager
    }

    /// Whether every source has loaded.
    pub fn all_loaded(&self) -> (r: bool)
        ensures
            r == all_loaded(self.pager_spec().files_view()),
    {
        let files = self.pager.files();
        let mut i: usize = 0;
        while i < files.len()
            invariant
                0 <= i <= files@.len(),
                files@ == self.pager_spec().files_view(),
                forall|j: int| 0 <= j < i ==> (#[trigger] files@[j]).loaded_spec(),
            decreases files@.len() - i,
        {
            if !files[i].is_loaded() {
                return false;
            }
            i = i + 1;
        }
        true
    }

    /// Takes the next event, or `None` where the wait for one ran out, and
    /// whether the fit deadline has passed; applies the event, and, while
    /// the fit is being decided, moves to the phase that `fit_decision`
    /// gives. Returns the new phase.
    pub fn step(&mut self, event: Option<Event>, deadline_passed: bool) -> (r: Phase)
        requires
            old(self).wf(),
        ensures
            final(self).wf(),
            r == final(self).phase_spec(),
            event is None ==> final(self).pager_spec() == old(self).pager_spec(),
            event matches Some(e) ==> Pager::applied(old(self).pager_spec(), e, final(self).pager_spec()),
            event matches Some(Event::Input(InputKind::Resized { cols, rows }))
                ==> final(self).cols_spec() == cols && final(self).rows_spec() == rows,
            !(event matches Some(Event::Input(InputKind::Resized { .. })))
                ==> final(self).cols_spec() == old(self).cols_spec()
                && final(self).rows_spec() == old(self).rows_spec(),
            old(self).phase_spec() == Phase::DecidingFit ==> final(self).phase_spec() == fit_decision(
                is_key_press(event),
                all_loaded(final(self).pager_spec().files_view()),
                final(self).content_fits(),
                deadline_passed,
            ),
            old(self).phase_spec() != Phase::DecidingFit ==> final(self).phase_spec()
                == old(self).phase_spec(),
    {
        let mut key = false;
        match event {
            Some(ev) => {
                match &ev {
                    Event::Input(InputKind::Resized { cols, rows }) => {
                        self.cols = *cols;
                        self.rows = *rows;
                    },
                    Event::Input(InputKind::Key) => {
                        key = true;
                    },
                    _ => {},
                }
                self.pager.apply(ev);
            },
            None => {},
        }
        if self.phase == Phase::DecidingFit {
            let loaded = self.all_loaded();
            let fits = files_fit(self.pager.files(), self.cols, self.rows);
            self.phase = if key {
                Phase::Interactive
            } else if loaded {
                if fits {
                    Phase::DirectFlush
                } else {
                    Phase::Interactive
                }
            } else if !fits || deadline_passed {
                Phase::Interactive
            } else {
                Phase::DecidingFit
            };
        }
        self.phase
    }

    /// Every line of every source, source after source, for printing
    /// directly when all content fits one screen.
    pub fn flush_lines(&self) -> (r: Vec<Vec<u8>>)
        ensures
            byte_rows(r@) == all_lines(source_lines(self.pager_spec().files_view())),
    {
        let files = self.pager.files();
        let ghost views = source_lines(files@);
        let mut out: Vec<Vec<u8>> = Vec::new();
        let mut fi: usize = 0;
        proof {
            assert(byte_rows(out@) =~= all_lines(views.take(0)));
        }
        while fi < files.len()
            invariant
                0 <= fi <= files@.len(),
                files@ == self.pager_spec().files_view(),
                views == source_lines(files@),
                byte_rows(out@) == all_lines(views.take(fi as int)),
            decreases files@.len() - fi,
        {
            let file = &files[fi];
            let count = file.line_count();
            let ghost start = byte_rows(out@);
            let mut i: usize = 0;
            while i < count
                invariant
                    0 <= i <= count,
                    count == file.lines_view().len(),
                    byte_rows(out@) == start + file.lines_view().take(i as int),
                decreases count - i,
            {
                let ghost prev = out@;
                match file.line(i) {
                    Some(line) => {
                        out.push(slice_to_vec(line));
                    },
                    None => {},
                }
                proof {
                    assert(byte_rows(out@) =~= byte_rows(prev).push(file.lines_view()[i as int]));
                    assert(file.lines_view().take(i as int + 1)
                        =~= file.lines_view().take(i as int).push(file.lines_view()[i as int]));
                }
                i = i + 1;
            }
            proof {
                assert(file.lines_view().take(count as int) =~= file.lines_view());
                assert(views.take(fi as int + 1).drop_last() =~= views.take(fi as int));
                assert(views[fi as int] == file.lines_view());
            }
            fi = fi + 1;
        }
        proof {
            assert(views.take(files@.len() as int) =~= views);
        }
        out
    }
}

} // verus!
