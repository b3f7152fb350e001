//! A driver with a record of the calls made on it.
//!
//! The engine reaches the file system and the printer only through a
//! `Recorded` driver. Each call is handed on, and what was handed over and
//! what came back is added to a log. The log exists for the contracts
//! alone: it takes no space and no time when the program runs. Over it the
//! engine says which calls it made and what it did with each answer.

use std::path::PathBuf;
use vstd::prelude::*;
use crate::engine::{as_path, glob_valid, resolve, FsDriver, Printer};
use crate::outcome::Error;

verus! {

/// Where a call goes: the name of a file as a directive gives it, and the
/// working directory that it is resolved under, if there is one.
pub struct Place {
    pub name: Seq<char>,
    pub under: Option<PathBuf>,
}

/// The place of a file with this name under this working directory.
pub open spec fn place(working_dir: Option<PathBuf>, file: Seq<char>) -> Place {
    Place { name: file, under: working_dir }
}

/// What the printer is told of a file.
#[derive(Debug, Clone, Copy, PartialEq, Eq, Structural)]
pub enum Report {
    Overwritten,
    Skipped,
    Added,
    Injected,
    NoInjection,
}

/// One call, with what it was handed and what it answered.
pub enum FsEvent {
    /// `path_exists` was asked of this place and gave this answer.
    Asked { at: Place, present: bool },
    /// `read_file` was asked of this place and gave this answer.
    Read { at: Place, answer: Result<String, Error> },
    /// `write_file` was handed this text for this place and gave this
    /// answer.
    Wrote { at: Place, content: Seq<char>, answer: Result<(), Error> },
    /// The glob pattern was judged: valid or not.
    Judged { pattern: Seq<char>, valid: bool },
    /// `count_glob` was handed this pattern and gave this answer.
    Counted { pattern: Seq<char>, answer: Result<usize, Error> },
    /// The printer was told this of this place.
    Reported { at: Place, what: Report },
}

/// A driver together with the log of the calls made through it.
pub struct Recorded<F: FsDriver> {
    fs: F,
    calls: Ghost<Seq<FsEvent>>,
}

impl<F: FsDriver> Recorded<F> {
    /// The calls made so far, oldest first.
    pub closed spec fn log(&self) -> Seq<FsEvent> {
        self.calls@
    }

    /// The driver that the calls go to.
    pub closed spec fn inner(&self) -> F {
        self.fs
    }

    /// Starts recording on a driver, with an empty log.
    pub fn new(fs: F) -> (r: Self)
        ensures
            r.inner() == fs,
            r.log() == Seq::<FsEvent>::empty(),
    {
        Recorded { fs, calls: Ghost(Seq::empty()) }
    }

    /// The driver that the calls go to.
    pub fn driver(&self) -> (r: &F)
        ensures
            *r == self.inner(),
    {
        &self.fs
    }

    /// Asks the driver whether the file is there, and records the answer.
    pub fn path_exists(&mut self, working_dir: &Option<PathBuf>, file: &str) -> (b: bool)
        ensures
            final(self).inner() == old(self).inner(),
            final(self).log() == old(self).log().push(
                FsEvent::Asked { at: place(*working_dir, file@), present: b },
            ),
    {
        let path = resolve(working_dir, file);
        let b = self.fs.path_exists(as_path(&path));
        self.calls = Ghost(
            self.calls@.push(FsEvent::Asked { at: place(*working_dir, file@), present: b }),
        );
        b
    }

    /// Has the driver read the file, and records the answer.
    pub fn read_file(&mut self, working_dir: &Option<PathBuf>, file: &str) -> (r: Result<
        String,
        Error,
    >)
        ensures
            final(self).inner() == old(self).inner(),
            final(self).log() == old(self).log().push(
                FsEvent::Read { at: place(*working_dir, file@), answer: r },
            ),
    {
        let path = resolve(working_dir, file);
        let r = self.fs.read_file(as_path(&path));
        self.calls = Ghost(
            self.calls@.push(FsEvent::Read { at: place(*working_dir, file@), answer: r }),
        );
        r
    }

    /// Has the driver write the file, and records the text and the answer.
    pub fn write_file(&mut self, working_dir: &Option<PathBuf>, file: &str, content: &str) -> (r:
        Result<(), Error>)
        ensures
            final(self).inner() == old(self).inner(),
            final(self).log() == old(self).log().push(
                FsEvent::Wrote { at: place(*working_dir, file@), content: content@, answer: r },
            ),
    {
        let path = resolve(working_dir, file);
        let r = self.fs.write_file(as_path(&path), content);
        self.calls = Ghost(
            self.calls@.push(
                FsEvent::Wrote { at: place(*working_dir, file@), content: content@, answer: r },
            ),
        );
        r
    }

    /// Has the glob pattern judged, valid or not, and records the
    /// judgement.
    pub fn glob_valid(&mut self, pattern: &str) -> (ok: bool)
        ensures
            final(self).inner() == old(self).inner(),
            final(self).log() == old(self).log().push(
                FsEvent::Judged { pattern: pattern@, valid: ok },
            ),
    {
        let ok = glob_valid(pattern);
        self.calls = Ghost(self.calls@.push(FsEvent::Judged { pattern: pattern@, valid: ok }));
        ok
    }

    /// Has the driver count the paths that a glob pattern matches, and
    /// records the pattern and the answer.
    pub fn count_glob(&mut self, pattern: &str) -> (r: Result<usize, Error>)
        ensures
            final(self).inner() == old(self).inner(),
            final(self).log() == old(self).log().push(
                FsEvent::Counted { pattern: pattern@, answer: r },
            ),
    {
        let r = self.fs.count_glob(pattern);
        self.calls = Ghost(self.calls@.push(FsEvent::Counted { pattern: pattern@, answer: r }));
        r
    }

    /// Tells the printer what became of the file, and records it.
    pub fn report<P: Printer>(
        &mut self,
        printer: &P,
        working_dir: &Option<PathBuf>,
        file: &str,
        what: Report,
    )
        ensures
            final(self).inner() == old(self).inner(),
            final(self).log() == old(self).log().push(
                FsEvent::Reported { at: place(*working_dir, file@), what },
            ),
    {
        let path = resolve(working_dir, file);
        match what {
            Report::Overwritten => printer.overwrite_file(as_path(&path)),
            Report::Skipped => printer.skip_exists(as_path(&path)),
            Report::Added => printer.add_file(as_path(&path)),
            Report::Injected => printer.injected(as_path(&path)),
            Report::NoInjection => printer.no_injection(as_path(&path)),
        }
        self.calls = Ghost(
            self.calls@.push(FsEvent::Reported { at: place(*working_dir, file@), what }),
        );
    }
}

} // verus!
