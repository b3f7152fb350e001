//! The engine: what is written, what is skipped, and the run of a batch of
//! documents against a file system that the caller supplies. The calls go
//! through a recording driver, and the contracts say over its log which
//! calls were made and what was done with each answer.

use std::path::{Path, PathBuf};
use vstd::prelude::*;
use crate::directive::{
    copy_of, decode_front_matter, raw_plan, raw_rules, valid_rules, FrontMatter, Plan,
    RawFrontMatter,
};
use crate::inject::{apply, applied, Injection, Mode};
use crate::journal::{place, FsEvent, Place, Recorded, Report};
use crate::outcome::{merge_results, merged_message, Error, GenResult};
use crate::pattern::is_match;

verus! {

/// The file system that the engine reads and writes. Nothing is assumed of
/// an implementation: the engine's contracts hold whatever it answers, and
/// speak of the answers as the recording driver logged them.
pub trait FsDriver {
    /// Writes a file, creating missing parent directories.
    fn write_file(&self, path: &Path, content: &str) -> Result<(), Error>;

    /// Reads a file.
    fn read_file(&self, path: &Path) -> Result<String, Error>;

    /// Whether the path is there.
    fn path_exists(&self, path: &Path) -> bool;

    /// The number of existing paths that a glob pattern matches.
    fn count_glob(&self, pattern: &str) -> Result<usize, Error>;
}

/// Where the engine reports what it did.
pub trait Printer {
    fn overwrite_file(&self, file_to: &Path);

    fn skip_exists(&self, file_to: &Path);

    fn add_file(&self, file_to: &Path);

    fn injected(&self, file_to: &Path);

    /// A rule without a mode was run: the file is left as it is.
    fn no_injection(&self, file_to: &Path);
}

/// What becomes of a document's body.
#[derive(Debug, Clone, Copy, PartialEq, Eq, Structural)]
pub enum WriteDecision {
    /// Nothing is written.
    Skipped,
    /// The body is written; `created` tells whether the file is new.
    Written { created: bool },
}

/// Calls `glob::Pattern::new` and reports whether the pattern was accepted.
/// Nothing is claimed of the answer: what separates the parts of a path,
/// and with it what a valid pattern is, differs between platforms.
#[verifier::external_body]
pub(crate) fn glob_valid(pattern: &str) -> (ok: bool) {
    glob::Pattern::new(pattern).is_ok()
}

/// A path of std that owns its text. Opaque here: it is made, joined and
/// handed on.
#[verifier::external_type_specification]
#[verifier::external_body]
pub struct ExPathBuf(PathBuf);

/// A path of std, borrowed. Opaque here.
#[verifier::external_type_specification]
#[verifier::external_body]
pub struct ExPath(Path);

/// Calls `PathBuf::from` of std on a text. Nothing is claimed of the
/// result.
#[verifier::external_body]
fn path_of(file: &str) -> (r: PathBuf) {
    PathBuf::from(file)
}

/// Calls `Path::join` of std. Nothing is claimed of the result: how paths
/// join differs between platforms.
#[verifier::external_body]
fn join_path(dir: &PathBuf, file: &str) -> (r: PathBuf) {
    dir.join(file)
}

/// Calls `PathBuf::as_path` of std. Nothing is claimed of the result.
#[verifier::external_body]
pub(crate) fn as_path(path: &PathBuf) -> (r: &Path) {
    path.as_path()
}

/// The decision on a body, in order: a file that is there is left alone
/// where the directive says so; else a glob that matches anything skips the
/// write; else the body is written.
pub open spec fn write_decided(skip_exists: bool, present: bool, glob_matches: Option<usize>)
    -> WriteDecision {
    if skip_exists && present {
        WriteDecision::Skipped
    } else if glob_matches is Some && glob_matches->0 > 0 {
        WriteDecision::Skipped
    } else {
        WriteDecision::Written { created: !present }
    }
}

/// Decides what becomes of a body. `present` says whether the target path
/// is there; `glob_matches` is the number of paths that the directive's glob
/// matches, `None` where it has no glob.
pub fn decide_write(skip_exists: bool, present: bool, glob_matches: Option<usize>) -> (d:
    WriteDecision)
    ensures
        d == write_decided(skip_exists, present, glob_matches),
{
    if skip_exists && present {
        return WriteDecision::Skipped;
    }
    match glob_matches {
        Some(n) => {
            if n > 0 {
                return WriteDecision::Skipped;
            }
        },
        None => {},
    }
    WriteDecision::Written { created: !present }
}

/// With `skip_exists` set, a target that is there is skipped whatever the
/// glob says, and a target that is not there is written as a new file
/// unless the glob holds the write back.
pub proof fn lemma_skip_exists(glob_matches: Option<usize>)
    ensures
        write_decided(true, true, glob_matches) == WriteDecision::Skipped,
        glob_matches is None || glob_matches->0 == 0 ==> write_decided(true, false, glob_matches)
            == (WriteDecision::Written { created: true }),
{
}

/// Checks that the target of an injection is there.
pub fn require_target(rule: &Injection, present: bool) -> (r: Result<(), Error>)
    ensures
        present ==> r is Ok,
        !present ==> r == Err::<(), Error>(Error::MissingInjectionTarget(rule.into)),
{
    if present {
        Ok(())
    } else {
        Err(Error::MissingInjectionTarget(rule.into.clone()))
    }
}

/// The new text of a rule's target, or `None` where the rule's guard
/// matches the text and the file is to be left untouched. A replacing rule
/// whose pattern has no match in the text gives the text back.
pub fn inject(file_content: &str, rule: &Injection) -> (r: Option<String>)
    requires
        rule.well_formed(),
    ensures
        rule.guarded(file_content@) <==> r is None,
        r is Some ==> r->0@ == applied(file_content@, *rule),
        r is Some && rule.finds_nothing_to_replace(file_content@) ==> r->0@ == file_content@,
{
    if let Some(skip_if) = &rule.skip_if {
        if is_match(skip_if.as_str(), file_content) {
            return None;
        }
    }
    Some(apply(file_content, rule))
}

/// The path of a file, under the working directory where there is one.
pub(crate) fn resolve(working_dir: &Option<PathBuf>, file: &str) -> (r: PathBuf) {
    match working_dir {
        Some(dir) => join_path(dir, file),
        None => path_of(file),
    }
}

/// The part of the later log that was added to the earlier one.
pub open spec fn added(earlier: Seq<FsEvent>, later: Seq<FsEvent>) -> Seq<FsEvent> {
    later.subrange(earlier.len() as int, later.len() as int)
}

/// The error of an answer, if it is one.
pub open spec fn error_of<T>(answer: Result<T, Error>) -> Option<Error> {
    match answer {
        Ok(_) => None,
        Err(e) => Some(e),
    }
}

/// The calls that write a new text back: a warning first where the rule
/// has no mode, then the write of what the rule makes of the text, then,
/// where the write succeeded, the report of the injection.
pub open spec fn write_back(rule: Injection, at: Place, text: Seq<char>, answer: Result<(), Error>)
    -> Seq<FsEvent> {
    let warned = if rule.mode is Nothing {
        seq![FsEvent::Reported { at, what: Report::NoInjection }]
    } else {
        Seq::<FsEvent>::empty()
    };
    let told = if answer is Ok {
        seq![FsEvent::Reported { at, what: Report::Injected }]
    } else {
        Seq::<FsEvent>::empty()
    };
    warned + seq![FsEvent::Wrote { at, content: applied(text, rule), answer }] + told
}

/// Whether the calls are exactly the run of one rule, ending as `failure`
/// says. The rule's target is asked for. Where it is not there, nothing
/// follows and the run fails with `MissingInjectionTarget`. Else the file
/// is read; a failed read ends and fails the run. Where the rule's guard
/// matches the text read, nothing follows. Else the text is written back,
/// and the run fails as the write does.
pub open spec fn rule_ran(
    rule: Injection,
    working_dir: Option<PathBuf>,
    calls: Seq<FsEvent>,
    failure: Option<Error>,
) -> bool {
    let at = place(working_dir, rule.into@);
    &&& calls.len() >= 1
    &&& calls[0] matches FsEvent::Asked { at: asked, present }
    &&& asked == at
    &&& if !present {
        calls.len() == 1 && failure == Some(Error::MissingInjectionTarget(rule.into))
    } else {
        &&& calls.len() >= 2
        &&& calls[1] matches FsEvent::Read { at: read, answer }
        &&& read == at
        &&& match answer {
            Err(e) => calls.len() == 2 && failure == Some(e),
            Ok(text) => if rule.guarded(text@) {
                calls.len() == 2 && failure is None
            } else {
                let k: int = if rule.mode is Nothing {
                    3
                } else {
                    2
                };
                &&& calls.len() > k
                &&& calls[k] matches FsEvent::Wrote { answer: written, .. }
                &&& calls.skip(2) =~= write_back(rule, at, text@, written)
                &&& failure == error_of(written)
            },
        }
    }
}

/// Whether the calls are exactly the runs of the first `n` rules, one
/// after the other, none of which failed.
pub open spec fn rules_ran(
    rules: Seq<Injection>,
    working_dir: Option<PathBuf>,
    n: int,
    calls: Seq<FsEvent>,
) -> bool
    decreases n,
{
    if n <= 0 {
        calls.len() == 0
    } else {
        exists|c: int|
            0 <= c <= calls.len() && rules_ran(rules, working_dir, n - 1, #[trigger] calls.take(c))
                && rule_ran(rules[n - 1], working_dir, calls.skip(c), None)
    }
}

/// Whether the calls are exactly a run of the rules that ended as
/// `failure` says: without one, every rule ran; with one, the rules before
/// some rule ran, that rule failed with it, and nothing follows.
pub open spec fn injects_ran(
    rules: Seq<Injection>,
    working_dir: Option<PathBuf>,
    calls: Seq<FsEvent>,
    failure: Option<Error>,
) -> bool {
    match failure {
        None => rules_ran(rules, working_dir, rules.len() as int, calls),
        Some(_) => exists|n: int, c: int|
            0 <= n < rules.len() && 0 <= c <= calls.len() && #[trigger] rules_ran(
                rules,
                working_dir,
                n,
                calls.take(c),
            ) && rule_ran(rules[n], working_dir, calls.skip(c), failure),
    }
}

/// A log cut where a run was added gives back what was there and the run.
proof fn lemma_cut(before: Seq<FsEvent>, run: Seq<FsEvent>)
    ensures
        (before + run).take(before.len() as int) == before,
        (before + run).skip(before.len() as int) == run,
{
    assert((before + run).take(before.len() as int) =~= before);
    assert((before + run).skip(before.len() as int) =~= run);
}

/// Runs the rules in order, each on the text that its target holds then.
///
/// For each rule the target is looked up, read, edited and written back; a
/// rule whose guard matches what was read writes nothing. A target that
/// does not exist stops the run with `MissingInjectionTarget`, and a read or
/// a write that fails stops it with that failure; no call is made after
/// that. What was written before stays written.
pub fn handle_injects<F: FsDriver, P: Printer>(
    fs: &mut Recorded<F>,
    printer: &P,
    working_dir: &Option<PathBuf>,
    injections: &Vec<Injection>,
) -> (r: Result<(), Error>)
    requires
        forall|i: int| 0 <= i < injections@.len() ==> (#[trigger] injections@[i]).well_formed(),
    ensures
        injections@.len() == 0 ==> r is Ok,
        final(fs).inner() == old(fs).inner(),
        old(fs).log().is_prefix_of(final(fs).log()),
        injects_ran(
            injections@,
            *working_dir,
            added(old(fs).log(), final(fs).log()),
            error_of(r),
        ),
{
    let ghost start = fs.log();
    let ghost wd = *working_dir;
    let mut i: usize = 0;
    proof {
        assert(added(start, fs.log()) =~= Seq::<FsEvent>::empty());
    }
    while i < injections.len()
        invariant
            i <= injections.len(),
            forall|i: int| 0 <= i < injections@.len() ==> (#[trigger] injections@[i]).well_formed(),
            start == old(fs).log(),
            wd == *working_dir,
            fs.inner() == old(fs).inner(),
            start.is_prefix_of(fs.log()),
            rules_ran(injections@, wd, i as int, added(start, fs.log())),
        decreases injections.len() - i,
    {
        let ghost before = added(start, fs.log());
        let rule = &injections[i];
        let into = rule.into.as_str();
        let ghost at = place(wd, rule.into@);
        let present = fs.path_exists(working_dir, into);
        let ghost mut run = seq![FsEvent::Asked { at, present }];
        proof {
            assert(added(start, fs.log()) =~= before + run);
            lemma_cut(before, run);
        }
        match require_target(rule, present) {
            Ok(_) => {},
            Err(e) => {
                let failed: Result<(), Error> = Err(e);
                proof {
                    assert(rule_ran(*rule, wd, run, error_of(failed)));
                    assert(rules_ran(injections@, wd, i as int, (before + run).take(
                        before.len() as int,
                    )));
                }
                return failed;
            },
        }
        let answer = fs.read_file(working_dir, into);
        let ghost got = answer;
        proof {
            run = run.push(FsEvent::Read { at, answer: got });
            assert(added(start, fs.log()) =~= before + run);
            lemma_cut(before, run);
        }
        let mut file_content = String::new();
        match answer {
            Ok(text) => {
                file_content = text;
            },
            Err(e) => {
                let failed: Result<(), Error> = Err(e);
                proof {
                    assert(rule_ran(*rule, wd, run, error_of(failed)));
                    assert(rules_ran(injections@, wd, i as int, (before + run).take(
                        before.len() as int,
                    )));
                }
                return failed;
            },
        }
        proof {
            assert(got == Ok::<String, Error>(file_content));
        }
        match inject(file_content.as_str(), rule) {
            Some(new_content) => {
                let ghost read = run;
                if let Mode::Nothing = &rule.mode {
                    fs.report(printer, working_dir, into, Report::NoInjection);
                    proof {
                        run = run.push(FsEvent::Reported { at, what: Report::NoInjection });
                    }
                }
                let written = fs.write_file(working_dir, into, new_content.as_str());
                proof {
                    run = run.push(
                        FsEvent::Wrote { at, content: new_content@, answer: written },
                    );
                    assert(added(start, fs.log()) =~= before + run);
                    lemma_cut(before, run);
                }
                match written {
                    Ok(_) => {},
                    Err(e) => {
                        let failed: Result<(), Error> = Err(e);
                        proof {
                            assert(run.skip(2) =~= write_back(*rule, at, file_content@, written));
                            assert(rule_ran(*rule, wd, run, error_of(failed)));
                            assert(rules_ran(injections@, wd, i as int, (before + run).take(
                                before.len() as int,
                            )));
                        }
                        return failed;
                    },
                }
                fs.report(printer, working_dir, into, Report::Injected);
                proof {
                    run = run.push(FsEvent::Reported { at, what: Report::Injected });
                    assert(added(start, fs.log()) =~= before + run);
                    lemma_cut(before, run);
                    assert(run.skip(2) =~= write_back(*rule, at, file_content@, written));
                }
            },
            None => {},
        }
        proof {
            let all = before + run;
            let c = before.len() as int;
            assert(rule_ran(*rule, wd, run, None));
            assert(rule_ran(injections@[i as int + 1 - 1], wd, all.skip(c), None));
            assert(rules_ran(injections@, wd, i as int + 1 - 1, all.take(c)));
            assert(0 <= c <= all.len());
            assert(rules_ran(injections@, wd, i as int + 1, all));
        }
        i += 1;
    }
    Ok(())
}

/// Whether the calls are exactly the run of a directive's rules, with the
/// outcome that follows: `Generated` with the directive's message where
/// every rule ran, else the failure of the rule that stopped the run.
pub open spec fn injected(
    plan: Plan,
    working_dir: Option<PathBuf>,
    calls: Seq<FsEvent>,
    outcome: Result<GenResult, Error>,
) -> bool {
    &&& injects_ran(plan.rules, working_dir, calls, error_of(outcome))
    &&& outcome is Ok ==> outcome->Ok_0 == (GenResult::Generated { message: plan.message })
}

/// Whether the calls are exactly those of a write that was held back: the
/// printer is told that the target was skipped, nothing is written, no rule
/// is run, and the outcome is `Skipped`.
pub open spec fn held_back(at: Place, calls: Seq<FsEvent>, outcome: Result<GenResult, Error>) -> bool {
    &&& calls =~= seq![FsEvent::Reported { at, what: Report::Skipped }]
    &&& outcome == Ok::<GenResult, Error>(GenResult::Skipped)
}

/// Whether the calls are exactly those of a write that went ahead, and
/// of what follows it: the printer is told that the target is overwritten
/// or added, as it was there or not, and the body is written to it. A
/// failed write ends the run with its failure; after a write that succeeded
/// the rules are run.
pub open spec fn body_written(
    plan: Plan,
    working_dir: Option<PathBuf>,
    at: Place,
    present: bool,
    body: Seq<char>,
    calls: Seq<FsEvent>,
    outcome: Result<GenResult, Error>,
) -> bool {
    &&& calls.len() >= 2
    &&& calls[0] == (FsEvent::Reported {
        at,
        what: if present {
            Report::Overwritten
        } else {
            Report::Added
        },
    })
    &&& calls[1] matches FsEvent::Wrote { at: to, content, answer }
    &&& to == at
    &&& content == body
    &&& match answer {
        Err(e) => calls.len() == 2 && outcome == Err::<GenResult, Error>(e),
        Ok(_) => injected(plan, working_dir, calls.skip(2), outcome),
    }
}

/// Whether the calls are exactly the run of one document, with its
/// outcome.
///
/// A directive without a target only runs its rules. With a target, the
/// target is asked for first. Where the directive says to skip a target
/// that exists and it is there, the write is held back. Else a glob, where
/// the directive has one, decides: it is judged first, and one that is
/// judged invalid ends the run with `InvalidGlobPattern`; then it is
/// counted, and a count that fails ends the run with that failure, a count
/// above zero holds the write back. Else the body is written.
pub open spec fn document_ran(
    plan: Plan,
    working_dir: Option<PathBuf>,
    body: Seq<char>,
    calls: Seq<FsEvent>,
    outcome: Result<GenResult, Error>,
) -> bool {
    match plan.to {
        None => injected(plan, working_dir, calls, outcome),
        Some(to) => {
            let at = place(working_dir, to@);
            &&& calls.len() >= 1
            &&& calls[0] matches FsEvent::Asked { at: asked, present }
            &&& asked == at
            &&& if plan.skip_exists && present {
                held_back(at, calls.skip(1), outcome)
            } else {
                match plan.skip_glob {
                    None => body_written(
                        plan,
                        working_dir,
                        at,
                        present,
                        body,
                        calls.skip(1),
                        outcome,
                    ),
                    Some(glob) => {
                        &&& calls.len() >= 2
                        &&& calls[1] matches FsEvent::Judged { pattern: judged, valid }
                        &&& judged == glob@
                        &&& if !valid {
                            calls.len() == 2 && outcome == Err::<GenResult, Error>(
                                Error::InvalidGlobPattern(glob),
                            )
                        } else {
                            &&& calls.len() >= 3
                            &&& calls[2] matches FsEvent::Counted { pattern, answer }
                            &&& pattern == glob@
                            &&& match answer {
                                Err(e) => calls.len() == 3 && outcome == Err::<GenResult, Error>(e),
                                Ok(n) => if n > 0 {
                                    held_back(at, calls.skip(3), outcome)
                                } else {
                                    body_written(
                                        plan,
                                        working_dir,
                                        at,
                                        present,
                                        body,
                                        calls.skip(3),
                                        outcome,
                                    )
                                },
                            }
                        }
                    },
                }
            }
        },
    }
}

/// Handles one document: writes its body where the directive names a
/// target and nothing holds the write back, then runs its injections.
///
/// The outcome is `Skipped` where the write was held back, and then the
/// injections are not run; else it is `Generated` with the directive's
/// message. A glob that is not a valid pattern is an error.
pub fn handle_frontmatter_and_body<F: FsDriver, P: Printer>(
    fs: &mut Recorded<F>,
    printer: &P,
    working_dir: &Option<PathBuf>,
    frontmatter: &FrontMatter,
    body: &str,
) -> (r: Result<GenResult, Error>)
    requires
        frontmatter.well_formed(),
    ensures
        final(fs).inner() == old(fs).inner(),
        old(fs).log().is_prefix_of(final(fs).log()),
        document_ran(
            frontmatter.plan(),
            *working_dir,
            body@,
            added(old(fs).log(), final(fs).log()),
            r,
        ),
        frontmatter.to is None && frontmatter.injections@.len() == 0 ==> r == Ok::<
            GenResult,
            Error,
        >(GenResult::Generated { message: frontmatter.message }) && final(fs).log() == old(
            fs,
        ).log(),
{
    let ghost start = fs.log();
    let ghost wd = *working_dir;
    let ghost plan = frontmatter.plan();
    let ghost mut run = Seq::<FsEvent>::empty();
    proof {
        assert(added(start, fs.log()) =~= run);
    }
    let ghost mut cut: int = 0;
    if let Some(to) = &frontmatter.to {
        let ghost at = place(wd, to@);
        let present = fs.path_exists(working_dir, to.as_str());
        proof {
            run = run.push(FsEvent::Asked { at, present });
            assert(added(start, fs.log()) =~= run);
        }
        let mut glob_matches: Option<usize> = None;
        if !(frontmatter.skip_exists && present) {
            if let Some(skip_glob) = &frontmatter.skip_glob {
                let valid = fs.glob_valid(skip_glob.as_str());
                proof {
                    run = run.push(FsEvent::Judged { pattern: skip_glob@, valid });
                    assert(added(start, fs.log()) =~= run);
                }
                if !valid {
                    return Err(Error::InvalidGlobPattern(skip_glob.clone()));
                }
                let counted = fs.count_glob(skip_glob.as_str());
                proof {
                    run = run.push(FsEvent::Counted { pattern: skip_glob@, answer: counted });
                    assert(added(start, fs.log()) =~= run);
                }
                match counted {
                    Ok(n) => {
                        glob_matches = Some(n);
                    },
                    Err(e) => {
                        let failed: Result<GenResult, Error> = Err(e);
                        return failed;
                    },
                }
            }
        }
        let ghost asked = run;
        match decide_write(frontmatter.skip_exists, present, glob_matches) {
            WriteDecision::Skipped => {
                fs.report(printer, working_dir, to.as_str(), Report::Skipped);
                proof {
                    run = run.push(FsEvent::Reported { at, what: Report::Skipped });
                    assert(added(start, fs.log()) =~= run);
                    assert(run.skip(asked.len() as int) =~= seq![
                        FsEvent::Reported { at, what: Report::Skipped },
                    ]);
                }
                return Ok(GenResult::Skipped);
            },
            WriteDecision::Written { created } => {
                if created {
                    fs.report(printer, working_dir, to.as_str(), Report::Added);
                } else {
                    fs.report(printer, working_dir, to.as_str(), Report::Overwritten);
                }
            },
        }
        let written = fs.write_file(working_dir, to.as_str(), body);
        proof {
            run = run.push(
                FsEvent::Reported {
                    at,
                    what: if present {
                        Report::Overwritten
                    } else {
                        Report::Added
                    },
                },
            ).push(FsEvent::Wrote { at, content: body@, answer: written });
            assert(added(start, fs.log()) =~= run);
            cut = asked.len() as int;
            assert(run.skip(cut).len() == 2);
            assert(run.skip(cut)[1] == (FsEvent::Wrote { at, content: body@, answer: written }));
        }
        match written {
            Ok(_) => {},
            Err(e) => {
                let failed: Result<GenResult, Error> = Err(e);
                return failed;
            },
        }
    }
    let ghost mid = fs.log();
    let injected_all = handle_injects(fs, printer, working_dir, &frontmatter.injections);
    proof {
        let rest = added(mid, fs.log());
        let all = added(start, fs.log());
        assert(all =~= run + rest);
        assert(all.skip(run.len() as int) =~= rest);
        if frontmatter.to is Some {
            assert(all.skip(cut).skip(2) =~= rest);
            assert(all.skip(cut)[0] == run.skip(cut)[0]);
            assert(all.skip(cut)[1] == run.skip(cut)[1]);
            assert forall|k: int| 0 <= k < run.len() implies all[k] == run[k] by {}
        } else {
            assert(all =~= rest);
        }
        if frontmatter.injections@.len() == 0 {
            assert(rest.len() == 0);
            assert(fs.log() =~= mid);
        }
    }
    match injected_all {
        Ok(_) => {},
        Err(e) => {
            let failed: Result<GenResult, Error> = Err(e);
            return failed;
        },
    }
    Ok(GenResult::Generated { message: copy_of(&frontmatter.message) })
}

/// Whether every rule of a decoded header is a valid one.
pub open spec fn valid_header(raw: RawFrontMatter) -> bool {
    valid_rules(raw_rules(raw), raw_rules(raw).len() as int)
}

/// Whether the calls are exactly the runs of the documents, one after the
/// other, each with its outcome and none with a failure.
pub open spec fn batch_ran(
    documents: Seq<(RawFrontMatter, String)>,
    working_dir: Option<PathBuf>,
    outcomes: Seq<GenResult>,
    calls: Seq<FsEvent>,
) -> bool
    decreases documents.len(),
{
    if documents.len() == 0 {
        outcomes.len() == 0 && calls.len() == 0
    } else {
        &&& outcomes.len() > 0
        &&& exists|c: int|
            0 <= c <= calls.len() && batch_ran(
                documents.drop_last(),
                working_dir,
                outcomes.drop_last(),
                #[trigger] calls.take(c),
            ) && document_ran(
                raw_plan(documents.last().0),
                working_dir,
                documents.last().1@,
                calls.skip(c),
                Ok(outcomes.last()),
            )
    }
}

/// Whether the summary is that of the outcomes: `Generated`, with their
/// merged message.
pub open spec fn sums_up(summary: GenResult, outcomes: Seq<GenResult>) -> bool {
    summary matches GenResult::Generated { message: Some(m) } && m@ == merged_message(outcomes)
}

/// Whether the calls are exactly a run of the batch with this result. On
/// success every document ran and the result sums up their outcomes. On
/// failure the documents before some document ran, that document failed
/// with the error, and nothing follows.
pub open spec fn batch_done(
    documents: Seq<(RawFrontMatter, String)>,
    working_dir: Option<PathBuf>,
    calls: Seq<FsEvent>,
    result: Result<GenResult, Error>,
) -> bool {
    match result {
        Ok(summary) => exists|outcomes: Seq<GenResult>| #[trigger]
            batch_ran(documents, working_dir, outcomes, calls) && sums_up(summary, outcomes),
        Err(e) => exists|k: int, c: int, outcomes: Seq<GenResult>|
            0 <= k < documents.len() && 0 <= c <= calls.len() && #[trigger] batch_ran(
                documents.take(k),
                working_dir,
                outcomes,
                calls.take(c),
            ) && document_ran(
                raw_plan(documents[k].0),
                working_dir,
                documents[k].1@,
                calls.skip(c),
                Err(e),
            ),
    }
}

/// Handles a batch of documents, each a decoded header and a body.
///
/// Every header is checked before the file system is touched, so that a
/// header that is refused stops the batch with a parse error and without a
/// single call on the driver. Then the documents are handled in order; the
/// first error stops the run, and what was written before stays written.
/// The result is the summary of the outcomes.
pub fn handle_documents<F: FsDriver, P: Printer>(
    fs: &mut Recorded<F>,
    printer: &P,
    working_dir: &Option<PathBuf>,
    documents: &Vec<(RawFrontMatter, String)>,
) -> (r: Result<GenResult, Error>)
    ensures
        documents@.len() == 0 ==> r is Ok,
        final(fs).inner() == old(fs).inner(),
        old(fs).log().is_prefix_of(final(fs).log()),
        (exists|i: int| 0 <= i < documents@.len() && !valid_header(#[trigger] documents@[i].0))
            ==> r matches Err(Error::Parse(_)),
        (exists|i: int| 0 <= i < documents@.len() && !valid_header(#[trigger] documents@[i].0))
            ==> final(fs).log() == old(fs).log(),
        (forall|i: int| 0 <= i < documents@.len() ==> valid_header(#[trigger] documents@[i].0))
            ==> batch_done(documents@, *working_dir, added(old(fs).log(), final(fs).log()), r),
{
    let ghost start = fs.log();
    let ghost wd = *working_dir;
    let mut checked: Vec<FrontMatter> = Vec::new();
    let mut i: usize = 0;
    while i < documents.len()
        invariant
            i <= documents.len(),
            fs.log() == old(fs).log(),
            fs.inner() == old(fs).inner(),
            checked@.len() == i,
            forall|k: int| 0 <= k < i ==> (#[trigger] checked@[k]).well_formed(),
            forall|k: int| 0 <= k < i ==> (#[trigger] checked@[k]).plan() == raw_plan(documents@[k].0),
            forall|k: int| 0 <= k < i ==> valid_header(#[trigger] documents@[k].0),
        decreases documents.len() - i,
    {
        match decode_front_matter(&documents[i].0) {
            Ok(fm) => {
                checked.push(fm);
            },
            Err(e) => {
                return Err(e);
            },
        }
        i += 1;
    }
    let mut results: Vec<GenResult> = Vec::new();
    let mut k: usize = 0;
    proof {
        assert(added(start, fs.log()) =~= Seq::<FsEvent>::empty());
        assert(documents@.take(0).len() == 0);
    }
    while k < documents.len()
        invariant
            k <= documents.len(),
            start == old(fs).log(),
            wd == *working_dir,
            fs.inner() == old(fs).inner(),
            start.is_prefix_of(fs.log()),
            checked@.len() == documents@.len(),
            forall|k: int| 0 <= k < checked@.len() ==> (#[trigger] checked@[k]).well_formed(),
            forall|k: int|
                0 <= k < checked@.len() ==> (#[trigger] checked@[k]).plan() == raw_plan(
                    documents@[k].0,
                ),
            forall|k: int| 0 <= k < documents@.len() ==> valid_header(#[trigger] documents@[k].0),
            batch_ran(documents@.take(k as int), wd, results@, added(start, fs.log())),
        decreases documents.len() - k,
    {
        let ghost before = added(start, fs.log());
        let ghost mid = fs.log();
        let ghost outcomes = results@;
        let handled = handle_frontmatter_and_body(
            fs,
            printer,
            working_dir,
            &checked[k],
            documents[k].1.as_str(),
        );
        proof {
            let run = added(mid, fs.log());
            assert(added(start, fs.log()) =~= before + run);
            lemma_cut(before, run);
            assert(batch_ran(documents@.take(k as int), wd, outcomes, (before + run).take(
                before.len() as int,
            )));
        }
        match handled {
            Ok(result) => {
                results.push(result);
                proof {
                    let now = documents@.take(k as int + 1);
                    let all = added(start, fs.log());
                    let c = before.len() as int;
                    assert(now.drop_last() =~= documents@.take(k as int));
                    assert(now.last() == documents@[k as int]);
                    assert(results@.drop_last() =~= outcomes);
                    assert(results@.last() == result);
                    assert(0 <= c <= all.len());
                    assert(batch_ran(now.drop_last(), wd, results@.drop_last(), all.take(c)));
                    assert(document_ran(
                        raw_plan(now.last().0),
                        wd,
                        now.last().1@,
                        all.skip(c),
                        Ok(results@.last()),
                    ));
                    assert(batch_ran(now, wd, results@, all));
                }
            },
            Err(e) => {
                let failed: Result<GenResult, Error> = Err(e);
                proof {
                    assert(batch_done(documents@, wd, added(start, fs.log()), failed));
                }
                return failed;
            },
        }
        k += 1;
    }
    proof {
        assert(documents@.take(k as int) =~= documents@);
    }
    let summary = merge_results(&results);
    proof {
        assert(sums_up(summary, results@));
    }
    Ok(summary)
}

} // verus!
