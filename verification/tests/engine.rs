use rrgen::directive::{FrontMatter, RawFrontMatter, RawInjection};
use rrgen::engine::{
    decide_write, handle_documents, handle_frontmatter_and_body, handle_injects, inject,
    require_target, FsDriver, Printer, WriteDecision,
};
use rrgen::inject::{Injection, Mode};
use rrgen::journal::{Recorded, Report};
use rrgen::outcome::{Error, GenResult};
use std::cell::RefCell;
use std::collections::BTreeMap;
use std::path::{Path, PathBuf};

struct MemoryFs {
    files: RefCell<BTreeMap<String, String>>,
    writes: RefCell<Vec<String>>,
    glob_matches: usize,
}

impl MemoryFs {
    fn with(files: &[(&str, &str)]) -> MemoryFs {
        let mut map = BTreeMap::new();
        for (path, content) in files {
            map.insert(path.to_string(), content.to_string());
        }
        MemoryFs { files: RefCell::new(map), writes: RefCell::new(Vec::new()), glob_matches: 0 }
    }

    fn content(&self, path: &str) -> Option<String> {
        self.files.borrow().get(path).cloned()
    }
}

impl FsDriver for MemoryFs {
    fn write_file(&self, path: &Path, content: &str) -> Result<(), Error> {
        self.files.borrow_mut().insert(path.display().to_string(), content.to_string());
        self.writes.borrow_mut().push(path.display().to_string());
        Ok(())
    }

    fn read_file(&self, path: &Path) -> Result<String, Error> {
        match self.files.borrow().get(&path.display().to_string()) {
            Some(content) => Ok(content.clone()),
            None => Err(Error::Io(format!("cannot read {}", path.display()))),
        }
    }

    fn path_exists(&self, path: &Path) -> bool {
        self.files.borrow().contains_key(&path.display().to_string())
    }

    fn count_glob(&self, _pattern: &str) -> Result<usize, Error> {
        Ok(self.glob_matches)
    }
}

struct BrokenFs;

impl FsDriver for BrokenFs {
    fn write_file(&self, path: &Path, _content: &str) -> Result<(), Error> {
        Err(Error::Io(format!("cannot write {}", path.display())))
    }

    fn read_file(&self, path: &Path) -> Result<String, Error> {
        Err(Error::Io(format!("cannot read {}", path.display())))
    }

    fn path_exists(&self, _path: &Path) -> bool {
        true
    }

    fn count_glob(&self, pattern: &str) -> Result<usize, Error> {
        Err(Error::Io(format!("cannot list {}", pattern)))
    }
}

struct Recorder {
    events: RefCell<Vec<String>>,
}

impl Recorder {
    fn new() -> Recorder {
        Recorder { events: RefCell::new(Vec::new()) }
    }

    fn events(&self) -> Vec<String> {
        self.events.borrow().clone()
    }
}

impl Printer for Recorder {
    fn overwrite_file(&self, file_to: &Path) {
        self.events.borrow_mut().push(format!("overwritten: {}", file_to.display()));
    }

    fn skip_exists(&self, file_to: &Path) {
        self.events.borrow_mut().push(format!("skipped: {}", file_to.display()));
    }

    fn add_file(&self, file_to: &Path) {
        self.events.borrow_mut().push(format!("added: {}", file_to.display()));
    }

    fn injected(&self, file_to: &Path) {
        self.events.borrow_mut().push(format!("injected: {}", file_to.display()));
    }

    fn no_injection(&self, file_to: &Path) {
        self.events.borrow_mut().push(format!("no injection: {}", file_to.display()));
    }
}

fn rule(into: &str, content: &str, mode: Mode) -> Injection {
    Injection {
        into: into.to_string(),
        content: content.to_string(),
        inline: false,
        skip_if: None,
        mode,
    }
}

fn directive(to: Option<&str>, skip_exists: bool, injections: Vec<Injection>) -> FrontMatter {
    FrontMatter {
        to: to.map(|t| t.to_string()),
        skip_exists,
        skip_glob: None,
        message: Some("made it".to_string()),
        injections,
    }
}

fn raw_rule(into: &str, content: &str) -> RawInjection {
    RawInjection {
        into: into.to_string(),
        content: content.to_string(),
        inline: false,
        skip_if: None,
        before: None,
        before_all: None,
        before_last: None,
        after: None,
        after_all: None,
        after_last: None,
        remove_lines: None,
        replace: None,
        replace_all: None,
        prepend: false,
        append: false,
    }
}

#[test]
fn write_decision_table() {
    assert_eq!(decide_write(true, true, None), WriteDecision::Skipped);
    assert_eq!(decide_write(true, true, Some(0)), WriteDecision::Skipped);
    assert_eq!(decide_write(true, false, None), WriteDecision::Written { created: true });
    assert_eq!(decide_write(false, true, None), WriteDecision::Written { created: false });
    assert_eq!(decide_write(false, false, Some(0)), WriteDecision::Written { created: true });
    assert_eq!(decide_write(false, false, Some(3)), WriteDecision::Skipped);
    assert_eq!(decide_write(false, true, Some(1)), WriteDecision::Skipped);
    assert_eq!(decide_write(true, false, Some(2)), WriteDecision::Skipped);
}

#[test]
fn missing_target_is_named_in_the_error() {
    let r = rule("src/missing.rs", "x", Mode::Append);
    assert_eq!(require_target(&r, true), Ok(()));
    assert_eq!(
        require_target(&r, false),
        Err(Error::MissingInjectionTarget("src/missing.rs".to_string()))
    );
}

#[test]
fn inject_gives_nothing_where_the_guard_matches() {
    let mut r = rule("f", "line", Mode::Append);
    r.skip_if = Some("line".to_string());
    assert_eq!(inject("a line", &r), None);
    assert_eq!(inject("text", &r), Some("text\nline".to_string()));
}

#[test]
fn skip_exists_on_an_existing_path_writes_nothing() {
    let mut fs = Recorded::new(MemoryFs::with(&[("out.txt", "old")]));
    let printer = Recorder::new();
    let r = handle_frontmatter_and_body(
        &mut fs,
        &printer,
        &None,
        &directive(Some("out.txt"), true, Vec::new()),
        "new",
    );
    assert_eq!(r, Ok(GenResult::Skipped));
    assert_eq!(fs.driver().content("out.txt"), Some("old".to_string()));
    assert!(fs.driver().writes.borrow().is_empty());
    assert_eq!(printer.events(), vec!["skipped: out.txt".to_string()]);
}

#[test]
fn skip_exists_on_a_new_path_writes_the_body() {
    let mut fs = Recorded::new(MemoryFs::with(&[]));
    let printer = Recorder::new();
    let r = handle_frontmatter_and_body(
        &mut fs,
        &printer,
        &None,
        &directive(Some("out.txt"), true, Vec::new()),
        "new",
    );
    assert_eq!(r, Ok(GenResult::Generated { message: Some("made it".to_string()) }));
    assert_eq!(fs.driver().content("out.txt"), Some("new".to_string()));
    assert_eq!(printer.events(), vec!["added: out.txt".to_string()]);
}

#[test]
fn existing_path_is_overwritten_without_skip_exists() {
    let mut fs = Recorded::new(MemoryFs::with(&[("out.txt", "old")]));
    let printer = Recorder::new();
    let r = handle_frontmatter_and_body(
        &mut fs,
        &printer,
        &None,
        &directive(Some("out.txt"), false, Vec::new()),
        "new",
    );
    assert_eq!(r, Ok(GenResult::Generated { message: Some("made it".to_string()) }));
    assert_eq!(fs.driver().content("out.txt"), Some("new".to_string()));
    assert_eq!(printer.events(), vec!["overwritten: out.txt".to_string()]);
}

#[test]
fn glob_that_matches_skips_the_write() {
    let mut inner = MemoryFs::with(&[]);
    inner.glob_matches = 2;
    let mut fs = Recorded::new(inner);
    let printer = Recorder::new();
    let mut d = directive(Some("out.txt"), false, vec![rule("other.txt", "x", Mode::Append)]);
    d.skip_glob = Some("migrations/*.sql".to_string());
    let r = handle_frontmatter_and_body(&mut fs, &printer, &None, &d, "new");
    assert_eq!(r, Ok(GenResult::Skipped));
    assert_eq!(fs.driver().content("out.txt"), None);
    assert!(fs.driver().writes.borrow().is_empty());
}

#[test]
fn glob_that_matches_nothing_lets_the_write_through() {
    let mut fs = Recorded::new(MemoryFs::with(&[]));
    let printer = Recorder::new();
    let mut d = directive(Some("out.txt"), false, Vec::new());
    d.skip_glob = Some("migrations/*.sql".to_string());
    let r = handle_frontmatter_and_body(&mut fs, &printer, &None, &d, "new");
    assert_eq!(r, Ok(GenResult::Generated { message: Some("made it".to_string()) }));
    assert_eq!(fs.driver().content("out.txt"), Some("new".to_string()));
}

#[test]
fn invalid_glob_is_an_error_and_writes_nothing() {
    let mut fs = Recorded::new(MemoryFs::with(&[]));
    let printer = Recorder::new();
    let mut d = directive(Some("out.txt"), false, Vec::new());
    d.skip_glob = Some("a/[".to_string());
    let r = handle_frontmatter_and_body(&mut fs, &printer, &None, &d, "new");
    assert_eq!(r, Err(Error::InvalidGlobPattern("a/[".to_string())));
    assert!(fs.driver().writes.borrow().is_empty());
}

#[test]
fn directive_without_target_or_rules_only_reports_its_message() {
    let mut fs = Recorded::new(MemoryFs::with(&[]));
    let printer = Recorder::new();
    let r = handle_frontmatter_and_body(&mut fs, &printer, &None, &directive(None, true, Vec::new()), "b");
    assert_eq!(r, Ok(GenResult::Generated { message: Some("made it".to_string()) }));
    assert!(fs.driver().writes.borrow().is_empty());
    assert!(printer.events().is_empty());
}

#[test]
fn prepend_then_append_on_the_same_file() {
    let mut fs = Recorded::new(MemoryFs::with(&[("notes.txt", "one\ntwo")]));
    let printer = Recorder::new();
    let rules = vec![
        rule("notes.txt", "top", Mode::Prepend),
        rule("notes.txt", "bottom", Mode::Append),
    ];
    assert_eq!(handle_injects(&mut fs, &printer, &None, &rules), Ok(()));
    assert_eq!(fs.driver().content("notes.txt"), Some("top\none\ntwo\nbottom".to_string()));
    assert_eq!(
        printer.events(),
        vec!["injected: notes.txt".to_string(), "injected: notes.txt".to_string()]
    );
}

#[test]
fn injecting_into_a_missing_file_fails_and_creates_nothing() {
    let mut fs = Recorded::new(MemoryFs::with(&[("there.txt", "text")]));
    let printer = Recorder::new();
    let rules = vec![
        rule("there.txt", "first", Mode::Append),
        rule("missing.txt", "x", Mode::Append),
        rule("there.txt", "never", Mode::Append),
    ];
    let r = handle_injects(&mut fs, &printer, &None, &rules);
    assert_eq!(r, Err(Error::MissingInjectionTarget("missing.txt".to_string())));
    assert_eq!(fs.driver().content("missing.txt"), None);
    assert_eq!(fs.driver().content("there.txt"), Some("text\nfirst".to_string()));
    assert_eq!(*fs.driver().writes.borrow(), vec!["there.txt".to_string()]);
}

#[test]
fn guarded_rule_writes_nothing() {
    let mut fs = Recorded::new(MemoryFs::with(&[("notes.txt", "has marker")]));
    let printer = Recorder::new();
    let mut r = rule("notes.txt", "marker", Mode::Append);
    r.skip_if = Some("marker".to_string());
    assert_eq!(handle_injects(&mut fs, &printer, &None, &vec![r]), Ok(()));
    assert_eq!(fs.driver().content("notes.txt"), Some("has marker".to_string()));
    assert!(fs.driver().writes.borrow().is_empty());
    assert!(printer.events().is_empty());
}

#[test]
fn rule_without_a_mode_warns_and_keeps_the_text() {
    let mut fs = Recorded::new(MemoryFs::with(&[("notes.txt", "text\n")]));
    let printer = Recorder::new();
    let rules = vec![rule("notes.txt", "unused", Mode::Nothing)];
    assert_eq!(handle_injects(&mut fs, &printer, &None, &rules), Ok(()));
    assert_eq!(fs.driver().content("notes.txt"), Some("text\n".to_string()));
    assert_eq!(
        printer.events(),
        vec!["no injection: notes.txt".to_string(), "injected: notes.txt".to_string()]
    );
}

#[test]
fn working_directory_is_put_before_every_path() {
    let mut fs = Recorded::new(MemoryFs::with(&[("work/notes.txt", "text")]));
    let printer = Recorder::new();
    let d = directive(Some("out.txt"), false, vec![rule("notes.txt", "more", Mode::Append)]);
    let r = handle_frontmatter_and_body(&mut fs, &printer, &Some(PathBuf::from("work")), &d, "body");
    assert_eq!(r, Ok(GenResult::Generated { message: Some("made it".to_string()) }));
    assert_eq!(fs.driver().content("work/out.txt"), Some("body".to_string()));
    assert_eq!(fs.driver().content("work/notes.txt"), Some("text\nmore".to_string()));
    assert_eq!(fs.driver().content("out.txt"), None);
}

#[test]
fn batch_runs_in_order_and_merges_messages() {
    let mut fs = Recorded::new(MemoryFs::with(&[("keep.txt", "kept")]));
    let printer = Recorder::new();
    let mut append = raw_rule("a.txt", "appended");
    append.append = true;
    let docs = vec![
        (
            RawFrontMatter {
                to: Some("a.txt".to_string()),
                skip_exists: false,
                skip_glob: None,
                message: Some("wrote a".to_string()),
                injections: None,
            },
            "body a".to_string(),
        ),
        (
            RawFrontMatter {
                to: Some("keep.txt".to_string()),
                skip_exists: true,
                skip_glob: None,
                message: Some("never shown".to_string()),
                injections: None,
            },
            "other".to_string(),
        ),
        (
            RawFrontMatter {
                to: None,
                skip_exists: false,
                skip_glob: None,
                message: Some("injected a".to_string()),
                injections: Some(vec![append]),
            },
            "".to_string(),
        ),
    ];
    let r = handle_documents(&mut fs, &printer, &None, &docs);
    assert_eq!(r, Ok(GenResult::Generated { message: Some("wrote a\ninjected a".to_string()) }));
    assert_eq!(fs.driver().content("a.txt"), Some("body a\nappended".to_string()));
    assert_eq!(fs.driver().content("keep.txt"), Some("kept".to_string()));
}

#[test]
fn refused_header_stops_the_batch_before_any_write() {
    let mut fs = Recorded::new(MemoryFs::with(&[]));
    let printer = Recorder::new();
    let mut both = raw_rule("a.txt", "x");
    both.prepend = true;
    both.append = true;
    let docs = vec![
        (
            RawFrontMatter {
                to: Some("a.txt".to_string()),
                skip_exists: false,
                skip_glob: None,
                message: None,
                injections: None,
            },
            "body a".to_string(),
        ),
        (
            RawFrontMatter {
                to: None,
                skip_exists: false,
                skip_glob: None,
                message: None,
                injections: Some(vec![both]),
            },
            "".to_string(),
        ),
    ];
    assert!(matches!(handle_documents(&mut fs, &printer, &None, &docs), Err(Error::Parse(_))));
    assert!(fs.driver().writes.borrow().is_empty());
}

#[test]
fn empty_batch_is_generated_with_an_empty_message() {
    let mut fs = Recorded::new(MemoryFs::with(&[]));
    let printer = Recorder::new();
    assert_eq!(
        handle_documents(&mut fs, &printer, &None, &Vec::new()),
        Ok(GenResult::Generated { message: Some("".to_string()) })
    );
}

#[test]
fn file_system_errors_stop_the_run() {
    let printer = Recorder::new();
    let rules = vec![rule("notes.txt", "x", Mode::Append)];
    assert_eq!(
        handle_injects(&mut Recorded::new(BrokenFs), &printer, &None, &rules),
        Err(Error::Io("cannot read notes.txt".to_string()))
    );
    let d = directive(Some("out.txt"), false, rules.clone());
    assert_eq!(
        handle_frontmatter_and_body(&mut Recorded::new(BrokenFs), &printer, &None, &d, "body"),
        Err(Error::Io("cannot write out.txt".to_string()))
    );
    let mut with_glob = directive(Some("out.txt"), false, Vec::new());
    with_glob.skip_glob = Some("*.txt".to_string());
    assert_eq!(
        handle_frontmatter_and_body(&mut Recorded::new(BrokenFs), &printer, &None, &with_glob, "body"),
        Err(Error::Io("cannot list *.txt".to_string()))
    );
    let skipped = directive(Some("out.txt"), true, Vec::new());
    assert_eq!(
        handle_frontmatter_and_body(&mut Recorded::new(BrokenFs), &printer, &None, &skipped, "body"),
        Ok(GenResult::Skipped)
    );
}

#[test]
fn recorded_driver_hands_every_call_on() {
    let mut fs = Recorded::new(MemoryFs::with(&[("a.txt", "text"), ("work/c.txt", "deep")]));
    let printer = Recorder::new();
    let work = Some(PathBuf::from("work"));
    assert!(fs.path_exists(&None, "a.txt"));
    assert!(!fs.path_exists(&None, "b.txt"));
    assert!(fs.path_exists(&work, "c.txt"));
    assert_eq!(fs.read_file(&None, "a.txt"), Ok("text".to_string()));
    assert_eq!(fs.read_file(&work, "c.txt"), Ok("deep".to_string()));
    assert_eq!(fs.read_file(&None, "b.txt"), Err(Error::Io("cannot read b.txt".to_string())));
    assert_eq!(fs.write_file(&None, "b.txt", "new"), Ok(()));
    assert_eq!(fs.write_file(&work, "d.txt", "newer"), Ok(()));
    assert_eq!(fs.count_glob("*.txt"), Ok(0));
    assert!(fs.glob_valid("src/**/*.rs"));
    assert!(!fs.glob_valid("a/["));
    fs.report(&printer, &None, "b.txt", Report::Added);
    fs.report(&printer, &work, "d.txt", Report::Overwritten);
    fs.report(&printer, &None, "a.txt", Report::Skipped);
    fs.report(&printer, &None, "a.txt", Report::Injected);
    fs.report(&printer, &None, "a.txt", Report::NoInjection);
    assert_eq!(fs.driver().content("b.txt"), Some("new".to_string()));
    assert_eq!(fs.driver().content("work/d.txt"), Some("newer".to_string()));
    assert_eq!(
        *fs.driver().writes.borrow(),
        vec!["b.txt".to_string(), "work/d.txt".to_string()]
    );
    assert_eq!(
        printer.events(),
        vec![
            "added: b.txt".to_string(),
            "overwritten: work/d.txt".to_string(),
            "skipped: a.txt".to_string(),
            "injected: a.txt".to_string(),
            "no injection: a.txt".to_string(),
        ]
    );
}
