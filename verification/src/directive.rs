//! Directives: the header of a document as it was decoded, and the checked
//! form that the engine works on.

use vstd::prelude::*;
use crate::inject::{Injection, InsertionPoint, MatchPositions, Mode};
use crate::outcome::Error;

verus! {

/// One injection rule as the header gives it: every mode is a field of its
/// own, and nothing says yet that at most one of them is set.
#[derive(Debug, Clone, PartialEq, Eq)]
pub struct RawInjection {
    pub into: String,
    pub content: String,
    pub inline: bool,
    pub skip_if: Option<String>,
    pub before: Option<String>,
    pub before_all: Option<String>,
    pub before_last: Option<String>,
    pub after: Option<String>,
    pub after_all: Option<String>,
    pub after_last: Option<String>,
    pub remove_lines: Option<String>,
    pub replace: Option<String>,
    pub replace_all: Option<String>,
    pub prepend: bool,
    pub append: bool,
}

/// The header of a document as it was decoded.
#[derive(Debug, Clone, PartialEq, Eq)]
pub struct RawFrontMatter {
    pub to: Option<String>,
    pub skip_exists: bool,
    pub skip_glob: Option<String>,
    pub message: Option<String>,
    pub injections: Option<Vec<RawInjection>>,
}

/// A checked directive: where the body goes, when the write is skipped,
/// and the injection rules to run, in order.
#[derive(Debug, Clone, PartialEq, Eq)]
pub struct FrontMatter {
    pub to: Option<String>,
    pub skip_exists: bool,
    pub skip_glob: Option<String>,
    pub message: Option<String>,
    pub injections: Vec<Injection>,
}

/// `modes` with `mode` added where the flag is set.
pub open spec fn with_flag(modes: Seq<Mode>, set: bool, mode: Mode) -> Seq<Mode> {
    if set {
        modes.push(mode)
    } else {
        modes
    }
}

/// `modes` with an insertion added where its pattern is given.
pub open spec fn with_insert(
    modes: Seq<Mode>,
    pattern: Option<String>,
    position: InsertionPoint,
    select: MatchPositions,
) -> Seq<Mode> {
    match pattern {
        Some(pattern) => modes.push(Mode::Insert { position, select, pattern }),
        None => modes,
    }
}

/// Every mode that the rule sets.
pub open spec fn modes_set(raw: RawInjection) -> Seq<Mode> {
    let m = with_flag(Seq::<Mode>::empty(), raw.prepend, Mode::Prepend);
    let m = with_flag(m, raw.append, Mode::Append);
    let m = with_insert(m, raw.before, InsertionPoint::Before, MatchPositions::First);
    let m = with_insert(m, raw.before_last, InsertionPoint::Before, MatchPositions::Last);
    let m = with_insert(m, raw.before_all, InsertionPoint::Before, MatchPositions::All);
    let m = with_insert(m, raw.after, InsertionPoint::After, MatchPositions::First);
    let m = with_insert(m, raw.after_last, InsertionPoint::After, MatchPositions::Last);
    let m = with_insert(m, raw.after_all, InsertionPoint::After, MatchPositions::All);
    let m = match raw.remove_lines {
        Some(pattern) => m.push(Mode::RemoveLines { pattern }),
        None => m,
    };
    let m = match raw.replace {
        Some(pattern) => m.push(Mode::Replace { pattern }),
        None => m,
    };
    match raw.replace_all {
        Some(pattern) => m.push(Mode::ReplaceAll { pattern }),
        None => m,
    }
}

/// The rule that a raw rule stands for, before its patterns are looked at:
/// the one mode it sets, or no mode.
pub open spec fn rule_of(raw: RawInjection) -> Injection {
    let modes = modes_set(raw);
    Injection {
        into: raw.into,
        content: raw.content,
        inline: raw.inline,
        skip_if: raw.skip_if,
        mode: if modes.len() == 1 {
            modes[0]
        } else {
            Mode::Nothing
        },
    }
}

/// Whether a raw rule is a valid one: it sets at most one mode, and every
/// pattern it gives compiles.
pub open spec fn valid_rule(raw: RawInjection) -> bool {
    modes_set(raw).len() <= 1 && rule_of(raw).well_formed()
}

/// Whether the first `n` raw rules are valid.
pub open spec fn valid_rules(raws: Seq<RawInjection>, n: int) -> bool {
    forall|i: int| 0 <= i < n ==> valid_rule(#[trigger] raws[i])
}

/// The raw rules of a header; none where the header has no list.
pub open spec fn raw_rules(raw: RawFrontMatter) -> Seq<RawInjection> {
    match raw.injections {
        Some(rules) => rules@,
        None => Seq::<RawInjection>::empty(),
    }
}

/// What a directive asks for, as plain values.
pub struct Plan {
    pub to: Option<String>,
    pub skip_exists: bool,
    pub skip_glob: Option<String>,
    pub message: Option<String>,
    pub rules: Seq<Injection>,
}

/// What a decoded header asks for, each raw rule read as the rule it
/// stands for.
pub open spec fn raw_plan(raw: RawFrontMatter) -> Plan {
    Plan {
        to: raw.to,
        skip_exists: raw.skip_exists,
        skip_glob: raw.skip_glob,
        message: raw.message,
        rules: raw_rules(raw).map_values(|rule: RawInjection| rule_of(rule)),
    }
}

impl FrontMatter {
    /// What the directive asks for.
    pub open spec fn plan(self) -> Plan {
        Plan {
            to: self.to,
            skip_exists: self.skip_exists,
            skip_glob: self.skip_glob,
            message: self.message,
            rules: self.injections@,
        }
    }

    /// Every rule of the directive is well formed.
    pub open spec fn well_formed(self) -> bool {
        forall|i: int| 0 <= i < self.injections@.len() ==> (#[trigger] self.injections@[i]).well_formed()
    }
}

pub(crate) fn copy_of(text: &Option<String>) -> (r: Option<String>)
    ensures
        r == *text,
{
    match text {
        Some(t) => Some(t.clone()),
        None => None,
    }
}

fn push_flag(modes: &mut Vec<Mode>, set: bool, mode: Mode)
    ensures
        final(modes)@ == with_flag(old(modes)@, set, mode),
{
    if set {
        modes.push(mode);
    }
}

fn push_insert(
    modes: &mut Vec<Mode>,
    pattern: &Option<String>,
    position: InsertionPoint,
    select: MatchPositions,
)
    ensures
        final(modes)@ == with_insert(old(modes)@, *pattern, position, select),
{
    match pattern {
        Some(pattern) => modes.push(Mode::Insert { position, select, pattern: pattern.clone() }),
        None => {},
    }
}

/// The one mode that a raw rule sets; no mode where it sets none. A rule
/// that sets more than one is refused.
pub fn single_mode(raw: &RawInjection) -> (r: Result<Mode, Error>)
    ensures
        modes_set(*raw).len() <= 1 ==> r == Ok::<Mode, Error>(rule_of(*raw).mode),
        modes_set(*raw).len() > 1 ==> (r matches Err(Error::Parse(why)) && why@
            == "an injection sets more than one mode"@),
{
    let mut modes: Vec<Mode> = Vec::new();
    push_flag(&mut modes, raw.prepend, Mode::Prepend);
    push_flag(&mut modes, raw.append, Mode::Append);
    push_insert(&mut modes, &raw.before, InsertionPoint::Before, MatchPositions::First);
    push_insert(&mut modes, &raw.before_last, InsertionPoint::Before, MatchPositions::Last);
    push_insert(&mut modes, &raw.before_all, InsertionPoint::Before, MatchPositions::All);
    push_insert(&mut modes, &raw.after, InsertionPoint::After, MatchPositions::First);
    push_insert(&mut modes, &raw.after_last, InsertionPoint::After, MatchPositions::Last);
    push_insert(&mut modes, &raw.after_all, InsertionPoint::After, MatchPositions::All);
    match &raw.remove_lines {
        Some(pattern) => modes.push(Mode::RemoveLines { pattern: pattern.clone() }),
        None => {},
    }
    match &raw.replace {
        Some(pattern) => modes.push(Mode::Replace { pattern: pattern.clone() }),
        None => {},
    }
    match &raw.replace_all {
        Some(pattern) => modes.push(Mode::ReplaceAll { pattern: pattern.clone() }),
        None => {},
    }
    assert(modes@ == modes_set(*raw));
    if modes.len() > 1 {
        return Err(Error::Parse(String::from_str("an injection sets more than one mode")));
    }
    match modes.pop() {
        Some(mode) => Ok(mode),
        None => Ok(Mode::Nothing),
    }
}

/// Checks one raw rule and gives the rule it stands for.
///
/// A rule that sets more than one mode is refused, and so is one with a
/// pattern that does not compile. A rule that sets no mode is accepted: it
/// changes nothing.
pub fn decode_injection(raw: &RawInjection) -> (r: Result<Injection, Error>)
    ensures
        valid_rule(*raw) ==> r == Ok::<Injection, Error>(rule_of(*raw)),
        modes_set(*raw).len() > 1 ==> (r matches Err(Error::Parse(why)) && why@
            == "an injection sets more than one mode"@),
        modes_set(*raw).len() <= 1 && !rule_of(*raw).well_formed() ==> (r matches Err(
            Error::Parse(why),
        ) && why@ == "an injection holds an invalid regex"@),
{
    let mode = match single_mode(raw) {
        Ok(mode) => mode,
        Err(e) => {
            return Err(e);
        },
    };
    let rule = Injection {
        into: raw.into.clone(),
        content: raw.content.clone(),
        inline: raw.inline,
        skip_if: copy_of(&raw.skip_if),
        mode,
    };
    if !rule.is_well_formed() {
        return Err(Error::Parse(String::from_str("an injection holds an invalid regex")));
    }
    Ok(rule)
}

/// Checks a decoded header and gives the directive it stands for: the
/// same fields, each rule checked as `decode_injection` does. The first
/// rule that is refused refuses the header.
pub fn decode_front_matter(raw: &RawFrontMatter) -> (r: Result<FrontMatter, Error>)
    ensures
        valid_rules(raw_rules(*raw), raw_rules(*raw).len() as int) ==> r is Ok && ({
            let fm = r->Ok_0;
            &&& fm.to == raw.to
            &&& fm.skip_exists == raw.skip_exists
            &&& fm.skip_glob == raw.skip_glob
            &&& fm.message == raw.message
            &&& fm.injections@ == raw_rules(*raw).map_values(|rule: RawInjection| rule_of(rule))
            &&& fm.plan() == raw_plan(*raw)
            &&& fm.well_formed()
        }),
        !valid_rules(raw_rules(*raw), raw_rules(*raw).len() as int) ==> r matches Err(
            Error::Parse(_),
        ),
{
    let mut injections: Vec<Injection> = Vec::new();
    match &raw.injections {
        Some(rules) => {
            let mut i: usize = 0;
            while i < rules.len()
                invariant
                    i <= rules.len(),
                    rules@ == raw_rules(*raw),
                    valid_rules(rules@, i as int),
                    injections@ == rules@.take(i as int).map_values(
                        |rule: RawInjection| rule_of(rule),
                    ),
                decreases rules.len() - i,
            {
                let ghost before = injections@;
                match decode_injection(&rules[i]) {
                    Ok(rule) => {
                        injections.push(rule);
                    },
                    Err(e) => {
                        proof {
                            assert(!valid_rule(rules@[i as int]));
                        }
                        return Err(e);
                    },
                }
                proof {
                    assert(injections@ =~= rules@.take(i as int + 1).map_values(
                        |rule: RawInjection| rule_of(rule),
                    ));
                }
                i += 1;
            }
            proof {
                assert(rules@.take(i as int) =~= rules@);
            }
        },
        None => {
            proof {
                assert(injections@ =~= raw_rules(*raw).map_values(
                    |rule: RawInjection| rule_of(rule),
                ));
            }
        },
    }
    proof {
        assert forall|i: int| 0 <= i < injections@.len() implies (
        #[trigger] injections@[i]).well_formed() by {
            assert(valid_rule(raw_rules(*raw)[i]));
        }
    }
    Ok(
        FrontMatter {
            to: copy_of(&raw.to),
            skip_exists: raw.skip_exists,
            skip_glob: copy_of(&raw.skip_glob),
            message: copy_of(&raw.message),
            injections,
        },
    )
}

} // verus!
