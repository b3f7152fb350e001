//! The injection engine: one rule applied to the text of an existing file.

use vstd::prelude::*;
use crate::pattern::{
    compiles, found, gaps, is_match, pattern_compiles, pattern_found, pattern_gaps,
    pattern_matches, pattern_replaced_all, pattern_replaced_first, replace_all, replace_first,
};
use crate::text::{
    join, join_lines, lemma_join_of_split, lemma_pieces_are_single_lines,
    lemma_split_of_join, lines, pieces, single_line, single_lines, split_newline, text_lines, views,
};

verus! {

/// Which of the matching lines, and which of the matches inside a line, a
/// rule acts on.
#[derive(Debug, Clone, Copy, PartialEq, Eq, Structural)]
pub enum MatchPositions {
    All,
    First,
    Last,
}

/// The side of a match on which new text is placed.
#[derive(Debug, Clone, Copy, PartialEq, Eq, Structural)]
pub enum InsertionPoint {
    Before,
    After,
}

/// What a rule does to the text.
#[derive(Debug, Clone, PartialEq, Eq)]
pub enum Mode {
    /// No mode was given: the text stays as it is.
    Nothing,
    /// The rule's content becomes the first line.
    Prepend,
    /// The rule's content becomes the last line.
    Append,
    /// The content is placed at lines that match the pattern.
    Insert { position: InsertionPoint, select: MatchPositions, pattern: String },
    /// Lines that match the pattern are dropped.
    RemoveLines { pattern: String },
    /// The leftmost match in the whole text is replaced by the content.
    Replace { pattern: String },
    /// Every match in the whole text is replaced by the content.
    ReplaceAll { pattern: String },
}

/// One injection rule.
#[derive(Debug, Clone, PartialEq, Eq)]
pub struct Injection {
    /// The file to edit.
    pub into: String,
    /// The text to insert or substitute.
    pub content: String,
    /// Whether an insertion edits the matched line itself instead of adding
    /// a line next to it.
    pub inline: bool,
    /// A guard: where this pattern matches the file, the rule does nothing.
    pub skip_if: Option<String>,
    pub mode: Mode,
}

impl Mode {
    /// The pattern of the mode, where it has one.
    pub open spec fn pattern(self) -> Option<Seq<char>> {
        match self {
            Mode::Insert { pattern, .. } => Some(pattern@),
            Mode::RemoveLines { pattern } => Some(pattern@),
            Mode::Replace { pattern } => Some(pattern@),
            Mode::ReplaceAll { pattern } => Some(pattern@),
            _ => None,
        }
    }
}

impl Injection {
    /// Every pattern of the rule compiles.
    pub open spec fn well_formed(self) -> bool {
        &&& self.skip_if is Some ==> pattern_compiles(self.skip_if->0@)
        &&& self.mode.pattern() is Some ==> pattern_compiles(self.mode.pattern()->0)
    }

    /// Whether the rule replaces matches in the whole text, and the text
    /// holds no match.
    pub open spec fn finds_nothing_to_replace(self, text: Seq<char>) -> bool {
        match self.mode {
            Mode::Replace { pattern } => !pattern_matches(pattern@, text),
            Mode::ReplaceAll { pattern } => !pattern_matches(pattern@, text),
            _ => false,
        }
    }

    /// Whether the guard holds the rule back on this text.
    pub open spec fn guarded(self, text: Seq<char>) -> bool {
        self.skip_if is Some && pattern_matches(self.skip_if->0@, text)
    }
}

impl Injection {
    /// Whether every pattern of the rule compiles.
    pub fn is_well_formed(&self) -> (ok: bool)
        ensures
            ok == self.well_formed(),
    {
        let guard_ok = match &self.skip_if {
            Some(pattern) => compiles(pattern.as_str()),
            None => true,
        };
        let mode_ok = match &self.mode {
            Mode::Insert { pattern, .. } => compiles(pattern.as_str()),
            Mode::RemoveLines { pattern } => compiles(pattern.as_str()),
            Mode::Replace { pattern } => compiles(pattern.as_str()),
            Mode::ReplaceAll { pattern } => compiles(pattern.as_str()),
            _ => true,
        };
        guard_ok && mode_ok
    }
}

/// For each line, whether the pattern matches it.
pub open spec fn line_flags(lines: Seq<Seq<char>>, pattern: Seq<char>) -> Seq<bool> {
    Seq::new(lines.len(), |i: int| pattern_matches(pattern, lines[i]))
}

/// The indices below `n` at which the flag is set, ascending.
pub open spec fn flagged_upto(flags: Seq<bool>, n: int) -> Seq<int>
    decreases n,
{
    if n <= 0 {
        Seq::<int>::empty()
    } else {
        let before = flagged_upto(flags, n - 1);
        if flags[n - 1] {
            before.push(n - 1)
        } else {
            before
        }
    }
}

/// Of the indices at which the flag is set: the first, the last, or all of
/// them.
pub open spec fn selected(flags: Seq<bool>, select: MatchPositions) -> Seq<int> {
    let all = flagged_upto(flags, flags.len() as int);
    match select {
        MatchPositions::All => all,
        MatchPositions::First => if all.len() > 0 {
            seq![all[0]]
        } else {
            all
        },
        MatchPositions::Last => if all.len() > 0 {
            seq![all.last()]
        } else {
            all
        },
    }
}

/// The indices of the lines a rule acts on: of the lines that the pattern
/// matches the first, the last, or all of them.
pub open spec fn positions(lines: Seq<Seq<char>>, pattern: Seq<char>, select: MatchPositions) -> Seq<
    int,
> {
    selected(line_flags(lines, pattern), select)
}

/// The positions as indices.
pub open spec fn indices(at: Seq<usize>) -> Seq<int> {
    at.map_values(|p: usize| p as int)
}

/// Whether the match with index `i`, of `total` matches in a line, is one
/// that the rule edits.
pub open spec fn chosen(select: MatchPositions, i: int, total: int) -> bool {
    match select {
        MatchPositions::All => true,
        MatchPositions::First => i == 0,
        MatchPositions::Last => i == total - 1,
    }
}

/// A match with the content on the given side of it.
pub open spec fn decorated(matched: Seq<char>, content: Seq<char>, position: InsertionPoint) -> Seq<
    char,
> {
    match position {
        InsertionPoint::Before => content + matched,
        InsertionPoint::After => matched + content,
    }
}

/// The piece with index `i`, or nothing where there is no such piece.
pub open spec fn piece_at(pieces: Seq<Seq<char>>, i: int) -> Seq<char> {
    if 0 <= i < pieces.len() {
        pieces[i]
    } else {
        Seq::<char>::empty()
    }
}

/// A line put together again from the pieces around its matches and its
/// first `n` matches, the chosen ones decorated with the content.
pub open spec fn woven(
    pieces: Seq<Seq<char>>,
    matches: Seq<Seq<char>>,
    n: int,
    content: Seq<char>,
    select: MatchPositions,
    position: InsertionPoint,
) -> Seq<char>
    decreases n,
{
    if n <= 0 {
        piece_at(pieces, 0)
    } else {
        let m = if chosen(select, n - 1, matches.len() as int) {
            decorated(matches[n - 1], content, position)
        } else {
            matches[n - 1]
        };
        woven(pieces, matches, n - 1, content, select, position) + m + piece_at(pieces, n)
    }
}

/// A matched line after an inline edit. A line in which no match is found
/// stays as it is.
pub open spec fn inline_edit(
    line: Seq<char>,
    pattern: Seq<char>,
    content: Seq<char>,
    select: MatchPositions,
    position: InsertionPoint,
) -> Seq<char> {
    let matches = pattern_found(pattern, line);
    if matches.len() == 0 {
        line
    } else {
        woven(pattern_gaps(pattern, line), matches, matches.len() as int, content, select, position)
    }
}

/// The lines that the first `n` lines become when the content is added as
/// a line of its own before or after each line that is acted on.
pub open spec fn block_upto(
    lines: Seq<Seq<char>>,
    n: int,
    at: Seq<int>,
    content: Seq<char>,
    position: InsertionPoint,
) -> Seq<Seq<char>>
    decreases n,
{
    if n <= 0 {
        Seq::<Seq<char>>::empty()
    } else {
        let line = lines[n - 1];
        block_upto(lines, n - 1, at, content, position) + if !at.contains(n - 1) {
            seq![line]
        } else {
            match position {
                InsertionPoint::Before => seq![content, line],
                InsertionPoint::After => seq![line, content],
            }
        }
    }
}

/// The lines that the first `n` lines become when each line that is acted
/// on is edited in place.
pub open spec fn inline_upto(
    lines: Seq<Seq<char>>,
    n: int,
    at: Seq<int>,
    pattern: Seq<char>,
    content: Seq<char>,
    select: MatchPositions,
    position: InsertionPoint,
) -> Seq<Seq<char>>
    decreases n,
{
    if n <= 0 {
        Seq::<Seq<char>>::empty()
    } else {
        inline_upto(lines, n - 1, at, pattern, content, select, position).push(
            if at.contains(n - 1) {
                inline_edit(lines[n - 1], pattern, content, select, position)
            } else {
                lines[n - 1]
            },
        )
    }
}

/// The text with the content placed at the selected matching lines. A text
/// in which no line matches stays as it is; any other is taken apart into
/// its lines and joined again, so that a final newline is not kept.
pub open spec fn inserted(
    text: Seq<char>,
    pattern: Seq<char>,
    content: Seq<char>,
    inline: bool,
    select: MatchPositions,
    position: InsertionPoint,
) -> Seq<char> {
    let lines = text_lines(text);
    let at = positions(lines, pattern, select);
    if at.len() == 0 {
        text
    } else if inline {
        join_lines(inline_upto(lines, lines.len() as int, at, pattern, content, select, position))
    } else {
        join_lines(block_upto(lines, lines.len() as int, at, content, position))
    }
}

/// The first `n` lines without those whose flag is set. A line without a
/// flag counts as not flagged.
pub open spec fn unflagged_upto(lines: Seq<Seq<char>>, flags: Seq<bool>, n: int) -> Seq<Seq<char>>
    decreases n,
{
    if n <= 0 {
        Seq::<Seq<char>>::empty()
    } else {
        let before = unflagged_upto(lines, flags, n - 1);
        if n - 1 < flags.len() && flags[n - 1] {
            before
        } else {
            before.push(lines[n - 1])
        }
    }
}

/// The text without the lines that the pattern matches: the text is cut at
/// every newline, the pieces without a match are kept and joined again.
pub open spec fn without_matching_lines(text: Seq<char>, pattern: Seq<char>) -> Seq<char> {
    join_lines(split_newline(text).filter(|line: Seq<char>| !pattern_matches(pattern, line)))
}

/// What a rule makes of a text.
pub open spec fn applied(text: Seq<char>, rule: Injection) -> Seq<char> {
    if rule.guarded(text) {
        text
    } else {
        match rule.mode {
            Mode::Nothing => text,
            Mode::Prepend => rule.content@ + seq!['\n'] + text,
            Mode::Append => text + seq!['\n'] + rule.content@,
            Mode::Insert { position, select, pattern } => inserted(
                text,
                pattern@,
                rule.content@,
                rule.inline,
                select,
                position,
            ),
            Mode::RemoveLines { pattern } => without_matching_lines(text, pattern@),
            Mode::Replace { pattern } => pattern_replaced_first(pattern@, text, rule.content@),
            Mode::ReplaceAll { pattern } => pattern_replaced_all(pattern@, text, rule.content@),
        }
    }
}

/// For each line, whether the pattern matches it.
pub fn match_flags(lines: &Vec<String>, pattern: &str) -> (r: Vec<bool>)
    requires
        pattern_compiles(pattern@),
    ensures
        r@ == line_flags(views(lines@), pattern@),
{
    let mut flags: Vec<bool> = Vec::new();
    let mut i: usize = 0;
    while i < lines.len()
        invariant
            i <= lines.len(),
            pattern_compiles(pattern@),
            flags@.len() == i,
            forall|k: int| 0 <= k < i ==> flags@[k] == pattern_matches(pattern@, lines@[k]@),
        decreases lines.len() - i,
    {
        flags.push(is_match(pattern, lines[i].as_str()));
        i += 1;
    }
    proof {
        assert(flags@ =~= line_flags(views(lines@), pattern@));
    }
    flags
}

/// Of the indices at which the flag is set: the first, the last, or all of
/// them, ascending.
pub fn select_positions(flags: &Vec<bool>, input: MatchPositions) -> (r: Vec<usize>)
    ensures
        indices(r@) == selected(flags@, input),
{
    let mut all: Vec<usize> = Vec::new();
    let mut i: usize = 0;
    while i < flags.len()
        invariant
            i <= flags.len(),
            indices(all@) == flagged_upto(flags@, i as int),
        decreases flags.len() - i,
    {
        if flags[i] {
            let ghost before = indices(all@);
            all.push(i);
            proof {
                assert(indices(all@) =~= before.push(i as int));
            }
        }
        i += 1;
    }
    let ghost every = indices(all@);
    match input {
        MatchPositions::All => all,
        MatchPositions::First => {
            let mut r: Vec<usize> = Vec::new();
            if all.len() > 0 {
                r.push(all[0]);
                proof {
                    assert(indices(r@) =~= seq![every[0]]);
                }
            } else {
                proof {
                    assert(indices(r@) =~= every);
                }
            }
            r
        },
        MatchPositions::Last => {
            let mut r: Vec<usize> = Vec::new();
            if all.len() > 0 {
                r.push(all[all.len() - 1]);
                proof {
                    assert(indices(r@) =~= seq![every.last()]);
                }
            } else {
                proof {
                    assert(indices(r@) =~= every);
                }
            }
            r
        },
    }
}

/// The indices of the lines that a rule with this pattern and selector acts
/// on, ascending.
pub fn find_positions(lines: &Vec<String>, pattern: &str, input: MatchPositions) -> (r: Vec<usize>)
    requires
        pattern_compiles(pattern@),
    ensures
        indices(r@) == positions(views(lines@), pattern@, input),
{
    let flags = match_flags(lines, pattern);
    select_positions(&flags, input)
}

/// Whether `index` is among the positions.
pub fn holds_position(at: &Vec<usize>, index: usize) -> (b: bool)
    ensures
        b == indices(at@).contains(index as int),
{
    let ghost ints = indices(at@);
    let mut k: usize = 0;
    while k < at.len()
        invariant
            k <= at.len(),
            ints == indices(at@),
            forall|j: int| 0 <= j < k ==> ints[j] != index as int,
        decreases at.len() - k,
    {
        if at[k] == index {
            proof {
                assert(ints[k as int] == index as int);
            }
            return true;
        }
        k += 1;
    }
    false
}

/// Puts a line together again from the pieces around its matches and the
/// matches themselves, with the content before or after the chosen ones:
/// the first match, the last, or every one.
pub fn weave(
    pieces: &Vec<String>,
    matches: &Vec<String>,
    content: &str,
    select: MatchPositions,
    position: InsertionPoint,
) -> (r: String)
    ensures
        r@ == woven(
            views(pieces@),
            views(matches@),
            matches@.len() as int,
            content@,
            select,
            position,
        ),
{
    let mut out = String::new();
    if pieces.len() > 0 {
        out.append(pieces[0].as_str());
    }
    proof {
        assert(out@ =~= piece_at(views(pieces@), 0));
    }
    let total = matches.len();
    let mut i: usize = 0;
    while i < total
        invariant
            i <= total,
            total == matches.len(),
            out@ == woven(views(pieces@), views(matches@), i as int, content@, select, position),
        decreases total - i,
    {
        let ghost before = out@;
        let edit = match select {
            MatchPositions::All => true,
            MatchPositions::First => i == 0,
            MatchPositions::Last => i == total - 1,
        };
        if edit {
            match position {
                InsertionPoint::Before => {
                    out.append(content);
                    out.append(matches[i].as_str());
                },
                InsertionPoint::After => {
                    out.append(matches[i].as_str());
                    out.append(content);
                },
            }
        } else {
            out.append(matches[i].as_str());
        }
        if i + 1 < pieces.len() {
            out.append(pieces[i + 1].as_str());
        }
        proof {
            let m = if chosen(select, i as int, total as int) {
                decorated(views(matches@)[i as int], content@, position)
            } else {
                views(matches@)[i as int]
            };
            assert(out@ =~= before + m + piece_at(views(pieces@), i as int + 1));
        }
        i += 1;
    }
    out
}

/// A matched line with the content placed at its chosen matches.
pub fn edit_line(
    line: &str,
    pattern: &str,
    content: &str,
    select: MatchPositions,
    position: InsertionPoint,
) -> (r: String)
    requires
        pattern_compiles(pattern@),
    ensures
        r@ == inline_edit(line@, pattern@, content@, select, position),
{
    let matches = found(pattern, line);
    if matches.len() == 0 {
        return String::from_str(line);
    }
    let pieces = gaps(pattern, line);
    weave(&pieces, &matches, content, select, position)
}

/// The lines with the content added as a line of its own before or after
/// each line whose index is among the positions.
pub fn insert_block(
    lines: &Vec<String>,
    at: &Vec<usize>,
    content: &str,
    position: InsertionPoint,
) -> (r: Vec<String>)
    ensures
        views(r@) == block_upto(
            views(lines@),
            lines@.len() as int,
            indices(at@),
            content@,
            position,
        ),
{
    let mut new_lines: Vec<String> = Vec::new();
    let mut i: usize = 0;
    proof {
        assert(views(new_lines@) =~= Seq::<Seq<char>>::empty());
    }
    while i < lines.len()
        invariant
            i <= lines.len(),
            views(new_lines@) == block_upto(
                views(lines@),
                i as int,
                indices(at@),
                content@,
                position,
            ),
        decreases lines.len() - i,
    {
        let ghost before = views(new_lines@);
        let line = lines[i].as_str();
        if !holds_position(at, i) {
            new_lines.push(String::from_str(line));
            proof {
                assert(views(new_lines@) =~= before + seq![line@]);
            }
        } else {
            match position {
                InsertionPoint::Before => {
                    new_lines.push(String::from_str(content));
                    new_lines.push(String::from_str(line));
                    proof {
                        assert(views(new_lines@) =~= before + seq![content@, line@]);
                    }
                },
                InsertionPoint::After => {
                    new_lines.push(String::from_str(line));
                    new_lines.push(String::from_str(content));
                    proof {
                        assert(views(new_lines@) =~= before + seq![line@, content@]);
                    }
                },
            }
        }
        i += 1;
    }
    new_lines
}

/// The lines with each line whose index is among the positions edited in
/// place.
pub fn insert_inline(
    lines: &Vec<String>,
    at: &Vec<usize>,
    pattern: &str,
    content: &str,
    select: MatchPositions,
    position: InsertionPoint,
) -> (r: Vec<String>)
    requires
        pattern_compiles(pattern@),
    ensures
        views(r@) == inline_upto(
            views(lines@),
            lines@.len() as int,
            indices(at@),
            pattern@,
            content@,
            select,
            position,
        ),
{
    let mut new_lines: Vec<String> = Vec::new();
    let mut i: usize = 0;
    proof {
        assert(views(new_lines@) =~= Seq::<Seq<char>>::empty());
    }
    while i < lines.len()
        invariant
            i <= lines.len(),
            pattern_compiles(pattern@),
            views(new_lines@) == inline_upto(
                views(lines@),
                i as int,
                indices(at@),
                pattern@,
                content@,
                select,
                position,
            ),
        decreases lines.len() - i,
    {
        let ghost before = views(new_lines@);
        let line = lines[i].as_str();
        if holds_position(at, i) {
            let edited = edit_line(line, pattern, content, select, position);
            new_lines.push(edited);
            proof {
                assert(views(new_lines@) =~= before.push(
                    inline_edit(line@, pattern@, content@, select, position),
                ));
            }
        } else {
            new_lines.push(String::from_str(line));
            proof {
                assert(views(new_lines@) =~= before.push(line@));
            }
        }
        i += 1;
    }
    new_lines
}

/// Places `content` at the lines of `file_content` that match the pattern:
/// at the first, the last or all of them; inside the line or as a line of
/// its own; before or after the match.
pub fn insert_content_at_positions(
    file_content: &str,
    content: &str,
    inline: bool,
    pattern: &str,
    match_positions: MatchPositions,
    position: InsertionPoint,
) -> (r: String)
    requires
        pattern_compiles(pattern@),
    ensures
        r@ == inserted(file_content@, pattern@, content@, inline, match_positions, position),
{
    let all_lines = lines(file_content);
    let at = find_positions(&all_lines, pattern, match_positions);
    if at.len() == 0 {
        return String::from_str(file_content);
    }
    let new_lines = if inline {
        insert_inline(&all_lines, &at, pattern, content, match_positions, position)
    } else {
        insert_block(&all_lines, &at, content, position)
    };
    join(&new_lines)
}

/// The lines without those whose flag is set. A line without a flag is
/// kept.
pub fn drop_flagged(lines: &Vec<String>, flags: &Vec<bool>) -> (r: Vec<String>)
    ensures
        views(r@) == unflagged_upto(views(lines@), flags@, lines@.len() as int),
{
    let mut kept: Vec<String> = Vec::new();
    let mut i: usize = 0;
    proof {
        assert(views(kept@) =~= Seq::<Seq<char>>::empty());
    }
    while i < lines.len()
        invariant
            i <= lines.len(),
            views(kept@) == unflagged_upto(views(lines@), flags@, i as int),
        decreases lines.len() - i,
    {
        let ghost before = views(kept@);
        if !(i < flags.len() && flags[i]) {
            kept.push(String::from_str(lines[i].as_str()));
            proof {
                assert(views(kept@) =~= before.push(lines@[i as int]@));
            }
        }
        i += 1;
    }
    kept
}

/// Dropping the lines that are flagged as matching is keeping the lines
/// that do not match.
proof fn lemma_unflagged_is_filtered(lines: Seq<Seq<char>>, pattern: Seq<char>, n: int)
    requires
        0 <= n <= lines.len(),
    ensures
        unflagged_upto(lines, line_flags(lines, pattern), n) == lines.take(n).filter(
            |line: Seq<char>| !pattern_matches(pattern, line),
        ),
    decreases n,
{
    reveal(Seq::filter);
    let keep = |line: Seq<char>| !pattern_matches(pattern, line);
    if n > 0 {
        lemma_unflagged_is_filtered(lines, pattern, n - 1);
        assert(lines.take(n).drop_last() =~= lines.take(n - 1));
        assert(lines.take(n).last() == lines[n - 1]);
    } else {
        assert(lines.take(n) =~= Seq::<Seq<char>>::empty());
    }
}

/// Drops the lines that the pattern matches.
pub fn remove_matching_lines(file_content: &str, pattern: &str) -> (r: String)
    requires
        pattern_compiles(pattern@),
    ensures
        r@ == without_matching_lines(file_content@, pattern@),
{
    let all_lines = pieces(file_content);
    let flags = match_flags(&all_lines, pattern);
    let kept = drop_flagged(&all_lines, &flags);
    proof {
        lemma_unflagged_is_filtered(views(all_lines@), pattern@, all_lines@.len() as int);
        assert(views(all_lines@).take(all_lines@.len() as int) =~= views(all_lines@));
    }
    join(&kept)
}

/// Applies one rule to the text of its target file and returns the new
/// text.
///
/// A rule whose guard matches the text gives the text back. A replacing
/// rule gives the text back where its pattern has no match in it, so that
/// applying it again to a result in which nothing matches any more changes
/// nothing.
pub fn apply(file_content: &str, rule: &Injection) -> (r: String)
    requires
        rule.well_formed(),
    ensures
        r@ == applied(file_content@, *rule),
        rule.finds_nothing_to_replace(file_content@) ==> r@ == file_content@,
{
    if let Some(skip_if) = &rule.skip_if {
        if is_match(skip_if.as_str(), file_content) {
            return String::from_str(file_content);
        }
    }
    let content = rule.content.as_str();
    match &rule.mode {
        Mode::Nothing => String::from_str(file_content),
        Mode::Prepend => {
            let mut out = String::from_str(content);
            out.push('\n');
            out.append(file_content);
            proof {
                assert(out@ =~= content@ + seq!['\n'] + file_content@);
            }
            out
        },
        Mode::Append => {
            let mut out = String::from_str(file_content);
            out.push('\n');
            out.append(content);
            proof {
                assert(out@ =~= file_content@ + seq!['\n'] + content@);
            }
            out
        },
        Mode::Insert { position, select, pattern } => insert_content_at_positions(
            file_content,
            content,
            rule.inline,
            pattern.as_str(),
            *select,
            *position,
        ),
        Mode::RemoveLines { pattern } => remove_matching_lines(file_content, pattern.as_str()),
        Mode::Replace { pattern } => replace_first(pattern.as_str(), file_content, content),
        Mode::ReplaceAll { pattern } => replace_all(pattern.as_str(), file_content, content),
    }
}

/// Applies one rule to a text where every pattern of the rule compiles,
/// and gives nothing where one does not.
pub fn try_apply(file_content: &str, rule: &Injection) -> (r: Option<String>)
    ensures
        rule.well_formed() <==> r is Some,
        r is Some ==> r->0@ == applied(file_content@, *rule),
{
    if rule.is_well_formed() {
        Some(apply(file_content, rule))
    } else {
        None
    }
}

/// Filtering changes nothing where every element passes.
proof fn lemma_filter_keeps_all<A>(s: Seq<A>, keep: spec_fn(A) -> bool)
    requires
        forall|i: int| 0 <= i < s.len() ==> keep(#[trigger] s[i]),
    ensures
        s.filter(keep) == s,
    decreases s.len(),
{
    reveal(Seq::filter);
    if s.len() > 0 {
        assert forall|i: int| 0 <= i < s.drop_last().len() implies keep(
            #[trigger] s.drop_last()[i],
        ) by {
            assert(s.drop_last()[i] == s[i]);
        }
        lemma_filter_keeps_all(s.drop_last(), keep);
        assert(keep(s[s.len() - 1]));
        assert(s.drop_last().push(s.last()) =~= s);
    }
}

/// The lines that a filter keeps pass it, and hold no newline where the
/// lines it was given hold none.
proof fn lemma_filtered_lines(lines: Seq<Seq<char>>, keep: spec_fn(Seq<char>) -> bool)
    requires
        single_lines(lines),
    ensures
        single_lines(lines.filter(keep)),
        forall|k: int| 0 <= k < lines.filter(keep).len() ==> keep(#[trigger] lines.filter(keep)[k]),
    decreases lines.len(),
{
    reveal(Seq::filter);
    if lines.len() > 0 {
        let shorter = lines.drop_last();
        assert forall|k: int| 0 <= k < shorter.len() implies single_line(#[trigger] shorter[k]) by {
            assert(shorter[k] == lines[k]);
        }
        lemma_filtered_lines(shorter, keep);
        assert(single_line(lines[lines.len() - 1]));
    }
}

/// No index is found where no flag is set.
proof fn lemma_nothing_flagged(flags: Seq<bool>, n: int)
    requires
        n <= flags.len(),
        forall|i: int| 0 <= i < flags.len() ==> !flags[i],
    ensures
        flagged_upto(flags, n).len() == 0,
    decreases n,
{
    if n > 0 {
        lemma_nothing_flagged(flags, n - 1);
    }
}

/// An insertion leaves a text in which no line matches as it is.
pub proof fn lemma_insert_without_match(text: Seq<char>, rule: Injection)
    requires
        rule.mode is Insert,
        forall|i: int|
            0 <= i < text_lines(text).len() ==> !pattern_matches(
                rule.mode.pattern()->0,
                #[trigger] text_lines(text)[i],
            ),
    ensures
        applied(text, rule) == text,
{
    let flags = line_flags(text_lines(text), rule.mode.pattern()->0);
    lemma_nothing_flagged(flags, flags.len() as int);
}

/// Removing lines leaves a text in which no line matches as it is.
pub proof fn lemma_remove_lines_without_match(text: Seq<char>, rule: Injection)
    requires
        rule.mode is RemoveLines,
        forall|i: int|
            0 <= i < split_newline(text).len() ==> !pattern_matches(
                rule.mode.pattern()->0,
                #[trigger] split_newline(text)[i],
            ),
    ensures
        applied(text, rule) == text,
{
    let pattern = rule.mode.pattern()->0;
    let keep = |line: Seq<char>| !pattern_matches(pattern, line);
    lemma_filter_keeps_all(split_newline(text), keep);
    lemma_join_of_split(text);
}

/// A rule whose guard matches the text gives the text back as it is,
/// whatever its other fields hold.
pub proof fn lemma_guard_keeps_text(text: Seq<char>, rule: Injection)
    requires
        rule.guarded(text),
    ensures
        applied(text, rule) == text,
{
}

/// Prepending and then appending puts the first rule's content in front of
/// the text as a line and the second rule's content behind it as a line,
/// with the text unchanged in between. Stated for rules whose guards do not
/// hold them back.
pub proof fn lemma_prepend_then_append(text: Seq<char>, first: Injection, second: Injection)
    requires
        first.mode is Prepend,
        second.mode is Append,
        !first.guarded(text),
        !second.guarded(applied(text, first)),
    ensures
        applied(applied(text, first), second) == first.content@ + seq!['\n'] + text + seq!['\n']
            + second.content@,
{
}

/// Removing the matching lines a second time changes nothing more.
pub proof fn lemma_remove_lines_idempotent(text: Seq<char>, rule: Injection)
    requires
        rule.mode is RemoveLines,
    ensures
        applied(applied(text, rule), rule) == applied(text, rule),
{
    let once = applied(text, rule);
    if !rule.guarded(text) && !rule.guarded(once) {
        let pattern = rule.mode->RemoveLines_pattern@;
        let keep = |line: Seq<char>| !pattern_matches(pattern, line);
        let kept = split_newline(text).filter(keep);
        assert(once == join_lines(kept));
        lemma_pieces_are_single_lines(text);
        lemma_filtered_lines(split_newline(text), keep);
        if kept.len() > 0 {
            lemma_split_of_join(kept);
            lemma_filter_keeps_all(kept, keep);
        } else {
            reveal_with_fuel(Seq::filter, 2);
            assert(once =~= Seq::<char>::empty());
            let again = split_newline(once);
            assert(again =~= seq![Seq::<char>::empty()]);
            assert(again.drop_last() =~= Seq::<Seq<char>>::empty());
            assert(join_lines(again.filter(keep)) =~= Seq::<char>::empty());
        }
    }
}

} // verus!
