//! Text as sequences of characters: its pieces between newlines, its
//! lines, and the way back.

use vstd::prelude::*;
use vstd::std_specs::iter::IteratorSpec;

verus! {

/// `String::push` appends one character to the end of the string.
pub assume_specification[ String::push ](s: &mut String, ch: char)
    ensures
        final(s)@ == old(s)@.push(ch),
;

/// The views of a sequence of strings, one for one.
pub open spec fn views(v: Seq<String>) -> Seq<Seq<char>> {
    Seq::new(v.len(), |i: int| v[i]@)
}

/// The pieces of `s` between its newline characters. There is always at
/// least one piece; a text with `n` newlines has `n + 1` pieces.
pub open spec fn split_newline(s: Seq<char>) -> Seq<Seq<char>>
    decreases s.len(),
{
    if s.len() == 0 {
        seq![Seq::<char>::empty()]
    } else {
        let before = split_newline(s.drop_last());
        if s.last() == '\n' {
            before.push(Seq::<char>::empty())
        } else {
            before.drop_last().push(before.last().push(s.last()))
        }
    }
}

/// The line without the carriage return at its end, if it has one there.
pub open spec fn without_return(line: Seq<char>) -> Seq<char> {
    if line.len() > 0 && line.last() == '\r' {
        line.drop_last()
    } else {
        line
    }
}

/// The lines of `s`. A line ends at a newline, or at a carriage return
/// directly followed by a newline; neither belongs to the line. What stands
/// after the last newline is a line too, as it is, unless it is empty.
pub open spec fn text_lines(s: Seq<char>) -> Seq<Seq<char>> {
    let pieces = split_newline(s);
    let ended = pieces.drop_last().map_values(|piece: Seq<char>| without_return(piece));
    if pieces.last().len() == 0 {
        ended
    } else {
        ended.push(pieces.last())
    }
}

/// The lines joined by single newline characters.
pub open spec fn join_lines(lines: Seq<Seq<char>>) -> Seq<char>
    decreases lines.len(),
{
    if lines.len() == 0 {
        Seq::<char>::empty()
    } else if lines.len() == 1 {
        lines[0]
    } else {
        join_lines(lines.drop_last()) + seq!['\n'] + lines.last()
    }
}

/// Every text has at least one piece.
pub proof fn lemma_split_newline_nonempty(s: Seq<char>)
    ensures
        split_newline(s).len() >= 1,
    decreases s.len(),
{
    if s.len() > 0 {
        lemma_split_newline_nonempty(s.drop_last());
    }
}

/// Whether the text holds no newline.
pub open spec fn single_line(line: Seq<char>) -> bool {
    forall|i: int| 0 <= i < line.len() ==> line[i] != '\n'
}

/// Whether none of the lines holds a newline.
pub open spec fn single_lines(lines: Seq<Seq<char>>) -> bool {
    forall|k: int| 0 <= k < lines.len() ==> single_line(#[trigger] lines[k])
}

/// A text without a newline is one piece.
pub proof fn lemma_split_single_line(s: Seq<char>)
    requires
        single_line(s),
    ensures
        split_newline(s) == seq![s],
    decreases s.len(),
{
    if s.len() == 0 {
        assert(s =~= Seq::<char>::empty());
    } else {
        lemma_split_single_line(s.drop_last());
        let before = split_newline(s.drop_last());
        assert(before.last().push(s.last()) =~= s);
        assert(before.drop_last().push(s) =~= seq![s]);
    }
}

/// A newline and a line after a text add that line to its pieces.
pub proof fn lemma_split_appended_line(a: Seq<char>, b: Seq<char>)
    requires
        single_line(b),
    ensures
        split_newline(a + seq!['\n'] + b) == split_newline(a).push(b),
    decreases b.len(),
{
    let s = a + seq!['\n'] + b;
    if b.len() == 0 {
        assert(s.drop_last() =~= a);
        assert(b =~= Seq::<char>::empty());
    } else {
        let shorter = b.drop_last();
        assert(s.drop_last() =~= a + seq!['\n'] + shorter);
        assert(s.last() == b.last());
        lemma_split_appended_line(a, shorter);
        let before = split_newline(s.drop_last());
        assert(before.drop_last() =~= split_newline(a));
        assert(before.last().push(s.last()) =~= b);
    }
}

/// The pieces of joined lines are the lines again, where there is at least
/// one line and none of them holds a newline.
pub proof fn lemma_split_of_join(lines: Seq<Seq<char>>)
    requires
        lines.len() >= 1,
        single_lines(lines),
    ensures
        split_newline(join_lines(lines)) == lines,
    decreases lines.len(),
{
    if lines.len() == 1 {
        lemma_split_single_line(lines[0]);
        assert(seq![lines[0]] =~= lines);
    } else {
        let shorter = lines.drop_last();
        assert(single_lines(shorter)) by {
            assert forall|k: int| 0 <= k < shorter.len() implies single_line(
                #[trigger] shorter[k],
            ) by {
                assert(shorter[k] == lines[k]);
            }
        }
        lemma_split_of_join(shorter);
        assert(single_line(lines.last()));
        lemma_split_appended_line(join_lines(shorter), lines.last());
        assert(shorter.push(lines.last()) =~= lines);
    }
}

/// No piece between newlines holds a newline.
pub proof fn lemma_pieces_are_single_lines(s: Seq<char>)
    ensures
        single_lines(split_newline(s)),
    decreases s.len(),
{
    if s.len() > 0 {
        lemma_pieces_are_single_lines(s.drop_last());
        lemma_split_newline_nonempty(s.drop_last());
        let before = split_newline(s.drop_last());
        assert(single_line(before.last()));
        let after = split_newline(s);
        assert forall|k: int| 0 <= k < after.len() implies single_line(#[trigger] after[k]) by {
            if k < before.len() - 1 {
                assert(after[k] == before[k]);
            } else if k < before.len() && s.last() == '\n' {
                assert(after[k] == before[k]);
            }
        }
    }
}

/// Cutting a text at its newlines and joining the pieces gives the text
/// back.
pub proof fn lemma_join_of_split(s: Seq<char>)
    ensures
        join_lines(split_newline(s)) == s,
    decreases s.len(),
{
    if s.len() == 0 {
        assert(join_lines(split_newline(s)) =~= s);
    } else {
        let shorter = s.drop_last();
        let before = split_newline(shorter);
        lemma_join_of_split(shorter);
        lemma_split_newline_nonempty(shorter);
        let after = split_newline(s);
        if s.last() == '\n' {
            assert(after.drop_last() =~= before);
            assert(join_lines(after) =~= shorter.push('\n'));
        } else if before.len() == 1 {
            assert(join_lines(after) =~= before[0].push(s.last()));
        } else {
            assert(after.drop_last() =~= before.drop_last());
            assert(join_lines(after) =~= join_lines(before).push(s.last()));
        }
        assert(shorter.push(s.last()) =~= s);
    }
}

/// The characters of a string, in order.
pub fn chars_of(s: &str) -> (v: Vec<char>)
    ensures
        v@ == s@,
{
    broadcast use vstd::string::axiom_spec_iter;
    let mut v: Vec<char> = Vec::new();
    for c in it: s.chars()
        invariant
            it.seq() == s@,
            v@ == it.seq().take(it.index() as int),
    {
        v.push(c);
    }
    v
}

/// The pieces of a text between its newline characters.
pub fn pieces(content: &str) -> (r: Vec<String>)
    ensures
        views(r@) == split_newline(content@),
{
    let chars = chars_of(content);
    let mut done: Vec<String> = Vec::new();
    let mut cur = String::new();
    let mut i: usize = 0;
    proof {
        assert(content@.take(0) =~= Seq::<char>::empty());
        assert(views(done@).push(cur@) =~= split_newline(content@.take(0)));
    }
    while i < chars.len()
        invariant
            i <= chars.len(),
            chars@ == content@,
            views(done@).push(cur@) == split_newline(content@.take(i as int)),
        decreases chars.len() - i,
    {
        let c = chars[i];
        proof {
            let t = content@.take(i as int + 1);
            assert(t.drop_last() =~= content@.take(i as int));
            assert(t.last() == c);
            lemma_split_newline_nonempty(t.drop_last());
        }
        if c == '\n' {
            let ghost before = views(done@).push(cur@);
            done.push(cur);
            cur = String::new();
            proof {
                assert(views(done@) =~= before);
            }
        } else {
            let ghost before = views(done@).push(cur@);
            cur.push(c);
            proof {
                assert(before.drop_last() =~= views(done@));
                assert(views(done@).push(cur@) =~= before.drop_last().push(before.last().push(c)));
            }
        }
        i += 1;
    }
    proof {
        assert(content@.take(i as int) =~= content@);
    }
    let ghost before = views(done@).push(cur@);
    done.push(cur);
    proof {
        assert(views(done@) =~= before);
    }
    done
}

/// The line without the carriage return at its end, if it has one there.
pub fn strip_return(line: &str) -> (r: String)
    ensures
        r@ == without_return(line@),
{
    let n = line.unicode_len();
    if n > 0 && line.get_char(n - 1) == '\r' {
        proof {
            assert(line@.subrange(0, n - 1) =~= line@.drop_last());
        }
        String::from_str(line.substring_char(0, n - 1))
    } else {
        String::from_str(line)
    }
}

/// The lines of a text. A line ends at a newline, or at a carriage return
/// directly followed by a newline. What stands after the last newline is a
/// line too, unless it is empty.
pub fn lines(content: &str) -> (r: Vec<String>)
    ensures
        views(r@) == text_lines(content@),
{
    let all = pieces(content);
    proof {
        lemma_split_newline_nonempty(content@);
    }
    let ghost ended = views(all@).drop_last().map_values(
        |piece: Seq<char>| without_return(piece),
    );
    let mut out: Vec<String> = Vec::new();
    let last = all.len() - 1;
    let mut i: usize = 0;
    while i < last
        invariant
            i <= last,
            last == all.len() - 1,
            views(out@) =~= ended.take(i as int),
            ended == views(all@).drop_last().map_values(
                |piece: Seq<char>| without_return(piece),
            ),
        decreases last - i,
    {
        let ghost before = views(out@);
        let line = strip_return(all[i].as_str());
        out.push(line);
        proof {
            assert(views(out@) =~= before.push(ended[i as int]));
            assert(ended.take(i as int + 1) =~= ended.take(i as int).push(ended[i as int]));
        }
        i += 1;
    }
    proof {
        assert(ended.take(last as int) =~= ended);
    }
    if all[last].as_str().unicode_len() != 0 {
        let ghost before = views(out@);
        out.push(String::from_str(all[last].as_str()));
        proof {
            assert(views(out@) =~= before.push(views(all@).last()));
        }
    }
    out
}

/// The lines joined by single newline characters.
pub fn join(parts: &Vec<String>) -> (r: String)
    ensures
        r@ == join_lines(views(parts@)),
{
    let mut out = String::new();
    let mut i: usize = 0;
    proof {
        assert(views(parts@).take(0) =~= Seq::<Seq<char>>::empty());
    }
    while i < parts.len()
        invariant
            i <= parts.len(),
            out@ == join_lines(views(parts@).take(i as int)),
        decreases parts.len() - i,
    {
        proof {
            let t = views(parts@).take(i as int + 1);
            assert(t.drop_last() =~= views(parts@).take(i as int));
            assert(t.last() == parts@[i as int]@);
            if i == 0 {
                assert(out@ =~= Seq::<char>::empty());
            }
        }
        if i > 0 {
            out.push('\n');
        }
        out.append(parts[i].as_str());
        proof {
            let t = views(parts@).take(i as int + 1);
            if i == 0 {
                assert(out@ =~= t[0]);
            } else {
                assert(out@ =~= join_lines(t.drop_last()) + seq!['\n'] + t.last());
            }
        }
        i += 1;
    }
    proof {
        assert(views(parts@).take(i as int) =~= views(parts@));
    }
    out
}

} // verus!
