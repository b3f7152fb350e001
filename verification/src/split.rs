//! The document splitter: rendered text in, pairs of header and body out.

use vstd::prelude::*;
use crate::outcome::Error;
use crate::text::{chars_of, views};

verus! {

/// Whether `s` ends with the separator: three dashes and a newline.
pub open spec fn ends_with_separator(s: Seq<char>) -> bool {
    &&& s.len() >= 4
    &&& s[s.len() - 4] == '-'
    &&& s[s.len() - 3] == '-'
    &&& s[s.len() - 2] == '-'
    &&& s[s.len() - 1] == '\n'
}

/// Whether the separator stands in `s` at index `k`.
pub open spec fn separator_at(s: Seq<char>, k: int) -> bool {
    0 <= k && k + 4 <= s.len() && ends_with_separator(s.take(k + 4))
}

/// The text with every carriage return that stands directly before a
/// newline taken out.
pub open spec fn normalized(s: Seq<char>) -> Seq<char>
    decreases s.len(),
{
    if s.len() == 0 {
        s
    } else if s.len() >= 2 && s[s.len() - 2] == '\r' && s.last() == '\n' {
        normalized(s.take(s.len() - 2)).push('\n')
    } else {
        normalized(s.drop_last()).push(s.last())
    }
}

/// The pieces of `s` between its separators. Two separators never overlap,
/// so the pieces are the same from whichever end one starts; there is
/// always at least one piece.
pub open spec fn split_separator(s: Seq<char>) -> Seq<Seq<char>>
    decreases s.len(),
{
    if s.len() == 0 {
        seq![Seq::<char>::empty()]
    } else if ends_with_separator(s) {
        split_separator(s.take(s.len() - 4)).push(Seq::<char>::empty())
    } else {
        let before = split_separator(s.drop_last());
        before.drop_last().push(before.last().push(s.last()))
    }
}

/// Whether nothing is left of the piece once newlines and tabs are gone.
pub open spec fn blank(piece: Seq<char>) -> bool {
    forall|i: int| 0 <= i < piece.len() ==> piece[i] == '\n' || piece[i] == '\t'
}

/// The pieces that are paired up: the two pieces of a text with one
/// separator as they are; of any other text, the pieces that are not blank.
pub open spec fn paired_pieces(input: Seq<char>) -> Seq<Seq<char>> {
    let pieces = split_separator(normalized(input));
    if pieces.len() == 2 {
        pieces
    } else {
        pieces.filter(|p: Seq<char>| !blank(p))
    }
}

/// The documents of a rendered text, each a header and a body; `None`
/// where the pieces do not pair up.
pub open spec fn documents(input: Seq<char>) -> Option<Seq<(Seq<char>, Seq<char>)>> {
    let pieces = paired_pieces(input);
    if pieces.len() % 2 == 0 {
        Some(Seq::new(pieces.len() / 2, |k: int| (pieces[2 * k], pieces[2 * k + 1])))
    } else {
        None
    }
}

/// The views of a sequence of pairs of strings, one for one.
pub open spec fn pair_views(v: Seq<(String, String)>) -> Seq<(Seq<char>, Seq<char>)> {
    Seq::new(v.len(), |i: int| (v[i].0@, v[i].1@))
}

/// Every text has at least one piece.
pub proof fn lemma_split_separator_nonempty(s: Seq<char>)
    ensures
        split_separator(s).len() >= 1,
    decreases s.len(),
{
    if s.len() == 0 {
    } else if ends_with_separator(s) {
        lemma_split_separator_nonempty(s.take(s.len() - 4));
    } else {
        lemma_split_separator_nonempty(s.drop_last());
    }
}

/// The characters of the text, line endings normalized to a newline.
pub fn normalize(input: &str) -> (r: Vec<char>)
    ensures
        r@ == normalized(input@),
{
    let chars = chars_of(input);
    let mut out: Vec<char> = Vec::new();
    let mut i: usize = 0;
    proof {
        assert(chars@.take(0) =~= Seq::<char>::empty());
    }
    while i < chars.len()
        invariant
            i <= chars.len(),
            chars@ == input@,
            out@ == normalized(chars@.take(i as int)),
            0 < i < chars.len() && chars@[i as int] == '\n' ==> chars@[i - 1] != '\r',
        decreases chars.len() - i,
    {
        if chars[i] == '\r' && i + 1 < chars.len() && chars[i + 1] == '\n' {
            proof {
                let t = chars@.take(i as int + 2);
                assert(t.take(t.len() - 2) =~= chars@.take(i as int));
            }
            out.push('\n');
            i += 2;
        } else {
            proof {
                let t = chars@.take(i as int + 1);
                assert(t.drop_last() =~= chars@.take(i as int));
            }
            out.push(chars[i]);
            i += 1;
        }
    }
    proof {
        assert(chars@.take(i as int) =~= chars@);
    }
    out
}

/// The pieces of the text between its separators.
pub fn split_parts(text: &Vec<char>) -> (r: Vec<String>)
    ensures
        views(r@) == split_separator(text@),
{
    let mut done: Vec<String> = Vec::new();
    let mut cur = String::new();
    let mut i: usize = 0;
    proof {
        assert(text@.take(0) =~= Seq::<char>::empty());
        assert(views(done@).push(cur@) =~= split_separator(text@.take(0)));
    }
    while i < text.len()
        invariant
            i <= text.len(),
            views(done@).push(cur@) == split_separator(text@.take(i as int)),
            forall|k: int| i - 3 <= k < i ==> !separator_at(text@, k),
        decreases text.len() - i,
    {
        let ghost before = views(done@).push(cur@);
        if text.len() - i >= 4 && text[i] == '-' && text[i + 1] == '-' && text[i + 2] == '-' && text[i
            + 3] == '\n' {
            proof {
                let t = text@.take(i as int + 4);
                assert(ends_with_separator(t));
                assert(t.take(t.len() - 4) =~= text@.take(i as int));
                assert forall|k: int| i + 1 <= k < i + 4 implies !separator_at(text@, k) by {
                    if separator_at(text@, k) {
                        let u = text@.take(k + 4);
                        assert(u[u.len() - 4] == text@[k]);
                        assert(u[u.len() - 3] == text@[k + 1]);
                        assert(u[u.len() - 2] == text@[k + 2]);
                    }
                }
            }
            done.push(cur);
            cur = String::new();
            proof {
                assert(views(done@) =~= before);
            }
            i += 4;
        } else {
            let c = text[i];
            proof {
                let t = text@.take(i as int + 1);
                assert(t.drop_last() =~= text@.take(i as int));
                if ends_with_separator(t) {
                    assert(separator_at(text@, i - 3));
                }
                assert(!separator_at(text@, i as int)) by {
                    if separator_at(text@, i as int) {
                        let u = text@.take(i as int + 4);
                        assert(u[u.len() - 4] == text@[i as int]);
                        assert(u[u.len() - 3] == text@[i + 1]);
                        assert(u[u.len() - 2] == text@[i + 2]);
                        assert(u[u.len() - 1] == text@[i + 3]);
                    }
                }
                lemma_split_separator_nonempty(t.drop_last());
            }
            cur.push(c);
            proof {
                assert(before.drop_last() =~= views(done@));
                assert(views(done@).push(cur@) =~= before.drop_last().push(before.last().push(c)));
            }
            i += 1;
        }
    }
    proof {
        assert(text@.take(i as int) =~= text@);
    }
    let ghost before = views(done@).push(cur@);
    done.push(cur);
    proof {
        assert(views(done@) =~= before);
    }
    done
}

/// Whether the piece holds nothing but newlines and tabs.
pub fn is_blank(part: &str) -> (b: bool)
    ensures
        b == blank(part@),
{
    let chars = chars_of(part);
    let mut i: usize = 0;
    while i < chars.len()
        invariant
            i <= chars.len(),
            chars@ == part@,
            forall|k: int| 0 <= k < i ==> chars@[k] == '\n' || chars@[k] == '\t',
        decreases chars.len() - i,
    {
        if chars[i] != '\n' && chars[i] != '\t' {
            return false;
        }
        i += 1;
    }
    true
}

/// The pieces of a rendered text that are paired up into documents: the
/// two pieces of a text with one separator as they are; of any other text,
/// the pieces that are not blank.
pub fn paired_parts(input: &str) -> (r: Vec<String>)
    ensures
        views(r@) == paired_pieces(input@),
{
    let text = normalize(input);
    let mut parts = split_parts(&text);
    if parts.len() != 2 {
        let mut kept: Vec<String> = Vec::new();
        let ghost keep = |p: Seq<char>| !blank(p);
        let mut i: usize = 0;
        proof {
            reveal(Seq::filter);
            assert(views(parts@).take(0) =~= Seq::<Seq<char>>::empty());
            assert(views(kept@) =~= views(parts@).take(0).filter(keep));
        }
        while i < parts.len()
            invariant
                i <= parts.len(),
                keep == |p: Seq<char>| !blank(p),
                views(kept@) == views(parts@).take(i as int).filter(keep),
            decreases parts.len() - i,
        {
            let ghost before = views(kept@);
            let part = parts[i].as_str();
            proof {
                reveal(Seq::filter);
                let t = views(parts@).take(i as int + 1);
                assert(t.drop_last() =~= views(parts@).take(i as int));
                assert(t.last() == part@);
            }
            if !is_blank(part) {
                kept.push(String::from_str(part));
                proof {
                    assert(views(kept@) =~= before.push(part@));
                }
            }
            i += 1;
        }
        proof {
            assert(views(parts@).take(i as int) =~= views(parts@));
        }
        parts = kept;
    }
    parts
}

/// Splits rendered text into its documents, each a pair of header text and
/// body text.
///
/// Line endings are normalized, the text is cut at every separator (three
/// dashes and a newline), and the pieces are paired up. A text with exactly
/// one separator is one document, whatever its pieces hold. In any other
/// text the blank pieces are dropped first; an odd number of pieces left is
/// an error.
pub fn parse_template(input: &str) -> (r: Result<Vec<(String, String)>, Error>)
    ensures
        match documents(input@) {
            Some(docs) => r is Ok && pair_views(r->Ok_0@) == docs,
            None => r matches Err(Error::Parse(why)) && why@
                == "cannot split document into pair(s) of frontmatter and body"@,
        },
{
    let parts = paired_parts(input);
    assert(views(parts@) == paired_pieces(input@));
    if parts.len() % 2 != 0 {
        return Err(
            Error::Parse(
                String::from_str("cannot split document into pair(s) of frontmatter and body"),
            ),
        );
    }
    let mut docs: Vec<(String, String)> = Vec::new();
    let mut k: usize = 0;
    while k < parts.len() / 2
        invariant
            k <= parts.len() / 2,
            parts.len() % 2 == 0,
            docs.len() == k,
            forall|j: int|
                0 <= j < k ==> docs@[j].0@ == parts@[2 * j]@ && docs@[j].1@ == parts@[2 * j + 1]@,
        decreases parts.len() / 2 - k,
    {
        let header = String::from_str(parts[2 * k].as_str());
        let body = String::from_str(parts[2 * k + 1].as_str());
        docs.push((header, body));
        k += 1;
    }
    proof {
        assert(pair_views(docs@) =~= documents(input@)->0);
    }
    Ok(docs)
}

/// The separator: three dashes and a newline.
pub open spec fn separator() -> Seq<char> {
    seq!['-', '-', '-', '\n']
}

/// A text without a separator is one piece.
proof fn lemma_split_whole(s: Seq<char>)
    requires
        forall|k: int| !separator_at(s, k),
    ensures
        split_separator(s) == seq![s],
    decreases s.len(),
{
    if s.len() == 0 {
        assert(s =~= Seq::<char>::empty());
    } else {
        if ends_with_separator(s) {
            assert(s.take(s.len() - 4 + 4) =~= s);
            assert(separator_at(s, s.len() - 4));
        }
        let shorter = s.drop_last();
        assert forall|k: int| !separator_at(shorter, k) by {
            if separator_at(shorter, k) {
                assert(shorter.take(k + 4) =~= s.take(k + 4));
                assert(separator_at(s, k));
            }
        }
        lemma_split_whole(shorter);
        let before = split_separator(shorter);
        assert(before.last().push(s.last()) =~= s);
        assert(before.drop_last().push(s) =~= seq![s]);
    }
}

/// A header, one separator and a body split into the header and the body.
proof fn lemma_split_pair(header: Seq<char>, body: Seq<char>)
    requires
        forall|k: int| separator_at(header + separator() + body, k) ==> k == header.len(),
    ensures
        split_separator(header + separator() + body) == seq![header, body],
    decreases body.len(),
{
    let s = header + separator() + body;
    if body.len() == 0 {
        assert(ends_with_separator(s));
        assert(s.take(s.len() - 4) =~= header);
        assert forall|k: int| !separator_at(header, k) by {
            if separator_at(header, k) {
                assert(header.take(k + 4) =~= s.take(k + 4));
                assert(separator_at(s, k));
            }
        }
        lemma_split_whole(header);
        assert(body =~= Seq::<char>::empty());
        assert(seq![header].push(body) =~= seq![header, body]);
    } else {
        if ends_with_separator(s) {
            assert(s.take(s.len() - 4 + 4) =~= s);
            assert(separator_at(s, s.len() - 4));
        }
        let shorter = header + separator() + body.drop_last();
        assert(s.drop_last() =~= shorter);
        assert forall|k: int| separator_at(shorter, k) implies k == header.len() by {
            assert(shorter.take(k + 4) =~= s.take(k + 4));
            assert(separator_at(s, k));
        }
        lemma_split_pair(header, body.drop_last());
        let before = split_separator(shorter);
        assert(before.drop_last() =~= seq![header]);
        assert(before.last().push(s.last()) =~= body);
        assert(seq![header].push(body) =~= seq![header, body]);
    }
}

/// A text that, once its line endings are normalized, is a header, one
/// separator and a body, with no other separator anywhere, is exactly one
/// document: that header with that body.
pub proof fn lemma_single_document(input: Seq<char>, header: Seq<char>, body: Seq<char>)
    requires
        normalized(input) == header + separator() + body,
        forall|k: int| separator_at(normalized(input), k) ==> k == header.len(),
    ensures
        documents(input) == Some(seq![(header, body)]),
{
    lemma_split_pair(header, body);
    let pieces = paired_pieces(input);
    assert(pieces == seq![header, body]);
    assert(Seq::new(pieces.len() / 2, |k: int| (pieces[2 * k], pieces[2 * k + 1])) =~= seq![
        (header, body),
    ]);
}

} // verus!
