//! Source text for node definitions.
//!
//! A kind of node is described in one line, `Name - field: Type, field: Type`.
//! From such lines the source of one struct for each kind is formed, each
//! with an impl of the trait that the kinds share.

use vstd::prelude::*;
use crate::text::{chars_of, texts};

verus! {

/// White space, as the standard library's `char::is_whitespace` has it.
pub open spec fn is_space(c: char) -> bool {
    ||| c == ' '
    ||| ('\u{9}' <= c && c <= '\u{d}')
    ||| c == '\u{85}'
    ||| c == '\u{a0}'
    ||| c == '\u{1680}'
    ||| ('\u{2000}' <= c && c <= '\u{200a}')
    ||| c == '\u{2028}'
    ||| c == '\u{2029}'
    ||| c == '\u{202f}'
    ||| c == '\u{205f}'
    ||| c == '\u{3000}'
}

/// The index of the first `c` at or after `from`, or the length of the text
/// where there is none.
pub open spec fn next_at(s: Seq<char>, c: char, from: int) -> int
    decreases s.len() - from,
{
    if 0 <= from < s.len() && s[from] != c {
        next_at(s, c, from + 1)
    } else {
        from
    }
}

/// The next `c` stands at or after the start of the search, and within the
/// text.
pub proof fn lemma_next_at(s: Seq<char>, c: char, from: int)
    requires
        0 <= from <= s.len(),
    ensures
        from <= next_at(s, c, from) <= s.len(),
    decreases s.len() - from,
{
    if from < s.len() && s[from] != c {
        lemma_next_at(s, c, from + 1);
    }
}

/// The pieces of the text from `from` on that `c` separates, each as the
/// index of its first character and the index after its last. A text
/// without `c` is one piece.
pub open spec fn pieces(s: Seq<char>, c: char, from: int) -> Seq<(int, int)>
    decreases s.len() - from,
{
    let end: int = next_at(s, c, from);
    if 0 <= from <= s.len() && end < s.len() {
        proof {
            lemma_next_at(s, c, from);
        }
        seq![(from, end)] + pieces(s, c, end + 1)
    } else {
        seq![(from, s.len() as int)]
    }
}

/// The index of the first character from `from` up to `to` that is no white
/// space, or `to` where there is none.
pub open spec fn trim_start(s: Seq<char>, from: int, to: int) -> int
    decreases to - from,
{
    if from < to && 0 <= from < s.len() && is_space(s[from]) {
        trim_start(s, from + 1, to)
    } else {
        from
    }
}

/// The index after the last character from `from` up to `to` that is no
/// white space, or `from` where there is none.
pub open spec fn trim_end(s: Seq<char>, from: int, to: int) -> int
    decreases to - from,
{
    if from < to && 0 < to <= s.len() && is_space(s[to - 1]) {
        trim_end(s, from, to - 1)
    } else {
        to
    }
}

/// The characters from `from` up to `to` without the white space before and
/// after them.
pub open spec fn trimmed(s: Seq<char>, from: int, to: int) -> Seq<char> {
    let start: int = trim_start(s, from, to);
    s.subrange(start, trim_end(s, start, to))
}

/// The line that declares one field.
pub open spec fn field_line(fields: Seq<char>, piece: (int, int)) -> Seq<char> {
    "\tpub "@ + trimmed(fields, piece.0, piece.1) + ","@
}

/// The lines that declare the fields of a list that commas separate.
pub open spec fn field_lines(fields: Seq<char>) -> Seq<Seq<char>> {
    let all = pieces(fields, ',', 0);
    Seq::new(all.len(), |i: int| field_line(fields, all[i]))
}

/// The lines that define one kind of node: a struct with the fields, and the
/// impl of the trait `base_name` for it.
pub open spec fn type_lines(base_name: Seq<char>, typename: Seq<char>, fields: Seq<char>) -> Seq<
    Seq<char>,
> {
    seq!["#[derive(Debug, Clone)]"@, "pub struct "@ + typename + " {"@] + field_lines(fields)
        + seq!["}"@, "impl "@ + base_name + " for "@ + typename + " {}"@]
}

/// The description names a kind and, after a `-`, its fields.
pub open spec fn described(description: Seq<char>) -> bool {
    pieces(description, '-', 0).len() >= 2
}

/// The name of the kind that a description describes.
pub open spec fn name_of(description: Seq<char>) -> Seq<char> {
    let piece = pieces(description, '-', 0)[0];
    trimmed(description, piece.0, piece.1)
}

/// The fields of the kind that a description describes.
pub open spec fn fields_of(description: Seq<char>) -> Seq<char> {
    let piece = pieces(description, '-', 0)[1];
    trimmed(description, piece.0, piece.1)
}

/// The lines that define the kinds of the first `upto` descriptions.
pub open spec fn kinds_lines(base_name: Seq<char>, types: Seq<&str>, upto: int) -> Seq<Seq<char>>
    decreases upto,
{
    if upto <= 0 {
        Seq::empty()
    } else {
        kinds_lines(base_name, types, upto - 1) + type_lines(
            base_name,
            name_of(types[upto - 1]@),
            fields_of(types[upto - 1]@),
        )
    }
}

/// The lines of the source file: the heading with the trait, and the
/// definitions of the kinds.
pub open spec fn ast_lines(base_name: Seq<char>, types: Seq<&str>) -> Seq<Seq<char>> {
    seq![
        "// Node definitions."@,
        ""@,
        "use crate::token::Token;"@,
        "pub trait "@ + base_name + " {}"@,
        ""@,
    ] + kinds_lines(base_name, types, types.len() as int)
}

/// Whether a character is white space.
fn space(c: char) -> (r: bool)
    ensures
        r == is_space(c),
{
    c == ' ' || ('\u{9}' <= c && c <= '\u{d}') || c == '\u{85}' || c == '\u{a0}' || c == '\u{1680}'
        || ('\u{2000}' <= c && c <= '\u{200a}') || c == '\u{2028}' || c == '\u{2029}' || c
        == '\u{202f}' || c == '\u{205f}' || c == '\u{3000}'
}

/// The pieces of the characters that `c` separates.
fn split(chars: &Vec<char>, c: char) -> (r: Vec<(usize, usize)>)
    ensures
        r@.len() == pieces(chars@, c, 0).len(),
        forall|i: int|
            0 <= i < r@.len() ==> (#[trigger] r@[i]).0 == pieces(chars@, c, 0)[i].0 && r@[i].1
                == pieces(chars@, c, 0)[i].1 && r@[i].0 <= r@[i].1 <= chars@.len(),
{
    let ghost s = chars@;
    let mut found: Vec<(usize, usize)> = Vec::new();
    let ghost done: Seq<(int, int)> = Seq::empty();
    let mut from: usize = 0;
    proof {
        assert(done + pieces(s, c, 0) =~= pieces(s, c, 0));
    }
    loop
        invariant
            s == chars@,
            0 <= from <= s.len(),
            found@.len() == done.len(),
            done + pieces(s, c, from as int) == pieces(s, c, 0),
            forall|i: int|
                0 <= i < found@.len() ==> (#[trigger] found@[i]).0 == done[i].0 && found@[i].1
                    == done[i].1 && found@[i].0 <= found@[i].1 <= s.len(),
        decreases s.len() - from,
    {
        let mut end: usize = from;
        while end < chars.len() && chars[end] != c
            invariant
                s == chars@,
                from <= end <= s.len(),
                next_at(s, c, from as int) == next_at(s, c, end as int),
            decreases s.len() - end,
        {
            end += 1;
        }
        found.push((from, end));
        if end < chars.len() {
            proof {
                assert((done.push((from as int, end as int))) + pieces(s, c, end + 1) =~= done + (
                seq![(from as int, end as int)] + pieces(s, c, end + 1)));
                done = done.push((from as int, end as int));
            }
            from = end + 1;
        } else {
            proof {
                assert(done + seq![(from as int, s.len() as int)] =~= done.push(
                    (from as int, end as int),
                ));
            }
            return found;
        }
    }
}

/// The bounds of the characters from `from` up to `to` without the white
/// space before and after them.
fn trim(chars: &Vec<char>, from: usize, to: usize) -> (r: (usize, usize))
    requires
        from <= to <= chars@.len(),
    ensures
        r.0 == trim_start(chars@, from as int, to as int),
        r.1 == trim_end(chars@, r.0 as int, to as int),
        from <= r.0 <= r.1 <= to,
{
    let ghost s = chars@;
    let mut start: usize = from;
    while start < to && space(chars[start])
        invariant
            s == chars@,
            from <= start <= to <= s.len(),
            trim_start(s, from as int, to as int) == trim_start(s, start as int, to as int),
        decreases to - start,
    {
        start += 1;
    }
    let mut end: usize = to;
    while start < end && space(chars[end - 1])
        invariant
            s == chars@,
            start <= end <= to <= s.len(),
            trim_end(s, start as int, to as int) == trim_end(s, start as int, end as int),
        decreases end - start,
    {
        end -= 1;
    }
    (start, end)
}

/// The lines that define one kind of node.
pub fn define_type(base_name: &str, typename: &str, fields: &str) -> (r: Vec<String>)
    ensures
        texts(r@) == type_lines(base_name@, typename@, fields@),
{
    let chars = chars_of(fields);
    let ranges = split(&chars, ',');
    let ghost wanted = field_lines(fields@);
    let mut lines: Vec<String> = Vec::new();
    lines.push("#[derive(Debug, Clone)]".to_owned());
    let mut head: String = "pub struct ".to_owned();
    head.append(typename);
    head.append(" {");
    lines.push(head);
    let ghost opening = texts(lines@);
    proof {
        assert(opening =~= seq!["#[derive(Debug, Clone)]"@, "pub struct "@ + typename@ + " {"@]);
        assert(opening + wanted.take(0) =~= opening);
    }
    let mut i: usize = 0;
    while i < ranges.len()
        invariant
            0 <= i <= ranges@.len(),
            chars@ == fields@,
            wanted == field_lines(fields@),
            ranges@.len() == pieces(chars@, ',', 0).len(),
            forall|k: int|
                0 <= k < ranges@.len() ==> (#[trigger] ranges@[k]).0 == pieces(chars@, ',', 0)[k].0
                    && ranges@[k].1 == pieces(chars@, ',', 0)[k].1 && ranges@[k].0 <= ranges@[k].1
                    <= chars@.len(),
            texts(lines@) == opening + wanted.take(i as int),
        decreases ranges@.len() - i,
    {
        let range = ranges[i];
        let bounds = trim(&chars, range.0, range.1);
        let mut line: String = "\tpub ".to_owned();
        line.append(fields.substring_char(bounds.0, bounds.1));
        line.append(",");
        proof {
            let before = texts(lines@);
            assert(line@ == field_line(fields@, pieces(fields@, ',', 0)[i as int]));
            assert(wanted.take(i + 1) =~= wanted.take(i as int).push(line@));
            assert(texts(lines@.push(line)) =~= before.push(line@));
        }
        lines.push(line);
        i += 1;
    }
    let ghost middle = texts(lines@);
    lines.push("}".to_owned());
    let mut tail: String = "impl ".to_owned();
    tail.append(base_name);
    tail.append(" for ");
    tail.append(typename);
    tail.append(" {}");
    lines.push(tail);
    proof {
        assert(wanted.take(ranges@.len() as int) =~= wanted);
        assert(texts(lines@) =~= middle + seq![
            "}"@,
            "impl "@ + base_name@ + " for "@ + typename@ + " {}"@,
        ]);
    }
    lines
}

/// The lines of the source file that defines the kinds of node that `types`
/// describe.
pub fn define_ast(base_name: &str, types: Vec<&str>) -> (r: Vec<String>)
    requires
        forall|i: int| 0 <= i < types@.len() ==> described((#[trigger] types@[i])@),
    ensures
        texts(r@) == ast_lines(base_name@, types@),
{
    let mut lines: Vec<String> = Vec::new();
    lines.push("// Node definitions.".to_owned());
    lines.push("".to_owned());
    lines.push("use crate::token::Token;".to_owned());
    let mut heading: String = "pub trait ".to_owned();
    heading.append(base_name);
    heading.append(" {}");
    lines.push(heading);
    lines.push("".to_owned());
    let ghost opening = texts(lines@);
    proof {
        assert(opening =~= seq![
            "// Node definitions."@,
            ""@,
            "use crate::token::Token;"@,
            "pub trait "@ + base_name@ + " {}"@,
            ""@,
        ]);
        assert(opening + kinds_lines(base_name@, types@, 0) =~= opening);
    }
    let mut i: usize = 0;
    while i < types.len()
        invariant
            0 <= i <= types@.len(),
            forall|k: int| 0 <= k < types@.len() ==> described((#[trigger] types@[k])@),
            texts(lines@) == opening + kinds_lines(base_name@, types@, i as int),
        decreases types@.len() - i,
    {
        let description: &str = types[i];
        let chars = chars_of(description);
        let ranges = split(&chars, '-');
        assert(described(types@[i as int]@));
        let first = ranges[0];
        let second = ranges[1];
        let name = trim(&chars, first.0, first.1);
        let rest = trim(&chars, second.0, second.1);
        let typename = description.substring_char(name.0, name.1);
        let fields = description.substring_char(rest.0, rest.1);
        let mut block = define_type(base_name, typename, fields);
        proof {
            let before = texts(lines@);
            assert(typename@ == name_of(description@));
            assert(fields@ == fields_of(description@));
            assert(texts(lines@ + block@) =~= before + texts(block@));
            assert(opening + (kinds_lines(base_name@, types@, i as int) + texts(block@)) =~= (
            opening + kinds_lines(base_name@, types@, i as int)) + texts(block@));
        }
        lines.append(&mut block);
        i += 1;
    }
    lines
}

} // verus!
