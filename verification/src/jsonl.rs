//! Files of records, one on each line.

use vstd::prelude::*;

use crate::text::{chars_of, text_of, texts};

verus! {

/// Whether a character is white space, as Unicode has it.
pub open spec fn is_space(c: char) -> bool {
    ||| '\u{9}' <= c <= '\u{d}'
    ||| c == ' '
    ||| c == '\u{85}'
    ||| c == '\u{a0}'
    ||| c == '\u{1680}'
    ||| '\u{2000}' <= c <= '\u{200a}'
    ||| c == '\u{2028}'
    ||| c == '\u{2029}'
    ||| c == '\u{202f}'
    ||| c == '\u{205f}'
    ||| c == '\u{3000}'
}

/// Whether a character is white space.
pub fn is_white_space(c: char) -> (r: bool)
    ensures
        r == is_space(c),
{
    ('\u{9}' <= c && c <= '\u{d}') || c == ' ' || c == '\u{85}' || c == '\u{a0}' || c == '\u{1680}'
        || ('\u{2000}' <= c && c <= '\u{200a}') || c == '\u{2028}' || c == '\u{2029}' || c
        == '\u{202f}' || c == '\u{205f}' || c == '\u{3000}'
}

/// Whether a line holds nothing but white space.
pub open spec fn is_blank(line: Seq<char>) -> bool {
    forall|i: int| 0 <= i < line.len() ==> is_space(#[trigger] line[i])
}

/// A line without the carriage return at its end.
pub open spec fn without_return(line: Seq<char>) -> Seq<char> {
    if line.len() > 0 && line.last() == '\r' {
        line.drop_last()
    } else {
        line
    }
}

/// The lines with more than white space that have come to their end, and what stands after
/// the last end of a line.
pub open spec fn split_lines(text: Seq<char>) -> (Seq<Seq<char>>, Seq<char>)
    decreases text.len(),
{
    if text.len() == 0 {
        (Seq::empty(), Seq::empty())
    } else {
        let (lines, rest) = split_lines(text.drop_last());
        if text.last() == '\n' {
            (with_line(lines, without_return(rest)), Seq::empty())
        } else {
            (lines, rest.push(text.last()))
        }
    }
}

/// The lines with one more, unless it is blank.
pub open spec fn with_line(lines: Seq<Seq<char>>, line: Seq<char>) -> Seq<Seq<char>> {
    if is_blank(line) {
        lines
    } else {
        lines.push(line)
    }
}

/// The records of a file: its lines, without those that are blank.
pub open spec fn records(text: Seq<char>) -> Seq<Seq<char>> {
    let (lines, rest) = split_lines(text);
    with_line(lines, rest)
}

/// Whether a line holds nothing but white space.
fn line_is_blank(v: &Vec<char>, from: usize, to: usize) -> (r: bool)
    requires
        from <= to <= v@.len(),
    ensures
        r == is_blank(v@.subrange(from as int, to as int)),
{
    let ghost line = v@.subrange(from as int, to as int);
    let mut i: usize = from;
    while i < to
        invariant
            from <= i <= to <= v@.len(),
            line == v@.subrange(from as int, to as int),
            forall|j: int| 0 <= j < i - from ==> is_space(#[trigger] line[j]),
        decreases to - i,
    {
        if !is_white_space(v[i]) {
            assert(line[i - from] == v@[i as int]);
            return false;
        }
        i += 1;
    }
    true
}

/// Reads the records of a file.
pub fn read_records(text: &str) -> (r: Vec<String>)
    ensures
        texts(r@) == records(text@),
{
    let v = chars_of(text);
    let mut r: Vec<String> = Vec::new();
    let mut start: usize = 0;
    let mut i: usize = 0;
    assert(texts(r@) =~= Seq::<Seq<char>>::empty());
    assert(v@.take(0) =~= Seq::<char>::empty());
    assert(v@.subrange(0, 0) =~= Seq::<char>::empty());
    while i < v.len()
        invariant
            v@ == text@,
            start <= i <= v@.len(),
            split_lines(v@.take(i as int)) == (texts(r@), v@.subrange(start as int, i as int)),
        decreases v@.len() - i,
    {
        let ghost before = texts(r@);
        let ghost rest = v@.subrange(start as int, i as int);
        proof {
            assert(v@.take(i + 1).drop_last() =~= v@.take(i as int));
        }
        if v[i] == '\n' {
            let mut end: usize = i;
            if end > start && v[end - 1] == '\r' {
                end -= 1;
            }
            assert(v@.subrange(start as int, end as int) =~= without_return(rest));
            if !line_is_blank(&v, start, end) {
                r.push(text_of(&v, start, end));
                assert(texts(r@) =~= before.push(without_return(rest)));
            }
            start = i + 1;
            assert(v@.subrange(start as int, i + 1) =~= Seq::<char>::empty());
        } else {
            assert(v@.subrange(start as int, i + 1) =~= rest.push(v@[i as int]));
        }
        i += 1;
    }
    assert(v@.take(i as int) =~= v@);
    let len: usize = v.len();
    let ghost before = texts(r@);
    if !line_is_blank(&v, start, len) {
        r.push(text_of(&v, start, len));
        assert(texts(r@) =~= before.push(v@.subrange(start as int, len as int)));
    }
    r
}

/// Whether a line holds nothing but white space.
pub fn is_blank_line(line: &str) -> (r: bool)
    ensures
        r == is_blank(line@),
{
    let v = chars_of(line);
    let len: usize = v.len();
    assert(v@.subrange(0, len as int) =~= line@);
    line_is_blank(&v, 0, len)
}

/// A record as a line of a file.
pub fn line_of(record: &str) -> (line: String)
    ensures
        line@ == record@.push('\n'),
{
    let mut line = record.to_owned();
    line.push('\n');
    line
}

/// The text of a file with the given records.
pub open spec fn framed(records: Seq<Seq<char>>) -> Seq<char>
    decreases records.len(),
{
    if records.len() == 0 {
        Seq::empty()
    } else {
        framed(records.drop_last()) + records.last().push('\n')
    }
}

/// The text of a file with the given records.
pub fn write_records(records: &Vec<String>) -> (text: String)
    ensures
        text@ == framed(texts(records@)),
{
    let mut text = String::new();
    let mut i: usize = 0;
    assert(text@ =~= framed(texts(records@).take(0)));
    while i < records.len()
        invariant
            i <= records@.len(),
            text@ == framed(texts(records@).take(i as int)),
        decreases records@.len() - i,
    {
        text.append(records[i].as_str());
        text.push('\n');
        i += 1;
        proof {
            let part = texts(records@).take(i as int);
            assert(part.drop_last() =~= texts(records@).take(i - 1));
            assert(text@ =~= framed(part));
        }
    }
    assert(texts(records@).take(i as int) =~= texts(records@));
    text
}

/// Whether a record can stand on a line of its own: it holds no end of a line, does not end
/// with a carriage return, and holds more than white space.
pub open spec fn is_record(record: Seq<char>) -> bool {
    &&& !record.contains('\n')
    &&& !is_blank(record)
    &&& record.last() != '\r'
}

/// What stands on a line is gathered until the line ends.
proof fn lemma_gather(text: Seq<char>, part: Seq<char>)
    requires
        split_lines(text).1.len() == 0,
        !part.contains('\n'),
    ensures
        split_lines(text + part) == (split_lines(text).0, part),
    decreases part.len(),
{
    if part.len() == 0 {
        assert(text + part =~= text);
        assert(part =~= Seq::<char>::empty());
        assert(split_lines(text).1 =~= Seq::<char>::empty());
    } else {
        let front = part.drop_last();
        assert(!front.contains('\n')) by {
            if front.contains('\n') {
                let i = choose|i: int| 0 <= i < front.len() && front[i] == '\n';
                assert(part[i] == '\n');
            }
        }
        assert(part[part.len() - 1] != '\n');
        lemma_gather(text, front);
        assert((text + part).drop_last() =~= text + front);
        assert(front.push(part.last()) =~= part);
    }
}

/// A record that is appended to a file whose last line has ended is read back after all the
/// records that were there.
pub proof fn law_append_then_read(text: Seq<char>, record: Seq<char>)
    requires
        text.len() > 0 ==> text.last() == '\n',
        is_record(record),
    ensures
        records(text + record.push('\n')) == records(text).push(record),
{
    lemma_ended(text);
    lemma_gather(text, record);
    let whole = text + record.push('\n');
    assert(whole.drop_last() =~= text + record);
    assert(whole.last() == '\n');
    assert(is_blank(Seq::<char>::empty()));
}

/// After the end of a line nothing is left over.
proof fn lemma_ended(text: Seq<char>)
    requires
        text.len() > 0 ==> text.last() == '\n',
    ensures
        split_lines(text).1 == Seq::<char>::empty(),
{
}

/// A file that was written with records reads back the same records.
pub proof fn law_write_then_read(list: Seq<Seq<char>>)
    requires
        forall|i: int| 0 <= i < list.len() ==> is_record(#[trigger] list[i]),
    ensures
        records(framed(list)) == list,
        framed(list).len() > 0 ==> framed(list).last() == '\n',
    decreases list.len(),
{
    if list.len() == 0 {
        assert(is_blank(Seq::<char>::empty()));
        assert(records(framed(list)) =~= list);
    } else {
        let front = list.drop_last();
        assert forall|i: int| 0 <= i < front.len() implies is_record(#[trigger] front[i]) by {
            assert(is_record(list[i]));
        }
        law_write_then_read(front);
        assert(is_record(list[list.len() - 1]));
        law_append_then_read(framed(front), list.last());
        assert(front.push(list.last()) =~= list);
    }
}

/// Which characters are white space, by their code points.
pub proof fn law_white_space(c: char)
    ensures
        ({
            let n = c as int;
            is_space(c) <==> (9 <= n <= 13) || n == 32 || n == 133 || n == 160 || n == 5760 || (8192
                <= n <= 8202) || n == 8232 || n == 8233 || n == 8239 || n == 8287 || n == 12288
        }),
{
}

/// A line is read as one record behind those before it, without a carriage return at its end,
/// unless it holds white space alone. A last line that has not ended keeps a carriage return.
pub proof fn law_line_is_read(text: Seq<char>, line: Seq<char>)
    requires
        text.len() > 0 ==> text.last() == '\n',
        !line.contains('\n'),
    ensures
        (forall|i: int| 0 <= i < line.len() ==> is_space(#[trigger] line[i])) ==> records(
            text + line + seq!['\n'],
        ) == records(text) && records(text + line) == records(text),
        forall|i: int|
            0 <= i < line.len() && !is_space(#[trigger] line[i]) ==> records(text + line)
                == records(text).push(line),
        forall|i: int|
            0 <= i < line.len() && !is_space(#[trigger] line[i]) && line.last() != '\r' ==> records(
                text + line + seq!['\n'],
            ) == records(text).push(line),
        forall|i: int|
            0 <= i < line.len() && !is_space(#[trigger] line[i]) && line.last() == '\r' ==> records(
                text + line + seq!['\n'],
            ) == records(text).push(line.drop_last()),
{
    lemma_ended(text);
    lemma_gather(text, line);
    let whole = text + line + seq!['\n'];
    assert(whole.drop_last() =~= text + line);
    assert(whole.last() == '\n');
    assert(is_blank(Seq::<char>::empty()));
    if line.len() > 0 && line.last() == '\r' {
        let cut = line.drop_last();
        assert forall|i: int| 0 <= i < line.len() && !is_space(#[trigger] line[i]) implies !is_blank(
            cut,
        ) by {
            assert(cut[i] == line[i]);
        }
        if is_blank(line) {
            assert forall|i: int| 0 <= i < cut.len() implies is_space(#[trigger] cut[i]) by {
                assert(cut[i] == line[i]);
            }
        }
    }
}

} // verus!
