use vstd::prelude::*;

use crate::error::Error;
use crate::timestamp::{
    TimestampRange,
    delay_in_range,
    delayed_value,
    push_char,
    is_range_text,
    range_text,
    range_text_value,
    timestamp_text_value,
    is_timestamp_text,
};

verus! {

broadcast use vstd::string::group_string_axioms;

/// What one line becomes under a delay of `d` milliseconds: a range line is
/// shifted and written anew, any other line stays as it is; `None` where a
/// shifted end would leave the range of a timestamp.
#[verifier::opaque]
pub open spec fn shift_line(l: Seq<char>, d: int) -> Option<Seq<char>> {
    if is_range_text(l) {
        let (start, end) = range_text_value(l);
        if delay_in_range(start, d) && delay_in_range(end, d) {
            Some(range_text(delayed_value(start, d), delayed_value(end, d)))
        } else {
            None
        }
    } else {
        Some(l)
    }
}

/// The text cut at every `\n`, the separators left out; never empty.
pub open spec fn pieces(s: Seq<char>) -> Seq<Seq<char>>
    decreases s.len(),
{
    if s.len() == 0 {
        seq![Seq::empty()]
    } else {
        let p = pieces(s.drop_last());
        if s.last() == '\n' {
            p.push(Seq::empty())
        } else {
            p.update(p.len() - 1, p.last().push(s.last()))
        }
    }
}

/// A line that ended in `\r\n` loses its `\r`.
pub open spec fn strip_cr(l: Seq<char>) -> Seq<char> {
    if l.len() > 0 && l.last() == '\r' {
        l.drop_last()
    } else {
        l
    }
}

/// The lines of a text: each piece ended by `\n`, without a `\r` before it, then
/// the last piece when it is not empty.
pub open spec fn lines(s: Seq<char>) -> Seq<Seq<char>> {
    let p = pieces(s);
    let ended = p.drop_last().map_values(|l: Seq<char>| strip_cr(l));
    if p.last().len() == 0 {
        ended
    } else {
        ended.push(p.last())
    }
}

/// The output for a sequence of lines: each line shifted and ended by `\n`;
/// `None` where any line cannot be shifted.
pub open spec fn shift_lines(ls: Seq<Seq<char>>, d: int) -> Option<Seq<char>>
    decreases ls.len(),
{
    if ls.len() == 0 {
        Some(Seq::empty())
    } else {
        match (shift_lines(ls.drop_last(), d), shift_line(ls.last(), d)) {
            (Some(out), Some(l)) => Some(out + l.push('\n')),
            _ => None,
        }
    }
}

/// A file name whose extension is `srt`: it ends in `.srt` and has a stem.
pub open spec fn has_subtitle_extension(name: Seq<char>) -> bool {
    &&& name.len() > 4
    &&& name.subrange(name.len() - 4, name.len() as int) == seq!['.', 's', 'r', 't']
}

proof fn lemma_pieces_nonempty(s: Seq<char>)
    ensures
        pieces(s).len() >= 1,
    decreases s.len(),
{
    if s.len() > 0 {
        lemma_pieces_nonempty(s.drop_last());
    }
}

/// One line under a delay of `delay_ms`: a range line shifted and written anew,
/// any other line unchanged.
pub fn delay_line(line: &str, delay_ms: i64) -> (r: Result<String, Error>)
    ensures
        r is Ok <==> shift_line(line@, delay_ms as int) is Some,
        r is Ok ==> r->Ok_0@ == shift_line(line@, delay_ms as int)->0,
        r is Err ==> r->Err_0 is NegativeTimestamp && r->Err_0->NegativeTimestamp_0@ == line@,
{
    reveal(shift_line);
    match TimestampRange::from_str(line) {
        Ok(range) => match range.checked_delay(delay_ms) {
            Some(shifted) => Ok(shifted.as_string()),
            None => Err(Error::NegativeTimestamp(line.to_owned())),
        },
        Err(_) => Ok(line.to_owned()),
    }
}

proof fn lemma_pieces_push(s: Seq<char>, c: char)
    ensures
        pieces(s).len() >= 1,
        c == '\n' ==> pieces(s.push(c)) == pieces(s).push(Seq::empty()),
        c != '\n' ==> pieces(s.push(c)) == pieces(s).update(
            pieces(s).len() - 1,
            pieces(s).last().push(c),
        ),
{
    lemma_pieces_nonempty(s);
    assert(s.push(c).drop_last() =~= s);
}

proof fn lemma_shift_lines_fails(ls: Seq<Seq<char>>, k: int, d: int)
    requires
        0 <= k < ls.len(),
        shift_line(ls[k], d) is None,
    ensures
        shift_lines(ls, d) is None,
    decreases ls.len(),
{
    if k < ls.len() - 1 {
        lemma_shift_lines_fails(ls.drop_last(), k, d);
    }
}

proof fn lemma_shift_lines_step(ls: Seq<Seq<char>>, i: int, d: int)
    requires
        0 <= i < ls.len(),
        shift_lines(ls.subrange(0, i), d) is Some,
        shift_line(ls[i], d) is Some,
    ensures
        shift_lines(ls.subrange(0, i + 1), d) == Some(
            shift_lines(ls.subrange(0, i), d)->0 + shift_line(ls[i], d)->0.push('\n'),
        ),
{
    assert(ls.subrange(0, i + 1).drop_last() =~= ls.subrange(0, i));
}

/// The lines of `content`, cut at each `\n`, a `\r` before it dropped, with no
/// empty line after a final `\n`.
pub fn split_lines(content: &str) -> (r: Vec<String>)
    ensures
        r.len() == lines(content@).len(),
        forall|k: int| 0 <= k < r.len() ==> #[trigger] r[k]@ == lines(content@)[k],
{
    let mut ended: Vec<String> = Vec::new();
    let mut current = String::new();
    let ghost mut prefix: Seq<char> = Seq::empty();
    for c in it: content.chars()
        invariant
            it.seq() == content@,
            prefix == content@.subrange(0, it.index() as int),
            pieces(prefix).len() == ended.len() + 1,
            current@ == pieces(prefix).last(),
            forall|k: int| 0 <= k < ended.len() ==> #[trigger] ended[k]@ == strip_cr(pieces(prefix)[k]),
    {
        let ghost before = prefix;
        proof {
            prefix = content@.subrange(0, it.index() + 1);
            assert(prefix =~= before.push(c));
            lemma_pieces_push(before, c);
        }
        if c == '\n' {
            ended.push(strip_line_end(current.as_str()));
            current = String::new();
        } else {
            push_char(&mut current, c);
        }
    }
    proof {
        lemma_pieces_nonempty(prefix);
        assert(prefix =~= content@);
    }
    if current.unicode_len() > 0 {
        ended.push(current);
    }
    ended
}

/// The output for `lines` under a delay of `delay_ms`: each line shifted as
/// `delay_line` does and ended by `\n`.
pub fn delay_lines(lines: &Vec<String>, delay_ms: i64) -> (r: Result<String, Error>)
    ensures
        r is Ok <==> shift_lines(lines@.map_values(|l: String| l@), delay_ms as int) is Some,
        r is Ok ==> r->Ok_0@ == shift_lines(lines@.map_values(|l: String| l@), delay_ms as int)->0,
        r is Err ==> r->Err_0 is NegativeTimestamp,
{
    let ghost d = delay_ms as int;
    let ghost all = lines@.map_values(|l: String| l@);
    let mut out = String::new();
    let mut i: usize = 0;
    while i < lines.len()
        invariant
            i <= lines.len(),
            d == delay_ms as int,
            all == lines@.map_values(|l: String| l@),
            shift_lines(all.subrange(0, i as int), d) == Some(out@),
        decreases lines.len() - i,
    {
        let line = lines[i].as_str();
        assert(line@ == all[i as int]);
        let shifted = delay_line(line, delay_ms);
        match shifted {
            Ok(text) => {
                let ghost done = out@;
                out.append(text.as_str());
                push_char(&mut out, '\n');
                proof {
                    lemma_shift_lines_step(all, i as int, d);
                }
                assert(out@ =~= done + text@.push('\n'));
            },
            Err(e) => {
                proof {
                    lemma_shift_lines_fails(all, i as int, d);
                }
                return Err(e);
            },
        }
        i = i + 1;
    }
    assert(all.subrange(0, i as int) =~= all);
    Ok(out)
}

/// The whole text of a file under a delay of `delay_ms`: every line shifted as
/// `delay_line` does and ended by `\n`.
pub fn delay_content(content: &str, delay_ms: i64) -> (r: Result<String, Error>)
    ensures
        r is Ok <==> shift_lines(lines(content@), delay_ms as int) is Some,
        r is Ok ==> r->Ok_0@ == shift_lines(lines(content@), delay_ms as int)->0,
        r is Err ==> r->Err_0 is NegativeTimestamp,
{
    let split = split_lines(content);
    assert(split@.map_values(|l: String| l@) =~= lines(content@));
    delay_lines(&split, delay_ms)
}

/// A copy of `line` without one `\r` at its end.
fn strip_line_end(line: &str) -> (r: String)
    ensures
        r@ == strip_cr(line@),
{
    let n = line.unicode_len();
    if n > 0 && line.get_char(n - 1) == '\r' {
        line.substring_char(0, n - 1).to_owned()
    } else {
        line.to_owned()
    }
}

/// The lines each ended by `\n`, one after another.
pub open spec fn joined_lines(ls: Seq<Seq<char>>) -> Seq<char>
    decreases ls.len(),
{
    if ls.len() == 0 {
        Seq::empty()
    } else {
        joined_lines(ls.drop_last()) + ls.last().push('\n')
    }
}

/// Whether the input path's file name allows it to be processed; a refusal
/// carries the path.
pub fn check_input_name(path: &str, file_name: &str) -> (r: Result<(), Error>)
    ensures
        r is Ok <==> has_subtitle_extension(file_name@),
        r is Err ==> r->Err_0 is InvalidFile && r->Err_0->InvalidFile_0@ == path@,
{
    let n = file_name.unicode_len();
    if n > 4 && file_name.get_char(n - 4) == '.' && file_name.get_char(n - 3) == 's'
        && file_name.get_char(n - 2) == 'r' && file_name.get_char(n - 1) == 't' {
        assert(file_name@.subrange(n - 4, n as int) =~= seq!['.', 's', 'r', 't']);
        Ok(())
    } else {
        proof {
            if n > 4 {
                let tail = file_name@.subrange(n - 4, n as int);
                assert(tail[0] == file_name@[n - 4]);
                assert(tail[1] == file_name@[n - 3]);
                assert(tail[2] == file_name@[n - 2]);
                assert(tail[3] == file_name@[n - 1]);
            }
        }
        Err(Error::InvalidFile(path.to_owned()))
    }
}

/// A line that is not a timestamp range comes out unchanged, whatever the delay.
pub proof fn lemma_line_passes_through(l: Seq<char>, d: int)
    requires
        !is_range_text(l),
    ensures
        shift_line(l, d) == Some(l),
{
    reveal(shift_line);
}

/// Where no line is a timestamp range, the output is the lines unchanged, each
/// ended by `\n`, whatever the delay.
pub proof fn lemma_lines_pass_through(ls: Seq<Seq<char>>, d: int)
    requires
        forall|k: int| 0 <= k < ls.len() ==> !is_range_text(#[trigger] ls[k]),
    ensures
        shift_lines(ls, d) == Some(joined_lines(ls)),
    decreases ls.len(),
{
    if ls.len() > 0 {
        lemma_lines_pass_through(ls.drop_last(), d);
        lemma_line_passes_through(ls.last(), d);
    }
}

/// Under a delay of zero a range line comes out in its normalized writing and
/// any other line unchanged.
pub proof fn lemma_line_delay_zero(l: Seq<char>)
    ensures
        shift_line(l, 0) == Some(
            if is_range_text(l) {
                range_text(range_text_value(l).0, range_text_value(l).1)
            } else {
                l
            },
        ),
{
    reveal(shift_line);
    if is_range_text(l) {
        lemma_value_fits(l.subrange(0, 12));
        lemma_value_fits(l.subrange(17, 29));
    }
}

proof fn lemma_value_fits(s: Seq<char>)
    requires
        is_timestamp_text(s),
    ensures
        timestamp_text_value(s) < 400_000_000,
{
}

} // verus!
