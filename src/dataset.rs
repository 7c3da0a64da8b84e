//! Turning the text of a dataset file into its ordered data lines.
use vstd::prelude::*;
use crate::text::{append_chars, chars_of, contains_char};

verus! {

/// The comment marker: a line holding it anywhere is no data line.
pub open spec fn is_data_line(line: Seq<char>) -> bool {
    !line.contains(';')
}

/// `text` cut at every newline, the newlines themselves dropped; there is always
/// one piece more than there are newlines.
pub open spec fn raw_pieces(text: Seq<char>) -> Seq<Seq<char>>
    decreases text.len(),
{
    if text.len() == 0 {
        seq![Seq::<char>::empty()]
    } else {
        let p = raw_pieces(text.drop_last());
        if text.last() == '\n' {
            p.push(Seq::<char>::empty())
        } else {
            p.update(p.len() - 1, p.last().push(text.last()))
        }
    }
}

/// A newline-terminated piece loses one carriage return that stood right before the newline.
pub open spec fn without_cr(piece: Seq<char>) -> Seq<char> {
    if piece.len() > 0 && piece.last() == '\r' {
        piece.drop_last()
    } else {
        piece
    }
}

/// The lines of `text`: each newline-terminated piece without its line ending, then the
/// unterminated rest, if it is not empty.
pub open spec fn text_lines(text: Seq<char>) -> Seq<Seq<char>> {
    let p = raw_pieces(text);
    p.drop_last().map_values(|piece: Seq<char>| without_cr(piece)) + if p.last().len() > 0 {
        seq![p.last()]
    } else {
        Seq::<Seq<char>>::empty()
    }
}

/// The data lines among `lines`, in their order.
pub open spec fn data_lines(lines: Seq<Seq<char>>) -> Seq<Seq<char>> {
    lines.filter(data_line_test())
}

/// `is_data_line` as a value, to filter with.
pub open spec fn data_line_test() -> spec_fn(Seq<char>) -> bool {
    |line: Seq<char>| is_data_line(line)
}

/// The dataset held by the text of a dataset file: its lines, comments left out.
pub open spec fn dataset_of(text: Seq<char>) -> Seq<Seq<char>> {
    data_lines(text_lines(text))
}

proof fn lemma_raw_pieces_nonempty(text: Seq<char>)
    ensures
        raw_pieces(text).len() >= 1,
    decreases text.len(),
{
    if text.len() > 0 {
        lemma_raw_pieces_nonempty(text.drop_last());
    }
}

/// Splits `text` into lines, as reading it line by line gives them: lines end at `\n` or
/// `\r\n`, and neither ending is kept.
pub fn split_lines(text: &str) -> (r: Vec<String>)
    ensures
        r.deep_view() == text_lines(text@),
{
    let v = chars_of(text);
    let mut done: Vec<String> = Vec::new();
    let mut start: usize = 0;
    let mut i: usize = 0;
    assert(v@.subrange(0, 0) =~= Seq::<char>::empty());
    assert(done.deep_view() =~= raw_pieces(v@.subrange(0, 0)).drop_last().map_values(
        |piece: Seq<char>| without_cr(piece),
    ));
    while i < v.len()
        invariant
            v@ == text@,
            start <= i <= v.len(),
            raw_pieces(v@.subrange(0, i as int)).len() >= 1,
            raw_pieces(v@.subrange(0, i as int)).last() == v@.subrange(start as int, i as int),
            done.deep_view() == raw_pieces(v@.subrange(0, i as int)).drop_last().map_values(
                |piece: Seq<char>| without_cr(piece),
            ),
        decreases v.len() - i,
    {
        let ghost pre = v@.subrange(0, i as int);
        let ghost post = v@.subrange(0, i + 1);
        assert(post.drop_last() =~= pre);
        assert(post.last() == v@[i as int]);
        let ghost p = raw_pieces(pre);
        if v[i] == '\n' {
            let end: usize = if i > start && v[i - 1] == '\r' {
                i - 1
            } else {
                i
            };
            let mut line = String::new();
            append_chars(&mut line, &v, start, end);
            assert(line@ =~= without_cr(p.last()));
            let ghost before = done.deep_view();
            done.push(line);
            assert(raw_pieces(post) == p.push(Seq::<char>::empty()));
            assert(raw_pieces(post).drop_last() =~= p);
            assert(p =~= p.drop_last().push(p.last()));
            assert(done.deep_view() =~= before.push(without_cr(p.last())));
            assert(done.deep_view() =~= raw_pieces(post).drop_last().map_values(
                |piece: Seq<char>| without_cr(piece),
            ));
            start = i + 1;
            assert(v@.subrange(start as int, i + 1) =~= Seq::<char>::empty());
        } else {
            assert(raw_pieces(post) == p.update(p.len() - 1, p.last().push(v@[i as int])));
            assert(raw_pieces(post).drop_last() =~= p.drop_last());
            assert(v@.subrange(start as int, i + 1) =~= v@.subrange(start as int, i as int).push(
                v@[i as int],
            ));
        }
        i = i + 1;
    }
    assert(v@.subrange(0, i as int) =~= text@);
    if start < v.len() {
        let mut line = String::new();
        append_chars(&mut line, &v, start, v.len());
        let ghost before = done.deep_view();
        done.push(line);
        assert(done.deep_view() =~= before.push(line@));
        assert(done.deep_view() =~= text_lines(text@));
    } else {
        assert(done.deep_view() =~= text_lines(text@));
    }
    done
}

/// The data lines among `lines`, in their order and unchanged: a line is kept exactly when
/// it holds no `;`.
pub fn keep_data_lines(lines: &Vec<String>) -> (r: Vec<String>)
    ensures
        r.deep_view() == data_lines(lines.deep_view()),
        forall|line: Seq<char>|
            r.deep_view().contains(line) <==> (lines.deep_view().contains(line) && is_data_line(
                line,
            )),
{
    let mut r: Vec<String> = Vec::new();
    let mut i: usize = 0;
    assert(lines.deep_view().subrange(0, 0) =~= Seq::<Seq<char>>::empty());
    proof {
        reveal(Seq::filter);
    }
    assert(r.deep_view() =~= data_lines(lines.deep_view().subrange(0, 0)));
    while i < lines.len()
        invariant
            i <= lines.len(),
            r.deep_view() == data_lines(lines.deep_view().subrange(0, i as int)),
        decreases lines.len() - i,
    {
        let ghost seen = lines.deep_view().subrange(0, i as int);
        assert(lines.deep_view().subrange(0, i + 1) =~= seen.push(lines[i as int]@));
        let ghost before = r.deep_view();
        assert(lines.deep_view()[i as int] == lines[i as int]@);
        proof {
            seen.lemma_filter_push(lines[i as int]@, data_line_test());
        }
        if !contains_char(lines[i].as_str(), ';') {
            let line = lines[i].clone();
            r.push(line);
            assert(r.deep_view() =~= before.push(lines[i as int]@));
            assert(data_lines(seen.push(lines[i as int]@)) == data_lines(seen).push(
                lines[i as int]@,
            ));
        } else {
            assert(r.deep_view() =~= before);
            assert(data_lines(seen.push(lines[i as int]@)) == data_lines(seen));
        }
        i = i + 1;
    }
    assert(lines.deep_view().subrange(0, i as int) =~= lines.deep_view());
    proof {
        broadcast use vstd::seq_lib::group_filter_ensures, Seq::lemma_filter_contains_rev;

        assert forall|line: Seq<char>|
            r.deep_view().contains(line) <==> (lines.deep_view().contains(line)
                && is_data_line(line)) by {
            if r.deep_view().contains(line) {
                let k = choose|k: int| 0 <= k < r.deep_view().len() && r.deep_view()[k] == line;
                assert(is_data_line(r.deep_view()[k]));
            }
            if lines.deep_view().contains(line) && is_data_line(line) {
                let k = choose|k: int|
                    0 <= k < lines.deep_view().len() && lines.deep_view()[k] == line;
                assert(r.deep_view().contains(lines.deep_view()[k]));
            }
        }
    }
    r
}

/// The dataset held by the text of a dataset file.
pub fn load_dataset(text: &str) -> (r: Vec<String>)
    ensures
        r.deep_view() == dataset_of(text@),
{
    let lines = split_lines(text);
    keep_data_lines(&lines)
}

} // verus!
