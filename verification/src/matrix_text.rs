//! A matrix as text for the eye: the cells of its upper left corner in
//! hexadecimal, each in a column of sixteen characters.

use vstd::prelude::*;
use vstd::slice::slice_subrange;
use itertools::Itertools;

verus! {

/// Rows and columns beyond this one are not shown.
pub const MAX_CORNER_DIM: usize = 5;

/// Characters that a cell takes in a line, at least.
pub const CELL_WIDTH: usize = 16;

/// The character of a hexadecimal digit, in lower case.
pub open spec fn hex_char(d: int) -> char {
    if d == 0 {
        '0'
    } else if d == 1 {
        '1'
    } else if d == 2 {
        '2'
    } else if d == 3 {
        '3'
    } else if d == 4 {
        '4'
    } else if d == 5 {
        '5'
    } else if d == 6 {
        '6'
    } else if d == 7 {
        '7'
    } else if d == 8 {
        '8'
    } else if d == 9 {
        '9'
    } else if d == 10 {
        'a'
    } else if d == 11 {
        'b'
    } else if d == 12 {
        'c'
    } else if d == 13 {
        'd'
    } else if d == 14 {
        'e'
    } else {
        'f'
    }
}

/// Bytes in hexadecimal: two digits for each byte, the high one first.
pub open spec fn hex_digits(bytes: Seq<u8>) -> Seq<char>
    decreases bytes.len(),
{
    if bytes.len() == 0 {
        Seq::empty()
    } else {
        hex_digits(bytes.drop_last()).push(hex_char(bytes.last() as int / 16)).push(
            hex_char(bytes.last() as int % 16),
        )
    }
}

/// The texts `parts` one after the other with `sep` between each two.
pub open spec fn joined(parts: Seq<Seq<char>>, sep: Seq<char>) -> Seq<char>
    decreases parts.len(),
{
    if parts.len() == 0 {
        Seq::empty()
    } else if parts.len() == 1 {
        parts[0]
    } else {
        joined(parts.drop_last(), sep) + sep + parts.last()
    }
}

/// The number of keys at the front of `keys` that are equal to the first.
pub open spec fn run_len(keys: Seq<usize>) -> nat
    decreases keys.len(),
{
    if keys.len() == 0 {
        0
    } else if keys.len() >= 2 && keys[1] == keys[0] {
        1 + run_len(keys.drop_first())
    } else {
        1
    }
}

/// The keys cut into runs: each run holds equal keys that stood side by
/// side, and where one run ends and the next begins the key changes.
pub open spec fn key_runs(keys: Seq<usize>) -> Seq<Seq<usize>>
    decreases keys.len(),
{
    let first = run_len(keys);
    if keys.len() == 0 || first == 0 || first > keys.len() {
        Seq::empty()
    } else {
        seq![keys.take(first as int)] + key_runs(keys.skip(first as int))
    }
}

/// The contents of strings.
pub open spec fn texts_of(parts: Seq<String>) -> Seq<Seq<char>> {
    parts.map_values(|part: String| part@)
}

/// The contents of vectors of keys.
pub open spec fn runs_of(groups: Seq<Vec<usize>>) -> Seq<Seq<usize>> {
    groups.map_values(|group: Vec<usize>| group@)
}

/// `text` with blanks before it, as many as it is short of `width`.
pub open spec fn padded(text: Seq<char>, width: nat) -> Seq<char> {
    if text.len() >= width {
        text
    } else {
        Seq::new((width - text.len()) as nat, |k: int| ' ') + text
    }
}

/// Whether cell `i` of a matrix of side `dim` lies in the corner shown.
pub open spec fn shown(i: int, dim: int) -> bool {
    i / dim <= MAX_CORNER_DIM && i % dim <= MAX_CORNER_DIM
}

/// The numbers of the cells shown among the first `cells`, in their order.
pub open spec fn shown_cells(cells: nat, dim: int) -> Seq<int>
    decreases cells,
{
    if cells == 0 {
        Seq::empty()
    } else if shown(cells - 1, dim) {
        shown_cells((cells - 1) as nat, dim).push(cells - 1)
    } else {
        shown_cells((cells - 1) as nat, dim)
    }
}

/// The text of cell `i`.
pub open spec fn cell_text(bytes: Seq<u8>, type_size: int, i: int) -> Seq<char> {
    padded(hex_digits(bytes.subrange(i * type_size, (i + 1) * type_size)), CELL_WIDTH as nat)
}

/// The key under which cell `i` is put in a line with its neighbours.
pub open spec fn line_key(i: int) -> usize {
    (i / MAX_CORNER_DIM as int) as usize
}

/// The lines of text: for each run of keys, as many of the texts as the run
/// is long, with a blank between each two.
pub open spec fn lines(texts: Seq<Seq<char>>, runs: Seq<Seq<usize>>) -> Seq<Seq<char>>
    decreases runs.len(),
{
    if runs.len() == 0 {
        Seq::empty()
    } else {
        seq![joined(texts.take(runs[0].len() as int), seq![' '])] + lines(
            texts.skip(runs[0].len() as int),
            runs.drop_first(),
        )
    }
}

/// The text of a matrix: the cells in rows and columns zero to five, as far
/// as the buffer holds whole cells, each as sixteen characters of
/// hexadecimal; cells whose numbers divided by five agree stand in one line
/// as long as they follow each other.
pub open spec fn matrix_text(bytes: Seq<u8>, type_size: int, dim: int) -> Seq<char> {
    let cells = shown_cells((bytes.len() / type_size as nat) as nat, dim);
    let keys = cells.map_values(|i: int| line_key(i));
    let texts = cells.map_values(|i: int| cell_text(bytes, type_size, i));
    joined(lines(texts, key_runs(keys)), seq!['\n'])
}

/// A run is never longer than the keys it is cut from, and not empty unless
/// they are.
pub proof fn lemma_run_len(keys: Seq<usize>)
    ensures
        run_len(keys) <= keys.len(),
        keys.len() > 0 ==> run_len(keys) >= 1,
    decreases keys.len(),
{
    if keys.len() >= 2 && keys[1] == keys[0] {
        lemma_run_len(keys.drop_first());
    }
}

/// The runs of a sequence of keys: the first run, and the runs of what
/// follows it.
pub proof fn lemma_key_runs(keys: Seq<usize>)
    ensures
        keys.len() == 0 ==> key_runs(keys).len() == 0,
        keys.len() > 0 ==> key_runs(keys).len() > 0 && key_runs(keys)[0] == keys.take(
            run_len(keys) as int,
        ) && key_runs(keys).drop_first() == key_runs(keys.skip(run_len(keys) as int)),
{
    lemma_run_len(keys);
    if keys.len() > 0 {
        let first = run_len(keys);
        assert(key_runs(keys).drop_first() =~= key_runs(keys.skip(first as int)));
    }
}

/// Hexadecimal text of `bytes` by `hex::encode`: two lower-case digits for
/// each byte, the high four bits first, in the order of the bytes.
#[verifier::external_body]
fn hex_encode(bytes: &[u8]) -> (text: String)
    ensures
        text@ == hex_digits(bytes@),
{
    hex::encode(bytes)
}

/// The strings `parts` in one string by the `join` of `itertools`: the
/// first part, then for each further part the separator and the part.
#[verifier::external_body]
fn join_with(parts: &[String], sep: &str) -> (text: String)
    ensures
        text@ == joined(texts_of(parts@), sep@),
{
    parts.iter().join(sep)
}

/// The runs of equal keys by the `group_by` of `itertools`, with each key as
/// its own group key: keys that follow each other and are equal come out in
/// one group, in their order, and a new group begins where the key changes.
#[verifier::external_body]
fn group_keys(keys: &Vec<usize>) -> (groups: Vec<Vec<usize>>)
    ensures
        runs_of(groups@) == key_runs(keys@),
{
    keys.iter().group_by(|key| **key).into_iter().map(|(_, group)| group.copied().collect()).collect()
}

/// Puts blanks before `text` until it is `width` characters long.
pub fn pad_left(text: String, width: usize) -> (wide: String)
    ensures
        wide@ == padded(text@, width as nat),
{
    let len = text.as_str().unicode_len();
    if len >= width {
        return text;
    }
    let mut wide = String::new();
    let mut k: usize = 0;
    while k < width - len
        invariant
            len < width,
            k <= width - len,
            wide@ == Seq::new(k as nat, |j: int| ' '),
        decreases width - len - k,
    {
        proof {
            reveal_strlit(" ");
        }
        wide.append(" ");
        k = k + 1;
        assert(wide@ =~= Seq::new(k as nat, |j: int| ' '));
    }
    wide.append(text.as_str());
    wide
}

/// The corner of a matrix of side `dim` with cells of `type_size` bytes as
/// text.
pub fn format_as_matrix(bytes: &[u8], type_size: usize, dim: usize) -> (text: String)
    requires
        type_size > 0,
        dim > 0 || bytes@.len() < type_size,
    ensures
        text@ == matrix_text(bytes@, type_size as int, dim as int),
{
    let total: usize = bytes.len();
    let cells: usize = total / type_size;
    proof {
        if total < type_size {
            vstd::arithmetic::div_mod::lemma_basic_div(total as int, type_size as int);
        }
    }
    let mut keys: Vec<usize> = Vec::new();
    let mut texts: Vec<String> = Vec::new();
    let mut i: usize = 0;
    while i < cells
        invariant
            type_size > 0,
            dim > 0 || cells == 0,
            total == bytes@.len(),
            cells == total / type_size,
            i <= cells,
            keys@ == shown_cells(i as nat, dim as int).map_values(|i: int| line_key(i)),
            texts_of(texts@) == shown_cells(i as nat, dim as int).map_values(
                |i: int| cell_text(bytes@, type_size as int, i),
            ),
        decreases cells - i,
    {
        let ghost before = shown_cells(i as nat, dim as int);
        let ghost texts_before = texts_of(texts@);
        if i / dim <= MAX_CORNER_DIM && i % dim <= MAX_CORNER_DIM {
            proof {
                vstd::arithmetic::div_mod::lemma_fundamental_div_mod(
                    total as int,
                    type_size as int,
                );
                assert((i + 1) * type_size <= cells * type_size) by (nonlinear_arith)
                    requires
                        i + 1 <= cells,
                        type_size >= 0,
                ;
                assert(0 <= i * type_size <= (i + 1) * type_size) by (nonlinear_arith)
                    requires
                        i >= 0,
                        type_size >= 0,
                ;
                assert(cells * type_size == type_size * cells) by (nonlinear_arith);
                assert(cells * type_size <= total);
            }
            let cell = slice_subrange(bytes, i * type_size, (i + 1) * type_size);
            let text = pad_left(hex_encode(cell), CELL_WIDTH);
            keys.push(i / MAX_CORNER_DIM);
            texts.push(text);
            proof {
                let after = before.push(i as int);
                assert(shown_cells((i + 1) as nat, dim as int) == after);
                assert(keys@ =~= after.map_values(|i: int| line_key(i)));
                assert(texts_of(texts@) =~= texts_before.push(text@));
                assert(text@ == cell_text(bytes@, type_size as int, i as int));
                assert(texts_of(texts@) =~= after.map_values(
                    |i: int| cell_text(bytes@, type_size as int, i),
                ));
            }
        } else {
            assert(shown_cells((i + 1) as nat, dim as int) == before);
        }
        i = i + 1;
    }
    let groups = group_keys(&keys);
    let ghost all_texts = texts_of(texts@);
    let ghost all_runs = runs_of(groups@);
    let mut rows: Vec<String> = Vec::new();
    let mut at: usize = 0;
    let mut g: usize = 0;
    assert(keys@.skip(0) =~= keys@);
    assert(all_runs.skip(0) =~= all_runs);
    assert(all_texts.skip(0) =~= all_texts);
    assert(keys@.len() == texts@.len());
    while g < groups.len()
        invariant
            g <= groups.len(),
            at <= texts.len(),
            keys@.len() == texts@.len(),
            all_texts == texts_of(texts@),
            all_runs == runs_of(groups@),
            all_runs.skip(g as int) == key_runs(keys@.skip(at as int)),
            texts_of(rows@) + lines(all_texts.skip(at as int), all_runs.skip(g as int)) == lines(
                all_texts,
                all_runs,
            ),
        decreases groups.len() - g,
    {
        let ghost left = keys@.skip(at as int);
        let ghost runs_left = all_runs.skip(g as int);
        let ghost texts_left = all_texts.skip(at as int);
        let ghost rows_before = texts_of(rows@);
        let len = groups[g].len();
        proof {
            lemma_key_runs(left);
            lemma_run_len(left);
            assert(runs_left[0] == all_runs[g as int]);
            assert(all_runs[g as int] == groups@[g as int]@);
            assert(len == run_len(left));
            assert(left.skip(len as int) =~= keys@.skip(at + len));
            assert(runs_left.drop_first() =~= all_runs.skip(g + 1));
            assert(texts_left.skip(len as int) =~= all_texts.skip(at + len));
        }
        let part = slice_subrange(texts.as_slice(), at, at + len);
        proof {
            reveal_strlit(" ");
            assert(" "@ =~= seq![' ']);
            assert(texts_of(part@) =~= texts_left.take(len as int));
        }
        let row = join_with(part, " ");
        rows.push(row);
        at = at + len;
        g = g + 1;
        proof {
            assert(texts_of(rows@) =~= rows_before.push(row@));
            assert(lines(texts_left, runs_left) == seq![row@] + lines(
                all_texts.skip(at as int),
                all_runs.skip(g as int),
            ));
            assert(texts_of(rows@) + lines(all_texts.skip(at as int), all_runs.skip(g as int))
                =~= rows_before + lines(texts_left, runs_left));
        }
    }
    proof {
        reveal_strlit("\n");
        assert("\n"@ =~= seq!['\n']);
        assert(all_runs.skip(g as int).len() == 0);
        assert(texts_of(rows@) =~= lines(all_texts, all_runs));
    }
    join_with(rows.as_slice(), "\n")
}

} // verus!
