//! How a matrix is laid out as text: row after row, every cell set to the
//! right in a column as wide as the widest cell.

use vstd::prelude::*;
use vstd::string::StringExecFns;
use vstd::utf8::encode_utf8;

verus! {

/// The number of bytes that a text takes.
pub open spec fn byte_len(text: Seq<char>) -> nat {
    encode_utf8(text).len()
}

/// The greatest number of bytes among the first `n` texts.
pub open spec fn widest(texts: Seq<String>, n: nat) -> nat
    decreases n,
{
    if n == 0 {
        0
    } else if byte_len(texts[n - 1]@) > widest(texts, (n - 1) as nat) {
        byte_len(texts[n - 1]@)
    } else {
        widest(texts, (n - 1) as nat)
    }
}

/// `n` times the same text.
pub open spec fn repeated(text: Seq<char>, n: nat) -> Seq<char>
    decreases n,
{
    if n == 0 {
        Seq::empty()
    } else {
        repeated(text, (n - 1) as nat) + text
    }
}

/// A cell as it is shown: set to the right in a field that is two wider than
/// `width`.
pub open spec fn shown_cell(text: Seq<char>, width: nat) -> Seq<char> {
    repeated(" "@, (width + 2 - byte_len(text)) as nat) + text
}

/// The start of row `r` and its first `n` cells as they are shown. The texts
/// of the cells stand row after row.
pub open spec fn shown_row(texts: Seq<String>, cols: nat, r: nat, width: nat, n: nat) -> Seq<char>
    decreases n,
{
    if n == 0 {
        "\n  "@
    } else {
        shown_row(texts, cols, r, width, (n - 1) as nat) + shown_cell(
            texts[r * cols + n - 1]@,
            width,
        )
    }
}

/// The opening bracket and the first `n` rows as they are shown.
pub open spec fn shown_rows(texts: Seq<String>, cols: nat, width: nat, n: nat) -> Seq<char>
    decreases n,
{
    if n == 0 {
        "["@
    } else {
        shown_rows(texts, cols, width, (n - 1) as nat) + shown_row(
            texts,
            cols,
            (n - 1) as nat,
            width,
            cols,
        )
    }
}

/// A matrix of `rows` by `cols` as it is shown, from the texts of its cells
/// row after row.
pub open spec fn shown(texts: Seq<String>, rows: nat, cols: nat) -> Seq<char> {
    shown_rows(texts, cols, widest(texts, rows * cols), rows) + "\n]"@
}

/// No text among the first `n` is wider than the widest of them.
pub proof fn lemma_widest(texts: Seq<String>, n: nat, i: int)
    requires
        0 <= i < n,
    ensures
        byte_len(texts[i]@) <= widest(texts, n),
    decreases n,
{
    if i < n - 1 {
        lemma_widest(texts, (n - 1) as nat, i);
    }
}

/// Returns the number of bytes that a text takes.
fn byte_count(text: &str) -> (n: usize)
    ensures
        n == byte_len(text@),
{
    text.as_bytes().len()
}

/// Returns the number of bytes of the widest text.
pub fn column_width(texts: &Vec<String>) -> (width: usize)
    ensures
        width == widest(texts@, texts@.len()),
{
    let mut width: usize = 0;
    let mut i: usize = 0;
    while i < texts.len()
        invariant
            i <= texts@.len(),
            width == widest(texts@, i as nat),
        decreases texts@.len() - i,
    {
        let length: usize = byte_count(texts[i].as_str());
        if length > width {
            width = length;
        }
        i = i + 1;
    }
    width
}

/// Lays out the texts of the cells of a matrix, which stand row after row:
/// an opening bracket, then every row on a line of its own, and a closing
/// bracket on the last line.
pub fn render(rows: usize, cols: usize, texts: &Vec<String>) -> (text: String)
    requires
        texts@.len() == rows * cols,
        widest(texts@, texts@.len()) + 2 <= usize::MAX,
    ensures
        text@ == shown(texts@, rows as nat, cols as nat),
{
    let width: usize = column_width(texts);
    let mut text: String = String::from_str("[");
    let mut r: usize = 0;
    while r < rows
        invariant
            r <= rows,
            texts@.len() == rows * cols,
            width == widest(texts@, texts@.len()),
            width + 2 <= usize::MAX,
            text@ == shown_rows(texts@, cols as nat, width as nat, r as nat),
        decreases rows - r,
    {
        text.append("\n  ");
        let mut c: usize = 0;
        while c < cols
            invariant
                r < rows,
                c <= cols,
                texts@.len() == rows * cols,
                width == widest(texts@, texts@.len()),
                width + 2 <= usize::MAX,
                text@ == shown_rows(texts@, cols as nat, width as nat, r as nat) + shown_row(
                    texts@,
                    cols as nat,
                    r as nat,
                    width as nat,
                    c as nat,
                ),
            decreases cols - c,
        {
            proof {
                crate::addressing::lemma_index_in_range(cols as int, rows as int, c as int, r as int);
                assert(cols * rows == rows * cols) by (nonlinear_arith);
                assert(r * cols >= 0) by (nonlinear_arith)
                    requires
                        r >= 0,
                        cols >= 0,
                ;
                assert(texts@.len() == texts.len());
                lemma_widest(texts@, texts@.len(), r * cols + c);
            }
            let cell: &str = texts[r * cols + c].as_str();
            let extra: usize = width + 2 - byte_count(cell);
            let ghost before = text@;
            let mut i: usize = 0;
            while i < extra
                invariant
                    i <= extra,
                    text@ == before + repeated(" "@, i as nat),
                decreases extra - i,
            {
                text.append(" ");
                i = i + 1;
                assert(text@ =~= before + repeated(" "@, i as nat));
            }
            text.append(cell);
            c = c + 1;
            assert(text@ =~= shown_rows(texts@, cols as nat, width as nat, r as nat) + shown_row(
                texts@,
                cols as nat,
                r as nat,
                width as nat,
                c as nat,
            ));
        }
        r = r + 1;
    }
    text.append("\n]");
    text
}

} // verus!
