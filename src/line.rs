//! The line model: how many terminal rows a line takes once wrapped.
use vstd::prelude::*;
use vstd::arithmetic::div_mod::lemma_fundamental_div_mod;

verus! {

/// The text that a line's bytes decode to, each invalid sequence replaced.
pub uninterp spec fn lossy_text_of(bytes: Seq<u8>) -> Seq<char>;

/// The number of terminal cells that a text occupies.
pub uninterp spec fn column_width_of(text: Seq<char>) -> nat;

/// Relies on `String::from_utf8_lossy`: the text of the bytes, invalid
/// sequences replaced; no bytes give no text.
#[verifier::external_body]
fn decode_lossy(bytes: &[u8]) -> (r: String)
    ensures
        r@ == lossy_text_of(bytes@),
        bytes@.len() == 0 ==> r@.len() == 0,
{
    String::from_utf8_lossy(bytes).into_owned()
}

/// Relies on `termwiz::cell::unicode_column_width`: the cells that the text
/// occupies, summed over its graphemes; an empty text occupies none.
#[verifier::external_body]
fn column_width(text: &str) -> (r: usize)
    ensures
        r as nat == column_width_of(text@),
        text@.len() == 0 ==> r == 0,
{
    termwiz::cell::unicode_column_width(text, None)
}

/// Rows that `cells` columns of content take on a screen `width` columns
/// wide: the ceiling of the quotient, at least one. A width of zero is
/// taken as one column.
pub open spec fn rows_for(cells: nat, width: nat) -> nat {
    let w = if width == 0 { 1 } else { width };
    if cells == 0 {
        1
    } else if cells % w == 0 {
        cells / w
    } else {
        cells / w + 1
    }
}

/// Rows that a line takes when wrapped at `width` columns.
pub open spec fn line_height(line: Seq<u8>, width: nat) -> nat {
    rows_for(column_width_of(lossy_text_of(line)), width)
}

/// Computes `rows_for` on machine integers.
pub fn rows_needed(cells: usize, width: usize) -> (r: usize)
    ensures
        r as nat == rows_for(cells as nat, width as nat),
        r >= 1,
{
    let w: usize = if width == 0 { 1 } else { width };
    if cells == 0 {
        1
    } else if cells % w == 0 {
        proof { lemma_fundamental_div_mod(cells as int, w as int); }
        let q: usize = cells / w;
        assert(q >= 1) by (nonlinear_arith)
            requires cells == w * q, cells > 0, w > 0;
        q
    } else {
        proof { lemma_fundamental_div_mod(cells as int, w as int); }
        let q: usize = cells / w;
        assert(q < cells) by (nonlinear_arith)
            requires cells == w * q + cells % w, cells % w > 0, w > 0;
        q + 1
    }
}

/// The number of terminal rows that `line` takes on a screen `width`
/// columns wide; never less than one, even for an empty line.
pub fn height(line: &[u8], width: usize) -> (r: usize)
    ensures
        r as nat == line_height(line@, width as nat),
        r >= 1,
{
    let text = decode_lossy(line);
    let cells = column_width(text.as_str());
    rows_needed(cells, width)
}

proof fn lemma_rows_cover(cells: nat, w: nat, j: nat)
    requires
        w > 0,
        j * w >= cells,
        j >= 1,
    ensures
        rows_for(cells, w) * w >= cells,
        rows_for(cells, w) <= j,
        rows_for(cells, w) >= 1,
{
    lemma_fundamental_div_mod(cells as int, w as int);
    let q = cells / w;
    let m = cells % w;
    assert(cells == w * q + m);
    if cells == 0 {
        assert(rows_for(cells, w) == 1);
    } else if m == 0 {
        assert(rows_for(cells, w) * w >= cells) by (nonlinear_arith)
            requires cells == w * q, rows_for(cells, w) == q;
        assert(q >= 1) by (nonlinear_arith)
            requires cells == w * q, cells > 0;
        if j < q {
            assert(j * w < cells) by (nonlinear_arith)
                requires j < q, cells == w * q, w > 0;
        }
    } else {
        assert(rows_for(cells, w) * w >= cells) by (nonlinear_arith)
            requires cells == w * q + m, m < w, rows_for(cells, w) == q + 1;
        if j <= q {
            assert(j * w < cells) by (nonlinear_arith)
                requires j <= q, cells == w * q + m, m > 0, w > 0;
        }
    }
}

/// Every line takes at least one row, and a wider screen never makes a
/// line take more rows.
pub proof fn law_height_positive_and_monotone(line: Seq<u8>, narrow: nat, wide: nat)
    requires
        narrow <= wide,
    ensures
        line_height(line, narrow) >= 1,
        line_height(line, wide) >= 1,
        line_height(line, wide) <= line_height(line, narrow),
{
    let c = column_width_of(lossy_text_of(line));
    let wn: nat = if narrow == 0 { 1 } else { narrow };
    let ww: nat = if wide == 0 { 1 } else { wide };
    let k = rows_for(c, wn);
    assert(c <= c * wn) by (nonlinear_arith)
        requires wn >= 1;
    let big: nat = if c == 0 { 1 } else { c };
    assert(big * wn >= c) by (nonlinear_arith)
        requires wn >= 1, big >= c;
    lemma_rows_cover(c, wn, big);
    assert(k * ww >= c) by (nonlinear_arith)
        requires k * wn >= c, wn <= ww;
    lemma_rows_cover(c, ww, k);
}

} // verus!
