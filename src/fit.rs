//! Whether the content of a set of sources fits on one screen.
use vstd::prelude::*;
use crate::line::{height, line_height, law_height_positive_and_monotone};
use crate::source::Source;

verus! {

/// The rows that `lines` take together when wrapped at `width` columns.
pub open spec fn rows_of_lines(lines: Seq<Seq<u8>>, width: nat) -> nat
    decreases lines.len(),
{
    if lines.len() == 0 {
        0
    } else {
        rows_of_lines(lines.drop_last(), width) + line_height(lines.last(), width)
    }
}

/// The lines of each source, in order.
pub open spec fn source_lines(files: Seq<Source>) -> Seq<Seq<Seq<u8>>> {
    files.map_values(|f: Source| f.lines_view())
}

/// The rows that all lines of all sources take together.
pub open spec fn total_rows(files: Seq<Seq<Seq<u8>>>, width: nat) -> nat
    decreases files.len(),
{
    if files.len() == 0 {
        0
    } else {
        total_rows(files.drop_last(), width) + rows_of_lines(files.last(), width)
    }
}

proof fn lemma_rows_step(lines: Seq<Seq<u8>>, i: int, width: nat)
    requires
        0 <= i < lines.len(),
    ensures
        rows_of_lines(lines.take(i + 1), width)
            == rows_of_lines(lines.take(i), width) + line_height(lines[i], width),
{
    assert(lines.take(i + 1).drop_last() =~= lines.take(i));
}

proof fn lemma_rows_bounds(lines: Seq<Seq<u8>>, i: int, width: nat)
    requires
        0 <= i <= lines.len(),
    ensures
        rows_of_lines(lines.take(i), width) + (lines.len() - i) <= rows_of_lines(lines, width),
    decreases lines.len() - i,
{
    if i == lines.len() {
        assert(lines.take(i) =~= lines);
    } else {
        lemma_rows_step(lines, i, width);
        law_height_positive_and_monotone(lines[i], width, width);
        lemma_rows_bounds(lines, i + 1, width);
    }
}

proof fn lemma_total_step(files: Seq<Seq<Seq<u8>>>, k: int, width: nat)
    requires
        0 <= k < files.len(),
    ensures
        total_rows(files.take(k + 1), width)
            == total_rows(files.take(k), width) + rows_of_lines(files[k], width),
{
    assert(files.take(k + 1).drop_last() =~= files.take(k));
}

proof fn lemma_total_bounds(files: Seq<Seq<Seq<u8>>>, k: int, width: nat)
    requires
        0 <= k <= files.len(),
    ensures
        total_rows(files.take(k), width) <= total_rows(files, width),
        k < files.len() ==> total_rows(files.take(k), width) + rows_of_lines(files[k], width)
            <= total_rows(files, width),
    decreases files.len() - k,
{
    if k == files.len() {
        assert(files.take(k) =~= files);
    } else {
        lemma_total_step(files, k, width);
        lemma_total_bounds(files, k + 1, width);
    }
}

/// Whether every line of every source, wrapped at `w` columns, fits in `h`
/// rows. Stops reading as soon as the rows counted pass `h`.
pub fn files_fit(files: &[Source], w: usize, h: usize) -> (r: bool)
    ensures
        r == (total_rows(source_lines(files@), w as nat) <= h),
{
    let ghost views = source_lines(files@);
    let mut wrapped: usize = 0;
    let mut fi: usize = 0;
    while fi < files.len()
        invariant
            0 <= fi <= files@.len(),
            views == source_lines(files@),
            wrapped as nat == total_rows(views.take(fi as int), w as nat),
            wrapped <= h,
        decreases files@.len() - fi,
    {
        let file = &files[fi];
        let ghost lines_v = file.lines_view();
        assert(views[fi as int] == lines_v);
        let lines = file.line_count();
        if lines > h - wrapped {
            proof {
                lemma_rows_bounds(lines_v, 0, w as nat);
                assert(lines_v.take(0) =~= Seq::<Seq<u8>>::empty());
                lemma_total_bounds(views, fi as int, w as nat);
            }
            return false;
        }
        let mut i: usize = 0;
        while i < lines
            invariant
                0 <= i <= lines,
                lines == lines_v.len(),
                lines_v == file.lines_view(),
                views[fi as int] == lines_v,
                fi < files@.len(),
                views.len() == files@.len(),
                views == source_lines(files@),
                wrapped as nat == total_rows(views.take(fi as int), w as nat)
                    + rows_of_lines(lines_v.take(i as int), w as nat),
                wrapped <= h,
            decreases lines - i,
        {
            let hgt = file.with_line(i, |line: &[u8]| -> (r: usize)
                ensures
                    r as nat == line_height(line@, w as nat),
                { height(line, w) }).unwrap_or(0);
            proof {
                lemma_rows_step(lines_v, i as int, w as nat);
            }
            assert(hgt as nat == line_height(lines_v[i as int], w as nat));
            if hgt > h - wrapped {
                proof {
                    lemma_rows_bounds(lines_v, i as int + 1, w as nat);
                    lemma_total_bounds(views, fi as int, w as nat);
                }
                return false;
            }
            wrapped = wrapped + hgt;
            i = i + 1;
        }
        proof {
            assert(lines_v.take(lines as int) =~= lines_v);
            lemma_total_step(views, fi as int, w as nat);
        }
        fi = fi + 1;
    }
    proof {
        assert(views.take(files@.len() as int) =~= views);
    }
    true
}

} // verus!
