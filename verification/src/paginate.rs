//! Grouping of reflowed lines into fixed-size pages.
//!
//! The page count is `ceil(line_count / lines_per_page)` with a floor
//! of one page, so empty text still yields a single blank page.  Pages
//! are addressed by a 1-based index; asking for an index out of range
//! is an error, never a silent clamp.

use vstd::prelude::*;

verus! {

/// Errors surfaced by the pagination pipeline.
#[derive(Clone, Copy, Debug, PartialEq, Eq, Structural)]
pub enum PageError {
    /// A 1-based page index below 1 or above the page count.
    OutOfRangePageIndex,
}

/// Total number of pages for `line_count` lines at `lines_per_page`
/// lines each: the ceiling of their quotient, but at least 1.
pub open spec fn spec_page_count(line_count: nat, lines_per_page: nat) -> nat
    recommends
        lines_per_page >= 1,
{
    if line_count == 0 {
        1
    } else {
        ((line_count + lines_per_page - 1) / lines_per_page as int) as nat
    }
}

/// The page count is never below 1, and a non-empty line list needs
/// exactly as many pages as fit its lines: `count * lines_per_page`
/// reaches `line_count`, and one page fewer would not.
pub proof fn lemma_page_count_bounds(line_count: nat, lines_per_page: nat)
    requires
        lines_per_page >= 1,
    ensures
        spec_page_count(line_count, lines_per_page) >= 1,
        spec_page_count(line_count, lines_per_page) * lines_per_page >= line_count,
        line_count > 0 ==> (spec_page_count(line_count, lines_per_page) - 1) * lines_per_page
            < line_count,
{
    let c = spec_page_count(line_count, lines_per_page);
    if line_count == 0 {
        assert(c == 1);
        assert(c * lines_per_page >= 0) by (nonlinear_arith)
            requires
                c >= 1,
                lines_per_page >= 1,
        ;
    } else {
        let n = line_count as int;
        let l = lines_per_page as int;
        assert(c == (n + l - 1) / l);
        assert((n + l - 1) / l >= 1 && (n + l - 1) / l * l >= n && ((n + l - 1) / l - 1) * l < n)
            by (nonlinear_arith)
            requires
                n >= 1,
                l >= 1,
        ;
    }
}

/// Number of pages needed for `line_count` lines.
pub fn page_count(line_count: usize, lines_per_page: usize) -> (r: usize)
    requires
        lines_per_page >= 1,
        line_count + lines_per_page <= usize::MAX,
    ensures
        r as nat == spec_page_count(line_count as nat, lines_per_page as nat),
        r >= 1,
{
    if line_count == 0 {
        1
    } else {
        let r = (line_count + lines_per_page - 1) / lines_per_page;
        proof {
            lemma_page_count_bounds(line_count as nat, lines_per_page as nat);
        }
        r
    }
}

/// The lines of page `page_index` (1-based): the slice
/// `[(page_index-1)*lines_per_page .. page_index*lines_per_page)`
/// of `all_lines`, clipped to the available lines.  An index out of
/// `1 ..= page_count` is refused.
pub fn lines_for_page(all_lines: &Vec<String>, page_index: usize, lines_per_page: usize) -> (r:
    Result<Vec<String>, PageError>)
    requires
        lines_per_page >= 1,
        all_lines@.len() + lines_per_page <= usize::MAX,
    ensures
        r is Ok <==> 1 <= page_index
            <= spec_page_count(all_lines@.len(), lines_per_page as nat),
        (r matches Ok(v) ==> v@ == all_lines@.subrange(
            (page_index - 1) * lines_per_page,
            vstd::math::min(page_index * lines_per_page as int, all_lines@.len() as int),
        )),
        (r matches Err(e) ==> e == PageError::OutOfRangePageIndex),
{
    let count = page_count(all_lines.len(), lines_per_page);
    if page_index < 1 || page_index > count {
        return Err(PageError::OutOfRangePageIndex);
    }
    proof {
        lemma_page_count_bounds(all_lines@.len(), lines_per_page as nat);
        assert((page_index - 1) * lines_per_page <= all_lines@.len()) by (nonlinear_arith)
            requires
                1 <= page_index <= spec_page_count(all_lines@.len(), lines_per_page as nat),
                lines_per_page >= 1,
                spec_page_count(all_lines@.len(), lines_per_page as nat) * lines_per_page
                    >= all_lines@.len(),
                all_lines@.len() > 0 ==> (spec_page_count(
                    all_lines@.len(),
                    lines_per_page as nat,
                ) - 1) * lines_per_page < all_lines@.len(),
                all_lines@.len() == 0 ==> page_index == 1,
        ;
    }
    let start = (page_index - 1) * lines_per_page;
    let end = if start + lines_per_page <= all_lines.len() {
        start + lines_per_page
    } else {
        all_lines.len()
    };
    let mut v: Vec<String> = Vec::new();
    let mut i = start;
    while i < end
        invariant
            start <= i <= end <= all_lines@.len(),
            v@.len() == i - start,
            forall|j: int| 0 <= j < v@.len() ==> v@[j] == all_lines@[start + j],
        decreases end - i,
    {
        v.push(all_lines[i].clone());
        i += 1;
    }
    proof {
        assert(page_index * (lines_per_page as int) == start + lines_per_page) by (nonlinear_arith)
            requires
                page_index >= 1,
                start == (page_index - 1) * lines_per_page,
        ;
        assert(v@ =~= all_lines@.subrange(
            start as int,
            vstd::math::min(page_index * lines_per_page as int, all_lines@.len() as int),
        ));
    }
    Ok(v)
}

} // verus!
