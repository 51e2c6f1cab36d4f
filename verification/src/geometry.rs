//! Circular-table geometry: neighbour indices modulo the table size, Evil
//! counts, and the closest-Evil and closest-corruption searches that several
//! statements are judged against.

use vstd::prelude::*;

use crate::roles::Role;
use crate::statements::{ArchitectStatement, EnlightenedStatement};

verus! {

/// The neighbour of seat `i` that is `d` steps counter-clockwise.
pub open spec fn spec_left(n: int, i: int, d: int) -> int {
    (i + n - d) % n
}

/// The neighbour of seat `i` that is `d` steps clockwise.
pub open spec fn spec_right(n: int, i: int, d: int) -> int {
    (i + d) % n
}

/// The two neighbours of a seat at a given offset, counter-clockwise first.
/// On a small table the two may coincide.
pub fn neighbor_indexes(len: usize, position: usize, offset: usize) -> (r: Vec<usize>)
    requires
        0 < len,
        position < len,
        offset <= len,
    ensures
        r@.len() == 2,
        r@[0] == spec_left(len as int, position as int, offset as int),
        r@[1] == spec_right(len as int, position as int, offset as int),
        r@[0] < len,
        r@[1] < len,
{
    let left = if position >= offset {
        position - offset
    } else {
        position + (len - offset)
    };
    let right = if offset >= len - position {
        offset - (len - position)
    } else {
        position + offset
    };
    proof {
        let n = len as int;
        let i = position as int;
        let d = offset as int;
        assert(left as int == (i + n - d) % n) by (nonlinear_arith)
            requires
                0 < n,
                0 <= i < n,
                0 <= d <= n,
                left as int == (if i >= d { i - d } else { i + (n - d) }),
        ;
        assert(right as int == (i + d) % n) by (nonlinear_arith)
            requires
                0 < n,
                0 <= i < n,
                0 <= d <= n,
                right as int == (if d >= n - i { d - (n - i) } else { i + d }),
        ;
    }
    let mut r: Vec<usize> = Vec::new();
    r.push(left);
    r.push(right);
    r
}

/// The number of Evil-aligned roles among the first `k` seats.
pub open spec fn spec_count_evil_upto(s: Seq<Role>, k: int) -> int
    decreases k,
{
    if k <= 0 {
        0
    } else {
        spec_count_evil_upto(s, k - 1) + if s[k - 1].spec_is_evil() {
            1int
        } else {
            0int
        }
    }
}

/// The number of Evil-aligned roles in a seating.
pub open spec fn spec_count_evil(s: Seq<Role>) -> int {
    spec_count_evil_upto(s, s.len() as int)
}

/// Counts the Evil-aligned roles in a seating.
pub fn count_evil(roles: &Vec<Role>) -> (r: usize)
    ensures
        r == spec_count_evil(roles@),
{
    let mut r: usize = 0;
    let mut i: usize = 0;
    while i < roles.len()
        invariant
            i <= roles@.len(),
            r == spec_count_evil_upto(roles@, i as int),
            r <= i,
        decreases roles@.len() - i,
    {
        if roles[i].is_evil() {
            r = r + 1;
        }
        i = i + 1;
    }
    r
}

/// How many of the neighbours of seat `i` at offset `d` are Evil. The two
/// neighbours form a set: on a table small enough for them to coincide,
/// that seat counts once.
pub open spec fn spec_neighbor_evil_count(s: Seq<Role>, i: int, d: int) -> int {
    let n = s.len() as int;
    if spec_left(n, i, d) == spec_right(n, i, d) {
        if s[spec_left(n, i, d)].spec_is_evil() {
            1int
        } else {
            0int
        }
    } else {
        (if s[spec_left(n, i, d)].spec_is_evil() {
            1int
        } else {
            0int
        }) + (if s[spec_right(n, i, d)].spec_is_evil() {
            1int
        } else {
            0int
        })
    }
}

/// Counts the Evil neighbours of a seat at a given offset.
pub fn count_neighbor_evil(roles: &Vec<Role>, position: usize, offset: usize) -> (r: usize)
    requires
        0 < roles@.len(),
        position < roles@.len(),
        offset <= roles@.len(),
    ensures
        r == spec_neighbor_evil_count(roles@, position as int, offset as int),
{
    let idx = neighbor_indexes(roles.len(), position, offset);
    let mut r: usize = 0;
    if roles[idx[0]].is_evil() {
        r = r + 1;
    }
    if idx[1] != idx[0] && roles[idx[1]].is_evil() {
        r = r + 1;
    }
    r
}

/// The largest offset the closest-Evil search walks out to.
pub open spec fn spec_max_evil_offset(n: int) -> int {
    (n + 1) / 2
}

/// The first offset at or after `d` where a neighbour of seat `i` is Evil;
/// the table size if the search runs past the largest offset.
pub open spec fn spec_first_evil_offset(s: Seq<Role>, i: int, d: int) -> int
    decreases spec_max_evil_offset(s.len() as int) + 1 - d,
{
    if d > spec_max_evil_offset(s.len() as int) {
        s.len() as int
    } else if spec_neighbor_evil_count(s, i, d) > 0 {
        d
    } else {
        spec_first_evil_offset(s, i, d + 1)
    }
}

/// The distance from seat `i` to the closest Evil seat: the smallest offset
/// at which a neighbour on either side is Evil. When no Evil lies within
/// half the table, the table size itself, as the policy floor.
pub open spec fn spec_closest_evil_distance(s: Seq<Role>, i: int) -> int {
    spec_first_evil_offset(s, i, 1)
}

/// Computes the distance from a seat to the closest Evil seat.
pub fn closest_evil_distance(true_roles: &Vec<Role>, position: usize) -> (r: usize)
    requires
        0 < true_roles@.len(),
        true_roles@.len() < usize::MAX,
        position < true_roles@.len(),
    ensures
        r == spec_closest_evil_distance(true_roles@, position as int),
        spec_count_evil(true_roles@) == 0 ==> r == true_roles@.len(),
{
    let n = true_roles.len();
    let max_offset = (n + 1) / 2;
    let mut d: usize = 1;
    let mut result: usize = n;
    let mut found = false;
    while d <= max_offset && !found
        invariant
            1 <= d <= max_offset + 1,
            max_offset == spec_max_evil_offset(n as int),
            n == true_roles@.len(),
            position < n,
            !found ==> spec_closest_evil_distance(true_roles@, position as int)
                == spec_first_evil_offset(true_roles@, position as int, d as int),
            found ==> d <= max_offset + 1 && result == spec_closest_evil_distance(
                true_roles@,
                position as int,
            ),
            !found ==> result == n,
        decreases max_offset + 1 - d, (if found { 0int } else { 1int }),
    {
        if count_neighbor_evil(true_roles, position, d) > 0 {
            result = d;
            found = true;
        } else {
            d = d + 1;
        }
    }
    proof {
        if !found {
            assert(spec_first_evil_offset(true_roles@, position as int, d as int) == n);
        }
        if spec_count_evil(true_roles@) == 0 {
            lemma_count_evil_zero(true_roles@, true_roles@.len() as int);
            assert(spec_closest_evil_distance(true_roles@, position as int)
                == true_roles@.len()) by {
                lemma_no_evil_first_offset(true_roles@, position as int, 1);
            }
        }
    }
    result
}

/// A partial Evil count is never negative.
pub proof fn lemma_count_evil_nonneg(s: Seq<Role>, k: int)
    ensures
        spec_count_evil_upto(s, k) >= 0,
    decreases k,
{
    if k > 0 {
        lemma_count_evil_nonneg(s, k - 1);
    }
}

/// With a zero Evil count, no seat is Evil.
proof fn lemma_count_evil_zero(s: Seq<Role>, k: int)
    requires
        spec_count_evil_upto(s, k) == 0,
    ensures
        forall|j: int| 0 <= j < k ==> !s[j].spec_is_evil(),
    decreases k,
{
    if k > 0 {
        lemma_count_evil_nonneg(s, k - 1);
        lemma_count_evil_zero(s, k - 1);
    }
}

/// With no Evil seat at all, the direction search falls through to
/// Equidistant.
proof fn lemma_no_evil_direction(s: Seq<Role>, i: int, d: int)
    requires
        0 < s.len(),
        0 <= i < s.len(),
        1 <= d,
        forall|j: int| 0 <= j < s.len() ==> !s[j].spec_is_evil(),
    ensures
        spec_direction_from(s, i, d) == EnlightenedStatement::Equidistant,
    decreases spec_max_evil_offset(s.len() as int) + 1 - d,
{
    let n = s.len() as int;
    if d <= spec_max_evil_offset(n) {
        assert(0 <= spec_left(n, i, d) < n) by (nonlinear_arith)
            requires
                n > 0,
        ;
        assert(0 <= spec_right(n, i, d) < n) by (nonlinear_arith)
            requires
                n > 0,
        ;
        lemma_no_evil_direction(s, i, d + 1);
    }
}

/// With no Evil seat at all, the closest-Evil search falls through to the
/// policy floor.
proof fn lemma_no_evil_first_offset(s: Seq<Role>, i: int, d: int)
    requires
        0 < s.len(),
        0 <= i < s.len(),
        1 <= d,
        forall|j: int| 0 <= j < s.len() ==> !s[j].spec_is_evil(),
    ensures
        spec_first_evil_offset(s, i, d) == s.len(),
    decreases spec_max_evil_offset(s.len() as int) + 1 - d,
{
    let n = s.len() as int;
    if d <= spec_max_evil_offset(n) {
        assert(0 <= spec_left(n, i, d) < n) by (nonlinear_arith)
            requires
                n > 0,
        ;
        assert(0 <= spec_right(n, i, d) < n) by (nonlinear_arith)
            requires
                n > 0,
        ;
        lemma_no_evil_first_offset(s, i, d + 1);
    }
}

/// The direction of the closest Evil seat from seat `i`, walking outward
/// from offset `d`: the first offset where exactly one side is Evil decides;
/// both sides at once, or no Evil within half the table, give Equidistant.
pub open spec fn spec_direction_from(s: Seq<Role>, i: int, d: int) -> EnlightenedStatement
    decreases spec_max_evil_offset(s.len() as int) + 1 - d,
{
    let n = s.len() as int;
    if d > spec_max_evil_offset(n) {
        EnlightenedStatement::Equidistant
    } else {
        let left_evil = s[spec_left(n, i, d)].spec_is_evil();
        let right_evil = s[spec_right(n, i, d)].spec_is_evil();
        if left_evil && right_evil {
            EnlightenedStatement::Equidistant
        } else if left_evil {
            EnlightenedStatement::CounterClockwise
        } else if right_evil {
            EnlightenedStatement::Clockwise
        } else {
            spec_direction_from(s, i, d + 1)
        }
    }
}

/// The direction of the closest Evil seat from seat `i`.
pub open spec fn spec_closest_evil_direction(s: Seq<Role>, i: int) -> EnlightenedStatement {
    spec_direction_from(s, i, 1)
}

/// Computes the direction of the closest Evil seat from a seat.
pub fn closest_evil_direction(true_roles: &Vec<Role>, position: usize) -> (r: EnlightenedStatement)
    requires
        0 < true_roles@.len(),
        true_roles@.len() < usize::MAX,
        position < true_roles@.len(),
    ensures
        r == spec_closest_evil_direction(true_roles@, position as int),
        spec_count_evil(true_roles@) == 0 ==> r == EnlightenedStatement::Equidistant,
{
    let n = true_roles.len();
    let max_offset = (n + 1) / 2;
    let mut d: usize = 1;
    let mut result = EnlightenedStatement::Equidistant;
    let mut found = false;
    while d <= max_offset && !found
        invariant
            1 <= d <= max_offset + 1,
            max_offset == spec_max_evil_offset(n as int),
            n == true_roles@.len(),
            position < n,
            !found ==> spec_closest_evil_direction(true_roles@, position as int)
                == spec_direction_from(true_roles@, position as int, d as int),
            found ==> result == spec_closest_evil_direction(true_roles@, position as int),
            !found ==> result == EnlightenedStatement::Equidistant,
        decreases max_offset + 1 - d, (if found { 0int } else { 1int }),
    {
        let idx = neighbor_indexes(n, position, d);
        let left_evil = true_roles[idx[0]].is_evil();
        let right_evil = true_roles[idx[1]].is_evil();
        if left_evil && right_evil {
            result = EnlightenedStatement::Equidistant;
            found = true;
        } else if left_evil {
            result = EnlightenedStatement::CounterClockwise;
            found = true;
        } else if right_evil {
            result = EnlightenedStatement::Clockwise;
            found = true;
        } else {
            d = d + 1;
        }
    }
    proof {
        if spec_count_evil(true_roles@) == 0 {
            lemma_count_evil_zero(true_roles@, true_roles@.len() as int);
            lemma_no_evil_direction(true_roles@, position as int, 1);
        }
    }
    result
}

/// The first offset at or after `d` where a neighbour of seat `i` is
/// corrupted, if any lies within the search bound.
pub open spec fn spec_first_corrupt_offset(c: Seq<bool>, i: int, d: int) -> Option<int>
    decreases c.len() / 2 + 2 - d,
{
    let n = c.len() as int;
    if d > n / 2 + 1 {
        None
    } else if c[spec_left(n, i, d)] || c[spec_right(n, i, d)] {
        Some(d)
    } else {
        spec_first_corrupt_offset(c, i, d + 1)
    }
}

/// The distance from seat `i` to the closest corrupted seat, or `None` when
/// no corruption lies within the search bound.
pub open spec fn spec_closest_corrupt_distance(c: Seq<bool>, i: int) -> Option<int> {
    spec_first_corrupt_offset(c, i, 1)
}

/// Computes the distance from a seat to the closest corrupted seat.
pub fn closest_corrupt_distance(corruptions: &Vec<bool>, position: usize) -> (r: Option<usize>)
    requires
        0 < corruptions@.len(),
        position < corruptions@.len(),
    ensures
        (match r {
            Some(d) => spec_closest_corrupt_distance(corruptions@, position as int)
                == Some(d as int),
            None => spec_closest_corrupt_distance(corruptions@, position as int) is None,
        }),
{
    let n = corruptions.len();
    let max_distance = n / 2 + 1;
    let mut d: usize = 1;
    let mut result: Option<usize> = None;
    let mut found = false;
    while d <= max_distance && !found
        invariant
            1 <= d <= max_distance + 1,
            max_distance == n / 2 + 1,
            n == corruptions@.len(),
            position < n,
            max_distance <= n,
            !found ==> spec_closest_corrupt_distance(corruptions@, position as int)
                == spec_first_corrupt_offset(corruptions@, position as int, d as int),
            !found ==> result is None,
            found ==> (match result {
                Some(rd) => spec_closest_corrupt_distance(corruptions@, position as int)
                    == Some(rd as int),
                None => false,
            }),
        decreases max_distance + 1 - d, (if found { 0int } else { 1int }),
    {
        let idx = neighbor_indexes(n, position, d);
        if corruptions[idx[0]] || corruptions[idx[1]] {
            result = Some(d);
            found = true;
        } else {
            d = d + 1;
        }
    }
    result
}

/// The number of adjacent Evil pairs around the circular table, counting the
/// edge between each seat and its clockwise neighbour once; a table of fewer
/// than two seats has no pairs.
pub open spec fn spec_evil_pairs_upto(s: Seq<Role>, k: int) -> int
    decreases k,
{
    if k <= 0 {
        0
    } else {
        spec_evil_pairs_upto(s, k - 1) + if s[k - 1].spec_is_evil() && s[(k - 1 + 1)
            % (s.len() as int)].spec_is_evil() {
            1int
        } else {
            0int
        }
    }
}

/// The number of adjacent Evil pairs around the circular table.
pub open spec fn spec_count_evil_pairs(s: Seq<Role>) -> int {
    if s.len() < 2 {
        0
    } else if s.len() == 2 {
        if s[0].spec_is_evil() && s[1].spec_is_evil() {
            1
        } else {
            0
        }
    } else {
        spec_evil_pairs_upto(s, s.len() as int)
    }
}

/// Counts the adjacent Evil pairs around the circular table.
pub fn count_evil_pairs(true_roles: &Vec<Role>) -> (r: usize)
    ensures
        r == spec_count_evil_pairs(true_roles@),
{
    let n = true_roles.len();
    if n < 2 {
        return 0;
    }
    if n == 2 {
        if true_roles[0].is_evil() && true_roles[1].is_evil() {
            return 1;
        } else {
            return 0;
        }
    }
    let mut r: usize = 0;
    let mut i: usize = 0;
    while i < n
        invariant
            i <= n,
            n == true_roles@.len(),
            n >= 3,
            r == spec_evil_pairs_upto(true_roles@, i as int),
            r <= i,
        decreases n - i,
    {
        if true_roles[i].is_evil() && true_roles[(i + 1) % n].is_evil() {
            r = r + 1;
        }
        i = i + 1;
    }
    r
}

/// Which side of the table holds more Evil. The split is absolute, not
/// relative to a speaker: the first half of the seats is one side, the
/// seats after the midpoint — the last seat excluded — are the other.
pub open spec fn spec_side_evils(s: Seq<Role>) -> ArchitectStatement {
    let n = s.len() as int;
    let half = n / 2;
    let second_half_start = if n % 2 == 0 {
        half
    } else {
        half + 1
    };
    let right = spec_count_evil(s.subrange(0, half));
    let left = spec_count_evil(s.subrange(second_half_start, n - 1));
    if left > right {
        ArchitectStatement::Left
    } else if left < right {
        ArchitectStatement::Right
    } else {
        ArchitectStatement::Equal
    }
}

/// Compares the Evil counts of the two sides of the table: the first half
/// against the seats after the midpoint, the last seat excluded.
pub fn count_side_evils(true_roles: &Vec<Role>) -> (r: ArchitectStatement)
    requires
        true_roles@.len() >= 2,
    ensures
        r == spec_side_evils(true_roles@),
{
    let n = true_roles.len();
    let half = n / 2;
    let second_half_start = if n % 2 == 0 {
        half
    } else {
        half + 1
    };
    let mut right: usize = 0;
    let mut i: usize = 0;
    while i < half
        invariant
            i <= half,
            half == n / 2,
            n == true_roles@.len(),
            right == spec_count_evil_upto(true_roles@.subrange(0, half as int), i as int),
            right <= i,
        decreases half - i,
    {
        proof {
            assert(true_roles@.subrange(0, half as int)[i as int] == true_roles@[i as int]);
        }
        if true_roles[i].is_evil() {
            right = right + 1;
        }
        i = i + 1;
    }
    let mut left: usize = 0;
    let mut j: usize = second_half_start;
    while j < n - 1
        invariant
            second_half_start <= j <= n - 1 || j == second_half_start,
            n == true_roles@.len(),
            n >= 2,
            second_half_start == (if n % 2 == 0 { (n / 2) as int } else { n / 2 + 1 }),
            second_half_start <= n - 1,
            left == spec_count_evil_upto(
                true_roles@.subrange(second_half_start as int, n as int - 1),
                j as int - second_half_start as int,
            ),
            left <= j,
        decreases n - 1 - j,
    {
        proof {
            assert(true_roles@.subrange(second_half_start as int, n as int - 1)[j as int
                - second_half_start as int] == true_roles@[j as int]);
        }
        if true_roles[j].is_evil() {
            left = left + 1;
        }
        j = j + 1;
    }
    if left > right {
        ArchitectStatement::Left
    } else if left < right {
        ArchitectStatement::Right
    } else {
        ArchitectStatement::Equal
    }
}

} // verus!
