//! Aggregation of product ratings.
//!
//! The catalog listing shows each product's average star rating. The exact
//! part — summing and counting the star values that were actually given — is
//! verified here; the caller divides the sum by the count for display.

use vstd::prelude::*;

verus! {

/// The sum of the star values that were given; a rating without stars
/// contributes nothing.
pub open spec fn stars_sum(s: Seq<Option<i32>>) -> int
    decreases s.len(),
{
    if s.len() == 0 {
        0
    } else {
        stars_sum(s.drop_last()) + (match s.last() {
            Some(v) => v as int,
            None => 0,
        })
    }
}

/// How many ratings carry a star value at all.
pub open spec fn stars_count(s: Seq<Option<i32>>) -> int
    decreases s.len(),
{
    if s.len() == 0 {
        0
    } else {
        stars_count(s.drop_last()) + (if s.last() is Some {
            1int
        } else {
            0int
        })
    }
}

/// Sums and counts the star values that were given, skipping ratings
/// without stars. The caller derives the average as sum over count when the
/// count is positive.
pub fn stars_summary(stars: &Vec<Option<i32>>) -> (r: (i128, usize))
    ensures
        r.0 == stars_sum(stars@),
        r.1 == stars_count(stars@),
{
    let n = stars.len();
    let mut sum: i128 = 0;
    let mut count: usize = 0;
    let mut i: usize = 0;
    while i < n
        invariant
            0 <= i <= n,
            n == stars@.len(),
            sum == stars_sum(stars@.take(i as int)),
            count == stars_count(stars@.take(i as int)),
            -(i as int) * 2147483648 <= sum <= (i as int) * 2147483648,
            count <= i,
        decreases n - i,
    {
        proof {
            assert(stars@.take(i + 1 as int).drop_last() =~= stars@.take(i as int));
            assert(stars@.take(i + 1 as int).last() == stars@[i as int]);
        }
        match stars[i] {
            Some(v) => {
                sum = sum + (v as i128);
                count = count + 1;
            },
            None => {},
        }
        i = i + 1;
    }
    proof {
        assert(stars@.take(n as int) =~= stars@);
    }
    (sum, count)
}

} // verus!
