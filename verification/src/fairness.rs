//! Per-user fairness accountant.
//!
//! Each user holds one credit row, one entry per worker, initialized to
//! `fill_size`. A selection deducts the request's character count from the
//! chosen worker's credit; a worker qualifies only while its credit
//! strictly exceeds that count. When no worker qualifies, the whole row is
//! refilled by `fill_size` and the scan retries, which always succeeds
//! after at most `d / fill_size + 1` refills.

use vstd::prelude::*;
use crate::text::chars_eq;

verus! {

/// Upper bound kept on every credit: credits start at `fill_size`, only
/// shrink between refills, and a refill raises a row only when every entry
/// is at most the deduction, so no entry ever exceeds one deduction plus
/// one fill.
pub open spec fn credit_cap() -> int {
    8 * (usize::MAX as int)
}

pub struct FairnessAccountant {
    pub fill_size: usize,
    pub num_workers: usize,
    pub users: Vec<Vec<char>>,
    pub credits: Vec<Vec<i128>>,
}

/// What one fairness selection does to a user's credit row: after `k`
/// refills of the whole row, `r` is the qualifying worker with the best
/// score (ties to the lowest index), no earlier refill count would have
/// produced a qualifying worker, and exactly `r`'s credit is reduced by
/// the deduction `d`.
pub open spec fn scored_select_post(
    before: Seq<i128>,
    after: Seq<i128>,
    scores: Seq<usize>,
    d: int,
    fill: int,
    k: int,
    r: int,
) -> bool {
    &&& 0 <= r < before.len()
    &&& scores.len() == before.len()
    &&& k >= 0
    &&& before[r] + k * fill > d
    &&& forall|w: int|
        0 <= w < before.len() && (#[trigger] before[w]) + k * fill > d ==> (scores[w] < scores[r]
            || (scores[w] == scores[r] && r <= w))
    &&& (k > 0 ==> forall|w: int| 0 <= w < before.len() ==> (#[trigger] before[w]) + (k - 1)
        * fill <= d)
    &&& after.len() == before.len()
    &&& forall|w: int| 0 <= w < before.len() && w != r ==> (#[trigger] after[w]) == before[w] + k
        * fill
    &&& after[r] == before[r] + k * fill - d
}

impl FairnessAccountant {
    pub open spec fn wf(self) -> bool {
        &&& self.fill_size >= 1
        &&& self.users@.len() == self.credits@.len()
        &&& forall|i: int|
            0 <= i < self.credits@.len() ==> (#[trigger] self.credits@[i]@).len()
                == self.num_workers
        &&& forall|i: int, j: int|
            0 <= i < self.users@.len() && 0 <= j < self.users@.len() && i != j ==> (
            #[trigger] self.users@[i])@ != (#[trigger] self.users@[j])@
        &&& forall|i: int, w: int|
            0 <= i < self.credits@.len() && 0 <= w < self.num_workers ==> 0 <= (
            #[trigger] self.credits@[i]@[w]) <= credit_cap()
    }

    /// The accountant knows a row for user `u`.
    pub open spec fn has_user(self, u: Seq<char>) -> bool {
        exists|i: int| 0 <= i < self.users@.len() && (#[trigger] self.users@[i])@ == u
    }

    /// A fresh accountant with no user rows.
    pub fn new(fill_size: usize, num_workers: usize) -> (r: FairnessAccountant)
        requires
            fill_size >= 1,
        ensures
            r.wf(),
            r.fill_size == fill_size,
            r.num_workers == num_workers,
            r.users@.len() == 0,
    {
        FairnessAccountant {
            fill_size,
            num_workers,
            users: Vec::new(),
            credits: Vec::new(),
        }
    }

    /// Row index for `user`, lazily creating the row with every worker
    /// credited `fill_size`.
    #[verifier::loop_isolation(false)]
    pub fn ensure_user(&mut self, user: &Vec<char>) -> (idx: usize)
        requires
            old(self).wf(),
        ensures
            final(self).wf(),
            final(self).num_workers == old(self).num_workers,
            final(self).fill_size == old(self).fill_size,
            idx < final(self).users@.len(),
            final(self).users@.len() == final(self).credits@.len(),
            final(self).users@[idx as int]@ == user@,
            old(self).has_user(user@) ==> *final(self) == *old(self),
            !old(self).has_user(user@) ==> {
                &&& final(self).users@.len() == old(self).users@.len() + 1
                &&& idx == old(self).users@.len()
                &&& forall|j: int|
                    0 <= j < old(self).users@.len() ==> (#[trigger] final(self).users@[j])
                        == old(self).users@[j] && final(self).credits@[j] == old(self).credits@[j]
                &&& forall|w: int|
                    0 <= w < old(self).num_workers ==> (#[trigger] final(self).credits@[idx
                        as int]@[w]) == old(self).fill_size as int
            },
    {
        let mut i: usize = 0;
        while i < self.users.len()
            invariant
                i <= self.users@.len(),
                forall|j: int| 0 <= j < i ==> (#[trigger] self.users@[j])@ != user@,
            decreases self.users@.len() - i,
        {
            if chars_eq(&self.users[i], user) {
                proof {
                    assert(self.users@[i as int]@ == user@);
                }
                return i;
            }
            i += 1;
        }
        let idx = self.users.len();
        let copy = crate::text::prefix_vec(user, user.len());
        proof {
            assert(copy@ =~= user@);
            assert(!self.has_user(user@));
        }
        self.users.push(copy);
        let row = vec![self.fill_size as i128; self.num_workers];
        self.credits.push(row);
        idx
    }

    /// Selects a worker for one request of a user: the qualifying worker
    /// with the best score (longest prefix match first, ties to the lowest
    /// worker index), refilling the whole row by `fill_size` as often as
    /// needed — never more than `d / fill_size + 1` times — and deducting
    /// `d` from the chosen worker's credit.
    #[verifier::loop_isolation(false)]
    pub fn select_scored(&mut self, idx: usize, d: usize, scores: &Vec<usize>) -> (r: usize)
        requires
            old(self).wf(),
            idx < old(self).credits@.len(),
            old(self).num_workers >= 1,
            scores@.len() == old(self).num_workers,
        ensures
            final(self).wf(),
            final(self).num_workers == old(self).num_workers,
            final(self).fill_size == old(self).fill_size,
            final(self).users@ == old(self).users@,
            final(self).credits@.len() == old(self).credits@.len(),
            forall|j: int|
                0 <= j < old(self).credits@.len() && j != idx
                    ==> (#[trigger] final(self).credits@[j]) == old(self).credits@[j],
            r < old(self).num_workers,
            exists|k: int|
                #[trigger] scored_select_post(
                    old(self).credits@[idx as int]@,
                    final(self).credits@[idx as int]@,
                    scores@,
                    d as int,
                    old(self).fill_size as int,
                    k,
                    r as int,
                ),
    {
        let ghost row0 = self.credits@[idx as int]@;
        let fill = self.fill_size;
        let ghost mut k: int = 0;
        let ghost mut kf: int = 0;
        loop
            invariant
                self.wf(),
                self.num_workers == old(self).num_workers,
                self.fill_size == old(self).fill_size,
                self.users@ == old(self).users@,
                self.credits@.len() == old(self).credits@.len(),
                forall|j: int|
                    0 <= j < old(self).credits@.len() && j != idx ==> (#[trigger] self.credits@[j])
                        == old(self).credits@[j],
                k >= 0,
                kf == k * fill,
                0 <= kf <= d as int + fill as int,
                k <= (d as int) / (fill as int) + 1,
                forall|w: int|
                    0 <= w < self.num_workers ==> (#[trigger] self.credits@[idx as int]@[w])
                        == row0[w] + kf,
                k > 0 ==> forall|w: int|
                    0 <= w < self.num_workers ==> (#[trigger] row0[w]) + kf - (fill as int) <= (
                    d as int),
            decreases (d as int) / (fill as int) + 1 - k,
        {
            let mut found: bool = false;
            let mut sel: usize = 0;
            let mut w2: usize = 0;
            while w2 < self.num_workers
                invariant
                    w2 <= self.num_workers,
                    found ==> sel < w2,
                    found ==> self.credits@[idx as int]@[sel as int] - d as int > 0,
                    found ==> forall|q: int|
                        0 <= q < w2 && (#[trigger] self.credits@[idx as int]@[q]) - d as int > 0
                            ==> (scores@[q] < scores@[sel as int] || (scores@[q] == scores@[sel
                            as int] && sel <= q)),
                    !found ==> forall|q: int|
                        0 <= q < w2 ==> (#[trigger] self.credits@[idx as int]@[q]) - d as int
                            <= 0,
                decreases self.num_workers - w2,
            {
                let c = self.credits[idx][w2];
                if c - (d as i128) > 0 {
                    if !found || scores[w2] > scores[sel] {
                        sel = w2;
                        found = true;
                    }
                }
                w2 += 1;
            }
            if found {
                let ghost cur = self.credits@[idx as int]@;
                let c = self.credits[idx][sel];
                self.credits[idx][sel] = c - (d as i128);
                proof {
                    let fi = fill as int;
                    let di = d as int;
                    assert((k - 1) * fi == kf - fi) by (nonlinear_arith)
                        requires
                            kf == k * fi,
                    ;
                    assert(self.credits@[idx as int]@[sel as int] == cur[sel as int] - d as int);
                    assert forall|w: int|
                        0 <= w < row0.len() && w != sel implies (#[trigger] self.credits@[idx
                        as int]@[w]) == cur[w] by {}
                    assert(row0.len() == self.num_workers);
                    assert forall|w: int|
                        0 <= w < row0.len() && (#[trigger] row0[w]) + k * fi > di implies (
                    scores@[w] < scores@[sel as int] || (scores@[w] == scores@[sel as int] && sel
                        <= w)) by {
                        assert(cur[w] == row0[w] + kf);
                        assert(cur[w] - di > 0);
                    }
                    assert forall|w: int|
                        0 <= w < row0.len() && w != sel implies (#[trigger] self.credits@[idx
                        as int]@[w]) == row0[w] + k * fi by {
                        assert(cur[w] == row0[w] + kf);
                    }
                    assert(self.credits@[idx as int]@[sel as int] == row0[sel as int] + k * fi
                        - di);
                    assert(row0[sel as int] + k * fi > di);
                    // the mutated row still honours the credit cap
                    assert forall|w: int|
                        0 <= w < row0.len() implies 0 <= (#[trigger] self.credits@[idx
                        as int]@[w]) <= credit_cap() by {
                        if k > 0 {
                            assert(row0[w] + kf - fi <= di);
                        } else {
                            assert(cur[w] == row0[w]);
                        }
                    }
                    assert(scored_select_post(
                        row0,
                        self.credits@[idx as int]@,
                        scores@,
                        di,
                        fi,
                        k,
                        sel as int,
                    ));
                }
                return sel;
            }
            proof {
                assert(self.num_workers >= 1);
                assert(self.credits@[idx as int]@[0] - d as int <= 0);
                assert(row0[0] + kf <= d as int);
                assert(row0[0] >= 0);
                assert(kf <= d as int);
                assert(k < (d as int) / (fill as int) + 1) by {
                    if k >= (d as int) / (fill as int) + 1 {
                        assert(k == (d as int) / (fill as int) + 1);
                        assert(kf == ((d as int) / (fill as int) + 1) * (fill as int));
                        assert(((d as int) / (fill as int) + 1) * (fill as int) > d as int)
                            by (nonlinear_arith)
                            requires
                                fill >= 1,
                                d >= 0,
                        ;
                        assert(false);
                    }
                }
                assert forall|w: int|
                    0 <= w < self.num_workers implies (#[trigger] row0[w]) + kf <= d as int by {
                    assert(self.credits@[idx as int]@[w] - d as int <= 0);
                    assert(self.credits@[idx as int]@[w] == row0[w] + kf);
                }
            }
            let mut w3: usize = 0;
            while w3 < self.num_workers
                invariant
                    w3 <= self.num_workers,
                    forall|w: int|
                        0 <= w < w3 ==> (#[trigger] self.credits@[idx as int]@[w]) == row0[w] + kf
                            + fill as int,
                    forall|w: int|
                        w3 <= w < self.num_workers ==> (#[trigger] self.credits@[idx
                            as int]@[w]) == row0[w] + kf,
                    forall|w: int|
                        0 <= w < self.num_workers ==> (#[trigger] row0[w]) + kf <= d as int,
                    forall|j: int|
                        0 <= j < old(self).credits@.len() && j != idx ==> (
                        #[trigger] self.credits@[j]) == old(self).credits@[j],
                    self.credits@.len() == old(self).credits@.len(),
                    self.num_workers == old(self).num_workers,
                    self.fill_size == old(self).fill_size,
                    self.users@ == old(self).users@,
                    forall|i2: int|
                        0 <= i2 < self.credits@.len() ==> (#[trigger] self.credits@[i2]@).len()
                            == self.num_workers,
                decreases self.num_workers - w3,
            {
                let c = self.credits[idx][w3];
                self.credits[idx][w3] = c + (fill as i128);
                w3 += 1;
            }
            proof {
                k = k + 1;
                kf = kf + fill as int;
                assert(kf == k * (fill as int)) by (nonlinear_arith)
                    requires
                        kf - fill as int == (k - 1) * (fill as int),
                ;
                assert(kf <= d as int + fill as int);
                assert(k <= (d as int) / (fill as int) + 1);
                assert forall|i2: int, w: int|
                    0 <= i2 < self.credits@.len() && 0 <= w < self.num_workers implies 0 <= (
                #[trigger] self.credits@[i2]@[w]) <= credit_cap() by {
                    if i2 == idx {
                        assert(self.credits@[i2]@[w] == row0[w] + kf);
                        assert(row0[w] + kf - fill as int <= d as int);
                        assert(0 <= old(self).credits@[i2]@[w]);
                        assert(row0[w] >= 0);
                    } else {
                        assert(self.credits@[i2] == old(self).credits@[i2]);
                        assert(0 <= old(self).credits@[i2]@[w] <= credit_cap());
                    }
                }
            }
        }
    }
}

/// Law: with a fixed deduction `d`, a worker whose credit starts within
/// one refill of the fill level is selected at most
/// `ceil(fill / d) + 1` times in a row before it stops qualifying (so some
/// other worker is selected or a refill occurs). The chain premise is what
/// each refill-free selection requires of the credit before it.
pub proof fn lemma_fairness_selection_bound(c0: int, d: int, fill: int, s: int)
    requires
        d >= 1,
        fill >= 1,
        c0 <= fill + d,
        s >= 1,
        forall|i: int| 0 <= i < s ==> c0 - #[trigger] (i * d) > d,
    ensures
        s <= (fill + d - 1) / d + 1,
{
    assert(c0 - (s - 1) * d > d);
    assert(s * d < c0) by (nonlinear_arith)
        requires
            c0 - (s - 1) * d > d,
    ;
    assert(s * d <= fill + d - 1);
    assert(s <= (fill + d - 1) / d) by (nonlinear_arith)
        requires
            s * d <= fill + d - 1,
            d >= 1,
            s >= 1,
    ;
}

} // verus!
