//! Round-robin tournaments: the schedule of pairings and the win/draw/loss table.

use vstd::prelude::*;

verus! {

/// Pairings `(i, j)` with `start <= i < j < n`, ordered by `i` and then by `j`.
pub open spec fn pairs_from(start: nat, n: nat) -> Seq<(usize, usize)>
    decreases n - start,
{
    if start >= n {
        Seq::empty()
    } else {
        Seq::new((n - start - 1) as nat, |k: int| (start as usize, (start + 1 + k) as usize))
            + pairs_from(start + 1, n)
    }
}

/// The round-robin schedule of `n` teams: every pair `(i, j)` with `i < j < n` once,
/// in the order `(0,1), (0,2), .., (0,n-1), (1,2), ..`.
pub open spec fn round_robin(n: nat) -> Seq<(usize, usize)> {
    pairs_from(0, n)
}

proof fn lemma_pairs_from_len(start: nat, n: nat)
    requires
        start <= n,
    ensures
        pairs_from(start, n).len() * 2 == (n - start) * (n - start - 1),
    decreases n - start,
{
    if start < n {
        lemma_pairs_from_len(start + 1, n);
        let m: int = n - start;
        let rest = pairs_from(start + 1, n);
        assert(pairs_from(start, n).len() == (m - 1) + rest.len());
        assert(rest.len() * 2 == (m - 1) * (m - 2));
        assert(m * (m - 1) == (m - 1) * (m - 2) + 2 * (m - 1)) by (nonlinear_arith);
        assert(pairs_from(start, n).len() * 2 == m * (m - 1));
        assert(m * (m - 1) == (n - start) * (n - start - 1)) by (nonlinear_arith)
            requires m == n - start;
    } else {
        assert(pairs_from(start, n).len() == 0);
        assert((n - start) * (n - start - 1) == 0) by (nonlinear_arith)
            requires n == start;
    }
}

proof fn lemma_pairs_from_members(start: nat, n: nat)
    requires
        n <= usize::MAX,
    ensures
        forall|i: usize, j: usize| pairs_from(start, n).contains((i, j)) <==> (start <= i && i < j && j < n),
    decreases n - start,
{
    if start < n {
        lemma_pairs_from_members(start + 1, n);
        let head = Seq::new((n - start - 1) as nat, |k: int| (start as usize, (start + 1 + k) as usize));
        let rest = pairs_from(start + 1, n);
        assert(pairs_from(start, n) == head + rest);
        assert forall|i: usize, j: usize| pairs_from(start, n).contains((i, j)) <==> (start <= i && i < j && j < n) by {
            if start <= i && i < j && j < n {
                if i == start {
                    assert(head[j - start - 1] == (i, j));
                    assert((head + rest)[j - start - 1] == (i, j));
                    assert(pairs_from(start, n).contains((i, j)));
                } else {
                    assert(rest.contains((i, j)));
                    let k = choose|k: int| 0 <= k < rest.len() && rest[k] == (i, j);
                    assert(rest[k] == (i, j));
                    assert((head + rest)[head.len() + k] == (i, j));
                    assert(pairs_from(start, n).contains((i, j)));
                }
            }
            if pairs_from(start, n).contains((i, j)) {
                let k = choose|k: int| 0 <= k < pairs_from(start, n).len() && pairs_from(start, n)[k] == (i, j);
                if k < head.len() {
                    assert(head[k] == (i, j));
                } else {
                    assert(rest[k - head.len()] == (i, j));
                    assert(rest.contains((i, j)));
                }
                assert(start <= i && i < j && j < n);
            }
        }
    }
}

/// Law of the schedule: it holds exactly the pairs `i < j < n`, and `n (n - 1) / 2` of them.
pub proof fn lemma_round_robin_complete(n: nat)
    requires
        n <= usize::MAX,
    ensures
        round_robin(n).len() * 2 == n * (n - 1),
        forall|i: usize, j: usize| round_robin(n).contains((i, j)) <==> (i < j && j < n),
{
    lemma_pairs_from_len(0, n);
    lemma_pairs_from_members(0, n);
}

/// The round-robin schedule of `n` teams (see [`round_robin`]).
pub fn round_robin_pairs(n: usize) -> (res: Vec<(usize, usize)>)
    ensures
        res@ == round_robin(n as nat),
{
    let mut res: Vec<(usize, usize)> = Vec::new();
    let mut i: usize = 0;
    while i < n
        invariant
            i <= n,
            res@ + pairs_from(i as nat, n as nat) == round_robin(n as nat),
        decreases n - i,
    {
        let ghost before = res@;
        let mut j: usize = i + 1;
        while j < n
            invariant
                i < n,
                i + 1 <= j <= n,
                res@ == before + Seq::new((j - i - 1) as nat, |k: int| (i, (i + 1 + k) as usize)),
            decreases n - j,
        {
            res.push((i, j));
            proof {
                assert(res@ =~= before + Seq::new((j + 1 - i - 1) as nat, |k: int| (i, (i + 1 + k) as usize)));
            }
            j = j + 1;
        }
        proof {
            assert(pairs_from(i as nat, n as nat) == Seq::new((n - i - 1) as nat, |k: int| (i, (i + 1 + k) as usize))
                + pairs_from((i + 1) as nat, n as nat));
            assert(res@ + pairs_from((i + 1) as nat, n as nat) =~= before + pairs_from(i as nat, n as nat));
        }
        i = i + 1;
    }
    proof {
        assert(pairs_from(n as nat, n as nat) == Seq::<(usize, usize)>::empty());
        assert(res@ =~= round_robin(n as nat));
    }
    res
}

/// Sum of a sequence of counters.
pub open spec fn total(s: Seq<u64>) -> int
    decreases s.len(),
{
    if s.len() == 0 { 0 } else { total(s.drop_last()) + s.last() }
}

proof fn lemma_total_update(s: Seq<u64>, i: int, v: u64)
    requires
        0 <= i < s.len(),
    ensures
        total(s.update(i, v)) == total(s) - s[i] + v,
    decreases s.len(),
{
    if i < s.len() - 1 {
        assert(s.update(i, v).drop_last() =~= s.drop_last().update(i, v));
        lemma_total_update(s.drop_last(), i, v);
    } else {
        assert(s.update(i, v).drop_last() =~= s.drop_last());
    }
}

proof fn lemma_total_zeros(n: nat)
    ensures
        total(Seq::new(n, |k: int| 0u64)) == 0,
    decreases n,
{
    if n > 0 {
        assert(Seq::new(n, |k: int| 0u64).drop_last() =~= Seq::new((n - 1) as nat, |k: int| 0u64));
        lemma_total_zeros((n - 1) as nat);
    }
}

/// Win/draw/loss record of every team of a round-robin.
pub struct Standings {
    pub wins: Vec<u64>,
    pub draws: Vec<u64>,
    pub losses: Vec<u64>,
}

impl Standings {
    /// One counter per team in each column, and as many wins as losses in the table.
    pub open spec fn wf(&self) -> bool {
        &&& self.wins@.len() == self.draws@.len()
        &&& self.wins@.len() == self.losses@.len()
        &&& total(self.wins@) == total(self.losses@)
    }

    /// Number of teams in the table.
    pub open spec fn teams(&self) -> nat {
        self.wins@.len()
    }

    /// An empty table for `n` teams.
    pub fn new(n: usize) -> (res: Standings)
        ensures
            res.wf(),
            res.teams() == n,
            forall|k: int| 0 <= k < n ==> res.wins@[k] == 0 && res.draws@[k] == 0 && res.losses@[k] == 0,
    {
        let mut wins: Vec<u64> = Vec::new();
        let mut draws: Vec<u64> = Vec::new();
        let mut losses: Vec<u64> = Vec::new();
        let mut k: usize = 0;
        while k < n
            invariant
                k <= n,
                wins@ == Seq::new(k as nat, |i: int| 0u64),
                draws@ == Seq::new(k as nat, |i: int| 0u64),
                losses@ == Seq::new(k as nat, |i: int| 0u64),
            decreases n - k,
        {
            wins.push(0);
            draws.push(0);
            losses.push(0);
            proof {
                assert(wins@ =~= Seq::new((k + 1) as nat, |i: int| 0u64));
                assert(draws@ =~= Seq::new((k + 1) as nat, |i: int| 0u64));
                assert(losses@ =~= Seq::new((k + 1) as nat, |i: int| 0u64));
            }
            k = k + 1;
        }
        proof {
            lemma_total_zeros(n as nat);
        }
        Standings { wins, draws, losses }
    }

    /// Records the games between teams `i` and `j`: `i_wins` won by `i`, `j_wins` won by
    /// `j`, `draws` drawn.
    pub fn record(&mut self, i: usize, j: usize, i_wins: u64, draws: u64, j_wins: u64)
        requires
            old(self).wf(),
            i < old(self).teams(),
            j < old(self).teams(),
            i != j,
            old(self).wins@[i as int] + i_wins <= u64::MAX,
            old(self).wins@[j as int] + j_wins <= u64::MAX,
            old(self).draws@[i as int] + draws <= u64::MAX,
            old(self).draws@[j as int] + draws <= u64::MAX,
            old(self).losses@[i as int] + j_wins <= u64::MAX,
            old(self).losses@[j as int] + i_wins <= u64::MAX,
        ensures
            final(self).wf(),
            final(self).wins@ == old(self).wins@.update(i as int, (old(self).wins@[i as int] + i_wins) as u64)
                .update(j as int, (old(self).wins@[j as int] + j_wins) as u64),
            final(self).draws@ == old(self).draws@.update(i as int, (old(self).draws@[i as int] + draws) as u64)
                .update(j as int, (old(self).draws@[j as int] + draws) as u64),
            final(self).losses@ == old(self).losses@.update(i as int, (old(self).losses@[i as int] + j_wins) as u64)
                .update(j as int, (old(self).losses@[j as int] + i_wins) as u64),
    {
        let ghost w0 = self.wins@;
        let ghost l0 = self.losses@;
        let wi = self.wins[i] + i_wins;
        self.wins.set(i, wi);
        let wj = self.wins[j] + j_wins;
        self.wins.set(j, wj);
        let di = self.draws[i] + draws;
        self.draws.set(i, di);
        let dj = self.draws[j] + draws;
        self.draws.set(j, dj);
        let li = self.losses[i] + j_wins;
        self.losses.set(i, li);
        let lj = self.losses[j] + i_wins;
        self.losses.set(j, lj);
        proof {
            lemma_total_update(w0, i as int, wi);
            lemma_total_update(w0.update(i as int, wi), j as int, wj);
            lemma_total_update(l0, i as int, li);
            lemma_total_update(l0.update(i as int, li), j as int, lj);
        }
    }

    /// League points of team `i`: three per win, one per draw.
    pub fn points(&self, i: usize) -> (res: u64)
        requires
            self.wf(),
            i < self.teams(),
            3 * self.wins@[i as int] + self.draws@[i as int] <= u64::MAX,
        ensures
            res == 3 * self.wins@[i as int] + self.draws@[i as int],
    {
        3 * self.wins[i] + self.draws[i]
    }
}

proof fn lemma_total_prefix(s: Seq<u64>, k: int)
    requires
        0 <= k <= s.len(),
    ensures
        total(s.take(k)) <= total(s),
    decreases s.len() - k,
{
    if k < s.len() {
        lemma_total_prefix(s, k + 1);
        assert(s.take(k + 1).drop_last() =~= s.take(k));
    } else {
        assert(s.take(k) =~= s);
    }
}

/// The standings of a round-robin together with the points matrix: `points[i][j]` is
/// what team `i` earned in its series against team `j`.
pub struct PointsTable {
    pub standings: Standings,
    pub points: Vec<Vec<u64>>,
}

impl PointsTable {
    /// One row and one column per team, and every row adds up to the team's league
    /// points in the standings.
    pub open spec fn wf(&self) -> bool {
        &&& self.standings.wf()
        &&& self.points@.len() == self.standings.teams()
        &&& forall|i: int| 0 <= i < self.points@.len() ==> (#[trigger] self.points@[i])@.len() == self.points@.len()
        &&& forall|i: int| 0 <= i < self.points@.len() ==> total((#[trigger] self.points@[i])@)
            == 3 * self.standings.wins@[i] + self.standings.draws@[i]
        &&& forall|i: int| 0 <= i < self.points@.len() ==>
            3 * (#[trigger] self.standings.wins@[i]) + self.standings.draws@[i] <= u64::MAX
    }

    /// An empty table for `n` teams.
    pub fn new(n: usize) -> (res: PointsTable)
        ensures
            res.wf(),
            res.standings.teams() == n,
            forall|i: int| 0 <= i < n ==> (#[trigger] res.points@[i])@ == Seq::new(n as nat, |m: int| 0u64),
    {
        let standings = Standings::new(n);
        let mut points: Vec<Vec<u64>> = Vec::new();
        let mut k: usize = 0;
        while k < n
            invariant
                k <= n,
                points@.len() == k,
                forall|i: int| 0 <= i < k ==> (#[trigger] points@[i])@ == Seq::new(n as nat, |m: int| 0u64),
            decreases n - k,
        {
            let mut row: Vec<u64> = Vec::new();
            let mut m: usize = 0;
            while m < n
                invariant
                    m <= n,
                    row@ == Seq::new(m as nat, |x: int| 0u64),
                decreases n - m,
            {
                row.push(0);
                proof {
                    assert(row@ =~= Seq::new((m + 1) as nat, |x: int| 0u64));
                }
                m = m + 1;
            }
            points.push(row);
            k = k + 1;
        }
        proof {
            lemma_total_zeros(n as nat);
        }
        PointsTable { standings, points }
    }

    /// Records the series between teams `i` and `j` (`i_wins` won by `i`, `j_wins` by
    /// `j`, `draws` drawn), which had not been recorded before: the standings as
    /// [`Standings::record`] does, and three points a win and one a draw into the matrix.
    pub fn record(&mut self, i: usize, j: usize, i_wins: u64, draws: u64, j_wins: u64)
        requires
            old(self).wf(),
            i < old(self).standings.teams(),
            j < old(self).standings.teams(),
            i != j,
            old(self).points@[i as int]@[j as int] == 0,
            old(self).points@[j as int]@[i as int] == 0,
            3 * (old(self).standings.wins@[i as int] + i_wins) + old(self).standings.draws@[i as int] + draws <= u64::MAX,
            3 * (old(self).standings.wins@[j as int] + j_wins) + old(self).standings.draws@[j as int] + draws <= u64::MAX,
            old(self).standings.losses@[i as int] + j_wins <= u64::MAX,
            old(self).standings.losses@[j as int] + i_wins <= u64::MAX,
        ensures
            final(self).wf(),
            final(self).standings.wins@ == old(self).standings.wins@.update(i as int, (old(self).standings.wins@[i as int] + i_wins) as u64)
                .update(j as int, (old(self).standings.wins@[j as int] + j_wins) as u64),
            final(self).standings.draws@ == old(self).standings.draws@.update(i as int, (old(self).standings.draws@[i as int] + draws) as u64)
                .update(j as int, (old(self).standings.draws@[j as int] + draws) as u64),
            final(self).standings.losses@ == old(self).standings.losses@.update(i as int, (old(self).standings.losses@[i as int] + j_wins) as u64)
                .update(j as int, (old(self).standings.losses@[j as int] + i_wins) as u64),
            final(self).points@.len() == old(self).points@.len(),
            final(self).points@[i as int]@ == old(self).points@[i as int]@.update(j as int, (3 * i_wins + draws) as u64),
            final(self).points@[j as int]@ == old(self).points@[j as int]@.update(i as int, (3 * j_wins + draws) as u64),
            forall|k: int| 0 <= k < old(self).points@.len() && k != i && k != j ==> #[trigger] final(self).points@[k] == old(self).points@[k],
    {
        let ghost old_points = self.points@;
        let ghost row_i = self.points@[i as int]@;
        let ghost row_j = self.points@[j as int]@;
        self.standings.record(i, j, i_wins, draws, j_wins);
        let pi: u64 = 3 * i_wins + draws;
        let pj: u64 = 3 * j_wins + draws;
        self.points[i].set(j, pi);
        self.points[j].set(i, pj);
        proof {
            lemma_total_update(row_i, j as int, pi);
            lemma_total_update(row_j, i as int, pj);
            assert forall|k: int| 0 <= k < self.points@.len() implies total((#[trigger] self.points@[k])@)
                == 3 * self.standings.wins@[k] + self.standings.draws@[k] by {
                if k != i && k != j {
                    assert(self.points@[k] == old_points[k]);
                }
            }
            assert forall|k: int| 0 <= k < self.points@.len() implies
                3 * (#[trigger] self.standings.wins@[k]) + self.standings.draws@[k] <= u64::MAX by {
                if k != i && k != j {
                    assert(self.points@[k] == old_points[k]);
                }
            }
        }
    }

    /// The points team `i` earned over the whole round-robin, summed along its row of
    /// the matrix; always its league points in the standings.
    pub fn row_total(&self, i: usize) -> (res: u64)
        requires
            self.wf(),
            i < self.standings.teams(),
        ensures
            res == total(self.points@[i as int]@),
            res == 3 * self.standings.wins@[i as int] + self.standings.draws@[i as int],
    {
        let row = &self.points[i];
        let ghost r = row@;
        proof {
            assert(total(r) == 3 * self.standings.wins@[i as int] + self.standings.draws@[i as int]);
            assert(3 * self.standings.wins@[i as int] + self.standings.draws@[i as int] <= u64::MAX);
        }
        let mut sum: u64 = 0;
        let mut k: usize = 0;
        while k < row.len()
            invariant
                r == row@,
                k <= r.len(),
                total(r) <= u64::MAX,
                sum == total(r.take(k as int)),
            decreases r.len() - k,
        {
            proof {
                assert(r.take(k + 1).drop_last() =~= r.take(k as int));
                lemma_total_prefix(r, k + 1);
            }
            sum = sum + row[k];
            k = k + 1;
        }
        proof {
            assert(r.take(k as int) =~= r);
        }
        sum
    }
}

/// Points of a head-to-head series decided by total goals: 3 to the side with more goals,
/// 1 each on equal goals.
pub fn match_points(goals_i: u64, goals_j: u64) -> (res: (u64, u64))
    ensures
        goals_i > goals_j ==> res == (3u64, 0u64),
        goals_i == goals_j ==> res == (1u64, 1u64),
        goals_i < goals_j ==> res == (0u64, 3u64),
{
    if goals_i > goals_j {
        (3, 0)
    } else if goals_i == goals_j {
        (1, 1)
    } else {
        (0, 3)
    }
}

/// Points awarded for a series are symmetric: swapping the sides swaps the points.
pub proof fn lemma_match_points_symmetric(a: u64, b: u64, r1: (u64, u64), r2: (u64, u64))
    requires
        a > b ==> r1 == (3u64, 0u64),
        a == b ==> r1 == (1u64, 1u64),
        a < b ==> r1 == (0u64, 3u64),
        b > a ==> r2 == (3u64, 0u64),
        b == a ==> r2 == (1u64, 1u64),
        b < a ==> r2 == (0u64, 3u64),
    ensures
        r1.0 == r2.1 && r1.1 == r2.0,
{
}

/// Whether team `x` is listed above team `y` in the standings: more points first,
/// then the better goal difference, then the team that comes first in the team list.
pub open spec fn ranks_before(points: Seq<u64>, diffs: Seq<i64>, x: int, y: int) -> bool {
    ||| points[x] > points[y]
    ||| (points[x] == points[y] && diffs[x] > diffs[y])
    ||| (points[x] == points[y] && diffs[x] == diffs[y] && x < y)
}

proof fn lemma_ranks_before_trans(points: Seq<u64>, diffs: Seq<i64>, x: int, y: int, z: int)
    requires
        ranks_before(points, diffs, x, y),
        ranks_before(points, diffs, y, z),
    ensures
        ranks_before(points, diffs, x, z),
{
}

/// The order of the final standings: the team indices `0..n` with the most points
/// first, equal points broken by goal difference and then by the team's index.
pub fn rank_teams(points: &Vec<u64>, diffs: &Vec<i64>) -> (res: Vec<usize>)
    requires
        points.len() == diffs.len(),
    ensures
        res.len() == points.len(),
        forall|a: int| 0 <= a < res.len() ==> #[trigger] res@[a] < points.len(),
        forall|x: usize| x < points.len() ==> #[trigger] res@.contains(x),
        forall|a: int, b: int| 0 <= a < b < res.len() ==>
            ranks_before(points@, diffs@, #[trigger] res@[a] as int, #[trigger] res@[b] as int),
{
    let n = points.len();
    let mut res: Vec<usize> = Vec::new();
    let mut k: usize = 0;
    while k < n
        invariant
            n == points.len() == diffs.len(),
            k <= n,
            res.len() == k,
            forall|a: int| 0 <= a < res.len() ==> #[trigger] res@[a] < k,
            forall|x: usize| x < k ==> #[trigger] res@.contains(x),
            forall|a: int, b: int| 0 <= a < b < res.len() ==>
                ranks_before(points@, diffs@, #[trigger] res@[a] as int, #[trigger] res@[b] as int),
        decreases n - k,
    {
        let mut pos: usize = 0;
        while pos < res.len() && !(points[k] > points[res[pos]]
            || (points[k] == points[res[pos]] && diffs[k] > diffs[res[pos]]))
            invariant
                n == points.len() == diffs.len(),
                k < n,
                res.len() == k,
                pos <= res.len(),
                forall|a: int| 0 <= a < res.len() ==> #[trigger] res@[a] < k,
                forall|a: int| 0 <= a < pos ==> ranks_before(points@, diffs@, #[trigger] res@[a] as int, k as int),
            decreases res.len() - pos,
        {
            pos = pos + 1;
        }
        let ghost old_res = res@;
        proof {
            assert forall|a: int| pos <= a < old_res.len() implies ranks_before(points@, diffs@, k as int, #[trigger] old_res[a] as int) by {
                if a > pos {
                    assert(ranks_before(points@, diffs@, old_res[pos as int] as int, old_res[a] as int));
                    lemma_ranks_before_trans(points@, diffs@, k as int, old_res[pos as int] as int, old_res[a] as int);
                }
            }
        }
        res.insert(pos, k);
        proof {
            assert(res@ == old_res.insert(pos as int, k));
            assert forall|a: int, b: int| 0 <= a < b < res.len() implies
                ranks_before(points@, diffs@, #[trigger] res@[a] as int, #[trigger] res@[b] as int) by {
                if b < pos {
                    assert(res@[a] == old_res[a] && res@[b] == old_res[b]);
                } else if b == pos {
                    assert(res@[a] == old_res[a]);
                } else if a == pos {
                    assert(res@[b] == old_res[b - 1]);
                } else if a < pos {
                    assert(res@[a] == old_res[a] && res@[b] == old_res[b - 1]);
                } else {
                    assert(res@[a] == old_res[a - 1] && res@[b] == old_res[b - 1]);
                }
            }
            assert forall|x: usize| x < k + 1 implies #[trigger] res@.contains(x) by {
                if x == k {
                    assert(res@[pos as int] == k);
                } else {
                    assert(old_res.contains(x));
                    let i = choose|i: int| 0 <= i < old_res.len() && old_res[i] == x;
                    if i < pos {
                        assert(res@[i] == x);
                    } else {
                        assert(res@[i + 1] == x);
                    }
                }
            }
        }
        k = k + 1;
    }
    res
}

/// The opponents against whom team `i` earned the most and the fewest points in the
/// points matrix row `row`: for the most, the last such opponent in index order, for
/// the fewest, the first.
pub fn best_and_worst_opponent(row: &Vec<u64>, i: usize) -> (res: (usize, usize))
    requires
        row.len() >= 2,
        i < row.len(),
    ensures
        res.0 < row.len() && res.0 != i,
        res.1 < row.len() && res.1 != i,
        forall|j: int| 0 <= j < row.len() && j != i ==> #[trigger] row@[j] <= row@[res.0 as int],
        forall|j: int| res.0 < j < row.len() && j != i ==> #[trigger] row@[j] < row@[res.0 as int],
        forall|j: int| 0 <= j < row.len() && j != i ==> row@[res.1 as int] <= #[trigger] row@[j],
        forall|j: int| 0 <= j < res.1 && j != i ==> row@[res.1 as int] < #[trigger] row@[j],
{
    let first: usize = if i == 0 { 1 } else { 0 };
    let mut best: usize = first;
    let mut worst: usize = first;
    let mut j: usize = first + 1;
    while j < row.len()
        invariant
            row.len() >= 2,
            i < row.len(),
            first < row.len() && first != i,
            first == 0 || (first == 1 && i == 0),
            first < j <= row.len(),
            best < j && best != i && first <= best,
            worst < j && worst != i && first <= worst,
            forall|m: int| 0 <= m < j && m != i ==> #[trigger] row@[m] <= row@[best as int],
            forall|m: int| best < m < j && m != i ==> #[trigger] row@[m] < row@[best as int],
            forall|m: int| 0 <= m < j && m != i ==> row@[worst as int] <= #[trigger] row@[m],
            forall|m: int| 0 <= m < worst && m != i ==> row@[worst as int] < #[trigger] row@[m],
        decreases row.len() - j,
    {
        if j != i {
            if row[j] >= row[best] {
                best = j;
            }
            if row[j] < row[worst] {
                worst = j;
            }
        }
        j = j + 1;
    }
    (best, worst)
}

/// The letter of a final score seen from the first team: `W`, `L` or `D`.
pub fn score_result(goals_a: u32, goals_b: u32) -> (res: &'static str)
    ensures
        goals_a > goals_b ==> res@ == "W"@,
        goals_b > goals_a ==> res@ == "L"@,
        goals_a == goals_b ==> res@ == "D"@,
{
    if goals_a > goals_b {
        "W"
    } else if goals_b > goals_a {
        "L"
    } else {
        "D"
    }
}

/// How many games ended `goals_a`-`goals_b` according to the tally entries `s`
/// (each entry is a score and its count).
pub open spec fn tally_count(s: Seq<(u32, u32, u32)>, goals_a: u32, goals_b: u32) -> int
    decreases s.len(),
{
    if s.len() == 0 {
        0
    } else {
        tally_count(s.drop_last(), goals_a, goals_b) + if s.last().0 == goals_a && s.last().1
            == goals_b {
            s.last().2 as int
        } else {
            0
        }
    }
}

/// Games counted over all the tally entries `s`.
pub open spec fn tally_total(s: Seq<(u32, u32, u32)>) -> int
    decreases s.len(),
{
    if s.len() == 0 {
        0
    } else {
        tally_total(s.drop_last()) + s.last().2
    }
}

proof fn lemma_tally_total_push(s: Seq<(u32, u32, u32)>, e: (u32, u32, u32))
    ensures
        tally_total(s.push(e)) == tally_total(s) + e.2,
{
    assert(s.push(e).drop_last() =~= s);
}

proof fn lemma_tally_total_update(s: Seq<(u32, u32, u32)>, i: int, c: u32)
    requires
        0 <= i < s.len(),
    ensures
        tally_total(s.update(i, (s[i].0, s[i].1, c))) == tally_total(s) - s[i].2 + c,
    decreases s.len(),
{
    if i < s.len() - 1 {
        assert(s.update(i, (s[i].0, s[i].1, c)).drop_last() =~= s.drop_last().update(i, (s[i].0, s[i].1, c)));
        lemma_tally_total_update(s.drop_last(), i, c);
    } else {
        assert(s.update(i, (s[i].0, s[i].1, c)).drop_last() =~= s.drop_last());
    }
}

/// No score is listed twice.
pub open spec fn distinct_scores(s: Seq<(u32, u32, u32)>) -> bool {
    forall|a: int, b: int| 0 <= a < b < s.len() ==> !(#[trigger] s[a].0 == #[trigger] s[b].0 && s[a].1 == s[b].1)
}

proof fn lemma_tally_absent(s: Seq<(u32, u32, u32)>, x: u32, y: u32)
    requires
        forall|a: int| 0 <= a < s.len() ==> !(#[trigger] s[a].0 == x && s[a].1 == y),
    ensures
        tally_count(s, x, y) == 0,
    decreases s.len(),
{
    if s.len() > 0 {
        lemma_tally_absent(s.drop_last(), x, y);
    }
}

proof fn lemma_tally_push(s: Seq<(u32, u32, u32)>, e: (u32, u32, u32), x: u32, y: u32)
    ensures
        tally_count(s.push(e), x, y) == tally_count(s, x, y) + if e.0 == x && e.1 == y { e.2 as int } else { 0 },
{
    assert(s.push(e).drop_last() =~= s);
}

proof fn lemma_tally_update(s: Seq<(u32, u32, u32)>, i: int, c: u32, x: u32, y: u32)
    requires
        0 <= i < s.len(),
    ensures
        tally_count(s.update(i, (s[i].0, s[i].1, c)), x, y) == tally_count(s, x, y)
            + if s[i].0 == x && s[i].1 == y { c - s[i].2 } else { 0 },
    decreases s.len(),
{
    if i < s.len() - 1 {
        assert(s.update(i, (s[i].0, s[i].1, c)).drop_last() =~= s.drop_last().update(i, (s[i].0, s[i].1, c)));
        lemma_tally_update(s.drop_last(), i, c, x, y);
    } else {
        assert(s.update(i, (s[i].0, s[i].1, c)).drop_last() =~= s.drop_last());
    }
}

/// Distribution of final scores over a series of games, each score with the number of
/// games that ended so, in the order the scores first occurred.
pub struct ScoreTally {
    pub entries: Vec<(u32, u32, u32)>,
}

impl ScoreTally {
    /// Every score listed once, with a count of at least one.
    pub open spec fn wf(&self) -> bool {
        &&& distinct_scores(self.entries@)
        &&& forall|a: int| 0 <= a < self.entries@.len() ==> #[trigger] self.entries@[a].2 >= 1
    }

    /// An empty tally.
    pub fn new() -> (res: Self)
        ensures
            res.wf(),
            res.entries@.len() == 0,
    {
        ScoreTally { entries: Vec::new() }
    }

    /// Counts one more game that ended `goals_a`-`goals_b`.
    pub fn record(&mut self, goals_a: u32, goals_b: u32)
        requires
            old(self).wf(),
            tally_count(old(self).entries@, goals_a, goals_b) < u32::MAX,
        ensures
            final(self).wf(),
            forall|x: u32, y: u32| #[trigger] tally_count(final(self).entries@, x, y)
                == tally_count(old(self).entries@, x, y) + if x == goals_a && y == goals_b { 1int } else { 0int },
            tally_total(final(self).entries@) == tally_total(old(self).entries@) + 1,
    {
        let mut i: usize = 0;
        while i < self.entries.len()
            invariant
                i <= self.entries@.len(),
                self.entries@ == old(self).entries@,
                old(self).wf(),
                tally_count(old(self).entries@, goals_a, goals_b) < u32::MAX,
                forall|a: int| 0 <= a < i ==> !(#[trigger] self.entries@[a].0 == goals_a && self.entries@[a].1 == goals_b),
            decreases self.entries@.len() - i,
        {
            if self.entries[i].0 == goals_a && self.entries[i].1 == goals_b {
                let ghost s = self.entries@;
                let e = self.entries[i];
                proof {
                    assert forall|a: int| 0 <= a < s.len() && a != i implies !(#[trigger] s[a].0 == goals_a && s[a].1 == goals_b) by {
                        if a < i {
                        } else {
                            assert(!(s[i as int].0 == s[a].0 && s[i as int].1 == s[a].1));
                        }
                    }
                    lemma_tally_single(s, i as int);
                    lemma_tally_total_update(s, i as int, (e.2 + 1) as u32);
                }
                self.entries.set(i, (e.0, e.1, e.2 + 1));
                proof {
                    assert forall|x: u32, y: u32| #[trigger] tally_count(self.entries@, x, y)
                        == tally_count(s, x, y) + if x == goals_a && y == goals_b { 1int } else { 0int } by {
                        lemma_tally_update(s, i as int, (e.2 + 1) as u32, x, y);
                    }
                }
                return;
            }
            i = i + 1;
        }
        let ghost s = self.entries@;
        self.entries.push((goals_a, goals_b, 1));
        proof {
            assert forall|x: u32, y: u32| #[trigger] tally_count(self.entries@, x, y)
                == tally_count(s, x, y) + if x == goals_a && y == goals_b { 1int } else { 0int } by {
                lemma_tally_push(s, (goals_a, goals_b, 1u32), x, y);
            }
            lemma_tally_total_push(s, (goals_a, goals_b, 1u32));
        }
    }

    /// The tally entries ordered from the most frequent score to the least frequent.
    pub fn by_frequency(&self) -> (res: Vec<(u32, u32, u32)>)
        ensures
            res@.to_multiset() == self.entries@.to_multiset(),
            forall|a: int, b: int| 0 <= a < b < res@.len() ==> #[trigger] res@[a].2 >= #[trigger] res@[b].2,
    {
        let n = self.entries.len();
        let mut out: Vec<(u32, u32, u32)> = Vec::new();
        let mut i: usize = 0;
        proof {
            assert(self.entries@.take(0) =~= Seq::<(u32, u32, u32)>::empty());
        }
        while i < n
            invariant
                n == self.entries@.len(),
                i <= n,
                out@.to_multiset() == self.entries@.take(i as int).to_multiset(),
                forall|a: int, b: int| 0 <= a < b < out@.len() ==> #[trigger] out@[a].2 >= #[trigger] out@[b].2,
            decreases n - i,
        {
            let item = self.entries[i];
            let mut j: usize = out.len();
            while j > 0 && out[j - 1].2 < item.2
                invariant
                    j <= out@.len(),
                    forall|k: int| j <= k < out@.len() ==> #[trigger] out@[k].2 < item.2,
                decreases j,
            {
                j = j - 1;
            }
            let ghost before = out@;
            out.insert(j, item);
            proof {
                assert(self.entries@.take(i + 1) =~= self.entries@.take(i as int).push(item));
                assert(out@ =~= before.take(j as int).push(item) + before.skip(j as int));
                vstd::seq_lib::lemma_multiset_commutative(before.take(j as int), before.skip(j as int));
                assert(before =~= before.take(j as int) + before.skip(j as int));
                vstd::seq_lib::lemma_multiset_commutative(before.take(j as int).push(item), before.skip(j as int));
                before.take(j as int).to_multiset_ensures();
                self.entries@.take(i as int).to_multiset_ensures();
                assert forall|a: int, b: int| 0 <= a < b < out@.len() implies #[trigger] out@[a].2 >= #[trigger] out@[b].2 by {
                    if b < j {
                        assert(out@[a] == before[a] && out@[b] == before[b]);
                    } else if b == j {
                        assert(out@[a] == before[a]);
                    } else if a == j {
                        assert(out@[b] == before[b - 1]);
                    } else if a < j {
                        assert(out@[a] == before[a] && out@[b] == before[b - 1]);
                    } else {
                        assert(out@[a] == before[a - 1] && out@[b] == before[b - 1]);
                    }
                }
            }
            i = i + 1;
        }
        proof {
            assert(self.entries@.take(n as int) =~= self.entries@);
        }
        out
    }
}

proof fn lemma_tally_single(s: Seq<(u32, u32, u32)>, i: int)
    requires
        0 <= i < s.len(),
        forall|a: int| 0 <= a < s.len() && a != i ==> !(#[trigger] s[a].0 == s[i].0 && s[a].1 == s[i].1),
    ensures
        tally_count(s, s[i].0, s[i].1) == s[i].2,
    decreases s.len(),
{
    if i < s.len() - 1 {
        let t = s.drop_last();
        assert(t[i] == s[i]);
        assert forall|a: int| 0 <= a < t.len() && a != i implies !(#[trigger] t[a].0 == t[i].0 && t[a].1 == t[i].1) by {
            assert(t[a] == s[a]);
        }
        lemma_tally_single(t, i);
        assert(!(s.last().0 == s[i].0 && s.last().1 == s[i].1));
    } else {
        let t = s.drop_last();
        assert forall|a: int| 0 <= a < t.len() implies !(#[trigger] t[a].0 == s[i].0 && t[a].1 == s[i].1) by {
            assert(t[a] == s[a]);
        }
        lemma_tally_absent(t, s[i].0, s[i].1);
    }
}

} // verus!
