use vstd::prelude::*;

verus! {

/// Width of the well, in cells.
pub const WELL_COLS: usize = 10;

/// Height of the well, in cells; row 0 is the top.
pub const WELL_ROWS: usize = 21;

/// The colour of a settled block; each piece kind has its own.
#[derive(Copy, Clone, Debug, PartialEq, Eq, Structural)]
pub enum Block {
    Red,
    Orange,
    Yellow,
    Green,
    Cyan,
    Blue,
    Purple,
}

const DIR_U: u8 = 0b1000;
const DIR_D: u8 = 0b0100;
const DIR_L: u8 = 0b0010;
const DIR_R: u8 = 0b0001;

/// The four-bit value that records which neighbours a block is joined to:
/// up is worth 8, down 4, left 2 and right 1.
pub open spec fn dir_bits(up: bool, down: bool, left: bool, right: bool) -> u8 {
    ((if up { 8int } else { 0int }) + (if down { 4int } else { 0int }) + (if left { 2int } else { 0int })
        + (if right { 1int } else { 0int })) as u8
}

pub open spec fn has_up(bits: u8) -> bool {
    (bits / 8) % 2 == 1
}

pub open spec fn has_down(bits: u8) -> bool {
    (bits / 4) % 2 == 1
}

pub open spec fn has_left(bits: u8) -> bool {
    (bits / 2) % 2 == 1
}

pub open spec fn has_right(bits: u8) -> bool {
    bits % 2 == 1
}

/// Which of its four neighbours a block is visually joined to.
#[derive(Copy, Clone, Debug, PartialEq, Eq, Structural)]
pub struct BlockDirections(u8);

impl View for BlockDirections {
    type V = u8;

    closed spec fn view(&self) -> u8 {
        self.0
    }
}

proof fn lemma_or_is_sum(up: bool, down: bool, left: bool, right: bool)
    ensures
        ((if up { DIR_U } else { 0u8 }) | (if down { DIR_D } else { 0u8 }) | (if left { DIR_L } else { 0u8 })
            | (if right { DIR_R } else { 0u8 })) == dir_bits(up, down, left, right),
{
    let u: u8 = if up { DIR_U } else { 0u8 };
    let d: u8 = if down { DIR_D } else { 0u8 };
    let l: u8 = if left { DIR_L } else { 0u8 };
    let r: u8 = if right { DIR_R } else { 0u8 };
    assert((u == 0 || u == 8) && (d == 0 || d == 4) && (l == 0 || l == 2) && (r == 0 || r == 1));
    assert((u == 0 || u == 8) && (d == 0 || d == 4) && (l == 0 || l == 2) && (r == 0 || r == 1)
        ==> (u | d | l | r) == u + d + l + r) by (bit_vector);
}

proof fn lemma_bit_tests(x: u8)
    ensures
        ((x & DIR_U) != 0) == has_up(x),
        ((x & DIR_D) != 0) == has_down(x),
        ((x & DIR_L) != 0) == has_left(x),
        ((x & DIR_R) != 0) == has_right(x),
{
    assert(((x & 8u8) != 0) == ((x / 8) % 2 == 1)) by (bit_vector);
    assert(((x & 4u8) != 0) == ((x / 4) % 2 == 1)) by (bit_vector);
    assert(((x & 2u8) != 0) == ((x / 2) % 2 == 1)) by (bit_vector);
    assert(((x & 1u8) != 0) == (x % 2 == 1)) by (bit_vector);
}

/// Reading a direction back from `BlockDirections::new` gives the flag it
/// was built with, and the stored value never exceeds four bits.
pub proof fn lemma_directions_round_trip(up: bool, down: bool, left: bool, right: bool)
    ensures
        has_up(dir_bits(up, down, left, right)) == up,
        has_down(dir_bits(up, down, left, right)) == down,
        has_left(dir_bits(up, down, left, right)) == left,
        has_right(dir_bits(up, down, left, right)) == right,
        dir_bits(up, down, left, right) < 16,
{
}

impl BlockDirections {
    /// The value joined to no neighbour.
    pub fn none() -> (d: BlockDirections)
        ensures
            d@ == 0,
    {
        BlockDirections(0)
    }

    pub fn new(up: bool, down: bool, left: bool, right: bool) -> (d: BlockDirections)
        ensures
            d@ == dir_bits(up, down, left, right),
    {
        let u = if up { DIR_U } else { 0 };
        let d = if down { DIR_D } else { 0 };
        let l = if left { DIR_L } else { 0 };
        let r = if right { DIR_R } else { 0 };
        proof {
            lemma_or_is_sum(up, down, left, right);
        }
        BlockDirections(u | d | l | r)
    }

    pub fn up(&self) -> (b: bool)
        ensures
            b == has_up(self@),
    {
        proof {
            lemma_bit_tests(self.0);
        }
        self.0 & DIR_U != 0
    }

    pub fn down(&self) -> (b: bool)
        ensures
            b == has_down(self@),
    {
        proof {
            lemma_bit_tests(self.0);
        }
        self.0 & DIR_D != 0
    }

    pub fn left(&self) -> (b: bool)
        ensures
            b == has_left(self@),
    {
        proof {
            lemma_bit_tests(self.0);
        }
        self.0 & DIR_L != 0
    }

    pub fn right(&self) -> (b: bool)
        ensures
            b == has_right(self@),
    {
        proof {
            lemma_bit_tests(self.0);
        }
        self.0 & DIR_R != 0
    }

    /// Keeps a direction only where the neighbour on that side exists and
    /// points back at this block.
    pub fn match_with(
        &self,
        up: Option<BlockDirections>,
        down: Option<BlockDirections>,
        left: Option<BlockDirections>,
        right: Option<BlockDirections>,
    ) -> (d: BlockDirections)
        ensures
            d@ == dir_bits(
                has_up(self@) && (up matches Some(n) && has_down(n@)),
                has_down(self@) && (down matches Some(n) && has_up(n@)),
                has_left(self@) && (left matches Some(n) && has_right(n@)),
                has_right(self@) && (right matches Some(n) && has_left(n@)),
            ),
    {
        let up_back = match up {
            Some(it) => it.down(),
            None => false,
        };
        let down_back = match down {
            Some(it) => it.up(),
            None => false,
        };
        let left_back = match left {
            Some(it) => it.right(),
            None => false,
        };
        let right_back = match right {
            Some(it) => it.left(),
            None => false,
        };
        BlockDirections::new(
            self.up() && up_back,
            self.down() && down_back,
            self.left() && left_back,
            self.right() && right_back,
        )
    }

    pub fn bits(&self) -> (b: u8)
        ensures
            b == self@,
    {
        self.0
    }
}

/// A settled cell of the well.
#[derive(Copy, Clone, Debug, PartialEq, Eq, Structural)]
pub struct Tile {
    pub color: Block,
    pub directions: BlockDirections,
}

/// One row of the well, left to right.
pub type Row = [Option<Tile>; WELL_COLS];

/// The playfield: `blocks[row][column]`, row 0 at the top.
pub struct Well {
    pub blocks: [[Option<Tile>; WELL_COLS]; WELL_ROWS],
}

pub open spec fn row_full(row: Row) -> bool {
    forall|c: int| 0 <= c < WELL_COLS ==> (#[trigger] row[c]).is_some()
}

pub open spec fn row_empty(row: Row) -> bool {
    forall|c: int| 0 <= c < WELL_COLS ==> (#[trigger] row[c]).is_none()
}

/// A row with no block in it.
pub open spec fn empty_row() -> Row {
    [None; WELL_COLS]
}

/// Indices of the full rows, top to bottom.
pub open spec fn full_rows(rows: Seq<Row>) -> Seq<i32>
    decreases rows.len(),
{
    if rows.len() == 0 {
        seq![]
    } else if row_full(rows.last()) {
        full_rows(rows.drop_last()).push((rows.len() - 1) as i32)
    } else {
        full_rows(rows.drop_last())
    }
}

/// The rows with every full row emptied and the others left in place.
pub open spec fn cleared(rows: Seq<Row>) -> Seq<Row> {
    Seq::new(rows.len(), |i: int| if row_full(rows[i]) { empty_row() } else { rows[i] })
}

/// Moves row `idx` to the top and shifts the rows above it down by one.
pub open spec fn lower_rows(rows: Seq<Row>, idx: int) -> Seq<Row> {
    Seq::new(
        rows.len(),
        |i: int|
            if i == 0 {
                rows[idx]
            } else if i <= idx {
                rows[i - 1]
            } else {
                rows[i]
            },
    )
}

/// `lower_rows` applied for each index in turn.
pub open spec fn commit_rows(rows: Seq<Row>, idxs: Seq<i32>) -> Seq<Row>
    decreases idxs.len(),
{
    if idxs.len() == 0 {
        rows
    } else {
        lower_rows(commit_rows(rows, idxs.drop_last()), idxs.last() as int)
    }
}

/// The rows that are not full, in order.
pub open spec fn kept(rows: Seq<Row>) -> Seq<Row>
    decreases rows.len(),
{
    if rows.len() == 0 {
        seq![]
    } else if row_full(rows.last()) {
        kept(rows.drop_last())
    } else {
        kept(rows.drop_last()).push(rows.last())
    }
}

/// `n` empty rows.
pub open spec fn empty_rows(n: nat) -> Seq<Row> {
    Seq::new(n, |i: int| empty_row())
}


pub proof fn lemma_full_rows_props(rows: Seq<Row>)
    requires
        rows.len() <= WELL_ROWS,
    ensures
        full_rows(rows).len() <= rows.len(),
        forall|k: int|
            0 <= k < full_rows(rows).len() ==> 0 <= #[trigger] full_rows(rows)[k] < rows.len()
                && row_full(rows[full_rows(rows)[k] as int]),
        forall|k: int, l: int|
            0 <= k < l < full_rows(rows).len() ==> #[trigger] full_rows(rows)[k]
                < #[trigger] full_rows(rows)[l],
        forall|i: int|
            0 <= i < rows.len() && row_full(#[trigger] rows[i]) ==> full_rows(rows).contains(i as i32),
    decreases rows.len(),
{
    if rows.len() > 0 {
        let prev = rows.drop_last();
        lemma_full_rows_props(prev);
        let f = full_rows(rows);
        assert forall|i: int| 0 <= i < rows.len() && row_full(#[trigger] rows[i]) implies f.contains(
            i as i32,
        ) by {
            if i < rows.len() - 1 {
                assert(prev[i] == rows[i]);
                let k = choose|k: int| 0 <= k < full_rows(prev).len() && full_rows(prev)[k] == i as i32;
                assert(f[k] == i as i32);
            } else {
                assert(f[f.len() - 1] == i as i32);
            }
        }
    }
}

proof fn lemma_kept_add(s: Seq<Row>, t: Seq<Row>)
    ensures
        kept(s + t) == kept(s) + kept(t),
    decreases t.len(),
{
    if t.len() == 0 {
        assert(s + t =~= s);
        assert(kept(s) + kept(t) =~= kept(s));
    } else {
        lemma_kept_add(s, t.drop_last());
        assert((s + t).drop_last() =~= s + t.drop_last());
        assert((s + t).last() == t.last());
        if row_full(t.last()) {
        } else {
            assert(kept(s) + kept(t.drop_last()).push(t.last()) =~= (kept(s) + kept(
                t.drop_last(),
            )).push(t.last()));
        }
    }
}

proof fn lemma_kept_none_full(s: Seq<Row>)
    requires
        forall|i: int| 0 <= i < s.len() ==> !row_full(#[trigger] s[i]),
    ensures
        kept(s) == s,
    decreases s.len(),
{
    if s.len() > 0 {
        lemma_kept_none_full(s.drop_last());
        assert(s.drop_last().push(s.last()) =~= s);
    }
}

#[verifier::spinoff_prover]
#[verifier::rlimit(40)]
proof fn lemma_commit_prefix(rows: Seq<Row>, j: int)
    requires
        rows.len() <= WELL_ROWS,
        0 <= j <= full_rows(rows).len(),
    ensures
        ({
            let f = full_rows(rows);
            let c = commit_rows(cleared(rows), f.take(j));
            let p = if j == 0 { -1 } else { f[j - 1] as int };
            &&& c.len() == rows.len()
            &&& forall|r: int| p < r < rows.len() ==> #[trigger] c[r] == cleared(rows)[r]
            &&& c.subrange(0, p + 1) == empty_rows(j as nat) + kept(rows.subrange(0, p + 1))
        }),
    decreases j,
{
    let f = full_rows(rows);
    lemma_full_rows_props(rows);
    if j == 0 {
        assert(f.take(0) =~= Seq::<i32>::empty());
        assert(commit_rows(cleared(rows), f.take(0)).subrange(0, 0) =~= Seq::<Row>::empty());
        assert(empty_rows(0) + kept(rows.subrange(0, 0)) =~= Seq::<Row>::empty());
    } else {
        lemma_commit_prefix(rows, j - 1);
        let q = if j == 1 { -1 } else { f[j - 2] as int };
        let i = f[j - 1] as int;
        assert(q < i);
        assert(f.take(j).drop_last() =~= f.take(j - 1));
        assert(f.take(j).last() == f[j - 1]);
        let c0 = commit_rows(cleared(rows), f.take(j - 1));
        let c = commit_rows(cleared(rows), f.take(j));
        assert(c == lower_rows(c0, i));
        // rows strictly between q and i are not full
        assert forall|r: int| q < r < i implies !row_full(#[trigger] rows[r]) by {
            if row_full(rows[r]) {
                let k = choose|k: int| 0 <= k < f.len() && f[k] == r as i32;
                if k < j - 1 {
                    if k < j - 2 {
                        assert(f[k] < f[j - 2]);
                    }
                } else if k > j - 1 {
                    assert(f[j - 1] < f[k]);
                }
            }
        }
        let mid = rows.subrange(q + 1, i);
        assert forall|r: int| 0 <= r < mid.len() implies !row_full(#[trigger] mid[r]) by {
            assert(mid[r] == rows[q + 1 + r]);
        }
        lemma_kept_none_full(mid);
        let last = rows.subrange(i, i + 1);
        assert(0 <= i < rows.len());
        assert(row_full(rows[f[j - 1] as int]));
        assert(last.len() == 1);
        assert(last.last() == rows[i]);
        assert(last.drop_last() =~= Seq::<Row>::empty());
        assert(kept(last.drop_last()) =~= Seq::<Row>::empty());
        assert(kept(last) =~= Seq::<Row>::empty());
        assert(rows.subrange(0, i + 1) =~= rows.subrange(0, q + 1) + mid + last);
        lemma_kept_add(rows.subrange(0, q + 1), mid);
        lemma_kept_add(rows.subrange(0, q + 1) + mid, last);
        assert(c0.subrange(0, i) =~= c0.subrange(0, q + 1) + c0.subrange(q + 1, i));
        assert(c0.subrange(q + 1, i) =~= mid);
        assert(c.subrange(0, i + 1) =~= seq![c0[i]] + c0.subrange(0, i));
        assert(c0[i] == empty_row());
        assert(empty_rows(j as nat) =~= seq![empty_row()] + empty_rows((j - 1) as nat));
        assert(c.subrange(0, i + 1) =~= empty_rows(j as nat) + kept(rows.subrange(0, i + 1)));
    }
}

/// Clearing the full rows and then lowering each cleared row, top to bottom,
/// leaves one empty row on top for each full row, followed by the rows that
/// were not full, in the order they had.
pub proof fn lemma_line_clear(rows: Seq<Row>)
    requires
        rows.len() <= WELL_ROWS,
    ensures
        commit_rows(cleared(rows), full_rows(rows)) == empty_rows(full_rows(rows).len()) + kept(
            rows,
        ),
{
    let f = full_rows(rows);
    let n = rows.len() as int;
    lemma_full_rows_props(rows);
    lemma_commit_prefix(rows, f.len() as int);
    assert(f.take(f.len() as int) =~= f);
    let c = commit_rows(cleared(rows), f);
    let p = if f.len() == 0 { -1 } else { f[f.len() - 1] as int };
    assert forall|r: int| p < r < n implies !row_full(#[trigger] rows[r]) by {
        if row_full(rows[r]) {
            let k = choose|k: int| 0 <= k < f.len() && f[k] == r as i32;
            if k < f.len() - 1 {
                assert(f[k] < f[f.len() - 1]);
            }
        }
    }
    let tail = rows.subrange(p + 1, n);
    assert forall|r: int| 0 <= r < tail.len() implies !row_full(#[trigger] tail[r]) by {
        assert(tail[r] == rows[p + 1 + r]);
    }
    lemma_kept_none_full(tail);
    assert(rows =~= rows.subrange(0, p + 1) + tail);
    lemma_kept_add(rows.subrange(0, p + 1), tail);
    assert(c.subrange(p + 1, n) =~= tail);
    assert(c =~= c.subrange(0, p + 1) + c.subrange(p + 1, n));
}

/// Lowering rows only moves them, so it makes no row full.
pub proof fn lemma_commit_keeps_not_full(rows: Seq<Row>, idxs: Seq<i32>)
    requires
        forall|k: int| 0 <= k < idxs.len() ==> 0 <= #[trigger] idxs[k] < rows.len(),
        forall|s: int| 0 <= s < rows.len() ==> !row_full(#[trigger] rows[s]),
    ensures
        commit_rows(rows, idxs).len() == rows.len(),
        forall|r: int| 0 <= r < rows.len() ==> !row_full(#[trigger] commit_rows(rows, idxs)[r]),
    decreases idxs.len(),
{
    if idxs.len() > 0 {
        let prev = commit_rows(rows, idxs.drop_last());
        lemma_commit_keeps_not_full(rows, idxs.drop_last());
        let idx = idxs.last() as int;
        assert(0 <= idx < rows.len());
        assert forall|r: int| 0 <= r < rows.len() implies !row_full(#[trigger] commit_rows(rows, idxs)[r]) by {
            let src = if r == 0 { idx } else if r <= idx { r - 1 } else { r };
            assert(commit_rows(rows, idxs)[r] == prev[src]);
        }
    }
}

/// The full rows, each with its index, top to bottom.
pub open spec fn cleared_pairs(rows: Seq<Row>) -> Seq<(i32, Row)> {
    Seq::new(full_rows(rows).len(), |k: int| (full_rows(rows)[k], rows[full_rows(rows)[k] as int]))
}

/// No row of the well is full.
pub open spec fn no_full_rows(w: Well) -> bool {
    forall|r: int| 0 <= r < WELL_ROWS ==> !row_full(#[trigger] w.blocks[r])
}

impl Well {
    pub fn new() -> (w: Well)
        ensures
            forall|r: int| 0 <= r < WELL_ROWS ==> row_empty(#[trigger] w.blocks[r]),
    {
        Well { blocks: [[None;WELL_COLS];WELL_ROWS] }
    }

    /// Empties every full row and returns each one, with its index, top to
    /// bottom.
    pub fn do_clear(&mut self) -> (out: Vec<(i32, [Option<Tile>; WELL_COLS])>)
        ensures
            final(self).blocks@ == cleared(old(self).blocks@),
            out@ == cleared_pairs(old(self).blocks@),
    {
        let ghost start = self.blocks@;
        let mut out: Vec<(i32, [Option<Tile>; WELL_COLS])> = Vec::new();
        let mut ri: usize = 0;
        while ri < WELL_ROWS
            invariant
                0 <= ri <= WELL_ROWS,
                start.len() == WELL_ROWS,
                self.blocks@.len() == WELL_ROWS,
                forall|i: int| 0 <= i < ri ==> self.blocks@[i] == cleared(start)[i],
                forall|i: int| ri <= i < WELL_ROWS ==> self.blocks@[i] == start[i],
                out@.len() == full_rows(start.take(ri as int)).len(),
                forall|k: int|
                    0 <= k < out@.len() ==> (#[trigger] out@[k]).0 == full_rows(start.take(ri as int))[k]
                        && 0 <= out@[k].0 < ri && out@[k].1 == start[out@[k].0 as int],
            decreases WELL_ROWS - ri,
        {
            assert(start.take(ri + 1).drop_last() =~= start.take(ri as int));
            let row = self.blocks[ri];
            let mut all = true;
            let mut c: usize = 0;
            while c < WELL_COLS
                invariant
                    0 <= c <= WELL_COLS,
                    all == (forall|j: int| 0 <= j < c ==> (#[trigger] row[j]).is_some()),
                decreases WELL_COLS - c,
            {
                if row[c].is_none() {
                    all = false;
                }
                c += 1;
            }
            if all {
                out.push((ri as i32, row));
                self.blocks[ri] = [None;WELL_COLS];
            }
            ri += 1;
        }
        assert(start.take(WELL_ROWS as int) =~= start);
        assert(self.blocks@ =~= cleared(start));
        assert(out@ =~= cleared_pairs(start));
        out
    }

    /// For each index in turn, moves that row to the top and shifts every
    /// row above it down by one.
    pub fn commit_clear(&mut self, vec: &Vec<i32>)
        requires
            forall|k: int| 0 <= k < vec@.len() ==> 0 <= #[trigger] vec@[k] < WELL_ROWS,
        ensures
            final(self).blocks@ == commit_rows(old(self).blocks@, vec@),
    {
        let ghost start = self.blocks@;
        let mut k: usize = 0;
        while k < vec.len()
            invariant
                0 <= k <= vec@.len(),
                forall|j: int| 0 <= j < vec@.len() ==> 0 <= #[trigger] vec@[j] < WELL_ROWS,
                self.blocks@ == commit_rows(start, vec@.take(k as int)),
            decreases vec@.len() - k,
        {
            assert(vec@.take(k + 1).drop_last() =~= vec@.take(k as int));
            let idx = vec[k] as usize;
            self.lower_row(idx);
            k += 1;
        }
        assert(vec@.take(vec@.len() as int) =~= vec@);
    }

    fn lower_row(&mut self, idx: usize)
        requires
            idx < WELL_ROWS,
        ensures
            final(self).blocks@ == lower_rows(old(self).blocks@, idx as int),
    {
        let ghost start = self.blocks@;
        let saved = self.blocks[idx];
        let mut i: usize = idx;
        while i > 0
            invariant
                0 <= i <= idx < WELL_ROWS,
                self.blocks@.len() == WELL_ROWS,
                forall|j: int| 0 <= j <= i ==> self.blocks@[j] == start[j],
                forall|j: int| i < j <= idx ==> self.blocks@[j] == start[j - 1],
                forall|j: int| idx < j < WELL_ROWS ==> self.blocks@[j] == start[j],
                saved == start[idx as int],
            decreases i,
        {
            self.blocks[i] = self.blocks[i - 1];
            i -= 1;
        }
        self.blocks[0] = saved;
        assert(self.blocks@ =~= lower_rows(start, idx as int));
    }
}

} // verus!
