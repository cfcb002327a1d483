//! The bounded byte tape: a fixed-capacity array of cells with a movable
//! head. Cell arithmetic wraps modulo 256; head motion is clamped at the
//! tape boundaries (moving past either end is a silent no-op).

use vstd::prelude::*;
use vstd::string::*;
use crate::decimal::{dec_str, num_digits, lemma_num_digits_le_self, usize_to_string};

verus! {

/// Number of cells on the tape.
pub const TAPE_SIZE: usize = 30000;

/// How many cells the diagnostic window shows.
pub const CELLS_IN_SNIPLET: usize = 11;

/// Lowest valid head position.
pub const INITIAL_POS: usize = 0;

/// Highest valid head position.
pub const FINAL_POS: usize = 30000 - 1;

/// The cell value after a wrapping increment.
pub open spec fn wrapping_inc(v: u8) -> u8 {
    if v == 255 {
        0
    } else {
        (v + 1) as u8
    }
}

/// The cell value after a wrapping decrement.
pub open spec fn wrapping_dec(v: u8) -> u8 {
    if v == 0 {
        255
    } else {
        (v - 1) as u8
    }
}

pub struct MemoryTape {
    pub block: Vec<u8>,
    pub head_position: usize,
}

impl MemoryTape {
    /// The cells as a mathematical sequence.
    pub open spec fn cells(&self) -> Seq<u8> {
        self.block@
    }

    /// Well-formedness: the tape always holds exactly `TAPE_SIZE` cells and
    /// the head never leaves `[INITIAL_POS, FINAL_POS]`.
    pub open spec fn wf(&self) -> bool {
        &&& self.cells().len() == TAPE_SIZE
        &&& self.head_position < TAPE_SIZE
    }

    /// The value of the cell under the head.
    pub open spec fn current_cell(&self) -> u8 {
        self.cells()[self.head_position as int]
    }

    pub fn new() -> (tape: MemoryTape)
        ensures
            tape.wf(),
            tape.head_position == INITIAL_POS,
            tape.cells().len() == TAPE_SIZE,
            forall|i: int| 0 <= i < TAPE_SIZE ==> tape.cells()[i] == 0u8,
    {
        let mut block: Vec<u8> = Vec::new();
        let mut i: usize = 0;
        while i < TAPE_SIZE
            invariant
                i <= TAPE_SIZE,
                block@.len() == i,
                forall|j: int| 0 <= j < i ==> block@[j] == 0u8,
            decreases TAPE_SIZE - i,
        {
            block.push(0u8);
            i += 1;
        }
        MemoryTape { block, head_position: 0 }
    }

    /// Adds one to the cell under the head, wrapping 255 to 0.
    pub fn increment(&mut self)
        requires
            old(self).wf(),
        ensures
            final(self).wf(),
            final(self).head_position == old(self).head_position,
            final(self).cells() == old(self).cells().update(
                old(self).head_position as int,
                wrapping_inc(old(self).current_cell()),
            ),
    {
        let current_value = self.block[self.head_position];
        let should_overflow = current_value == 255;

        let new_value = if should_overflow {
            0
        } else {
            current_value + 1
        };
        self.block[self.head_position] = new_value;
    }

    /// Subtracts one from the cell under the head, wrapping 0 to 255.
    pub fn decrement(&mut self)
        requires
            old(self).wf(),
        ensures
            final(self).wf(),
            final(self).head_position == old(self).head_position,
            final(self).cells() == old(self).cells().update(
                old(self).head_position as int,
                wrapping_dec(old(self).current_cell()),
            ),
    {
        let current_value = self.block[self.head_position];
        let should_overflow = current_value == 0;

        let new_value = if should_overflow {
            255
        } else {
            current_value - 1
        };
        self.block[self.head_position] = new_value;
    }

    /// Moves the head one cell to the left; at position 0 this is a no-op.
    pub fn move_left(&mut self)
        requires
            old(self).wf(),
        ensures
            final(self).wf(),
            final(self).cells() == old(self).cells(),
            old(self).head_position == INITIAL_POS ==> final(self).head_position == old(
                self,
            ).head_position,
            old(self).head_position != INITIAL_POS ==> final(self).head_position == old(
                self,
            ).head_position - 1,
    {
        let current_position = self.head_position;
        let can_move = current_position != INITIAL_POS;

        self.head_position = if can_move {
            current_position - 1
        } else {
            current_position
        };
    }

    /// Moves the head one cell to the right; at the last cell this is a no-op.
    pub fn move_right(&mut self)
        requires
            old(self).wf(),
        ensures
            final(self).wf(),
            final(self).cells() == old(self).cells(),
            old(self).head_position == FINAL_POS ==> final(self).head_position == old(
                self,
            ).head_position,
            old(self).head_position != FINAL_POS ==> final(self).head_position == old(
                self,
            ).head_position + 1,
    {
        let current_position = self.head_position;
        let can_move = current_position != FINAL_POS;

        self.head_position = if can_move {
            current_position + 1
        } else {
            current_position
        };
    }

    /// Moves the head to `pos`; an out-of-range position is ignored.
    pub fn move_to(&mut self, pos: usize)
        requires
            old(self).wf(),
        ensures
            final(self).wf(),
            final(self).cells() == old(self).cells(),
            pos <= FINAL_POS ==> final(self).head_position == pos,
            pos > FINAL_POS ==> final(self).head_position == old(self).head_position,
    {
        let is_valid_position = pos <= FINAL_POS;

        self.head_position = if is_valid_position {
            pos
        } else {
            self.head_position
        };
    }

    pub fn get_current_value(&self) -> (value: u8)
        requires
            self.wf(),
        ensures
            value == self.current_cell(),
    {
        self.block[self.head_position]
    }

    pub fn set_cell_value(&mut self, value: u8)
        requires
            old(self).wf(),
        ensures
            final(self).wf(),
            final(self).head_position == old(self).head_position,
            final(self).cells() == old(self).cells().update(
                old(self).head_position as int,
                value,
            ),
    {
        self.block[self.head_position] = value;
    }

    /// How many window cells fit to the left of the head.
    pub fn get_cells_num_left(head_position: usize, cells_num: usize) -> (r: usize)
        ensures
            r == spec_cells_num_left(head_position as int, cells_num as int),
    {
        if head_position < cells_num {
            head_position
        } else {
            cells_num
        }
    }

    /// How many window cells fit to the right of the head.
    pub fn get_cells_num_right(head_position: usize, cells_num: usize) -> (r: usize)
        requires
            head_position <= FINAL_POS,
            cells_num <= TAPE_SIZE,
        ensures
            r == spec_cells_num_right(head_position as int, cells_num as int),
    {
        if head_position + cells_num > FINAL_POS {
            FINAL_POS - head_position
        } else {
            cells_num
        }
    }

    /// Copies the window's cells out of the tape.
    pub fn fill_segment(&self, segment: &mut Vec<u8>, start_pos: usize)
        requires
            self.wf(),
            old(segment)@.len() == CELLS_IN_SNIPLET,
            start_pos + CELLS_IN_SNIPLET <= TAPE_SIZE,
        ensures
            final(segment)@ == self.cells().subrange(
                start_pos as int,
                start_pos + CELLS_IN_SNIPLET,
            ),
    {
        let ghost start0 = start_pos as int;
        let mut start_pos = start_pos;
        let cells_in_segment = CELLS_IN_SNIPLET;
        let mut i: usize = 0;
        while i < cells_in_segment
            invariant
                self.wf(),
                cells_in_segment == CELLS_IN_SNIPLET,
                i <= CELLS_IN_SNIPLET,
                start_pos == start0 + i,
                start0 + CELLS_IN_SNIPLET <= TAPE_SIZE,
                segment@.len() == CELLS_IN_SNIPLET,
                forall|j: int| 0 <= j < i ==> segment@[j] == self.cells()[start0 + j],
            decreases cells_in_segment - i,
        {
            segment[i] = self.block[start_pos];
            start_pos += 1;
            i += 1;
        }
        proof {
            assert(segment@ =~= self.cells().subrange(start0, start0 + CELLS_IN_SNIPLET));
        }
    }

    /// How many decimal digits `num` renders with.
    pub fn count_digits(&self, num: usize) -> (r: usize)
        ensures
            r == num_digits(num as nat),
    {
        if num == 0 {
            return 1;
        }
        let mut num_mut = num;
        let mut cnt: usize = 0;
        while num_mut > 0
            invariant
                num >= 1,
                num_mut > 0 ==> cnt + num_digits(num_mut as nat) == num_digits(num as nat),
                num_mut == 0 ==> cnt == num_digits(num as nat),
            decreases num_mut,
        {
            proof {
                lemma_num_digits_le_self(num as nat);
            }
            num_mut /= 10;
            cnt += 1;
        }
        return cnt;
    }

    /// Renders the window of `CELLS_IN_SNIPLET` cells around the head as
    /// three text lines: the cell values, their indexes, and the marker line
    /// pointing at the head's column. A pure query: nothing is printed and
    /// nothing changes.
    pub fn render_tape_sniplet(&self) -> (r: (String, String, String))
        requires
            self.wf(),
        ensures
            r.0@ == window_cells_row(self.cells(), window_start(self.head_position as int), 0),
            r.1@ == window_index_row(self.cells(), window_start(self.head_position as int), 0),
            r.2@ == window_head_row(
                self.cells(),
                self.head_position as int,
                window_start(self.head_position as int),
                0,
            ),
    {
        let ghost cs = self.cells();
        let ghost head_g = self.head_position as int;
        let half = CELLS_IN_SNIPLET / 2;

        let mut right_cells = MemoryTape::get_cells_num_right(self.head_position, half);
        let mut left_cells = MemoryTape::get_cells_num_left(self.head_position, half);

        // when there are less cells on the right or left
        if right_cells < half {
            left_cells = CELLS_IN_SNIPLET - 1 - right_cells;
        } else if left_cells < half {
            right_cells = CELLS_IN_SNIPLET - 1 - left_cells;
        }

        let start = self.head_position - left_cells;
        proof {
            assert(start == window_start(head_g));
            assert(start + CELLS_IN_SNIPLET <= TAPE_SIZE);
        }

        let mut segment: Vec<u8> = Vec::new();
        let mut z: usize = 0;
        while z < CELLS_IN_SNIPLET
            invariant
                z <= CELLS_IN_SNIPLET,
                segment@.len() == z,
            decreases CELLS_IN_SNIPLET - z,
        {
            segment.push(0u8);
            z += 1;
        }
        self.fill_segment(&mut segment, start);

        let mut cells_str = String::new();
        let mut indexes_str = String::new();
        let mut head_str = String::new();

        let mut current_index = start;
        let mut k: usize = 0;
        while k < CELLS_IN_SNIPLET
            invariant
                self.wf(),
                cs == self.cells(),
                head_g == self.head_position as int,
                k <= CELLS_IN_SNIPLET,
                current_index == start + k,
                start == window_start(head_g),
                start + CELLS_IN_SNIPLET <= TAPE_SIZE,
                segment@ == cs.subrange(start as int, start + CELLS_IN_SNIPLET),
                cells_str@ + window_cells_row(cs, start as int, k as int) == window_cells_row(
                    cs,
                    start as int,
                    0,
                ),
                indexes_str@ + window_index_row(cs, start as int, k as int) == window_index_row(
                    cs,
                    start as int,
                    0,
                ),
                head_str@ + window_head_row(cs, head_g, start as int, k as int)
                    == window_head_row(cs, head_g, start as int, 0),
            decreases CELLS_IN_SNIPLET - k,
        {
            let cell = segment[k];
            proof {
                assert(cell == cs[start + k]);
            }
            let cell_digits = self.count_digits(cell as usize);
            let index_digits = self.count_digits(current_index);
            proof {
                if cell as nat >= 1 {
                    lemma_num_digits_le_self(cell as nat);
                }
                if current_index as nat >= 1 {
                    lemma_num_digits_le_self(current_index as nat);
                }
            }

            let cell_len = if cell_digits > index_digits {
                cell_digits
            } else {
                index_digits
            };
            proof {
                assert(cell_len == width_at(cs, start + k));
            }

            // build cell string
            let ghost cells_pre = cells_str@;
            cells_str.append("[");
            let cell_text = usize_to_string(cell as usize);
            cells_str.append(cell_text.as_str());
            append_spaces(&mut cells_str, cell_len - cell_digits);
            cells_str.append("]");
            proof {
                reveal_strlit("[");
                reveal_strlit("]");
                assert("["@ =~= seq!['[']);
                assert("]"@ =~= seq![']']);
                assert(cells_str@ =~= cells_pre + box_str(cell as nat, cell_len as nat));
                assert(window_cells_row(cs, start as int, k as int) == box_str(
                    cs[start + k] as nat,
                    width_at(cs, start + k),
                ) + window_cells_row(cs, start as int, k + 1));
                assert(cells_str@ + window_cells_row(cs, start as int, k + 1) =~= cells_pre
                    + window_cells_row(cs, start as int, k as int));
            }

            // build index string
            let ghost idx_pre = indexes_str@;
            indexes_str.append("[");
            let index_text = usize_to_string(current_index);
            indexes_str.append(index_text.as_str());
            append_spaces(&mut indexes_str, cell_len - index_digits);
            indexes_str.append("]");
            proof {
                reveal_strlit("[");
                reveal_strlit("]");
                assert(indexes_str@ =~= idx_pre + box_str(
                    (start + k) as nat,
                    cell_len as nat,
                ));
                assert(indexes_str@ + window_index_row(cs, start as int, k + 1) =~= idx_pre
                    + window_index_row(cs, start as int, k as int));
            }

            // build head string
            let ghost head_pre = head_str@;
            let with_head = current_index == self.head_position;
            let mid_pos = (cell_len + 2) / 2;
            let mut pos: usize = 0;
            while pos < cell_len + 2
                invariant
                    cell_len + 2 <= usize::MAX,
                    pos <= cell_len + 2,
                    head_str@ == head_pre + marker_box(cell_len as nat, with_head).take(
                        pos as int,
                    ),
                    mid_pos == (cell_len + 2) / 2,
                decreases cell_len + 2 - pos,
            {
                let ghost hs_pre = head_str@;
                if with_head && pos == mid_pos {
                    head_str.append("^");
                    proof {
                        reveal_strlit("^");
                    }
                } else {
                    head_str.append("_");
                    proof {
                        reveal_strlit("_");
                    }
                }
                proof {
                    assert(marker_box(cell_len as nat, with_head).take(pos + 1) =~= marker_box(
                        cell_len as nat,
                        with_head,
                    ).take(pos as int).push(marker_box(cell_len as nat, with_head)[pos as int]));
                    assert(head_str@ =~= hs_pre.push(
                        marker_box(cell_len as nat, with_head)[pos as int],
                    ));
                }
                pos += 1;
            }
            proof {
                assert(marker_box(cell_len as nat, with_head).take((cell_len + 2) as int)
                    =~= marker_box(cell_len as nat, with_head));
                assert(with_head == (start + k == head_g));
                assert(head_str@ + window_head_row(cs, head_g, start as int, k + 1) =~= head_pre
                    + window_head_row(cs, head_g, start as int, k as int));
            }

            current_index += 1;
            k += 1;
        }
        proof {
            assert(window_cells_row(cs, start as int, CELLS_IN_SNIPLET as int) =~= Seq::<
                char,
            >::empty());
            assert(cells_str@ + Seq::<char>::empty() =~= cells_str@);
            assert(window_index_row(cs, start as int, CELLS_IN_SNIPLET as int) =~= Seq::<
                char,
            >::empty());
            assert(indexes_str@ + Seq::<char>::empty() =~= indexes_str@);
            assert(window_head_row(cs, head_g, start as int, CELLS_IN_SNIPLET as int) =~= Seq::<
                char,
            >::empty());
            assert(head_str@ + Seq::<char>::empty() =~= head_str@);
        }
        (cells_str, indexes_str, head_str)
    }
}

/// How many window cells fit to the left of the head.
pub open spec fn spec_cells_num_left(head: int, cells_num: int) -> int {
    if head < cells_num {
        head
    } else {
        cells_num
    }
}

/// How many window cells fit to the right of the head.
pub open spec fn spec_cells_num_right(head: int, cells_num: int) -> int {
    if head + cells_num > FINAL_POS {
        FINAL_POS - head
    } else {
        cells_num
    }
}

/// The tape index of the window's leftmost cell: centered on the head, and
/// widened toward the side with more room when the head is near a boundary.
pub open spec fn window_start(head: int) -> int {
    let half = CELLS_IN_SNIPLET as int / 2;
    let right = spec_cells_num_right(head, half);
    let left = spec_cells_num_left(head, half);
    if right < half {
        head - (CELLS_IN_SNIPLET - 1 - right)
    } else {
        head - left
    }
}

/// `n` space characters.
pub open spec fn spaces(n: nat) -> Seq<char>
    decreases n,
{
    if n == 0 {
        Seq::empty()
    } else {
        spaces((n - 1) as nat) + seq![' ']
    }
}

/// One window column: the number in brackets, padded with spaces to the
/// column width.
pub open spec fn box_str(n: nat, w: nat) -> Seq<char> {
    seq!['['] + dec_str(n) + spaces((w - num_digits(n)) as nat) + seq![']']
}

/// One marker-line column: underscores, with the caret in the middle for
/// the head's column.
pub open spec fn marker_box(w: nat, with_head: bool) -> Seq<char> {
    Seq::new(
        w + 2,
        |p: int|
            if with_head && p == ((w + 2) / 2) as int {
                '^'
            } else {
                '_'
            },
    )
}

/// The column width at tape index `idx`: the wider of the cell value's and
/// the index's digit counts.
pub open spec fn width_at(cells: Seq<u8>, idx: int) -> nat {
    if num_digits(cells[idx] as nat) > num_digits(idx as nat) {
        num_digits(cells[idx] as nat)
    } else {
        num_digits(idx as nat)
    }
}

/// The window line showing the cell values, from column `k` on.
pub open spec fn window_cells_row(cells: Seq<u8>, start: int, k: int) -> Seq<char>
    decreases CELLS_IN_SNIPLET - k,
{
    if !(0 <= k < CELLS_IN_SNIPLET) {
        Seq::empty()
    } else {
        box_str(cells[start + k] as nat, width_at(cells, start + k)) + window_cells_row(
            cells,
            start,
            k + 1,
        )
    }
}

/// The window line showing the cell indexes, from column `k` on.
pub open spec fn window_index_row(cells: Seq<u8>, start: int, k: int) -> Seq<char>
    decreases CELLS_IN_SNIPLET - k,
{
    if !(0 <= k < CELLS_IN_SNIPLET) {
        Seq::empty()
    } else {
        box_str((start + k) as nat, width_at(cells, start + k)) + window_index_row(
            cells,
            start,
            k + 1,
        )
    }
}

/// The window line marking the head's column, from column `k` on.
pub open spec fn window_head_row(cells: Seq<u8>, head: int, start: int, k: int) -> Seq<char>
    decreases CELLS_IN_SNIPLET - k,
{
    if !(0 <= k < CELLS_IN_SNIPLET) {
        Seq::empty()
    } else {
        marker_box(width_at(cells, start + k), start + k == head) + window_head_row(
            cells,
            head,
            start,
            k + 1,
        )
    }
}

/// Appends `n` spaces.
fn append_spaces(s: &mut String, n: usize)
    ensures
        final(s)@ == old(s)@ + spaces(n as nat),
{
    let mut j: usize = 0;
    while j < n
        invariant
            j <= n,
            s@ == old(s)@ + spaces(j as nat),
        decreases n - j,
    {
        s.append(" ");
        proof {
            reveal_strlit(" ");
            assert(s@ =~= old(s)@ + spaces((j + 1) as nat));
        }
        j += 1;
    }
}

} // verus!
