//! The row engine: one generation of cells and the transition to the next.

use vstd::prelude::*;
use vstd::pervasive::VecAdditionalExecFns;
use vstd::string::StrSliceExecFns;

verus! {

/// The cell at index `i`, with every index outside the row inactive:
/// the automaton neither wraps around nor extends past the edges.
pub open spec fn cell_at(s: Seq<bool>, i: int) -> bool {
    0 <= i < s.len() && s[i]
}

/// The 3-bit neighborhood code of the cell at index `i`:
/// left is worth 4, center 2, right 1, so the code lies in `[0, 7]`.
pub open spec fn neighborhood_code(s: Seq<bool>, i: int) -> int {
    (if cell_at(s, i - 1) { 4int } else { 0int })
        + (if cell_at(s, i) { 2int } else { 0int })
        + (if cell_at(s, i + 1) { 1int } else { 0int })
}

/// Bit `code` of the rule byte: set means "a cell whose neighborhood
/// encodes to `code` is active in the next generation".
pub open spec fn rule_bit(rule: u8, code: int) -> bool {
    ((rule >> (code as u8)) & 1) == 1
}

/// The next state of the cell at index `i`.
pub open spec fn next_cell(s: Seq<bool>, rule: u8, i: int) -> bool {
    rule_bit(rule, neighborhood_code(s, i))
}

/// One transition: a row of the same length, each cell chosen by the rule
/// from its neighborhood in the old row.
pub open spec fn next_row(s: Seq<bool>, rule: u8) -> Seq<bool> {
    Seq::new(s.len(), |i: int| next_cell(s, rule, i))
}

/// The row after `k` transitions under `rule`, starting from `s`.
pub open spec fn iterated_row(s: Seq<bool>, rule: u8, k: nat) -> Seq<bool>
    decreases k,
{
    if k == 0 {
        s
    } else {
        next_row(iterated_row(s, rule, (k - 1) as nat), rule)
    }
}

/// The cells a flat sequence of byte digits denotes: `1` is active,
/// any other byte value is inactive.
pub open spec fn digit_cells(digits: Seq<u8>) -> Seq<bool> {
    Seq::new(digits.len(), |i: int| digits[i] == 1)
}

/// The byte digits a row denotes: `1` for an active cell, `0` otherwise.
pub open spec fn cell_digits(s: Seq<bool>) -> Seq<u8> {
    Seq::new(s.len(), |i: int| if s[i] { 1u8 } else { 0u8 })
}

/// The digits of generations 1 through `n` from seed `s`, concatenated
/// in generation order then index order; the seed itself is not included.
pub open spec fn generation_digits(s: Seq<bool>, rule: u8, n: nat) -> Seq<u8>
    decreases n,
{
    if n == 0 {
        Seq::empty()
    } else {
        generation_digits(s, rule, (n - 1) as nat) + cell_digits(iterated_row(s, rule, n))
    }
}

/// The cells a literal pattern denotes: `'1'` is active, any other
/// character (not just `'0'`) is inactive.
pub open spec fn pattern_cells(pat: Seq<char>) -> Seq<bool> {
    Seq::new(pat.len(), |i: int| pat[i] == '1')
}

/// A row of `len` cells, all inactive but the one at index `len / 2`.
pub open spec fn centered_cells(len: nat) -> Seq<bool> {
    Seq::new(len, |i: int| i == len as int / 2)
}

/// A row of boolean cells; one generation of the automaton.
pub struct Line(pub Vec<bool>);

impl View for Line {
    type V = Seq<bool>;

    open spec fn view(&self) -> Seq<bool> {
        self.0@
    }
}

impl Line {
    /// Builds a row from a literal pattern, one cell per character.
    /// Unrecognized characters silently map to inactive cells.
    pub fn from_string(input: String) -> (r: Self)
        ensures
            r@ == pattern_cells(input@),
    {
        let pat = input.as_str();
        let len = pat.unicode_len();
        let mut cells: Vec<bool> = Vec::new();
        let mut i: usize = 0;
        while i < len
            invariant
                len == pat@.len(),
                pat@ == input@,
                i <= len,
                cells@.len() == i,
                forall|k: int| 0 <= k < i ==> cells@[k] == (input@[k] == '1'),
            decreases len - i,
        {
            cells.push(pat.get_char(i) == '1');
            i = i + 1;
        }
        assert(cells@ =~= pattern_cells(input@));
        Line(cells)
    }

    /// Creates a new line with the center pixel enabled: every cell
    /// inactive but the one at index `size / 2`.
    pub fn center_enabled(size: usize) -> (r: Self)
        requires
            size >= 1,
        ensures
            r@ == centered_cells(size as nat),
    {
        let mut cells: Vec<bool> = Vec::new();
        let mut i: usize = 0;
        while i < size
            invariant
                i <= size,
                cells@.len() == i,
                forall|k: int| 0 <= k < i ==> !cells@[k],
            decreases size - i,
        {
            cells.push(false);
            i = i + 1;
        }
        cells.set(size / 2, true);
        assert(cells@ =~= centered_cells(size as nat));
        Line(cells)
    }

    /// The number of cells in the row.
    pub fn len(&self) -> (n: usize)
        ensures
            n == self@.len(),
    {
        self.0.len()
    }

    /// Whether the row has no cells.
    pub fn is_empty(&self) -> (r: bool)
        ensures
            r == (self@.len() == 0),
    {
        self.0.len() == 0
    }

    /// Generates the next line given a rule. The new row has the same
    /// length, and every cell is computed from the original row only.
    pub fn next(&self, rule: u8) -> (r: Self)
        ensures
            r@ == next_row(self@, rule),
    {
        let len = self.0.len();
        let mut cells: Vec<bool> = Vec::new();
        let mut i: usize = 0;
        while i < len
            invariant
                len == self@.len(),
                i <= len,
                cells@.len() == i,
                forall|k: int| 0 <= k < i ==> cells@[k] == next_cell(self@, rule, k),
            decreases len - i,
        {
            let left = if i == 0 { false } else { self.0[i - 1] };
            let center = self.0[i];
            let right = if i + 1 < len { self.0[i + 1] } else { false };
            let code: u8 = (if left { 4u8 } else { 0u8 })
                + (if center { 2u8 } else { 0u8 })
                + (if right { 1u8 } else { 0u8 });
            assert(code == neighborhood_code(self@, i as int));
            cells.push(((rule >> code) & 1) == 1);
            i = i + 1;
        }
        assert(cells@ =~= next_row(self@, rule));
        Line(cells)
    }

    /// The next `n` generations, in order, starting from the first
    /// successor; the starting row itself is not included.
    pub fn next_n(&self, rule: u8, n: u32) -> (out: Vec<Line>)
        ensures
            out@.len() == n as int,
            forall|k: int|
                0 <= k < n as int ==> #[trigger] out@[k]@ == iterated_row(self@, rule, (k + 1) as nat),
    {
        let mut out: Vec<Line> = Vec::new();
        let mut k: u32 = 0;
        while k < n
            invariant
                k <= n,
                out@.len() == k as int,
                forall|j: int|
                    0 <= j < k as int ==> #[trigger] out@[j]@ == iterated_row(self@, rule, (j + 1) as nat),
            decreases n - k,
        {
            let step = if k == 0 {
                self.next(rule)
            } else {
                out[k as usize - 1].next(rule)
            };
            proof {
                assert(iterated_row(self@, rule, (k + 1) as nat) == next_row(
                    iterated_row(self@, rule, k as nat),
                    rule,
                ));
                if k == 0 {
                    assert(iterated_row(self@, rule, 0) == self@);
                } else {
                    assert(out@[k as int - 1]@ == iterated_row(self@, rule, k as nat));
                }
            }
            assert(step@ == iterated_row(self@, rule, (k + 1) as nat));
            out.push(step);
            k = k + 1;
        }
        out
    }

    /// Builds a row from a flat sequence of byte digits, one cell per
    /// byte: `1` is active, any other value is inactive.
    pub fn from_digits(digits: &Vec<u8>) -> (r: Self)
        ensures
            r@ == digit_cells(digits@),
    {
        let mut cells: Vec<bool> = Vec::new();
        let mut i: usize = 0;
        while i < digits.len()
            invariant
                i <= digits@.len(),
                cells@.len() == i,
                forall|k: int| 0 <= k < i ==> cells@[k] == (digits@[k] == 1),
            decreases digits@.len() - i,
        {
            cells.push(digits[i] == 1);
            i = i + 1;
        }
        assert(cells@ =~= digit_cells(digits@));
        Line(cells)
    }

    /// The row as a flat sequence of byte digits: `1` for an active
    /// cell, `0` otherwise.
    pub fn to_digits(&self) -> (r: Vec<u8>)
        ensures
            r@ == cell_digits(self@),
    {
        let mut digits: Vec<u8> = Vec::new();
        let mut i: usize = 0;
        while i < self.0.len()
            invariant
                i <= self@.len(),
                digits@.len() == i,
                forall|k: int| 0 <= k < i ==> digits@[k] == (if self@[k] { 1u8 } else { 0u8 }),
            decreases self@.len() - i,
        {
            digits.push(if self.0[i] { 1 } else { 0 });
            i = i + 1;
        }
        assert(digits@ =~= cell_digits(self@));
        digits
    }
}

/// The batch operation for host embeddings: decode a flat sequence of
/// `0`/`1` byte digits as the seed row, advance it `n` times under
/// `rule`, and return the digits of every computed generation,
/// concatenated in generation order then index order.
pub fn next_n_digits(digits: &Vec<u8>, rule: u8, n: u32) -> (out: Vec<u8>)
    ensures
        out@ == generation_digits(digit_cells(digits@), rule, n as nat),
{
    let seed = Line::from_digits(digits);
    let generations = seed.next_n(rule, n);
    let mut out: Vec<u8> = Vec::new();
    let mut g: usize = 0;
    while g < generations.len()
        invariant
            generations@.len() == n as int,
            forall|k: int|
                0 <= k < n as int ==> #[trigger] generations@[k]@ == iterated_row(
                    digit_cells(digits@),
                    rule,
                    (k + 1) as nat,
                ),
            g <= n,
            out@ == generation_digits(digit_cells(digits@), rule, g as nat),
        decreases n - g,
    {
        let mut row_digits = generations[g].to_digits();
        out.append(&mut row_digits);
        assert(out@ == generation_digits(digit_cells(digits@), rule, (g + 1) as nat));
        g = g + 1;
    }
    out
}

/// Determinism: the transition depends on nothing but the row and the
/// rule, so two advances of equal rows under the same rule agree.
pub proof fn lemma_next_row_deterministic(a: Seq<bool>, b: Seq<bool>, rule: u8)
    requires
        a == b,
    ensures
        next_row(a, rule) == next_row(b, rule),
{
}

/// Length preservation: a transition never grows or shrinks the row.
pub proof fn lemma_next_row_preserves_len(s: Seq<bool>, rule: u8)
    ensures
        next_row(s, rule).len() == s.len(),
{
}

/// Rule 0 maps every row to the all-inactive row in one step, and the
/// all-inactive row is a fixed point of it; so rule 0 is idempotent
/// after its first application, which a general rule is not.
pub proof fn lemma_rule_zero_collapses(s: Seq<bool>)
    ensures
        forall|i: int| 0 <= i < s.len() ==> !next_row(s, 0)[i],
        next_row(next_row(s, 0), 0) == next_row(s, 0),
{
    assert(forall|c: u8| ((0u8 >> c) & 1) == 0) by (bit_vector);
    assert(next_row(next_row(s, 0), 0) =~= next_row(s, 0));
}

} // verus!
