//! A character grid packed into a 64-bit mask.
//!
//! [`BitGrid::parse`] scans a text for one character and records each
//! occurrence as a bit, indexed by the character's position counting only
//! grid characters (line breaks separate rows and are not counted; a
//! carriage return directly before a line feed is not counted either). The
//! first row fixes the width; every later row boundary must land on a
//! multiple of it, or the text is rejected. [`spec_grid_parse`] is the exact
//! model of the scan, including the inputs on which it cannot be performed
//! (a mask position past the 64 bits, or a row check against width zero),
//! which callers must avoid.

use vstd::prelude::*;
use vstd::string::StrSliceExecFns;

verus! {

/// A grid's dimensions, remembering which character was scanned for.
#[derive(Clone, PartialEq, Debug)]
pub struct Space {
    pub width: u64,
    pub height: u64,
    pub character: Option<char>,
}

impl Space {
    pub fn new(width: u64, height: u64, character: char) -> (s: Space)
        ensures
            s.width == width,
            s.height == height,
            s.character == Some(character),
    {
        Space { width, height, character: Some(character) }
    }

    /// The number of cells; the product must fit the type.
    pub fn size(&self) -> (n: u64)
        requires
            self.width * self.height <= u64::MAX,
        ensures
            n == self.width * self.height,
    {
        self.width * self.height
    }
}

/// True when exactly one bit of `b` is set.
pub open spec fn single_bit(b: u64) -> bool {
    b != 0 && b & ((b - 1) as u64) == 0
}

/// What scanning a text yields: a mask with its dimensions, a rejection, or
/// an input the scan cannot be performed on.
pub enum GridOutcome {
    Done { bits: u64, width: u64, height: u64 },
    Rejected,
    Panics,
}

/// The result once the text is exhausted: the width defaults to the total
/// count when no row boundary fixed it.
pub open spec fn grid_finish(bits: u64, index: u64, width: Option<u64>) -> GridOutcome {
    let w = match width {
        None => index,
        Some(w0) => w0,
    };
    GridOutcome::Done {
        bits,
        width: w,
        height: if w == 0 {
            0u64
        } else {
            ((index as int) / (w as int)) as u64
        },
    }
}

/// One step of the scan, from position `k` with the state accumulated so
/// far: the mask, the count of grid characters, the width once fixed, and
/// whether any grid character was seen since the last row boundary.
pub open spec fn grid_step(
    ex: char,
    s: Seq<char>,
    k: int,
    bits: u64,
    index: u64,
    width: Option<u64>,
    pending: bool,
) -> GridOutcome
    decreases s.len() - k,
{
    if k < 0 || k >= s.len() {
        if pending {
            match width {
                None => grid_finish(bits, index, Some(index)),
                Some(w) => if w == 0 {
                    GridOutcome::Panics
                } else if (index as int) % (w as int) != 0 {
                    GridOutcome::Rejected
                } else {
                    grid_finish(bits, index, Some(w))
                },
            }
        } else {
            grid_finish(bits, index, width)
        }
    } else {
        let c = s[k];
        if c == '\n' {
            match width {
                None => grid_step(ex, s, k + 1, bits, index, Some(index), false),
                Some(w) => if w == 0 {
                    GridOutcome::Panics
                } else if (index as int) % (w as int) != 0 {
                    GridOutcome::Rejected
                } else {
                    grid_step(ex, s, k + 1, bits, index, Some(w), false)
                },
            }
        } else if c == '\r' && k + 1 < s.len() && s[k + 1] == '\n' {
            grid_step(ex, s, k + 1, bits, index, width, pending)
        } else if c == ex {
            if index >= 64 {
                GridOutcome::Panics
            } else {
                grid_step(ex, s, k + 1, bits | (1u64 << index), (index + 1) as u64, width, true)
            }
        } else {
            grid_step(ex, s, k + 1, bits, (index + 1) as u64, width, true)
        }
    }
}

/// The whole scan of a text for one character; the exact contract of
/// [`BitGrid::parse`].
pub open spec fn spec_grid_parse(ex: char, s: Seq<char>) -> GridOutcome {
    grid_step(ex, s, 0, 0, 0, None, false)
}

/// The positions of one character in a grid, one bit per cell.
#[derive(Clone, Copy, PartialEq, Eq, Structural, Debug)]
pub struct BitGrid {
    pub bits: u64,
}

impl BitGrid {
    /// Scan a text for one character. Yields the mask and the grid's
    /// dimensions, or nothing when the rows do not line up. The scan must
    /// be performable on the text (see [`spec_grid_parse`]): no occurrence
    /// at a mask position past 64 bits and no row check against width zero.
    #[verifier::loop_isolation(false)]
    pub fn parse(to_extract: char, to_parse: &str) -> (r: Option<(BitGrid, Space)>)
        requires
            !(spec_grid_parse(to_extract, to_parse@) is Panics),
        ensures
            match r {
                Some(pair) => spec_grid_parse(to_extract, to_parse@) == (GridOutcome::Done {
                    bits: pair.0.bits,
                    width: pair.1.width,
                    height: pair.1.height,
                }) && pair.1.character == Some(to_extract),
                None => spec_grid_parse(to_extract, to_parse@) is Rejected,
            },
    {
        let n = to_parse.unicode_len();
        let mut bits: u64 = 0;
        let mut index: u64 = 0;
        let mut width: Option<u64> = None;
        let mut pending: bool = false;
        let mut k: usize = 0;
        while k < n
            invariant
                k <= n,
                index <= k,
                spec_grid_parse(to_extract, to_parse@) == grid_step(
                    to_extract,
                    to_parse@,
                    k as int,
                    bits,
                    index,
                    width,
                    pending,
                ),
            decreases n - k,
        {
            let c = to_parse.get_char(k);
            if c == '\n' {
                match width {
                    None => {
                        width = Some(index);
                        pending = false;
                    },
                    Some(w) => {
                        proof {
                            assert(w != 0) by {
                                if w == 0 {
                                    assert(grid_step(
                                        to_extract,
                                        to_parse@,
                                        k as int,
                                        bits,
                                        index,
                                        width,
                                        pending,
                                    ) == GridOutcome::Panics);
                                }
                            }
                        }
                        if index % w != 0 {
                            return None;
                        }
                        pending = false;
                    },
                }
            } else {
                let mut skip = false;
                if c == '\r' && k + 1 < n {
                    if to_parse.get_char(k + 1) == '\n' {
                        skip = true;
                    }
                }
                if !skip {
                    if c == to_extract {
                        proof {
                            assert(index < 64) by {
                                if index >= 64 {
                                    assert(grid_step(
                                        to_extract,
                                        to_parse@,
                                        k as int,
                                        bits,
                                        index,
                                        width,
                                        pending,
                                    ) == GridOutcome::Panics);
                                }
                            }
                        }
                        bits = bits | (1u64 << index);
                    }
                    index = index + 1;
                    pending = true;
                }
            }
            k = k + 1;
        }
        if pending {
            match width {
                None => {
                    width = Some(index);
                },
                Some(w) => {
                    proof {
                        assert(w != 0) by {
                            if w == 0 {
                                assert(grid_step(
                                    to_extract,
                                    to_parse@,
                                    k as int,
                                    bits,
                                    index,
                                    width,
                                    pending,
                                ) == GridOutcome::Panics);
                            }
                        }
                    }
                    if index % w != 0 {
                        return None;
                    }
                },
            }
        }
        let w = match width {
            None => index,
            Some(w0) => w0,
        };
        let h = if w == 0 {
            0u64
        } else {
            index / w
        };
        Some((BitGrid { bits }, Space { width: w, height: h, character: Some(to_extract) }))
    }

    /// The empty mask.
    pub fn zero() -> (g: BitGrid)
        ensures
            g.bits == 0,
    {
        BitGrid { bits: 0 }
    }

    /// The column of the single set bit's cell value within a row of the
    /// grid: the mask value reduced modulo the width, truncated to eight
    /// bits. Exactly one bit must be set and the width must be non-zero.
    pub fn x(&self, s: &Space) -> (r: u8)
        requires
            single_bit(self.bits),
            s.width > 0,
        ensures
            r == (self.bits % s.width) as u8,
    {
        #[verifier::truncate] ((self.bits % s.width) as u8)
    }

    /// The row counterpart of [`BitGrid::x`]: the mask value divided by the
    /// width, truncated to eight bits.
    pub fn y(&self, s: &Space) -> (r: u8)
        requires
            single_bit(self.bits),
            s.width > 0,
        ensures
            r == (self.bits / s.width) as u8,
    {
        #[verifier::truncate] ((self.bits / s.width) as u8)
    }
}

} // verus!
