//! Diagnostics formatter: locates the source line that holds a byte offset
//! and renders a caret underline beneath an offending span. It is consulted
//! only on the failure path.

use vstd::prelude::*;

verus! {

/// A line-terminator byte: line feed or carriage return.
pub open spec fn is_line_break(b: u8) -> bool {
    b == 10 || b == 13
}

/// The first byte of the line that holds offset `i`: the largest position
/// at or below `i` that sits just after a line break or at the start.
pub open spec fn line_start(src: Seq<u8>, i: int) -> int
    decreases i,
{
    if i <= 0 {
        0
    } else if is_line_break(src[i - 1]) {
        i
    } else {
        line_start(src, i - 1)
    }
}

/// One past the last byte of the line that holds offset `i`: the smallest
/// position at or above `i` that carries a line break or ends the source.
pub open spec fn line_end(src: Seq<u8>, i: int) -> int
    decreases src.len() - i,
{
    if i >= src.len() {
        src.len() as int
    } else if is_line_break(src[i]) {
        i
    } else {
        line_end(src, i + 1)
    }
}

pub proof fn lemma_line_start(src: Seq<u8>, i: int)
    requires
        0 <= i <= src.len(),
    ensures
        0 <= line_start(src, i) <= i,
    decreases i,
{
    if i > 0 && !is_line_break(src[i - 1]) {
        lemma_line_start(src, i - 1);
    }
}

pub proof fn lemma_line_end(src: Seq<u8>, i: int)
    requires
        0 <= i <= src.len(),
    ensures
        i <= line_end(src, i) <= src.len(),
    decreases src.len() - i,
{
    if i < src.len() && !is_line_break(src[i]) {
        lemma_line_end(src, i + 1);
    }
}

/// Holds the source text and finds the lines that diagnostics point at.
pub struct Formatter {
    source: Vec<u8>,
}

impl Formatter {
    /// The source bytes this formatter reads.
    pub closed spec fn src(&self) -> Seq<u8> {
        self.source@
    }

    /// A formatter over `source`.
    pub fn initialize(source: Vec<u8>) -> (f: Formatter)
        ensures
            f.src() == source@,
    {
        Formatter { source }
    }

    /// The line holding byte offset `index`: its text (without the line
    /// break), its first byte offset, and the offset one past its last byte.
    pub fn get_line(&self, index: usize) -> (r: (Vec<u8>, usize, usize))
        requires
            index <= self.src().len(),
        ensures
            r.1 == line_start(self.src(), index as int),
            r.2 == line_end(self.src(), index as int),
            r.0@ == self.src().subrange(r.1 as int, r.2 as int),
    {
        let ghost src = self.source@;
        proof {
            lemma_line_start(src, index as int);
            lemma_line_end(src, index as int);
        }
        let mut s = index;
        while s > 0 && self.source[s - 1] != 10 && self.source[s - 1] != 13
            invariant
                s <= index <= self.source@.len(),
                self.source@ == src,
                line_start(src, index as int) == line_start(src, s as int),
            decreases s,
        {
            s -= 1;
        }
        let n = self.source.len();
        let mut e = index;
        while e < n && self.source[e] != 10 && self.source[e] != 13
            invariant
                index <= e <= n,
                n == self.source@.len(),
                self.source@ == src,
                line_end(src, index as int) == line_end(src, e as int),
            decreases n - e,
        {
            e += 1;
        }
        proof {
            assert(line_start(src, s as int) == s);
            assert(line_end(src, e as int) == e);
        }
        let line = crate::lexer::copy_range(&self.source, s, e);
        (line, s, e)
    }

    /// A string of the line's length that underlines with `^` exactly the
    /// positions `k` of the line whose source offsets `start + k` fall
    /// inside the inclusive span `lo..=hi`, with a space everywhere else.
    pub fn get_underline(line: &Vec<u8>, start: usize, lo: usize, hi: usize) -> (r: Vec<u8>)
        ensures
            r@.len() == line@.len(),
            forall|k: int|
                0 <= k < line@.len() ==> r@[k] == if lo <= start + k <= hi {
                    94u8
                } else {
                    32u8
                },
    {
        let mut r: Vec<u8> = Vec::new();
        let mut k: usize = 0;
        let n = line.len();
        while k < n
            invariant
                0 <= k <= n,
                n == line@.len(),
                r@.len() == k,
                forall|j: int|
                    0 <= j < k ==> r@[j] == if lo <= start + j <= hi {
                        94u8
                    } else {
                        32u8
                    },
            decreases n - k,
        {
            let here = start <= usize::MAX - k;
            if here && lo <= start + k && start + k <= hi {
                r.push(94);
            } else {
                r.push(32);
            }
            k += 1;
        }
        r
    }
}

} // verus!
