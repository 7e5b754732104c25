//! The bytecode container: a flat code byte sequence, a constant pool of at
//! most 256 values, and a run-length-encoded line table mapping each code
//! offset back to the source line that produced it.
//!
//! The line table's mathematical view is the flattened sequence of lines,
//! one per code byte; well-formedness ties its length to the code length.

use vstd::prelude::*;
use crate::op_code::OpCode;
use crate::value::Value;
use crate::InstructionSize;

verus! {

/// One run of the line table: `length` consecutive code bytes that all come
/// from source line `line`.
#[derive(Clone, Copy, Debug, PartialEq, Eq, Structural)]
pub struct Line {
    pub line: usize,
    pub length: u16,
}

/// The flattened line table: for each code byte, in order, the source line
/// recorded for it.
pub open spec fn s_flat(runs: Seq<Line>) -> Seq<usize>
    decreases runs.len(),
{
    if runs.len() == 0 {
        Seq::empty()
    } else {
        s_flat(runs.drop_last()) + Seq::new(runs.last().length as nat, |i: int| runs.last().line)
    }
}

/// The sum of the run lengths of the line table.
pub open spec fn s_run_total(runs: Seq<Line>) -> int
    decreases runs.len(),
{
    if runs.len() == 0 {
        0
    } else {
        s_run_total(runs.drop_last()) + runs.last().length
    }
}

/// The run lengths sum to the length of the flattened table.
pub proof fn lemma_flat_len(runs: Seq<Line>)
    ensures
        s_flat(runs).len() == s_run_total(runs),
    decreases runs.len(),
{
    if runs.len() > 0 {
        lemma_flat_len(runs.drop_last());
    }
}

/// The flattened table splits at any run boundary.
pub proof fn lemma_flat_decompose(runs: Seq<Line>, i: int)
    requires
        0 <= i <= runs.len(),
    ensures
        s_flat(runs) == s_flat(runs.take(i)) + s_flat(runs.skip(i)),
    decreases runs.len() - i,
{
    if i == runs.len() {
        assert(runs.take(i) == runs);
        assert(s_flat(runs.skip(i)) == Seq::<usize>::empty());
        assert(s_flat(runs) == s_flat(runs.take(i)) + s_flat(runs.skip(i)));
    } else {
        lemma_flat_decompose(runs.drop_last(), i);
        assert(runs.drop_last().take(i) == runs.take(i));
        assert(runs.skip(i).drop_last() == runs.drop_last().skip(i));
        assert(runs.skip(i).last() == runs.last());
        assert(s_flat(runs.skip(i)) == s_flat(runs.skip(i).drop_last()) + Seq::new(
            runs.skip(i).last().length as nat,
            |k: int| runs.skip(i).last().line,
        ));
        assert(s_flat(runs) == (s_flat(runs.take(i)) + s_flat(runs.drop_last().skip(i)))
            + Seq::new(runs.last().length as nat, |k: int| runs.last().line));
        assert(s_flat(runs) == s_flat(runs.take(i)) + s_flat(runs.skip(i)));
    }
}

/// A byte of the `i`-th run carries that run's line.
pub proof fn lemma_flat_index(runs: Seq<Line>, i: int, k: int)
    requires
        0 <= i < runs.len(),
        0 <= k < runs[i].length,
    ensures
        0 <= s_flat(runs.take(i)).len() + k < s_flat(runs).len(),
        s_flat(runs)[s_flat(runs.take(i)).len() + k] == runs[i].line,
{
    lemma_flat_decompose(runs, i);
    lemma_flat_decompose(runs.skip(i), 1);
    assert(runs.skip(i).take(1) == seq![runs[i]]);
    assert(s_flat(seq![runs[i]].drop_last()) == Seq::<usize>::empty());
    assert(s_flat(seq![runs[i]]) == Seq::new(runs[i].length as nat, |j: int| runs[i].line));
    assert(s_flat(runs.skip(i))[k] == runs[i].line);
}

/// The compiled unit: bytecode, constants, and the line table.
#[derive(Debug)]
pub struct Chunk {
    pub code: Vec<u8>,
    pub constants: Vec<Value>,
    pub lines: Vec<Line>,
}

impl Chunk {
    /// The flattened line table of this chunk.
    pub open spec fn flat_lines(self) -> Seq<usize> {
        s_flat(self.lines@)
    }

    /// Well-formedness: one recorded line per code byte, and a constant pool
    /// within its capacity of 256.
    pub open spec fn wf(self) -> bool {
        &&& self.flat_lines().len() == self.code@.len()
        &&& self.constants@.len() <= 256
    }

    /// A fresh, empty chunk.
    pub fn new() -> (c: Chunk)
        ensures
            c.wf(),
            c.code@ == Seq::<u8>::empty(),
            c.constants@ == Seq::<Value>::empty(),
            c.flat_lines() == Seq::<usize>::empty(),
    {
        Chunk { code: Vec::new(), constants: Vec::new(), lines: Vec::new() }
    }

    /// Append one code byte, recording the source line it came from: the
    /// last run is extended when the line matches, else a new run starts.
    /// The run length field is a `u16`, per the chunk format; a run at that
    /// maximum closes and a fresh run with the same line opens, leaving the
    /// flattened view unchanged.
    pub fn write_chunk(&mut self, byte: u8, line: usize)
        requires
            old(self).wf(),
        ensures
            final(self).wf(),
            final(self).code@ == old(self).code@.push(byte),
            final(self).constants@ == old(self).constants@,
            final(self).flat_lines() == old(self).flat_lines().push(line),
            final(self).lines@ == (if old(self).lines@.len() > 0 && old(self).lines@.last().line
                == line && old(self).lines@.last().length < u16::MAX {
                old(self).lines@.update(
                    old(self).lines@.len() - 1,
                    Line { line, length: (old(self).lines@.last().length + 1) as u16 },
                )
            } else {
                old(self).lines@.push(Line { line, length: 1 })
            }),
    {
        self.code.push(byte);
        let n = self.lines.len();
        if n > 0 {
            let last = self.lines[n - 1];
            if last.line == line && last.length < u16::MAX {
                let ghost runs0 = self.lines@;
                self.lines.pop();
                self.lines.push(Line { line: last.line, length: last.length + 1 });
                proof {
                    assert(self.lines@ =~= runs0.update(
                        runs0.len() - 1,
                        Line { line, length: (last.length + 1) as u16 },
                    ));
                    assert(self.lines@.drop_last() == runs0.drop_last());
                    assert(self.lines@.last() == Line {
                        line: last.line,
                        length: (last.length + 1) as u16,
                    });
                    assert(s_flat(self.lines@) == s_flat(runs0.drop_last()) + Seq::new(
                        (last.length + 1) as nat,
                        |i: int| line,
                    ));
                    assert(s_flat(runs0) == s_flat(runs0.drop_last()) + Seq::new(
                        last.length as nat,
                        |i: int| line,
                    ));
                    assert(s_flat(self.lines@) =~= s_flat(runs0).push(line));
                }
                return ;
            }
        }
        let ghost runs0 = self.lines@;
        self.lines.push(Line { line, length: 1 });
        proof {
            assert(self.lines@.drop_last() == runs0);
            assert(s_flat(self.lines@) == s_flat(runs0) + Seq::new(1nat, |i: int| line));
            assert(s_flat(self.lines@) =~= s_flat(runs0).push(line));
        }
    }

    /// Append a value to the constant pool and hand back its index. The pool
    /// holds at most 256 entries; the compiler refuses to grow it further.
    pub fn add_constant(&mut self, value: Value) -> (idx: u8)
        requires
            old(self).wf(),
            old(self).constants@.len() < 256,
        ensures
            final(self).wf(),
            final(self).constants@ == old(self).constants@.push(value),
            final(self).code@ == old(self).code@,
            final(self).flat_lines() == old(self).flat_lines(),
            idx == old(self).constants@.len(),
    {
        let idx = self.constants.len();
        self.constants.push(value);
        idx as u8
    }


    /// Decode the instruction at `offset`: its opcode and its byte size,
    /// the step to the next instruction's offset — or `None` when the
    /// offset lies outside the code or the byte there decodes to no
    /// instruction. The computable half of disassembly; printing is the
    /// embedding program's.
    pub fn instruction_at(&self, offset: usize) -> (r: Option<(OpCode, usize)>)
        ensures
            match r {
                Some(d) => offset < self.code@.len() && OpCode::spec_from_byte(
                    self.code@[offset as int],
                ) == Some(d.0) && d.1 == d.0.spec_size(),
                None => offset >= self.code@.len() || OpCode::spec_from_byte(
                    self.code@[offset as int],
                ) is None,
            },
    {
        if offset < self.code.len() {
            match OpCode::from_byte(self.code[offset]) {
                Some(op) => {
                    let sz = op.size();
                    Some((op, sz))
                },
                None => None,
            }
        } else {
            None
        }
    }

    /// Look up the source line recorded for code offset `offset`, by walking
    /// the runs and accumulating their lengths.
    #[verifier::loop_isolation(false)]
    pub fn get_line(&self, offset: usize) -> (line: usize)
        requires
            self.wf(),
            offset < self.code@.len(),
        ensures
            line == self.flat_lines()[offset as int],
    {
        proof {
            lemma_flat_len(self.lines@);
        }
        let code_len = self.code.len();
        let n_runs = self.lines.len();
        let mut i: usize = 0;
        let mut acc: usize = 0;
        loop
            invariant
                0 <= i <= self.lines@.len(),
                acc == s_flat(self.lines@.take(i as int)).len(),
                acc <= offset,
            decreases self.lines@.len() - i,
        {
            proof {
                // The remaining runs still cover `offset`, so another run
                // exists.
                lemma_flat_decompose(self.lines@, i as int);
                if i == self.lines@.len() {
                    assert(s_flat(self.lines@.skip(i as int)) == Seq::<usize>::empty());
                    assert(acc == self.code@.len());
                    assert(false);
                }
                lemma_flat_decompose(self.lines@.skip(i as int), 1);
                assert(self.lines@.skip(i as int).take(1) == seq![self.lines@[i as int]]);
                assert(s_flat(seq![self.lines@[i as int]].drop_last()) == Seq::<usize>::empty());
                assert(s_flat(seq![self.lines@[i as int]]) == Seq::new(
                    self.lines@[i as int].length as nat,
                    |j: int| self.lines@[i as int].line,
                ));
                assert(i < n_runs);
                assert(acc + self.lines@[i as int].length <= code_len);
            }
            let run = self.lines[i];
            if offset < acc + run.length as usize {
                proof {
                    lemma_flat_index(self.lines@, i as int, offset - acc);
                }
                return run.line;
            }
            acc = acc + run.length as usize;
            i = i + 1;
            proof {
                assert(self.lines@.take(i as int).drop_last() == self.lines@.take(i - 1));
                assert(s_flat(self.lines@.take(i as int)) == s_flat(self.lines@.take(i - 1))
                    + Seq::new(
                    self.lines@[i - 1].length as nat,
                    |j: int| self.lines@[i - 1].line,
                ));
            }
        }
    }
}

/// After `N` writes to a chunk the run lengths of its line table sum to `N`,
/// the length of the code.
pub proof fn lemma_line_table_total(c: Chunk)
    requires
        c.wf(),
    ensures
        s_run_total(c.lines@) == c.code@.len(),
{
    lemma_flat_len(c.lines@);
}

} // verus!
