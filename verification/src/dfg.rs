use vstd::prelude::*;
use crate::ir::{
    group_ir_lemmas, ir_of, irs_of, ir_size, irs_size, map_lookup, pairs_of, Instruction, Ir,
};
use crate::wrap_i64;

verus! {

/// One value node of the dataflow graph.  Nodes live in a slab vector;
/// `Add` and `Multiply` hold the slab indices of their operands, which
/// always precede them.
pub enum DfgNode {
    Cell(i64),
    Const(i64),
    Add(usize, usize),
    Multiply(usize, usize),
    Read,
}

/// One side-effecting statement of a basic block: print a value, store a
/// value to the tape, move the pointer, or run a nested loop with its own
/// graph.
pub enum DfInstr {
    Print(usize),
    WriteMem(i64, usize),
    MovePtr(i64),
    Loop(i64, BasicBlock),
}

/// A basic block's dataflow graph: its node slab and its statement list.
pub struct BasicBlock {
    pub nodes: Vec<DfgNode>,
    pub cfg: Vec<DfInstr>,
}

/// The mathematical shape of a statement.
pub enum DfStmt {
    Print(int),
    WriteMem(int, int),
    MovePtr(int),
    Loop(int, BlockIr),
}

/// The mathematical shape of a basic block.
pub struct BlockIr {
    pub nodes: Seq<DfgNode>,
    pub stmts: Seq<DfStmt>,
}

/// Deep view of one statement.
pub open spec fn stmt_of(s: DfInstr) -> DfStmt
    decreases s,
{
    match s {
        DfInstr::Print(v) => DfStmt::Print(v as int),
        DfInstr::WriteMem(o, v) => DfStmt::WriteMem(o as int, v as int),
        DfInstr::MovePtr(d) => DfStmt::MovePtr(d as int),
        DfInstr::Loop(at, blk) => DfStmt::Loop(
            at as int,
            BlockIr { nodes: blk.nodes@, stmts: stmts_of(blk.cfg@) },
        ),
    }
}

/// Deep view of a statement sequence.
pub open spec fn stmts_of(s: Seq<DfInstr>) -> Seq<DfStmt>
    decreases s,
{
    if s.len() == 0 {
        Seq::empty()
    } else {
        seq![stmt_of(s[0])] + stmts_of(s.drop_first())
    }
}

pub broadcast proof fn lemma_stmts_of_push(s: Seq<DfInstr>, x: DfInstr)
    ensures
        #[trigger] stmts_of(s.push(x)) == stmts_of(s).push(stmt_of(x)),
    decreases s,
{
    if s.len() == 0 {
        assert(s.push(x).len() == 1);
        assert(s.push(x)[0] == x);
        assert(s.push(x).drop_first() =~= Seq::<DfInstr>::empty());
        assert(stmts_of(s.push(x)) == seq![stmt_of(x)] + stmts_of(Seq::<DfInstr>::empty()));
        assert(stmts_of(s.push(x)) =~= stmts_of(s).push(stmt_of(x)));
    } else {
        assert(s.push(x)[0] == s[0]);
        assert(s.push(x).drop_first() =~= s.drop_first().push(x));
        lemma_stmts_of_push(s.drop_first(), x);
        assert(stmts_of(s.push(x)) =~= stmts_of(s).push(stmt_of(x)));
    }
}

/// Replaces the binding of `k` in a sorted association list, inserting it
/// where absent; keys stay sorted.
pub open spec fn map_set(s: Seq<(int, int)>, k: int, v: int) -> Seq<(int, int)>
    decreases s,
{
    if s.len() == 0 {
        seq![(k, v)]
    } else if s[0].0 == k {
        seq![(k, v)] + s.drop_first()
    } else if k < s[0].0 {
        seq![(k, v)] + s
    } else {
        seq![s[0]] + map_set(s.drop_first(), k, v)
    }
}

/// View of an offset-to-node-index list.
pub open spec fn cells_of(s: Seq<(i64, usize)>) -> Seq<(int, int)> {
    s.map_values(|p: (i64, usize)| (p.0 as int, p.1 as int))
}

/// The building state of one basic block: the node slab, the cached cell
/// values (offset to node index, sorted by offset), and the statements.
pub struct DfgSt {
    pub nodes: Seq<DfgNode>,
    pub cells: Seq<(int, int)>,
    pub stmts: Seq<DfStmt>,
}

/// A fresh block state.
pub open spec fn dfg_init() -> DfgSt {
    DfgSt { nodes: Seq::empty(), cells: Seq::empty(), stmts: Seq::empty() }
}

/// The node standing for the value at `off`: the cached node, or a fresh
/// `Cell` node appended to the slab.
pub open spec fn spec_get_cell(st: DfgSt, off: int) -> (int, Seq<DfgNode>) {
    match map_lookup(st.cells, off) {
        Option::Some(i) => (i, st.nodes),
        Option::None => (st.nodes.len() as int, st.nodes.push(DfgNode::Cell(off as i64))),
    }
}

/// The factor entries of a `LinearLoop` applied to the state: each
/// destination cell gains the multiplier times its factor, summed into the
/// destination's current value with an `Add` node; factor one adds the bare
/// multiplier, any other factor goes through a `Const` and a `Multiply`.
pub open spec fn dfg_factors(fs: Seq<(int, int)>, goff: int, mult: int, st: DfgSt) -> DfgSt
    decreases fs,
{
    if fs.len() == 0 {
        st
    } else {
        let at = wrap_i64(goff + fs[0].0);
        let r = spec_get_cell(st, at);
        let st1 = if fs[0].1 == 1 {
            DfgSt {
                nodes: r.1.push(DfgNode::Add(r.0 as usize, mult as usize)),
                cells: map_set(st.cells, at, r.1.len() as int),
                stmts: st.stmts,
            }
        } else {
            DfgSt {
                nodes: r.1.push(DfgNode::Const(fs[0].1 as i64)).push(
                    DfgNode::Multiply(mult as usize, r.1.len() as usize),
                ).push(DfgNode::Add(r.0 as usize, (r.1.len() + 1) as usize)),
                cells: map_set(st.cells, at, r.1.len() as int + 2),
                stmts: st.stmts,
            }
        };
        dfg_factors(fs.drop_first(), goff, mult, st1)
    }
}

/// The commit of every cached cell value to the tape: one `WriteMem`
/// statement per cached offset, in offset order.
pub open spec fn flush_cells(cells: Seq<(int, int)>) -> Seq<DfStmt>
    decreases cells,
{
    if cells.len() == 0 {
        Seq::empty()
    } else {
        seq![DfStmt::WriteMem(cells[0].0, cells[0].1)] + flush_cells(cells.drop_first())
    }
}

/// A closed block: the cached cell values are committed as `WriteMem`
/// statements and the cache is emptied.
pub open spec fn dfg_fin(st: DfgSt) -> DfgSt {
    DfgSt { nodes: st.nodes, cells: Seq::empty(), stmts: st.stmts + flush_cells(st.cells) }
}

/// Rekeys the cached cells after a pointer move: every offset shifts by
/// `-d`, re-inserted in order.
pub open spec fn dfg_shift(entries: Seq<(int, int)>, d: int, acc: Seq<(int, int)>) -> Seq<
    (int, int),
>
    decreases entries,
{
    if entries.len() == 0 {
        acc
    } else {
        dfg_shift(
            entries.drop_first(),
            d,
            map_set(acc, wrap_i64(entries[0].0 - d), entries[0].1),
        )
    }
}

/// One instruction of the dataflow-graph pass over a block state.
pub open spec fn dfg_one(i: Ir, st: DfgSt) -> DfgSt
    decreases ir_size(i),
{
    match i {
        Ir::Nop => st,
        Ir::Add { offset, value } => {
            let r = spec_get_cell(st, offset);
            let n1 = r.1.push(DfgNode::Const(value as i64));
            DfgSt {
                nodes: n1.push(DfgNode::Add(r.0 as usize, r.1.len() as usize)),
                cells: map_set(st.cells, offset, n1.len() as int),
                stmts: st.stmts,
            }
        },
        Ir::Store { offset, value } => DfgSt {
            nodes: st.nodes.push(DfgNode::Const(value as i64)),
            cells: map_set(st.cells, offset, st.nodes.len() as int),
            stmts: st.stmts,
        },
        Ir::LinearLoop { offset, factors } => {
            let r = spec_get_cell(st, offset);
            let st1 = dfg_factors(
                factors,
                offset,
                r.0,
                DfgSt { nodes: r.1, cells: st.cells, stmts: st.stmts },
            );
            DfgSt {
                nodes: st1.nodes.push(DfgNode::Const(0)),
                cells: map_set(st1.cells, offset, st1.nodes.len() as int),
                stmts: st1.stmts,
            }
        },
        Ir::MovePtr(d) => DfgSt {
            stmts: st.stmts.push(DfStmt::MovePtr(d)),
            cells: dfg_shift(st.cells, d, Seq::empty()),
            nodes: st.nodes,
        },
        Ir::Loop(body) => {
            let sub = dfg_fin(dfg_seq(body, dfg_init()));
            DfgSt {
                stmts: dfg_fin(st).stmts.push(
                    DfStmt::Loop(0, BlockIr { nodes: sub.nodes, stmts: sub.stmts }),
                ),
                nodes: st.nodes.push(DfgNode::Const(0)),
                cells: seq![(0int, st.nodes.len() as int)],
            }
        },
        Ir::Read(o) => DfgSt {
            nodes: st.nodes.push(DfgNode::Read),
            cells: map_set(st.cells, o, st.nodes.len() as int),
            stmts: st.stmts,
        },
        Ir::Write(o) => {
            let r = spec_get_cell(st, o);
            DfgSt { nodes: r.1, cells: st.cells, stmts: st.stmts.push(DfStmt::Print(r.0)) }
        },
    }
}

/// The dataflow-graph pass over an instruction sequence.
pub open spec fn dfg_seq(p: Seq<Ir>, st: DfgSt) -> DfgSt
    decreases irs_size(p),
{
    if p.len() == 0 {
        st
    } else {
        dfg_seq(p.drop_first(), dfg_one(p[0], st))
    }
}

/// Builds a basic block's dataflow graph from straight-line instructions:
/// per-cell value nodes are cached and folded, side effects become
/// statements, and each nested loop gets a fresh graph of its own.  Cached
/// cell values are committed to the tape as `WriteMem` statements before
/// every nested loop and when the block is closed with `finalize`.
pub struct DfgOptimizer {
    pub nodes: Vec<DfgNode>,
    pub cell_states: Vec<(i64, usize)>,
    pub cfg: Vec<DfInstr>,
}

impl DfgOptimizer {
    /// The block state this optimizer has built.
    pub open spec fn st(&self) -> DfgSt {
        DfgSt { nodes: self.nodes@, cells: cells_of(self.cell_states@), stmts: stmts_of(self.cfg@) }
    }

    /// A fresh optimizer: empty slab, no cached cells, no statements.
    pub fn new() -> (r: DfgOptimizer)
        ensures
            r.st() == dfg_init(),
    {
        let r = DfgOptimizer { nodes: Vec::new(), cell_states: Vec::new(), cfg: Vec::new() };
        proof {
            assert(cells_of(r.cell_states@) =~= Seq::<(int, int)>::empty());
            assert(stmts_of(r.cfg@) =~= Seq::<DfStmt>::empty());
            assert(r.st() =~= dfg_init());
        }
        r
    }

    /// The cached node for an offset, or a fresh `Cell` node.
    fn get_cell(&mut self, offset: i64) -> (r: usize)
        ensures
            r as int == spec_get_cell(old(self).st(), offset as int).0,
            final(self).nodes@ == spec_get_cell(old(self).st(), offset as int).1,
            final(self).cell_states@ == old(self).cell_states@,
            final(self).cfg@ == old(self).cfg@,
    {
        let ghost full = cells_of(self.cell_states@);
        let mut j: usize = 0;
        proof {
            assert(full.skip(0) =~= full);
        }
        while j < self.cell_states.len()
            invariant
                j <= self.cell_states@.len(),
                full == cells_of(self.cell_states@),
                full == cells_of(old(self).cell_states@),
                self == old(self),
                map_lookup(full, offset as int) == map_lookup(full.skip(j as int), offset as int),
            decreases self.cell_states@.len() - j,
        {
            let (key, val) = self.cell_states[j];
            proof {
                assert(full.skip(j as int)[0] == (key as int, val as int));
                assert(full.skip(j as int).drop_first() =~= full.skip(j as int + 1));
            }
            if key == offset {
                proof {
                    assert(map_lookup(full, offset as int) == Option::Some(val as int));
                }
                return val;
            }
            j += 1;
        }
        proof {
            assert(full.skip(self.cell_states@.len() as int) =~= Seq::<(int, int)>::empty());
            assert(map_lookup(full, offset as int) is None);
        }
        let idx = self.nodes.len();
        self.nodes.push(DfgNode::Cell(offset));
        idx
    }

    /// Caches `node` as the current value of the cell at `offset`.
    fn set_cell(&mut self, offset: i64, node: usize)
        ensures
            cells_of(final(self).cell_states@) == map_set(
                cells_of(old(self).cell_states@),
                offset as int,
                node as int,
            ),
            final(self).nodes@ == old(self).nodes@,
            final(self).cfg@ == old(self).cfg@,
    {
        set_entry(&mut self.cell_states, offset, node);
    }

    /// Runs the dataflow pass over an instruction sequence, folding value
    /// updates into the cached cells and recording side effects in order.
    pub fn visit_instructions(&mut self, instrs: &Vec<Instruction>)
        ensures
            final(self).st() == dfg_seq(irs_of(instrs@), old(self).st()),
        decreases irs_size(irs_of(instrs@)),
    {
        broadcast use group_ir_lemmas;

        let ghost irs = irs_of(instrs@);
        let ghost st0 = self.st();
        let mut i: usize = 0;
        proof {
            assert(irs.skip(0) =~= irs);
        }
        while i < instrs.len()
            invariant
                i <= instrs@.len(),
                irs == irs_of(instrs@),
                irs.len() == instrs@.len(),
                st0 == old(self).st(),
                dfg_seq(irs, st0) == dfg_seq(irs.skip(i as int), self.st()),
            decreases instrs@.len() - i,
        {
            proof {
                crate::ir::lemma_irs_of_len(instrs@);
                crate::ir::lemma_irs_of_index(instrs@, i as int);
                crate::ir::lemma_irs_size_index(irs, i as int);
                assert(irs.skip(i as int)[0] == irs[i as int]);
                assert(irs.skip(i as int).drop_first() =~= irs.skip(i as int + 1));
            }
            self.walk_instruction(&instrs[i]);
            i += 1;
        }
        proof {
            assert(irs.skip(instrs@.len() as int) =~= Seq::<Ir>::empty());
        }
    }

    /// Closes the block: commits every cached cell value to the tape as a
    /// `WriteMem` statement, in offset order, and empties the cache.  A
    /// nested loop's block is closed before it is wrapped; the top-level
    /// block is closed by the caller once the whole program is visited.
    pub fn finalize(&mut self)
        ensures
            final(self).st() == dfg_fin(old(self).st()),
    {
        broadcast use lemma_stmts_of_push;

        let ghost cellsv = cells_of(self.cell_states@);
        let ghost stmts0 = stmts_of(self.cfg@);
        let mut j: usize = 0;
        proof {
            assert(cellsv.skip(0) =~= cellsv);
        }
        while j < self.cell_states.len()
            invariant
                j <= self.cell_states@.len(),
                cellsv == cells_of(self.cell_states@),
                cellsv.len() == self.cell_states@.len(),
                self.nodes@ == old(self).nodes@,
                self.cell_states@ == old(self).cell_states@,
                stmts0 == stmts_of(old(self).cfg@),
                stmts_of(self.cfg@) + flush_cells(cellsv.skip(j as int)) == stmts0 + flush_cells(
                    cellsv,
                ),
            decreases self.cell_states@.len() - j,
        {
            let (off, node) = self.cell_states[j];
            proof {
                assert(cellsv.skip(j as int)[0] == (off as int, node as int));
                assert(cellsv.skip(j as int).drop_first() =~= cellsv.skip(j as int + 1));
            }
            let ghost cfgpre = self.cfg@;
            let ghost pre = stmts_of(self.cfg@);
            self.cfg.push(DfInstr::WriteMem(off, node));
            proof {
                lemma_stmts_of_push(cfgpre, DfInstr::WriteMem(off, node));
                assert(self.cfg@ == cfgpre.push(DfInstr::WriteMem(off, node)));
                assert(stmts_of(self.cfg@) == pre.push(DfStmt::WriteMem(off as int, node as int)));
                assert((pre.push(DfStmt::WriteMem(off as int, node as int))) + flush_cells(
                    cellsv.skip(j as int + 1),
                ) =~= pre + flush_cells(cellsv.skip(j as int)));
            }
            j += 1;
        }
        proof {
            assert(cellsv.skip(self.cell_states@.len() as int) =~= Seq::<(int, int)>::empty());
            assert(stmts_of(self.cfg@) + Seq::<DfStmt>::empty() =~= stmts_of(self.cfg@));
        }
        self.cell_states.clear();
        proof {
            assert(cells_of(self.cell_states@) =~= Seq::<(int, int)>::empty());
        }
    }

    /// Runs the dataflow pass over one instruction.
    #[verifier::rlimit(100)]
    pub fn walk_instruction(&mut self, instr: &Instruction)
        ensures
            final(self).st() == dfg_one(ir_of(*instr), old(self).st()),
        decreases ir_size(ir_of(*instr)),
    {
        broadcast use group_ir_lemmas, lemma_stmts_of_push;

        let ghost st0 = self.st();
        match instr {
            Instruction::Nop => {
            },
            Instruction::Add { offset, value } => {
                let cell = self.get_cell(*offset);
                let c1 = self.nodes.len();
                self.nodes.push(DfgNode::Const(*value));
                let c2 = self.nodes.len();
                self.nodes.push(DfgNode::Add(cell, c1));
                self.set_cell(*offset, c2);
                proof {
                    assert(self.st() =~= dfg_one(ir_of(*instr), st0));
                }
            },
            Instruction::Store { offset, value } => {
                let idx = self.nodes.len();
                self.nodes.push(DfgNode::Const(*value));
                self.set_cell(*offset, idx);
                proof {
                    assert(self.st() =~= dfg_one(ir_of(*instr), st0));
                }
            },
            Instruction::LinearLoop { offset, factors } => {
                let ghost fsv = pairs_of(factors@);
                let mult = self.get_cell(*offset);
                let ghost stm = self.st();
                let mut j: usize = 0;
                proof {
                    assert(fsv.skip(0) =~= fsv);
                }
                while j < factors.len()
                    invariant
                        j <= factors@.len(),
                        fsv == pairs_of(factors@),
                        fsv.len() == factors@.len(),
                        dfg_factors(fsv, *offset as int, mult as int, stm) == dfg_factors(
                            fsv.skip(j as int),
                            *offset as int,
                            mult as int,
                            self.st(),
                        ),
                    decreases factors@.len() - j,
                {
                    let (o, f) = factors[j];
                    proof {
                        assert(fsv.skip(j as int)[0] == (o as int, f as int));
                        assert(fsv.skip(j as int).drop_first() =~= fsv.skip(j as int + 1));
                    }
                    let at = crate::wadd(*offset, o);
                    let dst = self.get_cell(at);
                    if f == 1 {
                        let sum = self.nodes.len();
                        self.nodes.push(DfgNode::Add(dst, mult));
                        self.set_cell(at, sum);
                    } else {
                        let c1 = self.nodes.len();
                        self.nodes.push(DfgNode::Const(f));
                        let c2 = self.nodes.len();
                        self.nodes.push(DfgNode::Multiply(mult, c1));
                        let sum = self.nodes.len();
                        self.nodes.push(DfgNode::Add(dst, c2));
                        self.set_cell(at, sum);
                    }
                    j += 1;
                }
                proof {
                    assert(fsv.skip(factors@.len() as int) =~= Seq::<(int, int)>::empty());
                }
                let z = self.nodes.len();
                self.nodes.push(DfgNode::Const(0));
                self.set_cell(*offset, z);
                proof {
                    assert(self.st() =~= dfg_one(ir_of(*instr), st0));
                }
            },
            Instruction::MovePtr(d) => {
                self.cfg.push(DfInstr::MovePtr(*d));
                let ghost entries = cells_of(self.cell_states@);
                let mut fresh: Vec<(i64, usize)> = Vec::new();
                let mut j: usize = 0;
                proof {
                    assert(entries.skip(0) =~= entries);
                    assert(cells_of(fresh@) =~= Seq::<(int, int)>::empty());
                }
                while j < self.cell_states.len()
                    invariant
                        j <= self.cell_states@.len(),
                        entries == cells_of(self.cell_states@),
                        entries.len() == self.cell_states@.len(),
                        dfg_shift(entries, *d as int, Seq::empty()) == dfg_shift(
                            entries.skip(j as int),
                            *d as int,
                            cells_of(fresh@),
                        ),
                    decreases self.cell_states@.len() - j,
                {
                    let (k, v) = self.cell_states[j];
                    proof {
                        assert(entries.skip(j as int)[0] == (k as int, v as int));
                        assert(entries.skip(j as int).drop_first() =~= entries.skip(j as int + 1));
                    }
                    let nk = k.wrapping_sub(*d);
                    proof {
                        assert(nk as int == wrap_i64(k as int - *d as int)) by {
                            assert(wrap_i64(k as int - *d as int) == ((k - *d
                                + 0x8000_0000_0000_0000) % 0x1_0000_0000_0000_0000)
                                - 0x8000_0000_0000_0000);
                        }
                    }
                    set_entry(&mut fresh, nk, v);
                    j += 1;
                }
                proof {
                    assert(entries.skip(self.cell_states@.len() as int) =~= Seq::<
                        (int, int),
                    >::empty());
                }
                self.cell_states = fresh;
                proof {
                    assert(self.st() =~= dfg_one(ir_of(*instr), st0));
                }
            },
            Instruction::Loop(body) => {
                let mut sub = DfgOptimizer::new();
                sub.visit_instructions(body);
                sub.finalize();
                self.finalize();
                self.cfg.push(
                    DfInstr::Loop(0, BasicBlock { nodes: sub.nodes, cfg: sub.cfg }),
                );
                let z = self.nodes.len();
                self.nodes.push(DfgNode::Const(0));
                self.set_cell(0, z);
                proof {
                    assert(cells_of(self.cell_states@) =~= seq![(0int, st0.nodes.len() as int)]);
                    assert(self.st() =~= dfg_one(ir_of(*instr), st0));
                }
            },
            Instruction::Read(o) => {
                let idx = self.nodes.len();
                self.nodes.push(DfgNode::Read);
                self.set_cell(*o, idx);
                proof {
                    assert(self.st() =~= dfg_one(ir_of(*instr), st0));
                }
            },
            Instruction::Write(o) => {
                let cell = self.get_cell(*o);
                self.cfg.push(DfInstr::Print(cell));
                proof {
                    assert(self.st() =~= dfg_one(ir_of(*instr), st0));
                }
            },
        }
    }
}

/// Replaces the binding of `k` in a sorted association list held as a
/// vector, inserting it where the key is absent.
fn set_entry(v: &mut Vec<(i64, usize)>, k: i64, node: usize)
    ensures
        cells_of(final(v)@) == map_set(cells_of(old(v)@), k as int, node as int),
{
    broadcast use group_ir_lemmas;

    let mut idx: usize = 0;
    while idx < v.len() && v[idx].0 < k
        invariant
            0 <= idx <= v.len(),
            forall|j: int| 0 <= j < idx ==> v@[j].0 < k,
        decreases v.len() - idx,
    {
        idx += 1;
    }
    if idx < v.len() && v[idx].0 == k {
        v.set(idx, (k, node));
        proof {
            lemma_map_set_at(cells_of(old(v)@), k as int, node as int, idx as int);
            assert(cells_of(v@) =~= cells_of(old(v)@).update(idx as int, (k as int, node as int)));
        }
    } else {
        v.insert(idx, (k, node));
        proof {
            lemma_map_set_insert(cells_of(old(v)@), k as int, node as int, idx as int);
            assert(cells_of(v@) =~= cells_of(old(v)@).insert(idx as int, (k as int, node as int)));
        }
    }
}

/// In a list whose first `idx` keys are below `k` and whose `idx`-th key is
/// `k`, setting `k` updates position `idx` in place.
proof fn lemma_map_set_at(s: Seq<(int, int)>, k: int, v: int, idx: int)
    requires
        0 <= idx < s.len(),
        forall|j: int| 0 <= j < idx ==> s[j].0 < k,
        s[idx].0 == k,
    ensures
        map_set(s, k, v) == s.update(idx, (k, v)),
    decreases idx,
{
    if idx == 0 {
        assert(map_set(s, k, v) =~= s.update(0, (k, v)));
    } else {
        lemma_map_set_at(s.drop_first(), k, v, idx - 1);
        assert(map_set(s, k, v) =~= s.update(idx, (k, v)));
    }
}

/// In a list whose first `idx` keys are below `k` and whose `idx`-th key
/// (if present) is above `k`, setting `k` inserts a fresh binding at `idx`.
proof fn lemma_map_set_insert(s: Seq<(int, int)>, k: int, v: int, idx: int)
    requires
        0 <= idx <= s.len(),
        forall|j: int| 0 <= j < idx ==> s[j].0 < k,
        idx < s.len() ==> s[idx].0 > k,
    ensures
        map_set(s, k, v) == s.insert(idx, (k, v)),
    decreases idx,
{
    if idx == 0 {
        assert(map_set(s, k, v) =~= s.insert(0, (k, v)));
    } else {
        lemma_map_set_insert(s.drop_first(), k, v, idx - 1);
        assert(map_set(s, k, v) =~= s.insert(idx, (k, v)));
    }
}

} // verus!
