//! The milling executor: the state machine that walks the toolpath one
//! lattice point per step and carves the height field as it goes.
use vstd::prelude::*;

use crate::carve::{
    cut_cell, cut_cell_changes, cut_height, cuts_within, changes_upto, in_rect,
    lemma_lowest_cut_within, lemma_stamp_next, lowest_cut, stamp, stamp_changes, stamp_upto,
};
use crate::footprint::{
    CutterPart, cutter_footprint, footprint, lemma_footprint_bounds, part_bounded, valid_geometry,
};
use crate::g_code::{GCode, fields_of};
use crate::g_code_instruction::{GCodeInstruction, InstructionFields};
use crate::grid::{
    Voxel, lattice_of, micros_of, to_lattice, to_micros, toolpath_axes_to_grid, toolpath_to_grid,
    voxel_in_i32,
};
use crate::height_map::HeightMap;
use crate::milling_cutter::MillingCutter;
use crate::trace::{lemma_line_points, line_point, line_points, trace_between};

verus! {

/// The height (micrometres) at which the tool starts, above any stock.
pub const START_HEIGHT: i64 = 220_000;

/// The executor's state as the contracts see it.
pub struct ExecutorView {
    pub current_instruction: int,
    /// The lattice point at which the tool stands.
    pub position: Voxel,
    /// The tool's position in micrometres (x, height, z).
    pub physical: (i64, i64, i64),
    pub instructions: Seq<InstructionFields>,
    pub cutter_shape: MillingCutter,
    pub cutter: Seq<CutterPart>,
    pub resolution: (u32, u32, u32),
    pub size: (u32, u32, u32),
    /// The path of the motion under way and the index of its next point.
    pub trace: Option<(Seq<Voxel>, int)>,
}

/// The target of axis value `target` (micrometres), or `hold` where the
/// instruction leaves the axis alone.
pub open spec fn axis_target(target: Option<i64>, hold: i64, size: u32, cells: u32) -> i64 {
    match target {
        Some(v) => to_lattice(v as int, size as int, cells as int) as i64,
        None => hold,
    }
}

/// The lattice point that instruction `i` moves to from `from`, with the
/// toolpath's axes put in grid order (see `toolpath_to_grid`).
pub open spec fn segment_end(
    i: InstructionFields,
    from: Voxel,
    resolution: (u32, u32, u32),
    size: (u32, u32, u32),
) -> Voxel {
    let g = toolpath_to_grid(i.1, i.2, i.3);
    (
        axis_target(g.0, from.0, size.0, resolution.0),
        axis_target(g.1, from.1, size.1, resolution.1),
        axis_target(g.2, from.2, size.2, resolution.2),
    )
}

/// The starting position in micrometres.
pub open spec fn start_position() -> (i64, i64, i64) {
    (0, START_HEIGHT, 0)
}

/// The physical position (micrometres, rounded down) of lattice point `p`.
pub open spec fn physical_of(p: Voxel, resolution: (u32, u32, u32), size: (u32, u32, u32)) -> (i64, i64, i64) {
    (
        to_micros(p.0 as int, size.0 as int, resolution.0 as int) as i64,
        to_micros(p.1 as int, size.1 as int, resolution.1 as int) as i64,
        to_micros(p.2 as int, size.2 as int, resolution.2 as int) as i64,
    )
}

/// The lattice point of the starting position `(0, START_HEIGHT, 0)`.
pub open spec fn start_point(resolution: (u32, u32, u32), size: (u32, u32, u32)) -> Voxel {
    (0, to_lattice(START_HEIGHT as int, size.1 as int, resolution.1 as int) as i64, 0)
}

impl ExecutorView {
    /// The geometry is valid, the footprint is that of the cutter, and every
    /// lattice point at hand lies in the range of `i32`.
    pub open spec fn wf(self) -> bool {
        &&& valid_geometry(self.resolution, self.size)
        &&& self.cutter == footprint(self.cutter_shape, self.resolution, self.size)
        &&& forall|k: int| 0 <= k < self.cutter.len() ==> part_bounded(#[trigger] self.cutter[k])
        &&& voxel_in_i32(self.position)
        &&& match self.trace {
            Some((points, cursor)) => {
                &&& 0 <= cursor < points.len()
                &&& forall|k: int| 0 <= k < points.len() ==> voxel_in_i32(#[trigger] points[k])
            },
            None => true,
        }
    }

    /// The run is over once the last instruction is the current one; the
    /// last instruction only marks where the run stops.
    pub open spec fn finished(self) -> bool {
        self.current_instruction + 1 >= self.instructions.len()
    }

    /// The path of the motion under way, or of the current instruction's
    /// motion where none is, with the index of the next point.
    pub open spec fn pending(self) -> (Seq<Voxel>, int) {
        match self.trace {
            Some(t) => t,
            None => (
                line_points(
                    self.position,
                    segment_end(
                        self.instructions[self.current_instruction],
                        self.position,
                        self.resolution,
                        self.size,
                    ),
                ),
                0,
            ),
        }
    }

    /// The lattice point the next step moves the tool to.
    pub open spec fn next_point(self) -> Voxel {
        self.pending().0[self.pending().1]
    }

    /// The state after one step of an unfinished run: the tool stands at
    /// the next point; at the end of a path the run moves on to the next
    /// instruction.
    pub open spec fn after_step(self) -> ExecutorView {
        let (points, cursor) = self.pending();
        if cursor + 1 >= points.len() {
            ExecutorView {
                current_instruction: self.current_instruction + 1,
                position: points[cursor],
                physical: physical_of(points[cursor], self.resolution, self.size),
                trace: None,
                ..self
            }
        } else {
            ExecutorView {
                position: points[cursor],
                physical: physical_of(points[cursor], self.resolution, self.size),
                trace: Some((points, cursor + 1)),
                ..self
            }
        }
    }
}

/// Steps a toolpath through a height field. The tool's position is kept in
/// micrometres and as a lattice point. The starting position, which need not
/// lie on the lattice, is taken to its lattice point when the executor is
/// made; from then on the tool moves between lattice points, and each motion
/// starts from the lattice point it stands on (the exact lattice coordinates
/// of its position, which rounding to micrometres would lose).
#[derive(Debug)]
pub struct GCodeExecutor {
    current_instruction: usize,
    position: Voxel,
    physical: (i64, i64, i64),
    cutter: Vec<CutterPart>,
    code: GCode,
    resolution: (u32, u32, u32),
    size: (u32, u32, u32),
    current_points: Option<Vec<Voxel>>,
    current_point: usize,
}

impl View for GCodeExecutor {
    type V = ExecutorView;

    closed spec fn view(&self) -> ExecutorView {
        ExecutorView {
            current_instruction: self.current_instruction as int,
            position: self.position,
            physical: self.physical,
            instructions: fields_of(self.code.spec_instructions()),
            cutter_shape: self.code.spec_cutter(),
            cutter: self.cutter@,
            resolution: self.resolution,
            size: self.size,
            trace: match self.current_points {
                Some(points) => Some((points@, self.current_point as int)),
                None => None,
            },
        }
    }
}

/// A freshly loaded state for toolpath `code` with the tool at lattice point
/// `position`, `physical` in micrometres.
pub open spec fn loaded(
    code: GCode,
    position: Voxel,
    physical: (i64, i64, i64),
    resolution: (u32, u32, u32),
    size: (u32, u32, u32),
) -> ExecutorView {
    ExecutorView {
        current_instruction: 0,
        position,
        physical,
        instructions: fields_of(code.spec_instructions()),
        cutter_shape: code.spec_cutter(),
        cutter: footprint(code.spec_cutter(), resolution, size),
        resolution,
        size,
        trace: None,
    }
}

/// What one `execute_step` does to the executor (`e0` to `e1`) and the
/// height field (`h0` to `h1`): nothing once the run is finished; otherwise
/// the tool moves to the next point and stamps its footprint there.
pub open spec fn stepped(e0: ExecutorView, h0: HeightMap, e1: ExecutorView, h1: HeightMap) -> bool {
    &&& e1.wf()
    &&& h1.wf()
    &&& h1.num_rows() == h0.num_rows()
    &&& h1.num_cols() == h0.num_cols()
    &&& if e0.finished() {
        e1 == e0 && h1.heights() == h0.heights() && h1.changes() == h0.changes()
    } else {
        &&& e1 == e0.after_step()
        &&& h1.heights() == stamp(h0.heights(), e0.cutter, e0.next_point(), e0.resolution, e0.size)
        &&& h1.changes() == h0.changes().union(
            stamp_changes(h0.heights(), e0.cutter, e0.next_point(), e0.resolution, e0.size),
        )
    }
}

/// Writes `cut` to cell (`row`, `col`) where it lies in the grid and is at
/// least `cut` high.
fn carve_cell(height_map: &mut HeightMap, row: i64, col: i64, cut: i64)
    requires
        old(height_map).wf(),
    ensures
        final(height_map).wf(),
        final(height_map).num_rows() == old(height_map).num_rows(),
        final(height_map).num_cols() == old(height_map).num_cols(),
        final(height_map).heights() == cut_cell(old(height_map).heights(), row as int, col as int, cut),
        final(height_map).changes() == cut_cell_changes(
            old(height_map).heights(),
            old(height_map).changes(),
            row as int,
            col as int,
            cut,
        ),
{
    proof {
        height_map.lemma_shape();
    }
    if row >= 0 && col >= 0 && (row as u64) < height_map.rows() as u64 && (col as u64) < height_map.cols() as u64 {
        let index = (row as usize, col as usize);
        if height_map.get_height(index) >= cut {
            height_map.write(index, cut);
        }
    }
}

impl GCodeExecutor {
    pub closed spec fn wf(&self) -> bool {
        &&& self@.wf()
        &&& self.current_points matches Some(points) ==> self.current_point < points@.len()
    }

    /// An executor for `code` on a block of `size` micrometres split into
    /// `resolution` cells, with the tool at the starting position.
    pub fn new(code: GCode, resolution: (u32, u32, u32), size: (u32, u32, u32)) -> (r: Self)
        requires
            valid_geometry(resolution, size),
        ensures
            r.wf(),
            r@.wf(),
            r@ == loaded(code, start_point(resolution, size), start_position(), resolution, size),
    {
        let cutter = cutter_footprint(code.cutter(), resolution, size);
        proof {
            lemma_footprint_bounds(code.spec_cutter(), resolution, size);
        }
        let position: Voxel = (0, lattice_of(START_HEIGHT, size.1, resolution.1), 0);
        GCodeExecutor {
            current_instruction: 0,
            position,
            physical: (0, START_HEIGHT, 0),
            cutter,
            code,
            resolution,
            size,
            current_points: None,
            current_point: 0,
        }
    }

    /// Starts toolpath `code` from its first instruction, with the tool where
    /// it stands, the motion under way dropped and the footprint of the new
    /// cutter.
    pub fn load(&mut self, code: GCode)
        requires
            old(self).wf(),
        ensures
            final(self).wf(),
            final(self)@.wf(),
            final(self)@ == loaded(
                code,
                old(self)@.position,
                old(self)@.physical,
                old(self)@.resolution,
                old(self)@.size,
            ),
    {
        self.current_instruction = 0;
        self.cutter = cutter_footprint(code.cutter(), self.resolution, self.size);
        proof {
            lemma_footprint_bounds(code.spec_cutter(), self.resolution, self.size);
        }
        self.code = code;
        self.current_point = 0;
        self.current_points = None;
    }

    /// Whether the run is over (see `ExecutorView::finished`).
    pub fn execution_finished(&self) -> (r: bool)
        ensures
            r == self@.finished(),
    {
        self.current_instruction >= self.code.instructions().len() || self.current_instruction + 1
            >= self.code.instructions().len()
    }

    /// Stamps the footprint with the tool's lowest point at `point`.
    fn stamp_at(&self, height_map: &mut HeightMap, point: Voxel)
        requires
            self.wf(),
            old(height_map).wf(),
            voxel_in_i32(point),
        ensures
            final(height_map).wf(),
            final(height_map).num_rows() == old(height_map).num_rows(),
            final(height_map).num_cols() == old(height_map).num_cols(),
            final(height_map).heights() == stamp(
                old(height_map).heights(),
                self.cutter@,
                point,
                self.resolution,
                self.size,
            ),
            final(height_map).changes() == old(height_map).changes().union(
                stamp_changes(old(height_map).heights(), self.cutter@, point, self.resolution, self.size),
            ),
    {
        let ghost h0 = height_map.heights();
        let ghost ch0 = height_map.changes();
        let ghost parts = self.cutter@;
        let tip = micros_of(point.1, self.size.1, self.resolution.1);
        assert(-0x7fff_ffff_8000_0000 <= tip <= 0x7fff_ffff_8000_0000) by (nonlinear_arith)
            requires
                tip == (point.1 * self.size.1) / (self.resolution.1 as int),
                i32::MIN <= point.1 <= i32::MAX,
                self.size.1 <= u32::MAX,
                self.resolution.1 >= 1,
        ;
        proof {
            assert forall|j: int| 0 <= j < parts.len() implies i64::MIN <= #[trigger] cut_height(
                parts[j],
                point,
                self.resolution,
                self.size,
            ) <= i64::MAX by {
                assert(part_bounded(parts[j]));
            }
        }
        proof {
            let s0 = stamp_upto(h0, parts, 0, point, self.resolution, self.size);
            assert forall|i: int| 0 <= i < h0.len() implies #[trigger] s0[i] =~= h0[i] by {}
            assert(s0 =~= h0);
            assert(ch0.union(changes_upto(h0, parts, 0, point, self.resolution, self.size)) =~= ch0);
        }
        let cx: i64 = point.0 + (self.resolution.0 / 2) as i64;
        let cz: i64 = point.2 + (self.resolution.2 / 2) as i64;
        let mut k: usize = 0;
        while k < self.cutter.len()
            invariant
                self.wf(),
                parts == self.cutter@,
                voxel_in_i32(point),
                tip == to_micros(point.1 as int, self.size.1 as int, self.resolution.1 as int),
                -0x7fff_ffff_8000_0000 <= tip <= 0x7fff_ffff_8000_0000,
                cx == point.0 + self.resolution.0 / 2,
                cz == point.2 + self.resolution.2 / 2,
                cuts_within(parts, parts.len() as int, point, self.resolution, self.size, i64::MIN as int, i64::MAX as int),
                k <= parts.len(),
                height_map.wf(),
                height_map.num_rows() == old(height_map).num_rows(),
                height_map.num_cols() == old(height_map).num_cols(),
                h0 == old(height_map).heights(),
                ch0 == old(height_map).changes(),
                height_map.heights() == stamp_upto(h0, parts, k as int, point, self.resolution, self.size),
                height_map.changes() == ch0.union(changes_upto(h0, parts, k as int, point, self.resolution, self.size)),
            decreases parts.len() - k,
        {
            let part = self.cutter[k];
            assert(part_bounded(part));
            let cut: i64 = tip + part.position_offset.1;
            let ix = part.index_offset.0 as i64;
            let iz = part.index_offset.1 as i64;
            proof {
                lemma_stamp_next(h0, ch0, height_map.heights(), height_map.changes(), parts, k as int, point, self.resolution, self.size);
            }
            carve_cell(height_map, cx + ix, cz + iz, cut);
            carve_cell(height_map, cx + ix, cz - iz, cut);
            carve_cell(height_map, cx - ix, cz + iz, cut);
            carve_cell(height_map, cx - ix, cz - iz, cut);
            k = k + 1;
        }
        proof {
            assert(height_map.heights() =~= stamp(h0, parts, point, self.resolution, self.size));
            assert(height_map.changes() =~= ch0.union(stamp_changes(h0, parts, point, self.resolution, self.size)));
        }
    }

    /// The lattice point that `instruction` moves to from the tool's position.
    fn segment_end_of(&self, instruction: GCodeInstruction) -> (r: Voxel)
        requires
            self.wf(),
        ensures
            r == segment_end(instruction@, self.position, self.resolution, self.size),
            voxel_in_i32(r),
    {
        let grid = toolpath_axes_to_grid(instruction.x(), instruction.y(), instruction.z());
        let x = match grid.0 {
            Some(v) => lattice_of(v, self.size.0, self.resolution.0),
            None => self.position.0,
        };
        let y = match grid.1 {
            Some(v) => lattice_of(v, self.size.1, self.resolution.1),
            None => self.position.1,
        };
        let z = match grid.2 {
            Some(v) => lattice_of(v, self.size.2, self.resolution.2),
            None => self.position.2,
        };
        (x, y, z)
    }

    /// Advances the run by one lattice point (see `stepped`): where no motion
    /// is under way the current instruction's path is traced first; the tool
    /// moves to the path's next point and stamps its footprint there; after
    /// the path's last point the run moves on to the next instruction.
    pub fn execute_step(&mut self, height_map: &mut HeightMap)
        requires
            old(self).wf(),
            old(height_map).wf(),
        ensures
            final(self).wf(),
            stepped(old(self)@, *old(height_map), final(self)@, *final(height_map)),
    {
        if self.execution_finished() {
            return;
        }
        let count = self.code.instructions().len();
        assert(self.current_instruction + 1 < count);
        let next_instruction = self.current_instruction + 1;
        if self.current_points.is_none() {
            let instruction = self.code.instructions()[self.current_instruction];
            let end = self.segment_end_of(instruction);
            self.current_points = Some(trace_between(self.position, end));
            self.current_point = 0;
            assert(fields_of(self.code.spec_instructions())[self.current_instruction as int]
                == instruction@);
        }
        let cursor = self.current_point;
        // A path is under way here: the branch above has just traced one.
        let (point, last) = match &self.current_points {
            Some(points) => (points[cursor], cursor >= points.len() - 1),
            None => (self.position, true),
        };
        self.position = point;
        self.physical = (
            micros_of(point.0, self.size.0, self.resolution.0),
            micros_of(point.1, self.size.1, self.resolution.1),
            micros_of(point.2, self.size.2, self.resolution.2),
        );
        self.stamp_at(height_map, point);
        if last {
            self.current_points = None;
            self.current_point = 0;
            self.current_instruction = next_instruction;
        } else {
            self.current_point = cursor + 1;
        }
    }

    /// The tool's position in micrometres (x, height, z).
    pub fn current_position(&self) -> (r: (i64, i64, i64))
        ensures
            r == self@.physical,
    {
        self.physical
    }

    /// The lattice point at which the tool stands.
    pub fn lattice_position(&self) -> (r: Voxel)
        ensures
            r == self@.position,
    {
        self.position
    }

    /// The index of the current instruction.
    pub fn current_instruction(&self) -> (r: usize)
        ensures
            r == self@.current_instruction,
    {
        self.current_instruction
    }

    /// The cutter's footprint.
    pub fn cutter(&self) -> (r: &Vec<CutterPart>)
        ensures
            r@ == self@.cutter,
    {
        &self.cutter
    }

    /// The toolpath being run.
    pub fn code(&self) -> (r: &GCode)
        ensures
            fields_of(r.spec_instructions()) == self@.instructions,
            r.spec_cutter() == self@.cutter_shape,
    {
        &self.code
    }

    /// The grid's cell counts (x, vertical, z).
    pub fn resolution(&self) -> (r: (u32, u32, u32))
        ensures
            r == self@.resolution,
    {
        self.resolution
    }

    /// The block's size in micrometres (x, vertical, z).
    pub fn size(&self) -> (r: (u32, u32, u32))
        ensures
            r == self@.size,
    {
        self.size
    }

    /// The path of the motion under way, if any.
    pub fn current_points(&self) -> (r: Option<&Vec<Voxel>>)
        ensures
            match (r, self@.trace) {
                (Some(points), Some(t)) => points@ == t.0,
                (None, None) => true,
                _ => false,
            },
    {
        match &self.current_points {
            Some(points) => Some(points),
            None => None,
        }
    }

    /// The index of the next point of the motion under way.
    pub fn current_point(&self) -> (r: Option<usize>)
        ensures
            match (r, self@.trace) {
                (Some(i), Some(t)) => i == t.1,
                (None, None) => true,
                _ => false,
            },
    {
        match &self.current_points {
            Some(_) => Some(self.current_point),
            None => None,
        }
    }
}

/// Every cut of the footprint at a lattice point fits in an `i64`.
proof fn lemma_cuts_fit(e: ExecutorView, p: Voxel)
    requires
        e.wf(),
        voxel_in_i32(p),
    ensures
        cuts_within(e.cutter, e.cutter.len() as int, p, e.resolution, e.size, i64::MIN as int, i64::MAX as int),
{
    let tip = to_micros(p.1 as int, e.size.1 as int, e.resolution.1 as int);
    assert(-0x7fff_ffff_8000_0000 <= tip <= 0x7fff_ffff_8000_0000) by (nonlinear_arith)
        requires
            tip == (p.1 * e.size.1) / (e.resolution.1 as int),
            i32::MIN <= p.1 <= i32::MAX,
            e.size.1 <= u32::MAX,
            e.resolution.1 >= 1,
    ;
    assert forall|j: int| 0 <= j < e.cutter.len() implies i64::MIN <= #[trigger] cut_height(
        e.cutter[j],
        p,
        e.resolution,
        e.size,
    ) <= i64::MAX by {
        assert(part_bounded(e.cutter[j]));
    }
}

/// The next point of an unfinished run lies in the range of `i32`.
proof fn lemma_next_point_fits(e: ExecutorView)
    requires
        e.wf(),
        !e.finished(),
    ensures
        voxel_in_i32(e.next_point()),
        0 <= e.pending().1 < e.pending().0.len(),
{
    match e.trace {
        Some(_) => {},
        None => {
            let end = segment_end(e.instructions[e.current_instruction], e.position, e.resolution, e.size);
            lemma_line_points(e.position, end);
        },
    }
}

/// One step never raises a cell of the height field.
pub proof fn lemma_step_lowers(e0: ExecutorView, h0: HeightMap, e1: ExecutorView, h1: HeightMap)
    requires
        e0.wf(),
        h0.wf(),
        stepped(e0, h0, e1, h1),
    ensures
        forall|r: int, c: int| h0.in_grid(r, c) ==> #[trigger] h1.height_at(r, c) <= h0.height_at(r, c),
{
    h0.lemma_shape();
    if !e0.finished() {
        let p = e0.next_point();
        lemma_next_point_fits(e0);
        lemma_cuts_fit(e0, p);
        assert forall|r: int, c: int| h0.in_grid(r, c) implies #[trigger] h1.height_at(r, c) <= h0.height_at(r, c) by {
            assert(in_rect(h0.heights(), r, c));
            lemma_lowest_cut_within(e0.cutter, e0.cutter.len() as int, p, e0.resolution, e0.size, i64::MIN as int, i64::MAX as int, r, c);
        }
    }
}

/// What `load` does (`e0` to `e1`) to an executor that runs on height field
/// `h0`: the field stays as it is, and the executor starts some toolpath
/// from where the tool stands.
pub open spec fn reloaded(e0: ExecutorView, h0: HeightMap, e1: ExecutorView, h1: HeightMap) -> bool {
    &&& h1 == h0
    &&& e1.wf()
    &&& exists|code: GCode| e1 == loaded(code, e0.position, e0.physical, e0.resolution, e0.size)
}

/// One call in a session: a step, or the load of another toolpath.
pub open spec fn advanced(e0: ExecutorView, h0: HeightMap, e1: ExecutorView, h1: HeightMap) -> bool {
    stepped(e0, h0, e1, h1) || reloaded(e0, h0, e1, h1)
}

/// Over any run of steps and reloads with no reset of the height field
/// between them, no cell ever rises: for states `i <= j`, every cell at `j`
/// is at most its height at `i`. So reloading a toolpath keeps all carving
/// done before it.
pub proof fn lemma_heights_never_rise(runs: Seq<(ExecutorView, HeightMap)>)
    requires
        runs.len() > 0,
        runs[0].0.wf(),
        runs[0].1.wf(),
        forall|i: int| 0 <= i < runs.len() - 1 ==> advanced(#[trigger] runs[i].0, runs[i].1, runs[i + 1].0, runs[i + 1].1),
    ensures
        forall|i: int, j: int, r: int, c: int|
            0 <= i <= j < runs.len() && runs[i].1.in_grid(r, c) ==> #[trigger] runs[j].1.height_at(r, c)
                <= #[trigger] runs[i].1.height_at(r, c),
    decreases runs.len(),
{
    if runs.len() > 1 {
        let prefix = runs.drop_last();
        assert forall|i: int| 0 <= i < prefix.len() - 1 implies advanced(#[trigger] prefix[i].0, prefix[i].1, prefix[i + 1].0, prefix[i + 1].1) by {
            assert(advanced(runs[i].0, runs[i].1, runs[i + 1].0, runs[i + 1].1));
        }
        lemma_heights_never_rise(prefix);
        let n = runs.len() - 1;
        assert forall|i: int| 0 <= i < runs.len() implies (#[trigger] runs[i]).0.wf() && runs[i].1.wf() && runs[i].1.num_rows() == runs[0].1.num_rows() && runs[i].1.num_cols() == runs[0].1.num_cols() by {
            lemma_maps_stay_wf(runs, i);
        }
        assert(advanced(runs[n - 1].0, runs[n - 1].1, runs[n].0, runs[n].1));
        if stepped(runs[n - 1].0, runs[n - 1].1, runs[n].0, runs[n].1) {
            lemma_step_lowers(runs[n - 1].0, runs[n - 1].1, runs[n].0, runs[n].1);
        }
        assert forall|i: int, j: int, r: int, c: int|
            0 <= i <= j < runs.len() && runs[i].1.in_grid(r, c) implies #[trigger] runs[j].1.height_at(r, c)
                <= #[trigger] runs[i].1.height_at(r, c) by {
            if j == n && i < n {
                assert(prefix[i] == runs[i] && prefix[n - 1] == runs[n - 1]);
                assert(runs[n - 1].1.height_at(r, c) <= runs[i].1.height_at(r, c));
                assert(runs[n - 1].1.in_grid(r, c));
            } else if j < n {
                assert(prefix[i] == runs[i] && prefix[j] == runs[j]);
            }
        }
    }
}

proof fn lemma_maps_stay_wf(runs: Seq<(ExecutorView, HeightMap)>, i: int)
    requires
        0 <= i < runs.len(),
        runs[0].0.wf(),
        runs[0].1.wf(),
        forall|k: int| 0 <= k < runs.len() - 1 ==> advanced(#[trigger] runs[k].0, runs[k].1, runs[k + 1].0, runs[k + 1].1),
    ensures
        runs[i].0.wf(),
        runs[i].1.wf(),
        runs[i].1.num_rows() == runs[0].1.num_rows(),
        runs[i].1.num_cols() == runs[0].1.num_cols(),
    decreases i,
{
    if i > 0 {
        lemma_maps_stay_wf(runs, i - 1);
        assert(advanced(runs[i - 1].0, runs[i - 1].1, runs[i].0, runs[i].1));
    }
}

/// A toolpath whose first of two instructions moves no axis stamps only the
/// point where the tool stands: one step finishes the run, and every cell
/// that no sample covers there keeps its height.
pub proof fn lemma_two_instructions_stamp_start(e0: ExecutorView, h0: HeightMap, e1: ExecutorView, h1: HeightMap)
    requires
        e0.wf(),
        h0.wf(),
        e0.trace is None,
        e0.current_instruction == 0,
        e0.instructions.len() == 2,
        e0.instructions[0].1 is None,
        e0.instructions[0].2 is None,
        e0.instructions[0].3 is None,
        stepped(e0, h0, e1, h1),
    ensures
        e1.finished(),
        e1.position == e0.position,
        h1.heights() == stamp(h0.heights(), e0.cutter, e0.position, e0.resolution, e0.size),
        forall|r: int, c: int|
            h0.in_grid(r, c) && lowest_cut(e0.cutter, e0.cutter.len() as int, e0.position, e0.resolution, e0.size, r, c) is None
                ==> #[trigger] h1.height_at(r, c) == h0.height_at(r, c),
{
    h0.lemma_shape();
    let p = e0.position;
    assert(segment_end(e0.instructions[0], p, e0.resolution, e0.size) == p);
    let pts = line_points(p, p);
    assert(pts.len() == 1);
    assert(pts[0] == line_point(p, p, 0));
    assert(pts[0] == p);
    assert(e0.next_point() == p);
    assert forall|r: int, c: int|
        h0.in_grid(r, c) && lowest_cut(e0.cutter, e0.cutter.len() as int, p, e0.resolution, e0.size, r, c) is None
            implies #[trigger] h1.height_at(r, c) == h0.height_at(r, c) by {
        assert(in_rect(h0.heights(), r, c));
    }
}

} // verus!
