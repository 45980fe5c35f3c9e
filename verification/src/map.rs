//! Everything about laying out the map.

pub mod grid;
pub mod trees;

use crate::map::grid::cells;
use crate::map::grid::grid_cells;
use crate::map::trees::generators::CraterGenerator;
use crate::map::trees::generators::DonutGenerator;
use crate::map::trees::generators::Generator;
use crate::map::trees::placement_of;
use crate::map::trees::spec_leaf_material;
use crate::map::trees::spec_trunk_material;
use crate::map::trees::BoxShape;
use crate::map::trees::Config;
use crate::map::trees::LevelEntry;
use crate::map::trees::Material;
use crate::map::trees::Placement;
use crate::map::trees::TreeBuilder;
use crate::map::trees::TreeBuilderBuilder;
use crate::map::trees::TreeError;
use crate::scalar::whole;
use crate::scalar::UNIT;
use vstd::prelude::*;

verus! {

/// A tree is planted where the sample, scaled, is more than this: below it
/// the ground stays clear.
pub const THRESHOLD: i64 = 2_000_000;

/// The sample `raw` scaled by `scale`, kept within the scalars: a product
/// beyond the largest scalar is the largest, one below the smallest the
/// smallest.
pub open spec fn spec_scaled(raw: int, scale: int) -> int {
    if raw * scale > i64::MAX {
        i64::MAX as int
    } else if raw * scale < i64::MIN {
        i64::MIN as int
    } else {
        raw * scale
    }
}

/// The sample `raw` scaled by `scale`.
pub fn scaled(raw: i64, scale: u32) -> (size: i64)
    ensures
        size == spec_scaled(raw as int, scale as int),
{
    let wide: i128 = raw as i128;
    let by: i128 = scale as i128;
    assert(-0x8000_0000_0000_0000 * 0x1_0000_0000 <= wide * by <= 0x8000_0000_0000_0000
        * 0x1_0000_0000) by (nonlinear_arith)
        requires
            -0x8000_0000_0000_0000 <= wide <= 0x8000_0000_0000_0000,
            0 <= by <= 0x1_0000_0000,
    ;
    let product: i128 = wide * by;
    if product > 0x7FFF_FFFF_FFFF_FFFF {
        i64::MAX
    } else if product < -0x8000_0000_0000_0000 {
        i64::MIN
    } else {
        product as i64
    }
}

/// Whether the sample `raw`, scaled by `scale`, asks for a tree.
pub open spec fn is_planted(raw: int, scale: int) -> bool {
    spec_scaled(raw, scale) > THRESHOLD
}

/// Whether the sample `raw`, scaled by `scale`, asks for a tree of a size
/// above `levels`, which no table of that many sizes can give.
pub open spec fn is_refused(raw: int, scale: int, levels: int) -> bool {
    is_planted(raw, scale) && spec_scaled(raw, scale) > levels * UNIT
}

/// What the sample `raw` puts on the cell `(x, z)`: one tree where it asks
/// for one of a size that `table` holds, and nothing else.
pub open spec fn planted_at(
    table: Seq<LevelEntry>,
    levels: int,
    x: i32,
    z: i32,
    raw: i64,
    scale: int,
) -> Seq<Placement> {
    if is_planted(raw as int, scale) && !is_refused(raw as int, scale, levels) {
        seq![
            placement_of(
                table,
                (x * UNIT) as i64,
                (z * UNIT) as i64,
                spec_scaled(raw as int, scale) as i64,
            ),
        ]
    } else {
        Seq::empty()
    }
}

/// What the first `n` samples put on the first `n` cells, in the order of
/// the cells.
pub open spec fn planted(
    table: Seq<LevelEntry>,
    levels: int,
    cells: Seq<(i32, i32)>,
    raws: Seq<i64>,
    scale: int,
    n: int,
) -> Seq<Placement>
    decreases n,
{
    if n <= 0 {
        Seq::empty()
    } else {
        planted(table, levels, cells, raws, scale, n - 1) + planted_at(
            table,
            levels,
            cells[n - 1].0,
            cells[n - 1].1,
            raws[n - 1],
            scale,
        )
    }
}

/// What is planted depends on the samples that were taken, and on no other:
/// two lists of samples that agree on the first `n` plant the same there.
pub proof fn lemma_planted_agrees(
    table: Seq<LevelEntry>,
    levels: int,
    cells: Seq<(i32, i32)>,
    raws: Seq<i64>,
    others: Seq<i64>,
    scale: int,
    n: int,
)
    requires
        forall|k: int| 0 <= k < n ==> raws[k] == others[k],
    ensures
        planted(table, levels, cells, raws, scale, n) == planted(
            table,
            levels,
            cells,
            others,
            scale,
            n,
        ),
    decreases n,
{
    if n > 0 {
        lemma_planted_agrees(table, levels, cells, raws, others, scale, n - 1);
    }
}

/// Handles one sample: where `raw`, scaled by `scale`, is more than the
/// threshold, a tree of the size that it stands for is put on the cell
/// `(x, z)`; where it is not, nothing happens.
///
/// A sample that asks for a size above the table's largest is refused, and
/// `commands` is then left as it was.
pub fn plant(
    trees: &TreeBuilder,
    x: i32,
    z: i32,
    raw: i64,
    scale: u32,
    commands: &mut Vec<Placement>,
) -> (r: Result<(), TreeError>)
    ensures
        r is Ok <==> !is_refused(raw as int, scale as int, trees.spec_levels() as int),
        r matches Err(e) ==> e == TreeError::InvalidLevel,
        final(commands)@ == old(commands)@ + planted_at(
            trees@,
            trees.spec_levels() as int,
            x,
            z,
            raw,
            scale as int,
        ),
{
    let size: i64 = scaled(raw, scale);
    let r = if size > THRESHOLD {
        trees.build_tree_at(whole(x), whole(z), size, commands)
    } else {
        Ok(())
    };
    assert(commands@ =~= old(commands)@ + planted_at(
        trees@,
        trees.spec_levels() as int,
        x,
        z,
        raw,
        scale as int,
    ));
    r
}

/// The shape of the trees that a world is planted with: the default shape,
/// ten tall.
pub open spec fn spec_world_config() -> Config {
    Config {
        tile_width: 1_000_000,
        tile_height: 10_000_000,
        trunk_ratio: 200_000,
        leaf_padding_perc: 800_000,
    }
}

/// The shape of the trees that a world is planted with.
pub fn world_config() -> (c: Config)
    ensures
        c == spec_world_config(),
        c.is_sound(),
{
    Config {
        tile_width: 1_000_000,
        tile_height: 10_000_000,
        trunk_ratio: 200_000,
        leaf_padding_perc: 800_000,
    }
}

/// Plants a map: it walks the grid, samples a field at every cell where the
/// walk stops, and puts a tree where the sample asks for one.
pub struct WorldBuilder<T: Generator> {
    width: i32,
    depth: i32,
    generator_function: T,
    levels: u32,
}

impl<T: Generator> WorldBuilder<T> {
    pub closed spec fn spec_width(self) -> i32 {
        self.width
    }

    pub closed spec fn spec_depth(self) -> i32 {
        self.depth
    }

    pub closed spec fn spec_generator(self) -> T {
        self.generator_function
    }

    pub closed spec fn spec_levels(self) -> u32 {
        self.levels
    }

    /// A builder for a map `width` by `depth`, planted after the field
    /// `generator_function` with trees of the sizes zero to `levels`.
    pub fn new(width: i32, depth: i32, generator_function: T, levels: u32) -> (w: Self)
        ensures
            w.spec_width() == width,
            w.spec_depth() == depth,
            w.spec_generator() == generator_function,
            w.spec_levels() == levels,
    {
        Self { width, depth, generator_function, levels }
    }

    /// The cells that the walk stops at.
    pub open spec fn spec_cells(self) -> Seq<(i32, i32)> {
        grid_cells(self.spec_width() as int, self.spec_depth() as int)
    }

    /// `raw` is a value that the field may give at the cell at place `k` of
    /// the walk.
    pub open spec fn is_sample(self, k: int, raw: i64) -> bool {
        call_ensures(
            T::compute,
            (&self.spec_generator(), self.spec_cells()[k].0, self.spec_cells()[k].1),
            raw,
        )
    }

    /// `raws` are the samples of one walk, `after` is what `before` has
    /// become by it, and `r` is how it ended.
    ///
    /// The walk takes one sample at each cell in turn. It goes on as long as
    /// no sample is refused, and ends with the first that is: `r` is then the
    /// error, and the cells behind that one are not sampled. Every tree that
    /// was asked for on the way stands behind those of `before`, in the order
    /// of the cells, with its boxes from the world's table as registered
    /// behind `mesh_base` boxes and `material_base` surfaces.
    pub open spec fn is_walk(
        self,
        raws: Seq<i64>,
        before: Seq<Placement>,
        after: Seq<Placement>,
        r: Result<(), TreeError>,
        mesh_base: int,
        material_base: int,
    ) -> bool {
        let levels = self.spec_levels() as int;
        let table = spec_world_config().table(levels, mesh_base, material_base);
        &&& raws.len() <= self.spec_cells().len()
        &&& forall|k: int| 0 <= k < raws.len() ==> #[trigger] self.is_sample(k, raws[k])
        &&& forall|k: int|
            0 <= k < raws.len() - 1 ==> !is_refused(#[trigger] raws[k] as int, levels, levels)
        &&& after == before + planted(
            table,
            levels,
            self.spec_cells(),
            raws,
            levels,
            raws.len() as int,
        )
        &&& match r {
            Ok(_) => {
                &&& raws.len() == self.spec_cells().len()
                &&& raws.len() > 0 ==> !is_refused(raws.last() as int, levels, levels)
            },
            Err(e) => {
                &&& e == TreeError::InvalidLevel
                &&& raws.len() > 0
                &&& is_refused(raws.last() as int, levels, levels)
            },
        }
    }

    /// The field gives each cell of the walk one value, whenever it is asked.
    pub open spec fn is_single_valued(self) -> bool {
        forall|k: int, a: i64, b: i64|
            #[trigger] self.is_sample(k, a) && #[trigger] self.is_sample(k, b) ==> a == b
    }

    /// A walk can be run again: over a field that gives each cell one value,
    /// two walks from the same start take the same samples, plant the same
    /// trees in the same order, and end the same way.
    pub proof fn lemma_walk_repeats(
        self,
        raws: Seq<i64>,
        others: Seq<i64>,
        before: Seq<Placement>,
        after: Seq<Placement>,
        other_after: Seq<Placement>,
        r: Result<(), TreeError>,
        other_r: Result<(), TreeError>,
        mesh_base: int,
        material_base: int,
    )
        requires
            self.is_single_valued(),
            self.is_walk(raws, before, after, r, mesh_base, material_base),
            self.is_walk(others, before, other_after, other_r, mesh_base, material_base),
        ensures
            raws == others,
            after == other_after,
            r == other_r,
    {
        let levels = self.spec_levels() as int;
        assert forall|k: int| 0 <= k < raws.len() && k < others.len() implies raws[k]
            == others[k] by {
            assert(self.is_sample(k, raws[k]));
            assert(self.is_sample(k, others[k]));
        }
        // A walk that stops short stops on a refused sample, and the other
        // walk took the same sample and went on.
        if raws.len() < others.len() {
            let k = raws.len() - 1;
            assert(is_refused(raws[k] as int, levels, levels));
            assert(!is_refused(others[k] as int, levels, levels));
        }
        if others.len() < raws.len() {
            let k = others.len() - 1;
            assert(is_refused(others[k] as int, levels, levels));
            assert(!is_refused(raws[k] as int, levels, levels));
        }
        assert(raws =~= others);
        assert(r is Ok ==> r->Ok_0 == other_r->Ok_0);
    }

    /// Plants the map: registers the world's table of trees in `meshes` and
    /// `materials`, then walks the grid and adds a placement to `commands`
    /// for every tree.
    ///
    /// Without a size above zero there is no table: that is refused before
    /// anything is registered or planted. A sample that asks for a size above
    /// `levels` ends the walk with `InvalidLevel`; what was registered and
    /// planted until then stays.
    pub fn build(
        self,
        commands: &mut Vec<Placement>,
        meshes: &mut Vec<BoxShape>,
        materials: &mut Vec<Material>,
    ) -> (r: Result<(), TreeError>)
        ensures
            self.spec_levels() == 0 ==> {
                &&& r == Err::<(), TreeError>(TreeError::DegenerateConfig)
                &&& final(commands)@ == old(commands)@
                &&& final(meshes)@ == old(meshes)@
                &&& final(materials)@ == old(materials)@
            },
            self.spec_levels() > 0 ==> {
                &&& final(materials)@ == old(materials)@.push(spec_leaf_material()).push(
                    spec_trunk_material(),
                )
                &&& final(meshes)@ == old(meshes)@ + spec_world_config().level_boxes(
                    self.spec_levels() as int,
                    self.spec_levels() + 1,
                )
                &&& exists|raws: Seq<i64>|
                    self.is_walk(
                        raws,
                        old(commands)@,
                        final(commands)@,
                        r,
                        old(meshes)@.len() as int,
                        old(materials)@.len() as int,
                    )
            },
    {
        let ghost mesh_base = meshes@.len() as int;
        let ghost material_base = materials@.len() as int;
        let ghost levels = self.levels as int;
        let ghost table = spec_world_config().table(levels, mesh_base, material_base);
        let tree_builder = match TreeBuilderBuilder::new().with_config(world_config()).with_levels(
            self.levels,
        ).build(meshes, materials) {
            Ok(t) => t,
            Err(e) => {
                return Err(e);
            },
        };
        let grid: Vec<(i32, i32)> = cells(self.width, self.depth);
        let ghost mut raws: Seq<i64> = Seq::empty();
        let mut k: usize = 0;
        while k < grid.len()
            invariant
                k <= grid@.len(),
                grid@ == self.spec_cells(),
                levels == self.spec_levels(),
                levels > 0,
                mesh_base == old(meshes)@.len(),
                material_base == old(materials)@.len(),
                materials@ == old(materials)@.push(spec_leaf_material()).push(
                    spec_trunk_material(),
                ),
                meshes@ == old(meshes)@ + spec_world_config().level_boxes(levels, levels + 1),
                table == spec_world_config().table(levels, mesh_base, material_base),
                tree_builder@ == table,
                tree_builder.spec_levels() == levels,
                raws.len() == k,
                forall|j: int| 0 <= j < k ==> #[trigger] self.is_sample(j, raws[j]),
                forall|j: int| 0 <= j < k ==> !is_refused(#[trigger] raws[j] as int, levels, levels),
                commands@ == old(commands)@ + planted(
                    table,
                    levels,
                    grid@,
                    raws,
                    levels,
                    k as int,
                ),
            decreases grid@.len() - k,
        {
            let (x, z) = grid[k];
            let raw: i64 = self.generator_function.compute(x, z);
            let ghost taken = raws.push(raw);
            proof {
                lemma_planted_agrees(table, levels, grid@, raws, taken, levels, k as int);
            }
            let r = plant(&tree_builder, x, z, raw, self.levels, commands);
            proof {
                assert(commands@ =~= old(commands)@ + planted(
                    table,
                    levels,
                    grid@,
                    taken,
                    levels,
                    k + 1,
                ));
            }
            match r {
                Err(e) => {
                    proof {
                        assert(self.is_walk(
                            taken,
                            old(commands)@,
                            commands@,
                            Err(e),
                            mesh_base,
                            material_base,
                        ));
                    }
                    return Err(e);
                },
                Ok(_) => {},
            }
            proof {
                raws = taken;
            }
            k = k + 1;
        }
        proof {
            assert(self.is_walk(
                raws,
                old(commands)@,
                commands@,
                Ok(()),
                mesh_base,
                material_base,
            ));
        }
        Ok(())
    }
}

/// A crater gives each cell one value, so a walk over one can be run again.
pub proof fn lemma_crater_single_valued(w: WorldBuilder<CraterGenerator>)
    ensures
        w.is_single_valued(),
{
    assert forall|k: int, a: i64, b: i64| #[trigger]
        w.is_sample(k, a) && #[trigger] w.is_sample(k, b) implies a == b by {
        let (x, z) = w.spec_cells()[k];
        assert(a == w.spec_generator().value(x as int, z as int));
    }
}

/// A donut gives each cell one value, so a walk over one can be run again.
pub proof fn lemma_donut_single_valued(w: WorldBuilder<DonutGenerator>)
    ensures
        w.is_single_valued(),
{
    assert forall|k: int, a: i64, b: i64| #[trigger]
        w.is_sample(k, a) && #[trigger] w.is_sample(k, b) implies a == b by {
        let (x, z) = w.spec_cells()[k];
        assert(a == w.spec_generator().value(x as int, z as int));
    }
}

/// A sample of at most one never asks for more than the table holds, where
/// it is scaled by the number of the table's sizes.
pub proof fn lemma_normal_sample_accepted(raw: int, levels: int)
    requires
        raw <= UNIT,
        0 <= levels <= u32::MAX,
    ensures
        !is_refused(raw, levels, levels),
{
    assert(raw * levels <= levels * 1_000_000) by (nonlinear_arith)
        requires
            raw <= 1_000_000,
            0 <= levels,
    ;
    assert(levels * 1_000_000 <= i64::MAX) by (nonlinear_arith)
        requires
            0 <= levels <= u32::MAX,
    ;
}

/// A walk over a donut stops at every cell and ends well: a donut is at most
/// one, so no cell asks for a tree above the largest size.
pub proof fn lemma_donut_walk_succeeds(
    w: WorldBuilder<DonutGenerator>,
    raws: Seq<i64>,
    before: Seq<Placement>,
    after: Seq<Placement>,
    r: Result<(), TreeError>,
    mesh_base: int,
    material_base: int,
)
    requires
        w.is_walk(raws, before, after, r, mesh_base, material_base),
    ensures
        r is Ok,
        raws.len() == w.spec_cells().len(),
{
    if raws.len() > 0 {
        let k = raws.len() - 1;
        assert(w.is_sample(k, raws[k]));
        lemma_normal_sample_accepted(raws[k] as int, w.spec_levels() as int);
    }
}

} // verus!
