//! Trees: their shape, the table of sizes, and placing one on a tile.

pub mod generators;

use crate::scalar::floor_div;
use crate::scalar::UNIT;
use vstd::prelude::*;

verus! {

/// How tall every trunk is. The trunk does not grow with the tile: only the
/// foliage tells the sizes apart.
pub const TRUNK_HEIGHT: i64 = 1_000_000;

/// Why no tree could be made.
#[derive(Clone, Copy, Debug, PartialEq, Eq)]
pub enum TreeError {
    /// The size asked for lies above the largest size of the table.
    InvalidLevel,
    /// The shape or the number of sizes would give a box of no size.
    DegenerateConfig,
}

/// A box to be drawn, by its three edges.
#[derive(Clone, Copy, Debug, PartialEq, Eq)]
pub struct BoxShape {
    pub width: i64,
    pub height: i64,
    pub depth: i64,
}

/// A surface to be drawn: its colour by channel, and two scalars that say
/// how metallic and how rough it looks.
#[derive(Clone, Copy, Debug, PartialEq, Eq)]
pub struct Material {
    pub red: u8,
    pub green: u8,
    pub blue: u8,
    pub metallic: i64,
    pub roughness: i64,
}

/// One box of a tree as it is drawn: which registered box, which registered
/// surface, and how far its centre stands above the tile.
///
/// `mesh` and `material` count from zero into the two lists that the boxes
/// and surfaces were registered in.
#[derive(Clone, Copy, Debug, PartialEq, Eq)]
pub struct Descriptor {
    pub mesh: usize,
    pub material: usize,
    pub offset: i64,
}

/// The two boxes of a tree of one size.
#[derive(Clone, Copy, Debug, PartialEq, Eq)]
pub struct LevelEntry {
    pub foliage: Descriptor,
    pub trunk: Descriptor,
}

/// The marker of a tile that a tree stands on: where the tile lies.
#[derive(Clone, Copy, Debug, PartialEq, Eq)]
pub struct Tile {
    pub x: i64,
    pub z: i64,
}

/// A point of the scene, by three scalars.
#[derive(Clone, Copy, Debug, PartialEq, Eq)]
pub struct Position {
    pub x: i64,
    pub y: i64,
    pub z: i64,
}

/// One tree to be put into the scene: the tile's marker, where the tile
/// stands, and the two boxes that hang on it.
#[derive(Clone, Copy, Debug, PartialEq, Eq)]
pub struct Placement {
    pub tile: Tile,
    pub position: Position,
    /// The tree's size, as the table counts it.
    pub level: u32,
    pub foliage: Descriptor,
    pub trunk: Descriptor,
}

/// The size that the scalar `size` stands for: its whole part, with
/// everything below zero taken as zero and everything above the largest
/// `u32` taken as the largest.
pub open spec fn spec_level_of(size: int) -> int {
    if size <= 0 {
        0
    } else if size / (UNIT as int) > u32::MAX {
        u32::MAX as int
    } else {
        size / (UNIT as int)
    }
}

/// The size that the scalar `size` stands for.
pub fn level_of(size: i64) -> (level: u32)
    ensures
        level == spec_level_of(size as int),
{
    if size <= 0 {
        0
    } else {
        let whole: i64 = size / UNIT;
        if whole > 0xFFFF_FFFF {
            0xFFFF_FFFF
        } else {
            whole as u32
        }
    }
}

/// The tree of the size that `size` stands for on the tile at `(x, z)`, with
/// its two boxes taken from `table`.
pub open spec fn placement_of(table: Seq<LevelEntry>, x: i64, z: i64, size: i64) -> Placement {
    let level = spec_level_of(size as int);
    Placement {
        tile: Tile { x, z },
        position: Position { x, y: 0, z },
        level: level as u32,
        foliage: table[level].foliage,
        trunk: table[level].trunk,
    }
}

/// The surface of all foliage.
pub open spec fn spec_leaf_material() -> Material {
    Material { red: 0x3b, green: 0xb5, blue: 0x26, metallic: 200_000, roughness: 1_000_000 }
}

/// The surface of all trunks.
pub open spec fn spec_trunk_material() -> Material {
    Material { red: 0x36, green: 0x23, blue: 0x12, metallic: 200_000, roughness: 1_000_000 }
}

/// The surface of all foliage.
pub fn leaf_material() -> (m: Material)
    ensures
        m == spec_leaf_material(),
{
    Material { red: 0x3b, green: 0xb5, blue: 0x26, metallic: 200_000, roughness: 1_000_000 }
}

/// The surface of all trunks.
pub fn trunk_material() -> (m: Material)
    ensures
        m == spec_trunk_material(),
{
    Material { red: 0x36, green: 0x23, blue: 0x12, metallic: 200_000, roughness: 1_000_000 }
}

/// The shape of one family of trees. All four fields are scalars.
#[derive(Clone, Copy, Debug, PartialEq, Eq)]
pub struct Config {
    /// How wide a tile is.
    pub tile_width: i64,
    /// How tall the tallest tree is, trunk and foliage together.
    pub tile_height: i64,
    /// The trunk's share of a tree, above zero and at most one. It is kept
    /// with the shape for callers that draw their own trunks; the trunks of
    /// this crate are `TRUNK_HEIGHT` tall whatever it says.
    pub trunk_ratio: i64,
    /// The foliage's share of the tile's width, above zero and at most one.
    pub leaf_padding_perc: i64,
}

impl Default for Config {
    /// A tile one wide and two tall, a fifth of trunk, foliage over four
    /// fifths of the tile.
    fn default() -> (c: Config)
        ensures
            c == (Config {
                tile_width: 1_000_000,
                tile_height: 2_000_000,
                trunk_ratio: 200_000,
                leaf_padding_perc: 800_000,
            }),
    {
        Config {
            tile_width: 1_000_000,
            tile_height: 2_000_000,
            trunk_ratio: 200_000,
            leaf_padding_perc: 800_000,
        }
    }
}

impl Config {
    /// How wide and deep the foliage is, which is also how tall the smallest
    /// foliage is.
    pub open spec fn spec_leaf_width(self) -> int {
        self.tile_width * self.leaf_padding_perc / (UNIT as int)
    }

    /// How wide and deep the trunk is: a fifth of the tile.
    pub open spec fn spec_trunk_width(self) -> int {
        self.tile_width / 5
    }

    /// How tall the foliage of size `level` is, out of `levels` sizes above
    /// the smallest: it goes in equal steps from the foliage's width at
    /// size zero to all the room above the trunk at size `levels`.
    pub open spec fn spec_foliage_height(self, levels: int, level: int) -> int {
        self.spec_leaf_width() + (self.tile_height - TRUNK_HEIGHT - self.spec_leaf_width())
            * level / levels
    }

    /// The foliage box of size `level`.
    pub open spec fn foliage_box(self, levels: int, level: int) -> BoxShape {
        BoxShape {
            width: self.spec_leaf_width() as i64,
            height: self.spec_foliage_height(levels, level) as i64,
            depth: self.spec_leaf_width() as i64,
        }
    }

    /// The trunk box, which is the same for every size.
    pub open spec fn trunk_box(self) -> BoxShape {
        BoxShape {
            width: self.spec_trunk_width() as i64,
            height: TRUNK_HEIGHT,
            depth: self.spec_trunk_width() as i64,
        }
    }

    /// The boxes of the sizes below `count`, in the order in which they are
    /// registered: for each size its foliage, then its trunk.
    pub open spec fn level_boxes(self, levels: int, count: int) -> Seq<BoxShape> {
        Seq::new(
            (2 * count) as nat,
            |k: int|
                if k % 2 == 0 {
                    self.foliage_box(levels, k / 2)
                } else {
                    self.trunk_box()
                },
        )
    }

    /// The two boxes of a tree of size `level` as they are drawn, where
    /// `mesh_base` boxes and `material_base` surfaces were registered before
    /// the table's own.
    pub open spec fn level_entry(
        self,
        levels: int,
        level: int,
        mesh_base: int,
        material_base: int,
    ) -> LevelEntry {
        LevelEntry {
            foliage: Descriptor {
                mesh: (mesh_base + 2 * level) as usize,
                material: material_base as usize,
                offset: (TRUNK_HEIGHT + self.spec_foliage_height(levels, level) / 2) as i64,
            },
            trunk: Descriptor {
                mesh: (mesh_base + 2 * level + 1) as usize,
                material: (material_base + 1) as usize,
                offset: 500_000,
            },
        }
    }

    /// The table of the sizes zero to `levels`.
    pub open spec fn table(self, levels: int, mesh_base: int, material_base: int) -> Seq<
        LevelEntry,
    > {
        Seq::new(
            (levels + 1) as nat,
            |level: int| self.level_entry(levels, level, mesh_base, material_base),
        )
    }

    /// The shape gives every box of every tree a size above zero: both
    /// shares lie in `(0, 1]`, the tile is taller than a trunk, and the tile
    /// is wide enough for the foliage and the trunk not to round to nothing.
    pub open spec fn is_sound(self) -> bool {
        &&& 0 < self.trunk_ratio <= UNIT
        &&& 0 < self.leaf_padding_perc <= UNIT
        &&& 0 < self.tile_width
        &&& TRUNK_HEIGHT < self.tile_height
        &&& 0 < self.spec_leaf_width()
        &&& 0 < self.spec_trunk_width()
    }

    /// How wide the foliage is.
    fn leaf_width(&self) -> (w: i64)
        requires
            0 < self.tile_width,
            0 < self.leaf_padding_perc <= UNIT,
        ensures
            w == self.spec_leaf_width(),
            0 <= w <= self.tile_width,
    {
        let wide: i128 = self.tile_width as i128;
        let share: i128 = self.leaf_padding_perc as i128;
        assert(0 <= wide * share <= wide * 1_000_000) by (nonlinear_arith)
            requires
                0 < wide,
                0 < share <= 1_000_000,
        ;
        let w: i128 = wide * share / 1_000_000;
        w as i64
    }

    /// Whether the shape is sound.
    pub fn check(&self) -> (ok: bool)
        ensures
            ok == self.is_sound(),
    {
        if self.trunk_ratio <= 0 || self.trunk_ratio > UNIT {
            return false;
        }
        if self.leaf_padding_perc <= 0 || self.leaf_padding_perc > UNIT {
            return false;
        }
        if self.tile_width <= 0 || self.tile_height <= TRUNK_HEIGHT {
            return false;
        }
        self.leaf_width() > 0 && self.tile_width / 5 > 0
    }

    /// How tall the foliage of size `level` is.
    fn foliage_height(&self, levels: u32, level: u32) -> (h: i64)
        requires
            self.is_sound(),
            level <= levels,
            0 < levels,
        ensures
            h == self.spec_foliage_height(levels as int, level as int),
            0 < h,
    {
        let low: i128 = self.leaf_width() as i128;
        let high: i128 = (self.tile_height - TRUNK_HEIGHT) as i128;
        let span: i128 = high - low;
        let i: i128 = level as i128;
        let n: i128 = levels as i128;
        proof {
            lemma_step_bounds(span as int, i as int, n as int);
        }
        assert(-0x8000_0000_0000_0000 * 0x1_0000_0000 <= span * i <= 0x8000_0000_0000_0000
            * 0x1_0000_0000) by (nonlinear_arith)
            requires
                -0x8000_0000_0000_0000 <= span <= 0x8000_0000_0000_0000,
                0 <= i <= 0x1_0000_0000,
        ;
        let step: i128 = floor_div(span * i, n);
        (low + step) as i64
    }
}

/// The table of tree sizes: for each size from zero to `levels` the two boxes
/// of a tree of that size, registered once and drawn for every tree of the
/// size.
pub struct TreeBuilder {
    tree_data: Vec<LevelEntry>,
    levels: u32,
}

impl View for TreeBuilder {
    type V = Seq<LevelEntry>;

    /// The entries by size, smallest first.
    closed spec fn view(&self) -> Seq<LevelEntry> {
        self.tree_data@
    }
}

impl TreeBuilder {
    #[verifier::type_invariant]
    spec fn well_formed(self) -> bool {
        self.tree_data@.len() == self.levels + 1
    }

    /// The largest size of the table.
    pub closed spec fn spec_levels(self) -> u32 {
        self.levels
    }

    /// The table is the one that `config` and `levels` give, with its boxes
    /// and surfaces registered behind `mesh_base` boxes and `material_base`
    /// surfaces.
    pub open spec fn is_table_of(
        self,
        config: Config,
        levels: u32,
        mesh_base: int,
        material_base: int,
    ) -> bool {
        &&& self.spec_levels() == levels
        &&& self@ == config.table(levels as int, mesh_base, material_base)
    }

    /// The tree of the size that `size` stands for on the tile at `(x, z)`.
    pub open spec fn placement(self, x: i64, z: i64, size: i64) -> Placement {
        placement_of(self@, x, z, size)
    }

    /// Builds the table for `config` with the sizes zero to `levels`.
    ///
    /// The two surfaces are registered in `materials`, then for each size
    /// its foliage box and its trunk box in `meshes`. A shape that is not
    /// sound, or no size above zero, is refused before anything is
    /// registered.
    pub fn new(
        meshes: &mut Vec<BoxShape>,
        materials: &mut Vec<Material>,
        config: Config,
        levels: u32,
    ) -> (r: Result<TreeBuilder, TreeError>)
        ensures
            r is Ok <==> config.is_sound() && levels > 0,
            r matches Err(e) ==> {
                &&& e == TreeError::DegenerateConfig
                &&& final(meshes)@ == old(meshes)@
                &&& final(materials)@ == old(materials)@
            },
            r matches Ok(t) ==> {
                &&& t.is_table_of(config, levels, old(meshes)@.len() as int, old(materials)@.len() as int)
                &&& final(materials)@ == old(materials)@.push(spec_leaf_material()).push(
                    spec_trunk_material(),
                )
                &&& final(meshes)@ == old(meshes)@ + config.level_boxes(
                    levels as int,
                    levels + 1,
                )
            },
    {
        if !config.check() || levels == 0 {
            return Err(TreeError::DegenerateConfig);
        }
        let leaf_mat: usize = materials.len();
        materials.push(leaf_material());
        let trunk_mat: usize = materials.len();
        materials.push(trunk_material());

        let leaf_width: i64 = config.leaf_width();
        let trunk_width: i64 = config.tile_width / 5;
        let mut tree_data: Vec<LevelEntry> = Vec::new();
        let mut size: u64 = 0;
        while size <= levels as u64
            invariant
                config.is_sound(),
                levels > 0,
                size <= levels + 1,
                leaf_width == config.spec_leaf_width(),
                trunk_width == config.spec_trunk_width(),
                leaf_mat == old(materials)@.len(),
                trunk_mat == old(materials)@.len() + 1,
                tree_data@.len() == size,
                meshes@ == old(meshes)@ + config.level_boxes(levels as int, size as int),
                forall|i: int|
                    0 <= i < size ==> #[trigger] tree_data@[i] == config.level_entry(
                        levels as int,
                        i,
                        old(meshes)@.len() as int,
                        old(materials)@.len() as int,
                    ),
            decreases levels + 1 - size,
        {
            let leaf_space: i64 = config.foliage_height(levels, size as u32);
            let leaf_mesh: usize = meshes.len();
            meshes.push(BoxShape { width: leaf_width, height: leaf_space, depth: leaf_width });
            let trunk_mesh: usize = meshes.len();
            meshes.push(BoxShape { width: trunk_width, height: TRUNK_HEIGHT, depth: trunk_width });
            let entry = LevelEntry {
                foliage: Descriptor {
                    mesh: leaf_mesh,
                    material: leaf_mat,
                    offset: TRUNK_HEIGHT + leaf_space / 2,
                },
                trunk: Descriptor {
                    mesh: trunk_mesh,
                    material: trunk_mat,
                    offset: TRUNK_HEIGHT / 2,
                },
            };
            tree_data.push(entry);
            proof {
                assert(entry == config.level_entry(
                    levels as int,
                    size as int,
                    old(meshes)@.len() as int,
                    old(materials)@.len() as int,
                ));
                assert(meshes@ =~= old(meshes)@ + config.level_boxes(
                    levels as int,
                    size + 1,
                ));
            }
            size = size + 1;
        }
        assert(tree_data@ =~= config.table(
            levels as int,
            old(meshes)@.len() as int,
            old(materials)@.len() as int,
        ));
        Ok(TreeBuilder { tree_data, levels })
    }

    /// Puts a tree of the size that `size` stands for on the tile at
    /// `(x, z)`: one placement is added to `commands`. `x`, `z` and `size` are
    /// scalars.
    ///
    /// A size above the table's largest is refused, by however little it is
    /// above, and `commands` is then left as it was: a size is never cut
    /// down to fit. Up to the largest, a size that is not whole stands for
    /// the size below it, and a size below zero for the size zero.
    pub fn build_tree_at(&self, x: i64, z: i64, size: i64, commands: &mut Vec<Placement>) -> (r:
        Result<(), TreeError>)
        ensures
            r is Ok <==> size <= self.spec_levels() * UNIT,
            r matches Err(e) ==> e == TreeError::InvalidLevel && final(commands)@ == old(
                commands,
            )@,
            r is Ok ==> final(commands)@ == old(commands)@.push(self.placement(x, z, size)),
    {
        proof {
            use_type_invariant(self);
        }
        if size as i128 > self.levels as i128 * 1_000_000 {
            return Err(TreeError::InvalidLevel);
        }
        proof {
            lemma_level_of_accepted(size as int, self.levels as int);
        }
        let level: u32 = level_of(size);
        let entry: LevelEntry = self.tree_data[level as usize];
        commands.push(
            Placement {
                tile: Tile { x, z },
                position: Position { x, y: 0, z },
                level,
                foliage: entry.foliage,
                trunk: entry.trunk,
            },
        );
        Ok(())
    }
}

/// Collects a shape and a number of sizes, and builds the table from them.
pub struct TreeBuilderBuilder {
    config: Config,
    /// The largest size of the table: it has one size more, the size zero.
    levels: u32,
}

impl TreeBuilderBuilder {
    /// The shape that the builder holds.
    pub closed spec fn spec_config(self) -> Config {
        self.config
    }

    /// The largest size that the builder holds.
    pub closed spec fn spec_levels(self) -> u32 {
        self.levels
    }

    /// A builder with the default shape and eight sizes above the smallest.
    pub fn new() -> (b: Self)
        ensures
            b.spec_config() == (Config {
                tile_width: 1_000_000,
                tile_height: 2_000_000,
                trunk_ratio: 200_000,
                leaf_padding_perc: 800_000,
            }),
            b.spec_levels() == 8,
    {
        Self { config: Config::default(), levels: 8 }
    }

    /// The same builder with another shape.
    pub fn with_config(self, config: Config) -> (b: Self)
        ensures
            b.spec_config() == config,
            b.spec_levels() == self.spec_levels(),
    {
        Self { config, levels: self.levels }
    }

    /// The same builder with another number of sizes.
    pub fn with_levels(self, levels: u32) -> (b: Self)
        ensures
            b.spec_config() == self.spec_config(),
            b.spec_levels() == levels,
    {
        Self { config: self.config, levels }
    }

    /// Builds the table, as `TreeBuilder::new` does with the builder's shape
    /// and number of sizes.
    pub fn build(self, meshes: &mut Vec<BoxShape>, materials: &mut Vec<Material>) -> (r: Result<
        TreeBuilder,
        TreeError,
    >)
        ensures
            r is Ok <==> self.spec_config().is_sound() && self.spec_levels() > 0,
            r matches Err(e) ==> {
                &&& e == TreeError::DegenerateConfig
                &&& final(meshes)@ == old(meshes)@
                &&& final(materials)@ == old(materials)@
            },
            r matches Ok(t) ==> {
                &&& t.is_table_of(
                    self.spec_config(),
                    self.spec_levels(),
                    old(meshes)@.len() as int,
                    old(materials)@.len() as int,
                )
                &&& final(materials)@ == old(materials)@.push(spec_leaf_material()).push(
                    spec_trunk_material(),
                )
                &&& final(meshes)@ == old(meshes)@ + self.spec_config().level_boxes(
                    self.spec_levels() as int,
                    self.spec_levels() + 1,
                )
            },
    {
        TreeBuilder::new(meshes, materials, self.config, self.levels)
    }
}

/// A size that is not above the largest of a table stands for one of the
/// table's sizes.
pub proof fn lemma_level_of_accepted(size: int, levels: int)
    requires
        0 <= levels <= u32::MAX,
        size <= levels * UNIT,
    ensures
        0 <= spec_level_of(size) <= levels,
{
    assert(size > 0 ==> 0 <= size / 1_000_000 <= levels) by (nonlinear_arith)
        requires
            0 <= levels,
            size <= levels * 1_000_000,
    ;
}

/// A whole size stands for itself.
pub proof fn lemma_level_of_whole(level: int)
    requires
        0 <= level <= u32::MAX,
    ensures
        spec_level_of(level * UNIT) == level,
{
    assert(level * 1_000_000 / 1_000_000 == level) by (nonlinear_arith);
    assert(level > 0 ==> level * 1_000_000 > 0) by (nonlinear_arith);
}

/// Foliage grows with the size: where the room above the trunk is at least
/// as tall as the foliage is wide, a larger size never has lower foliage.
pub proof fn lemma_foliage_height_grows(config: Config, levels: int, i: int, j: int)
    requires
        0 < levels,
        i <= j,
        config.spec_leaf_width() <= config.tile_height - TRUNK_HEIGHT,
    ensures
        config.spec_foliage_height(levels, i) <= config.spec_foliage_height(levels, j),
{
    let span = config.tile_height - TRUNK_HEIGHT - config.spec_leaf_width();
    assert(span * i / levels <= span * j / levels) by (nonlinear_arith)
        requires
            0 <= span,
            i <= j,
            0 < levels,
    ;
}

/// No foliage is flat: with a sound shape the foliage of every size of the
/// table lies between the smallest and the largest, and is taller than
/// nothing.
pub proof fn lemma_foliage_height_between(config: Config, levels: int, level: int)
    requires
        config.is_sound(),
        0 < levels,
        0 <= level <= levels,
    ensures
        0 < config.spec_foliage_height(levels, level),
        config.spec_leaf_width() <= config.tile_height - TRUNK_HEIGHT ==> config.spec_leaf_width()
            <= config.spec_foliage_height(levels, level) <= config.tile_height - TRUNK_HEIGHT,
        config.spec_leaf_width() >= config.tile_height - TRUNK_HEIGHT ==> config.spec_leaf_width()
            >= config.spec_foliage_height(levels, level) >= config.tile_height - TRUNK_HEIGHT,
{
    let span = config.tile_height - TRUNK_HEIGHT - config.spec_leaf_width();
    lemma_step_bounds(span, level, levels);
}

/// Trees of one size share their boxes: two placements from one table that
/// stand for the same size hold the same foliage and the same trunk,
/// wherever they are put.
pub proof fn lemma_same_level_same_boxes(
    table: Seq<LevelEntry>,
    x: i64,
    z: i64,
    size: i64,
    other_x: i64,
    other_z: i64,
    other_size: i64,
)
    requires
        spec_level_of(size as int) == spec_level_of(other_size as int),
    ensures
        placement_of(table, x, z, size).foliage == placement_of(
            table,
            other_x,
            other_z,
            other_size,
        ).foliage,
        placement_of(table, x, z, size).trunk == placement_of(
            table,
            other_x,
            other_z,
            other_size,
        ).trunk,
        placement_of(table, x, z, size).level == placement_of(
            table,
            other_x,
            other_z,
            other_size,
        ).level,
{
}

/// The smallest foliage is as tall as it is wide, and the largest fills all
/// the room above the trunk.
pub proof fn lemma_foliage_height_ends(config: Config, levels: int)
    requires
        0 < levels,
    ensures
        config.spec_foliage_height(levels, 0) == config.spec_leaf_width(),
        config.spec_foliage_height(levels, levels) == config.tile_height - TRUNK_HEIGHT,
{
    let span = config.tile_height - TRUNK_HEIGHT - config.spec_leaf_width();
    lemma_step_bounds(span, 0, levels);
    lemma_step_bounds(span, levels, levels);
}

/// A step of the way from nothing to `span` lies between the two.
pub proof fn lemma_step_bounds(span: int, level: int, levels: int)
    requires
        0 <= level <= levels,
        0 < levels,
    ensures
        span >= 0 ==> 0 <= span * level / levels <= span,
        span <= 0 ==> span <= span * level / levels <= 0,
        level == 0 ==> span * level / levels == 0,
        level == levels ==> span * level / levels == span,
{
    assert(span >= 0 ==> 0 <= span * level / levels <= span) by (nonlinear_arith)
        requires
            0 <= level <= levels,
            0 < levels,
    ;
    assert(span <= 0 ==> span <= span * level / levels <= 0) by (nonlinear_arith)
        requires
            0 <= level <= levels,
            0 < levels,
    ;
    assert(level == 0 ==> span * level / levels == 0) by (nonlinear_arith)
        requires
            0 < levels,
    ;
    assert(level == levels ==> span * level / levels == span) by (nonlinear_arith)
        requires
            0 < levels,
    ;
}

} // verus!
