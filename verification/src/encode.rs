use vstd::prelude::*;
use brdb::{BString, BrickSize, BrickType, Collision, Position};
use crate::brick::Brick;
use crate::error::ConvertError;
use crate::options::{Asset, GenOptions, spec_options_valid};

verus! {

/// One brick laid out in game units, ready for the save container: the
/// asset and material identifiers, the center position, the half extents,
/// the color (the alpha channel only ever drove culling and is dropped
/// here), the collision flag and the material intensity.
#[derive(Debug, Clone)]
pub struct EncBrick {
    pub asset: String,
    pub material: String,
    pub intensity: u8,
    pub cx: i32,
    pub cy: i32,
    pub cz: i32,
    pub hx: u16,
    pub hy: u16,
    pub hz: u16,
    pub red: u8,
    pub green: u8,
    pub blue: u8,
    pub collision: bool,
}

/// The concrete asset identifier of each brick family: a closed,
/// exhaustive table.
pub open spec fn spec_asset_name(a: Asset) -> Seq<char> {
    match a {
        Asset::Default => "PB_DefaultBrick"@,
        Asset::Tile => "PB_DefaultTile"@,
        Asset::SmoothTile => "PB_DefaultSmoothTile"@,
        Asset::Stud => "PB_DefaultStudded"@,
        Asset::Micro => "PB_DefaultMicroBrick"@,
    }
}

/// The concrete asset identifier of one brick family; see
/// [`spec_asset_name`].
pub fn asset_name(a: Asset) -> (r: String)
    ensures
        r@ == spec_asset_name(a),
{
    match a {
        Asset::Default => "PB_DefaultBrick".to_owned(),
        Asset::Tile => "PB_DefaultTile".to_owned(),
        Asset::SmoothTile => "PB_DefaultSmoothTile".to_owned(),
        Asset::Stud => "PB_DefaultStudded".to_owned(),
        Asset::Micro => "PB_DefaultMicroBrick".to_owned(),
    }
}

/// The material a brick is recorded with: the glow material at the brick's
/// emission level when it emits, plain plastic at the default intensity
/// otherwise.
pub open spec fn spec_material_name(emission: u8) -> Seq<char> {
    if emission > 0 {
        "BMC_Glow"@
    } else {
        "BMC_Plastic"@
    }
}

/// The recorded material intensity; plastic keeps the game's default
/// level.
pub open spec fn spec_material_intensity(emission: u8) -> u8 {
    if emission > 0 {
        emission
    } else {
        5
    }
}

/// The vertical half extent of one vertical unit in game units: micro
/// bricks use the fine 1-unit voxel, every stud-based family the 2-unit
/// plate height.
pub open spec fn spec_vunit(o: GenOptions) -> int {
    if o.micro {
        1
    } else {
        2
    }
}

/// Game-unit geometry of a brick: a cell spans `2 * size` units, so a
/// footprint of `dx` cells has half extent `dx * size` and its center
/// sits at `size * (2*x + dx)`; the vertical axis scales the same way by
/// the vertical unit.
pub open spec fn spec_enc_hx(b: Brick, o: GenOptions) -> int {
    b.dx * o.size
}

pub open spec fn spec_enc_hy(b: Brick, o: GenOptions) -> int {
    b.dy * o.size
}

pub open spec fn spec_enc_hz(b: Brick, o: GenOptions) -> int {
    b.dz * spec_vunit(o)
}

pub open spec fn spec_enc_cx(b: Brick, o: GenOptions) -> int {
    o.size * (2 * b.x + b.dx)
}

pub open spec fn spec_enc_cy(b: Brick, o: GenOptions) -> int {
    o.size * (2 * b.y + b.dy)
}

pub open spec fn spec_enc_cz(b: Brick, o: GenOptions) -> int {
    spec_vunit(o) * (2 * b.z + b.dz)
}

/// A brick's game-unit geometry fits the save container's fields: half
/// extents in 16 bits, centers in 32.
pub open spec fn spec_enc_fits(b: Brick, o: GenOptions) -> bool {
    &&& spec_enc_hx(b, o) <= u16::MAX
    &&& spec_enc_hy(b, o) <= u16::MAX
    &&& spec_enc_hz(b, o) <= u16::MAX
    &&& spec_enc_cx(b, o) <= i32::MAX
    &&& spec_enc_cy(b, o) <= i32::MAX
    &&& spec_enc_cz(b, o) <= i32::MAX
}

impl EncBrick {
    /// The laid-out form of `b` matches this record field for field.
    pub open spec fn matches(&self, b: Brick, o: GenOptions) -> bool {
        &&& self.asset@ == spec_asset_name(b.asset)
        &&& self.material@ == spec_material_name(b.emission)
        &&& self.intensity == spec_material_intensity(b.emission)
        &&& self.cx == spec_enc_cx(b, o)
        &&& self.cy == spec_enc_cy(b, o)
        &&& self.cz == spec_enc_cz(b, o)
        &&& self.hx == spec_enc_hx(b, o)
        &&& self.hy == spec_enc_hy(b, o)
        &&& self.hz == spec_enc_hz(b, o)
        &&& self.red == b.color.r
        &&& self.green == b.color.g
        &&& self.blue == b.color.b
        &&& self.collision == b.collision
    }
}

/// Lays one brick out in game units; fails with the encode error exactly
/// when the geometry overflows the container's fields.
pub fn layout_brick(b: &Brick, o: &GenOptions) -> (r: Result<EncBrick, ConvertError>)
    requires
        spec_options_valid(*o),
        b.wf(),
    ensures
        (r is Ok) == spec_enc_fits(*b, *o),
        r is Ok ==> r->Ok_0.matches(*b, *o),
        r is Err ==> r->Err_0 is Encode,
{
    let size: u64 = o.size as u64;
    let vunit: u64 = if o.micro {
        1
    } else {
        2
    };
    proof {
        vstd::arithmetic::mul::lemma_mul_upper_bound(b.dx as int, 0xFFFF_FFFF, size as int, 500);
        vstd::arithmetic::mul::lemma_mul_upper_bound(b.dy as int, 0xFFFF_FFFF, size as int, 500);
        vstd::arithmetic::mul::lemma_mul_upper_bound(b.dz as int, 0xFFFF_FFFF, vunit as int, 2);
        vstd::arithmetic::mul::lemma_mul_upper_bound(
            size as int,
            500,
            2 * (b.x as int) + (b.dx as int),
            0x3_0000_0000,
        );
        vstd::arithmetic::mul::lemma_mul_upper_bound(
            size as int,
            500,
            2 * (b.y as int) + (b.dy as int),
            0x3_0000_0000,
        );
        vstd::arithmetic::mul::lemma_mul_upper_bound(
            vunit as int,
            2,
            2 * (b.z as int) + (b.dz as int),
            0x3_0000_0000,
        );
    }
    let hx: u64 = (b.dx as u64) * size;
    let hy: u64 = (b.dy as u64) * size;
    let hz: u64 = (b.dz as u64) * vunit;
    let cx: u64 = size * (2 * (b.x as u64) + (b.dx as u64));
    let cy: u64 = size * (2 * (b.y as u64) + (b.dy as u64));
    let cz: u64 = vunit * (2 * (b.z as u64) + (b.dz as u64));
    if hx > 0xFFFF || hy > 0xFFFF || hz > 0xFFFF || cx > 0x7FFF_FFFF || cy > 0x7FFF_FFFF || cz
        > 0x7FFF_FFFF {
        return Err(ConvertError::Encode("brick geometry exceeds the container range".to_owned()));
    }
    Ok(
        EncBrick {
            asset: asset_name(b.asset),
            material: if b.emission > 0 {
                "BMC_Glow".to_owned()
            } else {
                "BMC_Plastic".to_owned()
            },
            intensity: if b.emission > 0 {
                b.emission
            } else {
                5
            },
            cx: cx as i32,
            cy: cy as i32,
            cz: cz as i32,
            hx: hx as u16,
            hy: hy as u16,
            hz: hz as u16,
            red: b.color.r,
            green: b.color.g,
            blue: b.color.b,
            collision: b.collision,
        },
    )
}


/// One laid-out placement as pure data: the views of the identifier
/// strings together with the numeric geometry, color and flags. This is
/// the record the serialization contracts speak of, so that what a save
/// container holds is a sequence of plain values.
pub struct Placement {
    pub asset: Seq<char>,
    pub material: Seq<char>,
    pub intensity: u8,
    pub cx: int,
    pub cy: int,
    pub cz: int,
    pub hx: int,
    pub hy: int,
    pub hz: int,
    pub red: u8,
    pub green: u8,
    pub blue: u8,
    pub collision: bool,
}

/// The placement data an executable layout record carries.
pub open spec fn spec_placement_of(e: EncBrick) -> Placement {
    Placement {
        asset: e.asset@,
        material: e.material@,
        intensity: e.intensity,
        cx: e.cx as int,
        cy: e.cy as int,
        cz: e.cz as int,
        hx: e.hx as int,
        hy: e.hy as int,
        hz: e.hz as int,
        red: e.red,
        green: e.green,
        blue: e.blue,
        collision: e.collision,
    }
}

/// The placement a brick lays out to under the given options; meaningful
/// when the brick fits (see [`spec_enc_fits`]).
pub open spec fn spec_placement(b: Brick, o: GenOptions) -> Placement {
    Placement {
        asset: spec_asset_name(b.asset),
        material: spec_material_name(b.emission),
        intensity: spec_material_intensity(b.emission),
        cx: spec_enc_cx(b, o),
        cy: spec_enc_cy(b, o),
        cz: spec_enc_cz(b, o),
        hx: spec_enc_hx(b, o),
        hy: spec_enc_hy(b, o),
        hz: spec_enc_hz(b, o),
        red: b.color.r,
        green: b.color.g,
        blue: b.color.b,
        collision: b.collision,
    }
}

/// The whole brick sequence laid out in order.
pub open spec fn spec_layout(bricks: Seq<Brick>, o: GenOptions) -> Seq<Placement> {
    bricks.map_values(|b: Brick| spec_placement(b, o))
}

/// Every brick's game-unit geometry fits the container's fields.
pub open spec fn spec_all_fit(bricks: Seq<Brick>, o: GenOptions) -> bool {
    forall|k: int| 0 <= k < bricks.len() ==> spec_enc_fits(#[trigger] bricks[k], o)
}

/// The save container the placements are assembled into, from the save
/// format's own library; opaque here, reached only through the trusted
/// wrappers below.
#[verifier::external_type_specification]
#[verifier::external_body]
pub struct ExWorld(brdb::World);

/// The placements a save container holds, in insertion order.
pub uninterp spec fn world_bricks(w: brdb::World) -> Seq<Placement>;

/// What serializing a placement sequence into the compact container
/// yields: `None` when the container library rejects the world, else the
/// exact output bytes. For the worlds this library builds, serialization
/// depends on the placements alone, so its result is named rather than
/// spelled out.
pub uninterp spec fn brz_of(ps: Seq<Placement>) -> Option<Seq<u8>>;

/// Relies on brdb's World::new: the default world starts with no bricks
/// on the main grid.
#[verifier::external_body]
fn world_new() -> (w: brdb::World)
    ensures
        world_bricks(w) == Seq::<Placement>::empty(),
{
    brdb::World::new()
}

/// Relies on Vec::push through brdb's public World.bricks field: adding
/// one brick appends exactly that placement and touches nothing else.
#[verifier::external_body]
fn world_add_brick(w: &mut brdb::World, e: &EncBrick)
    ensures
        world_bricks(*final(w)) == world_bricks(*old(w)).push(spec_placement_of(*e)),
{
    let mut b = brdb::Brick::default();
    let c = e.collision;
    b.asset = BrickType::Procedural {
        asset: BString::from(e.asset.clone()),
        size: BrickSize { x: e.hx, y: e.hy, z: e.hz },
    };
    b.position = Position { x: e.cx, y: e.cy, z: e.cz };
    b.collision = Collision {
        player: c, player1: None, player2: None, player3: None,
        weapon: c, interact: c, tool: c, physics: c,
    };
    b.color = brdb::Color { r: e.red, g: e.green, b: e.blue };
    b.material = BString::from(e.material.clone());
    b.material_intensity = e.intensity;
    w.bricks.push(b);
}

/// Relies on brdb's World::to_brz_vec: serializes the world into the
/// compact container format in memory, succeeding or failing and
/// producing bytes as a function of the world's content alone (the brz
/// path reads no clock and compresses at a fixed level, emitting blocks
/// in input order); the error is carried as text.
#[verifier::external_body]
fn world_to_brz(w: &brdb::World) -> (r: Result<Vec<u8>, String>)
    ensures
        (r is Ok) == (brz_of(world_bricks(*w)) is Some),
        r is Ok ==> r->Ok_0@ == brz_of(world_bricks(*w))->Some_0,
{
    w.to_brz_vec().map_err(|e| format!("{e}"))
}

/// Assembles the brick sequence into an in-memory save container holding
/// exactly the laid-out placements, in order. Fails with the encode
/// error exactly when some brick's geometry overflows the container's
/// fields.
pub fn build_world(bricks: &Vec<Brick>, o: &GenOptions) -> (r: Result<brdb::World, ConvertError>)
    requires
        spec_options_valid(*o),
        forall|k: int| 0 <= k < bricks@.len() ==> (#[trigger] bricks@[k]).wf(),
    ensures
        (r is Ok) == spec_all_fit(bricks@, *o),
        r is Ok ==> world_bricks(r->Ok_0) == spec_layout(bricks@, *o),
        r is Err ==> r->Err_0 is Encode,
{
    let mut w: brdb::World = world_new();
    let n: usize = bricks.len();
    let mut i: usize = 0;
    while i < n
        invariant
            i <= n,
            n == bricks@.len(),
            spec_options_valid(*o),
            forall|k: int| 0 <= k < bricks@.len() ==> (#[trigger] bricks@[k]).wf(),
            world_bricks(w).len() == i,
            forall|k: int|
                0 <= k < i ==> #[trigger] world_bricks(w)[k] == spec_placement(bricks@[k], *o),
            forall|k: int| 0 <= k < i ==> spec_enc_fits(#[trigger] bricks@[k], *o),
        decreases n - i,
    {
        let ghost prev = world_bricks(w);
        match layout_brick(&bricks[i], o) {
            Ok(e) => {
                proof {
                    assert(spec_placement_of(e) == spec_placement(bricks@[i as int], *o));
                }
                world_add_brick(&mut w, &e);
                proof {
                    assert(world_bricks(w) == prev.push(spec_placement_of(e)));
                    assert forall|k: int|
                        0 <= k < i + 1 implies #[trigger] world_bricks(w)[k] == spec_placement(
                        bricks@[k],
                        *o,
                    ) by {
                        if k < i {
                            assert(world_bricks(w)[k] == prev[k]);
                        }
                    }
                }
            }
            Err(e) => {
                return Err(e);
            }
        }
        i = i + 1;
    }
    proof {
        assert(world_bricks(w) =~= spec_layout(bricks@, *o));
    }
    Ok(w)
}

/// Serializes the brick sequence into the compact container format in
/// memory: it succeeds exactly when every brick's geometry fits the
/// container's fields and the container library accepts the laid-out
/// placements, and then returns exactly the named serialization of that
/// layout; every failure is the encode error.
pub fn to_compressed_bytes(bricks: &Vec<Brick>, o: &GenOptions) -> (r: Result<
    Vec<u8>,
    ConvertError,
>)
    requires
        spec_options_valid(*o),
        forall|k: int| 0 <= k < bricks@.len() ==> (#[trigger] bricks@[k]).wf(),
    ensures
        (r is Ok) == (spec_all_fit(bricks@, *o) && brz_of(spec_layout(bricks@, *o)) is Some),
        r is Ok ==> r->Ok_0@ == brz_of(spec_layout(bricks@, *o))->Some_0,
        r is Err ==> r->Err_0 is Encode,
{
    let w: brdb::World = match build_world(bricks, o) {
        Ok(w) => w,
        Err(e) => {
            return Err(e);
        }
    };
    match world_to_brz(&w) {
        Ok(bytes) => Ok(bytes),
        Err(msg) => Err(ConvertError::Encode(msg)),
    }
}

} // verus!
