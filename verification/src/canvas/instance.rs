//! The instanced grid of the canvas: where its instances stand, how the
//! arrow keys and Q/E change the input state, which rotations a frame
//! applies, and the layout of the instance buffer.
use vstd::prelude::*;

verus! {

/// Instances per row (and rows) of the grid.
pub const NUM_INSTANCES_PER_ROW: u32 = 100;

/// The grid's centre, half a row from its first instance; the row length is
/// even, so the centre is an instance.
pub const GRID_CENTRE: i32 = 50;

/// The largest speed in either direction.  The speed is a 32-bit float in
/// steps of one: at 2^24 a step no longer changes it.
pub const SPEED_LIMIT: i32 = 16777216;

/// Bytes of one `Float32x4` vertex attribute: four 32-bit floats.
pub const FLOAT32X4_SIZE: u64 = 16;

/// The first shader location of the instance attributes.
pub const FIRST_INSTANCE_LOCATION: u32 = 5;

/// Attributes per instance: the four columns of its model matrix.
pub const INSTANCE_ATTRIBUTES: usize = 4;

/// The keys the instance controller reads.
#[derive(PartialEq, Eq, Structural, Clone, Copy, Debug)]
pub enum KeyCode {
    ArrowUp,
    ArrowLeft,
    ArrowDown,
    ArrowRight,
    KeyQ,
    KeyE,
    /// Any other key.
    Other,
}

/// Where one instance of the grid stands, relative to the grid's centre,
/// and whether it is tilted (every instance but the one at the centre).
#[derive(PartialEq, Eq, Structural, Clone, Copy, Debug)]
pub struct InstancePlacement {
    pub x: i32,
    pub z: i32,
    pub tilted: bool,
}

/// The placement of the instance at index `k` of the grid: rows run along
/// `z`, instances within a row along `x`.
pub open spec fn placement_at(k: int) -> InstancePlacement {
    let n = NUM_INSTANCES_PER_ROW as int;
    let x = k % n - GRID_CENTRE;
    let z = k / n - GRID_CENTRE;
    InstancePlacement { x: x as i32, z: z as i32, tilted: !(x == 0 && z == 0) }
}

/// The placements of the whole grid, row after row.
pub fn instance_grid() -> (grid: Vec<InstancePlacement>)
    ensures
        grid@.len() == NUM_INSTANCES_PER_ROW * NUM_INSTANCES_PER_ROW,
        forall|k: int| 0 <= k < grid@.len() ==> #[trigger] grid@[k] == placement_at(k),
{
    let mut grid: Vec<InstancePlacement> = Vec::new();
    let mut z: u32 = 0;
    while z < NUM_INSTANCES_PER_ROW
        invariant
            z <= NUM_INSTANCES_PER_ROW,
            grid@.len() == z * NUM_INSTANCES_PER_ROW,
            forall|k: int| 0 <= k < grid@.len() ==> #[trigger] grid@[k] == placement_at(k),
        decreases NUM_INSTANCES_PER_ROW - z,
    {
        let mut x: u32 = 0;
        while x < NUM_INSTANCES_PER_ROW
            invariant
                z < NUM_INSTANCES_PER_ROW,
                x <= NUM_INSTANCES_PER_ROW,
                grid@.len() == z * NUM_INSTANCES_PER_ROW + x,
                forall|k: int| 0 <= k < grid@.len() ==> #[trigger] grid@[k] == placement_at(k),
            decreases NUM_INSTANCES_PER_ROW - x,
        {
            let px = x as i32 - GRID_CENTRE;
            let pz = z as i32 - GRID_CENTRE;
            let ghost k = grid@.len() as int;
            assert(k % 100 == x && k / 100 == z) by (nonlinear_arith)
                requires
                    k == z * 100 + x,
                    0 <= x < 100,
                    0 <= z,
            ;
            grid.push(InstancePlacement { x: px, z: pz, tilted: !(px == 0 && pz == 0) });
            x = x + 1;
        }
        z = z + 1;
    }
    grid
}

/// An axis an instance turns about.
#[derive(PartialEq, Eq, Structural, Clone, Copy, Debug)]
pub enum Axis {
    X,
    Y,
}

/// One turn of every instance about `axis`, by the speed's angle where
/// `positive`, else by its negation.
#[derive(PartialEq, Eq, Structural, Clone, Copy, Debug)]
pub struct Rotation {
    pub axis: Axis,
    pub positive: bool,
}

/// The input state in mathematical terms.
pub struct InputView {
    pub forward: bool,
    pub backward: bool,
    pub left: bool,
    pub right: bool,
    pub speed: int,
}

/// The input state after `code` was pressed (`pressed`) or released.
pub open spec fn after_key(v: InputView, code: KeyCode, pressed: bool) -> InputView {
    match code {
        KeyCode::ArrowUp => InputView { forward: pressed, ..v },
        KeyCode::ArrowLeft => InputView { left: pressed, ..v },
        KeyCode::ArrowDown => InputView { backward: pressed, ..v },
        KeyCode::ArrowRight => InputView { right: pressed, ..v },
        KeyCode::KeyQ => InputView {
            speed: if v.speed > -SPEED_LIMIT {
                v.speed - 1
            } else {
                v.speed
            },
            ..v
        },
        KeyCode::KeyE => InputView {
            speed: if v.speed < SPEED_LIMIT {
                v.speed + 1
            } else {
                v.speed
            },
            ..v
        },
        KeyCode::Other => v,
    }
}

/// Whether the controller reacts to `code`.
pub open spec fn handles_key(code: KeyCode) -> bool {
    code != KeyCode::Other
}

/// The rotations of one frame: about X for up (positive) and down
/// (negative), then about Y for left (negative) and right (positive), for
/// each key that is held.
pub open spec fn rotations_for(v: InputView) -> Seq<Rotation> {
    let a = if v.forward {
        seq![Rotation { axis: Axis::X, positive: true }]
    } else {
        Seq::empty()
    };
    let b = if v.backward {
        seq![Rotation { axis: Axis::X, positive: false }]
    } else {
        Seq::empty()
    };
    let c = if v.left {
        seq![Rotation { axis: Axis::Y, positive: false }]
    } else {
        Seq::empty()
    };
    let d = if v.right {
        seq![Rotation { axis: Axis::Y, positive: true }]
    } else {
        Seq::empty()
    };
    a + b + c + d
}

/// Which direction keys are held, and the rotation speed.
pub struct InstanceController {
    is_forward_pressed: bool,
    is_backward_pressed: bool,
    is_left_pressed: bool,
    is_right_pressed: bool,
    speed: i32,
}

impl InstanceController {
    #[verifier::type_invariant]
    spec fn speed_in_range(self) -> bool {
        -SPEED_LIMIT <= self.speed <= SPEED_LIMIT
    }

    /// The state in mathematical terms.
    pub closed spec fn view(&self) -> InputView {
        InputView {
            forward: self.is_forward_pressed,
            backward: self.is_backward_pressed,
            left: self.is_left_pressed,
            right: self.is_right_pressed,
            speed: self.speed as int,
        }
    }

    /// No key held, speed one.
    pub fn new() -> (c: Self)
        ensures
            c.view() == (InputView {
                forward: false,
                backward: false,
                left: false,
                right: false,
                speed: 1,
            }),
    {
        InstanceController {
            is_forward_pressed: false,
            is_backward_pressed: false,
            is_left_pressed: false,
            is_right_pressed: false,
            speed: 1,
        }
    }

    /// Takes a key press (`is_pressed`) or release: the arrows hold or let
    /// go of a direction, Q lowers and E raises the speed by one (on a press
    /// or a release alike); `true` when the key is one of these.
    pub fn handle_key(&mut self, code: KeyCode, is_pressed: bool) -> (handled: bool)
        ensures
            handled == handles_key(code),
            final(self).view() == after_key(old(self).view(), code, is_pressed),
            -SPEED_LIMIT <= final(self).view().speed <= SPEED_LIMIT,
    {
        proof {
            use_type_invariant(&*self);
        }
        match code {
            KeyCode::ArrowUp => {
                self.is_forward_pressed = is_pressed;
                true
            },
            KeyCode::ArrowLeft => {
                self.is_left_pressed = is_pressed;
                true
            },
            KeyCode::ArrowDown => {
                self.is_backward_pressed = is_pressed;
                true
            },
            KeyCode::ArrowRight => {
                self.is_right_pressed = is_pressed;
                true
            },
            KeyCode::KeyQ => {
                if self.speed > -SPEED_LIMIT {
                    self.speed = self.speed - 1;
                }
                true
            },
            KeyCode::KeyE => {
                if self.speed < SPEED_LIMIT {
                    self.speed = self.speed + 1;
                }
                true
            },
            KeyCode::Other => false,
        }
    }

    /// The rotations one frame applies to every instance, in order.
    pub fn rotation_plan(&self) -> (plan: Vec<Rotation>)
        ensures
            plan@ == rotations_for(self.view()),
    {
        let mut plan: Vec<Rotation> = Vec::new();
        if self.is_forward_pressed {
            plan.push(Rotation { axis: Axis::X, positive: true });
        }
        if self.is_backward_pressed {
            plan.push(Rotation { axis: Axis::X, positive: false });
        }
        if self.is_left_pressed {
            plan.push(Rotation { axis: Axis::Y, positive: false });
        }
        if self.is_right_pressed {
            plan.push(Rotation { axis: Axis::Y, positive: true });
        }
        assert(plan@ =~= rotations_for(self.view()));
        plan
    }

    /// The rotation speed, in tenths of a degree per frame.
    pub fn speed(&self) -> (s: i32)
        ensures
            s == self.view().speed,
            -SPEED_LIMIT <= s <= SPEED_LIMIT,
    {
        proof {
            use_type_invariant(self);
        }
        self.speed
    }

    /// Whether the up arrow is held.
    pub fn is_forward_pressed(&self) -> (b: bool)
        ensures
            b == self.view().forward,
    {
        self.is_forward_pressed
    }

    /// Whether the down arrow is held.
    pub fn is_backward_pressed(&self) -> (b: bool)
        ensures
            b == self.view().backward,
    {
        self.is_backward_pressed
    }

    /// Whether the left arrow is held.
    pub fn is_left_pressed(&self) -> (b: bool)
        ensures
            b == self.view().left,
    {
        self.is_left_pressed
    }

    /// Whether the right arrow is held.
    pub fn is_right_pressed(&self) -> (b: bool)
        ensures
            b == self.view().right,
    {
        self.is_right_pressed
    }
}

/// The format of an instance attribute.
#[derive(PartialEq, Eq, Structural, Clone, Copy, Debug)]
pub enum VertexFormat {
    /// Four 32-bit floats.
    Float32x4,
}

/// How often a buffer advances: per vertex or per instance.
#[derive(PartialEq, Eq, Structural, Clone, Copy, Debug)]
pub enum VertexStepMode {
    Vertex,
    Instance,
}

/// One attribute of a vertex buffer.
#[derive(PartialEq, Eq, Structural, Clone, Copy, Debug)]
pub struct VertexAttributeLayout {
    pub offset: u64,
    pub shader_location: u32,
    pub format: VertexFormat,
}

/// The layout of a vertex buffer.
pub struct InstanceBufferLayout {
    pub array_stride: u64,
    pub step_mode: VertexStepMode,
    pub attributes: Vec<VertexAttributeLayout>,
}

/// Attribute `i` of the instance buffer: column `i` of the model matrix.
pub open spec fn instance_attribute(i: int) -> VertexAttributeLayout {
    VertexAttributeLayout {
        offset: (i * FLOAT32X4_SIZE) as u64,
        shader_location: (FIRST_INSTANCE_LOCATION + i) as u32,
        format: VertexFormat::Float32x4,
    }
}

/// The layout of the instance buffer: one model matrix of four `Float32x4`
/// columns per instance, at shader locations 5 to 8.
pub fn instance_raw_layout() -> (layout: InstanceBufferLayout)
    ensures
        layout.array_stride == INSTANCE_ATTRIBUTES * FLOAT32X4_SIZE,
        layout.step_mode == VertexStepMode::Instance,
        layout.attributes@.len() == INSTANCE_ATTRIBUTES,
        forall|i: int|
            0 <= i < INSTANCE_ATTRIBUTES ==> #[trigger] layout.attributes@[i]
                == instance_attribute(i),
{
    let mut attributes: Vec<VertexAttributeLayout> = Vec::new();
    let mut i: usize = 0;
    while i < INSTANCE_ATTRIBUTES
        invariant
            i <= INSTANCE_ATTRIBUTES,
            attributes@.len() == i,
            forall|j: int| 0 <= j < i ==> #[trigger] attributes@[j] == instance_attribute(j),
        decreases INSTANCE_ATTRIBUTES - i,
    {
        attributes.push(
            VertexAttributeLayout {
                offset: i as u64 * FLOAT32X4_SIZE,
                shader_location: FIRST_INSTANCE_LOCATION + i as u32,
                format: VertexFormat::Float32x4,
            },
        );
        i = i + 1;
    }
    InstanceBufferLayout {
        array_stride: INSTANCE_ATTRIBUTES as u64 * FLOAT32X4_SIZE,
        step_mode: VertexStepMode::Instance,
        attributes,
    }
}

/// The instance attributes tile the stride: the first starts at 0, each
/// starts where the one before it ends, the last ends at the stride, and
/// their shader locations are consecutive.
pub proof fn lemma_instance_attributes_tile()
    ensures
        instance_attribute(0).offset == 0,
        forall|i: int|
            0 <= i < INSTANCE_ATTRIBUTES - 1 ==> #[trigger] instance_attribute(i + 1).offset
                == instance_attribute(i).offset + FLOAT32X4_SIZE && instance_attribute(
                i + 1,
            ).shader_location == instance_attribute(i).shader_location + 1,
        instance_attribute(INSTANCE_ATTRIBUTES - 1).offset + FLOAT32X4_SIZE == INSTANCE_ATTRIBUTES
            * FLOAT32X4_SIZE,
{
}

/// Keys other than the six leave the input state as it is.
pub proof fn lemma_other_key_ignored(v: InputView, pressed: bool)
    ensures
        after_key(v, KeyCode::Other, pressed) == v,
        !handles_key(KeyCode::Other),
{
}

/// Q undoes E and E undoes Q, away from the speed limits.
pub proof fn lemma_speed_keys_undo(v: InputView, p: bool, q: bool)
    requires
        -SPEED_LIMIT <= v.speed <= SPEED_LIMIT,
    ensures
        v.speed > -SPEED_LIMIT ==> after_key(after_key(v, KeyCode::KeyQ, p), KeyCode::KeyE, q)
            == v,
        v.speed < SPEED_LIMIT ==> after_key(after_key(v, KeyCode::KeyE, p), KeyCode::KeyQ, q)
            == v,
{
}

/// Releasing an arrow after pressing it restores the state from before the
/// press, where the arrow was not held then.
pub proof fn lemma_press_release(v: InputView, code: KeyCode)
    requires
        code == KeyCode::ArrowUp ==> !v.forward,
        code == KeyCode::ArrowDown ==> !v.backward,
        code == KeyCode::ArrowLeft ==> !v.left,
        code == KeyCode::ArrowRight ==> !v.right,
        code != KeyCode::KeyQ,
        code != KeyCode::KeyE,
    ensures
        after_key(after_key(v, code, true), code, false) == v,
{
}

/// A frame turns the instances once for each arrow held, and not at all
/// when none is.
pub proof fn lemma_one_rotation_per_held_key(v: InputView)
    ensures
        rotations_for(v).len() == (if v.forward {
            1int
        } else {
            0
        }) + (if v.backward {
            1int
        } else {
            0
        }) + (if v.left {
            1int
        } else {
            0
        }) + (if v.right {
            1int
        } else {
            0
        }),
{
}

/// The grid holds each position once, and only the instance at its centre
/// stands untilted.
pub proof fn lemma_grid_positions(j: int, k: int)
    requires
        0 <= j < NUM_INSTANCES_PER_ROW * NUM_INSTANCES_PER_ROW,
        0 <= k < NUM_INSTANCES_PER_ROW * NUM_INSTANCES_PER_ROW,
    ensures
        j != k ==> placement_at(j) != placement_at(k),
        !placement_at(k).tilted <==> k == GRID_CENTRE * NUM_INSTANCES_PER_ROW + GRID_CENTRE,
{
    let n = NUM_INSTANCES_PER_ROW as int;
    assert(j == (j / n) * n + j % n && 0 <= j % n < n) by (nonlinear_arith)
        requires
            n == 100,
            0 <= j,
    ;
    assert(k == (k / n) * n + k % n && 0 <= k % n < n && 0 <= k / n < n) by (nonlinear_arith)
        requires
            n == 100,
            0 <= k < 10000,
    ;
    assert(0 <= j / n < n) by (nonlinear_arith)
        requires
            n == 100,
            0 <= j < 10000,
    ;
}

/// Each arrow key sets its own direction to whether it is pressed, whatever
/// that direction was before, and leaves the other directions and the
/// speed as they were.
pub proof fn lemma_arrow_sets_direction(v: InputView, pressed: bool)
    ensures
        after_key(v, KeyCode::ArrowUp, pressed).forward == pressed,
        after_key(v, KeyCode::ArrowDown, pressed).backward == pressed,
        after_key(v, KeyCode::ArrowLeft, pressed).left == pressed,
        after_key(v, KeyCode::ArrowRight, pressed).right == pressed,
        ({
            let w = after_key(v, KeyCode::ArrowUp, pressed);
            w.backward == v.backward && w.left == v.left && w.right == v.right && w.speed
                == v.speed
        }),
        ({
            let w = after_key(v, KeyCode::ArrowDown, pressed);
            w.forward == v.forward && w.left == v.left && w.right == v.right && w.speed == v.speed
        }),
        ({
            let w = after_key(v, KeyCode::ArrowLeft, pressed);
            w.forward == v.forward && w.backward == v.backward && w.right == v.right && w.speed
                == v.speed
        }),
        ({
            let w = after_key(v, KeyCode::ArrowRight, pressed);
            w.forward == v.forward && w.backward == v.backward && w.left == v.left && w.speed
                == v.speed
        }),
{
}

/// Q lowers and E raises the speed by one, pressed or released, until the
/// speed reaches its limit; neither touches the directions.
pub proof fn lemma_speed_keys_step(v: InputView, pressed: bool)
    ensures
        ({
            let w = after_key(v, KeyCode::KeyQ, pressed);
            &&& w.speed == if v.speed > -SPEED_LIMIT {
                v.speed - 1
            } else {
                v.speed
            }
            &&& w.forward == v.forward && w.backward == v.backward && w.left == v.left && w.right
                == v.right
        }),
        ({
            let w = after_key(v, KeyCode::KeyE, pressed);
            &&& w.speed == if v.speed < SPEED_LIMIT {
                v.speed + 1
            } else {
                v.speed
            }
            &&& w.forward == v.forward && w.backward == v.backward && w.left == v.left && w.right
                == v.right
        }),
        handles_key(KeyCode::KeyQ) && handles_key(KeyCode::KeyE),
        handles_key(KeyCode::ArrowUp) && handles_key(KeyCode::ArrowDown) && handles_key(
            KeyCode::ArrowLeft,
        ) && handles_key(KeyCode::ArrowRight),
{
}

/// The rank of a rotation in a frame: up, down, left, right.
pub open spec fn rotation_rank(r: Rotation) -> int {
    match (r.axis, r.positive) {
        (Axis::X, true) => 0,
        (Axis::X, false) => 1,
        (Axis::Y, false) => 2,
        (Axis::Y, true) => 3,
    }
}

/// A frame turns about X positively exactly when up is held, about X
/// negatively exactly when down is held, about Y negatively exactly when
/// left is held and about Y positively exactly when right is held, each
/// once, in that order.
pub proof fn lemma_rotations_follow_keys(v: InputView)
    ensures
        rotations_for(v).contains(Rotation { axis: Axis::X, positive: true }) <==> v.forward,
        rotations_for(v).contains(Rotation { axis: Axis::X, positive: false }) <==> v.backward,
        rotations_for(v).contains(Rotation { axis: Axis::Y, positive: false }) <==> v.left,
        rotations_for(v).contains(Rotation { axis: Axis::Y, positive: true }) <==> v.right,
        forall|i: int, j: int|
            0 <= i < j < rotations_for(v).len() ==> rotation_rank(#[trigger] rotations_for(v)[i])
                < rotation_rank(#[trigger] rotations_for(v)[j]),
{
    let s = rotations_for(v);
    let up = Rotation { axis: Axis::X, positive: true };
    let down = Rotation { axis: Axis::X, positive: false };
    let left = Rotation { axis: Axis::Y, positive: false };
    let right = Rotation { axis: Axis::Y, positive: true };
    let a = if v.forward { seq![up] } else { Seq::<Rotation>::empty() };
    let b = if v.backward { seq![down] } else { Seq::<Rotation>::empty() };
    let c = if v.left { seq![left] } else { Seq::<Rotation>::empty() };
    let d = if v.right { seq![right] } else { Seq::<Rotation>::empty() };
    assert(s == a + b + c + d);
    // each element of the frame is one of the four, at its rank's place
    assert forall|i: int| 0 <= i < s.len() implies (#[trigger] s[i] == up && v.forward && i == 0)
        || (s[i] == down && v.backward && i == a.len()) || (s[i] == left && v.left && i == a.len()
        + b.len()) || (s[i] == right && v.right && i == a.len() + b.len() + c.len()) by {
        if i < a.len() {
            assert(s[i] == a[i]);
        } else if i < a.len() + b.len() {
            assert(s[i] == b[i - a.len()]);
        } else if i < a.len() + b.len() + c.len() {
            assert(s[i] == c[i - a.len() - b.len()]);
        } else {
            assert(s[i] == d[i - a.len() - b.len() - c.len()]);
        }
    }
    if v.forward {
        assert(s[0] == up);
    }
    if v.backward {
        assert(s[a.len() as int] == down);
    }
    if v.left {
        assert(s[(a.len() + b.len()) as int] == left);
    }
    if v.right {
        assert(s[(a.len() + b.len() + c.len()) as int] == right);
    }
}

/// Instance `(z + 50) * 100 + (x + 50)` stands at `(x, z)`: the grid is
/// laid out row by row, along `x` within a row, centred on the origin, and
/// only its centre is untilted.
pub proof fn lemma_grid_layout(x: int, z: int)
    requires
        -GRID_CENTRE <= x < NUM_INSTANCES_PER_ROW - GRID_CENTRE,
        -GRID_CENTRE <= z < NUM_INSTANCES_PER_ROW - GRID_CENTRE,
    ensures
        ({
            let p = placement_at((z + GRID_CENTRE) * NUM_INSTANCES_PER_ROW + (x + GRID_CENTRE));
            p.x == x && p.z == z && (p.tilted <==> !(x == 0 && z == 0))
        }),
{
    let k = (z + 50) * 100 + (x + 50);
    assert(k % 100 == x + 50 && k / 100 == z + 50) by (nonlinear_arith)
        requires
            k == (z + 50) * 100 + (x + 50),
            0 <= x + 50 < 100,
            0 <= z + 50 < 100,
    ;
}

/// The instance attributes start at shader location 5 and are each four
/// 32-bit floats.
pub proof fn lemma_instance_attribute_kind(i: int)
    requires
        0 <= i < INSTANCE_ATTRIBUTES,
    ensures
        instance_attribute(i).shader_location == 5 + i,
        instance_attribute(i).offset == 16 * i,
        instance_attribute(i).format == VertexFormat::Float32x4,
{
}

} // verus!
