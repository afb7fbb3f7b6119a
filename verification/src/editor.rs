//! The decisions of the timeline editor's transform control: which axes a
//! move is locked to, about which axis a rotation turns, how the control
//! mode changes with the keys and buttons of a frame, and how a click
//! changes the selection of markers.
use vstd::prelude::*;
use crate::time::{is_nan_bits, order_key, time_is_nan, time_order_key};

verus! {

/// The axes along which a move is free.
#[derive(Debug, Clone, Copy, PartialEq, Eq, Structural)]
pub struct LockAxis {
    pub x: bool,
    pub y: bool,
    pub z: bool,
}

impl Default for LockAxis {
    fn default() -> (r: Self)
        ensures
            r == (LockAxis { x: false, y: false, z: false }),
    {
        LockAxis { x: false, y: false, z: false }
    }
}

impl LockAxis {
    /// Every axis free.
    pub fn all() -> (r: Self)
        ensures
            r == (LockAxis { x: true, y: true, z: true }),
    {
        LockAxis { x: true, y: true, z: true }
    }

    /// No axis free.
    pub fn none() -> (r: Self)
        ensures
            r == (LockAxis { x: false, y: false, z: false }),
    {
        LockAxis { x: false, y: false, z: false }
    }

    /// Only the X axis free.
    pub fn only_x() -> (r: Self)
        ensures
            r == (LockAxis { x: true, y: false, z: false }),
    {
        LockAxis { x: true, y: false, z: false }
    }

    /// Only the Y axis free.
    pub fn only_y() -> (r: Self)
        ensures
            r == (LockAxis { x: false, y: true, z: false }),
    {
        LockAxis { x: false, y: true, z: false }
    }

    /// Only the Z axis free.
    pub fn only_z() -> (r: Self)
        ensures
            r == (LockAxis { x: false, y: false, z: true }),
    {
        LockAxis { x: false, y: false, z: true }
    }

    /// Every axis but X free.
    pub fn except_x() -> (r: Self)
        ensures
            r == (LockAxis { x: false, y: true, z: true }),
    {
        LockAxis { x: false, y: true, z: true }
    }

    /// Every axis but Y free.
    pub fn except_y() -> (r: Self)
        ensures
            r == (LockAxis { x: true, y: false, z: true }),
    {
        LockAxis { x: true, y: false, z: true }
    }

    /// Every axis but Z free.
    pub fn except_z() -> (r: Self)
        ensures
            r == (LockAxis { x: true, y: true, z: false }),
    {
        LockAxis { x: true, y: true, z: false }
    }
}

/// In which frame a rotation turns, and whether the axis is locked.
#[derive(Debug, Clone, Copy, PartialEq, Eq, Structural)]
pub enum RotationMode {
    World,
    Local,
    LockWorld,
    LockLocal,
}

/// The axis about which a rotation turns.
#[derive(Debug, Clone, Copy, PartialEq, Eq, Structural)]
pub enum RotationAxis {
    NoAxis,
    X(RotationMode),
    Y(RotationMode),
    Z(RotationMode),
}

impl Default for RotationAxis {
    fn default() -> (r: Self)
        ensures
            r == RotationAxis::NoAxis,
    {
        RotationAxis::NoAxis
    }
}

/// The keys of one frame that the transform control reads.
#[derive(Debug, Clone, Copy, PartialEq, Eq, Structural)]
pub struct ControlKeys {
    /// A shift key is held.
    pub shift: bool,
    pub x_pressed: bool,
    pub y_pressed: bool,
    pub z_pressed: bool,
    pub g_pressed: bool,
    pub r_pressed: bool,
    pub escape_pressed: bool,
    pub enter_pressed: bool,
    pub left_clicked: bool,
    pub right_clicked: bool,
}

/// The axis lock after the keys of a frame: X, Y or Z (the first one pressed,
/// in that order) frees only that axis, or with shift all but that axis.
pub open spec fn spec_axis_locking(keys: ControlKeys, lock: LockAxis) -> LockAxis {
    if keys.x_pressed {
        if keys.shift { LockAxis { x: false, y: true, z: true } } else { LockAxis { x: true, y: false, z: false } }
    } else if keys.y_pressed {
        if keys.shift { LockAxis { x: true, y: false, z: true } } else { LockAxis { x: false, y: true, z: false } }
    } else if keys.z_pressed {
        if keys.shift { LockAxis { x: true, y: true, z: false } } else { LockAxis { x: false, y: false, z: true } }
    } else {
        lock
    }
}

/// Changes the axis lock of a move for the keys of a frame.
pub fn handle_axis_locking(keys: &ControlKeys, lock_mode: &mut LockAxis)
    ensures
        *final(lock_mode) == spec_axis_locking(*keys, *old(lock_mode)),
{
    if keys.x_pressed {
        if keys.shift {
            *lock_mode = LockAxis::except_x();
        } else {
            *lock_mode = LockAxis::only_x();
        }
    } else if keys.y_pressed {
        if keys.shift {
            *lock_mode = LockAxis::except_y();
        } else {
            *lock_mode = LockAxis::only_y();
        }
    } else if keys.z_pressed {
        if keys.shift {
            *lock_mode = LockAxis::except_z();
        } else {
            *lock_mode = LockAxis::only_z();
        }
    }
}

/// The rotation axis after the keys of a frame. Only X is read: it cycles an
/// X rotation from world to local and then off, turns a locked world X
/// rotation with shift into a locked local Y rotation, and starts an X
/// rotation (locked with shift) from any other axis.
pub open spec fn spec_rotation_axis(keys: ControlKeys, axis: RotationAxis) -> RotationAxis {
    if keys.x_pressed {
        match axis {
            RotationAxis::X(mode) => match mode {
                RotationMode::World => if !keys.shift {
                    RotationAxis::X(RotationMode::Local)
                } else {
                    RotationAxis::NoAxis
                },
                RotationMode::LockWorld => if keys.shift {
                    RotationAxis::Y(RotationMode::LockLocal)
                } else {
                    RotationAxis::NoAxis
                },
                _ => RotationAxis::NoAxis,
            },
            _ => if !keys.shift {
                RotationAxis::X(RotationMode::World)
            } else {
                RotationAxis::X(RotationMode::LockWorld)
            },
        }
    } else {
        axis
    }
}

/// Changes the rotation axis for the keys of a frame.
pub fn handle_rotation_axis(keys: &ControlKeys, lock_mode: &mut RotationAxis)
    ensures
        *final(lock_mode) == spec_rotation_axis(*keys, *old(lock_mode)),
{
    if keys.x_pressed {
        match *lock_mode {
            RotationAxis::X(rmode) => match rmode {
                RotationMode::World if !keys.shift => *lock_mode = RotationAxis::X(RotationMode::Local),
                RotationMode::LockWorld if keys.shift => *lock_mode = RotationAxis::Y(RotationMode::LockLocal),
                _ => *lock_mode = RotationAxis::NoAxis,
            },
            _ => {
                if !keys.shift {
                    *lock_mode = RotationAxis::X(RotationMode::World)
                } else {
                    *lock_mode = RotationAxis::X(RotationMode::LockWorld)
                }
            },
        }
    }
}

/// What the transform control is doing.
#[derive(Debug, Clone, Copy, PartialEq, Eq, Structural)]
pub enum ControlMode {
    /// Nothing is being moved.
    Idle,
    /// The selection is being moved, along the free axes.
    Translating { lock_mode: LockAxis },
    /// The selection is being turned.
    Rotating { axis_mode: RotationAxis, trackball_mode: bool },
}

impl ControlMode {
    /// Whether nothing is being moved.
    pub fn is_none(&self) -> (r: bool)
        ensures
            r == (*self is Idle),
    {
        match self {
            ControlMode::Idle => true,
            _ => false,
        }
    }
}

/// What the transform control does in one frame.
#[derive(Debug, Clone, Copy, PartialEq, Eq, Structural)]
pub struct ControlStep {
    /// The mode after the frame.
    pub next: ControlMode,
    /// A move or turn starts: the cursor and the selection's transforms are
    /// to be recorded as its start.
    pub begin: bool,
    /// The move or turn to apply for the cursor in this frame, with its settings.
    pub apply: Option<ControlMode>,
    /// The selection is to be put back where the move or turn started.
    pub restore: bool,
}

/// The step of the transform control for the keys of a frame, when
/// `has_selection` tells whether any marker is selected. From idle, G starts
/// a move with every axis free, or else R a turn about no axis; during a move
/// or turn the keys change its settings, it is applied, and then Escape or a
/// right click cancels it while a left click or Enter ends it.
pub open spec fn spec_control_step(mode: ControlMode, keys: ControlKeys, has_selection: bool) -> ControlStep {
    let cancel = keys.escape_pressed || keys.right_clicked;
    let confirm = keys.left_clicked || keys.enter_pressed;
    match mode {
        ControlMode::Idle => if keys.g_pressed {
            if has_selection {
                ControlStep {
                    next: ControlMode::Translating { lock_mode: LockAxis { x: true, y: true, z: true } },
                    begin: true,
                    apply: None,
                    restore: false,
                }
            } else {
                ControlStep { next: ControlMode::Idle, begin: false, apply: None, restore: false }
            }
        } else if keys.r_pressed && has_selection {
            ControlStep {
                next: ControlMode::Rotating { axis_mode: RotationAxis::NoAxis, trackball_mode: false },
                begin: true,
                apply: None,
                restore: false,
            }
        } else {
            ControlStep { next: ControlMode::Idle, begin: false, apply: None, restore: false }
        },
        ControlMode::Translating { lock_mode } => {
            let updated = ControlMode::Translating { lock_mode: spec_axis_locking(keys, lock_mode) };
            if cancel {
                ControlStep { next: ControlMode::Idle, begin: false, apply: Some(updated), restore: true }
            } else if confirm {
                ControlStep { next: ControlMode::Idle, begin: false, apply: Some(updated), restore: false }
            } else {
                ControlStep { next: updated, begin: false, apply: Some(updated), restore: false }
            }
        },
        ControlMode::Rotating { axis_mode, trackball_mode } => {
            let trackball = if keys.r_pressed { !trackball_mode } else { trackball_mode };
            let updated = ControlMode::Rotating {
                axis_mode: spec_rotation_axis(keys, axis_mode),
                trackball_mode: trackball,
            };
            if cancel {
                ControlStep { next: ControlMode::Idle, begin: false, apply: Some(updated), restore: true }
            } else if confirm {
                ControlStep { next: ControlMode::Idle, begin: false, apply: Some(updated), restore: false }
            } else {
                ControlStep { next: updated, begin: false, apply: Some(updated), restore: false }
            }
        },
    }
}

/// Decides the transform control's step for the keys of a frame.
pub fn control_step(mode: ControlMode, keys: &ControlKeys, has_selection: bool) -> (step: ControlStep)
    ensures
        step == spec_control_step(mode, *keys, has_selection),
{
    let cancel = keys.escape_pressed || keys.right_clicked;
    let confirm = keys.left_clicked || keys.enter_pressed;
    match mode {
        ControlMode::Idle => {
            if keys.g_pressed {
                if has_selection {
                    ControlStep {
                        next: ControlMode::Translating { lock_mode: LockAxis::all() },
                        begin: true,
                        apply: None,
                        restore: false,
                    }
                } else {
                    ControlStep { next: ControlMode::Idle, begin: false, apply: None, restore: false }
                }
            } else if keys.r_pressed && has_selection {
                ControlStep {
                    next: ControlMode::Rotating { axis_mode: RotationAxis::NoAxis, trackball_mode: false },
                    begin: true,
                    apply: None,
                    restore: false,
                }
            } else {
                ControlStep { next: ControlMode::Idle, begin: false, apply: None, restore: false }
            }
        },
        ControlMode::Translating { lock_mode } => {
            let mut lock = lock_mode;
            handle_axis_locking(keys, &mut lock);
            let updated = ControlMode::Translating { lock_mode: lock };
            if cancel {
                ControlStep { next: ControlMode::Idle, begin: false, apply: Some(updated), restore: true }
            } else if confirm {
                ControlStep { next: ControlMode::Idle, begin: false, apply: Some(updated), restore: false }
            } else {
                ControlStep { next: updated, begin: false, apply: Some(updated), restore: false }
            }
        },
        ControlMode::Rotating { axis_mode, trackball_mode } => {
            let trackball = if keys.r_pressed { !trackball_mode } else { trackball_mode };
            let mut axis = axis_mode;
            handle_rotation_axis(keys, &mut axis);
            let updated = ControlMode::Rotating { axis_mode: axis, trackball_mode: trackball };
            if cancel {
                ControlStep { next: ControlMode::Idle, begin: false, apply: Some(updated), restore: true }
            } else if confirm {
                ControlStep { next: ControlMode::Idle, begin: false, apply: Some(updated), restore: false }
            } else {
                ControlStep { next: updated, begin: false, apply: Some(updated), restore: false }
            }
        },
    }
}


/// How a click changes the selection of markers.
#[derive(Debug, Clone, Copy, PartialEq, Eq, Structural)]
pub enum SelectionChange {
    /// The selection stays as it is.
    Keep,
    /// The marker's selection is flipped.
    Toggle(u64),
    /// Only this marker is selected.
    SelectOnly(u64),
    /// Nothing is selected.
    ClearAll,
}

/// The change for a frame: a left click on the closest marker (when the
/// transform control is idle) flips it with shift or selects only it, and a
/// left click away from every marker clears the selection.
pub open spec fn spec_click_selection(closest: Option<u64>, left_clicked: bool, shift: bool, control_idle: bool) -> SelectionChange {
    match closest {
        Some(e) => if left_clicked && control_idle {
            if shift { SelectionChange::Toggle(e) } else { SelectionChange::SelectOnly(e) }
        } else {
            SelectionChange::Keep
        },
        None => if left_clicked { SelectionChange::ClearAll } else { SelectionChange::Keep },
    }
}

/// Decides how a click changes the selection.
pub fn click_selection(closest: Option<u64>, left_clicked: bool, shift: bool, control_idle: bool) -> (r: SelectionChange)
    ensures
        r == spec_click_selection(closest, left_clicked, shift, control_idle),
{
    match closest {
        Some(e) => {
            if left_clicked && control_idle {
                if shift {
                    SelectionChange::Toggle(e)
                } else {
                    SelectionChange::SelectOnly(e)
                }
            } else {
                SelectionChange::Keep
            }
        },
        None => {
            if left_clicked {
                SelectionChange::ClearAll
            } else {
                SelectionChange::Keep
            }
        },
    }
}

/// A marker's distance to the cursor (bits of a single precision number)
/// counts when it is a number no greater than the largest distance.
pub open spec fn within(distance: u32, max_distance: u32) -> bool {
    &&& !is_nan_bits(distance)
    &&& !is_nan_bits(max_distance)
    &&& order_key(distance) <= order_key(max_distance)
}

/// `i` is the first of the markers nearest to the cursor among those whose
/// distance counts.
pub open spec fn is_closest(candidates: Seq<(u64, u32)>, max_distance: u32, i: int) -> bool {
    &&& 0 <= i < candidates.len()
    &&& within(candidates[i].1, max_distance)
    &&& forall|j: int| 0 <= j < candidates.len() && within(#[trigger] candidates[j].1, max_distance)
        ==> order_key(candidates[i].1) <= order_key(candidates[j].1)
    &&& forall|j: int| 0 <= j < i && within(#[trigger] candidates[j].1, max_distance)
        ==> order_key(candidates[i].1) < order_key(candidates[j].1)
}

/// Picks the marker that a click goes to: the first of the nearest markers
/// whose distance to the cursor counts, or none when no distance counts.
pub fn closest_marker(candidates: &[(u64, u32)], max_distance: u32) -> (r: Option<usize>)
    ensures
        match r {
            Some(i) => is_closest(candidates@, max_distance, i as int),
            None => forall|j: int| 0 <= j < candidates@.len() ==> !within(#[trigger] candidates@[j].1, max_distance),
        },
{
    if time_is_nan(max_distance) {
        return None;
    }
    let max_key = time_order_key(max_distance);
    let mut best: Option<usize> = None;
    let mut i: usize = 0;
    while i < candidates.len()
        invariant
            0 <= i <= candidates@.len(),
            !is_nan_bits(max_distance),
            max_key == order_key(max_distance),
            match best {
                Some(b) => b < i && within(candidates@[b as int].1, max_distance)
                    && (forall|j: int| 0 <= j < i && within(#[trigger] candidates@[j].1, max_distance)
                        ==> order_key(candidates@[b as int].1) <= order_key(candidates@[j].1))
                    && (forall|j: int| 0 <= j < b && within(#[trigger] candidates@[j].1, max_distance)
                        ==> order_key(candidates@[b as int].1) < order_key(candidates@[j].1)),
                None => forall|j: int| 0 <= j < i ==> !within(#[trigger] candidates@[j].1, max_distance),
            },
        decreases candidates@.len() - i,
    {
        let d = candidates[i].1;
        if !time_is_nan(d) && time_order_key(d) <= max_key {
            match best {
                None => {
                    best = Some(i);
                },
                Some(b) => {
                    if time_order_key(d) < time_order_key(candidates[b].1) {
                        best = Some(i);
                    }
                },
            }
        }
        i = i + 1;
    }
    best
}

/// Which marker label is shown and which is hidden as the hovered marker changes.
#[derive(Debug, Clone, Copy, PartialEq, Eq, Structural)]
pub struct FocusChange {
    pub show: Option<u64>,
    pub hide: Option<u64>,
    /// The label in focus after the change.
    pub focus: Option<u64>,
}

/// The label of the hovered marker is shown and the one in focus before is
/// hidden, unless it is the same one.
pub open spec fn spec_focus_change(last: Option<u64>, hovered: Option<u64>) -> FocusChange {
    match hovered {
        Some(t) => if last == Some(t) {
            FocusChange { show: None, hide: None, focus: Some(t) }
        } else {
            FocusChange { show: Some(t), hide: last, focus: Some(t) }
        },
        None => FocusChange { show: None, hide: last, focus: None },
    }
}

/// Decides which marker labels to show and hide.
pub fn focus_change(last: Option<u64>, hovered: Option<u64>) -> (r: FocusChange)
    ensures
        r == spec_focus_change(last, hovered),
{
    match hovered {
        Some(t) => {
            match last {
                Some(l) => {
                    if l == t {
                        return FocusChange { show: None, hide: None, focus: Some(t) };
                    }
                },
                None => {},
            }
            FocusChange { show: Some(t), hide: last, focus: Some(t) }
        },
        None => FocusChange { show: None, hide: last, focus: None },
    }
}


/// Escape or a right click during a move or turn puts the selection back and
/// leaves the control idle; otherwise a left click or Enter ends it where it
/// is. While idle nothing is moved.
pub proof fn lemma_control_cancel_confirm(mode: ControlMode, keys: ControlKeys, has_selection: bool)
    ensures
        !(mode is Idle) && (keys.escape_pressed || keys.right_clicked) ==> {
            let step = spec_control_step(mode, keys, has_selection);
            step.next is Idle && step.restore && step.apply is Some
        },
        !(mode is Idle) && !(keys.escape_pressed || keys.right_clicked) && (keys.left_clicked || keys.enter_pressed) ==> {
            let step = spec_control_step(mode, keys, has_selection);
            step.next is Idle && !step.restore && step.apply is Some
        },
        mode is Idle ==> {
            let step = spec_control_step(mode, keys, has_selection);
            step.apply is None && !step.restore && (step.begin <==> !(step.next is Idle)) && (step.begin ==> has_selection)
        },
{
}

/// A move or turn that starts is applied in every frame until it ends, and
/// one ends only by a cancel or a confirm.
pub proof fn lemma_control_stays(mode: ControlMode, keys: ControlKeys, has_selection: bool)
    requires
        !(mode is Idle),
        !(keys.escape_pressed || keys.right_clicked || keys.left_clicked || keys.enter_pressed),
    ensures
        ({
            let step = spec_control_step(mode, keys, has_selection);
            &&& !(step.next is Idle)
            &&& step.apply == Some(step.next)
            &&& !step.restore
            &&& !step.begin
            &&& (mode is Translating <==> step.next is Translating)
        }),
{
}

/// An axis key alone frees only its axis, and with shift frees the other
/// two: the two locks are complements of each other.
pub proof fn lemma_axis_lock_complement(keys: ControlKeys, lock: LockAxis)
    requires
        keys.x_pressed || keys.y_pressed || keys.z_pressed,
    ensures
        ({
            let alone = spec_axis_locking(ControlKeys { shift: false, ..keys }, lock);
            let shifted = spec_axis_locking(ControlKeys { shift: true, ..keys }, lock);
            &&& alone.x == !shifted.x
            &&& alone.y == !shifted.y
            &&& alone.z == !shifted.z
            &&& (alone.x as int) + (alone.y as int) + (alone.z as int) == 1
        }),
{
}

/// Pressing X without shift turns the rotation axis from none to world X,
/// then to local X, then back to none.
pub proof fn lemma_rotation_axis_cycle(keys: ControlKeys)
    requires
        keys.x_pressed,
        !keys.shift,
    ensures
        spec_rotation_axis(keys, RotationAxis::NoAxis) == RotationAxis::X(RotationMode::World),
        spec_rotation_axis(keys, RotationAxis::X(RotationMode::World)) == RotationAxis::X(RotationMode::Local),
        spec_rotation_axis(keys, RotationAxis::X(RotationMode::Local)) == RotationAxis::NoAxis,
{
}

/// Pressing X picks the X axis, or changes an X axis: with an X axis in mode
/// `m`, the axis goes to local X for `m` world without shift, to locked local
/// Y for `m` locked world with shift, and is turned off otherwise; with any
/// other axis (or none) it becomes world X, or locked world X with shift.
/// Without X the axis stays.
pub proof fn lemma_rotation_axis_keys(keys: ControlKeys, axis: RotationAxis)
    ensures
        !keys.x_pressed ==> spec_rotation_axis(keys, axis) == axis,
        keys.x_pressed ==> match axis {
            RotationAxis::X(m) => {
                &&& (spec_rotation_axis(keys, axis) == RotationAxis::NoAxis <==> !((m == RotationMode::World
                    && !keys.shift) || (m == RotationMode::LockWorld && keys.shift)))
                &&& (m == RotationMode::World && !keys.shift ==> spec_rotation_axis(keys, axis) == RotationAxis::X(
                    RotationMode::Local,
                ))
                &&& (m == RotationMode::LockWorld && keys.shift ==> spec_rotation_axis(keys, axis)
                    == RotationAxis::Y(RotationMode::LockLocal))
            },
            _ => spec_rotation_axis(keys, axis) == RotationAxis::X(
                if keys.shift { RotationMode::LockWorld } else { RotationMode::World },
            ),
        },
{
}

/// Without a left click the selection never changes. A flip happens only on
/// a left click with shift on the closest marker while the control is idle,
/// selecting only a marker only on such a click without shift, and clearing
/// only on a left click away from every marker.
pub proof fn lemma_selection_needs_click(closest: Option<u64>, left_clicked: bool, shift: bool, control_idle: bool)
    ensures
        !left_clicked ==> spec_click_selection(closest, left_clicked, shift, control_idle) == SelectionChange::Keep,
        spec_click_selection(closest, left_clicked, shift, control_idle) matches SelectionChange::Toggle(e) ==> {
            &&& left_clicked && shift && control_idle
            &&& closest == Some(e)
        },
        spec_click_selection(closest, left_clicked, shift, control_idle) matches SelectionChange::SelectOnly(e) ==> {
            &&& left_clicked && !shift && control_idle
            &&& closest == Some(e)
        },
        spec_click_selection(closest, left_clicked, shift, control_idle) is ClearAll ==> left_clicked && closest is None,
        left_clicked && control_idle && closest is Some ==> spec_click_selection(closest, left_clicked, shift, control_idle)
            == if shift {
            SelectionChange::Toggle(closest->Some_0)
        } else {
            SelectionChange::SelectOnly(closest->Some_0)
        },
{
}

/// The first of X, Y and Z that is pressed decides the lock: without shift
/// that axis alone is free, with shift every axis but that one is. With none
/// of them pressed the lock stays.
pub proof fn lemma_axis_lock_keys(keys: ControlKeys, lock: LockAxis)
    ensures
        !(keys.x_pressed || keys.y_pressed || keys.z_pressed) ==> spec_axis_locking(keys, lock) == lock,
        keys.x_pressed ==> {
            let r = spec_axis_locking(keys, lock);
            r.x == !keys.shift && r.y == keys.shift && r.z == keys.shift
        },
        !keys.x_pressed && keys.y_pressed ==> {
            let r = spec_axis_locking(keys, lock);
            r.y == !keys.shift && r.x == keys.shift && r.z == keys.shift
        },
        !keys.x_pressed && !keys.y_pressed && keys.z_pressed ==> {
            let r = spec_axis_locking(keys, lock);
            r.z == !keys.shift && r.x == keys.shift && r.y == keys.shift
        },
{
}

/// From idle, a move (every axis free) starts on G and a turn (about no
/// axis, no trackball) on R, only with a selection and G taking precedence;
/// nothing is applied or put back. During a move or a turn nothing starts:
/// the settings changed by the keys are applied, Escape or a right click
/// ends it and puts the selection back, a left click or Enter ends it and
/// keeps the result, and otherwise it goes on with the changed settings.
pub proof fn lemma_control_step_phases(mode: ControlMode, keys: ControlKeys, has_selection: bool)
    ensures
        ({
            let step = spec_control_step(mode, keys, has_selection);
            let cancel = keys.escape_pressed || keys.right_clicked;
            let confirm = keys.left_clicked || keys.enter_pressed;
            &&& step.restore ==> cancel && !(mode is Idle)
            &&& step.begin <==> (mode is Idle && has_selection && (keys.g_pressed || keys.r_pressed))
            &&& mode is Idle ==> {
                &&& step.apply is None
                &&& !step.restore
                &&& (keys.g_pressed && has_selection ==> step.next == ControlMode::Translating {
                    lock_mode: LockAxis { x: true, y: true, z: true },
                })
                &&& (!keys.g_pressed && keys.r_pressed && has_selection ==> step.next == ControlMode::Rotating {
                    axis_mode: RotationAxis::NoAxis,
                    trackball_mode: false,
                })
                &&& (!has_selection ==> step.next is Idle)
            }
            &&& !(mode is Idle) ==> {
                &&& step.apply is Some
                &&& (cancel ==> step.next is Idle && step.restore)
                &&& (!cancel && confirm ==> step.next is Idle && !step.restore)
                &&& (!cancel && !confirm ==> Some(step.next) == step.apply && !step.restore)
            }
            &&& mode matches ControlMode::Translating { lock_mode } ==> step.apply == Some(
                ControlMode::Translating { lock_mode: spec_axis_locking(keys, lock_mode) },
            )
            &&& mode matches ControlMode::Rotating { axis_mode, trackball_mode } ==> step.apply == Some(
                ControlMode::Rotating {
                    axis_mode: spec_rotation_axis(keys, axis_mode),
                    trackball_mode: trackball_mode != keys.r_pressed,
                },
            )
        }),
{
}

/// The hovered marker's label comes into focus: it is shown unless it was
/// already in focus, and the label in focus before is hidden unless it is
/// the hovered one.
pub proof fn lemma_focus_follows_hover(last: Option<u64>, hovered: Option<u64>)
    ensures
        spec_focus_change(last, hovered).focus == hovered,
        spec_focus_change(last, hovered).show == if hovered != last { hovered } else { None },
        spec_focus_change(last, hovered).hide == if hovered != last { last } else { None },
{
}

} // verus!
