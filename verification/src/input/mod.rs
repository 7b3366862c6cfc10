use vstd::prelude::*;

use crate::fighter::state::{Direction, Frame};
use crate::util::Buffer;

verus! {

pub const BUFFER_SIZE: usize = 60;

pub const BUFFER_TIME: Frame = 0;

pub const LEFT_HELD: u32 = 2048;

pub const LEFT: u32 = 2560;

pub const RIGHT_HELD: u32 = 1024;

pub const RIGHT: u32 = 1536;

/// One frame of packed input as it travels between players.
#[derive(Clone, Copy, Debug, PartialEq, Eq, Structural)]
pub struct Input(pub u32);

impl Default for Input {
    fn default() -> (i: Self)
        ensures
            i == Input(0),
    {
        Input(0)
    }
}

/// The buttons and directions a player can hold.
#[derive(Clone, Copy, Debug, PartialEq, Eq, Structural, Hash)]
pub enum Action {
    A,
    B,
    C,
    J,
    K,
    L,
    Left,
    Right,
    Up,
    Down,
}

/// The phase of a button over consecutive frames.
#[derive(Clone, Copy, Debug, PartialEq, Eq, Structural)]
pub enum ButtonPress {
    Idle,
    Press,
    Hold,
    Release,
    // Only used as part of command expressions
    PressOrRelease,
}

impl Default for ButtonPress {
    fn default() -> (b: Self)
        ensures
            b == ButtonPress::Idle,
    {
        ButtonPress::Idle
    }
}

/// The number each button phase stands for.
pub open spec fn button_code(b: ButtonPress) -> u32 {
    match b {
        ButtonPress::Idle => 0,
        ButtonPress::Press => 1,
        ButtonPress::Hold => 2,
        ButtonPress::Release => 3,
        ButtonPress::PressOrRelease => 4,
    }
}

/// The button phase a number in `0..4` stands for.
pub open spec fn button_from_code(v: u32) -> ButtonPress {
    if v == 0 {
        ButtonPress::Idle
    } else if v == 1 {
        ButtonPress::Press
    } else if v == 2 {
        ButtonPress::Hold
    } else {
        ButtonPress::Release
    }
}

impl ButtonPress {
    pub fn from_u32(value: u32) -> (b: ButtonPress)
        requires
            value < 4,
        ensures
            b == button_from_code(value),
            button_code(b) == value,
    {
        if value == 0 {
            ButtonPress::Idle
        } else if value == 1 {
            ButtonPress::Press
        } else if value == 2 {
            ButtonPress::Hold
        } else {
            ButtonPress::Release
        }
    }

    pub fn is_held(&self) -> (r: bool)
        ensures
            r == (*self == ButtonPress::Hold),
    {
        *self == ButtonPress::Hold
    }

    /// The number this phase stands for.
    pub fn code(&self) -> (v: u32)
        ensures
            v == button_code(*self),
    {
        match self {
            ButtonPress::Idle => 0,
            ButtonPress::Press => 1,
            ButtonPress::Hold => 2,
            ButtonPress::Release => 3,
            ButtonPress::PressOrRelease => 4,
        }
    }
}

/// A direction along one axis.
#[derive(Clone, Copy, Debug, PartialEq, Eq, Structural)]
pub enum DirectionalInput {
    Neutral,
    Positive,
    Negative,
}

impl Default for DirectionalInput {
    fn default() -> (d: Self)
        ensures
            d == DirectionalInput::Neutral,
    {
        DirectionalInput::Neutral
    }
}

/// The number each direction stands for.
pub open spec fn direction_code(d: DirectionalInput) -> u32 {
    match d {
        DirectionalInput::Neutral => 0,
        DirectionalInput::Positive => 1,
        DirectionalInput::Negative => 2,
    }
}

/// The direction a number in `0..3` stands for.
pub open spec fn direction_from_code(v: u32) -> DirectionalInput {
    if v == 0 {
        DirectionalInput::Neutral
    } else if v == 1 {
        DirectionalInput::Positive
    } else {
        DirectionalInput::Negative
    }
}

impl DirectionalInput {
    pub fn from_u32(value: u32) -> (d: DirectionalInput)
        requires
            value < 3,
        ensures
            d == direction_from_code(value),
            direction_code(d) == value,
    {
        if value == 0 {
            DirectionalInput::Neutral
        } else if value == 1 {
            DirectionalInput::Positive
        } else {
            DirectionalInput::Negative
        }
    }

    /// The number this direction stands for.
    pub fn code(&self) -> (v: u32)
        ensures
            v == direction_code(*self),
    {
        match self {
            DirectionalInput::Neutral => 0,
            DirectionalInput::Positive => 1,
            DirectionalInput::Negative => 2,
        }
    }
}

/// The state of every button and direction in one frame.
///
/// Packed into 32 bits, numbering bits from the most significant bit of the first
/// little-endian byte: `a` 0..=1, `b` 2..=3, `c` 4..=5, `j` 6..=7, `k` 8..=9, `l` 10..=11,
/// `x` 12..=13, `just_pressed_x` 14, `y` 15..=16, `just_pressed_y` 17, and zeroes in 18..=31.
#[derive(Clone, Copy, Debug, PartialEq, Eq, Structural)]
pub struct StateInput {
    pub a: ButtonPress,
    pub b: ButtonPress,
    pub c: ButtonPress,
    pub j: ButtonPress,
    pub k: ButtonPress,
    pub l: ButtonPress,
    pub x: DirectionalInput,
    pub just_pressed_x: bool,
    pub y: DirectionalInput,
    pub just_pressed_y: bool,
}

impl Default for StateInput {
    fn default() -> (s: Self)
        ensures
            s == neutral_input(),
    {
        StateInput {
            a: ButtonPress::Idle,
            b: ButtonPress::Idle,
            c: ButtonPress::Idle,
            j: ButtonPress::Idle,
            k: ButtonPress::Idle,
            l: ButtonPress::Idle,
            x: DirectionalInput::Neutral,
            just_pressed_x: false,
            y: DirectionalInput::Neutral,
            just_pressed_y: false,
        }
    }
}

/// Nothing pressed, no direction held.
pub open spec fn neutral_input() -> StateInput {
    StateInput {
        a: ButtonPress::Idle,
        b: ButtonPress::Idle,
        c: ButtonPress::Idle,
        j: ButtonPress::Idle,
        k: ButtonPress::Idle,
        l: ButtonPress::Idle,
        x: DirectionalInput::Neutral,
        just_pressed_x: false,
        y: DirectionalInput::Neutral,
        just_pressed_y: false,
    }
}

/// The two low bits of a button phase's number.
pub open spec fn field_code(b: ButtonPress) -> u32 {
    match b {
        ButtonPress::PressOrRelease => 0,
        _ => button_code(b),
    }
}

pub open spec fn bit(b: bool) -> u32 {
    if b {
        1
    } else {
        0
    }
}

/// The 32-bit packing of an input. A two-bit field keeps the two low bits of its number, so
/// `PressOrRelease` packs as `None`.
pub open spec fn packed(s: StateInput) -> u32 {
    (field_code(s.a) * 64 + field_code(s.b) * 16 + field_code(s.c) * 4 + field_code(s.j)
        + field_code(s.k) * 16384 + field_code(s.l) * 4096 + direction_code(s.x) * 1024 + bit(s.just_pressed_x) * 512 + (direction_code(s.y) / 2)
        * 256 + (direction_code(s.y) % 2) * 8388608 + bit(s.just_pressed_y) * 4194304) as u32
}

/// Number stored in the `x` field of a packed word.
pub open spec fn x_code(v: u32) -> u32 {
    (v / 1024) % 4
}

/// Number stored in the `y` field, whose high bit sits at bit 8 and low bit at bit 23 of the word.
pub open spec fn y_code(v: u32) -> u32 {
    (((v / 256) % 2) * 2 + (v / 8388608) % 2) as u32
}

/// A packed word can be read back: both direction fields hold a known direction.
pub open spec fn unpackable(v: u32) -> bool {
    x_code(v) < 3 && y_code(v) < 3
}

/// The input a readable packed word stands for. Bits 18..=31 are ignored.
pub open spec fn unpacked(v: u32) -> StateInput {
    StateInput {
        a: button_from_code((v / 64) % 4),
        b: button_from_code((v / 16) % 4),
        c: button_from_code((v / 4) % 4),
        j: button_from_code(v % 4),
        k: button_from_code((v / 16384) % 4),
        l: button_from_code((v / 4096) % 4),
        x: direction_from_code(x_code(v)),
        just_pressed_x: (v / 512) % 2 == 1,
        y: direction_from_code(y_code(v)),
        just_pressed_y: (v / 4194304) % 2 == 1,
    }
}

/// No field holds `PressOrRelease`, which the packing cannot keep.
pub open spec fn packable(s: StateInput) -> bool {
    &&& s.a != ButtonPress::PressOrRelease
    &&& s.b != ButtonPress::PressOrRelease
    &&& s.c != ButtonPress::PressOrRelease
    &&& s.j != ButtonPress::PressOrRelease
    &&& s.k != ButtonPress::PressOrRelease
    &&& s.l != ButtonPress::PressOrRelease
}

/// Bits 18..=31 of a packed word are zero: the word's bits 16..=21 and 24..=31.
pub open spec fn reserved_clear(v: u32) -> bool {
    (v / 65536) % 64 == 0 && v / 16777216 == 0
}

proof fn lemma_codes()
    ensures
        forall|b: ButtonPress| #[trigger] button_code(b) <= 4,
        forall|b: ButtonPress| packable_button(b) ==> #[trigger] button_from_code(button_code(b)) == b,
        forall|v: u32| v < 4 ==> #[trigger] button_code(button_from_code(v)) == v,
        forall|d: DirectionalInput| #[trigger] direction_code(d) < 3,
        forall|d: DirectionalInput| #[trigger] direction_from_code(direction_code(d)) == d,
        forall|v: u32| v < 3 ==> #[trigger] direction_code(direction_from_code(v)) == v,
{
}

pub open spec fn packable_button(b: ButtonPress) -> bool {
    b != ButtonPress::PressOrRelease
}

impl StateInput {
    /// Packs the input into its 32-bit word.
    pub fn to_bits(&self) -> (v: u32)
        ensures
            v == packed(*self),
    {
        let a = self.a.code();
        let b = self.b.code();
        let c = self.c.code();
        let j = self.j.code();
        let k = self.k.code();
        let l = self.l.code();
        let x = self.x.code();
        let y = self.y.code();
        let jx: u32 = if self.just_pressed_x { 1 } else { 0 };
        let jy: u32 = if self.just_pressed_y { 1 } else { 0 };
        let byte0: u32 = ((a & 3) << 6u32) | ((b & 3) << 4u32) | ((c & 3) << 2u32) | (j & 3);
        let byte1: u32 = ((k & 3) << 6u32) | ((l & 3) << 4u32) | ((x & 3) << 2u32) | (jx << 1u32) | ((y
            & 3) >> 1u32);
        let byte2: u32 = ((y & 1) << 7u32) | (jy << 6u32);
        let v = byte0 | (byte1 << 8u32) | (byte2 << 16u32);
        proof {
            lemma_codes();
            assert(field_code(self.a) == a % 4 && field_code(self.b) == b % 4 && field_code(self.c) == c
                % 4 && field_code(self.j) == j % 4 && field_code(self.k) == k % 4 && field_code(self.l)
                == l % 4);
        }
        assert(v == ((a % 4) * 64 + (b % 4) * 16 + (c % 4) * 4 + (j % 4) + (k % 4) * 16384 + (l % 4)
            * 4096 + x * 1024 + jx * 512 + (y / 2) * 256 + (y % 2) * 8388608 + jy * 4194304) as u32)
            by (bit_vector)
            requires
                byte0 == ((a & 3) << 6u32) | ((b & 3) << 4u32) | ((c & 3) << 2u32) | (j & 3),
                byte1 == ((k & 3) << 6u32) | ((l & 3) << 4u32) | ((x & 3) << 2u32) | (jx << 1u32) | ((y
                    & 3) >> 1u32),
                byte2 == ((y & 1) << 7u32) | (jy << 6u32),
                v == byte0 | (byte1 << 8u32) | (byte2 << 16u32),
                a <= 4,
                b <= 4,
                c <= 4,
                j <= 4,
                k <= 4,
                l <= 4,
                x < 3,
                y < 3,
                jx < 2,
                jy < 2,
        ;
        v
    }

    /// Reads an input back from its 32-bit word.
    pub fn from_bits(value: u32) -> (s: StateInput)
        requires
            unpackable(value),
        ensures
            s == unpacked(value),
    {
        let a = (value >> 6u32) & 3;
        let b = (value >> 4u32) & 3;
        let c = (value >> 2u32) & 3;
        let j = value & 3;
        let k = (value >> 14u32) & 3;
        let l = (value >> 12u32) & 3;
        let x = (value >> 10u32) & 3;
        let jx = (value >> 9u32) & 1;
        let y = (((value >> 8u32) & 1) << 1u32) | ((value >> 23u32) & 1);
        let jy = (value >> 22u32) & 1;
        assert(a == (value / 64) % 4 && b == (value / 16) % 4 && c == (value / 4) % 4 && j == value
            % 4 && k == (value / 16384) % 4 && l == (value / 4096) % 4 && x == (value / 1024) % 4
            && jx == (value / 512) % 2 && y == ((value / 256) % 2) * 2 + (value / 8388608) % 2 && jy
            == (value / 4194304) % 2) by (bit_vector)
            requires
                a == (value >> 6u32) & 3,
                b == (value >> 4u32) & 3,
                c == (value >> 2u32) & 3,
                j == value & 3,
                k == (value >> 14u32) & 3,
                l == (value >> 12u32) & 3,
                x == (value >> 10u32) & 3,
                jx == (value >> 9u32) & 1,
                y == (((value >> 8u32) & 1) << 1u32) | ((value >> 23u32) & 1),
                jy == (value >> 22u32) & 1,
        ;
        StateInput {
            a: ButtonPress::from_u32(a),
            b: ButtonPress::from_u32(b),
            c: ButtonPress::from_u32(c),
            j: ButtonPress::from_u32(j),
            k: ButtonPress::from_u32(k),
            l: ButtonPress::from_u32(l),
            x: DirectionalInput::from_u32(x),
            just_pressed_x: jx == 1,
            y: DirectionalInput::from_u32(y),
            just_pressed_y: jy == 1,
        }
    }
}

impl From<StateInput> for u32 {
    fn from(value: StateInput) -> (v: u32) {
        value.to_bits()
    }
}

impl vstd::std_specs::convert::FromSpecImpl<StateInput> for u32 {
    open spec fn obeys_from_spec() -> bool {
        true
    }

    open spec fn from_spec(v: StateInput) -> u32 {
        packed(v)
    }
}


/// A phase with `Press` on the frame the button goes down and `Hold` after.
pub open spec fn press_or_hold(just_pressed: bool) -> ButtonPress {
    if just_pressed {
        ButtonPress::Press
    } else {
        ButtonPress::Hold
    }
}

fn press_or_hold_exec(just_pressed: bool) -> (b: ButtonPress)
    ensures
        b == press_or_hold(just_pressed),
{
    if just_pressed {
        ButtonPress::Press
    } else {
        ButtonPress::Hold
    }
}

impl StateInput {
    #[allow(clippy::too_many_arguments)]
    pub fn new(
        lp: ButtonPress,
        mp: ButtonPress,
        hp: ButtonPress,
        lk: ButtonPress,
        mk: ButtonPress,
        hk: ButtonPress,
        x: DirectionalInput,
        just_pressed_x: bool,
        y: DirectionalInput,
        just_pressed_y: bool,
    ) -> (s: StateInput)
        ensures
            s == (StateInput { a: lp, b: mp, c: hp, j: lk, k: mk, l: hk, x, just_pressed_x, y, just_pressed_y }),
    {
        StateInput { a: lp, b: mp, c: hp, j: lk, k: mk, l: hk, x, just_pressed_x, y, just_pressed_y }
    }

    /// The phase of the button that an action names.
    pub open spec fn button_of(self, action: Action) -> ButtonPress
        recommends
            is_button(action),
    {
        match action {
            Action::A => self.a,
            Action::B => self.b,
            Action::C => self.c,
            Action::J => self.j,
            Action::K => self.k,
            _ => self.l,
        }
    }

    pub fn get_button_from_action(&self, action: Action) -> (b: ButtonPress)
        requires
            is_button(action),
        ensures
            b == self.button_of(action),
    {
        match action {
            Action::A => self.a,
            Action::B => self.b,
            Action::C => self.c,
            Action::J => self.j,
            Action::K => self.k,
            Action::L => self.l,
            _ => self.l,
        }
    }

    /// The direction and just-pressed flag of the axis that an action names.
    pub open spec fn axis_of(self, action: Action) -> (DirectionalInput, bool)
        recommends
            !is_button(action),
    {
        match action {
            Action::Left | Action::Right => (self.x, self.just_pressed_x),
            _ => (self.y, self.just_pressed_y),
        }
    }

    pub fn get_directional_from_button(&self, action: Action) -> (r: (DirectionalInput, bool))
        requires
            !is_button(action),
        ensures
            r == self.axis_of(action),
    {
        match action {
            Action::Left => (self.x, self.just_pressed_x),
            Action::Right => (self.x, self.just_pressed_x),
            Action::Up => (self.y, self.just_pressed_y),
            Action::Down => (self.y, self.just_pressed_y),
            _ => (self.y, self.just_pressed_y),
        }
    }

    /// Whether this input meets an expression; `None` where the expression names no field.
    pub open spec fn meets(self, command: MatchExpression) -> Option<bool> {
        match command {
            MatchExpression::Button(name, button) => match self.button_named(name@) {
                Some(b) => Some(b == button),
                None => None,
            },
            MatchExpression::Directional(name, direction, just_pressed) => match self.axis_named(
                name@,
            ) {
                Some(axis) => Some(axis.0 == direction && axis.1 == just_pressed),
                None => None,
            },
        }
    }

    /// The button that a command names: "a", "b", "c", "lk", "mk" or "hk".
    pub open spec fn button_named(self, name: Seq<char>) -> Option<ButtonPress> {
        if name == "a"@ {
            Some(self.a)
        } else if name == "b"@ {
            Some(self.b)
        } else if name == "c"@ {
            Some(self.c)
        } else if name == "lk"@ {
            Some(self.j)
        } else if name == "mk"@ {
            Some(self.k)
        } else if name == "hk"@ {
            Some(self.l)
        } else {
            None
        }
    }

    /// The axis that a command names: "x" or "y".
    pub open spec fn axis_named(self, name: Seq<char>) -> Option<(DirectionalInput, bool)> {
        if name == "x"@ {
            Some((self.x, self.just_pressed_x))
        } else if name == "y"@ {
            Some((self.y, self.just_pressed_y))
        } else {
            None
        }
    }

    pub fn compare_command(&self, command: MatchExpression) -> (r: bool)
        requires
            self.meets(command) is Some,
        ensures
            Some(r) == self.meets(command),
    {
        match self.try_compare_command(&command) {
            Some(r) => r,
            None => {
                proof {
                    assert(false);
                }
                false
            },
        }
    }

    /// Whether this input meets an expression, or `None` where the expression names no field.
    pub fn try_compare_command(&self, command: &MatchExpression) -> (r: Option<bool>)
        ensures
            r == self.meets(*command),
    {
        match command {
            MatchExpression::Button(name, button) => {
                let i = if str_is(name, "a") {
                    self.a
                } else if str_is(name, "b") {
                    self.b
                } else if str_is(name, "c") {
                    self.c
                } else if str_is(name, "lk") {
                    self.j
                } else if str_is(name, "mk") {
                    self.k
                } else if str_is(name, "hk") {
                    self.l
                } else {
                    return None;
                };
                Some(i == *button)
            },
            MatchExpression::Directional(name, direction, just_pressed) => {
                let i = if str_is(name, "x") {
                    (self.x, self.just_pressed_x)
                } else if str_is(name, "y") {
                    (self.y, self.just_pressed_y)
                } else {
                    return None;
                };
                Some(i.0 == *direction && (i.1 == *just_pressed))
            },
        }
    }

    pub fn lp(just_pressed: bool) -> (s: Self)
        ensures
            s == (StateInput { a: press_or_hold(just_pressed), ..neutral_input() }),
    {
        StateInput { a: press_or_hold_exec(just_pressed), ..StateInput::default() }
    }

    pub fn lp_bits(just_pressed: bool) -> (v: u32)
        ensures
            v == packed(StateInput { a: press_or_hold(just_pressed), ..neutral_input() }),
            v == if just_pressed { 64u32 } else { 128u32 },
    {
        Self::lp(just_pressed).to_bits()
    }

    pub fn mp(just_pressed: bool) -> (s: Self)
        ensures
            s == (StateInput { b: press_or_hold(just_pressed), ..neutral_input() }),
    {
        StateInput { b: press_or_hold_exec(just_pressed), ..StateInput::default() }
    }

    pub fn mp_bits(just_pressed: bool) -> (v: u32)
        ensures
            v == packed(StateInput { b: press_or_hold(just_pressed), ..neutral_input() }),
            v == if just_pressed { 16u32 } else { 32u32 },
    {
        Self::mp(just_pressed).to_bits()
    }

    pub fn hp(just_pressed: bool) -> (s: Self)
        ensures
            s == (StateInput { c: press_or_hold(just_pressed), ..neutral_input() }),
    {
        StateInput { c: press_or_hold_exec(just_pressed), ..StateInput::default() }
    }

    pub fn hp_bits(just_pressed: bool) -> (v: u32)
        ensures
            v == packed(StateInput { c: press_or_hold(just_pressed), ..neutral_input() }),
            v == if just_pressed { 4u32 } else { 8u32 },
    {
        Self::hp(just_pressed).to_bits()
    }

    pub fn lk(just_pressed: bool) -> (s: Self)
        ensures
            s == (StateInput { j: press_or_hold(just_pressed), ..neutral_input() }),
    {
        StateInput { j: press_or_hold_exec(just_pressed), ..StateInput::default() }
    }

    pub fn lk_bits(just_pressed: bool) -> (v: u32)
        ensures
            v == packed(StateInput { j: press_or_hold(just_pressed), ..neutral_input() }),
            v == if just_pressed { 1u32 } else { 2u32 },
    {
        Self::lk(just_pressed).to_bits()
    }

    pub fn mk(just_pressed: bool) -> (s: Self)
        ensures
            s == (StateInput { k: press_or_hold(just_pressed), ..neutral_input() }),
    {
        StateInput { k: press_or_hold_exec(just_pressed), ..StateInput::default() }
    }

    pub fn mk_bits(just_pressed: bool) -> (v: u32)
        ensures
            v == packed(StateInput { k: press_or_hold(just_pressed), ..neutral_input() }),
            v == if just_pressed { 16384u32 } else { 32768u32 },
    {
        Self::mk(just_pressed).to_bits()
    }

    pub fn hk(just_pressed: bool) -> (s: Self)
        ensures
            s == (StateInput { l: press_or_hold(just_pressed), ..neutral_input() }),
    {
        StateInput { l: press_or_hold_exec(just_pressed), ..StateInput::default() }
    }

    pub fn hk_bits(just_pressed: bool) -> (v: u32)
        ensures
            v == packed(StateInput { l: press_or_hold(just_pressed), ..neutral_input() }),
            v == if just_pressed { 4096u32 } else { 8192u32 },
    {
        Self::hk(just_pressed).to_bits()
    }

    pub fn left(just_pressed: bool) -> (s: Self)
        ensures
            s == (StateInput {
                x: DirectionalInput::Negative,
                just_pressed_x: just_pressed,
                ..neutral_input()
            }),
    {
        StateInput {
            x: DirectionalInput::Negative,
            just_pressed_x: just_pressed,
            ..StateInput::default()
        }
    }

    pub fn left_bits(just_pressed: bool) -> (v: u32)
        ensures
            v == packed(
                StateInput {
                    x: DirectionalInput::Negative,
                    just_pressed_x: just_pressed,
                    ..neutral_input()
                },
            ),
            v == if just_pressed { LEFT } else { LEFT_HELD },
    {
        Self::left(just_pressed).to_bits()
    }

    pub fn right(just_pressed: bool) -> (s: Self)
        ensures
            s == (StateInput {
                x: DirectionalInput::Positive,
                just_pressed_x: just_pressed,
                ..neutral_input()
            }),
    {
        StateInput {
            x: DirectionalInput::Positive,
            just_pressed_x: just_pressed,
            ..StateInput::default()
        }
    }

    pub fn right_bits(just_pressed: bool) -> (v: u32)
        ensures
            v == packed(
                StateInput {
                    x: DirectionalInput::Positive,
                    just_pressed_x: just_pressed,
                    ..neutral_input()
                },
            ),
            v == if just_pressed { RIGHT } else { RIGHT_HELD },
    {
        Self::right(just_pressed).to_bits()
    }

    pub fn up(just_pressed: bool) -> (s: Self)
        ensures
            s == (StateInput {
                y: DirectionalInput::Positive,
                just_pressed_y: just_pressed,
                ..neutral_input()
            }),
    {
        StateInput {
            y: DirectionalInput::Positive,
            just_pressed_y: just_pressed,
            ..StateInput::default()
        }
    }

    pub fn up_bits(just_pressed: bool) -> (v: u32)
        ensures
            v == packed(
                StateInput {
                    y: DirectionalInput::Positive,
                    just_pressed_y: just_pressed,
                    ..neutral_input()
                },
            ),
            v == if just_pressed { 12582912u32 } else { 8388608u32 },
    {
        Self::up(just_pressed).to_bits()
    }

    pub fn down(just_pressed: bool) -> (s: Self)
        ensures
            s == (StateInput {
                y: DirectionalInput::Negative,
                just_pressed_y: just_pressed,
                ..neutral_input()
            }),
    {
        StateInput {
            y: DirectionalInput::Negative,
            just_pressed_y: just_pressed,
            ..StateInput::default()
        }
    }

    pub fn down_bits(just_pressed: bool) -> (v: u32)
        ensures
            v == packed(
                StateInput {
                    y: DirectionalInput::Negative,
                    just_pressed_y: just_pressed,
                    ..neutral_input()
                },
            ),
            v == if just_pressed { 4194560u32 } else { 256u32 },
    {
        Self::down(just_pressed).to_bits()
    }
}

/// The actions that name a button rather than a direction.
pub open spec fn is_button(action: Action) -> bool {
    match action {
        Action::A | Action::B | Action::C | Action::J | Action::K | Action::L => true,
        _ => false,
    }
}

/// Whether a string is exactly a given literal.
fn str_is(s: &String, lit: &str) -> (r: bool)
    ensures
        r == (s@ == lit@),
{
    *s == lit.to_owned()
}

/// One test of a command: a named button in a phase, or a named axis in a direction.
#[derive(Debug, Clone)]
pub enum MatchExpression {
    Button(String, ButtonPress),
    Directional(String, DirectionalInput, bool),
}

impl Default for MatchExpression {
    fn default() -> (m: Self)
        ensures
            m matches MatchExpression::Button(name, ButtonPress::Idle) && name@ == seq!['a'],
    {
        let name = "a".to_owned();
        proof {
            reveal_strlit("a");
        }
        MatchExpression::Button(name, ButtonPress::Idle)
    }
}

impl MatchExpression {
    /// A copy of the expression.
    pub(crate) fn copy(&self) -> (m: Self)
        ensures
            m == *self,
    {
        match self {
            MatchExpression::Button(name, press) => MatchExpression::Button(name.clone(), *press),
            MatchExpression::Directional(name, direction, just_pressed) => MatchExpression::Directional(
                name.clone(),
                *direction,
                *just_pressed,
            ),
        }
    }
}

/// A copy of one step of a command.
fn copy_step(step: &Vec<MatchExpression>) -> (r: Vec<MatchExpression>)
    ensures
        r@ == step@,
{
    let mut r: Vec<MatchExpression> = Vec::new();
    let mut i: usize = 0;
    while i < step.len()
        invariant
            i <= step@.len(),
            r@ == step@.take(i as int),
        decreases step@.len() - i,
    {
        r.push(step[i].copy());
        proof {
            assert(step@.take(i + 1) =~= step@.take(i as int).push(step@[i as int]));
        }
        i += 1;
    }
    proof {
        assert(step@.take(step@.len() as int) =~= step@);
    }
    r
}


impl StateInput {
    /// Reads an input back from its 32-bit word, or `None` where a direction field holds 3.
    pub fn try_from_bits(value: u32) -> (s: Option<StateInput>)
        ensures
            s == if unpackable(value) {
                Some(unpacked(value))
            } else {
                None
            },
    {
        let x = (value >> 10u32) & 3;
        let y = (((value >> 8u32) & 1) << 1u32) | ((value >> 23u32) & 1);
        assert(x == (value / 1024) % 4 && y == ((value / 256) % 2) * 2 + (value / 8388608) % 2)
            by (bit_vector)
            requires
                x == (value >> 10u32) & 3,
                y == (((value >> 8u32) & 1) << 1u32) | ((value >> 23u32) & 1),
        ;
        if x < 3 && y < 3 {
            Some(StateInput::from_bits(value))
        } else {
            None
        }
    }

    /// The input as seen by a fighter facing `facing`: facing left swaps the two horizontal
    /// directions.
    pub open spec fn faced(self, facing: Direction) -> StateInput {
        if facing == Direction::Left {
            StateInput {
                x: match self.x {
                    DirectionalInput::Neutral => DirectionalInput::Neutral,
                    DirectionalInput::Positive => DirectionalInput::Negative,
                    DirectionalInput::Negative => DirectionalInput::Positive,
                },
                ..self
            }
        } else {
            self
        }
    }
}

/// A sequence of input steps to be found, newest first, in the input buffer.
#[derive(Debug, Clone)]
pub struct CommandInput {
    list: Vec<Vec<MatchExpression>>,
    window: Frame,
    buffer_time: Frame,
}

impl Default for CommandInput {
    fn default() -> (c: Self)
        ensures
            c.list_view() == Seq::<Seq<MatchExpression>>::empty(),
            c.window() == 0,
            c.buffer_time() == 0,
    {
        CommandInput { list: Vec::new(), window: 0, buffer_time: 0 }
    }
}

/// How checking one step's expressions against one input ends.
pub enum StepCheck {
    /// The whole command fails.
    Fail,
    /// Checking goes on with this frame index, buffer time, and whether every expression was met.
    Continue(int, int, bool),
}

impl CommandInput {
    /// The steps, each a list of expressions that one input must meet.
    pub closed spec fn list_view(&self) -> Seq<Seq<MatchExpression>> {
        self.list@.map_values(|v: Vec<MatchExpression>| v@)
    }

    /// How many inputs the whole command may span.
    pub closed spec fn window(&self) -> int {
        self.window as int
    }

    /// How many times the newest inputs may be skipped before the first step is met.
    pub closed spec fn buffer_time(&self) -> int {
        self.buffer_time as int
    }

    pub fn new(list: Vec<Vec<MatchExpression>>, window: Frame, buffer_time: Frame) -> (c: Self)
        ensures
            c.list_view() == list@.map_values(|v: Vec<MatchExpression>| v@),
            c.window() == window,
            c.buffer_time() == buffer_time,
    {
        CommandInput { list, window, buffer_time }
    }

    /// Whether two commands have the same steps, window and buffer time.
    pub open spec fn same_as(&self, other: CommandInput) -> bool {
        &&& self.list_view() == other.list_view()
        &&& self.window() == other.window()
        &&& self.buffer_time() == other.buffer_time()
    }

    /// A copy of the command, with the same steps, window and buffer time.
    pub(crate) fn copy(&self) -> (c: Self)
        ensures
            c.same_as(*self),
    {
        let mut list: Vec<Vec<MatchExpression>> = Vec::new();
        let mut i: usize = 0;
        while i < self.list.len()
            invariant
                i <= self.list@.len(),
                list@.len() == i,
                forall|j: int| 0 <= j < i ==> (#[trigger] list@[j])@ == self.list@[j]@,
            decreases self.list@.len() - i,
        {
            list.push(copy_step(&self.list[i]));
            i += 1;
        }
        let c = CommandInput { list, window: self.window, buffer_time: self.buffer_time };
        assert(c.list_view() =~= self.list_view());
        c
    }

    pub fn window_default() -> (w: Frame)
        ensures
            w == 1,
    {
        1
    }

    pub fn buffer_time_default() -> (w: Frame)
        ensures
            w == BUFFER_TIME,
    {
        BUFFER_TIME
    }

    /// Checks expressions `k..` of one step against one input. A failed expression while the
    /// frame index is 1 restarts the command on the next input if buffer time remains, and
    /// fails the command otherwise. `None` where an expression names no field.
    pub open spec fn check_step(
        self,
        exprs: Seq<MatchExpression>,
        input: StateInput,
        k: nat,
        index: int,
        bt: int,
        same: bool,
    ) -> Option<StepCheck>
        decreases exprs.len() - k,
    {
        if k >= exprs.len() {
            Some(StepCheck::Continue(index, bt, same))
        } else {
            match input.meets(exprs[k as int]) {
                None => None,
                Some(true) => self.check_step(exprs, input, k + 1, index, bt, same),
                Some(false) => if index == 1 {
                    if self.buffer_time() > bt {
                        self.check_step(exprs, input, k + 1, 0, bt + 1, false)
                    } else {
                        Some(StepCheck::Fail)
                    }
                } else {
                    self.check_step(exprs, input, k + 1, index, bt, false)
                },
            }
        }
    }

    /// Matching from step `ci`, frame index `index`, used buffer time `bt`, against the inputs
    /// from position `pos` of `items`. `None` where matching would read an unreadable input or
    /// an expression that names no field.
    pub open spec fn run(
        self,
        items: Seq<u32>,
        facing: Direction,
        ci: nat,
        index: int,
        bt: int,
        pos: nat,
    ) -> Option<bool>
        decreases items.len() - pos,
    {
        if ci >= self.list_view().len() {
            Some(true)
        } else if index + 1 > self.window() {
            Some(false)
        } else if pos >= items.len() {
            Some(false)
        } else if !unpackable(items[pos as int]) {
            None
        } else {
            let input = unpacked(items[pos as int]).faced(facing);
            match self.check_step(self.list_view()[ci as int], input, 0, index + 1, bt, true) {
                None => None,
                Some(StepCheck::Fail) => Some(false),
                Some(StepCheck::Continue(i, b, same)) => if same {
                    self.run(items, facing, ci + 1, i, b, pos + 1)
                } else {
                    self.run(items, facing, ci, i, b, pos + 1)
                },
            }
        }
    }

    /// Whether the newest-first inputs `items` hold this command for a fighter facing
    /// `facing`; `None` where checking would read an unreadable input or a bad name.
    pub open spec fn outcome(self, items: Seq<u32>, facing: Direction) -> Option<bool> {
        self.run(items, facing, 0, 0, 0, 0)
    }

    fn check_step_exec(
        &self,
        command: &Vec<MatchExpression>,
        next: &StateInput,
        start_index: u32,
        start_time: Frame,
    ) -> (r: Option<(bool, u32, Frame, bool)>)
        requires
            start_index <= self.window() + 1,
            start_time <= self.buffer_time(),
        ensures
            r is None <==> self.check_step(command@, *next, 0, start_index as int, start_time as int, true) is None,
            r matches Some((true, _, _, _)) <==> self.check_step(command@, *next, 0, start_index as int, start_time as int, true) matches Some(StepCheck::Fail),
            r matches Some((false, i, b, same)) ==> self.check_step(command@, *next, 0, start_index as int, start_time as int, true) == Some(StepCheck::Continue(i as int, b as int, same))
                && i <= start_index && b <= self.buffer_time(),
    {
        let mut index = start_index;
        let mut buffer_time = start_time;
        let ghost index1 = index as int;
        let ghost bt0 = buffer_time as int;
        let mut same = true;
        let mut k: usize = 0;
        while k < command.len()
            invariant
                self.check_step(command@, *next, k as nat, index as int, buffer_time as int, same)
                    == self.check_step(command@, *next, 0, index1, bt0, true),
                index1 == start_index,
                bt0 == start_time,
                k <= command.len(),
                index <= start_index,
                buffer_time <= self.buffer_time(),
            decreases command.len() - k,
        {
            let m = next.try_compare_command(&command[k]);
            assert(m == next.meets(command@[k as int]));
            match m {
                None => {
                    assert(self.check_step(command@, *next, k as nat, index as int, buffer_time as int, same) is None);
                    assert(self.check_step(command@, *next, 0, index1, bt0, true) is None);
                    return None;
                },
                Some(true) => {},
                Some(false) => {
                    if index == 1 {
                        if self.buffer_time > buffer_time {
                            index = 0;
                            buffer_time += 1;
                        } else {
                            return Some((true, index, buffer_time, false));
                        }
                    }
                    same = false;
                },
            }
            k += 1;
        }
        Some((false, index, buffer_time, same))
    }

    pub fn compare(&self, input: &Buffer, facing: Direction) -> (r: bool)
        requires
            input.ring().len() > 0,
            self.outcome(input.iter_items(), facing) is Some,
        ensures
            Some(r) == self.outcome(input.iter_items(), facing),
    {
        match self.try_compare(input, facing) {
            Some(r) => r,
            None => {
                proof {
                    assert(false);
                }
                false
            },
        }
    }

    /// Like `compare`, but `None` where the comparison meets an unreadable input or an
    /// expression that names no field.
    pub fn try_compare(&self, input: &Buffer, facing: Direction) -> (r: Option<bool>)
        requires
            input.ring().len() > 0,
        ensures
            r == self.outcome(input.iter_items(), facing),
    {
        let mut input_iter = input.iter();
        let ghost it0 = input_iter;
        let ghost items = input.iter_items();
        proof {
            if input.wf() {
                crate::util::lemma_iter_newest_first(*input, it0);
            } else {
                assert(it0.head_pos() >= it0.ring_seq().len());
            }
        }
        let mut index: u32 = 0;
        let mut buffer_time: Frame = 0;
        let ghost mut pos: nat = 0;
        let mut ci: usize = 0;
        while ci < self.list.len()
            invariant
                self.run(items, facing, ci as nat, index as int, buffer_time as int, pos)
                    == self.outcome(items, facing),
                input_iter == it0.steps(pos),
                pos <= items.len(),
                forall|k: nat| k <= items.len() ==> #[trigger] it0.yield_at(k) == if k < items.len() {
                    Some(items[k as int])
                } else {
                    None
                },
                it0.ring_seq().len() > 0,
                items == input.iter_items(),
                index <= self.window(),
                buffer_time <= self.buffer_time(),
                ci <= self.list.len(),
            decreases self.list.len() - ci,
        {
            let command = &self.list[ci];
            assert(command@ == self.list_view()[ci as int]);
            loop
                invariant_except_break
                    self.run(items, facing, ci as nat, index as int, buffer_time as int, pos)
                        == self.outcome(items, facing),
                invariant
                    input_iter == it0.steps(pos),
                    pos <= items.len(),
                    forall|k: nat| k <= items.len() ==> #[trigger] it0.yield_at(k) == if k
                        < items.len() {
                        Some(items[k as int])
                    } else {
                        None
                    },
                    it0.ring_seq().len() > 0,
                    items == input.iter_items(),
                    index <= self.window(),
                    buffer_time <= self.buffer_time(),
                    ci < self.list.len(),
                    command@ == self.list_view()[ci as int],
                ensures
                    self.run(items, facing, (ci + 1) as nat, index as int, buffer_time as int, pos)
                        == self.outcome(items, facing),
                    input_iter == it0.steps(pos),
                    forall|k: nat| k <= items.len() ==> #[trigger] it0.yield_at(k) == if k
                        < items.len() {
                        Some(items[k as int])
                    } else {
                        None
                    },
                    pos <= items.len(),
                    index <= self.window(),
                    buffer_time <= self.buffer_time(),
                decreases items.len() - pos,
            {
                let ghost index0 = index as int;
                index += 1;
                if index > self.window as u32 {
                    assert(self.run(items, facing, ci as nat, index0, buffer_time as int, pos) == Some(false));
                    return Some(false);
                }
                proof {
                    assert(it0.yield_at(pos) == input_iter.next_item());
                    assert(input_iter.done() || input_iter.ring_seq().len() > 0) by {
                        crate::util::lemma_steps_keep_ring(it0, pos);
                    }
                }
                match input_iter.next() {
                    Some(next) => {
                        let ghost item = items[pos as int];
                        let mut next = match StateInput::try_from_bits(*next) {
                            Some(s) => s,
                            None => {
                                return None;
                            },
                        };
                        if facing == Direction::Left {
                            match next.x {
                                DirectionalInput::Neutral => {},
                                DirectionalInput::Positive => {
                                    next.x = DirectionalInput::Negative;
                                },
                                DirectionalInput::Negative => {
                                    next.x = DirectionalInput::Positive;
                                },
                            }
                        }
                        assert(next == unpacked(item).faced(facing));
                        match self.check_step_exec(command, &next, index, buffer_time) {
                            None => {
                                return None;
                            },
                            Some((true, _, _, _)) => {
                                return Some(false);
                            },
                            Some((false, i, b, same)) => {
                                index = i;
                                buffer_time = b;
                                proof {
                                    pos = pos + 1;
                                }
                                if same {
                                    break;
                                }
                            },
                        }
                    },
                    None => {
                        return Some(false);
                    },
                }
            }
            ci += 1;
        }
        Some(true)
    }
}


/// Which of the ten actions a player holds in one frame.
#[derive(Clone, Copy, Debug, PartialEq, Eq, Structural)]
pub struct ActionPresses {
    pub a: bool,
    pub b: bool,
    pub c: bool,
    pub j: bool,
    pub k: bool,
    pub l: bool,
    pub left: bool,
    pub right: bool,
    pub up: bool,
    pub down: bool,
}

/// A button's phase this frame, from its phase last frame and whether it is held now.
pub open spec fn next_button(prev: ButtonPress, pressed: bool) -> ButtonPress {
    if pressed {
        if prev == ButtonPress::Press || prev == ButtonPress::Hold {
            ButtonPress::Hold
        } else {
            ButtonPress::Press
        }
    } else {
        if prev == ButtonPress::Idle || prev == ButtonPress::Release {
            ButtonPress::Idle
        } else {
            ButtonPress::Release
        }
    }
}

/// An axis this frame: the positive side wins over the negative one, and the direction is
/// just pressed when the axis did not already point that way.
pub open spec fn next_axis(prev: (DirectionalInput, bool), pos: bool, neg: bool) -> (
    DirectionalInput,
    bool,
) {
    if pos {
        (DirectionalInput::Positive, prev.0 != DirectionalInput::Positive)
    } else if neg {
        (DirectionalInput::Negative, prev.0 != DirectionalInput::Negative)
    } else {
        (DirectionalInput::Neutral, false)
    }
}

/// The input of this frame, given the input of the previous frame and what is held now.
pub open spec fn next_input(prev: StateInput, p: ActionPresses) -> StateInput {
    StateInput {
        a: next_button(prev.a, p.a),
        b: next_button(prev.b, p.b),
        c: next_button(prev.c, p.c),
        j: next_button(prev.j, p.j),
        k: next_button(prev.k, p.k),
        l: next_button(prev.l, p.l),
        x: next_axis((prev.x, prev.just_pressed_x), p.right, p.left).0,
        just_pressed_x: next_axis((prev.x, prev.just_pressed_x), p.right, p.left).1,
        y: next_axis((prev.y, prev.just_pressed_y), p.up, p.down).0,
        just_pressed_y: next_axis((prev.y, prev.just_pressed_y), p.up, p.down).1,
    }
}

/// What the same presses read as once they have lasted a frame: held buttons as held, the
/// others as idle, and each axis pointing where it is pushed without being just pressed.
pub open spec fn settled(s: StateInput, p: ActionPresses) -> bool {
    let button = |pressed: bool| if pressed { ButtonPress::Hold } else { ButtonPress::Idle };
    &&& s.a == button(p.a)
    &&& s.b == button(p.b)
    &&& s.c == button(p.c)
    &&& s.j == button(p.j)
    &&& s.k == button(p.k)
    &&& s.l == button(p.l)
    &&& s.x == (if p.right {
        DirectionalInput::Positive
    } else if p.left {
        DirectionalInput::Negative
    } else {
        DirectionalInput::Neutral
    })
    &&& s.y == (if p.up {
        DirectionalInput::Positive
    } else if p.down {
        DirectionalInput::Negative
    } else {
        DirectionalInput::Neutral
    })
    &&& !s.just_pressed_x
    &&& !s.just_pressed_y
}

/// How a button's phase follows from its phase last frame: held now, it is pressed or held, and
/// held exactly when it was already down (pressed or held); not held, it is idle or released,
/// and idle exactly when it was already up (idle or released).
pub open spec fn button_follows(prev: ButtonPress, now: ButtonPress, pressed: bool) -> bool {
    if pressed {
        &&& (now == ButtonPress::Press || now == ButtonPress::Hold)
        &&& (now == ButtonPress::Hold <==> (prev == ButtonPress::Press || prev == ButtonPress::Hold))
    } else {
        &&& (now == ButtonPress::Idle || now == ButtonPress::Release)
        &&& (now == ButtonPress::Idle <==> (prev == ButtonPress::Idle || prev == ButtonPress::Release))
    }
}

/// How an axis follows from what is pushed: it points to the pushed side (the positive one when
/// both are), to neither when none is, and is just pressed exactly when it points somewhere it
/// did not point last frame.
pub open spec fn axis_follows(prev: DirectionalInput, now: DirectionalInput, just_pressed: bool, pos: bool, neg: bool) -> bool {
    &&& now == (if pos {
        DirectionalInput::Positive
    } else if neg {
        DirectionalInput::Negative
    } else {
        DirectionalInput::Neutral
    })
    &&& just_pressed == (now != DirectionalInput::Neutral && now != prev)
}

/// Reading the controls of a frame: every button follows from its phase last frame and whether
/// it is held, and each axis from what is pushed and where it pointed last frame.
pub proof fn lemma_controls_read(prev: StateInput, p: ActionPresses)
    ensures
        ({
            let now = next_input(prev, p);
            &&& button_follows(prev.a, now.a, p.a)
            &&& button_follows(prev.b, now.b, p.b)
            &&& button_follows(prev.c, now.c, p.c)
            &&& button_follows(prev.j, now.j, p.j)
            &&& button_follows(prev.k, now.k, p.k)
            &&& button_follows(prev.l, now.l, p.l)
            &&& axis_follows(prev.x, now.x, now.just_pressed_x, p.right, p.left)
            &&& axis_follows(prev.y, now.y, now.just_pressed_y, p.up, p.down)
        }),
{
}

/// Whatever was read before, the same presses on two frames in a row read as settled on the
/// second: a button held on both is held, not pressed again; one let go on both is idle; a
/// direction held on both is no longer just pressed.
pub proof fn lemma_same_presses_settle(prev: StateInput, p: ActionPresses)
    ensures
        settled(next_input(next_input(prev, p), p), p),
{
}

fn button_check(previous: &StateInput, action: Action, pressed: bool) -> (b: ButtonPress)
    requires
        is_button(action),
    ensures
        b == next_button(previous.button_of(action), pressed),
{
    let prev = previous.get_button_from_action(action);
    if pressed {
        if prev == ButtonPress::Press || prev == ButtonPress::Hold {
            ButtonPress::Hold
        } else {
            ButtonPress::Press
        }
    } else {
        if prev == ButtonPress::Idle || prev == ButtonPress::Release {
            ButtonPress::Idle
        } else {
            ButtonPress::Release
        }
    }
}

fn directional_check(previous: &StateInput, pos: Action, check_pos: bool, check_neg: bool) -> (r: (
    DirectionalInput,
    bool,
))
    requires
        !is_button(pos),
    ensures
        r == next_axis(previous.axis_of(pos), check_pos, check_neg),
{
    let prev = previous.get_directional_from_button(pos);
    if check_pos {
        match prev {
            (DirectionalInput::Positive, _) => (DirectionalInput::Positive, false),
            _ => (DirectionalInput::Positive, true),
        }
    } else if check_neg {
        match prev {
            (DirectionalInput::Negative, _) => (DirectionalInput::Negative, false),
            _ => (DirectionalInput::Negative, true),
        }
    } else {
        (DirectionalInput::Neutral, false)
    }
}

/// The packed input of player `handle` for this frame. The second player and a frame without
/// a reading of the controls give the neutral input; otherwise the new input is computed from
/// the previous one, stored in `local`, and packed.
fn next_state_input(previous: &StateInput, p: ActionPresses) -> (s: StateInput)
    ensures
        s == next_input(*previous, p),
{
    let lp = button_check(previous, Action::A, p.a);
    let mp = button_check(previous, Action::B, p.b);
    let hp = button_check(previous, Action::C, p.c);
    let lk = button_check(previous, Action::J, p.j);
    let mk = button_check(previous, Action::K, p.k);
    let hk = button_check(previous, Action::L, p.l);
    let (x, just_pressed_x) = directional_check(previous, Action::Right, p.right, p.left);
    let (y, just_pressed_y) = directional_check(previous, Action::Up, p.up, p.down);
    StateInput::new(lp, mp, hp, lk, mk, hk, x, just_pressed_x, y, just_pressed_y)
}

proof fn lemma_next_input_packable(prev: StateInput, p: ActionPresses)
    ensures
        packable(next_input(prev, p)),
{
}

proof fn lemma_neutral_packed()
    ensures
        packed(neutral_input()) == 0,
{
}

pub fn input(handle: usize, presses: Option<ActionPresses>, local: &mut StateInput) -> (r: Input)
    ensures
        handle == 1 || presses is None ==> r == Input(0) && *final(local) == *old(local),
        handle != 1 && presses is Some ==> *final(local) == next_input(*old(local), presses->0)
            && r == Input(packed(*final(local))),
        handle != 1 && presses is Some ==> unpackable(r.0) && unpacked(r.0) == *final(local),
        packable(*old(local)) ==> packable(*final(local)),
{
    proof {
        lemma_neutral_packed();
    }
    if handle == 1 {
        return Input(StateInput::default().to_bits());
    }
    match presses {
        Some(p) => {
            let previous = *local;
            let inp = next_state_input(&previous, p);
            proof {
                lemma_next_input_packable(previous, p);
                lemma_unpack_packed(inp);
            }
            *local = inp;
            Input(inp.to_bits())
        },
        None => Input(StateInput::default().to_bits()),
    }
}


/// The input at position `pos` of newest-first words, as a fighter facing `facing` reads it.
pub open spec fn read_at(items: Seq<u32>, pos: int, facing: Direction) -> StateInput {
    unpacked(items[pos]).faced(facing)
}

/// Every expression of a step holds for an input.
pub open spec fn step_met(input: StateInput, step: Seq<MatchExpression>) -> bool {
    forall|e: int| 0 <= e < step.len() ==> #[trigger] input.meets(step[e]) == Some(true)
}

/// Every expression of a step names a field, so it can be checked against an input.
pub open spec fn step_checkable(input: StateInput, step: Seq<MatchExpression>) -> bool {
    forall|e: int| 0 <= e < step.len() ==> (#[trigger] input.meets(step[e])) is Some
}

/// Checking a step whose expressions can all be checked keeps the frame index, unless a miss
/// on the first input restarts it; here no restart can happen, and the step is met exactly when
/// every remaining expression holds.
proof fn lemma_check_step_keeps_index(
    c: CommandInput,
    exprs: Seq<MatchExpression>,
    input: StateInput,
    k: nat,
    index: int,
    bt: int,
    same: bool,
)
    requires
        step_checkable(input, exprs),
        index != 1 || step_met(input, exprs),
    ensures
        c.check_step(exprs, input, k, index, bt, same) == Some(
            StepCheck::Continue(
                index,
                bt,
                same && forall|e: int| k <= e < exprs.len() ==> #[trigger] input.meets(exprs[e]) == Some(true),
            ),
        ),
    decreases exprs.len() - k,
{
    if k < exprs.len() {
        assert(input.meets(exprs[k as int]) is Some);
        if input.meets(exprs[k as int]) == Some(true) {
            lemma_check_step_keeps_index(c, exprs, input, k + 1, index, bt, same);
            assert((forall|e: int| k <= e < exprs.len() ==> #[trigger] input.meets(exprs[e]) == Some(true))
                == (forall|e: int| k + 1 <= e < exprs.len() ==> #[trigger] input.meets(exprs[e]) == Some(true)));
        } else {
            assert(index != 1);
            lemma_check_step_keeps_index(c, exprs, input, k + 1, index, bt, false);
        }
    }
}

/// From position `j` on, with the first step already met, a second step met at position `k`
/// finishes the command.
proof fn lemma_second_step_found(c: CommandInput, items: Seq<u32>, facing: Direction, j: int, k: int)
    requires
        c.list_view().len() == 2,
        1 <= j <= k,
        k + 1 <= c.window(),
        k < items.len(),
        forall|p: int| j <= p <= k ==> unpackable(#[trigger] items[p]),
        step_met(read_at(items, k, facing), c.list_view()[1]),
        forall|p: int| j <= p < k ==> step_checkable(#[trigger] read_at(items, p, facing), c.list_view()[1]),
    ensures
        c.run(items, facing, 1, j, 0, j as nat) == Some(true),
    decreases k - j,
{
    assert(unpackable(items[j]));
    let input = read_at(items, j, facing);
    if j < k {
        assert(step_checkable(read_at(items, j, facing), c.list_view()[1]));
    } else {
        assert(step_met(input, c.list_view()[1]));
        assert forall|e: int| 0 <= e < c.list_view()[1].len() implies (#[trigger] input.meets(
            c.list_view()[1][e],
        )) is Some by {
            assert(input.meets(c.list_view()[1][e]) == Some(true));
        }
    }
    lemma_check_step_keeps_index(c, c.list_view()[1], input, 0, j + 1, 0, true);
    if step_met(input, c.list_view()[1]) {
        assert(c.check_step(c.list_view()[1], input, 0, j + 1, 0, true) == Some(
            StepCheck::Continue(j + 1, 0, true),
        ));
        assert(c.run(items, facing, 2, j + 1, 0, (j + 1) as nat) == Some(true));
    } else {
        assert(j < k);
        assert(c.check_step(c.list_view()[1], input, 0, j + 1, 0, true) == Some(
            StepCheck::Continue(j + 1, 0, false),
        ));
        lemma_second_step_found(c, items, facing, j + 1, k);
    }
}

/// A two-step command is found across a gap: when the newest input meets the first step and the
/// input `k` places back, still inside the window, meets the second, with every input between
/// readable and checkable against the second step, the command is in the inputs. Inputs between
/// that do not meet the second step are skipped rather than ending the search.
pub proof fn lemma_two_steps_across_gap(c: CommandInput, items: Seq<u32>, facing: Direction, k: int)
    requires
        c.list_view().len() == 2,
        1 <= k,
        k + 1 <= c.window(),
        k < items.len(),
        forall|p: int| 0 <= p <= k ==> unpackable(#[trigger] items[p]),
        step_met(read_at(items, 0, facing), c.list_view()[0]),
        step_met(read_at(items, k, facing), c.list_view()[1]),
        forall|p: int| 1 <= p < k ==> step_checkable(#[trigger] read_at(items, p, facing), c.list_view()[1]),
    ensures
        c.outcome(items, facing) == Some(true),
{
    assert(unpackable(items[0]));
    let input = read_at(items, 0, facing);
    assert forall|e: int| 0 <= e < c.list_view()[0].len() implies (#[trigger] input.meets(
        c.list_view()[0][e],
    )) is Some by {
        assert(input.meets(c.list_view()[0][e]) == Some(true));
    }
    lemma_check_step_keeps_index(c, c.list_view()[0], input, 0, 1, 0, true);
    lemma_second_step_found(c, items, facing, 1, k);
}

/// Without buffer time, a command is only found starting at the newest input: when the newest
/// input is readable and checkable against the first step but does not meet it, the command is
/// not in the inputs.
pub proof fn lemma_first_step_on_newest_input(c: CommandInput, items: Seq<u32>, facing: Direction)
    requires
        c.list_view().len() > 0,
        c.buffer_time() == 0,
        c.window() >= 1,
        items.len() > 0,
        unpackable(items[0]),
        step_checkable(read_at(items, 0, facing), c.list_view()[0]),
        !step_met(read_at(items, 0, facing), c.list_view()[0]),
    ensures
        c.outcome(items, facing) == Some(false),
{
    let input = read_at(items, 0, facing);
    lemma_first_miss_fails(c, c.list_view()[0], input, 0);
}

proof fn lemma_first_miss_fails(c: CommandInput, exprs: Seq<MatchExpression>, input: StateInput, k: nat)
    requires
        c.buffer_time() == 0,
        step_checkable(input, exprs),
        exists|e: int| k <= e < exprs.len() && #[trigger] input.meets(exprs[e]) == Some(false),
    ensures
        c.check_step(exprs, input, k, 1, 0, true) == Some(StepCheck::Fail),
    decreases exprs.len() - k,
{
    assert(input.meets(exprs[k as int]) is Some);
    if input.meets(exprs[k as int]) == Some(true) {
        let e = choose|e: int| k <= e < exprs.len() && #[trigger] input.meets(exprs[e]) == Some(false);
        assert(e != k);
        lemma_first_miss_fails(c, exprs, input, k + 1);
    }
}

/// Checking a step depends on a command's buffer time and not on its window.
proof fn lemma_check_step_same_buffer_time(
    c: CommandInput,
    c2: CommandInput,
    exprs: Seq<MatchExpression>,
    input: StateInput,
    k: nat,
    index: int,
    bt: int,
    same: bool,
)
    requires
        c2.buffer_time() == c.buffer_time(),
    ensures
        c2.check_step(exprs, input, k, index, bt, same) == c.check_step(exprs, input, k, index, bt, same),
    decreases exprs.len() - k,
{
    if k < exprs.len() {
        lemma_check_step_same_buffer_time(c, c2, exprs, input, k + 1, index, bt, same);
        lemma_check_step_same_buffer_time(c, c2, exprs, input, k + 1, 0, bt + 1, false);
        lemma_check_step_same_buffer_time(c, c2, exprs, input, k + 1, index, bt, false);
    }
}

/// A step either keeps the frame index, and then only a step that began met and stayed met is
/// met, or restarts the command from index 0 after a miss on the first input.
proof fn lemma_check_step_index(
    c: CommandInput,
    exprs: Seq<MatchExpression>,
    input: StateInput,
    k: nat,
    index: int,
    bt: int,
    same: bool,
)
    ensures
        c.check_step(exprs, input, k, index, bt, same) matches Some(StepCheck::Continue(i, b, s)) ==> (
        i == index && (s ==> same)) || (i == 0 && index == 1 && !s),
    decreases exprs.len() - k,
{
    if k < exprs.len() {
        lemma_check_step_index(c, exprs, input, k + 1, index, bt, same);
        lemma_check_step_index(c, exprs, input, k + 1, 0, bt + 1, false);
        lemma_check_step_index(c, exprs, input, k + 1, index, bt, false);
    }
}

proof fn lemma_run_wider(
    c: CommandInput,
    c2: CommandInput,
    items: Seq<u32>,
    facing: Direction,
    ci: nat,
    index: int,
    bt: int,
    pos: nat,
)
    requires
        c2.list_view() == c.list_view(),
        c2.buffer_time() == c.buffer_time(),
        c2.window() >= c.window(),
        c.run(items, facing, ci, index, bt, pos) == Some(true),
    ensures
        c2.run(items, facing, ci, index, bt, pos) == Some(true),
    decreases items.len() - pos,
{
    if ci < c.list_view().len() && pos < items.len() && unpackable(items[pos as int]) {
        let input = unpacked(items[pos as int]).faced(facing);
        lemma_check_step_same_buffer_time(c, c2, c.list_view()[ci as int], input, 0, index + 1, bt, true);
        match c.check_step(c.list_view()[ci as int], input, 0, index + 1, bt, true) {
            Some(StepCheck::Continue(i, b, same)) => {
                if same {
                    lemma_run_wider(c, c2, items, facing, ci + 1, i, b, pos + 1);
                } else {
                    lemma_run_wider(c, c2, items, facing, ci, i, b, pos + 1);
                }
            },
            _ => {},
        }
    }
}

/// A command found in the inputs is still found with a wider window: the window only cuts
/// matching short.
pub proof fn lemma_wider_window_keeps_match(
    c: CommandInput,
    c2: CommandInput,
    items: Seq<u32>,
    facing: Direction,
)
    requires
        c2.list_view() == c.list_view(),
        c2.buffer_time() == c.buffer_time(),
        c2.window() >= c.window(),
        c.outcome(items, facing) == Some(true),
    ensures
        c2.outcome(items, facing) == Some(true),
{
    lemma_run_wider(c, c2, items, facing, 0, 0, 0, 0);
}

proof fn lemma_run_within_window(
    c: CommandInput,
    items: Seq<u32>,
    facing: Direction,
    ci: nat,
    index: int,
    bt: int,
    pos: nat,
)
    requires
        ci <= index <= c.window(),
    ensures
        c.run(items, facing, ci, index, bt, pos) == Some(true) ==> c.list_view().len() <= c.window(),
    decreases items.len() - pos,
{
    if ci < c.list_view().len() && index + 1 <= c.window() && pos < items.len() && unpackable(
        items[pos as int],
    ) {
        let input = unpacked(items[pos as int]).faced(facing);
        lemma_check_step_index(c, c.list_view()[ci as int], input, 0, index + 1, bt, true);
        match c.check_step(c.list_view()[ci as int], input, 0, index + 1, bt, true) {
            Some(StepCheck::Continue(i, b, same)) => {
                if same {
                    lemma_run_within_window(c, items, facing, ci + 1, i, b, pos + 1);
                } else {
                    lemma_run_within_window(c, items, facing, ci, i, b, pos + 1);
                }
            },
            _ => {},
        }
    }
}

/// A command with more steps than its window never matches: each step takes at least one input
/// inside the window.
pub proof fn lemma_more_steps_than_window_never_match(c: CommandInput, items: Seq<u32>, facing: Direction)
    requires
        c.list_view().len() > c.window(),
    ensures
        c.outcome(items, facing) != Some(true),
{
    assert(c.window() >= 0);
    lemma_run_within_window(c, items, facing, 0, 0, 0, 0);
}

/// A packed word with its horizontal direction swapped, as a fighter facing left reads it;
/// unreadable words stay as they are.
pub open spec fn mirrored_word(v: u32) -> u32 {
    if unpackable(v) {
        packed(unpacked(v).faced(Direction::Left))
    } else {
        v
    }
}

/// Checking a command for a fighter facing left gives what checking it for a fighter facing
/// right gives on the same inputs with the horizontal direction swapped.
pub proof fn lemma_facing_left_mirrors(command: CommandInput, items: Seq<u32>)
    ensures
        command.outcome(items, Direction::Left) == command.outcome(
            items.map_values(|v: u32| mirrored_word(v)),
            Direction::Right,
        ),
{
    lemma_mirror_run(command, items, 0, 0, 0, 0);
}

proof fn lemma_mirror_run(command: CommandInput, items: Seq<u32>, ci: nat, index: int, bt: int, pos: nat)
    ensures
        command.run(items, Direction::Left, ci, index, bt, pos) == command.run(
            items.map_values(|v: u32| mirrored_word(v)),
            Direction::Right,
            ci,
            index,
            bt,
            pos,
        ),
    decreases items.len() - pos,
{
    let m = items.map_values(|v: u32| mirrored_word(v));
    if ci < command.list_view().len() && index + 1 <= command.window() && pos < items.len() {
        let v = items[pos as int];
        assert(m[pos as int] == mirrored_word(v));
        if unpackable(v) {
            let faced = unpacked(v).faced(Direction::Left);
            assert(packable(faced));
            lemma_unpack_packed(faced);
            assert(unpacked(m[pos as int]).faced(Direction::Right) == faced);
            match command.check_step(command.list_view()[ci as int], faced, 0, index + 1, bt, true) {
                Some(StepCheck::Continue(i, b, same)) => {
                    if same {
                        lemma_mirror_run(command, items, ci + 1, i, b, pos + 1);
                    } else {
                        lemma_mirror_run(command, items, ci, i, b, pos + 1);
                    }
                },
                _ => {},
            }
        }
    }
}

/// Reading back a packed input gives the input again, when no field holds `PressOrRelease`.
pub proof fn lemma_unpack_packed(s: StateInput)
    requires
        packable(s),
    ensures
        unpackable(packed(s)),
        unpacked(packed(s)) == s,
        reserved_clear(packed(s)),
{
    lemma_codes();
    let v = packed(s);
    lemma_fields_of_sum(
        v,
        field_code(s.a),
        field_code(s.b),
        field_code(s.c),
        field_code(s.j),
        field_code(s.k),
        field_code(s.l),
        direction_code(s.x),
        direction_code(s.y),
        bit(s.just_pressed_x),
        bit(s.just_pressed_y),
    );
    let u = unpacked(v);
    assert(u.a == s.a && u.b == s.b && u.c == s.c && u.j == s.j && u.k == s.k && u.l == s.l);
    assert(u.x == s.x && u.y == s.y);
    assert(u.just_pressed_x == s.just_pressed_x && u.just_pressed_y == s.just_pressed_y);
}

proof fn lemma_fields_of_sum(
    v: u32,
    a: u32,
    b: u32,
    c: u32,
    j: u32,
    k: u32,
    l: u32,
    x: u32,
    y: u32,
    jx: u32,
    jy: u32,
)
    requires
        v == (a * 64 + b * 16 + c * 4 + j + k * 16384 + l * 4096 + x * 1024 + jx * 512 + (y / 2)
            * 256 + (y % 2) * 8388608 + jy * 4194304) as u32,
        a < 4,
        b < 4,
        c < 4,
        j < 4,
        k < 4,
        l < 4,
        x < 3,
        y < 3,
        jx < 2,
        jy < 2,
    ensures
        (v / 64) % 4 == a,
        (v / 16) % 4 == b,
        (v / 4) % 4 == c,
        v % 4 == j,
        (v / 16384) % 4 == k,
        (v / 4096) % 4 == l,
        x_code(v) == x,
        (v / 512) % 2 == jx,
        y_code(v) == y,
        (v / 4194304) % 2 == jy,
        reserved_clear(v),
{
    assert((v / 64) % 4 == a && (v / 16) % 4 == b && (v / 4) % 4 == c && v % 4 == j && (v / 16384)
        % 4 == k && (v / 4096) % 4 == l && (v / 1024) % 4 == x && (v / 512) % 2 == jx && ((v / 256)
        % 2) * 2 + (v / 8388608) % 2 == y && (v / 4194304) % 2 == jy && (v / 65536) % 64 == 0 && v
        / 16777216 == 0) by (bit_vector)
        requires
            v == (a * 64 + b * 16 + c * 4 + j + k * 16384 + l * 4096 + x * 1024 + jx * 512 + (y / 2)
                * 256 + (y % 2) * 8388608 + jy * 4194304) as u32,
            a < 4,
            b < 4,
            c < 4,
            j < 4,
            k < 4,
            l < 4,
            x < 3,
            y < 3,
            jx < 2,
            jy < 2,
    ;
}

/// Packing a readable word whose reserved bits are zero gives the word again.
pub proof fn lemma_packed_unpacked(v: u32)
    requires
        unpackable(v),
        reserved_clear(v),
    ensures
        packed(unpacked(v)) == v,
{
    lemma_codes();
    let s = unpacked(v);
    assert(packed(s) == (((v / 64) % 4) * 64 + ((v / 16) % 4) * 16 + ((v / 4) % 4) * 4 + (v % 4) + ((v
        / 16384) % 4) * 16384 + ((v / 4096) % 4) * 4096 + x_code(v) * 1024 + ((v / 512) % 2) * 512 + (
    y_code(v) / 2) * 256 + (y_code(v) % 2) * 8388608 + ((v / 4194304) % 2) * 4194304) as u32);
    assert(v == (((v / 64) % 4) * 64 + ((v / 16) % 4) * 16 + ((v / 4) % 4) * 4 + (v % 4) + ((v
        / 16384) % 4) * 16384 + ((v / 4096) % 4) * 4096 + ((v / 1024) % 4) * 1024 + ((v / 512) % 2)
        * 512 + ((((v / 256) % 2) * 2 + (v / 8388608) % 2) / 2) * 256 + ((((v / 256) % 2) * 2 + (v
        / 8388608) % 2) % 2) * 8388608 + ((v / 4194304) % 2) * 4194304) as u32) by (bit_vector)
        requires
            (v / 65536) % 64 == 0,
            v / 16777216 == 0,
    ;
}

} // verus!
