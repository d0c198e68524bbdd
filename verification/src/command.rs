//! The vocabulary of the system: buttons, button-press packets, commands
//! and the privileges of those who send them.

pub use crate::parsing::{
    parse_command, parse_command_at, parse_movement, parse_movement_token, parse_tokens,
};
use vstd::prelude::*;
use vstd::string::*;

verus! {

/// A point in time: milliseconds since the Unix epoch.
pub type Instant = i64;

/// A length of time in milliseconds.
pub type Millis = i64;

/// How open the gamepad is to the audience.
#[derive(Copy, Clone, Debug, PartialEq, Eq, Structural)]
pub enum AnarchyType {
    Anarchy,
    Democracy,
    Restricted,
    Streaming,
}

impl AnarchyType {
    /// The name under which a mode is stored and shown.
    pub open spec fn name(self) -> Seq<char> {
        match self {
            AnarchyType::Anarchy => "anarchy"@,
            AnarchyType::Democracy => "democracy"@,
            AnarchyType::Restricted => "restricted"@,
            AnarchyType::Streaming => "streaming"@,
        }
    }

    /// The mode that a stored name stands for.
    pub open spec fn named(s: Seq<char>) -> Option<AnarchyType> {
        if s == "anarchy"@ {
            Some(AnarchyType::Anarchy)
        } else if s == "democracy"@ {
            Some(AnarchyType::Democracy)
        } else if s == "restricted"@ {
            Some(AnarchyType::Restricted)
        } else if s == "streaming"@ {
            Some(AnarchyType::Streaming)
        } else {
            None
        }
    }

    /// The name under which the mode is stored and shown.
    pub fn to_str(self) -> (r: &'static str)
        ensures
            r@ == self.name(),
    {
        match self {
            AnarchyType::Anarchy => "anarchy",
            AnarchyType::Democracy => "democracy",
            AnarchyType::Restricted => "restricted",
            AnarchyType::Streaming => "streaming",
        }
    }

    /// The mode of that name.
    pub fn from_str(s: &str) -> (r: Option<AnarchyType>)
        ensures
            r == AnarchyType::named(s@),
    {
        if crate::text::same_text(s, "anarchy") {
            Some(AnarchyType::Anarchy)
        } else if crate::text::same_text(s, "democracy") {
            Some(AnarchyType::Democracy)
        } else if crate::text::same_text(s, "restricted") {
            Some(AnarchyType::Restricted)
        } else if crate::text::same_text(s, "streaming") {
            Some(AnarchyType::Streaming)
        } else {
            None
        }
    }

    /// A mode's name stands for that mode and no other.
    pub proof fn lemma_name_round_trip(self)
        ensures
            AnarchyType::named(self.name()) == Some(self),
    {
        reveal_strlit("anarchy");
        reveal_strlit("democracy");
        reveal_strlit("restricted");
        reveal_strlit("streaming");
        assert("anarchy"@[0] == 'a');
        assert("democracy"@[0] == 'd');
        assert("restricted"@[0] == 'r');
        assert("streaming"@[0] == 's');
    }
}

/// What a sender may do, from least to most.
#[derive(Copy, Clone, Debug, PartialEq, Eq, PartialOrd, Ord, Structural)]
pub enum Privilege {
    Standard,
    Operator,
    Moderator,
    Broadcaster,
}

impl Privilege {
    /// The place of a privilege in the order `Standard < Operator <
    /// Moderator < Broadcaster`.
    pub open spec fn rank(self) -> int {
        match self {
            Privilege::Standard => 0,
            Privilege::Operator => 1,
            Privilege::Moderator => 2,
            Privilege::Broadcaster => 3,
        }
    }

    fn rank_number(self) -> (r: u8)
        ensures
            r == self.rank(),
    {
        match self {
            Privilege::Standard => 0,
            Privilege::Operator => 1,
            Privilege::Moderator => 2,
            Privilege::Broadcaster => 3,
        }
    }

    /// Whether this privilege is `floor` or one above it.
    pub fn at_least(self, floor: Privilege) -> (r: bool)
        ensures
            r == (self.rank() >= floor.rank()),
    {
        self.rank_number() >= floor.rank_number()
    }
}

/// A button of the virtual gamepad.
#[derive(Copy, Clone, Debug, PartialEq, Eq, Hash, Structural)]
#[non_exhaustive]
pub enum Movement {
    A,
    B,
    C,
    X,
    Y,
    Z,
    TL,
    TR,
    Up,
    Down,
    Left,
    Right,
    Start,
    Select,
    Mode,
}

/// The number of buttons.
pub const MOVEMENT_COUNT: usize = 15;

impl Movement {
    /// The place of a button in the order in which the enum lists them.
    pub open spec fn index(self) -> int {
        match self {
            Movement::A => 0,
            Movement::B => 1,
            Movement::C => 2,
            Movement::X => 3,
            Movement::Y => 4,
            Movement::Z => 5,
            Movement::TL => 6,
            Movement::TR => 7,
            Movement::Up => 8,
            Movement::Down => 9,
            Movement::Left => 10,
            Movement::Right => 11,
            Movement::Start => 12,
            Movement::Select => 13,
            Movement::Mode => 14,
        }
    }

    /// The button at a place of that order.
    pub open spec fn at(i: int) -> Movement {
        if i == 0 {
            Movement::A
        } else if i == 1 {
            Movement::B
        } else if i == 2 {
            Movement::C
        } else if i == 3 {
            Movement::X
        } else if i == 4 {
            Movement::Y
        } else if i == 5 {
            Movement::Z
        } else if i == 6 {
            Movement::TL
        } else if i == 7 {
            Movement::TR
        } else if i == 8 {
            Movement::Up
        } else if i == 9 {
            Movement::Down
        } else if i == 10 {
            Movement::Left
        } else if i == 11 {
            Movement::Right
        } else if i == 12 {
            Movement::Start
        } else if i == 13 {
            Movement::Select
        } else {
            Movement::Mode
        }
    }

    /// Up, Down, Left, Right, Start and Select take priority over what is
    /// held: they are the directional buttons.
    pub open spec fn directional(self) -> bool {
        self == Movement::Up || self == Movement::Down || self == Movement::Left || self
            == Movement::Right || self == Movement::Start || self == Movement::Select
    }

    /// The place of the button in the order of the enum.
    pub fn to_index(self) -> (r: usize)
        ensures
            r == self.index(),
            r < MOVEMENT_COUNT,
            Movement::at(r as int) == self,
    {
        match self {
            Movement::A => 0,
            Movement::B => 1,
            Movement::C => 2,
            Movement::X => 3,
            Movement::Y => 4,
            Movement::Z => 5,
            Movement::TL => 6,
            Movement::TR => 7,
            Movement::Up => 8,
            Movement::Down => 9,
            Movement::Left => 10,
            Movement::Right => 11,
            Movement::Start => 12,
            Movement::Select => 13,
            Movement::Mode => 14,
        }
    }

    /// The button at a place of the order of the enum.
    pub fn from_index(i: usize) -> (r: Movement)
        requires
            i < MOVEMENT_COUNT,
        ensures
            r == Movement::at(i as int),
            r.index() == i,
    {
        if i == 0 {
            Movement::A
        } else if i == 1 {
            Movement::B
        } else if i == 2 {
            Movement::C
        } else if i == 3 {
            Movement::X
        } else if i == 4 {
            Movement::Y
        } else if i == 5 {
            Movement::Z
        } else if i == 6 {
            Movement::TL
        } else if i == 7 {
            Movement::TR
        } else if i == 8 {
            Movement::Up
        } else if i == 9 {
            Movement::Down
        } else if i == 10 {
            Movement::Left
        } else if i == 11 {
            Movement::Right
        } else if i == 12 {
            Movement::Start
        } else if i == 13 {
            Movement::Select
        } else {
            Movement::Mode
        }
    }

    /// Whether the button is one of the six directional ones.
    pub fn is_directional(self) -> (r: bool)
        ensures
            r == self.directional(),
    {
        match self {
            Movement::Up
            | Movement::Down
            | Movement::Left
            | Movement::Right
            | Movement::Start
            | Movement::Select => true,
            _ => false,
        }
    }
}

/// Buttons to press together, for how long, and how.
#[derive(Clone, Debug, PartialEq, Eq)]
pub struct MovementPacket {
    pub movements: Vec<Movement>,
    /// How long the buttons are held, in milliseconds.
    pub duration: u64,
    /// The pause between one press (or release) and the next, in
    /// milliseconds; only a blocking packet staggers.
    pub stagger: u64,
    /// A blocking packet runs from its first press to its last release with
    /// nothing in between.
    pub blocking: bool,
}

/// A packet as a mathematical value.
pub struct PacketView {
    pub movements: Seq<Movement>,
    pub duration: u64,
    pub stagger: u64,
    pub blocking: bool,
}

impl View for MovementPacket {
    type V = PacketView;

    open spec fn view(&self) -> PacketView {
        PacketView {
            movements: self.movements@,
            duration: self.duration,
            stagger: self.stagger,
            blocking: self.blocking,
        }
    }
}

impl DeepView for MovementPacket {
    type V = PacketView;

    open spec fn deep_view(&self) -> PacketView {
        self@
    }
}

impl PacketView {
    /// Whether one of the packet's buttons is directional.
    pub open spec fn contains_direction(self) -> bool {
        exists|i: int| 0 <= i < self.movements.len() && (#[trigger] self.movements[i]).directional()
    }
}

impl MovementPacket {
    /// Whether one of the packet's buttons is directional.
    pub fn contains_direction(&self) -> (r: bool)
        ensures
            r == self@.contains_direction(),
    {
        let mut i: usize = 0;
        while i < self.movements.len()
            invariant
                i <= self.movements@.len(),
                forall|j: int| 0 <= j < i ==> !(#[trigger] self.movements@[j]).directional(),
            decreases self.movements@.len() - i,
        {
            if self.movements[i].is_directional() {
                assert(self@.movements[i as int].directional());
                return true;
            }
            i = i + 1;
        }
        false
    }

    /// A packet of its own with the same content.
    pub fn duplicate(&self) -> (r: MovementPacket)
        ensures
            r@ == self@,
    {
        let mut movements: Vec<Movement> = Vec::new();
        let mut i: usize = 0;
        while i < self.movements.len()
            invariant
                i <= self.movements@.len(),
                movements@ == self.movements@.subrange(0, i as int),
            decreases self.movements@.len() - i,
        {
            movements.push(self.movements[i]);
            i = i + 1;
            assert(movements@ =~= self.movements@.subrange(0, i as int));
        }
        assert(self.movements@.subrange(0, i as int) =~= self.movements@);
        MovementPacket {
            movements,
            duration: self.duration,
            stagger: self.stagger,
            blocking: self.blocking,
        }
    }
}

/// A command whose keyword was understood and whose arguments were not:
/// the tag says which usage hint to show.
#[derive(Copy, Clone, Debug, PartialEq, Eq, Structural)]
#[non_exhaustive]
pub enum PartialCommand {
    AddOperator,
    RemoveOperator,
    Block,
    Unblock,
    Game,
    List,
    SetCooldown,
    SetAnarchyMode,
    PlaySfx,
}

/// What a line of chat asks for.
#[derive(Clone, Debug, PartialEq, Eq)]
#[non_exhaustive]
pub enum Command {
    Movement(MovementPacket),
    AddOperator(String),
    RemoveOperator(String),
    /// Block a user, until the given instant or for good.
    Block(String, Option<Instant>),
    Unblock(String),
    Game(String),
    Stop,
    Partial(PartialCommand),
    ListBlocked,
    ListOperators,
    ListGames,
    PrintHelp,
    SaveState,
    LoadState,
    Reset,
    SetCooldown(Millis),
    SetAnarchyMode(AnarchyType),
    PrintAnarchyMode,
    PlaySfx(String),
    Controls(Option<String>),
}

/// A command as a mathematical value.
pub enum CommandView {
    Movement(PacketView),
    AddOperator(Seq<char>),
    RemoveOperator(Seq<char>),
    Block(Seq<char>, Option<Instant>),
    Unblock(Seq<char>),
    Game(Seq<char>),
    Stop,
    Partial(PartialCommand),
    ListBlocked,
    ListOperators,
    ListGames,
    PrintHelp,
    SaveState,
    LoadState,
    Reset,
    SetCooldown(Millis),
    SetAnarchyMode(AnarchyType),
    PrintAnarchyMode,
    PlaySfx(Seq<char>),
    Controls(Option<Seq<char>>),
}

impl View for Command {
    type V = CommandView;

    open spec fn view(&self) -> CommandView {
        match self {
            Command::Movement(p) => CommandView::Movement(p@),
            Command::AddOperator(u) => CommandView::AddOperator(u@),
            Command::RemoveOperator(u) => CommandView::RemoveOperator(u@),
            Command::Block(u, t) => CommandView::Block(u@, *t),
            Command::Unblock(u) => CommandView::Unblock(u@),
            Command::Game(g) => CommandView::Game(g@),
            Command::Stop => CommandView::Stop,
            Command::Partial(p) => CommandView::Partial(*p),
            Command::ListBlocked => CommandView::ListBlocked,
            Command::ListOperators => CommandView::ListOperators,
            Command::ListGames => CommandView::ListGames,
            Command::PrintHelp => CommandView::PrintHelp,
            Command::SaveState => CommandView::SaveState,
            Command::LoadState => CommandView::LoadState,
            Command::Reset => CommandView::Reset,
            Command::SetCooldown(d) => CommandView::SetCooldown(*d),
            Command::SetAnarchyMode(m) => CommandView::SetAnarchyMode(*m),
            Command::PrintAnarchyMode => CommandView::PrintAnarchyMode,
            Command::PlaySfx(s) => CommandView::PlaySfx(s@),
            Command::Controls(g) => CommandView::Controls(
                match g {
                    Some(name) => Some(name@),
                    None => None,
                },
            ),
        }
    }
}

impl DeepView for Command {
    type V = CommandView;

    open spec fn deep_view(&self) -> CommandView {
        self@
    }
}

/// A command with its sender, as the chat transport hands it over.
#[derive(Clone, Debug)]
pub struct Message {
    pub command: Command,
    /// The sender's stable identity.
    pub sender_id: String,
    /// The sender's display name, by which moderators name a user.
    pub sender_name: String,
    /// The privilege that the transport vouches for.
    pub privilege: Privilege,
}

} // verus!
