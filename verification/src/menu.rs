//! The context menu's entries.
use vstd::prelude::*;

verus! {

/// An entry of the context menu.
#[derive(Debug, Clone, Copy, PartialEq, Eq, Structural)]
pub enum MenuAction {
    Go,
    Message,
    Spawn,
    ToggleHidden,
    Dismiss,
}

impl MenuAction {
    /// Every entry, in display order; the destructive one is last.
    pub const ALL: [MenuAction; 5] = [
        MenuAction::Go,
        MenuAction::Message,
        MenuAction::Spawn,
        MenuAction::ToggleHidden,
        MenuAction::Dismiss,
    ];

    pub open spec fn word(self) -> Seq<char> {
        match self {
            MenuAction::Go => "go"@,
            MenuAction::Message => "msg"@,
            MenuAction::Spawn => "new"@,
            MenuAction::ToggleHidden => "hide/show"@,
            MenuAction::Dismiss => "delete"@,
        }
    }

    /// Where the entry stands.
    pub open spec fn place(self) -> int {
        match self {
            MenuAction::Go => 0,
            MenuAction::Message => 1,
            MenuAction::Spawn => 2,
            MenuAction::ToggleHidden => 3,
            MenuAction::Dismiss => 4,
        }
    }

    /// The entry below this one, or above it, round and round.
    pub open spec fn beside(self, down: bool) -> MenuAction {
        if down {
            MenuAction::ALL[(self.place() + 1) % 5]
        } else {
            MenuAction::ALL[(self.place() + 4) % 5]
        }
    }

    /// Where the entry stands.
    pub fn index(self) -> (r: usize)
        ensures
            r == self.place(),
            r < 5,
            MenuAction::ALL[r as int] == self,
    {
        match self {
            MenuAction::Go => 0,
            MenuAction::Message => 1,
            MenuAction::Spawn => 2,
            MenuAction::ToggleHidden => 3,
            MenuAction::Dismiss => 4,
        }
    }

    /// The entry below this one, or above it, round and round.
    pub fn turn(self, down: bool) -> (r: MenuAction)
        ensures
            r == self.beside(down),
    {
        let all = MenuAction::ALL;
        let i = self.index();
        let k: usize = if down {
            (i + 1) % 5
        } else {
            (i + 4) % 5
        };
        all[k]
    }

    /// The entry's label, the verb that the footer has for it.
    pub fn label(self) -> (r: &'static str)
        ensures
            r@ == self.word(),
    {
        match self {
            MenuAction::Go => "go",
            MenuAction::Message => "msg",
            MenuAction::Spawn => "new",
            MenuAction::ToggleHidden => "hide/show",
            MenuAction::Dismiss => "delete",
        }
    }
}

/// Going down and up again, or up and down, comes back to the entry.
pub proof fn law_menu_turns_back(a: MenuAction, down: bool)
    ensures
        a.beside(down).beside(!down) == a,
        MenuAction::ALL[a.place()] == a,
{
}

/// Turning the menu down goes through its five actions in their order and comes
/// round, and each is told by a word of its own.
pub proof fn law_menu_goes_round(a: MenuAction, b: MenuAction)
    ensures
        MenuAction::Go.beside(true) == MenuAction::Message,
        MenuAction::Message.beside(true) == MenuAction::Spawn,
        MenuAction::Spawn.beside(true) == MenuAction::ToggleHidden,
        MenuAction::ToggleHidden.beside(true) == MenuAction::Dismiss,
        MenuAction::Dismiss.beside(true) == MenuAction::Go,
        a.word() == b.word() ==> a == b,
{
    reveal_strlit("go");
    reveal_strlit("msg");
    reveal_strlit("new");
    reveal_strlit("hide/show");
    reveal_strlit("delete");
    assert("go"@[0] == 'g');
    assert("msg"@[0] == 'm');
    assert("new"@[0] == 'n');
    assert("hide/show"@[0] == 'h');
    assert("delete"@[0] == 'd');
}

} // verus!
