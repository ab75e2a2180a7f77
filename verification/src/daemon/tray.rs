//! The tray's menu: what it offers for what waits, and what a choice commands.
use vstd::prelude::*;

use crate::daemon::router::ApprovalAction;
use crate::text::{cat, cat3};

verus! {

/// What the operator chose in the tray.
#[derive(Debug, PartialEq, Eq)]
pub enum TrayCommand {
    /// A decision on the submission with this id.
    Decide(String, ApprovalAction),
    /// Whether the kind with this label is registered.
    DecideRegistration(String, bool),
    /// To see the submission with this id in full.
    ShowDetails(String),
    /// To open the board.
    OpenBoard,
    /// To stop the daemon.
    Quit,
}

pub enum TrayCommandView {
    Decide(Seq<char>, ApprovalAction),
    DecideRegistration(Seq<char>, bool),
    ShowDetails(Seq<char>),
    OpenBoard,
    Quit,
}

impl View for TrayCommand {
    type V = TrayCommandView;

    open spec fn view(&self) -> TrayCommandView {
        match self {
            TrayCommand::Decide(id, a) => TrayCommandView::Decide(id@, *a),
            TrayCommand::DecideRegistration(l, b) => TrayCommandView::DecideRegistration(l@, *b),
            TrayCommand::ShowDetails(id) => TrayCommandView::ShowDetails(id@),
            TrayCommand::OpenBoard => TrayCommandView::OpenBoard,
            TrayCommand::Quit => TrayCommandView::Quit,
        }
    }
}

/// What choosing an item does.
#[derive(Debug, Clone, Copy, PartialEq, Eq, Structural)]
pub enum TrayChoice {
    Decide(ApprovalAction),
    Register(bool),
    Details,
    OpenBoard,
    Quit,
}

/// One entry of the menu; an item without a choice is a line of text.
#[derive(Debug, PartialEq, Eq)]
pub enum TrayItem {
    Item { label: String, choice: Option<TrayChoice> },
    Separator,
}

pub enum TrayItemView {
    Item { label: Seq<char>, choice: Option<TrayChoice> },
    Separator,
}

impl View for TrayItem {
    type V = TrayItemView;

    open spec fn view(&self) -> TrayItemView {
        match self {
            TrayItem::Item { label, choice } => TrayItemView::Item {
                label: label@,
                choice: *choice,
            },
            TrayItem::Separator => TrayItemView::Separator,
        }
    }
}

pub open spec fn items(v: Seq<TrayItem>) -> Seq<TrayItemView> {
    Seq::new(v.len(), |i: int| v[i]@)
}

/// What the tray shows: the submission that waits, by id and summary, and the
/// kind that waits to be registered, by label and launch set.
#[derive(Debug)]
pub struct CorralTray {
    pending: Option<(String, String)>,
    registration: Option<(String, String)>,
}

#[verifier::ext_equal]
pub struct TrayView {
    pub pending: Option<(Seq<char>, Seq<char>)>,
    pub registration: Option<(Seq<char>, Seq<char>)>,
}

pub open spec fn opt_pair(p: Option<(String, String)>) -> Option<(Seq<char>, Seq<char>)> {
    match p {
        Some(x) => Some((x.0@, x.1@)),
        None => None,
    }
}

impl View for CorralTray {
    type V = TrayView;

    closed spec fn view(&self) -> TrayView {
        TrayView { pending: opt_pair(self.pending), registration: opt_pair(self.registration) }
    }
}

pub open spec fn line_item(label: Seq<char>) -> TrayItemView {
    TrayItemView::Item { label, choice: None }
}

pub open spec fn choice_item(label: Seq<char>, choice: TrayChoice) -> TrayItemView {
    TrayItemView::Item { label, choice: Some(choice) }
}

/// The menu.
pub open spec fn tray_menu(t: TrayView) -> Seq<TrayItemView> {
    let messages = match t.pending {
        Some(p) => seq![
            line_item("Pending: "@ + p.1),
            choice_item("Allow once"@, TrayChoice::Decide(ApprovalAction::AllowOnce)),
            choice_item("Allow always"@, TrayChoice::Decide(ApprovalAction::AllowAlways)),
            choice_item("Deny"@, TrayChoice::Decide(ApprovalAction::Deny)),
            choice_item("Show details"@, TrayChoice::Details),
        ],
        None => seq![line_item("No messages waiting"@)],
    };
    let kinds = match t.registration {
        Some(r) => seq![
            TrayItemView::Separator,
            line_item("Register "@ + r.0 + ": "@ + r.1),
            choice_item("Approve kind"@, TrayChoice::Register(true)),
            choice_item("Reject kind"@, TrayChoice::Register(false)),
        ],
        None => Seq::empty(),
    };
    messages + kinds + seq![
        TrayItemView::Separator,
        choice_item("Open board"@, TrayChoice::OpenBoard),
        choice_item("Quit corrald"@, TrayChoice::Quit),
    ]
}

/// What a choice commands, and what the tray shows then: a decision clears what
/// it was about, so that it cannot be given twice.
pub open spec fn tray_choose(t: TrayView, c: TrayChoice) -> (TrayView, Option<TrayCommandView>) {
    match c {
        TrayChoice::Decide(a) => (
            TrayView { pending: None, ..t },
            match t.pending {
                Some(p) => Some(TrayCommandView::Decide(p.0, a)),
                None => None,
            },
        ),
        TrayChoice::Register(b) => (
            TrayView { registration: None, ..t },
            match t.registration {
                Some(r) => Some(TrayCommandView::DecideRegistration(r.0, b)),
                None => None,
            },
        ),
        TrayChoice::Details => (
            t,
            match t.pending {
                Some(p) => Some(TrayCommandView::ShowDetails(p.0)),
                None => None,
            },
        ),
        TrayChoice::OpenBoard => (t, Some(TrayCommandView::OpenBoard)),
        TrayChoice::Quit => (t, Some(TrayCommandView::Quit)),
    }
}

pub open spec fn opt_command(c: Option<TrayCommand>) -> Option<TrayCommandView> {
    match c {
        Some(x) => Some(x@),
        None => None,
    }
}

fn text_line(label: String) -> (r: TrayItem)
    ensures
        r@ == line_item(label@),
{
    TrayItem::Item { label, choice: None }
}

fn offer(label: &str, choice: TrayChoice) -> (r: TrayItem)
    ensures
        r@ == choice_item(label@, choice),
{
    TrayItem::Item { label: label.to_owned(), choice: Some(choice) }
}

impl CorralTray {
    /// A tray with nothing waiting.
    pub fn new() -> (r: Self)
        ensures
            r@ == (TrayView { pending: None, registration: None }),
    {
        CorralTray { pending: None, registration: None }
    }

    /// Reflects the submission that waits first.
    pub fn set_pending(&mut self, pending: Option<(String, String)>)
        ensures
            final(self)@ == (TrayView { pending: opt_pair(pending), ..old(self)@ }),
    {
        self.pending = pending;
    }

    /// Reflects the kind that waits to be registered.
    pub fn set_pending_registration(&mut self, registration: Option<(String, String)>)
        ensures
            final(self)@ == (TrayView { registration: opt_pair(registration), ..old(self)@ }),
    {
        self.registration = registration;
    }

    /// Whether a submission waits.
    pub fn attention(&self) -> (r: bool)
        ensures
            r == self@.pending is Some,
    {
        self.pending.is_some()
    }

    /// The tray's title.
    pub fn title(&self) -> (r: &'static str)
        ensures
            r@ == (if self@.pending is Some {
                "corral — message waiting"@
            } else {
                "corral"@
            }),
    {
        if self.pending.is_some() {
            "corral — message waiting"
        } else {
            "corral"
        }
    }

    /// The name of the tray's icon.
    pub fn icon_name(&self) -> (r: &'static str)
        ensures
            r@ == (if self@.pending is Some {
                "mail-unread-new"@
            } else {
                "mail-read"@
            }),
    {
        if self.pending.is_some() {
            "mail-unread-new"
        } else {
            "mail-read"
        }
    }

    /// Decides the submission that waits, and clears it.
    pub fn decide(&mut self, action: ApprovalAction) -> (r: Option<TrayCommand>)
        ensures
            (final(self)@, opt_command(r)) == tray_choose(old(self)@, TrayChoice::Decide(action)),
    {
        let command = match &self.pending {
            Some(p) => Some(TrayCommand::Decide(p.0.clone(), action)),
            None => None,
        };
        self.pending = None;
        command
    }

    /// What an item that was chosen commands.
    pub fn choose_item(&mut self, choice: TrayChoice) -> (r: Option<TrayCommand>)
        ensures
            (final(self)@, opt_command(r)) == tray_choose(old(self)@, choice),
    {
        match choice {
            TrayChoice::Decide(a) => self.decide(a),
            TrayChoice::Register(b) => {
                let command = match &self.registration {
                    Some(x) => Some(TrayCommand::DecideRegistration(x.0.clone(), b)),
                    None => None,
                };
                self.registration = None;
                command
            },
            TrayChoice::Details => match &self.pending {
                Some(p) => Some(TrayCommand::ShowDetails(p.0.clone())),
                None => None,
            },
            TrayChoice::OpenBoard => Some(TrayCommand::OpenBoard),
            TrayChoice::Quit => Some(TrayCommand::Quit),
        }
    }

    /// The menu.
    pub fn menu(&self) -> (r: Vec<TrayItem>)
        ensures
            items(r@) == tray_menu(self@),
    {
        let mut out: Vec<TrayItem> = Vec::new();
        match &self.pending {
            Some(p) => {
                out.push(text_line(cat("Pending: ", p.1.as_str())));
                out.push(offer("Allow once", TrayChoice::Decide(ApprovalAction::AllowOnce)));
                out.push(offer("Allow always", TrayChoice::Decide(ApprovalAction::AllowAlways)));
                out.push(offer("Deny", TrayChoice::Decide(ApprovalAction::Deny)));
                out.push(offer("Show details", TrayChoice::Details));
            },
            None => {
                out.push(text_line("No messages waiting".to_owned()));
            },
        }
        match &self.registration {
            Some(x) => {
                out.push(TrayItem::Separator);
                let mut l = cat3("Register ", x.0.as_str(), ": ");
                l.append(x.1.as_str());
                out.push(text_line(l));
                out.push(offer("Approve kind", TrayChoice::Register(true)));
                out.push(offer("Reject kind", TrayChoice::Register(false)));
            },
            None => {},
        }
        out.push(TrayItem::Separator);
        out.push(offer("Open board", TrayChoice::OpenBoard));
        out.push(offer("Quit corrald", TrayChoice::Quit));
        assert(items(out@) =~= tray_menu(self@));
        out
    }
}

/// A decision names the submission that the menu showed, and is not offered
/// again.
pub proof fn law_decision_is_given_once(t: TrayView, a: ApprovalAction, b: ApprovalAction)
    ensures
        ({
            let first = tray_choose(t, TrayChoice::Decide(a));
            let second = tray_choose(first.0, TrayChoice::Decide(b));
            &&& t.pending matches Some(p) ==> first.1 == Some(TrayCommandView::Decide(p.0, a))
            &&& second.1 is None
        }),
{
}

/// The menu offers a choice.
pub open spec fn offers(m: Seq<TrayItemView>, c: TrayChoice) -> bool {
    exists|i: int|
        0 <= i < m.len() && (#[trigger] m[i] matches TrayItemView::Item { choice, .. } && choice
            == Some(c))
}

/// The menu offers what there is to decide: the three decisions and the details
/// exactly while a message waits, the two on a kind exactly while one does, and
/// always the board and the way out.
pub proof fn law_menu_offers_what_there_is_to_decide(t: TrayView, a: ApprovalAction, b: bool)
    ensures
        offers(tray_menu(t), TrayChoice::Decide(a)) <==> t.pending is Some,
        offers(tray_menu(t), TrayChoice::Details) <==> t.pending is Some,
        offers(tray_menu(t), TrayChoice::Register(b)) <==> t.registration is Some,
        offers(tray_menu(t), TrayChoice::OpenBoard),
        offers(tray_menu(t), TrayChoice::Quit),
{
    let m = tray_menu(t);
    let n: int = if t.pending is Some {
        5
    } else {
        1
    };
    let k: int = n + if t.registration is Some {
        4int
    } else {
        0
    };
    assert(m.len() == k + 3);
    assert(m[k + 1] == choice_item("Open board"@, TrayChoice::OpenBoard));
    assert(m[k + 2] == choice_item("Quit corrald"@, TrayChoice::Quit));
    if t.pending is Some {
        assert(m[1] == choice_item("Allow once"@, TrayChoice::Decide(ApprovalAction::AllowOnce)));
        assert(m[2] == choice_item("Allow always"@, TrayChoice::Decide(ApprovalAction::AllowAlways)));
        assert(m[3] == choice_item("Deny"@, TrayChoice::Decide(ApprovalAction::Deny)));
        assert(m[4] == choice_item("Show details"@, TrayChoice::Details));
    }
    if t.registration is Some {
        assert(m[n + 2] == choice_item("Approve kind"@, TrayChoice::Register(true)));
        assert(m[n + 3] == choice_item("Reject kind"@, TrayChoice::Register(false)));
    }
}

/// A choice speaks of what is shown, and takes away only what it decides: of
/// a kind it says whether it is registered, once, and the details, the board and
/// the way out change nothing.
pub proof fn law_choice_speaks_of_what_is_shown(t: TrayView, a: ApprovalAction, b: bool)
    ensures
        ({
            let (u, c) = tray_choose(t, TrayChoice::Register(b));
            &&& u.registration is None
            &&& u.pending == t.pending
            &&& t.registration matches Some(r) ==> c == Some(TrayCommandView::DecideRegistration(r.0, b))
            &&& t.registration is None ==> c is None
        }),
        tray_choose(t, TrayChoice::Decide(a)).0.pending is None,
        tray_choose(t, TrayChoice::Decide(a)).0.registration == t.registration,
        t.pending is None ==> tray_choose(t, TrayChoice::Decide(a)).1 is None,
        tray_choose(t, TrayChoice::Details).0 == t,
        t.pending matches Some(p) ==> tray_choose(t, TrayChoice::Details).1 == Some(
            TrayCommandView::ShowDetails(p.0),
        ),
        tray_choose(t, TrayChoice::OpenBoard) == (t, Some(TrayCommandView::OpenBoard)),
        tray_choose(t, TrayChoice::Quit) == (t, Some(TrayCommandView::Quit)),
{
}

} // verus!
