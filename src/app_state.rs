//! The state of the interactive interface: the selected tab, the text
//! being typed, and whether to quit; and how key presses change it.

use vstd::prelude::*;

verus! {

/// Relies on `String::push` of std: the character is appended.
#[verifier::external_body]
fn push_char(s: &mut String, c: char)
    ensures
        final(s)@ == old(s)@.push(c),
{
    s.push(c);
}

/// Relies on `String::pop` of std: the last character is removed and
/// returned, if there is one.
#[verifier::external_body]
fn pop_char(s: &mut String) -> (r: Option<char>)
    ensures
        old(s)@.len() == 0 ==> r is None && final(s)@ == old(s)@,
        old(s)@.len() > 0 ==> r == Some(old(s)@.last()) && final(s)@ == old(s)@.drop_last(),
{
    s.pop()
}

/// The tabs of the interface.
#[derive(Debug, Clone, Copy, PartialEq, Eq, Structural)]
pub enum SelectedTab {
    Solver,
    Simulator,
    Config,
}

/// A key press, as the interface sees it.
#[derive(Debug, Clone, Copy, PartialEq, Eq, Structural)]
pub enum KeyInput {
    /// A character key, and whether Control was held.
    Char(char, bool),
    Tab,
    BackTab,
    Backspace,
    Enter,
    Other,
}

/// The tab after `t`, wrapping around.
pub open spec fn tab_after(t: SelectedTab) -> SelectedTab {
    match t {
        SelectedTab::Solver => SelectedTab::Simulator,
        SelectedTab::Simulator => SelectedTab::Config,
        SelectedTab::Config => SelectedTab::Solver,
    }
}

/// The tab before `t`, wrapping around.
pub open spec fn tab_before(t: SelectedTab) -> SelectedTab {
    match t {
        SelectedTab::Solver => SelectedTab::Config,
        SelectedTab::Simulator => SelectedTab::Solver,
        SelectedTab::Config => SelectedTab::Simulator,
    }
}

/// The state of the interface.
pub struct App {
    should_quit: bool,
    pub input: String,
    pub selected_tab: SelectedTab,
}

impl App {
    /// Whether the interface is set to quit.
    pub closed spec fn quitting(&self) -> bool {
        self.should_quit
    }

    /// The text typed so far.
    pub closed spec fn typed(&self) -> Seq<char> {
        self.input@
    }

    /// The selected tab.
    pub closed spec fn tab(&self) -> SelectedTab {
        self.selected_tab
    }

    /// The solver tab, no input, not quitting.
    pub fn new() -> (a: App)
        ensures
            !a.quitting(),
            a.typed().len() == 0,
            a.tab() == SelectedTab::Solver,
    {
        App { should_quit: false, input: String::new(), selected_tab: SelectedTab::Solver }
    }

    /// Applies a key press: Control-C or `q` quit, Tab and Back-Tab move
    /// between tabs, other characters are typed, Backspace erases the
    /// last one and Enter submits the input. Returns whether to go on.
    pub fn handle_event(&mut self, key: KeyInput) -> (go_on: bool)
        ensures
            go_on == !final(self).quitting(),
            final(self).quitting() == (old(self).quitting() || key == KeyInput::Char('c', true)
                || key matches KeyInput::Char('q', _)),
            final(self).tab() == match key {
                KeyInput::Tab => tab_after(old(self).tab()),
                KeyInput::BackTab => tab_before(old(self).tab()),
                _ => old(self).tab(),
            },
            final(self).typed() == match key {
                KeyInput::Char(c, ctrl) => if (c == 'c' && ctrl) || c == 'q' {
                    old(self).typed()
                } else {
                    old(self).typed().push(c)
                },
                KeyInput::Backspace => if old(self).typed().len() == 0 {
                    old(self).typed()
                } else {
                    old(self).typed().drop_last()
                },
                KeyInput::Enter => Seq::empty(),
                _ => old(self).typed(),
            },
    {
        match key {
            KeyInput::Char('c', true) => {
                self.should_quit = true;
            },
            KeyInput::Char('q', _) => {
                self.should_quit = true;
            },
            KeyInput::Tab => {
                self.next_tab();
            },
            KeyInput::BackTab => {
                self.previous_tab();
            },
            KeyInput::Char(c, _) => {
                push_char(&mut self.input, c);
            },
            KeyInput::Backspace => {
                pop_char(&mut self.input);
            },
            KeyInput::Enter => {
                self.handle_submit();
            },
            KeyInput::Other => {},
        }
        !self.should_quit
    }

    /// Moves to the next tab.
    pub fn next_tab(&mut self)
        ensures
            final(self).tab() == tab_after(old(self).tab()),
            final(self).typed() == old(self).typed(),
            final(self).quitting() == old(self).quitting(),
    {
        self.selected_tab = match self.selected_tab {
            SelectedTab::Solver => SelectedTab::Simulator,
            SelectedTab::Simulator => SelectedTab::Config,
            SelectedTab::Config => SelectedTab::Solver,
        };
    }

    /// Moves to the previous tab.
    pub fn previous_tab(&mut self)
        ensures
            final(self).tab() == tab_before(old(self).tab()),
            final(self).typed() == old(self).typed(),
            final(self).quitting() == old(self).quitting(),
    {
        self.selected_tab = match self.selected_tab {
            SelectedTab::Solver => SelectedTab::Config,
            SelectedTab::Simulator => SelectedTab::Solver,
            SelectedTab::Config => SelectedTab::Simulator,
        };
    }

    /// Submits the typed input, which clears it.
    fn handle_submit(&mut self)
        ensures
            final(self).typed().len() == 0,
            final(self).tab() == old(self).tab(),
            final(self).quitting() == old(self).quitting(),
    {
        self.input = String::new();
    }

    /// Whether the interface is set to quit.
    pub fn should_quit(&self) -> (q: bool)
        ensures
            q == self.quitting(),
    {
        self.should_quit
    }
}

impl Default for App {
    fn default() -> (a: App)
        ensures
            !a.quitting(),
            a.typed().len() == 0,
            a.tab() == SelectedTab::Solver,
    {
        App::new()
    }
}

} // verus!
