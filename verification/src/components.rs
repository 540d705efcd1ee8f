//! State kept by the widgets of the terminal interface: the search box, the about
//! panel, and moving a selection through a list.
use vstd::prelude::*;
use crate::motd::{motd, motd_messages};
use crate::text::{pop_char, push_char};

verus! {

/// What a key press means to a text box.
#[derive(Debug, Clone, Copy, PartialEq, Eq, Structural)]
pub enum EditKey {
    /// A printable character: it is appended.
    Char(char),
    /// Backspace: the last character is removed.
    Backspace,
    /// Any other key: nothing changes.
    Other,
}

/// A single-line text box with a placeholder and a title.
#[derive(Debug)]
pub struct TextInput {
    pub text: String,
    pub placeholder: String,
    pub title: String,
    pub listening: bool,
    pub focused: bool,
}

/// The text after a key press.
pub open spec fn edited_text(text: Seq<char>, key: EditKey) -> Seq<char> {
    match key {
        EditKey::Char(c) => text.push(c),
        EditKey::Backspace => if text.len() == 0 { text } else { text.drop_last() },
        EditKey::Other => text,
    }
}

impl TextInput {
    pub open spec fn is_focused(&self) -> bool {
        self.focused
    }

    pub open spec fn is_listening(&self) -> bool {
        self.listening
    }

    pub open spec fn text_view(&self) -> Seq<char> {
        self.text@
    }

    pub open spec fn placeholder_view(&self) -> Seq<char> {
        self.placeholder@
    }

    pub open spec fn title_view(&self) -> Seq<char> {
        self.title@
    }

    /// An empty text box.
    pub fn new() -> (t: Self)
        ensures
            t.text_view().len() == 0,
            t.placeholder_view().len() == 0,
            t.title_view().len() == 0,
            !t.is_focused(),
            !t.is_listening(),
    {
        TextInput {
            text: String::new(),
            placeholder: String::new(),
            title: String::new(),
            listening: false,
            focused: false,
        }
    }

    /// A text box holding `text`, showing `placeholder` while empty, titled `title`.
    pub fn from(text: String, placeholder: String, title: String) -> (t: Self)
        ensures
            t.text_view() == text@,
            t.placeholder_view() == placeholder@,
            t.title_view() == title@,
            !t.is_focused(),
            !t.is_listening(),
    {
        TextInput { text, placeholder, title, listening: false, focused: false }
    }

    /// Applies a key press to the text.
    pub fn apply_key(&mut self, key: EditKey)
        ensures
            final(self).text_view() == edited_text(old(self).text_view(), key),
            final(self).placeholder_view() == old(self).placeholder_view(),
            final(self).title_view() == old(self).title_view(),
            final(self).is_focused() == old(self).is_focused(),
            final(self).is_listening() == old(self).is_listening(),
    {
        match key {
            EditKey::Char(c) => {
                push_char(&mut self.text, c);
            },
            EditKey::Backspace => {
                let _ = pop_char(&mut self.text);
            },
            EditKey::Other => {},
        }
    }

    pub fn focus(&mut self)
        ensures
            final(self).is_focused(),
            final(self).text_view() == old(self).text_view(),
            final(self).placeholder_view() == old(self).placeholder_view(),
            final(self).title_view() == old(self).title_view(),
            final(self).is_listening() == old(self).is_listening(),
    {
        self.focused = true;
    }

    pub fn unfocus(&mut self)
        ensures
            !final(self).is_focused(),
            final(self).text_view() == old(self).text_view(),
            final(self).placeholder_view() == old(self).placeholder_view(),
            final(self).title_view() == old(self).title_view(),
            final(self).is_listening() == old(self).is_listening(),
    {
        self.focused = false;
    }
}

/// Typing a character and then pressing backspace leaves the text as it was.
pub proof fn lemma_backspace_undoes_typing(text: Seq<char>, c: char)
    ensures
        edited_text(edited_text(text, EditKey::Char(c)), EditKey::Backspace) == text,
{
    assert(text.push(c).drop_last() =~= text);
}

/// The about panel: the program's banner and a message of the day.
#[derive(Debug)]
pub struct About {
    has_focus: bool,
    motd: String,
}

impl About {
    pub closed spec fn is_focused(&self) -> bool {
        self.has_focus
    }

    pub closed spec fn message(&self) -> Seq<char> {
        self.motd@
    }

    /// An unfocused panel showing a message of the day drawn at random.
    pub fn new() -> (a: Self)
        ensures
            !a.is_focused(),
            motd_messages().contains(a.message()),
    {
        About { has_focus: false, motd: motd() }
    }

    /// The message of the day the panel shows.
    pub fn motd_text(&self) -> (m: &String)
        ensures
            m@ == self.message(),
    {
        &self.motd
    }

    pub fn focus(&mut self)
        ensures
            final(self).is_focused(),
            final(self).message() == old(self).message(),
    {
        self.has_focus = true;
    }

    pub fn unfocus(&mut self)
        ensures
            !final(self).is_focused(),
            final(self).message() == old(self).message(),
    {
        self.has_focus = false;
    }
}

/// Events an option list reports to the widget that owns it.
#[derive(Debug, Clone, Copy, PartialEq, Eq, Structural)]
pub enum Actions {
    /// The option at this position was chosen.
    Selected(usize),
    /// The item at this position is to be deleted.
    Delete(usize),
    /// The listed items changed on disk and must be read again.
    Reload,
}

/// The position above `selected` in a list of `len` options, wrapping from the top
/// to the bottom; a list of at most one option keeps its selection.
pub open spec fn previous_index(selected: int, len: int) -> int {
    if len > 1 { (selected + len - 1) % len } else { selected }
}

/// The position below `selected`, wrapping from the bottom to the top.
pub open spec fn next_index(selected: int, len: int) -> int {
    if len > 1 { (selected + 1) % len } else { selected }
}

/// Rows scrolled away so that a selection stays within view (five rows above it).
pub open spec fn scroll_for(selected: int) -> int {
    if selected > 5 { selected - 5 } else { 0 }
}

/// Moves a selection up (Up key): returns the new selection and scroll offset.
pub fn select_previous(selected: usize, scroll_offset: usize, len: usize) -> (res: (usize, usize))
    requires
        len > 1 ==> selected + len <= usize::MAX,
    ensures
        res.0 == previous_index(selected as int, len as int),
        res.1 == if res.0 < len { scroll_for(res.0 as int) } else { scroll_offset as int },
{
    let mut sel = selected;
    let mut scroll = scroll_offset;
    if len > 1 {
        sel = (sel + len - 1) % len;
    }
    if sel < len {
        scroll = sel.saturating_sub(5);
    }
    (sel, scroll)
}

/// Moves a selection down (Down key): returns the new selection and scroll offset.
pub fn select_next(selected: usize, scroll_offset: usize, len: usize) -> (res: (usize, usize))
    requires
        len > 1 ==> selected < usize::MAX,
    ensures
        res.0 == next_index(selected as int, len as int),
        res.1 == if res.0 > 5 { scroll_for(res.0 as int) } else { scroll_offset as int },
{
    let mut sel = selected;
    let mut scroll = scroll_offset;
    if len > 1 {
        sel = (sel + 1) % len;
    }
    if sel > 5 {
        scroll = sel.saturating_sub(5);
    }
    (sel, scroll)
}

/// Keeps a selection within a list of `len` items: past the end it moves to the
/// last item (to 0 for an empty list).
pub fn clamp_selection(selected: usize, len: usize) -> (res: usize)
    ensures
        res == if selected < len { selected as int } else if len == 0 { 0 } else { len - 1 },
{
    if selected >= len {
        len.saturating_sub(1)
    } else {
        selected
    }
}

/// A selection inside the list stays inside it when moved either way, and moving
/// down then up (or up then down) comes back to where it was. For a list at most half
/// the address space long (as any list of options held in memory is), the bounds that
/// `select_previous` and `select_next` ask for hold after either move, so the moves can
/// follow each other.
pub proof fn lemma_selection_round_trip(selected: int, len: int)
    requires
        0 <= selected < len,
    ensures
        len <= usize::MAX / 2 ==> next_index(selected, len) + len <= usize::MAX && previous_index(selected, len)
            < usize::MAX,
        0 <= next_index(selected, len) < len,
        0 <= previous_index(selected, len) < len,
        previous_index(next_index(selected, len), len) == selected,
        next_index(previous_index(selected, len), len) == selected,
{
    if len > 1 {
        if selected + 1 < len {
            assert((selected + 1) % len == selected + 1) by (nonlinear_arith)
                requires 0 <= selected + 1 < len;
            assert((selected + 1 + len - 1) % len == selected) by (nonlinear_arith)
                requires 0 <= selected < len, len > 1;
        } else {
            assert((selected + 1) % len == 0) by (nonlinear_arith)
                requires selected + 1 == len, len > 1;
            assert((0 + len - 1) % len == selected) by (nonlinear_arith)
                requires selected + 1 == len, len > 1;
        }
        if selected > 0 {
            assert((selected + len - 1) % len == selected - 1) by (nonlinear_arith)
                requires 0 < selected < len;
            assert((selected - 1 + 1) % len == selected) by (nonlinear_arith)
                requires 0 < selected < len;
        } else {
            assert((selected + len - 1) % len == len - 1) by (nonlinear_arith)
                requires selected == 0, len > 1;
            assert((len - 1 + 1) % len == selected) by (nonlinear_arith)
                requires selected == 0, len > 1;
        }
    }
}

} // verus!
