//! Dropdown (select) and the rows of the floating list it uses.
use vstd::prelude::*;
use vstd::string::*;

verus! {

/// One row of a floating menu.
pub struct MenuItem {
    pub label: String,
    /// Muted text after the label, e.g. "(in Top right)".
    pub hint: Option<String>,
    /// Draws a check mark in front of the label.
    pub selected: bool,
}

/// What a [`MenuItem`] says.
pub struct MenuItemView {
    pub label: Seq<char>,
    pub hint: Option<Seq<char>>,
    pub selected: bool,
}

/// What an optional text says.
pub open spec fn said(s: Option<String>) -> Option<Seq<char>> {
    match s {
        Some(s) => Some(s@),
        None => None,
    }
}

impl View for MenuItem {
    type V = MenuItemView;

    open spec fn view(&self) -> MenuItemView {
        MenuItemView { label: self.label@, hint: said(self.hint), selected: self.selected }
    }
}

impl MenuItem {
    pub fn new(label: &str) -> (res: MenuItem)
        ensures
            res@ == (MenuItemView { label: label@, hint: None, selected: false }),
    {
        MenuItem { label: label.to_owned(), hint: None, selected: false }
    }

    pub fn hint(self, hint: &str) -> (res: MenuItem)
        ensures
            res@ == (MenuItemView { hint: Some(hint@), ..self@ }),
    {
        let mut item = self;
        item.hint = Some(hint.to_owned());
        item
    }

    pub fn selected(self, selected: bool) -> (res: MenuItem)
        ensures
            res@ == (MenuItemView { selected, ..self@ }),
    {
        let mut item = self;
        item.selected = selected;
        item
    }
}

/// One option of a dropdown.
pub struct DropdownItem {
    pub label: String,
    pub hint: Option<String>,
}

/// What a [`DropdownItem`] says.
pub struct ItemView {
    pub label: Seq<char>,
    pub hint: Option<Seq<char>>,
}

impl View for DropdownItem {
    type V = ItemView;

    open spec fn view(&self) -> ItemView {
        ItemView { label: self.label@, hint: said(self.hint) }
    }
}

impl DropdownItem {
    pub fn new(label: &str) -> (res: DropdownItem)
        ensures
            res@ == (ItemView { label: label@, hint: None }),
    {
        DropdownItem { label: label.to_owned(), hint: None }
    }

    pub fn hint(self, hint: &str) -> (res: DropdownItem)
        ensures
            res@ == (ItemView { hint: Some(hint@), ..self@ }),
    {
        let mut item = self;
        item.hint = Some(hint.to_owned());
        item
    }
}

impl PartialEq for DropdownItem {
    fn eq(&self, other: &DropdownItem) -> (res: bool) {
        self.label == other.label && match (&self.hint, &other.hint) {
            (Some(a), Some(b)) => *a == *b,
            (None, None) => true,
            _ => false,
        }
    }
}

impl vstd::std_specs::cmp::PartialEqSpecImpl for DropdownItem {
    open spec fn obeys_eq_spec() -> bool {
        true
    }

    open spec fn eq_spec(&self, other: &DropdownItem) -> bool {
        self@ == other@
    }
}

/// What the options of a dropdown say.
pub open spec fn items_of(items: Seq<DropdownItem>) -> Seq<ItemView> {
    items.map_values(|item: DropdownItem| item@)
}

#[derive(Clone, Copy, Debug, PartialEq, Eq, Structural)]
pub enum DropdownEvent {
    /// The user picked the item at this index (also when re-picking the current one).
    Selected(usize),
}

pub struct Dropdown {
    items: Vec<DropdownItem>,
    selected: usize,
    open: bool,
    highlighted: Option<usize>,
    /// Set when the list closed because of a press outside it, so that the release of that same
    /// click on the trigger does not reopen it.
    suppress_click: bool,
}

/// What a [`Dropdown`] holds.
pub struct DropdownView {
    pub items: Seq<ItemView>,
    pub selected: usize,
    pub open: bool,
    pub highlighted: Option<usize>,
    pub suppress_click: bool,
}

impl View for Dropdown {
    type V = DropdownView;

    closed spec fn view(&self) -> DropdownView {
        DropdownView {
            items: items_of(self.items@),
            selected: self.selected,
            open: self.open,
            highlighted: self.highlighted,
            suppress_click: self.suppress_click,
        }
    }
}

/// `index`, or the last one of `len` options.
pub open spec fn within(index: usize, len: nat) -> usize {
    if index < len {
        index
    } else if len > 0 {
        (len - 1) as usize
    } else {
        0
    }
}

impl DropdownView {
    /// The chosen and the highlighted option are options, as far as there are any.
    pub open spec fn wf(self) -> bool {
        &&& self.selected == within(self.selected, self.items.len())
        &&& self.highlighted is Some ==> self.highlighted->0 == within(
            self.highlighted->0,
            self.items.len(),
        )
        &&& self.items.len() <= usize::MAX
    }

    /// Opened or closed: an empty list does not open, and an open one highlights the chosen option.
    pub open spec fn opened(self, open: bool) -> DropdownView {
        let shows = open && self.items.len() > 0;
        DropdownView {
            open: shows,
            highlighted: if shows {
                Some(self.selected)
            } else {
                None
            },
            ..self
        }
    }

    /// After the option at `index` was picked: closed, whether there is such an option or not.
    pub open spec fn chosen(self, index: usize) -> DropdownView {
        DropdownView {
            selected: if index < self.items.len() {
                index
            } else {
                self.selected
            },
            ..self
        }.opened(false)
    }

    /// What is announced when the option at `index` is picked.
    pub open spec fn event(self, index: usize) -> Option<DropdownEvent> {
        if index < self.items.len() {
            Some(DropdownEvent::Selected(index))
        } else {
            None
        }
    }

    /// With other options, or another choice; the same ones change nothing.
    pub open spec fn with_items(self, items: Seq<ItemView>, selected: usize) -> DropdownView {
        if items == self.items && within(selected, items.len()) == self.selected {
            self
        } else {
            DropdownView {
                items,
                selected: within(selected, items.len()),
                highlighted: None,
                ..self
            }
        }
    }

    /// After Down: opened, or the next option highlighted.
    pub open spec fn down(self) -> DropdownView {
        if !self.open {
            self.opened(true)
        } else {
            DropdownView {
                highlighted: Some(
                    match self.highlighted {
                        Some(i) => if i + 1 < self.items.len() {
                            (i + 1) as usize
                        } else {
                            i
                        },
                        None => 0,
                    },
                ),
                ..self
            }
        }
    }

    /// After Up: the previous option of an open list highlighted.
    pub open spec fn up(self) -> DropdownView {
        if !self.open {
            self
        } else {
            DropdownView {
                highlighted: Some(
                    match self.highlighted {
                        Some(i) if i > 0 => (i - 1) as usize,
                        _ => 0,
                    },
                ),
                ..self
            }
        }
    }

    /// After Enter or space: opened, or the highlighted option picked.
    pub open spec fn confirmed(self) -> (DropdownView, Option<DropdownEvent>) {
        match self.highlighted {
            Some(i) if self.open => (self.chosen(i), self.event(i)),
            _ => (self.opened(!self.open), None),
        }
    }

    /// After Escape.
    pub open spec fn escaped(self) -> DropdownView {
        if self.open {
            self.opened(false)
        } else {
            self
        }
    }

    /// After a click on the trigger.
    pub open spec fn clicked(self, keyboard: bool) -> DropdownView {
        if keyboard {
            self
        } else if self.suppress_click {
            DropdownView { suppress_click: false, ..self }
        } else {
            self.opened(!self.open)
        }
    }

    /// After the mouse was pressed outside the open list.
    pub open spec fn pressed_outside(self) -> DropdownView {
        DropdownView { suppress_click: true, ..self }.opened(false)
    }

    /// After the mouse was released outside the trigger.
    pub open spec fn released_outside(self) -> DropdownView {
        DropdownView { suppress_click: false, ..self }
    }

    /// Before it is drawn, with the focus or without it.
    pub open spec fn settled(self, focused: bool) -> DropdownView {
        DropdownView { open: self.open && focused, ..self }
    }

    /// The label of the chosen option.
    pub open spec fn current(self) -> Seq<char> {
        if self.selected < self.items.len() {
            self.items[self.selected as int].label
        } else {
            "\u{2014}"@
        }
    }

    /// The rows of the list.
    pub open spec fn rows(self) -> Seq<MenuItemView> {
        Seq::new(
            self.items.len(),
            |i: int|
                MenuItemView {
                    label: self.items[i].label,
                    hint: self.items[i].hint,
                    selected: i == self.selected,
                },
        )
    }
}

/// `index`, or the last one of `len` options.
fn clamp_index(index: usize, len: usize) -> (res: usize)
    ensures
        res == within(index, len as nat),
{
    if index < len {
        index
    } else if len > 0 {
        len - 1
    } else {
        0
    }
}

/// Whether two lists of options say the same.
fn same_items(a: &Vec<DropdownItem>, b: &Vec<DropdownItem>) -> (res: bool)
    ensures
        res == (items_of(a@) == items_of(b@)),
{
    if a.len() != b.len() {
        assert(items_of(a@).len() != items_of(b@).len());
        return false;
    }
    let mut i: usize = 0;
    while i < a.len()
        invariant
            a@.len() == b@.len(),
            i <= a@.len(),
            forall|k: int| 0 <= k < i ==> (#[trigger] a@[k])@ == b@[k]@,
        decreases a@.len() - i,
    {
        if a[i] != b[i] {
            assert(items_of(a@)[i as int] != items_of(b@)[i as int]);
            return false;
        }
        i = i + 1;
    }
    assert(items_of(a@) =~= items_of(b@));
    true
}

impl Dropdown {
    pub fn new(items: Vec<DropdownItem>, selected: usize) -> (res: Dropdown)
        ensures
            res@ == (DropdownView {
                items: items_of(items@),
                selected: within(selected, items@.len()),
                open: false,
                highlighted: None,
                suppress_click: false,
            }),
            res@.wf(),
    {
        let selected: usize = clamp_index(selected, items.len());
        Dropdown { items, selected, open: false, highlighted: None, suppress_click: false }
    }

    /// Replaces the options, without announcing a choice. Whether anything changed.
    pub fn set_items(&mut self, items: Vec<DropdownItem>, selected: usize) -> (res: bool)
        requires
            old(self)@.wf(),
        ensures
            final(self)@.wf(),
            res == !(items_of(items@) == old(self)@.items && within(selected, items@.len())
                == old(self)@.selected),
            final(self)@ == old(self)@.with_items(items_of(items@), selected),
    {
        let selected: usize = clamp_index(selected, items.len());
        if same_items(&items, &self.items) && selected == self.selected {
            return false;
        }
        self.items = items;
        self.selected = selected;
        self.highlighted = None;
        true
    }

    /// Opens or closes the list.
    pub fn set_open(&mut self, open: bool)
        requires
            old(self)@.wf(),
        ensures
            final(self)@.wf(),
            final(self)@ == old(self)@.opened(open),
    {
        self.open = open && self.items.len() > 0;
        self.highlighted = if self.open {
            Some(self.selected)
        } else {
            None
        };
    }

    /// Picks the option at `index` and closes the list.
    pub fn choose_item(&mut self, index: usize) -> (res: Option<DropdownEvent>)
        requires
            old(self)@.wf(),
        ensures
            final(self)@.wf(),
            final(self)@ == old(self)@.chosen(index),
            res == old(self)@.event(index),
    {
        let event = if index < self.items.len() {
            self.selected = index;
            Some(DropdownEvent::Selected(index))
        } else {
            None
        };
        self.set_open(false);
        event
    }

    /// Down: opens the list, or highlights the next option.
    pub fn next(&mut self)
        requires
            old(self)@.wf(),
        ensures
            final(self)@.wf(),
            final(self)@ == old(self)@.down(),
    {
        if !self.open {
            self.set_open(true);
            return ;
        }
        self.highlighted = Some(
            match self.highlighted {
                Some(i) => {
                    if self.items.len() > 0 && i < self.items.len() - 1 {
                        i + 1
                    } else {
                        i
                    }
                },
                None => 0,
            },
        );
    }

    /// Up: highlights the previous option of an open list. Whether the key was used.
    pub fn prev(&mut self) -> (res: bool)
        requires
            old(self)@.wf(),
        ensures
            final(self)@.wf(),
            res == old(self)@.open,
            final(self)@ == old(self)@.up(),
    {
        if !self.open {
            return false;
        }
        self.highlighted = Some(
            match self.highlighted {
                Some(i) if i > 0 => i - 1,
                _ => 0,
            },
        );
        true
    }

    /// Enter or space: opens the list, or picks the highlighted option.
    pub fn confirm(&mut self) -> (res: Option<DropdownEvent>)
        requires
            old(self)@.wf(),
        ensures
            final(self)@.wf(),
            final(self)@ == old(self)@.confirmed().0,
            res == old(self)@.confirmed().1,
    {
        if !self.open {
            self.set_open(true);
            return None;
        }
        match self.highlighted {
            Some(i) => self.choose_item(i),
            None => {
                self.set_open(false);
                None
            },
        }
    }

    /// Escape: closes an open list. Whether the key was used.
    pub fn close(&mut self) -> (res: bool)
        requires
            old(self)@.wf(),
        ensures
            final(self)@.wf(),
            res == old(self)@.open,
            final(self)@ == old(self)@.escaped(),
    {
        if self.open {
            self.set_open(false);
            true
        } else {
            false
        }
    }

    /// The trigger was clicked. Clicks by keyboard are those of [`Self::confirm`] already, and
    /// the click whose press closed the list does not reopen it.
    pub fn on_trigger_click(&mut self, keyboard: bool)
        requires
            old(self)@.wf(),
        ensures
            final(self)@.wf(),
            final(self)@ == old(self)@.clicked(keyboard),
    {
        if keyboard {
            return ;
        }
        if self.suppress_click {
            self.suppress_click = false;
            return ;
        }
        self.set_open(!self.open);
    }

    /// The mouse was pressed outside the open list: it closes.
    pub fn on_mouse_down_out(&mut self)
        requires
            old(self)@.wf(),
        ensures
            final(self)@.wf(),
            final(self)@ == old(self)@.pressed_outside(),
    {
        self.suppress_click = true;
        self.set_open(false);
    }

    /// The mouse was released outside the trigger.
    pub fn on_mouse_up_out(&mut self)
        requires
            old(self)@.wf(),
        ensures
            final(self)@.wf(),
            final(self)@ == old(self)@.released_outside(),
    {
        self.suppress_click = false;
    }

    /// Before it is drawn: a dropdown without the focus is not open.
    pub fn settle(&mut self, focused: bool)
        requires
            old(self)@.wf(),
        ensures
            final(self)@.wf(),
            final(self)@ == old(self)@.settled(focused),
    {
        if self.open && !focused {
            self.open = false;
        }
    }

    pub fn is_open(&self) -> (res: bool)
        ensures
            res == self@.open,
    {
        self.open
    }

    pub fn highlighted(&self) -> (res: Option<usize>)
        ensures
            res == self@.highlighted,
    {
        self.highlighted
    }

    /// The label of the chosen option.
    pub fn current(&self) -> (res: String)
        requires
            self@.wf(),
        ensures
            res@ == self@.current(),
    {
        if self.selected < self.items.len() {
            assert(self@.items[self.selected as int] == self.items@[self.selected as int]@);
            self.items[self.selected].label.clone()
        } else {
            "\u{2014}".to_owned()
        }
    }

    /// The rows of the list.
    pub fn rows(&self) -> (res: Vec<MenuItem>)
        ensures
            res@.map_values(|item: MenuItem| item@) == self@.rows(),
    {
        let mut out: Vec<MenuItem> = Vec::new();
        let mut i: usize = 0;
        while i < self.items.len()
            invariant
                i <= self.items@.len(),
                out@.len() == i,
                forall|k: int| 0 <= k < i ==> (#[trigger] out@[k])@ == self@.rows()[k],
            decreases self.items@.len() - i,
        {
            assert(self@.items[i as int] == self.items@[i as int]@);
            let row = MenuItem::new(self.items[i].label.as_str()).selected(i == self.selected);
            out.push(
                match &self.items[i].hint {
                    Some(hint) => row.hint(hint.as_str()),
                    None => row,
                },
            );
            i = i + 1;
        }
        assert(out@.map_values(|item: MenuItem| item@) =~= self@.rows());
        out
    }
}

/// A choice is only announced for an option that there is; it is then the chosen one, and the
/// list is closed.
pub proof fn lemma_announced_choice_is_made(dropdown: DropdownView, index: usize)
    requires
        dropdown.wf(),
    ensures
        dropdown.event(index) == Some(DropdownEvent::Selected(index)) ==> dropdown.chosen(
            index,
        ).selected == index && index < dropdown.items.len(),
        !dropdown.chosen(index).open,
        dropdown.chosen(index).wf(),
{
}

/// Opening the list and picking what it highlights changes nothing.
pub proof fn lemma_open_and_confirm_keeps_choice(dropdown: DropdownView)
    requires
        dropdown.wf(),
        dropdown.items.len() > 0,
    ensures
        dropdown.opened(true).highlighted is Some,
        dropdown.opened(true).chosen(dropdown.opened(true).highlighted->0).selected
            == dropdown.selected,
{
}

/// A list opens on the option that is chosen, and never without options. Opening and closing
/// choose nothing.
pub proof fn lemma_list_opens_on_the_choice(dropdown: DropdownView)
    ensures
        dropdown.items.len() > 0 ==> dropdown.opened(true).open && dropdown.opened(
            true,
        ).highlighted == Some(dropdown.selected),
        dropdown.items.len() == 0 ==> !dropdown.opened(true).open,
        !dropdown.opened(false).open,
        dropdown.opened(false).highlighted is None,
        forall|open: bool|
            (#[trigger] dropdown.opened(open)).selected == dropdown.selected && dropdown.opened(
                open,
            ).items == dropdown.items,
{
}

/// Down and Up go one option on and one back in an open list, and stay at its ends. A closed list
/// is opened by Down, and left alone by Up.
pub proof fn lemma_keys_walk_the_list(dropdown: DropdownView, i: usize)
    requires
        dropdown.items.len() > 0,
        i < dropdown.items.len() <= usize::MAX,
    ensures
        dropdown.open && dropdown.highlighted == Some(i) ==> {
            &&& i + 1 < dropdown.items.len() ==> dropdown.down().highlighted == Some(
                (i + 1) as usize,
            ) && dropdown.down().up() == dropdown
            &&& i + 1 == dropdown.items.len() ==> dropdown.down() == dropdown
            &&& i > 0 ==> dropdown.up().highlighted == Some((i - 1) as usize)
                && dropdown.up().down() == dropdown
            &&& i == 0 ==> dropdown.up() == dropdown
            &&& dropdown.down().open && dropdown.up().open
            &&& dropdown.down().selected == dropdown.selected
            &&& dropdown.up().selected == dropdown.selected
        },
        !dropdown.open ==> dropdown.down().open && dropdown.down().highlighted == Some(
            dropdown.selected,
        ) && dropdown.up() == dropdown,
{
}

/// Enter picks what the keys have highlighted, closes the list and announces the choice. In a
/// closed list it picks nothing.
pub proof fn lemma_confirmed_option_is_chosen(dropdown: DropdownView, i: usize)
    requires
        i < dropdown.items.len(),
    ensures
        dropdown.open && dropdown.highlighted == Some(i) ==> {
            &&& dropdown.confirmed().0.selected == i
            &&& !dropdown.confirmed().0.open
            &&& dropdown.confirmed().1 == Some(DropdownEvent::Selected(i))
        },
        !dropdown.open ==> {
            &&& dropdown.confirmed().0.open
            &&& dropdown.confirmed().0.selected == dropdown.selected
            &&& dropdown.confirmed().1 is None
        },
{
}

/// Escape closes the list without a choice.
pub proof fn lemma_escape_keeps_the_choice(dropdown: DropdownView)
    ensures
        !dropdown.escaped().open,
        dropdown.escaped().selected == dropdown.selected,
        dropdown.escaped().items == dropdown.items,
{
}

/// Clicks on the trigger open and close the list in turn. The click whose press outside closed the
/// list does not open it again, but the next one does, and so does one that was let go elsewhere.
pub proof fn lemma_clicks_open_and_close(dropdown: DropdownView)
    requires
        dropdown.items.len() > 0,
        !dropdown.suppress_click,
    ensures
        dropdown.clicked(false).open == !dropdown.open,
        dropdown.clicked(false).clicked(false).open == dropdown.open,
        dropdown.clicked(true) == dropdown,
        ({
            let pressed = dropdown.pressed_outside();
            &&& !pressed.open
            &&& !pressed.clicked(false).open
            &&& pressed.clicked(false).clicked(false).open
            &&& pressed.released_outside().clicked(false).open
            &&& pressed.selected == dropdown.selected
            &&& pressed.clicked(false).selected == dropdown.selected
        }),
{
}

/// A list without the focus is not open; one with it is drawn as it is.
pub proof fn lemma_open_list_has_the_focus(dropdown: DropdownView)
    ensures
        !dropdown.settled(false).open,
        dropdown.settled(true) == dropdown,
        dropdown.settled(false).selected == dropdown.selected,
{
}

/// A choice among new options is kept where there is such an option; one behind them goes to the
/// last.
pub proof fn lemma_choice_among_new_options(
    dropdown: DropdownView,
    items: Seq<ItemView>,
    selected: usize,
)
    requires
        items.len() <= usize::MAX,
    ensures
        selected < items.len() ==> dropdown.with_items(items, selected).selected == selected,
        0 < items.len() <= selected ==> dropdown.with_items(items, selected).selected + 1
            == items.len(),
        dropdown.with_items(items, selected).items == items,
        dropdown.with_items(items, selected).open == dropdown.open,
        items != dropdown.items ==> dropdown.with_items(items, selected).highlighted is None,
{
}

/// The rows are the options in their order, and the one that is marked is the chosen one, which is
/// also the one whose label is shown.
pub proof fn lemma_rows_are_the_options(dropdown: DropdownView, i: int)
    requires
        dropdown.wf(),
        0 <= i < dropdown.items.len(),
    ensures
        dropdown.rows().len() == dropdown.items.len(),
        dropdown.rows()[i].label == dropdown.items[i].label,
        dropdown.rows()[i].hint == dropdown.items[i].hint,
        dropdown.rows()[i].selected <==> i == dropdown.selected,
        dropdown.rows()[i].selected ==> dropdown.current() == dropdown.rows()[i].label,
{
}

}
