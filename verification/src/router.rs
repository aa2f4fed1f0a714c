//! The routing of user actions onto the store.
//!
//! The page reports each click as an event. The application turns the
//! event into at most one operation on its store and answers with what
//! the page has to do: show a notice, or store the new text and display
//! the new markup.

use crate::codec::{load, load_restores_saved, loaded, save, stored_text};
use crate::render::{list_markup, render};
use crate::task::{TaskStore, TaskView, names_valid, open_task, toggled};
use crate::text::{chars_of, is_blank};
use crate::writer::encoded;
use vstd::prelude::*;
use vstd::string::StringExecFns;

verus! {

/// What a click inside the list hit.
#[derive(Clone, Copy, Debug, PartialEq, Eq, Structural)]
pub enum Target {
    /// The item at this position, itself.
    Item(usize),
    /// The delete element of the item at this position.
    Delete(usize),
    /// Anything else inside the list.
    Elsewhere,
}

/// The tag name of a list item, as the page reports it.
pub open spec fn item_tag() -> Seq<char> {
    seq!['L', 'I']
}

/// The tag name of a delete element, as the page reports it.
pub open spec fn delete_tag() -> Seq<char> {
    seq!['S', 'P', 'A', 'N']
}

/// What a click inside the list hit, from what the page knows of the
/// element that was clicked: its tag name, its own position among the
/// items of the list where it is one of them, and the position of its
/// parent where that is one of them.
pub open spec fn target_of(tag: Seq<char>, own: Option<usize>, parent: Option<usize>) -> Target {
    if tag == item_tag() && own is Some {
        Target::Item(own->0)
    } else if tag == delete_tag() && parent is Some {
        Target::Delete(parent->0)
    } else {
        Target::Elsewhere
    }
}

/// Tells what a click inside the list hit: a list item that is itself
/// an item of the list, the delete element of such an item, or anything
/// else.
pub fn classify(tag: &str, own: Option<usize>, parent: Option<usize>) -> (target: Target)
    ensures
        target == target_of(tag@, own, parent),
{
    let t = chars_of(tag);
    let is_item = t.len() == 2 && t[0] == 'L' && t[1] == 'I';
    let is_delete = t.len() == 4 && t[0] == 'S' && t[1] == 'P' && t[2] == 'A' && t[3] == 'N';
    proof {
        let i = item_tag();
        let d = delete_tag();
        assert(i.len() == 2 && i[0] == 'L' && i[1] == 'I');
        assert(d.len() == 4 && d[0] == 'S' && d[1] == 'P' && d[2] == 'A' && d[3] == 'N');
        if is_item {
            assert(t@ =~= i);
        }
        if is_delete {
            assert(t@ =~= d);
        }
    }
    if is_item {
        match own {
            Some(i) => {
                return Target::Item(i);
            },
            None => {},
        }
    }
    if is_delete {
        match parent {
            Some(i) => {
                return Target::Delete(i);
            },
            None => {},
        }
    }
    Target::Elsewhere
}

/// An event, mathematically.
pub enum EventView {
    Add(Seq<char>),
    List(Target),
}

/// What the page reports.
#[derive(Clone, Debug, PartialEq, Eq)]
pub enum Event {
    /// The add control was activated while the input held this text.
    Add(String),
    /// The list was clicked.
    List(Target),
}

impl View for Event {
    type V = EventView;

    open spec fn view(&self) -> EventView {
        match self {
            Event::Add(name) => EventView::Add(name@),
            Event::List(target) => EventView::List(*target),
        }
    }
}

/// An action, mathematically.
pub enum ActionView {
    Notify { message: Seq<char> },
    Refresh { clear_input: bool, payload: Seq<char>, markup: Seq<char> },
    Nothing,
}

/// What the page has to do in answer to an event.
#[derive(Clone, Debug, PartialEq, Eq)]
pub enum Action {
    /// Show the message to the user, and do nothing else.
    Notify { message: String },
    /// Empty the input where `clear_input` says so, store `payload`
    /// under the storage key, and display `markup` as the list. The list
    /// is displayed whether or not the payload could be stored.
    Refresh { clear_input: bool, payload: String, markup: String },
    /// Nothing.
    Nothing,
}

impl View for Action {
    type V = ActionView;

    open spec fn view(&self) -> ActionView {
        match self {
            Action::Notify { message } => ActionView::Notify { message: message@ },
            Action::Refresh { clear_input, payload, markup } => ActionView::Refresh {
                clear_input: *clear_input,
                payload: payload@,
                markup: markup@,
            },
            Action::Nothing => ActionView::Nothing,
        }
    }
}

/// The message shown when the name of a new task is blank.
pub open spec fn blank_name_message() -> Seq<char> {
    "Please enter a task"@
}

/// The list after the event.
pub open spec fn tasks_after(tasks: Seq<TaskView>, event: EventView) -> Seq<TaskView> {
    match event {
        EventView::Add(name) => if is_blank(name) {
            tasks
        } else {
            tasks.push(open_task(name))
        },
        EventView::List(Target::Item(i)) => if i < tasks.len() {
            toggled(tasks, i as int)
        } else {
            tasks
        },
        EventView::List(Target::Delete(i)) => if i < tasks.len() {
            tasks.remove(i as int)
        } else {
            tasks
        },
        EventView::List(Target::Elsewhere) => tasks,
    }
}

/// Whether the event changes the list.
pub open spec fn takes_effect(tasks: Seq<TaskView>, event: EventView) -> bool {
    match event {
        EventView::Add(name) => !is_blank(name),
        EventView::List(Target::Item(i)) => i < tasks.len(),
        EventView::List(Target::Delete(i)) => i < tasks.len(),
        EventView::List(Target::Elsewhere) => false,
    }
}

/// The refresh that shows and stores a list.
pub open spec fn refresh_of(tasks: Seq<TaskView>, clear_input: bool) -> ActionView {
    ActionView::Refresh { clear_input, payload: encoded(tasks), markup: list_markup(tasks) }
}

/// The answer to the event: a notice for a blank name, a refresh with
/// the new list for an event that takes effect, and nothing otherwise.
/// The input is emptied exactly after a task was added.
pub open spec fn answer_to(tasks: Seq<TaskView>, event: EventView) -> ActionView {
    if takes_effect(tasks, event) {
        refresh_of(tasks_after(tasks, event), event is Add)
    } else if event is Add {
        ActionView::Notify { message: blank_name_message() }
    } else {
        ActionView::Nothing
    }
}

/// The application: the store and the routing of events onto it.
#[derive(Debug, PartialEq, Eq)]
pub struct TodoApp {
    store: TaskStore,
}

impl Clone for TodoApp {
    fn clone(&self) -> (r: TodoApp)
        ensures
            r@ == self@,
    {
        TodoApp { store: self.store.clone() }
    }
}

impl View for TodoApp {
    type V = Seq<TaskView>;

    closed spec fn view(&self) -> Seq<TaskView> {
        self.store@
    }
}

impl TodoApp {
    /// An application without tasks.
    pub fn new() -> (app: TodoApp)
        ensures
            app@ == Seq::<TaskView>::empty(),
    {
        TodoApp { store: TaskStore::new() }
    }

    /// Takes the tasks of the stored value, or none where nothing is
    /// stored or what is stored cannot be read, and returns the markup
    /// that displays them.
    pub fn show_task(&mut self, stored: Option<&str>) -> (markup: String)
        ensures
            final(self)@ == loaded(stored_text(stored)),
            markup@ == list_markup(final(self)@),
    {
        self.store = load(stored);
        render(self.store.list())
    }

    /// The store, to read.
    pub fn store(&self) -> (store: &TaskStore)
        ensures
            store@ == self@,
            names_valid(self@),
    {
        let _ = self.store.list();
        &self.store
    }

    /// The refresh that stores and displays the list as it is now.
    fn refresh(&self, clear_input: bool) -> (action: Action)
        ensures
            action@ == refresh_of(self@, clear_input),
    {
        Action::Refresh {
            clear_input,
            payload: save(&self.store),
            markup: render(self.store.list()),
        }
    }

    /// Routes one event: performs the operation that it asks for and
    /// answers with what the page has to do.
    pub fn handle(&mut self, event: Event) -> (action: Action)
        ensures
            final(self)@ == tasks_after(old(self)@, event@),
            action@ == answer_to(old(self)@, event@),
    {
        match event {
            Event::Add(name) => match self.store.add(name) {
                Ok(_) => self.refresh(true),
                Err(_) => Action::Notify { message: String::from_str("Please enter a task") },
            },
            Event::List(Target::Item(index)) => match self.store.toggle_complete(index) {
                Ok(_) => self.refresh(false),
                Err(_) => Action::Nothing,
            },
            Event::List(Target::Delete(index)) => match self.store.remove(index) {
                Ok(_) => self.refresh(false),
                Err(_) => Action::Nothing,
            },
            Event::List(Target::Elsewhere) => Action::Nothing,
        }
    }
}

/// A blank name changes nothing and is answered with the notice.
pub proof fn blank_add_is_refused(tasks: Seq<TaskView>, name: Seq<char>)
    requires
        is_blank(name),
    ensures
        tasks_after(tasks, EventView::Add(name)) == tasks,
        answer_to(tasks, EventView::Add(name)) == (ActionView::Notify {
            message: blank_name_message(),
        }),
{
}

/// An event that takes no effect leaves the list as it was, and the
/// page is asked neither to store nor to display anything.
pub proof fn idle_event_changes_nothing(tasks: Seq<TaskView>, event: EventView)
    requires
        !takes_effect(tasks, event),
    ensures
        tasks_after(tasks, event) == tasks,
        !(answer_to(tasks, event) is Refresh),
{
}

/// Every event keeps the names of the list valid.
pub proof fn events_keep_names_valid(tasks: Seq<TaskView>, event: EventView)
    requires
        names_valid(tasks),
    ensures
        names_valid(tasks_after(tasks, event)),
{
}

/// After an event that takes effect, what the page is asked to store
/// and what it is asked to display are both made from the new list, and
/// loading what was stored restores that list.
pub proof fn refresh_stores_what_it_shows(tasks: Seq<TaskView>, event: EventView)
    requires
        names_valid(tasks),
        takes_effect(tasks, event),
    ensures
        answer_to(tasks, event) matches ActionView::Refresh { payload, markup, .. } && markup
            == list_markup(tasks_after(tasks, event)) && loaded(Some(payload)) == tasks_after(
            tasks,
            event,
        ),
{
    events_keep_names_valid(tasks, event);
    load_restores_saved(tasks_after(tasks, event));
}

} // verus!
