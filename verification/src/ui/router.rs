use crate::text::push_char;
use crate::ui::Key;
use vstd::prelude::*;

verus! {

/// What choosing a tab does.
#[derive(Debug, Clone, Copy, PartialEq, Eq, Structural)]
pub enum RouteType {
    Pop,
    Push,
    Quit,
}

/// The colour in which a label is shown.
#[derive(Debug, Clone, Copy, PartialEq, Eq, Structural)]
pub enum Paint {
    Blue,
    Red,
    Plain,
}

/// A label as it is shown: its text and its colour.
#[derive(Debug)]
pub struct Span {
    pub content: String,
    pub fg: Paint,
}

/// One tab.
#[derive(Debug)]
pub struct Route {
    pub rtype: RouteType,
    pub label: String,
    pub name: String,
    pub span: Span,
}

/// The tabs on show, the active one among them, and the tabs that were left
/// for them, each list with the tab that was active in it.
#[derive(Debug)]
pub struct Router {
    pub active_tabs: Vec<Route>,
    pub active_tab: usize,
    pub tabs_stack: Vec<(usize, Vec<Route>)>,
}

/// What an event came to.
#[derive(Debug)]
pub enum EventType {
    Quit,
    Click(String, RouteType, Key),
    Inner,
}

/// The colour of a tab's label: blue for a tab that leads on, red for any
/// other.
pub open spec fn paint_of(rtype: RouteType) -> Paint {
    if rtype == RouteType::Push {
        Paint::Blue
    } else {
        Paint::Red
    }
}

/// The path of the tabs that were left: for each list, a `/` and the name of
/// the tab that was active in it.
pub open spec fn path_text(stack: Seq<(usize, Vec<Route>)>) -> Seq<char>
    decreases stack.len(),
{
    if stack.len() == 0 {
        Seq::empty()
    } else {
        path_text(stack.drop_last()) + seq!['/'] + stack.last().1@[stack.last().0 as int].name@
    }
}

/// In every list that was left, the tab that was active is one of the list.
pub open spec fn stack_in_range(stack: Seq<(usize, Vec<Route>)>) -> bool {
    forall|i: int| 0 <= i < stack.len() ==> (#[trigger] stack[i]).0 < stack[i].1@.len()
}

/// The tab that is active after `key` among `count` tabs: one up or down,
/// around the ends; any other key leaves it.
pub open spec fn tab_after(active: int, count: int, key: Key) -> int {
    match key {
        Key::Up => if active > 0 {
            active - 1
        } else {
            count - 1
        },
        Key::Down => if active < count - 1 {
            active + 1
        } else {
            0
        },
        _ => active,
    }
}

/// Whether `key` chooses the active tab.
pub open spec fn is_click(key: Key) -> bool {
    key == Key::Enter || key == Key::Left || key == Key::Right
}

impl Route {
    /// A tab with its label in the colour of its kind.
    pub fn new(rtype: RouteType, name: &str, label: &str) -> (route: Self)
        ensures
            route.rtype == rtype,
            route.label@ == label@,
            route.name@ == name@,
            route.span.content@ == label@,
            route.span.fg == paint_of(rtype),
    {
        Route {
            rtype,
            label: String::from_str(label),
            span: match rtype {
                RouteType::Push => Span { content: String::from_str(label), fg: Paint::Blue },
                _ => Span { content: String::from_str(label), fg: Paint::Red },
            },
            name: String::from_str(name),
        }
    }

    /// The same tab shown as `span`, whose text becomes the tab's label.
    pub fn with_span(self, span: Span) -> (route: Self)
        ensures
            route.rtype == self.rtype,
            route.label == self.label,
            route.name == self.name,
            route.span.content@ == self.label@,
            route.span.fg == span.fg,
    {
        let content = self.label.clone();
        Route {
            rtype: self.rtype,
            label: self.label,
            name: self.name,
            span: Span { content, fg: span.fg },
        }
    }
}

impl Router {
    /// Whether the active tab is one of the tabs on show, and every list
    /// that was left holds the tab that was active in it.
    pub open spec fn wf(&self) -> bool {
        &&& self.active_tab < self.active_tabs@.len()
        &&& stack_in_range(self.tabs_stack@)
    }

    /// A router that shows `init_tabs`, the first of them active.
    pub fn new(init_tabs: Vec<Route>) -> (router: Self)
        ensures
            router.active_tabs == init_tabs,
            router.active_tab == 0,
            router.tabs_stack@.len() == 0,
    {
        Router { active_tabs: init_tabs, active_tab: 0, tabs_stack: Vec::new() }
    }

    /// The active tab.
    pub fn current_tab(&self) -> (tab: &Route)
        requires
            self.active_tab < self.active_tabs@.len(),
        ensures
            *tab == self.active_tabs@[self.active_tab as int],
    {
        &self.active_tabs[self.active_tab]
    }

    /// The path of the tabs that were left to get here.
    pub fn current_path(&self) -> (path: String)
        requires
            stack_in_range(self.tabs_stack@),
        ensures
            path@ == path_text(self.tabs_stack@),
    {
        let mut path = String::new();
        let mut i: usize = 0;
        assert(self.tabs_stack@.take(0) =~= Seq::<(usize, Vec<Route>)>::empty());
        while i < self.tabs_stack.len()
            invariant
                i <= self.tabs_stack.len(),
                stack_in_range(self.tabs_stack@),
                path@ == path_text(self.tabs_stack@.take(i as int)),
            decreases self.tabs_stack.len() - i,
        {
            proof {
                assert(self.tabs_stack@.take(i + 1).drop_last() =~= self.tabs_stack@.take(i as int));
                assert(self.tabs_stack@.take(i + 1).last() == self.tabs_stack@[i as int]);
            }
            let left = &self.tabs_stack[i];
            push_char(&mut path, '/');
            path.append(left.1[left.0].name.as_str());
            i += 1;
        }
        assert(self.tabs_stack@.take(self.tabs_stack@.len() as int) =~= self.tabs_stack@);
        path
    }

    /// Leaves the tabs on show for `tabs`, of which the one at `active`
    /// becomes active.
    pub fn push(&mut self, tabs: Vec<Route>, active: usize)
        ensures
            final(self).tabs_stack@ == old(self).tabs_stack@.push(
                (old(self).active_tab, old(self).active_tabs),
            ),
            final(self).active_tabs == tabs,
            final(self).active_tab == active,
    {
        let mut left = tabs;
        std::mem::swap(&mut left, &mut self.active_tabs);
        self.tabs_stack.push((self.active_tab, left));
        self.active_tab = active;
    }

    /// Goes back to the tabs that were left last, if any were.
    pub fn pop(&mut self)
        ensures
            old(self).tabs_stack@.len() == 0 ==> {
                &&& final(self).tabs_stack@ == old(self).tabs_stack@
                &&& final(self).active_tab == old(self).active_tab
                &&& final(self).active_tabs == old(self).active_tabs
            },
            old(self).tabs_stack@.len() > 0 ==> {
                &&& final(self).tabs_stack@ == old(self).tabs_stack@.drop_last()
                &&& final(self).active_tab == old(self).tabs_stack@.last().0
                &&& final(self).active_tabs == old(self).tabs_stack@.last().1
            },
    {
        if let Some((active_tab, active_tabs)) = self.tabs_stack.pop() {
            self.active_tab = active_tab;
            self.active_tabs = active_tabs;
        }
    }

    /// Takes in a key. `q` quits. Up and down move the active tab, around
    /// the ends. Enter, left and right choose the active tab: the event
    /// names its path, its kind and the key. Any other key does nothing.
    /// Each key asks only for what it reads: a step around an end needs a
    /// tab to step to, and a choice needs the active tab and the tabs that
    /// were left to be in range.
    pub fn event(&mut self, key: Key) -> (event: EventType)
        requires
            key == Key::Up && old(self).active_tab == 0 ==> old(self).active_tabs@.len() > 0,
            key == Key::Down ==> old(self).active_tabs@.len() > 0,
            is_click(key) ==> old(self).wf(),
        ensures
            old(self).wf() ==> final(self).wf(),
            final(self).active_tabs == old(self).active_tabs,
            final(self).tabs_stack == old(self).tabs_stack,
            final(self).active_tab == tab_after(
                old(self).active_tab as int,
                old(self).active_tabs@.len() as int,
                key,
            ),
            key == Key::Char('q') ==> event is Quit,
            is_click(key) ==> (event matches EventType::Click(path, rtype, code) && path@
                == path_text(old(self).tabs_stack@) + seq!['/'] + old(self).active_tabs@[old(
                self,
            ).active_tab as int].name@ && rtype == old(self).active_tabs@[old(
                self,
            ).active_tab as int].rtype && code == key),
            key != Key::Char('q') && !is_click(key) ==> event is Inner,
    {
        match key {
            Key::Char('q') => EventType::Quit,
            Key::Up => {
                if self.active_tab > 0 {
                    self.active_tab -= 1;
                } else {
                    self.active_tab = self.active_tabs.len() - 1;
                }
                EventType::Inner
            },
            Key::Down => {
                if self.active_tab < self.active_tabs.len() - 1 {
                    self.active_tab += 1;
                } else {
                    self.active_tab = 0;
                }
                EventType::Inner
            },
            Key::Enter | Key::Left | Key::Right => {
                let mut path = self.current_path();
                let tab = self.current_tab();
                push_char(&mut path, '/');
                path.append(tab.name.as_str());
                EventType::Click(path, tab.rtype, key)
            },
            _ => EventType::Inner,
        }
    }
}

} // verus!
