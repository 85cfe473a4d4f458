use vstd::prelude::*;
use std::collections::HashSet;

verus! {

broadcast use vstd::std_specs::hash::group_hash_axioms;

/// What a pointer over a tray is on: the tray's icon, or a menu item (by id).
#[derive(Debug, Clone, Copy, PartialEq, Eq, Structural)]
pub enum HoveringItem {
    TrayIcon,
    MenuItem(i32),
}

/// One item of a tray menu, as the menu state sees it: its id, and the
/// items of its submenu, if it opens one.
pub struct MenuEntry {
    pub id: i32,
    pub submenu: Option<Vec<MenuEntry>>,
}

/// A tray menu: its id and its top-level items.
pub struct RootMenu {
    pub id: i32,
    pub submenus: Vec<MenuEntry>,
}

/// Which submenus of a tray menu are open, and which item the pointer is on
/// (`-1` for none).
pub struct MenuState {
    pub open_state: HashSet<i32>,
    pub hover_state: i32,
}

/// Ids of the items, at any depth, that open a submenu.
pub open spec fn parent_ids(items: Seq<MenuEntry>) -> Set<i32>
    decreases items,
{
    if items.len() == 0 {
        Set::empty()
    } else {
        let last = items.last();
        let before = parent_ids(items.drop_last());
        match last.submenu {
            Some(v) => {
                proof {
                    assert(decreases_to!(items => items[items.len() - 1]));
                }
                before.insert(last.id) + parent_ids(v@)
            },
            None => before,
        }
    }
}

/// Whether an item with this id is in the menu, at any depth.
pub open spec fn has_item(items: Seq<MenuEntry>, id: i32) -> bool
    decreases items,
{
    if items.len() == 0 {
        false
    } else {
        let last = items.last();
        has_item(items.drop_last(), id) || last.id == id || match last.submenu {
            Some(v) => {
                proof {
                    assert(decreases_to!(items => items[items.len() - 1]));
                }
                has_item(v@, id)
            },
            None => false,
        }
    }
}

/// Walks the items and their submenus: adds the ids of the items that open
/// a submenu to `open` (when `check_open`), and notes in `found` whether an
/// item has the id `hover` (when `check_hover`).
fn collect(
    items: &Vec<MenuEntry>,
    check_open: bool,
    check_hover: bool,
    hover: i32,
    open: &mut HashSet<i32>,
    found: &mut bool,
)
    ensures
        check_open ==> final(open)@ == old(open)@ + parent_ids(items@),
        !check_open ==> final(open)@ == old(open)@,
        check_hover ==> *final(found) == (*old(found) || has_item(items@, hover)),
        !check_hover ==> *final(found) == *old(found),
    decreases items@,
{
    let mut k: usize = 0;
    while k < items.len()
        invariant
            k <= items@.len(),
            check_open ==> open@ == old(open)@ + parent_ids(items@.take(k as int)),
            !check_open ==> open@ == old(open)@,
            check_hover ==> *found == (*old(found) || has_item(items@.take(k as int), hover)),
            !check_hover ==> *found == *old(found),
        decreases items@.len() - k,
    {
        let e = &items[k];
        proof {
            let t = items@.take(k + 1);
            assert(t.drop_last() == items@.take(k as int));
            assert(t.last() == *e);
        }
        if check_open && e.submenu.is_some() {
            open.insert(e.id);
        }
        if check_hover && e.id == hover {
            *found = true;
        }
        match &e.submenu {
            Some(v) => {
                proof {
                    assert(decreases_to!(items@ => items@[k as int]));
                }
                collect(v, check_open, check_hover, hover, open, found);
            },
            None => {},
        }
        proof {
            let t = items@.take(k + 1);
            if check_open {
                assert(open@ =~= old(open)@ + parent_ids(t));
            }
        }
        k += 1;
    }
    proof {
        assert(items@.take(items@.len() as int) == items@);
    }
}

impl MenuState {
    /// No submenu open, hover on id `0`.
    pub fn new() -> (r: Self)
        ensures
            r.open_state@ == Set::<i32>::empty(),
            r.hover_state == 0,
    {
        MenuState { open_state: HashSet::new(), hover_state: 0 }
    }

    pub fn is_open(&self, id: i32) -> (r: bool)
        ensures
            r == self.open_state@.contains(id),
    {
        self.open_state.contains(&id)
    }

    pub fn is_hover(&self, id: i32) -> (r: bool)
        ensures
            r == (self.hover_state == id),
    {
        self.hover_state == id
    }

    /// Brings the state up to date with a new version of the menu. When some
    /// submenu was open, the open set becomes the set of all items of the new
    /// menu, at any depth, that open a submenu; the hover is cleared (`-1`)
    /// when the hovered item is not in the new menu.
    pub fn filter_state_with_new_menu(&mut self, menu: &RootMenu)
        ensures
            (final(self).open_state@, final(self).hover_state) == filtered(
                old(self).open_state@,
                old(self).hover_state,
                menu.submenus@,
            ),
    {
        let need_check_open_state = !self.open_state.is_empty();
        let need_check_hover = self.hover_state != -1;
        let mut new_open_state: HashSet<i32> = HashSet::new();
        let mut found_hover = false;
        collect(
            &menu.submenus,
            need_check_open_state,
            need_check_hover,
            self.hover_state,
            &mut new_open_state,
            &mut found_hover,
        );
        if need_check_open_state {
            proof {
                assert(new_open_state@ =~= parent_ids(menu.submenus@));
            }
            self.open_state = new_open_state;
        }
        if need_check_hover && !found_hover {
            self.hover_state = -1;
        }
    }
}

/// The view of an optional text.
pub open spec fn opt_view(s: Option<String>) -> Option<Seq<char>> {
    match s {
        Some(t) => Some(t@),
        None => None,
    }
}

/// What a tray item shows besides its icon: its title and its menu with the
/// menu's state; and whether it changed since it was last drawn.
pub struct TrayInfo {
    pub title: Option<String>,
    pub menu: Option<(RootMenu, MenuState)>,
    pub updated: bool,
}

impl TrayInfo {
    /// Takes the new title; marks the item changed when the title differs.
    pub fn update_title(&mut self, title: Option<String>)
        ensures
            opt_view(final(self).title) == opt_view(title),
            final(self).updated == (old(self).updated || opt_view(title) != opt_view(old(self).title)),
            final(self).menu == old(self).menu,
    {
        let same = match (&title, &self.title) {
            (Some(a), Some(b)) => *a == *b,
            (None, None) => true,
            _ => false,
        };
        if !same {
            self.title = title;
            self.set_updated();
        }
    }

    /// Takes a new version of the menu: the state of an existing menu is
    /// brought up to date with it (see `filter_state_with_new_menu`); a first
    /// menu starts with a fresh state. The item is marked changed.
    pub fn update_menu(&mut self, new: RootMenu)
        ensures
            final(self).updated,
            final(self).title == old(self).title,
            final(self).menu is Some,
            final(self).menu.unwrap().0 == new,
            match old(self).menu {
                Some((_, state)) => {
                    let now = final(self).menu.unwrap().1;
                    (now.open_state@, now.hover_state) == filtered(
                        state.open_state@,
                        state.hover_state,
                        new.submenus@,
                    )
                },
                None => {
                    &&& final(self).menu.unwrap().1.open_state@ == Set::<i32>::empty()
                    &&& final(self).menu.unwrap().1.hover_state == 0
                },
            },
    {
        match self.menu.take() {
            Some((_, mut state)) => {
                state.filter_state_with_new_menu(&new);
                self.menu = Some((new, state));
            },
            None => {
                self.menu = Some((new, MenuState::new()));
            },
        }
        self.set_updated();
    }

    fn set_updated(&mut self)
        ensures
            final(self).updated,
            final(self).title == old(self).title,
            final(self).menu == old(self).menu,
    {
        self.updated = true;
    }

    /// Whether the item must be drawn again; clears the mark.
    pub fn take_updated(&mut self) -> (r: bool)
        ensures
            r == old(self).updated,
            !final(self).updated,
            final(self).title == old(self).title,
            final(self).menu == old(self).menu,
    {
        let r = self.updated;
        self.updated = false;
        r
    }
}

/// The state that bringing `(open, hover)` up to date with `items` gives,
/// as `filter_state_with_new_menu` states it.
pub open spec fn filtered(open: Set<i32>, hover: i32, items: Seq<MenuEntry>) -> (Set<i32>, i32) {
    (
        if open.is_empty() {
            open
        } else {
            parent_ids(items)
        },
        if hover != -1 && !has_item(items, hover) {
            -1i32
        } else {
            hover
        },
    )
}

/// Bringing the state up to date twice with the same menu gives what once
/// does; and afterwards every open id opens a submenu of the menu, and the
/// hovered id is `-1` or an item of the menu.
pub proof fn lemma_filter_idempotent(open: Set<i32>, hover: i32, items: Seq<MenuEntry>)
    ensures
        ({
            let (o1, h1) = filtered(open, hover, items);
            &&& filtered(o1, h1, items) == (o1, h1)
            &&& o1.subset_of(parent_ids(items)) || o1.is_empty()
            &&& h1 == -1 || has_item(items, h1)
        }),
{
    let (o1, h1) = filtered(open, hover, items);
    if !open.is_empty() && parent_ids(items).is_empty() {
        assert(o1 =~= Set::<i32>::empty());
    }
}

} // verus!
