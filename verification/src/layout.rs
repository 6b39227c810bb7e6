//! The layout of the application menu: its submenus and their entries.

use vstd::prelude::*;

use crate::menu::MenuId;

verus! {

/// An entry that the windowing system provides.
#[derive(Clone, Copy, Debug, PartialEq, Eq, Structural)]
pub enum NativeItem {
    Separator,
    Services,
    Hide,
    HideOthers,
    ShowAll,
    Quit,
    Undo,
    Redo,
    Cut,
    Copy,
    Paste,
    SelectAll,
    EnterFullScreen,
    Minimize,
    CloseWindow,
}

/// An entry of a submenu.
#[derive(Debug, PartialEq, Eq)]
pub enum MenuEntry {
    /// A native entry.
    Native(NativeItem),
    /// The native "About" entry, for the application of this name.
    About(String),
    /// One of the reader's own entries: its id, title and keyboard shortcut.
    Custom(MenuId, String, Option<String>),
}

pub enum MenuEntryView {
    Native(NativeItem),
    About(Seq<char>),
    Custom(MenuId, Seq<char>, Option<Seq<char>>),
}

impl View for MenuEntry {
    type V = MenuEntryView;

    open spec fn view(&self) -> MenuEntryView {
        match self {
            MenuEntry::Native(n) => MenuEntryView::Native(*n),
            MenuEntry::About(name) => MenuEntryView::About(name@),
            MenuEntry::Custom(id, title, accelerator) => MenuEntryView::Custom(
                *id,
                title@,
                crate::text::opt_chars(*accelerator),
            ),
        }
    }
}

/// A submenu: its title and its entries, in order.
#[derive(Debug, PartialEq, Eq)]
pub struct SubmenuLayout {
    pub title: String,
    pub entries: Vec<MenuEntry>,
}

pub struct SubmenuLayoutView {
    pub title: Seq<char>,
    pub entries: Seq<MenuEntryView>,
}

impl View for SubmenuLayout {
    type V = SubmenuLayoutView;

    open spec fn view(&self) -> SubmenuLayoutView {
        SubmenuLayoutView { title: self.title@, entries: self.entries@.map_values(|e: MenuEntry| e@) }
    }
}

/// The submenu "Crab Reader" (macOS).
pub open spec fn file_menu_mac_spec() -> SubmenuLayoutView {
    SubmenuLayoutView {
        title: "Crab Reader"@,
        entries: seq![
            MenuEntryView::About("Crab Reader"@),
            MenuEntryView::Native(NativeItem::Separator),
            MenuEntryView::Custom(MenuId::Preferences, "Preferences"@, Some("CommandOrControl+,"@)),
            MenuEntryView::Native(NativeItem::Services),
            MenuEntryView::Native(NativeItem::Separator),
            MenuEntryView::Native(NativeItem::Hide),
            MenuEntryView::Native(NativeItem::HideOthers),
            MenuEntryView::Native(NativeItem::ShowAll),
            MenuEntryView::Native(NativeItem::Separator),
            MenuEntryView::Native(NativeItem::Quit),
        ],
    }
}

fn file_menu_mac() -> (r: SubmenuLayout)
    ensures
        r@ == file_menu_mac_spec(),
{
    let mut entries: Vec<MenuEntry> = Vec::new();
    entries.push(MenuEntry::About("Crab Reader".to_owned()));
    entries.push(MenuEntry::Native(NativeItem::Separator));
    entries.push(MenuEntry::Custom(MenuId::Preferences, "Preferences".to_owned(), Some("CommandOrControl+,".to_owned())));
    entries.push(MenuEntry::Native(NativeItem::Services));
    entries.push(MenuEntry::Native(NativeItem::Separator));
    entries.push(MenuEntry::Native(NativeItem::Hide));
    entries.push(MenuEntry::Native(NativeItem::HideOthers));
    entries.push(MenuEntry::Native(NativeItem::ShowAll));
    entries.push(MenuEntry::Native(NativeItem::Separator));
    entries.push(MenuEntry::Native(NativeItem::Quit));
    let r = SubmenuLayout { title: "Crab Reader".to_owned(), entries };
    proof {
        assert(r@.entries =~= file_menu_mac_spec().entries);
    }
    r
}

/// The submenu "Crab Reader" (other systems).
pub open spec fn file_menu_other_spec() -> SubmenuLayoutView {
    SubmenuLayoutView {
        title: "Crab Reader"@,
        entries: seq![
            MenuEntryView::Custom(MenuId::Preferences, "Preferences"@, Some("CommandOrControl+,"@)),
            MenuEntryView::Native(NativeItem::Quit),
        ],
    }
}

fn file_menu_other() -> (r: SubmenuLayout)
    ensures
        r@ == file_menu_other_spec(),
{
    let mut entries: Vec<MenuEntry> = Vec::new();
    entries.push(MenuEntry::Custom(MenuId::Preferences, "Preferences".to_owned(), Some("CommandOrControl+,".to_owned())));
    entries.push(MenuEntry::Native(NativeItem::Quit));
    let r = SubmenuLayout { title: "Crab Reader".to_owned(), entries };
    proof {
        assert(r@.entries =~= file_menu_other_spec().entries);
    }
    r
}

/// The submenu "Edit".
pub open spec fn edit_menu_spec() -> SubmenuLayoutView {
    SubmenuLayoutView {
        title: "Edit"@,
        entries: seq![
            MenuEntryView::Native(NativeItem::Undo),
            MenuEntryView::Native(NativeItem::Redo),
            MenuEntryView::Native(NativeItem::Separator),
            MenuEntryView::Native(NativeItem::Cut),
            MenuEntryView::Native(NativeItem::Copy),
            MenuEntryView::Native(NativeItem::Paste),
            MenuEntryView::Native(NativeItem::SelectAll),
        ],
    }
}

fn edit_menu() -> (r: SubmenuLayout)
    ensures
        r@ == edit_menu_spec(),
{
    let mut entries: Vec<MenuEntry> = Vec::new();
    entries.push(MenuEntry::Native(NativeItem::Undo));
    entries.push(MenuEntry::Native(NativeItem::Redo));
    entries.push(MenuEntry::Native(NativeItem::Separator));
    entries.push(MenuEntry::Native(NativeItem::Cut));
    entries.push(MenuEntry::Native(NativeItem::Copy));
    entries.push(MenuEntry::Native(NativeItem::Paste));
    entries.push(MenuEntry::Native(NativeItem::SelectAll));
    let r = SubmenuLayout { title: "Edit".to_owned(), entries };
    proof {
        assert(r@.entries =~= edit_menu_spec().entries);
    }
    r
}

/// The submenu "View".
pub open spec fn view_menu_spec() -> SubmenuLayoutView {
    SubmenuLayoutView {
        title: "View"@,
        entries: seq![
            MenuEntryView::Native(NativeItem::EnterFullScreen),
        ],
    }
}

fn view_menu() -> (r: SubmenuLayout)
    ensures
        r@ == view_menu_spec(),
{
    let mut entries: Vec<MenuEntry> = Vec::new();
    entries.push(MenuEntry::Native(NativeItem::EnterFullScreen));
    let r = SubmenuLayout { title: "View".to_owned(), entries };
    proof {
        assert(r@.entries =~= view_menu_spec().entries);
    }
    r
}

/// The submenu "Window".
pub open spec fn window_menu_spec() -> SubmenuLayoutView {
    SubmenuLayoutView {
        title: "Window"@,
        entries: seq![
            MenuEntryView::Native(NativeItem::Minimize),
            MenuEntryView::Native(NativeItem::CloseWindow),
        ],
    }
}

fn window_menu() -> (r: SubmenuLayout)
    ensures
        r@ == window_menu_spec(),
{
    let mut entries: Vec<MenuEntry> = Vec::new();
    entries.push(MenuEntry::Native(NativeItem::Minimize));
    entries.push(MenuEntry::Native(NativeItem::CloseWindow));
    let r = SubmenuLayout { title: "Window".to_owned(), entries };
    proof {
        assert(r@.entries =~= window_menu_spec().entries);
    }
    r
}

/// The submenu "Subscriptions".
pub open spec fn subscriptions_menu_spec() -> SubmenuLayoutView {
    SubmenuLayoutView {
        title: "Subscriptions"@,
        entries: seq![
            MenuEntryView::Custom(MenuId::AddSubscription, "Add Subscription"@, Some("CommandOrControl+N"@)),
        ],
    }
}

fn subscriptions_menu() -> (r: SubmenuLayout)
    ensures
        r@ == subscriptions_menu_spec(),
{
    let mut entries: Vec<MenuEntry> = Vec::new();
    entries.push(MenuEntry::Custom(MenuId::AddSubscription, "Add Subscription".to_owned(), Some("CommandOrControl+N".to_owned())));
    let r = SubmenuLayout { title: "Subscriptions".to_owned(), entries };
    proof {
        assert(r@.entries =~= subscriptions_menu_spec().entries);
    }
    r
}

/// The submenu "Stories".
pub open spec fn stories_menu_spec() -> SubmenuLayoutView {
    SubmenuLayoutView {
        title: "Stories"@,
        entries: seq![
            MenuEntryView::Custom(MenuId::NextStory, "Next Story"@, Some("CommandOrControl+J"@)),
            MenuEntryView::Custom(MenuId::PrevStory, "Previous Story"@, Some("CommandOrControl+K"@)),
            MenuEntryView::Native(NativeItem::Separator),
            MenuEntryView::Custom(MenuId::ToggleRead, "Toggle Read"@, Some("CommandOrControl+T"@)),
            MenuEntryView::Custom(MenuId::ToggleFavorite, "Toggle Favorite"@, Some("CommandOrControl+S"@)),
            MenuEntryView::Custom(MenuId::MarkAllRead, "Mark All Read"@, Some("Alt+R"@)),
            MenuEntryView::Native(NativeItem::Separator),
            MenuEntryView::Custom(MenuId::SaveOffline, "Save Offline"@, Some("CommandOrControl+O"@)),
            MenuEntryView::Custom(MenuId::ViewBrowser, "View in Browser"@, Some("CommandOrControl+B"@)),
        ],
    }
}

fn stories_menu() -> (r: SubmenuLayout)
    ensures
        r@ == stories_menu_spec(),
{
    let mut entries: Vec<MenuEntry> = Vec::new();
    entries.push(MenuEntry::Custom(MenuId::NextStory, "Next Story".to_owned(), Some("CommandOrControl+J".to_owned())));
    entries.push(MenuEntry::Custom(MenuId::PrevStory, "Previous Story".to_owned(), Some("CommandOrControl+K".to_owned())));
    entries.push(MenuEntry::Native(NativeItem::Separator));
    entries.push(MenuEntry::Custom(MenuId::ToggleRead, "Toggle Read".to_owned(), Some("CommandOrControl+T".to_owned())));
    entries.push(MenuEntry::Custom(MenuId::ToggleFavorite, "Toggle Favorite".to_owned(), Some("CommandOrControl+S".to_owned())));
    entries.push(MenuEntry::Custom(MenuId::MarkAllRead, "Mark All Read".to_owned(), Some("Alt+R".to_owned())));
    entries.push(MenuEntry::Native(NativeItem::Separator));
    entries.push(MenuEntry::Custom(MenuId::SaveOffline, "Save Offline".to_owned(), Some("CommandOrControl+O".to_owned())));
    entries.push(MenuEntry::Custom(MenuId::ViewBrowser, "View in Browser".to_owned(), Some("CommandOrControl+B".to_owned())));
    let r = SubmenuLayout { title: "Stories".to_owned(), entries };
    proof {
        assert(r@.entries =~= stories_menu_spec().entries);
    }
    r
}

/// The submenu "Import and Export".
pub open spec fn import_menu_spec() -> SubmenuLayoutView {
    SubmenuLayoutView {
        title: "Import and Export"@,
        entries: seq![
            MenuEntryView::Custom(MenuId::ImportSubscriptions, "Import Subscriptions"@, None),
            MenuEntryView::Custom(MenuId::ExportSubscriptions, "Export Subscriptions"@, None),
        ],
    }
}

fn import_menu() -> (r: SubmenuLayout)
    ensures
        r@ == import_menu_spec(),
{
    let mut entries: Vec<MenuEntry> = Vec::new();
    entries.push(MenuEntry::Custom(MenuId::ImportSubscriptions, "Import Subscriptions".to_owned(), None));
    entries.push(MenuEntry::Custom(MenuId::ExportSubscriptions, "Export Subscriptions".to_owned(), None));
    let r = SubmenuLayout { title: "Import and Export".to_owned(), entries };
    proof {
        assert(r@.entries =~= import_menu_spec().entries);
    }
    r
}

/// The menu: the application's submenu, whose entries differ on macOS, then
/// "Edit", "View", "Window", "Subscriptions", "Stories" and "Import and Export".
pub open spec fn menu_layout_spec(macos: bool) -> Seq<SubmenuLayoutView> {
    seq![
        if macos { file_menu_mac_spec() } else { file_menu_other_spec() },
        edit_menu_spec(),
        view_menu_spec(),
        window_menu_spec(),
        subscriptions_menu_spec(),
        stories_menu_spec(),
        import_menu_spec(),
    ]
}

/// The layout of the application menu.
pub fn menu_layout(macos: bool) -> (r: Vec<SubmenuLayout>)
    ensures
        r@.map_values(|s: SubmenuLayout| s@) == menu_layout_spec(macos),
{
    let mut r: Vec<SubmenuLayout> = Vec::new();
    if macos {
        r.push(file_menu_mac());
    } else {
        r.push(file_menu_other());
    }
    r.push(edit_menu());
    r.push(view_menu());
    r.push(window_menu());
    r.push(subscriptions_menu());
    r.push(stories_menu());
    r.push(import_menu());
    proof {
        assert(r@.map_values(|s: SubmenuLayout| s@) =~= menu_layout_spec(macos));
    }
    r
}

/// How many of `entries` are the native item `n`.
pub open spec fn native_count(entries: Seq<MenuEntryView>, n: NativeItem) -> nat
    decreases entries.len(),
{
    if entries.len() == 0 {
        0
    } else {
        native_count(entries.drop_last(), n) + match entries.last() {
            MenuEntryView::Native(m) => if m == n { 1nat } else { 0nat },
            _ => 0nat,
        }
    }
}

/// How many of `entries` are the reader's entry `id`.
pub open spec fn custom_count(entries: Seq<MenuEntryView>, id: MenuId) -> nat
    decreases entries.len(),
{
    if entries.len() == 0 {
        0
    } else {
        custom_count(entries.drop_last(), id) + match entries.last() {
            MenuEntryView::Custom(x, _, _) => if x == id { 1nat } else { 0nat },
            _ => 0nat,
        }
    }
}

/// How many entries of all submenus are the native item `n`.
pub open spec fn layout_native_count(layout: Seq<SubmenuLayoutView>, n: NativeItem) -> nat
    decreases layout.len(),
{
    if layout.len() == 0 {
        0
    } else {
        layout_native_count(layout.drop_last(), n) + native_count(layout.last().entries, n)
    }
}

/// How many entries of all submenus are the reader's entry `id`.
pub open spec fn layout_custom_count(layout: Seq<SubmenuLayoutView>, id: MenuId) -> nat
    decreases layout.len(),
{
    if layout.len() == 0 {
        0
    } else {
        layout_custom_count(layout.drop_last(), id) + custom_count(layout.last().entries, id)
    }
}

spec fn every_id_once(layout: Seq<SubmenuLayoutView>) -> bool {
    &&& layout_custom_count(layout, MenuId::Preferences) == 1
    &&& layout_custom_count(layout, MenuId::AddSubscription) == 1
    &&& layout_custom_count(layout, MenuId::NextStory) == 1
    &&& layout_custom_count(layout, MenuId::PrevStory) == 1
    &&& layout_custom_count(layout, MenuId::ToggleRead) == 1
    &&& layout_custom_count(layout, MenuId::ToggleFavorite) == 1
    &&& layout_custom_count(layout, MenuId::MarkAllRead) == 1
    &&& layout_custom_count(layout, MenuId::SaveOffline) == 1
    &&& layout_custom_count(layout, MenuId::ViewBrowser) == 1
    &&& layout_custom_count(layout, MenuId::ImportSubscriptions) == 1
    &&& layout_custom_count(layout, MenuId::ExportSubscriptions) == 1
}

spec fn editing_items_in_edit(layout: Seq<SubmenuLayoutView>) -> bool {
    &&& layout.len() > 1
    &&& native_count(layout[1].entries, NativeItem::Undo) == 1
    &&& native_count(layout[1].entries, NativeItem::Redo) == 1
    &&& native_count(layout[1].entries, NativeItem::Cut) == 1
    &&& native_count(layout[1].entries, NativeItem::Copy) == 1
    &&& native_count(layout[1].entries, NativeItem::Paste) == 1
    &&& native_count(layout[1].entries, NativeItem::SelectAll) == 1
    &&& layout_native_count(layout, NativeItem::Undo) == 1
    &&& layout_native_count(layout, NativeItem::Redo) == 1
    &&& layout_native_count(layout, NativeItem::Cut) == 1
    &&& layout_native_count(layout, NativeItem::Copy) == 1
    &&& layout_native_count(layout, NativeItem::Paste) == 1
    &&& layout_native_count(layout, NativeItem::SelectAll) == 1
    &&& layout_native_count(layout, NativeItem::EnterFullScreen) == 1
    &&& layout_native_count(layout, NativeItem::Minimize) == 1
    &&& layout_native_count(layout, NativeItem::CloseWindow) == 1
    &&& layout_native_count(layout, NativeItem::Quit) == 1
}

/// On every platform, each of the reader's own entries is in the menu
/// exactly once.
pub proof fn lemma_every_menu_id_once(macos: bool)
    ensures
        forall|id: MenuId| #[trigger] layout_custom_count(menu_layout_spec(macos), id) == 1,
{
    reveal_with_fuel(custom_count, 11);
    reveal_with_fuel(layout_custom_count, 8);
    assert(every_id_once(menu_layout_spec(macos)));
    assert forall|id: MenuId| #[trigger] layout_custom_count(menu_layout_spec(macos), id) == 1 by {
        match id {
            MenuId::Preferences => {},
            MenuId::AddSubscription => {},
            MenuId::NextStory => {},
            MenuId::PrevStory => {},
            MenuId::ToggleRead => {},
            MenuId::ToggleFavorite => {},
            MenuId::MarkAllRead => {},
            MenuId::SaveOffline => {},
            MenuId::ViewBrowser => {},
            MenuId::ImportSubscriptions => {},
            MenuId::ExportSubscriptions => {},
        }
    }
}

/// On every platform, the editing items Undo, Redo, Cut, Copy, Paste and
/// Select All are each in the menu exactly once, in the second submenu,
/// titled "Edit"; so are full screen, minimize, close and quit, each once.
pub proof fn lemma_native_items_once(macos: bool)
    ensures
        menu_layout_spec(macos)[1].title == "Edit"@,
        forall|n: NativeItem|
            (n == NativeItem::Undo || n == NativeItem::Redo || n == NativeItem::Cut || n == NativeItem::Copy
                || n == NativeItem::Paste || n == NativeItem::SelectAll)
            ==> native_count(menu_layout_spec(macos)[1].entries, n) == 1
                && #[trigger] layout_native_count(menu_layout_spec(macos), n) == 1,
        forall|n: NativeItem|
            (n == NativeItem::EnterFullScreen || n == NativeItem::Minimize || n == NativeItem::CloseWindow
                || n == NativeItem::Quit)
            ==> #[trigger] layout_native_count(menu_layout_spec(macos), n) == 1,
{
    reveal_with_fuel(native_count, 11);
    reveal_with_fuel(layout_native_count, 8);
    assert(editing_items_in_edit(menu_layout_spec(macos)));
}

/// Only the application's submenu differs between platforms: the others,
/// from "Edit" on, are the same everywhere.
pub proof fn lemma_layout_same_after_first(macos: bool)
    ensures
        menu_layout_spec(macos).len() == 7,
        menu_layout_spec(macos)[0].title == "Crab Reader"@,
        menu_layout_spec(macos).drop_first() == menu_layout_spec(!macos).drop_first(),
{
    assert(menu_layout_spec(macos).drop_first() =~= menu_layout_spec(!macos).drop_first());
}

} // verus!
