//! The window as a whole: its tabs, its theme, and what reaches it from other
//! launches.

use vstd::prelude::*;

use crate::ipc::{IpcMessage, MessageView};
use crate::text;

verus! {

#[derive(Debug, Clone, Copy, PartialEq, Eq, Structural)]
pub enum Tab {
    Copy,
    Search,
    Duplicates,
    Big,
    DiskUsage,
    Boot,
    Organize,
    Sync,
    Share,
}

#[derive(Debug, Clone, Copy, PartialEq, Eq, Structural)]
pub enum Theme {
    Light,
    Dark,
}

/// The theme that a click on the switch leads to: always the other one.
pub fn toggled_theme(currently_dark: bool) -> (r: Theme)
    ensures
        r == (if currently_dark {
            Theme::Light
        } else {
            Theme::Dark
        }),
{
    if currently_dark {
        Theme::Light
    } else {
        Theme::Dark
    }
}

/// What the switch says: the theme that it leads to.
pub fn toggle_label(currently_dark: bool) -> (r: &'static str)
    ensures
        r@ == (if currently_dark {
            "☀ Light mode"@
        } else {
            "🌙 Dark mode"@
        }),
{
    if currently_dark {
        "☀ Light mode"
    } else {
        "🌙 Dark mode"
    }
}

pub fn tab_label(tab: Tab) -> (r: &'static str)
    ensures
        r@ == (match tab {
            Tab::Copy => "📁 Copy / Move / Rename"@,
            Tab::Search => "🔎 Search"@,
            Tab::Duplicates => "🔍 Duplicates"@,
            Tab::Big => "🐘 Big Files & Folders"@,
            Tab::DiskUsage => "💽 Disk Usage"@,
            Tab::Boot => "💿 Bootable USB"@,
            Tab::Organize => "🗂 Organize"@,
            Tab::Sync => "🔄 Sync"@,
            Tab::Share => "📡 Share"@,
        }),
{
    match tab {
        Tab::Copy => "📁 Copy / Move / Rename",
        Tab::Search => "🔎 Search",
        Tab::Duplicates => "🔍 Duplicates",
        Tab::Big => "🐘 Big Files & Folders",
        Tab::DiskUsage => "💽 Disk Usage",
        Tab::Boot => "💿 Bootable USB",
        Tab::Organize => "🗂 Organize",
        Tab::Sync => "🔄 Sync",
        Tab::Share => "📡 Share",
    }
}

/// What messages from other launches ask for.
#[derive(Debug)]
pub struct Arrivals {
    /// Paths to add, as text.
    pub paths: Vec<String>,
    pub use_move_mode: bool,
}

/// The paths that the first `n` messages bring.
pub open spec fn message_paths(messages: Seq<IpcMessage>, n: int) -> Seq<Seq<char>>
    decreases n,
{
    if n <= 0 {
        Seq::empty()
    } else {
        match messages[n - 1]@ {
            MessageView::Path(p) => message_paths(messages, n - 1).push(p),
            MessageView::UseMoveMode => message_paths(messages, n - 1),
        }
    }
}

/// Whether one of the first `n` messages asks for moving.
pub open spec fn asks_for_move(messages: Seq<IpcMessage>, n: int) -> bool
    decreases n,
{
    n > 0 && (asks_for_move(messages, n - 1) || messages[n - 1]@ is UseMoveMode)
}

/// Takes in messages from other launches; `None` if there are none. When there
/// are, the tab that copies is shown.
pub fn take_messages(tab: &mut Tab, messages: &Vec<IpcMessage>) -> (r: Option<Arrivals>)
    ensures
        messages@.len() == 0 ==> r is None && *final(tab) == *old(tab),
        messages@.len() > 0 ==> {
            &&& *final(tab) == Tab::Copy
            &&& r matches Some(a)
            &&& text::views(a.paths@) == message_paths(messages@, messages@.len() as int)
            &&& a.use_move_mode == asks_for_move(messages@, messages@.len() as int)
        },
{
    if messages.len() == 0 {
        return None;
    }
    let mut paths: Vec<String> = Vec::new();
    let mut use_move_mode = false;
    proof {
        assert(text::views(paths@) =~= Seq::<Seq<char>>::empty());
    }
    let mut i: usize = 0;
    while i < messages.len()
        invariant
            i <= messages@.len(),
            text::views(paths@) == message_paths(messages@, i as int),
            use_move_mode == asks_for_move(messages@, i as int),
        decreases messages@.len() - i,
    {
        match &messages[i] {
            IpcMessage::Path(p) => {
                let path = p.clone();
                proof {
                    text::views_push(paths@, path);
                }
                paths.push(path);
            },
            IpcMessage::UseMoveMode => {
                use_move_mode = true;
            },
        }
        i = i + 1;
    }
    *tab = Tab::Copy;
    Some(Arrivals { paths, use_move_mode })
}

proof fn lemma_messages(messages: Seq<IpcMessage>, n: int)
    requires
        0 <= n <= messages.len(),
    ensures
        asks_for_move(messages, n) <==> exists|i: int|
            0 <= i < n && #[trigger] messages[i]@ is UseMoveMode,
        forall|i: int|
            0 <= i < n && (#[trigger] messages[i])@ is Path ==> message_paths(messages, n).contains(
                messages[i]@->Path_0,
            ),
        message_paths(messages, n).len() <= n,
    decreases n,
{
    if n > 0 {
        lemma_messages(messages, n - 1);
        let before = message_paths(messages, n - 1);
        let all = message_paths(messages, n);
        assert forall|i: int| 0 <= i < n && (#[trigger] messages[i])@ is Path implies all.contains(
            messages[i]@->Path_0,
        ) by {
            let p = messages[i]@->Path_0;
            if i < n - 1 {
                let k = choose|k: int| 0 <= k < before.len() && before[k] == p;
                assert(all[k] == p);
            } else {
                assert(all.last() == p);
            }
        }
        if asks_for_move(messages, n) && !asks_for_move(messages, n - 1) {
            assert(messages[n - 1]@ is UseMoveMode);
        }
    }
}

/// Every path that another launch brings is added, and files are moved just
/// where one of the messages asks for it; the tab that copies is shown.
pub proof fn law_messages_are_taken(
    tab: &mut Tab,
    messages: &Vec<IpcMessage>,
    r: Option<Arrivals>,
    i: int,
)
    requires
        call_ensures(take_messages, (tab, messages), r),
        0 <= i < messages@.len(),
    ensures
        *final(tab) is Copy,
        r is Some,
        messages@[i] is UseMoveMode ==> r->0.use_move_mode,
        messages@[i] matches IpcMessage::Path(p) ==> text::views(r->0.paths@).contains(p@),
        (forall|k: int| 0 <= k < messages@.len() ==> #[trigger] messages@[k] is Path)
            ==> !r->0.use_move_mode,
{
    lemma_messages(messages@, messages@.len() as int);
    assert(messages@[i]@ is UseMoveMode || messages@[i]@ is Path);
    if r->0.use_move_mode {
        let k = choose|k: int|
            0 <= k < messages@.len() && #[trigger] messages@[k]@ is UseMoveMode;
        assert(!(messages@[k] is Path));
    }
}

/// The switch leads to the other theme, and twice to the same.
pub proof fn law_theme_switches_back(dark: bool, once: Theme, twice: Theme)
    requires
        call_ensures(toggled_theme, (dark,), once),
        call_ensures(toggled_theme, (once is Dark,), twice),
    ensures
        once is Dark == !dark,
        twice is Dark == dark,
{
}

} // verus!
