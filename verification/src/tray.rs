//! The system tray: merging updates of tray items, and the icons of the panel.

use vstd::prelude::*;

use crate::text::chars::same;

verus! {

/// An RGBA8 or ARGB32 picture: width, height and bytes.
pub type Pixels = (u32, u32, Vec<u8>);

/// A [`Pixels`] as a mathematical value.
pub type PixelsView = (u32, u32, Seq<u8>);

/// The value of an optional picture.
pub open spec fn pixels_view(p: Option<Pixels>) -> Option<PixelsView> {
    match p {
        Some((w, h, bytes)) => Some((w, h, bytes@)),
        None => None,
    }
}

/// An update about one tray item, sent to the UI thread. `Add` is an upsert.
#[derive(Debug, Clone)]
pub enum TrayUpdate {
    Add {
        /// The item's bus address; pass it back in [`TrayCommand::Activate`].
        id: String,
        title: String,
        /// Themed icon name (used when `pixmap` is `None`).
        icon_name: String,
        /// Pre-converted RGBA8 icon `(width, height, pixels)`.
        pixmap: Option<(u32, u32, Vec<u8>)>,
    },
    Remove { id: String },
}

/// A [`TrayUpdate`] as a mathematical value.
pub enum TrayUpdateView {
    Add { id: Seq<char>, title: Seq<char>, icon_name: Seq<char>, pixmap: Option<PixelsView> },
    Remove { id: Seq<char> },
}

impl View for TrayUpdate {
    type V = TrayUpdateView;

    open spec fn view(&self) -> TrayUpdateView {
        match self {
            TrayUpdate::Add { id, title, icon_name, pixmap } => TrayUpdateView::Add {
                id: id@,
                title: title@,
                icon_name: icon_name@,
                pixmap: pixels_view(*pixmap),
            },
            TrayUpdate::Remove { id } => TrayUpdateView::Remove { id: id@ },
        }
    }
}

/// A request from the UI thread to the tray host.
#[derive(Debug, Clone)]
pub enum TrayCommand {
    /// Default-activate the item (typically a left click).
    Activate(String),
}

// ---------------------------------------------------------------------------
// Pixmaps

/// An icon as an item offers it: ARGB32 in network byte order, i.e. bytes
/// `A R G B`.
#[derive(Debug)]
pub struct IconPixmap {
    pub width: i32,
    pub height: i32,
    pub pixels: Vec<u8>,
}

/// How many pixels an icon has.
pub open spec fn area(p: IconPixmap) -> int {
    p.width * p.height
}

/// The icon has pixels.
pub open spec fn usable(p: IconPixmap) -> bool {
    p.width > 0 && p.height > 0
}

/// The largest of the icons that have pixels, the last of several as large.
pub open spec fn largest(pixmaps: Seq<IconPixmap>) -> Option<int>
    decreases pixmaps.len(),
{
    if pixmaps.len() == 0 {
        None
    } else {
        let rest = largest(pixmaps.drop_last());
        let last = pixmaps.len() - 1;
        if usable(pixmaps[last]) && (rest matches Some(i) ==> area(pixmaps[i]) <= area(
            pixmaps[last],
        )) {
            Some(last)
        } else {
            rest
        }
    }
}

/// The bytes of whole pixels, with alpha put last.
pub open spec fn alpha_last(argb: Seq<u8>) -> Seq<u8> {
    Seq::new(
        (argb.len() / 4 * 4) as nat,
        |k: int|
            if k % 4 == 3 {
                argb[k - 3]
            } else {
                argb[k + 1]
            },
    )
}

/// The icon to show: the largest one, if all of its bytes are there.
pub open spec fn best_icon(pixmaps: Option<Seq<IconPixmap>>) -> Option<PixelsView> {
    match pixmaps {
        Some(all) => match largest(all) {
            Some(i) => if all[i].pixels@.len() < area(all[i]) * 4 {
                None
            } else {
                Some((all[i].width as u32, all[i].height as u32, alpha_last(all[i].pixels@)))
            },
            None => None,
        },
        None => None,
    }
}

/// The largest icon is one of the icons.
proof fn lemma_largest(pixmaps: Seq<IconPixmap>)
    ensures
        largest(pixmaps) matches Some(i) ==> 0 <= i < pixmaps.len() && usable(pixmaps[i]),
    decreases pixmaps.len(),
{
    if pixmaps.len() > 0 {
        lemma_largest(pixmaps.drop_last());
    }
}

/// Put alpha last.
fn to_rgba(argb: &Vec<u8>) -> (r: Vec<u8>)
    ensures
        r@ == alpha_last(argb@),
{
    let mut out: Vec<u8> = Vec::new();
    let n = argb.len() / 4;
    for i in 0..n
        invariant
            n == argb.len() / 4,
            out@ =~= alpha_last(argb@).take(i * 4),
    {
        let at: usize = i * 4;
        let ghost before = out@;
        out.push(argb[at + 1]);
        out.push(argb[at + 2]);
        out.push(argb[at + 3]);
        out.push(argb[at]);
        assert forall|k: int| 0 <= k < out.len() implies out@[k] == alpha_last(argb@)[k] by {
            if k < at {
                assert(before[k] == alpha_last(argb@).take(i * 4)[k]);
            }
        }
    }
    assert(out@ =~= alpha_last(argb@));
    out
}

/// Pick the largest pixmap and convert it to RGBA8.
pub fn best_pixmap(pixmaps: &Option<Vec<IconPixmap>>) -> (r: Option<(u32, u32, Vec<u8>)>)
    ensures
        pixels_view(r) == best_icon(
            match *pixmaps {
                Some(all) => Some(all@),
                None => None,
            },
        ),
{
    let Some(all) = pixmaps else {
        return None;
    };
    let mut best: Option<usize> = None;
    for i in 0..all.len()
        invariant
            best matches Some(b) ==> b < i && usable(all@[b as int]),
            largest(all@.take(i as int)) == match best {
                Some(b) => Some(b as int),
                None => None,
            },
    {
        let ghost now = all@.take(i + 1);
        proof {
            assert(now.drop_last() =~= all@.take(i as int));
            assert(now[i as int] == all@[i as int]);
        }
        let p = &all[i];
        if p.width > 0 && p.height > 0 {
            proof {
                assert(0 < p.width * p.height <= 0x7fff_ffff * 0x7fff_ffff) by (nonlinear_arith)
                    requires
                        0 < p.width <= 0x7fff_ffff,
                        0 < p.height <= 0x7fff_ffff,
                ;
            }
            let size: i64 = p.width as i64 * p.height as i64;
            let larger = match best {
                Some(b) => {
                    let q = &all[b];
                    proof {
                        assert(now[b as int] == all@[b as int]);
                        assert(0 < q.width * q.height <= 0x7fff_ffff * 0x7fff_ffff)
                            by (nonlinear_arith)
                            requires
                                0 < q.width <= 0x7fff_ffff,
                                0 < q.height <= 0x7fff_ffff,
                        ;
                    }
                    q.width as i64 * q.height as i64 <= size
                },
                None => true,
            };
            if larger {
                best = Some(i);
            }
        }
    }
    assert(all@.take(all@.len() as int) =~= all@);
    let i = best?;
    let p = &all[i];
    proof {
        assert(0 < p.width * p.height <= 0x7fff_ffff * 0x7fff_ffff) by (nonlinear_arith)
            requires
                0 < p.width <= 0x7fff_ffff,
                0 < p.height <= 0x7fff_ffff,
        ;
    }
    let expected: i128 = p.width as i128 * p.height as i128 * 4;
    if (p.pixels.len() as i128) < expected {
        return None;
    }
    Some((p.width as u32, p.height as u32, to_rgba(&p.pixels)))
}

// ---------------------------------------------------------------------------
// Items

/// What is known of a tray item.
#[derive(Debug)]
pub struct ItemState {
    pub title: String,
    pub icon_name: String,
    pub pixmap: Option<(u32, u32, Vec<u8>)>,
}

/// An [`ItemState`] as a mathematical value.
#[verifier::ext_equal]
pub struct ItemView {
    pub title: Seq<char>,
    pub icon_name: Seq<char>,
    pub pixmap: Option<PixelsView>,
}

impl View for ItemState {
    type V = ItemView;

    open spec fn view(&self) -> ItemView {
        ItemView {
            title: self.title@,
            icon_name: self.icon_name@,
            pixmap: pixels_view(self.pixmap),
        }
    }
}

/// A tray item as it describes itself.
#[derive(Debug)]
pub struct TrayItemInfo {
    pub id: String,
    pub title: Option<String>,
    pub icon_name: Option<String>,
    pub icon_pixmap: Option<Vec<IconPixmap>>,
}

/// An event of the tray host.
#[derive(Debug)]
pub enum TrayEvent {
    Add(String, TrayItemInfo),
    Icon { id: String, icon_name: Option<String>, icon_pixmap: Option<Vec<IconPixmap>> },
    Title { id: String, title: Option<String> },
    /// Menu, status or tooltip changes, which don't affect the icon.
    Other,
    Remove(String),
}

/// The text, or nothing.
pub open spec fn text_or_empty(s: Option<String>) -> Seq<char> {
    match s {
        Some(t) => t@,
        None => seq![],
    }
}

/// The icons, as mathematical values.
pub open spec fn pixmaps_view(p: Option<Vec<IconPixmap>>) -> Option<Seq<IconPixmap>> {
    match p {
        Some(all) => Some(all@),
        None => None,
    }
}

/// What a new item is known by: its title, or its id where it has none.
pub open spec fn described(item: TrayItemInfo) -> ItemView {
    ItemView {
        title: match item.title {
            Some(t) => if t@.len() > 0 {
                t@
            } else {
                item.id@
            },
            None => item.id@,
        },
        icon_name: text_or_empty(item.icon_name),
        pixmap: best_icon(pixmaps_view(item.icon_pixmap)),
    }
}

/// An item of which nothing is known.
pub open spec fn unknown_item() -> ItemView {
    ItemView { title: seq![], icon_name: seq![], pixmap: None }
}

/// Items by their addresses.
pub type Items = Map<Seq<char>, ItemView>;

/// What is known of an item.
pub open spec fn known(items: Items, id: Seq<char>) -> ItemView {
    if items.contains_key(id) {
        items[id]
    } else {
        unknown_item()
    }
}

/// The items after an event. A partial update is merged into what is known.
pub open spec fn after_event(items: Items, event: TrayEvent) -> Items {
    match event {
        TrayEvent::Add(id, item) => items.insert(id@, described(item)),
        TrayEvent::Icon { id, icon_name, icon_pixmap } => items.insert(
            id@,
            ItemView {
                icon_name: text_or_empty(icon_name),
                pixmap: best_icon(pixmaps_view(icon_pixmap)),
                ..known(items, id@)
            },
        ),
        TrayEvent::Title { id, title } => items.insert(
            id@,
            ItemView { title: text_or_empty(title), ..known(items, id@) },
        ),
        TrayEvent::Other => items,
        TrayEvent::Remove(id) => items.remove(id@),
    }
}

/// The update for the UI that shows an item.
pub open spec fn shown(id: Seq<char>, item: ItemView) -> TrayUpdateView {
    TrayUpdateView::Add {
        id,
        title: item.title,
        icon_name: item.icon_name,
        pixmap: item.pixmap,
    }
}

/// The update for the UI after an event.
pub open spec fn update_of(items: Items, event: TrayEvent) -> Option<TrayUpdateView> {
    let after = after_event(items, event);
    match event {
        TrayEvent::Add(id, _) => Some(shown(id@, after[id@])),
        TrayEvent::Icon { id, .. } => Some(shown(id@, after[id@])),
        TrayEvent::Title { id, .. } => Some(shown(id@, after[id@])),
        TrayEvent::Other => None,
        TrayEvent::Remove(id) => Some(TrayUpdateView::Remove { id: id@ }),
    }
}

/// The value of an optional update.
pub open spec fn update_view(u: Option<TrayUpdate>) -> Option<TrayUpdateView> {
    match u {
        Some(update) => Some(update@),
        None => None,
    }
}

/// A picture, copied.
fn copy_pixels(p: &Option<(u32, u32, Vec<u8>)>) -> (r: Option<(u32, u32, Vec<u8>)>)
    ensures
        pixels_view(r) == pixels_view(*p),
{
    match p {
        Some((w, h, bytes)) => {
            let copy = vstd::slice::slice_to_vec(bytes.as_slice());
            Some((*w, *h, copy))
        },
        None => None,
    }
}

/// The text, or nothing.
fn or_empty(s: Option<String>) -> (r: String)
    ensures
        r@ == text_or_empty(s),
{
    match s {
        Some(t) => t,
        None => {
            let r = String::new();
            assert(r@ =~= seq![]);
            r
        },
    }
}

impl ItemState {
    /// The update for the UI that shows the item.
    fn emit(&self, id: &str) -> (r: TrayUpdate)
        ensures
            r@ == shown(id@, self@),
    {
        TrayUpdate::Add {
            id: id.to_string(),
            title: self.title.clone(),
            icon_name: self.icon_name.clone(),
            pixmap: copy_pixels(&self.pixmap),
        }
    }
}

/// What a new item is known by.
pub fn item_state(item: TrayItemInfo) -> (r: ItemState)
    ensures
        r@ == described(item),
{
    let title = match item.title {
        Some(t) => if t.as_str().is_empty() {
            item.id
        } else {
            t
        },
        None => item.id,
    };
    let pixmap = best_pixmap(&item.icon_pixmap);
    ItemState { title, icon_name: or_empty(item.icon_name), pixmap }
}

/// Each item's latest data, so partial updates can be merged.
#[derive(Debug)]
pub struct TrayItems {
    entries: Vec<(String, ItemState)>,
}

impl View for TrayItems {
    type V = Items;

    closed spec fn view(&self) -> Items {
        Map::new(
            |id: Seq<char>| exists|i: int|
                0 <= i < self.entries@.len() && (#[trigger] self.entries@[i]).0@ == id,
            |id: Seq<char>|
                self.entries@[choose|i: int|
                    0 <= i < self.entries@.len() && (#[trigger] self.entries@[i]).0@ == id].1@,
        )
    }
}

impl TrayItems {
    /// Every item is kept once.
    pub closed spec fn wf(&self) -> bool {
        forall|i: int, j: int|
            0 <= i < j < self.entries@.len() ==> (#[trigger] self.entries@[i]).0@ != (
            #[trigger] self.entries@[j]).0@
    }

    /// No items.
    pub fn new() -> (r: Self)
        ensures
            r.wf(),
            r@ == Map::<Seq<char>, ItemView>::empty(),
    {
        let r = TrayItems { entries: Vec::new() };
        assert(r@ =~= Map::empty());
        r
    }

    /// The entry at an index is what its id is mapped to.
    proof fn lemma_entry(&self, i: int)
        requires
            self.wf(),
            0 <= i < self.entries@.len(),
        ensures
            self@.contains_key(self.entries@[i].0@),
            self@[self.entries@[i].0@] == self.entries@[i].1@,
    {
        let id = self.entries@[i].0@;
        let j = choose|j: int|
            0 <= j < self.entries@.len() && (#[trigger] self.entries@[j]).0@ == id;
        assert(self.entries@[i].0@ == id);
        if i < j {
            assert(self.entries@[i].0@ != self.entries@[j].0@);
        } else if j < i {
            assert(self.entries@[j].0@ != self.entries@[i].0@);
        }
    }

    /// The index of an item.
    fn find(&self, id: &str) -> (r: Option<usize>)
        requires
            self.wf(),
        ensures
            match r {
                Some(i) => i < self.entries.len() && self.entries@[i as int].0@ == id@
                    && self@.contains_key(id@) && self@[id@] == self.entries@[i as int].1@,
                None => !self@.contains_key(id@) && forall|i: int|
                    0 <= i < self.entries@.len() ==> (#[trigger] self.entries@[i]).0@ != id@,
            },
    {
        for i in 0..self.entries.len()
            invariant
                self.wf(),
                forall|k: int| 0 <= k < i ==> (#[trigger] self.entries@[k]).0@ != id@,
        {
            if same(self.entries[i].0.as_str(), id) {
                proof {
                    self.lemma_entry(i as int);
                }
                return Some(i);
            }
        }
        None
    }

    /// Take what is known of an item; nothing is known of a new one.
    fn take(&mut self, id: &str) -> (r: ItemState)
        requires
            old(self).wf(),
        ensures
            final(self).wf(),
            r@ == known(old(self)@, id@),
            final(self)@ == old(self)@.remove(id@),
    {
        match self.remove(id) {
            Some(item) => item,
            None => {
                let r = ItemState { title: String::new(), icon_name: String::new(), pixmap: None };
                assert(r@ =~= unknown_item());
                r
            },
        }
    }

    /// Forget an item.
    fn remove(&mut self, id: &str) -> (r: Option<ItemState>)
        requires
            old(self).wf(),
        ensures
            final(self).wf(),
            final(self)@ == old(self)@.remove(id@),
            match r {
                Some(item) => old(self)@.contains_key(id@) && item@ == old(self)@[id@],
                None => !old(self)@.contains_key(id@),
            },
    {
        let ghost before = *self;
        match self.find(id) {
            Some(at) => {
                let entry = self.entries.remove(at);
                proof {
                    let back = |k: int| if k < at { k } else { k + 1 };
                    assert forall|i: int, j: int| 0 <= i < j < self.entries@.len() implies (
                    #[trigger] self.entries@[i]).0@ != (#[trigger] self.entries@[j]).0@ by {
                        assert(self.entries@[i] == before.entries@[back(i)]);
                        assert(self.entries@[j] == before.entries@[back(j)]);
                    }
                    assert forall|k: Seq<char>| self@.contains_key(k) == before@.remove(
                        id@,
                    ).contains_key(k) by {
                        if self@.contains_key(k) {
                            let i = choose|i: int|
                                0 <= i < self.entries@.len() && (#[trigger] self.entries@[i]).0@
                                    == k;
                            assert(self.entries@[i] == before.entries@[back(i)]);
                            before.lemma_entry(back(i));
                            if back(i) < at {
                                assert(before.entries@[back(i)].0@ != before.entries@[at as int].0@);
                            } else {
                                assert(before.entries@[at as int].0@ != before.entries@[back(i)].0@);
                            }
                        }
                        if before@.contains_key(k) && k != id@ {
                            let i = choose|i: int|
                                0 <= i < before.entries@.len() && (
                                #[trigger] before.entries@[i]).0@ == k;
                            if i < at {
                                assert(self.entries@[i].0@ == k);
                            } else {
                                assert(self.entries@[i - 1].0@ == k);
                            }
                        }
                    }
                    assert forall|k: Seq<char>| self@.contains_key(k) implies self@[k]
                        == before@.remove(id@)[k] by {
                        let i = choose|i: int|
                            0 <= i < self.entries@.len() && (#[trigger] self.entries@[i]).0@ == k;
                        self.lemma_entry(i);
                        assert(self.entries@[i] == before.entries@[back(i)]);
                        before.lemma_entry(back(i));
                    }
                    assert(self@ =~= before@.remove(id@));
                }
                Some(entry.1)
            },
            None => {
                assert(self@ =~= before@.remove(id@));
                None
            },
        }
    }

    /// Keep an item that is not kept yet.
    fn add(&mut self, id: String, item: ItemState)
        requires
            old(self).wf(),
            !old(self)@.contains_key(id@),
        ensures
            final(self).wf(),
            final(self)@ == old(self)@.insert(id@, item@),
    {
        let ghost before = *self;
        let ghost n = self.entries@.len() as int;
        self.entries.push((id, item));
        proof {
            assert forall|i: int| 0 <= i < n implies (#[trigger] before.entries@[i]).0@ != id@ by {
                before.lemma_entry(i);
            }
            assert forall|i: int, j: int| 0 <= i < j < self.entries@.len() implies (
            #[trigger] self.entries@[i]).0@ != (#[trigger] self.entries@[j]).0@ by {
                assert(self.entries@[i] == before.entries@[i]);
                if j < n {
                    assert(self.entries@[j] == before.entries@[j]);
                }
            }
            assert forall|k: Seq<char>| self@.contains_key(k) == before@.insert(
                id@,
                item@,
            ).contains_key(k) by {
                if self@.contains_key(k) {
                    let i = choose|i: int|
                        0 <= i < self.entries@.len() && (#[trigger] self.entries@[i]).0@ == k;
                    if i < n {
                        before.lemma_entry(i);
                    }
                }
                if before@.contains_key(k) {
                    let i = choose|i: int|
                        0 <= i < before.entries@.len() && (#[trigger] before.entries@[i]).0@ == k;
                    assert(self.entries@[i].0@ == k);
                }
                assert(self.entries@[n].0@ == id@);
            }
            assert forall|k: Seq<char>| self@.contains_key(k) implies self@[k] == before@.insert(
                id@,
                item@,
            )[k] by {
                let i = choose|i: int|
                    0 <= i < self.entries@.len() && (#[trigger] self.entries@[i]).0@ == k;
                self.lemma_entry(i);
                if i < n {
                    before.lemma_entry(i);
                }
            }
            assert(self@ =~= before@.insert(id@, item@));
        }
    }

    /// Apply an event of the tray host. Returns the update for the UI.
    pub fn handle_event(&mut self, event: TrayEvent) -> (r: Option<TrayUpdate>)
        requires
            old(self).wf(),
        ensures
            final(self).wf(),
            final(self)@ == after_event(old(self)@, event),
            update_view(r) == update_of(old(self)@, event),
    {
        let ghost before = self@;
        match event {
            TrayEvent::Add(id, item) => {
                let state = item_state(item);
                let update = state.emit(id.as_str());
                self.remove(id.as_str());
                self.add(id, state);
                assert(self@ =~= after_event(before, event));
                Some(update)
            },
            TrayEvent::Icon { id, icon_name, icon_pixmap } => {
                let mut state = self.take(id.as_str());
                state.icon_name = or_empty(icon_name);
                state.pixmap = best_pixmap(&icon_pixmap);
                let update = state.emit(id.as_str());
                self.add(id, state);
                assert(self@ =~= after_event(before, event));
                Some(update)
            },
            TrayEvent::Title { id, title } => {
                let mut state = self.take(id.as_str());
                state.title = or_empty(title);
                let update = state.emit(id.as_str());
                self.add(id, state);
                assert(self@ =~= after_event(before, event));
                Some(update)
            },
            TrayEvent::Other => None,
            TrayEvent::Remove(id) => {
                self.remove(id.as_str());
                Some(TrayUpdate::Remove { id })
            },
        }
    }
}

// ---------------------------------------------------------------------------
// The panel

/// What a tray icon is drawn from.
#[derive(Debug)]
pub enum IconSource {
    Pixels(u32, u32, Vec<u8>),
    Name(String),
}

/// A tray icon of the panel.
#[derive(Debug)]
pub struct TrayIcon {
    pub id: String,
    pub title: String,
    pub icon: IconSource,
}

/// The index of the icon with an id, or the number of icons.
pub open spec fn icon_index(icons: Seq<TrayIcon>, id: Seq<char>) -> int
    decreases icons.len(),
{
    if icons.len() == 0 || icons[0].id@ == id {
        0
    } else {
        1 + icon_index(icons.drop_first(), id)
    }
}

/// The icon for an update: from its pixels, or else by its name.
pub open spec fn icon_for(
    id: String,
    title: String,
    icon_name: String,
    pixmap: Option<(u32, u32, Vec<u8>)>,
) -> TrayIcon {
    TrayIcon {
        id,
        title,
        icon: match pixmap {
            Some((w, h, bytes)) => IconSource::Pixels(w, h, bytes),
            None => IconSource::Name(icon_name),
        },
    }
}

/// The icons after an update: `Add` upserts; `Remove` drops the icon.
pub open spec fn updated(icons: Seq<TrayIcon>, update: TrayUpdate) -> Seq<TrayIcon> {
    match update {
        TrayUpdate::Add { id, title, icon_name, pixmap } => {
            let i = icon_index(icons, id@);
            let icon = icon_for(id, title, icon_name, pixmap);
            if i < icons.len() {
                icons.update(i, icon)
            } else {
                icons.push(icon)
            }
        },
        TrayUpdate::Remove { id } => {
            let i = icon_index(icons, id@);
            if i < icons.len() {
                icons.remove(i)
            } else {
                icons
            }
        },
    }
}

/// The index of an icon is the first one with its id.
proof fn lemma_icon_index(icons: Seq<TrayIcon>, id: Seq<char>, i: int)
    requires
        0 <= i <= icons.len(),
        forall|k: int| 0 <= k < i ==> (#[trigger] icons[k]).id@ != id,
        i < icons.len() ==> icons[i].id@ == id,
    ensures
        icon_index(icons, id) == i,
    decreases i,
{
    if i > 0 {
        let rest = icons.drop_first();
        assert(icons[0].id@ != id);
        assert forall|k: int| 0 <= k < i - 1 implies (#[trigger] rest[k]).id@ != id by {
            assert(rest[k] == icons[k + 1]);
        }
        lemma_icon_index(rest, id, i - 1);
    }
}

/// The index of the icon with an id, or the number of icons.
fn find_icon(icons: &Vec<TrayIcon>, id: &str) -> (r: usize)
    ensures
        r == icon_index(icons@, id@),
        r <= icons.len(),
{
    let mut i: usize = 0;
    while i < icons.len() && !same(icons[i].id.as_str(), id)
        invariant
            i <= icons.len(),
            forall|k: int| 0 <= k < i ==> (#[trigger] icons@[k]).id@ != id@,
        decreases icons.len() - i,
    {
        i += 1;
    }
    proof {
        lemma_icon_index(icons@, id@, i as int);
    }
    i
}

/// Apply one tray update to the icons. `Add` upserts; `Remove` drops the row.
pub fn apply_tray_update(icons: &mut Vec<TrayIcon>, update: TrayUpdate)
    ensures
        final(icons)@ == updated(old(icons)@, update),
{
    match update {
        TrayUpdate::Add { id, title, icon_name, pixmap } => {
            let i = find_icon(icons, id.as_str());
            let icon = match pixmap {
                Some((w, h, bytes)) => IconSource::Pixels(w, h, bytes),
                None => IconSource::Name(icon_name),
            };
            let tile = TrayIcon { id, title, icon };
            if i < icons.len() {
                icons.set(i, tile);
            } else {
                icons.push(tile);
            }
        },
        TrayUpdate::Remove { id } => {
            let i = find_icon(icons, id.as_str());
            if i < icons.len() {
                icons.remove(i);
            }
        },
    }
}

/// The bytes that a `width`x`height` RGBA8 picture is made from: the first ones,
/// if there are enough; else the picture stays blank.
pub fn image_from_rgba(width: u32, height: u32, pixels: &Vec<u8>) -> (r: Option<Vec<u8>>)
    requires
        width * height * 4 <= u32::MAX,
    ensures
        match r {
            Some(bytes) => pixels.len() >= width * height * 4 && bytes@ == pixels@.take(
                width * height * 4,
            ),
            None => pixels.len() < width * height * 4,
        },
{
    proof {
        assert(0 <= width * height) by (nonlinear_arith);
    }
    let expected: usize = (width * height * 4) as usize;
    if pixels.len() < expected {
        return None;
    }
    let part = vstd::slice::slice_subrange(pixels.as_slice(), 0, expected);
    let bytes = vstd::slice::slice_to_vec(part);
    assert(bytes@ =~= pixels@.take(expected as int));
    Some(bytes)
}

// ---------------------------------------------------------------------------
// Laws

/// The icon that is shown is the largest of those that have pixels.
pub proof fn law_largest_icon_is_shown(pixmaps: Seq<IconPixmap>, k: int)
    requires
        0 <= k < pixmaps.len(),
        usable(pixmaps[k]),
    ensures
        largest(pixmaps) is Some,
        area(pixmaps[k]) <= area(pixmaps[largest(pixmaps).unwrap()]),
    decreases pixmaps.len(),
{
    let less = pixmaps.drop_last();
    lemma_largest(less);
    if k < less.len() {
        assert(less[k] == pixmaps[k]);
        law_largest_icon_is_shown(less, k);
    }
}

/// A partial update keeps the rest of what is known of the item.
pub proof fn law_partial_updates_are_merged(items: Items, event: TrayEvent)
    ensures
        event matches TrayEvent::Title { id, .. } ==> {
            let after = after_event(items, event)[id@];
            after.icon_name == known(items, id@).icon_name && after.pixmap == known(
                items,
                id@,
            ).pixmap
        },
        event matches TrayEvent::Icon { id, .. } ==> after_event(items, event)[id@].title == known(
            items,
            id@,
        ).title,
{
}

/// Icons come as alpha, red, green and blue, and are shown as red, green, blue and
/// alpha, pixel by pixel.
pub proof fn law_icons_are_turned_to_rgba(argb: Seq<u8>, n: int)
    requires
        0 <= n,
        4 * n + 4 <= argb.len(),
    ensures
        alpha_last(argb).len() % 4 == 0,
        argb.len() - 4 < alpha_last(argb).len() <= argb.len(),
        alpha_last(argb)[4 * n] == argb[4 * n + 1],
        alpha_last(argb)[4 * n + 1] == argb[4 * n + 2],
        alpha_last(argb)[4 * n + 2] == argb[4 * n + 3],
        alpha_last(argb)[4 * n + 3] == argb[4 * n],
{
}

/// The icon that is shown has pixels; no other has more, and none behind it as
/// many. It is shown only if all of its bytes are there. Without an icon that has
/// pixels there is none.
pub proof fn law_the_best_icon_is_shown(all: Seq<IconPixmap>, k: int)
    ensures
        match best_icon(Some(all)) {
            Some((w, h, pixels)) => exists|i: int|
                0 <= i < all.len() && (#[trigger] all[i]).width > 0 && all[i].height > 0 && w
                    == all[i].width && h == all[i].height && all[i].pixels@.len()
                    >= all[i].width * all[i].height * 4 && pixels == alpha_last(all[i].pixels@) && (
                0 <= k < all.len() && all[k].width > 0 && all[k].height > 0 ==> {
                    &&& all[k].width * all[k].height <= all[i].width * all[i].height
                    &&& k > i ==> all[k].width * all[k].height < all[i].width * all[i].height
                }),
            None => (0 <= k < all.len() && all[k].width > 0 && all[k].height > 0) ==> exists|i: int|
                0 <= i < all.len() && (#[trigger] all[i]).pixels@.len() < all[i].width
                    * all[i].height * 4,
        },
        best_icon(None) is None,
{
    lemma_largest(all);
    if 0 <= k < all.len() && all[k].width > 0 && all[k].height > 0 {
        law_largest_icon_is_shown(all, k);
        lemma_last_of_the_largest(all, k);
    }
    if let Some(i) = largest(all) {
        assert(0 <= i < all.len() && all[i].width > 0);
    }
}

/// No icon behind the largest is as large.
proof fn lemma_last_of_the_largest(all: Seq<IconPixmap>, k: int)
    requires
        0 <= k < all.len(),
        usable(all[k]),
    ensures
        largest(all) matches Some(i) ==> (k > i ==> area(all[k]) < area(all[i])),
    decreases all.len(),
{
    let less = all.drop_last();
    lemma_largest(less);
    if k < less.len() {
        assert(less[k] == all[k]);
        lemma_last_of_the_largest(less, k);
    }
}

/// An item is known by its title, or by its id where it has none, and by the name
/// and the best of its icons. A new title or a new icon changes that alone. An item
/// that is removed is not known, and no event changes another item.
pub proof fn law_items_are_known_by_their_latest(items: Items, event: TrayEvent, other: Seq<char>)
    ensures
        ({
            let after = after_event(items, event);
            &&& event matches TrayEvent::Add(id, item) ==> {
                &&& after.contains_key(id@)
                &&& item.title matches Some(t) ==> (t@.len() > 0 ==> after[id@].title == t@)
                &&& item.title matches Some(t) ==> (t@.len() == 0 ==> after[id@].title == item.id@)
                &&& item.title is None ==> after[id@].title == item.id@
                &&& item.icon_name matches Some(n) ==> after[id@].icon_name == n@
                &&& after[id@].pixmap == best_icon(pixmaps_view(item.icon_pixmap))
                &&& other != id@ ==> (after.contains_key(other) <==> items.contains_key(other))
                    && after[other] == items[other]
            }
            &&& event matches TrayEvent::Icon { id, icon_name, icon_pixmap } ==> {
                &&& after.contains_key(id@)
                &&& icon_name matches Some(n) ==> after[id@].icon_name == n@
                &&& icon_name is None ==> after[id@].icon_name.len() == 0
                &&& after[id@].pixmap == best_icon(pixmaps_view(icon_pixmap))
                &&& items.contains_key(id@) ==> after[id@].title == items[id@].title
                &&& other != id@ ==> (after.contains_key(other) <==> items.contains_key(other))
                    && after[other] == items[other]
            }
            &&& event matches TrayEvent::Title { id, title } ==> {
                &&& after.contains_key(id@)
                &&& title matches Some(t) ==> after[id@].title == t@
                &&& title is None ==> after[id@].title.len() == 0
                &&& items.contains_key(id@) ==> after[id@].icon_name == items[id@].icon_name
                    && after[id@].pixmap == items[id@].pixmap
                &&& other != id@ ==> (after.contains_key(other) <==> items.contains_key(other))
                    && after[other] == items[other]
            }
            &&& event matches TrayEvent::Remove(id) ==> {
                &&& !after.contains_key(id@)
                &&& other != id@ ==> (after.contains_key(other) <==> items.contains_key(other))
                    && after[other] == items[other]
            }
            &&& event is Other ==> after == items
        }),
{
}

/// The panel is told of every event that changes an item: of what is now known of
/// it, or that it is gone.
pub proof fn law_the_panel_is_told(items: Items, event: TrayEvent)
    ensures
        ({
            let after = after_event(items, event);
            match update_of(items, event) {
                Some(TrayUpdateView::Add { id, title, icon_name, pixmap }) => {
                    &&& event is Add || event is Icon || event is Title
                    &&& after.contains_key(id) && after[id].title == title && after[id].icon_name
                        == icon_name && after[id].pixmap == pixmap
                },
                Some(TrayUpdateView::Remove { id }) => event is Remove && !after.contains_key(id),
                None => event is Other,
            }
        }),
{
}

/// An update shows the icon of its item: drawn from its pixels if it has any, else
/// by its name. An item that is shown keeps its place, a new one comes last, and
/// the others are as they were. One that is removed is gone.
pub proof fn law_updates_show_their_icon(icons: Seq<TrayIcon>, update: TrayUpdate, k: int)
    requires
        forall|i: int, j: int|
            0 <= i < j < icons.len() ==> (#[trigger] icons[i]).id@ != (#[trigger] icons[j]).id@,
    ensures
        ({
            let after = updated(icons, update);
            &&& update matches TrayUpdate::Add { id, title, icon_name, pixmap } ==> {
                &&& exists|i: int|
                    0 <= i < after.len() && (#[trigger] after[i]).id == id && after[i].title
                        == title && (match pixmap {
                        Some((w, h, bytes)) => after[i].icon == IconSource::Pixels(w, h, bytes),
                        None => after[i].icon == IconSource::Name(icon_name),
                    }) && (i < icons.len() ==> icons[i].id@ == id@)
                &&& 0 <= k < icons.len() && icons[k].id@ != id@ ==> after[k] == icons[k]
                &&& 0 <= k < icons.len() && icons[k].id@ == id@ ==> after.len() == icons.len()
            }
            &&& update matches TrayUpdate::Remove { id } ==> {
                &&& 0 <= k < after.len() ==> after[k].id@ != id@
                &&& 0 <= k < icons.len() && icons[k].id@ != id@ ==> after.contains(icons[k])
            }
        }),
{
    let after = updated(icons, update);
    if let TrayUpdate::Add { id, .. } = update {
        lemma_icon_found(icons, id@);
        let i = icon_index(icons, id@);
        assert(after[i].id == id);
        if 0 <= k < icons.len() && icons[k].id@ == id@ && i == icons.len() {
            assert(icons[k].id@ != id@);
        }
    }
    if let TrayUpdate::Remove { id } = update {
        lemma_icon_found(icons, id@);
        let i = icon_index(icons, id@);
        if i < icons.len() {
            if 0 <= k < after.len() {
                if k < i {
                    assert(after[k] == icons[k]);
                } else {
                    assert(after[k] == icons[k + 1]);
                    assert(icons[i].id@ != icons[k + 1].id@);
                }
            }
            if 0 <= k < icons.len() && icons[k].id@ != id@ {
                if k < i {
                    assert(after[k] == icons[k]);
                } else {
                    assert(after[k - 1] == icons[k]);
                }
            }
        } else if 0 <= k < icons.len() {
            assert(after[k] == icons[k]);
        }
    }
}

/// The index of the icon with an id is the first, or the number of icons.
proof fn lemma_icon_found(icons: Seq<TrayIcon>, id: Seq<char>)
    ensures
        0 <= icon_index(icons, id) <= icons.len(),
        icon_index(icons, id) < icons.len() ==> icons[icon_index(icons, id)].id@ == id,
        forall|k: int| 0 <= k < icon_index(icons, id) ==> (#[trigger] icons[k]).id@ != id,
    decreases icons.len(),
{
    if icons.len() > 0 && icons[0].id@ != id {
        let rest = icons.drop_first();
        lemma_icon_found(rest, id);
        assert forall|k: int| 0 <= k < icon_index(icons, id) implies (#[trigger] icons[k]).id@
            != id by {
            if k > 0 {
                assert(icons[k] == rest[k - 1]);
            }
        }
    }
}

/// A picture is made of the first bytes, four for each pixel, and only if there are
/// enough.
pub proof fn law_pictures_need_all_their_bytes(
    width: u32,
    height: u32,
    pixels: &Vec<u8>,
    r: Option<Vec<u8>>,
)
    requires
        width * height * 4 <= u32::MAX,
        call_ensures(image_from_rgba, (width, height, pixels), r),
    ensures
        r is Some <==> pixels.len() >= width * height * 4,
        r matches Some(bytes) ==> bytes.len() == width * height * 4 && forall|k: int|
            0 <= k < bytes.len() ==> #[trigger] bytes@[k] == pixels@[k],
{
    assert(width * height * 4 >= 0) by (nonlinear_arith);
}

} // verus!
