//! Bounded editor docking: five tab groups and detachable tool windows. Each pane has one
//! place, so no layout can show a pane twice or lose one.
use vstd::prelude::*;

verus! {

#[derive(Clone, Copy, Debug, PartialEq, Eq, Hash, Structural)]
pub enum Dock {
    Left,
    LeftLower,
    Right,
    Bottom,
    Center,
    Floating,
}

impl Dock {
    /// Position in menu order, which is also the slot of the dock's selected tab.
    pub open spec fn ordinal(self) -> int {
        match self {
            Dock::Left => 0,
            Dock::LeftLower => 1,
            Dock::Right => 2,
            Dock::Bottom => 3,
            Dock::Center => 4,
            Dock::Floating => 5,
        }
    }

    fn slot(self) -> (slot: usize)
        ensures
            slot == self.ordinal(),
    {
        match self {
            Dock::Left => 0,
            Dock::LeftLower => 1,
            Dock::Right => 2,
            Dock::Bottom => 3,
            Dock::Center => 4,
            Dock::Floating => 5,
        }
    }

    /// Every dock, in menu order.
    pub const ALL: [Dock; 6] = [
        Dock::Left,
        Dock::LeftLower,
        Dock::Right,
        Dock::Bottom,
        Dock::Center,
        Dock::Floating,
    ];

    /// The dock's name in the layout menu.
    pub open spec fn label(self) -> Seq<char> {
        match self {
            Dock::Left => "Left top"@,
            Dock::LeftLower => "Left bottom"@,
            Dock::Right => "Right"@,
            Dock::Bottom => "Bottom"@,
            Dock::Center => "Center"@,
            Dock::Floating => "Floating window"@,
        }
    }

    pub fn title(self) -> (title: &'static str)
        ensures
            title@ == self.label(),
    {
        match self {
            Dock::Left => "Left top",
            Dock::LeftLower => "Left bottom",
            Dock::Right => "Right",
            Dock::Bottom => "Bottom",
            Dock::Center => "Center",
            Dock::Floating => "Floating window",
        }
    }
}


/// An editor pane.
#[derive(Clone, Copy, Debug, PartialEq, Eq, Hash, Structural)]
pub enum Pane {
    Scene,
    Hierarchy,
    Inspector,
    Assets,
    Settings,
    Debug,
}

/// The pane in position `i` of the fixed pane order.
pub open spec fn pane_at(i: int) -> Pane {
    if i == 0 {
        Pane::Scene
    } else if i == 1 {
        Pane::Hierarchy
    } else if i == 2 {
        Pane::Inspector
    } else if i == 3 {
        Pane::Assets
    } else if i == 4 {
        Pane::Settings
    } else {
        Pane::Debug
    }
}

fn pane_in(i: usize) -> (pane: Pane)
    requires
        i < 6,
    ensures
        pane == pane_at(i as int),
        pane.ordinal() == i,
{
    if i == 0 {
        Pane::Scene
    } else if i == 1 {
        Pane::Hierarchy
    } else if i == 2 {
        Pane::Inspector
    } else if i == 3 {
        Pane::Assets
    } else if i == 4 {
        Pane::Settings
    } else {
        Pane::Debug
    }
}

impl Pane {
    /// Position in the fixed pane order.
    pub open spec fn ordinal(self) -> int {
        match self {
            Pane::Scene => 0,
            Pane::Hierarchy => 1,
            Pane::Inspector => 2,
            Pane::Assets => 3,
            Pane::Settings => 4,
            Pane::Debug => 5,
        }
    }

    fn slot(self) -> (slot: usize)
        ensures
            slot == self.ordinal(),
    {
        match self {
            Pane::Scene => 0,
            Pane::Hierarchy => 1,
            Pane::Inspector => 2,
            Pane::Assets => 3,
            Pane::Settings => 4,
            Pane::Debug => 5,
        }
    }

    /// The pane's tab caption.
    pub open spec fn label(self) -> Seq<char> {
        match self {
            Pane::Scene => "Editor"@,
            Pane::Hierarchy => "Hierarchy"@,
            Pane::Inspector => "Inspector"@,
            Pane::Assets => "Content"@,
            Pane::Settings => "Settings"@,
            Pane::Debug => "Debug"@,
        }
    }

    pub fn title(self) -> (title: &'static str)
        ensures
            title@ == self.label(),
    {
        match self {
            Pane::Scene => "Editor",
            Pane::Hierarchy => "Hierarchy",
            Pane::Inspector => "Inspector",
            Pane::Assets => "Content",
            Pane::Settings => "Settings",
            Pane::Debug => "Debug",
        }
    }

    /// Where the pane docks by default.
    pub open spec fn home_dock(self) -> Dock {
        match self {
            Pane::Scene => Dock::Center,
            Pane::Hierarchy => Dock::Left,
            Pane::Inspector => Dock::LeftLower,
            Pane::Assets | Pane::Debug => Dock::Bottom,
            Pane::Settings => Dock::Right,
        }
    }

    pub fn home(self) -> (dock: Dock)
        ensures
            dock == self.home_dock(),
    {
        match self {
            Pane::Scene => Dock::Center,
            Pane::Hierarchy => Dock::Left,
            Pane::Inspector => Dock::LeftLower,
            Pane::Assets | Pane::Debug => Dock::Bottom,
            Pane::Settings => Dock::Right,
        }
    }
}

/// The layout as the rules see it: each pane's dock, each tab group's selected pane, and
/// how many times the layout was reset.
pub struct LayoutModel {
    pub locations: Seq<Dock>,
    pub selected: Seq<Option<Pane>>,
    pub generation: u64,
}

/// Where each pane is docked and which tab each group shows.
pub struct Layout {
    locations: [Dock; 6],
    selected: [Option<Pane>; 5],
    generation: u64,
}

impl View for Layout {
    type V = LayoutModel;

    closed spec fn view(&self) -> LayoutModel {
        LayoutModel {
            locations: self.locations@,
            selected: self.selected@,
            generation: self.generation,
        }
    }
}

/// The layout panes start in: each at home, each group showing its first pane.
pub open spec fn home_layout(generation: u64) -> LayoutModel {
    LayoutModel {
        locations: seq![
            Dock::Center,
            Dock::Left,
            Dock::LeftLower,
            Dock::Bottom,
            Dock::Right,
            Dock::Bottom,
        ],
        selected: seq![
            Some(Pane::Hierarchy),
            Some(Pane::Inspector),
            Some(Pane::Settings),
            Some(Pane::Assets),
            Some(Pane::Scene),
        ],
        generation,
    }
}

/// Pane `p` is visible and docked in `d`.
pub open spec fn present(m: LayoutModel, visible: Seq<bool>, d: Dock, p: Pane) -> bool {
    visible[p.ordinal()] && m.locations[p.ordinal()] == d
}

/// The first pane, from position `i` on, that is visible and docked in `d`.
pub open spec fn first_present(m: LayoutModel, visible: Seq<bool>, d: Dock, i: int) -> Option<Pane>
    decreases 6 - i,
{
    if i >= 6 || i < 0 {
        None
    } else if present(m, visible, d, pane_at(i)) {
        Some(pane_at(i))
    } else {
        first_present(m, visible, d, i + 1)
    }
}

/// The pane tab group `d` shows: its selected pane while that is there, else its first pane.
pub open spec fn shown(m: LayoutModel, visible: Seq<bool>, d: Dock) -> Option<Pane> {
    match m.selected[d.ordinal()] {
        Some(p) => if present(m, visible, d, p) {
            Some(p)
        } else {
            first_present(m, visible, d, 0)
        },
        None => first_present(m, visible, d, 0),
    }
}

/// What tab group `d` draws.
pub open spec fn group_panes(m: LayoutModel, visible: Seq<bool>, d: Dock) -> Seq<Pane> {
    match shown(m, visible, d) {
        Some(p) => seq![p],
        None => seq![],
    }
}

/// The visible floating panes among the first `n`, in pane order.
pub open spec fn floating_panes(m: LayoutModel, visible: Seq<bool>, n: int) -> Seq<Pane>
    decreases n,
{
    if n <= 0 {
        seq![]
    } else if present(m, visible, Dock::Floating, pane_at(n - 1)) {
        floating_panes(m, visible, n - 1).push(pane_at(n - 1))
    } else {
        floating_panes(m, visible, n - 1)
    }
}

/// Every pane a frame draws, in drawing order: the left groups, the bottom, the right and the
/// centre group, then the floating windows.
pub open spec fn drawn_panes(m: LayoutModel, visible: Seq<bool>) -> Seq<Pane> {
    group_panes(m, visible, Dock::Left) + group_panes(m, visible, Dock::LeftLower) + group_panes(
        m,
        visible,
        Dock::Bottom,
    ) + group_panes(m, visible, Dock::Right) + group_panes(m, visible, Dock::Center)
        + floating_panes(m, visible, 6)
}

/// The layout after a frame: each tab group that has panes now selects the one it showed, and
/// the centre group's selection follows what it showed.
pub open spec fn after_frame(m: LayoutModel, visible: Seq<bool>) -> LayoutModel {
    LayoutModel {
        selected: Seq::new(
            5,
            |i: int|
                if i == 4 || first_present(m, visible, docked(i), 0) is Some {
                    shown(m, visible, docked(i))
                } else {
                    m.selected[i]
                },
        ),
        ..m
    }
}

/// The dock whose selected-tab slot is `i`.
pub open spec fn docked(i: int) -> Dock {
    if i == 0 {
        Dock::Left
    } else if i == 1 {
        Dock::LeftLower
    } else if i == 2 {
        Dock::Right
    } else if i == 3 {
        Dock::Bottom
    } else {
        Dock::Center
    }
}

impl Default for Layout {
    fn default() -> (layout: Layout)
        ensures
            layout@ == home_layout(0),
    {
        let layout = Layout {
            locations: [
                Dock::Center,
                Dock::Left,
                Dock::LeftLower,
                Dock::Bottom,
                Dock::Right,
                Dock::Bottom,
            ],
            selected: [
                Some(Pane::Hierarchy),
                Some(Pane::Inspector),
                Some(Pane::Settings),
                Some(Pane::Assets),
                Some(Pane::Scene),
            ],
            generation: 0,
        };
        assert(layout@.locations =~= home_layout(0).locations);
        assert(layout@.selected =~= home_layout(0).selected);
        layout
    }
}

impl Layout {
    /// Puts every pane back home; the layout's generation advances (wrapping).
    pub fn reset(&mut self)
        ensures
            final(self)@ == home_layout(
                if old(self)@.generation == u64::MAX {
                    0
                } else {
                    (old(self)@.generation + 1) as u64
                },
            ),
    {
        let generation = self.generation.wrapping_add(1);
        *self = Layout::default();
        self.generation = generation;
    }

    /// Where `pane` is docked.
    pub fn location(&self, pane: Pane) -> (dock: Dock)
        ensures
            dock == self@.locations[pane.ordinal()],
    {
        self.locations[pane.slot()]
    }

    /// The pane tab group `dock` has selected.
    pub fn selected(&self, dock: Dock) -> (pane: Option<Pane>)
        requires
            dock != Dock::Floating,
        ensures
            pane == self@.selected[dock.ordinal()],
    {
        self.selected[dock.slot()]
    }

    pub fn generation(&self) -> (generation: u64)
        ensures
            generation == self@.generation,
    {
        self.generation
    }

    /// Brings `pane` to the front of its tab group (a floating pane has none).
    pub fn focus(&mut self, pane: Pane)
        ensures
            final(self)@ == if old(self)@.locations[pane.ordinal()] != Dock::Floating {
                LayoutModel {
                    selected: old(self)@.selected.update(
                        old(self)@.locations[pane.ordinal()].ordinal(),
                        Some(pane),
                    ),
                    ..old(self)@
                }
            } else {
                old(self)@
            },
    {
        let dock = self.locations[pane.slot()];
        if dock != Dock::Floating {
            self.selected[dock.slot()] = Some(pane);
        }
    }

    /// Docks `pane` in `to` and brings it to the front there.
    pub fn move_pane(&mut self, pane: Pane, to: Dock)
        ensures
            final(self)@ == (LayoutModel {
                locations: old(self)@.locations.update(pane.ordinal(), to),
                selected: if to != Dock::Floating {
                    old(self)@.selected.update(to.ordinal(), Some(pane))
                } else {
                    old(self)@.selected
                },
                ..old(self)@
            }),
    {
        self.locations[pane.slot()] = to;
        self.focus(pane);
    }

    /// Closing a floating pane's window docks it back home.
    pub fn close_window(&mut self, pane: Pane)
        ensures
            final(self)@ == (LayoutModel {
                locations: old(self)@.locations.update(pane.ordinal(), pane.home_dock()),
                selected: old(self)@.selected.update(pane.home_dock().ordinal(), Some(pane)),
                ..old(self)@
            }),
    {
        self.move_pane(pane, pane.home());
    }

    fn first_in(&self, visible: &[bool; 6], dock: Dock, i: usize) -> (pane: Option<Pane>)
        requires
            i <= 6,
        ensures
            pane == first_present(self@, visible@, dock, i as int),
        decreases 6 - i,
    {
        if i >= 6 {
            return None;
        }
        let p = pane_in(i);
        if visible[i] && self.locations[i] == dock {
            Some(p)
        } else {
            self.first_in(visible, dock, i + 1)
        }
    }

    /// Settles which pane tab group `dock` shows and returns it.
    fn settle(&mut self, visible: &[bool; 6], dock: Dock) -> (pane: Option<Pane>)
        requires
            dock != Dock::Floating,
        ensures
            pane == shown(old(self)@, visible@, dock),
            final(self)@ == (LayoutModel {
                selected: old(self)@.selected.update(dock.ordinal(), pane),
                ..old(self)@
            }),
    {
        let slot = dock.slot();
        let keep = match self.selected[slot] {
            Some(p) => visible[p.slot()] && self.locations[p.slot()] == dock,
            None => false,
        };
        let pane = if keep {
            self.selected[slot]
        } else {
            self.first_in(visible, dock, 0)
        };
        self.selected[slot] = pane;
        pane
    }

    /// Draws tab group `dock` of a frame that started from `m`: a group with panes (and the
    /// centre group always) settles what it shows and draws it.
    fn draw_group(&mut self, visible: &[bool; 6], dock: Dock, drawn: &mut Vec<Pane>, Ghost(m): Ghost<LayoutModel>)
        requires
            dock != Dock::Floating,
            old(self)@.locations == m.locations,
            old(self)@.selected[dock.ordinal()] == m.selected[dock.ordinal()],
        ensures
            final(drawn)@ == old(drawn)@ + group_panes(m, visible@, dock),
            final(self)@ == if first_present(m, visible@, dock, 0) is Some || dock == Dock::Center {
                LayoutModel {
                    selected: old(self)@.selected.update(dock.ordinal(), shown(m, visible@, dock)),
                    ..old(self)@
                }
            } else {
                old(self)@
            },
    {
        proof {
            lemma_shown_depends(m, self@, visible@, dock);
            lemma_unoccupied_shows_nothing(m, visible@, dock);
        }
        let occupied = self.first_in(visible, dock, 0).is_some();
        if occupied || dock == Dock::Center {
            if let Some(p) = self.settle(visible, dock) {
                drawn.push(p);
            }
        }
        assert(drawn@ =~= old(drawn)@ + group_panes(m, visible@, dock));
    }

    /// One frame of the docking area with the panes `visible` shown: returns the panes drawn,
    /// in drawing order, and settles what each tab group shows.
    pub fn frame(&mut self, visible: [bool; 6]) -> (drawn: Vec<Pane>)
        ensures
            drawn@ == drawn_panes(old(self)@, visible@),
            final(self)@ == after_frame(old(self)@, visible@),
    {
        let ghost m = self@;
        let mut drawn: Vec<Pane> = Vec::new();
        self.draw_group(&visible, Dock::Left, &mut drawn, Ghost(m));
        self.draw_group(&visible, Dock::LeftLower, &mut drawn, Ghost(m));
        self.draw_group(&visible, Dock::Bottom, &mut drawn, Ghost(m));
        self.draw_group(&visible, Dock::Right, &mut drawn, Ghost(m));
        self.draw_group(&visible, Dock::Center, &mut drawn, Ghost(m));
        assert(drawn@ =~= group_panes(m, visible@, Dock::Left) + group_panes(m, visible@, Dock::LeftLower)
            + group_panes(m, visible@, Dock::Bottom) + group_panes(m, visible@, Dock::Right)
            + group_panes(m, visible@, Dock::Center));
        assert(self@.selected =~= after_frame(m, visible@).selected);
        let ghost groups = drawn@;
        let mut i: usize = 0;
        while i < 6
            invariant
                i <= 6,
                self@.locations == m.locations,
                drawn@ == groups + floating_panes(m, visible@, i as int),
            decreases 6 - i,
        {
            if visible[i] && self.locations[i] == Dock::Floating {
                drawn.push(pane_in(i));
            }
            assert(drawn@ =~= groups + floating_panes(m, visible@, i + 1));
            i += 1;
        }
        drawn
    }
}

proof fn lemma_first_depends(m1: LayoutModel, m2: LayoutModel, visible: Seq<bool>, d: Dock, i: int)
    requires
        m1.locations == m2.locations,
    ensures
        first_present(m1, visible, d, i) == first_present(m2, visible, d, i),
    decreases 6 - i,
{
    if 0 <= i < 6 {
        lemma_first_depends(m1, m2, visible, d, i + 1);
    }
}

/// What a tab group shows depends only on where the panes are and on its own selection.
proof fn lemma_shown_depends(m1: LayoutModel, m2: LayoutModel, visible: Seq<bool>, d: Dock)
    requires
        m1.locations == m2.locations,
        m1.selected[d.ordinal()] == m2.selected[d.ordinal()],
    ensures
        shown(m1, visible, d) == shown(m2, visible, d),
        first_present(m1, visible, d, 0) == first_present(m2, visible, d, 0),
{
    lemma_first_depends(m1, m2, visible, d, 0);
}

proof fn lemma_unoccupied_shows_nothing(m: LayoutModel, visible: Seq<bool>, d: Dock)
    ensures
        first_present(m, visible, d, 0) is None ==> shown(m, visible, d) is None,
{
    if let Some(p) = m.selected[d.ordinal()] {
        if present(m, visible, d, p) {
            lemma_present_is_found(m, visible, d, p, 0);
        }
    }
}

proof fn lemma_present_is_found(m: LayoutModel, visible: Seq<bool>, d: Dock, p: Pane, i: int)
    requires
        present(m, visible, d, p),
        0 <= i <= p.ordinal(),
    ensures
        first_present(m, visible, d, i) is Some,
    decreases 6 - i,
{
    if i < p.ordinal() && !present(m, visible, d, pane_at(i)) {
        lemma_present_is_found(m, visible, d, p, i + 1);
    }
}

proof fn lemma_found_is_present(m: LayoutModel, visible: Seq<bool>, d: Dock, i: int)
    ensures
        first_present(m, visible, d, i) matches Some(p) ==> present(m, visible, d, p) && i
            <= p.ordinal(),
    decreases 6 - i,
{
    if 0 <= i < 6 && !present(m, visible, d, pane_at(i)) {
        lemma_found_is_present(m, visible, d, i + 1);
    }
}

proof fn lemma_shown_is_present(m: LayoutModel, visible: Seq<bool>, d: Dock)
    ensures
        shown(m, visible, d) matches Some(p) ==> present(m, visible, d, p),
{
    lemma_found_is_present(m, visible, d, 0);
}

proof fn lemma_floating_panes(m: LayoutModel, visible: Seq<bool>, n: int)
    requires
        0 <= n <= 6,
    ensures
        forall|k: int|
            0 <= k < floating_panes(m, visible, n).len() ==> present(
                m,
                visible,
                Dock::Floating,
                #[trigger] floating_panes(m, visible, n)[k],
            ) && floating_panes(m, visible, n)[k].ordinal() < n,
        forall|k: int, l: int|
            0 <= k < l < floating_panes(m, visible, n).len() ==> (#[trigger] floating_panes(
                m,
                visible,
                n,
            )[k]).ordinal() < (#[trigger] floating_panes(m, visible, n)[l]).ordinal(),
        forall|p: Pane|
            p.ordinal() < n && present(m, visible, Dock::Floating, p) ==> floating_panes(
                m,
                visible,
                n,
            ).contains(p),
    decreases n,
{
    if n > 0 {
        lemma_floating_panes(m, visible, n - 1);
        let before = floating_panes(m, visible, n - 1);
        let after = floating_panes(m, visible, n);
        if present(m, visible, Dock::Floating, pane_at(n - 1)) {
            assert(after == before.push(pane_at(n - 1)));
            assert forall|p: Pane| p.ordinal() < n && present(m, visible, Dock::Floating, p) implies after.contains(p) by {
                if p.ordinal() == n - 1 {
                    assert(p == pane_at(n - 1));
                    assert(after[after.len() - 1] == p);
                } else {
                    let k = choose|k: int| 0 <= k < before.len() && before[k] == p;
                    assert(after[k] == p);
                }
            }
        } else {
            assert forall|p: Pane| p.ordinal() < n && present(m, visible, Dock::Floating, p) implies after.contains(p) by {
                if p.ordinal() == n - 1 {
                    assert(p == pane_at(n - 1));
                }
            }
        }
    }
}

/// Every pane of `s` is docked in one of `docks` and is visible.
pub open spec fn placed_in(m: LayoutModel, visible: Seq<bool>, s: Seq<Pane>, docks: Set<Dock>) -> bool {
    forall|k: int|
        0 <= k < s.len() ==> docks.contains(m.locations[(#[trigger] s[k]).ordinal()])
            && visible[s[k].ordinal()]
}

proof fn lemma_join_distinct(
    m: LayoutModel,
    visible: Seq<bool>,
    a: Seq<Pane>,
    b: Seq<Pane>,
    da: Set<Dock>,
    db: Set<Dock>,
)
    requires
        a.no_duplicates(),
        b.no_duplicates(),
        placed_in(m, visible, a, da),
        placed_in(m, visible, b, db),
        da.disjoint(db),
    ensures
        (a + b).no_duplicates(),
        placed_in(m, visible, a + b, da + db),
{
    let ab = a + b;
    assert forall|k: int, l: int| 0 <= k < l < ab.len() implies ab[k] != ab[l] by {
        if l < a.len() {
        } else if k >= a.len() {
            assert(ab[k] == b[k - a.len()] && ab[l] == b[l - a.len()]);
        } else {
            assert(da.contains(m.locations[ab[k].ordinal()]));
            assert(db.contains(m.locations[ab[l].ordinal()]));
        }
    }
    assert forall|k: int| 0 <= k < ab.len() implies (da + db).contains(m.locations[(#[trigger] ab[k]).ordinal()])
        && visible[ab[k].ordinal()] by {
        if k >= a.len() {
            assert(ab[k] == b[k - a.len()]);
        }
    }
}

proof fn lemma_group_placed(m: LayoutModel, visible: Seq<bool>, d: Dock)
    ensures
        group_panes(m, visible, d).no_duplicates(),
        placed_in(m, visible, group_panes(m, visible, d), set![d]),
        first_present(m, visible, d, 0) is Some ==> shown(m, visible, d) is Some
            && group_panes(m, visible, d) == seq![shown(m, visible, d)->0],
{
    lemma_shown_is_present(m, visible, d);
    lemma_unoccupied_shows_nothing(m, visible, d);
    lemma_found_is_present(m, visible, d, 0);
}

/// A frame never draws a pane twice and never loses one: it draws only visible panes, each
/// at most once; every visible floating pane gets its window; and every tab group that holds
/// a visible pane draws one of them.
pub proof fn lemma_frame_draws_each_pane_once(m: LayoutModel, visible: Seq<bool>)
    ensures
        drawn_panes(m, visible).no_duplicates(),
        forall|k: int|
            0 <= k < drawn_panes(m, visible).len() ==> visible[(#[trigger] drawn_panes(
                m,
                visible,
            )[k]).ordinal()],
        forall|p: Pane| present(m, visible, Dock::Floating, p) ==> drawn_panes(m, visible).contains(p),
        forall|d: Dock|
            d != Dock::Floating && (#[trigger] first_present(m, visible, d, 0)) is Some ==> (shown(
                m,
                visible,
                d,
            ) is Some && drawn_panes(m, visible).contains(shown(m, visible, d)->0)),
{
    let v = visible;
    let gl = group_panes(m, v, Dock::Left);
    let gll = group_panes(m, v, Dock::LeftLower);
    let gb = group_panes(m, v, Dock::Bottom);
    let gr = group_panes(m, v, Dock::Right);
    let gc = group_panes(m, v, Dock::Center);
    let f = floating_panes(m, v, 6);
    lemma_group_placed(m, v, Dock::Left);
    lemma_group_placed(m, v, Dock::LeftLower);
    lemma_group_placed(m, v, Dock::Bottom);
    lemma_group_placed(m, v, Dock::Right);
    lemma_group_placed(m, v, Dock::Center);
    lemma_floating_panes(m, v, 6);
    let s1 = set![Dock::Left];
    let s2 = s1 + set![Dock::LeftLower];
    let s3 = s2 + set![Dock::Bottom];
    let s4 = s3 + set![Dock::Right];
    let s5 = s4 + set![Dock::Center];
    lemma_join_distinct(m, v, gl, gll, s1, set![Dock::LeftLower]);
    lemma_join_distinct(m, v, gl + gll, gb, s2, set![Dock::Bottom]);
    lemma_join_distinct(m, v, gl + gll + gb, gr, s3, set![Dock::Right]);
    lemma_join_distinct(m, v, gl + gll + gb + gr, gc, s4, set![Dock::Center]);
    assert(placed_in(m, v, f, set![Dock::Floating]));
    assert(f.no_duplicates()) by {
        assert forall|k: int, l: int| 0 <= k < l < f.len() implies f[k] != f[l] by {
            assert(f[k].ordinal() < f[l].ordinal());
        }
    }
    assert(s5.disjoint(set![Dock::Floating]));
    lemma_join_distinct(m, v, gl + gll + gb + gr + gc, f, s5, set![Dock::Floating]);
    let all = drawn_panes(m, v);
    assert(all == gl + gll + gb + gr + gc + f);
    assert forall|p: Pane| present(m, v, Dock::Floating, p) implies all.contains(p) by {
        let k = choose|k: int| 0 <= k < f.len() && f[k] == p;
        assert(all[(all.len() - f.len()) + k] == p);
    }
    assert forall|d: Dock|
        d != Dock::Floating && (#[trigger] first_present(m, v, d, 0)) is Some implies (shown(m, v, d) is Some
            && all.contains(shown(m, v, d)->0)) by {
        let p = shown(m, v, d)->0;
        if d == Dock::Left {
            assert(all[0] == p);
        } else if d == Dock::LeftLower {
            assert(all[gl.len() as int] == p);
        } else if d == Dock::Bottom {
            assert(all[(gl.len() + gll.len()) as int] == p);
        } else if d == Dock::Right {
            assert(all[(gl.len() + gll.len() + gb.len()) as int] == p);
        } else {
            assert(all[(gl.len() + gll.len() + gb.len() + gr.len()) as int] == p);
        }
    }
}

} // verus!
