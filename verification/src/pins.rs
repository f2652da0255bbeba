//! Edits to the configuration that the dock's menus and settings make —
//! the pinned list, the auto-hide mode, placement and folder switches — and
//! what activating an item does. Loading and saving the configuration
//! around an edit is the application's.
use vstd::prelude::*;
use crate::config::{Folder, HideMode, Position};
use crate::hypr::Address;
use crate::lists::{keep, lemma_keep_subset};
use crate::state::{addresses, click_index, opt_addr, DockItem, SEPARATOR};
use crate::text::{chars_of, seq_eq, string_of, strings, trim, trim_vec};

verus! {

/// The predicate "this pin is not `key`".
pub open spec fn pin_other_than(key: Seq<char>) -> spec_fn(Seq<char>) -> bool {
    |p: Seq<char>| p != key
}

/// Pin or unpin `key`: every existing pin of it goes, and a pin goes at the
/// end.
pub fn set_pinned(pins: &mut Vec<String>, key: &str, pinned: bool)
    ensures
        strings(final(pins)@) == keep(strings(old(pins)@), pin_other_than(key@)) + if pinned {
            seq![key@]
        } else {
            Seq::empty()
        },
{
    let ghost pv = strings(pins@);
    let want = chars_of(key);
    let mut kept: Vec<String> = Vec::new();
    let mut i: usize = 0;
    assert(pv.take(0) =~= Seq::<Seq<char>>::empty());
    while i < pins.len()
        invariant
            i <= pins@.len(),
            pv == strings(pins@),
            want@ == key@,
            strings(kept@) == keep(pv.take(i as int), pin_other_than(key@)),
        decreases pins.len() - i,
    {
        assert(pv.take(i + 1).drop_last() =~= pv.take(i as int));
        if !seq_eq(&chars_of(pins[i].as_str()), &want) {
            let ghost before = strings(kept@);
            kept.push(pins[i].clone());
            assert(strings(kept@) =~= before.push(pv[i as int]));
        }
        i = i + 1;
    }
    assert(pv.take(pins.len() as int) =~= pv);
    let ghost base = strings(kept@);
    if pinned {
        kept.push(string_of(&want));
        assert(strings(kept@) =~= base + seq![key@]);
    } else {
        assert(strings(kept@) =~= base + Seq::<Seq<char>>::empty());
    }
    *pins = kept;
}

/// Pinning from the menu never doubles a pin: after pinning, `key` is
/// pinned exactly once, last; after unpinning, not at all.
pub proof fn lemma_pinned_once(pins: Seq<Seq<char>>, key: Seq<char>, pinned: bool)
    ensures
        ({
            let r = keep(pins, pin_other_than(key)) + if pinned {
                seq![key]
            } else {
                Seq::empty()
            };
            &&& pinned ==> r.len() > 0 && r.last() == key && forall|i: int|
                0 <= i < r.len() - 1 ==> r[i] != key
            &&& !pinned ==> !r.contains(key)
        }),
{
    let k = keep(pins, pin_other_than(key));
    lemma_keep_subset(pins, pin_other_than(key), key);
    assert(!k.contains(key));
    let r = k + if pinned {
        seq![key]
    } else {
        Seq::empty()
    };
    if pinned {
        assert forall|i: int| 0 <= i < r.len() - 1 implies r[i] != key by {
            assert(r[i] == k[i]);
        }
    } else {
        assert(r =~= k);
    }
}

/// Remove the pin at `index`, if there is one.
pub fn remove_pin(pins: &mut Vec<String>, index: usize)
    ensures
        index < old(pins)@.len() ==> final(pins)@ == old(pins)@.remove(index as int),
        index >= old(pins)@.len() ==> final(pins)@ == old(pins)@,
{
    if index < pins.len() {
        pins.remove(index);
    }
}

/// Whether pin `i` exists and is a separator.
pub open spec fn is_separator_at(pins: Seq<Seq<char>>, i: int) -> bool {
    0 <= i < pins.len() && trim(pins[i]) == "---"@
}

/// The first position from `at` on that neither holds a separator nor
/// follows one, or the end of the list.
pub open spec fn clear_slot(pins: Seq<Seq<char>>, at: int) -> int
    decreases pins.len() - at,
{
    if 0 <= at < pins.len() && (is_separator_at(pins, at) || is_separator_at(pins, at - 1)) {
        clear_slot(pins, at + 1)
    } else {
        at
    }
}

/// Where a new separator goes: mid-list, where it is visible and can be
/// dragged into place — appending would put it exactly where the automatic
/// divider goes, so the two would collapse and nothing would appear to
/// happen — and never next to an existing separator, which would collapse
/// too and invite another click. `None` when the only place left is after a
/// separator.
pub open spec fn separator_slot(pins: Seq<Seq<char>>) -> Option<int> {
    let at = clear_slot(pins, (pins.len() / 2) as int);
    if at > 0 && is_separator_at(pins, at - 1) {
        None
    } else {
        Some(at)
    }
}

proof fn lemma_clear_slot(pins: Seq<Seq<char>>, at: int)
    requires
        0 <= at <= pins.len(),
    ensures
        at <= clear_slot(pins, at) <= pins.len(),
        clear_slot(pins, at) < pins.len() ==> !is_separator_at(pins, clear_slot(pins, at))
            && !is_separator_at(pins, clear_slot(pins, at) - 1),
    decreases pins.len() - at,
{
    if at < pins.len() && (is_separator_at(pins, at) || is_separator_at(pins, at - 1)) {
        lemma_clear_slot(pins, at + 1);
    }
}

/// A separator added from the menu is never next to another one: neither
/// the pin before it nor the pin after it is a separator, so it never
/// collapses into one when the dock is drawn.
pub proof fn lemma_added_separator_stands_alone(pins: Seq<Seq<char>>)
    ensures
        separator_slot(pins) matches Some(at) ==> 0 <= at <= pins.len() && !is_separator_at(
            pins.insert(at, "---"@),
            at - 1,
        ) && !is_separator_at(pins.insert(at, "---"@), at + 1),
{
    lemma_clear_slot(pins, (pins.len() / 2) as int);
    if let Some(at) = separator_slot(pins) {
        let q = pins.insert(at, "---"@);
        if at > 0 {
            assert(q[at - 1] == pins[at - 1]);
        }
        if at < pins.len() {
            assert(q[at + 1] == pins[at]);
        }
    }
}

fn is_separator_exec(pins: &Vec<String>, i: usize) -> (r: bool)
    ensures
        r == is_separator_at(strings(pins@), i as int),
{
    if i < pins.len() {
        proof {
            reveal_strlit("---");
        }
        seq_eq(&trim_vec(&chars_of(pins[i].as_str())), &chars_of(SEPARATOR))
    } else {
        false
    }
}

/// Insert a separator where it will actually be visible; nothing changes
/// when there is no such place.
pub fn add_separator(pins: &mut Vec<String>)
    ensures
        match separator_slot(strings(old(pins)@)) {
            Some(at) => strings(final(pins)@) == strings(old(pins)@).insert(at, "---"@),
            None => final(pins)@ == old(pins)@,
        },
{
    let ghost pv = strings(pins@);
    let mut at: usize = pins.len() / 2;
    while at < pins.len() && (is_separator_exec(pins, at) || (at > 0 && is_separator_exec(pins, at - 1)))
        invariant
            pv == strings(pins@),
            at <= pins@.len(),
            clear_slot(pv, (pv.len() / 2) as int) == clear_slot(pv, at as int),
        decreases pins.len() - at,
    {
        at = at + 1;
    }
    if at > 0 && is_separator_exec(pins, at - 1) {
        return;
    }
    pins.insert(at, string_of(&chars_of(SEPARATOR)));
    proof {
        reveal_strlit("---");
    }
    assert(strings(pins@) =~= pv.insert(at as int, "---"@));
}

/// What the auto-hide toggle switches to: back on from `never`, else off.
pub fn toggled_hide_mode(mode: HideMode) -> (r: HideMode)
    ensures
        r == if mode == HideMode::Never {
            HideMode::Intelligent
        } else {
            HideMode::Never
        },
{
    match mode {
        HideMode::Never => HideMode::Intelligent,
        _ => HideMode::Never,
    }
}

/// What activating a dock item does.
#[derive(Debug)]
pub enum Activation {
    /// Focus this window.
    Focus(Address),
    /// Run this command line.
    Launch(String),
}

/// Activating an item, exactly as a left-click would: focus the window a
/// click lands on, or launch the item's command when nothing runs; nothing
/// for an item that neither runs nor launches.
pub fn activation(item: &DockItem) -> (r: Option<Activation>)
    ensures
        match click_index(addresses(item.windows@), opt_addr(item.active_window)) {
            Some(i) => r matches Some(Activation::Focus(a)) && a@ == item.windows@[i]@,
            None => if item.exec_line@.len() > 0 {
                r matches Some(Activation::Launch(c)) && c@ == item.exec_line@
            } else {
                r is None
            },
        },
{
    match item.click_target() {
        Some(a) => Some(Activation::Focus(a.clone())),
        None => {
            let e = chars_of(item.exec_line.as_str());
            if e.len() > 0 {
                Some(Activation::Launch(item.exec_line.clone()))
            } else {
                None
            }
        },
    }
}

/// The last separator among `pins`.
pub open spec fn last_separator(pins: Seq<Seq<char>>) -> Option<int>
    decreases pins.len(),
{
    if pins.len() == 0 {
        None
    } else if trim(pins.last()) == "---"@ {
        Some(pins.len() - 1)
    } else {
        last_separator(pins.drop_last())
    }
}

/// Remove the last separator from the pinned list, if there is one.
pub fn remove_last_separator(pins: &mut Vec<String>)
    ensures
        match last_separator(strings(old(pins)@)) {
            Some(k) => strings(final(pins)@) == strings(old(pins)@).remove(k),
            None => final(pins)@ == old(pins)@,
        },
{
    let ghost pv = strings(pins@);
    let mut i: usize = pins.len();
    proof {
        reveal_strlit("---");
        assert(pv.take(i as int) =~= pv);
    }
    while i > 0
        invariant
            i <= pins@.len(),
            pins@ == old(pins)@,
            pv == strings(pins@),
            last_separator(pv) == last_separator(pv.take(i as int)),
        decreases i,
    {
        assert(pv.take(i as int).drop_last() =~= pv.take(i - 1));
        assert(pv.take(i as int).last() == pv[i - 1]);
        if seq_eq(&trim_vec(&chars_of(pins[i - 1].as_str())), &chars_of(SEPARATOR)) {
            assert(last_separator(pv) == Some(i - 1));
            pins.remove(i - 1);
            assert(strings(pins@) =~= pv.remove(i - 1));
            return;
        }
        i = i - 1;
    }
}

/// What the settings panel's "Remove last separator" removes is a
/// separator, and no separator comes after it.
pub proof fn lemma_last_separator(pins: Seq<Seq<char>>)
    ensures
        match last_separator(pins) {
            Some(k) => 0 <= k < pins.len() && trim(pins[k]) == "---"@ && forall|j: int|
                k < j < pins.len() ==> trim(#[trigger] pins[j]) != "---"@,
            None => forall|j: int| 0 <= j < pins.len() ==> trim(#[trigger] pins[j]) != "---"@,
        },
    decreases pins.len(),
{
    if pins.len() > 0 {
        let d = pins.drop_last();
        lemma_last_separator(d);
        assert forall|j: int| 0 <= j < d.len() implies d[j] == pins[j] by {}
    }
}

/// The position of the placement choice `p` in the settings panel's list:
/// bottom, top, left, right.
pub open spec fn position_choice_of(p: Position) -> u32 {
    match p {
        Position::Bottom => 0,
        Position::Top => 1,
        Position::Left => 2,
        Position::Right => 3,
    }
}

pub fn position_choice(p: Position) -> (r: u32)
    ensures
        r == position_choice_of(p),
{
    match p {
        Position::Bottom => 0,
        Position::Top => 1,
        Position::Left => 2,
        Position::Right => 3,
    }
}

/// The placement chosen at `i` in the settings panel's list; anything out
/// of range is the default, the bottom edge.
pub fn chosen_position(i: u32) -> (r: Position)
    ensures
        r == (if i == 1 {
            Position::Top
        } else if i == 2 {
            Position::Left
        } else if i == 3 {
            Position::Right
        } else {
            Position::Bottom
        }),
        r == Position::Bottom || i == position_choice_of(r),
{
    if i == 1 {
        Position::Top
    } else if i == 2 {
        Position::Left
    } else if i == 3 {
        Position::Right
    } else {
        Position::Bottom
    }
}

/// The position of the auto-hide mode `m` in the settings panel's list:
/// never, intelligent, always.
pub open spec fn hide_mode_choice_of(m: HideMode) -> u32 {
    match m {
        HideMode::Never => 0,
        HideMode::Intelligent => 1,
        HideMode::Always => 2,
    }
}

pub fn hide_mode_choice(m: HideMode) -> (r: u32)
    ensures
        r == hide_mode_choice_of(m),
{
    match m {
        HideMode::Never => 0,
        HideMode::Intelligent => 1,
        HideMode::Always => 2,
    }
}

/// The auto-hide mode chosen at `i`; anything out of range is the default,
/// intelligent hiding.
pub fn chosen_hide_mode(i: u32) -> (r: HideMode)
    ensures
        r == (if i == 0 {
            HideMode::Never
        } else if i == 2 {
            HideMode::Always
        } else {
            HideMode::Intelligent
        }),
{
    if i == 0 {
        HideMode::Never
    } else if i == 2 {
        HideMode::Always
    } else {
        HideMode::Intelligent
    }
}

/// The settings panel shows what the configuration says: choosing the
/// entry a setting is shown at gives that setting back.
pub proof fn lemma_choices_round_trip(p: Position, m: HideMode)
    ensures
        (if position_choice_of(p) == 1 {
            Position::Top
        } else if position_choice_of(p) == 2 {
            Position::Left
        } else if position_choice_of(p) == 3 {
            Position::Right
        } else {
            Position::Bottom
        }) == p,
        (if hide_mode_choice_of(m) == 0 {
            HideMode::Never
        } else if hide_mode_choice_of(m) == 2 {
            HideMode::Always
        } else {
            HideMode::Intelligent
        }) == m,
{
}

/// Switch folder stack `index` on or off; nothing changes when there is no
/// such folder.
pub fn set_folder_enabled(folders: &mut Vec<Folder>, index: usize, on: bool)
    ensures
        index < old(folders)@.len() ==> final(folders)@ == old(folders)@.update(
            index as int,
            Folder { enabled: on, ..old(folders)@[index as int] },
        ),
        index >= old(folders)@.len() ==> final(folders)@ == old(folders)@,
{
    if index < folders.len() {
        let f = Folder {
            path: folders[index].path.clone(),
            name: folders[index].name.clone(),
            icon: folders[index].icon.clone(),
            enabled: on,
        };
        folders.set(index, f);
    }
}

} // verus!
