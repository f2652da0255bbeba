//! The `.socket2.sock` push event grammar.
//!
//! Lines arrive as `name>>payload`, with payload fields comma-separated.
//! Titles may contain commas, so only the leading fields of an event are
//! split off and the tail is kept whole. Addresses have no `0x` here but do
//! in JSON, so both go through `Address::parse`.
use vstd::prelude::*;
use super::{address_of, Address};
use crate::text::{
    chars_of, lemma_split_first, lemma_splitn_first, seq_eq, split_once, split_once_vec, splitn,
    splitn_vec, string_of, trim, trim_vec,
};

verus! {

#[derive(Debug, Clone, PartialEq, Eq)]
pub enum HyprEvent {
    /// Focus moved. Empty class means focus was lost entirely.
    ActiveWindow { class: String, title: String },
    ActiveWindowAddr(Option<Address>),
    OpenWindow { addr: Address, workspace: String, class: String, title: String },
    CloseWindow(Address),
    MoveWindow { addr: Address, workspace: String },
    WindowTitle { addr: Address, title: String },
    /// A window is requesting attention.
    Urgent(Address),
    Workspace { name: String },
    CreateWorkspace { name: String },
    DestroyWorkspace { name: String },
    /// Special (scratchpad) workspace shown or hidden. Empty name = hidden.
    ActiveSpecial { name: String, monitor: String },
    MonitorAdded(String),
    MonitorRemoved(String),
    /// Fullscreen state changed; the dock hides for fullscreen windows.
    Fullscreen(bool),
    /// The event socket dropped and was re-established. Listeners must
    /// resynchronise, since events emitted while disconnected are lost.
    Reconnected,
}

/// A `HyprEvent` with every string taken by its characters.
pub enum EventView {
    ActiveWindow { class: Seq<char>, title: Seq<char> },
    ActiveWindowAddr(Option<Seq<char>>),
    OpenWindow { addr: Seq<char>, workspace: Seq<char>, class: Seq<char>, title: Seq<char> },
    CloseWindow(Seq<char>),
    MoveWindow { addr: Seq<char>, workspace: Seq<char> },
    WindowTitle { addr: Seq<char>, title: Seq<char> },
    Urgent(Seq<char>),
    Workspace { name: Seq<char> },
    CreateWorkspace { name: Seq<char> },
    DestroyWorkspace { name: Seq<char> },
    ActiveSpecial { name: Seq<char>, monitor: Seq<char> },
    MonitorAdded(Seq<char>),
    MonitorRemoved(Seq<char>),
    Fullscreen(bool),
    Reconnected,
}

impl View for HyprEvent {
    type V = EventView;

    open spec fn view(&self) -> EventView {
        match self {
            HyprEvent::ActiveWindow { class, title } => EventView::ActiveWindow {
                class: class@,
                title: title@,
            },
            HyprEvent::ActiveWindowAddr(a) => EventView::ActiveWindowAddr(
                match a {
                    Some(x) => Some(x@),
                    None => None,
                },
            ),
            HyprEvent::OpenWindow { addr, workspace, class, title } => EventView::OpenWindow {
                addr: addr@,
                workspace: workspace@,
                class: class@,
                title: title@,
            },
            HyprEvent::CloseWindow(a) => EventView::CloseWindow(a@),
            HyprEvent::MoveWindow { addr, workspace } => EventView::MoveWindow {
                addr: addr@,
                workspace: workspace@,
            },
            HyprEvent::WindowTitle { addr, title } => EventView::WindowTitle {
                addr: addr@,
                title: title@,
            },
            HyprEvent::Urgent(a) => EventView::Urgent(a@),
            HyprEvent::Workspace { name } => EventView::Workspace { name: name@ },
            HyprEvent::CreateWorkspace { name } => EventView::CreateWorkspace { name: name@ },
            HyprEvent::DestroyWorkspace { name } => EventView::DestroyWorkspace { name: name@ },
            HyprEvent::ActiveSpecial { name, monitor } => EventView::ActiveSpecial {
                name: name@,
                monitor: monitor@,
            },
            HyprEvent::MonitorAdded(n) => EventView::MonitorAdded(n@),
            HyprEvent::MonitorRemoved(n) => EventView::MonitorRemoved(n@),
            HyprEvent::Fullscreen(b) => EventView::Fullscreen(*b),
            HyprEvent::Reconnected => EventView::Reconnected,
        }
    }
}

/// Field `i` of a split payload, or empty when there are fewer fields.
pub open spec fn field(p: Seq<Seq<char>>, i: int) -> Seq<char> {
    if 0 <= i < p.len() {
        p[i]
    } else {
        Seq::empty()
    }
}

/// What one `name>>payload` line means; `None` for events the dock ignores
/// and for lines without the separator.
pub open spec fn event_of(line: Seq<char>) -> Option<EventView> {
    match split_once(line, ">>"@) {
        None => None,
        Some((name, data)) => {
            let two = splitn(data, 2, ',');
            let four = splitn(data, 4, ',');
            if name == "activewindow"@ {
                Some(EventView::ActiveWindow { class: field(two, 0), title: field(two, 1) })
            } else if name == "activewindowv2"@ {
                Some(
                    EventView::ActiveWindowAddr(
                        if data.len() == 0 {
                            None
                        } else {
                            Some(address_of(data))
                        },
                    ),
                )
            } else if name == "openwindow"@ {
                Some(
                    EventView::OpenWindow {
                        addr: address_of(field(four, 0)),
                        workspace: field(four, 1),
                        class: field(four, 2),
                        title: field(four, 3),
                    },
                )
            } else if name == "closewindow"@ {
                Some(EventView::CloseWindow(address_of(data)))
            } else if name == "movewindow"@ {
                Some(
                    EventView::MoveWindow {
                        addr: address_of(field(two, 0)),
                        workspace: field(two, 1),
                    },
                )
            } else if name == "windowtitlev2"@ {
                Some(
                    EventView::WindowTitle {
                        addr: address_of(field(two, 0)),
                        title: field(two, 1),
                    },
                )
            } else if name == "urgent"@ {
                Some(EventView::Urgent(address_of(data)))
            } else if name == "workspace"@ {
                Some(EventView::Workspace { name: data })
            } else if name == "createworkspace"@ {
                Some(EventView::CreateWorkspace { name: data })
            } else if name == "destroyworkspace"@ {
                Some(EventView::DestroyWorkspace { name: data })
            } else if name == "activespecial"@ {
                Some(EventView::ActiveSpecial { name: field(two, 0), monitor: field(two, 1) })
            } else if name == "monitoradded"@ {
                Some(EventView::MonitorAdded(data))
            } else if name == "monitorremoved"@ {
                Some(EventView::MonitorRemoved(data))
            } else if name == "fullscreen"@ {
                Some(EventView::Fullscreen(trim(data) == "1"@))
            } else {
                None
            }
        },
    }
}

/// A line `name>>data` splits at its `>>` into the event's name and its
/// data, when the name holds no `>`.
proof fn lemma_event_line(name: Seq<char>, data: Seq<char>)
    requires
        forall|i: int| 0 <= i < name.len() ==> name[i] != '>',
    ensures
        split_once(name + ">>"@ + data, ">>"@) == Some((name, data)),
{
    reveal_strlit(">>");
    lemma_split_first(name, ">>"@, data);
}

/// A window's new title is everything after the first comma of the
/// payload, commas and all: `windowtitlev2>>ADDR,TITLE`, with no comma in
/// the address, is the title event for that address and that whole title.
pub proof fn lemma_title_keeps_its_commas(a: Seq<char>, t: Seq<char>)
    requires
        !a.contains(','),
    ensures
        event_of("windowtitlev2>>"@ + a + ","@ + t) == Some(
            EventView::WindowTitle { addr: address_of(a), title: t },
        ),
{
    reveal_strlit("windowtitlev2>>");
    reveal_strlit("windowtitlev2");
    reveal_strlit(">>");
    reveal_strlit(",");
    reveal_strlit("activewindow");
    reveal_strlit("activewindowv2");
    reveal_strlit("openwindow");
    reveal_strlit("closewindow");
    reveal_strlit("movewindow");
    let name = "windowtitlev2"@;
    let data = a + seq![','] + t;
    assert("windowtitlev2>>"@ + a + ","@ + t =~= name + ">>"@ + data);
    lemma_event_line(name, data);
    lemma_splitn_first(a, t, 1, ',');
    assert(splitn(data, 2, ',') =~= seq![a, t]);
}

/// A new window's title is everything after the third comma of the
/// payload: `openwindow>>ADDR,WORKSPACE,CLASS,TITLE`, with no comma in the
/// first three fields, is the open event with those fields and that whole
/// title.
pub proof fn lemma_open_window_fields(a: Seq<char>, w: Seq<char>, c: Seq<char>, t: Seq<char>)
    requires
        !a.contains(','),
        !w.contains(','),
        !c.contains(','),
    ensures
        event_of("openwindow>>"@ + a + ","@ + w + ","@ + c + ","@ + t) == Some(
            EventView::OpenWindow { addr: address_of(a), workspace: w, class: c, title: t },
        ),
{
    reveal_strlit("openwindow>>");
    reveal_strlit("openwindow");
    reveal_strlit(">>");
    reveal_strlit(",");
    reveal_strlit("activewindow");
    reveal_strlit("activewindowv2");
    let name = "openwindow"@;
    let comma = seq![','];
    let data = a + comma + (w + comma + (c + comma + t));
    assert("openwindow>>"@ + a + ","@ + w + ","@ + c + ","@ + t =~= name + ">>"@ + data);
    lemma_event_line(name, data);
    lemma_splitn_first(a, w + comma + (c + comma + t), 3, ',');
    lemma_splitn_first(w, c + comma + t, 2, ',');
    lemma_splitn_first(c, t, 1, ',');
    assert(splitn(data, 4, ',') =~= seq![a, w, c, t]);
}

/// Focus moving names the class before the first comma and the title, all
/// of the rest: `activewindow>>CLASS,TITLE`, with no comma in the class.
pub proof fn lemma_active_window_fields(c: Seq<char>, t: Seq<char>)
    requires
        !c.contains(','),
    ensures
        event_of("activewindow>>"@ + c + ","@ + t) == Some(
            EventView::ActiveWindow { class: c, title: t },
        ),
{
    reveal_strlit("activewindow>>");
    reveal_strlit("activewindow");
    reveal_strlit(">>");
    reveal_strlit(",");
    let name = "activewindow"@;
    let data = c + seq![','] + t;
    assert("activewindow>>"@ + c + ","@ + t =~= name + ">>"@ + data);
    lemma_event_line(name, data);
    lemma_splitn_first(c, t, 1, ',');
    assert(splitn(data, 2, ',') =~= seq![c, t]);
}

/// Events whose payload is one value take all of it: a closed or urgent
/// window's address, a workspace's or monitor's name, commas and all.
pub proof fn lemma_whole_payload_events(d: Seq<char>)
    ensures
        event_of("closewindow"@ + ">>"@ + d) == Some(EventView::CloseWindow(address_of(d))),
        event_of("urgent"@ + ">>"@ + d) == Some(EventView::Urgent(address_of(d))),
        event_of("workspace"@ + ">>"@ + d) == Some(EventView::Workspace { name: d }),
        event_of("createworkspace"@ + ">>"@ + d) == Some(EventView::CreateWorkspace { name: d }),
        event_of("destroyworkspace"@ + ">>"@ + d) == Some(EventView::DestroyWorkspace { name: d }),
        event_of("monitoradded"@ + ">>"@ + d) == Some(EventView::MonitorAdded(d)),
        event_of("monitorremoved"@ + ">>"@ + d) == Some(EventView::MonitorRemoved(d)),
        event_of("activewindowv2"@ + ">>"@ + d) == Some(
            EventView::ActiveWindowAddr(
                if d.len() == 0 {
                    None
                } else {
                    Some(address_of(d))
                },
            ),
        ),
        event_of("fullscreen"@ + ">>"@ + d) == Some(EventView::Fullscreen(trim(d) == "1"@)),
{
    reveal_strlit("activewindow");
    reveal_strlit("activewindowv2");
    reveal_strlit("openwindow");
    reveal_strlit("closewindow");
    reveal_strlit("movewindow");
    reveal_strlit("windowtitlev2");
    reveal_strlit("urgent");
    reveal_strlit("workspace");
    reveal_strlit("createworkspace");
    reveal_strlit("destroyworkspace");
    reveal_strlit("activespecial");
    reveal_strlit("monitoradded");
    reveal_strlit("monitorremoved");
    reveal_strlit("fullscreen");
    lemma_event_line("closewindow"@, d);
    lemma_event_line("urgent"@, d);
    lemma_event_line("workspace"@, d);
    lemma_event_line("createworkspace"@, d);
    lemma_event_line("destroyworkspace"@, d);
    assert("monitoradded"@[0] != "activewindow"@[0]);
    assert("monitorremoved"@[0] != "activewindowv2"@[0]);
    assert("fullscreen"@[0] != "openwindow"@[0] && "fullscreen"@[0] != "movewindow"@[0]);
    lemma_event_line("monitoradded"@, d);
    lemma_event_line("monitorremoved"@, d);
    lemma_event_line("activewindowv2"@, d);
    lemma_event_line("fullscreen"@, d);
}

/// A moved window's workspace, and the special workspace's monitor, are
/// everything after the first comma: `movewindow>>ADDR,WORKSPACE` and
/// `activespecial>>NAME,MONITOR`, with no comma in the first field.
pub proof fn lemma_two_field_events(a: Seq<char>, b: Seq<char>)
    requires
        !a.contains(','),
    ensures
        event_of("movewindow"@ + ">>"@ + a + ","@ + b) == Some(
            EventView::MoveWindow { addr: address_of(a), workspace: b },
        ),
        event_of("activespecial"@ + ">>"@ + a + ","@ + b) == Some(
            EventView::ActiveSpecial { name: a, monitor: b },
        ),
{
    reveal_strlit("activewindow");
    reveal_strlit("activewindowv2");
    reveal_strlit("openwindow");
    reveal_strlit("closewindow");
    reveal_strlit("movewindow");
    reveal_strlit("windowtitlev2");
    reveal_strlit("urgent");
    reveal_strlit("workspace");
    reveal_strlit("createworkspace");
    reveal_strlit("destroyworkspace");
    reveal_strlit("activespecial");
    reveal_strlit("monitoradded");
    reveal_strlit("monitorremoved");
    reveal_strlit("fullscreen");
    reveal_strlit(">>");
    reveal_strlit(",");
    let data = a + seq![','] + b;
    assert("movewindow"@ + ">>"@ + a + ","@ + b =~= "movewindow"@ + ">>"@ + data);
    assert("activespecial"@ + ">>"@ + a + ","@ + b =~= "activespecial"@ + ">>"@ + data);
    assert("movewindow"@[0] != "openwindow"@[0]);
    assert("activespecial"@[0] != "windowtitlev2"@[0]);
    lemma_event_line("movewindow"@, data);
    lemma_event_line("activespecial"@, data);
    lemma_splitn_first(a, b, 1, ',');
    assert(splitn(data, 2, ',') =~= seq![a, b]);
}

fn field_exec(p: &Vec<Vec<char>>, i: usize) -> (r: String)
    ensures
        r@ == field(p@.map_values(|w: Vec<char>| w@), i as int),
{
    if i < p.len() {
        string_of(&p[i])
    } else {
        String::new()
    }
}

fn address_field(p: &Vec<Vec<char>>, i: usize) -> (r: Address)
    ensures
        r@ == address_of(field(p@.map_values(|w: Vec<char>| w@), i as int)),
{
    let f = field_exec(p, i);
    Address::parse(f.as_str())
}

fn is(name: &Vec<char>, lit: &str) -> (r: bool)
    ensures
        r == (name@ == lit@),
{
    seq_eq(name, &chars_of(lit))
}

/// Parse one `name>>payload` line. Returns `None` for events the dock ignores.
pub fn parse(line: &str) -> (r: Option<HyprEvent>)
    ensures
        match r {
            Some(e) => event_of(line@) == Some(e@),
            None => event_of(line@) is None,
        },
{
    let l = chars_of(line);
    let (name, data) = match split_once_vec(&l, &chars_of(">>")) {
        Some(pair) => pair,
        None => return None,
    };
    let two = splitn_vec(&data, 2, ',');
    let four = splitn_vec(&data, 4, ',');
    let payload = string_of(&data);
    if is(&name, "activewindow") {
        Some(HyprEvent::ActiveWindow { class: field_exec(&two, 0), title: field_exec(&two, 1) })
    } else if is(&name, "activewindowv2") {
        Some(
            HyprEvent::ActiveWindowAddr(
                if data.len() == 0 {
                    None
                } else {
                    Some(Address::parse(payload.as_str()))
                },
            ),
        )
    } else if is(&name, "openwindow") {
        Some(
            HyprEvent::OpenWindow {
                addr: address_field(&four, 0),
                workspace: field_exec(&four, 1),
                class: field_exec(&four, 2),
                title: field_exec(&four, 3),
            },
        )
    } else if is(&name, "closewindow") {
        Some(HyprEvent::CloseWindow(Address::parse(payload.as_str())))
    } else if is(&name, "movewindow") {
        Some(HyprEvent::MoveWindow { addr: address_field(&two, 0), workspace: field_exec(&two, 1) })
    } else if is(&name, "windowtitlev2") {
        Some(HyprEvent::WindowTitle { addr: address_field(&two, 0), title: field_exec(&two, 1) })
    } else if is(&name, "urgent") {
        Some(HyprEvent::Urgent(Address::parse(payload.as_str())))
    } else if is(&name, "workspace") {
        Some(HyprEvent::Workspace { name: payload })
    } else if is(&name, "createworkspace") {
        Some(HyprEvent::CreateWorkspace { name: payload })
    } else if is(&name, "destroyworkspace") {
        Some(HyprEvent::DestroyWorkspace { name: payload })
    } else if is(&name, "activespecial") {
        Some(HyprEvent::ActiveSpecial { name: field_exec(&two, 0), monitor: field_exec(&two, 1) })
    } else if is(&name, "monitoradded") {
        Some(HyprEvent::MonitorAdded(payload))
    } else if is(&name, "monitorremoved") {
        Some(HyprEvent::MonitorRemoved(payload))
    } else if is(&name, "fullscreen") {
        let t = trim_vec(&data);
        Some(HyprEvent::Fullscreen(seq_eq(&t, &chars_of("1"))))
    } else {
        None
    }
}


/// How long to wait before reconnecting to the event socket after waiting
/// `current_ms`: twice as long, but at most five seconds, so a compositor
/// restart is picked up quickly without spinning when Hyprland is gone.
pub fn next_backoff_ms(current_ms: u64) -> (r: u64)
    ensures
        r == if 2 * current_ms < 5000 {
            2 * current_ms
        } else {
            5000
        },
{
    if current_ms < 2500 {
        2 * current_ms
    } else {
        5000
    }
}

} // verus!
