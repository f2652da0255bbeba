//! Talking to the rest of Omarchy at runtime: which of the shell's own
//! surfaces the dock offers and the commands that raise them, and the
//! command that sends a notification through Omarchy's own service.
//!
//! Where Omarchy already has a way to do something, the dock uses it rather
//! than reimplementing it. Running the commands is the application's job;
//! every one of them is advisory, and a failure is no reason for the dock to
//! fail.
use vstd::prelude::*;
use crate::config::Position;
use crate::text::{chars_of, concat, seq_eq, string_of, strings};

verus! {

/// A program and its arguments, to be run without waiting for it.
#[derive(Debug)]
pub struct Command {
    pub program: String,
    pub args: Vec<String>,
}

/// One of the Omarchy shell's own surfaces, openable from the dock.
///
/// Deliberately a fixed list rather than free-form commands: these are the
/// surfaces a dock has any business raising.
#[derive(Debug, Clone, Copy, PartialEq, Eq, Structural)]
pub enum Surface {
    /// The root Omarchy menu — the same one the bar's leftmost widget opens.
    Menu,
    /// Theme picker, with each theme's shipped preview.
    Themes,
    /// Wallpaper picker for the current theme.
    Backgrounds,
    Clipboard,
    Emojis,
}

pub open spec fn surface_label(s: Surface) -> Seq<char> {
    match s {
        Surface::Menu => "Omarchy menu"@,
        Surface::Themes => "Themes…"@,
        Surface::Backgrounds => "Backgrounds…"@,
        Surface::Clipboard => "Clipboard…"@,
        Surface::Emojis => "Emojis…"@,
    }
}

impl Surface {
    pub fn label(self) -> (r: &'static str)
        ensures
            r@ == surface_label(self),
    {
        match self {
            Surface::Menu => "Omarchy menu",
            Surface::Themes => "Themes…",
            Surface::Backgrounds => "Backgrounds…",
            Surface::Clipboard => "Clipboard…",
            Surface::Emojis => "Emojis…",
        }
    }

    /// Everything the dock offers, in menu order.
    pub fn all() -> (r: [Surface; 5])
        ensures
            r@ == seq![
                Surface::Menu,
                Surface::Themes,
                Surface::Backgrounds,
                Surface::Clipboard,
                Surface::Emojis,
            ],
    {
        let r = [Surface::Menu, Surface::Themes, Surface::Backgrounds, Surface::Clipboard, Surface::Emojis];
        assert(r@ =~= seq![
            Surface::Menu,
            Surface::Themes,
            Surface::Backgrounds,
            Surface::Clipboard,
            Surface::Emojis,
        ]);
        r
    }
}


pub open spec fn shell_args(last: Seq<Seq<char>>) -> Seq<Seq<char>> {
    seq!["-q"@, "shell"@] + last
}

/// The menu route a surface opens through `omarchy.menu`, if it is one.
pub open spec fn route_of(s: Surface) -> Option<Seq<char>> {
    match s {
        Surface::Menu => Some("root"@),
        Surface::Themes => Some("style.theme"@),
        Surface::Backgrounds => Some("style.background"@),
        _ => None,
    }
}

/// The arguments to `omarchy-shell` that open the menu at `route`.
pub open spec fn menu_route_args(route: Seq<char>) -> Seq<Seq<char>> {
    shell_args(seq!["summon"@, "omarchy.menu"@, "{\"menu\":\""@ + route + "\"}"@])
}

/// The arguments to `omarchy-shell` that raise `s`: a menu route goes
/// through `omarchy.menu` with a route payload, which is what `omarchy menu
/// summon <route>` does without a shell script and a `jq` per click.
pub open spec fn surface_args(s: Surface) -> Seq<Seq<char>> {
    match route_of(s) {
        Some(route) => menu_route_args(route),
        None => shell_args(
            seq![
                "toggle"@,
                if s == Surface::Clipboard {
                    "omarchy.clipboard"@
                } else {
                    "omarchy.emojis"@
                },
            ],
        ),
    }
}

fn arg(s: &str) -> (r: String)
    ensures
        r@ == s@,
{
    string_of(&chars_of(s))
}

/// The command that opens Omarchy's menu at `route`, the way `omarchy menu
/// summon <route>` does, without a shell script and a `jq` per click. The
/// payload is small and fully controlled here, so it is built by hand.
pub fn menu_route(route: &str) -> (r: Command)
    ensures
        r.program@ == "omarchy-shell"@,
        strings(r.args@) == menu_route_args(route@),
{
    let mut args: Vec<String> = Vec::new();
    args.push(arg("-q"));
    args.push(arg("shell"));
    args.push(arg("summon"));
    args.push(arg("omarchy.menu"));
    let payload = concat(&concat(&chars_of("{\"menu\":\""), &chars_of(route)), &chars_of("\"}"));
    args.push(string_of(&payload));
    let r = Command { program: arg("omarchy-shell"), args };
    assert(strings(r.args@) =~= menu_route_args(route@));
    r
}

/// The command that raises `surface`: a menu route through the menu, the
/// clipboard and emoji pickers by toggling their panels.
pub fn open(surface: Surface) -> (r: Command)
    ensures
        r.program@ == "omarchy-shell"@,
        strings(r.args@) == surface_args(surface),
{
    proof {
        reveal_strlit("root");
        reveal_strlit("style.theme");
        reveal_strlit("style.background");
    }
    match surface {
        Surface::Menu => menu_route("root"),
        Surface::Themes => menu_route("style.theme"),
        Surface::Backgrounds => menu_route("style.background"),
        _ => {
            let mut args: Vec<String> = Vec::new();
            args.push(arg("-q"));
            args.push(arg("shell"));
            args.push(arg("toggle"));
            args.push(
                if surface == Surface::Clipboard {
                    arg("omarchy.clipboard")
                } else {
                    arg("omarchy.emojis")
                },
            );
            let r = Command { program: arg("omarchy-shell"), args };
            assert(strings(r.args@) =~= surface_args(surface));
            r
        },
    }
}

/// The arguments to `omarchy` that send a notification.
pub open spec fn notify_args(headline: Seq<char>, body: Option<Seq<char>>, glyph: Option<Seq<char>>) -> Seq<Seq<char>> {
    seq!["notification"@, "send"@, "--app-name"@, "Dock"@] + (match glyph {
        Some(g) => seq!["-g"@, g],
        None => Seq::empty(),
    }) + seq![headline] + (match body {
        Some(b) => seq![b],
        None => Seq::empty(),
    })
}

/// The command that sends a desktop notification through Omarchy's own
/// notification service, so the dock's messages get the shell's styling,
/// its glyph column and its notification centre.
pub fn notify(headline: &str, body: Option<&str>, glyph: Option<&str>) -> (r: Command)
    ensures
        r.program@ == "omarchy"@,
        strings(r.args@) == notify_args(
            headline@,
            match body {
                Some(b) => Some(b@),
                None => None,
            },
            match glyph {
                Some(g) => Some(g@),
                None => None,
            },
        ),
{
    let mut args: Vec<String> = Vec::new();
    args.push(arg("notification"));
    args.push(arg("send"));
    args.push(arg("--app-name"));
    args.push(arg("Dock"));
    match glyph {
        Some(g) => {
            args.push(arg("-g"));
            args.push(arg(g));
        },
        None => {},
    }
    args.push(arg(headline));
    match body {
        Some(b) => args.push(arg(b)),
        None => {},
    }
    let r = Command { program: arg("omarchy"), args };
    assert(strings(r.args@) =~= notify_args(
        headline@,
        match body {
            Some(b) => Some(b@),
            None => None,
        },
        match glyph {
            Some(g) => Some(g@),
            None => None,
        },
    ));
    r
}

/// Marker Omarchy's screen recorder writes while a recording is running:
/// its existence is the cheapest correct answer to "is the screen being
/// recorded".
pub const RECORDING_MARKER: &'static str = "/tmp/omarchy-screenrecord-filename";

/// The edge a `shell.json` bar position names: `bottom`, `left` or
/// `right`, and the top otherwise.
pub open spec fn bar_position_of(name: Seq<char>) -> Position {
    if name == "bottom"@ {
        Position::Bottom
    } else if name == "left"@ {
        Position::Left
    } else if name == "right"@ {
        Position::Right
    } else {
        Position::Top
    }
}

/// Where `shell.json` says the bar is: `bottom`, `left` or `right`, and
/// the top otherwise.
pub fn bar_position(name: &str) -> (r: Position)
    ensures
        r == bar_position_of(name@),
{
    let n = chars_of(name);
    if seq_eq(&n, &chars_of("bottom")) {
        Position::Bottom
    } else if seq_eq(&n, &chars_of("left")) {
        Position::Left
    } else if seq_eq(&n, &chars_of("right")) {
        Position::Right
    } else {
        Position::Top
    }
}

/// What `shell.json`'s text gives as the bar's position: `None` when the
/// text is not JSON or has no `bar.position` string.
pub uninterp spec fn json_bar_position(text: Seq<char>) -> Option<Seq<char>>;

/// Parses `text` with `serde_json::from_str` into a `Value` and reads
/// `bar`, then `position`, with `Value::get`, and that with `as_str`.
/// Claimed: the result is `json_bar_position` of the text.
#[verifier::external_body]
fn shell_bar_position(text: &str) -> (r: Option<String>)
    ensures
        json_bar_position(text@) == match r {
            Some(p) => Some(p@),
            None => None,
        },
{
    let v = serde_json::from_str::<serde_json::Value>(text).ok()?;
    v.get("bar")?.get("position")?.as_str().map(str::to_owned)
}

/// The screen edge the Omarchy bar sits on, from `shell.json`'s text; `None`
/// when the text does not say, which is the "there is no bar to avoid" case.
pub fn bar_edge_in(shell_json: &str) -> (r: Option<Position>)
    ensures
        r == match json_bar_position(shell_json@) {
            Some(p) => Some(bar_position_of(p)),
            None => None,
        },
{
    match shell_bar_position(shell_json) {
        Some(p) => Some(bar_position(p.as_str())),
        None => None,
    }
}

} // verus!
