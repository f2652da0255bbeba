# omarchy-dock

The logic of a dock for Omarchy, verified with Verus, and a small command
line around it.

`src/` is the library. Every function in it carries a `requires`/`ensures`
contract that Verus proves, stated over spec functions and views:

| Module | What it decides |
| --- | --- |
| `state` | The dock's items: launcher, workspace strip, pinned and running apps, stacks and Trash, with dividers only where they divide something; how a click cycles windows; how Hyprland events change the state; how a rearranged dock is matched to the widgets it had |
| `state::matcher` | Which desktop entry a Hyprland window class belongs to, Chromium web apps included |
| `state::shown` | That no window is shown by two application icons |
| `hypr` | Window addresses, the event stream's grammar, the Lua dispatch expressions and Hyprland's replies |
| `desktop` | `.desktop` files, and the entry set built from several directories |
| `integrate` | The hook, plugin and menu texts, and the marker-fenced edits to files shared with the user |
| `menu`, `popover` | The rows of an item's and the launcher's right-click menus, and of the folder-stack and Trash popovers, with what each row asks for |
| `theme`, `tray`, `stacks`, `pins`, `autohide`, `omarchy`, `ipc_ctl`, `config` | Colours, tray items, folder stacks, pin edits, the hide decision, Omarchy commands, the control socket's verbs, configuration defaults and what a first run takes from the stock dock |
| `text`, `lists`, `paths` | The string, sequence and path facts the rest is stated with |

Laws that relate several functions (splicing a block in and out, reordering,
attention state across events, sort orders, click cycling) are public proof
functions next to the functions they speak of.

`app/` is the program: reading and writing files, talking to Hyprland's
sockets, the control socket and the process spawning the library's
decisions call for. It prints the dock, its menus and popovers rather than
drawing them. It holds no rules of its own beyond what needs floating
point (the dock's on-screen rectangle).

`tests/` runs the library on concrete values.
