//! Raven's glass shell: the palette the other Raven applications use, as
//! libadwaita's named colours, and the override that carries the accent and
//! the light-mode swap.
//!
//! "Glass" is alpha only: the blur behind the window is the compositor's to
//! draw.

use vstd::prelude::*;

use crate::config::{hex_colour, is_hex, Appearance, ThemeMode, DEFAULT_ACCENT};
use crate::text::cat3;

verus! {

pub const BASE_CSS: &'static str = r#"
/* Raven dark palette. Keep in step with Settings, Store and Power. */
@define-color window_bg_color #16161f;
@define-color window_fg_color #d0d0e0;
@define-color headerbar_bg_color #16161f;
@define-color headerbar_fg_color #d0d0e0;
@define-color headerbar_border_color #2a2a3a;
@define-color headerbar_shade_color rgba(0,0,0,0.36);
@define-color view_bg_color #1a1a26;
@define-color view_fg_color #d0d0e0;
@define-color card_bg_color #1e1e2b;
@define-color card_fg_color #d0d0e0;
@define-color dialog_bg_color #1e1e2b;
@define-color dialog_fg_color #d0d0e0;
@define-color popover_bg_color #1e1e2b;
@define-color popover_fg_color #d0d0e0;
@define-color sidebar_bg_color #141420;
@define-color borders #2a2a3a;

window.raven { background-color: @window_bg_color; }
headerbar {
  box-shadow: none;
  border-bottom: 1px solid #2a2a3a;
  background-color: transparent;
}
toolbarview, stack { background-color: transparent; }

/* The compositor provides the blur behind these translucent surfaces. */
window.raven.glass { background-color: alpha(#16161f, 0.72); }
window.raven.glass .sidebar {
  background-color: alpha(#0e0e16, 0.45);
  border-right-color: alpha(#ffffff, 0.07);
}
window.raven.glass .card,
window.raven.glass .raven-card {
  background-color: alpha(#ffffff, 0.085);
  border-color: alpha(#ffffff, 0.11);
}
window.raven.glass headerbar { border-bottom-color: alpha(#ffffff, 0.07); }
window.raven.glass list.boxed-list,
window.raven.glass list.boxed-list > row {
  background-color: alpha(#ffffff, 0.04);
}
window.raven.glass switch,
window.raven.glass scale trough,
window.raven.glass dropdown > button,
window.raven.glass spinbutton {
  background-color: alpha(#ffffff, 0.10);
}

.sidebar {
  background-color: #141420;
  border-right: 1px solid #2a2a3a;
  padding: 18px 14px;
}
.sidebar .brand { margin: 0 8px 14px 8px; }
.sidebar .brand image { color: @accent_bg_color; -gtk-icon-size: 34px; }
.sidebar .app-title { font-size: 19px; font-weight: 700; }
.sidebar .app-subtitle { font-size: 12px; color: alpha(@window_fg_color, 0.55); }
.sidebar list.navigation-sidebar { background: transparent; }
.sidebar list.navigation-sidebar row {
  border-radius: 10px;
  padding: 9px 10px;
  margin: 2px 0;
}
.sidebar list.navigation-sidebar row:selected {
  background-color: alpha(@accent_bg_color, 0.22);
  color: @window_fg_color;
  box-shadow: inset 0 0 0 1px alpha(@accent_bg_color, 0.55);
}
.sidebar list.navigation-sidebar row image { color: @accent_bg_color; }

.page-scroll > viewport { background-color: transparent; }
.page { padding: 28px 34px 42px; }
.card, .raven-card {
  background-color: #1e1e2b;
  border: 1px solid #2a2a3a;
  border-radius: 14px;
  padding: 16px;
}
.raven-card .card-title { font-weight: 600; font-size: 15px; }
.raven-card .dim, .dim-label { color: alpha(@window_fg_color, 0.60); }
.status-card { padding: 12px 14px; }
.status-card image { color: @accent_bg_color; }

.page-title { font-size: 24px; font-weight: 700; color: @window_fg_color; }
.page-subtitle { color: alpha(@window_fg_color, 0.6); }
.section-title, .card-title { font-size: 17px; font-weight: 700; }
.eyebrow { color: @accent_bg_color; font-size: 11px; font-weight: 750; }
.note { color: alpha(@window_fg_color, 0.55); font-size: 12px; }
.mono { font-family: monospace; }

/* The fan-curve graph draws itself; this is the frame around it. */
.curve-frame {
  border-radius: 12px;
  border: 1px solid @borders;
  background-color: alpha(#0e0e16, 0.35);
}
window.raven.glass .curve-frame {
  border-color: alpha(#ffffff, 0.11);
  background-color: alpha(#000000, 0.18);
}
"#;

/// The light-mode half of the palette, swapped in over the base.
pub const LIGHT_CSS: &'static str = r#"
@define-color window_bg_color #eef0f6;
@define-color window_fg_color #1a1b26;
@define-color headerbar_bg_color #eef0f6;
@define-color headerbar_fg_color #1a1b26;
@define-color headerbar_border_color #d0d3e0;
@define-color view_bg_color #f7f8fc;
@define-color view_fg_color #1a1b26;
@define-color card_bg_color #f7f8fc;
@define-color card_fg_color #1a1b26;
@define-color dialog_bg_color #f7f8fc;
@define-color dialog_fg_color #1a1b26;
@define-color popover_bg_color #f7f8fc;
@define-color popover_fg_color #1a1b26;
@define-color sidebar_bg_color #e6e8f0;
@define-color borders #d0d3e0;
headerbar { border-bottom-color: #d0d3e0; }
.sidebar { background-color: #e6e8f0; border-right-color: #d0d3e0; }
.card, .raven-card { background-color: #f7f8fc; border-color: #d0d3e0; }
.curve-frame { background-color: alpha(#ffffff, 0.6); border-color: #d0d3e0; }
window.raven.glass { background-color: alpha(#eef0f6, 0.80); }
window.raven.glass .sidebar { background-color: alpha(#ffffff, 0.35); }
window.raven.glass .card,
window.raven.glass .raven-card {
  background-color: alpha(#ffffff, 0.45);
  border-color: alpha(#000000, 0.08);
}
window.raven.glass list.boxed-list,
window.raven.glass list.boxed-list > row { background-color: alpha(#ffffff, 0.40); }
window.raven.glass .curve-frame {
  background-color: alpha(#ffffff, 0.45);
  border-color: alpha(#000000, 0.08);
}
"#;

/// The accent a stylesheet gets: the configured one where it is a real
/// `#RRGGBB`, the default otherwise. An unvalidated string is never
/// interpolated into a stylesheet.
pub open spec fn accent_of(a: Seq<char>) -> Seq<char> {
    if hex_colour(a) {
        a
    } else {
        DEFAULT_ACCENT@
    }
}

pub open spec fn override_text(accent: Seq<char>, mode: ThemeMode) -> Seq<char> {
    "@define-color accent_bg_color "@ + accent_of(accent) + ";\n@define-color accent_color "@
        + accent_of(accent) + ";\n"@ + if mode == ThemeMode::Light {
        LIGHT_CSS@
    } else {
        ""@
    }
}

/// The override stylesheet for an appearance.
pub fn override_css(appearance: &Appearance) -> (r: String)
    ensures
        r@ == override_text(appearance.accent@, appearance.theme_mode),
{
    let accent = if is_hex(appearance.accent.as_str()) {
        appearance.accent.as_str()
    } else {
        DEFAULT_ACCENT
    };
    let head = cat3("@define-color accent_bg_color ", accent, ";\n@define-color accent_color ");
    let head = cat3(head.as_str(), accent, ";\n");
    if appearance.theme_mode == ThemeMode::Light {
        head.concat(LIGHT_CSS)
    } else {
        proof {
            reveal_strlit("");
            assert(head@ + ""@ =~= head@);
        }
        head
    }
}

} // verus!
