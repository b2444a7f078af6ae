//! The notch window's extended style.
//!
//! The notch is a tool window (absent from Alt-Tab) that takes its own clicks: a
//! window region makes it the shape of the silhouette, so neither the transparent
//! nor the layered style is wanted.

use vstd::prelude::*;

verus! {

/// `WS_EX_TOOLWINDOW`: the window is left out of the taskbar and of Alt-Tab.
pub const WS_EX_TOOLWINDOW: isize = 0x0000_0080;

/// `WS_EX_TRANSPARENT`: the window lets clicks through.
pub const WS_EX_TRANSPARENT: isize = 0x0000_0020;

/// `WS_EX_LAYERED`: the window is composed as a layered window.
pub const WS_EX_LAYERED: isize = 0x0008_0000;

/// The extended style to give the notch window that now has `style`: the tool-window
/// bit set, the transparent and layered bits cleared, every other bit kept.
pub fn notch_exstyle(style: isize) -> (r: isize)
    ensures
        r & WS_EX_TOOLWINDOW == WS_EX_TOOLWINDOW,
        r & WS_EX_TRANSPARENT == 0,
        r & WS_EX_LAYERED == 0,
        r & !(WS_EX_TOOLWINDOW | WS_EX_TRANSPARENT | WS_EX_LAYERED)
            == style & !(WS_EX_TOOLWINDOW | WS_EX_TRANSPARENT | WS_EX_LAYERED),
{
    let r = (style | WS_EX_TOOLWINDOW) & !WS_EX_TRANSPARENT & !WS_EX_LAYERED;
    assert(r & 0x80isize == 0x80isize && r & 0x20isize == 0 && r & 0x80000isize == 0
        && r & !(0x80isize | 0x20isize | 0x80000isize) == style & !(0x80isize | 0x20isize | 0x80000isize)) by (bit_vector)
        requires
            r == (style | 0x80isize) & !0x20isize & !0x80000isize,
    ;
    r
}

} // verus!
