//! Pieces of the status bar that compute: the clock text, the pixel
//! conversion for the compositor's buffers, and which popups a click opens.
use vstd::prelude::*;
use crate::text::{fmt_padded, push_padded_signed, push_str, string_from_chars};

verus! {

/// The four bytes of pixel `i` of an RGBA buffer, reordered to the
/// compositor's ARGB8888 layout (blue, green, red, alpha in memory).
pub open spec fn argb_pixel_ok(src: Seq<u8>, dst: Seq<u8>, i: int) -> bool {
    &&& dst[4 * i] == src[4 * i + 2]
    &&& dst[4 * i + 1] == src[4 * i + 1]
    &&& dst[4 * i + 2] == src[4 * i]
    &&& dst[4 * i + 3] == src[4 * i + 3]
}

/// Converts the first `pixel_count` pixels of `src` (RGBA) into `dst`
/// (ARGB8888, that is blue, green, red, alpha in memory); the rest of `dst`
/// is left as it was.
pub fn rgba_to_argb(src: &[u8], dst: &mut [u8], pixel_count: usize)
    requires
        4 * pixel_count <= src@.len(),
        4 * pixel_count <= old(dst)@.len(),
    ensures
        final(dst)@.len() == old(dst)@.len(),
        forall|i: int| 0 <= i < pixel_count ==> #[trigger] argb_pixel_ok(src@, final(dst)@, i),
        forall|j: int| 4 * pixel_count <= j < old(dst)@.len() ==> #[trigger] final(dst)@[j] == old(dst)@[j],
{
    let n = src.len();
    let mut i: usize = 0;
    while i < pixel_count
        invariant
            n == src@.len(),
            i <= pixel_count,
            4 * pixel_count <= src@.len(),
            dst@.len() == old(dst)@.len(),
            4 * pixel_count <= dst@.len(),
            forall|k: int| 0 <= k < i ==> #[trigger] argb_pixel_ok(src@, dst@, k),
            forall|j: int| 4 * i <= j < dst@.len() ==> #[trigger] dst@[j] == old(dst)@[j],
        decreases pixel_count - i,
    {
        let si = i * 4;
        assert(si + 3 < src@.len() && si + 3 < dst@.len());
        let ghost before = dst@;
        dst[si] = src[si + 2];
        dst[si + 1] = src[si + 1];
        dst[si + 2] = src[si];
        dst[si + 3] = src[si + 3];
        assert forall|k: int| 0 <= k < i + 1 implies #[trigger] argb_pixel_ok(src@, dst@, k) by {
            if k < i {
                assert(argb_pixel_ok(src@, before, k));
            }
        }
        i = i + 1;
    }
}

/// The hour on a 12-hour clock and whether it is after noon, for an hour
/// of the day `hour`.
pub open spec fn twelve_hour(hour: int) -> (int, bool) {
    if hour == 0 {
        (12, false)
    } else if 1 <= hour <= 11 {
        (hour, false)
    } else if hour == 12 {
        (12, true)
    } else {
        (hour - 12, true)
    }
}

/// `format!("{}:{:02} {}", h12, minute, am_pm)`.
pub open spec fn clock_text(hour: int, minute: int) -> Seq<char> {
    let (h, pm) = twelve_hour(hour);
    fmt_padded(h, 1) + seq![':'] + fmt_padded(minute, 2) + (if pm {
        " PM"@
    } else {
        " AM"@
    })
}

/// The clock shown in the bar: the time on a 12-hour clock with minutes in
/// two digits, as in `9:05 PM`.
pub fn format_clock(hour: i32, minute: i32) -> (r: String)
    requires
        hour >= i32::MIN + 12,
    ensures
        r@ == clock_text(hour as int, minute as int),
{
    let (h12, pm): (i32, bool) = if hour == 0 {
        (12, false)
    } else if 1 <= hour && hour <= 11 {
        (hour, false)
    } else if hour == 12 {
        (12, true)
    } else {
        (hour - 12, true)
    };
    let mut out: Vec<char> = Vec::new();
    push_padded_signed(h12, 1, &mut out);
    out.push(':');
    push_padded_signed(minute, 2, &mut out);
    if pm {
        push_str(&mut out, " PM");
    } else {
        push_str(&mut out, " AM");
    }
    assert(out@ =~= clock_text(hour as int, minute as int));
    string_from_chars(&out)
}

/// On a 12-hour clock the hours of a day run from 1 to 12, and those from
/// noon on are marked PM.
pub proof fn lemma_twelve_hour_range(hour: int)
    requires
        0 <= hour <= 23,
    ensures
        1 <= twelve_hour(hour).0 <= 12,
        twelve_hour(hour).1 == (hour >= 12),
        twelve_hour(hour).0 % 12 == hour % 12,
{
}

/// Where on the bar a left button went down.
#[derive(Debug, Clone, Copy, PartialEq, Eq, Structural)]
pub enum HeaderZone {
    /// The system icon that opens the power menu.
    MenuIcon,
    /// The volume indicator that opens the volume popup.
    Volume,
    /// Anywhere else on the bar.
    Elsewhere,
}

/// Which of the bar's popups are open.
#[derive(Debug, Clone, Copy, PartialEq, Eq, Structural)]
pub struct HeaderPopups {
    pub volume_open: bool,
    pub menu_open: bool,
}

/// The popups after a click on the bar: the menu icon toggles the power
/// menu and closes the volume popup, the volume indicator toggles the
/// volume popup and closes the menu, and a click elsewhere closes both.
pub open spec fn after_click(state: HeaderPopups, zone: HeaderZone) -> HeaderPopups {
    match zone {
        HeaderZone::MenuIcon => HeaderPopups { volume_open: false, menu_open: !state.menu_open },
        HeaderZone::Volume => HeaderPopups { volume_open: !state.volume_open, menu_open: false },
        HeaderZone::Elsewhere => HeaderPopups { volume_open: false, menu_open: false },
    }
}

/// Open and close the popups for a click on the bar (see `after_click`).
pub fn header_click(state: HeaderPopups, zone: HeaderZone) -> (r: HeaderPopups)
    ensures
        r == after_click(state, zone),
{
    match zone {
        HeaderZone::MenuIcon => HeaderPopups { volume_open: false, menu_open: !state.menu_open },
        HeaderZone::Volume => HeaderPopups { volume_open: !state.volume_open, menu_open: false },
        HeaderZone::Elsewhere => HeaderPopups { volume_open: false, menu_open: false },
    }
}

/// After any click at most one popup is open, and a second click on the
/// same icon undoes the first for that icon's popup.
pub proof fn lemma_second_click_toggles_back(state: HeaderPopups, zone: HeaderZone)
    ensures
        !(after_click(state, zone).volume_open && after_click(state, zone).menu_open),
        zone == HeaderZone::MenuIcon ==> after_click(after_click(state, zone), zone).menu_open
            == state.menu_open,
        zone == HeaderZone::Volume ==> after_click(after_click(state, zone), zone).volume_open
            == state.volume_open,
{
}

/// An entry of the power menu.
#[derive(Debug, Clone, Copy, PartialEq, Eq, Structural)]
pub enum PowerAction {
    Logout,
    Restart,
    Shutdown,
}

/// A press on the power menu over item `item` (`None` off the items): the
/// first three items log out, restart and shut down; a press on any item
/// closes the menu. Returns the action, if any, and whether the menu closes.
pub fn menu_press(item: Option<usize>) -> (r: (Option<PowerAction>, bool))
    ensures
        r.1 == item is Some,
        r.0 == (match item {
            Some(0) => Some(PowerAction::Logout),
            Some(1) => Some(PowerAction::Restart),
            Some(2) => Some(PowerAction::Shutdown),
            _ => None,
        }),
{
    match item {
        Some(0) => (Some(PowerAction::Logout), true),
        Some(1) => (Some(PowerAction::Restart), true),
        Some(2) => (Some(PowerAction::Shutdown), true),
        Some(_) => (None, true),
        None => (None, false),
    }
}

} // verus!
