//! The decisions of the live watch loop.

use vstd::prelude::*;
use vstd::string::*;

use crate::text::text_eq;
use crate::watch_events::WatchChangeSet;

verus! {

/// Decide whether the terminal should receive ANSI clear-screen sequences.
pub fn supports_watch_screen_clear_with_platform(
    term: Option<&str>,
    is_windows: bool,
    windows_stdout_supports_ansi: bool,
) -> (r: bool)
    ensures
        r == match term {
            Some(name) => name@ != "dumb"@,
            None => !is_windows || windows_stdout_supports_ansi,
        },
{
    match term {
        Some(name) => !text_eq(name, "dumb"),
        None => !is_windows || windows_stdout_supports_ansi,
    }
}

/// Decide whether the terminal should receive ANSI clear-screen sequences. `windows_console` is what
/// the probe of the Windows console says of them, and absent on any other platform.
pub fn supports_watch_screen_clear(term: Option<&str>, windows_console: Option<bool>) -> (r: bool)
    ensures
        r == match term {
            Some(name) => name@ != "dumb"@,
            None => windows_console != Some(false),
        },
{
    let (is_windows, supports_ansi) = match windows_console {
        Some(supported) => (true, supported),
        None => (false, false),
    };
    supports_watch_screen_clear_with_platform(term, is_windows, supports_ansi)
}

/// Check that watch mode has a terminal to draw on.
pub fn require_terminal(stdout_is_terminal: bool) -> (r: Result<(), String>)
    ensures
        match r {
            Ok(_) => stdout_is_terminal,
            Err(message) => !stdout_is_terminal && message@
                == "watch mode requires a terminal stdout"@,
        },
{
    if stdout_is_terminal {
        Ok(())
    } else {
        Err(String::from_str("watch mode requires a terminal stdout"))
    }
}

/// Check that watch mode can clear the screen.
pub fn require_screen_clear(supported: bool) -> (r: Result<(), String>)
    ensures
        match r {
            Ok(_) => supported,
            Err(message) => !supported && message@
                == "watch mode requires a terminal with ANSI screen-clearing support"@,
        },
{
    if supported {
        Ok(())
    } else {
        Err(String::from_str("watch mode requires a terminal with ANSI screen-clearing support"))
    }
}

/// Time between two attempts to refresh stale prices, in nanoseconds.
pub const PRICING_RETRY_INTERVAL: i128 = 300_000_000_000;

/// Whether prices that ought to be refreshed are to be refreshed now: the first time at once, and
/// again when the last attempt lies far enough back.
pub open spec fn refresh_due(wanted: bool, now: i128, last_attempt: Option<i128>) -> bool {
    wanted && match last_attempt {
        Some(attempted_at) => now - attempted_at >= PRICING_RETRY_INTERVAL,
        None => true,
    }
}

/// Decide whether watch mode should refresh pricing before the next redraw, where `refresh_wanted`
/// says whether the price cache asks for it. Times are nanoseconds since the epoch.
pub fn watch_pricing_refresh_due(
    refresh_wanted: bool,
    now: i128,
    last_refresh_attempt_at: Option<i128>,
) -> (due: bool)
    ensures
        due == refresh_due(refresh_wanted, now, last_refresh_attempt_at),
{
    if !refresh_wanted {
        return false;
    }
    match last_refresh_attempt_at {
        Some(attempted_at) => {
            if now < attempted_at {
                return false;
            }
            match now.checked_sub(attempted_at) {
                Some(elapsed) => elapsed >= PRICING_RETRY_INTERVAL,
                None => true,
            }
        },
        None => true,
    }
}

/// What the watch loop remembers from one redraw to the next.
#[derive(Clone, Copy, Debug)]
pub struct WatchLoop {
    /// When a refresh of the prices was last attempted.
    pub last_pricing_refresh_attempt_at: Option<i128>,
}

impl WatchLoop {
    /// Start the loop. Loading the prices counts as an attempt to refresh them where the user asks
    /// for one, or the price cache does, and the network may be used.
    pub fn start(now: i128, offline: bool, refresh_pricing: bool, refresh_wanted: bool) -> (state:
        WatchLoop)
        ensures
            state.last_pricing_refresh_attempt_at == if !offline && (refresh_pricing
                || refresh_wanted) {
                Some(now)
            } else {
                None::<i128>
            },
    {
        let attempted = !offline && (refresh_pricing || refresh_wanted);
        WatchLoop {
            last_pricing_refresh_attempt_at: if attempted {
                Some(now)
            } else {
                None
            },
        }
    }

    /// Decide whether the prices are refreshed before the next redraw, and remember the attempt.
    pub fn attempt_pricing_refresh(&mut self, refresh_wanted: bool, now: i128) -> (due: bool)
        ensures
            due == refresh_due(refresh_wanted, now, old(self).last_pricing_refresh_attempt_at),
            final(self).last_pricing_refresh_attempt_at == if due {
                Some(now)
            } else {
                old(self).last_pricing_refresh_attempt_at
            },
    {
        let due = watch_pricing_refresh_due(
            refresh_wanted,
            now,
            self.last_pricing_refresh_attempt_at,
        );
        if due {
            self.last_pricing_refresh_attempt_at = Some(now);
        }
        due
    }
}

/// Ask for rediscovery where a session root has appeared.
pub fn note_new_root(changes: &mut WatchChangeSet, discovered_new_root: bool)
    ensures
        final(changes).dirty_sessions == old(changes).dirty_sessions,
        final(changes).discovery_due == (old(changes).discovery_due || discovered_new_root),
{
    changes.discovery_due = changes.discovery_due || discovered_new_root;
}

/// Two refreshes of the prices never follow each other within the retry interval.
pub proof fn law_price_refreshes_keep_their_distance(first: i128, second: i128, wanted: bool)
    requires
        refresh_due(wanted, second, Some(first)),
    ensures
        second - first >= PRICING_RETRY_INTERVAL,
{
}

} // verus!
